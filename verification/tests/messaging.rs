use slack_relay::coordinator::{complete_send, DeliveryOutcome};
use slack_relay::models::channel::{Channel, ChannelMirror};
use slack_relay::models::message::{FormData, MessageLog, NewMessage};
use slack_relay::models::slack_responses::{MessageSent, SlackMessage, SlackUser};
use slack_relay::models::user::{User, UserMirror};
use slack_relay::{store_message, CustomError};

fn members() -> UserMirror {
    let mut mirror = UserMirror::new();
    User::sync_api_users(
        &mut mirror,
        vec![SlackUser {
            id: "U1".to_string(),
            is_admin: false,
            name: "alice".to_string(),
            real_name: "Alice".to_string(),
        }],
    )
    .unwrap();
    mirror
}

fn receipt_for(channel: &str) -> MessageSent {
    MessageSent {
        channel: channel.to_string(),
        message: SlackMessage {
            app_id: "A1".to_string(),
            bot_id: "B1".to_string(),
            subtype: "bot_message".to_string(),
            text: "hi there".to_string(),
            kind: "message".to_string(),
            username: "relay".to_string(),
        },
        ok: true,
    }
}

fn form() -> FormData {
    FormData {
        channel: "C1".to_string(),
        text: "hi there".to_string(),
        username: "alice".to_string(),
    }
}

#[test]
fn delivered_message_to_unknown_channel_mirrors_it_and_persists_one_row() {
    let users = members();
    let mut channels = ChannelMirror::new();
    let mut log = MessageLog::new();
    assert!(Channel::find_by_channel_id(&channels, "C1".to_string()).is_err());

    let outcome = DeliveryOutcome::Delivered(receipt_for("C1"));
    let returned = complete_send(&mut channels, &users, &mut log, outcome, &form(), 500).unwrap();
    assert_eq!(returned.channel, "C1");
    assert!(returned.ok);

    let mirrored = Channel::find_by_channel_id(&channels, "C1".to_string()).unwrap();
    assert_eq!(mirrored.id, "C1");
    assert_eq!(log.rows.len(), 1);
    assert_eq!(log.rows[0].channel, "C1");
    assert_eq!(log.rows[0].sender, "U1");
    assert_eq!(log.rows[0].body, "hi there");
    assert_eq!(log.rows[0].time_sent, 500);
}

#[test]
fn transport_failure_is_distinct_and_leaves_no_trace() {
    let users = members();
    let mut channels = ChannelMirror::new();
    let mut log = MessageLog::new();
    let outcome = DeliveryOutcome::TransportFailure("connection reset".to_string());
    let result = complete_send(&mut channels, &users, &mut log, outcome, &form(), 500);
    match result {
        Err(CustomError::TransportError(reason)) => {
            assert_eq!(reason, "connection reset");
        }
        other => panic!("expected a transport error, got {:?}", other),
    }
    assert!(channels.rows.is_empty());
    assert!(log.rows.is_empty());
}

#[test]
fn upstream_failure_is_distinct_and_leaves_no_trace() {
    let users = members();
    let mut channels = ChannelMirror::new();
    let mut log = MessageLog::new();
    let outcome = DeliveryOutcome::UpstreamFailure("channel_not_found".to_string());
    let result = complete_send(&mut channels, &users, &mut log, outcome, &form(), 500);
    match result {
        Err(CustomError::UpstreamError(reason)) => {
            assert_eq!(reason, "channel_not_found");
        }
        other => panic!("expected an upstream error, got {:?}", other),
    }
    assert!(channels.rows.is_empty());
    assert!(log.rows.is_empty());
}

#[test]
fn unknown_sender_fails_after_the_channel_was_mirrored() {
    let users = UserMirror::new();
    let mut channels = ChannelMirror::new();
    let mut log = MessageLog::new();
    let outcome = DeliveryOutcome::Delivered(receipt_for("C1"));
    let result = complete_send(&mut channels, &users, &mut log, outcome, &form(), 500);
    assert!(matches!(result, Err(CustomError::StorageError(_))));
    // Step 2 completed before step 3 failed: the channel is mirrored, the
    // message is not recorded (the accepted compensation gap).
    assert!(Channel::find_by_channel_id(&channels, "C1".to_string()).is_ok());
    assert!(log.rows.is_empty());
}

#[test]
fn create_resolves_both_references() {
    let users = members();
    let mut channels = ChannelMirror::new();
    let mut log = MessageLog::new();
    complete_send(
        &mut channels,
        &users,
        &mut log,
        DeliveryOutcome::Delivered(receipt_for("C1")),
        &form(),
        100,
    )
    .unwrap();

    let unknown_channel = NewMessage::create(
        &mut log,
        &users,
        &channels,
        &FormData {
            channel: "C404".to_string(),
            text: "x".to_string(),
            username: "alice".to_string(),
        },
        200,
    );
    assert!(unknown_channel.is_err());
    assert_eq!(log.rows.len(), 1);

    let stored = NewMessage::create(
        &mut log,
        &users,
        &channels,
        &FormData {
            channel: "C1".to_string(),
            text: "second".to_string(),
            username: "alice".to_string(),
        },
        200,
    )
    .unwrap();
    assert_eq!(stored.id, 2);
    assert_eq!(stored.sender, "U1");
    assert_eq!(log.rows.len(), 2);
}

#[test]
fn store_message_appends_verbatim() {
    let mut log = MessageLog::new();
    let message = store_message(&mut log, "U1", "hello", "C1", 42);
    assert_eq!(message.id, 1);
    assert_eq!(message.sender, "U1");
    assert_eq!(message.body, "hello");
    assert_eq!(message.channel, "C1");
    assert_eq!(message.time_sent, 42);
    assert_eq!(log.rows.len(), 1);
}

#[test]
fn every_error_kind_maps_to_one_status() {
    let cases = vec![
        (CustomError::AuthenticationError("a".to_string()), 401),
        (CustomError::ValidationError("v".to_string()), 400),
        (CustomError::UpstreamError("u".to_string()), 502),
        (CustomError::TransportError("t".to_string()), 503),
        (CustomError::StorageError("s".to_string()), 500),
    ];
    for (error, status) in cases {
        assert_eq!(error.http_status(), status);
    }
}
