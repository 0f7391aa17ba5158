use slack_relay::models::channel::{Channel, ChannelMirror, NewChannel};
use slack_relay::models::slack_responses::{SlackChannel, SlackUser, TopicPurpose};
use slack_relay::models::user::{NewUser, User, UserMirror};
use slack_relay::{fetch_slack_user_by_username, fetch_slack_users, insert_slack_users};

fn member(id: &str, name: &str) -> SlackUser {
    SlackUser {
        id: id.to_string(),
        is_admin: false,
        name: name.to_string(),
        real_name: name.to_string(),
    }
}

fn channel(id: &str, name: &str) -> SlackChannel {
    SlackChannel {
        created: 0,
        creator: String::new(),
        id: id.to_string(),
        name: name.to_string(),
        name_normalized: name.to_string(),
        parent_conversation: None,
        previous_names: Vec::new(),
        purpose: TopicPurpose {
            creator: String::new(),
            last_set: 0,
            value: String::new(),
        },
        topic: TopicPurpose {
            creator: String::new(),
            last_set: 0,
            value: String::new(),
        },
    }
}

#[test]
fn sync_inserts_only_missing_members() {
    let mut mirror = UserMirror::new();
    let inserted =
        User::sync_api_users(&mut mirror, vec![member("U1", "alice"), member("U2", "bob")])
            .unwrap();
    assert_eq!(inserted.len(), 2);
    assert_eq!(mirror.rows.len(), 2);
    assert_eq!(mirror.rows[0].slack_id, "U1");
    assert_eq!(mirror.rows[1].slack_uname, "bob");

    let second =
        User::sync_api_users(&mut mirror, vec![member("U2", "bob"), member("U3", "carol")])
            .unwrap();
    assert_eq!(second.len(), 1);
    assert_eq!(second[0].slack_id, "U3");
    assert_eq!(mirror.rows.len(), 3);
}

#[test]
fn sync_is_idempotent() {
    let mut mirror = UserMirror::new();
    let listing = vec![member("U1", "alice"), member("U2", "bob")];
    let first = User::sync_api_users(&mut mirror, listing.clone()).unwrap();
    assert_eq!(first.len(), 2);
    let after_first: Vec<(String, String)> = mirror
        .rows
        .iter()
        .map(|u| (u.slack_id.clone(), u.slack_uname.clone()))
        .collect();

    let second = User::sync_api_users(&mut mirror, listing).unwrap();
    assert!(second.is_empty());
    let after_second: Vec<(String, String)> = mirror
        .rows
        .iter()
        .map(|u| (u.slack_id.clone(), u.slack_uname.clone()))
        .collect();
    assert_eq!(after_first, after_second);
}

#[test]
fn racing_syncs_leave_one_row_and_no_error() {
    let mut mirror = ChannelMirror::new();
    let first = Channel::sync_api_channels(&mut mirror, vec![channel("C9", "general")]);
    let second = Channel::sync_api_channels(&mut mirror, vec![channel("C9", "general")]);
    assert!(first.is_ok());
    assert!(second.is_ok());
    assert!(second.unwrap().is_empty());
    let count = mirror.rows.iter().filter(|c| c.id == "C9").count();
    assert_eq!(count, 1);
}

#[test]
fn sync_never_updates_existing_rows() {
    let mut mirror = ChannelMirror::new();
    Channel::sync_api_channels(&mut mirror, vec![channel("C1", "old-name")]).unwrap();
    Channel::sync_api_channels(&mut mirror, vec![channel("C1", "new-name")]).unwrap();
    assert_eq!(mirror.rows.len(), 1);
    assert_eq!(mirror.rows[0].channel_name, "old-name");
}

#[test]
fn duplicate_listing_entries_are_inserted_once() {
    let mut mirror = UserMirror::new();
    let inserted =
        User::sync_api_users(&mut mirror, vec![member("U1", "alice"), member("U1", "alias")])
            .unwrap();
    assert_eq!(inserted.len(), 1);
    assert_eq!(mirror.rows.len(), 1);
    assert_eq!(mirror.rows[0].slack_uname, "alice");
}

#[test]
fn create_many_rejects_colliding_batch() {
    let mut mirror = UserMirror::new();
    let ok = insert_slack_users(
        &mut mirror,
        vec![NewUser {
            slack_id: "U1".to_string(),
            slack_uname: "alice".to_string(),
        }],
    );
    assert!(ok.is_ok());
    let clash = insert_slack_users(
        &mut mirror,
        vec![NewUser {
            slack_id: "U1".to_string(),
            slack_uname: "imposter".to_string(),
        }],
    );
    assert!(matches!(
        clash,
        Err(slack_relay::CustomError::StorageError(_))
    ));
    assert_eq!(mirror.rows.len(), 1);
    assert_eq!(mirror.rows[0].slack_uname, "alice");
}

#[test]
fn create_many_rejects_duplicate_within_batch() {
    let mut mirror = ChannelMirror::new();
    let clash = NewChannel::create_many(
        &mut mirror,
        vec![
            NewChannel {
                channel_id: "C1".to_string(),
                channel_name: "a".to_string(),
            },
            NewChannel {
                channel_id: "C1".to_string(),
                channel_name: "b".to_string(),
            },
        ],
    );
    assert!(clash.is_err());
    assert!(mirror.rows.is_empty());
}

#[test]
fn lookups_and_listings() {
    let mut mirror = UserMirror::new();
    User::sync_api_users(&mut mirror, vec![member("U1", "alice"), member("U2", "bob")]).unwrap();
    let found = fetch_slack_user_by_username(&mirror, "bob").unwrap();
    assert_eq!(found.slack_id, "U2");
    assert!(fetch_slack_user_by_username(&mirror, "nobody").is_err());
    let all = fetch_slack_users(&mirror).unwrap();
    assert_eq!(all.len(), 2);

    let mut channels = ChannelMirror::new();
    Channel::sync_api_channels(&mut channels, vec![channel("C1", "general")]).unwrap();
    let c = Channel::find_by_channel_id(&channels, "C1".to_string()).unwrap();
    assert_eq!(c.channel_name, "general");
    assert!(Channel::find_by_channel_id(&channels, "C2".to_string()).is_err());
    assert_eq!(Channel::all(&channels).unwrap().len(), 1);
}
