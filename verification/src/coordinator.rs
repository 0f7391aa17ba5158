//! The message-send coordinator: tie an external delivery to a durable
//! local record, in a fixed order.
//!
//! The network layer performs the external send and hands the outcome to
//! `complete_send`, which (1) propagates a failed delivery without touching
//! local state, and on success (2) reconciles the reported channel into the
//! channel mirror — a one-element listing, enough to make the reference
//! resolvable — and (3) persists the message row, timestamped now.  No
//! compensation exists if the local write fails after the external system
//! has already delivered: the error is surfaced distinctly instead.

use crate::directory::{contains_id, contains_name, sync_spec, DirEntry};
use crate::error::CustomError;
use crate::models::channel::{Channel, ChannelMirror};
use crate::models::message::{FormData, MessageLog, NewMessage};
use crate::models::slack_responses::{MessageSent, SlackChannel, TopicPurpose};
use crate::models::user::UserMirror;
use vstd::prelude::*;

verus! {

/// How the external delivery call ended: a receipt, an explicit failure
/// reported by the remote API, or a transport failure (the only kind worth a
/// caller-side retry).
#[derive(Debug)]
pub enum DeliveryOutcome {
    Delivered(MessageSent),
    UpstreamFailure(String),
    TransportFailure(String),
}

/// The one-element channel listing derived from a delivery receipt: only the
/// reported identity is known at this point, so it stands in for the name
/// too (mirrored names are never corrected afterwards either way).
pub open spec fn discovered_channel(channel_id: Seq<char>) -> DirEntry {
    DirEntry { id: channel_id, name: channel_id }
}

/// Complete a message send after the external call returned.
///
/// A failed delivery is propagated as its distinct error kind and nothing
/// local changes.  On a receipt, the reported channel is reconciled into the
/// mirror first (an id that lost a race to an earlier insert is already
/// synced, not an error), and only then is the message row persisted,
/// referencing the reported channel and the sender resolved from the member
/// mirror; the receipt is handed back to the caller.
pub fn complete_send(
    channels: &mut ChannelMirror,
    users: &UserMirror,
    log: &mut MessageLog,
    outcome: DeliveryOutcome,
    form: &FormData,
    now: i64,
) -> (r: Result<MessageSent, CustomError>)
    requires
        old(channels).wf(),
        old(log)@.len() < 0x7fffffff,
    ensures
        outcome matches DeliveryOutcome::TransportFailure(reason) ==> {
            &&& r matches Err(e) && e is TransportError && e.spec_message() == reason@
            &&& final(channels)@ == old(channels)@
            &&& final(log)@ == old(log)@
        },
        outcome matches DeliveryOutcome::UpstreamFailure(reason) ==> {
            &&& r matches Err(e) && e is UpstreamError && e.spec_message() == reason@
            &&& final(channels)@ == old(channels)@
            &&& final(log)@ == old(log)@
        },
        outcome matches DeliveryOutcome::Delivered(receipt) ==> {
            &&& final(channels)@ == sync_spec(
                old(channels)@,
                seq![discovered_channel(receipt.channel@)],
            )
            &&& final(channels).wf()
            &&& contains_id(final(channels)@, receipt.channel@)
            &&& (r is Ok) == contains_name(users@, form.username@)
            &&& r matches Ok(returned) ==> returned == receipt
            &&& r matches Ok(_) ==> ({
                let stored = final(log)@.last();
                &&& final(log)@ == old(log)@.push(stored)
                &&& stored.channel == receipt.channel@
                &&& stored.body == form.text@
                &&& stored.time_sent == now
                &&& contains_id(users@, stored.sender)
            })
            &&& r matches Err(e) ==> e is StorageError && final(log)@ == old(log)@
        },
{
    let receipt = match outcome {
        DeliveryOutcome::TransportFailure(reason) => {
            return Err(CustomError::TransportError(reason));
        },
        DeliveryOutcome::UpstreamFailure(reason) => {
            return Err(CustomError::UpstreamError(reason));
        },
        DeliveryOutcome::Delivered(receipt) => receipt,
    };
    let discovered = SlackChannel {
        created: 0,
        creator: String::new(),
        id: receipt.channel.clone(),
        name: receipt.channel.clone(),
        name_normalized: String::new(),
        parent_conversation: None,
        previous_names: Vec::new(),
        purpose: TopicPurpose { creator: String::new(), last_set: 0, value: String::new() },
        topic: TopicPurpose { creator: String::new(), last_set: 0, value: String::new() },
    };
    let mut listing: Vec<SlackChannel> = Vec::new();
    listing.push(discovered);
    proof {
        assert(listing.deep_view() =~= seq![discovered_channel(receipt.channel@)]);
    }
    let synced = Channel::sync_api_channels(channels, listing);
    proof {
        assert(synced is Ok);
        assert(contains_id(channels@, receipt.channel@)) by {
            crate::directory::lemma_sync_contains(
                old(channels)@,
                seq![discovered_channel(receipt.channel@)],
                receipt.channel@,
            );
            assert(seq![discovered_channel(receipt.channel@)][0].id == receipt.channel@);
        }
    }
    let record_form = FormData {
        channel: receipt.channel.clone(),
        text: form.text.clone(),
        username: form.username.clone(),
    };
    let stored = NewMessage::create(log, users, channels, &record_form, now);
    match stored {
        Ok(message) => {
            proof {
                assert(log@.last() == message@);
            }
            Ok(receipt)
        },
        Err(_) => Err(CustomError::StorageError(String::from_str("message row not persisted"))),
    }
}

} // verus!
