//! Locally durable records of sent messages.
//!
//! A message row references the sender's and the channel's external ids;
//! both must resolve against the directory mirrors, which the callers
//! guarantee by reconciling before writing.  The send timestamp is assigned
//! at persistence time, not at external-delivery time.

use crate::directory::{contains_id, contains_name, DirEntry};
use crate::error::CustomError;
use crate::models::channel::{Channel, ChannelMirror};
use crate::models::user::{User, UserMirror};
use vstd::prelude::*;

verus! {

/// Abstract message record.
pub struct MessageEntry {
    pub id: int,
    pub sender: Seq<char>,
    pub body: Seq<char>,
    pub channel: Seq<char>,
    pub time_sent: int,
}

/// A stored message: generated id, sender external id, body, channel
/// external id, and the epoch-second send timestamp.
#[derive(Debug, Clone, PartialEq)]
pub struct Message {
    pub id: i32,
    pub sender: String,
    pub body: String,
    pub channel: String,
    pub time_sent: i64,
}

/// A message row about to be persisted.
#[derive(Debug, Clone)]
pub struct NewMessage {
    pub sender: String,
    pub body: String,
    pub channel: String,
    pub time_sent: i64,
}

/// What a caller of the send endpoint provides: target channel, text, and
/// the sender's username.
#[derive(Debug, Clone, PartialEq)]
pub struct FormData {
    pub channel: String,
    pub text: String,
    pub username: String,
}

impl View for Message {
    type V = MessageEntry;

    open spec fn view(&self) -> MessageEntry {
        MessageEntry {
            id: self.id as int,
            sender: self.sender@,
            body: self.body@,
            channel: self.channel@,
            time_sent: self.time_sent as int,
        }
    }
}

impl DeepView for Message {
    type V = MessageEntry;

    open spec fn deep_view(&self) -> MessageEntry {
        self@
    }
}

/// The stored table of message records.
#[derive(Debug)]
pub struct MessageLog {
    pub rows: Vec<Message>,
}

impl View for MessageLog {
    type V = Seq<MessageEntry>;

    open spec fn view(&self) -> Seq<MessageEntry> {
        self.rows.deep_view()
    }
}

impl MessageLog {
    /// An empty log.
    pub fn new() -> (log: MessageLog)
        ensures
            log@ =~= Seq::<MessageEntry>::empty(),
    {
        MessageLog { rows: Vec::new() }
    }
}

/// Every message's sender and channel references resolve in the mirrors.
pub open spec fn log_refs_ok(
    log: Seq<MessageEntry>,
    users: Seq<DirEntry>,
    channels: Seq<DirEntry>,
) -> bool {
    forall|i: int|
        0 <= i < log.len() ==> contains_id(users, #[trigger] log[i].sender) && contains_id(
            channels,
            log[i].channel,
        )
}

impl NewMessage {
    /// Persist a message: resolve the sender's username to an external id,
    /// resolve the channel id, and append the record with the timestamp
    /// assigned now.  Fails, leaving the log unchanged, when either
    /// reference does not resolve.
    pub fn create(
        log: &mut MessageLog,
        users: &UserMirror,
        channels: &ChannelMirror,
        form: &FormData,
        now: i64,
    ) -> (r: Result<Message, CustomError>)
        requires
            old(log)@.len() < 0x7fffffff,
        ensures
            (r is Ok) == (contains_name(users@, form.username@) && contains_id(
                channels@,
                form.channel@,
            )),
            r matches Ok(message) ==> {
                &&& final(log)@ == old(log)@.push(message@)
                &&& message@.id == old(log)@.len() + 1
                &&& message.body@ == form.text@
                &&& message.channel@ == form.channel@
                &&& message.time_sent == now
                &&& contains_id(users@, message.sender@)
                &&& exists|i: int|
                    {
                        &&& 0 <= i < users@.len()
                        &&& #[trigger] users@[i].name == form.username@
                        &&& message.sender@ == users@[i].id
                        &&& forall|j: int| 0 <= j < i ==> users@[j].name != form.username@
                    }
            },
            r matches Err(e) ==> e is StorageError && final(log)@ == old(log)@,
            log_refs_ok(old(log)@, users@, channels@) && r is Ok ==> log_refs_ok(
                final(log)@,
                users@,
                channels@,
            ),
    {
        let sender = User::find_by_username(users, form.username.as_str())?;
        let ghost sender_index = choose|i: int|
            {
                &&& 0 <= i < users@.len()
                &&& #[trigger] users@[i] == sender@
                &&& users@[i].name == form.username@
                &&& forall|j: int| 0 <= j < i ==> users@[j].name != form.username@
            };
        let channel = Channel::find_by_channel_id(channels, form.channel.clone())?;
        let id_usize = log.rows.len();
        let row = Message {
            id: (id_usize as i32) + 1,
            sender: sender.slack_id,
            body: form.text.clone(),
            channel: channel.id,
            time_sent: now,
        };
        let returned = Message {
            id: row.id,
            sender: row.sender.clone(),
            body: row.body.clone(),
            channel: row.channel.clone(),
            time_sent: row.time_sent,
        };
        proof {
            assert(row@ == returned@);
            assert(users@[sender_index].id == returned.sender@);
        }
        let ghost prev = log@;
        log.rows.push(row);
        proof {
            assert(log@ =~= prev.push(returned@));
            assert(contains_id(users@, returned.sender@)) by {
                assert(users@[sender_index].id == returned.sender@);
            }
            if log_refs_ok(prev, users@, channels@) {
                let ghost channel_index = choose|i: int|
                    0 <= i < channels@.len() && #[trigger] channels@[i].id == form.channel@;
                assert forall|i: int| 0 <= i < log@.len() implies contains_id(
                    users@,
                    #[trigger] log@[i].sender,
                ) && contains_id(channels@, log@[i].channel) by {
                    if i < prev.len() {
                        assert(log@[i] == prev[i]);
                    }
                }
            }
        }
        Ok(returned)
    }
}

} // verus!
