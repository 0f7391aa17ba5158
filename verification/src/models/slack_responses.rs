//! Shapes of the remote workspace API's responses, as plain values.
//!
//! The network layer outside this crate deserialises the raw JSON bodies and
//! hands these structs to the core.  Members and channels abstract to
//! directory entries keyed by their external id.

use crate::directory::DirEntry;
use vstd::prelude::*;

verus! {

/// Response to posting a message: the delivery receipt.
#[derive(Debug, Clone)]
pub struct MessageSent {
    pub channel: String,
    pub message: SlackMessage,
    pub ok: bool,
}

/// The message object inside a delivery receipt.
#[derive(Debug, Clone)]
pub struct SlackMessage {
    pub app_id: String,
    pub bot_id: String,
    pub subtype: String,
    pub text: String,
    pub kind: String,
    pub username: String,
}

/// Response to listing the workspace's channels.
#[derive(Debug, Clone)]
pub struct ChannelsList {
    pub channels: Vec<SlackChannel>,
    pub ok: bool,
}

/// Response to asking for a single channel.
#[derive(Debug, Clone)]
pub struct SingleChannel {
    pub channel: SlackChannel,
    pub ok: bool,
}

/// A channel object as the remote API reports it.
#[derive(Debug, Clone)]
pub struct SlackChannel {
    pub created: usize,
    pub creator: String,
    pub id: String,
    pub name: String,
    pub name_normalized: String,
    pub parent_conversation: Option<String>,
    pub previous_names: Vec<String>,
    pub purpose: TopicPurpose,
    pub topic: TopicPurpose,
}

/// The topic and purpose fields of a channel.
#[derive(Debug, Clone)]
pub struct TopicPurpose {
    pub creator: String,
    pub last_set: usize,
    pub value: String,
}

/// Response to listing the workspace's members.
#[derive(Debug, Clone)]
pub struct UsersList {
    pub members: Vec<SlackUser>,
}

/// A member object as the remote API reports it.
#[derive(Debug, Clone)]
pub struct SlackUser {
    pub id: String,
    pub is_admin: bool,
    pub name: String,
    pub real_name: String,
}

/// The remote API's explicit failure body.
#[derive(Debug, Clone)]
pub struct SlackError {
    pub ok: bool,
    pub error: String,
}

impl View for SlackUser {
    type V = DirEntry;

    open spec fn view(&self) -> DirEntry {
        DirEntry { id: self.id@, name: self.name@ }
    }
}

impl DeepView for SlackUser {
    type V = DirEntry;

    open spec fn deep_view(&self) -> DirEntry {
        self@
    }
}

impl View for SlackChannel {
    type V = DirEntry;

    open spec fn view(&self) -> DirEntry {
        DirEntry { id: self.id@, name: self.name@ }
    }
}

impl DeepView for SlackChannel {
    type V = DirEntry;

    open spec fn deep_view(&self) -> DirEntry {
        self@
    }
}

} // verus!
