//! The events that the service delivers.

use crate::state::ReadyEvent;
use crate::types::{
    Channel, ChannelId, CurrentUser, LiveServer, Member, MessageId, Role, RoleId, ServerId, User,
    UserId,
};
use vstd::prelude::*;

verus! {

/// A file sent along with a message.
#[derive(Debug, PartialEq, Eq)]
pub struct Attachment {
    pub proxy_url: String,
}

/// A message as the service delivers it.
#[derive(Debug, PartialEq, Eq)]
pub struct Message {
    pub id: MessageId,
    pub channel_id: ChannelId,
    pub content: String,
    pub author: User,
    pub mention_everyone: bool,
    pub mentions: Vec<User>,
    pub mention_roles: Vec<RoleId>,
    pub attachments: Vec<Attachment>,
}

/// One event of the stream. `Unknown` stands for every kind of event that
/// this vocabulary does not name.
#[derive(Debug, PartialEq, Eq)]
#[allow(inconsistent_fields)]
pub enum Event {
    Ready(ReadyEvent),
    UserUpdate(CurrentUser),
    MessageCreate(Message),
    MessageUpdate {
        id: MessageId,
        channel_id: ChannelId,
        content: Option<String>,
        author: Option<User>,
        mention_everyone: Option<bool>,
        mentions: Option<Vec<User>>,
        mention_roles: Option<Vec<RoleId>>,
        attachments: Option<Vec<Attachment>>,
    },
    MessageDelete { channel_id: ChannelId, message_id: MessageId },
    ServerCreate(LiveServer),
    ServerUpdate { server_id: ServerId, name: String },
    ServerDelete(ServerId),
    ServerMemberAdd(ServerId, Member),
    ServerMemberUpdate { server_id: ServerId, roles: Vec<RoleId>, user: User, nick: Option<String> },
    ServerMemberRemove(ServerId, User),
    ServerMembersChunk(ServerId, Vec<Member>),
    ServerSync { server_id: ServerId, members: Vec<Member> },
    ServerRoleCreate(ServerId, Role),
    ServerRoleUpdate(ServerId, Role),
    ServerRoleDelete(ServerId, RoleId),
    ChannelCreate(Channel),
    ChannelUpdate(Channel),
    ChannelDelete(Channel),
    ChannelRecipientAdd(ChannelId, User),
    ChannelRecipientRemove(ChannelId, User),
    PresenceUpdate { server_id: Option<ServerId>, user: Option<User> },
    TypingStart { channel_id: ChannelId, user_id: UserId },
    Unknown(String),
}

} // verus!
