//! The typed shapes of event payloads.
//!
//! The session core treats an event payload as opaque text beyond its
//! author; these records are the payload data model that a handler can ask
//! the surrounding application to parse a payload into.

use vstd::prelude::*;

verus! {

use crate::objects::{Channel, NotifyType, Role};

/// Marker for the numeric `type` member a payload shape carries.
#[derive(Debug, Clone, Copy, PartialEq, Eq)]
pub struct EventType<const V: u8>;

#[derive(Debug, Clone, PartialEq, Eq)]
pub struct SystemEvent {
    pub channel_type: String,
    pub target_id: String,
    pub author_id: String,
    pub content: String,
    pub extra: SystemExtra,
    pub msg_id: String,
    pub msg_timestamp: i64,
    pub nonce: String,
}

#[derive(Debug, Clone, PartialEq, Eq)]
pub enum SystemExtra {
    AddedReaction { channel_id: String, emoji: Emoji, user_id: String, msg_id: String },
    DeletedReaction { channel_id: String, emoji: Emoji, user_id: String, msg_id: String },
    UpdatedMessage {
        channel_id: String,
        content: String,
        mention: Vec<u64>,
        mention_all: bool,
        mention_here: bool,
        mention_roles: Vec<u64>,
        updated_at: i64,
        msg_id: String,
    },
    DeletedMessage { channel_id: String, msg_id: String },
    AddedChannel(Channel),
    UpdatedChannel(Channel),
    DeletedChannel { id: String, deleted_at: i64 },
    PinnedMessage { channel_id: String, operator_id: String, msg_id: String },
    UnpinnedMessage { channel_id: String, operator_id: String, msg_id: String },
    UpdatedPrivateMessage {
        content: String,
        author_id: String,
        target_id: String,
        msg_id: String,
        chat_code: String,
        updated_at: i64,
    },
    DeletedPrivateMessage {
        author_id: String,
        target_id: String,
        msg_id: String,
        chat_code: String,
        deleted_at: i64,
    },
    PrivateAddedReaction { emoji: Emoji, user_id: String, chat_code: String, msg_id: String },
    PrivateDeletedReaction { emoji: Emoji, user_id: String, chat_code: String, msg_id: String },
    JoinedGuild { user_id: String, joined_at: i64 },
    ExitedGuild { user_id: String, exited_at: i64 },
    UpdatedGuildMember { user_id: String, nickname: String },
    GuildMemberOnline { user_id: String, event_time: i64, guilds: Vec<String> },
    GuildMemberOffline { user_id: String, event_time: i64, guilds: Vec<String> },
    AddedRole(Role),
    DeletedRole(Role),
    UpdatedRole(Role),
    UpdatedGuild {
        id: String,
        name: String,
        user_id: String,
        icon: String,
        notify_type: NotifyType,
        region: String,
        enable_open: bool,
        open_id: i64,
        default_channel_id: String,
        welcome_channel_id: String,
    },
    DeletedGuild {
        id: String,
        name: String,
        user_id: String,
        icon: String,
        notify_type: NotifyType,
        region: String,
        enable_open: bool,
        open_id: i64,
        default_channel_id: String,
        welcome_channel_id: String,
    },
    AddedBlockList { operator_id: String, remark: String, user_id: Vec<String> },
    DeletedBlockList { operator_id: String, user_id: Vec<String> },
    AddedEmoji { id: String, name: String },
    RemovedEmoji { id: String, name: String },
    UpdatedEmoji { id: String, name: String },
    JoinedChannel { user_id: String, channel_id: String, joined_at: i64 },
    ExitedChannel { user_id: String, channel_id: String, exited_at: i64 },
    UserUpdated { user_id: String, username: String, avatar: String },
    SelfJoinedGuild { guild_id: String },
    SelfExitedGuild { guild_id: String },
    MessageBtnClick { value: String, msg_id: String, user_id: String, target_id: String },
}

#[derive(Debug, Clone, PartialEq, Eq)]
pub struct TextEvent {
    pub channel_type: String,
    pub target_id: String,
    pub author_id: String,
    pub content: String,
    pub extra: TextExtra,
    pub msg_id: String,
    pub msg_timestamp: i64,
    pub nonce: String,
}

#[derive(Debug, Clone, PartialEq, Eq)]
pub struct TextExtra {
    pub guild_id: String,
    pub channel_name: String,
    pub mention: Vec<String>,
    pub mention_all: bool,
    pub mention_roles: Vec<u64>,
    pub mention_here: bool,
    pub code: String,
    pub author: Author,
}

#[derive(Debug, Clone, PartialEq, Eq)]
pub struct ImageEvent {
    pub channel_type: String,
    pub target_id: String,
    pub author_id: String,
    pub content: String,
    pub extra: ImageExtra,
    pub msg_id: String,
    pub msg_timestamp: i64,
    pub nonce: String,
}

#[derive(Debug, Clone, PartialEq, Eq)]
pub struct ImageExtra {
    pub code: String,
    pub guild_id: String,
    pub attachments: ImageAttachments,
    pub author: Author,
}

#[derive(Debug, Clone, PartialEq, Eq)]
pub struct ImageAttachments {
    pub attachments_type: String,
    pub name: String,
    pub url: String,
}

#[derive(Debug, Clone, PartialEq, Eq)]
pub struct FileEvent {
    pub channel_type: String,
    pub target_id: String,
    pub author_id: String,
    pub content: String,
    pub extra: FileExtra,
    pub msg_id: String,
    pub msg_timestamp: i64,
    pub nonce: String,
}

#[derive(Debug, Clone, PartialEq, Eq)]
pub struct FileExtra {
    pub guild_id: String,
    pub code: String,
    pub attachments: FileAttachments,
    pub author: Author,
}

#[derive(Debug, Clone, PartialEq, Eq)]
pub struct FileAttachments {
    pub attachments_type: String,
    pub url: String,
    pub name: String,
    pub file_type: String,
    pub size: i64,
}

#[derive(Debug, Clone, PartialEq, Eq)]
pub struct KMarkdownEvent {
    pub channel_type: String,
    pub target_id: String,
    pub author_id: String,
    pub content: String,
    pub extra: KMarkdownExtra,
    pub msg_id: String,
    pub msg_timestamp: i64,
    pub nonce: String,
}

#[derive(Debug, Clone, PartialEq, Eq)]
pub struct KMarkdownExtra {
    pub guild_id: String,
    pub channel_name: String,
    pub mention: Vec<String>,
    pub mention_all: bool,
    pub mention_roles: Vec<u64>,
    pub mention_here: bool,
    pub nav_channels: Vec<String>,
    pub code: String,
    pub author: AuthorInfo,
    pub kmarkdown: Kmarkdown,
}

#[derive(Debug, Clone, PartialEq, Eq)]
pub struct AuthorInfo {
    pub id: String,
    pub username: String,
    pub identify_num: String,
    pub online: bool,
    pub os: String,
    pub status: i64,
    pub avatar: String,
    pub nickname: String,
    pub roles: Vec<u64>,
}

#[derive(Debug, Clone, PartialEq, Eq)]
pub struct Kmarkdown {
    pub raw_content: String,
    pub mention_part: Vec<MentionPart>,
    pub mention_role_part: Vec<MentionPart>,
}

#[derive(Debug, Clone, PartialEq, Eq)]
pub struct MentionPart {
    pub id: String,
    pub username: String,
    pub full_name: String,
    pub avatar: String,
}

#[derive(Debug, Clone, PartialEq, Eq)]
pub struct CardEvent {
    pub channel_type: String,
    pub target_id: String,
    pub author_id: String,
    pub content: String,
    pub extra: CardExtra,
    pub msg_id: String,
    pub msg_timestamp: i64,
    pub nonce: String,
}

#[derive(Debug, Clone, PartialEq, Eq)]
pub struct CardExtra {
    pub guild_id: String,
    pub channel_name: String,
    pub mention: Vec<String>,
    pub mention_all: bool,
    pub mention_roles: Vec<u64>,
    pub mention_here: bool,
    pub nav_channels: Vec<String>,
    pub code: String,
    pub author: AuthorInfo,
}

#[derive(Debug, Clone, PartialEq, Eq)]
pub struct ItemContent {
    pub item_content_type: String,
    pub data: ItemData,
}

#[derive(Debug, Clone, PartialEq, Eq)]
pub struct ItemData {
    pub user_id: String,
    pub target_id: String,
    pub item_id: i64,
}

#[derive(Debug, Clone, PartialEq, Eq)]
pub struct Emoji {
    pub id: String,
    pub name: String,
}

#[derive(Debug, Clone, PartialEq, Eq)]
pub struct Author {
    pub identify_num: String,
    pub avatar: String,
    pub username: String,
    pub id: String,
    pub nickname: String,
    pub roles: Vec<u64>,
}

} // verus!
