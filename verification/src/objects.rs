//! Platform objects: users, guilds, roles, channels.
//!
//! These are the flat record shapes the REST layer returns; the numeric
//! enumerations carry their wire codes through the functions below, since
//! the wire writes them as small integers.

use vstd::prelude::*;

verus! {

#[derive(Debug, Clone, PartialEq, Eq)]
pub struct User {
    pub id: String,
    pub username: String,
    pub nickname: String,
    pub identify_num: String,
    pub online: bool,
    pub bot: bool,
    pub status: UserStatus,
    pub avatar: String,
    pub vip_avatar: String,
    pub mobile_verified: bool,
    pub roles: Vec<u64>,
}

#[derive(Debug, Clone, PartialEq, Eq)]
pub struct Guild {
    pub id: String,
    pub name: String,
    pub topic: String,
    pub user_id: String,
    pub icon: String,
    pub notify_type: NotifyType,
    pub region: String,
    pub enable_open: bool,
    pub open_id: String,
    pub default_channel_id: String,
    pub welcome_channel_id: String,
    pub roles: Vec<Role>,
    pub channels: Vec<Channel>,
}

#[derive(Debug, Clone, PartialEq, Eq)]
pub struct Role {
    pub role_id: u64,
    pub name: String,
    pub color: u64,
    pub position: u64,
    pub hoist: bool,
    pub mentionable: bool,
    pub permissions: u64,
}

#[derive(Debug, Clone, PartialEq, Eq)]
pub struct Channel {
    pub id: String,
    pub name: String,
    pub user_id: String,
    pub guild_id: String,
    pub topic: String,
    pub is_category: bool,
    pub parent_id: String,
    pub level: u32,
    pub slow_mode: u32,
    pub channel_type: ChannelType,
    pub permission_overwrites: Vec<PermissionOverwrite>,
    pub permission_users: Vec<PermissionUser>,
    pub permission_sync: bool,
    pub has_password: bool,
}

#[derive(Debug, Clone, PartialEq, Eq)]
pub struct Quote {
    pub id: String,
    pub quote_type: i32,
    pub content: String,
    pub create_at: i64,
    pub author: User,
}

#[derive(Debug, Clone, PartialEq, Eq)]
pub struct Attachments {
    pub attachment_type: String,
    pub url: String,
    pub name: String,
    pub size: u64,
}

#[derive(Debug, Clone, Copy, PartialEq, Eq, Structural)]
pub enum UserStatus {
    Normal0,
    Normal1,
    Ban,
}

#[derive(Debug, Clone, Copy, PartialEq, Eq, Structural)]
pub enum NotifyType {
    Default,
    All,
    AtOnly,
    NoneAtAll,
}

#[derive(Debug, Clone, Copy, PartialEq, Eq, Structural)]
pub enum ChannelType {
    NotSet,
    Text,
    Voice,
}

#[derive(Debug, Clone, PartialEq, Eq)]
pub struct PermissionOverwrite {
    pub role_id: u64,
    pub allow: i32,
    pub deny: i32,
}

#[derive(Debug, Clone, PartialEq, Eq)]
pub struct PermissionUser {
    pub user: User,
    pub allow: i32,
    pub deny: i32,
}

impl UserStatus {
    /// The wire code of the status.
    pub fn code(&self) -> (r: u8)
        ensures
            r == (match self {
                UserStatus::Normal0 => 0u8,
                UserStatus::Normal1 => 1u8,
                UserStatus::Ban => 10u8,
            }),
    {
        match self {
            UserStatus::Normal0 => 0,
            UserStatus::Normal1 => 1,
            UserStatus::Ban => 10,
        }
    }

    /// The status a wire code names, if any.
    pub fn from_code(v: u8) -> (r: Option<UserStatus>)
        ensures
            r == (match v {
                0u8 => Some(UserStatus::Normal0),
                1u8 => Some(UserStatus::Normal1),
                10u8 => Some(UserStatus::Ban),
                _ => None::<UserStatus>,
            }),
    {
        match v {
            0 => Some(UserStatus::Normal0),
            1 => Some(UserStatus::Normal1),
            10 => Some(UserStatus::Ban),
            _ => None,
        }
    }
}

impl NotifyType {
    /// The wire code of the notify mode.
    pub fn code(&self) -> (r: u8)
        ensures
            r == (match self {
                NotifyType::Default => 0u8,
                NotifyType::All => 1u8,
                NotifyType::AtOnly => 2u8,
                NotifyType::NoneAtAll => 3u8,
            }),
    {
        match self {
            NotifyType::Default => 0,
            NotifyType::All => 1,
            NotifyType::AtOnly => 2,
            NotifyType::NoneAtAll => 3,
        }
    }

    /// The notify mode a wire code names, if any.
    pub fn from_code(v: u8) -> (r: Option<NotifyType>)
        ensures
            r == (match v {
                0u8 => Some(NotifyType::Default),
                1u8 => Some(NotifyType::All),
                2u8 => Some(NotifyType::AtOnly),
                3u8 => Some(NotifyType::NoneAtAll),
                _ => None::<NotifyType>,
            }),
    {
        match v {
            0 => Some(NotifyType::Default),
            1 => Some(NotifyType::All),
            2 => Some(NotifyType::AtOnly),
            3 => Some(NotifyType::NoneAtAll),
            _ => None,
        }
    }
}

impl ChannelType {
    /// The wire code of the channel type.
    pub fn code(&self) -> (r: u8)
        ensures
            r == (match self {
                ChannelType::NotSet => 0u8,
                ChannelType::Text => 1u8,
                ChannelType::Voice => 2u8,
            }),
    {
        match self {
            ChannelType::NotSet => 0,
            ChannelType::Text => 1,
            ChannelType::Voice => 2,
        }
    }

    /// The channel type a wire code names, if any.
    pub fn from_code(v: u8) -> (r: Option<ChannelType>)
        ensures
            r == (match v {
                0u8 => Some(ChannelType::NotSet),
                1u8 => Some(ChannelType::Text),
                2u8 => Some(ChannelType::Voice),
                _ => None::<ChannelType>,
            }),
    {
        match v {
            0 => Some(ChannelType::NotSet),
            1 => Some(ChannelType::Text),
            2 => Some(ChannelType::Voice),
            _ => None,
        }
    }
}

/// The wire writes booleans as 0 or 1.
pub fn bool_to_u8(b: bool) -> (r: u8)
    ensures
        r == (if b {
            1u8
        } else {
            0u8
        }),
{
    if b {
        1
    } else {
        0
    }
}

/// Reads a 0-or-1 wire boolean; anything else is refused.
pub fn bool_from_u8(v: u8) -> (r: Option<bool>)
    ensures
        v == 0 ==> r == Some(false),
        v == 1 ==> r == Some(true),
        v > 1 ==> r is None,
{
    match v {
        0 => Some(false),
        1 => Some(true),
        _ => None,
    }
}

} // verus!
