//! Response bodies of the REST calls, and the rules for reading them.

use vstd::prelude::*;

verus! {

use crate::error::KookError;

/// Pagination never asks for more than this many pages.
pub const MAX_PAGE_SIZE: u32 = 65536;

#[derive(Debug, Clone, PartialEq, Eq)]
pub struct Empty {}

#[derive(Debug, Clone, PartialEq, Eq)]
pub struct Page<T> {
    pub items: Vec<T>,
    pub meta: PageMeta,
    pub sort: PageSort,
}

#[derive(Debug, Clone, PartialEq, Eq)]
pub struct PageMeta {
    pub page: i32,
    pub page_total: i32,
    pub page_size: i32,
    pub total: i32,
}

#[derive(Debug, Clone, PartialEq, Eq)]
pub struct PageSort {
    pub id: Option<i32>,
}

/// Whether a page is the last one of its listing: pagination stops when
/// the reported page number reaches the reported page count.
pub fn page_done(meta: &PageMeta) -> (r: bool)
    ensures
        r == (meta.page == meta.page_total),
{
    meta.page == meta.page_total
}

/// The outcome rule for a REST response wrapper: code zero means the data
/// is valid, any other code is the platform refusing the call with that
/// code and message.
pub fn api_outcome(code: i32, message: String) -> (r: Result<(), KookError>)
    ensures
        code == 0 <==> r is Ok,
        r is Err ==> r->Err_0 == (KookError::Api { code, message: message }),
{
    if code == 0 {
        Ok(())
    } else {
        Err(KookError::Api { code, message })
    }
}

/// The value the discovery query sends for its compression flag.
pub fn compress_flag(compress: bool) -> (r: u8)
    ensures
        r == (if compress {
            1u8
        } else {
            0u8
        }),
{
    if compress {
        1
    } else {
        0
    }
}

#[derive(Debug, Clone, PartialEq, Eq)]
pub struct UserMe {
    pub id: String,
    pub username: String,
    pub identify_num: String,
    pub online: bool,
    pub os: String,
    pub status: i64,
    pub avatar: String,
    pub banner: String,
    pub bot: bool,
    pub mobile_verified: bool,
    pub client_id: String,
    pub mobile_prefix: String,
    pub mobile: String,
    pub invited_count: i64,
}

#[derive(Debug, Clone, PartialEq, Eq)]
pub struct UserView {
    pub id: String,
    pub username: String,
    pub identify_num: String,
    pub online: bool,
    pub status: i64,
    pub bot: bool,
    pub avatar: String,
    pub vip_avatar: String,
    pub mobile_verified: bool,
    pub roles: Vec<u64>,
    pub joined_at: i64,
    pub active_time: i64,
}

#[derive(Debug, Clone, PartialEq, Eq)]
pub struct GuildListItem {
    pub id: String,
    pub name: String,
    pub topic: String,
    pub user_id: String,
    pub icon: String,
    pub notify_type: crate::objects::NotifyType,
    pub region: String,
    pub enable_open: bool,
    pub open_id: String,
    pub default_channel_id: String,
    pub welcome_channel_id: String,
}

#[derive(Debug, Clone, PartialEq, Eq)]
pub struct GuildUserListItem {
    pub id: String,
    pub username: String,
    pub identify_num: String,
    pub online: bool,
    pub status: i64,
    pub bot: bool,
    pub avatar: String,
    pub vip_avatar: String,
    pub nickname: String,
    pub roles: Vec<u64>,
}

#[derive(Debug, Clone, PartialEq, Eq)]
pub struct GatewayIndex {
    pub url: String,
}

#[derive(Debug, Clone, PartialEq, Eq)]
pub struct MessageCreate {
    pub msg_id: String,
    pub msg_timestamp: i64,
    pub nonce: String,
}

} // verus!
