//! Request bodies for the REST calls.

use vstd::prelude::*;

verus! {

#[derive(Debug, Clone, PartialEq, Eq)]
pub struct GuildNickname {
    pub guild_id: String,
    pub nickname: String,
    pub user_id: String,
}

#[derive(Debug, Clone, PartialEq, Eq)]
pub struct GuildLeave {
    pub guild_id: String,
}

#[derive(Debug, Clone, PartialEq, Eq)]
pub struct MessageCreate {
    pub message_create_type: i64,
    pub target_id: String,
    pub content: String,
}

impl MessageCreate {
    /// A channel message request: the message type on the wire is always 1
    /// (plain text).
    pub fn text_message(target_id: String, content: String) -> (r: MessageCreate)
        ensures
            r.message_create_type == 1,
            r.target_id@ == target_id@,
            r.content@ == content@,
    {
        MessageCreate { message_create_type: 1, target_id, content }
    }
}

} // verus!
