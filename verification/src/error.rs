//! The library's error type, with plain data in every variant.

use vstd::prelude::*;

verus! {

/// What went wrong while talking to the platform.  Transport and parsing
/// failures carry the reporting text of the layer that saw them; `Api`
/// carries the platform's own code and message.
#[derive(Debug, Clone, PartialEq, Eq)]
pub enum KookError {
    Websocket(String),
    Http(String),
    Json(String),
    Api { code: i32, message: String },
    Custom(String),
}

pub type KookResult<T> = Result<T, KookError>;

} // verus!
