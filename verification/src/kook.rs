//! Identity and credentials.

use vstd::prelude::*;

verus! {

use vstd::string::StringExecFns;

/// The stable identity of the running bot, read once at startup and used
/// by the session machine's self-filter.
#[derive(Debug, Clone, PartialEq, Eq)]
pub struct BotInfo {
    pub id: String,
}

/// An API credential; each flavour has its own authorization scheme word.
#[derive(Debug, Clone, PartialEq, Eq)]
pub enum Token {
    Bot(String),
    Oauth2(String),
}

/// Ghost image of a `Token`.
pub enum TokenV {
    Bot(Seq<char>),
    Oauth2(Seq<char>),
}

impl View for Token {
    type V = TokenV;

    open spec fn view(&self) -> TokenV {
        match self {
            Token::Bot(t) => TokenV::Bot(t@),
            Token::Oauth2(t) => TokenV::Oauth2(t@),
        }
    }
}

/// What goes into the `Authorization` header for a token.
pub open spec fn spec_auth_header(t: TokenV) -> Seq<char> {
    match t {
        TokenV::Bot(tok) => seq!['B', 'o', 't', ' '] + tok,
        TokenV::Oauth2(tok) => seq!['B', 'e', 'a', 'r', 'e', 'r', ' '] + tok,
    }
}

impl Token {
    /// Renders the credential as its `Authorization` header value.
    pub fn auth_header(&self) -> (r: String)
        ensures
            r@ == spec_auth_header(self@),
    {
        match self {
            Token::Bot(tok) => {
                let mut s = String::from_str("Bot ");
                proof {
                    reveal_strlit("Bot ");
                    assert("Bot "@ =~= seq!['B', 'o', 't', ' ']);
                }
                s.append(tok.as_str());
                s
            },
            Token::Oauth2(tok) => {
                let mut s = String::from_str("Bearer ");
                proof {
                    reveal_strlit("Bearer ");
                    assert("Bearer "@ =~= seq!['B', 'e', 'a', 'r', 'e', 'r', ' ']);
                }
                s.append(tok.as_str());
                s
            },
        }
    }
}

/// A handler that accepts every event and does nothing with it.
#[derive(Debug, Clone, Copy, PartialEq, Eq, Structural)]
pub struct EmptyKookHandle;

} // verus!
