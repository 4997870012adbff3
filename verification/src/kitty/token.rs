//! Tokens that sessions are registered under: the text a client sends in its
//! `Proxy-Authorization` header, or a random identifier for the session
//! shared by clients that send none.

use vstd::prelude::*;
use crate::table::TableKey;
use crate::text::same_text;

verus! {

/// A session's token.  `Anonymous` holds the 128 bits of a version-4 UUID.
#[derive(Debug, Clone)]
pub enum Token {
    Anonymous(u128),
    Session(String),
}

/// A [`Token`] as a value.
pub enum TokenKey {
    Anonymous(u128),
    Session(Seq<char>),
}

impl View for Token {
    type V = TokenKey;

    open spec fn view(&self) -> TokenKey {
        match self {
            Token::Anonymous(u) => TokenKey::Anonymous(*u),
            Token::Session(s) => TokenKey::Session(s@),
        }
    }
}

impl TableKey for Token {
    type Key = TokenKey;

    open spec fn key(&self) -> TokenKey {
        self@
    }

    fn same_key(&self, other: &Self) -> (res: bool) {
        match (self, other) {
            (Token::Anonymous(a), Token::Anonymous(b)) => *a == *b,
            (Token::Session(a), Token::Session(b)) => same_text(a.as_str(), b.as_str()),
            _ => false,
        }
    }

    fn copy_key(&self) -> (res: Self) {
        self.duplicate()
    }
}

/// The 128 bits of a version-4 (random) UUID of the RFC 4122 variant: the
/// version field (bits 76 to 79) holds 4 and the variant field (bits 62 and
/// 63) holds binary 10.
pub open spec fn version_4_uuid(u: u128) -> bool {
    (u >> 76u128) & 0xfu128 == 4u128 && (u >> 62u128) & 3u128 == 2u128
}

/// A fresh random version-4 UUID, as its 128 bits.
///
/// Calls `uuid::Uuid::new_v4` and `Uuid::as_u128`.  The bits are random but
/// for the version and variant fields: `new_v4` (uuid 1.29) masks random
/// bits with `0xFFFFFFFFFFFF4FFFBFFFFFFFFFFFFFFF` and sets
/// `0x40008000000000000000`, and `as_u128` reads the bytes back big-endian,
/// so the claim is that the result is a [`version_4_uuid`], and nothing more.
#[verifier::external_body]
fn random_uuid() -> (res: u128)
    ensures
        version_4_uuid(res),
{
    uuid::Uuid::new_v4().as_u128()
}

impl Token {
    /// The token of a client that authenticates with `s`.
    pub fn session(s: &str) -> (res: Token)
        ensures
            res@ == TokenKey::Session(s@),
    {
        Token::Session(s.to_owned())
    }

    /// A new anonymous token with a random version-4 UUID as identifier.
    pub fn anonymous() -> (res: Token)
        ensures
            res@ matches TokenKey::Anonymous(u) && version_4_uuid(u),
    {
        Token::Anonymous(random_uuid())
    }

    /// Reads a token from text: every text is the token of that session.
    pub fn from_str(s: &str) -> (res: Token)
        ensures
            res@ == TokenKey::Session(s@),
    {
        Token::session(s)
    }

    /// A copy of the token.
    pub fn duplicate(&self) -> (res: Token)
        ensures
            res@ == self@,
    {
        match self {
            Token::Anonymous(u) => Token::Anonymous(*u),
            Token::Session(s) => Token::Session(s.clone()),
        }
    }
}

} // verus!
