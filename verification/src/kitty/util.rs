//! Reading the client's session token from its request.

use vstd::prelude::*;

verus! {

/// A byte that a header value may hold and still read as text: visible
/// ASCII, space, or horizontal tab.
pub open spec fn visible_ascii(b: u8) -> bool {
    (32 <= b && b < 127) || b == 9
}

/// The text of ASCII bytes, one character per byte.
pub open spec fn ascii_text(bytes: Seq<u8>) -> Seq<char> {
    Seq::new(bytes.len(), |i: int| bytes[i] as char)
}

/// A header value as text.
///
/// Calls `http::HeaderValue::from_bytes` and `HeaderValue::to_str`.  Claims,
/// as the source of `http` 1.5 shows (`to_str` accepts exactly the values
/// whose bytes are all visible ASCII or tab, and every such byte is one that
/// `from_bytes` accepts), that the text is returned exactly when every byte
/// is visible ASCII or tab, and then holds those bytes as characters.
#[verifier::external_body]
fn header_text(bytes: &[u8]) -> (res: Option<String>)
    ensures
        res is Some <==> forall|i: int| 0 <= i < bytes@.len() ==> visible_ascii(#[trigger] bytes@[i]),
        res matches Some(s) ==> s@ == ascii_text(bytes@),
{
    match http::HeaderValue::from_bytes(bytes) {
        Ok(value) => match value.to_str() {
            Ok(text) => Some(text.to_owned()),
            Err(_) => None,
        },
        Err(_) => None,
    }
}

/// The session token a request carries: the whole value of its
/// `Proxy-Authorization` header (whatever the scheme), if the header is
/// present and reads as text.
pub fn extract_token(proxy_authorization: Option<&[u8]>) -> (res: Option<String>)
    ensures
        match proxy_authorization {
            None => res is None,
            Some(bytes) => {
                &&& res is Some <==> forall|i: int|
                    0 <= i < bytes@.len() ==> visible_ascii(#[trigger] bytes@[i])
                &&& res matches Some(s) ==> s@ == ascii_text(bytes@)
            },
        },
{
    match proxy_authorization {
        Some(bytes) => header_text(bytes),
        None => None,
    }
}

} // verus!
