//! Session identifiers: 128-bit universally unique identifiers, written as
//! hyphenated text in lower case.

use vstd::prelude::*;

verus! {

/// A session is known by a 128-bit universally unique identifier.
pub type SessionId = u128;

/// Why text was no session id.
#[verifier::external_type_specification]
#[verifier::external_body]
pub struct ExUuidError(uuid::Error);

/// The identifier that `text` writes, as `uuid` reads it, if it writes one.
pub uninterp spec fn session_id_parsed(text: Seq<char>) -> Option<SessionId>;

/// The character of the hexadecimal digit `v`, in lower case.
pub open spec fn hex_digit(v: int) -> char {
    "0123456789abcdef"@[v]
}

/// Sixteen to the power of `n`.
pub open spec fn sixteen_to(n: nat) -> nat
    decreases n,
{
    if n == 0 {
        1
    } else {
        16 * sixteen_to((n - 1) as nat)
    }
}

/// The `k`-th of the 32 hexadecimal digits of `id`, the most significant
/// first.
pub open spec fn id_digit(id: SessionId, k: int) -> int {
    (id as int / sixteen_to((31 - k) as nat) as int) % 16
}

/// How many hyphens stand before place `i` of an identifier's text.
pub open spec fn hyphens_before(i: int) -> int {
    if i > 23 {
        4
    } else if i > 18 {
        3
    } else if i > 13 {
        2
    } else if i > 8 {
        1
    } else {
        0
    }
}

/// The identifier `id` as text: its 32 hexadecimal digits in lower case, in
/// groups of 8, 4, 4, 4 and 12 with a hyphen between them.
pub open spec fn session_id_text(id: SessionId) -> Seq<char> {
    Seq::new(
        36,
        |i: int|
            if i == 8 || i == 13 || i == 18 || i == 23 {
                '-'
            } else {
                hex_digit(id_digit(id, i - hyphens_before(i)))
            },
    )
}

/// `uuid::Uuid::parse_str`, the identifier taken as its 128-bit value: the
/// result depends on the text alone.
#[verifier::external_body]
fn uuid_parse(text: &str) -> (id: Result<SessionId, uuid::Error>)
    ensures
        match id {
            Ok(id) => session_id_parsed(text@) == Some(id),
            Err(_) => session_id_parsed(text@) is None,
        },
{
    match uuid::Uuid::parse_str(text) {
        Ok(id) => Ok(id.as_u128()),
        Err(error) => Err(error),
    }
}

/// `uuid::Uuid` written out by its `Display`, the identifier given as its
/// 128-bit value: hyphenated, in lower case, and such that
/// `uuid::Uuid::parse_str` reads it back as the same identifier.
#[verifier::external_body]
fn uuid_text(id: SessionId) -> (text: String)
    ensures
        text@ == session_id_text(id),
        session_id_parsed(text@) == Some(id),
{
    uuid::Uuid::from_u128(id).to_string()
}

/// `uuid::Uuid::new_v4`, taken as its 128-bit value: a random identifier, of
/// which nothing is known beforehand.
#[verifier::external_body]
pub(crate) fn uuid_random() -> (id: SessionId) {
    uuid::Uuid::new_v4().as_u128()
}

/// Reads a session id, as it stands in the path of a request.
pub fn parse_session_id(text: &str) -> (id: Option<SessionId>)
    ensures
        id == session_id_parsed(text@),
{
    match uuid_parse(text) {
        Ok(id) => Some(id),
        Err(_) => None,
    }
}

/// Writes a session id, as it stands in frames and responses.
pub fn format_session_id(id: SessionId) -> (text: String)
    ensures
        text@ == session_id_text(id),
        session_id_parsed(text@) == Some(id),
{
    uuid_text(id)
}

} // verus!
