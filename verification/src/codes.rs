//! Generation and validation of the unguessable values the game runs on:
//! short human-enterable game codes, per-player secret codes, and per-session
//! auth tokens. Randomness itself comes from outside crates through small
//! trusted wrappers; everything around the raw draws is verified.

use vstd::prelude::*;

verus! {

/// How many distinct characters a game code may use: the uppercase letters
/// without `O` and the digits without `0`, chosen so codes stay unambiguous
/// when read aloud or copied by hand.
pub const CODE_CHARSET_LEN: usize = 34;

/// Length of a freshly generated game code.
pub const GAME_CODE_LEN: usize = 4;

/// `c` is one of the characters a game code may use: an uppercase letter
/// other than `O`, or a digit other than `0`.
pub open spec fn is_code_char(c: char) -> bool {
    ||| ('A' <= c <= 'Z' && c != 'O')
    ||| ('1' <= c <= '9')
}

/// `s` has the shape of a game code of length `len`.
pub open spec fn is_game_code(s: Seq<char>, len: int) -> bool {
    s.len() == len && forall|i: int| 0 <= i < s.len() ==> is_code_char(#[trigger] s[i])
}

/// What `uuid::Uuid::parse_str` accepts: the canonical textual forms of a
/// UUID. Named rather than spelled out; nothing else is assumed of it except
/// that freshly generated secrets satisfy it.
pub uninterp spec fn uuid_ok(s: Seq<char>) -> bool;

/// Relies on rand's `RngExt::random_range` over `0..bound`: a value drawn
/// uniformly from that range. `random_range` panics on an empty range, so a
/// positive bound is required.
#[verifier::external_body]
fn random_below(bound: usize) -> (r: usize)
    requires
        bound > 0,
    ensures
        r < bound,
{
    rand::RngExt::random_range(&mut rand::rng(), 0..bound)
}

/// Relies on rand's `SliceRandom::shuffle`: reorders the slice in place, so
/// the vector afterwards holds exactly the elements it held before.
#[verifier::external_body]
pub(crate) fn shuffle_ids(v: &mut Vec<u64>)
    ensures
        final(v)@.to_multiset() == old(v)@.to_multiset(),
{
    rand::seq::SliceRandom::shuffle(v.as_mut_slice(), &mut rand::rng())
}

/// Relies on `uuid::Uuid::new_v4` and its `Display` form: a random UUID
/// rendered as the 36-character hyphenated string, which `Uuid::parse_str`
/// documents that it accepts back.
#[verifier::external_body]
fn fresh_uuid_string() -> (r: String)
    ensures
        r@.len() == 36,
        uuid_ok(r@),
{
    uuid::Uuid::new_v4().to_string()
}

/// Relies on `uuid::Uuid::parse_str`: tells whether `s` is one of the
/// textual UUID forms it accepts, a function of the characters alone.
#[verifier::external_body]
pub fn secret_format_ok(s: &str) -> (r: bool)
    ensures
        r == uuid_ok(s@),
{
    uuid::Uuid::parse_str(s).is_ok()
}

/// Relies on `String::from_utf8`: ASCII bytes are valid UTF-8 and decode to
/// one character per byte, each with the byte's code point.
#[verifier::external_body]
fn ascii_to_string(bytes: Vec<u8>) -> (r: String)
    requires
        forall|i: int| 0 <= i < bytes@.len() ==> bytes@[i] < 128,
    ensures
        r@.len() == bytes@.len(),
        forall|i: int| 0 <= i < bytes@.len() ==> r@[i] == #[trigger] (bytes@[i] as char),
{
    String::from_utf8(bytes).unwrap_or_default()
}

/// A fresh per-player secret code: unguessable, in the shape that
/// [`secret_format_ok`] accepts.
pub fn new_secret_code() -> (r: String)
    ensures
        r@.len() == 36,
        uuid_ok(r@),
{
    fresh_uuid_string()
}

/// A fresh per-session auth token.
pub fn new_auth_token() -> (r: String)
    ensures
        r@.len() == 36,
{
    fresh_uuid_string()
}

/// The `idx`-th character of the game-code charset, as a byte.
fn code_byte(idx: usize) -> (r: u8)
    requires
        idx < CODE_CHARSET_LEN,
    ensures
        r < 128,
        is_code_char(r as char),
{
    if idx < 14 {
        // 'A' .. 'N'
        65 + (idx as u8)
    } else if idx < 25 {
        // 'P' .. 'Z', skipping 'O'
        66 + (idx as u8)
    } else {
        // '1' .. '9'
        24 + (idx as u8)
    }
}

/// A random game code of `len` characters, each drawn independently from the
/// game-code charset.
pub fn generate_game_code(len: usize) -> (r: String)
    ensures
        is_game_code(r@, len as int),
{
    let mut bytes: Vec<u8> = Vec::new();
    let mut i: usize = 0;
    while i < len
        invariant
            i <= len,
            bytes@.len() == i,
            forall|j: int| 0 <= j < i ==> bytes@[j] < 128,
            forall|j: int| 0 <= j < i ==> is_code_char(#[trigger] (bytes@[j] as char)),
        decreases len - i,
    {
        let idx = random_below(CODE_CHARSET_LEN);
        bytes.push(code_byte(idx));
        i = i + 1;
    }
    let ghost bs: Seq<u8> = bytes@;
    let r = ascii_to_string(bytes);
    assert forall|j: int| 0 <= j < r@.len() implies is_code_char(#[trigger] r@[j]) by {
        assert(r@[j] == bs[j] as char);
        assert(is_code_char(bs[j] as char));
    }
    r
}

} // verus!
