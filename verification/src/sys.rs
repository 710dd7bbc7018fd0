//! Calls into std that vstd gives no specification, each behind a contract
//! that states what std's documentation promises.
use vstd::prelude::*;
use vstd::utf8::*;
use std::collections::hash_map::DefaultHasher;
use std::hash::Hash;
use std::time::Duration;

verus! {

/// `String::from_utf8`: the bytes become a string exactly when they are valid
/// UTF-8, and the string's characters are those the bytes encode (vstd's
/// `valid_utf8` and `decode_utf8` follow the UTF-8 definition that std applies:
/// no overlong forms, no surrogates, nothing above U+10FFFF).
#[verifier::external_body]
pub(crate) fn string_from_utf8(bytes: &[u8]) -> (res: Option<String>)
    ensures
        res is Some <==> valid_utf8(bytes@),
        res matches Some(s) ==> s@ == decode_utf8(bytes@),
{
    String::from_utf8(bytes.to_vec()).ok()
}

/// `str::chars`, collected: the characters of the string, in order.
#[verifier::external_body]
pub(crate) fn chars_of(s: &str) -> (res: Vec<char>)
    ensures
        res@ == s@,
{
    s.chars().collect()
}

/// `String::from_iter` over characters: the string made of these characters.
#[verifier::external_body]
pub(crate) fn string_of(chars: &[char]) -> (res: String)
    ensures
        res@ == chars@,
{
    chars.iter().collect()
}

/// `char::from_u32` on a Unicode scalar value, which std documents to succeed:
/// the character with that code.
#[verifier::external_body]
pub(crate) fn char_of_scalar(x: u32) -> (c: char)
    requires
        x < 0xD800 || (0xE000 <= x && x <= 0x10FFFF),
    ensures
        c == x as char,
{
    char::from_u32(x).unwrap()
}

/// `SystemTime::elapsed` on `UNIX_EPOCH`: the time from the epoch to the
/// clock's current reading, or `None` where std returns its error (a clock
/// that reads before the epoch). The clock decides the value, so nothing is
/// promised of it.
#[verifier::external_body]
pub(crate) fn time_since_epoch() -> Option<Duration> {
    std::time::UNIX_EPOCH.elapsed().ok()
}

/// `Duration::as_secs`: the whole seconds of a duration. A `Duration` is
/// opaque here, so nothing is stated of the result; the durations this
/// library reads come from the clock.
#[verifier::external_body]
pub(crate) fn whole_seconds(d: &Duration) -> u64 {
    d.as_secs()
}

/// The state that a `DefaultHasher` in state `state` reaches when the tuple
/// `(host, port, fresh, minute)` is hashed into it (the host as a `str`).
/// It depends on these values alone; std does not document what it is.
pub uninterp spec fn ticket_key_hashed(
    state: Seq<Seq<u8>>,
    host: Seq<char>,
    port: u16,
    fresh: bool,
    minute: u64,
) -> Seq<Seq<u8>>;

/// `Hash::hash` for the tuple `(&str, u16, bool, u64)` into a
/// `DefaultHasher`. std's tuple impl hashes the fields one after the other,
/// as four separate `hash` calls would. The contract claims only that the
/// hasher's new state is a function of its old state and of these values.
#[verifier::external_body]
pub(crate) fn hash_ticket_key(hasher: &mut DefaultHasher, host: &str, port: u16, fresh: bool, minute: u64)
    ensures
        final(hasher)@ == ticket_key_hashed(old(hasher)@, host@, port, fresh, minute),
{
    (host, port, fresh, minute).hash(hasher);
}

} // verus!
