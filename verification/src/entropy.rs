//! Identifiers, random bytes and the clock.
use vstd::prelude::*;

use std::time::{SystemTime, UNIX_EPOCH};

use rand::RngCore;
use uuid::Uuid;

verus! {

/// Whether `c` is a lower-case hexadecimal digit.
pub open spec fn is_lower_hex(c: char) -> bool {
    ('0' <= c <= '9') || ('a' <= c <= 'f')
}

/// A fresh random (version 4) UUID in its simple form: 32 lower-case
/// hexadecimal digits.
///
/// Trusted: `Uuid::new_v4().simple()` formats as 32 lower-case hexadecimal
/// digits; which ones is chance.
#[verifier::external_body]
pub(crate) fn uuid_simple() -> (r: String)
    ensures
        r@.len() == 32,
        forall|i: int| 0 <= i < 32 ==> is_lower_hex(#[trigger] r@[i]),
{
    Uuid::new_v4().simple().to_string()
}

/// Whether `s` is a UUID in its hyphenated form: 36 characters, lower-case
/// hexadecimal digits in groups of 8, 4, 4, 4 and 12.
pub open spec fn is_uuid_text(s: Seq<char>) -> bool {
    &&& s.len() == 36
    &&& forall|i: int|
        0 <= i < 36 ==> (if i == 8 || i == 13 || i == 18 || i == 23 {
            #[trigger] s[i] == '-'
        } else {
            is_lower_hex(s[i])
        })
}

/// A fresh random (version 4) UUID in its hyphenated form.
///
/// Trusted: `Uuid::new_v4().to_string()` formats the hyphenated form; which
/// digits is chance.
#[verifier::external_body]
pub(crate) fn uuid_hyphenated() -> (r: String)
    ensures
        is_uuid_text(r@),
{
    Uuid::new_v4().to_string()
}

/// Eight random bytes from the thread-local generator of `rand`.
///
/// Trusted: nothing is stated of the bytes but that there are eight.
#[verifier::external_body]
pub(crate) fn random_bytes_8() -> (r: Vec<u8>)
    ensures
        r@.len() == 8,
{
    let mut bytes = [0u8; 8];
    rand::rng().fill_bytes(&mut bytes);
    bytes.to_vec()
}

/// Milliseconds since the Unix epoch, by the system clock
/// (`SystemTime::now`); a clock that stands before 1970 reads as 0.
///
/// Trusted: nothing is stated of the clock.
#[verifier::external_body]
pub(crate) fn now_millis() -> u64 {
    SystemTime::now().duration_since(UNIX_EPOCH).map(|d| d.as_millis() as u64).unwrap_or(0)
}

/// Seconds since the Unix epoch, by the system clock (`SystemTime::now`); a
/// clock that stands before 1970 reads as 0.
///
/// Trusted: nothing is stated of the clock.
#[verifier::external_body]
pub(crate) fn now_seconds() -> u64 {
    SystemTime::now().duration_since(UNIX_EPOCH).map(|d| d.as_secs()).unwrap_or(0)
}

} // verus!
