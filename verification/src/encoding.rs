//! Base64, hexadecimal and MD5, as the outside crates compute them.
use vstd::prelude::*;

use base64::engine::general_purpose::{STANDARD, URL_SAFE_NO_PAD};
use base64::Engine;

use crate::json::hex_lower_char;
use crate::text::push_char;

verus! {

/// What `base64`'s standard engine (with padding) decodes `text` to, or its
/// error message.
pub uninterp spec fn base64_standard(text: Seq<char>) -> Result<Seq<u8>, Seq<char>>;

/// What `base64`'s URL-safe engine without padding decodes `text` to, or
/// its error message.
pub uninterp spec fn base64_url_no_pad(text: Seq<char>) -> Result<Seq<u8>, Seq<char>>;

/// The MD5 digest of `data`, as `md5::compute` gives it.
pub uninterp spec fn md5_of(data: Seq<u8>) -> Seq<u8>;

/// `STANDARD.decode` of the `base64` crate.
///
/// Trusted: the result is the crate's decoding of `text` alone; it is
/// named, not stated.
#[verifier::external_body]
pub(crate) fn base64_standard_decode(text: &str) -> (r: Result<Vec<u8>, String>)
    ensures
        match r {
            Ok(bytes) => base64_standard(text@) == Ok::<Seq<u8>, Seq<char>>(bytes@),
            Err(e) => base64_standard(text@) == Err::<Seq<u8>, Seq<char>>(e@),
        },
{
    STANDARD.decode(text).map_err(|error| error.to_string())
}

/// `URL_SAFE_NO_PAD.decode` of the `base64` crate.
///
/// Trusted: the result is the crate's decoding of `text` alone; it is
/// named, not stated.
#[verifier::external_body]
pub(crate) fn base64_url_no_pad_decode(text: &str) -> (r: Result<Vec<u8>, String>)
    ensures
        match r {
            Ok(bytes) => base64_url_no_pad(text@) == Ok::<Seq<u8>, Seq<char>>(bytes@),
            Err(e) => base64_url_no_pad(text@) == Err::<Seq<u8>, Seq<char>>(e@),
        },
{
    URL_SAFE_NO_PAD.decode(text).map_err(|error| error.to_string())
}

/// `md5::compute`: the sixteen bytes of the MD5 digest of `data`.
///
/// Trusted: the digest is a function of `data` alone (named, not stated),
/// and `md5::Digest` holds sixteen bytes.
#[verifier::external_body]
pub(crate) fn md5_digest(data: &[u8]) -> (r: Vec<u8>)
    ensures
        r@ == md5_of(data@),
        r@.len() == 16,
{
    md5::compute(data).0.to_vec()
}

/// Two lower-case hexadecimal digits per byte, high half first.
pub open spec fn hex_lower_text(bytes: Seq<u8>) -> Seq<char>
    decreases bytes.len(),
{
    if bytes.len() == 0 {
        Seq::empty()
    } else {
        hex_lower_text(bytes.drop_last()) + seq![
            hex_lower_char((bytes.last() / 16) as nat),
            hex_lower_char((bytes.last() % 16) as nat),
        ]
    }
}

/// `hex::encode`: lower-case hexadecimal, two digits per byte.
///
/// Trusted: the crate documents that each byte becomes two lower-case
/// digits, high half first.
#[verifier::external_body]
pub(crate) fn hex_encode(bytes: &[u8]) -> (r: String)
    ensures
        r@ == hex_lower_text(bytes@),
{
    hex::encode(bytes)
}

/// Upper-case hexadecimal, two digits per byte, high half first.
pub open spec fn hex_upper_text(bytes: Seq<u8>) -> Seq<char>
    decreases bytes.len(),
{
    if bytes.len() == 0 {
        Seq::empty()
    } else {
        hex_upper_text(bytes.drop_last()) + seq![
            hex_upper_digit((bytes.last() / 16) as nat),
            hex_upper_digit((bytes.last() % 16) as nat),
        ]
    }
}

/// The upper-case hexadecimal digit for `d`.
pub open spec fn hex_upper_digit(d: nat) -> char {
    if d < 10 {
        ((48 + d) as u8) as char
    } else {
        ((55 + d) as u8) as char
    }
}

fn upper_digit(d: u8) -> (c: char)
    requires
        d < 16,
    ensures
        c == hex_upper_digit(d as nat),
{
    if d < 10 {
        ((48 + d) as char)
    } else {
        ((55 + d) as char)
    }
}

/// Upper-case hexadecimal of `bytes`, two digits per byte.
pub fn hex_upper(bytes: &[u8]) -> (r: String)
    ensures
        r@ == hex_upper_text(bytes@),
{
    let mut out = String::new();
    let mut i: usize = 0;
    while i < bytes.len()
        invariant
            i <= bytes@.len(),
            out@ == hex_upper_text(bytes@.take(i as int)),
        decreases bytes@.len() - i,
    {
        let b = bytes[i];
        push_char(&mut out, upper_digit(b / 16));
        push_char(&mut out, upper_digit(b % 16));
        assert(bytes@.take(i + 1).drop_last() =~= bytes@.take(i as int));
        assert(out@ =~= hex_upper_text(bytes@.take(i + 1)));
        i = i + 1;
    }
    assert(bytes@.take(i as int) =~= bytes@);
    out
}

} // verus!
