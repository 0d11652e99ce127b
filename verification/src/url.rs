//! Percent-encoding of URL components and lookups in query strings.
use vstd::prelude::*;
use vstd::utf8::*;

use crate::text::{push_char, utf8_to_string};

verus! {

broadcast use {encode_utf8_valid_utf8, encode_utf8_decode_utf8, is_ascii_chars_encode_utf8};

// ---------------------------------------------------------------------------
// Bytes and their splits

/// The index of the first `x` in `b`.
pub open spec fn find_byte(b: Seq<u8>, x: u8) -> Option<nat>
    decreases b.len(),
{
    if b.len() == 0 {
        None
    } else if b[0] == x {
        Some(0nat)
    } else {
        match find_byte(b.drop_first(), x) {
            Some(i) => Some(i + 1),
            None => None,
        }
    }
}

/// `b` split at its first `x`, which belongs to neither part.
pub open spec fn split_once(b: Seq<u8>, x: u8) -> Option<(Seq<u8>, Seq<u8>)> {
    match find_byte(b, x) {
        Some(i) => Some((b.take(i as int), b.skip((i + 1) as int))),
        None => None,
    }
}

/// `b` split at its first `x`; when there is none, all of `b` and nothing.
pub open spec fn split_once_or_all(b: Seq<u8>, x: u8) -> (Seq<u8>, Seq<u8>) {
    match split_once(b, x) {
        Some(parts) => parts,
        None => (b, Seq::empty()),
    }
}

/// The parts of `b` between the occurrences of `x`, empty ones included.
pub open spec fn split_all(b: Seq<u8>, x: u8) -> Seq<Seq<u8>>
    decreases b.len(),
{
    match find_byte(b, x) {
        None => seq![b],
        Some(i) => {
            proof {
                lemma_find_byte(b, x);
            }
            seq![b.take(i as int)] + split_all(b.skip((i + 1) as int), x)
        },
    }
}

/// What the first occurrence found by [`find_byte`] is.
pub proof fn lemma_find_byte(b: Seq<u8>, x: u8)
    ensures
        match find_byte(b, x) {
            Some(i) => i < b.len() && b[i as int] == x && forall|j: int| 0 <= j < i ==> b[j] != x,
            None => forall|j: int| 0 <= j < b.len() ==> b[j] != x,
        },
    decreases b.len(),
{
    if b.len() > 0 && b[0] != x {
        lemma_find_byte(b.drop_first(), x);
        match find_byte(b.drop_first(), x) {
            Some(i) => {
                assert forall|j: int| 0 <= j < i + 1 implies b[j] != x by {
                    if j > 0 {
                        assert(b[j] == b.drop_first()[j - 1]);
                    }
                }
            },
            None => {
                assert forall|j: int| 0 <= j < b.len() implies b[j] != x by {
                    if j > 0 {
                        assert(b[j] == b.drop_first()[j - 1]);
                    }
                }
            },
        }
    }
}

/// Finds the first `x` in `s` at or after `start`.
pub fn find_byte_from(s: &[u8], start: usize, x: u8) -> (r: Option<usize>)
    requires
        start <= s@.len(),
    ensures
        match r {
            Some(i) => start <= i < s@.len() && find_byte(s@.skip(start as int), x) == Some(
                (i - start) as nat,
            ),
            None => find_byte(s@.skip(start as int), x) is None,
        },
{
    let mut i: usize = start;
    while i < s.len()
        invariant
            start <= i <= s@.len(),
            forall|j: int| start <= j < i ==> s@[j] != x,
        decreases s@.len() - i,
    {
        if s[i] == x {
            proof {
                lemma_find_byte(s@.skip(start as int), x);
                lemma_find_first(s@.skip(start as int), x, (i - start) as nat);
            }
            return Some(i);
        }
        i = i + 1;
    }
    proof {
        lemma_find_byte(s@.skip(start as int), x);
        match find_byte(s@.skip(start as int), x) {
            Some(k) => {
                assert(s@[start + k] == x);
            },
            None => {},
        }
    }
    None
}

/// The first occurrence is the one before which there is none.
pub proof fn lemma_find_first(b: Seq<u8>, x: u8, i: nat)
    requires
        i < b.len(),
        b[i as int] == x,
        forall|j: int| 0 <= j < i ==> b[j] != x,
    ensures
        find_byte(b, x) == Some(i),
{
    lemma_find_byte(b, x);
    match find_byte(b, x) {
        Some(k) => {
            if k < i {
                assert(b[k as int] != x);
            } else if k > i {
                assert(b[i as int] != x);
            }
        },
        None => {
            assert(b[i as int] != x);
        },
    }
}

/// Valid UTF-8 splits into valid UTF-8 around an ASCII byte.
pub proof fn lemma_split_at_ascii(b: Seq<u8>, i: int)
    requires
        valid_utf8(b),
        0 <= i < b.len(),
        b[i] < 128,
    ensures
        valid_utf8(b.subrange(0, i)),
        valid_utf8(b.subrange(i + 1, b.len() as int)),
        decode_utf8(b) == decode_utf8(b.subrange(0, i)) + seq![b[i] as char] + decode_utf8(
            b.subrange(i + 1, b.len() as int),
        ),
{
    is_char_boundary_iff_not_is_continuation_byte(b, i);
    valid_utf8_split(b, i);
    decode_utf8_split(b, i);
    let suffix = b.subrange(i, b.len() as int);
    assert(suffix[0] == b[i]);
    assert(pop_first_scalar(suffix) =~= b.subrange(i + 1, b.len() as int));
    let c = suffix[0];
    assert((c & 0x7f) == c) by (bit_vector)
        requires
            c < 128,
    ;
    assert(decode_utf8(suffix) =~= seq![b[i] as char] + decode_utf8(b.subrange(i + 1, b.len() as int)));
}

/// The string that valid UTF-8 bytes encode.
pub fn string_from_utf8(b: &[u8]) -> (r: String)
    requires
        valid_utf8(b@),
    ensures
        r@ == decode_utf8(b@),
{
    match utf8_to_string(b) {
        Some(s) => s,
        None => String::new(),
    }
}

// ---------------------------------------------------------------------------
// Percent-decoding

/// The value of an ASCII hexadecimal digit.
pub open spec fn hex_value(c: u8) -> Option<nat> {
    if 48 <= c <= 57 {
        Some((c - 48) as nat)
    } else if 65 <= c <= 70 {
        Some((c - 55) as nat)
    } else if 97 <= c <= 102 {
        Some((c - 87) as nat)
    } else {
        None
    }
}

/// Two characters read as an unsigned hexadecimal byte: two digits, or a
/// plus sign and one digit.
pub open spec fn hex_pair(a: u8, b: u8) -> Option<u8> {
    if a == 43 {
        match hex_value(b) {
            Some(v) => Some(v as u8),
            None => None,
        }
    } else {
        match (hex_value(a), hex_value(b)) {
            (Some(x), Some(y)) => Some((x * 16 + y) as u8),
            _ => None,
        }
    }
}

/// The bytes that a percent-encoded component decodes to: `+` is a space,
/// `%` and two hexadecimal characters are one byte, anything else stays.
pub open spec fn url_decode_bytes(b: Seq<u8>) -> Seq<u8>
    decreases b.len(),
{
    if b.len() == 0 {
        Seq::empty()
    } else if b[0] == 43 {
        seq![32u8] + url_decode_bytes(b.drop_first())
    } else if b[0] == 37 && 2 < b.len() {
        match hex_pair(b[1], b[2]) {
            Some(x) => seq![x] + url_decode_bytes(b.skip(3)),
            None => seq![37u8] + url_decode_bytes(b.drop_first()),
        }
    } else {
        seq![b[0]] + url_decode_bytes(b.drop_first())
    }
}

/// Every `%` that starts a three-byte window is followed, three bytes on,
/// by the start of a character: the two characters after it are then
/// whole characters.
pub open spec fn url_escapes_whole(b: Seq<u8>) -> bool {
    forall|i: int| 0 <= i && i + 3 < b.len() && b[i] == 37 ==> !is_continuation_byte(#[trigger] b[i + 3])
}

/// A percent-decoded component: the decoded bytes read as UTF-8, or the
/// component itself when they are not UTF-8.
pub open spec fn url_decoded(value: Seq<char>) -> Seq<char> {
    let d = url_decode_bytes(encode_utf8(value));
    if valid_utf8(d) {
        decode_utf8(d)
    } else {
        value
    }
}

fn hex_digit_value(c: u8) -> (r: Option<u8>)
    ensures
        match hex_value(c) {
            Some(v) => r == Some(v as u8),
            None => r is None,
        },
{
    if 48 <= c && c <= 57 {
        Some(c - 48)
    } else if 65 <= c && c <= 70 {
        Some(c - 55)
    } else if 97 <= c && c <= 102 {
        Some(c - 87)
    } else {
        None
    }
}

fn read_hex_pair(a: u8, b: u8) -> (r: Option<u8>)
    ensures
        r == hex_pair(a, b),
{
    if a == 43 {
        match hex_digit_value(b) {
            Some(v) => Some(v),
            None => None,
        }
    } else {
        match (hex_digit_value(a), hex_digit_value(b)) {
            (Some(x), Some(y)) => Some(x * 16 + y),
            _ => None,
        }
    }
}

/// The bytes that the percent-encoded component `b` decodes to.
pub fn url_decode_slice(b: &[u8]) -> (r: Vec<u8>)
    ensures
        r@ == url_decode_bytes(b@),
{
    let mut out: Vec<u8> = Vec::new();
    let mut i: usize = 0;
    assert(b@.skip(0) =~= b@);
    while i < b.len()
        invariant
            i <= b@.len(),
            url_decode_bytes(b@) == out@ + url_decode_bytes(b@.skip(i as int)),
        decreases b@.len() - i,
    {
        let ghost t = b@.skip(i as int);
        let ghost before = out@;
        let c = b[i];
        assert(t[0] == c);
        if c == 43 {
            out.push(32);
            assert(t.drop_first() =~= b@.skip(i + 1));
            i = i + 1;
        } else if c == 37 && b.len() - i > 2 {
            match read_hex_pair(b[i + 1], b[i + 2]) {
                Some(x) => {
                    out.push(x);
                    assert(t.skip(3) =~= b@.skip(i + 3));
                    i = i + 3;
                },
                None => {
                    out.push(37);
                    assert(t.drop_first() =~= b@.skip(i + 1));
                    i = i + 1;
                },
            }
        } else {
            out.push(c);
            assert(t.drop_first() =~= b@.skip(i + 1));
            i = i + 1;
        }
        assert(before + url_decode_bytes(t) =~= out@ + url_decode_bytes(b@.skip(i as int)));
    }
    assert(b@.skip(i as int) =~= Seq::<u8>::empty());
    assert(out@ + Seq::<u8>::empty() =~= out@);
    out
}

/// Decodes a percent-encoded URL component.
///
/// The component is sliced two characters after each `%`; where that cuts
/// a character in two, decoding is refused, so such components are
/// excluded.
pub fn decode_url_component(value: &str) -> (r: String)
    requires
        url_escapes_whole(encode_utf8(value@)),
    ensures
        r@ == url_decoded(value@),
{
    let decoded = url_decode_slice(value.as_bytes());
    match utf8_to_string(decoded.as_slice()) {
        Some(s) => s,
        None => value.to_owned(),
    }
}

/// Whether [`decode_url_component`] accepts the component.
pub fn url_component_decodable(value: &str) -> (r: bool)
    ensures
        r == url_escapes_whole(encode_utf8(value@)),
{
    let b = value.as_bytes();
    let mut i: usize = 0;
    while b.len() > 3 && i < b.len() - 3
        invariant
            b@ == encode_utf8(value@),
            forall|j: int| 0 <= j < i && j + 3 < b@.len() && b@[j] == 37 ==> !is_continuation_byte(#[trigger] b@[j + 3]),
        decreases b@.len() - i,
    {
        if b[i] == 37 && 0x80 <= b[i + 3] && b[i + 3] <= 0xbf {
            return false;
        }
        i = i + 1;
    }
    true
}

// ---------------------------------------------------------------------------
// Percent-encoding

/// Whether a byte is kept as it is by [`encode_query_component`].
pub open spec fn is_unreserved(c: u8) -> bool {
    (65 <= c <= 90) || (97 <= c <= 122) || (48 <= c <= 57) || c == 45 || c == 95 || c == 46 || c == 126
}

/// The upper-case hexadecimal digit for `d`, as a byte.
pub open spec fn hex_upper_byte(d: nat) -> u8 {
    if d < 10 {
        (48 + d) as u8
    } else {
        (55 + d) as u8
    }
}

/// How [`encode_query_component`] writes one byte.
pub open spec fn encode_byte(c: u8) -> Seq<u8> {
    if is_unreserved(c) {
        seq![c]
    } else {
        seq![37u8, hex_upper_byte((c / 16) as nat), hex_upper_byte((c % 16) as nat)]
    }
}

/// The percent-encoding of the bytes `b`.
pub open spec fn encode_bytes(b: Seq<u8>) -> Seq<u8>
    decreases b.len(),
{
    if b.len() == 0 {
        Seq::empty()
    } else {
        encode_bytes(b.drop_last()) + encode_byte(b.last())
    }
}

/// The characters of ASCII bytes.
pub open spec fn ascii_chars(b: Seq<u8>) -> Seq<char> {
    Seq::new(b.len(), |i: int| b[i] as char)
}

fn hex_upper(d: u8) -> (c: char)
    requires
        d < 16,
    ensures
        c == hex_upper_byte(d as nat) as char,
        (c as u32) < 128,
{
    if d < 10 {
        ((48 + d) as char)
    } else {
        ((55 + d) as char)
    }
}

/// Percent-encodes a query component: letters, digits and `-_.~` stay,
/// every other byte of the UTF-8 encoding becomes `%` and two upper-case
/// hexadecimal digits.
pub fn encode_query_component(value: &str) -> (r: String)
    ensures
        r@ == ascii_chars(encode_bytes(encode_utf8(value@))),
{
    let b = value.as_bytes();
    let mut out = String::new();
    let mut i: usize = 0;
    while i < b.len()
        invariant
            b@ == encode_utf8(value@),
            i <= b@.len(),
            out@ == ascii_chars(encode_bytes(b@.take(i as int))),
        decreases b@.len() - i,
    {
        let c = b[i];
        let ghost before = out@;
        if (65 <= c && c <= 90) || (97 <= c && c <= 122) || (48 <= c && c <= 57) || c == 45 || c == 95
            || c == 46 || c == 126 {
            push_char(&mut out, c as char);
        } else {
            push_char(&mut out, '%');
            push_char(&mut out, hex_upper(c / 16));
            push_char(&mut out, hex_upper(c % 16));
        }
        assert(b@.take(i + 1).drop_last() =~= b@.take(i as int));
        assert(b@.take(i + 1).last() == c);
        assert(out@ =~= ascii_chars(encode_bytes(b@.take(i as int)) + encode_byte(c)));
        i = i + 1;
    }
    assert(b@.take(i as int) =~= b@);
    out
}

} // verus!

verus! {

/// The encoding of bytes, read from the front.
pub proof fn lemma_encode_bytes_front(b: Seq<u8>)
    requires
        b.len() > 0,
    ensures
        encode_bytes(b) == encode_byte(b[0]) + encode_bytes(b.drop_first()),
    decreases b.len(),
{
    if b.len() == 1 {
        assert(b.drop_last() =~= Seq::<u8>::empty());
        assert(b.drop_first() =~= Seq::<u8>::empty());
        assert(encode_bytes(b) =~= encode_byte(b[0]) + encode_bytes(b.drop_first()));
    } else {
        lemma_encode_bytes_front(b.drop_last());
        assert(b.drop_last().drop_first() =~= b.drop_first().drop_last());
        assert(b.drop_first().last() == b.last());
        assert(encode_bytes(b) =~= encode_byte(b[0]) + encode_bytes(b.drop_first()));
    }
}

/// Percent-encoding writes only ASCII.
pub proof fn lemma_encode_bytes_ascii(b: Seq<u8>)
    ensures
        forall|i: int| 0 <= i < encode_bytes(b).len() ==> #[trigger] encode_bytes(b)[i] < 128,
    decreases b.len(),
{
    if b.len() > 0 {
        lemma_encode_bytes_ascii(b.drop_last());
        let c = b.last();
        assert forall|i: int| 0 <= i < encode_byte(c).len() implies #[trigger] encode_byte(c)[i] < 128 by {}
        let e = encode_bytes(b);
        assert(e =~= encode_bytes(b.drop_last()) + encode_byte(c));
        assert forall|i: int| 0 <= i < e.len() implies #[trigger] e[i] < 128 by {
            if i < encode_bytes(b.drop_last()).len() {
                assert(e[i] == encode_bytes(b.drop_last())[i]);
            } else {
                assert(e[i] == encode_byte(c)[i - encode_bytes(b.drop_last()).len()]);
            }
        }
    }
}

/// Percent-decoding undoes percent-encoding, byte by byte.
pub proof fn lemma_url_decode_encode_bytes(b: Seq<u8>)
    ensures
        url_decode_bytes(encode_bytes(b)) == b,
    decreases b.len(),
{
    if b.len() == 0 {
        assert(encode_bytes(b) =~= Seq::<u8>::empty());
    } else {
        lemma_encode_bytes_front(b);
        lemma_url_decode_encode_bytes(b.drop_first());
        let c = b[0];
        let rest = encode_bytes(b.drop_first());
        let e = encode_byte(c) + rest;
        if is_unreserved(c) {
            assert(e[0] == c);
            assert(e.drop_first() =~= rest);
        } else {
            let hi = (c / 16) as nat;
            let lo = (c % 16) as nat;
            assert(e[0] == 37u8);
            assert(e[1] == hex_upper_byte(hi));
            assert(e[2] == hex_upper_byte(lo));
            assert(hex_value(hex_upper_byte(hi)) == Some(hi));
            assert(hex_value(hex_upper_byte(lo)) == Some(lo));
            assert(hex_upper_byte(hi) != 43u8);
            assert(e.skip(3) =~= rest);
        }
        assert(b =~= seq![c] + b.drop_first());
    }
}

/// Percent-encoding writes only unreserved bytes and `%`.
pub proof fn lemma_encode_bytes_plain(b: Seq<u8>)
    ensures
        forall|i: int|
            0 <= i < encode_bytes(b).len() ==> is_unreserved(#[trigger] encode_bytes(b)[i])
                || encode_bytes(b)[i] == 37,
    decreases b.len(),
{
    if b.len() > 0 {
        lemma_encode_bytes_plain(b.drop_last());
        let c = b.last();
        let e = encode_bytes(b);
        assert(e =~= encode_bytes(b.drop_last()) + encode_byte(c));
        assert forall|i: int| 0 <= i < e.len() implies is_unreserved(#[trigger] e[i]) || e[i] == 37 by {
            if i < encode_bytes(b.drop_last()).len() {
                assert(e[i] == encode_bytes(b.drop_last())[i]);
            } else {
                assert(e[i] == encode_byte(c)[i - encode_bytes(b.drop_last()).len()]);
            }
        }
    }
}

/// ASCII bytes are the UTF-8 encoding of their characters.
pub proof fn lemma_ascii_chars_encode(e: Seq<u8>)
    requires
        forall|i: int| 0 <= i < e.len() ==> #[trigger] e[i] < 128,
    ensures
        encode_utf8(ascii_chars(e)) == e,
{
    let chars = ascii_chars(e);
    assert(is_ascii_chars(chars)) by {
        assert forall|i: int| 0 <= i < chars.len() implies '\0' <= #[trigger] chars[i] <= '\u{7f}' by {
            assert(e[i] < 128);
        }
    }
    assert(encode_utf8(chars) =~= e) by {
        assert forall|i: int| 0 <= i < e.len() implies encode_utf8(chars)[i] == e[i] by {
            assert(chars[i] as u8 == encode_utf8(chars)[i]);
            assert(e[i] < 128);
        }
    }
}

/// Percent-decoding leaves bytes without `+` and `%` as they are.
pub proof fn lemma_url_decode_plain(b: Seq<u8>)
    requires
        forall|i: int| 0 <= i < b.len() ==> #[trigger] b[i] != 43 && b[i] != 37,
    ensures
        url_decode_bytes(b) == b,
    decreases b.len(),
{
    if b.len() > 0 {
        assert forall|i: int| 0 <= i < b.drop_first().len() implies #[trigger] b.drop_first()[i] != 43
            && b.drop_first()[i] != 37 by {
            assert(b.drop_first()[i] == b[i + 1]);
        }
        lemma_url_decode_plain(b.drop_first());
        assert(url_decode_bytes(b) =~= seq![b[0]] + b.drop_first());
    }
}

/// Decoding a component that [`encode_query_component`] wrote gives back
/// the text that was encoded, and the encoded text is one that decoding accepts.
pub proof fn law_query_component_roundtrip(s: Seq<char>)
    ensures
        url_escapes_whole(encode_utf8(ascii_chars(encode_bytes(encode_utf8(s))))),
        url_decoded(ascii_chars(encode_bytes(encode_utf8(s)))) == s,
{
    let b = encode_utf8(s);
    let e = encode_bytes(b);
    let chars = ascii_chars(e);
    lemma_encode_bytes_ascii(b);
    assert(is_ascii_chars(chars)) by {
        assert forall|i: int| 0 <= i < chars.len() implies '\0' <= #[trigger] chars[i] <= '\u{7f}' by {
            assert(e[i] < 128);
        }
    }
    assert(encode_utf8(chars) =~= e) by {
        assert forall|i: int| 0 <= i < e.len() implies encode_utf8(chars)[i] == e[i] by {
            assert(chars[i] as u8 == encode_utf8(chars)[i]);
            assert(e[i] < 128);
        }
    }
    lemma_url_decode_encode_bytes(b);
}

} // verus!

verus! {

// ---------------------------------------------------------------------------
// Query strings

/// A percent-decoded component given by its UTF-8 bytes.
pub open spec fn url_decoded_bytes(b: Seq<u8>) -> Seq<char> {
    let d = url_decode_bytes(b);
    if valid_utf8(d) {
        decode_utf8(d)
    } else {
        decode_utf8(b)
    }
}

/// The decoded value of the pair `key=value` when its decoded key is `key`;
/// a pair without `=` has an empty value.
pub open spec fn pair_match(pair: Seq<u8>, key: Seq<char>) -> Option<Seq<char>> {
    let (k, v) = split_once_or_all(pair, 61);
    if url_decoded_bytes(k) == key {
        Some(url_decoded_bytes(v))
    } else {
        None
    }
}

/// The components of a pair that [`pair_match`] decodes are ones that
/// decoding accepts.
pub open spec fn pair_decodable(pair: Seq<u8>, key: Seq<char>) -> bool {
    let (k, v) = split_once_or_all(pair, 61);
    url_escapes_whole(k) && (url_decoded_bytes(k) == key ==> url_escapes_whole(v))
}

/// The decoded value of the first pair whose decoded key is `key`.
pub open spec fn lookup_pairs(pairs: Seq<Seq<u8>>, key: Seq<char>) -> Option<Seq<char>>
    decreases pairs.len(),
{
    if pairs.len() == 0 {
        None
    } else {
        match pair_match(pairs[0], key) {
            Some(v) => Some(v),
            None => lookup_pairs(pairs.drop_first(), key),
        }
    }
}

/// The pairs that [`lookup_pairs`] decodes are ones that decoding accepts.
pub open spec fn lookup_pairs_decodable(pairs: Seq<Seq<u8>>, key: Seq<char>) -> bool
    decreases pairs.len(),
{
    if pairs.len() == 0 {
        true
    } else {
        pair_decodable(pairs[0], key) && (pair_match(pairs[0], key) is None
            ==> lookup_pairs_decodable(pairs.drop_first(), key))
    }
}

/// The value of `key` in the query string `query` (its UTF-8 bytes).
pub open spec fn query_lookup(query: Seq<u8>, key: Seq<char>) -> Option<Seq<char>> {
    lookup_pairs(split_all(query, 38), key)
}

/// Looking `key` up in the query string `query` decodes only components
/// that decoding accepts.
pub open spec fn query_decodable(query: Seq<u8>, key: Seq<char>) -> bool {
    lookup_pairs_decodable(split_all(query, 38), key)
}

/// The query part of a request target: what follows the first `?`.
pub open spec fn target_query(target: Seq<u8>) -> Seq<u8> {
    split_once_or_all(target, 63).1
}

/// The path part of a request target: what precedes the first `?`.
pub open spec fn target_path(target: Seq<u8>) -> Seq<u8> {
    split_once_or_all(target, 63).0
}

/// Decodes a percent-encoded component given by its UTF-8 bytes.
pub fn decode_url_bytes(b: &[u8]) -> (r: String)
    requires
        valid_utf8(b@),
        url_escapes_whole(b@),
    ensures
        r@ == url_decoded_bytes(b@),
{
    let decoded = url_decode_slice(b);
    match utf8_to_string(decoded.as_slice()) {
        Some(s) => s,
        None => string_from_utf8(b),
    }
}

/// Splits valid UTF-8 at its first `x`, an ASCII byte.
pub fn split_once_slice(b: &[u8], x: u8) -> (r: (&[u8], &[u8]))
    requires
        valid_utf8(b@),
        x < 128,
    ensures
        r.0@ == split_once_or_all(b@, x).0,
        r.1@ == split_once_or_all(b@, x).1,
        valid_utf8(r.0@),
        valid_utf8(r.1@),
        (split_once(b@, x) is Some) ==> b@.len() == r.0@.len() + 1 + r.1@.len(),
{
    assert(b@.skip(0) =~= b@);
    match find_byte_from(b, 0, x) {
        Some(i) => {
            proof {
                lemma_find_byte(b@, x);
                lemma_split_at_ascii(b@, i as int);
                assert(b@.take(i as int) =~= b@.subrange(0, i as int));
                assert(b@.skip(i + 1) =~= b@.subrange(i + 1, b@.len() as int));
            }
            let n: usize = b.len();
            (&b[0..i], &b[i + 1..n])
        },
        None => {
            let empty: &[u8] = &b[0..0];
            assert(empty@ =~= Seq::<u8>::empty());
            (b, empty)
        },
    }
}

fn lookup_pair(pair: &[u8], key: &str) -> (r: Option<String>)
    requires
        valid_utf8(pair@),
        pair_decodable(pair@, key@),
    ensures
        match r {
            Some(v) => pair_match(pair@, key@) == Some(v@),
            None => pair_match(pair@, key@) is None,
        },
{
    let (k, v) = split_once_slice(pair, 61);
    let decoded_key = decode_url_bytes(k);
    if str_eq(decoded_key.as_str(), key) {
        Some(decode_url_bytes(v))
    } else {
        None
    }
}

/// `str == str`.
///
/// Trusted: the standard library compares string slices by their contents.
#[verifier::external_body]
pub(crate) fn str_eq(a: &str, b: &str) -> (r: bool)
    ensures
        r == (a@ == b@),
{
    a == b
}

/// The decoded value of `key` in the query string `query`.
pub fn query_param_from_query(query: &str, key: &str) -> (r: Option<String>)
    requires
        query_decodable(encode_utf8(query@), key@),
    ensures
        match r {
            Some(v) => query_lookup(encode_utf8(query@), key@) == Some(v@),
            None => query_lookup(encode_utf8(query@), key@) is None,
        },
{
    let q = query.as_bytes();
    let mut start: usize = 0;
    assert(q@.skip(0) =~= q@);
    loop
        invariant
            q@ == encode_utf8(query@),
            start <= q@.len(),
            valid_utf8(q@.skip(start as int)),
            query_lookup(q@, key@) == lookup_pairs(split_all(q@.skip(start as int), 38), key@),
            lookup_pairs_decodable(split_all(q@.skip(start as int), 38), key@),
        decreases q@.len() - start,
    {
        let ghost rest = q@.skip(start as int);
        let tail = &q[start..q.len()];
        assert(tail@ =~= rest);
        match find_byte_from(q, start, 38) {
            None => {
                assert(split_all(rest, 38) =~= seq![rest]);
                assert(seq![rest][0] == rest);
                assert(seq![rest].drop_first() =~= Seq::<Seq<u8>>::empty());
                assert(lookup_pairs(Seq::<Seq<u8>>::empty(), key@) is None);
                assert(lookup_pairs(seq![rest], key@) == pair_match(rest, key@));
                return lookup_pair(tail, key);
            },
            Some(i) => {
                let pair = &q[start..i];
                proof {
                    lemma_find_byte(rest, 38);
                    lemma_split_at_ascii(rest, (i - start) as int);
                    assert(pair@ =~= rest.subrange(0, (i - start) as int));
                    assert(rest.take((i - start) as int) =~= pair@);
                    assert(rest.skip((i - start + 1) as int) =~= q@.skip(i + 1));
                    assert(rest.subrange((i - start + 1) as int, rest.len() as int) =~= q@.skip(i + 1));
                    let pairs = split_all(rest, 38);
                    assert(pairs =~= seq![pair@] + split_all(q@.skip(i + 1), 38));
                    assert(pairs[0] == pair@);
                    assert(pairs.drop_first() =~= split_all(q@.skip(i + 1), 38));
                }
                let found = lookup_pair(pair, key);
                if found.is_some() {
                    return found;
                }
                start = i + 1;
            },
        }
    }
}

/// The decoded value of `key` in the query part of the request target `target`.
pub fn query_param(target: &str, key: &str) -> (r: Option<String>)
    requires
        query_decodable(target_query(encode_utf8(target@)), key@),
    ensures
        match r {
            Some(v) => query_lookup(target_query(encode_utf8(target@)), key@) == Some(v@),
            None => query_lookup(target_query(encode_utf8(target@)), key@) is None,
        },
{
    let (_, query) = split_once_slice(target.as_bytes(), 63);
    let query_str = string_from_utf8(query);
    proof {
        decode_utf8_encode_utf8(query@);
    }
    query_param_from_query(query_str.as_str(), key)
}

fn pair_is_decodable(pair: &[u8], key: &str) -> (r: bool)
    requires
        valid_utf8(pair@),
    ensures
        r == pair_decodable(pair@, key@),
{
    let (k, v) = split_once_slice(pair, 61);
    let k_text = string_from_utf8(k);
    proof {
        decode_utf8_encode_utf8(k@);
    }
    if !url_component_decodable(k_text.as_str()) {
        return false;
    }
    let decoded_key = decode_url_bytes(k);
    if !str_eq(decoded_key.as_str(), key) {
        return true;
    }
    let v_text = string_from_utf8(v);
    proof {
        decode_utf8_encode_utf8(v@);
    }
    url_component_decodable(v_text.as_str())
}

/// Whether looking `key` up in the query part of `target` decodes only
/// components that decoding accepts.
pub fn query_is_decodable(target: &str, key: &str) -> (r: bool)
    ensures
        r == query_decodable(target_query(encode_utf8(target@)), key@),
{
    let (_, q) = split_once_slice(target.as_bytes(), 63);
    let mut start: usize = 0;
    assert(q@.skip(0) =~= q@);
    loop
        invariant
            q@ == target_query(encode_utf8(target@)),
            start <= q@.len(),
            valid_utf8(q@.skip(start as int)),
            query_decodable(q@, key@) == lookup_pairs_decodable(
                split_all(q@.skip(start as int), 38),
                key@,
            ),
        decreases q@.len() - start,
    {
        let ghost rest = q@.skip(start as int);
        let tail = &q[start..q.len()];
        assert(tail@ =~= rest);
        match find_byte_from(q, start, 38) {
            None => {
                assert(split_all(rest, 38) =~= seq![rest]);
                assert(seq![rest][0] == rest);
                assert(seq![rest].drop_first() =~= Seq::<Seq<u8>>::empty());
                assert(lookup_pairs_decodable(Seq::<Seq<u8>>::empty(), key@));
                assert(lookup_pairs_decodable(seq![rest], key@) == pair_decodable(rest, key@));
                return pair_is_decodable(tail, key);
            },
            Some(i) => {
                let pair = &q[start..i];
                proof {
                    lemma_find_byte(rest, 38);
                    lemma_split_at_ascii(rest, (i - start) as int);
                    assert(pair@ =~= rest.subrange(0, (i - start) as int));
                    assert(rest.take((i - start) as int) =~= pair@);
                    assert(rest.skip((i - start + 1) as int) =~= q@.skip(i + 1));
                    assert(rest.subrange((i - start + 1) as int, rest.len() as int) =~= q@.skip(i + 1));
                    let pairs = split_all(rest, 38);
                    assert(pairs =~= seq![pair@] + split_all(q@.skip(i + 1), 38));
                    assert(pairs[0] == pair@);
                    assert(pairs.drop_first() =~= split_all(q@.skip(i + 1), 38));
                }
                if !pair_is_decodable(pair, key) {
                    return false;
                }
                if lookup_pair(pair, key).is_some() {
                    return true;
                }
                start = i + 1;
            },
        }
    }
}

} // verus!
