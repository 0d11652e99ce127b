//! Compact JSON text: numbers, escaped strings, and lookups into parsed
//! documents.
use vstd::prelude::*;

use serde_json::Value;

use crate::text::push_char;

verus! {

/// The ASCII digit for `d`.
pub open spec fn digit_char(d: nat) -> char {
    if d == 0 {
        '0'
    } else if d == 1 {
        '1'
    } else if d == 2 {
        '2'
    } else if d == 3 {
        '3'
    } else if d == 4 {
        '4'
    } else if d == 5 {
        '5'
    } else if d == 6 {
        '6'
    } else if d == 7 {
        '7'
    } else if d == 8 {
        '8'
    } else {
        '9'
    }
}

/// The decimal digits of `n`, without leading zeros.
pub open spec fn decimal(n: nat) -> Seq<char>
    decreases n,
{
    if n < 10 {
        seq![digit_char(n)]
    } else {
        decimal(n / 10).push(digit_char(n % 10))
    }
}

/// The decimal text of a signed number.
pub open spec fn signed_decimal(n: int) -> Seq<char> {
    if n < 0 {
        seq!['-'] + decimal((-n) as nat)
    } else {
        decimal(n as nat)
    }
}

fn digit(d: u64) -> (c: char)
    requires
        d < 10,
    ensures
        c == digit_char(d as nat),
{
    if d == 0 {
        '0'
    } else if d == 1 {
        '1'
    } else if d == 2 {
        '2'
    } else if d == 3 {
        '3'
    } else if d == 4 {
        '4'
    } else if d == 5 {
        '5'
    } else if d == 6 {
        '6'
    } else if d == 7 {
        '7'
    } else if d == 8 {
        '8'
    } else {
        '9'
    }
}

/// Appends the decimal digits of `n`.
pub fn push_decimal(out: &mut String, n: u64)
    ensures
        final(out)@ == old(out)@ + decimal(n as nat),
    decreases n,
{
    if n < 10 {
        push_char(out, digit(n));
        assert(decimal(n as nat) == seq![digit_char(n as nat)]);
        assert(old(out)@.push(digit_char(n as nat)) =~= old(out)@ + decimal(n as nat));
    } else {
        push_decimal(out, n / 10);
        let ghost mid = out@;
        push_char(out, digit(n % 10));
        assert(old(out)@ + decimal(n as nat) =~= mid.push(digit_char((n % 10) as nat)));
    }
}

/// Appends the decimal text of a signed number.
pub fn push_signed_decimal(out: &mut String, n: i64)
    ensures
        final(out)@ == old(out)@ + signed_decimal(n as int),
{
    if n < 0 {
        push_char(out, '-');
        let magnitude: u64 = if n == i64::MIN {
            0x8000_0000_0000_0000u64
        } else {
            (-n) as u64
        };
        push_decimal(out, magnitude);
        assert(old(out)@ + signed_decimal(n as int) =~= old(out)@.push('-') + decimal(
            magnitude as nat,
        ));
    } else {
        push_decimal(out, n as u64);
    }
}

/// The decimal text of `n`.
pub fn decimal_string(n: u64) -> (r: String)
    ensures
        r@ == decimal(n as nat),
{
    let mut out = String::new();
    push_decimal(&mut out, n);
    assert(Seq::<char>::empty() + decimal(n as nat) =~= decimal(n as nat));
    out
}

/// The lower-case hexadecimal digit for `d`.
pub open spec fn hex_lower_char(d: nat) -> char {
    if d < 10 {
        digit_char(d)
    } else if d == 10 {
        'a'
    } else if d == 11 {
        'b'
    } else if d == 12 {
        'c'
    } else if d == 13 {
        'd'
    } else if d == 14 {
        'e'
    } else {
        'f'
    }
}

fn hex_lower(d: u32) -> (c: char)
    requires
        d < 16,
    ensures
        c == hex_lower_char(d as nat),
{
    if d < 10 {
        digit(d as u64)
    } else if d == 10 {
        'a'
    } else if d == 11 {
        'b'
    } else if d == 12 {
        'c'
    } else if d == 13 {
        'd'
    } else if d == 14 {
        'e'
    } else {
        'f'
    }
}

/// How JSON text writes the character `c` inside a string: quotes,
/// backslashes and control characters are escaped, the rest is kept.
pub open spec fn json_escape(c: char) -> Seq<char> {
    if c == '"' {
        seq!['\\', '"']
    } else if c == '\\' {
        seq!['\\', '\\']
    } else if c == '\u{8}' {
        seq!['\\', 'b']
    } else if c == '\u{c}' {
        seq!['\\', 'f']
    } else if c == '\n' {
        seq!['\\', 'n']
    } else if c == '\r' {
        seq!['\\', 'r']
    } else if c == '\t' {
        seq!['\\', 't']
    } else if (c as u32) < 0x20 {
        seq!['\\', 'u', '0', '0', hex_lower_char((c as u32 / 16) as nat), hex_lower_char((c as u32 % 16) as nat)]
    } else {
        seq![c]
    }
}

/// The escaped characters of `s`, without the surrounding quotes.
pub open spec fn json_escaped(s: Seq<char>) -> Seq<char>
    decreases s.len(),
{
    if s.len() == 0 {
        Seq::empty()
    } else {
        json_escaped(s.drop_last()) + json_escape(s.last())
    }
}

/// `s` as a JSON string literal.
pub open spec fn json_str(s: Seq<char>) -> Seq<char> {
    seq!['"'] + json_escaped(s) + seq!['"']
}

fn push_escaped_char(out: &mut String, c: char)
    ensures
        final(out)@ == old(out)@ + json_escape(c),
{
    if c == '"' {
        push_char(out, '\\');
        push_char(out, '"');
    } else if c == '\\' {
        push_char(out, '\\');
        push_char(out, '\\');
    } else if c == '\u{8}' {
        push_char(out, '\\');
        push_char(out, 'b');
    } else if c == '\u{c}' {
        push_char(out, '\\');
        push_char(out, 'f');
    } else if c == '\n' {
        push_char(out, '\\');
        push_char(out, 'n');
    } else if c == '\r' {
        push_char(out, '\\');
        push_char(out, 'r');
    } else if c == '\t' {
        push_char(out, '\\');
        push_char(out, 't');
    } else if (c as u32) < 0x20 {
        push_char(out, '\\');
        push_char(out, 'u');
        push_char(out, '0');
        push_char(out, '0');
        push_char(out, hex_lower(c as u32 / 16));
        push_char(out, hex_lower(c as u32 % 16));
    } else {
        push_char(out, c);
    }
    assert(final(out)@ =~= old(out)@ + json_escape(c));
}

/// Appends `s` as a JSON string literal.
pub fn push_json_str(out: &mut String, s: &str)
    ensures
        final(out)@ == old(out)@ + json_str(s@),
{
    push_char(out, '"');
    let ghost start = out@;
    for c in it: s.chars()
        invariant
            it.seq() == s@,
            out@ == start + json_escaped(s@.take(it.index() as int)),
    {
        let ghost i = it.index();
        push_escaped_char(out, c);
        assert(s@.take(i + 1).drop_last() =~= s@.take(i as int));
        assert(s@.take(i + 1).last() == c);
    }
    assert(s@.take(s@.len() as int) =~= s@);
    push_char(out, '"');
    assert(final(out)@ =~= old(out)@ + json_str(s@));
}

} // verus!

verus! {

/// What a parsed JSON document holds at a JSON Pointer, as far as this
/// library reads it.
pub ghost enum JsonFact {
    Missing,
    Null,
    Bool(bool),
    /// A number, with its value when it is a non-negative integer that fits in 64 bits.
    Number(Option<u64>),
    Str(Seq<char>),
    /// An array, with its length.
    Array(nat),
    Object,
}

/// What a parsed JSON document holds at a JSON Pointer.
#[derive(Debug)]
pub enum JsonKind {
    /// Nothing is there.
    Missing,
    Null,
    Bool(bool),
    /// A number, with its value when it is a non-negative integer that fits in 64 bits.
    Number(Option<u64>),
    Str(String),
    /// An array, with its length.
    Array(usize),
    Object,
}

impl View for JsonKind {
    type V = JsonFact;

    open spec fn view(&self) -> JsonFact {
        match self {
            JsonKind::Missing => JsonFact::Missing,
            JsonKind::Null => JsonFact::Null,
            JsonKind::Bool(b) => JsonFact::Bool(*b),
            JsonKind::Number(n) => JsonFact::Number(*n),
            JsonKind::Str(s) => JsonFact::Str(s@),
            JsonKind::Array(n) => JsonFact::Array(*n as nat),
            JsonKind::Object => JsonFact::Object,
        }
    }
}

/// What `serde_json` finds in the JSON text `text` at the JSON Pointer
/// `pointer`, or its error message when `text` is not JSON.
pub uninterp spec fn json_lookup(text: Seq<char>, pointer: Seq<char>) -> Result<JsonFact, Seq<char>>;

/// Parses `text` with `serde_json::from_str` into a `serde_json::Value` and
/// looks up `pointer` with `Value::pointer`; the value found is handed back
/// as a [`JsonKind`]: a number as `Number::as_u64`, an array by its length,
/// a string by its contents. A parse error gives `serde_json`'s message.
///
/// Trusted: the result is the outcome of `serde_json` on these two
/// arguments alone; it is named, not stated.
#[verifier::external_body]
pub(crate) fn json_at(text: &str, pointer: &str) -> (r: Result<JsonKind, String>)
    ensures
        match r {
            Ok(k) => json_lookup(text@, pointer@) == Ok::<JsonFact, Seq<char>>(k@),
            Err(e) => json_lookup(text@, pointer@) == Err::<JsonFact, Seq<char>>(e@),
        },
{
    let value: Value = serde_json::from_str(text).map_err(|error| error.to_string())?;
    Ok(match value.pointer(pointer) {
        None => JsonKind::Missing,
        Some(Value::Null) => JsonKind::Null,
        Some(Value::Bool(b)) => JsonKind::Bool(*b),
        Some(Value::Number(n)) => JsonKind::Number(n.as_u64()),
        Some(Value::String(s)) => JsonKind::Str(s.clone()),
        Some(Value::Array(items)) => JsonKind::Array(items.len()),
        Some(Value::Object(_)) => JsonKind::Object,
    })
}

/// What `serde_json` prints for the value it parses from the JSON text
/// `text`: the value in compact form; `None` when `text` is not JSON.
pub uninterp spec fn json_compact_of(text: Seq<char>) -> Option<Seq<char>>;

/// Parses `text` with `serde_json::from_str` into a `serde_json::Value` and
/// prints the value back with its `Display`.
///
/// Trusted: the result is the outcome of `serde_json` on `text` alone; it
/// is named, not stated.
#[verifier::external_body]
pub(crate) fn json_compact(text: &str) -> (r: Option<String>)
    ensures
        match r {
            Some(s) => json_compact_of(text@) == Some(s@),
            None => json_compact_of(text@) is None,
        },
{
    serde_json::from_str::<Value>(text).ok().map(|value| value.to_string())
}

} // verus!
