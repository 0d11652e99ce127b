//! Protocol Buffers wire-format primitives: varints, field keys, and the
//! skipping of fields that a message does not know.
use vstd::prelude::*;

verus! {

/// Why a byte string is not a well-formed encoded message.
#[derive(Clone, Copy, Debug, PartialEq, Eq)]
pub enum DecodeError {
    /// A varint ran past the end of the input, past ten bytes, or past 64 bits.
    InvalidVarint,
    /// A field key does not fit in 32 bits.
    InvalidKey,
    /// A field key names wire type 6 or 7.
    InvalidWireType,
    /// A field key names tag 0.
    InvalidTag,
    /// A known field arrived with a wire type other than its own.
    WireTypeMismatch,
    /// A length or a fixed-width field reaches past the end of the input.
    BufferUnderflow,
    /// A string field does not hold UTF-8.
    InvalidUtf8,
    /// An end-group key without its start, or with another tag.
    UnexpectedEndGroup,
    /// Groups nested deeper than the decoder allows.
    RecursionLimit,
}

impl DecodeError {
    /// A human-readable description of the error.
    pub open spec fn spec_message(&self) -> Seq<char> {
        match self {
            DecodeError::InvalidVarint => "invalid varint"@,
            DecodeError::InvalidKey => "invalid key value"@,
            DecodeError::InvalidWireType => "invalid wire type value"@,
            DecodeError::InvalidTag => "invalid tag value: 0"@,
            DecodeError::WireTypeMismatch => "invalid wire type"@,
            DecodeError::BufferUnderflow => "buffer underflow"@,
            DecodeError::InvalidUtf8 => "invalid string value: data is not UTF-8 encoded"@,
            DecodeError::UnexpectedEndGroup => "unexpected end group tag"@,
            DecodeError::RecursionLimit => "recursion limit reached"@,
        }
    }

    /// A human-readable description of the error.
    pub fn message(&self) -> (r: &'static str)
        ensures
            r@ == self.spec_message(),
    {
        match self {
            DecodeError::InvalidVarint => "invalid varint",
            DecodeError::InvalidKey => "invalid key value",
            DecodeError::InvalidWireType => "invalid wire type value",
            DecodeError::InvalidTag => "invalid tag value: 0",
            DecodeError::WireTypeMismatch => "invalid wire type",
            DecodeError::BufferUnderflow => "buffer underflow",
            DecodeError::InvalidUtf8 => "invalid string value: data is not UTF-8 encoded",
            DecodeError::UnexpectedEndGroup => "unexpected end group tag",
            DecodeError::RecursionLimit => "recursion limit reached",
        }
    }
}

/// Wire type of varint fields.
pub const WIRE_VARINT: u64 = 0;
/// Wire type of eight-byte fields.
pub const WIRE_FIXED64: u64 = 1;
/// Wire type of length-delimited fields.
pub const WIRE_LEN: u64 = 2;
/// Wire type that opens a group.
pub const WIRE_START_GROUP: u64 = 3;
/// Wire type that closes a group.
pub const WIRE_END_GROUP: u64 = 4;
/// Wire type of four-byte fields.
pub const WIRE_FIXED32: u64 = 5;

/// How deep groups may nest inside an unknown field.
pub const RECURSION_LIMIT: u32 = 100;

/// `128^k`.
pub open spec fn pow128(k: nat) -> nat
    decreases k,
{
    if k == 0 {
        1
    } else {
        128 * pow128((k - 1) as nat)
    }
}

/// The varint encoding of `v`: seven bits per byte, least significant group
/// first, the high bit set on every byte but the last.
pub open spec fn varint_bytes(v: nat) -> Seq<u8>
    decreases v,
{
    if v < 128 {
        seq![v as u8]
    } else {
        seq![(v % 128 + 128) as u8] + varint_bytes(v / 128)
    }
}

/// Reads a varint whose first byte is byte number `k` of the varint:
/// at most ten bytes, and the tenth may only carry the 64th bit.
/// The result is the value of the bytes read (as if byte `k` were byte 0)
/// and how many were read.
pub open spec fn varint_from(s: Seq<u8>, k: nat) -> Option<(nat, nat)>
    decreases s.len(),
{
    if k >= 10 || s.len() == 0 {
        None
    } else if s[0] < 128 {
        if k == 9 && s[0] >= 2 {
            None
        } else {
            Some((s[0] as nat, 1nat))
        }
    } else {
        match varint_from(s.drop_first(), k + 1) {
            Some((v, n)) => Some(((s[0] - 128) as nat + 128 * v, n + 1)),
            None => None,
        }
    }
}

/// The varint at the front of `s`, with the number of bytes it takes.
pub open spec fn parse_varint(s: Seq<u8>) -> Option<(nat, nat)> {
    varint_from(s, 0)
}

/// The key at the front of `s`: `(tag, wire type, bytes read)`.
pub open spec fn parse_key(s: Seq<u8>) -> Result<(nat, nat, nat), DecodeError> {
    match parse_varint(s) {
        None => Err(DecodeError::InvalidVarint),
        Some((key, n)) => if key > u32::MAX {
            Err(DecodeError::InvalidKey)
        } else if key % 8 >= 6 {
            Err(DecodeError::InvalidWireType)
        } else if key / 8 == 0 {
            Err(DecodeError::InvalidTag)
        } else {
            Ok((key / 8, key % 8, n))
        },
    }
}

/// The bytes of a length-delimited payload at the front of `s`, and how many
/// bytes the length and the payload take together.
pub open spec fn parse_len_delimited(s: Seq<u8>) -> Result<(Seq<u8>, nat), DecodeError> {
    match parse_varint(s) {
        None => Err(DecodeError::InvalidVarint),
        Some((len, n)) => if len > s.len() - n {
            Err(DecodeError::BufferUnderflow)
        } else {
            Ok((s.subrange(n as int, (n + len) as int), n + len))
        },
    }
}

/// How many bytes a field of wire type `wt` and tag `tag` takes at the front
/// of `s`, when the message does not know the field; `depth` is how many
/// levels of groups may still open.
pub open spec fn skip_field(s: Seq<u8>, tag: nat, wt: nat, depth: nat) -> Result<nat, DecodeError>
    decreases s.len(), 1nat,
{
    if depth == 0 {
        Err(DecodeError::RecursionLimit)
    } else if wt == 0 {
        match parse_varint(s) {
            None => Err(DecodeError::InvalidVarint),
            Some((_, n)) => Ok(n),
        }
    } else if wt == 1 {
        if 8 > s.len() {
            Err(DecodeError::BufferUnderflow)
        } else {
            Ok(8nat)
        }
    } else if wt == 5 {
        if 4 > s.len() {
            Err(DecodeError::BufferUnderflow)
        } else {
            Ok(4nat)
        }
    } else if wt == 2 {
        match parse_len_delimited(s) {
            Err(e) => Err(e),
            Ok((_, n)) => Ok(n),
        }
    } else if wt == 3 {
        skip_group(s, tag, depth)
    } else {
        Err(DecodeError::UnexpectedEndGroup)
    }
}

/// How many bytes the rest of a group with tag `tag` takes at the front of
/// `s`, its end-group key included.
pub open spec fn skip_group(s: Seq<u8>, tag: nat, depth: nat) -> Result<nat, DecodeError>
    decreases s.len(), 0nat,
{
    match parse_key(s) {
        Err(e) => Err(e),
        Ok((t, w, n)) => {
            proof {
                lemma_parse_key_len(s);
            }
            if w == 4 {
                if t != tag {
                    Err(DecodeError::UnexpectedEndGroup)
                } else {
                    Ok(n)
                }
            } else {
                match skip_field(s.skip(n as int), t, w, (depth - 1) as nat) {
                    Err(e) => Err(e),
                    Ok(m) => if m > s.len() - n {
                        // A skipped field never reaches past its input
                        // (`lemma_skip_field_len`); this branch is not taken.
                        Err(DecodeError::BufferUnderflow)
                    } else {
                        match skip_group(s.skip((n + m) as int), tag, depth) {
                            Err(e) => Err(e),
                            Ok(k) => Ok(n + m + k),
                        }
                    },
                }
            }
        },
    }
}

/// A varint read is never empty and never longer than its input.
pub proof fn lemma_varint_from_len(s: Seq<u8>, k: nat)
    ensures
        varint_from(s, k) matches Some((v, n)) ==> 1 <= n <= s.len() && n + k <= 10,
    decreases s.len(),
{
    if k < 10 && s.len() > 0 && s[0] >= 128 {
        lemma_varint_from_len(s.drop_first(), k + 1);
    }
}

/// A key read is never empty and never longer than its input.
pub proof fn lemma_parse_key_len(s: Seq<u8>)
    ensures
        parse_key(s) matches Ok((t, w, n)) ==> 1 <= n <= s.len() && t >= 1 && w < 6 && t <= u32::MAX / 8,
{
    lemma_varint_from_len(s, 0);
}

/// A length-delimited read stays within its input.
pub proof fn lemma_len_delimited_len(s: Seq<u8>)
    ensures
        parse_len_delimited(s) matches Ok((b, n)) ==> 1 <= n <= s.len() && b.len() < n,
{
    lemma_varint_from_len(s, 0);
}

/// A skipped field stays within its input.
pub proof fn lemma_skip_field_len(s: Seq<u8>, tag: nat, wt: nat, depth: nat)
    ensures
        skip_field(s, tag, wt, depth) matches Ok(n) ==> n <= s.len(),
    decreases s.len(), 1nat,
{
    lemma_varint_from_len(s, 0);
    if depth > 0 && wt == 3 {
        lemma_skip_group_len(s, tag, depth);
    }
}

/// A skipped group stays within its input.
pub proof fn lemma_skip_group_len(s: Seq<u8>, tag: nat, depth: nat)
    ensures
        skip_group(s, tag, depth) matches Ok(n) ==> 1 <= n <= s.len(),
    decreases s.len(), 0nat,
{
    lemma_parse_key_len(s);
    if let Ok((t, w, n)) = parse_key(s) {
        if w != 4 {
            lemma_skip_field_len(s.skip(n as int), t, w, (depth - 1) as nat);
            if let Ok(m) = skip_field(s.skip(n as int), t, w, (depth - 1) as nat) {
                lemma_skip_group_len(s.skip((n + m) as int), tag, depth);
                assert(s.skip(n as int).skip(m as int) =~= s.skip((n + m) as int));
            }
        }
    }
}

/// The values of `128^k` that bound a 64-bit varint.
pub proof fn lemma_pow128_values()
    ensures
        pow128(0) == 1,
        pow128(1) == 128,
        pow128(8) == 0x100_0000_0000_0000,
        pow128(9) == 0x8000_0000_0000_0000,
{
    reveal_with_fuel(pow128, 11);
}

/// `128^k` grows with `k`.
pub proof fn lemma_pow128_mono(a: nat, b: nat)
    requires
        a <= b,
    ensures
        pow128(a) <= pow128(b),
        pow128(a) >= 1,
    decreases b,
{
    if b > 0 && a < b {
        lemma_pow128_mono(a, (b - 1) as nat);
    } else if b > 0 {
        lemma_pow128_mono(0, (b - 1) as nat);
    }
}

/// Appends the varint encoding of `v`.
pub fn put_varint(out: &mut Vec<u8>, v: u64)
    ensures
        final(out)@ == old(out)@ + varint_bytes(v as nat),
{
    let mut rest: u64 = v;
    while rest >= 128
        invariant
            old(out)@ + varint_bytes(v as nat) == out@ + varint_bytes(rest as nat),
        decreases rest,
    {
        let byte: u8 = (rest % 128 + 128) as u8;
        let ghost before = out@;
        out.push(byte);
        assert(varint_bytes(rest as nat) == seq![byte] + varint_bytes((rest / 128) as nat));
        assert(before + varint_bytes(rest as nat) =~= out@ + varint_bytes((rest / 128) as nat));
        rest = rest / 128;
    }
    out.push(rest as u8);
    assert(varint_bytes(rest as nat) == seq![rest as u8]);
}

/// Reads the varint that starts at `pos`: its value and how many bytes it takes.
pub fn read_varint(s: &[u8], pos: usize) -> (r: Option<(u64, usize)>)
    requires
        pos <= s@.len(),
    ensures
        match r {
            Some((v, n)) => parse_varint(s@.skip(pos as int)) == Some((v as nat, n as nat)),
            None => parse_varint(s@.skip(pos as int)) is None,
        },
{
    let ghost t = s@.skip(pos as int);
    let mut i: usize = 0;
    let mut acc: u64 = 0;
    let mut mult: u64 = 1;
    proof {
        lemma_pow128_values();
        assert(t.skip(0) =~= t);
    }
    loop
        invariant
            pos <= s@.len(),
            t == s@.skip(pos as int),
            i <= 9,
            i <= t.len(),
            mult as nat == pow128(i as nat),
            acc < mult,
            pow128(8) == 0x100_0000_0000_0000,
            pow128(9) == 0x8000_0000_0000_0000,
            varint_from(t, 0) == match varint_from(t.skip(i as int), i as nat) {
                Some((v, n)) => Some(((acc + mult * v) as nat, (n + i) as nat)),
                None => None,
            },
        decreases 9 - i,
    {
        let ghost ti = t.skip(i as int);
        if pos >= s.len() || i >= s.len() - pos {
            assert(ti.len() == 0);
            assert(varint_from(ti, i as nat) is None);
            return None;
        }
        let b: u8 = s[pos + i];
        assert(ti[0] == b);
        if b < 128 {
            if i == 9 && b >= 2 {
                return None;
            }
            proof {
                if i < 9 {
                    lemma_pow128_mono(i as nat, 8);
                    assert(acc + mult * (b as nat) < 0x8000_0000_0000_0000) by (nonlinear_arith)
                        requires
                            acc < mult,
                            mult <= 0x100_0000_0000_0000,
                            b < 128;
                } else {
                    assert(acc + mult * (b as nat) < 0x1_0000_0000_0000_0000) by (nonlinear_arith)
                        requires
                            acc < mult,
                            mult == 0x8000_0000_0000_0000,
                            b < 2;
                }
            }
            let v: u64 = acc + mult * (b as u64);
            return Some((v, i + 1));
        }
        if i == 9 {
            assert(varint_from(ti.drop_first(), 10) is None);
            return None;
        }
        let c: u64 = (b - 128) as u64;
        proof {
            lemma_pow128_mono(i as nat, 8);
            assert(acc + mult * c < mult * 128) by (nonlinear_arith)
                requires
                    acc < mult,
                    c < 128;
            assert(mult * 128 <= 0x8000_0000_0000_0000) by (nonlinear_arith)
                requires
                    mult <= 0x100_0000_0000_0000;
            assert(ti.drop_first() =~= t.skip(i + 1));
            match varint_from(t.skip(i + 1), (i + 1) as nat) {
                Some((v, n)) => {
                    assert(acc + mult * (c + 128 * v) == (acc + mult * c) + (mult * 128) * v)
                        by (nonlinear_arith);
                },
                None => {},
            }
        }
        acc = acc + mult * c;
        mult = mult * 128;
        i = i + 1;
    }
}

/// Reads the key that starts at `pos`: tag, wire type, and bytes taken.
pub fn read_key(s: &[u8], pos: usize) -> (r: Result<(u32, u64, usize), DecodeError>)
    requires
        pos <= s@.len(),
    ensures
        match r {
            Ok((t, w, n)) => parse_key(s@.skip(pos as int)) == Ok::<(nat, nat, nat), DecodeError>(
                (t as nat, w as nat, n as nat),
            ),
            Err(e) => parse_key(s@.skip(pos as int)) == Err::<(nat, nat, nat), DecodeError>(e),
        },
{
    match read_varint(s, pos) {
        None => Err(DecodeError::InvalidVarint),
        Some((key, n)) => {
            if key > 0xFFFF_FFFF {
                Err(DecodeError::InvalidKey)
            } else if key % 8 >= 6 {
                Err(DecodeError::InvalidWireType)
            } else if key / 8 == 0 {
                Err(DecodeError::InvalidTag)
            } else {
                Ok(((key / 8) as u32, key % 8, n))
            }
        },
    }
}

/// Reads the length-delimited payload whose length starts at `pos`:
/// where the payload starts, and where it ends.
pub fn read_len_delimited(s: &[u8], pos: usize) -> (r: Result<(usize, usize), DecodeError>)
    requires
        pos <= s@.len(),
    ensures
        match r {
            Ok((start, end)) => pos < start <= end <= s@.len() && parse_len_delimited(
                s@.skip(pos as int),
            ) == Ok::<(Seq<u8>, nat), DecodeError>(
                (s@.subrange(start as int, end as int), (end - pos) as nat),
            ),
            Err(e) => parse_len_delimited(s@.skip(pos as int)) == Err::<(Seq<u8>, nat), DecodeError>(
                e,
            ),
        },
{
    proof {
        lemma_varint_from_len(s@.skip(pos as int), 0);
    }
    match read_varint(s, pos) {
        None => Err(DecodeError::InvalidVarint),
        Some((len, n)) => {
            let remaining: usize = s.len() - pos - n;
            if len > remaining as u64 {
                Err(DecodeError::BufferUnderflow)
            } else {
                let start: usize = pos + n;
                let end: usize = start + len as usize;
                assert(s@.skip(pos as int).subrange(n as int, n + len) =~= s@.subrange(
                    start as int,
                    end as int,
                ));
                Ok((start, end))
            }
        },
    }
}

/// Skips a field that the message does not know, of wire type `wt` and tag
/// `tag`, whose body starts at `pos`; returns how many bytes the body takes.
pub fn skip_unknown_field(s: &[u8], pos: usize, tag: u32, wt: u64, depth: u32) -> (r: Result<
    usize,
    DecodeError,
>)
    requires
        pos <= s@.len(),
    ensures
        match r {
            Ok(n) => skip_field(s@.skip(pos as int), tag as nat, wt as nat, depth as nat) == Ok::<
                nat,
                DecodeError,
            >(n as nat),
            Err(e) => skip_field(s@.skip(pos as int), tag as nat, wt as nat, depth as nat) == Err::<
                nat,
                DecodeError,
            >(e),
        },
    decreases s@.len() - pos, 1nat,
{
    if depth == 0 {
        return Err(DecodeError::RecursionLimit);
    }
    if wt == 0 {
        match read_varint(s, pos) {
            None => Err(DecodeError::InvalidVarint),
            Some((_, n)) => Ok(n),
        }
    } else if wt == 1 {
        if 8 > s.len() - pos {
            Err(DecodeError::BufferUnderflow)
        } else {
            Ok(8)
        }
    } else if wt == 5 {
        if 4 > s.len() - pos {
            Err(DecodeError::BufferUnderflow)
        } else {
            Ok(4)
        }
    } else if wt == 2 {
        match read_len_delimited(s, pos) {
            Err(e) => Err(e),
            Ok((_, end)) => Ok(end - pos),
        }
    } else if wt == 3 {
        skip_rest_of_group(s, pos, tag, depth)
    } else {
        Err(DecodeError::UnexpectedEndGroup)
    }
}

/// Skips the rest of a group with tag `tag` that starts at `pos`, its
/// end-group key included; returns how many bytes that takes.
pub fn skip_rest_of_group(s: &[u8], pos: usize, tag: u32, depth: u32) -> (r: Result<
    usize,
    DecodeError,
>)
    requires
        pos <= s@.len(),
        depth >= 1,
    ensures
        match r {
            Ok(n) => skip_group(s@.skip(pos as int), tag as nat, depth as nat) == Ok::<
                nat,
                DecodeError,
            >(n as nat),
            Err(e) => skip_group(s@.skip(pos as int), tag as nat, depth as nat) == Err::<
                nat,
                DecodeError,
            >(e),
        },
    decreases s@.len() - pos, 0nat,
{
    let ghost t = s@.skip(pos as int);
    proof {
        lemma_parse_key_len(t);
    }
    match read_key(s, pos) {
        Err(e) => Err(e),
        Ok((inner_tag, inner_wt, n)) => {
            assert(n <= t.len());
            assert(t.len() == s@.len() - pos);
            let total: usize = s.len();
            assert(pos + n <= total);
            if inner_wt == 4 {
                if inner_tag != tag {
                    Err(DecodeError::UnexpectedEndGroup)
                } else {
                    Ok(n)
                }
            } else {
                assert(s@.skip((pos + n) as int) =~= t.skip(n as int));
                proof {
                    lemma_skip_field_len(t.skip(n as int), inner_tag as nat, inner_wt as nat, (depth - 1) as nat);
                }
                match skip_unknown_field(s, pos + n, inner_tag, inner_wt, depth - 1) {
                    Err(e) => Err(e),
                    Ok(m) => {
                        assert(s@.skip((pos + n + m) as int) =~= t.skip(n + m));
                        match skip_rest_of_group(s, pos + n + m, tag, depth) {
                            Err(e) => Err(e),
                            Ok(k) => {
                                proof {
                                    lemma_skip_group_len(t.skip(n + m), tag as nat, depth as nat);
                                }
                                Ok(n + m + k)
                            },
                        }
                    },
                }
            }
        },
    }
}

} // verus!
