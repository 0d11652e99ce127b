//! The Protocol Buffers messages exchanged with the Seed-ASR backend, with
//! their encoding and decoding.
use vstd::prelude::*;
use vstd::utf8::*;

use crate::json::{decimal, push_decimal};
use crate::text::{append_bytes, lemma_utf8_roundtrip, utf8_to_string};
use crate::wire::{
    lemma_len_delimited_len, lemma_parse_key_len, lemma_pow128_mono, lemma_pow128_values, pow128, varint_from, lemma_skip_field_len, lemma_varint_from_len,
    parse_key, parse_len_delimited, parse_varint, put_varint, read_key, read_len_delimited,
    read_varint, skip_field, skip_unknown_field, varint_bytes, DecodeError, RECURSION_LIMIT,
};

verus! {

/// A request frame sent to the backend.
///
/// Fields and tags: token 2, service_name 3, method_name 5, payload 6,
/// audio_data 7, request_id 8, frame_state 9.
#[derive(Clone, Debug, PartialEq, Eq)]
pub struct AsrRequest {
    pub token: String,
    pub service_name: String,
    pub method_name: String,
    pub payload: String,
    pub audio_data: Vec<u8>,
    pub request_id: String,
    pub frame_state: i32,
}

/// A response frame received from the backend.
///
/// Fields and tags: request_id 1, task_id 2, service_name 3, message_type 4,
/// status_code 5, status_message 6, result_json 7, unknown_field_9 9.
#[derive(Clone, Debug, PartialEq, Eq)]
pub struct AsrResponse {
    pub request_id: String,
    pub task_id: String,
    pub service_name: String,
    pub message_type: String,
    pub status_code: i32,
    pub status_message: String,
    pub result_json: String,
    pub unknown_field_9: i32,
}

/// Where an audio frame stands in the stream.
#[derive(Clone, Copy, Debug, PartialEq, Eq)]
pub enum FrameState {
    Unspecified,
    First,
    Middle,
    Last,
}

/// The contents of an [`AsrRequest`].
pub ghost struct RequestFields {
    pub token: Seq<char>,
    pub service_name: Seq<char>,
    pub method_name: Seq<char>,
    pub payload: Seq<char>,
    pub audio_data: Seq<u8>,
    pub request_id: Seq<char>,
    pub frame_state: i32,
}

/// The contents of an [`AsrResponse`].
pub ghost struct ResponseFields {
    pub request_id: Seq<char>,
    pub task_id: Seq<char>,
    pub service_name: Seq<char>,
    pub message_type: Seq<char>,
    pub status_code: i32,
    pub status_message: Seq<char>,
    pub result_json: Seq<char>,
    pub unknown_field_9: i32,
}

impl View for AsrRequest {
    type V = RequestFields;

    open spec fn view(&self) -> RequestFields {
        RequestFields {
            token: self.token@,
            service_name: self.service_name@,
            method_name: self.method_name@,
            payload: self.payload@,
            audio_data: self.audio_data@,
            request_id: self.request_id@,
            frame_state: self.frame_state,
        }
    }
}

impl View for AsrResponse {
    type V = ResponseFields;

    open spec fn view(&self) -> ResponseFields {
        ResponseFields {
            request_id: self.request_id@,
            task_id: self.task_id@,
            service_name: self.service_name@,
            message_type: self.message_type@,
            status_code: self.status_code,
            status_message: self.status_message@,
            result_json: self.result_json@,
            unknown_field_9: self.unknown_field_9,
        }
    }
}

impl FrameState {
    /// The number that stands for the frame state on the wire.
    pub open spec fn spec_code(self) -> i32 {
        match self {
            FrameState::Unspecified => 0,
            FrameState::First => 1,
            FrameState::Middle => 3,
            FrameState::Last => 9,
        }
    }

    /// The number that stands for the frame state on the wire.
    #[verifier::when_used_as_spec(spec_code)]
    pub fn code(self) -> (r: i32)
        ensures
            r == self.spec_code(),
    {
        match self {
            FrameState::Unspecified => 0,
            FrameState::First => 1,
            FrameState::Middle => 3,
            FrameState::Last => 9,
        }
    }
}

/// A request with every field at its default.
pub open spec fn empty_request() -> RequestFields {
    RequestFields {
        token: Seq::empty(),
        service_name: Seq::empty(),
        method_name: Seq::empty(),
        payload: Seq::empty(),
        audio_data: Seq::empty(),
        request_id: Seq::empty(),
        frame_state: 0,
    }
}

/// A response with every field at its default.
pub open spec fn empty_response() -> ResponseFields {
    ResponseFields {
        request_id: Seq::empty(),
        task_id: Seq::empty(),
        service_name: Seq::empty(),
        message_type: Seq::empty(),
        status_code: 0,
        status_message: Seq::empty(),
        result_json: Seq::empty(),
        unknown_field_9: 0,
    }
}

// ---------------------------------------------------------------------------
// Encoding

/// The 64-bit pattern of an `int32` field: negative values are sign-extended.
pub open spec fn i32_bits(v: i32) -> nat {
    if v >= 0 {
        v as nat
    } else {
        (v + 0x1_0000_0000_0000_0000) as nat
    }
}

/// An `int32` field with the low 32 bits of `v`, read as two's complement.
pub open spec fn i32_from_bits(v: nat) -> i32 {
    let low = v % 0x1_0000_0000;
    if low < 0x8000_0000 {
        low as i32
    } else {
        (low - 0x1_0000_0000) as i32
    }
}

/// A field key.
pub open spec fn key_bytes(tag: nat, wt: nat) -> Seq<u8> {
    varint_bytes(tag * 8 + wt)
}

/// A length-delimited field; absent when empty.
pub open spec fn bytes_field(tag: nat, b: Seq<u8>) -> Seq<u8> {
    if b.len() == 0 {
        Seq::empty()
    } else {
        key_bytes(tag, 2) + varint_bytes(b.len()) + b
    }
}

/// A string field, UTF-8 encoded; absent when empty.
pub open spec fn text_field(tag: nat, s: Seq<char>) -> Seq<u8> {
    bytes_field(tag, encode_utf8(s))
}

/// An `int32` field; absent when zero.
pub open spec fn int32_field(tag: nat, v: i32) -> Seq<u8> {
    if v == 0 {
        Seq::empty()
    } else {
        key_bytes(tag, 0) + varint_bytes(i32_bits(v))
    }
}

/// The encoding of a request: its non-default fields in tag order.
pub open spec fn request_bytes(r: RequestFields) -> Seq<u8> {
    text_field(2, r.token) + (text_field(3, r.service_name) + (text_field(5, r.method_name) + (
    text_field(6, r.payload) + (bytes_field(7, r.audio_data) + (text_field(8, r.request_id)
        + int32_field(9, r.frame_state))))))
}

fn put_key(out: &mut Vec<u8>, tag: u64, wt: u64)
    requires
        1 <= tag <= 15,
        wt < 8,
    ensures
        final(out)@ == old(out)@ + key_bytes(tag as nat, wt as nat),
{
    put_varint(out, tag * 8 + wt);
}

fn put_bytes_field(out: &mut Vec<u8>, tag: u64, b: &[u8])
    requires
        1 <= tag <= 15,
    ensures
        final(out)@ == old(out)@ + bytes_field(tag as nat, b@),
{
    if b.len() == 0 {
        assert(old(out)@ + Seq::<u8>::empty() =~= old(out)@);
        return;
    }
    put_key(out, tag, 2);
    put_varint(out, b.len() as u64);
    append_bytes(out, b);
    assert(old(out)@ + bytes_field(tag as nat, b@) =~= old(out)@ + key_bytes(tag as nat, 2)
        + varint_bytes(b@.len()) + b@);
}

fn put_text_field(out: &mut Vec<u8>, tag: u64, s: &str)
    requires
        1 <= tag <= 15,
    ensures
        final(out)@ == old(out)@ + text_field(tag as nat, s@),
{
    put_bytes_field(out, tag, s.as_bytes());
}

fn put_int32_field(out: &mut Vec<u8>, tag: u64, v: i32)
    requires
        1 <= tag <= 15,
    ensures
        final(out)@ == old(out)@ + int32_field(tag as nat, v),
{
    if v == 0 {
        assert(old(out)@ + Seq::<u8>::empty() =~= old(out)@);
        return;
    }
    put_key(out, tag, 0);
    let bits: u64 = if v >= 0 {
        v as u64
    } else {
        (0xFFFF_FFFF_FFFF_FFFFu64 - ((-(v as i64) - 1) as u64))
    };
    assert(bits == i32_bits(v));
    put_varint(out, bits);
    assert(old(out)@ + int32_field(tag as nat, v) =~= old(out)@ + key_bytes(tag as nat, 0)
        + varint_bytes(i32_bits(v)));
}

/// Encodes a request: its non-default fields in tag order.
pub fn encode_request(request: &AsrRequest) -> (r: Vec<u8>)
    ensures
        r@ == request_bytes(request@),
{
    let ghost f = request@;
    let mut tail: Vec<u8> = Vec::new();
    put_int32_field(&mut tail, 9, request.frame_state);
    let ghost t9 = tail@;
    let mut t8: Vec<u8> = Vec::new();
    put_text_field(&mut t8, 8, request.request_id.as_str());
    append_bytes(&mut t8, tail.as_slice());
    let mut t7: Vec<u8> = Vec::new();
    put_bytes_field(&mut t7, 7, request.audio_data.as_slice());
    append_bytes(&mut t7, t8.as_slice());
    let mut t6: Vec<u8> = Vec::new();
    put_text_field(&mut t6, 6, request.payload.as_str());
    append_bytes(&mut t6, t7.as_slice());
    let mut t5: Vec<u8> = Vec::new();
    put_text_field(&mut t5, 5, request.method_name.as_str());
    append_bytes(&mut t5, t6.as_slice());
    let mut t3: Vec<u8> = Vec::new();
    put_text_field(&mut t3, 3, request.service_name.as_str());
    append_bytes(&mut t3, t5.as_slice());
    let mut out: Vec<u8> = Vec::new();
    put_text_field(&mut out, 2, request.token.as_str());
    append_bytes(&mut out, t3.as_slice());
    proof {
        assert(Seq::<u8>::empty() + int32_field(9, f.frame_state) =~= int32_field(9, f.frame_state));
        assert(Seq::<u8>::empty() + text_field(8, f.request_id) =~= text_field(8, f.request_id));
        assert(Seq::<u8>::empty() + bytes_field(7, f.audio_data) =~= bytes_field(7, f.audio_data));
        assert(Seq::<u8>::empty() + text_field(6, f.payload) =~= text_field(6, f.payload));
        assert(Seq::<u8>::empty() + text_field(5, f.method_name) =~= text_field(5, f.method_name));
        assert(Seq::<u8>::empty() + text_field(3, f.service_name) =~= text_field(3, f.service_name));
        assert(Seq::<u8>::empty() + text_field(2, f.token) =~= text_field(2, f.token));
    }
    out
}

/// The encoding of a response: its non-default fields in tag order.
pub open spec fn response_bytes(r: ResponseFields) -> Seq<u8> {
    text_field(1, r.request_id) + (text_field(2, r.task_id) + (text_field(3, r.service_name) + (
    text_field(4, r.message_type) + (int32_field(5, r.status_code) + (text_field(
        6,
        r.status_message,
    ) + (text_field(7, r.result_json) + int32_field(9, r.unknown_field_9)))))))
}

/// Encodes a response: its non-default fields in tag order.
pub fn encode_response(response: &AsrResponse) -> (r: Vec<u8>)
    ensures
        r@ == response_bytes(response@),
{
    let ghost f = response@;
    let mut t9: Vec<u8> = Vec::new();
    put_int32_field(&mut t9, 9, response.unknown_field_9);
    let mut t7: Vec<u8> = Vec::new();
    put_text_field(&mut t7, 7, response.result_json.as_str());
    append_bytes(&mut t7, t9.as_slice());
    let mut t6: Vec<u8> = Vec::new();
    put_text_field(&mut t6, 6, response.status_message.as_str());
    append_bytes(&mut t6, t7.as_slice());
    let mut t5: Vec<u8> = Vec::new();
    put_int32_field(&mut t5, 5, response.status_code);
    append_bytes(&mut t5, t6.as_slice());
    let mut t4: Vec<u8> = Vec::new();
    put_text_field(&mut t4, 4, response.message_type.as_str());
    append_bytes(&mut t4, t5.as_slice());
    let mut t3: Vec<u8> = Vec::new();
    put_text_field(&mut t3, 3, response.service_name.as_str());
    append_bytes(&mut t3, t4.as_slice());
    let mut t2: Vec<u8> = Vec::new();
    put_text_field(&mut t2, 2, response.task_id.as_str());
    append_bytes(&mut t2, t3.as_slice());
    let mut out: Vec<u8> = Vec::new();
    put_text_field(&mut out, 1, response.request_id.as_str());
    append_bytes(&mut out, t2.as_slice());
    proof {
        assert(Seq::<u8>::empty() + int32_field(9, f.unknown_field_9) =~= int32_field(
            9,
            f.unknown_field_9,
        ));
        assert(Seq::<u8>::empty() + text_field(7, f.result_json) =~= text_field(7, f.result_json));
        assert(Seq::<u8>::empty() + text_field(6, f.status_message) =~= text_field(
            6,
            f.status_message,
        ));
        assert(Seq::<u8>::empty() + int32_field(5, f.status_code) =~= int32_field(
            5,
            f.status_code,
        ));
        assert(Seq::<u8>::empty() + text_field(4, f.message_type) =~= text_field(
            4,
            f.message_type,
        ));
        assert(Seq::<u8>::empty() + text_field(3, f.service_name) =~= text_field(
            3,
            f.service_name,
        ));
        assert(Seq::<u8>::empty() + text_field(2, f.task_id) =~= text_field(2, f.task_id));
        assert(Seq::<u8>::empty() + text_field(1, f.request_id) =~= text_field(1, f.request_id));
    }
    out
}

// ---------------------------------------------------------------------------
// Decoding

/// A string field's value at the front of `body`, and the bytes it takes.
pub open spec fn text_value(wt: nat, body: Seq<u8>) -> Result<(Seq<char>, nat), DecodeError> {
    if wt != 2 {
        Err(DecodeError::WireTypeMismatch)
    } else {
        match parse_len_delimited(body) {
            Err(e) => Err(e),
            Ok((b, n)) => if valid_utf8(b) {
                Ok((decode_utf8(b), n))
            } else {
                Err(DecodeError::InvalidUtf8)
            },
        }
    }
}

/// A bytes field's value at the front of `body`, and the bytes it takes.
pub open spec fn bytes_value(wt: nat, body: Seq<u8>) -> Result<(Seq<u8>, nat), DecodeError> {
    if wt != 2 {
        Err(DecodeError::WireTypeMismatch)
    } else {
        parse_len_delimited(body)
    }
}

/// An `int32` field's value at the front of `body`, and the bytes it takes.
pub open spec fn int32_value(wt: nat, body: Seq<u8>) -> Result<(i32, nat), DecodeError> {
    if wt != 0 {
        Err(DecodeError::WireTypeMismatch)
    } else {
        match parse_varint(body) {
            None => Err(DecodeError::InvalidVarint),
            Some((v, n)) => Ok((i32_from_bits(v), n)),
        }
    }
}

/// Reads the field with key `(tag, wt)` whose body is at the front of
/// `body` into `m`: the updated request and the bytes the body takes.
pub open spec fn request_field(m: RequestFields, tag: nat, wt: nat, body: Seq<u8>) -> Result<
    (RequestFields, nat),
    DecodeError,
> {
    if tag == 2 {
        match text_value(wt, body) {
            Err(e) => Err(e),
            Ok((v, n)) => Ok((RequestFields { token: v, ..m }, n)),
        }
    } else if tag == 3 {
        match text_value(wt, body) {
            Err(e) => Err(e),
            Ok((v, n)) => Ok((RequestFields { service_name: v, ..m }, n)),
        }
    } else if tag == 5 {
        match text_value(wt, body) {
            Err(e) => Err(e),
            Ok((v, n)) => Ok((RequestFields { method_name: v, ..m }, n)),
        }
    } else if tag == 6 {
        match text_value(wt, body) {
            Err(e) => Err(e),
            Ok((v, n)) => Ok((RequestFields { payload: v, ..m }, n)),
        }
    } else if tag == 7 {
        match bytes_value(wt, body) {
            Err(e) => Err(e),
            Ok((v, n)) => Ok((RequestFields { audio_data: v, ..m }, n)),
        }
    } else if tag == 8 {
        match text_value(wt, body) {
            Err(e) => Err(e),
            Ok((v, n)) => Ok((RequestFields { request_id: v, ..m }, n)),
        }
    } else if tag == 9 {
        match int32_value(wt, body) {
            Err(e) => Err(e),
            Ok((v, n)) => Ok((RequestFields { frame_state: v, ..m }, n)),
        }
    } else {
        match skip_field(body, tag, wt, RECURSION_LIMIT as nat) {
            Err(e) => Err(e),
            Ok(n) => Ok((m, n)),
        }
    }
}

/// Reads the field with key `(tag, wt)` whose body is at the front of
/// `body` into `m`: the updated response and the bytes the body takes.
pub open spec fn response_field(m: ResponseFields, tag: nat, wt: nat, body: Seq<u8>) -> Result<
    (ResponseFields, nat),
    DecodeError,
> {
    if tag == 1 {
        match text_value(wt, body) {
            Err(e) => Err(e),
            Ok((v, n)) => Ok((ResponseFields { request_id: v, ..m }, n)),
        }
    } else if tag == 2 {
        match text_value(wt, body) {
            Err(e) => Err(e),
            Ok((v, n)) => Ok((ResponseFields { task_id: v, ..m }, n)),
        }
    } else if tag == 3 {
        match text_value(wt, body) {
            Err(e) => Err(e),
            Ok((v, n)) => Ok((ResponseFields { service_name: v, ..m }, n)),
        }
    } else if tag == 4 {
        match text_value(wt, body) {
            Err(e) => Err(e),
            Ok((v, n)) => Ok((ResponseFields { message_type: v, ..m }, n)),
        }
    } else if tag == 5 {
        match int32_value(wt, body) {
            Err(e) => Err(e),
            Ok((v, n)) => Ok((ResponseFields { status_code: v, ..m }, n)),
        }
    } else if tag == 6 {
        match text_value(wt, body) {
            Err(e) => Err(e),
            Ok((v, n)) => Ok((ResponseFields { status_message: v, ..m }, n)),
        }
    } else if tag == 7 {
        match text_value(wt, body) {
            Err(e) => Err(e),
            Ok((v, n)) => Ok((ResponseFields { result_json: v, ..m }, n)),
        }
    } else if tag == 9 {
        match int32_value(wt, body) {
            Err(e) => Err(e),
            Ok((v, n)) => Ok((ResponseFields { unknown_field_9: v, ..m }, n)),
        }
    } else {
        match skip_field(body, tag, wt, RECURSION_LIMIT as nat) {
            Err(e) => Err(e),
            Ok(n) => Ok((m, n)),
        }
    }
}

/// A read field body stays within its input.
pub proof fn lemma_field_len(tag: nat, wt: nat, body: Seq<u8>)
    ensures
        text_value(wt, body) matches Ok((v, n)) ==> n <= body.len(),
        bytes_value(wt, body) matches Ok((v, n)) ==> n <= body.len(),
        int32_value(wt, body) matches Ok((v, n)) ==> n <= body.len(),
        skip_field(body, tag, wt, RECURSION_LIMIT as nat) matches Ok(n) ==> n <= body.len(),
{
    lemma_len_delimited_len(body);
    lemma_varint_from_len(body, 0);
    lemma_skip_field_len(body, tag, wt, RECURSION_LIMIT as nat);
}

/// Decodes the fields in `s` into `m`, one after another; later
/// occurrences of a field replace earlier ones.
#[verifier::opaque]
pub open spec fn request_fields_from(s: Seq<u8>, m: RequestFields) -> Result<
    RequestFields,
    DecodeError,
>
    decreases s.len(),
{
    if s.len() == 0 {
        Ok(m)
    } else {
        match parse_key(s) {
            Err(e) => Err(e),
            Ok((tag, wt, n)) => {
                let body = s.skip(n as int);
                proof {
                    lemma_parse_key_len(s);
                    lemma_field_len(tag, wt, body);
                }
                match request_field(m, tag, wt, body) {
                    Err(e) => Err(e),
                    Ok((m2, used)) => request_fields_from(body.skip(used as int), m2),
                }
            },
        }
    }
}

/// Decodes the fields in `s` into `m`, one after another; later
/// occurrences of a field replace earlier ones.
#[verifier::opaque]
pub open spec fn response_fields_from(s: Seq<u8>, m: ResponseFields) -> Result<
    ResponseFields,
    DecodeError,
>
    decreases s.len(),
{
    if s.len() == 0 {
        Ok(m)
    } else {
        match parse_key(s) {
            Err(e) => Err(e),
            Ok((tag, wt, n)) => {
                let body = s.skip(n as int);
                proof {
                    lemma_parse_key_len(s);
                    lemma_field_len(tag, wt, body);
                }
                match response_field(m, tag, wt, body) {
                    Err(e) => Err(e),
                    Ok((m2, used)) => response_fields_from(body.skip(used as int), m2),
                }
            },
        }
    }
}

/// The request that `s` encodes.
pub open spec fn decode_request_spec(s: Seq<u8>) -> Result<RequestFields, DecodeError> {
    request_fields_from(s, empty_request())
}

/// The response that `s` encodes.
pub open spec fn decode_response_spec(s: Seq<u8>) -> Result<ResponseFields, DecodeError> {
    response_fields_from(s, empty_response())
}

fn read_text(s: &[u8], pos: usize, wt: u64) -> (r: Result<(String, usize), DecodeError>)
    requires
        pos <= s@.len(),
    ensures
        match r {
            Ok((v, n)) => text_value(wt as nat, s@.skip(pos as int)) == Ok::<
                (Seq<char>, nat),
                DecodeError,
            >((v@, n as nat)),
            Err(e) => text_value(wt as nat, s@.skip(pos as int)) == Err::<
                (Seq<char>, nat),
                DecodeError,
            >(e),
        },
{
    if wt != 2 {
        return Err(DecodeError::WireTypeMismatch);
    }
    match read_len_delimited(s, pos) {
        Err(e) => Err(e),
        Ok((start, end)) => {
            let slice = &s[start..end];
            assert(slice@ == s@.subrange(start as int, end as int));
            match utf8_to_string(slice) {
                None => Err(DecodeError::InvalidUtf8),
                Some(v) => Ok((v, end - pos)),
            }
        },
    }
}

fn read_bytes(s: &[u8], pos: usize, wt: u64) -> (r: Result<(Vec<u8>, usize), DecodeError>)
    requires
        pos <= s@.len(),
    ensures
        match r {
            Ok((v, n)) => bytes_value(wt as nat, s@.skip(pos as int)) == Ok::<
                (Seq<u8>, nat),
                DecodeError,
            >((v@, n as nat)),
            Err(e) => bytes_value(wt as nat, s@.skip(pos as int)) == Err::<
                (Seq<u8>, nat),
                DecodeError,
            >(e),
        },
{
    if wt != 2 {
        return Err(DecodeError::WireTypeMismatch);
    }
    match read_len_delimited(s, pos) {
        Err(e) => Err(e),
        Ok((start, end)) => {
            let mut v: Vec<u8> = Vec::new();
            append_bytes(&mut v, &s[start..end]);
            assert(v@ =~= s@.subrange(start as int, end as int));
            Ok((v, end - pos))
        },
    }
}

fn read_int32(s: &[u8], pos: usize, wt: u64) -> (r: Result<(i32, usize), DecodeError>)
    requires
        pos <= s@.len(),
    ensures
        match r {
            Ok((v, n)) => int32_value(wt as nat, s@.skip(pos as int)) == Ok::<
                (i32, nat),
                DecodeError,
            >((v, n as nat)),
            Err(e) => int32_value(wt as nat, s@.skip(pos as int)) == Err::<(i32, nat), DecodeError>(
                e,
            ),
        },
{
    if wt != 0 {
        return Err(DecodeError::WireTypeMismatch);
    }
    match read_varint(s, pos) {
        None => Err(DecodeError::InvalidVarint),
        Some((bits, n)) => {
            let low: u64 = bits % 0x1_0000_0000;
            let v: i32 = if low < 0x8000_0000 {
                low as i32
            } else {
                ((low as i64) - 0x1_0000_0000) as i32
            };
            Ok((v, n))
        },
    }
}


fn read_request_field(s: &[u8], pos: usize, tag: u32, wt: u64, m: &mut AsrRequest) -> (r: Result<usize, DecodeError>)
    requires
        pos <= s@.len(),
    ensures
        match request_field(old(m)@, tag as nat, wt as nat, s@.skip(pos as int)) {
            Ok((m2, n)) => r == Ok::<usize, DecodeError>(n as usize) && final(m)@ == m2,
            Err(e) => r == Err::<usize, DecodeError>(e),
        },
{
    let bytes = s;
    let body_pos = pos;
    let used: usize = if tag == 2 {
                let (v, k) = match read_text(bytes, body_pos, wt) {
                    Err(e) => return Err(e),
                    Ok(x) => x,
                };
                m.token = v;
                k
            } else if tag == 3 {
                let (v, k) = match read_text(bytes, body_pos, wt) {
                    Err(e) => return Err(e),
                    Ok(x) => x,
                };
                m.service_name = v;
                k
            } else if tag == 5 {
                let (v, k) = match read_text(bytes, body_pos, wt) {
                    Err(e) => return Err(e),
                    Ok(x) => x,
                };
                m.method_name = v;
                k
            } else if tag == 6 {
                let (v, k) = match read_text(bytes, body_pos, wt) {
                    Err(e) => return Err(e),
                    Ok(x) => x,
                };
                m.payload = v;
                k
            } else if tag == 7 {
                let (v, k) = match read_bytes(bytes, body_pos, wt) {
                    Err(e) => return Err(e),
                    Ok(x) => x,
                };
                m.audio_data = v;
                k
            } else if tag == 8 {
                let (v, k) = match read_text(bytes, body_pos, wt) {
                    Err(e) => return Err(e),
                    Ok(x) => x,
                };
                m.request_id = v;
                k
            } else if tag == 9 {
                let (v, k) = match read_int32(bytes, body_pos, wt) {
                    Err(e) => return Err(e),
                    Ok(x) => x,
                };
                m.frame_state = v;
                k
            } else {
                match skip_unknown_field(bytes, body_pos, tag, wt, RECURSION_LIMIT) {
                    Err(e) => return Err(e),
                    Ok(k) => k,
                }
            };
    Ok(used)
}


fn read_response_field(s: &[u8], pos: usize, tag: u32, wt: u64, m: &mut AsrResponse) -> (r: Result<usize, DecodeError>)
    requires
        pos <= s@.len(),
    ensures
        match response_field(old(m)@, tag as nat, wt as nat, s@.skip(pos as int)) {
            Ok((m2, n)) => r == Ok::<usize, DecodeError>(n as usize) && final(m)@ == m2,
            Err(e) => r == Err::<usize, DecodeError>(e),
        },
{
    let bytes = s;
    let body_pos = pos;
    let used: usize = if tag == 1 {
            let (v, k) = match read_text(bytes, body_pos, wt) {
                Err(e) => return Err(e),
                Ok(x) => x,
            };
            m.request_id = v;
            k
        } else if tag == 2 {
            let (v, k) = match read_text(bytes, body_pos, wt) {
                Err(e) => return Err(e),
                Ok(x) => x,
            };
            m.task_id = v;
            k
        } else if tag == 3 {
            let (v, k) = match read_text(bytes, body_pos, wt) {
                Err(e) => return Err(e),
                Ok(x) => x,
            };
            m.service_name = v;
            k
        } else if tag == 4 {
            let (v, k) = match read_text(bytes, body_pos, wt) {
                Err(e) => return Err(e),
                Ok(x) => x,
            };
            m.message_type = v;
            k
        } else if tag == 5 {
            let (v, k) = match read_int32(bytes, body_pos, wt) {
                Err(e) => return Err(e),
                Ok(x) => x,
            };
            m.status_code = v;
            k
        } else if tag == 6 {
            let (v, k) = match read_text(bytes, body_pos, wt) {
                Err(e) => return Err(e),
                Ok(x) => x,
            };
            m.status_message = v;
            k
        } else if tag == 7 {
            let (v, k) = match read_text(bytes, body_pos, wt) {
                Err(e) => return Err(e),
                Ok(x) => x,
            };
            m.result_json = v;
            k
        } else if tag == 9 {
            let (v, k) = match read_int32(bytes, body_pos, wt) {
                Err(e) => return Err(e),
                Ok(x) => x,
            };
            m.unknown_field_9 = v;
            k
        } else {
            match skip_unknown_field(bytes, body_pos, tag, wt, RECURSION_LIMIT) {
                Err(e) => return Err(e),
                Ok(k) => k,
            }
        };
    Ok(used)
}

impl AsrRequest {
    /// Decodes a request frame.
    pub fn decode(bytes: &[u8]) -> (r: Result<AsrRequest, DecodeError>)
        ensures
            match r {
                Ok(m) => decode_request_spec(bytes@) == Ok::<RequestFields, DecodeError>(m@),
                Err(e) => decode_request_spec(bytes@) == Err::<RequestFields, DecodeError>(e),
            },
    {
        let mut m = AsrRequest {
            token: String::new(),
            service_name: String::new(),
            method_name: String::new(),
            payload: String::new(),
            audio_data: Vec::new(),
            request_id: String::new(),
            frame_state: 0,
        };
        let mut pos: usize = 0;
        assert(bytes@.skip(0) =~= bytes@);
        assert(m@ =~= empty_request());
        while pos < bytes.len()
            invariant
                pos <= bytes@.len(),
                decode_request_spec(bytes@) == request_fields_from(bytes@.skip(pos as int), m@),
            decreases bytes@.len() - pos,
        {
            let ghost t = bytes@.skip(pos as int);
            proof {
                lemma_parse_key_len(t);
            }
            let ghost before = m@;
            let (tag, wt, n) = match read_key(bytes, pos) {
                Err(e) => {
                    proof {
                        reveal(request_fields_from);
                    }
                    return Err(e);
                },
                Ok(k) => k,
            };
            let body_pos: usize = pos + n;
            let ghost body = t.skip(n as int);
            assert(bytes@.skip(body_pos as int) =~= body);
            proof {
                lemma_field_len(tag as nat, wt as nat, body);
            }
            let used: usize = match read_request_field(bytes, body_pos, tag, wt, &mut m) {
                Err(e) => {
                    proof {
                        reveal(request_fields_from);
                    }
                    return Err(e);
                },
                Ok(k) => k,
            };
            proof {
                lemma_request_step(t, before, tag as nat, wt as nat, n as nat, m@, used as nat);
            }
            assert(bytes@.skip((body_pos + used) as int) =~= body.skip(used as int));
            pos = body_pos + used;
        }
        assert(bytes@.skip(pos as int) =~= Seq::<u8>::empty());
        proof {
            reveal(request_fields_from);
        }
        Ok(m)
    }
}

/// Decodes a response frame.
#[verifier::rlimit(40)]
pub fn decode_response(bytes: &[u8]) -> (r: Result<AsrResponse, DecodeError>)
    ensures
        match r {
            Ok(m) => decode_response_spec(bytes@) == Ok::<ResponseFields, DecodeError>(m@),
            Err(e) => decode_response_spec(bytes@) == Err::<ResponseFields, DecodeError>(e),
        },
{
    let mut m = AsrResponse {
        request_id: String::new(),
        task_id: String::new(),
        service_name: String::new(),
        message_type: String::new(),
        status_code: 0,
        status_message: String::new(),
        result_json: String::new(),
        unknown_field_9: 0,
    };
    let mut pos: usize = 0;
    assert(bytes@.skip(0) =~= bytes@);
    assert(m@ =~= empty_response());
    while pos < bytes.len()
        invariant
            pos <= bytes@.len(),
            decode_response_spec(bytes@) == response_fields_from(bytes@.skip(pos as int), m@),
        decreases bytes@.len() - pos,
    {
        let ghost t = bytes@.skip(pos as int);
        proof {
            lemma_parse_key_len(t);
        }
        let ghost before = m@;
        let (tag, wt, n) = match read_key(bytes, pos) {
            Err(e) => {
                proof {
                    reveal(response_fields_from);
                }
                return Err(e);
            },
            Ok(k) => k,
        };
        let body_pos: usize = pos + n;
        let ghost body = t.skip(n as int);
        assert(bytes@.skip(body_pos as int) =~= body);
        proof {
            lemma_field_len(tag as nat, wt as nat, body);
        }
        let used: usize = match read_response_field(bytes, body_pos, tag, wt, &mut m) {
            Err(e) => {
                proof {
                    reveal(response_fields_from);
                }
                return Err(e);
            },
            Ok(k) => k,
        };
        proof {
            lemma_response_step(t, before, tag as nat, wt as nat, n as nat, m@, used as nat);
        }
        assert(bytes@.skip((body_pos + used) as int) =~= body.skip(used as int));
        pos = body_pos + used;
    }
    assert(bytes@.skip(pos as int) =~= Seq::<u8>::empty());
    proof {
        reveal(response_fields_from);
    }
    Ok(m)
}

} // verus!

verus! {

// ---------------------------------------------------------------------------
// Decoding inverts encoding

/// A varint decodes back to its value, whatever follows it.
pub proof fn lemma_varint_roundtrip_from(v: nat, k: nat, rest: Seq<u8>)
    requires
        k < 10,
        v * pow128(k) < 0x1_0000_0000_0000_0000,
    ensures
        varint_from(varint_bytes(v) + rest, k) == Some((v, varint_bytes(v).len())),
    decreases v,
{
    lemma_pow128_values();
    let s = varint_bytes(v) + rest;
    if v < 128 {
        assert(s[0] == v as u8);
        if k == 9 {
            assert(v < 2) by (nonlinear_arith)
                requires
                    v * 0x8000_0000_0000_0000nat < 0x1_0000_0000_0000_0000nat,
            ;
        }
    } else {
        let q = v / 128;
        let p = pow128(k);
        assert(pow128(k + 1) == 128 * p);
        lemma_pow128_mono(0, k);
        assert(q * (128 * p) <= v * p) by (nonlinear_arith)
            requires
                q == v / 128,
                p >= 1,
        ;
        if k + 1 >= 10 {
            lemma_pow128_mono(10, k + 1);
            reveal_with_fuel(pow128, 11);
            assert(q * pow128(k + 1) >= pow128(k + 1)) by (nonlinear_arith)
                requires
                    q >= 1,
            ;
        }
        lemma_varint_roundtrip_from(q, k + 1, rest);
        assert(s.drop_first() =~= varint_bytes(q) + rest);
    }
}

/// A varint decodes back to its value, whatever follows it.
pub proof fn lemma_varint_roundtrip(v: nat, rest: Seq<u8>)
    requires
        v < 0x1_0000_0000_0000_0000,
    ensures
        parse_varint(varint_bytes(v) + rest) == Some((v, varint_bytes(v).len())),
{
    lemma_pow128_values();
    lemma_varint_roundtrip_from(v, 0, rest);
}

/// A one-byte key decodes back to its tag and wire type.
pub proof fn lemma_key_roundtrip(tag: nat, wt: nat, rest: Seq<u8>)
    requires
        1 <= tag <= 15,
        wt < 6,
    ensures
        key_bytes(tag, wt) == seq![(tag * 8 + wt) as u8],
        parse_key(key_bytes(tag, wt) + rest) == Ok::<(nat, nat, nat), DecodeError>((tag, wt, 1nat)),
{
    lemma_varint_roundtrip(tag * 8 + wt, rest);
}

/// A length-delimited payload decodes back to its bytes, whatever follows it.
pub proof fn lemma_len_delimited_roundtrip(b: Seq<u8>, rest: Seq<u8>)
    requires
        b.len() < 0x1_0000_0000_0000_0000,
    ensures
        parse_len_delimited(varint_bytes(b.len()) + b + rest) == Ok::<(Seq<u8>, nat), DecodeError>(
            (b, varint_bytes(b.len()).len() + b.len()),
        ),
{
    let s = varint_bytes(b.len()) + b + rest;
    let n = varint_bytes(b.len()).len();
    lemma_varint_roundtrip(b.len(), b + rest);
    assert(s =~= varint_bytes(b.len()) + (b + rest));
    assert(s.subrange(n as int, (n + b.len()) as int) =~= b);
}

/// The bits of an `int32` field decode back to its value.
pub proof fn lemma_i32_bits_roundtrip(v: i32)
    ensures
        i32_bits(v) < 0x1_0000_0000_0000_0000,
        i32_from_bits(i32_bits(v)) == v,
{
    if v < 0 {
        let b = (v + 0x1_0000_0000_0000_0000) as nat;
        assert(b == (v + 0x1_0000_0000) + 0xFFFF_FFFF * 0x1_0000_0000);
        assert(b % 0x1_0000_0000 == v + 0x1_0000_0000) by (nonlinear_arith)
            requires
                b == (v + 0x1_0000_0000) + 0xFFFF_FFFF * 0x1_0000_0000,
                0 <= v + 0x1_0000_0000 < 0x1_0000_0000,
        ;
    }
}

/// One step of request decoding: a key, its field, then the rest.
pub proof fn lemma_request_step(s: Seq<u8>, m: RequestFields, tag: nat, wt: nat, n: nat, m2: RequestFields, used: nat)
    requires
        s.len() > 0,
        parse_key(s) == Ok::<(nat, nat, nat), DecodeError>((tag, wt, n)),
        request_field(m, tag, wt, s.skip(n as int)) == Ok::<(RequestFields, nat), DecodeError>((m2, used)),
    ensures
        request_fields_from(s, m) == request_fields_from(s.skip(n as int).skip(used as int), m2),
{
    reveal(request_fields_from);
}

/// The end of request decoding.
pub proof fn lemma_request_done(m: RequestFields)
    ensures
        request_fields_from(Seq::empty(), m) == Ok::<RequestFields, DecodeError>(m),
{
    reveal(request_fields_from);
}

/// One step of response decoding: a key, its field, then the rest.
pub proof fn lemma_response_step(s: Seq<u8>, m: ResponseFields, tag: nat, wt: nat, n: nat, m2: ResponseFields, used: nat)
    requires
        s.len() > 0,
        parse_key(s) == Ok::<(nat, nat, nat), DecodeError>((tag, wt, n)),
        response_field(m, tag, wt, s.skip(n as int)) == Ok::<(ResponseFields, nat), DecodeError>((m2, used)),
    ensures
        response_fields_from(s, m) == response_fields_from(s.skip(n as int).skip(used as int), m2),
{
    reveal(response_fields_from);
}

/// A length-delimited string decodes back to its characters.
pub proof fn lemma_text_value_roundtrip(v: Seq<char>, rest: Seq<u8>)
    requires
        encode_utf8(v).len() < 0x1_0000_0000_0000_0000,
    ensures
        text_value(2, varint_bytes(encode_utf8(v).len()) + encode_utf8(v) + rest) == Ok::<(Seq<char>, nat), DecodeError>(
            (v, varint_bytes(encode_utf8(v).len()).len() + encode_utf8(v).len()),
        ),
{
    lemma_utf8_roundtrip(v);
    lemma_len_delimited_roundtrip(encode_utf8(v), rest);
}

/// A request with `tag`'s string field set to `v`.
pub open spec fn request_with_text(m: RequestFields, tag: nat, v: Seq<char>) -> RequestFields {
    if tag == 2 {
        RequestFields { token: v, ..m }
    } else if tag == 3 {
        RequestFields { service_name: v, ..m }
    } else if tag == 5 {
        RequestFields { method_name: v, ..m }
    } else if tag == 6 {
        RequestFields { payload: v, ..m }
    } else {
        RequestFields { request_id: v, ..m }
    }
}

/// A string field's value lands in its own field.
pub proof fn lemma_request_field_text(m: RequestFields, tag: nat, body: Seq<u8>, v: Seq<char>, n: nat)
    requires
        tag == 2 || tag == 3 || tag == 5 || tag == 6 || tag == 8,
        text_value(2, body) == Ok::<(Seq<char>, nat), DecodeError>((v, n)),
    ensures
        request_field(m, tag, 2, body) == Ok::<(RequestFields, nat), DecodeError>(
            (request_with_text(m, tag, v), n),
        ),
{
}

/// Decoding a string field sets it, and goes on with what follows.
pub proof fn lemma_text_field_step(tag: nat, v: Seq<char>, rest: Seq<u8>, m: RequestFields)
    requires
        tag == 2 || tag == 3 || tag == 5 || tag == 6 || tag == 8,
        encode_utf8(v).len() < 0x1_0000_0000_0000_0000,
        v.len() > 0 || request_with_text(m, tag, v) == m,
    ensures
        request_fields_from(text_field(tag, v) + rest, m) == request_fields_from(
            rest,
            request_with_text(m, tag, v),
        ),
{
    let b = encode_utf8(v);
    if v.len() == 0 {
        assert(b =~= Seq::<u8>::empty());
        assert(text_field(tag, v) + rest =~= rest);
    } else {
        assert(b =~= encode_scalar(v[0] as u32) + encode_utf8(v.drop_first()));
        assert(encode_scalar(v[0] as u32).len() >= 1);
        let s = text_field(tag, v) + rest;
        let tail = varint_bytes(b.len()) + b + rest;
        lemma_key_roundtrip(tag, 2, tail);
        assert(s =~= key_bytes(tag, 2) + tail);
        assert(s.skip(1) =~= tail);
        lemma_text_value_roundtrip(v, rest);
        let n = varint_bytes(b.len()).len() + b.len();
        lemma_request_field_text(m, tag, tail, v, n);
        lemma_request_step(s, m, tag, 2, 1, request_with_text(m, tag, v), n);
        assert(tail.skip(n as int) =~= rest);
    }
}

/// Decoding the bytes field sets it, and goes on with what follows.
pub proof fn lemma_bytes_field_step(v: Seq<u8>, rest: Seq<u8>, m: RequestFields)
    requires
        v.len() < 0x1_0000_0000_0000_0000,
        v.len() > 0 || m.audio_data == v,
    ensures
        request_fields_from(bytes_field(7, v) + rest, m) == request_fields_from(
            rest,
            RequestFields { audio_data: v, ..m },
        ),
{
    if v.len() == 0 {
        assert(bytes_field(7, v) + rest =~= rest);
        assert(RequestFields { audio_data: v, ..m } == m);
    } else {
        let s = bytes_field(7, v) + rest;
        let tail = varint_bytes(v.len()) + v + rest;
        lemma_key_roundtrip(7, 2, tail);
        assert(s =~= key_bytes(7, 2) + tail);
        assert(s.skip(1) =~= tail);
        lemma_len_delimited_roundtrip(v, rest);
        let n = varint_bytes(v.len()).len() + v.len();
        lemma_request_step(s, m, 7, 2, 1, RequestFields { audio_data: v, ..m }, n);
        assert(tail.skip(n as int) =~= rest);
    }
}

/// Decoding the frame-state field sets it, and goes on with what follows.
pub proof fn lemma_int32_field_step(v: i32, rest: Seq<u8>, m: RequestFields)
    requires
        v != 0 || m.frame_state == v,
    ensures
        request_fields_from(int32_field(9, v) + rest, m) == request_fields_from(
            rest,
            RequestFields { frame_state: v, ..m },
        ),
{
    if v == 0 {
        assert(int32_field(9, v) + rest =~= rest);
        assert(RequestFields { frame_state: v, ..m } == m);
    } else {
        let s = int32_field(9, v) + rest;
        let tail = varint_bytes(i32_bits(v)) + rest;
        lemma_i32_bits_roundtrip(v);
        lemma_key_roundtrip(9, 0, tail);
        assert(s =~= key_bytes(9, 0) + tail);
        assert(s.skip(1) =~= tail);
        lemma_varint_roundtrip(i32_bits(v), rest);
        let n = varint_bytes(i32_bits(v)).len();
        lemma_request_step(s, m, 9, 0, 1, RequestFields { frame_state: v, ..m }, n);
        assert(tail.skip(n as int) =~= rest);
    }
}

/// Decoding an encoded request gives back the same request.
///
/// The lengths are those of values held in memory, so they fit in 64 bits.
#[verifier::rlimit(60)]
pub proof fn law_request_roundtrip(r: RequestFields)
    requires
        encode_utf8(r.token).len() < 0x1_0000_0000_0000_0000,
        encode_utf8(r.service_name).len() < 0x1_0000_0000_0000_0000,
        encode_utf8(r.method_name).len() < 0x1_0000_0000_0000_0000,
        encode_utf8(r.payload).len() < 0x1_0000_0000_0000_0000,
        r.audio_data.len() < 0x1_0000_0000_0000_0000,
        encode_utf8(r.request_id).len() < 0x1_0000_0000_0000_0000,
    ensures
        decode_request_spec(request_bytes(r)) == Ok::<RequestFields, DecodeError>(r),
{
    let f9 = int32_field(9, r.frame_state);
    let e = Seq::<u8>::empty();
    let t8 = text_field(8, r.request_id) + f9;
    let t7 = bytes_field(7, r.audio_data) + t8;
    let t6 = text_field(6, r.payload) + t7;
    let t5 = text_field(5, r.method_name) + t6;
    let t3 = text_field(3, r.service_name) + t5;
    let m0 = empty_request();
    let m1 = request_with_text(m0, 2, r.token);
    let m2 = request_with_text(m1, 3, r.service_name);
    let m3 = request_with_text(m2, 5, r.method_name);
    let m4 = request_with_text(m3, 6, r.payload);
    let m5 = RequestFields { audio_data: r.audio_data, ..m4 };
    let m6 = request_with_text(m5, 8, r.request_id);
    let m7 = RequestFields { frame_state: r.frame_state, ..m6 };
    assert(r.token.len() == 0 ==> m1 == m0) by {
        if r.token.len() == 0 {
            assert(r.token =~= Seq::<char>::empty());
        }
    }
    assert(r.service_name.len() == 0 ==> m2 == m1) by {
        if r.service_name.len() == 0 {
            assert(r.service_name =~= Seq::<char>::empty());
        }
    }
    assert(r.method_name.len() == 0 ==> m3 == m2) by {
        if r.method_name.len() == 0 {
            assert(r.method_name =~= Seq::<char>::empty());
        }
    }
    assert(r.payload.len() == 0 ==> m4 == m3) by {
        if r.payload.len() == 0 {
            assert(r.payload =~= Seq::<char>::empty());
        }
    }
    assert(r.audio_data.len() == 0 ==> m4.audio_data == r.audio_data) by {
        if r.audio_data.len() == 0 {
            assert(r.audio_data =~= Seq::<u8>::empty());
        }
    }
    assert(r.request_id.len() == 0 ==> m6 == m5) by {
        if r.request_id.len() == 0 {
            assert(r.request_id =~= Seq::<char>::empty());
        }
    }
    lemma_text_field_step(2, r.token, t3, m0);
    lemma_text_field_step(3, r.service_name, t5, m1);
    lemma_text_field_step(5, r.method_name, t6, m2);
    lemma_text_field_step(6, r.payload, t7, m3);
    lemma_bytes_field_step(r.audio_data, t8, m4);
    lemma_text_field_step(8, r.request_id, f9, m5);
    assert(f9 + e =~= f9);
    lemma_int32_field_step(r.frame_state, e, m6);
    lemma_request_done(m7);
    assert(m7 == r);
}


/// The end of response decoding.
pub proof fn lemma_response_done(m: ResponseFields)
    ensures
        response_fields_from(Seq::empty(), m) == Ok::<ResponseFields, DecodeError>(m),
{
    reveal(response_fields_from);
}

/// A response with `tag`'s string field set to `v`.
pub open spec fn response_with_text(m: ResponseFields, tag: nat, v: Seq<char>) -> ResponseFields {
    if tag == 1 {
        ResponseFields { request_id: v, ..m }
    } else if tag == 2 {
        ResponseFields { task_id: v, ..m }
    } else if tag == 3 {
        ResponseFields { service_name: v, ..m }
    } else if tag == 4 {
        ResponseFields { message_type: v, ..m }
    } else if tag == 6 {
        ResponseFields { status_message: v, ..m }
    } else {
        ResponseFields { result_json: v, ..m }
    }
}

/// A response with `tag`'s `int32` field set to `v`.
pub open spec fn response_with_int(m: ResponseFields, tag: nat, v: i32) -> ResponseFields {
    if tag == 5 {
        ResponseFields { status_code: v, ..m }
    } else {
        ResponseFields { unknown_field_9: v, ..m }
    }
}

/// Decoding a response string field sets it, and goes on with what follows.
pub proof fn lemma_response_text_step(tag: nat, v: Seq<char>, rest: Seq<u8>, m: ResponseFields)
    requires
        tag == 1 || tag == 2 || tag == 3 || tag == 4 || tag == 6 || tag == 7,
        encode_utf8(v).len() < 0x1_0000_0000_0000_0000,
        v.len() > 0 || response_with_text(m, tag, v) == m,
    ensures
        response_fields_from(text_field(tag, v) + rest, m) == response_fields_from(
            rest,
            response_with_text(m, tag, v),
        ),
{
    let b = encode_utf8(v);
    if v.len() == 0 {
        assert(b =~= Seq::<u8>::empty());
        assert(text_field(tag, v) + rest =~= rest);
    } else {
        assert(b =~= encode_scalar(v[0] as u32) + encode_utf8(v.drop_first()));
        assert(encode_scalar(v[0] as u32).len() >= 1);
        let s = text_field(tag, v) + rest;
        let tail = varint_bytes(b.len()) + b + rest;
        lemma_key_roundtrip(tag, 2, tail);
        assert(s =~= key_bytes(tag, 2) + tail);
        assert(s.skip(1) =~= tail);
        lemma_text_value_roundtrip(v, rest);
        let n = varint_bytes(b.len()).len() + b.len();
        assert(response_field(m, tag, 2, tail) == Ok::<(ResponseFields, nat), DecodeError>(
            (response_with_text(m, tag, v), n),
        ));
        lemma_response_step(s, m, tag, 2, 1, response_with_text(m, tag, v), n);
        assert(tail.skip(n as int) =~= rest);
    }
}

/// Decoding a response `int32` field sets it, and goes on with what follows.
pub proof fn lemma_response_int32_step(tag: nat, v: i32, rest: Seq<u8>, m: ResponseFields)
    requires
        tag == 5 || tag == 9,
        v != 0 || response_with_int(m, tag, v) == m,
    ensures
        response_fields_from(int32_field(tag, v) + rest, m) == response_fields_from(
            rest,
            response_with_int(m, tag, v),
        ),
{
    if v == 0 {
        assert(int32_field(tag, v) + rest =~= rest);
    } else {
        let s = int32_field(tag, v) + rest;
        let tail = varint_bytes(i32_bits(v)) + rest;
        lemma_i32_bits_roundtrip(v);
        lemma_key_roundtrip(tag, 0, tail);
        assert(s =~= key_bytes(tag, 0) + tail);
        assert(s.skip(1) =~= tail);
        lemma_varint_roundtrip(i32_bits(v), rest);
        let n = varint_bytes(i32_bits(v)).len();
        assert(response_field(m, tag, 0, tail) == Ok::<(ResponseFields, nat), DecodeError>(
            (response_with_int(m, tag, v), n),
        ));
        lemma_response_step(s, m, tag, 0, 1, response_with_int(m, tag, v), n);
        assert(tail.skip(n as int) =~= rest);
    }
}

/// Decoding an encoded response gives back the same response.
///
/// The lengths are those of values held in memory, so they fit in 64 bits.
#[verifier::rlimit(60)]
pub proof fn law_response_roundtrip(r: ResponseFields)
    requires
        encode_utf8(r.request_id).len() < 0x1_0000_0000_0000_0000,
        encode_utf8(r.task_id).len() < 0x1_0000_0000_0000_0000,
        encode_utf8(r.service_name).len() < 0x1_0000_0000_0000_0000,
        encode_utf8(r.message_type).len() < 0x1_0000_0000_0000_0000,
        encode_utf8(r.status_message).len() < 0x1_0000_0000_0000_0000,
        encode_utf8(r.result_json).len() < 0x1_0000_0000_0000_0000,
    ensures
        decode_response_spec(response_bytes(r)) == Ok::<ResponseFields, DecodeError>(r),
        decode_response_spec(Seq::empty()) == Ok::<ResponseFields, DecodeError>(empty_response()),
{
    let e = Seq::<u8>::empty();
    let f9 = int32_field(9, r.unknown_field_9);
    let t7 = text_field(7, r.result_json) + f9;
    let t6 = text_field(6, r.status_message) + t7;
    let t5 = int32_field(5, r.status_code) + t6;
    let t4 = text_field(4, r.message_type) + t5;
    let t3 = text_field(3, r.service_name) + t4;
    let t2 = text_field(2, r.task_id) + t3;
    let m0 = empty_response();
    let m1 = response_with_text(m0, 1, r.request_id);
    let m2 = response_with_text(m1, 2, r.task_id);
    let m3 = response_with_text(m2, 3, r.service_name);
    let m4 = response_with_text(m3, 4, r.message_type);
    let m5 = response_with_int(m4, 5, r.status_code);
    let m6 = response_with_text(m5, 6, r.status_message);
    let m7 = response_with_text(m6, 7, r.result_json);
    let m8 = response_with_int(m7, 9, r.unknown_field_9);
    assert(r.request_id.len() == 0 ==> m1 == m0) by {
        if r.request_id.len() == 0 {
            assert(r.request_id =~= Seq::<char>::empty());
        }
    }
    assert(r.task_id.len() == 0 ==> m2 == m1) by {
        if r.task_id.len() == 0 {
            assert(r.task_id =~= Seq::<char>::empty());
        }
    }
    assert(r.service_name.len() == 0 ==> m3 == m2) by {
        if r.service_name.len() == 0 {
            assert(r.service_name =~= Seq::<char>::empty());
        }
    }
    assert(r.message_type.len() == 0 ==> m4 == m3) by {
        if r.message_type.len() == 0 {
            assert(r.message_type =~= Seq::<char>::empty());
        }
    }
    assert(r.status_message.len() == 0 ==> m6 == m5) by {
        if r.status_message.len() == 0 {
            assert(r.status_message =~= Seq::<char>::empty());
        }
    }
    assert(r.result_json.len() == 0 ==> m7 == m6) by {
        if r.result_json.len() == 0 {
            assert(r.result_json =~= Seq::<char>::empty());
        }
    }
    lemma_response_text_step(1, r.request_id, t2, m0);
    lemma_response_text_step(2, r.task_id, t3, m1);
    lemma_response_text_step(3, r.service_name, t4, m2);
    lemma_response_text_step(4, r.message_type, t5, m3);
    lemma_response_int32_step(5, r.status_code, t6, m4);
    lemma_response_text_step(6, r.status_message, t7, m5);
    lemma_response_text_step(7, r.result_json, f9, m6);
    assert(f9 + e =~= f9);
    lemma_response_int32_step(9, r.unknown_field_9, e, m7);
    lemma_response_done(m8);
    lemma_response_done(m0);
    assert(m8 == r);
}
} // verus!

verus! {

// ---------------------------------------------------------------------------
// The frames of a transcription session

/// The payload of an audio frame: `{"extra":{},"timestamp_ms":<timestamp_ms>}`.
pub open spec fn task_payload(timestamp_ms: u64) -> Seq<char> {
    "{\"extra\":{},\"timestamp_ms\":"@ + decimal(timestamp_ms as nat) + "}"@
}

/// A control request of the ASR service: no audio, frame state unspecified.
pub open spec fn control_request(
    request_id: Seq<char>,
    token: Seq<char>,
    method_name: Seq<char>,
    payload: Seq<char>,
) -> RequestFields {
    RequestFields {
        token: token,
        service_name: "ASR"@,
        method_name: method_name,
        payload: payload,
        audio_data: Seq::empty(),
        request_id: request_id,
        frame_state: 0,
    }
}

fn control_frame(request_id: &str, token: &str, method_name: &str, payload: String) -> (r: Vec<u8>)
    ensures
        r@ == request_bytes(control_request(request_id@, token@, method_name@, payload@)),
{
    let request = AsrRequest {
        token: token.to_owned(),
        service_name: "ASR".to_owned(),
        method_name: method_name.to_owned(),
        payload: payload,
        audio_data: Vec::new(),
        request_id: request_id.to_owned(),
        frame_state: FrameState::Unspecified.code(),
    };
    assert(request@ =~= control_request(request_id@, token@, method_name@, payload@));
    encode_request(&request)
}

/// The frame that opens a task.
pub fn build_start_task(request_id: &str, token: &str) -> (r: Vec<u8>)
    ensures
        r@ == request_bytes(control_request(request_id@, token@, "StartTask"@, Seq::empty())),
{
    control_frame(request_id, token, "StartTask", String::new())
}

/// The frame that opens a session, with its configuration `payload`.
pub fn build_start_session(request_id: &str, token: &str, payload: String) -> (r: Vec<u8>)
    ensures
        r@ == request_bytes(control_request(request_id@, token@, "StartSession"@, payload@)),
{
    control_frame(request_id, token, "StartSession", payload)
}

/// The frame that closes a session.
pub fn build_finish_session(request_id: &str, token: &str) -> (r: Vec<u8>)
    ensures
        r@ == request_bytes(control_request(request_id@, token@, "FinishSession"@, Seq::empty())),
{
    control_frame(request_id, token, "FinishSession", String::new())
}

/// The request that carries one encoded audio frame.
pub open spec fn task_request(
    request_id: Seq<char>,
    audio_data: Seq<u8>,
    frame_state: FrameState,
    timestamp_ms: u64,
) -> RequestFields {
    RequestFields {
        token: Seq::empty(),
        service_name: "ASR"@,
        method_name: "TaskRequest"@,
        payload: task_payload(timestamp_ms),
        audio_data: audio_data,
        request_id: request_id,
        frame_state: frame_state.spec_code(),
    }
}

/// The frame that carries one encoded audio frame, stamped with its time.
pub fn build_task_request(
    request_id: &str,
    audio_data: Vec<u8>,
    frame_state: FrameState,
    timestamp_ms: u64,
) -> (r: Vec<u8>)
    ensures
        r@ == request_bytes(task_request(request_id@, audio_data@, frame_state, timestamp_ms)),
{
    let mut payload = String::new();
    payload.append("{\"extra\":{},\"timestamp_ms\":");
    push_decimal(&mut payload, timestamp_ms);
    payload.append("}");
    let request = AsrRequest {
        token: String::new(),
        service_name: "ASR".to_owned(),
        method_name: "TaskRequest".to_owned(),
        payload: payload,
        audio_data: audio_data,
        request_id: request_id.to_owned(),
        frame_state: frame_state.code(),
    };
    assert(request@.payload =~= task_payload(timestamp_ms));
    assert(request@ =~= task_request(request_id@, audio_data@, frame_state, timestamp_ms));
    encode_request(&request)
}

} // verus!
