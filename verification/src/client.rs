//! The client side of a Seed-ASR session: the URL and the session
//! configuration, lifecycle checks, cutting PCM into timed frames, and
//! reading the backend's answers.
use vstd::prelude::*;

use crate::audio::{pad_frame, padded, silence_frame, AudioConfig};
use crate::credentials::AID;
use crate::entropy::{is_uuid_text, now_millis, uuid_hyphenated};
use crate::json::{decimal, json_str, push_decimal, push_json_str, push_signed_decimal, signed_decimal};
use crate::protocol::{
    build_finish_session, build_start_session, build_start_task, build_task_request,
    control_request, decode_response, decode_response_spec, request_bytes, task_request,
    AsrResponse, FrameState, ResponseFields,
};
use crate::response::{classify_response, classify_spec, AsrEvent, AsrEventFacts, WireResponse};
use crate::text::append_bytes;
use crate::url::str_eq;
use crate::wire::DecodeError;

verus! {

/// The WebSocket endpoint of the Seed-ASR backend.
pub const WEBSOCKET_URL: &'static str = "wss://frontier-audio-ime-ws.doubao.com/ocean/api/v1/ws";

/// The URL a device connects to.
pub open spec fn asr_url_text(device_id: Seq<char>) -> Seq<char> {
    WEBSOCKET_URL@ + "?aid="@ + decimal(AID as nat) + "&device_id="@ + device_id
}

/// The URL of the backend for a device.
pub fn asr_url(device_id: &str) -> (r: String)
    ensures
        r@ == asr_url_text(device_id@),
{
    let mut out = WEBSOCKET_URL.to_owned();
    out.append("?aid=");
    push_decimal(&mut out, AID as u64);
    out.append("&device_id=");
    out.append(device_id);
    out
}

/// The message for a lifecycle answer of the wrong type.
pub open spec fn lifecycle_error_text(expected: Seq<char>, response: ResponseFields) -> Seq<char> {
    "expected "@ + expected + ", got "@ + response.message_type + ": status_code="@
        + signed_decimal(response.status_code as int) + ", service_name="@ + response.service_name
        + ", request_id="@ + response.request_id + ", message="@ + if response.status_message.len()
        == 0 {
        "<empty>"@
    } else {
        response.status_message
    }
}

/// Describes a lifecycle answer of another type than `expected`: its type,
/// status code, service, request id and status message.
pub fn format_lifecycle_error(expected: &str, response: &AsrResponse) -> (r: String)
    ensures
        r@ == lifecycle_error_text(expected@, response@),
{
    let mut out = "expected ".to_owned();
    out.append(expected);
    out.append(", got ");
    out.append(response.message_type.as_str());
    out.append(": status_code=");
    push_signed_decimal(&mut out, response.status_code as i64);
    out.append(", service_name=");
    out.append(response.service_name.as_str());
    out.append(", request_id=");
    out.append(response.request_id.as_str());
    out.append(", message=");
    if response.status_message.as_str().is_empty() {
        out.append("<empty>");
    } else {
        out.append(response.status_message.as_str());
    }
    out
}

/// Checks that a lifecycle answer has the expected type.
pub fn check_lifecycle(expected: &str, response: &AsrResponse) -> (r: Result<(), String>)
    ensures
        r is Ok <==> response@.message_type == expected@,
        r matches Err(m) ==> m@ == lifecycle_error_text(expected@, response@),
{
    if str_eq(response.message_type.as_str(), expected) {
        Ok(())
    } else {
        Err(format_lifecycle_error(expected, response))
    }
}

/// The configuration of a session: 16 kHz mono Opus, punctuation on, speech
/// rejection off, and the device id.
pub open spec fn session_payload_text(device_id: Seq<char>) -> Seq<char> {
    "{\"audio_info\":{\"channel\":1,\"format\":\"speech_opus\",\"sample_rate\":16000},\"enable_punctuation\":true,\"enable_speech_rejection\":false,\"extra\":{\"app_name\":\"com.android.chrome\",\"cell_compress_rate\":8,\"did\":"@
        + json_str(device_id)
        + ",\"enable_asr_threepass\":true,\"enable_asr_twopass\":true,\"input_mode\":\"tool\"}}"@
}

/// What a session asks of the backend: a single channel of Opus at
/// 16 kHz, punctuated transcripts, no speech rejection, and the device as
/// `did`. Each setting stands at its place in the configuration object, and
/// the device id stands there JSON-escaped.
pub proof fn law_session_configuration(device_id: Seq<char>)
    ensures
        ({
            let p = session_payload_text(device_id);
            let d = json_str(device_id);
            &&& p.len() == 199 + d.len() + 76
            &&& p[0] == '{' && p[p.len() - 1] == '}'
            &&& p.subrange(1, 15) == "\"audio_info\":{"@
            &&& p.subrange(15, 26) == "\"channel\":1"@
            &&& p.subrange(27, 49) == "\"format\":\"speech_opus\""@
            &&& p.subrange(50, 69) == "\"sample_rate\":16000"@
            &&& p.subrange(71, 96) == "\"enable_punctuation\":true"@
            &&& p.subrange(97, 128) == "\"enable_speech_rejection\":false"@
            &&& p.subrange(193, 199) == "\"did\":"@
            &&& p.subrange(199, 199 + d.len() as int) == d
        }),
{
    let head = "{\"audio_info\":{\"channel\":1,\"format\":\"speech_opus\",\"sample_rate\":16000},\"enable_punctuation\":true,\"enable_speech_rejection\":false,\"extra\":{\"app_name\":\"com.android.chrome\",\"cell_compress_rate\":8,\"did\":"@;
    let tail = ",\"enable_asr_threepass\":true,\"enable_asr_twopass\":true,\"input_mode\":\"tool\"}}"@;
    reveal_strlit("{\"audio_info\":{\"channel\":1,\"format\":\"speech_opus\",\"sample_rate\":16000},\"enable_punctuation\":true,\"enable_speech_rejection\":false,\"extra\":{\"app_name\":\"com.android.chrome\",\"cell_compress_rate\":8,\"did\":");
    reveal_strlit(",\"enable_asr_threepass\":true,\"enable_asr_twopass\":true,\"input_mode\":\"tool\"}}");
    reveal_strlit("\"audio_info\":{");
    reveal_strlit("\"channel\":1");
    reveal_strlit("\"format\":\"speech_opus\"");
    reveal_strlit("\"sample_rate\":16000");
    reveal_strlit("\"enable_punctuation\":true");
    reveal_strlit("\"enable_speech_rejection\":false");
    reveal_strlit("\"did\":");
    let p = session_payload_text(device_id);
    let d = json_str(device_id);
    assert(head.len() == 199 && tail.len() == 76);
    assert(p =~= head + d + tail);
    assert(p.subrange(1, 15) =~= head.subrange(1, 15));
    assert(p.subrange(15, 26) =~= head.subrange(15, 26));
    assert(p.subrange(27, 49) =~= head.subrange(27, 49));
    assert(p.subrange(50, 69) =~= head.subrange(50, 69));
    assert(p.subrange(71, 96) =~= head.subrange(71, 96));
    assert(p.subrange(97, 128) =~= head.subrange(97, 128));
    assert(p.subrange(193, 199) =~= head.subrange(193, 199));
    assert(p.subrange(199, 199 + d.len() as int) =~= d);
    assert(head.subrange(1, 15) =~= "\"audio_info\":{"@);
    assert(head.subrange(15, 26) =~= "\"channel\":1"@);
    assert(head.subrange(27, 49) =~= "\"format\":\"speech_opus\""@);
    assert(head.subrange(50, 69) =~= "\"sample_rate\":16000"@);
    assert(head.subrange(71, 96) =~= "\"enable_punctuation\":true"@);
    assert(head.subrange(97, 128) =~= "\"enable_speech_rejection\":false"@);
    assert(head.subrange(193, 199) =~= "\"did\":"@);
    assert(p[p.len() - 1] == tail[75]);
}

/// The JSON configuration of a session for a device.
pub fn session_payload(device_id: &str) -> (r: String)
    ensures
        r@ == session_payload_text(device_id@),
{
    let mut out = "{\"audio_info\":{\"channel\":1,\"format\":\"speech_opus\",\"sample_rate\":16000},\"enable_punctuation\":true,\"enable_speech_rejection\":false,\"extra\":{\"app_name\":\"com.android.chrome\",\"cell_compress_rate\":8,\"did\":".to_owned();
    push_json_str(&mut out, device_id);
    out.append(",\"enable_asr_threepass\":true,\"enable_asr_twopass\":true,\"input_mode\":\"tool\"}}");
    out
}

/// A fresh request id for a session: a random UUID.
pub fn new_request_id() -> (r: String)
    ensures
        is_uuid_text(r@),
{
    uuid_hyphenated()
}

// ---------------------------------------------------------------------------
// Cutting PCM into frames

/// `buf` cut into whole frames of `n` bytes, and the bytes left over.
pub open spec fn split_frames(buf: Seq<u8>, n: nat) -> (Seq<Seq<u8>>, Seq<u8>)
    decreases buf.len(),
{
    if n == 0 || buf.len() < n {
        (Seq::empty(), buf)
    } else {
        let (frames, rest) = split_frames(buf.skip(n as int), n);
        (seq![buf.take(n as int)] + frames, rest)
    }
}

/// A frame of PCM and where and when it stands in the stream.
#[derive(Debug, Clone, PartialEq, Eq)]
pub struct PcmFrame {
    pub pcm: Vec<u8>,
    pub state: FrameState,
    pub timestamp_ms: u64,
}

/// The contents of a [`PcmFrame`].
pub ghost struct FrameFacts {
    pub pcm: Seq<u8>,
    pub state: FrameState,
    pub timestamp_ms: int,
}

impl View for PcmFrame {
    type V = FrameFacts;

    open spec fn view(&self) -> FrameFacts {
        FrameFacts { pcm: self.pcm@, state: self.state, timestamp_ms: self.timestamp_ms as int }
    }
}

/// The time of frame `index`: `start_ms` and `frame_ms` for each frame
/// before it.
pub open spec fn frame_time(start_ms: u64, frame_ms: u32, index: nat) -> int {
    start_ms + index * frame_ms
}

/// The frames made of `pieces`, numbered from `first`: the first frame of
/// the stream is `First`, the others `Middle`.
pub open spec fn frames_from(pieces: Seq<Seq<u8>>, first: nat, start_ms: u64, frame_ms: u32) -> Seq<
    FrameFacts,
> {
    Seq::new(
        pieces.len(),
        |i: int|
            FrameFacts {
                pcm: pieces[i],
                state: if first + i == 0 {
                    FrameState::First
                } else {
                    FrameState::Middle
                },
                timestamp_ms: frame_time(start_ms, frame_ms, (first + i) as nat),
            },
    )
}

/// Cuts a stream of PCM into frames of the audio configuration, numbered
/// and timed from the start of the stream.
#[derive(Debug, Clone)]
pub struct PcmFramer {
    pub config: AudioConfig,
    pub start_ms: u64,
    pub frame_index: u64,
    pub buffer: Vec<u8>,
}

impl PcmFramer {
    /// A framer for a stream that starts at `start_ms`.
    pub fn new(config: AudioConfig, start_ms: u64) -> (r: PcmFramer)
        ensures
            r.config == config,
            r.start_ms == start_ms,
            r.frame_index == 0,
            r.buffer@.len() == 0,
    {
        PcmFramer { config, start_ms, frame_index: 0, buffer: Vec::new() }
    }

    /// A framer for a stream that starts now, by the system clock.
    pub fn starting_now(config: AudioConfig) -> (r: PcmFramer)
        ensures
            r.config == config,
            r.frame_index == 0,
            r.buffer@.len() == 0,
    {
        PcmFramer::new(config, now_millis())
    }

    /// Whether `extra` more bytes can be framed with frame numbers and
    /// times that fit in 64 bits.
    pub open spec fn fits(&self, extra: nat) -> bool {
        let count = split_frames(self.buffer@ + Seq::new(extra, |i: int| 0u8), self.config.bytes_per_frame as nat).0.len();
        &&& self.frame_index + count <= u64::MAX
        &&& frame_time(self.start_ms, self.config.frame_duration_ms, (self.frame_index + count) as nat) <= u64::MAX
    }

    /// Whether `extra` more bytes can be framed with frame numbers and
    /// times that fit in 64 bits.
    pub fn has_room(&self, extra: usize) -> (r: bool)
        requires
            self.config.bytes_per_frame > 0,
        ensures
            r == self.fits(extra as nat),
    {
        let n = self.config.bytes_per_frame;
        let ghost padded_extra = self.buffer@ + Seq::new(extra as nat, |i: int| 0u8);
        proof {
            lemma_split_frames_count_div(padded_extra, n as nat);
        }
        let total: u128 = self.buffer.len() as u128 + extra as u128;
        let count: u128 = total / (n as u128);
        let room: u128 = (u64::MAX - self.frame_index) as u128;
        if count > room {
            return false;
        }
        let last: u64 = self.frame_index + count as u64;
        let offset = match last.checked_mul(self.config.frame_duration_ms as u64) {
            Some(o) => o,
            None => return false,
        };
        self.start_ms.checked_add(offset).is_some()
    }

    /// Whether the time of the last frame fits in 64 bits.
    pub fn finish_fits(&self) -> (r: bool)
        ensures
            r == (frame_time(self.start_ms, self.config.frame_duration_ms, self.frame_index as nat)
                <= u64::MAX),
    {
        match self.frame_index.checked_mul(self.config.frame_duration_ms as u64) {
            Some(offset) => self.start_ms.checked_add(offset).is_some(),
            None => false,
        }
    }

    /// Appends `chunk` and returns the whole frames that are ready; the rest
    /// waits for more.
    pub fn push(&mut self, chunk: &[u8]) -> (r: Vec<PcmFrame>)
        requires
            old(self).config.bytes_per_frame > 0,
            old(self).fits(chunk@.len()),
        ensures
            ({
                let (pieces, rest) = split_frames(
                    old(self).buffer@ + chunk@,
                    old(self).config.bytes_per_frame as nat,
                );
                &&& r@.map_values(|f: PcmFrame| f@) == frames_from(
                    pieces,
                    old(self).frame_index as nat,
                    old(self).start_ms,
                    old(self).config.frame_duration_ms,
                )
                &&& final(self).buffer@ == rest
                &&& final(self).frame_index == old(self).frame_index + pieces.len()
                &&& final(self).config == old(self).config
                &&& final(self).start_ms == old(self).start_ms
            }),
    {
        let n = self.config.bytes_per_frame;
        let mut all: Vec<u8> = Vec::new();
        append_bytes(&mut all, self.buffer.as_slice());
        append_bytes(&mut all, chunk);
        proof {
            lemma_split_frames_len_only(all@, old(self).buffer@ + Seq::new(chunk@.len(), |i: int| 0u8), n as nat);
        }
        let ghost pieces = split_frames(all@, n as nat).0;
        let ghost last_index = old(self).frame_index + pieces.len();
        let mut frames: Vec<PcmFrame> = Vec::new();
        let mut offset: usize = 0;
        let ghost mut done: Seq<Seq<u8>> = Seq::empty();
        assert(all@.skip(0) =~= all@);
        assert(Seq::<Seq<u8>>::empty() + split_frames(all@, n as nat).0 =~= split_frames(all@, n as nat).0);
        assert(frames@.map_values(|f: PcmFrame| f@) =~= frames_from(
            done,
            old(self).frame_index as nat,
            old(self).start_ms,
            old(self).config.frame_duration_ms,
        ));
        while all.len() - offset >= n
            invariant
                n == self.config.bytes_per_frame,
                n > 0,
                offset <= all@.len(),
                all@ == old(self).buffer@ + chunk@,
                pieces == split_frames(all@, n as nat).0,
                split_frames(all@, n as nat) == (
                    done + split_frames(all@.skip(offset as int), n as nat).0,
                    split_frames(all@.skip(offset as int), n as nat).1,
                ),
                self.frame_index == old(self).frame_index + done.len(),
                last_index == old(self).frame_index + pieces.len(),
                last_index <= u64::MAX,
                frame_time(self.start_ms, self.config.frame_duration_ms, last_index as nat) <= u64::MAX,
                self.config == old(self).config,
                self.start_ms == old(self).start_ms,
                frames@.map_values(|f: PcmFrame| f@) == frames_from(
                    done,
                    old(self).frame_index as nat,
                    old(self).start_ms,
                    old(self).config.frame_duration_ms,
                ),
            decreases all@.len() - offset,
        {
            let ghost rest = all@.skip(offset as int);
            let mut pcm: Vec<u8> = Vec::new();
            append_bytes(&mut pcm, &all.as_slice()[offset..offset + n]);
            proof {
                assert(pcm@ =~= rest.take(n as int));
                assert(rest.skip(n as int) =~= all@.skip(offset + n));
                assert(done.len() < pieces.len()) by {
                    lemma_split_frames_count(rest, n as nat);
                }
                let idx = self.frame_index;
                let dur = self.config.frame_duration_ms;
                assert(idx * dur <= last_index * dur) by (nonlinear_arith)
                    requires
                        idx <= last_index,
                ;
            }
            let state = if self.frame_index == 0 {
                FrameState::First
            } else {
                FrameState::Middle
            };
            let timestamp_ms = self.start_ms + self.frame_index * (self.config.frame_duration_ms as u64);
            let ghost before = frames@.map_values(|f: PcmFrame| f@);
            let frame = PcmFrame { pcm, state, timestamp_ms };
            let ghost facts = frame@;
            frames.push(frame);
            proof {
                let next = done.push(rest.take(n as int));
                assert(frames@.map_values(|f: PcmFrame| f@) =~= before.push(facts));
                assert(facts == FrameFacts {
                    pcm: next[done.len() as int],
                    state: if old(self).frame_index + done.len() == 0 {
                        FrameState::First
                    } else {
                        FrameState::Middle
                    },
                    timestamp_ms: frame_time(
                        old(self).start_ms,
                        old(self).config.frame_duration_ms,
                        (old(self).frame_index + done.len()) as nat,
                    ),
                });
                assert(frames@.map_values(|f: PcmFrame| f@) =~= frames_from(
                    next,
                    old(self).frame_index as nat,
                    old(self).start_ms,
                    old(self).config.frame_duration_ms,
                ));
                assert(done + (seq![rest.take(n as int)] + split_frames(rest.skip(n as int), n as nat).0)
                    =~= next + split_frames(rest.skip(n as int), n as nat).0);
                done = next;
            }
            self.frame_index = self.frame_index + 1;
            offset = offset + n;
        }
        proof {
            let rest = all@.skip(offset as int);
            assert(split_frames(rest, n as nat).0 =~= Seq::<Seq<u8>>::empty());
            assert(done + Seq::<Seq<u8>>::empty() =~= done);
        }
        let mut left: Vec<u8> = Vec::new();
        let total = all.len();
        append_bytes(&mut left, &all.as_slice()[offset..total]);
        assert(left@ =~= all@.skip(offset as int));
        self.buffer = left;
        frames
    }

    /// The last frame of the stream: what is left, padded with silence to a
    /// whole frame (silence alone when nothing is left), marked `Last`.
    pub fn finish(&mut self) -> (r: PcmFrame)
        requires
            frame_time(old(self).start_ms, old(self).config.frame_duration_ms, old(self).frame_index as nat)
                <= u64::MAX,
        ensures
            r@ == (FrameFacts {
                pcm: padded(old(self).buffer@, old(self).config.bytes_per_frame as nat),
                state: FrameState::Last,
                timestamp_ms: frame_time(
                    old(self).start_ms,
                    old(self).config.frame_duration_ms,
                    old(self).frame_index as nat,
                ),
            }),
            final(self).buffer@.len() == 0,
            final(self).frame_index == old(self).frame_index,
            final(self).config == old(self).config,
            final(self).start_ms == old(self).start_ms,
    {
        let pcm = if self.buffer.len() == 0 {
            let silence = silence_frame(self.config);
            assert(silence@ =~= padded(self.buffer@, self.config.bytes_per_frame as nat));
            silence
        } else {
            pad_frame(self.buffer.as_slice(), self.config)
        };
        let timestamp_ms = self.start_ms + self.frame_index * (self.config.frame_duration_ms as u64);
        self.buffer = Vec::new();
        PcmFrame { pcm, state: FrameState::Last, timestamp_ms }
    }
}

/// How many frames a buffer holds depends only on its length.
pub proof fn lemma_split_frames_len_only(a: Seq<u8>, b: Seq<u8>, n: nat)
    requires
        a.len() == b.len(),
    ensures
        split_frames(a, n).0.len() == split_frames(b, n).0.len(),
    decreases a.len(),
{
    if n > 0 && a.len() >= n {
        lemma_split_frames_len_only(a.skip(n as int), b.skip(n as int), n);
    }
}

/// A buffer holds as many whole frames as its length divided by the frame
/// size.
pub proof fn lemma_split_frames_count_div(buf: Seq<u8>, n: nat)
    requires
        n > 0,
    ensures
        split_frames(buf, n).0.len() == buf.len() / n,
    decreases buf.len(),
{
    if buf.len() >= n {
        lemma_split_frames_count_div(buf.skip(n as int), n);
        let rest = (buf.len() - n) as nat;
        assert(rest / n + 1 == buf.len() / n) by (nonlinear_arith)
            requires
                rest == buf.len() - n,
                n > 0,
        ;
    } else {
        assert(buf.len() / n == 0) by (nonlinear_arith)
            requires
                buf.len() < n,
        ;
    }
}

/// A buffer of at least one frame holds at least one frame.
pub proof fn lemma_split_frames_count(buf: Seq<u8>, n: nat)
    requires
        n > 0,
        buf.len() >= n,
    ensures
        split_frames(buf, n).0.len() >= 1,
{
}

// ---------------------------------------------------------------------------
// Reading the backend's answers

/// What the reading side of a session does with an answer.
#[derive(Debug, Clone, PartialEq, Eq)]
pub enum ReceiverAction {
    /// Hand this event to the connection.
    Forward(AsrEvent),
    /// The session is over: stop reading.
    Stop,
    /// The backend failed with this message: stop reading with an error.
    Fail(String),
}

/// The contents of a [`ReceiverAction`].
pub ghost enum ReceiverActionFacts {
    Forward(AsrEventFacts),
    Stop,
    Fail(Seq<char>),
}

impl View for ReceiverAction {
    type V = ReceiverActionFacts;

    open spec fn view(&self) -> ReceiverActionFacts {
        match self {
            ReceiverAction::Forward(e) => ReceiverActionFacts::Forward(e@),
            ReceiverAction::Stop => ReceiverActionFacts::Stop,
            ReceiverAction::Fail(m) => ReceiverActionFacts::Fail(m@),
        }
    }
}

/// The reading side of a session: the request id it answers to and the
/// final text so far.
#[derive(Debug, Clone)]
pub struct Receiver {
    pub request_id: String,
    pub final_text: String,
}

/// What the reading side does with an answer of the backend that decoded
/// to `response`: answers to other requests are ignored; non-empty results
/// are forwarded, final ones also appended to the final text; the end of the
/// session and failures stop it.
pub open spec fn receiver_response_step(
    request_id: Seq<char>,
    final_text: Seq<char>,
    response: ResponseFields,
) -> (Seq<char>, Seq<ReceiverActionFacts>) {
    if response.request_id.len() > 0 && response.request_id != request_id {
        (final_text, Seq::empty())
    } else {
        match classify_spec(response.message_type, response.status_message, response.result_json) {
            AsrEventFacts::InterimResult(t) => if t.len() == 0 {
                (final_text, Seq::empty())
            } else {
                (final_text, seq![ReceiverActionFacts::Forward(AsrEventFacts::InterimResult(t))])
            },
            AsrEventFacts::FinalResult(t) => if t.len() == 0 {
                (final_text, Seq::empty())
            } else {
                (final_text + t, seq![ReceiverActionFacts::Forward(AsrEventFacts::FinalResult(t))])
            },
            AsrEventFacts::SessionFinished => (
                final_text,
                seq![
                    ReceiverActionFacts::Forward(AsrEventFacts::SessionFinished),
                    ReceiverActionFacts::Stop,
                ],
            ),
            AsrEventFacts::Error(m) => (
                final_text,
                seq![
                    ReceiverActionFacts::Forward(AsrEventFacts::Error(m)),
                    ReceiverActionFacts::Fail(m),
                ],
            ),
            _ => (final_text, Seq::empty()),
        }
    }
}

/// How the final text grows. An answer that forwards a final result `t`
/// appends `t` to the final text collected so far; every other answer
/// leaves it as it was. So the final text is always the earlier one
/// followed by what was added, and a run of final results gives their
/// texts joined in order.
pub proof fn law_final_text_appends(request_id: Seq<char>, final_text: Seq<char>, response: ResponseFields)
    ensures
        ({
            let (next, actions) = receiver_response_step(request_id, final_text, response);
            match (if actions.len() > 0 { Some(actions[0]) } else { None }) {
                Some(ReceiverActionFacts::Forward(AsrEventFacts::FinalResult(t))) => {
                    &&& next == final_text + t
                    &&& next.len() == final_text.len() + t.len()
                    &&& next.take(final_text.len() as int) == final_text
                },
                _ => next == final_text,
            }
        }),
        ({
            let (next, actions) = receiver_response_step(request_id, final_text, response);
            response.request_id.len() > 0 && response.request_id != request_id ==> next
                == final_text && actions.len() == 0
        }),
{
    let (next, actions) = receiver_response_step(request_id, final_text, response);
    if actions.len() > 0 {
        if let ReceiverActionFacts::Forward(AsrEventFacts::FinalResult(t)) = actions[0] {
            assert(next.take(final_text.len() as int) =~= final_text);
        }
    }
}

/// What the reading side does with an answer to its own request (or to
/// none): the end of the session is forwarded and stops the reading, a
/// failure is forwarded and stops it with its message, a non-empty result
/// is forwarded, an empty one is dropped, and nothing else is forwarded.
pub proof fn law_receiver_reactions(request_id: Seq<char>, final_text: Seq<char>, response: ResponseFields)
    requires
        response.request_id.len() == 0 || response.request_id == request_id,
    ensures
        ({
            let (next, actions) = receiver_response_step(request_id, final_text, response);
            match classify_spec(response.message_type, response.status_message, response.result_json) {
                AsrEventFacts::SessionFinished => actions == seq![
                    ReceiverActionFacts::Forward(AsrEventFacts::SessionFinished),
                    ReceiverActionFacts::Stop,
                ] && next == final_text,
                AsrEventFacts::Error(m) => actions == seq![
                    ReceiverActionFacts::Forward(AsrEventFacts::Error(m)),
                    ReceiverActionFacts::Fail(m),
                ] && next == final_text,
                AsrEventFacts::InterimResult(t) => next == final_text && (t.len() == 0 ==> actions.len()
                    == 0) && (t.len() > 0 ==> actions == seq![
                    ReceiverActionFacts::Forward(AsrEventFacts::InterimResult(t)),
                ]),
                AsrEventFacts::FinalResult(t) => (t.len() == 0 ==> actions.len() == 0 && next
                    == final_text) && (t.len() > 0 ==> actions == seq![
                    ReceiverActionFacts::Forward(AsrEventFacts::FinalResult(t)),
                ]),
                _ => actions.len() == 0 && next == final_text,
            }
        }),
{
}

/// Two final results in a row: the final text becomes the earlier text,
/// then the first result's text, then the second's.
pub proof fn law_final_texts_accumulate(
    request_id: Seq<char>,
    final_text: Seq<char>,
    first: ResponseFields,
    second: ResponseFields,
)
    requires
        ({
            let (_, a1) = receiver_response_step(request_id, final_text, first);
            a1.len() > 0 && a1[0] matches ReceiverActionFacts::Forward(AsrEventFacts::FinalResult(_))
        }),
        ({
            let (mid, _) = receiver_response_step(request_id, final_text, first);
            let (_, a2) = receiver_response_step(request_id, mid, second);
            a2.len() > 0 && a2[0] matches ReceiverActionFacts::Forward(AsrEventFacts::FinalResult(_))
        }),
    ensures
        ({
            let (mid, a1) = receiver_response_step(request_id, final_text, first);
            let (last, a2) = receiver_response_step(request_id, mid, second);
            last == final_text + a1[0]->Forward_0->FinalResult_0 + a2[0]->Forward_0->FinalResult_0
        }),
{
    let (mid, a1) = receiver_response_step(request_id, final_text, first);
    law_final_text_appends(request_id, final_text, first);
    law_final_text_appends(request_id, mid, second);
}

impl Receiver {
    /// The reading side of the session `request_id`.
    pub fn new(request_id: &str) -> (r: Receiver)
        ensures
            r.request_id@ == request_id@,
            r.final_text@.len() == 0,
    {
        Receiver { request_id: request_id.to_owned(), final_text: String::new() }
    }

    /// Handles the bytes of one message of the backend. Empty messages are
    /// skipped; bytes that do not decode are an error.
    pub fn on_data(&mut self, data: &[u8]) -> (r: Result<Vec<ReceiverAction>, DecodeError>)
        ensures
            final(self).request_id@ == old(self).request_id@,
            data@.len() == 0 ==> (r matches Ok(a) && a@.len() == 0 && final(self).final_text@
                == old(self).final_text@),
            data@.len() > 0 ==> match decode_response_spec(data@) {
                Err(e) => r == Err::<Vec<ReceiverAction>, DecodeError>(e) && final(self).final_text@
                    == old(self).final_text@,
                Ok(response) => (r matches Ok(a) && (final(self).final_text@, a@.map_values(
                    |x: ReceiverAction| x@,
                )) == receiver_response_step(
                    old(self).request_id@,
                    old(self).final_text@,
                    response,
                )),
            },
    {
        if data.len() == 0 {
            return Ok(Vec::new());
        }
        let response = match decode_response(data) {
            Ok(response) => response,
            Err(e) => return Err(e),
        };
        let mut actions: Vec<ReceiverAction> = Vec::new();
        if !response.request_id.as_str().is_empty() && !str_eq(
            response.request_id.as_str(),
            self.request_id.as_str(),
        ) {
            assert(actions@.map_values(|x: ReceiverAction| x@) =~= Seq::<ReceiverActionFacts>::empty());
            return Ok(actions);
        }
        let event = classify_response(
            &WireResponse {
                message_type: response.message_type.clone(),
                status_message: response.status_message.clone(),
                result_json: response.result_json.clone(),
            },
        );
        match event {
            AsrEvent::InterimResult(t) => {
                if !t.as_str().is_empty() {
                    actions.push(ReceiverAction::Forward(AsrEvent::InterimResult(t)));
                }
            },
            AsrEvent::FinalResult(t) => {
                if !t.as_str().is_empty() {
                    self.final_text.append(t.as_str());
                    actions.push(ReceiverAction::Forward(AsrEvent::FinalResult(t)));
                }
            },
            AsrEvent::SessionFinished => {
                actions.push(ReceiverAction::Forward(AsrEvent::SessionFinished));
                actions.push(ReceiverAction::Stop);
            },
            AsrEvent::Error(m) => {
                actions.push(ReceiverAction::Forward(AsrEvent::Error(m.clone())));
                actions.push(ReceiverAction::Fail(m));
            },
            _ => {},
        }
        proof {
            let expected = receiver_response_step(
                old(self).request_id@,
                old(self).final_text@,
                response@,
            );
            assert(actions@.map_values(|x: ReceiverAction| x@) =~= expected.1);
        }
        Ok(actions)
    }
}

} // verus!

verus! {

// ---------------------------------------------------------------------------
// The exchange with the backend

/// Cutting `a + b` into frames cuts `a` first, then what `a` left over
/// followed by `b`.
pub proof fn lemma_split_frames_append(a: Seq<u8>, b: Seq<u8>, n: nat)
    requires
        n > 0,
    ensures
        split_frames(a + b, n) == (
            split_frames(a, n).0 + split_frames(split_frames(a, n).1 + b, n).0,
            split_frames(split_frames(a, n).1 + b, n).1,
        ),
    decreases a.len(),
{
    if a.len() < n {
        assert(split_frames(a, n).0 =~= Seq::<Seq<u8>>::empty());
        assert(Seq::<Seq<u8>>::empty() + split_frames(a + b, n).0 =~= split_frames(a + b, n).0);
    } else {
        lemma_split_frames_append(a.skip(n as int), b, n);
        assert((a + b).skip(n as int) =~= a.skip(n as int) + b);
        assert((a + b).take(n as int) =~= a.take(n as int));
        let (p, r) = split_frames(a.skip(n as int), n);
        assert(seq![a.take(n as int)] + (p + split_frames(r + b, n).0) =~= (seq![a.take(n as int)]
            + p) + split_frames(r + b, n).0);
    }
}

/// The frames of pieces numbered from `first`, then of more pieces numbered
/// on from there.
pub proof fn lemma_frames_from_append(
    p: Seq<Seq<u8>>,
    q: Seq<Seq<u8>>,
    first: nat,
    start_ms: u64,
    frame_ms: u32,
)
    ensures
        frames_from(p + q, first, start_ms, frame_ms) == frames_from(p, first, start_ms, frame_ms)
            + frames_from(q, first + p.len(), start_ms, frame_ms),
{
    assert(frames_from(p + q, first, start_ms, frame_ms) =~= frames_from(
        p,
        first,
        start_ms,
        frame_ms,
    ) + frames_from(q, first + p.len(), start_ms, frame_ms));
}

/// The frames of a whole stream of PCM: its whole frames, then what is left
/// padded with silence as the `Last` frame.
pub open spec fn stream_frames(pcm: Seq<u8>, config: AudioConfig, start_ms: u64) -> Seq<
    FrameFacts,
> {
    let (pieces, rest) = split_frames(pcm, config.bytes_per_frame as nat);
    frames_from(pieces, 0, start_ms, config.frame_duration_ms).push(
        FrameFacts {
            pcm: padded(rest, config.bytes_per_frame as nat),
            state: FrameState::Last,
            timestamp_ms: frame_time(start_ms, config.frame_duration_ms, pieces.len()),
        },
    )
}

/// The audio messages for the first `audio.len()` frames, each carrying its
/// encoded audio.
pub open spec fn frame_messages(
    request_id: Seq<char>,
    frames: Seq<FrameFacts>,
    audio: Seq<Seq<u8>>,
) -> Seq<Seq<u8>> {
    Seq::new(
        audio.len(),
        |i: int|
            request_bytes(
                task_request(request_id, audio[i], frames[i].state, frames[i].timestamp_ms as u64),
            ),
    )
}

/// The two messages that open a session: `StartTask`, then `StartSession`
/// with the device's configuration.
pub open spec fn opening_messages(
    request_id: Seq<char>,
    token: Seq<char>,
    device_id: Seq<char>,
) -> Seq<Seq<u8>> {
    seq![
        request_bytes(control_request(request_id, token, "StartTask"@, Seq::empty())),
        request_bytes(
            control_request(request_id, token, "StartSession"@, session_payload_text(device_id)),
        ),
    ]
}

/// The message that closes a session.
pub open spec fn closing_message(request_id: Seq<char>, token: Seq<char>) -> Seq<u8> {
    request_bytes(control_request(request_id, token, "FinishSession"@, Seq::empty()))
}

/// Every message of a whole session, in order: the opening two, one audio
/// message per frame of the stream, and `FinishSession`.
pub open spec fn exchange_messages(
    request_id: Seq<char>,
    token: Seq<char>,
    device_id: Seq<char>,
    pcm: Seq<u8>,
    config: AudioConfig,
    start_ms: u64,
    audio: Seq<Seq<u8>>,
) -> Seq<Seq<u8>> {
    opening_messages(request_id, token, device_id) + frame_messages(
        request_id,
        stream_frames(pcm, config, start_ms),
        audio,
    ) + seq![closing_message(request_id, token)]
}

/// Where an exchange with the backend stands.
#[derive(Debug, Clone, Copy, PartialEq, Eq)]
pub enum ExchangeStage {
    /// `StartTask` is sent and `TaskStarted` awaited.
    AwaitingTask,
    /// `StartSession` is sent and `SessionStarted` awaited.
    AwaitingSession,
    /// PCM is being framed and sent.
    Streaming,
    /// The audio has ended; the frames left are being sent.
    Closing,
    /// `FinishSession` is sent.
    Finished,
    /// The backend did not start the task or the session.
    Failed,
}

/// The messages a session sends to the backend, in the order the service
/// expects: `StartTask`, `StartSession` once the task has started, the
/// audio frames once the session has started, the last frame, and
/// `FinishSession`. The caller encodes each frame's PCM and sends what it is
/// handed.
pub struct AsrExchange {
    request_id: String,
    token: String,
    device_id: String,
    stage: ExchangeStage,
    framer: PcmFramer,
    queue: Vec<PcmFrame>,
    head: usize,
    sent: Ghost<Seq<Seq<u8>>>,
    pcm: Ghost<Seq<u8>>,
    framed: Ghost<Seq<FrameFacts>>,
    audio: Ghost<Seq<Seq<u8>>>,
}

impl AsrExchange {
    /// The request id of the session.
    pub closed spec fn spec_request_id(&self) -> Seq<char> {
        self.request_id@
    }

    /// The token of the session.
    pub closed spec fn spec_token(&self) -> Seq<char> {
        self.token@
    }

    /// The device of the session.
    pub closed spec fn spec_device_id(&self) -> Seq<char> {
        self.device_id@
    }

    /// Where the exchange stands.
    pub closed spec fn spec_stage(&self) -> ExchangeStage {
        self.stage
    }

    /// The audio configuration frames are cut by.
    pub closed spec fn spec_config(&self) -> AudioConfig {
        self.framer.config
    }

    /// The time of the first frame.
    pub closed spec fn spec_start_ms(&self) -> u64 {
        self.framer.start_ms
    }

    /// Every message handed out to send, in order.
    pub closed spec fn spec_sent(&self) -> Seq<Seq<u8>> {
        self.sent@
    }

    /// All PCM pushed so far.
    pub closed spec fn spec_pcm(&self) -> Seq<u8> {
        self.pcm@
    }

    /// The encoded audio sent so far, one per frame.
    pub closed spec fn spec_audio(&self) -> Seq<Seq<u8>> {
        self.audio@
    }

    /// The frames cut so far, sent or not.
    pub closed spec fn spec_framed(&self) -> Seq<FrameFacts> {
        self.framed@
    }

    /// Whether a cut frame waits for its encoded audio.
    pub closed spec fn spec_has_pending(&self) -> bool {
        self.head < self.queue@.len()
    }

    /// Whether `extra` more bytes of PCM can be framed with frame numbers
    /// and times that fit in 64 bits.
    pub closed spec fn spec_has_room(&self, extra: nat) -> bool {
        self.framer.fits(extra)
    }

    /// Whether the time of the last frame fits in 64 bits.
    pub closed spec fn spec_can_end(&self) -> bool {
        frame_time(self.framer.start_ms, self.framer.config.frame_duration_ms, self.framer.frame_index as nat)
            <= u64::MAX
    }

    /// What every exchange keeps: the messages handed out so far are the
    /// opening of the session, then one audio message per frame sent, in
    /// the order the frames were cut from the PCM.
    pub closed spec fn wf(&self) -> bool {
        let opening = opening_messages(self.request_id@, self.token@, self.device_id@);
        let n = self.framer.config.bytes_per_frame as nat;
        let cut = split_frames(self.pcm@, n);
        &&& n > 0
        &&& self.head <= self.queue@.len()
        &&& self.audio@.len() + (self.queue@.len() - self.head) == self.framed@.len()
        &&& forall|i: int|
            0 <= i < self.queue@.len() - self.head ==> (#[trigger] self.queue@[self.head + i])@
                == self.framed@[self.audio@.len() + i]
        &&& match self.stage {
            ExchangeStage::AwaitingTask => self.sent@ == opening.take(1) && self.pcm@.len() == 0
                && self.framed@.len() == 0 && self.queue@.len() == 0,
            ExchangeStage::AwaitingSession => self.sent@ == opening && self.pcm@.len() == 0
                && self.framed@.len() == 0 && self.queue@.len() == 0,
            ExchangeStage::Failed => self.queue@.len() == 0 && self.framed@.len() == 0,
            ExchangeStage::Streaming => {
                &&& self.sent@ == opening + frame_messages(self.request_id@, self.framed@, self.audio@)
                &&& self.framer.buffer@ == cut.1
                &&& self.framer.frame_index == cut.0.len()
                &&& self.framed@ == frames_from(cut.0, 0, self.framer.start_ms, self.framer.config.frame_duration_ms)
            },
            ExchangeStage::Closing => {
                &&& self.sent@ == opening + frame_messages(self.request_id@, self.framed@, self.audio@)
                &&& self.framed@ == stream_frames(self.pcm@, self.framer.config, self.framer.start_ms)
            },
            ExchangeStage::Finished => {
                &&& self.sent@ == opening + frame_messages(self.request_id@, self.framed@, self.audio@)
                    + seq![closing_message(self.request_id@, self.token@)]
                &&& self.framed@ == stream_frames(self.pcm@, self.framer.config, self.framer.start_ms)
                &&& self.queue@.len() == self.head
            },
        }
    }

    /// Opens an exchange: hands out `StartTask`, and awaits `TaskStarted`.
    pub fn start(request_id: String, token: String, device_id: String, config: AudioConfig) -> (r: (
        AsrExchange,
        Vec<u8>,
    ))
        requires
            config.bytes_per_frame > 0,
        ensures
            r.0.wf(),
            r.0.spec_stage() == ExchangeStage::AwaitingTask,
            r.0.spec_request_id() == request_id@,
            r.0.spec_token() == token@,
            r.0.spec_device_id() == device_id@,
            r.0.spec_config() == config,
            r.1@ == request_bytes(control_request(request_id@, token@, "StartTask"@, Seq::empty())),
            r.0.spec_sent() == seq![r.1@],
    {
        let message = build_start_task(request_id.as_str(), token.as_str());
        let ghost opening = opening_messages(request_id@, token@, device_id@);
        assert(seq![message@] =~= opening.take(1));
        let ghost first = seq![message@];
        let exchange = AsrExchange {
            request_id,
            token,
            device_id,
            stage: ExchangeStage::AwaitingTask,
            framer: PcmFramer::new(config, 0),
            queue: Vec::new(),
            head: 0,
            sent: Ghost(first),
            pcm: Ghost(Seq::<u8>::empty()),
            framed: Ghost(Seq::<FrameFacts>::empty()),
            audio: Ghost(Seq::<Seq<u8>>::empty()),
        };
        (exchange, message)
    }

    /// Where the exchange stands.
    pub fn stage(&self) -> (r: ExchangeStage)
        ensures
            r == self.spec_stage(),
    {
        self.stage
    }

    /// The request id of the session.
    pub fn request_id(&self) -> (r: &str)
        ensures
            r@ == self.spec_request_id(),
    {
        self.request_id.as_str()
    }

    /// Takes the backend's answer to `StartTask` or `StartSession`. After
    /// `TaskStarted` it hands out `StartSession`; after `SessionStarted`
    /// audio may flow, timed from now. Any other answer fails the exchange
    /// with its description.
    pub fn on_answer(&mut self, response: &AsrResponse) -> (r: Result<Option<Vec<u8>>, String>)
        requires
            old(self).wf(),
            old(self).spec_stage() == ExchangeStage::AwaitingTask || old(self).spec_stage()
                == ExchangeStage::AwaitingSession,
        ensures
            final(self).wf(),
            final(self).spec_request_id() == old(self).spec_request_id(),
            final(self).spec_token() == old(self).spec_token(),
            final(self).spec_device_id() == old(self).spec_device_id(),
            final(self).spec_config() == old(self).spec_config(),
            final(self).spec_pcm() == old(self).spec_pcm(),
            final(self).spec_audio() == old(self).spec_audio(),
            old(self).spec_stage() == ExchangeStage::AwaitingTask ==> match r {
                Ok(Some(m)) => response@.message_type == "TaskStarted"@ && m@ == request_bytes(
                    control_request(
                        old(self).spec_request_id(),
                        old(self).spec_token(),
                        "StartSession"@,
                        session_payload_text(old(self).spec_device_id()),
                    ),
                ) && final(self).spec_sent() == old(self).spec_sent().push(m@)
                    && final(self).spec_stage() == ExchangeStage::AwaitingSession,
                Ok(None) => false,
                Err(e) => response@.message_type != "TaskStarted"@ && e@ == lifecycle_error_text(
                    "TaskStarted"@,
                    response@,
                ) && final(self).spec_sent() == old(self).spec_sent() && final(self).spec_stage()
                    == ExchangeStage::Failed,
            },
            old(self).spec_stage() == ExchangeStage::AwaitingSession ==> match r {
                Ok(Some(_)) => false,
                Ok(None) => response@.message_type == "SessionStarted"@ && final(self).spec_sent()
                    == old(self).spec_sent() && final(self).spec_stage() == ExchangeStage::Streaming,
                Err(e) => response@.message_type != "SessionStarted"@ && e@ == lifecycle_error_text(
                    "SessionStarted"@,
                    response@,
                ) && final(self).spec_sent() == old(self).spec_sent() && final(self).spec_stage()
                    == ExchangeStage::Failed,
            },
    {
        match self.stage {
            ExchangeStage::AwaitingTask => {
                match check_lifecycle("TaskStarted", response) {
                    Err(e) => {
                        self.stage = ExchangeStage::Failed;
                        Err(e)
                    },
                    Ok(()) => {
                        let message = build_start_session(
                            self.request_id.as_str(),
                            self.token.as_str(),
                            session_payload(self.device_id.as_str()),
                        );
                        let ghost opening = opening_messages(
                            self.request_id@,
                            self.token@,
                            self.device_id@,
                        );
                        proof {
                            assert(self.sent@.push(message@) =~= opening);
                        }
                        self.sent = Ghost(self.sent@.push(message@));
                        self.stage = ExchangeStage::AwaitingSession;
                        Ok(Some(message))
                    },
                }
            },
            _ => {
                match check_lifecycle("SessionStarted", response) {
                    Err(e) => {
                        self.stage = ExchangeStage::Failed;
                        Err(e)
                    },
                    Ok(()) => {
                        let config = self.framer.config;
                        self.framer = PcmFramer::starting_now(config);
                        proof {
                            let opening = opening_messages(
                                self.request_id@,
                                self.token@,
                                self.device_id@,
                            );
                            assert(frame_messages(self.request_id@, self.framed@, self.audio@)
                                =~= Seq::<Seq<u8>>::empty());
                            assert(opening + Seq::<Seq<u8>>::empty() =~= opening);
                            assert(split_frames(self.pcm@, config.bytes_per_frame as nat).0
                                =~= Seq::<Seq<u8>>::empty());
                            assert(self.pcm@ =~= Seq::<u8>::empty());
                            assert(self.framer.buffer@ =~= Seq::<u8>::empty());
                            assert(self.framed@ =~= frames_from(
                                Seq::empty(),
                                0,
                                self.framer.start_ms,
                                config.frame_duration_ms,
                            ));
                        }
                        self.stage = ExchangeStage::Streaming;
                        Ok(None)
                    },
                }
            },
        }
    }

    /// Whether `extra` more bytes of PCM can be framed with frame numbers
    /// and times that fit in 64 bits.
    pub fn has_room(&self, extra: usize) -> (r: bool)
        requires
            self.wf(),
        ensures
            r == self.spec_has_room(extra as nat),
    {
        self.framer.has_room(extra)
    }

    /// Whether the time of the last frame fits in 64 bits.
    pub fn can_end(&self) -> (r: bool)
        ensures
            r == self.spec_can_end(),
    {
        self.framer.finish_fits()
    }

    /// Takes more PCM: the whole frames it completes wait for their encoded
    /// audio, the rest waits for more PCM.
    pub fn push_pcm(&mut self, chunk: &[u8])
        requires
            old(self).wf(),
            old(self).spec_stage() == ExchangeStage::Streaming,
            old(self).spec_has_room(chunk@.len()),
        ensures
            final(self).wf(),
            final(self).spec_stage() == ExchangeStage::Streaming,
            final(self).spec_pcm() == old(self).spec_pcm() + chunk@,
            final(self).spec_sent() == old(self).spec_sent(),
            final(self).spec_audio() == old(self).spec_audio(),
            final(self).spec_request_id() == old(self).spec_request_id(),
            final(self).spec_token() == old(self).spec_token(),
            final(self).spec_device_id() == old(self).spec_device_id(),
            final(self).spec_config() == old(self).spec_config(),
            final(self).spec_start_ms() == old(self).spec_start_ms(),
    {
        let ghost n = self.framer.config.bytes_per_frame as nat;
        let ghost old_pcm = self.pcm@;
        let ghost old_framed = self.framed@;
        let ghost old_buffer = self.framer.buffer@;
        let ghost old_index = self.framer.frame_index;
        let ghost start = self.framer.start_ms;
        let ghost dur = self.framer.config.frame_duration_ms;
        if self.head == self.queue.len() {
            self.queue = Vec::new();
            self.head = 0;
        }
        let ghost old_queue = self.queue@;
        let ghost head = self.head;
        let mut frames = self.framer.push(chunk);
        let ghost cut = split_frames(old_buffer + chunk@, n);
        let ghost added = frames@.map_values(|f: PcmFrame| f@);
        let ghost fresh = frames@;
        self.queue.append(&mut frames);
        proof {
            lemma_split_frames_append(old_pcm, chunk@, n);
            lemma_frames_from_append(split_frames(old_pcm, n).0, cut.0, 0, start, dur);
            let new_framed = old_framed + added;
            assert(added.len() == cut.0.len());
            assert forall|i: int| 0 <= i < self.queue@.len() - self.head implies (
            #[trigger] self.queue@[self.head + i])@ == new_framed[self.audio@.len() + i] by {
                if i < old_queue.len() - head {
                    assert(self.queue@[self.head + i] == old_queue[head + i]);
                } else {
                    let j = i - (old_queue.len() - head);
                    assert(self.queue@[self.head + i] == fresh[j]) by {
                        assert(self.queue@ =~= old_queue + fresh);
                    }
                    assert(added[j] == fresh[j]@);
                }
            }
            assert(frame_messages(self.request_id@, new_framed, self.audio@) =~= frame_messages(
                self.request_id@,
                old_framed,
                self.audio@,
            ));
            self.framed@ = new_framed;
            self.pcm@ = old_pcm + chunk@;
        }
    }

    /// Ends the audio: what is left, padded with silence, becomes the last
    /// frame, which waits for its encoded audio like the others.
    pub fn end_audio(&mut self)
        requires
            old(self).wf(),
            old(self).spec_stage() == ExchangeStage::Streaming,
            old(self).spec_can_end(),
        ensures
            final(self).wf(),
            final(self).spec_stage() == ExchangeStage::Closing,
            final(self).spec_pcm() == old(self).spec_pcm(),
            final(self).spec_sent() == old(self).spec_sent(),
            final(self).spec_audio() == old(self).spec_audio(),
            final(self).spec_request_id() == old(self).spec_request_id(),
            final(self).spec_token() == old(self).spec_token(),
            final(self).spec_device_id() == old(self).spec_device_id(),
            final(self).spec_config() == old(self).spec_config(),
            final(self).spec_start_ms() == old(self).spec_start_ms(),
    {
        let ghost old_framed = self.framed@;
        if self.head == self.queue.len() {
            self.queue = Vec::new();
            self.head = 0;
        }
        let ghost old_queue = self.queue@;
        let last = self.framer.finish();
        let ghost facts = last@;
        self.queue.push(last);
        proof {
            let new_framed = old_framed.push(facts);
            assert forall|i: int| 0 <= i < self.queue@.len() - self.head implies (
            #[trigger] self.queue@[self.head + i])@ == new_framed[self.audio@.len() + i] by {
                if i < old_queue.len() - self.head {
                    assert(self.queue@[self.head + i] == old_queue[self.head + i]);
                }
            }
            assert(frame_messages(self.request_id@, new_framed, self.audio@) =~= frame_messages(
                self.request_id@,
                old_framed,
                self.audio@,
            ));
            self.framed@ = new_framed;
        }
        self.stage = ExchangeStage::Closing;
    }

    /// The PCM of the next frame that waits for its encoded audio.
    pub fn pending_pcm(&self) -> (r: Option<Vec<u8>>)
        requires
            self.wf(),
        ensures
            r is Some <==> self.spec_has_pending(),
            r matches Some(p) ==> p@ == self.spec_framed()[self.spec_audio().len() as int].pcm,
    {
        if self.head < self.queue.len() {
            let mut out: Vec<u8> = Vec::new();
            append_bytes(&mut out, self.queue[self.head].pcm.as_slice());
            proof {
                assert(self.queue@[self.head + 0] == self.queue@[self.head as int]);
            }
            Some(out)
        } else {
            None
        }
    }

    /// Takes the encoded audio of the next waiting frame and hands out its
    /// message, stamped with the frame's place and time.
    pub fn send_audio(&mut self, audio: Vec<u8>) -> (r: Vec<u8>)
        requires
            old(self).wf(),
            old(self).spec_has_pending(),
        ensures
            final(self).wf(),
            ({
                let f = old(self).spec_framed()[old(self).spec_audio().len() as int];
                r@ == request_bytes(
                    task_request(old(self).spec_request_id(), audio@, f.state, f.timestamp_ms as u64),
                )
            }),
            final(self).spec_sent() == old(self).spec_sent().push(r@),
            final(self).spec_audio() == old(self).spec_audio().push(audio@),
            final(self).spec_framed() == old(self).spec_framed(),
            final(self).spec_stage() == old(self).spec_stage(),
            final(self).spec_pcm() == old(self).spec_pcm(),
            final(self).spec_request_id() == old(self).spec_request_id(),
            final(self).spec_token() == old(self).spec_token(),
            final(self).spec_device_id() == old(self).spec_device_id(),
            final(self).spec_config() == old(self).spec_config(),
            final(self).spec_start_ms() == old(self).spec_start_ms(),
    {
        let ghost a = audio@;
        let ghost k = self.audio@.len();
        let state = self.queue[self.head].state;
        let timestamp_ms = self.queue[self.head].timestamp_ms;
        proof {
            assert(self.queue@[self.head + 0] == self.queue@[self.head as int]);
        }
        let message = build_task_request(self.request_id.as_str(), audio, state, timestamp_ms);
        let queued = self.queue.len();
        assert(self.head < queued);
        self.head = self.head + 1;
        proof {
            let old_audio = self.audio@;
            let new_audio = old_audio.push(a);
            assert forall|i: int| 0 <= i < self.queue@.len() - self.head implies (
            #[trigger] self.queue@[self.head + i])@ == self.framed@[new_audio.len() + i] by {
                assert(self.queue@[self.head + i] == self.queue@[(self.head - 1) + (i + 1)]);
            }
            assert(frame_messages(self.request_id@, self.framed@, new_audio) =~= frame_messages(
                self.request_id@,
                self.framed@,
                old_audio,
            ).push(message@));
            self.audio@ = new_audio;
            self.sent@ = self.sent@.push(message@);
            let opening = opening_messages(self.request_id@, self.token@, self.device_id@);
            assert(opening + frame_messages(self.request_id@, self.framed@, old_audio).push(message@)
                =~= (opening + frame_messages(self.request_id@, self.framed@, old_audio)).push(message@));
        }
        message
    }

    /// Closes the session once every frame's audio is out: hands out
    /// `FinishSession`. The messages of the whole session are then, in
    /// order, `StartTask`, `StartSession`, one audio message per frame of
    /// the stream with that frame's place and time, and `FinishSession`.
    pub fn finish(&mut self) -> (r: Vec<u8>)
        requires
            old(self).wf(),
            old(self).spec_stage() == ExchangeStage::Closing,
            !old(self).spec_has_pending(),
        ensures
            final(self).wf(),
            final(self).spec_stage() == ExchangeStage::Finished,
            r@ == closing_message(old(self).spec_request_id(), old(self).spec_token()),
            final(self).spec_sent() == old(self).spec_sent().push(r@),
            final(self).spec_audio().len() == stream_frames(
                final(self).spec_pcm(),
                final(self).spec_config(),
                final(self).spec_start_ms(),
            ).len(),
            final(self).spec_sent() == exchange_messages(
                final(self).spec_request_id(),
                final(self).spec_token(),
                final(self).spec_device_id(),
                final(self).spec_pcm(),
                final(self).spec_config(),
                final(self).spec_start_ms(),
                final(self).spec_audio(),
            ),
    {
        let message = build_finish_session(self.request_id.as_str(), self.token.as_str());
        proof {
            let opening = opening_messages(self.request_id@, self.token@, self.device_id@);
            let middle = frame_messages(self.request_id@, self.framed@, self.audio@);
            assert((opening + middle).push(message@) =~= opening + middle + seq![message@]);
            self.sent@ = self.sent@.push(message@);
        }
        self.stage = ExchangeStage::Finished;
        message
    }
}

} // verus!
