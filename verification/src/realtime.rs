//! The OpenAI Realtime transcription protocol: client events, the session
//! they configure, and the server events that answer them.
use vstd::prelude::*;
use vstd::utf8::*;

use crate::encoding::{base64_standard, base64_standard_decode};
use crate::entropy::{is_lower_hex, uuid_simple};
use crate::json::{
    decimal, json_at, json_lookup, json_str, push_decimal, push_json_str, JsonFact, JsonKind,
};
use crate::text::opt_chars;
use crate::url::{
    query_decodable, query_is_decodable, query_lookup, query_param_from_query, split_once_or_all,
    split_once_slice, str_eq, string_from_utf8,
};

pub use crate::models::{model_list_response, model_not_found_error, model_object_response};
pub use crate::models::{MODEL_CREATED_AT, MODEL_OBJECT, MODEL_OWNER};

verus! {

broadcast use {encode_utf8_valid_utf8, encode_utf8_decode_utf8};

/// The path of the realtime endpoint.
pub const REALTIME_PATH: &'static str = "/v1/realtime";
/// The lowest input sample rate a session accepts.
pub const MIN_INPUT_SAMPLE_RATE: u32 = 8_000;
/// The highest input sample rate a session accepts.
pub const MAX_INPUT_SAMPLE_RATE: u32 = 96_000;
/// The largest client event, in bytes.
pub const MAX_CLIENT_EVENT_BYTES: usize = 786_432;
/// The largest audio payload of one append event, in bytes.
pub const MAX_APPEND_AUDIO_BYTES: usize = 524_288;
/// The largest base64 text of one append event: what encodes
/// [`MAX_APPEND_AUDIO_BYTES`] bytes.
pub const MAX_APPEND_AUDIO_BASE64_BYTES: usize = 699_052;

/// A refused request or event, with the message that is sent back.
#[derive(Debug, Clone, PartialEq, Eq)]
pub struct RealtimeError {
    pub message: String,
}

impl RealtimeError {
    /// The message that describes the error.
    pub fn to_string(&self) -> (r: String)
        ensures
            r@ == self.message@,
    {
        self.message.clone()
    }
}

fn error_from(message: String) -> (r: RealtimeError)
    ensures
        r.message@ == message@,
{
    RealtimeError { message }
}

fn error_text(message: &str) -> (r: RealtimeError)
    ensures
        r.message@ == message@,
{
    RealtimeError { message: message.to_owned() }
}

fn error_concat(a: &str, b: &str) -> (r: RealtimeError)
    ensures
        r.message@ == a@ + b@,
{
    let mut message = a.to_owned();
    message.append(b);
    RealtimeError { message }
}

/// An event that a client sends.
#[derive(Debug, PartialEq, Eq)]
pub enum ClientEvent {
    SessionUpdate(SessionUpdateConfig),
    AppendAudio(Vec<u8>),
    Commit,
    Clear,
    Close,
}

/// What a `session.update` event asks for.
#[derive(Debug, Clone, Default, PartialEq, Eq)]
pub struct SessionUpdateConfig {
    pub input_sample_rate: Option<u32>,
    pub input_audio_format_type: Option<String>,
    pub transcription_model: Option<String>,
    pub language: Option<String>,
    pub delay: Option<String>,
    pub inclusions: Vec<String>,
}

/// The contents of a [`SessionUpdateConfig`].
pub ghost struct SessionUpdateFacts {
    pub input_sample_rate: Option<u32>,
    pub input_audio_format_type: Option<Seq<char>>,
    pub transcription_model: Option<Seq<char>>,
    pub language: Option<Seq<char>>,
    pub delay: Option<Seq<char>>,
    pub inclusions: Seq<Seq<char>>,
}

/// The contents of a [`ClientEvent`].
pub ghost enum ClientEventFacts {
    SessionUpdate(SessionUpdateFacts),
    AppendAudio(Seq<u8>),
    Commit,
    Clear,
    Close,
}

impl View for SessionUpdateConfig {
    type V = SessionUpdateFacts;

    open spec fn view(&self) -> SessionUpdateFacts {
        SessionUpdateFacts {
            input_sample_rate: self.input_sample_rate,
            input_audio_format_type: opt_chars(self.input_audio_format_type),
            transcription_model: opt_chars(self.transcription_model),
            language: opt_chars(self.language),
            delay: opt_chars(self.delay),
            inclusions: self.inclusions@.map_values(|s: String| s@),
        }
    }
}

impl View for ClientEvent {
    type V = ClientEventFacts;

    open spec fn view(&self) -> ClientEventFacts {
        match self {
            ClientEvent::SessionUpdate(c) => ClientEventFacts::SessionUpdate(c@),
            ClientEvent::AppendAudio(a) => ClientEventFacts::AppendAudio(a@),
            ClientEvent::Commit => ClientEventFacts::Commit,
            ClientEvent::Clear => ClientEventFacts::Clear,
            ClientEvent::Close => ClientEventFacts::Close,
        }
    }
}

// ---------------------------------------------------------------------------
// The realtime endpoint

/// Whether a WebSocket request target names the realtime endpoint with the
/// configured model; the message of the refusal otherwise.
pub open spec fn realtime_target_check(target: Seq<char>, model: Seq<char>) -> Result<(), Seq<char>> {
    let (path, query) = split_once_or_all(encode_utf8(target), 63);
    if decode_utf8(path) != REALTIME_PATH@ {
        Err("expected /v1/realtime, got "@ + decode_utf8(path))
    } else if query_lookup(query, "model"@) != Some(model) {
        Err("only model="@ + model + " is supported"@)
    } else {
        Ok(())
    }
}

/// The model query parameter of a realtime target is one that decoding
/// accepts.
pub open spec fn realtime_target_decodable(target: Seq<char>) -> bool {
    let (path, query) = split_once_or_all(encode_utf8(target), 63);
    decode_utf8(path) == REALTIME_PATH@ ==> query_decodable(query, "model"@)
}

/// Checks that a WebSocket request target is the realtime endpoint with
/// `model=<model>`, the model name percent-decoded.
pub fn validate_realtime_target(target: &str, model: &str) -> (r: Result<(), RealtimeError>)
    requires
        realtime_target_decodable(target@),
    ensures
        match r {
            Ok(_) => realtime_target_check(target@, model@) == Ok::<(), Seq<char>>(()),
            Err(e) => realtime_target_check(target@, model@) == Err::<(), Seq<char>>(e.message@),
        },
{
    let (path_bytes, query_bytes) = split_once_slice(target.as_bytes(), 63);
    let path = string_from_utf8(path_bytes);
    if !str_eq(path.as_str(), REALTIME_PATH) {
        return Err(error_concat("expected /v1/realtime, got ", path.as_str()));
    }
    let query = string_from_utf8(query_bytes);
    proof {
        decode_utf8_encode_utf8(query_bytes@);
    }
    let found = query_param_from_query(query.as_str(), "model");
    let matches = match &found {
        Some(v) => str_eq(v.as_str(), model),
        None => false,
    };
    if !matches {
        let mut message = "only model=".to_owned();
        message.append(model);
        message.append(" is supported");
        return Err(error_from(message));
    }
    Ok(())
}

/// Whether [`validate_realtime_target`] accepts `target`: the model name it
/// would decode is one that decoding accepts.
pub fn realtime_target_is_decodable(target: &str) -> (r: bool)
    ensures
        r == realtime_target_decodable(target@),
{
    let (path_bytes, _) = split_once_slice(target.as_bytes(), 63);
    let path = string_from_utf8(path_bytes);
    if !str_eq(path.as_str(), REALTIME_PATH) {
        return true;
    }
    query_is_decodable(target, "model")
}

// ---------------------------------------------------------------------------
// Client events: what their JSON text holds

/// The message for a lookup whose text is not JSON.
pub open spec fn invalid_json(e: Seq<char>) -> Seq<char> {
    "invalid JSON: "@ + e
}

/// The name of the session field that lists extra outputs to return.
pub open spec fn inclusions_name() -> Seq<char> {
    "incl"@ + "ude"@
}

/// The JSON Pointer to the list of extra outputs.
pub open spec fn inclusions_pointer() -> Seq<char> {
    "/session/"@ + inclusions_name()
}

/// The pointer to entry `i` of the list of extra outputs.
pub open spec fn inclusion_pointer(i: nat) -> Seq<char> {
    inclusions_pointer() + "/"@ + decimal(i)
}

/// The view of the outcome of a lookup.
pub open spec fn lookup_view(r: Result<JsonKind, String>) -> Result<JsonFact, Seq<char>> {
    match r {
        Ok(k) => Ok(k@),
        Err(e) => Err(e@),
    }
}

/// The `audio` field of an event, read far enough to decide on it.
#[derive(Debug)]
pub enum AudioField {
    /// The lookup failed, with the parser's message: the text is not JSON.
    Unreadable(String),
    /// `audio` is absent or not a string.
    NotText,
    /// `audio` is longer than [`MAX_APPEND_AUDIO_BASE64_BYTES`] bytes.
    TooLong,
    /// `audio` is short enough, with its standard base64 decoding.
    Decoded(Result<Vec<u8>, String>),
}

/// The contents of an [`AudioField`].
pub ghost enum AudioFieldFacts {
    Unreadable(Seq<char>),
    NotText,
    TooLong,
    Decoded(Result<Seq<u8>, Seq<char>>),
}

impl View for AudioField {
    type V = AudioFieldFacts;

    open spec fn view(&self) -> AudioFieldFacts {
        match self {
            AudioField::Unreadable(e) => AudioFieldFacts::Unreadable(e@),
            AudioField::NotText => AudioFieldFacts::NotText,
            AudioField::TooLong => AudioFieldFacts::TooLong,
            AudioField::Decoded(Ok(b)) => AudioFieldFacts::Decoded(Ok(b@)),
            AudioField::Decoded(Err(e)) => AudioFieldFacts::Decoded(Err(e@)),
        }
    }
}

/// The list of extra outputs of a session update, read entry by entry.
#[derive(Debug)]
pub enum ListField {
    /// The lookup failed, with the parser's message.
    Unreadable(String),
    /// The list is absent.
    Missing,
    /// Something other than an array stands there.
    NotArray,
    /// The lookups of the entries of the array, in order.
    Entries(Vec<Result<JsonKind, String>>),
}

/// The contents of a [`ListField`].
pub ghost enum ListFieldFacts {
    Unreadable(Seq<char>),
    Missing,
    NotArray,
    Entries(Seq<Result<JsonFact, Seq<char>>>),
}

impl View for ListField {
    type V = ListFieldFacts;

    open spec fn view(&self) -> ListFieldFacts {
        match self {
            ListField::Unreadable(e) => ListFieldFacts::Unreadable(e@),
            ListField::Missing => ListFieldFacts::Missing,
            ListField::NotArray => ListFieldFacts::NotArray,
            ListField::Entries(v) => ListFieldFacts::Entries(
                v@.map_values(|r: Result<JsonKind, String>| lookup_view(r)),
            ),
        }
    }
}

/// What the JSON text of a client event holds where the decoder reads it.
#[derive(Debug)]
pub struct EventFields {
    /// `type`.
    pub event_type: Result<JsonKind, String>,
    /// `audio`.
    pub audio: AudioField,
    /// `session`.
    pub session: Result<JsonKind, String>,
    /// `session.type`.
    pub session_type: Result<JsonKind, String>,
    /// The session's list of extra outputs.
    pub inclusions: ListField,
    /// `session.audio.input.turn_detection`.
    pub turn_detection: Result<JsonKind, String>,
    /// `session.audio.input.format.rate`.
    pub rate: Result<JsonKind, String>,
    /// `session.audio.input.format.type`.
    pub format_type: Result<JsonKind, String>,
    /// `session.audio.input.transcription.model`.
    pub model: Result<JsonKind, String>,
    /// `session.audio.input.transcription.language`.
    pub language: Result<JsonKind, String>,
    /// `session.audio.input.transcription.delay`.
    pub delay: Result<JsonKind, String>,
}

/// The contents of an [`EventFields`].
pub ghost struct EventFieldsFacts {
    pub event_type: Result<JsonFact, Seq<char>>,
    pub audio: AudioFieldFacts,
    pub session: Result<JsonFact, Seq<char>>,
    pub session_type: Result<JsonFact, Seq<char>>,
    pub inclusions: ListFieldFacts,
    pub turn_detection: Result<JsonFact, Seq<char>>,
    pub rate: Result<JsonFact, Seq<char>>,
    pub format_type: Result<JsonFact, Seq<char>>,
    pub model: Result<JsonFact, Seq<char>>,
    pub language: Result<JsonFact, Seq<char>>,
    pub delay: Result<JsonFact, Seq<char>>,
}

impl View for EventFields {
    type V = EventFieldsFacts;

    open spec fn view(&self) -> EventFieldsFacts {
        EventFieldsFacts {
            event_type: lookup_view(self.event_type),
            audio: self.audio@,
            session: lookup_view(self.session),
            session_type: lookup_view(self.session_type),
            inclusions: self.inclusions@,
            turn_detection: lookup_view(self.turn_detection),
            rate: lookup_view(self.rate),
            format_type: lookup_view(self.format_type),
            model: lookup_view(self.model),
            language: lookup_view(self.language),
            delay: lookup_view(self.delay),
        }
    }
}

/// What `serde_json` and `base64` make of the `audio` field of `raw`.
pub open spec fn audio_field_spec(raw: Seq<char>) -> AudioFieldFacts {
    match json_lookup(raw, "/audio"@) {
        Err(e) => AudioFieldFacts::Unreadable(e),
        Ok(JsonFact::Str(audio)) => if encode_utf8(audio).len() > MAX_APPEND_AUDIO_BASE64_BYTES {
            AudioFieldFacts::TooLong
        } else {
            AudioFieldFacts::Decoded(base64_standard(audio))
        },
        Ok(_) => AudioFieldFacts::NotText,
    }
}

/// What `serde_json` finds in the list of extra outputs of `raw`.
pub open spec fn list_field_spec(raw: Seq<char>) -> ListFieldFacts {
    match json_lookup(raw, inclusions_pointer()) {
        Err(e) => ListFieldFacts::Unreadable(e),
        Ok(JsonFact::Missing) => ListFieldFacts::Missing,
        Ok(JsonFact::Array(n)) => ListFieldFacts::Entries(
            Seq::new(n, |i: int| json_lookup(raw, inclusion_pointer(i as nat))),
        ),
        Ok(_) => ListFieldFacts::NotArray,
    }
}

/// What the JSON text `raw` holds where the decoder reads it.
pub open spec fn event_fields_spec(raw: Seq<char>) -> EventFieldsFacts {
    EventFieldsFacts {
        event_type: json_lookup(raw, "/type"@),
        audio: audio_field_spec(raw),
        session: json_lookup(raw, "/session"@),
        session_type: json_lookup(raw, "/session/type"@),
        inclusions: list_field_spec(raw),
        turn_detection: json_lookup(raw, "/session/audio/input/turn_detection"@),
        rate: json_lookup(raw, "/session/audio/input/format/rate"@),
        format_type: json_lookup(raw, "/session/audio/input/format/type"@),
        model: json_lookup(raw, "/session/audio/input/transcription/model"@),
        language: json_lookup(raw, "/session/audio/input/transcription/language"@),
        delay: json_lookup(raw, "/session/audio/input/transcription/delay"@),
    }
}

fn inclusions_name_text() -> (r: String)
    ensures
        r@ == inclusions_name(),
{
    let mut out = "incl".to_owned();
    out.append("ude");
    out
}

fn inclusions_pointer_text() -> (r: String)
    ensures
        r@ == inclusions_pointer(),
{
    let mut out = "/session/".to_owned();
    out.append(inclusions_name_text().as_str());
    out
}

fn inclusion_pointer_text(i: usize) -> (r: String)
    ensures
        r@ == inclusion_pointer(i as nat),
{
    let mut out = inclusions_pointer_text();
    out.append("/");
    push_decimal(&mut out, i as u64);
    out
}

fn read_audio_field(raw: &str) -> (r: AudioField)
    ensures
        r@ == audio_field_spec(raw@),
{
    match json_at(raw, "/audio") {
        Err(e) => AudioField::Unreadable(e),
        Ok(JsonKind::Str(audio)) => {
            if audio.as_str().as_bytes().len() > MAX_APPEND_AUDIO_BASE64_BYTES {
                AudioField::TooLong
            } else {
                AudioField::Decoded(base64_standard_decode(audio.as_str()))
            }
        },
        Ok(_) => AudioField::NotText,
    }
}

fn read_list_field(raw: &str) -> (r: ListField)
    ensures
        r@ == list_field_spec(raw@),
{
    let n = match json_at(raw, inclusions_pointer_text().as_str()) {
        Err(e) => return ListField::Unreadable(e),
        Ok(JsonKind::Missing) => return ListField::Missing,
        Ok(JsonKind::Array(n)) => n,
        Ok(_) => return ListField::NotArray,
    };
    let mut entries: Vec<Result<JsonKind, String>> = Vec::new();
    let mut i: usize = 0;
    while i < n
        invariant
            i <= n,
            entries@.len() == i,
            forall|k: int|
                0 <= k < i ==> lookup_view(#[trigger] entries@[k]) == json_lookup(
                    raw@,
                    inclusion_pointer(k as nat),
                ),
        decreases n - i,
    {
        entries.push(json_at(raw, inclusion_pointer_text(i).as_str()));
        i = i + 1;
    }
    assert(entries@.map_values(|r: Result<JsonKind, String>| lookup_view(r)) =~= Seq::new(
        n as nat,
        |k: int| json_lookup(raw@, inclusion_pointer(k as nat)),
    ));
    ListField::Entries(entries)
}

/// Reads what the JSON text of a client event holds where the decoder
/// looks: each field by its JSON Pointer, the audio decoded from base64
/// when it is short enough.
pub fn read_event_fields(raw: &str) -> (r: EventFields)
    ensures
        r@ == event_fields_spec(raw@),
{
    EventFields {
        event_type: json_at(raw, "/type"),
        audio: read_audio_field(raw),
        session: json_at(raw, "/session"),
        session_type: json_at(raw, "/session/type"),
        inclusions: read_list_field(raw),
        turn_detection: json_at(raw, "/session/audio/input/turn_detection"),
        rate: json_at(raw, "/session/audio/input/format/rate"),
        format_type: json_at(raw, "/session/audio/input/format/type"),
        model: json_at(raw, "/session/audio/input/transcription/model"),
        language: json_at(raw, "/session/audio/input/transcription/language"),
        delay: json_at(raw, "/session/audio/input/transcription/delay"),
    }
}

// ---------------------------------------------------------------------------
// Client events: what they are

/// An optional string field: absent is `None`, another kind of value is
/// refused.
pub open spec fn optional_string_of(found: Result<JsonFact, Seq<char>>, label: Seq<char>) -> Result<
    Option<Seq<char>>,
    Seq<char>,
> {
    match found {
        Err(e) => Err(invalid_json(e)),
        Ok(JsonFact::Str(s)) => Ok(Some(s)),
        Ok(JsonFact::Missing) => Ok(None),
        Ok(_) => Err(label + " must be a string"@),
    }
}

/// An optional positive `u32` field.
pub open spec fn optional_u32_of(found: Result<JsonFact, Seq<char>>, label: Seq<char>) -> Result<
    Option<u32>,
    Seq<char>,
> {
    match found {
        Err(e) => Err(invalid_json(e)),
        Ok(JsonFact::Missing) => Ok(None),
        Ok(JsonFact::Number(Some(v))) => if v > u32::MAX {
            Err(label + " must be a u32 integer"@)
        } else if v == 0 {
            Err(label + " must be greater than 0"@)
        } else {
            Ok(Some(v as u32))
        },
        Ok(_) => Err(label + " must be a u32 integer"@),
    }
}

/// The input sample rate a session update asks for: a positive `u32`
/// between [`MIN_INPUT_SAMPLE_RATE`] and [`MAX_INPUT_SAMPLE_RATE`].
pub open spec fn input_sample_rate_of(found: Result<JsonFact, Seq<char>>) -> Result<Option<u32>, Seq<char>> {
    match optional_u32_of(found, "session.audio.input.format.rate"@) {
        Err(e) => Err(e),
        Ok(Some(rate)) => if rate < MIN_INPUT_SAMPLE_RATE || rate > MAX_INPUT_SAMPLE_RATE {
            Err("session.audio.input.format.rate must be between 8000 and 96000"@)
        } else {
            Ok(Some(rate))
        },
        Ok(None) => Ok(None),
    }
}

/// The entries of the list of extra outputs, all strings; the first entry
/// that is not stops the reading.
pub open spec fn inclusion_entries_of(entries: Seq<Result<JsonFact, Seq<char>>>) -> Result<
    Seq<Seq<char>>,
    Seq<char>,
>
    decreases entries.len(),
{
    if entries.len() == 0 {
        Ok(Seq::empty())
    } else {
        match entries[0] {
            Err(e) => Err(invalid_json(e)),
            Ok(JsonFact::Str(s)) => match inclusion_entries_of(entries.drop_first()) {
                Ok(rest) => Ok(seq![s] + rest),
                Err(e) => Err(e),
            },
            Ok(_) => Err("session."@ + inclusions_name() + " entries must be strings"@),
        }
    }
}

/// The list of extra outputs: absent is empty.
pub open spec fn inclusions_of(list: ListFieldFacts) -> Result<Seq<Seq<char>>, Seq<char>> {
    match list {
        ListFieldFacts::Unreadable(e) => Err(invalid_json(e)),
        ListFieldFacts::Missing => Ok(Seq::empty()),
        ListFieldFacts::NotArray => Err("session."@ + inclusions_name() + " must be an array"@),
        ListFieldFacts::Entries(entries) => inclusion_entries_of(entries),
    }
}

/// The rate, format type, transcription model, language and delay of a
/// session update, in this order.
pub open spec fn session_fields_of(f: EventFieldsFacts, inclusions: Seq<Seq<char>>) -> Result<
    SessionUpdateFacts,
    Seq<char>,
> {
    match input_sample_rate_of(f.rate) {
        Err(e) => Err(e),
        Ok(rate) => match optional_string_of(f.format_type, "session.audio.input.format.type"@) {
            Err(e) => Err(e),
            Ok(format_type) => match optional_string_of(
                f.model,
                "session.audio.input.transcription.model"@,
            ) {
                Err(e) => Err(e),
                Ok(model) => match optional_string_of(
                    f.language,
                    "session.audio.input.transcription.language"@,
                ) {
                    Err(e) => Err(e),
                    Ok(language) => match optional_string_of(
                        f.delay,
                        "session.audio.input.transcription.delay"@,
                    ) {
                        Err(e) => Err(e),
                        Ok(delay) => Ok(
                            SessionUpdateFacts {
                                input_sample_rate: rate,
                                input_audio_format_type: format_type,
                                transcription_model: model,
                                language: language,
                                delay: delay,
                                inclusions: inclusions,
                            },
                        ),
                    },
                },
            },
        },
    }
}

/// What a `session.update` event asks for, checked in this order: the
/// session object, its type, the list of extra outputs, `turn_detection`,
/// then the rate, format type, transcription model, language and delay.
pub open spec fn session_update_of(f: EventFieldsFacts) -> Result<SessionUpdateFacts, Seq<char>> {
    match f.session {
        Err(e) => Err(invalid_json(e)),
        Ok(JsonFact::Missing) => Err("session.update missing session"@),
        Ok(JsonFact::Object) => match f.session_type {
            Err(e) => Err(invalid_json(e)),
            Ok(session_type) => if session_type != JsonFact::Missing && session_type != JsonFact::Str(
                "transcription"@,
            ) {
                Err("only transcription sessions are supported"@)
            } else {
                match inclusions_of(f.inclusions) {
                    Err(e) => Err(e),
                    Ok(inclusions) => match f.turn_detection {
                        Err(e) => Err(invalid_json(e)),
                        Ok(turn) => if turn != JsonFact::Missing && turn != JsonFact::Null {
                            Err("session.audio.input.turn_detection is not supported"@)
                        } else {
                            session_fields_of(f, inclusions)
                        },
                    },
                }
            },
        },
        Ok(_) => Err("session must be an object"@),
    }
}

/// The audio of an append event: base64 text of at most
/// [`MAX_APPEND_AUDIO_BASE64_BYTES`] bytes that decodes to at most
/// [`MAX_APPEND_AUDIO_BYTES`] bytes.
pub open spec fn append_audio_of(audio: AudioFieldFacts) -> Result<ClientEventFacts, Seq<char>> {
    match audio {
        AudioFieldFacts::Unreadable(e) => Err(invalid_json(e)),
        AudioFieldFacts::NotText => Err("append event missing audio"@),
        AudioFieldFacts::TooLong => Err("audio payload too large"@),
        AudioFieldFacts::Decoded(Err(e)) => Err("invalid base64 audio: "@ + e),
        AudioFieldFacts::Decoded(Ok(bytes)) => if bytes.len() > MAX_APPEND_AUDIO_BYTES {
            Err("audio payload too large"@)
        } else {
            Ok(ClientEventFacts::AppendAudio(bytes))
        },
    }
}

/// The event that a client event of type `t` is.
pub open spec fn event_of_type(f: EventFieldsFacts, t: Seq<char>) -> Result<ClientEventFacts, Seq<char>> {
    if t == "session.update"@ {
        match session_update_of(f) {
            Ok(c) => Ok(ClientEventFacts::SessionUpdate(c)),
            Err(e) => Err(e),
        }
    } else if t == "input_audio_buffer.append"@ || t == "session.input_audio_buffer.append"@ {
        append_audio_of(f.audio)
    } else if t == "input_audio_buffer.commit"@ || t == "session.input_audio_buffer.commit"@ {
        Ok(ClientEventFacts::Commit)
    } else if t == "input_audio_buffer.clear"@ || t == "session.input_audio_buffer.clear"@ {
        Ok(ClientEventFacts::Clear)
    } else if t == "session.close"@ {
        Ok(ClientEventFacts::Close)
    } else {
        Err("unsupported client event type: "@ + t)
    }
}

/// The `session.`-prefixed names of the audio buffer events are aliases:
/// an event decodes the same under either name.
pub proof fn law_prefixed_aliases(f: EventFieldsFacts)
    ensures
        event_of_type(f, "session.input_audio_buffer.append"@) == event_of_type(
            f,
            "input_audio_buffer.append"@,
        ),
        event_of_type(f, "session.input_audio_buffer.commit"@) == event_of_type(
            f,
            "input_audio_buffer.commit"@,
        ),
        event_of_type(f, "session.input_audio_buffer.clear"@) == event_of_type(
            f,
            "input_audio_buffer.clear"@,
        ),
{
    reveal_strlit("session.update");
    reveal_strlit("session.input_audio_buffer.append");
    reveal_strlit("session.input_audio_buffer.commit");
    reveal_strlit("session.input_audio_buffer.clear");
    reveal_strlit("input_audio_buffer.append");
    reveal_strlit("input_audio_buffer.commit");
    reveal_strlit("input_audio_buffer.clear");
    assert("session.update"@.len() == 14);
    assert("session.input_audio_buffer.append"@.len() == 33);
    assert("input_audio_buffer.append"@.len() == 25);
    assert("session.input_audio_buffer.commit"@.len() == 33);
    assert("input_audio_buffer.commit"@.len() == 25);
    assert("session.input_audio_buffer.clear"@.len() == 32);
    assert("input_audio_buffer.clear"@.len() == 24);
    assert("session.input_audio_buffer.commit"@[27] != "session.input_audio_buffer.append"@[27]);
    assert("input_audio_buffer.commit"@[19] != "input_audio_buffer.append"@[19]);
}

/// The event that the fields of a client event make, or the message of its
/// refusal.
pub open spec fn event_of_fields(f: EventFieldsFacts) -> Result<ClientEventFacts, Seq<char>> {
    match f.event_type {
        Err(e) => Err(invalid_json(e)),
        Ok(JsonFact::Str(t)) => event_of_type(f, t),
        Ok(_) => Err("client event missing type"@),
    }
}

/// The event that the raw JSON text `raw` is, or the message of its
/// refusal: text longer than [`MAX_CLIENT_EVENT_BYTES`] bytes is refused
/// unread.
pub open spec fn client_event_spec(raw: Seq<char>) -> Result<ClientEventFacts, Seq<char>> {
    if encode_utf8(raw).len() > MAX_CLIENT_EVENT_BYTES {
        Err("client event too large"@)
    } else {
        event_of_fields(event_fields_spec(raw))
    }
}

fn optional_string(found: Result<JsonKind, String>, label: &str) -> (r: Result<Option<String>, RealtimeError>)
    ensures
        match r {
            Ok(v) => optional_string_of(lookup_view(found), label@) == Ok::<
                Option<Seq<char>>,
                Seq<char>,
            >(opt_chars(v)),
            Err(e) => optional_string_of(lookup_view(found), label@) == Err::<
                Option<Seq<char>>,
                Seq<char>,
            >(e.message@),
        },
{
    match found {
        Err(e) => Err(error_concat("invalid JSON: ", e.as_str())),
        Ok(JsonKind::Str(s)) => Ok(Some(s)),
        Ok(JsonKind::Missing) => Ok(None),
        Ok(_) => Err(error_concat(label, " must be a string")),
    }
}

fn optional_u32(found: Result<JsonKind, String>, label: &str) -> (r: Result<Option<u32>, RealtimeError>)
    ensures
        match r {
            Ok(v) => optional_u32_of(lookup_view(found), label@) == Ok::<Option<u32>, Seq<char>>(v),
            Err(e) => optional_u32_of(lookup_view(found), label@) == Err::<Option<u32>, Seq<char>>(
                e.message@,
            ),
        },
{
    match found {
        Err(e) => Err(error_concat("invalid JSON: ", e.as_str())),
        Ok(JsonKind::Missing) => Ok(None),
        Ok(JsonKind::Number(Some(v))) => {
            if v > 0xFFFF_FFFF {
                Err(error_concat(label, " must be a u32 integer"))
            } else if v == 0 {
                Err(error_concat(label, " must be greater than 0"))
            } else {
                Ok(Some(v as u32))
            }
        },
        Ok(_) => Err(error_concat(label, " must be a u32 integer")),
    }
}

fn input_sample_rate(found: Result<JsonKind, String>) -> (r: Result<Option<u32>, RealtimeError>)
    ensures
        match r {
            Ok(v) => input_sample_rate_of(lookup_view(found)) == Ok::<Option<u32>, Seq<char>>(v),
            Err(e) => input_sample_rate_of(lookup_view(found)) == Err::<Option<u32>, Seq<char>>(
                e.message@,
            ),
        },
{
    let rate = match optional_u32(found, "session.audio.input.format.rate") {
        Ok(rate) => rate,
        Err(e) => return Err(e),
    };
    if let Some(rate) = rate {
        if rate < MIN_INPUT_SAMPLE_RATE || rate > MAX_INPUT_SAMPLE_RATE {
            return Err(
                error_text("session.audio.input.format.rate must be between 8000 and 96000"),
            );
        }
    }
    Ok(rate)
}

fn session_inclusions_message(tail: &str) -> (r: RealtimeError)
    ensures
        r.message@ == "session."@ + inclusions_name() + tail@,
{
    let mut message = "session.".to_owned();
    message.append(inclusions_name_text().as_str());
    message.append(tail);
    RealtimeError { message }
}

fn inclusions(list: ListField) -> (r: Result<Vec<String>, RealtimeError>)
    ensures
        match r {
            Ok(v) => inclusions_of(list@) == Ok::<Seq<Seq<char>>, Seq<char>>(
                v@.map_values(|s: String| s@),
            ),
            Err(e) => inclusions_of(list@) == Err::<Seq<Seq<char>>, Seq<char>>(e.message@),
        },
{
    let entries = match &list {
        ListField::Unreadable(e) => return Err(error_concat("invalid JSON: ", e.as_str())),
        ListField::Missing => {
            let empty: Vec<String> = Vec::new();
            assert(empty@.map_values(|s: String| s@) =~= Seq::<Seq<char>>::empty());
            return Ok(empty);
        },
        ListField::NotArray => return Err(session_inclusions_message(" must be an array")),
        ListField::Entries(entries) => entries,
    };
    let ghost all = entries@.map_values(|r: Result<JsonKind, String>| lookup_view(r));
    assert(list@ == ListFieldFacts::Entries(all));
    let mut out: Vec<String> = Vec::new();
    let n = entries.len();
    let mut i: usize = 0;
    assert(all.skip(0) =~= all);
    while i < n
        invariant
            n == entries@.len(),
            i <= n,
            all == entries@.map_values(|r: Result<JsonKind, String>| lookup_view(r)),
            inclusions_of(list@) == inclusion_entries_of(all),
            inclusion_entries_of(all) == match inclusion_entries_of(all.skip(i as int)) {
                Ok(rest) => Ok(out@.map_values(|s: String| s@) + rest),
                Err(e) => Err::<Seq<Seq<char>>, Seq<char>>(e),
            },
        decreases n - i,
    {
        let ghost rest = all.skip(i as int);
        assert(rest[0] == lookup_view(entries@[i as int]));
        assert(rest.drop_first() =~= all.skip(i + 1));
        match &entries[i] {
            Err(e) => {
                return Err(error_concat("invalid JSON: ", e.as_str()));
            },
            Ok(JsonKind::Str(s)) => {
                let ghost before = out@.map_values(|s: String| s@);
                out.push(s.clone());
                proof {
                    assert(out@.map_values(|s: String| s@) =~= before.push(s@));
                    match inclusion_entries_of(all.skip(i + 1)) {
                        Ok(more) => {
                            assert(before + (seq![s@] + more) =~= before.push(s@) + more);
                        },
                        Err(_) => {},
                    }
                }
            },
            Ok(_) => {
                return Err(session_inclusions_message(" entries must be strings"));
            },
        }
        i = i + 1;
    }
    assert(all.skip(n as int) =~= Seq::<Result<JsonFact, Seq<char>>>::empty());
    assert(out@.map_values(|s: String| s@) + Seq::<Seq<char>>::empty() =~= out@.map_values(
        |s: String| s@,
    ));
    Ok(out)
}

fn append_audio(audio: AudioField) -> (r: Result<ClientEvent, RealtimeError>)
    ensures
        match r {
            Ok(ev) => append_audio_of(audio@) == Ok::<ClientEventFacts, Seq<char>>(ev@),
            Err(e) => append_audio_of(audio@) == Err::<ClientEventFacts, Seq<char>>(e.message@),
        },
{
    match audio {
        AudioField::Unreadable(e) => Err(error_concat("invalid JSON: ", e.as_str())),
        AudioField::NotText => Err(error_text("append event missing audio")),
        AudioField::TooLong => Err(error_text("audio payload too large")),
        AudioField::Decoded(Err(e)) => Err(error_concat("invalid base64 audio: ", e.as_str())),
        AudioField::Decoded(Ok(bytes)) => {
            if bytes.len() > MAX_APPEND_AUDIO_BYTES {
                Err(error_text("audio payload too large"))
            } else {
                Ok(ClientEvent::AppendAudio(bytes))
            }
        },
    }
}

/// The session update that the fields of a `session.update` event ask for.
pub fn session_update_from(fields: EventFields) -> (r: Result<SessionUpdateConfig, RealtimeError>)
    ensures
        match r {
            Ok(c) => session_update_of(fields@) == Ok::<SessionUpdateFacts, Seq<char>>(c@),
            Err(e) => session_update_of(fields@) == Err::<SessionUpdateFacts, Seq<char>>(e.message@),
        },
{
    let ghost f = fields@;
    let EventFields {
        event_type: _,
        audio: _,
        session,
        session_type,
        inclusions: list,
        turn_detection,
        rate,
        format_type,
        model,
        language,
        delay,
    } = fields;
    match session {
        Err(e) => return Err(error_concat("invalid JSON: ", e.as_str())),
        Ok(JsonKind::Missing) => return Err(error_text("session.update missing session")),
        Ok(JsonKind::Object) => {},
        Ok(_) => return Err(error_text("session must be an object")),
    }
    let transcription_ok = match session_type {
        Err(e) => return Err(error_concat("invalid JSON: ", e.as_str())),
        Ok(JsonKind::Missing) => true,
        Ok(JsonKind::Str(t)) => str_eq(t.as_str(), "transcription"),
        Ok(_) => false,
    };
    if !transcription_ok {
        return Err(error_text("only transcription sessions are supported"));
    }
    let inclusions = match inclusions(list) {
        Ok(v) => v,
        Err(e) => return Err(e),
    };
    let turn_ok = match turn_detection {
        Err(e) => return Err(error_concat("invalid JSON: ", e.as_str())),
        Ok(JsonKind::Missing) => true,
        Ok(JsonKind::Null) => true,
        Ok(_) => false,
    };
    if !turn_ok {
        return Err(error_text("session.audio.input.turn_detection is not supported"));
    }
    let input_sample_rate = match input_sample_rate(rate) {
        Ok(v) => v,
        Err(e) => return Err(e),
    };
    let input_audio_format_type = match optional_string(
        format_type,
        "session.audio.input.format.type",
    ) {
        Ok(v) => v,
        Err(e) => return Err(e),
    };
    let transcription_model = match optional_string(
        model,
        "session.audio.input.transcription.model",
    ) {
        Ok(v) => v,
        Err(e) => return Err(e),
    };
    let language = match optional_string(language, "session.audio.input.transcription.language") {
        Ok(v) => v,
        Err(e) => return Err(e),
    };
    let delay = match optional_string(delay, "session.audio.input.transcription.delay") {
        Ok(v) => v,
        Err(e) => return Err(e),
    };
    Ok(
        SessionUpdateConfig {
            input_sample_rate,
            input_audio_format_type,
            transcription_model,
            language,
            delay,
            inclusions,
        },
    )
}

/// The event that the fields of a client event make.
pub fn event_from_fields(fields: EventFields) -> (r: Result<ClientEvent, RealtimeError>)
    ensures
        match r {
            Ok(ev) => event_of_fields(fields@) == Ok::<ClientEventFacts, Seq<char>>(ev@),
            Err(e) => event_of_fields(fields@) == Err::<ClientEventFacts, Seq<char>>(e.message@),
        },
{
    let event_type = match &fields.event_type {
        Err(e) => return Err(error_concat("invalid JSON: ", e.as_str())),
        Ok(JsonKind::Str(t)) => t.clone(),
        Ok(_) => return Err(error_text("client event missing type")),
    };
    let t = event_type.as_str();
    if str_eq(t, "session.update") {
        match session_update_from(fields) {
            Ok(c) => Ok(ClientEvent::SessionUpdate(c)),
            Err(e) => Err(e),
        }
    } else if str_eq(t, "input_audio_buffer.append") || str_eq(t, "session.input_audio_buffer.append") {
        append_audio(fields.audio)
    } else if str_eq(t, "input_audio_buffer.commit") || str_eq(t, "session.input_audio_buffer.commit") {
        Ok(ClientEvent::Commit)
    } else if str_eq(t, "input_audio_buffer.clear") || str_eq(t, "session.input_audio_buffer.clear") {
        Ok(ClientEvent::Clear)
    } else if str_eq(t, "session.close") {
        Ok(ClientEvent::Close)
    } else {
        Err(error_concat("unsupported client event type: ", t))
    }
}

/// Decodes a client event from its raw JSON text.
pub fn decode_client_event(raw: &str) -> (r: Result<ClientEvent, RealtimeError>)
    ensures
        match r {
            Ok(ev) => client_event_spec(raw@) == Ok::<ClientEventFacts, Seq<char>>(ev@),
            Err(e) => client_event_spec(raw@) == Err::<ClientEventFacts, Seq<char>>(e.message@),
        },
{
    if raw.as_bytes().len() > MAX_CLIENT_EVENT_BYTES {
        return Err(error_text("client event too large"));
    }
    event_from_fields(read_event_fields(raw))
}

// ---------------------------------------------------------------------------
// The session

/// The state of one realtime transcription session.
#[derive(Debug, Clone, PartialEq, Eq)]
pub struct RealtimeSession {
    pub id: String,
    pub model: String,
    pub input_sample_rate: u32,
    pub input_audio_format_type: String,
    pub language: Option<String>,
}

/// The contents of a [`RealtimeSession`].
pub ghost struct SessionFacts {
    pub id: Seq<char>,
    pub model: Seq<char>,
    pub input_sample_rate: u32,
    pub input_audio_format_type: Seq<char>,
    pub language: Option<Seq<char>>,
}

impl View for RealtimeSession {
    type V = SessionFacts;

    open spec fn view(&self) -> SessionFacts {
        SessionFacts {
            id: self.id@,
            model: self.model@,
            input_sample_rate: self.input_sample_rate,
            input_audio_format_type: self.input_audio_format_type@,
            language: opt_chars(self.language),
        }
    }
}

/// The input format that sessions use: 16-bit little-endian PCM.
pub open spec fn pcm_format() -> Seq<char> {
    "audio/pcm"@
}

/// A fresh session: 24 kHz PCM input, no language.
pub open spec fn fresh_session(id: Seq<char>, model: Seq<char>) -> SessionFacts {
    SessionFacts {
        id: id,
        model: model,
        input_sample_rate: 24_000,
        input_audio_format_type: pcm_format(),
        language: None,
    }
}

/// Whether `id` is `prefix` followed by 32 lower-case hexadecimal digits.
pub open spec fn is_random_id(id: Seq<char>, prefix: Seq<char>) -> bool {
    &&& id.len() == prefix.len() + 32
    &&& id.subrange(0, prefix.len() as int) == prefix
    &&& forall|i: int| prefix.len() <= i < id.len() ==> is_lower_hex(#[trigger] id[i])
}

pub(crate) fn random_id(prefix: &str) -> (r: String)
    ensures
        is_random_id(r@, prefix@),
{
    let mut id = prefix.to_owned();
    let suffix = uuid_simple();
    id.append(suffix.as_str());
    assert(id@.subrange(0, prefix@.len() as int) =~= prefix@);
    assert forall|i: int| prefix@.len() <= i < id@.len() implies is_lower_hex(#[trigger] id@[i]) by {
        assert(id@[i] == suffix@[i - prefix@.len()]);
    }
    id
}

impl RealtimeSession {
    /// A session for `model` with the given id.
    pub fn with_id(id: &str, model: &str) -> (r: RealtimeSession)
        ensures
            r@ == fresh_session(id@, model@),
    {
        RealtimeSession {
            id: id.to_owned(),
            model: model.to_owned(),
            input_sample_rate: 24_000,
            input_audio_format_type: "audio/pcm".to_owned(),
            language: None,
        }
    }

    /// A session for `model` with a fresh random id, `sess_` and 32
    /// hexadecimal digits.
    pub fn new(model: &str) -> (r: RealtimeSession)
        ensures
            is_random_id(r@.id, "sess_"@),
            r@ == fresh_session(r@.id, model@),
    {
        let id = random_id("sess_");
        RealtimeSession::with_id(id.as_str(), model)
    }
}

/// The session that an update turns `session` into, with whether it
/// set the input sample rate; or the message of its refusal. A refused
/// update changes nothing.
pub open spec fn apply_update_spec(
    update: SessionUpdateFacts,
    session: SessionFacts,
    configured_model: Seq<char>,
) -> Result<(SessionFacts, bool), Seq<char>> {
    if update.input_audio_format_type matches Some(f) && f != pcm_format() {
        Err("only audio/pcm input format is supported"@)
    } else if update.transcription_model matches Some(m) && m != configured_model {
        Err("only transcription model `"@ + configured_model + "` is supported"@)
    } else if update.inclusions.len() > 0 {
        Err("session."@ + inclusions_name() + " is not supported by SeedRelay"@)
    } else if update.delay is Some {
        Err("transcription delay is not supported by SeedRelay"@)
    } else {
        Ok(
            (
                SessionFacts {
                    id: session.id,
                    model: configured_model,
                    input_sample_rate: match update.input_sample_rate {
                        Some(rate) => rate,
                        None => session.input_sample_rate,
                    },
                    input_audio_format_type: match update.input_audio_format_type {
                        Some(f) => f,
                        None => session.input_audio_format_type,
                    },
                    language: match update.language {
                        Some(l) => Some(l),
                        None => session.language,
                    },
                },
                update.input_sample_rate is Some,
            ),
        )
    }
}

/// What an accepted update does to a session. Each setting the update
/// carries replaces the session's; each it leaves out keeps the session's
/// own, the input sample rate included; the id stays, the model becomes
/// the served one, and the update reports a rate change exactly when it
/// carries a rate.
pub proof fn law_update_keeps_what_it_omits(
    update: SessionUpdateFacts,
    session: SessionFacts,
    configured_model: Seq<char>,
)
    requires
        apply_update_spec(update, session, configured_model) is Ok,
    ensures
        ({
            let (next, rate_set) = apply_update_spec(update, session, configured_model)->Ok_0;
            &&& update.input_sample_rate is None ==> next.input_sample_rate == session.input_sample_rate
            &&& update.input_sample_rate matches Some(r) ==> next.input_sample_rate == r
            &&& rate_set <==> update.input_sample_rate is Some
            &&& update.language is None ==> next.language == session.language
            &&& update.language matches Some(l) ==> next.language == Some(l)
            &&& update.input_audio_format_type is None ==> next.input_audio_format_type
                == session.input_audio_format_type
            &&& next.id == session.id
            &&& next.model == configured_model
        }),
{
}

/// Which updates are accepted: those whose input format, if any, is
/// `audio/pcm`, whose transcription model, if any, is the served one, and
/// that ask for no extra outputs and no transcription delay. A refused
/// update leaves the session untouched by construction of its result.
pub proof fn law_update_acceptance(
    update: SessionUpdateFacts,
    session: SessionFacts,
    configured_model: Seq<char>,
)
    ensures
        apply_update_spec(update, session, configured_model) is Ok <==> (
        (update.input_audio_format_type is None || update.input_audio_format_type == Some(
            "audio/pcm"@,
        )) && (update.transcription_model is None || update.transcription_model == Some(
            configured_model,
        )) && update.inclusions.len() == 0 && update.delay is None),
{
}

/// Applying an accepted update a second time changes nothing more.
pub proof fn law_update_is_idempotent(
    update: SessionUpdateFacts,
    session: SessionFacts,
    configured_model: Seq<char>,
)
    requires
        apply_update_spec(update, session, configured_model) is Ok,
    ensures
        ({
            let (next, rate_set) = apply_update_spec(update, session, configured_model)->Ok_0;
            apply_update_spec(update, next, configured_model) == Ok::<(SessionFacts, bool), Seq<char>>(
                (next, rate_set),
            )
        }),
{
}

/// Two accepted updates in a row: a rate set by the first survives a
/// second one that carries no rate.
pub proof fn law_rate_survives_later_updates(
    first: SessionUpdateFacts,
    second: SessionUpdateFacts,
    session: SessionFacts,
    configured_model: Seq<char>,
)
    requires
        first.input_sample_rate is Some,
        second.input_sample_rate is None,
        apply_update_spec(first, session, configured_model) is Ok,
        apply_update_spec(second, apply_update_spec(first, session, configured_model)->Ok_0.0, configured_model) is Ok,
    ensures
        apply_update_spec(
            second,
            apply_update_spec(first, session, configured_model)->Ok_0.0,
            configured_model,
        )->Ok_0.0.input_sample_rate == first.input_sample_rate->0,
{
}

impl SessionUpdateConfig {
    /// Applies this update to `session` for a server that serves
    /// `configured_model`. Returns whether the input sample rate was set.
    /// A refused update leaves `session` as it was.
    pub fn apply_to(&self, session: &mut RealtimeSession, configured_model: &str) -> (r: Result<
        bool,
        RealtimeError,
    >)
        ensures
            match r {
                Ok(changed) => apply_update_spec(self@, old(session)@, configured_model@) == Ok::<
                    (SessionFacts, bool),
                    Seq<char>,
                >((final(session)@, changed)),
                Err(e) => apply_update_spec(self@, old(session)@, configured_model@) == Err::<
                    (SessionFacts, bool),
                    Seq<char>,
                >(e.message@) && final(session)@ == old(session)@,
            },
    {
        if let Some(format_type) = &self.input_audio_format_type {
            if !str_eq(format_type.as_str(), "audio/pcm") {
                return Err(error_text("only audio/pcm input format is supported"));
            }
        }
        if let Some(model) = &self.transcription_model {
            if !str_eq(model.as_str(), configured_model) {
                let mut message = "only transcription model `".to_owned();
                message.append(configured_model);
                message.append("` is supported");
                return Err(error_from(message));
            }
        }
        if self.inclusions.len() > 0 {
            return Err(session_inclusions_message(" is not supported by SeedRelay"));
        }
        if self.delay.is_some() {
            return Err(error_text("transcription delay is not supported by SeedRelay"));
        }
        if let Some(format_type) = &self.input_audio_format_type {
            session.input_audio_format_type = format_type.clone();
        }
        session.model = configured_model.to_owned();
        if let Some(language) = &self.language {
            session.language = Some(language.clone());
        }
        if let Some(rate) = self.input_sample_rate {
            session.input_sample_rate = rate;
            return Ok(true);
        }
        Ok(false)
    }
}

// ---------------------------------------------------------------------------
// Server events, as compact JSON text with the keys in sorted order

/// The `session` object of a session event.
pub open spec fn session_text(session: SessionFacts) -> Seq<char> {
    "{\"audio\":{\"input\":{\"format\":{\"rate\":"@ + decimal(session.input_sample_rate as nat)
        + ",\"type\":"@ + json_str(session.input_audio_format_type)
        + "},\"transcription\":{"@ + match session.language {
        Some(l) => "\"language\":"@ + json_str(l) + ","@,
        None => Seq::empty(),
    } + "\"model\":"@ + json_str(session.model) + "}}},\"id\":"@ + json_str(session.id)
        + ",\"model\":"@ + json_str(session.model) + ",\"type\":\"transcription\"}"@
}

/// A session event of type `kind` (`session.created` or
/// `session.updated`).
pub open spec fn session_event_text(kind: Seq<char>, event_id: Seq<char>, session: SessionFacts) -> Seq<char> {
    "{\"event_id\":"@ + json_str(event_id) + ",\"session\":"@ + session_text(session)
        + ",\"type\":"@ + json_str(kind) + "}"@
}

/// An `error` event that carries `message`.
pub open spec fn error_event_text(event_id: Seq<char>, message: Seq<char>) -> Seq<char> {
    "{\"error\":{\"code\":\"invalid_request\",\"message\":"@ + json_str(message)
        + ",\"type\":\"invalid_request_error\"},\"event_id\":"@ + json_str(event_id)
        + ",\"type\":\"error\"}"@
}

/// The event that acknowledges a commit of the audio buffer.
pub open spec fn committed_event_text(item_id: Seq<char>) -> Seq<char> {
    "{\"item_id\":"@ + json_str(item_id) + ",\"type\":\"input_audio_buffer.committed\"}"@
}

/// The event that acknowledges a clear of the audio buffer.
pub open spec fn cleared_event_text(event_id: Seq<char>) -> Seq<char> {
    "{\"event_id\":"@ + json_str(event_id) + ",\"type\":\"input_audio_buffer.cleared\"}"@
}

/// A transcript delta: the new text `delta` and the whole interim
/// transcript so far.
pub open spec fn delta_event_text(item_id: Seq<char>, delta: Seq<char>, transcript: Seq<char>) -> Seq<
    char,
> {
    "{\"content_index\":0,\"delta\":"@ + json_str(delta) + ",\"item_id\":"@ + json_str(item_id)
        + ",\"transcript\":"@ + json_str(transcript)
        + ",\"type\":\"conversation.item.input_audio_transcription.delta\"}"@
}

/// A completed transcript.
pub open spec fn completed_event_text(item_id: Seq<char>, transcript: Seq<char>) -> Seq<char> {
    "{\"content_index\":0,\"item_id\":"@ + json_str(item_id) + ",\"transcript\":"@ + json_str(
        transcript,
    ) + ",\"type\":\"conversation.item.input_audio_transcription.completed\"}"@
}

/// Whether `id` is an event id: `event_` and 32 hexadecimal digits.
pub open spec fn is_event_id(id: Seq<char>) -> bool {
    is_random_id(id, "event_"@)
}

/// A fresh event id, `event_` and 32 random hexadecimal digits.
pub fn event_id() -> (r: String)
    ensures
        is_event_id(r@),
{
    random_id("event_")
}

#[verifier::rlimit(40)]
fn push_session(out: &mut String, session: &RealtimeSession)
    ensures
        final(out)@ == old(out)@ + session_text(session@),
{
    out.append("{\"audio\":{\"input\":{\"format\":{\"rate\":");
    push_decimal(out, session.input_sample_rate as u64);
    out.append(",\"type\":");
    push_json_str(out, session.input_audio_format_type.as_str());
    out.append("},\"transcription\":{");
    let ghost before_language = out@;
    match &session.language {
        Some(language) => {
            out.append("\"language\":");
            push_json_str(out, language.as_str());
            out.append(",");
        },
        None => {},
    }
    let ghost language_text = match session@.language {
        Some(l) => "\"language\":"@ + json_str(l) + ","@,
        None => Seq::<char>::empty(),
    };
    assert(out@ =~= before_language + language_text);
    out.append("\"model\":");
    push_json_str(out, session.model.as_str());
    out.append("}}},\"id\":");
    push_json_str(out, session.id.as_str());
    out.append(",\"model\":");
    push_json_str(out, session.model.as_str());
    out.append(",\"type\":\"transcription\"}");
    assert(final(out)@ =~= old(out)@ + session_text(session@));
}

/// The `session_event_text` of `kind` with a given event id.
pub fn session_event_with_id(kind: &str, event_id: &str, session: &RealtimeSession) -> (r: String)
    ensures
        r@ == session_event_text(kind@, event_id@, session@),
{
    let mut out = "{\"event_id\":".to_owned();
    push_json_str(&mut out, event_id);
    out.append(",\"session\":");
    push_session(&mut out, session);
    out.append(",\"type\":");
    push_json_str(&mut out, kind);
    out.append("}");
    assert(out@ =~= session_event_text(kind@, event_id@, session@));
    out
}

/// The `session.created` event for `session`, with a fresh event id.
pub fn session_created_event(session: &RealtimeSession) -> (r: String)
    ensures
        exists|id: Seq<char>|
            is_event_id(id) && r@ == session_event_text("session.created"@, id, session@),
{
    let id = event_id();
    session_event_with_id("session.created", id.as_str(), session)
}

/// The `session.updated` event for `session`, with a fresh event id.
pub fn session_updated_event(session: &RealtimeSession) -> (r: String)
    ensures
        exists|id: Seq<char>|
            is_event_id(id) && r@ == session_event_text("session.updated"@, id, session@),
{
    let id = event_id();
    session_event_with_id("session.updated", id.as_str(), session)
}

/// The `error` event for `message` with a given event id.
pub fn error_event_with_id(event_id: &str, message: &str) -> (r: String)
    ensures
        r@ == error_event_text(event_id@, message@),
{
    let mut out = "{\"error\":{\"code\":\"invalid_request\",\"message\":".to_owned();
    push_json_str(&mut out, message);
    out.append(",\"type\":\"invalid_request_error\"},\"event_id\":");
    push_json_str(&mut out, event_id);
    out.append(",\"type\":\"error\"}");
    assert(out@ =~= error_event_text(event_id@, message@));
    out
}

/// The `error` event for `message`, with a fresh event id.
pub fn error_event(message: &str) -> (r: String)
    ensures
        exists|id: Seq<char>| is_event_id(id) && r@ == error_event_text(id, message@),
{
    let id = event_id();
    error_event_with_id(id.as_str(), message)
}

/// The event that acknowledges a commit of the audio buffer.
pub fn input_audio_committed_event(item_id: &str) -> (r: String)
    ensures
        r@ == committed_event_text(item_id@),
{
    let mut out = "{\"item_id\":".to_owned();
    push_json_str(&mut out, item_id);
    out.append(",\"type\":\"input_audio_buffer.committed\"}");
    assert(out@ =~= committed_event_text(item_id@));
    out
}

/// The clear acknowledgement with a given event id.
pub fn input_audio_cleared_event_with_id(event_id: &str) -> (r: String)
    ensures
        r@ == cleared_event_text(event_id@),
{
    let mut out = "{\"event_id\":".to_owned();
    push_json_str(&mut out, event_id);
    out.append(",\"type\":\"input_audio_buffer.cleared\"}");
    assert(out@ =~= cleared_event_text(event_id@));
    out
}

/// The event that acknowledges a clear of the audio buffer, with a fresh
/// event id.
pub fn input_audio_cleared_event() -> (r: String)
    ensures
        exists|id: Seq<char>| is_event_id(id) && r@ == cleared_event_text(id),
{
    let id = event_id();
    input_audio_cleared_event_with_id(id.as_str())
}

/// A transcript delta event: the new text and the interim transcript so
/// far.
pub fn transcript_delta_event(item_id: &str, delta: &str, transcript: &str) -> (r: String)
    ensures
        r@ == delta_event_text(item_id@, delta@, transcript@),
{
    let mut out = "{\"content_index\":0,\"delta\":".to_owned();
    push_json_str(&mut out, delta);
    out.append(",\"item_id\":");
    push_json_str(&mut out, item_id);
    out.append(",\"transcript\":");
    push_json_str(&mut out, transcript);
    out.append(",\"type\":\"conversation.item.input_audio_transcription.delta\"}");
    assert(out@ =~= delta_event_text(item_id@, delta@, transcript@));
    out
}

/// A completed transcript event.
pub fn transcript_completed_event(item_id: &str, transcript: &str) -> (r: String)
    ensures
        r@ == completed_event_text(item_id@, transcript@),
{
    let mut out = "{\"content_index\":0,\"item_id\":".to_owned();
    push_json_str(&mut out, item_id);
    out.append(",\"transcript\":");
    push_json_str(&mut out, transcript);
    out.append(",\"type\":\"conversation.item.input_audio_transcription.completed\"}");
    assert(out@ =~= completed_event_text(item_id@, transcript@));
    out
}

} // verus!
