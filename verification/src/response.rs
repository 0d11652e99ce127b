//! What the ASR service answers, and the events that the answers are.
use vstd::prelude::*;

use crate::json::{decimal, json_at, json_lookup, push_decimal, JsonFact, JsonKind};
use crate::text::{is_white_space, is_whitespace_char};
use crate::url::str_eq;

verus! {

/// The fields of a service answer that decide what it is.
#[derive(Clone, Debug, PartialEq, Eq)]
pub struct WireResponse {
    pub message_type: String,
    pub status_message: String,
    pub result_json: String,
}

/// What a service answer is.
#[derive(Clone, Debug, PartialEq, Eq)]
pub enum AsrEvent {
    TaskStarted,
    SessionStarted,
    SessionFinished,
    VadStart,
    InterimResult(String),
    FinalResult(String),
    Heartbeat,
    Error(String),
}

/// The contents of an [`AsrEvent`].
pub ghost enum AsrEventFacts {
    TaskStarted,
    SessionStarted,
    SessionFinished,
    VadStart,
    InterimResult(Seq<char>),
    FinalResult(Seq<char>),
    Heartbeat,
    Error(Seq<char>),
}

impl View for AsrEvent {
    type V = AsrEventFacts;

    open spec fn view(&self) -> AsrEventFacts {
        match self {
            AsrEvent::TaskStarted => AsrEventFacts::TaskStarted,
            AsrEvent::SessionStarted => AsrEventFacts::SessionStarted,
            AsrEvent::SessionFinished => AsrEventFacts::SessionFinished,
            AsrEvent::VadStart => AsrEventFacts::VadStart,
            AsrEvent::InterimResult(t) => AsrEventFacts::InterimResult(t@),
            AsrEvent::FinalResult(t) => AsrEventFacts::FinalResult(t@),
            AsrEvent::Heartbeat => AsrEventFacts::Heartbeat,
            AsrEvent::Error(m) => AsrEventFacts::Error(m@),
        }
    }
}

/// One entry of the `results` list of a result payload, as far as it is
/// read: each field is `None` where it is absent or of another kind.
#[derive(Clone, Debug, PartialEq, Eq)]
pub struct ResultItem {
    pub text: Option<String>,
    pub nonstream_result: Option<bool>,
    pub is_interim: Option<bool>,
    pub is_vad_finished: Option<bool>,
}

/// A result payload, as far as it is read.
#[derive(Clone, Debug, PartialEq, Eq)]
pub struct ResultPayload {
    /// `extra.vad_start`, where it is a boolean.
    pub vad_start: Option<bool>,
    /// `results`, where it is an array.
    pub results: Option<Vec<ResultItem>>,
}

/// The contents of a [`ResultItem`].
pub ghost struct ItemFacts {
    pub text: Option<Seq<char>>,
    pub nonstream_result: Option<bool>,
    pub is_interim: Option<bool>,
    pub is_vad_finished: Option<bool>,
}

/// The contents of a [`ResultPayload`].
pub ghost struct PayloadFacts {
    pub vad_start: Option<bool>,
    pub results: Option<Seq<ItemFacts>>,
}

impl View for ResultItem {
    type V = ItemFacts;

    open spec fn view(&self) -> ItemFacts {
        ItemFacts {
            text: match self.text {
                Some(t) => Some(t@),
                None => None,
            },
            nonstream_result: self.nonstream_result,
            is_interim: self.is_interim,
            is_vad_finished: self.is_vad_finished,
        }
    }
}

impl View for ResultPayload {
    type V = PayloadFacts;

    open spec fn view(&self) -> PayloadFacts {
        PayloadFacts {
            vad_start: self.vad_start,
            results: match self.results {
                Some(items) => Some(items@.map_values(|item: ResultItem| item@)),
                None => None,
            },
        }
    }
}

// ---------------------------------------------------------------------------
// Classifying a payload

/// Whether every character of `s` is white space (so that `s.trim()` is
/// empty).
pub open spec fn is_blank(s: Seq<char>) -> bool {
    forall|i: int| 0 <= i < s.len() ==> is_white_space(#[trigger] s[i])
}

/// The text that an entry adds to the transcript: its text, unless that
/// is blank or absent.
pub open spec fn item_text(item: ItemFacts) -> Seq<char> {
    match item.text {
        Some(t) => if is_blank(t) {
            Seq::empty()
        } else {
            t
        },
        None => Seq::empty(),
    }
}

/// The texts of the entries, joined.
pub open spec fn joined_text(items: Seq<ItemFacts>) -> Seq<char>
    decreases items.len(),
{
    if items.len() == 0 {
        Seq::empty()
    } else {
        joined_text(items.drop_last()) + item_text(items.last())
    }
}

/// Whether an entry marks its text final: a non-streaming result, or one
/// that is not interim and ends a voice activity segment.
pub open spec fn item_is_final(item: ItemFacts) -> bool {
    item.nonstream_result == Some(true) || (item.is_interim == Some(false) && item.is_vad_finished
        == Some(true))
}

/// What a result payload is: the start of speech, a heartbeat when it
/// holds no results, or the joined text, final when any entry is.
pub open spec fn classify_payload_spec(payload: PayloadFacts) -> AsrEventFacts {
    if payload.vad_start == Some(true) {
        AsrEventFacts::VadStart
    } else {
        match payload.results {
            None => AsrEventFacts::Heartbeat,
            Some(items) => if items.len() == 0 {
                AsrEventFacts::Heartbeat
            } else if exists|i: int| 0 <= i < items.len() && item_is_final(#[trigger] items[i]) {
                AsrEventFacts::FinalResult(joined_text(items))
            } else {
                AsrEventFacts::InterimResult(joined_text(items))
            },
        }
    }
}

/// Which results are final. A payload that neither starts speech nor is
/// empty is a final result exactly when one of its entries is a
/// non-streaming result, or is not interim and ends a voice activity
/// segment; otherwise it is an interim result. In particular entries that
/// are all interim, none of them non-streaming, give an interim result,
/// whatever their `is_vad_finished`.
pub proof fn law_result_finality(payload: PayloadFacts)
    requires
        payload.vad_start != Some(true),
        payload.results matches Some(items) && items.len() > 0,
    ensures
        ({
            let items = payload.results->0;
            let any_final = exists|i: int|
                0 <= i < items.len() && ((#[trigger] items[i]).nonstream_result == Some(true) || (
                items[i].is_interim == Some(false) && items[i].is_vad_finished == Some(true)));
            &&& any_final ==> classify_payload_spec(payload) is FinalResult
            &&& !any_final ==> classify_payload_spec(payload) is InterimResult
            &&& (forall|i: int|
                0 <= i < items.len() ==> (#[trigger] items[i]).is_interim == Some(true)
                    && items[i].nonstream_result != Some(true)) ==> classify_payload_spec(
                payload,
            ) is InterimResult
        }),
{
    let items = payload.results->0;
    if exists|i: int|
        0 <= i < items.len() && ((#[trigger] items[i]).nonstream_result == Some(true) || (
        items[i].is_interim == Some(false) && items[i].is_vad_finished == Some(true))) {
        let i = choose|i: int|
            0 <= i < items.len() && ((#[trigger] items[i]).nonstream_result == Some(true) || (
            items[i].is_interim == Some(false) && items[i].is_vad_finished == Some(true)));
        assert(item_is_final(items[i]));
    } else {
        assert forall|i: int| 0 <= i < items.len() implies !item_is_final(#[trigger] items[i]) by {}
    }
}

/// What a payload that is not a result is: one that starts speech is
/// `VadStart`, whatever its results; otherwise one without results, or with
/// an empty list, is a heartbeat. A result carries the joined texts.
pub proof fn law_payload_kinds(payload: PayloadFacts)
    ensures
        payload.vad_start == Some(true) ==> classify_payload_spec(payload) == AsrEventFacts::VadStart,
        payload.vad_start != Some(true) && (payload.results is None || (payload.results is Some
            && payload.results->0.len() == 0)) ==> classify_payload_spec(payload)
            == AsrEventFacts::Heartbeat,
        payload.vad_start != Some(true) && payload.results is Some && payload.results->0.len() > 0
            ==> match classify_payload_spec(payload) {
            AsrEventFacts::FinalResult(t) => t == joined_text(payload.results->0),
            AsrEventFacts::InterimResult(t) => t == joined_text(payload.results->0),
            _ => false,
        },
{
}

/// What an answer of the service is, by its type: the three lifecycle
/// types are themselves; a failed task or session is an error carrying the
/// status message, or the type when there is none; any other answer with
/// no result is a heartbeat, and one whose result is not JSON is an error.
pub proof fn law_answer_kinds(
    message_type: Seq<char>,
    status_message: Seq<char>,
    result_json: Seq<char>,
)
    ensures
        message_type == "TaskStarted"@ ==> classify_spec(message_type, status_message, result_json)
            == AsrEventFacts::TaskStarted,
        message_type == "SessionStarted"@ ==> classify_spec(
            message_type,
            status_message,
            result_json,
        ) == AsrEventFacts::SessionStarted,
        message_type == "SessionFinished"@ ==> classify_spec(
            message_type,
            status_message,
            result_json,
        ) == AsrEventFacts::SessionFinished,
        (message_type == "TaskFailed"@ || message_type == "SessionFailed"@) && status_message.len()
            > 0 ==> classify_spec(message_type, status_message, result_json) == AsrEventFacts::Error(
            status_message,
        ),
        (message_type == "TaskFailed"@ || message_type == "SessionFailed"@) && status_message.len()
            == 0 ==> classify_spec(message_type, status_message, result_json) == AsrEventFacts::Error(
            message_type,
        ),
        message_type != "TaskStarted"@ && message_type != "SessionStarted"@ && message_type
            != "SessionFinished"@ && message_type != "TaskFailed"@ && message_type
            != "SessionFailed"@ ==> (result_json.len() == 0 ==> classify_spec(
            message_type,
            status_message,
            result_json,
        ) == AsrEventFacts::Heartbeat) && (result_json.len() > 0 && payload_spec(result_json) is None
            ==> classify_spec(message_type, status_message, result_json) == AsrEventFacts::Error(
            "invalid result_json"@,
        )),
{
    reveal_strlit("TaskStarted");
    reveal_strlit("SessionStarted");
    reveal_strlit("SessionFinished");
    reveal_strlit("TaskFailed");
    reveal_strlit("SessionFailed");
    assert("TaskStarted"@.len() == 11 && "SessionStarted"@.len() == 14 && "SessionFinished"@.len()
        == 15 && "TaskFailed"@.len() == 10 && "SessionFailed"@.len() == 13);
}

/// The text of a result is the non-blank texts of its entries, in order:
/// the result for the entries of `a` followed by those of `b` carries the
/// text for `a` followed by the text for `b`, and one entry carries its own
/// text unless that is blank.
pub proof fn law_result_text(a: Seq<ItemFacts>, b: Seq<ItemFacts>)
    ensures
        joined_text(a + b) == joined_text(a) + joined_text(b),
        a.len() == 1 ==> joined_text(a) == match a[0].text {
            Some(t) => if forall|i: int| 0 <= i < t.len() ==> is_white_space(#[trigger] t[i]) {
                Seq::empty()
            } else {
                t
            },
            None => Seq::<char>::empty(),
        },
    decreases b.len(),
{
    if b.len() == 0 {
        assert(a + b =~= a);
        assert(joined_text(b) =~= Seq::<char>::empty());
        assert(joined_text(a) + Seq::<char>::empty() =~= joined_text(a));
    } else {
        law_result_text(a, b.drop_last());
        assert((a + b).drop_last() =~= a + b.drop_last());
        assert((a + b).last() == b.last());
        assert(joined_text(a + b.drop_last()) + item_text(b.last()) =~= joined_text(a) + (joined_text(
            b.drop_last(),
        ) + item_text(b.last())));
    }
    if a.len() == 1 {
        assert(a.drop_last() =~= Seq::<ItemFacts>::empty());
        assert(joined_text(a.drop_last()) =~= Seq::<char>::empty());
        assert(Seq::<char>::empty() + item_text(a.last()) =~= item_text(a.last()));
    }
}

/// Whether `s.trim()` is empty.
pub fn is_blank_str(s: &str) -> (r: bool)
    ensures
        r == is_blank(s@),
{
    for c in it: s.chars()
        invariant
            it.seq() == s@,
            forall|k: int| 0 <= k < it.index() ==> is_white_space(#[trigger] s@[k]),
    {
        if !is_whitespace_char(c) {
            return false;
        }
    }
    true
}

/// Classifies a result payload.
pub fn classify_payload(payload: &ResultPayload) -> (r: AsrEvent)
    ensures
        r@ == classify_payload_spec(payload@),
{
    if payload.vad_start == Some(true) {
        return AsrEvent::VadStart;
    }
    let items = match &payload.results {
        None => return AsrEvent::Heartbeat,
        Some(items) => items,
    };
    if items.len() == 0 {
        return AsrEvent::Heartbeat;
    }
    let ghost facts = items@.map_values(|item: ResultItem| item@);
    let mut text = String::new();
    let mut is_final = false;
    let mut i: usize = 0;
    while i < items.len()
        invariant
            facts == items@.map_values(|item: ResultItem| item@),
            i <= items@.len(),
            text@ == joined_text(facts.take(i as int)),
            is_final <==> exists|k: int| 0 <= k < i && item_is_final(#[trigger] facts[k]),
        decreases items@.len() - i,
    {
        let item = &items[i];
        let ghost before = text@;
        match &item.text {
            Some(t) => {
                if !is_blank_str(t.as_str()) {
                    text.append(t.as_str());
                }
            },
            None => {},
        }
        let item_final = item.nonstream_result == Some(true) || (item.is_interim == Some(false)
            && item.is_vad_finished == Some(true));
        proof {
            assert(facts[i as int] == item@);
            assert(facts.take(i + 1).drop_last() =~= facts.take(i as int));
            assert(text@ =~= before + item_text(item@));
            assert(item_final == item_is_final(facts[i as int]));
        }
        is_final = is_final || item_final;
        i = i + 1;
    }
    assert(facts.take(i as int) =~= facts);
    if is_final {
        AsrEvent::FinalResult(text)
    } else {
        AsrEvent::InterimResult(text)
    }
}

// ---------------------------------------------------------------------------
// Reading a payload out of JSON text

/// A boolean found by a lookup.
pub open spec fn found_bool(found: Result<JsonFact, Seq<char>>) -> Option<bool> {
    match found {
        Ok(JsonFact::Bool(b)) => Some(b),
        _ => None,
    }
}

/// A string found by a lookup.
pub open spec fn found_str(found: Result<JsonFact, Seq<char>>) -> Option<Seq<char>> {
    match found {
        Ok(JsonFact::Str(s)) => Some(s),
        _ => None,
    }
}

/// The JSON Pointer to field `field` of entry `i` of `results`.
pub open spec fn item_pointer(i: nat, field: Seq<char>) -> Seq<char> {
    "/results/"@ + decimal(i) + field
}

/// Entry `i` of `results` in the JSON text `text`.
pub open spec fn item_spec(text: Seq<char>, i: nat) -> ItemFacts {
    ItemFacts {
        text: found_str(json_lookup(text, item_pointer(i, "/text"@))),
        nonstream_result: found_bool(json_lookup(text, item_pointer(i, "/extra/nonstream_result"@))),
        is_interim: found_bool(json_lookup(text, item_pointer(i, "/is_interim"@))),
        is_vad_finished: found_bool(json_lookup(text, item_pointer(i, "/is_vad_finished"@))),
    }
}

/// The result payload in the JSON text `text`; `None` when it is not JSON.
pub open spec fn payload_spec(text: Seq<char>) -> Option<PayloadFacts> {
    if json_lookup(text, ""@) is Err {
        None
    } else {
        Some(
            PayloadFacts {
                vad_start: found_bool(json_lookup(text, "/extra/vad_start"@)),
                results: match json_lookup(text, "/results"@) {
                    Ok(JsonFact::Array(n)) => Some(Seq::new(n, |i: int| item_spec(text, i as nat))),
                    _ => None,
                },
            },
        )
    }
}

fn lookup_bool(text: &str, pointer: &str) -> (r: Option<bool>)
    ensures
        r == found_bool(json_lookup(text@, pointer@)),
{
    match json_at(text, pointer) {
        Ok(JsonKind::Bool(b)) => Some(b),
        _ => None,
    }
}

fn lookup_str(text: &str, pointer: &str) -> (r: Option<String>)
    ensures
        match r {
            Some(s) => found_str(json_lookup(text@, pointer@)) == Some(s@),
            None => found_str(json_lookup(text@, pointer@)) is None,
        },
{
    match json_at(text, pointer) {
        Ok(JsonKind::Str(s)) => Some(s),
        _ => None,
    }
}

fn item_pointer_text(i: usize, field: &str) -> (r: String)
    ensures
        r@ == item_pointer(i as nat, field@),
{
    let mut out = "/results/".to_owned();
    push_decimal(&mut out, i as u64);
    out.append(field);
    out
}

fn read_item(text: &str, i: usize) -> (r: ResultItem)
    ensures
        r@ == item_spec(text@, i as nat),
{
    let item_text = lookup_str(text, item_pointer_text(i, "/text").as_str());
    let nonstream_result = lookup_bool(text, item_pointer_text(i, "/extra/nonstream_result").as_str());
    let is_interim = lookup_bool(text, item_pointer_text(i, "/is_interim").as_str());
    let is_vad_finished = lookup_bool(text, item_pointer_text(i, "/is_vad_finished").as_str());
    ResultItem { text: item_text, nonstream_result, is_interim, is_vad_finished }
}

/// Reads the result payload out of the JSON text `text`; `None` when the
/// text is not JSON.
pub fn read_result_payload(text: &str) -> (r: Option<ResultPayload>)
    ensures
        match r {
            Some(p) => payload_spec(text@) == Some(p@),
            None => payload_spec(text@) is None,
        },
{
    if json_at(text, "").is_err() {
        return None;
    }
    let vad_start = lookup_bool(text, "/extra/vad_start");
    let results = match json_at(text, "/results") {
        Ok(JsonKind::Array(n)) => {
            let mut items: Vec<ResultItem> = Vec::new();
            let mut i: usize = 0;
            while i < n
                invariant
                    i <= n,
                    items@.len() == i,
                    forall|k: int| 0 <= k < i ==> #[trigger] items@[k]@ == item_spec(text@, k as nat),
                decreases n - i,
            {
                items.push(read_item(text, i));
                i = i + 1;
            }
            assert(items@.map_values(|item: ResultItem| item@) =~= Seq::new(
                n as nat,
                |k: int| item_spec(text@, k as nat),
            ));
            Some(items)
        },
        _ => None,
    };
    Some(ResultPayload { vad_start, results })
}

// ---------------------------------------------------------------------------
// Classifying an answer

/// What an answer with these fields is. Lifecycle message types decide by
/// themselves; a failure carries its status message, or its type where
/// that is empty; an empty payload is a heartbeat, one that is not JSON
/// an error, and the rest is classified by [`classify_payload_spec`].
pub open spec fn classify_spec(
    message_type: Seq<char>,
    status_message: Seq<char>,
    result_json: Seq<char>,
) -> AsrEventFacts {
    if message_type == "TaskStarted"@ {
        AsrEventFacts::TaskStarted
    } else if message_type == "SessionStarted"@ {
        AsrEventFacts::SessionStarted
    } else if message_type == "SessionFinished"@ {
        AsrEventFacts::SessionFinished
    } else if message_type == "TaskFailed"@ || message_type == "SessionFailed"@ {
        AsrEventFacts::Error(
            if status_message.len() == 0 {
                message_type
            } else {
                status_message
            },
        )
    } else if result_json.len() == 0 {
        AsrEventFacts::Heartbeat
    } else {
        match payload_spec(result_json) {
            None => AsrEventFacts::Error("invalid result_json"@),
            Some(payload) => classify_payload_spec(payload),
        }
    }
}

/// Classifies an answer of the service.
pub fn classify_response(response: &WireResponse) -> (r: AsrEvent)
    ensures
        r@ == classify_spec(
            response.message_type@,
            response.status_message@,
            response.result_json@,
        ),
{
    let message_type = response.message_type.as_str();
    if str_eq(message_type, "TaskStarted") {
        return AsrEvent::TaskStarted;
    }
    if str_eq(message_type, "SessionStarted") {
        return AsrEvent::SessionStarted;
    }
    if str_eq(message_type, "SessionFinished") {
        return AsrEvent::SessionFinished;
    }
    if str_eq(message_type, "TaskFailed") || str_eq(message_type, "SessionFailed") {
        if response.status_message.as_str().is_empty() {
            return AsrEvent::Error(response.message_type.clone());
        }
        return AsrEvent::Error(response.status_message.clone());
    }
    if response.result_json.as_str().is_empty() {
        return AsrEvent::Heartbeat;
    }
    match read_result_payload(response.result_json.as_str()) {
        None => AsrEvent::Error("invalid result_json".to_owned()),
        Some(payload) => classify_payload(&payload),
    }
}

} // verus!
