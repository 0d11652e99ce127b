//! The decisions of the realtime server: transcript bookkeeping, the API key
//! check, the HTTP and WebSocket framing it reads, and the state machine of
//! one connection.
use vstd::prelude::*;
use vstd::utf8::*;

use crate::realtime::{
    apply_update_spec, cleared_event_text, client_event_spec, committed_event_text,
    completed_event_text, decode_client_event, delta_event_text, error_event_text,
    error_event_with_id, fresh_session, input_audio_cleared_event_with_id,
    input_audio_committed_event, is_random_id, random_id, realtime_target_check,
    realtime_target_decodable, realtime_target_is_decodable, session_event_text,
    session_event_with_id, transcript_completed_event, transcript_delta_event,
    validate_realtime_target, ClientEvent, ClientEventFacts, RealtimeError, RealtimeSession,
    SessionFacts, SessionUpdateFacts, REALTIME_PATH,
};
use crate::response::{AsrEvent, AsrEventFacts};
use crate::text::{
    chars_of, find_char_from, find_first, is_white_space, is_whitespace_char, lemma_find_first,
    lemma_trim_start_skip, opt_chars, push_char, split_every, split_first, string_bytes,
    string_of_chars, trim, trim_start, trim_str, utf8_to_string,
};
use crate::url::{
    ascii_chars, encode_bytes, law_query_component_roundtrip, lemma_ascii_chars_encode,
    lemma_encode_bytes_ascii, lemma_encode_bytes_plain, lemma_find_byte,
    lemma_find_first as lemma_find_first_byte, lemma_url_decode_encode_bytes,
    lemma_url_decode_plain, lookup_pairs, lookup_pairs_decodable, pair_decodable, pair_match,
    query_decodable, query_is_decodable, query_lookup, query_param, split_all, split_once_or_all,
    str_eq, target_query, url_decoded_bytes, url_escapes_whole,
};
use crate::web::WebRuntimeConfig;

pub use crate::url::encode_query_component;

verus! {

broadcast use {encode_utf8_valid_utf8, encode_utf8_decode_utf8};

// ---------------------------------------------------------------------------
// Transcripts

/// Whether `p` is a prefix of `s`.
pub open spec fn is_prefix(p: Seq<char>, s: Seq<char>) -> bool {
    p.len() <= s.len() && s.take(p.len() as int) == p
}

/// The text that a new interim snapshot `current` adds to the previous one:
/// what follows it when the previous snapshot is a prefix, the whole new
/// snapshot when the text was rewritten.
pub open spec fn delta_spec(previous: Seq<char>, current: Seq<char>) -> Seq<char> {
    if is_prefix(previous, current) {
        current.skip(previous.len() as int)
    } else {
        current
    }
}

/// The new text of an interim snapshot; `previous` becomes the snapshot.
pub fn interim_delta(previous: &mut String, current: &str) -> (delta: String)
    ensures
        delta@ == delta_spec(old(previous)@, current@),
        final(previous)@ == current@,
{
    let cur = chars_of(current);
    let pre = chars_of(previous.as_str());
    let mut prefix = pre.len() <= cur.len();
    let mut i: usize = 0;
    let ghost mut bad: int = 0;
    while i < pre.len() && prefix
        invariant
            pre@ == old(previous)@,
            cur@ == current@,
            prefix ==> pre@.len() <= cur@.len(),
            i <= pre@.len(),
            prefix ==> forall|k: int| 0 <= k < i ==> pre@[k] == cur@[k],
            !prefix ==> pre@.len() > cur@.len() || (0 <= bad < pre@.len() && pre@[bad] != cur@[bad]),
        decreases pre@.len() - i,
    {
        if pre[i] != cur[i] {
            prefix = false;
            proof {
                bad = i as int;
            }
        }
        i = i + 1;
    }
    proof {
        if prefix {
            assert(cur@.take(pre@.len() as int) =~= pre@);
        } else if pre@.len() <= cur@.len() {
            assert(cur@.take(pre@.len() as int)[bad] != pre@[bad]);
        }
    }
    let delta = if prefix {
        string_of_chars(&cur, pre.len(), cur.len())
    } else {
        current.to_owned()
    };
    proof {
        if prefix {
            assert(cur@.subrange(pre@.len() as int, cur@.len() as int) =~= cur@.skip(
                pre@.len() as int,
            ));
        }
    }
    *previous = current.to_owned();
    delta
}

/// Everything that a run of interim snapshots adds, delta by delta,
/// starting from `previous`.
pub open spec fn deltas_from(previous: Seq<char>, snapshots: Seq<Seq<char>>) -> Seq<char>
    decreases snapshots.len(),
{
    if snapshots.len() == 0 {
        Seq::empty()
    } else {
        delta_spec(previous, snapshots[0]) + deltas_from(snapshots[0], snapshots.drop_first())
    }
}

/// Whether each snapshot extends the one before it, the first extending
/// `previous`.
pub open spec fn snapshots_grow(previous: Seq<char>, snapshots: Seq<Seq<char>>) -> bool {
    &&& snapshots.len() > 0 ==> is_prefix(previous, snapshots[0])
    &&& forall|i: int|
        0 <= i < snapshots.len() - 1 ==> is_prefix(#[trigger] snapshots[i], snapshots[i + 1])
}

/// When interim snapshots only grow, the deltas sent for them, appended to
/// the text already shown, give the last snapshot.
pub proof fn law_deltas_rebuild_snapshot(previous: Seq<char>, snapshots: Seq<Seq<char>>)
    requires
        snapshots.len() > 0,
        snapshots_grow(previous, snapshots),
    ensures
        previous + deltas_from(previous, snapshots) == snapshots.last(),
    decreases snapshots.len(),
{
    let first = snapshots[0];
    assert(previous + first.skip(previous.len() as int) =~= first);
    if snapshots.len() > 1 {
        let rest = snapshots.drop_first();
        assert forall|i: int| 0 <= i < rest.len() - 1 implies is_prefix(
            #[trigger] rest[i],
            rest[i + 1],
        ) by {
            assert(rest[i] == snapshots[i + 1]);
            assert(rest[i + 1] == snapshots[i + 2]);
        }
        assert(rest[0] == snapshots[1]);
        assert(is_prefix(snapshots[0], snapshots[1]));
        law_deltas_rebuild_snapshot(first, rest);
        assert(rest.last() == snapshots.last());
        assert(previous + deltas_from(previous, snapshots) =~= (previous + first.skip(
            previous.len() as int,
        )) + deltas_from(first, rest));
    } else {
        assert(snapshots.drop_first() =~= Seq::<Seq<char>>::empty());
        assert(deltas_from(first, snapshots.drop_first()) =~= Seq::<char>::empty());
    }
}

/// Appends a final result to the transcript and returns the transcript so
/// far; an empty result changes nothing and returns `None`.
pub fn append_final_transcript(transcript: &mut String, text: &str) -> (r: Option<String>)
    ensures
        text@.len() == 0 ==> r is None && final(transcript)@ == old(transcript)@,
        text@.len() > 0 ==> (final(transcript)@ == old(transcript)@ + text@ && (r matches Some(t)
            && t@ == final(transcript)@)),
{
    if text.is_empty() {
        return None;
    }
    transcript.append(text);
    Some(transcript.clone())
}

// ---------------------------------------------------------------------------
// The API key

/// Whether two characters are equal up to ASCII case.
pub open spec fn same_ignoring_ascii_case(x: char, y: char) -> bool {
    x == y || ('A' <= x <= 'Z' && (x as u32) + 32 == y as u32) || ('A' <= y <= 'Z' && (y as u32)
        + 32 == x as u32)
}

/// Equality up to ASCII case.
pub open spec fn eq_ignore_ascii_case(a: Seq<char>, b: Seq<char>) -> bool {
    a.len() == b.len() && forall|i: int| 0 <= i < a.len() ==> same_ignoring_ascii_case(
        #[trigger] a[i],
        b[i],
    )
}

/// Whether an `Authorization` header value is `Bearer <key>`: trimmed, split
/// at its first space, the scheme `bearer` in any case and the trimmed
/// token equal to the key.
pub open spec fn bearer_matches(authorization: Seq<char>, key: Seq<char>) -> bool {
    match split_first(trim(authorization), ' ') {
        Some((scheme, token)) => eq_ignore_ascii_case(scheme, "bearer"@) && trim(token) == key,
        None => false,
    }
}

/// Whether a realtime request carries the API key that the server
/// requires as a bearer token or as the `api_key` query parameter. A
/// server without a key accepts every request.
pub open spec fn header_or_query_accepted(
    authorization: Option<Seq<char>>,
    target: Seq<char>,
    expected: Option<Seq<char>>,
) -> bool {
    match expected {
        None => true,
        Some(key) => (authorization matches Some(a) && bearer_matches(a, key)) || (query_lookup(
            target_query(encode_utf8(target)),
            "api_key"@,
        ) == Some(key)),
    }
}

/// The WebSocket subprotocol that carries `key`.
pub open spec fn key_subprotocol(key: Seq<char>) -> Seq<char> {
    "openai-insecure-api-key."@ + key
}

/// Whether a `Sec-WebSocket-Protocol` value, a comma-separated list, offers
/// `name` among its trimmed entries.
pub open spec fn offers_subprotocol(protocols: Seq<char>, name: Seq<char>) -> bool {
    let parts = split_every(protocols, ',');
    exists|i: int| 0 <= i < parts.len() && trim(#[trigger] parts[i]) == name
}

/// Whether a realtime request carries the API key that the server
/// requires: as a bearer token, as the `api_key` query parameter, or as the
/// subprotocol `openai-insecure-api-key.<key>`. A server without a key
/// accepts every request.
pub open spec fn api_key_accepted(
    authorization: Option<Seq<char>>,
    protocols: Option<Seq<char>>,
    target: Seq<char>,
    expected: Option<Seq<char>>,
) -> bool {
    header_or_query_accepted(authorization, target, expected) || match (expected, protocols) {
        (Some(key), Some(p)) => offers_subprotocol(p, key_subprotocol(key)),
        _ => false,
    }
}

/// The message of a refused API key.
pub open spec fn api_key_refusal() -> Seq<char> {
    "missing or invalid API key"@
}

fn same_char_ignoring_ascii_case(x: char, y: char) -> (r: bool)
    ensures
        r == same_ignoring_ascii_case(x, y),
{
    x == y || ('A' <= x && x <= 'Z' && (x as u32) + 32 == y as u32) || ('A' <= y && y <= 'Z' && (
    y as u32) + 32 == x as u32)
}

fn is_bearer_scheme(v: &Vec<char>, end: usize) -> (r: bool)
    requires
        end <= v@.len(),
    ensures
        r == eq_ignore_ascii_case(v@.take(end as int), "bearer"@),
{
    let bearer = chars_of("bearer");
    if end != bearer.len() {
        return false;
    }
    let mut i: usize = 0;
    while i < end
        invariant
            end == bearer@.len(),
            bearer@ == "bearer"@,
            end <= v@.len(),
            i <= end,
            forall|k: int| 0 <= k < i ==> same_ignoring_ascii_case(#[trigger] v@[k], bearer@[k]),
        decreases end - i,
    {
        if !same_char_ignoring_ascii_case(v[i], bearer[i]) {
            assert(v@.take(end as int)[i as int] == v@[i as int]);
            return false;
        }
        i = i + 1;
    }
    assert forall|k: int| 0 <= k < end implies same_ignoring_ascii_case(
        #[trigger] v@.take(end as int)[k],
        bearer@[k],
    ) by {
        assert(v@.take(end as int)[k] == v@[k]);
    }
    true
}

fn bearer_token_matches(authorization: &str, key: &str) -> (r: bool)
    ensures
        r == bearer_matches(authorization@, key@),
{
    let trimmed = trim_str(authorization);
    let v = chars_of(trimmed.as_str());
    assert(v@.skip(0) =~= v@);
    match find_char_from(&v, 0, ' ') {
        None => false,
        Some(i) => {
            if !is_bearer_scheme(&v, i) {
                return false;
            }
            let n = v.len();
            let token = string_of_chars(&v, i + 1, n);
            assert(token@ =~= v@.skip(i + 1));
            let token = trim_str(token.as_str());
            str_eq(token.as_str(), key)
        },
    }
}

/// Whether a `Sec-WebSocket-Protocol` value offers `name`.
pub fn offers_protocol(protocols: &str, name: &str) -> (r: bool)
    ensures
        r == offers_subprotocol(protocols@, name@),
{
    let v = chars_of(protocols);
    let n = v.len();
    let mut start: usize = 0;
    let ghost mut done: Seq<Seq<char>> = Seq::empty();
    assert(v@.skip(0) =~= v@);
    loop
        invariant
            v@ == protocols@,
            n == v@.len(),
            start <= n,
            split_every(protocols@, ',') == done + split_every(v@.skip(start as int), ','),
            forall|i: int| 0 <= i < done.len() ==> trim(#[trigger] done[i]) != name@,
        decreases n - start,
    {
        let ghost rest = v@.skip(start as int);
        let found = find_char_from(&v, start, ',');
        let end = match found {
            Some(i) => i,
            None => n,
        };
        let piece = string_of_chars(&v, start, end);
        let trimmed = trim_str(piece.as_str());
        let hit = str_eq(trimmed.as_str(), name);
        let ghost next = done.push(piece@);
        proof {
            lemma_find_first(rest, ',');
            match find_first(rest, ',') {
                Some(k) => {
                    assert(piece@ =~= rest.take(k as int));
                    assert(rest.skip((k + 1) as int) =~= v@.skip(end + 1));
                    assert(split_every(rest, ',') =~= seq![piece@] + split_every(
                        v@.skip(end + 1),
                        ',',
                    ));
                    assert(done + split_every(rest, ',') =~= next + split_every(
                        v@.skip(end + 1),
                        ',',
                    ));
                },
                None => {
                    assert(piece@ =~= rest);
                    assert(split_every(rest, ',') =~= seq![piece@]);
                    assert(done + split_every(rest, ',') =~= next);
                },
            }
        }
        if hit {
            proof {
                let parts = split_every(protocols@, ',');
                assert(parts[done.len() as int] == piece@);
            }
            return true;
        }
        proof {
            done = next;
        }
        match found {
            None => {
                proof {
                    let parts = split_every(protocols@, ',');
                    assert(parts =~= done);
                }
                return false;
            },
            Some(i) => {
                start = i + 1;
            },
        }
    }
}

/// The subprotocol the server answers a handshake with: `realtime` when
/// the client offers it, else none.
pub open spec fn chosen_subprotocol(protocols: Option<Seq<char>>) -> Option<Seq<char>> {
    match protocols {
        Some(p) => if offers_subprotocol(p, "realtime"@) {
            Some("realtime"@)
        } else {
            None
        },
        None => None,
    }
}

/// Checks the API key of a realtime request: a bearer `authorization`
/// header or an `api_key` query parameter in `target` must equal
/// `expected_api_key`, when one is set.
pub fn validate_api_key(
    authorization: Option<&str>,
    target: &str,
    expected_api_key: Option<&str>,
) -> (r: Result<(), RealtimeError>)
    requires
        expected_api_key is Some ==> query_decodable(
            target_query(encode_utf8(target@)),
            "api_key"@,
        ),
    ensures
        r is Ok <==> header_or_query_accepted(
            match authorization {
                Some(a) => Some(a@),
                None => None,
            },
            target@,
            match expected_api_key {
                Some(k) => Some(k@),
                None => None,
            },
        ),
        r matches Err(e) ==> e.message@ == api_key_refusal(),
{
    let expected = match expected_api_key {
        None => return Ok(()),
        Some(k) => k,
    };
    let bearer = match authorization {
        Some(a) => bearer_token_matches(a, expected),
        None => false,
    };
    let query = match query_param(target, "api_key") {
        Some(v) => str_eq(v.as_str(), expected),
        None => false,
    };
    if bearer || query {
        Ok(())
    } else {
        Err(RealtimeError { message: "missing or invalid API key".to_owned() })
    }
}

// ---------------------------------------------------------------------------
// Redacting request targets for logs

/// A query pair with its value hidden when its key is `api_key`.
pub open spec fn redact_pair(pair: Seq<char>) -> Seq<char> {
    let key = match split_first(pair, '=') {
        Some((k, _)) => k,
        None => pair,
    };
    if key == "api_key"@ {
        "api_key=***"@
    } else {
        pair
    }
}

/// The pairs, each redacted, joined by `&`.
pub open spec fn join_redacted(pairs: Seq<Seq<char>>) -> Seq<char>
    decreases pairs.len(),
{
    if pairs.len() == 0 {
        Seq::empty()
    } else if pairs.len() == 1 {
        redact_pair(pairs[0])
    } else {
        join_redacted(pairs.drop_last()) + seq!['&'] + redact_pair(pairs.last())
    }
}

/// A request target with the value of every `api_key` query pair hidden.
pub open spec fn redact_spec(target: Seq<char>) -> Seq<char> {
    match split_first(target, '?') {
        None => target,
        Some((path, query)) => path + seq!['?'] + join_redacted(split_every(query, '&')),
    }
}

fn redacted_pair(pair: &str) -> (r: String)
    ensures
        r@ == redact_pair(pair@),
{
    let v = chars_of(pair);
    assert(v@.skip(0) =~= v@);
    let key_end = match find_char_from(&v, 0, '=') {
        Some(i) => i,
        None => v.len(),
    };
    let key = string_of_chars(&v, 0, key_end);
    proof {
        lemma_find_first(v@, '=');
        assert(key@ =~= v@.take(key_end as int));
        if find_first(v@, '=') is None {
            assert(v@.take(key_end as int) =~= v@);
        }
    }
    if str_eq(key.as_str(), "api_key") {
        "api_key=***".to_owned()
    } else {
        pair.to_owned()
    }
}

/// Hides the value of every `api_key` query parameter of a request target,
/// for logs.
pub fn redact_api_key(target: &str) -> (r: String)
    ensures
        r@ == redact_spec(target@),
{
    let v = chars_of(target);
    assert(v@.skip(0) =~= v@);
    let n = v.len();
    let q = match find_char_from(&v, 0, '?') {
        None => return target.to_owned(),
        Some(q) => q,
    };
    let mut out = string_of_chars(&v, 0, q);
    push_char(&mut out, '?');
    let ghost path = v@.take(q as int);
    let ghost query = v@.skip(q + 1);
    assert(out@ =~= path + seq!['?']);
    let mut start: usize = q + 1;
    let mut first = true;
    let ghost mut done: Seq<Seq<char>> = Seq::empty();
    loop
        invariant
            v@ == target@,
            n == v@.len(),
            q < v@.len(),
            find_first(v@, '?') == Some(q as nat),
            path == v@.take(q as int),
            q + 1 <= start <= v@.len(),
            query == v@.skip(q + 1),
            split_every(query, '&') == done + split_every(v@.skip(start as int), '&'),
            first <==> done.len() == 0,
            out@ == path + seq!['?'] + join_redacted(done),
        decreases v@.len() - start,
    {
        let ghost rest = v@.skip(start as int);
        let found = find_char_from(&v, start, '&');
        let end = match found {
            Some(i) => i,
            None => v.len(),
        };
        let pair = string_of_chars(&v, start, end);
        let red = redacted_pair(pair.as_str());
        if !first {
            push_char(&mut out, '&');
        }
        out.append(red.as_str());
        proof {
            lemma_find_first(rest, '&');
            let pieces = split_every(rest, '&');
            match find_first(rest, '&') {
                Some(k) => {
                    assert(pair@ =~= rest.take(k as int));
                    assert(pieces =~= seq![pair@] + split_every(rest.skip((k + 1) as int), '&'));
                    assert(rest.skip((k + 1) as int) =~= v@.skip(end + 1));
                },
                None => {
                    assert(rest.take(rest.len() as int) =~= rest);
                    assert(pair@ =~= rest);
                    assert(pieces =~= seq![pair@]);
                },
            }
            let next = done.push(pair@);
            assert(next.drop_last() =~= done);
            if done.len() == 0 {
                assert(join_redacted(next) == redact_pair(pair@));
            }
            assert(out@ =~= path + seq!['?'] + join_redacted(next));
            assert(split_every(query, '&') =~= next + split_every(
                v@.skip(start as int).skip((end - start + 1) as int),
                '&',
            ) || found is None);
            done = next;
        }
        first = false;
        match found {
            None => {
                proof {
                    assert(split_every(query, '&') =~= done);
                    lemma_find_first(v@, '?');
                    assert(split_first(target@, '?') == Some((path, query)));
                }
                return out;
            },
            Some(i) => {
                proof {
                    assert(v@.skip(start as int).skip((i - start + 1) as int) =~= v@.skip(i + 1));
                }
                start = i + 1;
            },
        }
    }
}

// ---------------------------------------------------------------------------
// The server's configuration and its startup banner

/// What the server needs at run time: the model it serves and the API key
/// it requires, if any.
#[derive(Debug, Clone)]
pub struct RuntimeConfig {
    pub model: String,
    pub api_key: Option<String>,
}

/// The request target of the realtime endpoint for `model`.
pub open spec fn realtime_target_text(model: Seq<char>) -> Seq<char> {
    "/v1/realtime?model="@ + ascii_chars(encode_bytes(encode_utf8(model)))
}

/// The realtime URL that a client connects to at `bind`.
pub open spec fn realtime_url_text(bind: Seq<char>, model: Seq<char>) -> Seq<char> {
    "ws://"@ + bind + realtime_target_text(model)
}

/// The lines that the server prints when it is ready.
pub open spec fn startup_text(bind: Seq<char>, model: Seq<char>, auth: bool, web_enabled: bool) -> Seq<
    Seq<char>,
> {
    seq![
        "SeedRelay ready"@,
        "  Realtime  "@ + realtime_url_text(bind, model),
        "  Model     "@ + model,
        "  Auth      "@ + if auth {
            "API key required"@
        } else {
            "disabled"@
        },
        "  Web UI    "@ + if web_enabled {
            "http://"@ + bind + "/"@
        } else {
            "disabled"@
        },
    ]
}

impl RuntimeConfig {
    /// The configuration for `model`, requiring `api_key` when it is set.
    pub fn new(model: String, api_key: Option<String>) -> (r: RuntimeConfig)
        ensures
            r.model@ == model@,
            opt_chars(r.api_key) == opt_chars(api_key),
    {
        RuntimeConfig { model, api_key }
    }

    /// What the web UI is told: the model, and whether a key is required.
    pub fn web_config(&self) -> (r: WebRuntimeConfig)
        ensures
            r.model@ == self.model@,
            opt_chars(r.api_key) == opt_chars(self.api_key),
    {
        WebRuntimeConfig { model: self.model.clone(), api_key: self.api_key.clone() }
    }

    /// The realtime URL at the bind address `bind` (`host:port`).
    pub fn realtime_url(&self, bind: &str) -> (r: String)
        ensures
            r@ == realtime_url_text(bind@, self.model@),
    {
        let mut out = "ws://".to_owned();
        out.append(bind);
        out.append("/v1/realtime?model=");
        let encoded = encode_query_component(self.model.as_str());
        out.append(encoded.as_str());
        assert(out@ =~= realtime_url_text(bind@, self.model@));
        out
    }

    /// The lines printed when the server is ready. They name the key only by
    /// whether there is one.
    pub fn startup_lines(&self, bind: &str, web_enabled: bool) -> (r: Vec<String>)
        ensures
            r@.map_values(|l: String| l@) == startup_text(
                bind@,
                self.model@,
                self.api_key is Some,
                web_enabled,
            ),
    {
        let mut lines: Vec<String> = Vec::new();
        lines.push("SeedRelay ready".to_owned());
        let mut realtime = "  Realtime  ".to_owned();
        realtime.append(self.realtime_url(bind).as_str());
        lines.push(realtime);
        let mut model = "  Model     ".to_owned();
        model.append(self.model.as_str());
        lines.push(model);
        let mut auth = "  Auth      ".to_owned();
        if self.api_key.is_some() {
            auth.append("API key required");
        } else {
            auth.append("disabled");
        }
        lines.push(auth);
        let mut web = "  Web UI    ".to_owned();
        if web_enabled {
            web.append("http://");
            web.append(bind);
            web.append("/");
        } else {
            web.append("disabled");
        }
        lines.push(web);
        let ghost expected = startup_text(bind@, self.model@, self.api_key is Some, web_enabled);
        assert(expected.len() == 5);
        assert(lines@[0]@ == expected[0]);
        assert(lines@[1]@ == expected[1]);
        assert(lines@[2]@ == expected[2]);
        assert(lines@[3]@ == expected[3]);
        assert(lines@[4]@ == expected[4]);
        assert(lines@.map_values(|l: String| l@) =~= startup_text(
            bind@,
            self.model@,
            self.api_key is Some,
            web_enabled,
        ));
        lines
    }
}

/// The realtime URL that the server prints names a target that its
/// handshake accepts for the served model, and one whose decoding cannot
/// fail.
pub proof fn law_printed_target_is_accepted(model: Seq<char>)
    ensures
        realtime_target_decodable(realtime_target_text(model)),
        realtime_target_check(realtime_target_text(model), model) == Ok::<(), Seq<char>>(()),
{
    let m = encode_utf8(model);
    let e = encode_bytes(m);
    lemma_encode_bytes_plain(m);
    lemma_encode_bytes_ascii(m);
    lemma_ascii_chars_encode(e);
    law_query_component_roundtrip(model);
    lemma_url_decode_encode_bytes(m);
    reveal_strlit("/v1/realtime?model=");
    reveal_strlit("/v1/realtime");
    reveal_strlit("model");
    let prefix = "/v1/realtime?model="@;
    let t = realtime_target_text(model);
    assert(prefix.len() == 19);
    assert(is_ascii_chars(t)) by {
        assert forall|i: int| 0 <= i < t.len() implies '\0' <= #[trigger] t[i] <= '\u{7f}' by {
            if i >= 19 {
                assert(t[i] == ascii_chars(e)[i - 19]);
                assert(e[i - 19] < 128);
            }
        }
    }
    let b = encode_utf8(t);
    is_ascii_chars_encode_utf8(t);
    assert(b.len() == t.len());
    assert forall|i: int| 0 <= i < 19 implies #[trigger] b[i] == prefix[i] as u8 by {
        assert(t[i] == prefix[i]);
    }
    assert forall|i: int| 19 <= i < b.len() implies #[trigger] b[i] == e[i - 19] by {
        assert(t[i] == ascii_chars(e)[i - 19]);
    }
    lemma_find_first_byte(b, 63, 12);
    let path = b.take(12);
    let query = b.skip(13);
    assert(path =~= encode_utf8(REALTIME_PATH@)) by {
        assert(is_ascii_chars(REALTIME_PATH@));
        is_ascii_chars_encode_utf8(REALTIME_PATH@);
    }
    assert(split_once_or_all(b, 63) == (path, query));
    assert(decode_utf8(path) == REALTIME_PATH@);
    assert forall|i: int| 0 <= i < query.len() implies #[trigger] query[i] != 38 by {
        if i >= 6 {
            assert(query[i] == e[i - 6]);
        }
    }
    lemma_find_byte(query, 38);
    assert(split_all(query, 38) =~= seq![query]);
    lemma_find_first_byte(query, 61, 5);
    let k = query.take(5);
    let v = query.skip(6);
    assert(v =~= e);
    assert(k =~= encode_utf8("model"@)) by {
        assert(is_ascii_chars("model"@));
        is_ascii_chars_encode_utf8("model"@);
    }
    assert forall|i: int| 0 <= i < k.len() implies #[trigger] k[i] != 43 && k[i] != 37 by {}
    lemma_url_decode_plain(k);
    assert(url_decoded_bytes(k) == "model"@);
    assert(url_decoded_bytes(v) == model);
    assert(pair_match(query, "model"@) == Some(model));
    assert(lookup_pairs(seq![query], "model"@) == Some(model));
    assert(url_escapes_whole(k));
    assert(pair_decodable(query, "model"@));
    assert(lookup_pairs_decodable(seq![query], "model"@));
}

/// A query pair `name=<value>` with the value percent-encoded.
pub open spec fn encoded_pair(name: Seq<char>, value: Seq<char>) -> Seq<u8> {
    encode_utf8(name) + seq![61u8] + encode_bytes(encode_utf8(value))
}

/// A name that percent-decoding leaves as it is and that holds no `=` or
/// `&`: ASCII letters, digits and `_`.
pub open spec fn is_plain_name(name: Seq<char>) -> bool {
    forall|i: int|
        0 <= i < name.len() ==> ('a' <= #[trigger] name[i] <= 'z' || 'A' <= name[i] <= 'Z' || '0'
            <= name[i] <= '9' || name[i] == '_')
}

/// What looking a key up in an encoded pair finds, and that the pair holds
/// no `&` and decodes whole.
pub proof fn lemma_encoded_pair(name: Seq<char>, value: Seq<char>, key: Seq<char>)
    requires
        is_plain_name(name),
    ensures
        forall|i: int|
            0 <= i < encoded_pair(name, value).len() ==> #[trigger] encoded_pair(name, value)[i]
                != 38,
        pair_match(encoded_pair(name, value), key) == if key == name {
            Some(value)
        } else {
            None::<Seq<char>>
        },
        pair_decodable(encoded_pair(name, value), key),
{
    let m = encode_utf8(value);
    let e = encode_bytes(m);
    lemma_encode_bytes_plain(m);
    lemma_encode_bytes_ascii(m);
    lemma_ascii_chars_encode(e);
    law_query_component_roundtrip(value);
    lemma_url_decode_encode_bytes(m);
    let n = encode_utf8(name);
    assert(is_ascii_chars(name));
    is_ascii_chars_encode_utf8(name);
    let pair = encoded_pair(name, value);
    assert forall|i: int| 0 <= i < n.len() implies #[trigger] pair[i] == n[i] && n[i] != 61 && n[i]
        != 38 && n[i] != 43 && n[i] != 37 by {
        assert(name[i] as u8 == n[i]);
    }
    assert(pair[n.len() as int] == 61u8);
    assert forall|i: int| 0 <= i < pair.len() implies #[trigger] pair[i] != 38 by {
        if i > n.len() {
            assert(pair[i] == e[i - n.len() - 1]);
        }
    }
    lemma_find_first_byte(pair, 61, n.len());
    assert(pair.take(n.len() as int) =~= n);
    assert(pair.skip((n.len() + 1) as int) =~= e);
    assert forall|i: int| 0 <= i < n.len() implies #[trigger] n[i] != 43 && n[i] != 37 by {
        assert(pair[i] == n[i]);
    }
    lemma_url_decode_plain(n);
    assert(url_decoded_bytes(n) == name);
    assert(url_decoded_bytes(e) == value);
    assert(url_escapes_whole(n));
}

/// The target of the realtime URL with `api_key=<key>` appended.
pub open spec fn keyed_target_text(model: Seq<char>, key: Seq<char>) -> Seq<char> {
    realtime_target_text(model) + "&api_key="@ + ascii_chars(encode_bytes(encode_utf8(key)))
}

/// The printed realtime URL with `&api_key=<key>` appended, the key
/// percent-encoded, passes the whole handshake of a server that serves
/// `model` and requires `key`, whatever `authorization` header and
/// subprotocols come with it.
pub proof fn law_keyed_target_is_accepted(
    model: Seq<char>,
    key: Seq<char>,
    authorization: Option<Seq<char>>,
    protocols: Option<Seq<char>>,
)
    ensures
        realtime_request_decodable(keyed_target_text(model, key), true),
        realtime_target_check(keyed_target_text(model, key), model) == Ok::<(), Seq<char>>(()),
        api_key_accepted(authorization, protocols, keyed_target_text(model, key), Some(key)),
{
    let e1 = encode_bytes(encode_utf8(model));
    let e2 = encode_bytes(encode_utf8(key));
    lemma_encode_bytes_ascii(encode_utf8(model));
    lemma_encode_bytes_ascii(encode_utf8(key));
    lemma_encode_bytes_plain(encode_utf8(model));
    reveal_strlit("/v1/realtime?model=");
    reveal_strlit("/v1/realtime");
    reveal_strlit("&api_key=");
    reveal_strlit("model");
    reveal_strlit("api_key");
    let t = keyed_target_text(model, key);
    let head = "/v1/realtime?model="@;
    let sep = "&api_key="@;
    let n1 = e1.len();
    assert(t.len() == 19 + n1 + 9 + e2.len());
    assert forall|i: int| 19 <= i < 19 + n1 implies #[trigger] t[i] == ascii_chars(e1)[i - 19] by {}
    assert forall|i: int| 19 + n1 + 9 <= i < t.len() implies #[trigger] t[i] == ascii_chars(e2)[i
        - 19 - n1 - 9] by {}
    assert(is_ascii_chars(t)) by {
        assert forall|i: int| 0 <= i < t.len() implies '\0' <= #[trigger] t[i] <= '\u{7f}' by {
            if 19 <= i < 19 + n1 {
                assert(t[i] == ascii_chars(e1)[i - 19]);
                assert(e1[i - 19] < 128);
            } else if 19 + n1 + 9 <= i {
                assert(t[i] == ascii_chars(e2)[i - 19 - n1 - 9]);
                assert(e2[i - 19 - n1 - 9] < 128);
            } else if 19 + n1 <= i {
                assert(t[i] == sep[i - 19 - n1]);
            }
        }
    }
    let b = encode_utf8(t);
    is_ascii_chars_encode_utf8(t);
    assert forall|i: int| 0 <= i < 19 implies #[trigger] b[i] == head[i] as u8 by {
        assert(t[i] == head[i]);
    }
    lemma_find_first_byte(b, 63, 12);
    let path = b.take(12);
    let query = b.skip(13);
    assert(path =~= encode_utf8(REALTIME_PATH@)) by {
        assert(is_ascii_chars(REALTIME_PATH@));
        is_ascii_chars_encode_utf8(REALTIME_PATH@);
    }
    assert(decode_utf8(path) == REALTIME_PATH@);
    let q1 = encoded_pair("model"@, model);
    let q2 = encoded_pair("api_key"@, key);
    assert(is_plain_name("model"@));
    assert(is_plain_name("api_key"@));
    lemma_encoded_pair("model"@, model, "model"@);
    lemma_encoded_pair("model"@, model, "api_key"@);
    lemma_encoded_pair("api_key"@, key, "model"@);
    lemma_encoded_pair("api_key"@, key, "api_key"@);
    is_ascii_chars_encode_utf8("model"@);
    is_ascii_chars_encode_utf8("api_key"@);
    assert(query =~= q1 + seq![38u8] + q2) by {
        assert forall|i: int| 0 <= i < query.len() implies #[trigger] query[i] == (q1 + seq![38u8]
            + q2)[i] by {
            let j = i + 13;
            assert(query[i] == b[j]);
            assert(b[j] == t[j] as u8);
            if i < 6 {
                assert(t[j] == head[j]);
            } else if i < 6 + n1 {
                assert(t[j] == ascii_chars(e1)[j - 19]);
            } else if i < 6 + n1 + 9 {
                assert(t[j] == sep[j - 19 - n1]);
            } else {
                assert(t[j] == ascii_chars(e2)[j - 19 - n1 - 9]);
            }
        }
    }
    lemma_first_amp(q1, q2);
    assert(split_once_or_all(b, 63) == (path, query));
    assert(lookup_pairs(seq![q1, q2], "model"@) == Some(model));
    assert(seq![q1, q2].drop_first() =~= seq![q2]);
    assert(seq![q2].drop_first() =~= Seq::<Seq<u8>>::empty());
    assert("model"@.len() == 5 && "api_key"@.len() == 7);
    assert(pair_match(q1, "api_key"@) is None);
    assert(seq![q1, q2][0] == q1);
    assert(seq![q2][0] == q2);
    assert(lookup_pairs(seq![q2], "api_key"@) == Some(key));
    assert(lookup_pairs(seq![q1, q2], "api_key"@) == Some(key));
    assert(lookup_pairs_decodable(seq![q1, q2], "model"@));
    assert(lookup_pairs_decodable(Seq::<Seq<u8>>::empty(), "api_key"@));
    assert(lookup_pairs_decodable(seq![q2], "api_key"@));
    assert(lookup_pairs_decodable(seq![q1, q2], "api_key"@));
}

/// Splitting two `&`-free pairs joined by `&` gives the two pairs.
pub proof fn lemma_first_amp(q1: Seq<u8>, q2: Seq<u8>)
    requires
        forall|i: int| 0 <= i < q1.len() ==> #[trigger] q1[i] != 38,
        forall|i: int| 0 <= i < q2.len() ==> #[trigger] q2[i] != 38,
    ensures
        split_all(q1 + seq![38u8] + q2, 38) == seq![q1, q2],
{
    let q = q1 + seq![38u8] + q2;
    assert(q[q1.len() as int] == 38u8);
    assert forall|j: int| 0 <= j < q1.len() implies #[trigger] q[j] != 38 by {
        assert(q[j] == q1[j]);
    }
    lemma_find_first_byte(q, 38, q1.len());
    assert(q.take(q1.len() as int) =~= q1);
    assert(q.skip((q1.len() + 1) as int) =~= q2);
    lemma_find_byte(q2, 38);
    assert(split_all(q2, 38) =~= seq![q2]);
    assert(split_all(q, 38) =~= seq![q1, q2]);
}

/// The startup lines of two configurations that serve the same model and
/// both require a key, or both do not, are the same: the key itself never
/// shows.
pub proof fn law_startup_lines_hide_key(
    bind: Seq<char>,
    model: Seq<char>,
    key: Option<Seq<char>>,
    other_key: Option<Seq<char>>,
    web_enabled: bool,
)
    requires
        key is Some <==> other_key is Some,
    ensures
        startup_text(bind, model, key is Some, web_enabled) == startup_text(
            bind,
            model,
            other_key is Some,
            web_enabled,
        ),
{
}

// ---------------------------------------------------------------------------
// WebSocket messages

/// A WebSocket message, as far as the server reads it.
#[derive(Debug, Clone, PartialEq, Eq)]
pub enum SocketMessage {
    Text(String),
    Binary(Vec<u8>),
    Close,
    /// A ping, a pong or a raw frame.
    Other,
}

/// The client event that a close message stands for.
pub open spec fn close_event_text() -> Seq<char> {
    "{\"type\":\"session.close\"}"@
}

/// The text of a client message: a text message as it is, a binary one
/// when it is UTF-8, a close message as a `session.close` event.
pub open spec fn socket_text_spec(message: SocketMessage) -> Result<Seq<char>, Seq<char>> {
    match message {
        SocketMessage::Text(t) => Ok(t@),
        SocketMessage::Binary(b) => if valid_utf8(b@) {
            Ok(decode_utf8(b@))
        } else {
            Err("binary message is not UTF-8"@)
        },
        SocketMessage::Close => Ok(close_event_text()),
        SocketMessage::Other => Err("unsupported websocket message"@),
    }
}

/// The text of a message from a client.
pub fn decode_socket_message(message: SocketMessage) -> (r: Result<String, RealtimeError>)
    ensures
        match r {
            Ok(t) => socket_text_spec(message) == Ok::<Seq<char>, Seq<char>>(t@),
            Err(e) => socket_text_spec(message) == Err::<Seq<char>, Seq<char>>(e.message@),
        },
{
    match message {
        SocketMessage::Text(t) => Ok(t),
        SocketMessage::Binary(b) => match utf8_to_string(b.as_slice()) {
            Some(t) => Ok(t),
            None => Err(RealtimeError { message: "binary message is not UTF-8".to_owned() }),
        },
        SocketMessage::Close => Ok("{\"type\":\"session.close\"}".to_owned()),
        SocketMessage::Other => Err(RealtimeError { message: "unsupported websocket message".to_owned() }),
    }
}

/// The bytes of a message from the ASR service: a binary message as it is,
/// a text message as UTF-8, nothing for the rest.
pub fn message_to_bytes(message: SocketMessage) -> (r: Vec<u8>)
    ensures
        r@ == match message {
            SocketMessage::Binary(b) => b@,
            SocketMessage::Text(t) => encode_utf8(t@),
            _ => Seq::empty(),
        },
{
    match message {
        SocketMessage::Binary(b) => b,
        SocketMessage::Text(t) => string_bytes(t.as_str()),
        _ => Vec::new(),
    }
}

// ---------------------------------------------------------------------------
// Plain HTTP framing

/// `b` with ASCII upper-case letters made lower-case.
pub open spec fn ascii_lower_byte(b: u8) -> u8 {
    if 65 <= b <= 90 {
        (b + 32) as u8
    } else {
        b
    }
}

/// Whether `pattern` occurs in `bytes` at `i`, ignoring the case of the
/// letters of `bytes`.
pub open spec fn occurs_at_lower(bytes: Seq<u8>, pattern: Seq<u8>, i: int) -> bool {
    0 <= i && i + pattern.len() <= bytes.len() && forall|j: int|
        0 <= j < pattern.len() ==> ascii_lower_byte(#[trigger] bytes[i + j]) == pattern[j]
}

/// Whether `pattern` occurs in `bytes`, ignoring the case of the letters of
/// `bytes`.
pub open spec fn contains_lower(bytes: Seq<u8>, pattern: Seq<u8>) -> bool {
    exists|i: int| occurs_at_lower(bytes, pattern, i)
}

/// Whether the start of a request asks to upgrade to a WebSocket: a header
/// line `upgrade: websocket`, in any case.
pub open spec fn is_upgrade_spec(peeked: Seq<u8>) -> bool {
    contains_lower(peeked, encode_utf8("\r\nupgrade: websocket"@)) || contains_lower(
        peeked,
        encode_utf8("\nupgrade: websocket"@),
    )
}

fn lower_byte(b: u8) -> (r: u8)
    ensures
        r == ascii_lower_byte(b),
{
    if 65 <= b && b <= 90 {
        b + 32
    } else {
        b
    }
}

fn find_lower(bytes: &[u8], pattern: &[u8]) -> (r: bool)
    ensures
        r == contains_lower(bytes@, pattern@),
{
    if pattern.len() > bytes.len() {
        proof {
            assert forall|i: int| !occurs_at_lower(bytes@, pattern@, i) by {}
        }
        return false;
    }
    let blen = bytes.len();
    let last = blen - pattern.len();
    let mut i: usize = 0;
    while i <= last
        invariant
            last == bytes@.len() - pattern@.len(),
            blen == bytes@.len(),
            pattern@.len() <= bytes@.len(),
            forall|k: int| 0 <= k < i ==> !occurs_at_lower(bytes@, pattern@, k),
        decreases last + 1 - i,
    {
        let mut j: usize = 0;
        let mut same = true;
        while j < pattern.len() && same
            invariant
                last == bytes@.len() - pattern@.len(),
                blen == bytes@.len(),
                pattern@.len() <= bytes@.len(),
                i <= last,
                j <= pattern@.len(),
                same <==> forall|k: int| 0 <= k < j ==> ascii_lower_byte(#[trigger] bytes@[i + k])
                    == pattern@[k],
            decreases pattern@.len() - j,
        {
            if lower_byte(bytes[i + j]) != pattern[j] {
                same = false;
            }
            j = j + 1;
        }
        if same {
            assert(occurs_at_lower(bytes@, pattern@, i as int));
            return true;
        }
        if i == last {
            proof {
                assert forall|k: int| !occurs_at_lower(bytes@, pattern@, k) by {
                    if 0 <= k <= i {
                    }
                }
            }
            return false;
        }
        i = i + 1;
    }
    false
}

/// Whether the bytes at the start of a connection ask for a WebSocket
/// upgrade.
pub fn is_websocket_upgrade(peeked: &[u8]) -> (r: bool)
    ensures
        r == is_upgrade_spec(peeked@),
{
    find_lower(peeked, "\r\nupgrade: websocket".as_bytes()) || find_lower(
        peeked,
        "\nupgrade: websocket".as_bytes(),
    )
}

/// How far the reading of a request head has come.
#[derive(Debug, Clone, Copy, PartialEq, Eq)]
pub enum HeaderProgress {
    /// The blank line that ends the head has arrived.
    Complete,
    /// More than 8192 bytes came without it.
    TooLarge,
    /// More is needed.
    More,
}

/// The largest request head, in bytes, that the server waits for.
pub const MAX_HEADER_BYTES: usize = 8192;

/// Whether `pattern` occurs in `bytes`.
pub open spec fn contains_bytes(bytes: Seq<u8>, pattern: Seq<u8>) -> bool {
    exists|i: int|
        0 <= i && i + pattern.len() <= bytes.len() && #[trigger] bytes.subrange(
            i,
            i + pattern.len(),
        ) == pattern
}

/// How far the reading of the request head `request` has come.
pub open spec fn header_progress_spec(request: Seq<u8>) -> HeaderProgress {
    if contains_bytes(request, seq![13u8, 10, 13, 10]) {
        HeaderProgress::Complete
    } else if request.len() > MAX_HEADER_BYTES {
        HeaderProgress::TooLarge
    } else {
        HeaderProgress::More
    }
}

/// How far the reading of the request head `request` has come.
pub fn header_progress(request: &[u8]) -> (r: HeaderProgress)
    ensures
        r == header_progress_spec(request@),
{
    let n = request.len();
    let mut i: usize = 0;
    while 4 <= n && i <= n - 4
        invariant
            n == request@.len(),
            forall|k: int|
                0 <= k < i ==> #[trigger] request@.subrange(k, k + 4) != seq![13u8, 10, 13, 10],
        decreases n - i,
    {
        if request[i] == 13 && request[i + 1] == 10 && request[i + 2] == 13 && request[i + 3] == 10 {
            assert(request@.subrange(i as int, i + 4) =~= seq![13u8, 10, 13, 10]);
            return HeaderProgress::Complete;
        }
        proof {
            if request@.subrange(i as int, i + 4) == seq![13u8, 10, 13, 10] {
                assert(request@.subrange(i as int, i + 4)[0] == request@[i as int]);
                assert(request@.subrange(i as int, i + 4)[1] == request@[i + 1]);
                assert(request@.subrange(i as int, i + 4)[2] == request@[i + 2]);
                assert(request@.subrange(i as int, i + 4)[3] == request@[i + 3]);
            }
        }
        i = i + 1;
    }
    proof {
        assert forall|k: int|
            0 <= k && k + 4 <= request@.len() implies #[trigger] request@.subrange(k, k + 4)
            != seq![13u8, 10, 13, 10] by {
        }
    }
    if n > MAX_HEADER_BYTES {
        HeaderProgress::TooLarge
    } else {
        HeaderProgress::More
    }
}

/// The text of a request head.
pub fn request_text(request: &[u8]) -> (r: Result<String, RealtimeError>)
    ensures
        match r {
            Ok(t) => valid_utf8(request@) && t@ == decode_utf8(request@),
            Err(e) => !valid_utf8(request@) && e.message@ == "HTTP request is not UTF-8"@,
        },
{
    match utf8_to_string(request) {
        Some(t) => Ok(t),
        None => Err(RealtimeError { message: "HTTP request is not UTF-8".to_owned() }),
    }
}

/// The first line of a request head, without its line ending.
pub open spec fn first_line(request: Seq<char>) -> Seq<char> {
    match split_first(request, '\n') {
        Some((line, _)) => if line.len() > 0 && line.last() == '\r' {
            line.drop_last()
        } else {
            line
        },
        None => request,
    }
}

/// The number of characters before the first white space.
pub open spec fn word_len(s: Seq<char>) -> nat
    decreases s.len(),
{
    if s.len() == 0 || is_white_space(s[0]) {
        0
    } else {
        1 + word_len(s.drop_first())
    }
}

/// The first word of `s` and what follows it; `None` when `s` is blank.
pub open spec fn next_word(s: Seq<char>) -> Option<(Seq<char>, Seq<char>)> {
    let t = trim_start(s);
    if t.len() == 0 {
        None
    } else {
        Some((t.take(word_len(t) as int), t.skip(word_len(t) as int)))
    }
}

/// The method and target of a request head: the first two words of its
/// first line, the method empty and the target `/` where they are missing.
pub open spec fn request_line_spec(request: Seq<char>) -> Result<(Seq<char>, Seq<char>), Seq<char>> {
    if request.len() == 0 {
        Err("empty HTTP request"@)
    } else {
        match next_word(first_line(request)) {
            None => Ok((Seq::empty(), seq!['/'])),
            Some((method, rest)) => match next_word(rest) {
                None => Ok((method, seq!['/'])),
                Some((target, _)) => Ok((method, target)),
            },
        }
    }
}

/// A word is as long as its run of characters that are not white space.
pub proof fn lemma_word_len(s: Seq<char>, k: int)
    requires
        0 <= k <= s.len(),
        forall|m: int| 0 <= m < k ==> !is_white_space(#[trigger] s[m]),
        k == s.len() || is_white_space(s[k]),
    ensures
        word_len(s) == k,
    decreases k,
{
    if k > 0 {
        assert forall|m: int| 0 <= m < k - 1 implies !is_white_space(#[trigger] s.drop_first()[m]) by {
            assert(s.drop_first()[m] == s[m + 1]);
        }
        if k < s.len() {
            assert(s.drop_first()[k - 1] == s[k]);
        }
        lemma_word_len(s.drop_first(), k - 1);
    }
}

/// Where the first word of `v[start..]` begins and ends.
fn next_word_at(v: &Vec<char>, start: usize) -> (r: Option<(usize, usize)>)
    requires
        start <= v@.len(),
    ensures
        match r {
            Some((b, e)) => start <= b < e <= v@.len() && next_word(v@.skip(start as int)) == Some(
                (v@.subrange(b as int, e as int), v@.skip(e as int)),
            ),
            None => next_word(v@.skip(start as int)) is None,
        },
{
    let n = v.len();
    let mut b: usize = start;
    while b < n && is_whitespace_char(v[b])
        invariant
            n == v@.len(),
            start <= b <= n,
            forall|m: int| start <= m < b ==> is_white_space(#[trigger] v@[m]),
        decreases n - b,
    {
        b = b + 1;
    }
    let ghost s = v@.skip(start as int);
    proof {
        assert forall|m: int| 0 <= m < b - start implies is_white_space(#[trigger] s[m]) by {
            assert(s[m] == v@[start + m]);
        }
        lemma_trim_start_skip(s, b - start);
        assert(s.skip(b - start) =~= v@.skip(b as int));
        let t = v@.skip(b as int);
        if t.len() > 0 {
            assert(t[0] == v@[b as int]);
        }
        assert(trim_start(t) == t);
    }
    if b == n {
        return None;
    }
    let mut e: usize = b;
    while e < n && !is_whitespace_char(v[e])
        invariant
            n == v@.len(),
            b <= e <= n,
            forall|m: int| b <= m < e ==> !is_white_space(#[trigger] v@[m]),
        decreases n - e,
    {
        e = e + 1;
    }
    proof {
        let t = v@.skip(b as int);
        assert forall|m: int| 0 <= m < e - b implies !is_white_space(#[trigger] t[m]) by {
            assert(t[m] == v@[b + m]);
        }
        if e < n {
            assert(t[e - b] == v@[e as int]);
        }
        lemma_word_len(t, e - b);
        assert(t.take(e - b) =~= v@.subrange(b as int, e as int));
        assert(t.skip(e - b) =~= v@.skip(e as int));
    }
    Some((b, e))
}

/// The method and target of a request head.
pub fn parse_request_line(request: &str) -> (r: Result<(String, String), RealtimeError>)
    ensures
        match r {
            Ok((method, target)) => request_line_spec(request@) == Ok::<
                (Seq<char>, Seq<char>),
                Seq<char>,
            >((method@, target@)),
            Err(e) => request_line_spec(request@) == Err::<(Seq<char>, Seq<char>), Seq<char>>(
                e.message@,
            ),
        },
{
    if request.is_empty() {
        return Err(RealtimeError { message: "empty HTTP request".to_owned() });
    }
    let all = chars_of(request);
    assert(all@.skip(0) =~= all@);
    let mut end = match find_char_from(&all, 0, '\n') {
        Some(i) => i,
        None => all.len(),
    };
    if end > 0 && all[end - 1] == '\r' && end < all.len() {
        end = end - 1;
    }
    let line = string_of_chars(&all, 0, end);
    let v = chars_of(line.as_str());
    proof {
        lemma_find_first(all@, '\n');
        match find_first(all@, '\n') {
            Some(i) => {
                let l = all@.take(i as int);
                if l.len() > 0 && l.last() == '\r' {
                    assert(v@ =~= l.drop_last());
                } else {
                    assert(v@ =~= l);
                }
            },
            None => {
                assert(v@ =~= all@);
            },
        }
        assert(v@ == first_line(request@));
        assert(v@.skip(0) =~= v@);
    }
    let (method_range, rest_start) = match next_word_at(&v, 0) {
        None => {
            let mut root = String::new();
            push_char(&mut root, '/');
            return Ok((String::new(), root));
        },
        Some((b, e)) => ((b, e), e),
    };
    let method = string_of_chars(&v, method_range.0, method_range.1);
    match next_word_at(&v, rest_start) {
        None => {
            let mut root = String::new();
            push_char(&mut root, '/');
            Ok((method, root))
        },
        Some((b, e)) => {
            proof {
                assert(v@.skip(rest_start as int).skip(b - rest_start) =~= v@.skip(b as int));
            }
            Ok((method, string_of_chars(&v, b, e)))
        },
    }
}

// ---------------------------------------------------------------------------
// The WebSocket handshake

/// Why a realtime request is refused.
#[derive(Debug, Clone, PartialEq, Eq)]
pub enum Refusal {
    /// The target is not the realtime endpoint with the served model: 400.
    BadRequest(String),
    /// The API key is missing or wrong: 401.
    Unauthorized(String),
}

/// Whether the checks of a realtime request decode only components that
/// decoding accepts.
pub open spec fn realtime_request_decodable(target: Seq<char>, key_required: bool) -> bool {
    realtime_target_decodable(target) && (key_required ==> query_decodable(
        target_query(encode_utf8(target)),
        "api_key"@,
    ))
}

/// Whether the checks of a realtime request decode only components that
/// decoding accepts.
pub fn realtime_request_is_decodable(target: &str, config: &RuntimeConfig) -> (r: bool)
    ensures
        r == realtime_request_decodable(target@, config.api_key is Some),
{
    let target_ok = realtime_target_is_decodable(target);
    if !target_ok {
        return false;
    }
    match &config.api_key {
        Some(_) => query_is_decodable(target, "api_key"),
        None => true,
    }
}

/// Checks a WebSocket handshake: the target first, then the API key, which
/// may come in the `authorization` header, the `api_key` query parameter or
/// the offered `protocols`. An accepted handshake is answered with the
/// subprotocol of [`chosen_subprotocol`].
pub fn check_realtime_request(
    target: &str,
    authorization: Option<&str>,
    protocols: Option<&str>,
    config: &RuntimeConfig,
) -> (r: Result<Option<String>, Refusal>)
    requires
        realtime_request_decodable(target@, config.api_key is Some),
    ensures
        match r {
            Ok(chosen) => realtime_target_check(target@, config.model@) is Ok && api_key_accepted(
                match authorization {
                    Some(a) => Some(a@),
                    None => None,
                },
                match protocols {
                    Some(p) => Some(p@),
                    None => None,
                },
                target@,
                opt_chars(config.api_key),
            ) && opt_chars(chosen) == chosen_subprotocol(
                match protocols {
                    Some(p) => Some(p@),
                    None => None,
                },
            ),
            Err(Refusal::BadRequest(m)) => realtime_target_check(target@, config.model@) == Err::<
                (),
                Seq<char>,
            >(m@),
            Err(Refusal::Unauthorized(m)) => realtime_target_check(target@, config.model@) is Ok
                && !api_key_accepted(
                match authorization {
                    Some(a) => Some(a@),
                    None => None,
                },
                match protocols {
                    Some(p) => Some(p@),
                    None => None,
                },
                target@,
                opt_chars(config.api_key),
            ) && m@ == api_key_refusal(),
        },
{
    if let Err(e) = validate_realtime_target(target, config.model.as_str()) {
        return Err(Refusal::BadRequest(e.message));
    }
    let expected = match &config.api_key {
        Some(k) => Some(k.as_str()),
        None => None,
    };
    let by_header_or_query = validate_api_key(authorization, target, expected);
    let accepted = match by_header_or_query {
        Ok(()) => true,
        Err(_) => match (&config.api_key, protocols) {
            (Some(k), Some(p)) => {
                let mut wanted = "openai-insecure-api-key.".to_owned();
                wanted.append(k.as_str());
                proof {
                    reveal_strlit("openai-insecure-api-key.");
                }
                offers_protocol(p, wanted.as_str())
            },
            _ => false,
        },
    };
    if !accepted {
        return Err(Refusal::Unauthorized("missing or invalid API key".to_owned()));
    }
    let chosen = match protocols {
        Some(p) => {
            if offers_protocol(p, "realtime") {
                Some("realtime".to_owned())
            } else {
                None
            }
        },
        None => None,
    };
    Ok(chosen)
}

// ---------------------------------------------------------------------------
// One realtime connection

/// What the connection loop is to do next.
#[derive(Debug, Clone, PartialEq, Eq)]
pub enum Action {
    /// Send this text message to the client.
    Send(String),
    /// Start a fresh PCM converter for this input sample rate.
    ResetConverter(u32),
    /// Convert this audio to 16 kHz PCM and hand it to the ASR task.
    PushAudio(Vec<u8>),
    /// Close the audio channel to the ASR task.
    CloseAudio,
    /// Leave the loop and close the socket.
    Finish,
}

/// The contents of an [`Action`].
pub ghost enum ActionFacts {
    Send(Seq<char>),
    ResetConverter(u32),
    PushAudio(Seq<u8>),
    CloseAudio,
    Finish,
}

impl View for Action {
    type V = ActionFacts;

    open spec fn view(&self) -> ActionFacts {
        match self {
            Action::Send(t) => ActionFacts::Send(t@),
            Action::ResetConverter(rate) => ActionFacts::ResetConverter(*rate),
            Action::PushAudio(a) => ActionFacts::PushAudio(a@),
            Action::CloseAudio => ActionFacts::CloseAudio,
            Action::Finish => ActionFacts::Finish,
        }
    }
}

/// The views of a list of actions.
pub open spec fn actions_view(actions: Seq<Action>) -> Seq<ActionFacts> {
    actions.map_values(|a: Action| a@)
}

/// The state of one realtime connection between its events.
#[derive(Debug, Clone)]
pub struct Connection {
    /// The session that the client configures.
    pub session: RealtimeSession,
    /// The conversation item that the transcript belongs to.
    pub item_id: String,
    /// The model that the server serves.
    pub model: String,
    /// The last interim snapshot of the transcript.
    pub interim_transcript: String,
    /// The final transcript so far.
    pub final_transcript: String,
    /// Whether audio may still be appended: false once it was committed.
    pub audio_open: bool,
}

/// The contents of a [`Connection`].
pub ghost struct ConnectionFacts {
    pub session: SessionFacts,
    pub item_id: Seq<char>,
    pub model: Seq<char>,
    pub interim_transcript: Seq<char>,
    pub final_transcript: Seq<char>,
    pub audio_open: bool,
}

impl View for Connection {
    type V = ConnectionFacts;

    open spec fn view(&self) -> ConnectionFacts {
        ConnectionFacts {
            session: self.session@,
            item_id: self.item_id@,
            model: self.model@,
            interim_transcript: self.interim_transcript@,
            final_transcript: self.final_transcript@,
            audio_open: self.audio_open,
        }
    }
}

/// A connection that has just opened.
pub open spec fn fresh_connection(session_id: Seq<char>, item_id: Seq<char>, model: Seq<char>) -> ConnectionFacts {
    ConnectionFacts {
        session: fresh_session(session_id, model),
        item_id: item_id,
        model: model,
        interim_transcript: Seq::empty(),
        final_transcript: Seq::empty(),
        audio_open: true,
    }
}

/// The message that refuses audio appended after a commit.
pub open spec fn appended_after_commit() -> Seq<char> {
    "audio was appended after commit"@
}

/// What a connection does with the text of a client message. Event ids
/// are `event_id`.
pub open spec fn client_text_step(c: ConnectionFacts, raw: Seq<char>, event_id: Seq<char>) -> (
    ConnectionFacts,
    Seq<ActionFacts>,
) {
    match client_event_spec(raw) {
        Err(e) => (c, seq![ActionFacts::Send(error_event_text(event_id, e))]),
        Ok(ClientEventFacts::SessionUpdate(update)) => match apply_update_spec(
            update,
            c.session,
            c.model,
        ) {
            Err(e) => (c, seq![ActionFacts::Send(error_event_text(event_id, e))]),
            Ok((session, changed)) => (
                ConnectionFacts { session: session, ..c },
                (if changed {
                    seq![ActionFacts::ResetConverter(session.input_sample_rate)]
                } else {
                    Seq::empty()
                }) + seq![
                    ActionFacts::Send(
                        session_event_text("session.updated"@, event_id, session),
                    ),
                ],
            ),
        },
        Ok(ClientEventFacts::AppendAudio(audio)) => if c.audio_open {
            (c, seq![ActionFacts::PushAudio(audio)])
        } else {
            (c, seq![ActionFacts::Send(error_event_text(event_id, appended_after_commit()))])
        },
        Ok(ClientEventFacts::Clear) => (
            c,
            seq![
                ActionFacts::ResetConverter(c.session.input_sample_rate),
                ActionFacts::Send(cleared_event_text(event_id)),
            ],
        ),
        Ok(ClientEventFacts::Commit) | Ok(ClientEventFacts::Close) => (
            ConnectionFacts { audio_open: false, ..c },
            seq![ActionFacts::CloseAudio, ActionFacts::Send(committed_event_text(c.item_id))],
        ),
    }
}

/// What a connection does with a client message.
pub open spec fn client_message_step(
    c: ConnectionFacts,
    message: SocketMessage,
    event_id: Seq<char>,
) -> (ConnectionFacts, Seq<ActionFacts>) {
    match socket_text_spec(message) {
        Err(e) => (c, seq![ActionFacts::Send(error_event_text(event_id, e))]),
        Ok(raw) => client_text_step(c, raw, event_id),
    }
}

/// What a connection does with an event of the ASR task.
pub open spec fn asr_event_step(c: ConnectionFacts, event: AsrEventFacts, event_id: Seq<char>) -> (
    ConnectionFacts,
    Seq<ActionFacts>,
) {
    match event {
        AsrEventFacts::InterimResult(text) => if text.len() == 0 {
            (c, Seq::empty())
        } else {
            let delta = delta_spec(c.interim_transcript, text);
            (
                ConnectionFacts { interim_transcript: text, ..c },
                if delta.len() == 0 {
                    Seq::empty()
                } else {
                    seq![ActionFacts::Send(delta_event_text(c.item_id, delta, text))]
                },
            )
        },
        AsrEventFacts::FinalResult(text) => if text.len() == 0 {
            (c, Seq::empty())
        } else {
            let transcript = c.final_transcript + text;
            (
                ConnectionFacts { final_transcript: transcript, ..c },
                seq![ActionFacts::Send(completed_event_text(c.item_id, transcript))],
            )
        },
        AsrEventFacts::SessionFinished => (
            c,
            seq![
                ActionFacts::Send(completed_event_text(c.item_id, c.final_transcript)),
                ActionFacts::Finish,
            ],
        ),
        AsrEventFacts::Error(message) => (
            c,
            seq![ActionFacts::Send(error_event_text(event_id, message)), ActionFacts::Finish],
        ),
        _ => (c, Seq::empty()),
    }
}

/// What a connection does when the ASR task ends, with its transcript or
/// its error message. A transcript replaces the final one only when no
/// final result came before.
pub open spec fn asr_finished_step(
    c: ConnectionFacts,
    result: Result<Seq<char>, Seq<char>>,
    event_id: Seq<char>,
) -> (ConnectionFacts, Seq<ActionFacts>) {
    match result {
        Ok(transcript) => {
            let final_transcript = if c.final_transcript.len() == 0 {
                transcript
            } else {
                c.final_transcript
            };
            (
                ConnectionFacts { final_transcript: final_transcript, ..c },
                seq![
                    ActionFacts::Send(completed_event_text(c.item_id, final_transcript)),
                    ActionFacts::Finish,
                ],
            )
        },
        Err(message) => (
            c,
            seq![ActionFacts::Send(error_event_text(event_id, message)), ActionFacts::Finish],
        ),
    }
}

fn error_action(event_id: &str, message: &str) -> (r: Action)
    ensures
        r@ == ActionFacts::Send(error_event_text(event_id@, message@)),
{
    Action::Send(error_event_with_id(event_id, message))
}

impl Connection {
    /// A connection for `model` with the given session and item ids.
    pub fn with_ids(session_id: &str, item_id: &str, model: &str) -> (r: Connection)
        ensures
            r@ == fresh_connection(session_id@, item_id@, model@),
    {
        Connection {
            session: RealtimeSession::with_id(session_id, model),
            item_id: item_id.to_owned(),
            model: model.to_owned(),
            interim_transcript: String::new(),
            final_transcript: String::new(),
            audio_open: true,
        }
    }

    /// A connection for `model` with fresh random session and item ids.
    pub fn new(model: &str) -> (r: Connection)
        ensures
            is_random_id(r@.session.id, "sess_"@),
            is_random_id(r@.item_id, "item_"@),
            r@ == fresh_connection(r@.session.id, r@.item_id, model@),
    {
        let session_id = random_id("sess_");
        let item_id = random_id("item_");
        Connection::with_ids(session_id.as_str(), item_id.as_str(), model)
    }

    /// The `session.created` event that opens the connection.
    pub fn created_event(&self, event_id: &str) -> (r: String)
        ensures
            r@ == session_event_text("session.created"@, event_id@, self@.session),
    {
        session_event_with_id("session.created", event_id, &self.session)
    }

    /// Handles the text of a client message.
    pub fn on_client_text(&mut self, raw: &str, event_id: &str) -> (r: Vec<Action>)
        ensures
            (final(self)@, actions_view(r@)) == client_text_step(old(self)@, raw@, event_id@),
    {
        let mut actions: Vec<Action> = Vec::new();
        let event = match decode_client_event(raw) {
            Err(e) => {
                actions.push(error_action(event_id, e.message.as_str()));
                assert(actions_view(actions@) =~= seq![
                    ActionFacts::Send(error_event_text(event_id@, e.message@)),
                ]);
                return actions;
            },
            Ok(event) => event,
        };
        match event {
            ClientEvent::SessionUpdate(update) => {
                let model = self.model.clone();
                match update.apply_to(&mut self.session, model.as_str()) {
                    Err(e) => {
                        actions.push(error_action(event_id, e.message.as_str()));
                        assert(actions_view(actions@) =~= seq![
                            ActionFacts::Send(error_event_text(event_id@, e.message@)),
                        ]);
                    },
                    Ok(changed) => {
                        if changed {
                            actions.push(Action::ResetConverter(self.session.input_sample_rate));
                        }
                        actions.push(
                            Action::Send(
                                session_event_with_id("session.updated", event_id, &self.session),
                            ),
                        );
                        assert(actions_view(actions@) =~= (if changed {
                            seq![ActionFacts::ResetConverter(self.session.input_sample_rate)]
                        } else {
                            Seq::empty()
                        }) + seq![
                            ActionFacts::Send(
                                session_event_text("session.updated"@, event_id@, self.session@),
                            ),
                        ]);
                    },
                }
            },
            ClientEvent::AppendAudio(audio) => {
                if self.audio_open {
                    actions.push(Action::PushAudio(audio));
                    assert(actions_view(actions@) =~= seq![ActionFacts::PushAudio(audio@)]);
                } else {
                    actions.push(error_action(event_id, "audio was appended after commit"));
                    assert(actions_view(actions@) =~= seq![
                        ActionFacts::Send(error_event_text(event_id@, appended_after_commit())),
                    ]);
                }
            },
            ClientEvent::Clear => {
                actions.push(Action::ResetConverter(self.session.input_sample_rate));
                actions.push(Action::Send(input_audio_cleared_event_with_id(event_id)));
                assert(actions_view(actions@) =~= seq![
                    ActionFacts::ResetConverter(self.session.input_sample_rate),
                    ActionFacts::Send(cleared_event_text(event_id@)),
                ]);
            },
            ClientEvent::Commit | ClientEvent::Close => {
                self.audio_open = false;
                actions.push(Action::CloseAudio);
                actions.push(Action::Send(input_audio_committed_event(self.item_id.as_str())));
                assert(actions_view(actions@) =~= seq![
                    ActionFacts::CloseAudio,
                    ActionFacts::Send(committed_event_text(self.item_id@)),
                ]);
            },
        }
        actions
    }

    /// Handles a message from the client.
    pub fn on_client_message(&mut self, message: SocketMessage, event_id: &str) -> (r: Vec<Action>)
        ensures
            (final(self)@, actions_view(r@)) == client_message_step(old(self)@, message, event_id@),
    {
        let ghost m = message;
        match decode_socket_message(message) {
            Err(e) => {
                let mut actions: Vec<Action> = Vec::new();
                actions.push(error_action(event_id, e.message.as_str()));
                assert(actions_view(actions@) =~= seq![
                    ActionFacts::Send(error_event_text(event_id@, e.message@)),
                ]);
                actions
            },
            Ok(raw) => self.on_client_text(raw.as_str(), event_id),
        }
    }

    /// Handles an event of the ASR task.
    pub fn on_asr_event(&mut self, event: AsrEvent, event_id: &str) -> (r: Vec<Action>)
        ensures
            (final(self)@, actions_view(r@)) == asr_event_step(old(self)@, event@, event_id@),
    {
        let mut actions: Vec<Action> = Vec::new();
        match event {
            AsrEvent::InterimResult(text) => {
                if !text.as_str().is_empty() {
                    let delta = interim_delta(&mut self.interim_transcript, text.as_str());
                    if !delta.as_str().is_empty() {
                        actions.push(
                            Action::Send(
                                transcript_delta_event(
                                    self.item_id.as_str(),
                                    delta.as_str(),
                                    text.as_str(),
                                ),
                            ),
                        );
                    }
                }
            },
            AsrEvent::FinalResult(text) => {
                match append_final_transcript(&mut self.final_transcript, text.as_str()) {
                    Some(transcript) => {
                        actions.push(
                            Action::Send(
                                transcript_completed_event(
                                    self.item_id.as_str(),
                                    transcript.as_str(),
                                ),
                            ),
                        );
                    },
                    None => {},
                }
            },
            AsrEvent::SessionFinished => {
                actions.push(
                    Action::Send(
                        transcript_completed_event(
                            self.item_id.as_str(),
                            self.final_transcript.as_str(),
                        ),
                    ),
                );
                actions.push(Action::Finish);
            },
            AsrEvent::Error(message) => {
                actions.push(error_action(event_id, message.as_str()));
                actions.push(Action::Finish);
            },
            _ => {},
        }
        proof {
            let expected = asr_event_step(old(self)@, event@, event_id@);
            assert(actions_view(actions@) =~= expected.1);
        }
        actions
    }

    /// Handles the end of the ASR task: its transcript, or its error
    /// message.
    pub fn on_asr_finished(&mut self, result: Result<String, String>, event_id: &str) -> (r: Vec<
        Action,
    >)
        ensures
            (final(self)@, actions_view(r@)) == asr_finished_step(
                old(self)@,
                match result {
                    Ok(t) => Ok::<Seq<char>, Seq<char>>(t@),
                    Err(m) => Err::<Seq<char>, Seq<char>>(m@),
                },
                event_id@,
            ),
    {
        let mut actions: Vec<Action> = Vec::new();
        match result {
            Ok(transcript) => {
                if self.final_transcript.as_str().is_empty() {
                    self.final_transcript = transcript;
                }
                actions.push(
                    Action::Send(
                        transcript_completed_event(
                            self.item_id.as_str(),
                            self.final_transcript.as_str(),
                        ),
                    ),
                );
                actions.push(Action::Finish);
                assert(actions_view(actions@) =~= seq![
                    ActionFacts::Send(completed_event_text(self.item_id@, self.final_transcript@)),
                    ActionFacts::Finish,
                ]);
            },
            Err(message) => {
                actions.push(error_action(event_id, message.as_str()));
                actions.push(Action::Finish);
                assert(actions_view(actions@) =~= seq![
                    ActionFacts::Send(error_event_text(event_id@, message@)),
                    ActionFacts::Finish,
                ]);
            },
        }
        actions
    }

    /// Handles the client going away: the audio channel closes and the
    /// loop ends.
    pub fn on_client_gone(&mut self) -> (r: Vec<Action>)
        ensures
            final(self)@ == (ConnectionFacts { audio_open: false, ..old(self)@ }),
            actions_view(r@) == seq![ActionFacts::CloseAudio, ActionFacts::Finish],
    {
        self.audio_open = false;
        let mut actions: Vec<Action> = Vec::new();
        actions.push(Action::CloseAudio);
        actions.push(Action::Finish);
        assert(actions_view(actions@) =~= seq![ActionFacts::CloseAudio, ActionFacts::Finish]);
        actions
    }
}

// ---------------------------------------------------------------------------
// Laws of a connection

/// Whether `actions` hand audio to the ASR task.
pub open spec fn pushes_audio(actions: Seq<ActionFacts>) -> bool {
    exists|i: int| 0 <= i < actions.len() && #[trigger] actions[i] is PushAudio
}

/// Once the audio is committed it stays committed, and no client message
/// hands audio to the ASR task any more.
pub proof fn law_commit_is_final(c: ConnectionFacts, message: SocketMessage, event_id: Seq<char>)
    requires
        !c.audio_open,
    ensures
        !client_message_step(c, message, event_id).0.audio_open,
        !pushes_audio(client_message_step(c, message, event_id).1),
{
    let actions = client_message_step(c, message, event_id).1;
    assert forall|i: int| 0 <= i < actions.len() implies !(#[trigger] actions[i] is PushAudio) by {
        match socket_text_spec(message) {
            Err(e) => {},
            Ok(raw) => match client_event_spec(raw) {
                Ok(ClientEventFacts::SessionUpdate(update)) => match apply_update_spec(
                    update,
                    c.session,
                    c.model,
                ) {
                    Ok((session, changed)) => {
                        if changed {
                            assert(actions[i] == (seq![
                                ActionFacts::ResetConverter(session.input_sample_rate),
                            ] + seq![
                                ActionFacts::Send(
                                    session_event_text("session.updated"@, event_id, session),
                                ),
                            ])[i]);
                        }
                    },
                    Err(_) => {},
                },
                _ => {},
            },
        }
    }
}

/// Audio appended after a commit is refused with an error event, and
/// nothing else changes.
pub proof fn law_append_after_commit_refused(
    c: ConnectionFacts,
    raw: Seq<char>,
    audio: Seq<u8>,
    event_id: Seq<char>,
)
    requires
        !c.audio_open,
        client_event_spec(raw) == Ok::<ClientEventFacts, Seq<char>>(
            ClientEventFacts::AppendAudio(audio),
        ),
    ensures
        client_text_step(c, raw, event_id) == (
            c,
            seq![ActionFacts::Send(error_event_text(event_id, appended_after_commit()))],
        ),
{
}

/// A session update that is refused leaves the connection as it was and
/// answers with an error event.
pub proof fn law_refused_update_changes_nothing(
    c: ConnectionFacts,
    raw: Seq<char>,
    update: SessionUpdateFacts,
    event_id: Seq<char>,
)
    requires
        client_event_spec(raw) == Ok::<ClientEventFacts, Seq<char>>(
            ClientEventFacts::SessionUpdate(update),
        ),
        apply_update_spec(update, c.session, c.model) is Err,
    ensures
        client_text_step(c, raw, event_id).0 == c,
        client_text_step(c, raw, event_id).1.len() == 1,
        client_text_step(c, raw, event_id).1[0] is Send,
{
}

/// The final transcript only grows: every event of the ASR task, and its
/// end, keep what was final before as a prefix.
pub proof fn law_final_transcript_grows(
    c: ConnectionFacts,
    event: AsrEventFacts,
    result: Result<Seq<char>, Seq<char>>,
    event_id: Seq<char>,
)
    ensures
        is_prefix(c.final_transcript, asr_event_step(c, event, event_id).0.final_transcript),
        is_prefix(c.final_transcript, asr_finished_step(c, result, event_id).0.final_transcript),
{
    let t = c.final_transcript;
    assert(t.take(t.len() as int) =~= t);
    match event {
        AsrEventFacts::FinalResult(text) => {
            assert((t + text).take(t.len() as int) =~= t);
        },
        _ => {},
    }
    match result {
        Ok(transcript) => {
            if t.len() == 0 {
                assert(transcript.take(0) =~= t);
            }
        },
        Err(_) => {},
    }
}

/// The session id, the item id and the served model of a connection never
/// change.
pub proof fn law_identity_is_fixed(
    c: ConnectionFacts,
    message: SocketMessage,
    event: AsrEventFacts,
    result: Result<Seq<char>, Seq<char>>,
    event_id: Seq<char>,
)
    ensures
        ({
            let d = client_message_step(c, message, event_id).0;
            d.session.id == c.session.id && d.item_id == c.item_id && d.model == c.model
        }),
        ({
            let d = asr_event_step(c, event, event_id).0;
            d.session == c.session && d.item_id == c.item_id && d.model == c.model && d.audio_open
                == c.audio_open
        }),
        ({
            let d = asr_finished_step(c, result, event_id).0;
            d.session == c.session && d.item_id == c.item_id && d.model == c.model && d.audio_open
                == c.audio_open
        }),
{
}

} // verus!
