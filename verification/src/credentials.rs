//! The device registration and token of the Seed-ASR backend: what is
//! cached, when a token is stale, and the requests that renew it.
use vstd::prelude::*;
use vstd::utf8::*;

use crate::encoding::{
    base64_url_no_pad, base64_url_no_pad_decode, hex_encode, hex_lower_text, hex_upper,
    hex_upper_text, md5_digest, md5_of,
};
use crate::entropy::{is_uuid_text, now_millis, now_seconds, random_bytes_8, uuid_hyphenated};
use crate::json::{
    decimal, json_at, json_compact, json_compact_of, json_lookup, json_str, push_decimal,
    push_json_str, JsonFact, JsonKind,
};
use crate::text::{chars_of, find_char_from, find_first, lemma_find_first, split_first, string_of_chars, utf8_to_string};
use crate::url::str_eq;

verus! {

/// The device registration endpoint.
pub const REGISTER_URL: &'static str = "https://log.snssdk.com/service/2/device_register/";
/// The settings endpoint that hands out ASR tokens.
pub const SETTINGS_URL: &'static str = "https://is.snssdk.com/service/settings/v3/";
/// The application id of the input method.
pub const AID: u32 = 401734;
/// The application name.
pub const APP_NAME: &'static str = "oime";
/// The version code of the application.
pub const VERSION_CODE: u32 = 100102018;
/// The version name of the application.
pub const VERSION_NAME: &'static str = "1.1.2";
/// The distribution channel.
pub const CHANNEL: &'static str = "official";
/// The package name.
pub const PACKAGE: &'static str = "com.bytedance.android.doubaoime";
/// The user agent of every request.
pub const USER_AGENT: &'static str = "com.bytedance.android.doubaoime/100102018 (Linux; U; Android 16; en_US; Pixel 7 Pro; Build/BP2A.250605.031.A2; Cronet/TTNetVersion:94cf429a 2025-11-17 QuicVersion:1f89f732 2025-05-08)";

/// The credentials that are cached between runs.
#[derive(Clone, Debug, PartialEq, Eq)]
pub struct CachedCredentials {
    pub device_id: String,
    pub install_id: String,
    pub cdid: String,
    pub openudid: String,
    pub clientudid: String,
    pub token: String,
}

/// Where the credentials are cached by default, relative to the working
/// directory.
pub open spec fn default_credentials_text() -> Seq<char> {
    ".seedrelay/credentials.json"@
}

/// Where the credentials are cached by default: `credentials.json` in the
/// `.seedrelay` directory.
pub fn default_credentials_path() -> (r: String)
    ensures
        r@ == default_credentials_text(),
{
    ".seedrelay/credentials.json".to_owned()
}

// ---------------------------------------------------------------------------
// Token expiry

/// The second dot-separated segment of a token, the payload of a JWT.
pub open spec fn jwt_payload_segment(token: Seq<char>) -> Option<Seq<char>> {
    match split_first(token, '.') {
        None => None,
        Some((_, rest)) => Some(
            match split_first(rest, '.') {
                Some((segment, _)) => segment,
                None => rest,
            },
        ),
    }
}

/// The `exp` claim of a JWT: its payload segment, decoded from unpadded
/// URL-safe base64, read as JSON; `None` when any step fails or `exp` is
/// not an integer that fits in 64 bits.
pub open spec fn jwt_expiry_spec(token: Seq<char>) -> Option<u64> {
    match jwt_payload_segment(token) {
        None => None,
        Some(segment) => match base64_url_no_pad(segment) {
            Err(_) => None,
            Ok(bytes) => if !valid_utf8(bytes) {
                None
            } else {
                match json_lookup(decode_utf8(bytes), "/exp"@) {
                    Ok(JsonFact::Number(Some(exp))) => Some(exp),
                    _ => None,
                }
            },
        },
    }
}

/// Whether a token that expires at `expiry` (seconds since the epoch)
/// counts as expired at `now`, `margin` seconds early. An unknown expiry
/// counts as expired.
pub open spec fn expired_spec(expiry: Option<u64>, margin: u64, now: u64) -> bool {
    match expiry {
        None => true,
        Some(exp) => now >= if exp >= margin {
            exp - margin
        } else {
            0
        },
    }
}

/// A token with a known expiry counts as expired exactly from `margin`
/// seconds before that expiry on, and stays expired as time goes on; one
/// without a readable expiry always counts as expired.
pub proof fn law_expiry_margin(expiry: Option<u64>, margin: u64, now: u64, later: u64)
    ensures
        expiry matches Some(exp) ==> (expired_spec(expiry, margin, now) <==> now + margin >= exp),
        expiry is None ==> expired_spec(expiry, margin, now),
        expired_spec(expiry, margin, now) && now <= later ==> expired_spec(expiry, margin, later),
{
}

/// Whether a token counts as expired at `now`, `margin` seconds early. A
/// token whose expiry cannot be read counts as expired.
pub open spec fn jwt_expired_at_spec(token: Seq<char>, margin: u64, now: u64) -> bool {
    expired_spec(jwt_expiry_spec(token), margin, now)
}

/// Whether a token that expires at `expiry` counts as expired at `now`,
/// `margin_seconds` early; an unknown expiry counts as expired.
pub fn expired_given(expiry: Option<u64>, margin_seconds: u64, now: u64) -> (r: bool)
    ensures
        r == expired_spec(expiry, margin_seconds, now),
{
    match expiry {
        None => true,
        Some(exp) => now >= exp.saturating_sub(margin_seconds),
    }
}

/// The payload segment of a token: its second dot-separated segment.
pub fn jwt_payload(token: &str) -> (r: Option<String>)
    ensures
        match r {
            Some(s) => jwt_payload_segment(token@) == Some(s@),
            None => jwt_payload_segment(token@) is None,
        },
{
    let v = chars_of(token);
    assert(v@.skip(0) =~= v@);
    let first = match find_char_from(&v, 0, '.') {
        None => return None,
        Some(i) => i,
    };
    let n = v.len();
    let start = first + 1;
    let end = match find_char_from(&v, start, '.') {
        None => n,
        Some(j) => j,
    };
    let segment = string_of_chars(&v, start, end);
    proof {
        let rest = v@.skip(start as int);
        lemma_find_first(rest, '.');
        match find_first(rest, '.') {
            Some(k) => {
                assert(segment@ =~= rest.take(k as int));
            },
            None => {
                assert(segment@ =~= rest);
            },
        }
    }
    Some(segment)
}

/// The `exp` claim of a JWT, when it can be read.
pub fn jwt_expiry(token: &str) -> (r: Option<u64>)
    ensures
        r == jwt_expiry_spec(token@),
{
    let segment = match jwt_payload(token) {
        None => return None,
        Some(s) => s,
    };
    let bytes = match base64_url_no_pad_decode(segment.as_str()) {
        Err(_) => return None,
        Ok(b) => b,
    };
    let text = match utf8_to_string(bytes.as_slice()) {
        None => return None,
        Some(t) => t,
    };
    match json_at(text.as_str(), "/exp") {
        Ok(JsonKind::Number(Some(exp))) => Some(exp),
        _ => None,
    }
}

/// Whether a token counts as expired at `now`, `margin_seconds` early; a
/// token whose expiry cannot be read counts as expired.
pub fn jwt_expired_at(token: &str, margin_seconds: u64, now: u64) -> (r: bool)
    ensures
        r == jwt_expired_at_spec(token@, margin_seconds, now),
{
    expired_given(jwt_expiry(token), margin_seconds, now)
}

/// Whether a token counts as expired now, by the system clock,
/// `margin_seconds` early; a token whose expiry cannot be read counts as
/// expired.
pub fn is_jwt_expired(token: &str, margin_seconds: u64) -> (r: bool)
    ensures
        exists|now: u64| r == jwt_expired_at_spec(token@, margin_seconds, now),
        jwt_expiry_spec(token@) is None ==> r,
{
    let now = now_seconds();
    jwt_expired_at(token, margin_seconds, now)
}

// ---------------------------------------------------------------------------
// What to do with the cache

/// What reading the cache gave.
#[derive(Clone, Debug, PartialEq, Eq)]
pub enum CachedLoad {
    /// There is no cache file.
    Missing,
    /// The cache file could not be read or parsed; the message says why.
    Invalid(String),
    /// The credentials that the cache holds.
    Loaded(CachedCredentials),
}

/// How to get credentials.
#[derive(Clone, Debug, PartialEq, Eq)]
pub enum CredentialPlan {
    /// The cached credentials are good as they are.
    UseCached,
    /// The cached device is kept and its token is fetched anew.
    RefreshToken,
    /// A new device is registered and its token fetched.
    Register,
    /// The cache cannot be used; the message says why.
    Fail(String),
}

/// The margin, in seconds, by which a token is renewed before it expires.
pub const TOKEN_MARGIN_SECONDS: u64 = 60;

/// How to get credentials from what the cache gave, at `now`: cached
/// credentials with a device and a token that is not about to expire are
/// used; a cached device gets a new token; without a cache a device is
/// registered; a broken cache is an error.
pub open spec fn plan_spec(
    load: CachedLoad,
    now: u64,
) -> CredentialPlan {
    match load {
        CachedLoad::Missing => CredentialPlan::Register,
        CachedLoad::Invalid(m) => CredentialPlan::Fail(m),
        CachedLoad::Loaded(c) => if c.device_id@.len() > 0 && c.token@.len() > 0
            && !jwt_expired_at_spec(c.token@, TOKEN_MARGIN_SECONDS, now) {
            CredentialPlan::UseCached
        } else if c.device_id@.len() > 0 {
            CredentialPlan::RefreshToken
        } else {
            CredentialPlan::Register
        },
    }
}

/// Whether `plan` is [`plan_spec`] of `load` at `now`, a failure's message
/// taken by its characters.
pub open spec fn plan_matches(plan: CredentialPlan, load: CachedLoad, now: u64) -> bool {
    match (plan, plan_spec(load, now)) {
        (CredentialPlan::Fail(m), CredentialPlan::Fail(n)) => m@ == n@,
        (a, b) => a == b,
    }
}

/// Decides how to get credentials from what the cache gave, at `now`.
pub fn plan_credentials(load: &CachedLoad, now: u64) -> (r: CredentialPlan)
    ensures
        plan_matches(r, *load, now),
{
    match load {
        CachedLoad::Missing => CredentialPlan::Register,
        CachedLoad::Invalid(m) => CredentialPlan::Fail(m.clone()),
        CachedLoad::Loaded(c) => {
            if !c.device_id.as_str().is_empty() && !c.token.as_str().is_empty()
                && !jwt_expired_at(c.token.as_str(), TOKEN_MARGIN_SECONDS, now) {
                CredentialPlan::UseCached
            } else if !c.device_id.as_str().is_empty() {
                CredentialPlan::RefreshToken
            } else {
                CredentialPlan::Register
            }
        },
    }
}

/// Decides how to get credentials from what the cache gave, now, by the
/// system clock.
pub fn plan_credentials_now(load: &CachedLoad) -> (r: CredentialPlan)
    ensures
        exists|now: u64| #[trigger] plan_matches(r, *load, now),
{
    plan_credentials(load, now_seconds())
}

// ---------------------------------------------------------------------------
// The requests

/// The views of a list of query pairs.
pub open spec fn pairs_view(pairs: Seq<(String, String)>) -> Seq<(Seq<char>, Seq<char>)> {
    pairs.map_values(|p: (String, String)| (p.0@, p.1@))
}

fn decimal_string(n: u64) -> (r: String)
    ensures
        r@ == decimal(n as nat),
{
    crate::json::decimal_string(n)
}

/// The query of a device registration.
pub open spec fn register_params_spec(cdid: Seq<char>, now_ms: u64) -> Seq<(Seq<char>, Seq<char>)> {
    seq![
        ("device_platform"@, "android"@),
        ("os"@, "android"@),
        ("ssmix"@, "a"@),
        ("_rticket"@, decimal(now_ms as nat)),
        ("cdid"@, cdid),
        ("channel"@, CHANNEL@),
        ("aid"@, decimal(AID as nat)),
        ("app_name"@, APP_NAME@),
        ("version_code"@, decimal(VERSION_CODE as nat)),
        ("version_name"@, VERSION_NAME@),
        ("manifest_version_code"@, decimal(VERSION_CODE as nat)),
        ("update_version_code"@, decimal(VERSION_CODE as nat)),
        ("resolution"@, "1080*2400"@),
        ("dpi"@, "420"@),
        ("device_type"@, "Pixel 7 Pro"@),
        ("device_brand"@, "google"@),
        ("language"@, "zh"@),
        ("os_api"@, "34"@),
        ("os_version"@, "16"@),
        ("ac"@, "wifi"@),
    ]
}

/// The query parameters of a device registration.
pub fn register_params(cdid: &str, now_ms: u64) -> (r: Vec<(String, String)>)
    ensures
        pairs_view(r@) == register_params_spec(cdid@, now_ms),
{
    let mut out: Vec<(String, String)> = Vec::new();
    out.push(("device_platform".to_owned(), "android".to_owned()));
    out.push(("os".to_owned(), "android".to_owned()));
    out.push(("ssmix".to_owned(), "a".to_owned()));
    out.push(("_rticket".to_owned(), decimal_string(now_ms)));
    out.push(("cdid".to_owned(), cdid.to_owned()));
    out.push(("channel".to_owned(), CHANNEL.to_owned()));
    out.push(("aid".to_owned(), decimal_string(AID as u64)));
    out.push(("app_name".to_owned(), APP_NAME.to_owned()));
    out.push(("version_code".to_owned(), decimal_string(VERSION_CODE as u64)));
    out.push(("version_name".to_owned(), VERSION_NAME.to_owned()));
    out.push(("manifest_version_code".to_owned(), decimal_string(VERSION_CODE as u64)));
    out.push(("update_version_code".to_owned(), decimal_string(VERSION_CODE as u64)));
    out.push(("resolution".to_owned(), "1080*2400".to_owned()));
    out.push(("dpi".to_owned(), "420".to_owned()));
    out.push(("device_type".to_owned(), "Pixel 7 Pro".to_owned()));
    out.push(("device_brand".to_owned(), "google".to_owned()));
    out.push(("language".to_owned(), "zh".to_owned()));
    out.push(("os_api".to_owned(), "34".to_owned()));
    out.push(("os_version".to_owned(), "16".to_owned()));
    out.push(("ac".to_owned(), "wifi".to_owned()));
    let ghost expected = register_params_spec(cdid@, now_ms);
    assert(expected.len() == 20);
    assert(pairs_view(out@)[0] == expected[0]);
    assert(pairs_view(out@)[1] == expected[1]);
    assert(pairs_view(out@)[2] == expected[2]);
    assert(pairs_view(out@)[3] == expected[3]);
    assert(pairs_view(out@)[4] == expected[4]);
    assert(pairs_view(out@)[5] == expected[5]);
    assert(pairs_view(out@)[6] == expected[6]);
    assert(pairs_view(out@)[7] == expected[7]);
    assert(pairs_view(out@)[8] == expected[8]);
    assert(pairs_view(out@)[9] == expected[9]);
    assert(pairs_view(out@)[10] == expected[10]);
    assert(pairs_view(out@)[11] == expected[11]);
    assert(pairs_view(out@)[12] == expected[12]);
    assert(pairs_view(out@)[13] == expected[13]);
    assert(pairs_view(out@)[14] == expected[14]);
    assert(pairs_view(out@)[15] == expected[15]);
    assert(pairs_view(out@)[16] == expected[16]);
    assert(pairs_view(out@)[17] == expected[17]);
    assert(pairs_view(out@)[18] == expected[18]);
    assert(pairs_view(out@)[19] == expected[19]);
    assert(pairs_view(out@) =~= expected);
    out
}

/// The query of a token request.
pub open spec fn settings_params_spec(cdid: Seq<char>, device_id: Seq<char>, now_ms: u64) -> Seq<(Seq<char>, Seq<char>)> {
    seq![
        ("device_platform"@, "android"@),
        ("os"@, "android"@),
        ("ssmix"@, "a"@),
        ("_rticket"@, decimal(now_ms as nat)),
        ("cdid"@, cdid),
        ("channel"@, CHANNEL@),
        ("aid"@, decimal(AID as nat)),
        ("app_name"@, APP_NAME@),
        ("version_code"@, decimal(VERSION_CODE as nat)),
        ("version_name"@, VERSION_NAME@),
        ("device_id"@, device_id),
    ]
}

/// The query parameters of a token request.
pub fn settings_params(cdid: &str, device_id: &str, now_ms: u64) -> (r: Vec<(String, String)>)
    ensures
        pairs_view(r@) == settings_params_spec(cdid@, device_id@, now_ms),
{
    let mut out: Vec<(String, String)> = Vec::new();
    out.push(("device_platform".to_owned(), "android".to_owned()));
    out.push(("os".to_owned(), "android".to_owned()));
    out.push(("ssmix".to_owned(), "a".to_owned()));
    out.push(("_rticket".to_owned(), decimal_string(now_ms)));
    out.push(("cdid".to_owned(), cdid.to_owned()));
    out.push(("channel".to_owned(), CHANNEL.to_owned()));
    out.push(("aid".to_owned(), decimal_string(AID as u64)));
    out.push(("app_name".to_owned(), APP_NAME.to_owned()));
    out.push(("version_code".to_owned(), decimal_string(VERSION_CODE as u64)));
    out.push(("version_name".to_owned(), VERSION_NAME.to_owned()));
    out.push(("device_id".to_owned(), device_id.to_owned()));
    let ghost expected = settings_params_spec(cdid@, device_id@, now_ms);
    assert(expected.len() == 11);
    assert(pairs_view(out@)[0] == expected[0]);
    assert(pairs_view(out@)[1] == expected[1]);
    assert(pairs_view(out@)[2] == expected[2]);
    assert(pairs_view(out@)[3] == expected[3]);
    assert(pairs_view(out@)[4] == expected[4]);
    assert(pairs_view(out@)[5] == expected[5]);
    assert(pairs_view(out@)[6] == expected[6]);
    assert(pairs_view(out@)[7] == expected[7]);
    assert(pairs_view(out@)[8] == expected[8]);
    assert(pairs_view(out@)[9] == expected[9]);
    assert(pairs_view(out@)[10] == expected[10]);
    assert(pairs_view(out@) =~= expected);
    out
}

/// The JSON body of a device registration, its keys in order: the device
/// as a Pixel 7 Pro on Android 16 with the given ids, stamped `now_ms`.
pub open spec fn register_body_text(openudid: Seq<char>, clientudid: Seq<char>, cdid: Seq<char>, now_ms: u64) -> Seq<char> {
    "{\"_gen_time\":"@ + decimal(now_ms as nat) + ",\"header\":{\"access\":\"wifi\",\"aid\":401734,\"app_name\":\"oime\",\"build_serial\":\"unknown\",\"carrier_region\":\"cn\",\"cdid\":"@ + json_str(cdid)
        + ",\"channel\":\"official\",\"clientudid\":"@ + json_str(clientudid)
        + ",\"cpu_abi\":\"arm64-v8a\",\"device_brand\":\"google\",\"device_id\":0,\"device_model\":\"Pixel 7 Pro\",\"device_platform\":\"android\",\"device_type\":\"Pixel 7 Pro\",\"dpi\":\"420\",\"google_aid\":\"\",\"install_id\":0,\"language\":\"zh\",\"manifest_version_code\":100102018,\"mc\":\"\",\"not_request_sender\":0,\"openudid\":"@
        + json_str(openudid)
        + ",\"os\":\"android\",\"os_api\":\"34\",\"os_version\":\"16\",\"package\":\"com.bytedance.android.doubaoime\",\"region\":\"CN\",\"resolution\":\"1080*2400\",\"rom\":\"UP1A.231005.007\",\"rom_version\":\"UP1A.231005.007\",\"serial_number\":\"\",\"sig_hash\":\"\",\"sim_region\":\"cn\",\"timezone\":8,\"tz_name\":\"Asia/Shanghai\",\"tz_offset\":28800,\"update_version_code\":100102018,\"version_code\":100102018,\"version_name\":\"1.1.2\"},\"magic_tag\":\"ss_app_log\"}"@
}

/// The JSON body of a device registration.
pub fn register_body(openudid: &str, clientudid: &str, cdid: &str, now_ms: u64) -> (r: String)
    ensures
        r@ == register_body_text(openudid@, clientudid@, cdid@, now_ms),
{
    let mut out = "{\"_gen_time\":".to_owned();
    push_decimal(&mut out, now_ms);
    out.append(",\"header\":{\"access\":\"wifi\",\"aid\":401734,\"app_name\":\"oime\",\"build_serial\":\"unknown\",\"carrier_region\":\"cn\",\"cdid\":");
    push_json_str(&mut out, cdid);
    out.append(",\"channel\":\"official\",\"clientudid\":");
    push_json_str(&mut out, clientudid);
    out.append(",\"cpu_abi\":\"arm64-v8a\",\"device_brand\":\"google\",\"device_id\":0,\"device_model\":\"Pixel 7 Pro\",\"device_platform\":\"android\",\"device_type\":\"Pixel 7 Pro\",\"dpi\":\"420\",\"google_aid\":\"\",\"install_id\":0,\"language\":\"zh\",\"manifest_version_code\":100102018,\"mc\":\"\",\"not_request_sender\":0,\"openudid\":");
    push_json_str(&mut out, openudid);
    out.append(",\"os\":\"android\",\"os_api\":\"34\",\"os_version\":\"16\",\"package\":\"com.bytedance.android.doubaoime\",\"region\":\"CN\",\"resolution\":\"1080*2400\",\"rom\":\"UP1A.231005.007\",\"rom_version\":\"UP1A.231005.007\",\"serial_number\":\"\",\"sig_hash\":\"\",\"sim_region\":\"cn\",\"timezone\":8,\"tz_name\":\"Asia/Shanghai\",\"tz_offset\":28800,\"update_version_code\":100102018,\"version_code\":100102018,\"version_name\":\"1.1.2\"},\"magic_tag\":\"ss_app_log\"}");
    out
}

/// The form body of a token request.
pub const SETTINGS_BODY: &'static str = "body=null";

/// The `x-ss-stub` header of a token request: the MD5 digest of the body in
/// upper-case hexadecimal.
pub open spec fn settings_stub_text() -> Seq<char> {
    hex_upper_text(md5_of(encode_utf8(SETTINGS_BODY@)))
}

/// The `x-ss-stub` header of a token request.
pub fn settings_stub() -> (r: String)
    ensures
        r@ == settings_stub_text(),
{
    let digest = md5_digest(SETTINGS_BODY.as_bytes());
    hex_upper(digest.as_slice())
}

/// A fresh random `openudid`: eight random bytes in lower-case hexadecimal.
pub fn random_openudid() -> (r: String)
    ensures
        exists|bytes: Seq<u8>| bytes.len() == 8 && r@ == hex_lower_text(bytes),
{
    let bytes = random_bytes_8();
    hex_encode(bytes.as_slice())
}

/// The ids and the time of a new device registration.
#[derive(Clone, Debug, PartialEq, Eq)]
pub struct Registration {
    pub cdid: String,
    pub openudid: String,
    pub clientudid: String,
    pub now_ms: u64,
}

/// Fresh ids for a new device: random UUIDs for `cdid` and `clientudid`,
/// eight random bytes in hexadecimal for `openudid`; and the time, by the
/// system clock.
pub fn new_registration() -> (r: Registration)
    ensures
        is_uuid_text(r.cdid@),
        is_uuid_text(r.clientudid@),
        exists|bytes: Seq<u8>| bytes.len() == 8 && r.openudid@ == hex_lower_text(bytes),
{
    let cdid = uuid_hyphenated();
    let openudid = random_openudid();
    let clientudid = uuid_hyphenated();
    let now_ms = now_millis();
    Registration { cdid, openudid, clientudid, now_ms }
}

/// The query parameters of a token request, stamped with the time by the
/// system clock.
pub fn token_request_params(cdid: &str, device_id: &str) -> (r: Vec<(String, String)>)
    ensures
        exists|now_ms: u64| pairs_view(r@) == settings_params_spec(cdid@, device_id@, now_ms),
{
    settings_params(cdid, device_id, now_millis())
}

// ---------------------------------------------------------------------------
// The answers

/// Whether an HTTP status is a success (2xx).
pub open spec fn is_success(status: u16) -> bool {
    200 <= status <= 299
}

/// A found string field when it is non-empty and not `0`, else a found
/// number field when it is a non-zero integer, in decimal.
pub open spec fn string_or_number_of(string_field: JsonFact, number_field: JsonFact) -> Option<Seq<char>> {
    match string_field {
        JsonFact::Str(v) if v.len() > 0 && v != seq!['0'] => Some(v),
        _ => match number_field {
            JsonFact::Number(Some(n)) if n != 0 => Some(decimal(n as nat)),
            _ => None,
        },
    }
}

/// What a lookup found, a lookup that failed counting as nothing found.
pub open spec fn found(lookup: Result<JsonFact, Seq<char>>) -> JsonFact {
    match lookup {
        Ok(f) => f,
        Err(_) => JsonFact::Missing,
    }
}

/// The value of a string field when it is non-empty and not `0`, else of a
/// number field when it is a non-zero integer, in decimal.
pub open spec fn string_or_number_spec(text: Seq<char>, string_key: Seq<char>, number_key: Seq<char>) -> Option<Seq<char>> {
    string_or_number_of(
        found(json_lookup(text, seq!['/'] + string_key)),
        found(json_lookup(text, seq!['/'] + number_key)),
    )
}

fn pointer_to(key: &str) -> (r: String)
    ensures
        r@ == seq!['/'] + key@,
{
    let mut out = String::new();
    crate::text::push_char(&mut out, '/');
    out.append(key);
    out
}

fn lookup_or_missing(text: &str, pointer: &str) -> (r: JsonKind)
    ensures
        r@ == found(json_lookup(text@, pointer@)),
{
    match json_at(text, pointer) {
        Ok(kind) => kind,
        Err(_) => JsonKind::Missing,
    }
}

/// A found string field when it is non-empty and not `0`, else a found
/// number field when it is a non-zero integer, in decimal.
pub fn string_or_number(string_field: &JsonKind, number_field: &JsonKind) -> (r: Option<String>)
    ensures
        match r {
            Some(v) => string_or_number_of(string_field@, number_field@) == Some(v@),
            None => string_or_number_of(string_field@, number_field@) is None,
        },
{
    match string_field {
        JsonKind::Str(v) => {
            let mut zero = String::new();
            crate::text::push_char(&mut zero, '0');
            if !v.as_str().is_empty() && !str_eq(v.as_str(), zero.as_str()) {
                return Some(v.clone());
            }
        },
        _ => {},
    }
    match number_field {
        JsonKind::Number(Some(n)) => {
            if *n != 0 {
                return Some(decimal_string(*n));
            }
            None
        },
        _ => None,
    }
}

/// The value of a string field when it is non-empty and not `0`, else of a
/// number field when it is a non-zero integer, in decimal.
pub fn json_string_or_number(text: &str, string_key: &str, number_key: &str) -> (r: Option<String>)
    ensures
        match r {
            Some(v) => string_or_number_spec(text@, string_key@, number_key@) == Some(v@),
            None => string_or_number_spec(text@, string_key@, number_key@) is None,
        },
{
    let string_field = lookup_or_missing(text, pointer_to(string_key).as_str());
    let number_field = lookup_or_missing(text, pointer_to(number_key).as_str());
    string_or_number(&string_field, &number_field)
}

/// An answer of the backend read as JSON: the JSON printed back, and the
/// text it was printed from.
pub open spec fn json_answer(body: Seq<u8>) -> Option<(Seq<char>, Seq<char>)> {
    if !valid_utf8(body) {
        None
    } else {
        match json_compact_of(decode_utf8(body)) {
            None => None,
            Some(shown) => Some((shown, decode_utf8(body))),
        }
    }
}

/// What a registration answer holds where it is read.
#[derive(Debug)]
pub struct RegisterAnswer {
    /// The answer's JSON, printed back.
    pub shown: String,
    pub device_id_str: JsonKind,
    pub device_id: JsonKind,
    pub install_id_str: JsonKind,
    pub install_id: JsonKind,
}

/// The contents of a [`RegisterAnswer`].
pub ghost struct RegisterAnswerFacts {
    pub shown: Seq<char>,
    pub device_id_str: JsonFact,
    pub device_id: JsonFact,
    pub install_id_str: JsonFact,
    pub install_id: JsonFact,
}

impl View for RegisterAnswer {
    type V = RegisterAnswerFacts;

    open spec fn view(&self) -> RegisterAnswerFacts {
        RegisterAnswerFacts {
            shown: self.shown@,
            device_id_str: self.device_id_str@,
            device_id: self.device_id@,
            install_id_str: self.install_id_str@,
            install_id: self.install_id@,
        }
    }
}

/// What a registration answer with body `body` holds; `None` when the body
/// is not JSON.
pub open spec fn register_answer_spec(body: Seq<u8>) -> Option<RegisterAnswerFacts> {
    match json_answer(body) {
        None => None,
        Some((shown, text)) => Some(
            RegisterAnswerFacts {
                shown: shown,
                device_id_str: found(json_lookup(text, "/device_id_str"@)),
                device_id: found(json_lookup(text, "/device_id"@)),
                install_id_str: found(json_lookup(text, "/install_id_str"@)),
                install_id: found(json_lookup(text, "/install_id"@)),
            },
        ),
    }
}

/// Reads a registration answer; `None` when its body is not JSON.
pub fn read_register_answer(body: &[u8]) -> (r: Option<RegisterAnswer>)
    ensures
        match r {
            Some(a) => register_answer_spec(body@) == Some(a@),
            None => register_answer_spec(body@) is None,
        },
{
    let text = match utf8_to_string(body) {
        None => return None,
        Some(t) => t,
    };
    let shown = match json_compact(text.as_str()) {
        None => return None,
        Some(s) => s,
    };
    Some(
        RegisterAnswer {
            shown,
            device_id_str: lookup_or_missing(text.as_str(), "/device_id_str"),
            device_id: lookup_or_missing(text.as_str(), "/device_id"),
            install_id_str: lookup_or_missing(text.as_str(), "/install_id_str"),
            install_id: lookup_or_missing(text.as_str(), "/install_id"),
        },
    )
}

/// The ids that a registration answer gives, or the message of its
/// failure: the body must be JSON, the status a success, and the answer
/// must name the device; a missing install id is empty.
pub open spec fn registration_spec(
    status: u16,
    status_text: Seq<char>,
    answer: Option<RegisterAnswerFacts>,
) -> Result<(Seq<char>, Seq<char>), Seq<char>> {
    match answer {
        None => Err("invalid register JSON"@),
        Some(a) => if !is_success(status) {
            Err("device registration failed: HTTP "@ + status_text + " "@ + a.shown)
        } else {
            match string_or_number_of(a.device_id_str, a.device_id) {
                None => Err("device registration response missing device_id: "@ + a.shown),
                Some(device_id) => Ok(
                    (
                        device_id,
                        match string_or_number_of(a.install_id_str, a.install_id) {
                            Some(install_id) => install_id,
                            None => Seq::empty(),
                        },
                    ),
                ),
            }
        },
    }
}

/// The credentials that a registration answer gives for the device with
/// the given ids, no token yet; or the message of its failure.
pub fn registration_from(
    status: u16,
    status_text: &str,
    answer: &Option<RegisterAnswer>,
    cdid: &str,
    openudid: &str,
    clientudid: &str,
) -> (r: Result<CachedCredentials, String>)
    ensures
        match r {
            Ok(c) => registration_spec(
                status,
                status_text@,
                match answer {
                    Some(a) => Some(a@),
                    None => None,
                },
            ) == Ok::<(Seq<char>, Seq<char>), Seq<char>>((c.device_id@, c.install_id@))
                && c.cdid@ == cdid@ && c.openudid@ == openudid@ && c.clientudid@ == clientudid@
                && c.token@.len() == 0,
            Err(m) => registration_spec(
                status,
                status_text@,
                match answer {
                    Some(a) => Some(a@),
                    None => None,
                },
            ) == Err::<(Seq<char>, Seq<char>), Seq<char>>(m@),
        },
{
    let a = match answer {
        None => return Err("invalid register JSON".to_owned()),
        Some(a) => a,
    };
    if !(200 <= status && status <= 299) {
        let mut message = "device registration failed: HTTP ".to_owned();
        message.append(status_text);
        message.append(" ");
        message.append(a.shown.as_str());
        return Err(message);
    }
    let device_id = match string_or_number(&a.device_id_str, &a.device_id) {
        None => {
            let mut message = "device registration response missing device_id: ".to_owned();
            message.append(a.shown.as_str());
            return Err(message);
        },
        Some(d) => d,
    };
    let install_id = match string_or_number(&a.install_id_str, &a.install_id) {
        None => String::new(),
        Some(i) => i,
    };
    Ok(
        CachedCredentials {
            device_id,
            install_id,
            cdid: cdid.to_owned(),
            openudid: openudid.to_owned(),
            clientudid: clientudid.to_owned(),
            token: String::new(),
        },
    )
}

/// Reads the answer to a device registration: the HTTP status and its text
/// (`404 Not Found`), and the body.
pub fn register_outcome(
    status: u16,
    status_text: &str,
    body: &[u8],
    cdid: &str,
    openudid: &str,
    clientudid: &str,
) -> (r: Result<CachedCredentials, String>)
    ensures
        match r {
            Ok(c) => registration_spec(status, status_text@, register_answer_spec(body@)) == Ok::<
                (Seq<char>, Seq<char>),
                Seq<char>,
            >((c.device_id@, c.install_id@)) && c.cdid@ == cdid@ && c.openudid@ == openudid@
                && c.clientudid@ == clientudid@ && c.token@.len() == 0,
            Err(m) => registration_spec(status, status_text@, register_answer_spec(body@)) == Err::<
                (Seq<char>, Seq<char>),
                Seq<char>,
            >(m@),
        },
{
    let answer = read_register_answer(body);
    registration_from(status, status_text, &answer, cdid, openudid, clientudid)
}

/// What a token answer holds where it is read.
#[derive(Debug)]
pub struct TokenAnswer {
    /// The answer's JSON, printed back.
    pub shown: String,
    /// `data.settings.asr_config.app_key`.
    pub app_key: JsonKind,
}

/// What a token answer with body `body` holds, its JSON printed back and
/// its app key; `None` when the body is not JSON.
pub open spec fn token_answer_spec(body: Seq<u8>) -> Option<(Seq<char>, JsonFact)> {
    match json_answer(body) {
        None => None,
        Some((shown, text)) => Some(
            (shown, found(json_lookup(text, "/data/settings/asr_config/app_key"@))),
        ),
    }
}

/// Reads a token answer; `None` when its body is not JSON.
pub fn read_token_answer(body: &[u8]) -> (r: Option<TokenAnswer>)
    ensures
        match r {
            Some(a) => token_answer_spec(body@) == Some((a.shown@, a.app_key@)),
            None => token_answer_spec(body@) is None,
        },
{
    let text = match utf8_to_string(body) {
        None => return None,
        Some(t) => t,
    };
    let shown = match json_compact(text.as_str()) {
        None => return None,
        Some(s) => s,
    };
    Some(
        TokenAnswer {
            shown,
            app_key: lookup_or_missing(text.as_str(), "/data/settings/asr_config/app_key"),
        },
    )
}

/// The token that a token answer gives: its non-empty app key; or the
/// message of its failure.
pub open spec fn token_spec(status: u16, status_text: Seq<char>, answer: Option<(Seq<char>, JsonFact)>) -> Result<Seq<char>, Seq<char>> {
    match answer {
        None => Err("invalid settings JSON"@),
        Some((shown, app_key)) => if !is_success(status) {
            Err("ASR token request failed: HTTP "@ + status_text + " "@ + shown)
        } else {
            match app_key {
                JsonFact::Str(token) if token.len() > 0 => Ok(token),
                _ => Err("settings response missing asr_config.app_key: "@ + shown),
            }
        },
    }
}

/// The token that a token answer gives, or the message of its failure.
pub fn token_from(status: u16, status_text: &str, answer: &Option<TokenAnswer>) -> (r: Result<String, String>)
    ensures
        match r {
            Ok(t) => token_spec(status, status_text@, match answer {
                Some(a) => Some((a.shown@, a.app_key@)),
                None => None,
            }) == Ok::<Seq<char>, Seq<char>>(t@),
            Err(m) => token_spec(status, status_text@, match answer {
                Some(a) => Some((a.shown@, a.app_key@)),
                None => None,
            }) == Err::<Seq<char>, Seq<char>>(m@),
        },
{
    let a = match answer {
        None => return Err("invalid settings JSON".to_owned()),
        Some(a) => a,
    };
    if !(200 <= status && status <= 299) {
        let mut message = "ASR token request failed: HTTP ".to_owned();
        message.append(status_text);
        message.append(" ");
        message.append(a.shown.as_str());
        return Err(message);
    }
    match &a.app_key {
        JsonKind::Str(token) => {
            if !token.as_str().is_empty() {
                return Ok(token.clone());
            }
        },
        _ => {},
    }
    let mut message = "settings response missing asr_config.app_key: ".to_owned();
    message.append(a.shown.as_str());
    Err(message)
}

/// Reads the answer to a token request: the HTTP status and its text, and
/// the body.
pub fn token_outcome(status: u16, status_text: &str, body: &[u8]) -> (r: Result<String, String>)
    ensures
        match r {
            Ok(t) => token_spec(status, status_text@, token_answer_spec(body@)) == Ok::<Seq<char>, Seq<char>>(t@),
            Err(m) => token_spec(status, status_text@, token_answer_spec(body@)) == Err::<Seq<char>, Seq<char>>(m@),
        },
{
    let answer = read_token_answer(body);
    token_from(status, status_text, &answer)
}

} // verus!
