//! Plain HTTP responses: health, model endpoints, and the web UI.
use vstd::prelude::*;
use vstd::utf8::*;

use crate::assets::{APP_JS, FONT_CSS, INDEX_HTML, STYLES_CSS};
use crate::config::DEFAULT_MODEL;
use crate::json::{decimal, json_str, push_decimal, push_json_str};
use crate::models::{
    model_list_response, model_list_text, model_not_found_error, model_not_found_text,
    model_object_response, model_object_text,
};
use crate::text::chars_of;
use crate::url::{
    ascii_chars, decode_url_component, encode_bytes, law_query_component_roundtrip,
    lemma_ascii_chars_encode, lemma_encode_bytes_ascii, lemma_encode_bytes_plain, lemma_find_byte,
    split_once_slice, string_from_utf8, str_eq, target_path, url_decoded, url_escapes_whole,
};

verus! {

broadcast use {encode_utf8_valid_utf8, encode_utf8_decode_utf8};

/// What the web UI needs to know of the server.
#[derive(Debug, Clone, Eq, PartialEq)]
pub struct WebRuntimeConfig {
    pub model: String,
    pub api_key: Option<String>,
}

impl Default for WebRuntimeConfig {
    fn default() -> (r: Self)
        ensures
            r.model@ == DEFAULT_MODEL@,
            r.api_key is None,
    {
        WebRuntimeConfig { model: DEFAULT_MODEL.to_owned(), api_key: None }
    }
}

/// An HTTP/1.1 response that closes the connection; a `HEAD` response keeps
/// the length of the body it leaves out.
pub open spec fn response_text(
    status: Seq<char>,
    content_type: Seq<char>,
    body: Seq<char>,
    head_only: bool,
) -> Seq<char> {
    "HTTP/1.1 "@ + status + "\r\ncontent-type: "@ + content_type + "\r\ncontent-length: "@
        + decimal(encode_utf8(body).len()) + "\r\ncache-control: no-store\r\nconnection: close\r\n\r\n"@
        + if head_only {
        Seq::empty()
    } else {
        body
    }
}

/// A JSON response.
pub open spec fn json_response_text(status: Seq<char>, body: Seq<char>, head_only: bool) -> Seq<char> {
    response_text(status, "application/json; charset=utf-8"@, body, head_only)
}

/// The plain-text 404 response.
pub open spec fn not_found_text() -> Seq<char> {
    response_text("404 Not Found"@, "text/plain; charset=utf-8"@, "not found"@, false)
}

/// `{"authRequired":<bool>,"model":<model>}`.
pub open spec fn config_json_text(model: Seq<char>, auth_required: bool) -> Seq<char> {
    "{\"authRequired\":"@ + (if auth_required {
        "true"@
    } else {
        "false"@
    }) + ",\"model\":"@ + json_str(model) + "}"@
}

/// The path of a request target: what precedes the first `?`.
pub open spec fn request_path(target: Seq<char>) -> Seq<char> {
    decode_utf8(target_path(encode_utf8(target)))
}

/// The prefix of the single-model endpoint.
pub open spec fn model_prefix() -> Seq<char> {
    "/v1/models/"@
}

/// Whether `path` names one model: the prefix and the encoded model name.
pub open spec fn is_model_path(path: Seq<char>) -> bool {
    path.len() >= model_prefix().len() && path.take(model_prefix().len() as int) == model_prefix()
}

/// The encoded model name in a single-model path.
pub open spec fn model_path_name(path: Seq<char>) -> Seq<char> {
    path.skip(model_prefix().len() as int)
}

/// Whether the method is `GET` or `HEAD`.
pub open spec fn is_read_method(method: Seq<char>) -> bool {
    method == "GET"@ || method == "HEAD"@
}

/// The requests whose model name the router decodes hold names that
/// decoding accepts.
pub open spec fn http_request_decodable(method: Seq<char>, target: Seq<char>) -> bool {
    let path = request_path(target);
    (is_read_method(method) && path != "/health"@ && path != "/v1/models"@ && is_model_path(path))
        ==> url_escapes_whole(encode_utf8(model_path_name(path)))
}

/// The response to a plain HTTP request.
///
/// Health and model endpoints answer `GET` and `HEAD` always; the web UI
/// and its runtime configuration only when the UI is enabled; everything
/// else is a 404.
pub open spec fn http_response_spec(
    method: Seq<char>,
    target: Seq<char>,
    model: Seq<char>,
    auth_required: bool,
    web_enabled: bool,
) -> Seq<char> {
    let path = request_path(target);
    let head = method == "HEAD"@;
    if is_read_method(method) && path == "/health"@ {
        json_response_text("200 OK"@, "{\"ok\":true}"@, head)
    } else if is_read_method(method) && path == "/v1/models"@ {
        json_response_text("200 OK"@, model_list_text(model), head)
    } else if is_read_method(method) && is_model_path(path) {
        let requested = url_decoded(model_path_name(path));
        if requested == model {
            json_response_text("200 OK"@, model_object_text(model), head)
        } else {
            json_response_text("404 Not Found"@, model_not_found_text(requested), head)
        }
    } else if !web_enabled {
        not_found_text()
    } else if is_read_method(method) && (path == "/"@ || path == "/index.html"@) {
        response_text("200 OK"@, "text/html; charset=utf-8"@, INDEX_HTML@, head)
    } else if is_read_method(method) && path == "/styles.css"@ {
        response_text("200 OK"@, "text/css; charset=utf-8"@, STYLES_CSS@, head)
    } else if is_read_method(method) && path == "/font.css"@ {
        response_text("200 OK"@, "text/css; charset=utf-8"@, FONT_CSS@, head)
    } else if is_read_method(method) && path == "/app.js"@ {
        response_text("200 OK"@, "application/javascript; charset=utf-8"@, APP_JS@, head)
    } else if is_read_method(method) && path == "/config.json"@ {
        response_text(
            "200 OK"@,
            "application/json; charset=utf-8"@,
            config_json_text(model, auth_required),
            head,
        )
    } else {
        not_found_text()
    }
}

fn response(status: &str, content_type: &str, body: &str, head_only: bool) -> (r: String)
    ensures
        r@ == response_text(status@, content_type@, body@, head_only),
{
    let mut out = String::new();
    out.append("HTTP/1.1 ");
    out.append(status);
    out.append("\r\ncontent-type: ");
    out.append(content_type);
    out.append("\r\ncontent-length: ");
    let body_len: usize = body.as_bytes().len();
    push_decimal(&mut out, body_len as u64);
    out.append("\r\ncache-control: no-store\r\nconnection: close\r\n\r\n");
    if !head_only {
        out.append(body);
    }
    assert(out@ =~= response_text(status@, content_type@, body@, head_only));
    out
}

fn json_response(status: &str, body: &str, head_only: bool) -> (r: String)
    ensures
        r@ == json_response_text(status@, body@, head_only),
{
    response(status, "application/json; charset=utf-8", body, head_only)
}

fn config_json(config: &WebRuntimeConfig) -> (r: String)
    ensures
        r@ == config_json_text(config.model@, config.api_key is Some),
{
    let mut out = String::new();
    out.append("{\"authRequired\":");
    if config.api_key.is_some() {
        out.append("true");
    } else {
        out.append("false");
    }
    out.append(",\"model\":");
    push_json_str(&mut out, config.model.as_str());
    out.append("}");
    assert(out@ =~= config_json_text(config.model@, config.api_key is Some));
    out
}

/// `s` without the prefix `prefix`, when it starts with it.
fn strip_prefix(s: &str, prefix: &str) -> (r: Option<String>)
    ensures
        match r {
            Some(rest) => s@.len() >= prefix@.len() && s@.take(prefix@.len() as int) == prefix@
                && rest@ == s@.skip(prefix@.len() as int),
            None => !(s@.len() >= prefix@.len() && s@.take(prefix@.len() as int) == prefix@),
        },
{
    let sv = chars_of(s);
    let pv = chars_of(prefix);
    if sv.len() < pv.len() {
        return None;
    }
    let mut i: usize = 0;
    while i < pv.len()
        invariant
            sv@ == s@,
            pv@ == prefix@,
            pv@.len() <= sv@.len(),
            i <= pv@.len(),
            forall|j: int| 0 <= j < i ==> sv@[j] == pv@[j],
        decreases pv@.len() - i,
    {
        if sv[i] != pv[i] {
            assert(s@.take(prefix@.len() as int)[i as int] != prefix@[i as int]);
            return None;
        }
        i = i + 1;
    }
    assert(s@.take(prefix@.len() as int) =~= prefix@);
    let rest = crate::text::string_of_chars(&sv, pv.len(), sv.len());
    assert(rest@ =~= s@.skip(prefix@.len() as int));
    Some(rest)
}

/// The response to a plain HTTP request with method `method` and request
/// target `target`.
pub fn http_response_with_config(
    method: &str,
    target: &str,
    config: &WebRuntimeConfig,
    web_enabled: bool,
) -> (r: Option<String>)
    requires
        http_request_decodable(method@, target@),
    ensures
        r matches Some(text) && text@ == http_response_spec(
            method@,
            target@,
            config.model@,
            config.api_key is Some,
            web_enabled,
        ),
{
    let (path_bytes, _) = split_once_slice(target.as_bytes(), 63);
    let path = string_from_utf8(path_bytes);
    let path = path.as_str();
    let is_get = str_eq(method, "GET");
    let is_head = str_eq(method, "HEAD");
    let read = is_get || is_head;
    let ghost spec = http_response_spec(
        method@,
        target@,
        config.model@,
        config.api_key is Some,
        web_enabled,
    );
    if read && str_eq(path, "/health") {
        return Some(json_response("200 OK", "{\"ok\":true}", is_head));
    }
    if read {
        if str_eq(path, "/v1/models") {
            let body = model_list_response(config.model.as_str());
            return Some(json_response("200 OK", body.as_str(), is_head));
        }
        if let Some(raw_model) = strip_prefix(path, "/v1/models/") {
            let requested_model = decode_url_component(raw_model.as_str());
            if str_eq(requested_model.as_str(), config.model.as_str()) {
                let body = model_object_response(config.model.as_str());
                return Some(json_response("200 OK", body.as_str(), is_head));
            }
            let body = model_not_found_error(requested_model.as_str());
            return Some(json_response("404 Not Found", body.as_str(), is_head));
        }
    }
    if !web_enabled {
        return Some(response("404 Not Found", "text/plain; charset=utf-8", "not found", false));
    }
    if read && (str_eq(path, "/") || str_eq(path, "/index.html")) {
        Some(response("200 OK", "text/html; charset=utf-8", INDEX_HTML, is_head))
    } else if read && str_eq(path, "/styles.css") {
        Some(response("200 OK", "text/css; charset=utf-8", STYLES_CSS, is_head))
    } else if read && str_eq(path, "/font.css") {
        Some(response("200 OK", "text/css; charset=utf-8", FONT_CSS, is_head))
    } else if read && str_eq(path, "/app.js") {
        Some(response("200 OK", "application/javascript; charset=utf-8", APP_JS, is_head))
    } else if read && str_eq(path, "/config.json") {
        let body = config_json(config);
        Some(response("200 OK", "application/json; charset=utf-8", body.as_str(), is_head))
    } else {
        Some(response("404 Not Found", "text/plain; charset=utf-8", "not found", false))
    }
}

/// Whether [`http_response_with_config`] accepts the request: the model
/// name it would decode is one that decoding accepts.
pub fn http_request_is_decodable(method: &str, target: &str) -> (r: bool)
    ensures
        r == http_request_decodable(method@, target@),
{
    let (path_bytes, _) = split_once_slice(target.as_bytes(), 63);
    let path = string_from_utf8(path_bytes);
    let read = str_eq(method, "GET") || str_eq(method, "HEAD");
    if read && !str_eq(path.as_str(), "/health") && !str_eq(path.as_str(), "/v1/models") {
        if let Some(raw_model) = strip_prefix(path.as_str(), "/v1/models/") {
            return crate::url::url_component_decodable(raw_model.as_str());
        }
    }
    true
}

// ---------------------------------------------------------------------------
// Laws of the router

/// Whether a request goes to the health or model endpoints.
pub open spec fn is_api_request(method: Seq<char>, target: Seq<char>) -> bool {
    let path = request_path(target);
    is_read_method(method) && (path == "/health"@ || path == "/v1/models"@ || is_model_path(path))
}

/// The health and model endpoints answer the same whether the web UI is
/// enabled or not.
pub proof fn law_api_ignores_web_ui(
    method: Seq<char>,
    target: Seq<char>,
    model: Seq<char>,
    auth_required: bool,
)
    requires
        is_api_request(method, target),
    ensures
        http_response_spec(method, target, model, auth_required, true) == http_response_spec(
            method,
            target,
            model,
            auth_required,
            false,
        ),
{
}

/// With the web UI disabled, every request other than the health and model
/// endpoints is answered with the plain 404.
pub proof fn law_disabled_ui_is_not_found(
    method: Seq<char>,
    target: Seq<char>,
    model: Seq<char>,
    auth_required: bool,
)
    requires
        !is_api_request(method, target),
    ensures
        http_response_spec(method, target, model, auth_required, false) == not_found_text(),
{
}

/// The status line and headers of a response, up to and including the blank
/// line; `content-length` is the byte length of `body`.
pub open spec fn header_block(status: Seq<char>, content_type: Seq<char>, body: Seq<char>) -> Seq<
    char,
> {
    "HTTP/1.1 "@ + status + "\r\ncontent-type: "@ + content_type + "\r\ncontent-length: "@
        + decimal(encode_utf8(body).len()) + "\r\ncache-control: no-store\r\nconnection: close\r\n\r\n"@
}

/// A `HEAD` response is the `GET` response to the same target without its
/// body: both carry the same status line and headers, `content-length`
/// included, which counts the bytes of the body that only `GET` sends. The
/// plain 404 alone is sent whole to both.
pub proof fn law_head_is_get_without_body(
    target: Seq<char>,
    model: Seq<char>,
    auth_required: bool,
    web_enabled: bool,
)
    ensures
        ({
            let head = http_response_spec("HEAD"@, target, model, auth_required, web_enabled);
            let get = http_response_spec("GET"@, target, model, auth_required, web_enabled);
            ||| head == get && get == not_found_text()
            ||| exists|status: Seq<char>, content_type: Seq<char>, body: Seq<char>|
                #![trigger header_block(status, content_type, body)]
                head == header_block(status, content_type, body) && get == head + body
        }),
{
    reveal_strlit("HEAD");
    reveal_strlit("GET");
    assert("HEAD"@.len() == 4 && "GET"@.len() == 3);
    assert forall|status: Seq<char>, content_type: Seq<char>, body: Seq<char>|
        #![trigger response_text(status, content_type, body, true)]
        response_text(status, content_type, body, true) == header_block(status, content_type, body)
            && response_text(status, content_type, body, false) == header_block(
            status,
            content_type,
            body,
        ) + body by {
        assert(response_text(status, content_type, body, true) =~= header_block(
            status,
            content_type,
            body,
        ));
        assert(response_text(status, content_type, body, false) =~= header_block(
            status,
            content_type,
            body,
        ) + body);
    }
}

/// The web UI's files are served while the UI is enabled: a `GET` or
/// `HEAD` of `/` or `/index.html`, `/styles.css`, `/font.css` or `/app.js`
/// is answered `200 OK` with the file's content type and length, and a
/// `GET` carries the file itself.
pub proof fn law_web_assets_served(
    method: Seq<char>,
    target: Seq<char>,
    model: Seq<char>,
    auth_required: bool,
)
    requires
        method == "GET"@ || method == "HEAD"@,
    ensures
        ({
            let path = request_path(target);
            let r = http_response_spec(method, target, model, auth_required, true);
            &&& (path == "/"@ || path == "/index.html"@) ==> r == header_block(
                "200 OK"@,
                "text/html; charset=utf-8"@,
                INDEX_HTML@,
            ) + if method == "GET"@ {
                INDEX_HTML@
            } else {
                Seq::<char>::empty()
            }
            &&& path == "/styles.css"@ ==> r == header_block(
                "200 OK"@,
                "text/css; charset=utf-8"@,
                STYLES_CSS@,
            ) + if method == "GET"@ {
                STYLES_CSS@
            } else {
                Seq::<char>::empty()
            }
            &&& path == "/font.css"@ ==> r == header_block(
                "200 OK"@,
                "text/css; charset=utf-8"@,
                FONT_CSS@,
            ) + if method == "GET"@ {
                FONT_CSS@
            } else {
                Seq::<char>::empty()
            }
            &&& path == "/app.js"@ ==> r == header_block(
                "200 OK"@,
                "application/javascript; charset=utf-8"@,
                APP_JS@,
            ) + if method == "GET"@ {
                APP_JS@
            } else {
                Seq::<char>::empty()
            }
        }),
{
    reveal_strlit("GET");
    reveal_strlit("HEAD");
    reveal_strlit("/");
    reveal_strlit("/index.html");
    reveal_strlit("/styles.css");
    reveal_strlit("/font.css");
    reveal_strlit("/app.js");
    reveal_strlit("/health");
    reveal_strlit("/v1/models");
    reveal_strlit("/v1/models/");
    reveal_strlit("/config.json");
    let path = request_path(target);
    if path == "/"@ || path == "/index.html"@ || path == "/styles.css"@ || path == "/font.css"@
        || path == "/app.js"@ {
        assert(!is_model_path(path)) by {
            if is_model_path(path) {
                assert(path.take(11)[1] == model_prefix()[1]);
            }
        }
        assert(path != "/health"@ && path != "/v1/models"@ && path != "/config.json"@) by {
            assert("/health"@[1] == 'h');
            assert("/v1/models"@[1] == 'v');
            assert("/config.json"@[1] == 'c');
        }
        assert("/styles.css"@ != "/index.html"@) by {
            assert("/styles.css"@[1] == 's' && "/index.html"@[1] == 'i');
        }
        assert("HEAD"@.len() == 4 && "GET"@.len() == 3);
        assert("/"@.len() == 1 && "/font.css"@.len() == 9 && "/app.js"@.len() == 7);
        assert("/styles.css"@.len() == 11 && "/index.html"@.len() == 11);
    }
    assert forall|status: Seq<char>, content_type: Seq<char>, file: Seq<char>, head: bool|
        #![trigger response_text(status, content_type, file, head)]
        response_text(status, content_type, file, head) == header_block(status, content_type, file)
            + (if head {
            Seq::<char>::empty()
        } else {
            file
        }) by {
        assert(response_text(status, content_type, file, head) =~= header_block(
            status,
            content_type,
            file,
        ) + (if head {
            Seq::<char>::empty()
        } else {
            file
        }));
    }
}

/// The API endpoints answer `GET` and `HEAD` with JSON whether or not the
/// web UI is enabled: `/health` with `{"ok":true}`, `/v1/models` with the
/// list that holds the served model, and, with the UI enabled,
/// `/config.json` with whether a key is required and the served model.
pub proof fn law_api_endpoints(
    method: Seq<char>,
    target: Seq<char>,
    model: Seq<char>,
    auth_required: bool,
    web_enabled: bool,
)
    requires
        method == "GET"@ || method == "HEAD"@,
    ensures
        ({
            let path = request_path(target);
            let r = http_response_spec(method, target, model, auth_required, web_enabled);
            let json = "application/json; charset=utf-8"@;
            &&& path == "/health"@ ==> r == header_block("200 OK"@, json, "{\"ok\":true}"@) + (
            if method == "GET"@ {
                "{\"ok\":true}"@
            } else {
                Seq::<char>::empty()
            })
            &&& path == "/v1/models"@ ==> r == header_block("200 OK"@, json, model_list_text(model))
                + (if method == "GET"@ {
                model_list_text(model)
            } else {
                Seq::<char>::empty()
            })
            &&& path == "/config.json"@ && web_enabled ==> r == header_block(
                "200 OK"@,
                json,
                config_json_text(model, auth_required),
            ) + (if method == "GET"@ {
                config_json_text(model, auth_required)
            } else {
                Seq::<char>::empty()
            })
            &&& model_list_text(model) == "{\"data\":[{\"created\":0,\"id\":"@ + json_str(model)
                + ",\"object\":\"model\",\"owned_by\":\"seedrelay\"}],\"object\":\"list\"}"@
        }),
{
    reveal_strlit("GET");
    reveal_strlit("HEAD");
    reveal_strlit("/health");
    reveal_strlit("/v1/models");
    reveal_strlit("/v1/models/");
    reveal_strlit("/config.json");
    reveal_strlit("/");
    reveal_strlit("/index.html");
    reveal_strlit("/styles.css");
    reveal_strlit("/font.css");
    reveal_strlit("/app.js");
    reveal_strlit("{\"data\":[");
    reveal_strlit("{\"created\":0,\"id\":");
    reveal_strlit(",\"object\":\"model\",\"owned_by\":\"seedrelay\"}");
    reveal_strlit("],\"object\":\"list\"}");
    reveal_strlit("{\"data\":[{\"created\":0,\"id\":");
    reveal_strlit(",\"object\":\"model\",\"owned_by\":\"seedrelay\"}],\"object\":\"list\"}");
    assert("HEAD"@.len() == 4 && "GET"@.len() == 3);
    assert("/health"@.len() == 7 && "/v1/models"@.len() == 10 && "/config.json"@.len() == 12);
    assert("/"@.len() == 1 && "/font.css"@.len() == 9 && "/app.js"@.len() == 7);
    assert("/styles.css"@.len() == 11 && "/index.html"@.len() == 11);
    let path = request_path(target);
    if path == "/config.json"@ {
        assert(!is_model_path(path)) by {
            if is_model_path(path) {
                assert(path.take(11)[1] == model_prefix()[1]);
            }
        }
    }
    assert forall|status: Seq<char>, content_type: Seq<char>, file: Seq<char>, head: bool|
        #![trigger response_text(status, content_type, file, head)]
        response_text(status, content_type, file, head) == header_block(status, content_type, file)
            + (if head {
            Seq::<char>::empty()
        } else {
            file
        }) by {
        assert(response_text(status, content_type, file, head) =~= header_block(
            status,
            content_type,
            file,
        ) + (if head {
            Seq::<char>::empty()
        } else {
            file
        }));
    }
    assert(model_list_text(model) =~= "{\"data\":[{\"created\":0,\"id\":"@ + json_str(model)
        + ",\"object\":\"model\",\"owned_by\":\"seedrelay\"}],\"object\":\"list\"}"@);
}

/// Methods other than `GET` and `HEAD` are answered with the plain 404.
pub proof fn law_other_methods_not_found(
    method: Seq<char>,
    target: Seq<char>,
    model: Seq<char>,
    auth_required: bool,
    web_enabled: bool,
)
    requires
        !is_read_method(method),
    ensures
        http_response_spec(method, target, model, auth_required, web_enabled) == not_found_text(),
{
}

/// The single-model path of the served model, its name percent-encoded.
pub open spec fn encoded_model_path(model: Seq<char>) -> Seq<char> {
    model_prefix() + ascii_chars(encode_bytes(encode_utf8(model)))
}

/// The served model is found under its percent-encoded name, and decoding
/// that name cannot fail.
pub proof fn law_encoded_model_path_is_served(
    method: Seq<char>,
    model: Seq<char>,
    auth_required: bool,
    web_enabled: bool,
)
    requires
        is_read_method(method),
    ensures
        http_request_decodable(method, encoded_model_path(model)),
        http_response_spec(method, encoded_model_path(model), model, auth_required, web_enabled)
            == json_response_text("200 OK"@, model_object_text(model), method == "HEAD"@),
{
    let m = encode_utf8(model);
    let e = encode_bytes(m);
    lemma_encode_bytes_plain(m);
    lemma_encode_bytes_ascii(m);
    lemma_ascii_chars_encode(e);
    law_query_component_roundtrip(model);
    reveal_strlit("/v1/models/");
    reveal_strlit("/v1/models");
    reveal_strlit("/health");
    let prefix = model_prefix();
    let t = encoded_model_path(model);
    assert(prefix.len() == 11);
    assert(is_ascii_chars(t)) by {
        assert forall|i: int| 0 <= i < t.len() implies '\0' <= #[trigger] t[i] <= '\u{7f}' by {
            if i >= 11 {
                assert(t[i] == ascii_chars(e)[i - 11]);
                assert(e[i - 11] < 128);
            }
        }
    }
    let b = encode_utf8(t);
    is_ascii_chars_encode_utf8(t);
    assert forall|i: int| 0 <= i < b.len() implies #[trigger] b[i] != 63 by {
        assert(b[i] == t[i] as u8);
        if i >= 11 {
            assert(t[i] == ascii_chars(e)[i - 11]);
        } else {
            assert(t[i] == prefix[i]);
        }
    }
    lemma_find_byte(b, 63);
    assert(target_path(b) == b);
    assert(request_path(t) == t);
    assert(t.take(11) =~= prefix);
    assert(model_path_name(t) =~= ascii_chars(e));
    assert(t != "/health"@);
    assert(t != "/v1/models"@);
}

} // verus!
