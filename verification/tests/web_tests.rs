use seedrelay::web::{http_response_with_config, http_request_is_decodable, WebRuntimeConfig};

fn default_web_response(method: &str, target: &str) -> Option<String> {
    http_response_with_config(method, target, &WebRuntimeConfig::default(), true)
}

#[test]
fn renders_index_page_response() {
    let response = default_web_response("GET", "/").expect("index response");

    assert!(response.starts_with("HTTP/1.1 200 OK\r\n"));
    assert!(response.contains("content-type: text/html; charset=utf-8\r\n"));
    assert!(response.contains("SeedRelay"));
}

#[test]
fn serves_runtime_web_config() {
    let config = WebRuntimeConfig {
        model: "custom-asr".into(),
        api_key: Some("local-secret".into()),
    };
    let response =
        http_response_with_config("GET", "/config.json", &config, true).expect("config response");

    assert!(response.starts_with("HTTP/1.1 200 OK\r\n"));
    assert!(response.contains("content-type: application/json; charset=utf-8\r\n"));
    assert!(response.contains(r#""model":"custom-asr""#));
    assert!(response.contains(r#""authRequired":true"#));
    assert!(!response.contains("local-secret"));
    assert!(!response.contains("apiKey"));
}

#[test]
fn default_runtime_web_config_has_no_api_key() {
    let response = default_web_response("GET", "/config.json").expect("config response");

    assert!(response.contains(r#""model":"seed-asr""#));
    assert!(response.contains(r#""authRequired":false"#));
    assert!(!response.contains("apiKey"));
}

#[test]
fn rejects_unknown_http_path() {
    let response = default_web_response("GET", "/missing").expect("404 response");

    assert!(response.starts_with("HTTP/1.1 404 Not Found\r\n"));
}

#[test]
fn health_endpoint_is_available_even_when_web_ui_is_disabled() {
    let config = WebRuntimeConfig::default();
    let get = http_response_with_config("GET", "/health", &config, false).expect("health get");
    let head = http_response_with_config("HEAD", "/health", &config, false).expect("health head");

    assert!(get.starts_with("HTTP/1.1 200 OK\r\n"));
    assert!(get.ends_with(r#"{"ok":true}"#));
    assert!(head.starts_with("HTTP/1.1 200 OK\r\n"));
    assert!(head.contains("content-length: 11\r\n"));
    assert!(head.ends_with("\r\n\r\n"));
    assert!(!head.ends_with(r#"{"ok":true}"#));
}

#[test]
fn web_ui_assets_return_404_when_web_ui_is_disabled() {
    let config = WebRuntimeConfig::default();

    for target in [
        "/",
        "/index.html",
        "/font.css",
        "/styles.css",
        "/app.js",
        "/config.json",
    ] {
        let response =
            http_response_with_config("GET", target, &config, false).expect("disabled web");

        assert!(
            response.starts_with("HTTP/1.1 404 Not Found\r\n"),
            "{target} should be disabled"
        );
        assert!(response.ends_with("not found"));
    }
}

#[test]
fn serves_openai_model_list_endpoint() {
    let config = WebRuntimeConfig {
        model: "custom-asr".into(),
        api_key: None,
    };
    let response =
        http_response_with_config("GET", "/v1/models", &config, false).expect("models response");

    assert!(response.starts_with("HTTP/1.1 200 OK\r\n"));
    assert!(response.contains("content-type: application/json; charset=utf-8\r\n"));
    assert!(response.contains(r#""object":"list""#));
    assert!(response.contains(r#""id":"custom-asr""#));
    assert!(response.contains(r#""owned_by":"seedrelay""#));
}

#[test]
fn openai_model_endpoints_work_when_web_ui_is_disabled() {
    let config = WebRuntimeConfig {
        model: "seed-asr".into(),
        api_key: None,
    };
    let response =
        http_response_with_config("GET", "/v1/models", &config, false).expect("models response");

    assert!(response.starts_with("HTTP/1.1 200 OK\r\n"));
    assert!(response.contains(r#""id":"seed-asr""#));
}

#[test]
fn serves_openai_single_model_endpoint() {
    let config = WebRuntimeConfig {
        model: "custom/asr".into(),
        api_key: None,
    };
    let response = http_response_with_config("GET", "/v1/models/custom%2Fasr", &config, false)
        .expect("model response");

    assert!(response.starts_with("HTTP/1.1 200 OK\r\n"));
    assert!(response.contains(r#""id":"custom/asr""#));
    assert!(response.contains(r#""object":"model""#));
}

#[test]
fn serves_encoded_openai_model_names_with_spaces() {
    let config = WebRuntimeConfig {
        model: "custom/asr v2".into(),
        api_key: None,
    };

    for target in ["/v1/models/custom%2Fasr%20v2", "/v1/models/custom%2Fasr+v2"] {
        let response =
            http_response_with_config("GET", target, &config, false).expect("model response");

        assert!(response.starts_with("HTTP/1.1 200 OK\r\n"));
        assert!(response.contains(r#""id":"custom/asr v2""#));
    }
}

#[test]
fn returns_model_not_found_for_unknown_model_endpoint() {
    let config = WebRuntimeConfig {
        model: "seed-asr".into(),
        api_key: None,
    };
    let response = http_response_with_config("GET", "/v1/models/other", &config, false)
        .expect("missing model response");

    assert!(response.starts_with("HTTP/1.1 404 Not Found\r\n"));
    assert!(response.contains(r#""code":"model_not_found""#));
    assert!(response.contains(r#""param":"model""#));
}

#[test]
fn openai_model_endpoint_errors_include_requested_encoded_model() {
    let config = WebRuntimeConfig {
        model: "seed-asr".into(),
        api_key: None,
    };
    let response = http_response_with_config("GET", "/v1/models/missing%2Fasr+v1", &config, false)
        .expect("missing model response");

    assert!(response.starts_with("HTTP/1.1 404 Not Found\r\n"));
    assert!(response.contains("missing/asr v1"));
    assert!(response.contains(r#""code":"model_not_found""#));
}

#[test]
fn unsupported_methods_do_not_serve_openai_model_endpoints() {
    let config = WebRuntimeConfig {
        model: "seed-asr".into(),
        api_key: None,
    };

    for target in ["/v1/models", "/v1/models/seed-asr"] {
        let response =
            http_response_with_config("POST", target, &config, false).expect("method response");

        assert!(response.starts_with("HTTP/1.1 404 Not Found\r\n"));
        assert!(!response.contains(r#""object":"list""#));
        assert!(!response.contains(r#""object":"model""#));
    }
}

#[test]
fn model_endpoints_support_head_without_body() {
    let config = WebRuntimeConfig {
        model: "seed-asr".into(),
        api_key: None,
    };
    let response =
        http_response_with_config("HEAD", "/v1/models", &config, false).expect("models head");

    assert!(response.starts_with("HTTP/1.1 200 OK\r\n"));
    assert!(response.contains("content-length: "));
    assert!(response.ends_with("\r\n\r\n"));
    assert!(!response.contains(r#""object":"list""#));
}

#[test]
fn responses_carry_exact_headers_and_lengths() {
    let config = WebRuntimeConfig::default();
    assert_eq!(
        http_response_with_config("GET", "/health", &config, false).unwrap(),
        "HTTP/1.1 200 OK\r\ncontent-type: application/json; charset=utf-8\r\ncontent-length: 11\r\ncache-control: no-store\r\nconnection: close\r\n\r\n{\"ok\":true}"
    );
    assert_eq!(
        http_response_with_config("GET", "/config.json?x=1", &config, true).unwrap(),
        "HTTP/1.1 200 OK\r\ncontent-type: application/json; charset=utf-8\r\ncontent-length: 41\r\ncache-control: no-store\r\nconnection: close\r\n\r\n{\"authRequired\":false,\"model\":\"seed-asr\"}"
    );
    let head = http_response_with_config("HEAD", "/", &config, true).unwrap();
    assert!(head.starts_with("HTTP/1.1 200 OK\r\ncontent-type: text/html; charset=utf-8\r\n"));
    assert!(head.ends_with("\r\n\r\n"));
    assert!(!head.contains("<html"));
}

#[test]
fn model_names_that_decoding_refuses_are_reported() {
    assert!(http_request_is_decodable("GET", "/v1/models/seed-asr"));
    assert!(!http_request_is_decodable("GET", "/v1/models/%a\u{e9}"));
    assert!(http_request_is_decodable("POST", "/v1/models/%a\u{e9}"));
}

#[test]
fn head_responses_are_get_responses_without_bodies() {
    let config = WebRuntimeConfig::default();
    for web_enabled in [true, false] {
        for target in ["/", "/health", "/v1/models", "/v1/models/seed-asr", "/v1/models/x", "/config.json", "/missing"] {
            let head = http_response_with_config("HEAD", target, &config, web_enabled).unwrap();
            let get = http_response_with_config("GET", target, &config, web_enabled).unwrap();
            assert!(get.starts_with(&head), "{target}");
        }
    }
}

#[test]
fn app_js_sends_the_api_key_as_a_subprotocol() {
    let js = seedrelay::assets::APP_JS;
    assert!(js.contains("openai-insecure-api-key."));
    assert!(js.contains("new WebSocket(url, protocols)"));
    assert!(!js.contains("&api_key="));
}
