use seedrelay::response::AsrEvent;
use seedrelay::server::{
    append_final_transcript, check_realtime_request, offers_protocol, decode_socket_message,
    encode_query_component, header_progress, interim_delta, is_websocket_upgrade,
    message_to_bytes, parse_request_line, realtime_request_is_decodable, redact_api_key,
    request_text, validate_api_key, Action, Connection, HeaderProgress, Refusal, RuntimeConfig,
    SocketMessage,
};

#[test]
fn interim_delta_sends_only_new_suffix_for_growing_snapshots() {
    let mut previous = String::new();

    assert_eq!(interim_delta(&mut previous, "你好"), "你好");
    assert_eq!(interim_delta(&mut previous, "你好啊"), "啊");
    assert_eq!(interim_delta(&mut previous, "你好啊，你是谁"), "，你是谁");
    assert_eq!(previous, "你好啊，你是谁");
}

#[test]
fn interim_delta_resends_current_text_when_snapshot_is_rewritten() {
    let mut previous = "你好啊".to_string();

    assert_eq!(interim_delta(&mut previous, "您好"), "您好");
    assert_eq!(previous, "您好");
}

#[test]
fn append_final_transcript_returns_live_snapshot() {
    let mut transcript = String::new();

    assert_eq!(
        append_final_transcript(&mut transcript, "你好啊，"),
        Some("你好啊，".to_string())
    );
    assert_eq!(
        append_final_transcript(&mut transcript, "hello。"),
        Some("你好啊，hello。".to_string())
    );
    assert_eq!(transcript, "你好啊，hello。");
}

#[test]
fn api_key_is_optional_when_not_configured() {
    validate_api_key(None, "/v1/realtime?model=seed-asr", None).expect("no api key");
}

#[test]
fn api_key_accepts_bearer_authorization_or_query_param() {
    validate_api_key(
        Some("Bearer local-secret"),
        "/v1/realtime?model=seed-asr",
        Some("local-secret"),
    )
    .expect("bearer key");
    validate_api_key(
        None,
        "/v1/realtime?model=seed-asr&api_key=local-secret",
        Some("local-secret"),
    )
    .expect("query key");
}

#[test]
fn api_key_rejects_missing_or_invalid_key_when_configured() {
    assert!(validate_api_key(None, "/v1/realtime?model=seed-asr", Some("local-secret")).is_err());
    assert!(validate_api_key(
        Some("Bearer wrong"),
        "/v1/realtime?model=seed-asr",
        Some("local-secret"),
    )
    .is_err());
}

#[test]
fn startup_lines_are_readable_and_hide_key() {
    let runtime = RuntimeConfig::new("custom/asr".to_string(), Some("local-secret".to_string()));
    let lines = runtime.startup_lines("127.0.0.1:8000", true);

    assert_eq!(lines[0], "SeedRelay ready");
    assert!(lines.contains(
        &"  Realtime  ws://127.0.0.1:8000/v1/realtime?model=custom%2Fasr".to_string()
    ));
    assert!(lines.contains(&"  Auth      API key required".to_string()));
    assert!(lines.contains(&"  Web UI    http://127.0.0.1:8000/".to_string()));
    assert!(!lines.join("\n").contains("local-secret"));
}

#[test]
fn startup_lines_show_disabled_web_and_auth_by_default() {
    let runtime = RuntimeConfig::new("seed-asr".to_string(), None);
    let lines = runtime.startup_lines("127.0.0.1:8000", false);

    assert!(lines
        .contains(&"  Realtime  ws://127.0.0.1:8000/v1/realtime?model=seed-asr".to_string()));
    assert!(lines.contains(&"  Auth      disabled".to_string()));
    assert!(lines.contains(&"  Web UI    disabled".to_string()));
    assert!(!lines.iter().any(|line| line.contains("Debug")));
}

#[test]
fn redacts_api_key_from_logged_targets() {
    assert_eq!(
        redact_api_key("/v1/realtime?model=seed-asr&api_key=local-secret"),
        "/v1/realtime?model=seed-asr&api_key=***"
    );
    assert_eq!(
        redact_api_key("/v1/realtime?api_key=local-secret&model=seed-asr"),
        "/v1/realtime?api_key=***&model=seed-asr"
    );
}

#[test]
fn encodes_model_names_for_log_urls() {
    assert_eq!(encode_query_component("seed-asr"), "seed-asr");
    assert_eq!(encode_query_component("custom/asr 1"), "custom%2Fasr%201");
}

#[test]
fn deltas_of_growing_snapshots_rebuild_the_last_one() {
    let mut previous = String::new();
    let mut shown = String::new();
    for snapshot in ["a", "ab", "abc", "abcdef"] {
        shown.push_str(&interim_delta(&mut previous, snapshot));
    }
    assert_eq!(shown, "abcdef");
}

#[test]
fn interim_delta_of_an_unchanged_snapshot_is_empty() {
    let mut previous = "same".to_string();
    assert_eq!(interim_delta(&mut previous, "same"), "");
    assert_eq!(previous, "same");
}

#[test]
fn append_final_transcript_ignores_empty_results() {
    let mut transcript = "kept".to_string();
    assert_eq!(append_final_transcript(&mut transcript, ""), None);
    assert_eq!(transcript, "kept");
}

#[test]
fn bearer_scheme_is_case_insensitive_and_token_is_trimmed() {
    let target = "/v1/realtime?model=seed-asr";
    validate_api_key(Some("  bEaReR   secret  "), target, Some("secret")).expect("bearer");
    assert!(validate_api_key(Some("Basic secret"), target, Some("secret")).is_err());
    assert!(validate_api_key(Some("Bearersecret"), target, Some("secret")).is_err());
    let error = validate_api_key(Some("Bearer"), target, Some("secret")).expect_err("no token");
    assert_eq!(error.to_string(), "missing or invalid API key");
}

#[test]
fn query_api_key_is_percent_decoded() {
    validate_api_key(None, "/v1/realtime?api_key=a%20b", Some("a b")).expect("decoded key");
    validate_api_key(None, "/v1/realtime?api_key=a+b", Some("a b")).expect("plus as space");
}

#[test]
fn redaction_keeps_targets_without_a_query_or_key() {
    assert_eq!(redact_api_key("/health"), "/health");
    assert_eq!(redact_api_key("/v1/realtime?model=x"), "/v1/realtime?model=x");
    assert_eq!(redact_api_key("/a?api_key"), "/a?api_key=***");
    assert_eq!(redact_api_key("/a?x=1&&api_key=2"), "/a?x=1&&api_key=***");
}

#[test]
fn socket_messages_become_client_event_text() {
    assert_eq!(
        decode_socket_message(SocketMessage::Text("{}".to_string())).unwrap(),
        "{}"
    );
    assert_eq!(
        decode_socket_message(SocketMessage::Binary(b"{\"a\":1}".to_vec())).unwrap(),
        "{\"a\":1}"
    );
    assert_eq!(
        decode_socket_message(SocketMessage::Close).unwrap(),
        r#"{"type":"session.close"}"#
    );
    assert_eq!(
        decode_socket_message(SocketMessage::Binary(vec![0xff, 0xfe]))
            .unwrap_err()
            .to_string(),
        "binary message is not UTF-8"
    );
    assert_eq!(
        decode_socket_message(SocketMessage::Other)
            .unwrap_err()
            .to_string(),
        "unsupported websocket message"
    );
}

#[test]
fn backend_messages_become_bytes() {
    assert_eq!(message_to_bytes(SocketMessage::Binary(vec![1, 2])), vec![1, 2]);
    assert_eq!(message_to_bytes(SocketMessage::Text("hi".to_string())), b"hi".to_vec());
    assert!(message_to_bytes(SocketMessage::Close).is_empty());
    assert!(message_to_bytes(SocketMessage::Other).is_empty());
}

#[test]
fn detects_websocket_upgrade_headers_in_any_case() {
    assert!(is_websocket_upgrade(
        b"GET /v1/realtime HTTP/1.1\r\nHost: x\r\nUpgrade: WebSocket\r\n\r\n"
    ));
    assert!(is_websocket_upgrade(b"GET / HTTP/1.1\nupgrade: websocket\n\n"));
    assert!(!is_websocket_upgrade(b"GET / HTTP/1.1\r\nHost: x\r\n\r\n"));
    assert!(!is_websocket_upgrade(b"upgrade: websocket"));
}

#[test]
fn request_heads_end_at_a_blank_line_or_grow_too_large() {
    assert_eq!(header_progress(b"GET / HTTP/1.1\r\n\r\n"), HeaderProgress::Complete);
    assert_eq!(header_progress(b"GET / HTTP/1.1\r\n"), HeaderProgress::More);
    assert_eq!(header_progress(&vec![b'a'; 8192]), HeaderProgress::More);
    assert_eq!(header_progress(&vec![b'a'; 8193]), HeaderProgress::TooLarge);
    assert_eq!(request_text(b"GET /").unwrap(), "GET /");
    assert_eq!(
        request_text(&[0xff]).unwrap_err().to_string(),
        "HTTP request is not UTF-8"
    );
}

#[test]
fn parses_method_and_target_of_the_first_line() {
    assert_eq!(
        parse_request_line("GET /health HTTP/1.1\r\nHost: x\r\n\r\n").unwrap(),
        ("GET".to_string(), "/health".to_string())
    );
    assert_eq!(
        parse_request_line("  HEAD\t/v1/models  ").unwrap(),
        ("HEAD".to_string(), "/v1/models".to_string())
    );
    assert_eq!(
        parse_request_line("GET\r\n").unwrap(),
        ("GET".to_string(), "/".to_string())
    );
    assert_eq!(
        parse_request_line("\r\nGET / HTTP/1.1").unwrap(),
        (String::new(), "/".to_string())
    );
    assert_eq!(
        parse_request_line("").unwrap_err().to_string(),
        "empty HTTP request"
    );
}

#[test]
fn handshake_checks_target_then_key() {
    let config = RuntimeConfig::new("seed-asr".to_string(), Some("k".to_string()));
    let target = "/v1/realtime?model=seed-asr&api_key=k";
    assert!(realtime_request_is_decodable(target, &config));
    assert_eq!(check_realtime_request(target, None, None, &config), Ok(None));
    assert_eq!(
        check_realtime_request("/v1/other?model=seed-asr", None, None, &config),
        Err(Refusal::BadRequest(
            "expected /v1/realtime, got /v1/other".to_string()
        ))
    );
    assert_eq!(
        check_realtime_request("/v1/realtime?model=seed-asr", Some("Bearer x"), None, &config),
        Err(Refusal::Unauthorized("missing or invalid API key".to_string()))
    );
    assert!(!realtime_request_is_decodable(
        "/v1/realtime?model=%a\u{e9}",
        &RuntimeConfig::new("m".to_string(), None)
    ));
    assert!(realtime_request_is_decodable(
        "/v1/realtime?model=%e4%bd%a0",
        &RuntimeConfig::new("m".to_string(), None)
    ));
}

fn sent(actions: &[Action]) -> Vec<serde_json::Value> {
    actions
        .iter()
        .filter_map(|action| match action {
            Action::Send(text) => Some(serde_json::from_str(text).expect("event json")),
            _ => None,
        })
        .collect()
}

#[test]
fn connection_opens_with_a_session_created_event() {
    let connection = Connection::with_ids("sess_1", "item_1", "seed-asr");
    let created: serde_json::Value =
        serde_json::from_str(&connection.created_event("event_1")).expect("json");
    assert_eq!(created["type"], "session.created");
    assert_eq!(created["event_id"], "event_1");
    assert_eq!(created["session"]["id"], "sess_1");
    assert_eq!(created["session"]["audio"]["input"]["format"]["rate"], 24_000);
    let fresh = Connection::new("seed-asr");
    assert!(fresh.session.id.starts_with("sess_"));
    assert!(fresh.item_id.starts_with("item_"));
    assert_eq!(fresh.item_id.len(), 37);
}

#[test]
fn connection_routes_audio_until_commit() {
    let mut connection = Connection::with_ids("sess_1", "item_1", "seed-asr");
    let append = r#"{"type":"input_audio_buffer.append","audio":"AQID"}"#;

    assert_eq!(
        connection.on_client_text(append, "event_1"),
        vec![Action::PushAudio(vec![1, 2, 3])]
    );
    let commit = connection.on_client_text(r#"{"type":"input_audio_buffer.commit"}"#, "event_2");
    assert_eq!(commit[0], Action::CloseAudio);
    assert_eq!(sent(&commit)[0]["type"], "input_audio_buffer.committed");
    assert_eq!(sent(&commit)[0]["item_id"], "item_1");
    assert!(!connection.audio_open);

    let late = connection.on_client_text(append, "event_3");
    assert_eq!(late.len(), 1);
    let error = &sent(&late)[0];
    assert_eq!(error["type"], "error");
    assert_eq!(error["event_id"], "event_3");
    assert_eq!(error["error"]["message"], "audio was appended after commit");
}

#[test]
fn connection_applies_session_updates_and_resets_the_converter() {
    let mut connection = Connection::with_ids("sess_1", "item_1", "seed-asr");
    let actions = connection.on_client_text(
        r#"{"type":"session.update","session":{"type":"transcription","audio":{"input":{"format":{"rate":48000},"transcription":{"language":"zh"}}}}}"#,
        "event_1",
    );
    assert_eq!(actions[0], Action::ResetConverter(48_000));
    let updated = &sent(&actions)[0];
    assert_eq!(updated["type"], "session.updated");
    assert_eq!(updated["session"]["audio"]["input"]["format"]["rate"], 48_000);
    assert_eq!(
        updated["session"]["audio"]["input"]["transcription"]["language"],
        "zh"
    );

    let before = connection.session.clone();
    let refused = connection.on_client_text(
        r#"{"type":"session.update","session":{"audio":{"input":{"transcription":{"delay":"1s"}}}}}"#,
        "event_2",
    );
    assert_eq!(connection.session, before);
    assert_eq!(
        sent(&refused)[0]["error"]["message"],
        "transcription delay is not supported by SeedRelay"
    );

    let cleared = connection.on_client_text(r#"{"type":"input_audio_buffer.clear"}"#, "event_3");
    assert_eq!(cleared[0], Action::ResetConverter(48_000));
    assert_eq!(sent(&cleared)[0]["type"], "input_audio_buffer.cleared");
}

#[test]
fn connection_answers_bad_messages_with_errors() {
    let mut connection = Connection::with_ids("sess_1", "item_1", "seed-asr");
    let actions = connection.on_client_message(SocketMessage::Other, "event_1");
    assert_eq!(
        sent(&actions)[0]["error"]["message"],
        "unsupported websocket message"
    );
    let actions = connection.on_client_text("not json", "event_2");
    assert!(sent(&actions)[0]["error"]["message"]
        .as_str()
        .unwrap()
        .starts_with("invalid JSON"));
    let closed = connection.on_client_message(SocketMessage::Close, "event_3");
    assert_eq!(closed[0], Action::CloseAudio);
}

#[test]
fn connection_turns_asr_results_into_transcript_events() {
    let mut connection = Connection::with_ids("sess_1", "item_1", "seed-asr");

    let first = connection.on_asr_event(AsrEvent::InterimResult("你好".to_string()), "e");
    let delta = &sent(&first)[0];
    assert_eq!(delta["delta"], "你好");
    assert_eq!(delta["transcript"], "你好");
    let second = connection.on_asr_event(AsrEvent::InterimResult("你好啊".to_string()), "e");
    assert_eq!(sent(&second)[0]["delta"], "啊");
    assert!(connection
        .on_asr_event(AsrEvent::InterimResult("你好啊".to_string()), "e")
        .is_empty());

    let done = connection.on_asr_event(AsrEvent::FinalResult("你好啊。".to_string()), "e");
    assert_eq!(sent(&done)[0]["transcript"], "你好啊。");
    let more = connection.on_asr_event(AsrEvent::FinalResult("再见".to_string()), "e");
    assert_eq!(sent(&more)[0]["transcript"], "你好啊。再见");

    let finished = connection.on_asr_event(AsrEvent::SessionFinished, "e");
    assert_eq!(finished[1], Action::Finish);
    assert_eq!(
        sent(&finished)[0]["type"],
        "conversation.item.input_audio_transcription.completed"
    );
    assert!(connection.on_asr_event(AsrEvent::Heartbeat, "e").is_empty());
}

#[test]
fn connection_reports_asr_failures_and_fills_in_the_final_transcript() {
    let mut connection = Connection::with_ids("sess_1", "item_1", "seed-asr");
    let failed = connection.on_asr_event(AsrEvent::Error("boom".to_string()), "event_9");
    assert_eq!(sent(&failed)[0]["error"]["message"], "boom");
    assert_eq!(failed[1], Action::Finish);

    let ended = connection.on_asr_finished(Ok("whole text".to_string()), "e");
    assert_eq!(sent(&ended)[0]["transcript"], "whole text");

    let mut kept = Connection::with_ids("sess_1", "item_1", "seed-asr");
    kept.on_asr_event(AsrEvent::FinalResult("first".to_string()), "e");
    let ended = kept.on_asr_finished(Ok("other".to_string()), "e");
    assert_eq!(sent(&ended)[0]["transcript"], "first");

    let gone = kept.on_client_gone();
    assert_eq!(gone, vec![Action::CloseAudio, Action::Finish]);
}

#[test]
fn printed_realtime_url_passes_the_handshake() {
    let model = "custom/asr v2";
    let key = "k&=+";
    let config = RuntimeConfig::new(model.to_string(), Some(key.to_string()));
    let url = config.realtime_url("127.0.0.1:8000");
    let target = url.strip_prefix("ws://127.0.0.1:8000").expect("target");
    assert_eq!(target, "/v1/realtime?model=custom%2Fasr%20v2");
    seedrelay::realtime::validate_realtime_target(target, model).expect("printed target");
    let keyed = format!("{target}&api_key={}", encode_query_component(key));
    assert!(realtime_request_is_decodable(&keyed, &config));
    assert_eq!(check_realtime_request(&keyed, Some("Bearer wrong"), Some("realtime"), &config),
        Ok(Some("realtime".to_string())));
}

#[test]
fn api_key_is_accepted_as_websocket_subprotocol() {
    let config = RuntimeConfig::new("seed-asr".to_string(), Some("local-secret".to_string()));
    let target = "/v1/realtime?model=seed-asr";
    assert_eq!(
        check_realtime_request(
            target,
            None,
            Some("realtime, openai-insecure-api-key.local-secret"),
            &config
        ),
        Ok(Some("realtime".to_string()))
    );
    assert_eq!(
        check_realtime_request(target, None, Some("openai-insecure-api-key.local-secret"), &config),
        Ok(None)
    );
    assert_eq!(
        check_realtime_request(target, None, Some("realtime, openai-insecure-api-key.wrong"), &config),
        Err(Refusal::Unauthorized("missing or invalid API key".to_string()))
    );
    assert_eq!(
        check_realtime_request(target, None, Some("openai-insecure-api-key.local-secretx"), &config),
        Err(Refusal::Unauthorized("missing or invalid API key".to_string()))
    );
    let open = RuntimeConfig::new("seed-asr".to_string(), None);
    assert_eq!(
        check_realtime_request(target, None, Some("chat,  realtime "), &open),
        Ok(Some("realtime".to_string()))
    );
}

#[test]
fn subprotocol_lists_are_split_at_commas_and_trimmed() {
    assert!(offers_protocol("a, b ,c", "b"));
    assert!(offers_protocol("a,b,c", "c"));
    assert!(offers_protocol(" a", "a"));
    assert!(!offers_protocol("ab,c", "a"));
    assert!(!offers_protocol("", "a"));
    assert!(offers_protocol("", ""));
    assert!(offers_protocol("a,,b", ""));
}

#[test]
fn public_bind_without_key_accepts_every_handshake() {
    let open = RuntimeConfig::new("seed-asr".to_string(), None);
    assert_eq!(check_realtime_request("/v1/realtime?model=seed-asr", None, None, &open), Ok(None));
}
