use seedrelay::response::{
    classify_payload, classify_response, read_result_payload, AsrEvent, ResultItem, ResultPayload,
    WireResponse,
};

fn wire(message_type: &str, status_message: &str, result_json: &str) -> WireResponse {
    WireResponse {
        message_type: message_type.to_string(),
        status_message: status_message.to_string(),
        result_json: result_json.to_string(),
    }
}

#[test]
fn classifies_final_result_from_vad_finished_payload() {
    let response = WireResponse {
        message_type: "".to_string(),
        status_message: "".to_string(),
        result_json: r#"{"results":[{"text":"你好","is_interim":false,"is_vad_finished":true}]}"#
            .to_string(),
    };

    assert_eq!(
        classify_response(&response),
        AsrEvent::FinalResult("你好".to_string())
    );
}

#[test]
fn classifies_empty_result_json_as_heartbeat() {
    let response = WireResponse {
        message_type: "".to_string(),
        status_message: "".to_string(),
        result_json: "".to_string(),
    };

    assert_eq!(classify_response(&response), AsrEvent::Heartbeat);
}

#[test]
fn lifecycle_types_decide_alone() {
    assert_eq!(classify_response(&wire("TaskStarted", "", "x")), AsrEvent::TaskStarted);
    assert_eq!(classify_response(&wire("SessionStarted", "", "")), AsrEvent::SessionStarted);
    assert_eq!(classify_response(&wire("SessionFinished", "", "")), AsrEvent::SessionFinished);
    assert_eq!(
        classify_response(&wire("TaskFailed", "", "")),
        AsrEvent::Error("TaskFailed".to_string())
    );
    assert_eq!(
        classify_response(&wire("SessionFailed", "quota", "")),
        AsrEvent::Error("quota".to_string())
    );
}

#[test]
fn classifies_payloads() {
    assert_eq!(
        classify_response(&wire("", "", "not json")),
        AsrEvent::Error("invalid result_json".to_string())
    );
    assert_eq!(
        classify_response(&wire("", "", r#"{"extra":{"vad_start":true},"results":[{"text":"a"}]}"#)),
        AsrEvent::VadStart
    );
    assert_eq!(classify_response(&wire("", "", r#"{"results":[]}"#)), AsrEvent::Heartbeat);
    assert_eq!(classify_response(&wire("", "", r#"{"results":{}}"#)), AsrEvent::Heartbeat);
    assert_eq!(classify_response(&wire("", "", "[1]")), AsrEvent::Heartbeat);
    assert_eq!(
        classify_response(&wire(
            "",
            "",
            r#"{"results":[{"text":"你"},{"text":"  "},{"text":1},{"text":"好"}]}"#
        )),
        AsrEvent::InterimResult("你好".to_string())
    );
    assert_eq!(
        classify_response(&wire(
            "",
            "",
            r#"{"results":[{"text":"a","is_interim":true},{"text":"b","extra":{"nonstream_result":true}}]}"#
        )),
        AsrEvent::FinalResult("ab".to_string())
    );
    assert_eq!(
        classify_response(&wire(
            "",
            "",
            r#"{"results":[{"text":"a","is_interim":false,"is_vad_finished":false}]}"#
        )),
        AsrEvent::InterimResult("a".to_string())
    );
}

#[test]
fn reads_payload_fields_where_they_have_their_kinds() {
    let payload = read_result_payload(
        r#"{"extra":{"vad_start":"yes"},"results":[{"text":"a","is_interim":false,"is_vad_finished":true},7]}"#,
    )
    .expect("json");
    assert_eq!(
        payload,
        ResultPayload {
            vad_start: None,
            results: Some(vec![
                ResultItem {
                    text: Some("a".to_string()),
                    nonstream_result: None,
                    is_interim: Some(false),
                    is_vad_finished: Some(true),
                },
                ResultItem {
                    text: None,
                    nonstream_result: None,
                    is_interim: None,
                    is_vad_finished: None,
                },
            ]),
        }
    );
    assert_eq!(classify_payload(&payload), AsrEvent::FinalResult("a".to_string()));
    assert!(read_result_payload("{").is_none());
}
