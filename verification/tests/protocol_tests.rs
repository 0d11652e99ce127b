use seedrelay::protocol::{
    build_finish_session, build_start_session, build_start_task, build_task_request,
    decode_response, encode_request, encode_response, AsrRequest, AsrResponse, FrameState,
};
use seedrelay::wire::DecodeError;

#[test]
fn start_task_message_contains_token_service_method_and_request_id() {
    let bytes = build_start_task("request-1", "token-1");
    let decoded = AsrRequest::decode(bytes.as_slice()).expect("decode start task");

    assert_eq!(decoded.token, "token-1");
    assert_eq!(decoded.service_name, "ASR");
    assert_eq!(decoded.method_name, "StartTask");
    assert_eq!(decoded.request_id, "request-1");
    assert_eq!(decoded.frame_state, FrameState::Unspecified.code());
    assert!(decoded.payload.is_empty());
    assert!(decoded.audio_data.is_empty());
}

#[test]
fn task_request_message_carries_opus_audio_frame_state_and_timestamp_payload() {
    let bytes = build_task_request(
        "request-2",
        vec![1, 2, 3, 4],
        FrameState::First,
        1_770_000_000_123,
    );
    let decoded = AsrRequest::decode(bytes.as_slice()).expect("decode task request");
    let payload: serde_json::Value =
        serde_json::from_str(&decoded.payload).expect("task payload json");

    assert!(decoded.token.is_empty());
    assert_eq!(decoded.service_name, "ASR");
    assert_eq!(decoded.method_name, "TaskRequest");
    assert_eq!(decoded.request_id, "request-2");
    assert_eq!(decoded.audio_data, vec![1, 2, 3, 4]);
    assert_eq!(decoded.frame_state, FrameState::First.code());
    assert_eq!(payload["extra"], serde_json::Value::Object(serde_json::Map::new()));
    assert_eq!(payload["timestamp_ms"], 1_770_000_000_123i64);
}

#[test]
fn frame_states_have_their_wire_numbers() {
    assert_eq!(FrameState::Unspecified.code(), 0);
    assert_eq!(FrameState::First.code(), 1);
    assert_eq!(FrameState::Middle.code(), 3);
    assert_eq!(FrameState::Last.code(), 9);
}

#[test]
fn encodes_fields_in_tag_order_with_defaults_left_out() {
    let bytes = build_finish_session("r", "t");
    assert_eq!(
        bytes,
        vec![
            0x12, 1, b't', 0x1a, 3, b'A', b'S', b'R', 0x2a, 13, b'F', b'i', b'n', b'i', b's', b'h',
            b'S', b'e', b's', b's', b'i', b'o', b'n', 0x42, 1, b'r'
        ]
    );
    let session = build_start_session("r", "t", "{}".to_string());
    let decoded = AsrRequest::decode(&session).expect("decode");
    assert_eq!(decoded.payload, "{}");
    assert_eq!(decoded.method_name, "StartSession");
}

#[test]
fn requests_round_trip_through_the_wire_format() {
    let request = AsrRequest {
        token: "tok".to_string(),
        service_name: "ASR".to_string(),
        method_name: "TaskRequest".to_string(),
        payload: "payload ✓".to_string(),
        audio_data: vec![0, 255, 7],
        request_id: "id".to_string(),
        frame_state: -5,
    };
    let decoded = AsrRequest::decode(&encode_request(&request)).expect("round trip");
    assert_eq!(decoded, request);
}

#[test]
fn decodes_responses_and_skips_unknown_fields() {
    let bytes = vec![
        0x0a, 2, b'i', b'd', 0x22, 11, b'T', b'a', b's', b'k', b'S', b't', b'a', b'r', b't', b'e',
        b'd', 0x28, 2, 0x50, 0x96, 0x01, 0x3a, 2, b'{', b'}',
    ];
    let response = decode_response(&bytes).expect("decode");
    assert_eq!(response.request_id, "id");
    assert_eq!(response.message_type, "TaskStarted");
    assert_eq!(response.status_code, 2);
    assert_eq!(response.result_json, "{}");
    assert_eq!(response.unknown_field_9, 0);
}

#[test]
fn refuses_malformed_responses() {
    assert_eq!(decode_response(&[0x0a, 5, b'a']), Err(DecodeError::BufferUnderflow));
    assert_eq!(decode_response(&[0x0a, 1, 0xff]), Err(DecodeError::InvalidUtf8));
    assert_eq!(decode_response(&[0x28, 0x80]), Err(DecodeError::InvalidVarint));
    assert_eq!(decode_response(&[0x00]), Err(DecodeError::InvalidTag));
    assert_eq!(decode_response(&[0x0f]), Err(DecodeError::InvalidWireType));
    assert_eq!(decode_response(&[0x08, 1]), Err(DecodeError::WireTypeMismatch));
    assert_eq!(DecodeError::BufferUnderflow.message(), "buffer underflow");
    assert_eq!(
        decode_response(&[0x80, 0x80, 0x80, 0x80, 0x10]),
        Err(DecodeError::InvalidKey)
    );
    assert_eq!(decode_response(&[0x54]), Err(DecodeError::UnexpectedEndGroup));
    assert_eq!(decode_response(&[0x53; 200]), Err(DecodeError::RecursionLimit));
    assert_eq!(decode_response(&[0x53, 0x08, 0x01, 0x54]).map(|r| r.status_code), Ok(0));
}

#[test]
fn encoded_responses_decode_back() {
    let response = AsrResponse {
        request_id: "r-1".to_string(),
        task_id: "t".to_string(),
        service_name: "ASR".to_string(),
        message_type: "TaskStarted".to_string(),
        status_code: -7,
        status_message: "说".to_string(),
        result_json: "{}".to_string(),
        unknown_field_9: 3,
    };
    let bytes = encode_response(&response);
    assert_eq!(bytes[0], 0x0a);
    assert_eq!(decode_response(&bytes).unwrap(), response);
    let empty = decode_response(&[]).unwrap();
    assert_eq!(encode_response(&empty), Vec::<u8>::new());
    assert_eq!(empty.status_code, 0);
    assert_eq!(empty.request_id, "");
}
