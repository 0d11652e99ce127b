use seedrelay::audio::AudioConfig;
use seedrelay::client::{
    asr_url, check_lifecycle, format_lifecycle_error, session_payload, AsrExchange,
    ExchangeStage, PcmFramer, Receiver, ReceiverAction,
};
use seedrelay::protocol::{encode_request, AsrRequest, AsrResponse, FrameState};
use seedrelay::response::AsrEvent;

#[test]
fn lifecycle_error_includes_message_type_status_code_and_backend_message() {
    let response = AsrResponse {
        request_id: "req-1".to_string(),
        task_id: String::new(),
        service_name: "ASR".to_string(),
        message_type: "TaskFailed".to_string(),
        status_code: 2,
        status_message:
            "read backend response: rpc error: code = 2 desc = service discovery failure"
                .to_string(),
        result_json: String::new(),
        unknown_field_9: 0,
    };

    let message = format_lifecycle_error("TaskStarted", &response);

    assert!(message.contains("expected TaskStarted"));
    assert!(message.contains("got TaskFailed"));
    assert!(message.contains("status_code=2"));
    assert!(message.contains("service discovery failure"));
}

fn response(message_type: &str, status_code: i32, status_message: &str) -> AsrResponse {
    AsrResponse {
        request_id: "r".to_string(),
        task_id: String::new(),
        service_name: "ASR".to_string(),
        message_type: message_type.to_string(),
        status_code,
        status_message: status_message.to_string(),
        result_json: String::new(),
        unknown_field_9: 0,
    }
}

#[test]
fn lifecycle_error_has_exact_text_and_marks_empty_messages() {
    assert_eq!(
        format_lifecycle_error("SessionStarted", &response("SessionFailed", -3, "")),
        "expected SessionStarted, got SessionFailed: status_code=-3, service_name=ASR, request_id=r, message=<empty>"
    );
    assert_eq!(check_lifecycle("TaskStarted", &response("TaskStarted", 0, "")), Ok(()));
    assert!(check_lifecycle("TaskStarted", &response("TaskFailed", 1, "x")).is_err());
}

#[test]
fn session_url_and_payload() {
    assert_eq!(
        asr_url("dev 1"),
        "wss://frontier-audio-ime-ws.doubao.com/ocean/api/v1/ws?aid=401734&device_id=dev 1"
    );
    let payload: serde_json::Value = serde_json::from_str(&session_payload("d\"1")).expect("json");
    assert_eq!(payload["audio_info"]["sample_rate"], 16_000);
    assert_eq!(payload["audio_info"]["format"], "speech_opus");
    assert_eq!(payload["extra"]["did"], "d\"1");
    assert_eq!(payload["enable_speech_rejection"], false);
}

#[test]
fn framer_cuts_timed_frames_and_pads_the_last() {
    let config = AudioConfig::new(1000, 1, 2);
    assert_eq!(config.bytes_per_frame, 4);
    let mut framer = PcmFramer::new(config, 100);
    assert!(framer.push(&[1, 2, 3]).is_empty());
    let frames = framer.push(&[4, 5, 6, 7, 8, 9, 10]);
    assert_eq!(frames.len(), 2);
    assert_eq!(frames[0].pcm, vec![1, 2, 3, 4]);
    assert_eq!(frames[0].state, FrameState::First);
    assert_eq!(frames[0].timestamp_ms, 100);
    assert_eq!(frames[1].pcm, vec![5, 6, 7, 8]);
    assert_eq!(frames[1].state, FrameState::Middle);
    assert_eq!(frames[1].timestamp_ms, 102);
    let last = framer.finish();
    assert_eq!(last.pcm, vec![9, 10, 0, 0]);
    assert_eq!(last.state, FrameState::Last);
    assert_eq!(last.timestamp_ms, 104);
}

#[test]
fn framer_sends_silence_when_nothing_is_left() {
    let mut framer = PcmFramer::new(AudioConfig::default(), 0);
    let frames = framer.push(&vec![1u8; 640]);
    assert_eq!(frames.len(), 1);
    let last = framer.finish();
    assert_eq!(last.pcm, vec![0u8; 640]);
    assert_eq!(last.timestamp_ms, 20);
}

fn answer(request_id: &str, message_type: &str, result_json: &str) -> Vec<u8> {
    let mut bytes = Vec::new();
    for (tag, text) in [(1u8, request_id), (4, message_type), (7, result_json)] {
        if !text.is_empty() {
            bytes.push(tag << 3 | 2);
            bytes.push(text.len() as u8);
            bytes.extend_from_slice(text.as_bytes());
        }
    }
    bytes
}

#[test]
fn receiver_follows_its_request_and_collects_final_text() {
    let mut receiver = Receiver::new("req");
    assert!(receiver.on_data(&[]).unwrap().is_empty());
    assert!(receiver
        .on_data(&answer("other", "", r#"{"results":[{"text":"x"}]}"#))
        .unwrap()
        .is_empty());
    assert_eq!(
        receiver
            .on_data(&answer("req", "", r#"{"results":[{"text":"a"}]}"#))
            .unwrap(),
        vec![ReceiverAction::Forward(AsrEvent::InterimResult("a".to_string()))]
    );
    assert_eq!(
        receiver
            .on_data(&answer("", "", r#"{"results":[{"text":"b","extra":{"nonstream_result":true}}]}"#))
            .unwrap(),
        vec![ReceiverAction::Forward(AsrEvent::FinalResult("b".to_string()))]
    );
    assert_eq!(receiver.final_text, "b");
    assert_eq!(
        receiver.on_data(&answer("req", "SessionFinished", "")).unwrap(),
        vec![ReceiverAction::Forward(AsrEvent::SessionFinished), ReceiverAction::Stop]
    );
    assert_eq!(
        receiver.on_data(&answer("req", "TaskFailed", "")).unwrap(),
        vec![
            ReceiverAction::Forward(AsrEvent::Error("TaskFailed".to_string())),
            ReceiverAction::Fail("TaskFailed".to_string())
        ]
    );
    assert!(receiver.on_data(&[0x0a, 9]).is_err());
    let request = encode_request(&AsrRequest {
        token: String::new(),
        service_name: String::new(),
        method_name: String::new(),
        payload: String::new(),
        audio_data: Vec::new(),
        request_id: "req".to_string(),
        frame_state: 0,
    });
    assert!(receiver.on_data(&request).is_ok());
}

fn lifecycle_answer(message_type: &str) -> AsrResponse {
    AsrResponse {
        request_id: "rid".to_string(),
        task_id: String::new(),
        service_name: "ASR".to_string(),
        message_type: message_type.to_string(),
        status_code: 0,
        status_message: String::new(),
        result_json: String::new(),
        unknown_field_9: 0,
    }
}

#[test]
fn exchange_sends_its_messages_in_order() {
    let config = AudioConfig::default();
    let (mut exchange, start) =
        AsrExchange::start("rid".to_string(), "tok".to_string(), "dev".to_string(), config);
    let start = AsrRequest::decode(&start).unwrap();
    assert_eq!(start.method_name, "StartTask");
    assert_eq!(start.token, "tok");
    assert_eq!(exchange.stage(), ExchangeStage::AwaitingTask);

    let session = exchange.on_answer(&lifecycle_answer("TaskStarted")).unwrap().unwrap();
    let session = AsrRequest::decode(&session).unwrap();
    assert_eq!(session.method_name, "StartSession");
    assert_eq!(session.payload, session_payload("dev"));
    assert_eq!(exchange.on_answer(&lifecycle_answer("SessionStarted")).unwrap(), None);
    assert_eq!(exchange.stage(), ExchangeStage::Streaming);

    let pcm: Vec<u8> = (0..1500u32).map(|i| (i % 251) as u8).collect();
    assert!(exchange.has_room(pcm.len()));
    exchange.push_pcm(&pcm[..700]);
    exchange.push_pcm(&pcm[700..]);
    let mut messages = Vec::new();
    let mut frames = Vec::new();
    while let Some(frame) = exchange.pending_pcm() {
        frames.push(frame);
        messages.push(exchange.send_audio(vec![frames.len() as u8]));
    }
    assert_eq!(frames.len(), 2);
    assert_eq!(frames[0], pcm[..640].to_vec());
    assert_eq!(frames[1], pcm[640..1280].to_vec());
    assert!(exchange.can_end());
    exchange.end_audio();
    assert_eq!(exchange.stage(), ExchangeStage::Closing);
    let last = exchange.pending_pcm().unwrap();
    assert_eq!(&last[..220], &pcm[1280..]);
    assert!(last[220..].iter().all(|b| *b == 0));
    assert_eq!(last.len(), 640);
    messages.push(exchange.send_audio(vec![9]));
    assert_eq!(exchange.pending_pcm(), None);

    let decoded: Vec<AsrRequest> = messages.iter().map(|m| AsrRequest::decode(m).unwrap()).collect();
    assert_eq!(decoded[0].frame_state, FrameState::First.code());
    assert_eq!(decoded[1].frame_state, FrameState::Middle.code());
    assert_eq!(decoded[2].frame_state, FrameState::Last.code());
    assert_eq!(decoded[0].audio_data, vec![1]);
    assert_eq!(decoded[2].audio_data, vec![9]);
    let time = |r: &AsrRequest| -> u64 {
        let digits = r.payload.trim_start_matches("{\"extra\":{},\"timestamp_ms\":").trim_end_matches('}');
        digits.parse().unwrap()
    };
    assert_eq!(time(&decoded[1]) - time(&decoded[0]), 20);
    assert_eq!(time(&decoded[2]) - time(&decoded[0]), 40);
    assert!(decoded.iter().all(|r| r.method_name == "TaskRequest" && r.request_id == "rid"));

    let finish = AsrRequest::decode(&exchange.finish()).unwrap();
    assert_eq!(finish.method_name, "FinishSession");
    assert_eq!(exchange.stage(), ExchangeStage::Finished);
}

#[test]
fn exchange_fails_on_a_wrong_lifecycle_answer() {
    let (mut exchange, _) = AsrExchange::start(
        "rid".to_string(),
        "tok".to_string(),
        "dev".to_string(),
        AudioConfig::default(),
    );
    let error = exchange.on_answer(&lifecycle_answer("TaskFailed")).unwrap_err();
    assert!(error.starts_with("expected TaskStarted, got TaskFailed"));
    assert_eq!(exchange.stage(), ExchangeStage::Failed);

    let (mut exchange, _) = AsrExchange::start(
        "rid".to_string(),
        "tok".to_string(),
        "dev".to_string(),
        AudioConfig::default(),
    );
    exchange.on_answer(&lifecycle_answer("TaskStarted")).unwrap();
    let error = exchange.on_answer(&lifecycle_answer("Oops")).unwrap_err();
    assert!(error.starts_with("expected SessionStarted, got Oops"));
    assert_eq!(exchange.stage(), ExchangeStage::Failed);
}
