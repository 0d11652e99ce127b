use seedrelay::credentials::{
    expired_given, jwt_payload, registration_from, token_from, RegisterAnswer, TokenAnswer,
};
use seedrelay::json::JsonKind;
use seedrelay::credentials::{
    default_credentials_path, is_jwt_expired, json_string_or_number, jwt_expired_at,
    jwt_expiry, plan_credentials, random_openudid, register_body, register_outcome,
    register_params, settings_params, settings_stub, token_outcome, CachedCredentials,
    CachedLoad, CredentialPlan,
};

#[test]
fn default_credentials_path_points_to_seedrelay_dir() {
    let path = default_credentials_path();
    let path = std::path::Path::new(&path);

    assert!(path.to_string_lossy().contains("seedrelay"));
    assert_eq!(
        path.file_name().and_then(|v| v.to_str()),
        Some("credentials.json")
    );
}

#[test]
fn malformed_jwt_is_treated_as_expired() {
    assert!(is_jwt_expired("not-a-jwt", 60));
}

// {"exp":1000}
const TOKEN: &str = "h.eyJleHAiOjEwMDB9.s";

#[test]
fn reads_the_expiry_of_a_jwt() {
    assert_eq!(jwt_expiry(TOKEN), Some(1000));
    assert_eq!(jwt_expiry("h.eyJleHAiOjEwMDB9"), Some(1000));
    assert_eq!(jwt_expiry("h.e30.s"), None);
    assert_eq!(jwt_expiry("h.!!!.s"), None);
    assert!(!jwt_expired_at(TOKEN, 60, 939));
    assert!(jwt_expired_at(TOKEN, 60, 940));
    assert!(jwt_expired_at(TOKEN, 5000, 0));
    assert!(jwt_expired_at("no-dots", 0, 0));
    assert!(is_jwt_expired(TOKEN, 0));
}

fn cached(device_id: &str, token: &str) -> CachedCredentials {
    CachedCredentials {
        device_id: device_id.to_string(),
        install_id: "i".to_string(),
        cdid: "c".to_string(),
        openudid: "o".to_string(),
        clientudid: "u".to_string(),
        token: token.to_string(),
    }
}

#[test]
fn plans_how_to_get_credentials() {
    assert_eq!(plan_credentials(&CachedLoad::Missing, 0), CredentialPlan::Register);
    assert_eq!(
        plan_credentials(&CachedLoad::Invalid("invalid credentials file x".to_string()), 0),
        CredentialPlan::Fail("invalid credentials file x".to_string())
    );
    assert_eq!(
        plan_credentials(&CachedLoad::Loaded(cached("d", TOKEN)), 900),
        CredentialPlan::UseCached
    );
    assert_eq!(
        plan_credentials(&CachedLoad::Loaded(cached("d", TOKEN)), 950),
        CredentialPlan::RefreshToken
    );
    assert_eq!(
        plan_credentials(&CachedLoad::Loaded(cached("d", "")), 0),
        CredentialPlan::RefreshToken
    );
    assert_eq!(
        plan_credentials(&CachedLoad::Loaded(cached("", TOKEN)), 0),
        CredentialPlan::Register
    );
}

#[test]
fn builds_the_registration_request() {
    let params = register_params("cd", 1234);
    assert_eq!(params.len(), 20);
    assert_eq!(params[3], ("_rticket".to_string(), "1234".to_string()));
    assert_eq!(params[4], ("cdid".to_string(), "cd".to_string()));
    assert_eq!(params[6], ("aid".to_string(), "401734".to_string()));
    assert_eq!(params[19], ("ac".to_string(), "wifi".to_string()));
    let body: serde_json::Value =
        serde_json::from_str(&register_body("ou", "cu", "cd", 99)).expect("body json");
    assert_eq!(body["magic_tag"], "ss_app_log");
    assert_eq!(body["_gen_time"], 99);
    assert_eq!(body["header"]["openudid"], "ou");
    assert_eq!(body["header"]["clientudid"], "cu");
    assert_eq!(body["header"]["cdid"], "cd");
    assert_eq!(body["header"]["aid"], 401734);
    assert_eq!(body["header"]["tz_offset"], 28800);
    assert_eq!(body["header"].as_object().unwrap().len(), 39);
    let settings = settings_params("cd", "dev", 5);
    assert_eq!(settings.len(), 11);
    assert_eq!(settings[10], ("device_id".to_string(), "dev".to_string()));
}

#[test]
fn token_request_stub_is_the_upper_case_md5_of_the_body() {
    assert_eq!(settings_stub(), format!("{:x}", md5::compute(b"body=null")).to_uppercase());
    let openudid = random_openudid();
    assert_eq!(openudid.len(), 16);
    assert!(openudid.chars().all(|c| c.is_ascii_hexdigit() && !c.is_ascii_uppercase()));
}

#[test]
fn reads_device_ids_as_strings_or_numbers() {
    let text = r#"{"device_id_str":"0","device_id":42,"install_id_str":"77","install_id":0}"#;
    assert_eq!(
        json_string_or_number(text, "device_id_str", "device_id"),
        Some("42".to_string())
    );
    assert_eq!(
        json_string_or_number(text, "install_id_str", "install_id"),
        Some("77".to_string())
    );
    assert_eq!(json_string_or_number("{}", "a", "b"), None);
}

#[test]
fn reads_registration_answers() {
    let ok = register_outcome(
        200,
        "200 OK",
        br#"{"device_id":7, "install_id_str":"9"}"#,
        "cd",
        "ou",
        "cu",
    )
    .expect("registered");
    assert_eq!(ok.device_id, "7");
    assert_eq!(ok.install_id, "9");
    assert_eq!(ok.cdid, "cd");
    assert_eq!(ok.token, "");
    assert_eq!(
        register_outcome(500, "500 Internal Server Error", br#"{"a": 1}"#, "", "", "")
            .unwrap_err(),
        r#"device registration failed: HTTP 500 Internal Server Error {"a":1}"#
    );
    assert_eq!(
        register_outcome(200, "200 OK", b"{}", "", "", "").unwrap_err(),
        "device registration response missing device_id: {}"
    );
    assert_eq!(
        register_outcome(200, "200 OK", b"nope", "", "", "").unwrap_err(),
        "invalid register JSON"
    );
}

#[test]
fn reads_token_answers() {
    assert_eq!(
        token_outcome(
            200,
            "200 OK",
            br#"{"data":{"settings":{"asr_config":{"app_key":"tok"}}}}"#
        ),
        Ok("tok".to_string())
    );
    assert_eq!(
        token_outcome(200, "200 OK", br#"{"data":{}}"#).unwrap_err(),
        r#"settings response missing asr_config.app_key: {"data":{}}"#
    );
    assert_eq!(
        token_outcome(403, "403 Forbidden", b"[]").unwrap_err(),
        "ASR token request failed: HTTP 403 Forbidden []"
    );
    assert_eq!(
        token_outcome(200, "200 OK", &[0xff]).unwrap_err(),
        "invalid settings JSON"
    );
}

#[test]
fn expiry_is_compared_with_a_margin() {
    assert!(expired_given(None, 0, 0));
    assert!(!expired_given(Some(100), 10, 89));
    assert!(expired_given(Some(100), 10, 90));
    assert!(expired_given(Some(5), 10, 0));
    assert_eq!(jwt_payload("a.b.c"), Some("b".to_string()));
    assert_eq!(jwt_payload("a.b"), Some("b".to_string()));
    assert_eq!(jwt_payload("a."), Some(String::new()));
    assert_eq!(jwt_payload("abc"), None);
}

#[test]
fn answers_are_read_from_their_fields() {
    let answer = Some(RegisterAnswer {
        shown: "{}".to_string(),
        device_id_str: JsonKind::Str("0".to_string()),
        device_id: JsonKind::Number(Some(12)),
        install_id_str: JsonKind::Missing,
        install_id: JsonKind::Number(Some(0)),
    });
    let credentials = registration_from(201, "201 Created", &answer, "c", "o", "u").unwrap();
    assert_eq!(credentials.device_id, "12");
    assert_eq!(credentials.install_id, "");
    assert_eq!(
        registration_from(200, "200 OK", &None, "c", "o", "u").unwrap_err(),
        "invalid register JSON"
    );
    let token = Some(TokenAnswer {
        shown: "{}".to_string(),
        app_key: JsonKind::Str(String::new()),
    });
    assert_eq!(
        token_from(200, "200 OK", &token).unwrap_err(),
        "settings response missing asr_config.app_key: {}"
    );
    assert_eq!(
        token_from(299, "299", &Some(TokenAnswer { shown: "{}".to_string(), app_key: JsonKind::Str("t".to_string()) })),
        Ok("t".to_string())
    );
}
