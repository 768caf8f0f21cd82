use stockledger::relay::{
    classify_login, classify_response, dec_string, form_encode, parse_json, parse_log_level,
    parse_method, plan_request, FormPair, HttpMethod, LogLevel,
};
use stockledger::model::new_id;
use stockledger::session::WebSocketState;

#[test]
fn method_parsing_is_case_insensitive() {
    assert_eq!(parse_method("get"), Some(HttpMethod::Get));
    assert_eq!(parse_method("GET"), Some(HttpMethod::Get));
    assert_eq!(parse_method("PoSt"), Some(HttpMethod::Post));
    assert_eq!(parse_method("put"), Some(HttpMethod::Put));
    assert_eq!(parse_method("DELETE"), Some(HttpMethod::Delete));
    assert_eq!(parse_method("patch"), None);
    assert_eq!(parse_method(""), None);
    assert_eq!(parse_method("gett"), None);
}

#[test]
fn decimal_rendering() {
    assert_eq!(dec_string(0), "0");
    assert_eq!(dec_string(7), "7");
    assert_eq!(dec_string(401), "401");
    assert_eq!(dec_string(65535), "65535");
}

#[test]
fn responses_are_classified_by_status_and_body() {
    let body = "{\"items\": [1, 2, 3]}".to_string();
    let ok = classify_response(200, parse_json(&body), &body).unwrap();
    assert_eq!(ok.message, Some("Request successful".to_string()));
    assert!(ok.error.is_none());
    assert!(ok.data.is_some());

    let garbled = "not json".to_string();
    let e = classify_response(201, parse_json(&garbled), &garbled).unwrap_err();
    assert_eq!(e.error, Some("Failed to parse response".to_string()));
    assert!(e.message.is_none());

    let body = "denied".to_string();
    let e = classify_response(401, parse_json(&body), &body).unwrap_err();
    assert_eq!(e.error, Some("401".to_string()));
    assert_eq!(e.message, Some("Status code: 401 - denied".to_string()));

    let body = "boom".to_string();
    let e = classify_response(500, parse_json(&body), &body).unwrap_err();
    assert_eq!(e.error, Some("API request failed".to_string()));
    assert_eq!(e.message, Some("Status code: 500 - boom".to_string()));
}

#[test]
fn form_encoding_uses_the_urlencoded_format() {
    let pairs = vec![
        FormPair { key: "a".to_string(), value: "b".to_string() },
        FormPair { key: "c".to_string(), value: "d e".to_string() },
    ];
    assert_eq!(form_encode(&pairs), "a=b&c=d+e");
    let none: Vec<FormPair> = vec![];
    assert_eq!(form_encode(&none), "");
}

#[test]
fn login_classification() {
    let ok = classify_login(true, Some("tok".to_string()), None, None).unwrap();
    assert_eq!(ok.message, Some("Login successful".to_string()));
    assert_eq!(ok.data, Some("tok".to_string()));

    let e = classify_login(true, None, Some("bad password".to_string()),
        Some("try again".to_string())).unwrap_err();
    assert_eq!(e.error, Some("bad password".to_string()));
    assert_eq!(e.message, Some("try again".to_string()));

    let e = classify_login(true, None, None, None).unwrap_err();
    assert_eq!(e.error, Some("Unknown error occurred".to_string()));

    let e = classify_login(false, Some("tok".to_string()), None, None).unwrap_err();
    assert_eq!(e.error, Some("Failed to login".to_string()));
}

#[test]
fn log_levels_default_to_info() {
    assert_eq!(parse_log_level(&"info".to_string()), LogLevel::Info);
    assert_eq!(parse_log_level(&"warn".to_string()), LogLevel::Warn);
    assert_eq!(parse_log_level(&"error".to_string()), LogLevel::Error);
    assert_eq!(parse_log_level(&"debug".to_string()), LogLevel::Info);
    assert_eq!(parse_log_level(&"".to_string()), LogLevel::Info);
}

#[test]
fn ids_are_long_tokens() {
    let a = new_id();
    let b = new_id();
    assert_eq!(a.chars().count(), 36);
    assert_eq!(b.chars().count(), 36);
    assert_ne!(a, b);
}

#[test]
fn websocket_slot_holds_one_connection() {
    let mut ws = WebSocketState::new();
    assert!(!ws.may_send());
    assert!(ws.send_decision().is_err());
    assert!(ws.close_decision().is_err());

    // a connect fills the slot; a second one replaces the first
    assert!(!ws.on_open());
    assert!(ws.may_send());
    assert_eq!(ws.send_decision().unwrap(), "Message sent.");
    assert!(ws.on_open());

    assert_eq!(ws.close_decision().unwrap(), "WebSocket connection closed.");
    assert!(!ws.may_send());
    assert_eq!(ws.close_decision().unwrap_err(), "WebSocket is not connected.");
}

#[test]
fn request_planning_encodes_payloads_for_writes_only() {
    let pairs = vec![FormPair { key: "a".to_string(), value: "b".to_string() }];
    let plan = plan_request(&"POST".to_string(), "http://x/y".to_string(),
        Some(pairs)).unwrap();
    assert_eq!(plan.method, HttpMethod::Post);
    assert_eq!(plan.url, "http://x/y");
    assert_eq!(plan.form_body, Some("a=b".to_string()));

    let pairs = vec![FormPair { key: "a".to_string(), value: "b".to_string() }];
    let plan = plan_request(&"get".to_string(), "http://x/y".to_string(),
        Some(pairs)).unwrap();
    assert_eq!(plan.method, HttpMethod::Get);
    assert_eq!(plan.form_body, None);

    let e = plan_request(&"patch".to_string(), "http://x/y".to_string(), None).unwrap_err();
    assert_eq!(e.error, Some("Unsupported HTTP method: patch".to_string()));
    assert_eq!(e.message, None);
}
