//! What the inference API is sent, and what its refusals say.
use akagi_native::api::{
    check, failure, health, is_success, normalize_base, reason_in, redeem, ApiClient, Method,
    ReactRequest, RedeemRequest, REACT_TIMEOUT_MS, REQUEST_TIMEOUT_MS,
};
use serde_json::Value;

fn event(kind: &str) -> Value {
    serde_json::from_str(&format!(r#"{{"type":"{kind}"}}"#)).unwrap()
}

#[test]
fn normalize_trims_trailing_slash_and_space() {
    assert_eq!(normalize_base("http://host:8080/"), "http://host:8080");
    assert_eq!(normalize_base("  https://host  "), "https://host");
    assert_eq!(normalize_base("http://host:8080"), "http://host:8080");
}

#[test]
fn normalize_edges() {
    assert_eq!(normalize_base(""), "");
    assert_eq!(normalize_base(" / "), "");
    assert_eq!(normalize_base("http://host//"), "http://host");
    assert_eq!(normalize_base("\u{3000}http://host/v1/\n"), "http://host/v1");
    // Only what is outermost goes: a space before the slash stays.
    assert_eq!(normalize_base("http://host /"), "http://host ");
}

#[test]
fn react_request_omits_empty_model() {
    let body = ReactRequest {
        model: None,
        player_id: 0,
        events: vec![],
    };
    let v = body.to_json();
    assert!(v.get("model").is_none(), "model must be omitted when None");
    assert_eq!(v["player_id"], 0);
    assert_eq!(v.to_string(), r#"{"events":[],"player_id":0}"#);
}

#[test]
fn react_request_keeps_model_when_set() {
    let body = ReactRequest {
        model: Some("4p-ot2"),
        player_id: 2,
        events: vec![],
    };
    let v = body.to_json();
    assert_eq!(v["model"], "4p-ot2");
    assert_eq!(v["player_id"], 2);
}

#[test]
fn redeem_request_omits_blank_optionals() {
    let body = RedeemRequest {
        code: "abc",
        email: Some("  "),
        renew_key: None,
    };
    let filtered = RedeemRequest {
        code: body.code,
        email: body.email.map(str::trim).filter(|s| !s.is_empty()),
        renew_key: body.renew_key,
    };
    let v = filtered.to_json();
    assert_eq!(v["code"], "abc");
    assert!(v.get("email").is_none());
    assert!(v.get("renew_key").is_none());
}

#[test]
fn react_authenticates_with_a_bearer_header() {
    let client = ApiClient::new("http://127.0.0.1:8080", "SECRETKEY");
    let r = client.react(Some("4p-x"), 2, vec![event("start_game")]);
    assert_eq!(r.method, Method::Post);
    assert_eq!(r.url, "http://127.0.0.1:8080/v3/react");
    assert_eq!(r.bearer.as_deref(), Some("SECRETKEY"));
    assert!(!r.url.contains("SECRETKEY"));
    assert_eq!(r.timeout_ms, REACT_TIMEOUT_MS);
    assert_eq!(r.timeout_ms, 2_000);
    assert_eq!(r.what, "react");
    let body = r.body.unwrap();
    assert_eq!(body["player_id"], 2);
    assert_eq!(body["model"], "4p-x");
    assert_eq!(body["events"][0]["type"], "start_game");
    assert_eq!(body.as_object().unwrap().len(), 3);
}

#[test]
fn a_client_trims_its_url_and_key() {
    let r = ApiClient::new(" http://127.0.0.1:8080/ ", " SECRETKEY\n").key_status();
    assert_eq!(r.url, "http://127.0.0.1:8080/v3/key");
    assert_eq!(r.bearer.as_deref(), Some("SECRETKEY"));
}

#[test]
fn react_without_a_model_lets_the_server_pick() {
    let client = ApiClient::new("http://host", "K");
    for model in [None, Some("")] {
        let body = client.react(model, 1, vec![]).body.unwrap();
        assert!(body.get("model").is_none());
        assert_eq!(body.as_object().unwrap().len(), 2);
    }
    // A blank model is not an empty one.
    let body = client.react(Some(" "), 1, vec![]).body.unwrap();
    assert_eq!(body["model"], " ");
}

#[test]
fn key_status_and_models_authenticate_with_a_bearer_header() {
    let client = ApiClient::new("http://host", "SECRETKEY");
    let r = client.key_status();
    assert_eq!(r.method, Method::Get);
    assert_eq!(r.url, "http://host/v3/key");
    assert_eq!(r.bearer.as_deref(), Some("SECRETKEY"));
    assert_eq!(r.timeout_ms, REQUEST_TIMEOUT_MS);
    assert_eq!(r.timeout_ms, 8_000);
    assert!(r.body.is_none());
    assert_eq!(r.what, "key status");
    let r = client.models();
    assert_eq!(r.method, Method::Get);
    assert_eq!(r.url, "http://host/v3/models");
    assert_eq!(r.bearer.as_deref(), Some("SECRETKEY"));
    assert!(r.body.is_none());
    assert_eq!(r.what, "models");
}

#[test]
fn redeem_and_health_send_no_authorization_header() {
    let r = redeem("http://host/", " CODE ", Some(" "), None);
    assert_eq!(r.method, Method::Post);
    assert_eq!(r.url, "http://host/v3/redeem");
    assert!(r.bearer.is_none());
    assert_eq!(r.what, "redeem");
    // Blank optionals are dropped, and the code is trimmed.
    assert_eq!(r.body.unwrap().to_string(), r#"{"code":"CODE"}"#);

    let r = redeem("http://host", "C", Some(" a@b "), Some("\tKEY"));
    let body = r.body.unwrap();
    assert_eq!(body["email"], "a@b");
    assert_eq!(body["renew_key"], "KEY");

    let r = health(" http://host ");
    assert_eq!(r.method, Method::Get);
    assert_eq!(r.url, "http://host/healthz");
    assert!(r.bearer.is_none());
    assert!(r.body.is_none());
    assert_eq!(r.what, "health");
}

#[test]
fn http_error_carries_the_server_message() {
    let msg = check(429, "key status", None, r#"{"error":"rate limited"}"#).unwrap_err();
    assert!(msg.contains("429"), "{msg}");
    assert!(msg.contains("rate limited"), "{msg}");
    assert_eq!(msg, "key status failed: HTTP 429 — rate limited");
}

#[test]
fn http_error_carries_the_retry_hint() {
    let msg = check(503, "react", Some("7"), r#"{"error":"busy"}"#).unwrap_err();
    assert_eq!(msg, "react failed: HTTP 503 — busy (retry after 7s)");
}

#[test]
fn http_error_without_a_message_shows_the_body() {
    for raw in ["oops", r#"{"error":5}"#, r#"["error"]"#, r#"{"err":"x"}"#, ""] {
        let msg = check(500, "health", None, raw).unwrap_err();
        assert_eq!(msg, format!("health failed: HTTP 500 — {raw}"));
    }
    let long = "é".repeat(250);
    let msg = check(404, "models", None, &long).unwrap_err();
    assert_eq!(msg, format!("models failed: HTTP 404 — {}", "é".repeat(200)));
}

#[test]
fn success_is_any_2xx() {
    for status in [200, 204, 299] {
        assert!(is_success(status));
        assert_eq!(check(status, "react", Some("1"), "not read"), Ok(()));
    }
    for status in [100, 199, 300, 302, 404, 500, 0, 65535] {
        assert!(!is_success(status));
        assert!(check(status, "react", None, "").is_err());
    }
}

#[test]
fn reasons_and_failures() {
    let found = serde_json::from_str::<Value>(r#"{"error":"no","x":1}"#).ok();
    assert_eq!(reason_in(found, "raw"), "no");
    assert_eq!(reason_in(None, "raw"), "raw");
    assert_eq!(failure("w", 65535, Some("r"), "m"), "w failed: HTTP 65535 — m (retry after rs)");
}
