use btl_api::envelope::ApiResponse;
use btl_api::health::HealthResponse;
use btl_api::parse::{parse_error_envelope, parse_health_envelope, parse_root_envelope};
use btl_api::router::RootInfo;

#[test]
fn error_envelope_round_trips() {
    let message = "Not found: /unknown/path";
    let envelope: ApiResponse<()> = ApiResponse::error(message);
    let recovered = parse_error_envelope(&envelope.to_json());
    assert_eq!(recovered.as_deref(), Some(message));
}

#[test]
fn error_envelope_round_trips_with_escapes() {
    let message = "quote \" backslash \\ newline \n bell \u{7} tab \t";
    let envelope: ApiResponse<()> = ApiResponse::error(message);
    let recovered = parse_error_envelope(&envelope.to_json());
    assert_eq!(recovered.as_deref(), Some(message));
}

#[test]
fn health_envelope_round_trips() {
    let payload = HealthResponse {
        status: "degraded \"but\" alive".to_string(),
        version: "1.2.3-rc.1\n".to_string(),
    };
    let envelope = ApiResponse::success(payload);
    let json = envelope.to_json();
    let recovered = parse_health_envelope(&json).unwrap();
    assert_eq!(recovered.status, "degraded \"but\" alive");
    assert_eq!(recovered.version, "1.2.3-rc.1\n");
}

#[test]
fn live_health_body_round_trips() {
    let json = btl_api::router::health_handler().body;
    let recovered = parse_health_envelope(&json).unwrap();
    assert_eq!(recovered.status, "healthy");
    assert_eq!(recovered.version, btl_api::VERSION);
}

#[test]
fn live_root_body_round_trips() {
    let json = btl_api::router::root_handler().body;
    let info = parse_root_envelope(&json).unwrap();
    assert_eq!(info.name, "btl.run API");
    assert_eq!(info.version, btl_api::VERSION);
    assert_eq!(info.endpoints, vec!["/health", "/api/health"]);
}

#[test]
fn root_envelope_round_trips_with_odd_payloads() {
    let info = RootInfo {
        name: "name \"with\" quotes".to_string(),
        version: String::new(),
        endpoints: vec!["/a,b".to_string(), "[\"]".to_string(), "\u{1f}".to_string()],
    };
    let json = btl_api::envelope::ApiResponse::success(info).to_json();
    let recovered = parse_root_envelope(&json).unwrap();
    assert_eq!(recovered.name, "name \"with\" quotes");
    assert_eq!(recovered.version, "");
    assert_eq!(recovered.endpoints, vec!["/a,b", "[\"]", "\u{1f}"]);

    let empty = RootInfo {
        name: "n".to_string(),
        version: "v".to_string(),
        endpoints: Vec::new(),
    };
    let json = btl_api::envelope::ApiResponse::success(empty).to_json();
    let recovered = parse_root_envelope(&json).unwrap();
    assert!(recovered.endpoints.is_empty());
}

#[test]
fn parse_rejects_foreign_shapes() {
    assert!(parse_error_envelope("{}").is_none());
    assert!(parse_error_envelope("{\"success\":false,\"error\":\"x\"} ").is_none());
    assert!(parse_error_envelope("{\"success\":false,\"error\":\"x").is_none());
    assert!(parse_health_envelope("{\"success\":false,\"error\":\"x\"}").is_none());
    assert!(parse_health_envelope("").is_none());
    assert!(parse_root_envelope(&btl_api::router::health_handler().body).is_none());
    assert!(
        parse_root_envelope(
            "{\"success\":true,\"data\":{\"name\":\"n\",\"version\":\"v\",\"endpoints\":[,]}}"
        )
        .is_none()
    );
}

#[test]
fn parse_accepts_only_the_emitted_escapes() {
    assert_eq!(
        parse_error_envelope("{\"success\":false,\"error\":\"a\\u0001b\"}").as_deref(),
        Some("a\u{1}b")
    );
    assert!(parse_error_envelope("{\"success\":false,\"error\":\"a\\x\"}").is_none());
}
