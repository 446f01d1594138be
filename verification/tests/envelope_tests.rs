use btl_api::envelope::ApiResponse;
use btl_api::error::AppError;
use btl_api::health::HealthResponse;

#[test]
fn test_api_response_success() {
    let response = ApiResponse::success("test data");
    assert!(response.success);
    assert_eq!(response.data, Some("test data"));
    assert!(response.error.is_none());
}

#[test]
fn test_api_response_error() {
    let response: ApiResponse<()> = ApiResponse::error("something went wrong");
    assert!(!response.success);
    assert!(response.data.is_none());
    assert_eq!(response.error, Some("something went wrong".to_string()));
}

#[test]
fn success_envelope_json_omits_error_key() {
    let response = ApiResponse::success(HealthResponse::default());
    let json = response.to_json();
    assert_eq!(
        json,
        "{\"success\":true,\"data\":{\"status\":\"healthy\",\"version\":\"0.1.0\"}}"
    );
    let v: serde_json::Value = serde_json::from_str(&json).unwrap();
    assert_eq!(v["success"].as_bool(), Some(true));
    assert!(v.get("error").is_none());
    assert_eq!(v["data"]["status"].as_str(), Some("healthy"));
}

#[test]
fn error_envelope_json_omits_data_key() {
    let response: ApiResponse<()> = ApiResponse::error("boom");
    let json = response.to_json();
    assert_eq!(json, "{\"success\":false,\"error\":\"boom\"}");
    let v: serde_json::Value = serde_json::from_str(&json).unwrap();
    assert_eq!(v["success"].as_bool(), Some(false));
    assert!(v.get("data").is_none());
    assert_eq!(v["error"].as_str(), Some("boom"));
}

#[test]
fn unit_success_envelope_serializes_data_as_null() {
    let response = ApiResponse::success(());
    assert_eq!(response.to_json(), "{\"success\":true,\"data\":null}");
}

#[test]
fn error_message_is_escaped_like_serde_json() {
    let message = "a\"b\\c\nd\te\u{1}f";
    let response: ApiResponse<()> = ApiResponse::error(message);
    let json = response.to_json();
    assert_eq!(
        json,
        "{\"success\":false,\"error\":\"a\\\"b\\\\c\\nd\\te\\u0001f\"}"
    );
    let v: serde_json::Value = serde_json::from_str(&json).unwrap();
    assert_eq!(v["error"].as_str(), Some(message));
}

#[test]
fn non_ascii_text_passes_through_unescaped() {
    let response: ApiResponse<()> = ApiResponse::error("héllo ∞");
    let json = response.to_json();
    assert_eq!(json, "{\"success\":false,\"error\":\"héllo ∞\"}");
    let v: serde_json::Value = serde_json::from_str(&json).unwrap();
    assert_eq!(v["error"].as_str(), Some("héllo ∞"));
}

#[test]
fn status_codes_cover_every_error_kind() {
    assert_eq!(AppError::NotFound("x".to_string()).status_code(), 404);
    assert_eq!(AppError::BadRequest("x".to_string()).status_code(), 400);
    assert_eq!(AppError::Internal("x".to_string()).status_code(), 500);
    assert_eq!(AppError::Unauthorized.status_code(), 401);
}

#[test]
fn health_default_reports_healthy_and_version() {
    let h = HealthResponse::default();
    assert_eq!(h.status, "healthy");
    assert_eq!(h.version, btl_api::VERSION);
}
