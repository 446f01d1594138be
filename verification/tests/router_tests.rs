use btl_api::router::{handle, health_handler, not_found_handler, response_headers, root_handler};

#[test]
fn get_health_returns_health_envelope() {
    let reply = handle("GET", "/health");
    assert_eq!(reply.status, 200);
    assert_eq!(
        reply.body,
        "{\"success\":true,\"data\":{\"status\":\"healthy\",\"version\":\"0.1.0\"}}"
    );
}

#[test]
fn get_api_health_returns_health_envelope() {
    let reply = handle("GET", "/api/health");
    assert_eq!(reply.status, 200);
    assert_eq!(reply.body, health_handler().body);
}

#[test]
fn get_root_lists_endpoints() {
    let reply = handle("GET", "/api");
    assert_eq!(reply.status, 200);
    assert!(reply.body.contains("\"endpoints\":[\"/health\",\"/api/health\"]"));
    assert_eq!(
        reply.body,
        "{\"success\":true,\"data\":{\"name\":\"btl.run API\",\"version\":\"0.1.0\",\
         \"endpoints\":[\"/health\",\"/api/health\"]}}"
    );
    let v: serde_json::Value = serde_json::from_str(&reply.body).unwrap();
    assert_eq!(v["data"]["name"].as_str(), Some("btl.run API"));
    assert_eq!(v["data"]["endpoints"][1].as_str(), Some("/api/health"));
}

#[test]
fn get_slash_matches_root_route() {
    let reply = handle("GET", "/");
    assert_eq!(reply.status, 200);
    assert_eq!(reply.body, root_handler().body);
}

#[test]
fn post_health_is_method_sensitive() {
    let reply = handle("POST", "/health");
    assert_eq!(reply.status, 404);
    assert_eq!(
        reply.body,
        "{\"success\":false,\"error\":\"Not found: /health\"}"
    );
}

#[test]
fn unknown_path_returns_not_found_with_path() {
    let reply = handle("GET", "/unknown/path");
    assert_eq!(reply.status, 404);
    assert_eq!(
        reply.body,
        "{\"success\":false,\"error\":\"Not found: /unknown/path\"}"
    );
}

#[test]
fn not_found_handler_echoes_path() {
    let reply = not_found_handler("/x");
    assert_eq!(reply.status, 404);
    assert_eq!(reply.body, "{\"success\":false,\"error\":\"Not found: /x\"}");
}

#[test]
fn fixed_headers_are_attached_to_every_response() {
    let headers = response_headers();
    assert_eq!(
        headers,
        vec![
            ("content-type", "application/json"),
            ("access-control-allow-origin", "*"),
            ("access-control-allow-methods", "GET, POST, PUT, DELETE, OPTIONS"),
            ("access-control-allow-headers", "Content-Type, Authorization"),
        ]
    );
}
