use ofscp_transport::models::{validate_resource_name, get_base_role, get_custom_roles, has_role, is_base_role, ProblemDetails};
use ofscp_transport::urls::{
    api_base_url, api_url, api_url_for_host, http_to_ws, is_local_address, normalize_domain,
    normalize_host, ws_url, ws_url_for_host,
};

#[test]
fn normalization_strips_scheme_and_slashes() {
    assert_eq!(normalize_host("https://Example.com/"), "Example.com");
    assert_eq!(normalize_host("Example.com"), "Example.com");
    assert_eq!(normalize_host("http://a.example//"), "a.example");
    assert_eq!(normalize_domain("https://example.com/"), "example.com");
}

#[test]
fn normalization_is_idempotent_on_ordinary_hosts() {
    for h in ["https://Example.com/", "example.com:8080", "http://10.0.0.1/"] {
        let once = normalize_host(h);
        assert_eq!(normalize_host(&once), once);
    }
}

#[test]
fn local_addresses_are_recognized() {
    assert!(is_local_address("localhost"));
    assert!(is_local_address("localhost:8080"));
    assert!(is_local_address("127.0.0.1:9"));
    assert!(is_local_address("192.168.1.4:3000"));
    assert!(is_local_address("10.1.2.3"));
    assert!(!is_local_address("example.com"));
    assert!(!is_local_address("192.169.0.1"));
}

#[test]
fn base_url_picks_scheme_by_locality() {
    assert_eq!(api_base_url("localhost:8080"), "http://localhost:8080");
    assert_eq!(api_base_url("example.com"), "https://example.com");
    assert_eq!(api_base_url("https://already.example/"), "https://already.example");
    assert_eq!(api_base_url("   "), "");
}

#[test]
fn api_url_joins_base_and_path() {
    assert_eq!(api_url("example.com", "/api/x"), "https://example.com/api/x");
    assert_eq!(api_url("example.com", "api/x"), "https://example.com/api/x");
    assert_eq!(api_url("", "/api/x"), "/api/x");
    assert_eq!(api_url("d", "https://absolute.example/z"), "https://absolute.example/z");
}

#[test]
fn api_url_for_host_prefers_the_remote_host() {
    assert_eq!(
        api_url_for_host("home.example", Some("other.example"), "/api/y"),
        "https://other.example/api/y"
    );
    assert_eq!(
        api_url_for_host("home.example", Some("https://home.example/"), "/api/y"),
        "https://home.example/api/y"
    );
    assert_eq!(
        api_url_for_host("home.example", None, "/api/y"),
        "https://home.example/api/y"
    );
}

#[test]
fn websocket_urls_swap_the_scheme() {
    assert_eq!(http_to_ws("https://x.example/api/ws", "x.example"), "wss://x.example/api/ws");
    assert_eq!(http_to_ws("http://x.example/api/ws", "x.example"), "ws://x.example/api/ws");
    assert_eq!(ws_url("localhost:8080", "/api/ws"), "ws://localhost:8080/api/ws");
    assert_eq!(ws_url("chat.example", "/api/ws"), "wss://chat.example/api/ws");
    assert_eq!(
        ws_url_for_host("home.example", Some("other.example"), "/api/ws"),
        "wss://other.example/api/ws"
    );
}

#[test]
fn resource_names_are_lowercase_tokens() {
    assert!(validate_resource_name("general"));
    assert!(validate_resource_name("a.b_c-9"));
    assert!(!validate_resource_name(""));
    assert!(!validate_resource_name("No-Caps"));
    assert!(!validate_resource_name("has space"));
}

#[test]
fn role_helpers() {
    assert!(is_base_role("owner"));
    assert!(is_base_role("member"));
    assert!(!is_base_role("moderator"));
    let roles = vec![
        "moderator".to_string(),
        "admin".to_string(),
        "artist".to_string(),
    ];
    assert_eq!(get_base_role(&roles), "admin");
    assert_eq!(get_custom_roles(&roles), vec!["moderator", "artist"]);
    assert!(has_role(&roles, "artist"));
    assert!(!has_role(&roles, "owner"));
    let none: Vec<String> = vec![];
    assert_eq!(get_base_role(&none), "member");
}

#[test]
fn problem_details_carry_their_status() {
    assert_eq!(ProblemDetails::bad_request("x").status, 400);
    assert_eq!(ProblemDetails::unauthorized("x").status, 401);
    assert_eq!(ProblemDetails::not_found("x").status, 404);
    assert_eq!(ProblemDetails::conflict("x").status, 409);
    let p = ProblemDetails::internal_error("boom");
    assert_eq!(p.status, 500);
    assert_eq!(p.title, "Internal Server Error");
    assert_eq!(p.detail.as_deref(), Some("boom"));
}

#[test]
fn relative_urls_get_the_domain_websocket_origin() {
    assert_eq!(http_to_ws("/api/ws", "chat.example"), "wss://chat.example/api/ws");
    assert_eq!(http_to_ws("api/ws", "localhost:9"), "ws://localhost:9/api/ws");
}
