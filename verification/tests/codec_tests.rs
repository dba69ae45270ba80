use jwt_middleware::hexenc::hex_encode;
use jwt_middleware::json::{build_obj1, build_obj2, parse_obj1, parse_obj2};
use jwt_middleware::profiles::{
    add_user_response, get_default_user, profile_to_json, UserProfile, UserRole,
};
use jwt_middleware::session::DeviceResponseSessions;
use jwt_middleware::status::generate_response;
use jwt_middleware::token::User;

#[test]
fn hex_encoding_is_exact() {
    assert_eq!(hex_encode(&[]), "");
    assert_eq!(hex_encode(&[0x00, 0xff, 0x1a]), "00ff1a");
    assert_eq!(hex_encode(&[0xde, 0xad, 0xbe, 0xef]), "deadbeef");
}

#[test]
fn objects_build_and_parse_back() {
    let one = build_obj1("user", "some \"quoted\" text\\here");
    assert_eq!(one, "{\"user\":\"some \\\"quoted\\\" text\\\\here\"}");
    assert_eq!(parse_obj1(&one, "user").unwrap(), "some \"quoted\" text\\here");

    let two = build_obj2("name", "Wison Ye", "role", "Administrator");
    assert_eq!(two, "{\"name\":\"Wison Ye\",\"role\":\"Administrator\"}");
    let (a, b) = parse_obj2(&two, "name", "role").unwrap();
    assert_eq!(a, "Wison Ye");
    assert_eq!(b, "Administrator");
}

#[test]
fn parsing_is_strict() {
    assert!(parse_obj1("{\"user\":\"x\"} ", "user").is_none());
    assert!(parse_obj1("{\"user\":\"x}", "user").is_none());
    assert!(parse_obj1("{\"user\":\"x\\q\"}", "user").is_none());
    assert!(parse_obj1("{\"other\":\"x\"}", "user").is_none());
    assert!(parse_obj2("{\"name\":\"a\"}", "name", "role").is_none());
}

#[test]
fn user_json_is_canonical() {
    let u = User { name: "Wison Ye".to_string(), role: "Administrator".to_string() };
    assert_eq!(u.to_json(), "{\"name\":\"Wison Ye\",\"role\":\"Administrator\"}");
    let back = User::from_json("{\"name\":\"Wison Ye\",\"role\":\"Administrator\"}").unwrap();
    assert_eq!(back.name, "Wison Ye");
    assert_eq!(back.role, "Administrator");
}

#[test]
fn sessions_store_is_well_formed() {
    let sessions = DeviceResponseSessions::new();
    assert!(sessions.print_unique_id().starts_with("Instance address as id: "));
    assert!(sessions.print_unique_id().len() > "Instance address as id: ".len());
}

#[test]
fn status_responses_report_the_code() {
    let ok = generate_response(200);
    assert_eq!(ok.status, 401);
    assert_eq!(ok.body, "{\"success\":true,\"status_code\":\"200\"}");
    let not_found = generate_response(404);
    assert_eq!(not_found.status, 401);
    assert_eq!(not_found.body, "{\"success\":false,\"status_code\":\"404\"}");
    let unauthorized = generate_response(401);
    assert_eq!(unauthorized.body, "{\"success\":false,\"status_code\":\"401\"}");
}

#[test]
fn default_profile_renders_fully() {
    let p = get_default_user();
    assert_eq!(p.name, "Wison Ye");
    assert_eq!(
        profile_to_json(&p),
        "{\"name\":\"Wison Ye\",\"role\":\"Administrator\",\"settings\":{\"prefer_language\":\"English\",\"reload_when_changed\":true}}"
    );
}

#[test]
fn add_user_response_covers_both_outcomes() {
    let p = UserProfile { name: "New".to_string(), role: UserRole::Operator, settings: None };
    assert_eq!(
        add_user_response(Some(&p), None),
        "{\"success\":true,\"added_user\":{\"name\":\"New\",\"role\":\"Operator\",\"settings\":null},\"fail_reason\":null}"
    );
    assert_eq!(
        add_user_response(None, Some("missing field `name`")),
        "{\"success\":true,\"added_user\":null,\"fail_reason\":\"missing field `name`\"}"
    );
}

#[test]
fn control_characters_escape_as_json() {
    let u = User { name: "a\nb\tc".to_string(), role: "r\u{1}s".to_string() };
    let rendered = u.to_json();
    assert_eq!(rendered, "{\"name\":\"a\\u000ab\\u0009c\",\"role\":\"r\\u0001s\"}");
    let back = User::from_json(&rendered).unwrap();
    assert_eq!(back.name, "a\nb\tc");
    assert_eq!(back.role, "r\u{1}s");
    assert!(User::from_json("{\"name\":\"a\nb\",\"role\":\"r\"}").is_none());
}
