use jwt_middleware::auth::{
    handle_request, login_route, protected_route, token_based_handle, unauthorized_reply,
    Decision, LoginUser,
};
use jwt_middleware::token::{generate_token, verfiy_token, User};

fn secret() -> Vec<u8> {
    b"My Super Secret Key!".to_vec()
}

fn demo_user() -> User {
    User { name: "Wison Ye".to_string(), role: "Administrator".to_string() }
}

#[test]
fn round_trip_recovers_identity() {
    let key = secret();
    let tok = generate_token(demo_user(), &key);
    let uj = verfiy_token(&tok, &key).expect("a minted token must verify");
    let u = User::from_json(&uj).expect("the claim must parse back");
    assert_eq!(u.name, "Wison Ye");
    assert_eq!(u.role, "Administrator");
}

#[test]
fn round_trip_with_escaped_characters() {
    let key = secret();
    let user = User { name: "Wi\"son\\Ye\n".to_string(), role: "Admin\"istrator\u{7}".to_string() };
    let tok = generate_token(user, &key);
    let uj = verfiy_token(&tok, &key).expect("a minted token must verify");
    let u = User::from_json(&uj).expect("the claim must parse back");
    assert_eq!(u.name, "Wi\"son\\Ye\n");
    assert_eq!(u.role, "Admin\"istrator\u{7}");
}

#[test]
fn tampering_with_any_signature_byte_fails() {
    let key = secret();
    let tok = generate_token(demo_user(), &key);
    let dot = tok.rfind('.').expect("a token has a dot");
    let bytes = tok.as_bytes();
    for i in (dot + 1)..bytes.len() {
        for repl in "0123456789abcdef".bytes() {
            if repl != bytes[i] {
                let mut tampered = bytes.to_vec();
                tampered[i] = repl;
                let tampered = String::from_utf8(tampered).unwrap();
                assert!(verfiy_token(&tampered, &key).is_none(), "tampered token accepted");
            }
        }
    }
}

#[test]
fn truncated_and_garbage_tokens_fail() {
    let key = secret();
    let tok = generate_token(demo_user(), &key);
    assert!(verfiy_token(&tok[..tok.len() - 1], &key).is_none());
    assert!(verfiy_token("", &key).is_none());
    assert!(verfiy_token("garbage", &key).is_none());
    assert!(verfiy_token("a.b", &key).is_none());
}

#[test]
fn different_secret_fails() {
    let tok = generate_token(demo_user(), &secret());
    assert!(verfiy_token(&tok, b"Another Secret").is_none());
}

#[test]
fn exempt_route_always_forwards() {
    let key = secret();
    assert!(matches!(handle_request("/auth", Some("garbage"), &key), Decision::Bypass));
    assert!(matches!(handle_request("/auth", None, &key), Decision::Bypass));
    let tok = generate_token(demo_user(), &key);
    assert!(matches!(handle_request("/auth", Some(&tok), &key), Decision::Bypass));
}

#[test]
fn missing_header_is_unauthorized() {
    let key = secret();
    assert!(matches!(handle_request("/home", None, &key), Decision::Reject));
    let reply = unauthorized_reply();
    assert_eq!(reply.status, 401);
    assert_eq!(
        reply.body,
        "{\"errorCode\":\"401\",\"errorMessage\":\"Token is invalid.\"}"
    );
}

#[test]
fn login_with_demo_credentials_succeeds() {
    let key = secret();
    let reply = login_route("{\"username\":\"wison\",\"password\":\"demo\"}", &key);
    assert_eq!(reply.status, 200);
    let prefix = "{\"success\":true,\"token\":\"";
    assert!(reply.body.starts_with(prefix));
    assert!(reply.body.len() > prefix.len() + 2, "the token field must not be empty");
    let tok = generate_token(demo_user(), &key);
    let escaped = tok.replace('\\', "\\\\").replace('"', "\\\"");
    assert_eq!(reply.body, format!("{{\"success\":true,\"token\":\"{}\"}}", escaped));
}

#[test]
fn login_with_wrong_password_fails() {
    let key = secret();
    let reply = login_route("{\"username\":\"wison\",\"password\":\"wrong\"}", &key);
    assert_eq!(reply.status, 401);
    assert!(reply.body.contains("'username' or 'password' is invalid."));
    assert!(!reply.body.contains("token"));
}

#[test]
fn login_with_malformed_body_fails() {
    let key = secret();
    for body in ["", "{}", "{\"username\":\"wison\"}", "not json", "{\"user\":\"a\",\"pass\":\"b\"}"]
    {
        let reply = login_route(body, &key);
        assert_eq!(reply.status, 401);
        assert!(reply.body.contains("'username' and 'password' is required."));
    }
}

#[test]
fn protected_route_with_minted_token_succeeds() {
    let key = secret();
    let tok = generate_token(demo_user(), &key);
    match handle_request("/home", Some(&tok), &key) {
        Decision::Forward(u) => {
            let reply = protected_route(&u);
            assert_eq!(reply.status, 200);
            assert!(reply.body.contains("\"name\":\"Wison Ye\""));
            assert!(reply.body.contains("Here is the Dashboard"));
        }
        _ => panic!("a valid token must be forwarded"),
    }
}

#[test]
fn protected_route_with_garbage_token_fails() {
    let key = secret();
    assert!(matches!(handle_request("/home", Some("garbage"), &key), Decision::Reject));
    let reply = unauthorized_reply();
    assert_eq!(reply.status, 401);
    assert!(reply.body.contains("Token is invalid."));
}

#[test]
fn repeated_requests_yield_the_same_outcome() {
    let key = secret();
    let tok = generate_token(demo_user(), &key);
    let mut names = Vec::new();
    for _ in 0..5 {
        match handle_request("/home", Some(&tok), &key) {
            Decision::Forward(u) => names.push(u.name),
            _ => panic!("a valid token must be forwarded every time"),
        }
    }
    assert!(names.iter().all(|n| n == "Wison Ye"));
    for _ in 0..3 {
        assert!(matches!(handle_request("/home", Some("garbage"), &key), Decision::Reject));
    }
}

#[test]
fn token_based_variant_accepts_only_the_demo_token() {
    assert!(token_based_handle(Some("demo-token")));
    assert!(!token_based_handle(Some("demo-token ")));
    assert!(!token_based_handle(Some("garbage")));
    assert!(!token_based_handle(None));
}

#[test]
fn credentials_parse_like_json() {
    let c = LoginUser::from_json("{\"username\":\"wison\",\"password\":\"demo\"}").unwrap();
    assert_eq!(c.username, "wison");
    assert_eq!(c.password, "demo");

    let c = LoginUser::from_json("{\"password\":\"demo\",\"username\":\"wison\"}").unwrap();
    assert_eq!(c.username, "wison");
    assert_eq!(c.password, "demo");

    let c = LoginUser::from_json(" {\u{9}\"username\" : \"wison\" ,\r\n \"password\": \"demo\" } ")
        .unwrap();
    assert_eq!(c.username, "wison");
    assert_eq!(c.password, "demo");

    let c = LoginUser::from_json("{\"username\":\"\\u0077ison\",\"password\":\"de\\u006Do\"}")
        .unwrap();
    assert_eq!(c.username, "wison");
    assert_eq!(c.password, "demo");

    let c = LoginUser::from_json(
        "{\"username\":\"a\\\"b\\\\c\\/d\\n\\t\\r\\b\\f\",\"password\":\"\\uD83D\\uDE00\"}",
    )
    .unwrap();
    assert_eq!(c.username, "a\"b\\c/d\n\t\r\u{8}\u{c}");
    assert_eq!(c.password, "\u{1F600}");

    assert!(LoginUser::from_json("{\"username\":\"wison\",\"password\":\"demo\"}x").is_none());
    assert!(LoginUser::from_json("{\"username\":\"wison\"}").is_none());
    assert!(LoginUser::from_json("{\"username\":\"wison\",\"role\":\"demo\"}").is_none());
    assert!(LoginUser::from_json("{\"username\":\"\\uD800\",\"password\":\"demo\"}").is_none());
}

#[test]
fn login_accepts_json_variants() {
    let key = secret();
    let spaced = login_route(" { \"username\" : \"wison\" , \"password\" : \"demo\" } ", &key);
    assert_eq!(spaced.status, 200);
    let reordered = login_route("{\"password\":\"demo\",\"username\":\"wison\"}", &key);
    assert_eq!(reordered.status, 200);
    assert_eq!(spaced.body, reordered.body);
}
