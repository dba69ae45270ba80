//! The authentication middleware decision and the two route handlers. The
//! middleware either lets an exempt route through untouched, attaches the
//! identity carried by a valid bearer token, or rejects. The login handler
//! checks credentials and mints a token; the protected handler renders the
//! identity the middleware attached.

use crate::json::{
    jstr, scan_jstr, skip_ws, str_eq, ws_end,
};
use crate::token::{
    generate_token, token_of, user_json, verfiy_token, User, UserView,
};
use vstd::prelude::*;

verus! {

/// What the middleware decides for one request.
pub enum Decision {
    /// The route is exempt: forward without looking at any header.
    Bypass,
    /// The token was valid: forward with this identity attached.
    Forward(User),
    /// The token was missing or invalid: answer with the rejection reply.
    Reject,
}

/// The login route is exempt from authentication.
pub open spec fn is_exempt(path: Seq<char>) -> bool {
    path == "/auth"@
}

/// The token string a request carries: the `Authorization` header's value,
/// or the empty string when the header is absent.
pub open spec fn header_token(authorization: Option<&str>) -> Seq<char> {
    match authorization {
        Some(a) => a@,
        None => ""@,
    }
}

/// Whether a token grants the identity `u` under `key`.
pub open spec fn grants(tok: Seq<char>, key: Seq<u8>, u: UserView) -> bool {
    tok == token_of(user_json(u), key)
}

/// The middleware contract: on the exempt route the request passes untouched;
/// elsewhere it is forwarded exactly when the token grants some identity, and
/// any attached identity is one the token grants.
pub open spec fn decides(path: Seq<char>, tok: Seq<char>, key: Seq<u8>, r: Decision) -> bool {
    if is_exempt(path) {
        r is Bypass
    } else {
        &&& !(r is Bypass)
        &&& (r matches Decision::Forward(u) ==> grants(tok, key, u@))
        &&& ((exists|u: UserView| grants(tok, key, u)) ==> r is Forward)
    }
}

/// The per-request middleware decision.
pub fn handle_request(path: &str, authorization: Option<&str>, secret: &[u8]) -> (r: Decision)
    ensures
        decides(path@, header_token(authorization), secret@, r),
        is_exempt(path@) ==> r is Bypass,
        !is_exempt(path@) && authorization is None ==> r is Reject,
{
    if str_eq(path, "/auth") {
        return Decision::Bypass;
    }
    let tok: &str = match authorization {
        Some(a) => a,
        None => "",
    };
    proof {
        assert(tok@ == header_token(authorization));
    }
    match verfiy_token(tok, secret) {
        Some(uj) => {
            match User::from_json(uj.as_str()) {
                Some(u) => {
                    proof {
                        assert(grants(tok@, secret@, u@));
                        if authorization is None {
                            reveal_strlit("");
                            assert(tok@.len() == 0);
                            assert(token_of(user_json(u@), secret@).len() > 0);
                            assert(false);
                        }
                    }
                    Decision::Forward(u)
                },
                None => {
                    proof {
                        assert forall|u: UserView| !grants(tok@, secret@, u) by {
                            if grants(tok@, secret@, u) {
                                crate::token::lemma_token_of_injective(
                                    uj@,
                                    user_json(u),
                                    secret@,
                                );
                            }
                        }
                    }
                    Decision::Reject
                },
            }
        },
        None => {
            proof {
                assert forall|u: UserView| !grants(tok@, secret@, u) by {
                    assert(tok@ != token_of(user_json(u), secret@));
                }
            }
            Decision::Reject
        },
    }
}

/// The simpler token-based middleware variant: a request may pass exactly
/// when its `Authorization` header holds the fixed demo token.
pub fn token_based_handle(authorization: Option<&str>) -> (r: bool)
    ensures
        r == (header_token(authorization) == "demo-token"@),
{
    let tok: &str = match authorization {
        Some(a) => a,
        None => "",
    };
    proof {
        assert(tok@ == header_token(authorization));
    }
    str_eq(tok, "demo-token")
}

/// The credentials a login request carries.
pub struct LoginUser {
    pub username: String,
    pub password: String,
}


/// One `"key":"value"` entry scanned from position `i`, whitespace allowed
/// around the tokens; on success: the decoded key, the decoded value, and
/// the position just after the value's closing quote.
pub open spec fn scan_entry(t: Seq<char>, i: int) -> Option<(Seq<char>, Seq<char>, int)> {
    let a = ws_end(t, i);
    if a < t.len() && t[a] == '"' {
        match scan_jstr(t.subrange(a + 1, t.len() as int)) {
            Some(k) => {
                let b = ws_end(t, a + 1 + k.1);
                if b < t.len() && t[b] == ':' {
                    let c0 = ws_end(t, b + 1);
                    if c0 < t.len() && t[c0] == '"' {
                        match scan_jstr(t.subrange(c0 + 1, t.len() as int)) {
                            Some(v) => Some((k.0, v.0, c0 + 1 + v.1)),
                            None => None,
                        }
                    } else {
                        None
                    }
                } else {
                    None
                }
            },
            None => None,
        }
    } else {
        None
    }
}

/// The credentials a JSON login body carries: an object holding exactly the
/// string fields `username` and `password`, in either order, with JSON
/// whitespace allowed between tokens and the full JSON escape set inside
/// the strings. The decoded pair is (username, password).
pub open spec fn credentials_of(t: Seq<char>) -> Option<(Seq<char>, Seq<char>)> {
    let a = ws_end(t, 0);
    if a < t.len() && t[a] == '{' {
        match scan_entry(t, a + 1) {
            Some(e1) => {
                let b = ws_end(t, e1.2);
                if b < t.len() && t[b] == ',' {
                    match scan_entry(t, b + 1) {
                        Some(e2) => {
                            let c = ws_end(t, e2.2);
                            if c < t.len() && t[c] == '}' && ws_end(t, c + 1) == t.len() {
                                if e1.0 == "username"@ && e2.0 == "password"@ {
                                    Some((e1.1, e2.1))
                                } else if e1.0 == "password"@ && e2.0 == "username"@ {
                                    Some((e2.1, e1.1))
                                } else {
                                    None
                                }
                            } else {
                                None
                            }
                        },
                        None => None,
                    }
                } else {
                    None
                }
            },
            None => None,
        }
    } else {
        None
    }
}

/// Parses one entry as `scan_entry` describes.
fn parse_entry(s: &str, i: usize) -> (r: Option<(String, String, usize)>)
    requires
        i <= s@.len(),
    ensures
        match r {
            Some(p) => {
                &&& scan_entry(s@, i as int) == Some((p.0@, p.1@, p.2 as int))
                &&& i < p.2 <= s@.len()
            },
            None => scan_entry(s@, i as int) is None,
        },
{
    let len: usize = s.unicode_len();
    let a = skip_ws(s, i);
    if a >= len || s.get_char(a) != '"' {
        return None;
    }
    let (k, ka) = match crate::json::parse_jstr(s, a + 1) {
        Some(p) => p,
        None => {
            return None;
        },
    };
    let b = skip_ws(s, ka);
    if b >= len || s.get_char(b) != ':' {
        return None;
    }
    let c0 = skip_ws(s, b + 1);
    if c0 >= len || s.get_char(c0) != '"' {
        return None;
    }
    match crate::json::parse_jstr(s, c0 + 1) {
        Some((v, ve)) => Some((k, v, ve)),
        None => None,
    }
}

impl LoginUser {
    /// Parses credentials from a request body; succeeds on exactly the
    /// bodies that `credentials_of` describes, and returns the decoded
    /// username and password.
    pub fn from_json(s: &str) -> (r: Option<LoginUser>)
        ensures
            match r {
                Some(c) => credentials_of(s@) == Some((c.username@, c.password@)),
                None => credentials_of(s@) is None,
            },
    {
        let len: usize = s.unicode_len();
        let a = skip_ws(s, 0);
        if a >= len || s.get_char(a) != '{' {
            return None;
        }
        let (k1, v1, e1) = match parse_entry(s, a + 1) {
            Some(p) => p,
            None => {
                return None;
            },
        };
        let b = skip_ws(s, e1);
        if b >= len || s.get_char(b) != ',' {
            return None;
        }
        let (k2, v2, e2) = match parse_entry(s, b + 1) {
            Some(p) => p,
            None => {
                return None;
            },
        };
        let c = skip_ws(s, e2);
        if c >= len || s.get_char(c) != '}' {
            return None;
        }
        if skip_ws(s, c + 1) != len {
            return None;
        }
        if str_eq(k1.as_str(), "username") && str_eq(k2.as_str(), "password") {
            Some(LoginUser { username: v1, password: v2 })
        } else if str_eq(k1.as_str(), "password") && str_eq(k2.as_str(), "username") {
            Some(LoginUser { username: v2, password: v1 })
        } else {
            None
        }
    }
}

/// The one accepted pair of demo credentials.
pub open spec fn credentials_valid(u: Seq<char>, p: Seq<char>) -> bool {
    u == "wison"@ && p == "demo"@
}

/// The identity minted for a successful login.
pub open spec fn default_identity() -> UserView {
    UserView { name: "Wison Ye"@, role: "Administrator"@ }
}

/// A complete response: a status code and a body text.
pub struct Reply {
    pub status: u16,
    pub body: String,
}

/// The body of a successful login response, carrying the token.
pub open spec fn login_success_body(tok: Seq<char>) -> Seq<char> {
    "{\"success\":true,\"token\":"@ + jstr(tok) + "}"@
}

/// The body answered when the credentials are wrong.
pub open spec fn login_invalid_body() -> Seq<char> {
    "{\"success\":false,\"errorCode\":\"401\",\"errorMessage\":\"'username' or 'password' is invalid.\"}"@
}

/// The body answered when the request body is not a credentials object.
pub open spec fn login_malformed_body() -> Seq<char> {
    "{\"success\":false,\"errorCode\":\"401\",\"errorMessage\":\"'username' and 'password' is required.\"}"@
}

/// The body the middleware answers on an invalid token.
pub open spec fn reject_body() -> Seq<char> {
    "{\"errorCode\":\"401\",\"errorMessage\":\"Token is invalid.\"}"@
}

/// The body of the protected route, showing the attached identity.
pub open spec fn home_body(u: UserView) -> Seq<char> {
    "{\"success\":true,\"dashboard\":\"Here is the Dashboard\",\"currentUser\":"@ + user_json(u)
        + "}"@
}

/// The rejection reply the middleware answers on an invalid token.
pub fn unauthorized_reply() -> (r: Reply)
    ensures
        r.status == 401,
        r.body@ == reject_body(),
{
    Reply {
        status: 401,
        body: String::from_str(
            "{\"errorCode\":\"401\",\"errorMessage\":\"Token is invalid.\"}",
        ),
    }
}

/// The login handler: parses credentials from the body, checks them, and
/// answers either the minted token or a structured failure.
pub fn login_route(body: &str, secret: &[u8]) -> (r: Reply)
    ensures
        credentials_of(body@) matches Some(p) && credentials_valid(p.0, p.1) ==> r.status == 200
            && r.body@ == login_success_body(token_of(user_json(default_identity()), secret@)),
        credentials_of(body@) matches Some(p) && !credentials_valid(p.0, p.1) ==> r.status == 401
            && r.body@ == login_invalid_body(),
        credentials_of(body@) is None ==> r.status == 401 && r.body@ == login_malformed_body(),
{
    match LoginUser::from_json(body) {
        None => Reply {
            status: 401,
            body: String::from_str(
                "{\"success\":false,\"errorCode\":\"401\",\"errorMessage\":\"'username' and 'password' is required.\"}",
            ),
        },
        Some(c) => {
            if str_eq(c.username.as_str(), "wison") && str_eq(c.password.as_str(), "demo") {
                let user = User {
                    name: String::from_str("Wison Ye"),
                    role: String::from_str("Administrator"),
                };
                let tok = generate_token(user, secret);
                let mut out = String::from_str("{\"success\":true,\"token\":");
                crate::json::append_quoted(&mut out, tok.as_str());
                out.append("}");
                Reply { status: 200, body: out }
            } else {
                Reply {
                    status: 401,
                    body: String::from_str(
                        "{\"success\":false,\"errorCode\":\"401\",\"errorMessage\":\"'username' or 'password' is invalid.\"}",
                    ),
                }
            }
        },
    }
}

/// The protected route handler: renders the identity the middleware attached.
/// It never re-verifies the token; that is the middleware's sole job.
pub fn protected_route(user: &User) -> (r: Reply)
    ensures
        r.status == 200,
        r.body@ == home_body(user@),
{
    let mut out = String::from_str(
        "{\"success\":true,\"dashboard\":\"Here is the Dashboard\",\"currentUser\":",
    );
    let uj = user.to_json();
    out.append(uj.as_str());
    out.append("}");
    Reply { status: 200, body: out }
}

} // verus!
