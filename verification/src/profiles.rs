//! The richer user profile served by the plain demo routes: a name, a role
//! drawn from a fixed set, and optional settings, together with its rendered
//! JSON form and the add-user response body.

use crate::json::jstr;
use vstd::prelude::*;

verus! {

/// The role a profile can carry.
pub enum UserRole {
    Administrator,
    Operator,
    NormalUser,
}

/// Per-user settings.
pub struct UserSettings {
    pub prefer_language: String,
    pub reload_when_changed: bool,
}

/// A full user profile.
pub struct UserProfile {
    pub name: String,
    pub role: UserRole,
    pub settings: Option<UserSettings>,
}

/// The text a role is rendered as.
pub open spec fn role_text(r: UserRole) -> Seq<char> {
    match r {
        UserRole::Administrator => "Administrator"@,
        UserRole::Operator => "Operator"@,
        UserRole::NormalUser => "NormalUser"@,
    }
}

/// The text a boolean is rendered as.
pub open spec fn bool_text(b: bool) -> Seq<char> {
    if b {
        "true"@
    } else {
        "false"@
    }
}

/// The rendered settings object.
pub open spec fn settings_json(s: UserSettings) -> Seq<char> {
    "{\"prefer_language\":"@ + jstr(s.prefer_language@) + ",\"reload_when_changed\":"@
        + bool_text(s.reload_when_changed) + "}"@
}

/// The rendered profile object; absent settings render as `null`.
pub open spec fn profile_json(p: UserProfile) -> Seq<char> {
    "{\"name\":"@ + jstr(p.name@) + ",\"role\":\""@ + role_text(p.role) + "\",\"settings\":"@
        + (match p.settings {
        Some(s) => settings_json(s),
        None => "null"@,
    }) + "}"@
}

/// Renders a profile.
pub fn profile_to_json(p: &UserProfile) -> (r: String)
    ensures
        r@ == profile_json(*p),
{
    let mut out = String::from_str("{\"name\":");
    crate::json::append_quoted(&mut out, p.name.as_str());
    out.append(",\"role\":\"");
    match &p.role {
        UserRole::Administrator => out.append("Administrator"),
        UserRole::Operator => out.append("Operator"),
        UserRole::NormalUser => out.append("NormalUser"),
    }
    out.append("\",\"settings\":");
    match &p.settings {
        Some(s) => {
            out.append("{\"prefer_language\":");
            crate::json::append_quoted(&mut out, s.prefer_language.as_str());
            out.append(",\"reload_when_changed\":");
            if s.reload_when_changed {
                out.append("true");
            } else {
                out.append("false");
            }
            out.append("}");
        },
        None => out.append("null"),
    }
    out.append("}");
    out
}

/// The default profile handed out by the demo route.
pub fn get_default_user() -> (r: UserProfile)
    ensures
        r.name@ == "Wison Ye"@,
        r.role is Administrator,
        r.settings matches Some(s) ==> s.prefer_language@ == "English"@
            && s.reload_when_changed,
        r.settings is Some,
{
    UserProfile {
        name: String::from_str("Wison Ye"),
        role: UserRole::Administrator,
        settings: Some(
            UserSettings { prefer_language: String::from_str("English"), reload_when_changed: true },
        ),
    }
}

/// The view of an optional failure text.
pub open spec fn opt_text(o: Option<&str>) -> Option<Seq<char>> {
    match o {
        Some(f) => Some(f@),
        None => None,
    }
}

/// The add-user response body: the profile that was stored, or the reason
/// parsing failed. The success flag always reads true; a failure shows only
/// through the reason field.
pub open spec fn add_user_body(added: Option<UserProfile>, fail: Option<Seq<char>>) -> Seq<char> {
    "{\"success\":true,\"added_user\":"@ + (match added {
        Some(p) => profile_json(p),
        None => "null"@,
    }) + ",\"fail_reason\":"@ + (match fail {
        Some(f) => jstr(f),
        None => "null"@,
    }) + "}"@
}

/// Builds the add-user response body.
pub fn add_user_response(added: Option<&UserProfile>, fail_reason: Option<&str>) -> (r: String)
    ensures
        r@ == add_user_body(
            match added {
                Some(p) => Some(*p),
                None => None,
            },
            opt_text(fail_reason),
        ),
{
    let mut out = String::from_str("{\"success\":true,\"added_user\":");
    match added {
        Some(p) => {
            let pj = profile_to_json(p);
            out.append(pj.as_str());
        },
        None => out.append("null"),
    }
    out.append(",\"fail_reason\":");
    match fail_reason {
        Some(f) => crate::json::append_quoted(&mut out, f),
        None => out.append("null"),
    }
    out.append("}");
    out
}

} // verus!
