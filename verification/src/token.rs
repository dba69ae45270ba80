//! The token codec: an identity is serialized into a claims object, the
//! claims text is signed with the shared secret, and the token carries the
//! claims followed by a dot and the hexadecimal signature. Verification
//! splits the token at its last dot, recomputes the signature over the claims
//! part, compares, and hands back the `user` claim.
//!
//! The wire form is this library's own: claims text, a dot, and a hex-encoded
//! HMAC-SHA-256 tag. It is not a three-segment base64 JWT, so outside JWT
//! tooling cannot read these tokens; the claims content and the signature
//! binding are the same.

use crate::hexenc::{hex_encode, hex_of, lemma_hex_of_chars};
use crate::json::{
    build_obj1, build_obj2, obj1, obj2, parse_obj1, parse_obj2, push_char,
    str_eq,
};
use crate::mac::{hmac_sha256, mac_of};
use vstd::prelude::*;

verus! {

/// The authenticated principal: a name and a role.
pub struct User {
    pub name: String,
    pub role: String,
}

/// The mathematical shape of a `User`.
pub struct UserView {
    pub name: Seq<char>,
    pub role: Seq<char>,
}

impl View for User {
    type V = UserView;

    open spec fn view(&self) -> UserView {
        UserView { name: self.name@, role: self.role@ }
    }
}

/// The canonical serialized form of an identity.
pub open spec fn user_json(u: UserView) -> Seq<char> {
    obj2("name"@, u.name, "role"@, u.role)
}

/// The claims object that carries a serialized identity under the `user` key.
pub open spec fn claims_json(uj: Seq<char>) -> Seq<char> {
    obj1("user"@, uj)
}

/// The token text minted for the claim string `uj` under `key`: the claims
/// object, a dot, and the hexadecimal signature of the claims object.
pub open spec fn token_of(uj: Seq<char>, key: Seq<u8>) -> Seq<char> {
    claims_json(uj) + seq!['.'] + hex_of(mac_of(key, claims_json(uj)))
}

impl User {
    /// Serializes the identity into its canonical text.
    pub fn to_json(&self) -> (r: String)
        ensures
            r@ == user_json(self@),
    {
        build_obj2("name", self.name.as_str(), "role", self.role.as_str())
    }

    /// Parses an identity from its canonical text; succeeds on exactly the
    /// texts that `user_json` produces.
    pub fn from_json(s: &str) -> (r: Option<User>)
        ensures
            r matches Some(u) ==> s@ == user_json(u@),
            r is None ==> forall|u: UserView| s@ != user_json(u),
    {
        match parse_obj2(s, "name", "role") {
            Some((a, b)) => Some(User { name: a, role: b }),
            None => {
                proof {
                    assert forall|u: UserView| s@ != user_json(u) by {
                        if s@ == user_json(u) {
                            assert(s@ == obj2("name"@, u.name, "role"@, u.role));
                        }
                    }
                }
                None
            },
        }
    }
}

/// Mints the signed token for an identity under the shared secret.
pub fn generate_token(user: User, secret: &[u8]) -> (r: String)
    ensures
        r@ == token_of(user_json(user@), secret@),
{
    let uj = user.to_json();
    let claims = build_obj1("user", uj.as_str());
    let tag = hmac_sha256(secret, claims.as_str());
    let sig = hex_encode(tag.as_slice());
    let mut out = claims;
    push_char(&mut out, '.');
    out.append(sig.as_str());
    proof {
        assert(out@ =~= token_of(user_json(user@), secret@));
    }
    out
}

/// In a token text, the separating dot is the last dot: everything after it
/// is hexadecimal. So a last-dot split recovers the claims and the signature.
pub proof fn lemma_split_at_last_dot(t: Seq<char>, uj: Seq<char>, key: Seq<u8>, d: int)
    requires
        t == token_of(uj, key),
        0 <= d < t.len(),
        t[d] == '.',
        forall|k: int| d < k < t.len() ==> t[k] != '.',
    ensures
        d == claims_json(uj).len(),
        t.subrange(0, d) == claims_json(uj),
        t.subrange(d + 1, t.len() as int) == hex_of(mac_of(key, claims_json(uj))),
{
    let cc = claims_json(uj);
    let hh = hex_of(mac_of(key, cc));
    lemma_hex_of_chars(mac_of(key, cc));
    assert(t[cc.len() as int] == '.');
    assert forall|j: int| cc.len() < j < t.len() implies t[j] != '.' by {
        assert(t[j] == hh[j - cc.len() - 1]);
    }
    if d < cc.len() {
        assert(t[cc.len() as int] != '.');
        assert(false);
    }
    if d > cc.len() {
        assert(t[d] != '.');
        assert(false);
    }
    assert(t.subrange(0, d) =~= cc);
    assert(t.subrange(d + 1, t.len() as int) =~= hh);
}

/// Two tokens with equal text under one key carry the same claim string.
pub proof fn lemma_token_of_injective(uj1: Seq<char>, uj2: Seq<char>, key: Seq<u8>)
    requires
        token_of(uj1, key) == token_of(uj2, key),
    ensures
        uj1 == uj2,
{
    let t = token_of(uj1, key);
    let c1 = claims_json(uj1);
    lemma_hex_of_chars(mac_of(key, c1));
    assert(t[c1.len() as int] == '.');
    assert forall|k: int| c1.len() < k < t.len() implies t[k] != '.' by {
        assert(t[k] == hex_of(mac_of(key, c1))[k - c1.len() - 1]);
    }
    lemma_split_at_last_dot(t, uj2, key, c1.len() as int);
    assert(t.subrange(0, c1.len() as int) =~= c1);
    crate::json::lemma_obj1_injective("user"@, uj1, uj2);
}

/// Checks a token under the shared secret: succeeds on exactly the texts
/// that `token_of` mints, and then returns the embedded `user` claim.
pub fn verfiy_token(token: &str, secret: &[u8]) -> (r: Option<String>)
    ensures
        r matches Some(uj) ==> token@ == token_of(uj@, secret@),
        r is None ==> forall|uj: Seq<char>| token@ != token_of(uj, secret@),
{
    let len: usize = token.unicode_len();
    let mut d_opt: Option<usize> = None;
    let mut j: usize = 0;
    while j < len
        invariant
            j <= len,
            len == token@.len(),
            match d_opt {
                Some(d) => {
                    &&& d < j
                    &&& token@[d as int] == '.'
                    &&& forall|k: int| d < k < j ==> token@[k] != '.'
                },
                None => forall|k: int| 0 <= k < j ==> token@[k] != '.',
            },
        decreases len - j,
    {
        if token.get_char(j) == '.' {
            d_opt = Some(j);
        }
        j = j + 1;
    }
    let d = match d_opt {
        None => {
            proof {
                assert forall|uj: Seq<char>| token@ != token_of(uj, secret@) by {
                    if token@ == token_of(uj, secret@) {
                        let cc = claims_json(uj);
                        assert(token@[cc.len() as int] == '.');
                    }
                }
            }
            return None;
        },
        Some(d) => d,
    };
    let claims_part = token.substring_char(0, d);
    let sig_part = token.substring_char(d + 1, len);
    let tag = hmac_sha256(secret, claims_part);
    let sig2 = hex_encode(tag.as_slice());
    if !str_eq(sig_part, sig2.as_str()) {
        proof {
            assert forall|uj: Seq<char>| token@ != token_of(uj, secret@) by {
                if token@ == token_of(uj, secret@) {
                    lemma_split_at_last_dot(token@, uj, secret@, d as int);
                }
            }
        }
        return None;
    }
    match parse_obj1(claims_part, "user") {
        Some(uj) => {
            proof {
                assert(token@ =~= claims_part@ + seq!['.'] + sig_part@);
                assert(claims_part@ == claims_json(uj@));
                assert(token@ == token_of(uj@, secret@));
            }
            Some(uj)
        },
        None => {
            proof {
                assert forall|uj: Seq<char>| token@ != token_of(uj, secret@) by {
                    if token@ == token_of(uj, secret@) {
                        lemma_split_at_last_dot(token@, uj, secret@, d as int);
                        assert(claims_part@ == obj1("user"@, uj));
                    }
                }
            }
            None
        },
    }
}

} // verus!
