//! The library-wide laws: the sign/verify round trip, detection of a
//! tampered signature, and determinism of the middleware decision.

use crate::auth::{decides, grants, is_exempt, Decision};
use crate::hexenc::{hex_of, lemma_hex_of_chars};
use crate::json::{esc, lemma_obj1_injective, lemma_obj2_injective};
use crate::mac::mac_of;
use crate::token::{
    claims_json, lemma_token_of_injective, token_of, user_json, UserView,
};
use vstd::prelude::*;

verus! {

/// Serialization of an identity is injective: equal texts mean equal
/// identities.
pub proof fn lemma_user_json_injective(u1: UserView, u2: UserView)
    requires
        user_json(u1) == user_json(u2),
    ensures
        u1 == u2,
{
    lemma_obj2_injective("name"@, "role"@, u1.name, u1.role, u2.name, u2.role);
}

/// Round-trip law: whatever claim string a successful verification recovers
/// from the token minted for an identity is exactly that identity's
/// serialization — so parsing it yields an equal identity.
pub proof fn lemma_sign_verify_round_trip(u: UserView, uj: Seq<char>, key: Seq<u8>)
    requires
        token_of(user_json(u), key) == token_of(uj, key),
    ensures
        uj == user_json(u),
{
    lemma_token_of_injective(user_json(u), uj, key);
}

/// Tamper law: changing any single character in the signature portion of a
/// token (everything after the separating dot) yields a text that no claim
/// string can verify — verification must fail on it.
pub proof fn lemma_signature_tamper_detected(uj: Seq<char>, key: Seq<u8>, i: int, c: char)
    requires
        claims_json(uj).len() < i < token_of(uj, key).len(),
        c != token_of(uj, key)[i],
    ensures
        forall|uj2: Seq<char>| token_of(uj, key).update(i, c) != token_of(uj2, key),
{
    let t = token_of(uj, key);
    let cc = claims_json(uj);
    let hh = hex_of(mac_of(key, cc));
    let t2 = t.update(i, c);
    lemma_hex_of_chars(mac_of(key, cc));
    assert forall|uj2: Seq<char>| t2 != token_of(uj2, key) by {
        if t2 == token_of(uj2, key) {
            let c2 = claims_json(uj2);
            let h2 = hex_of(mac_of(key, c2));
            lemma_hex_of_chars(mac_of(key, c2));
            assert(t2.len() == t.len());
            assert(t2.len() == c2.len() + 1 + h2.len());
            assert(t.len() == cc.len() + 1 + hh.len());
            assert forall|j: int| cc.len() < j < t.len() implies t[j] == hh[j - cc.len()
                - 1] by {
                assert(t[j] == (cc + seq!['.'] + hh)[j]);
            }
            assert forall|j: int| c2.len() < j < t2.len() implies t2[j] == h2[j - c2.len()
                - 1] by {
                assert(t2[j] == (c2 + seq!['.'] + h2)[j]);
            }
            assert(t2[cc.len() as int] == t[cc.len() as int]);
            assert(t[cc.len() as int] == (cc + seq!['.'] + hh)[cc.len() as int]);
            assert(t[cc.len() as int] == '.');
            assert forall|j: int| c2.len() < j < t2.len() implies t2[j] != '.' by {
                assert(t2[j] == h2[j - c2.len() - 1]);
            }
            assert(cc.len() <= c2.len());
            if c2.len() > cc.len() {
                assert(t2[c2.len() as int] == (c2 + seq!['.'] + h2)[c2.len() as int]);
                assert(t2[c2.len() as int] == '.');
                if c2.len() != i {
                    assert(t2[c2.len() as int] == t[c2.len() as int]);
                    assert(t[c2.len() as int] == hh[c2.len() - cc.len() - 1]);
                    assert(false);
                } else {
                    let pp = seq!['{', '"'] + "user"@ + seq!['"', ':', '"'];
                    assert(c2 =~= pp + esc(uj2) + seq!['"', '}']);
                    assert(c2[c2.len() - 1] == '}');
                    assert(t2[i - 1] == c2[c2.len() - 1]);
                    if i - 1 == cc.len() {
                        assert(t2[i - 1] == '.');
                        assert(false);
                    } else {
                        assert(t2[i - 1] == t[i - 1]);
                        assert(t[i - 1] == hh[i - 1 - cc.len() - 1]);
                        assert(false);
                    }
                }
            }
            assert(c2.len() == cc.len());
            assert(c2 =~= cc) by {
                assert(forall|j: int|
                    0 <= j < cc.len() ==> #[trigger] c2[j] == t2[j] && t2[j] == t[j] && t[j]
                        == cc[j]);
            }
            lemma_obj1_injective("user"@, uj2, uj);
            assert(t2[i] == h2[i - c2.len() - 1]);
            assert(t[i] == hh[i - cc.len() - 1]);
            assert(t2[i] == c);
            assert(false);
        }
    }
}

/// Determinism law: one and the same request — same path, same token, same
/// secret — always receives the same decision; in particular a valid token
/// can be replayed any number of times with the same successful outcome.
pub proof fn lemma_same_request_same_outcome(
    path: Seq<char>,
    tok: Seq<char>,
    key: Seq<u8>,
    r1: Decision,
    r2: Decision,
)
    requires
        decides(path, tok, key, r1),
        decides(path, tok, key, r2),
    ensures
        r1 is Bypass <==> r2 is Bypass,
        r1 is Forward <==> r2 is Forward,
        r1 is Reject <==> r2 is Reject,
        r1 is Forward && r2 is Forward ==> r1->Forward_0@ == r2->Forward_0@,
{
    if !is_exempt(path) {
        if r1 is Forward {
            assert(grants(tok, key, r1->Forward_0@));
            assert(r2 is Forward);
        }
        if r2 is Forward {
            assert(grants(tok, key, r2->Forward_0@));
            assert(r1 is Forward);
        }
        if r1 is Forward && r2 is Forward {
            let u1 = r1->Forward_0;
            let u2 = r2->Forward_0;
            lemma_token_of_injective(user_json(u1@), user_json(u2@), key);
            lemma_user_json_injective(u1@, u2@);
        }
    }
}

/// Exemption law: on the exempt login route the decision is independent of
/// the `Authorization` header — whatever token either request carries, both
/// pass through untouched.
pub proof fn lemma_exempt_route_ignores_header(
    path: Seq<char>,
    tok1: Seq<char>,
    tok2: Seq<char>,
    key: Seq<u8>,
    r1: Decision,
    r2: Decision,
)
    requires
        is_exempt(path),
        decides(path, tok1, key, r1),
        decides(path, tok2, key, r2),
    ensures
        r1 is Bypass,
        r2 is Bypass,
{
}

} // verus!
