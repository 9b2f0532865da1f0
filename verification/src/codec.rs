//! Credential codec: signs and verifies the compact claims a device replays
//! to open its control connection. Signing uses an HMAC-SHA-256 key derived
//! from the process-lifetime shared secret; verification fails closed — any
//! decoding error, signature mismatch or missing required claim yields the
//! single `InvalidSignature` error.

use vstd::prelude::*;
use hmac::Mac;
use jwt::{SignWithKey, VerifyWithKey};
use crate::device::{agent_from_label, agent_label, AccessInfo, Agent};
use crate::ident::{parse_uuid, parse_uuid_chars, uuid_chars, uuid_text};
use crate::strutil::str_eq;

verus! {

/// Authentication failure. Every verification failure is reported uniformly,
/// so a forged token learns nothing; a subject that already has a live
/// connection is refused separately.
#[derive(Clone, Copy, PartialEq, Eq, Structural, Debug)]
pub enum AuthError {
    InvalidSignature,
    SubjectActive,
}

/// The signed token that the underlying signer produces for these key bytes
/// and claim values.
pub uninterp spec fn token_of(
    secret: Seq<u8>,
    iss: Seq<char>,
    sub: Seq<char>,
    name: Seq<char>,
    agent: Seq<char>,
) -> Seq<char>;

/// The claims that verification recovers from a token under these key bytes:
/// nothing when the token is malformed or its signature does not match, the
/// embedded claim pairs (in their canonical sorted order) when it does.
pub uninterp spec fn token_claims(secret: Seq<u8>, token: Seq<char>) -> Option<
    Seq<(Seq<char>, Seq<char>)>,
>;

/// Claim pairs seen as character sequences.
pub open spec fn claims_view(s: Seq<(String, String)>) -> Seq<(Seq<char>, Seq<char>)> {
    s.map_values(|p: (String, String)| (p.0@, p.1@))
}

/// The claim pairs a credential carries for a device, in the sorted order
/// verification hands them back in.
pub open spec fn claim_pairs(
    iss: Seq<char>,
    sub: Seq<char>,
    name: Seq<char>,
    agent: Seq<char>,
) -> Seq<(Seq<char>, Seq<char>)> {
    seq![("agent"@, agent), ("iss"@, iss), ("name"@, name), ("sub"@, sub)]
}

/// Relies on `jwt::SignWithKey` over a `BTreeMap` claims object with an
/// `Hmac<Sha256>` key: the token it signs is a pure function of the key
/// bytes and the claim values, and verifying that token with the same key
/// recovers exactly the claims that went in. Signing always succeeds: HMAC
/// key construction accepts every key length, and serializing a map of
/// strings has no failure path.
#[verifier::external_body]
fn sign_token(secret: &[u8], iss: &str, sub: &str, name: &str, agent: &str) -> (r: Option<String>)
    ensures
        r is Some,
        r matches Some(t) ==> t@ == token_of(secret@, iss@, sub@, name@, agent@),
        r matches Some(t) ==> token_claims(secret@, t@) == Some(
            claim_pairs(iss@, sub@, name@, agent@),
        ),
{
    let key: hmac::Hmac<sha2::Sha256> = match hmac::Hmac::new_from_slice(secret) {
        Ok(k) => k,
        Err(_) => {
            return None;
        },
    };
    let mut claims = std::collections::BTreeMap::new();
    claims.insert("agent", agent);
    claims.insert("iss", iss);
    claims.insert("name", name);
    claims.insert("sub", sub);
    claims.sign_with_key(&key).ok()
}

/// Relies on `jwt::VerifyWithKey` over a `BTreeMap` claims object with an
/// `Hmac<Sha256>` key: it hands back the token's claim pairs exactly when
/// the token parses and its signature matches the key bytes, and fails
/// otherwise.
#[verifier::external_body]
fn verify_token(secret: &[u8], token: &str) -> (r: Option<Vec<(String, String)>>)
    ensures
        r matches Some(cl) ==> token_claims(secret@, token@) == Some(claims_view(cl@)),
        r is None ==> token_claims(secret@, token@) is None,
{
    let key: hmac::Hmac<sha2::Sha256> = match hmac::Hmac::new_from_slice(secret) {
        Ok(k) => k,
        Err(_) => {
            return None;
        },
    };
    let claims: std::collections::BTreeMap<String, String> = match token.verify_with_key(&key) {
        Ok(c) => c,
        Err(_) => {
            return None;
        },
    };
    Some(claims.into_iter().collect())
}

/// The claims a credential asserts, decoded.
pub struct ActiveDeviceClaims {
    /// Issuer label the token was minted under.
    pub iss: String,
    /// Subject: the device identifier.
    pub sub: u128,
    /// Display name of the device.
    pub name: String,
    /// Guessed agent kind of the device.
    pub agent: Agent,
}

/// First claim value stored under `k`.
pub open spec fn lookup_claim(cl: Seq<(Seq<char>, Seq<char>)>, k: Seq<char>) -> Option<Seq<char>>
    decreases cl.len(),
{
    if cl.len() == 0 {
        None
    } else if cl.first().0 == k {
        Some(cl.first().1)
    } else {
        lookup_claim(cl.drop_first(), k)
    }
}

/// Whether a set of claim pairs carries everything a control connection
/// must present: the four required claims, a subject that is a well-formed
/// device identifier, and a recognised agent label.
pub open spec fn claims_accepted(cl: Seq<(Seq<char>, Seq<char>)>) -> bool {
    &&& lookup_claim(cl, "iss"@) is Some
    &&& lookup_claim(cl, "name"@) is Some
    &&& lookup_claim(cl, "sub"@) matches Some(sub) && parse_uuid_chars(sub) is Some
    &&& lookup_claim(cl, "agent"@) matches Some(agent) && agent_from_label(agent) is Some
}

/// Subject of accepted claim pairs: the device identifier.
pub open spec fn subject_of(cl: Seq<(Seq<char>, Seq<char>)>) -> u128 {
    parse_uuid_chars(lookup_claim(cl, "sub"@)->Some_0)->Some_0
}

/// Display name carried by accepted claim pairs.
pub open spec fn name_of(cl: Seq<(Seq<char>, Seq<char>)>) -> Seq<char> {
    lookup_claim(cl, "name"@)->Some_0
}

/// Agent kind carried by accepted claim pairs.
pub open spec fn agent_of_claims(cl: Seq<(Seq<char>, Seq<char>)>) -> Agent {
    agent_from_label(lookup_claim(cl, "agent"@)->Some_0)->Some_0
}

/// First claim stored under `k`, as executable search.
fn find_claim(cl: &Vec<(String, String)>, k: &str) -> (r: Option<String>)
    ensures
        r matches Some(v) ==> lookup_claim(claims_view(cl@), k@) == Some(v@),
        r is None ==> lookup_claim(claims_view(cl@), k@) is None,
{
    let ghost full = claims_view(cl@);
    let mut i: usize = 0;
    proof {
        assert(full.subrange(0, full.len() as int) =~= full);
    }
    while i < cl.len()
        invariant
            i <= cl@.len(),
            full == claims_view(cl@),
            lookup_claim(full, k@) == lookup_claim(full.subrange(i as int, full.len() as int), k@),
        decreases cl@.len() - i,
    {
        let ghost tail = full.subrange(i as int, full.len() as int);
        if str_eq(cl[i].0.as_str(), k) {
            proof {
                assert(tail.first() == full[i as int]);
            }
            return Some(cl[i].1.clone());
        }
        proof {
            assert(tail.first() == full[i as int]);
            assert(tail.drop_first() =~= full.subrange(i + 1, full.len() as int));
        }
        i += 1;
    }
    proof {
        assert(full.subrange(full.len() as int, full.len() as int) =~= Seq::<(
            Seq<char>,
            Seq<char>,
        )>::empty());
    }
    None
}

/// Issue a signed credential for an approved device. Issuance always
/// succeeds: the token's subject is the device identifier in its canonical
/// text, alongside the device's name and agent label, under this service's
/// constant issuer label.
pub fn issue_credential(secret: &[u8], info: &AccessInfo) -> (r: String)
    ensures
        r@ == token_of(
            secret@,
            "macropinna"@,
            uuid_chars(info.uuid),
            info.name@,
            agent_label(info.agent),
        ),
        token_claims(secret@, r@) == Some(
            claim_pairs(
                "macropinna"@,
                uuid_chars(info.uuid),
                info.name@,
                agent_label(info.agent),
            ),
        ),
{
    let sub = uuid_text(info.uuid);
    sign_token(secret, "macropinna", sub.as_str(), info.name.as_str(), info.agent.label()).unwrap()
}

/// Verify a presented credential and decode its claims. Fails closed: a
/// malformed token, a signature that does not match the secret, a missing
/// required claim, an ill-formed subject and an unknown agent label are all
/// the same `InvalidSignature`.
pub fn authenticate(secret: &[u8], token: &str) -> (r: Result<ActiveDeviceClaims, AuthError>)
    ensures
        r is Ok <==> (token_claims(secret@, token@) matches Some(cl) && claims_accepted(cl)),
        r matches Ok(c) ==> {
            let cl = token_claims(secret@, token@)->Some_0;
            &&& c.sub == subject_of(cl)
            &&& c.name@ == name_of(cl)
            &&& c.agent == agent_of_claims(cl)
            &&& Some(c.iss@) == lookup_claim(cl, "iss"@)
        },
        r matches Err(e) ==> e == AuthError::InvalidSignature,
{
    let cl = match verify_token(secret, token) {
        Some(cl) => cl,
        None => {
            return Err(AuthError::InvalidSignature);
        },
    };
    let iss = match find_claim(&cl, "iss") {
        Some(v) => v,
        None => {
            return Err(AuthError::InvalidSignature);
        },
    };
    let name = match find_claim(&cl, "name") {
        Some(v) => v,
        None => {
            return Err(AuthError::InvalidSignature);
        },
    };
    let sub_text = match find_claim(&cl, "sub") {
        Some(v) => v,
        None => {
            return Err(AuthError::InvalidSignature);
        },
    };
    let agent_text = match find_claim(&cl, "agent") {
        Some(v) => v,
        None => {
            return Err(AuthError::InvalidSignature);
        },
    };
    let sub = match parse_uuid(sub_text.as_str()) {
        Some(u) => u,
        None => {
            return Err(AuthError::InvalidSignature);
        },
    };
    let agent = match Agent::from_label(agent_text.as_str()) {
        Some(a) => a,
        None => {
            return Err(AuthError::InvalidSignature);
        },
    };
    Ok(ActiveDeviceClaims { iss, sub, name, agent })
}

/// A credential minted for a device identity always authenticates, and
/// decodes back to that identity: its claim pairs are accepted, their
/// subject parses to the device's identifier, and name and agent read back
/// unchanged. Together with the contracts of `issue_credential` and
/// `authenticate`, an approval always yields a credential whose
/// verification succeeds with the approved device as subject.
pub proof fn lemma_issued_claims_accepted(info: AccessInfo)
    ensures
        claims_accepted(
            claim_pairs(
                "macropinna"@,
                uuid_chars(info.uuid),
                info.name@,
                agent_label(info.agent),
            ),
        ),
        subject_of(
            claim_pairs(
                "macropinna"@,
                uuid_chars(info.uuid),
                info.name@,
                agent_label(info.agent),
            ),
        ) == info.uuid,
        name_of(
            claim_pairs(
                "macropinna"@,
                uuid_chars(info.uuid),
                info.name@,
                agent_label(info.agent),
            ),
        ) == info.name@,
        agent_of_claims(
            claim_pairs(
                "macropinna"@,
                uuid_chars(info.uuid),
                info.name@,
                agent_label(info.agent),
            ),
        ) == info.agent,
{
    let cl = claim_pairs(
        "macropinna"@,
        uuid_chars(info.uuid),
        info.name@,
        agent_label(info.agent),
    );
    reveal_strlit("agent");
    reveal_strlit("iss");
    reveal_strlit("name");
    reveal_strlit("sub");
    assert("agent"@.len() == 5 && "iss"@.len() == 3 && "name"@.len() == 4 && "sub"@.len() == 3);
    assert("iss"@[0] == 'i' && "sub"@[0] == 's');
    reveal_with_fuel(lookup_claim, 6);
    let c1 = ("iss"@, "macropinna"@);
    let c2 = ("name"@, info.name@);
    let c3 = ("sub"@, uuid_chars(info.uuid));
    assert(cl.drop_first() =~= seq![c1, c2, c3]);
    assert(seq![c1, c2, c3].drop_first() =~= seq![c2, c3]);
    assert(seq![c2, c3].drop_first() =~= seq![c3]);
    assert(lookup_claim(cl, "iss"@) == Some("macropinna"@));
    assert(lookup_claim(cl, "name"@) == Some(info.name@));
    assert(lookup_claim(cl, "sub"@) == Some(uuid_chars(info.uuid)));
    assert(lookup_claim(cl, "agent"@) == Some(agent_label(info.agent)));
    crate::ident::lemma_uuid_text_roundtrip(info.uuid);
    crate::device::lemma_agent_label_roundtrip(info.agent);
}

} // verus!
