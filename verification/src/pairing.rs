//! Pairing protocol decisions: registration, the outcome of the
//! approval-wait, and the upgrade of a presented credential to an active
//! control connection.
//!
//! The surrounding application owns the transport: it parses requests,
//! suspends the approval-wait on the pending entry's resolution channel, and
//! performs the WebSocket upgrade. Every decision those handlers take is a
//! call into this module.

use vstd::prelude::*;
use crate::codec::{
    agent_of_claims, authenticate, claim_pairs, claims_accepted, issue_credential, name_of,
    subject_of, token_claims, token_of, AuthError,
};
use crate::device::{agent_label, agent_of, AccessInfo, ActiveInfo, Agent};
use crate::ident::{code_chars, format_pairing_code, uuid_chars};
use crate::registry::{AccessApproval, Registry, RemoteServerEvent};
use crate::assoc::lookup;

verus! {

/// Relies on `uuid::Uuid::new_v4`: a fresh random identifier. Nothing can be
/// promised of a random value.
#[verifier::external_body]
pub fn fresh_uuid_bits() -> u128 {
    uuid::Uuid::new_v4().as_u128()
}

/// Reply to a registration: the identifier the device will be addressed by
/// and the short code the human operator compares on screen.
pub struct RegisterResponse {
    pub uuid: u128,
    pub code: String,
}

/// Register a device: derive its pairing code from the random `code_bits`,
/// record the identity as initiated, and reply with identifier and code.
pub fn handle_register(
    reg: &mut Registry,
    device_name: String,
    user_agent: &str,
    uuid_bits: u128,
    code_bits: u128,
) -> (r: RegisterResponse)
    requires
        old(reg).wf(),
    ensures
        final(reg).wf(),
        r.uuid == uuid_bits,
        r.code@ == code_chars(code_bits),
        lookup(final(reg).init@, uuid_bits) matches Some(info) && info.uuid == uuid_bits
            && info.name == device_name && info.agent == agent_of(user_agent@) && info.code
            == r.code,
        forall|k: u128| k != uuid_bits ==> lookup(final(reg).init@, k) == lookup(
            old(reg).init@,
            k,
        ),
        forall|k: u128| k != uuid_bits ==> lookup(final(reg).pending@, k) == lookup(
            old(reg).pending@,
            k,
        ),
        forall|k: u128| k != uuid_bits ==> lookup(final(reg).active@, k) == lookup(
            old(reg).active@,
            k,
        ),
        final(reg).events@ == old(reg).events@,
{
    let code = format_pairing_code(code_bits);
    let agent = Agent::from_user_agent(user_agent);
    reg.add_init(uuid_bits, device_name, agent, code.clone());
    RegisterResponse { uuid: uuid_bits, code }
}

/// What the approval-wait observed: the operator's decision, the wait
/// running out, or the resolution channel closing without a decision.
pub enum ApprovalOutcome {
    Decided(AccessApproval),
    TimedOut,
    ChannelClosed,
}

/// Reply of the approval-wait endpoint.
pub enum ApprovalReply {
    /// A signed credential: the decision was approval.
    Granted(String),
    /// The null credential: the decision was rejection, or nobody decided
    /// within the window (default-deny).
    Denied,
    /// Internal failure: the resolution channel broke without a decision.
    Failed,
}

/// Turn the outcome of one approval-wait into the endpoint's reply.
/// Rejection and timeout both deny; an approval always mints a credential,
/// and the credential carries the approved identity as subject.
pub fn approval_response(secret: &[u8], outcome: ApprovalOutcome) -> (r: ApprovalReply)
    ensures
        outcome matches ApprovalOutcome::Decided(AccessApproval::Reject) ==> r
            == ApprovalReply::Denied,
        outcome == ApprovalOutcome::TimedOut ==> r == ApprovalReply::Denied,
        outcome == ApprovalOutcome::ChannelClosed ==> r == ApprovalReply::Failed,
        outcome matches ApprovalOutcome::Decided(AccessApproval::Approve(info)) ==> (r matches
            ApprovalReply::Granted(t) && t@ == token_of(
            secret@,
            "macropinna"@,
            uuid_chars(info.uuid),
            info.name@,
            agent_label(info.agent),
        ) && token_claims(secret@, t@) == Some(
            claim_pairs(
                "macropinna"@,
                uuid_chars(info.uuid),
                info.name@,
                agent_label(info.agent),
            ),
        )),
        r matches ApprovalReply::Granted(t) ==> outcome matches ApprovalOutcome::Decided(
            AccessApproval::Approve(info),
        ),
{
    match outcome {
        ApprovalOutcome::Decided(AccessApproval::Approve(info)) => ApprovalReply::Granted(
            issue_credential(secret, &info),
        ),
        ApprovalOutcome::Decided(AccessApproval::Reject) => ApprovalReply::Denied,
        ApprovalOutcome::TimedOut => ApprovalReply::Denied,
        ApprovalOutcome::ChannelClosed => ApprovalReply::Failed,
    }
}

/// Authenticate a presented credential and, when its signature and claims
/// pass and its subject holds no place in the registry yet, record the
/// connection as active. A failed verification and an already-occupied
/// subject are both refused, each under its own error, with the registry
/// untouched.
pub fn open_connection(reg: &mut Registry, secret: &[u8], token: &str) -> (r: Result<
    ActiveInfo,
    AuthError,
>)
    requires
        old(reg).wf(),
    ensures
        final(reg).wf(),
        !(token_claims(secret@, token@) matches Some(cl) && claims_accepted(cl)) ==> r
            == Err::<ActiveInfo, AuthError>(AuthError::InvalidSignature) && *final(reg) == *old(
            reg,
        ),
        (token_claims(secret@, token@) matches Some(cl) && claims_accepted(cl)) ==> {
            let cl = token_claims(secret@, token@)->Some_0;
            &&& r is Ok <==> !old(reg).in_some_stage(subject_of(cl))
            &&& old(reg).in_some_stage(subject_of(cl)) ==> r == Err::<ActiveInfo, AuthError>(
                AuthError::SubjectActive,
            ) && *final(reg) == *old(reg)
            &&& r matches Ok(ai) ==> {
                &&& ai.uuid == subject_of(cl)
                &&& ai.name@ == name_of(cl)
                &&& ai.agent == agent_of_claims(cl)
                &&& lookup(final(reg).active@, ai.uuid) == Some(ai)
                &&& final(reg).init@ == old(reg).init@
                &&& final(reg).pending@ == old(reg).pending@
                &&& final(reg).events@ == old(reg).events@.push(
                    (RemoteServerEvent::Connected { uuid: ai.uuid, name: ai.name }),
                )
            }
        },
{
    let claims = match authenticate(secret, token) {
        Ok(c) => c,
        Err(e) => {
            return Err(e);
        },
    };
    let info = ActiveInfo { uuid: claims.sub, name: claims.name, agent: claims.agent };
    let reply = info.clone();
    if reg.add_active(info) {
        Ok(reply)
    } else {
        Err(AuthError::SubjectActive)
    }
}

/// Whether the certificate bootstrap must generate a fresh self-signed
/// pair: only when either half is missing on disk; existing files are
/// reused untouched.
pub fn cert_generation_needed(cert_exists: bool, key_exists: bool) -> (r: bool)
    ensures
        r == !(cert_exists && key_exists),
{
    !(cert_exists && key_exists)
}

} // verus!
