//! End-to-end pairing scenarios: registration, approval, credential
//! issuance and the control-connection upgrade, run against the real
//! signing crates.

use macropinna_remote::codec::{authenticate, AuthError};
use macropinna_remote::device::Agent;
use macropinna_remote::pairing::{
    approval_response, cert_generation_needed, fresh_uuid_bits, handle_register, open_connection,
    ApprovalOutcome, ApprovalReply, RegisterResponse,
};
use macropinna_remote::registry::{AccessApproval, Registry, RemoteServerEvent};

const SECRET: &[u8] = b"secret";

fn register_phone(reg: &mut Registry, uuid_bits: u128, code_bits: u128) -> RegisterResponse {
    handle_register(
        reg,
        "Phone".to_string(),
        "Mozilla/5.0 (Linux; Android 13) Mobile",
        uuid_bits,
        code_bits,
    )
}

#[test]
fn register_yields_eight_digit_code() {
    let mut reg = Registry::new();
    let resp = register_phone(&mut reg, 7, 1234567890123456789);
    assert_eq!(resp.uuid, 7);
    assert_eq!(resp.code.len(), 8);
    assert!(resp.code.chars().all(|c| c.is_ascii_digit()));
    // low eight digits of the random bits
    assert_eq!(resp.code, "23456789");
}

#[test]
fn pairing_code_is_zero_padded() {
    let mut reg = Registry::new();
    let resp = register_phone(&mut reg, 7, 300000042);
    assert_eq!(resp.code, "00000042");
}

#[test]
fn approve_yields_credential_that_authenticates() {
    let mut reg = Registry::new();
    let resp = register_phone(&mut reg, 7, 99);
    let ticket = reg.upgrade_init(resp.uuid, 10).expect("registered uuid must promote");
    assert_eq!(ticket, 0);

    let (tk, decision) = reg.update_pending(resp.uuid, true).expect("pending uuid resolves");
    assert_eq!(tk, ticket);
    let outcome = ApprovalOutcome::Decided(decision);
    let jwt = match approval_response(SECRET, outcome) {
        ApprovalReply::Granted(jwt) => jwt,
        _ => panic!("approval must grant a credential"),
    };

    let claims = authenticate(SECRET, &jwt).expect("issued credential must verify");
    assert_eq!(claims.sub, resp.uuid);
    assert_eq!(claims.name, "Phone");
    assert_eq!(claims.iss, "macropinna");
    assert!(matches!(claims.agent, Agent::Android));
}

#[test]
fn reject_and_timeout_yield_null_credential() {
    let mut reg = Registry::new();
    let resp = register_phone(&mut reg, 7, 99);
    reg.upgrade_init(resp.uuid, 10).unwrap();
    let (_, decision) = reg.update_pending(resp.uuid, false).unwrap();
    assert!(matches!(decision, AccessApproval::Reject));
    assert!(matches!(
        approval_response(SECRET, ApprovalOutcome::Decided(decision)),
        ApprovalReply::Denied
    ));
    assert!(matches!(
        approval_response(SECRET, ApprovalOutcome::TimedOut),
        ApprovalReply::Denied
    ));
}

#[test]
fn no_credential_and_forged_credential_are_refused() {
    let mut reg = Registry::new();
    assert!(matches!(
        open_connection(&mut reg, SECRET, ""),
        Err(AuthError::InvalidSignature)
    ));
    assert!(matches!(
        open_connection(&mut reg, SECRET, "not.a.token"),
        Err(AuthError::InvalidSignature)
    ));

    // a token minted under a different secret must not verify
    let mut reg2 = Registry::new();
    let resp = register_phone(&mut reg2, 7, 99);
    reg2.upgrade_init(resp.uuid, 10).unwrap();
    let (_, decision) = reg2.update_pending(resp.uuid, true).unwrap();
    let jwt = match approval_response(b"other-secret", ApprovalOutcome::Decided(decision)) {
        ApprovalReply::Granted(jwt) => jwt,
        _ => panic!("approval must grant a credential"),
    };
    assert!(matches!(
        open_connection(&mut reg, SECRET, &jwt),
        Err(AuthError::InvalidSignature)
    ));
}

#[test]
fn second_resolution_reports_failure_without_state_change() {
    let mut reg = Registry::new();
    let resp = register_phone(&mut reg, 7, 99);
    reg.upgrade_init(resp.uuid, 10).unwrap();
    assert!(reg.update_pending(resp.uuid, true).is_some());
    let pending_before = reg.get_pending_info_list().len();
    let active_before = reg.get_active_info_list().len();
    // the operator double-clicks: the second call reports failure
    assert!(reg.update_pending(resp.uuid, true).is_none());
    assert!(reg.update_pending(resp.uuid, false).is_none());
    assert_eq!(reg.get_pending_info_list().len(), pending_before);
    assert_eq!(reg.get_active_info_list().len(), active_before);
}

#[test]
fn cancelled_wait_cleanup_removes_pending_entry() {
    let mut reg = Registry::new();
    let resp = register_phone(&mut reg, 7, 99);
    reg.upgrade_init(resp.uuid, 10).unwrap();
    assert_eq!(reg.get_pending_info_list().len(), 1);
    // the guaranteed-cleanup path runs whatever ended the wait
    reg.remove_pending(resp.uuid);
    assert!(reg.get_pending_info_list().is_empty());
    // and is safe to run redundantly
    reg.remove_pending(resp.uuid);
    assert!(reg.get_pending_info_list().is_empty());
}

#[test]
fn phone_approval_scenario() {
    let mut reg = Registry::new();
    let resp = register_phone(&mut reg, 7, 12345678);
    assert_eq!(resp.code.len(), 8);

    reg.upgrade_init(resp.uuid, 10).unwrap();
    assert_eq!(reg.get_pending_info_list().len(), 1);

    let (_, decision) = reg.update_pending(resp.uuid, true).unwrap();
    reg.remove_pending(resp.uuid);
    let jwt = match approval_response(SECRET, ApprovalOutcome::Decided(decision)) {
        ApprovalReply::Granted(jwt) => jwt,
        _ => panic!("approval must grant a credential"),
    };

    // approved but not yet connected: no longer pending, not yet active
    assert!(reg.get_pending_info_list().is_empty());
    assert!(reg.get_active_info_list().is_empty());

    let info = open_connection(&mut reg, SECRET, &jwt).expect("upgrade must succeed");
    assert_eq!(info.uuid, resp.uuid);
    let active = reg.get_active_info_list();
    assert_eq!(active.len(), 1);
    assert_eq!(active[0].uuid, resp.uuid);
    assert_eq!(active[0].name, "Phone");

    // the stricter rule: the same credential cannot open a second
    // concurrent connection
    assert!(matches!(
        open_connection(&mut reg, SECRET, &jwt),
        Err(AuthError::SubjectActive)
    ));

    // connection closes: the device leaves the active set
    reg.remove_active(resp.uuid);
    assert!(reg.get_active_info_list().is_empty());
}

#[test]
fn tv_timeout_scenario() {
    let mut reg = Registry::new();
    let resp = handle_register(&mut reg, "TV".to_string(), "SmartTV", 21, 4242424242);
    reg.upgrade_init(resp.uuid, 5).unwrap();
    assert_eq!(reg.get_pending_info_list().len(), 1);

    // nobody decides within the window
    assert!(matches!(
        approval_response(SECRET, ApprovalOutcome::TimedOut),
        ApprovalReply::Denied
    ));
    reg.remove_pending(resp.uuid);
    assert!(reg.get_pending_info_list().is_empty());
}

#[test]
fn uuid_lives_in_one_stage_at_a_time() {
    let mut reg = Registry::new();
    let resp = register_phone(&mut reg, 7, 99);

    let in_pending =
        |reg: &Registry| reg.get_pending_info_list().iter().any(|i| i.uuid == 7);
    let in_active = |reg: &Registry| reg.get_active_info_list().iter().any(|i| i.uuid == 7);

    // initiated: in neither visible list yet
    assert!(!in_pending(&reg) && !in_active(&reg));

    reg.upgrade_init(resp.uuid, 1).unwrap();
    assert!(in_pending(&reg) && !in_active(&reg));
    // a second promotion finds nothing initiated
    assert!(reg.upgrade_init(resp.uuid, 2).is_none());

    let (_, decision) = reg.update_pending(resp.uuid, true).unwrap();
    reg.remove_pending(resp.uuid);
    let jwt = match approval_response(SECRET, ApprovalOutcome::Decided(decision)) {
        ApprovalReply::Granted(jwt) => jwt,
        _ => panic!(),
    };
    open_connection(&mut reg, SECRET, &jwt).unwrap();
    assert!(!in_pending(&reg) && in_active(&reg));
}

#[test]
fn pending_list_is_ordered_by_creation_time() {
    let mut reg = Registry::new();
    handle_register(&mut reg, "A".to_string(), "x", 1, 0);
    handle_register(&mut reg, "B".to_string(), "x", 2, 0);
    handle_register(&mut reg, "C".to_string(), "x", 3, 0);
    reg.upgrade_init(2, 10).unwrap();
    reg.upgrade_init(1, 20).unwrap();
    reg.upgrade_init(3, 30).unwrap();
    let names: Vec<String> =
        reg.get_pending_info_list().into_iter().map(|i| i.name).collect();
    assert_eq!(names, vec!["B".to_string(), "A".to_string(), "C".to_string()]);
}

#[test]
fn registry_emits_notifications_in_order() {
    let mut reg = Registry::new();
    let resp = register_phone(&mut reg, 7, 99);
    reg.upgrade_init(resp.uuid, 1).unwrap();
    reg.remove_pending(resp.uuid);
    reg.remove_active(resp.uuid);
    let events = reg.take_events();
    assert_eq!(events.len(), 3);
    assert!(matches!(events[0], RemoteServerEvent::RefreshPending));
    assert!(matches!(events[1], RemoteServerEvent::RefreshPending));
    assert!(matches!(events[2], RemoteServerEvent::RefreshActive));
    assert!(reg.take_events().is_empty());
}

#[test]
fn channel_failure_reports_internal_error() {
    assert!(matches!(
        approval_response(SECRET, ApprovalOutcome::ChannelClosed),
        ApprovalReply::Failed
    ));
}

#[test]
fn fresh_identifiers_feed_registration() {
    let mut reg = Registry::new();
    let uuid_bits = fresh_uuid_bits();
    let code_bits = fresh_uuid_bits();
    let resp = handle_register(&mut reg, "Pad".to_string(), "iPhone", uuid_bits, code_bits);
    assert_eq!(resp.uuid, uuid_bits);
    assert!(reg.upgrade_init(uuid_bits, 0).is_some());
}

#[test]
fn cert_bootstrap_runs_only_when_a_file_is_missing() {
    assert!(!cert_generation_needed(true, true));
    assert!(cert_generation_needed(false, true));
    assert!(cert_generation_needed(true, false));
    assert!(cert_generation_needed(false, false));
}

#[test]
fn default_ports() {
    let ports = macropinna_remote::config::RemoteServer::default();
    assert_eq!(ports.port, 5174);
    assert_eq!(ports.port_internal, 51740);
}
