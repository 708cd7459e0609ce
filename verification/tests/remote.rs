use superhq::remote::commands::{settle, Delivery, HostCommand};
use superhq::remote::handler::{
    auto_approve_pairings, input_step, issue_credentials, last_seen, output_step, pairing_answered,
    pty_attach, pty_missing, require_auth, session_hello, AppHandler, AuthStep, OutputAction,
    OutputEvent, PairingStep, PtyRequest, SessionAuth,
};
use superhq::remote::{
    hostname, load_or_generate_secret, ErrorCode, RemoteAccess, RotateAction, RotateEvent,
    secret_drawn, RpcError, SecretAction, SecretEvent,
};

fn auth(device: &str, timestamp: u64) -> SessionAuth {
    SessionAuth { device_id: device.to_string(), timestamp, proof: "p".to_string() }
}

fn refusal(step: AuthStep) -> (ErrorCode, String) {
    match step {
        AuthStep::Refused(e) => (e.code, e.message),
        other => panic!("{:?}", other),
    }
}

#[test]
fn flags_are_read_without_case() {
    assert!(require_auth(None));
    assert!(require_auth(Some("1")));
    assert!(require_auth(Some("")));
    assert!(!require_auth(Some("0")));
    assert!(!require_auth(Some("FALSE")));
    assert!(!auto_approve_pairings(None));
    assert!(auto_approve_pairings(Some("1")));
    assert!(auto_approve_pairings(Some("True")));
    assert!(!auto_approve_pairings(Some("yes")));
}

#[test]
fn requests_without_proof_need_the_setting() {
    let open = AppHandler::<u8>::new(false, false);
    assert!(matches!(open.check_auth(None, None), AuthStep::Accepted));
    let strict = AppHandler::<u8>::new(true, false);
    assert_eq!(
        refusal(strict.check_auth(None, None)),
        (
            ErrorCode::AuthRequired,
            "session.hello requires auth (pair first via pairing.request)".to_string()
        )
    );
}

#[test]
fn proof_is_checked_with_the_stored_key() {
    let mut h = AppHandler::<u8>::new(true, false);
    let a = auth("dev_1", 5);
    assert_eq!(
        refusal(h.check_auth(Some(&a), Some("AQID"))),
        (ErrorCode::AuthInvalid, "host node id not yet available".to_string())
    );
    h.set_host_node_id("node".to_string());
    h.set_agents(vec![1, 2]);
    assert_eq!(h.agents, vec![1, 2]);
    assert_eq!(
        refusal(h.check_auth(Some(&a), None)),
        (ErrorCode::AuthInvalid, "unknown device_id: dev_1".to_string())
    );
    assert_eq!(
        refusal(h.check_auth(Some(&a), Some("not base64!"))),
        (ErrorCode::AuthInvalid, "stored device key malformed".to_string())
    );
    match h.check_auth(Some(&a), Some("AQID")) {
        AuthStep::Verify { key, host_id } => {
            assert_eq!(key, vec![1, 2, 3]);
            assert_eq!(host_id, "node");
        }
        other => panic!("{:?}", other),
    }
}

#[test]
fn a_proof_counts_once() {
    let mut h = AppHandler::<u8>::new(true, false);
    assert!(h.proof_checked(&auth("a", 10), Ok(())).is_ok());
    let again = h.proof_checked(&auth("a", 10), Ok(())).unwrap_err();
    assert_eq!(again.code, ErrorCode::AuthInvalid);
    assert_eq!(again.message, "replay rejected: timestamp not greater than last accepted");
    assert!(h.proof_checked(&auth("a", 9), Ok(())).is_err());
    assert!(h.proof_checked(&auth("b", 9), Ok(())).is_ok());
    assert!(h.proof_checked(&auth("a", 11), Ok(())).is_ok());
    assert!(h.proof_checked(&auth("c", 0), Ok(())).is_err());
    let bad = h.proof_checked(&auth("a", 99), Err("bad proof".to_string())).unwrap_err();
    assert_eq!(bad.message, "bad proof");
    assert!(h.proof_checked(&auth("a", 12), Ok(())).is_ok());
}

#[test]
fn pairing_asks_unless_told_otherwise() {
    let h = AppHandler::<u8>::new(true, false);
    assert!(matches!(h.pairing_request(false), PairingStep::Ask));
    match h.pairing_request(true) {
        PairingStep::Refused(e) => {
            assert_eq!(e.code, ErrorCode::PairingRejected);
            assert_eq!(e.message, "TOTP pairing not yet implemented (V1)");
        }
        other => panic!("{:?}", other),
    }
    let auto = AppHandler::<u8>::new(true, true);
    assert!(matches!(auto.pairing_request(false), PairingStep::Issue));
    assert!(matches!(auto.pairing_request(true), PairingStep::Refused(_)));
    assert!(pairing_answered(true).is_ok());
    assert_eq!(pairing_answered(false).unwrap_err().message, "pairing rejected by host");
}

#[test]
fn issued_credentials_let_the_device_in() {
    let key: Vec<u8> = (0..32).collect();
    let (record, told) = issue_credentials("Phone".to_string(), &key, 77);
    assert_eq!(record.device_label, "Phone");
    assert_eq!(record.created_at, 77);
    assert_eq!(record.device_key_b64, "AAECAwQFBgcICQoLDA0ODxAREhMUFRYXGBkaGxwdHh8=");
    assert_eq!(told.device_key, record.device_key_b64);
    assert_eq!(told.device_id, record.device_id);
    assert!(record.device_id.starts_with("dev_"));
    let id = &record.device_id[4..];
    assert_eq!(id.len(), 32);
    assert!(id.bytes().all(|b| b.is_ascii_digit() || (b'a'..=b'f').contains(&b)));
    assert_eq!(&id[12..13], "4");
    assert!("89ab".contains(&id[16..17]));
    let mut h = AppHandler::<u8>::new(true, false);
    h.set_host_node_id("node".to_string());
    match h.check_auth(Some(&auth(&record.device_id, 1)), Some(&record.device_key_b64)) {
        AuthStep::Verify { key: k, .. } => assert_eq!(k, key),
        other => panic!("{:?}", other),
    }
}

#[test]
fn sessions_speak_the_older_protocol() {
    let s = session_hello(3, 2);
    assert_eq!(s.protocol_version, 2);
    assert_eq!(session_hello(1, 2).protocol_version, 1);
    assert_eq!(s.session_id.len(), 36);
    for i in [8usize, 13, 18, 23] {
        assert_eq!(&s.session_id[i..i + 1], "-");
    }
    assert_eq!(&s.session_id[14..15], "4");
    assert_ne!(s.session_id, s.resume_token);
}

#[test]
fn missing_terminals_are_not_found() {
    assert_eq!(pty_attach(Some((80, 24)), 1, 2).unwrap(), (80, 24));
    let e = pty_attach(None, -3, 12).unwrap_err();
    assert_eq!(e.code, ErrorCode::NotFound);
    assert_eq!(e.message, "no terminal for workspace=-3 tab=12");
    assert_eq!(pty_missing(PtyRequest::Resize).message, "pty.resize: tab not found");
    assert_eq!(pty_missing(PtyRequest::Stream).message, "pty.stream: tab not found");
}

#[test]
fn streams_end_when_either_side_goes() {
    let begin = OutputEvent::Begin { scrollback: true };
    assert_eq!(output_step(begin), OutputAction::WriteScrollback);
    assert_eq!(output_step(OutputEvent::Begin { scrollback: false }), OutputAction::Receive);
    assert_eq!(output_step(OutputEvent::Wrote { ok: true }), OutputAction::Receive);
    assert_eq!(output_step(OutputEvent::Wrote { ok: false }), OutputAction::Finish);
    assert_eq!(output_step(OutputEvent::Chunk), OutputAction::WriteChunk);
    assert_eq!(output_step(OutputEvent::Lagged), OutputAction::Receive);
    assert_eq!(output_step(OutputEvent::Closed), OutputAction::Finish);
    assert_eq!(input_step(Some(5), false), Some(5));
    assert_eq!(input_step(Some(0), false), None);
    assert_eq!(input_step(None, false), None);
    assert_eq!(input_step(Some(5), true), None);
}

#[test]
fn unanswered_commands_name_their_method() {
    let c: HostCommand<(), ()> = HostCommand::CreateTab { workspace_id: 1, spec: () };
    assert_eq!(c.method(), "tabs.create");
    let c: HostCommand<(), ()> = HostCommand::CloseTab { workspace_id: 1, tab_id: 2, mode: () };
    assert_eq!(c.method(), "tabs.close");
    let c: HostCommand<(), ()> = HostCommand::ActivateWorkspace { workspace_id: 1 };
    assert_eq!(c.method(), "workspace.activate");
    let c: HostCommand<(), ()> = HostCommand::WriteAttachment {
        workspace_id: 1,
        tab_id: 2,
        name: "n".to_string(),
        bytes: vec![],
    };
    assert_eq!(c.method(), "attachment.write");
    assert_eq!(settle("m", Delivery::Answered(Ok(7))).unwrap(), 7);
    let own: Delivery<u8> =
        Delivery::Answered(Err(RpcError::new(ErrorCode::NotFound, "gone")));
    assert_eq!(settle("m", own).unwrap_err().message, "gone");
    let message = |d: Delivery<u8>| {
        let e = settle("tabs.close", d).unwrap_err();
        assert_eq!(e.code, ErrorCode::Internal);
        e.message
    };
    assert_eq!(message(Delivery::NotSent), "tabs.close: host UI is not available");
    assert_eq!(message(Delivery::Dropped), "tabs.close: host cancelled the command");
    assert_eq!(message(Delivery::TimedOut), "tabs.close: timed out waiting for the host");
}

#[test]
fn clients_hear_of_changed_snapshots_only() {
    let mut a = RemoteAccess::new("");
    assert!(a.push_snapshot("one", 1));
    assert_eq!(*a.state(), "one");
    assert!(!a.push_snapshot("one", 1));
    assert!(a.push_snapshot("two", 2));
    assert_eq!(*a.state(), "two");
    assert!(a.push_snapshot("one", 1));
}

#[test]
fn host_id_outlives_the_server() {
    let mut a = RemoteAccess::new("");
    assert!(!a.is_running());
    assert_eq!(a.endpoint_id(), None);
    assert_eq!(a.host_id(None), None);
    assert_eq!(a.host_id(Some("stored".to_string())), Some("stored".to_string()));
    assert!(a.start());
    a.started("live".to_string());
    assert!(!a.start());
    assert_eq!(a.endpoint_id(), Some("live".to_string()));
    assert_eq!(a.host_id(Some("stored".to_string())), Some("live".to_string()));
    assert_eq!(a.stop(), Some("live".to_string()));
    assert_eq!(a.stop(), None);
}

#[test]
fn secret_is_made_once_and_kept() {
    match load_or_generate_secret(SecretEvent::Loaded(Ok(Some([9; 32])))) {
        SecretAction::Finish(Ok(bytes)) => assert_eq!(bytes, [9; 32]),
        other => panic!("{:?}", other),
    }
    match load_or_generate_secret(SecretEvent::Loaded(Err("locked".to_string()))) {
        SecretAction::Finish(Err(e)) => assert_eq!(e, "locked"),
        other => panic!("{:?}", other),
    }
    let fresh = match load_or_generate_secret(SecretEvent::Loaded(Ok(None))) {
        SecretAction::Save(bytes) => bytes,
        other => panic!("{:?}", other),
    };
    assert_ne!(fresh, [0; 32]);
    match load_or_generate_secret(SecretEvent::Saved(fresh, Ok(()))) {
        SecretAction::Finish(Ok(bytes)) => assert_eq!(bytes, fresh),
        other => panic!("{:?}", other),
    }
    match load_or_generate_secret(SecretEvent::Loaded(Ok(Some(fresh)))) {
        SecretAction::Finish(Ok(bytes)) => assert_eq!(bytes, fresh),
        other => panic!("{:?}", other),
    }
    match load_or_generate_secret(SecretEvent::Saved(fresh, Err("full".to_string()))) {
        SecretAction::Finish(Err(e)) => assert_eq!(e, "full"),
        other => panic!("{:?}", other),
    }
}

#[test]
fn fresh_secrets_differ_and_failures_are_told() {
    let draw = || match load_or_generate_secret(SecretEvent::Loaded(Ok(None))) {
        SecretAction::Save(bytes) => bytes,
        other => panic!("{:?}", other),
    };
    assert_ne!(draw(), draw());
    match secret_drawn(Ok([7; 32])) {
        SecretAction::Save(bytes) => assert_eq!(bytes, [7; 32]),
        other => panic!("{:?}", other),
    }
    match secret_drawn(Err("none".to_string())) {
        SecretAction::Finish(Err(e)) => assert_eq!(e, "generate endpoint secret: none"),
        other => panic!("{:?}", other),
    }
}

#[test]
fn an_accepted_proof_is_a_sign_of_its_device() {
    let mut h = AppHandler::<u8>::new(true, false);
    let a = auth("a", 10);
    let taken = h.proof_checked(&a, Ok(()));
    assert_eq!(last_seen(Some(&a), &taken, 77), Some(("a".to_string(), 77)));
    let again = h.proof_checked(&a, Ok(()));
    assert_eq!(last_seen(Some(&a), &again, 78), None);
    assert_eq!(last_seen(None, &Ok(()), 79), None);
}

#[test]
fn secret_changes_once_the_endpoint_is_down() {
    let mut a = RemoteAccess::new("");
    a.started("old".to_string());
    let act = a.rotate_endpoint_secret(RotateEvent::Begin, true);
    assert!(matches!(act, RotateAction::ShutDown));
    assert!(!a.is_running());
    let act = a.rotate_endpoint_secret(RotateEvent::ShutDown(Ok(())), true);
    assert!(matches!(act, RotateAction::Wipe));
    let act = a.rotate_endpoint_secret(RotateEvent::Wiped(Ok(())), true);
    assert!(matches!(act, RotateAction::Start));
    match a.rotate_endpoint_secret(RotateEvent::Started(Ok("new".to_string())), true) {
        RotateAction::Finish(Ok(Some(id))) => assert_eq!(id, "new"),
        other => panic!("{:?}", other),
    }
    assert_eq!(a.endpoint_id(), Some("new".to_string()));
}

#[test]
fn failed_shutdown_ends_the_change() {
    let mut a = RemoteAccess::new("");
    a.started("old".to_string());
    a.rotate_endpoint_secret(RotateEvent::Begin, true);
    match a.rotate_endpoint_secret(RotateEvent::ShutDown(Err("busy".to_string())), true) {
        RotateAction::Finish(Err(e)) => {
            assert_eq!(e, "aborting rotate; endpoint shutdown failed: busy")
        }
        other => panic!("{:?}", other),
    }
    let mut idle = RemoteAccess::new("");
    let act = idle.rotate_endpoint_secret(RotateEvent::Begin, false);
    assert!(matches!(act, RotateAction::Wipe));
    let act = idle.rotate_endpoint_secret(RotateEvent::Wiped(Err("db".to_string())), false);
    assert!(matches!(act, RotateAction::Finish(Err(e)) if e == "db"));
    let act = idle.rotate_endpoint_secret(RotateEvent::Wiped(Ok(())), false);
    assert!(matches!(act, RotateAction::Finish(Ok(None))));
    let act = idle.rotate_endpoint_secret(RotateEvent::Started(Err("net".to_string())), true);
    assert!(matches!(act, RotateAction::Finish(Err(e)) if e == "net"));
}

#[test]
fn hostname_is_trimmed() {
    assert_eq!(hostname(&b"box.local\n".to_vec()), Some("box.local".to_string()));
    assert_eq!(hostname(&b" \n".to_vec()), None);
    assert_eq!(hostname(&vec![0xff, b'a']), Some("\u{fffd}a".to_string()));
}
