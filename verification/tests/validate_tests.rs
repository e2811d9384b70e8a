use hotwired_cli::codec::{SocketResponse, decode_response};
use hotwired_cli::ipc::IpcError;
use hotwired_cli::validate::{SessionState, ValidationError, validate_session};

fn reply(line: &str) -> Result<SocketResponse, IpcError> {
    Ok(decode_response(line).expect("fixture decodes"))
}

fn good_reply() -> Result<SocketResponse, IpcError> {
    reply(
        r#"{"success":true,"data":{"attached_run_id":"run-123","run_status":"active","role_id":"strategist"}}"#,
    )
}

#[test]
fn test_validation_error_display() {
    assert_eq!(ValidationError::NoZellijSession.message(), "Not running in a Zellij session");
    assert_eq!(
        ValidationError::RunNotActive("completed".to_string()).message(),
        "Run is not active (status: completed)"
    );
}

#[test]
fn test_session_state_clone() {
    let state = SessionState {
        zellij_session: "test-session".to_string(),
        run_id: "run-123".to_string(),
        role_id: "strategist".to_string(),
        run_status: "active".to_string(),
    };
    let cloned = state.clone();
    assert_eq!(cloned.run_id, "run-123");
}

#[test]
fn test_missing_env_outranks_everything() {
    // Even a reply that would pass every later check cannot outrank the
    // first one: no terminal session, no validation.
    let r = validate_session(None, good_reply());
    assert!(matches!(r, Err(ValidationError::NoZellijSession)));
}

#[test]
fn test_validate_happy_path() {
    let state = validate_session(Some("term-1".to_string()), good_reply()).expect("validates");
    assert_eq!(state.zellij_session, "term-1");
    assert_eq!(state.run_id, "run-123");
    assert_eq!(state.role_id, "strategist");
    assert_eq!(state.run_status, "active");
}

#[test]
fn test_paused_run_passes_too() {
    let r = validate_session(
        Some("t".to_string()),
        reply(r#"{"success":true,"data":{"attached_run_id":"r1","run_status":"paused"}}"#),
    )
    .expect("paused validates");
    assert_eq!(r.run_status, "paused");
    assert_eq!(r.role_id, "unknown");
}

#[test]
fn test_unrecognized_session() {
    let r = validate_session(Some("t".to_string()), reply(r#"{"success":false}"#));
    assert!(matches!(r, Err(ValidationError::SessionNotRegistered)));
    let bare = validate_session(Some("t".to_string()), reply(r#"{"success":true}"#));
    assert!(matches!(bare, Err(ValidationError::SessionNotRegistered)));
}

#[test]
fn test_not_attached_to_run() {
    let missing = validate_session(
        Some("t".to_string()),
        reply(r#"{"success":true,"data":{"run_status":"active"}}"#),
    );
    assert!(matches!(missing, Err(ValidationError::NotAttachedToRun)));
    let empty = validate_session(
        Some("t".to_string()),
        reply(r#"{"success":true,"data":{"attached_run_id":""}}"#),
    );
    assert!(matches!(empty, Err(ValidationError::NotAttachedToRun)));
}

#[test]
fn test_run_not_active_carries_status() {
    let r = validate_session(
        Some("t".to_string()),
        reply(r#"{"success":true,"data":{"attached_run_id":"r1","run_status":"completed"}}"#),
    );
    match r {
        Err(ValidationError::RunNotActive(status)) => assert_eq!(status, "completed"),
        _ => panic!("expected a run-not-active failure"),
    }
}

#[test]
fn test_absent_status_does_not_fail_the_status_check() {
    // Only a status that is present and neither active nor paused
    // produces RunNotActive; a reply without one validates, with the
    // status reported as unknown.
    let r = validate_session(
        Some("t".to_string()),
        reply(r#"{"success":true,"data":{"attached_run_id":"r1"}}"#),
    )
    .expect("validates without a status");
    assert_eq!(r.run_status, "unknown");
}

#[test]
fn test_transport_failure_is_its_own_outcome() {
    let r = validate_session(
        Some("t".to_string()),
        Err(IpcError::NotConnected("/s.sock".to_string())),
    );
    match r {
        Err(ValidationError::IpcError(e)) => {
            assert!(matches!(e, IpcError::NotConnected(_)));
        },
        _ => panic!("expected the transport outcome"),
    }
}

#[test]
fn test_validation_messages() {
    assert_eq!(
        ValidationError::SessionNotRegistered.message(),
        "Session not registered with Hotwired"
    );
    assert_eq!(ValidationError::NotAttachedToRun.message(), "Not attached to any run");
    assert_eq!(
        ValidationError::IpcError(IpcError::ConnectionFailed("x".to_string())).message(),
        "IPC error: Connection failed: x"
    );
}

#[test]
fn test_remediation_text_guides_the_next_action() {
    let not_attached = ValidationError::NotAttachedToRun.remediation();
    assert!(not_attached.starts_with("ERROR: This terminal is not attached to any workflow run."));
    assert!(not_attached.contains("hotwired pair <RUN_ID>"));
    assert!(not_attached.contains("hotwired hotwire --intent"));

    let stale = ValidationError::RunNotActive("cancelled".to_string()).remediation();
    assert!(stale.contains("(status: cancelled)"));
    assert!(stale.contains("To join a different run:"));

    let down = ValidationError::IpcError(IpcError::NotConnected("/s.sock".to_string()));
    let text = down.remediation();
    assert!(text.contains("socket not found at /s.sock"));
    assert!(text.contains("Is the Hotwired desktop app running?"));
}
