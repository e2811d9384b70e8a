//! The session validation state machine.
//!
//! Every workflow command must first establish that its terminal is
//! entitled to act on behalf of a run. Five checks run in strict order —
//! a terminal session name from the environment, a backend that
//! recognizes it, an attached run, a live run status, a role — and each
//! failure carries its own outcome. A transport failure short-circuits
//! as a distinct outcome, so "not allowed" is never confused with "the
//! backend is unreachable".

use vstd::prelude::*;
use crate::codec::SocketResponse;
use crate::ipc::IpcError;
use crate::json::{JsonVal, JsonValue, spec_get_str};
use crate::strutil::str_eq;
use vstd::string::StrSliceExecFns;
use vstd::string::StringExecFns;

verus! {

/// The identity a validated command acts under. Built fresh for every
/// command; never cached.
#[derive(Clone)]
pub struct SessionState {
    pub zellij_session: String,
    pub run_id: String,
    pub role_id: String,
    pub run_status: String,
}

/// Why a command may not act, each outcome carrying its own remediation.
#[derive(Debug)]
pub enum ValidationError {
    /// No terminal session name in the environment.
    NoZellijSession,
    /// The backend does not recognize this terminal session.
    SessionNotRegistered,
    /// The session is known but attached to no run.
    NotAttachedToRun,
    /// The attached run's status allows no work; carries that status.
    RunNotActive(String),
    /// The backend could not be asked at all.
    IpcError(IpcError),
}

/// The run the session reply says this terminal is attached to: a
/// non-empty string under `attached_run_id`.
pub open spec fn spec_attached_run(data: JsonVal) -> Option<Seq<char>> {
    match spec_get_str(data, "attached_run_id"@) {
        Some(rid) => if rid.len() > 0 {
            Some(rid)
        } else {
            None
        },
        None => None,
    }
}

/// The run status the session reply carries, when it carries one as a
/// string.
pub open spec fn spec_run_status(data: JsonVal) -> Option<Seq<char>> {
    spec_get_str(data, "run_status"@)
}

/// A present status that is neither `active` nor `paused` blocks work.
pub open spec fn spec_status_blocks(data: JsonVal) -> bool {
    match spec_run_status(data) {
        Some(st) => st != "active"@ && st != "paused"@,
        None => false,
    }
}

/// The role the session reply carries, defaulting to `unknown`.
pub open spec fn spec_role(data: JsonVal) -> Seq<char> {
    match spec_get_str(data, "role_id"@) {
        Some(role) => role,
        None => "unknown"@,
    }
}

/// The status a successful validation reports: the reply's status
/// string, or `unknown` when the reply carries none.
pub open spec fn spec_effective_status(data: JsonVal) -> Seq<char> {
    match spec_run_status(data) {
        Some(st) => st,
        None => "unknown"@,
    }
}

/// How a validation result must relate to the terminal session name and
/// the backend's reply: the checks in their strict order.
pub open spec fn validate_reply_post(
    zellij: Seq<char>,
    outcome: Result<SocketResponse, IpcError>,
    r: Result<SessionState, ValidationError>,
) -> bool {
    match outcome {
        Err(e) => r matches Err(ValidationError::IpcError(e2)) && e2 == e,
        Ok(resp) => if !resp.success {
            r matches Err(e) && e is SessionNotRegistered
        } else {
            match resp.data {
                None => r matches Err(e) && e is SessionNotRegistered,
                Some(d) => match spec_attached_run(d@) {
                    None => r matches Err(e) && e is NotAttachedToRun,
                    Some(rid) => if spec_status_blocks(d@) {
                        r matches Err(ValidationError::RunNotActive(st)) && st@
                            == spec_effective_status(d@)
                    } else {
                        r matches Ok(state) && state.zellij_session@ == zellij && state.run_id@
                            == rid && state.role_id@ == spec_role(d@) && state.run_status@
                            == spec_effective_status(d@)
                    },
                },
            }
        },
    }
}

/// Interpret the backend's reply to the session query, for a terminal
/// whose session name is already known.
pub fn interpret_session_reply(zellij_session: &str, outcome: Result<SocketResponse, IpcError>) -> (r:
    Result<SessionState, ValidationError>)
    ensures
        validate_reply_post(zellij_session@, outcome, r),
{
    let resp = match outcome {
        Err(e) => {
            return Err(ValidationError::IpcError(e));
        },
        Ok(resp) => resp,
    };
    if !resp.success {
        return Err(ValidationError::SessionNotRegistered);
    }
    let data = match resp.data {
        None => {
            return Err(ValidationError::SessionNotRegistered);
        },
        Some(d) => d,
    };
    let run_id: String = match data.get("attached_run_id") {
        Some(rv) => match rv.as_str() {
            Some(s) => {
                if s.as_str().unicode_len() == 0 {
                    return Err(ValidationError::NotAttachedToRun);
                }
                s.clone()
            },
            None => {
                return Err(ValidationError::NotAttachedToRun);
            },
        },
        None => {
            return Err(ValidationError::NotAttachedToRun);
        },
    };
    let status: Option<String> = match data.get("run_status") {
        Some(sv) => match sv.as_str() {
            Some(s) => Some(s.clone()),
            None => None,
        },
        None => None,
    };
    match &status {
        Some(st) => {
            if !str_eq(st.as_str(), "active") && !str_eq(st.as_str(), "paused") {
                return Err(ValidationError::RunNotActive(st.clone()));
            }
        },
        None => {},
    }
    let run_status: String = match status {
        Some(st) => st,
        None => String::from_str("unknown"),
    };
    let role_id: String = match data.get("role_id") {
        Some(rv) => match rv.as_str() {
            Some(s) => s.clone(),
            None => String::from_str("unknown"),
        },
        None => String::from_str("unknown"),
    };
    Ok(
        SessionState {
            zellij_session: zellij_session.to_owned(),
            run_id,
            role_id,
            run_status,
        },
    )
}

/// Run the whole machine: the environment's terminal session name first,
/// then the backend's reply. A missing session name fails as
/// `NoZellijSession` whatever the reply would have said — the first
/// check is never outranked by a later one.
pub fn validate_session(
    zellij_session: Option<String>,
    outcome: Result<SocketResponse, IpcError>,
) -> (r: Result<SessionState, ValidationError>)
    ensures
        zellij_session is None ==> (r matches Err(e) && e is NoZellijSession),
        zellij_session matches Some(z) ==> validate_reply_post(z@, outcome, r),
{
    match zellij_session {
        None => Err(ValidationError::NoZellijSession),
        Some(z) => interpret_session_reply(z.as_str(), outcome),
    }
}

/// Among the reply-dependent outcomes, `RunNotActive` arises exactly
/// when the reply names a status and that status is neither `active`
/// nor `paused`; in particular both `active` and `paused` pass, and a
/// reply without a status never fails this check.
pub proof fn lemma_run_not_active_iff(
    zellij: Seq<char>,
    resp: SocketResponse,
    r: Result<SessionState, ValidationError>,
)
    requires
        validate_reply_post(zellij, Ok(resp), r),
        resp.success,
        resp.data is Some,
        spec_attached_run(resp.data->0@) is Some,
    ensures
        (r matches Err(e) && e is RunNotActive) <==> spec_status_blocks(resp.data->0@),
{
}

impl ValidationError {
    /// The one-line description of this outcome.
    pub fn message(&self) -> (r: String)
        ensures
            r@ == spec_validation_message(*self),
    {
        match self {
            ValidationError::NoZellijSession => String::from_str(
                "Not running in a Zellij session",
            ),
            ValidationError::SessionNotRegistered => String::from_str(
                "Session not registered with Hotwired",
            ),
            ValidationError::NotAttachedToRun => String::from_str("Not attached to any run"),
            ValidationError::RunNotActive(status) => {
                let mut m = String::from_str("Run is not active (status: ");
                m.append(status.as_str());
                m.append(")");
                assert(m@ =~= spec_validation_message(*self));
                m
            },
            ValidationError::IpcError(e) => {
                let mut m = String::from_str("IPC error: ");
                m.append(e.message().as_str());
                m
            },
        }
    }
}

impl ValidationError {
    /// The full remediation text for this outcome: what went wrong and
    /// what to do next. The text is part of the validator's contract —
    /// an agent reading only the error stream must be able to decide
    /// its next action from it.
    pub fn remediation(&self) -> (r: String)
        ensures
            r@ == spec_remediation(*self),
    {
        match self {
            ValidationError::NoZellijSession => String::from_str(
                "ERROR: Not running in a Zellij session.\n\nThe hotwired CLI must be run from within a Hotwired-managed terminal.\nStart a terminal from the Hotwired app, or check $ZELLIJ_SESSION_NAME.",
            ),
            ValidationError::SessionNotRegistered => String::from_str(
                "ERROR: This terminal is not registered with Hotwired.\n\nTo join an existing run:\n  hotwired pair <RUN_ID>\n\nTo start a new run:\n  hotwired hotwire --intent \"what you want to do\"",
            ),
            ValidationError::NotAttachedToRun => String::from_str(
                "ERROR: This terminal is not attached to any workflow run.\n\nTo join an existing run:\n  hotwired pair <RUN_ID>\n\nTo start a new run:\n  hotwired hotwire --intent \"what you want to do\"",
            ),
            ValidationError::RunNotActive(status) => {
                let mut m = String::from_str("ERROR: The attached run is no longer active (status: ");
                m.append(status.as_str());
                m.append(").\n\nTo join a different run:\n  hotwired pair <RUN_ID>");
                assert(m@ =~= spec_remediation(*self));
                m
            },
            ValidationError::IpcError(e) => {
                let mut m = String::from_str("ERROR: ");
                m.append(e.message().as_str());
                match e {
                    crate::ipc::IpcError::NotConnected(_) => {
                        m.append("\n\nIs the Hotwired desktop app running?");
                    },
                    _ => {},
                }
                assert(m@ =~= spec_remediation(*self));
                m
            },
        }
    }
}

/// The full remediation text of each validation outcome.
pub open spec fn spec_remediation(e: ValidationError) -> Seq<char> {
    match e {
        ValidationError::NoZellijSession => "ERROR: Not running in a Zellij session.\n\nThe hotwired CLI must be run from within a Hotwired-managed terminal.\nStart a terminal from the Hotwired app, or check $ZELLIJ_SESSION_NAME."@,
        ValidationError::SessionNotRegistered => "ERROR: This terminal is not registered with Hotwired.\n\nTo join an existing run:\n  hotwired pair <RUN_ID>\n\nTo start a new run:\n  hotwired hotwire --intent \"what you want to do\""@,
        ValidationError::NotAttachedToRun => "ERROR: This terminal is not attached to any workflow run.\n\nTo join an existing run:\n  hotwired pair <RUN_ID>\n\nTo start a new run:\n  hotwired hotwire --intent \"what you want to do\""@,
        ValidationError::RunNotActive(status) => "ERROR: The attached run is no longer active (status: "@ + status@ + ").\n\nTo join a different run:\n  hotwired pair <RUN_ID>"@,
        ValidationError::IpcError(e2) => "ERROR: "@ + crate::ipc::spec_ipc_message(e2) + match e2 {
            crate::ipc::IpcError::NotConnected(_) => "\n\nIs the Hotwired desktop app running?"@,
            _ => Seq::empty(),
        },
    }
}

/// The one-line description of each validation outcome.
pub open spec fn spec_validation_message(e: ValidationError) -> Seq<char> {
    match e {
        ValidationError::NoZellijSession => "Not running in a Zellij session"@,
        ValidationError::SessionNotRegistered => "Session not registered with Hotwired"@,
        ValidationError::NotAttachedToRun => "Not attached to any run"@,
        ValidationError::RunNotActive(status) => "Run is not active (status: "@ + status@ + ")"@,
        ValidationError::IpcError(e2) => "IPC error: "@ + crate::ipc::spec_ipc_message(e2),
    }
}

} // verus!
