//! The parameter objects of each remote method.
//!
//! The backend expects each method's parameters under fixed key names
//! (mostly camel-case; the session query and the event fetch use
//! snake-case keys). Each builder here pins the exact object sent.

use vstd::prelude::*;
use crate::json::{JsonMember, JsonVal, JsonValue, members_view, wf_val};
use crate::jsonnum::int_lexeme;
use crate::text::{spec_truncate, truncate};
use vstd::string::StringExecFns;

verus! {

fn str_member(name: &str, v: &str) -> (r: JsonMember)
    ensures
        r@ == (name@, JsonVal::Str(v@)),
{
    JsonMember { name: name.to_owned(), value: JsonValue::Str(v.to_owned()) }
}

fn opt_member(name: &str, v: Option<&str>) -> (r: JsonMember)
    ensures
        r@ == (name@, match v {
            Some(s) => JsonVal::Str(s@),
            None => JsonVal::Null,
        }),
{
    let value = match v {
        Some(s) => JsonValue::Str(s.to_owned()),
        None => JsonValue::Null,
    };
    JsonMember { name: name.to_owned(), value }
}

fn int_member(name: &str, n: i64) -> (r: JsonMember)
    ensures
        r@ == (name@, JsonVal::Num(int_lexeme(n as int))),
        wf_val(r.value@),
{
    proof {
        crate::jsonnum::lemma_int_lexeme_wf(n as int);
    }
    JsonMember { name: name.to_owned(), value: JsonValue::of_int(n) }
}

fn bool_member(name: &str, b: bool) -> (r: JsonMember)
    ensures
        r@ == (name@, JsonVal::Bool(b)),
{
    JsonMember { name: name.to_owned(), value: JsonValue::Bool(b) }
}

/// The empty parameter object, for methods that take none.
pub fn empty_params() -> (r: JsonValue)
    ensures
        r@ == JsonVal::Obj(Seq::empty()),
        wf_val(r@),
{
    let r = JsonValue::Obj(Vec::new());
    proof {
        assert(members_view(Seq::empty()) =~= Seq::<(Seq<char>, JsonVal)>::empty());
    }
    r
}

/// Parameters for starting a new run.
pub fn hotwire_params(
    zellij_session: Option<&str>,
    project_path: Option<&str>,
    playbook: Option<&str>,
    intent: Option<&str>,
) -> (r: JsonValue)
    ensures
        r@ == JsonVal::Obj(
            seq![
                ("zellijSession"@, opt_str_val(zellij_session)),
                ("projectPath"@, opt_str_val(project_path)),
                ("suggestedPlaybook"@, opt_str_val(playbook)),
                ("intent"@, opt_str_val(intent)),
            ],
        ),
        wf_val(r@),
{
    let mut ms: Vec<JsonMember> = Vec::new();
    ms.push(opt_member("zellijSession", zellij_session));
    ms.push(opt_member("projectPath", project_path));
    ms.push(opt_member("suggestedPlaybook", playbook));
    ms.push(opt_member("intent", intent));
    let r = JsonValue::Obj(ms);
    proof {
        assert(members_view(ms@) =~= seq![
            ("zellijSession"@, opt_str_val(zellij_session)),
            ("projectPath"@, opt_str_val(project_path)),
            ("suggestedPlaybook"@, opt_str_val(playbook)),
            ("intent"@, opt_str_val(intent)),
        ]);
        lemma_obj_wf(r@);
    }
    r
}

/// The JSON value an optional string travels as: the string, or null.
pub open spec fn opt_str_val(v: Option<&str>) -> JsonVal {
    match v {
        Some(s) => JsonVal::Str(s@),
        None => JsonVal::Null,
    }
}

/// An object of strings, nulls and booleans is well-formed; numbers
/// must be shown well-formed member by member.
proof fn lemma_obj_wf(v: JsonVal)
    requires
        v is Obj,
        forall|k: int|
            0 <= k < v->Obj_0.len() ==> (#[trigger] v->Obj_0[k].1 is Str || v->Obj_0[k].1 is Null
                || v->Obj_0[k].1 is Bool || wf_val(v->Obj_0[k].1)),
    ensures
        wf_val(v),
{
    let ms = v->Obj_0;
    assert forall|k: int| 0 <= k < ms.len() implies wf_val(#[trigger] ms[k].1) by {
        assert(ms[k].1 is Str || ms[k].1 is Null || ms[k].1 is Bool || wf_val(ms[k].1));
    }
}

/// Parameters for joining an existing run.
pub fn pair_params(
    zellij_session: Option<&str>,
    project_path: Option<&str>,
    run_id: &str,
    role: Option<&str>,
) -> (r: JsonValue)
    ensures
        r@ == JsonVal::Obj(
            seq![
                ("zellijSession"@, opt_str_val(zellij_session)),
                ("projectPath"@, opt_str_val(project_path)),
                ("runId"@, JsonVal::Str(run_id@)),
                ("roleId"@, opt_str_val(role)),
            ],
        ),
        wf_val(r@),
{
    let mut ms: Vec<JsonMember> = Vec::new();
    ms.push(opt_member("zellijSession", zellij_session));
    ms.push(opt_member("projectPath", project_path));
    ms.push(str_member("runId", run_id));
    ms.push(opt_member("roleId", role));
    let r = JsonValue::Obj(ms);
    proof {
        assert(members_view(ms@) =~= seq![
            ("zellijSession"@, opt_str_val(zellij_session)),
            ("projectPath"@, opt_str_val(project_path)),
            ("runId"@, JsonVal::Str(run_id@)),
            ("roleId"@, opt_str_val(role)),
        ]);
        lemma_obj_wf(r@);
    }
    r
}

/// Parameters for a handoff message: the summary is the message cut to
/// fifty characters, the details carry it whole.
pub fn send_params(run_id: &str, to: &str, message: &str, source: &str) -> (r: JsonValue)
    ensures
        r@ == JsonVal::Obj(
            seq![
                ("runId"@, JsonVal::Str(run_id@)),
                ("to"@, JsonVal::Str(to@)),
                ("summary"@, JsonVal::Str(spec_truncate(message@, 50))),
                ("details"@, JsonVal::Str(message@)),
                ("source"@, JsonVal::Str(source@)),
            ],
        ),
        wf_val(r@),
{
    let summary = truncate(message, 50);
    let mut ms: Vec<JsonMember> = Vec::new();
    ms.push(str_member("runId", run_id));
    ms.push(str_member("to", to));
    ms.push(JsonMember { name: String::from_str("summary"), value: JsonValue::Str(summary) });
    ms.push(str_member("details", message));
    ms.push(str_member("source", source));
    let r = JsonValue::Obj(ms);
    proof {
        assert(members_view(ms@) =~= seq![
            ("runId"@, JsonVal::Str(run_id@)),
            ("to"@, JsonVal::Str(to@)),
            ("summary"@, JsonVal::Str(spec_truncate(message@, 50))),
            ("details"@, JsonVal::Str(message@)),
            ("source"@, JsonVal::Str(source@)),
        ]);
        lemma_obj_wf(r@);
    }
    r
}

/// Parameters for fetching conversation events past a cursor. These
/// keys travel in snake case; an absent cursor travels as null.
pub fn inbox_fetch_params(run_id: &str, since: Option<i64>) -> (r: JsonValue)
    ensures
        r@ == JsonVal::Obj(
            seq![
                ("run_id"@, JsonVal::Str(run_id@)),
                (
                    "since_sequence"@,
                    match since {
                        Some(n) => JsonVal::Num(int_lexeme(n as int)),
                        None => JsonVal::Null,
                    },
                ),
                ("limit"@, JsonVal::Num(int_lexeme(20))),
            ],
        ),
        wf_val(r@),
{
    let mut ms: Vec<JsonMember> = Vec::new();
    ms.push(str_member("run_id", run_id));
    match since {
        Some(n) => {
            ms.push(int_member("since_sequence", n));
        },
        None => {
            ms.push(opt_member("since_sequence", None));
        },
    }
    ms.push(int_member("limit", 20));
    let r = JsonValue::Obj(ms);
    proof {
        assert(members_view(ms@) =~= seq![
            ("run_id"@, JsonVal::Str(run_id@)),
            (
                "since_sequence"@,
                match since {
                    Some(n) => JsonVal::Num(int_lexeme(n as int)),
                    None => JsonVal::Null,
                },
            ),
            ("limit"@, JsonVal::Num(int_lexeme(20))),
        ]);
        lemma_obj_wf(r@);
    }
    r
}

/// Parameters for marking the current task complete.
pub fn complete_params(run_id: &str, source: &str, outcome: Option<&str>) -> (r: JsonValue)
    ensures
        r@ == JsonVal::Obj(
            seq![
                ("runId"@, JsonVal::Str(run_id@)),
                ("source"@, JsonVal::Str(source@)),
                (
                    "outcome"@,
                    JsonVal::Str(
                        match outcome {
                            Some(o) => o@,
                            None => "Completed"@,
                        },
                    ),
                ),
            ],
        ),
        wf_val(r@),
{
    let mut ms: Vec<JsonMember> = Vec::new();
    ms.push(str_member("runId", run_id));
    ms.push(str_member("source", source));
    match outcome {
        Some(o) => {
            ms.push(str_member("outcome", o));
        },
        None => {
            ms.push(str_member("outcome", "Completed"));
        },
    }
    let r = JsonValue::Obj(ms);
    proof {
        assert(members_view(ms@) =~= seq![
            ("runId"@, JsonVal::Str(run_id@)),
            ("source"@, JsonVal::Str(source@)),
            (
                "outcome"@,
                JsonVal::Str(
                    match outcome {
                        Some(o) => o@,
                        None => "Completed"@,
                    },
                ),
            ),
        ]);
        lemma_obj_wf(r@);
    }
    r
}

/// Parameters for reporting an impediment.
pub fn impediment_params(
    run_id: &str,
    source: &str,
    impediment_type: &str,
    description: &str,
    suggestion: Option<&str>,
) -> (r: JsonValue)
    ensures
        r@ == JsonVal::Obj(
            seq![
                ("runId"@, JsonVal::Str(run_id@)),
                ("source"@, JsonVal::Str(source@)),
                ("impedimentType"@, JsonVal::Str(impediment_type@)),
                ("description"@, JsonVal::Str(description@)),
                ("suggestion"@, opt_str_val(suggestion)),
            ],
        ),
        wf_val(r@),
{
    let mut ms: Vec<JsonMember> = Vec::new();
    ms.push(str_member("runId", run_id));
    ms.push(str_member("source", source));
    ms.push(str_member("impedimentType", impediment_type));
    ms.push(str_member("description", description));
    ms.push(opt_member("suggestion", suggestion));
    let r = JsonValue::Obj(ms);
    proof {
        assert(members_view(ms@) =~= seq![
            ("runId"@, JsonVal::Str(run_id@)),
            ("source"@, JsonVal::Str(source@)),
            ("impedimentType"@, JsonVal::Str(impediment_type@)),
            ("description"@, JsonVal::Str(description@)),
            ("suggestion"@, opt_str_val(suggestion)),
        ]);
        lemma_obj_wf(r@);
    }
    r
}

/// Parameters for clearing a run's impediments.
pub fn resolve_impediments_params(run_id: &str, source: &str, message: &str) -> (r: JsonValue)
    ensures
        r@ == JsonVal::Obj(
            seq![
                ("runId"@, JsonVal::Str(run_id@)),
                ("source"@, JsonVal::Str(source@)),
                ("message"@, JsonVal::Str(message@)),
            ],
        ),
        wf_val(r@),
{
    let mut ms: Vec<JsonMember> = Vec::new();
    ms.push(str_member("runId", run_id));
    ms.push(str_member("source", source));
    ms.push(str_member("message", message));
    let r = JsonValue::Obj(ms);
    proof {
        assert(members_view(ms@) =~= seq![
            ("runId"@, JsonVal::Str(run_id@)),
            ("source"@, JsonVal::Str(source@)),
            ("message"@, JsonVal::Str(message@)),
        ]);
        lemma_obj_wf(r@);
    }
    r
}

/// Parameters for the methods that name a run and nothing else: run
/// status, run deletion, artifact listing.
pub fn run_id_params(run_id: &str) -> (r: JsonValue)
    ensures
        r@ == JsonVal::Obj(seq![("runId"@, JsonVal::Str(run_id@))]),
        wf_val(r@),
{
    let mut ms: Vec<JsonMember> = Vec::new();
    ms.push(str_member("runId", run_id));
    let r = JsonValue::Obj(ms);
    proof {
        assert(members_view(ms@) =~= seq![("runId"@, JsonVal::Str(run_id@))]);
        lemma_obj_wf(r@);
    }
    r
}

/// Parameters for fetching the protocol text of a run and role.
pub fn protocol_params(run_id: &str, role: &str) -> (r: JsonValue)
    ensures
        r@ == JsonVal::Obj(
            seq![("runId"@, JsonVal::Str(run_id@)), ("role"@, JsonVal::Str(role@))],
        ),
        wf_val(r@),
{
    let mut ms: Vec<JsonMember> = Vec::new();
    ms.push(str_member("runId", run_id));
    ms.push(str_member("role", role));
    let r = JsonValue::Obj(ms);
    proof {
        assert(members_view(ms@) =~= seq![
            ("runId"@, JsonVal::Str(run_id@)),
            ("role"@, JsonVal::Str(role@)),
        ]);
        lemma_obj_wf(r@);
    }
    r
}

/// Parameters for the session state query. This key travels in snake
/// case.
pub fn session_state_params(zellij_session: &str) -> (r: JsonValue)
    ensures
        r@ == JsonVal::Obj(seq![("zellij_session"@, JsonVal::Str(zellij_session@))]),
        wf_val(r@),
{
    let mut ms: Vec<JsonMember> = Vec::new();
    ms.push(str_member("zellij_session", zellij_session));
    let r = JsonValue::Obj(ms);
    proof {
        assert(members_view(ms@) =~= seq![("zellij_session"@, JsonVal::Str(zellij_session@))]);
        lemma_obj_wf(r@);
    }
    r
}

/// Parameters for registering a terminal session.
pub fn register_session_params(session: &str, project: &str) -> (r: JsonValue)
    ensures
        r@ == JsonVal::Obj(
            seq![
                ("sessionName"@, JsonVal::Str(session@)),
                ("projectDir"@, JsonVal::Str(project@)),
            ],
        ),
        wf_val(r@),
{
    let mut ms: Vec<JsonMember> = Vec::new();
    ms.push(str_member("sessionName", session));
    ms.push(str_member("projectDir", project));
    let r = JsonValue::Obj(ms);
    proof {
        assert(members_view(ms@) =~= seq![
            ("sessionName"@, JsonVal::Str(session@)),
            ("projectDir"@, JsonVal::Str(project@)),
        ]);
        lemma_obj_wf(r@);
    }
    r
}

/// Parameters for removing a terminal session.
pub fn deregister_session_params(session: &str) -> (r: JsonValue)
    ensures
        r@ == JsonVal::Obj(seq![("sessionName"@, JsonVal::Str(session@))]),
        wf_val(r@),
{
    let mut ms: Vec<JsonMember> = Vec::new();
    ms.push(str_member("sessionName", session));
    let r = JsonValue::Obj(ms);
    proof {
        assert(members_view(ms@) =~= seq![("sessionName"@, JsonVal::Str(session@))]);
        lemma_obj_wf(r@);
    }
    r
}

/// Parameters for the artifact methods that name a run and a path:
/// syncing, and listing versions.
pub fn artifact_path_params(run_id: &str, path: &str) -> (r: JsonValue)
    ensures
        r@ == JsonVal::Obj(
            seq![("runId"@, JsonVal::Str(run_id@)), ("path"@, JsonVal::Str(path@))],
        ),
        wf_val(r@),
{
    let mut ms: Vec<JsonMember> = Vec::new();
    ms.push(str_member("runId", run_id));
    ms.push(str_member("path", path));
    let r = JsonValue::Obj(ms);
    proof {
        assert(members_view(ms@) =~= seq![
            ("runId"@, JsonVal::Str(run_id@)),
            ("path"@, JsonVal::Str(path@)),
        ]);
        lemma_obj_wf(r@);
    }
    r
}

/// Parameters for moving an artifact.
pub fn artifact_move_params(run_id: &str, old_path: &str, new_path: &str, refs_only: bool) -> (r:
    JsonValue)
    ensures
        r@ == JsonVal::Obj(
            seq![
                ("runId"@, JsonVal::Str(run_id@)),
                ("oldPath"@, JsonVal::Str(old_path@)),
                ("newPath"@, JsonVal::Str(new_path@)),
                ("refsOnly"@, JsonVal::Bool(refs_only)),
            ],
        ),
        wf_val(r@),
{
    let mut ms: Vec<JsonMember> = Vec::new();
    ms.push(str_member("runId", run_id));
    ms.push(str_member("oldPath", old_path));
    ms.push(str_member("newPath", new_path));
    ms.push(bool_member("refsOnly", refs_only));
    let r = JsonValue::Obj(ms);
    proof {
        assert(members_view(ms@) =~= seq![
            ("runId"@, JsonVal::Str(run_id@)),
            ("oldPath"@, JsonVal::Str(old_path@)),
            ("newPath"@, JsonVal::Str(new_path@)),
            ("refsOnly"@, JsonVal::Bool(refs_only)),
        ]);
        lemma_obj_wf(r@);
    }
    r
}

/// Parameters for anchoring a comment to text in an artifact.
pub fn artifact_comment_params(
    run_id: &str,
    path: &str,
    target_text: &str,
    comment: &str,
    author: &str,
) -> (r: JsonValue)
    ensures
        r@ == JsonVal::Obj(
            seq![
                ("runId"@, JsonVal::Str(run_id@)),
                ("path"@, JsonVal::Str(path@)),
                ("targetText"@, JsonVal::Str(target_text@)),
                ("comment"@, JsonVal::Str(comment@)),
                ("author"@, JsonVal::Str(author@)),
            ],
        ),
        wf_val(r@),
{
    let mut ms: Vec<JsonMember> = Vec::new();
    ms.push(str_member("runId", run_id));
    ms.push(str_member("path", path));
    ms.push(str_member("targetText", target_text));
    ms.push(str_member("comment", comment));
    ms.push(str_member("author", author));
    let r = JsonValue::Obj(ms);
    proof {
        assert(members_view(ms@) =~= seq![
            ("runId"@, JsonVal::Str(run_id@)),
            ("path"@, JsonVal::Str(path@)),
            ("targetText"@, JsonVal::Str(target_text@)),
            ("comment"@, JsonVal::Str(comment@)),
            ("author"@, JsonVal::Str(author@)),
        ]);
        lemma_obj_wf(r@);
    }
    r
}

/// Parameters for listing an artifact's comments under a status filter.
pub fn artifact_list_comments_params(run_id: &str, path: &str, status_filter: &str) -> (r:
    JsonValue)
    ensures
        r@ == JsonVal::Obj(
            seq![
                ("runId"@, JsonVal::Str(run_id@)),
                ("path"@, JsonVal::Str(path@)),
                ("statusFilter"@, JsonVal::Str(status_filter@)),
            ],
        ),
        wf_val(r@),
{
    let mut ms: Vec<JsonMember> = Vec::new();
    ms.push(str_member("runId", run_id));
    ms.push(str_member("path", path));
    ms.push(str_member("statusFilter", status_filter));
    let r = JsonValue::Obj(ms);
    proof {
        assert(members_view(ms@) =~= seq![
            ("runId"@, JsonVal::Str(run_id@)),
            ("path"@, JsonVal::Str(path@)),
            ("statusFilter"@, JsonVal::Str(status_filter@)),
        ]);
        lemma_obj_wf(r@);
    }
    r
}

/// Parameters for resolving one comment.
pub fn artifact_resolve_params(run_id: &str, comment_id: &str, resolved_by: &str) -> (r:
    JsonValue)
    ensures
        r@ == JsonVal::Obj(
            seq![
                ("runId"@, JsonVal::Str(run_id@)),
                ("commentId"@, JsonVal::Str(comment_id@)),
                ("resolvedBy"@, JsonVal::Str(resolved_by@)),
            ],
        ),
        wf_val(r@),
{
    let mut ms: Vec<JsonMember> = Vec::new();
    ms.push(str_member("runId", run_id));
    ms.push(str_member("commentId", comment_id));
    ms.push(str_member("resolvedBy", resolved_by));
    let r = JsonValue::Obj(ms);
    proof {
        assert(members_view(ms@) =~= seq![
            ("runId"@, JsonVal::Str(run_id@)),
            ("commentId"@, JsonVal::Str(comment_id@)),
            ("resolvedBy"@, JsonVal::Str(resolved_by@)),
        ]);
        lemma_obj_wf(r@);
    }
    r
}

/// Parameters for fetching one version of an artifact.
pub fn artifact_version_params(run_id: &str, path: &str, version: u32) -> (r: JsonValue)
    ensures
        r@ == JsonVal::Obj(
            seq![
                ("runId"@, JsonVal::Str(run_id@)),
                ("path"@, JsonVal::Str(path@)),
                ("version"@, JsonVal::Num(int_lexeme(version as int))),
            ],
        ),
        wf_val(r@),
{
    let mut ms: Vec<JsonMember> = Vec::new();
    ms.push(str_member("runId", run_id));
    ms.push(str_member("path", path));
    ms.push(int_member("version", version as i64));
    let r = JsonValue::Obj(ms);
    proof {
        assert(members_view(ms@) =~= seq![
            ("runId"@, JsonVal::Str(run_id@)),
            ("path"@, JsonVal::Str(path@)),
            ("version"@, JsonVal::Num(int_lexeme(version as int))),
        ]);
        lemma_obj_wf(r@);
    }
    r
}

/// Parameters for a best-effort lifecycle notification. The payload is
/// whatever the hook handed in, passed through unread.
pub fn hook_event_params(
    event_name: &str,
    zellij_session: Option<&str>,
    project_dir: Option<&str>,
    payload: JsonValue,
) -> (r: JsonValue)
    requires
        wf_val(payload@),
    ensures
        r@ == JsonVal::Obj(
            seq![
                ("eventName"@, JsonVal::Str(event_name@)),
                ("zellijSession"@, opt_str_val(zellij_session)),
                ("projectDir"@, opt_str_val(project_dir)),
                ("payload"@, payload@),
            ],
        ),
        wf_val(r@),
{
    let ghost pv = payload@;
    let mut ms: Vec<JsonMember> = Vec::new();
    ms.push(str_member("eventName", event_name));
    ms.push(opt_member("zellijSession", zellij_session));
    ms.push(opt_member("projectDir", project_dir));
    ms.push(JsonMember { name: String::from_str("payload"), value: payload });
    let r = JsonValue::Obj(ms);
    proof {
        assert(members_view(ms@) =~= seq![
            ("eventName"@, JsonVal::Str(event_name@)),
            ("zellijSession"@, opt_str_val(zellij_session)),
            ("projectDir"@, opt_str_val(project_dir)),
            ("payload"@, pv),
        ]);
        lemma_obj_wf(r@);
    }
    r
}

} // verus!
