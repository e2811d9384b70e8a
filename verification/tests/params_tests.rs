use hotwired_cli::json::JsonValue;
use hotwired_cli::params::{
    artifact_comment_params, artifact_list_comments_params, artifact_move_params,
    artifact_path_params, artifact_resolve_params, artifact_version_params, complete_params,
    hook_event_params, hotwire_params, impediment_params, inbox_fetch_params, pair_params,
    register_session_params, run_id_params, send_params, session_state_params,
};

fn assert_has_camel_case_key(json: &JsonValue, key: &str) {
    assert!(json.get(key).is_some(), "JSON missing expected camelCase key '{}'", key);
}

fn assert_no_snake_case_key(json: &JsonValue, key: &str) {
    assert!(json.get(key).is_none(), "JSON has unexpected snake_case key '{}'", key);
}

fn str_of(v: &JsonValue, key: &str) -> String {
    v.get(key).unwrap().as_str().unwrap().clone()
}

#[test]
fn test_hotwire_params_are_camel_case() {
    let params = hotwire_params(
        Some("test-session"),
        Some("/path/to/project"),
        Some("plan-build"),
        Some("test intent"),
    );
    assert_has_camel_case_key(&params, "zellijSession");
    assert_has_camel_case_key(&params, "projectPath");
    assert_has_camel_case_key(&params, "suggestedPlaybook");
    assert_no_snake_case_key(&params, "zellij_session");
    assert_no_snake_case_key(&params, "project_path");
    assert_no_snake_case_key(&params, "suggested_playbook");
    assert_eq!(str_of(&params, "intent"), "test intent");
}

#[test]
fn test_pair_params_are_camel_case() {
    let params = pair_params(
        Some("test-session"),
        Some("/path/to/project"),
        "abc123",
        Some("worker-1"),
    );
    assert_has_camel_case_key(&params, "zellijSession");
    assert_has_camel_case_key(&params, "projectPath");
    assert_has_camel_case_key(&params, "runId");
    assert_has_camel_case_key(&params, "roleId");
    assert_no_snake_case_key(&params, "zellij_session");
    assert_no_snake_case_key(&params, "project_path");
    assert_no_snake_case_key(&params, "run_id");
    assert_no_snake_case_key(&params, "role_id");
    assert_eq!(str_of(&params, "runId"), "abc123");
    assert_eq!(str_of(&params, "roleId"), "worker-1");
}

#[test]
fn test_complete_params_are_camel_case() {
    let params = complete_params("abc123", "strategist", Some("Completed"));
    assert_has_camel_case_key(&params, "runId");
    assert_no_snake_case_key(&params, "run_id");
    assert_eq!(str_of(&params, "outcome"), "Completed");
    assert_eq!(str_of(&params, "source"), "strategist");
    let defaulted = complete_params("abc123", "strategist", None);
    assert_eq!(str_of(&defaulted, "outcome"), "Completed");
}

#[test]
fn test_impediment_params_are_camel_case() {
    let params = impediment_params(
        "abc123",
        "strategist",
        "technical",
        "Cannot connect to database",
        Some("Check credentials"),
    );
    assert_has_camel_case_key(&params, "runId");
    assert_has_camel_case_key(&params, "impedimentType");
    assert_no_snake_case_key(&params, "run_id");
    assert_no_snake_case_key(&params, "impediment_type");
    assert_no_snake_case_key(&params, "type");
    assert_eq!(str_of(&params, "description"), "Cannot connect to database");
    assert_eq!(str_of(&params, "suggestion"), "Check credentials");
}

#[test]
fn test_send_params_are_camel_case() {
    let params = send_params("abc123", "implementer", "Please implement X", "strategist");
    assert_has_camel_case_key(&params, "runId");
    assert_no_snake_case_key(&params, "run_id");
    assert_eq!(str_of(&params, "summary"), "Please implement X");
    assert_eq!(str_of(&params, "details"), "Please implement X");
    assert_eq!(str_of(&params, "to"), "implementer");
    assert_eq!(str_of(&params, "source"), "strategist");
}

#[test]
fn test_inbox_params_snake_case_fetch() {
    let params = inbox_fetch_params("abc123", Some(10));
    assert_eq!(str_of(&params, "run_id"), "abc123");
    assert_eq!(params.get("since_sequence").unwrap().as_int(), Some(10));
    assert_eq!(params.get("limit").unwrap().as_int(), Some(20));
    let open_ended = inbox_fetch_params("abc123", None);
    assert!(matches!(open_ended.get("since_sequence"), Some(JsonValue::Null)));
}

#[test]
fn test_status_params_are_camel_case() {
    let params = run_id_params("abc123");
    assert_has_camel_case_key(&params, "runId");
    assert_no_snake_case_key(&params, "run_id");
    assert_eq!(str_of(&params, "runId"), "abc123");
}

#[test]
fn test_artifact_params_are_camel_case() {
    let list_params = run_id_params("abc123");
    assert_has_camel_case_key(&list_params, "runId");
    assert_no_snake_case_key(&list_params, "run_id");

    let move_params = artifact_move_params("abc123", "docs/old.md", "docs/new.md", false);
    assert_has_camel_case_key(&move_params, "oldPath");
    assert_has_camel_case_key(&move_params, "newPath");
    assert_has_camel_case_key(&move_params, "refsOnly");
    assert_no_snake_case_key(&move_params, "old_path");
    assert_no_snake_case_key(&move_params, "new_path");
    assert_no_snake_case_key(&move_params, "refs_only");
    assert_eq!(move_params.get("refsOnly").unwrap().as_bool(), Some(false));

    let comment_params = artifact_comment_params(
        "abc123",
        "docs/notes.md",
        "some text",
        "This needs clarification",
        "strategist",
    );
    assert_has_camel_case_key(&comment_params, "targetText");
    assert_no_snake_case_key(&comment_params, "target_text");

    let list_comments_params = artifact_list_comments_params("abc123", "docs/notes.md", "open");
    assert_has_camel_case_key(&list_comments_params, "statusFilter");
    assert_no_snake_case_key(&list_comments_params, "status_filter");

    let resolve_params = artifact_resolve_params("abc123", "comment-456", "strategist");
    assert_has_camel_case_key(&resolve_params, "commentId");
    assert_has_camel_case_key(&resolve_params, "resolvedBy");
    assert_no_snake_case_key(&resolve_params, "comment_id");
    assert_no_snake_case_key(&resolve_params, "resolved_by");

    let version_params = artifact_version_params("abc123", "docs/notes.md", 2);
    assert_eq!(version_params.get("version").unwrap().as_int(), Some(2));
    let sync_params = artifact_path_params("abc123", "docs/notes.md");
    assert_eq!(str_of(&sync_params, "path"), "docs/notes.md");
}

#[test]
fn test_session_params_are_camel_case() {
    let register_params = register_session_params("term-main", "/path/to/project");
    assert_has_camel_case_key(&register_params, "sessionName");
    assert_has_camel_case_key(&register_params, "projectDir");
    assert_no_snake_case_key(&register_params, "session_name");
    assert_no_snake_case_key(&register_params, "project_dir");
}

#[test]
fn test_validate_params_are_snake_case_query() {
    let params = session_state_params("test-session");
    assert_eq!(str_of(&params, "zellij_session"), "test-session");
    assert!(params.get("zellijSession").is_none());
}

#[test]
fn test_send_params_truncate_long_summary() {
    let long = "This is a very long message that should be truncated for the summary field";
    let params = send_params("abc123", "human", long, "builder");
    let summary = str_of(&params, "summary");
    assert!(summary.len() <= 50);
    assert!(summary.ends_with("..."));
    assert_eq!(str_of(&params, "details"), long);
}

#[test]
fn test_hook_event_params_pass_payload_through() {
    let payload = hotwired_cli::json::JsonValue::Obj(Vec::new());
    let params = hook_event_params("session_start", Some("term-1"), Some("/proj"), payload);
    assert_eq!(str_of(&params, "eventName"), "session_start");
    assert_eq!(str_of(&params, "zellijSession"), "term-1");
    assert_eq!(str_of(&params, "projectDir"), "/proj");
    assert!(params.get("payload").is_some());
    let detached = hook_event_params(
        "session_end",
        None,
        None,
        hotwired_cli::json::JsonValue::Obj(Vec::new()),
    );
    assert!(matches!(detached.get("zellijSession"), Some(JsonValue::Null)));
}
