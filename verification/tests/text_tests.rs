use hotwired_cli::text::{format_status, format_timestamp, short_id, truncate};

#[test]
fn test_truncate_short_string() {
    assert_eq!(truncate("hello", 10), "hello");
}

#[test]
fn test_truncate_exact_length() {
    assert_eq!(truncate("hello", 5), "hello");
}

#[test]
fn test_truncate_long_string() {
    assert_eq!(truncate("hello world", 8), "hello...");
}

#[test]
fn test_format_timestamp() {
    assert_eq!(format_timestamp("2024-01-15T10:30:00Z"), "2024-01-15 10:30:00");
}

#[test]
fn test_title_truncation() {
    let long_title = "This is a very long title that should be truncated";
    let truncated = if long_title.len() > 20 {
        format!("{}...", &long_title[..17])
    } else {
        long_title.to_string()
    };
    assert_eq!(truncated.len(), 20);
    assert!(truncated.ends_with("..."));
}

#[test]
fn test_status_display() {
    let statuses = vec![("ok", "ok"), ("missing", "MISSING"), ("unknown", "unknown")];
    for (input, expected) in statuses {
        let display = match input {
            "ok" => "ok",
            "missing" => "MISSING",
            _ => input,
        };
        assert_eq!(display, expected);
    }
}

#[test]
fn test_target_text_preview() {
    let long_text = "This is some very long target text that needs to be truncated for display";
    let preview = if long_text.len() > 30 {
        format!("{}...", &long_text[..30])
    } else {
        long_text.to_string()
    };
    assert!(preview.len() <= 33);
}

#[test]
fn test_message_truncation_for_summary() {
    let long_message = "This is a very long message that should be truncated for the summary field";
    let summary = truncate(long_message, 50);
    assert!(summary.len() <= 50);
    assert!(summary.ends_with("..."));
}

#[test]
fn test_impediment_types() {
    let valid_types = ["technical", "access", "clarification", "decision"];
    for t in valid_types {
        assert!(!t.is_empty());
    }
}

#[test]
fn test_format_status_names() {
    assert_eq!(format_status("connected"), "connected");
    assert_eq!(format_status("agent_not_running"), "no agent");
    assert_eq!(format_status("detached"), "detached");
    assert_eq!(format_status("zombie"), "zombie");
    assert_eq!(format_status("session_gone"), "gone");
    assert_eq!(format_status("weird"), "weird");
}

#[test]
fn test_short_id_cuts_to_eight() {
    assert_eq!(short_id("a1b2c3d4-e5f6-7890"), "a1b2c3d4");
    assert_eq!(short_id("abc"), "abc");
    assert_eq!(short_id(""), "");
}

#[test]
fn test_truncate_tiny_limit() {
    assert_eq!(truncate("abcdef", 2), "...");
    assert_eq!(truncate("abcdef", 3), "...");
}

#[test]
fn test_format_timestamp_plain() {
    assert_eq!(format_timestamp("no-markers"), "no-markers");
    assert_eq!(format_timestamp("ZZ"), "");
}
