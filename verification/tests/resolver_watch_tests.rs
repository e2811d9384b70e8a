use hotwired_cli::codec::decode_response;
use hotwired_cli::resolver::{ResolveError, needs_candidate_list, resolve};
use hotwired_cli::watch::{WatchState, advance_cursor, extract_events};

fn ids(list: &[&str]) -> Vec<String> {
    list.iter().map(|s| s.to_string()).collect()
}

#[test]
fn test_resolve_unique_prefix() {
    let runs = ids(&["a1b2c3d4-full-id", "ffff-other-id"]);
    assert_eq!(resolve("a1b2", &runs).unwrap(), "a1b2c3d4-full-id");
}

#[test]
fn test_resolve_no_match() {
    let runs = ids(&["a1b2c3d4-full-id", "ffff-other-id"]);
    assert!(matches!(resolve("zzz", &runs), Err(ResolveError::NoMatch)));
    assert!(matches!(resolve("x", &ids(&[])), Err(ResolveError::NoMatch)));
}

#[test]
fn test_resolve_ambiguous_never_picks_first() {
    let runs = ids(&["abc-one", "abc-two", "d-three"]);
    assert!(matches!(resolve("abc", &runs), Err(ResolveError::Ambiguous)));
}

#[test]
fn test_resolve_full_length_passes_through() {
    // 32 characters or more: already canonical, returned unchanged,
    // and no candidate list is needed at all.
    let full = "0123456789abcdef0123456789abcdef";
    assert!(!needs_candidate_list(full));
    assert_eq!(resolve(full, &ids(&[])).unwrap(), full);
    // Even a list that does not hold it changes nothing.
    assert_eq!(resolve(full, &ids(&["something-else"])).unwrap(), full);
    assert!(needs_candidate_list("0123456789abcdef0123456789abcde"));
}

#[test]
fn test_resolve_exact_short_id_among_longer() {
    let runs = ids(&["abc", "abcd"]);
    assert!(matches!(resolve("abc", &runs), Err(ResolveError::Ambiguous)));
    assert_eq!(resolve("abcd", &runs).unwrap(), "abcd");
}

#[test]
fn test_advance_cursor_monotonic() {
    assert_eq!(advance_cursor(5, 9), 9);
    assert_eq!(advance_cursor(5, 5), 5);
    assert_eq!(advance_cursor(5, 2), 5);
}

fn poll_reply(line: &str) -> Result<hotwired_cli::codec::SocketResponse, hotwired_cli::ipc::IpcError> {
    Ok(decode_response(line).expect("fixture decodes"))
}

#[test]
fn test_watch_cursor_never_regresses() {
    // Batches showing sequence numbers [3,1,2], [5], [4]: the cursor
    // reads 3, then 5, then still 5.
    let mut watch = WatchState::new("run-1".to_string(), None);
    assert_eq!(watch.cursor, 0);

    let batch1 = poll_reply(
        r#"{"success":true,"data":{"events":[{"sequence":3},{"sequence":1},{"sequence":2}]}}"#,
    );
    let events = watch.on_poll(batch1).expect("batch delivered");
    assert_eq!(events.len(), 3);
    assert_eq!(watch.cursor, 3);

    let batch2 = poll_reply(r#"{"success":true,"data":{"events":[{"sequence":5}]}}"#);
    watch.on_poll(batch2).expect("batch delivered");
    assert_eq!(watch.cursor, 5);

    let batch3 = poll_reply(r#"{"success":true,"data":{"events":[{"sequence":4}]}}"#);
    let stale = watch.on_poll(batch3).expect("batch delivered");
    assert_eq!(stale.len(), 1);
    assert_eq!(watch.cursor, 5);
}

#[test]
fn test_watch_survives_transport_error_mid_stream() {
    // An error on the second iteration reports, moves nothing, and the
    // third iteration proceeds as if nothing happened.
    let mut watch = WatchState::new("run-1".to_string(), Some(10));
    let first = poll_reply(r#"{"success":true,"data":{"events":[{"sequence":11}]}}"#);
    watch.on_poll(first).expect("first batch");
    assert_eq!(watch.cursor, 11);

    let outage = Err(hotwired_cli::ipc::IpcError::ConnectionFailed("reset".to_string()));
    let told = watch.on_poll(outage).expect_err("error reported, not swallowed");
    assert_eq!(told, "Connection failed: reset");
    assert_eq!(watch.cursor, 11);

    let third = poll_reply(r#"{"success":true,"data":{"events":[{"sequence":12}]}}"#);
    watch.on_poll(third).expect("third batch");
    assert_eq!(watch.cursor, 12);
}

#[test]
fn test_extract_events_reads_sequences() {
    let ok = extract_events(poll_reply(
        r#"{"success":true,"data":{"events":[{"sequence":7,"content":"hi"},{"note":"none"}]}}"#,
    ))
    .expect("extracts");
    assert_eq!(ok.0.len(), 2);
    assert_eq!(ok.1, 7);

    let empty = extract_events(poll_reply(r#"{"success":true}"#)).expect("extracts");
    assert_eq!(empty.0.len(), 0);
    assert_eq!(empty.1, 0);

    let failed = extract_events(poll_reply(r#"{"success":false,"error":"no such run"}"#));
    assert_eq!(failed.expect_err("backend failure surfaces"), "no such run");

    let anonymous = extract_events(poll_reply(r#"{"success":false}"#));
    assert_eq!(anonymous.expect_err("fallback text"), "unknown error");
}
