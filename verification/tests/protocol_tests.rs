use hotwired_cli::codec::{SocketRequest, decode_response, encode_request};
use hotwired_cli::ipc::{HotwiredClient, IpcError, SendAction, SendEvent, SendState};
use hotwired_cli::json::{JsonMember, JsonValue};
use hotwired_cli::params::{empty_params, run_id_params};

fn obj(members: Vec<(&str, JsonValue)>) -> JsonValue {
    let mut ms: Vec<JsonMember> = Vec::new();
    for (name, value) in members {
        ms.push(JsonMember { name: name.to_string(), value });
    }
    JsonValue::Obj(ms)
}

#[test]
fn test_encode_request_minimal() {
    let req = SocketRequest {
        id: None,
        method: "ping".to_string(),
        params: empty_params(),
        token: None,
    };
    assert_eq!(encode_request(&req), r#"{"method":"ping","params":{}}"#);
}

#[test]
fn test_encode_request_with_token_and_params() {
    let req = SocketRequest {
        id: Some("7".to_string()),
        method: "get_run_status".to_string(),
        params: run_id_params("abc123"),
        token: Some("SECRET-REDACTED".to_string()),
    };
    assert_eq!(
        encode_request(&req),
        r#"{"id":"7","method":"get_run_status","params":{"runId":"abc123"},"token":"SECRET-REDACTED"}"#
    );
}

#[test]
fn test_encode_escapes_strings() {
    let req = SocketRequest {
        id: None,
        method: "handoff".to_string(),
        params: obj(vec![("details", JsonValue::Str("line one\nsaid \"hi\" \\ done".to_string()))]),
        token: None,
    };
    assert_eq!(
        encode_request(&req),
        "{\"method\":\"handoff\",\"params\":{\"details\":\"line one\\u000asaid \\\"hi\\\" \\\\ done\"}}"
    );
}

#[test]
fn test_decode_response_round_trip() {
    let line = r#"{"success":true,"data":{"version":"0.1.0","count":42}}"#;
    let resp = decode_response(line).expect("decodes");
    assert!(resp.success);
    assert!(resp.error.is_none());
    let data = resp.data.expect("payload present");
    assert_eq!(data.get("version").unwrap().as_str().unwrap(), "0.1.0");
    assert_eq!(data.get("count").unwrap().as_int(), Some(42));
}

#[test]
fn test_decode_success_without_error_key_is_not_failure() {
    let resp = decode_response("{\"success\":true}\n").expect("decodes");
    assert!(resp.success);
    assert!(resp.error.is_none());
    assert!(resp.data.is_none());
}

#[test]
fn test_decode_failure_keeps_error_text() {
    let resp = decode_response(r#"{"success":false,"error":"run not found"}"#).expect("decodes");
    assert!(!resp.success);
    assert_eq!(resp.error.as_deref(), Some("run not found"));
}

#[test]
fn test_decode_rejects_garbage() {
    assert!(decode_response("").is_none());
    assert!(decode_response("not json").is_none());
    assert!(decode_response("[1,2,3]").is_none());
    assert!(decode_response(r#"{"success":"yes"}"#).is_none());
    assert!(decode_response(r#"{"success":true} trailing"#).is_none());
}

#[test]
fn test_encode_then_decode_preserves_fields() {
    // A response-shaped object rendered by the library's own writer
    // must decode to the same success/data/error fields.
    let wire = obj(vec![
        ("success", JsonValue::Bool(true)),
        ("data", obj(vec![("events", JsonValue::Arr(vec![JsonValue::of_int(3)]))])),
    ]);
    let line = wire.render();
    let resp = decode_response(&line).expect("round trip decodes");
    assert!(resp.success);
    assert!(resp.error.is_none());
    let events = resp.data.unwrap();
    let items = events.get("events").unwrap().as_array().unwrap();
    assert_eq!(items.len(), 1);
    assert_eq!(items[0].as_int(), Some(3));
}

#[test]
fn test_decode_unescapes_strings() {
    let resp = decode_response(
        "{\"success\":false,\"error\":\"bad \\\"quote\\\" and \\u000a newline\"}",
    )
    .expect("decodes");
    assert_eq!(resp.error.as_deref(), Some("bad \"quote\" and \n newline"));
}

#[test]
fn test_send_fails_not_connected_without_any_connection_attempt() {
    let client = HotwiredClient::new(Some("/nowhere/backend.sock".to_string()), None);
    let req = client.make_request("get_run_status", run_id_params("abc123"));
    let mut exchange = client.begin_send(&req);
    // First and only action: a filesystem probe, not a connection.
    assert!(matches!(exchange.action(), SendAction::ProbeEndpoint));
    exchange.step(SendEvent::EndpointProbed(false));
    // The exchange is over; no state ever asked for a connection.
    assert!(matches!(exchange.action(), SendAction::Stop));
    match exchange.state {
        SendState::Finished(Err(IpcError::NotConnected(path))) => {
            assert_eq!(path, "/nowhere/backend.sock");
        },
        _ => panic!("expected a not-connected failure"),
    }
}

#[test]
fn test_send_exchange_full_happy_path() {
    let client = HotwiredClient::new(Some("/tmp/x.sock".to_string()), Some("  tok  \n".to_string()));
    let req = client.make_request("ping", empty_params());
    assert_eq!(encode_request(&req), r#"{"method":"ping","params":{},"token":"tok"}"#);
    let mut exchange = client.begin_send(&req);
    exchange.step(SendEvent::EndpointProbed(true));
    assert!(matches!(exchange.action(), SendAction::OpenConnection));
    exchange.step(SendEvent::ConnectionOpened(Ok(())));
    assert!(matches!(exchange.action(), SendAction::WriteLine));
    exchange.step(SendEvent::LineWritten(Ok(())));
    assert!(matches!(exchange.action(), SendAction::ReadLine));
    exchange.step(SendEvent::LineRead(Ok("{\"success\":true}\n".to_string())));
    match exchange.state {
        SendState::Finished(Ok(resp)) => assert!(resp.success),
        _ => panic!("expected a decoded success"),
    }
}

#[test]
fn test_send_exchange_error_kinds() {
    let client = HotwiredClient::new(Some("/tmp/x.sock".to_string()), None);
    let req = client.make_request("ping", empty_params());

    let mut refused = client.begin_send(&req);
    refused.step(SendEvent::EndpointProbed(true));
    refused.step(SendEvent::ConnectionOpened(Err("refused".to_string())));
    assert!(matches!(
        refused.state,
        SendState::Finished(Err(IpcError::ConnectionFailed(_)))
    ));

    let mut broken = client.begin_send(&req);
    broken.step(SendEvent::EndpointProbed(true));
    broken.step(SendEvent::ConnectionOpened(Ok(())));
    broken.step(SendEvent::LineWritten(Err("pipe closed".to_string())));
    assert!(matches!(broken.state, SendState::Finished(Err(IpcError::RequestFailed(_)))));

    let mut noise = client.begin_send(&req);
    noise.step(SendEvent::EndpointProbed(true));
    noise.step(SendEvent::ConnectionOpened(Ok(())));
    noise.step(SendEvent::LineWritten(Ok(())));
    noise.step(SendEvent::LineRead(Ok("###".to_string())));
    match noise.state {
        SendState::Finished(Err(IpcError::InvalidResponse(line))) => assert_eq!(line, "###"),
        _ => panic!("expected an invalid-response failure"),
    }
}

#[test]
fn test_ipc_error_messages() {
    assert_eq!(
        IpcError::NotConnected("/a/b.sock".to_string()).message(),
        "Hotwired backend is not running (socket not found at /a/b.sock)"
    );
    assert_eq!(IpcError::ConnectionFailed("boom".to_string()).message(), "Connection failed: boom");
    assert_eq!(IpcError::RequestFailed("boom".to_string()).message(), "Request failed: boom");
    assert_eq!(IpcError::InvalidResponse("###".to_string()).message(), "Invalid response: ###");
}

#[test]
fn test_client_auth_token_trimming() {
    let none = HotwiredClient::new(Some("/s".to_string()), None);
    let req = none.make_request("ping", empty_params());
    assert!(req.token.is_none());

    let empty = HotwiredClient::new(Some("/s".to_string()), Some("   \n".to_string()));
    assert!(empty.make_request("ping", empty_params()).token.is_none());

    let real = HotwiredClient::new(Some("/s".to_string()), Some("\ttok-1\n".to_string()));
    assert_eq!(real.make_request("ping", empty_params()).token.as_deref(), Some("tok-1"));
}

#[test]
fn test_client_socket_path_default_and_override() {
    let given = HotwiredClient::new(Some("/custom/path.sock".to_string()), None);
    assert_eq!(given.socket_path(), "/custom/path.sock");
    let defaulted = HotwiredClient::new(None, None);
    assert!(defaulted.socket_path().ends_with("/.hotwired/hotwired.sock"));
}
