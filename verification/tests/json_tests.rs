use hotwired_cli::codec::decode_response;
use hotwired_cli::json::{JsonMember, JsonValue};

#[test]
fn test_int_rendering_round_trip_at_the_edges() {
    for n in [0i64, 1, -1, 42, i64::MAX, i64::MIN] {
        let v = JsonValue::of_int(n);
        assert_eq!(v.as_int(), Some(n));
        let line = format!("{{\"success\":true,\"data\":{{\"n\":{}}}}}", v.render());
        let resp = decode_response(&line).expect("decodes");
        assert_eq!(resp.data.unwrap().get("n").unwrap().as_int(), Some(n));
    }
    assert_eq!(JsonValue::of_int(-12345).render(), "-12345");
    assert_eq!(JsonValue::of_int(i64::MIN).render(), "-9223372036854775808");
}

#[test]
fn test_as_int_is_exact() {
    // Fractions, exponents and out-of-range values read as no integer.
    let lex = |s: &str| JsonValue::Num(s.to_string()).as_int();
    assert_eq!(lex("12"), Some(12));
    assert_eq!(lex("-0"), Some(0));
    assert_eq!(lex("1.5"), None);
    assert_eq!(lex("1e3"), None);
    assert_eq!(lex("007"), None);
    assert_eq!(lex("9223372036854775807"), Some(i64::MAX));
    assert_eq!(lex("9223372036854775808"), None);
    assert_eq!(lex("-9223372036854775808"), Some(i64::MIN));
    assert_eq!(lex("-9223372036854775809"), None);
    assert_eq!(lex("99999999999999999999999"), None);
}

#[test]
fn test_parser_handles_nesting_and_number_lexemes() {
    let line = r#"{"success":true,"data":{"runs":[{"id":"a","score":1.25e2},{"id":"b"}],"empty":[],"none":null,"flag":false}}"#;
    let resp = decode_response(line).expect("decodes");
    let data = resp.data.unwrap();
    let runs = data.get("runs").unwrap().as_array().unwrap();
    assert_eq!(runs.len(), 2);
    assert_eq!(runs[0].get("id").unwrap().as_str().unwrap(), "a");
    // A fractional number survives as its lexeme even though it is no
    // machine integer.
    match runs[0].get("score").unwrap() {
        JsonValue::Num(lexeme) => assert_eq!(lexeme, "1.25e2"),
        _ => panic!("expected the number's lexeme"),
    }
    assert_eq!(runs[0].get("score").unwrap().as_int(), None);
    assert_eq!(data.get("empty").unwrap().as_array().unwrap().len(), 0);
    assert!(matches!(data.get("none"), Some(JsonValue::Null)));
    assert_eq!(data.get("flag").unwrap().as_bool(), Some(false));
}

#[test]
fn test_parser_reads_unicode_escapes() {
    let resp = decode_response("{\"success\":false,\"error\":\"\\u0041\\u00e9!\"}").unwrap();
    assert_eq!(resp.error.as_deref(), Some("Aé!"));
    // A lone surrogate is no character.
    assert!(decode_response("{\"success\":false,\"error\":\"\\ud800\"}").is_none());
}

#[test]
fn test_duplicate_keys_first_occurrence_wins() {
    let mut ms: Vec<JsonMember> = Vec::new();
    ms.push(JsonMember { name: "k".to_string(), value: JsonValue::of_int(1) });
    ms.push(JsonMember { name: "k".to_string(), value: JsonValue::of_int(2) });
    let v = JsonValue::Obj(ms);
    assert_eq!(v.get("k").unwrap().as_int(), Some(1));
}

#[test]
fn test_render_writes_control_escapes() {
    let v = JsonValue::Str("a\u{1}b".to_string());
    assert_eq!(v.render(), "\"a\\u0001b\"");
    let tab = JsonValue::Str("a\tb".to_string());
    assert_eq!(tab.render(), "\"a\\u0009b\"");
}

#[test]
fn test_deep_copy_is_exact() {
    let line = r#"{"success":true,"data":{"a":[1,{"b":"c"}]}}"#;
    let resp = decode_response(line).unwrap();
    let data = resp.data.unwrap();
    let copy = data.deep_copy();
    assert_eq!(copy.render(), data.render());
}

#[test]
fn test_parser_tolerates_whitespace_between_tokens() {
    let line = "  { \"success\" : true ,\n  \"data\" : { \"events\" : [ 1 , 2 ] } }\n";
    let resp = decode_response(line).expect("decodes");
    assert!(resp.success);
    let items_holder = resp.data.unwrap();
    let items = items_holder.get("events").unwrap().as_array().unwrap();
    assert_eq!(items.len(), 2);
    assert_eq!(items[1].as_int(), Some(2));
}
