use chat_relay::wire::parse_chat_message;
use chat_relay::wire::render_broadcast;

#[test]
fn parses_plain_message() {
    let m = parse_chat_message("{\"session_id\":\"tok-A\",\"content\":\"hi\"}").unwrap();
    assert_eq!(m.session_id, "tok-A");
    assert_eq!(m.content, "hi");
}

#[test]
fn parses_fields_in_either_order() {
    let m = parse_chat_message("{\"content\":\"hi\",\"session_id\":\"tok-A\"}").unwrap();
    assert_eq!(m.session_id, "tok-A");
    assert_eq!(m.content, "hi");
}

#[test]
fn parses_with_whitespace() {
    let m = parse_chat_message("  {\n  \"session_id\" : \"t\" ,\t\"content\" : \"c\"  }\r\n").unwrap();
    assert_eq!(m.session_id, "t");
    assert_eq!(m.content, "c");
}

#[test]
fn ignores_forged_identity_fields() {
    let m = parse_chat_message(
        "{\"user_id\":999,\"username\":\"evil\",\"session_id\":\"tok-A\",\"content\":\"hi\",\"created_at\":null}",
    )
    .unwrap();
    assert_eq!(m.session_id, "tok-A");
    assert_eq!(m.content, "hi");
}

#[test]
fn ignores_unknown_fields_of_every_shape() {
    let m = parse_chat_message(
        "{\"a\":-1.5e+10,\"b\":[1,[true,null],\"x\"],\"c\":{\"d\":{\"e\":false}},\"session_id\":\"s\",\"content\":\"c\"}",
    )
    .unwrap();
    assert_eq!(m.session_id, "s");
    assert_eq!(m.content, "c");
}

#[test]
fn decodes_escapes() {
    let m = parse_chat_message(
        "{\"session_id\":\"t\",\"content\":\"q\\\" b\\\\ s\\/ c\\b f\\f n\\n r\\r t\\t u\\u0041\"}",
    )
    .unwrap();
    assert_eq!(m.content, "q\" b\\ s/ c\u{8} f\u{c} n\n r\r t\t uA");
}

#[test]
fn accepts_non_ascii_text() {
    let m = parse_chat_message("{\"session_id\":\"t\",\"content\":\"héllo ☃\"}").unwrap();
    assert_eq!(m.content, "héllo ☃");
}

#[test]
fn rejects_non_json() {
    assert!(parse_chat_message("not json").is_none());
}

#[test]
fn rejects_missing_session_id() {
    assert!(parse_chat_message("{\"content\":\"hi\"}").is_none());
}

#[test]
fn rejects_missing_content() {
    assert!(parse_chat_message("{\"session_id\":\"t\"}").is_none());
}

#[test]
fn rejects_empty_object() {
    assert!(parse_chat_message("{}").is_none());
    assert!(parse_chat_message("  { }  ").is_none());
}

#[test]
fn rejects_duplicate_field() {
    assert!(parse_chat_message("{\"session_id\":\"a\",\"session_id\":\"b\",\"content\":\"c\"}").is_none());
    assert!(parse_chat_message("{\"session_id\":\"a\",\"content\":\"b\",\"content\":\"c\"}").is_none());
}

#[test]
fn rejects_non_string_required_field() {
    assert!(parse_chat_message("{\"session_id\":7,\"content\":\"hi\"}").is_none());
    assert!(parse_chat_message("{\"session_id\":\"t\",\"content\":null}").is_none());
}

#[test]
fn rejects_trailing_input() {
    assert!(parse_chat_message("{\"session_id\":\"t\",\"content\":\"c\"} x").is_none());
    assert!(parse_chat_message("{\"session_id\":\"t\",\"content\":\"c\"}{}").is_none());
}

#[test]
fn rejects_syntax_errors() {
    assert!(parse_chat_message("{\"session_id\":\"t\",\"content\":\"c\"").is_none());
    assert!(parse_chat_message("{\"session_id\":\"t\" \"content\":\"c\"}").is_none());
    assert!(parse_chat_message("{\"session_id\":\"t\",,\"content\":\"c\"}").is_none());
    assert!(parse_chat_message("{\"session_id\":\"t\",\"content\":\"c\",}").is_none());
    assert!(parse_chat_message("[\"session_id\",\"content\"]").is_none());
    assert!(parse_chat_message("").is_none());
}

#[test]
fn rejects_bad_escapes_and_raw_controls() {
    assert!(parse_chat_message("{\"session_id\":\"t\",\"content\":\"bad \\x escape\"}").is_none());
    assert!(parse_chat_message("{\"session_id\":\"t\",\"content\":\"high \\u00e9\"}").is_none());
    assert!(parse_chat_message("{\"session_id\":\"t\",\"content\":\"ctl \u{1} raw\"}").is_none());
}

#[test]
fn rejects_runaway_nesting() {
    let mut deep = String::from("{\"session_id\":\"t\",\"content\":\"c\",\"x\":");
    for _ in 0..200 {
        deep.push('[');
    }
    for _ in 0..200 {
        deep.push(']');
    }
    deep.push('}');
    assert!(parse_chat_message(&deep).is_none());

    let mut shallow = String::from("{\"session_id\":\"t\",\"content\":\"c\",\"x\":");
    for _ in 0..20 {
        shallow.push('[');
    }
    for _ in 0..20 {
        shallow.push(']');
    }
    shallow.push('}');
    assert!(parse_chat_message(&shallow).is_some());
}

#[test]
fn nesting_is_allowed_up_to_the_limit() {
    let nested = |depth: usize| {
        let mut s = String::from("{\"session_id\":\"t\",\"content\":\"c\",\"x\":");
        for _ in 0..depth {
            s.push('[');
        }
        for _ in 0..depth {
            s.push(']');
        }
        s.push('}');
        s
    };
    assert!(parse_chat_message(&nested(127)).is_some());
    assert!(parse_chat_message(&nested(128)).is_none());
}

#[test]
fn unicode_escape_boundary_sits_at_the_ascii_range() {
    let m = parse_chat_message("{\"session_id\":\"t\",\"content\":\"\\u007f\"}").unwrap();
    assert_eq!(m.content, "\u{7f}");
    assert!(parse_chat_message("{\"session_id\":\"t\",\"content\":\"\\u0080\"}").is_none());
}

#[test]
fn renders_plain_broadcast() {
    let s = render_broadcast("alice", "hi");
    assert_eq!(s, "{\"username\":\"alice\",\"content\":\"hi\"}");
}

#[test]
fn renders_escaped_broadcast() {
    let s = render_broadcast("a\"b\\c", "line1\nline2\ttab\rret\u{8}\u{c}");
    assert_eq!(
        s,
        "{\"username\":\"a\\\"b\\\\c\",\"content\":\"line1\\nline2\\ttab\\rret\\b\\f\"}"
    );
}

#[test]
fn renders_control_characters_as_hex_escapes() {
    let s = render_broadcast("a\u{1}b", "c\u{1f}d");
    assert_eq!(s, "{\"username\":\"a\\u0001b\",\"content\":\"c\\u001fd\"}");
}

#[test]
fn rendered_broadcast_is_json_serde_reads_back() {
    let s = render_broadcast("al\"ice\n", "wörld\t☃\u{2}");
    let v: serde_json::Value = serde_json::from_str(&s).unwrap();
    assert_eq!(v["username"].as_str().unwrap(), "al\"ice\n");
    assert_eq!(v["content"].as_str().unwrap(), "wörld\t☃\u{2}");
}

#[test]
fn parser_agrees_with_serde_on_samples() {
    let samples = [
        "{\"session_id\":\"tok-A\",\"content\":\"hi\"}",
        "{\"content\":\"c\",\"session_id\":\"s\",\"extra\":[1,2,{\"k\":true}]}",
        "{\"session_id\":\"\\u0041\",\"content\":\"\\n\"}",
        "not json",
        "{\"session_id\":\"t\"}",
        "{\"session_id\":7,\"content\":\"hi\"}",
        "{\"session_id\":\"t\",\"content\":\"c\"} trailing",
    ];
    for text in samples {
        let ours = parse_chat_message(text);
        let theirs: Option<(String, String)> = match serde_json::from_str::<serde_json::Value>(text)
        {
            Ok(serde_json::Value::Object(map)) => {
                match (map.get("session_id"), map.get("content")) {
                    (Some(serde_json::Value::String(s)), Some(serde_json::Value::String(c))) => {
                        Some((s.clone(), c.clone()))
                    }
                    _ => None,
                }
            }
            _ => None,
        };
        match (ours, theirs) {
            (Some(m), Some((s, c))) => {
                assert_eq!(m.session_id, s);
                assert_eq!(m.content, c);
            }
            (None, None) => {}
            (ours, theirs) => panic!("parsers disagree on {:?}: ours={:?} serde={:?}", text, ours.map(|m| (m.session_id, m.content)), theirs),
        }
    }
}
