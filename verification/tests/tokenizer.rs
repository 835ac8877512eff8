use microjson::{JsonError, JsonToken, JsonTokenizer};

fn collect_tokens(input: &[u8]) -> Vec<JsonToken> {
    let mut tk = JsonTokenizer::new(input);
    let mut out = Vec::new();
    for _ in 0..1000 {
        match tk.next_token() {
            Ok(JsonToken::Done) => {
                out.push(JsonToken::Done);
                return out;
            }
            Ok(t) => out.push(t),
            Err(e) => panic!("unexpected error {:?} after {:?}", e, out),
        }
    }
    panic!("tokenizer did not finish");
}

#[test]
fn empty_input_yields_done() {
    let mut tk = JsonTokenizer::new(b"");
    assert_eq!(tk.next_token(), Ok(JsonToken::Done));
    assert_eq!(tk.next_token(), Ok(JsonToken::Done));
}

#[test]
fn whitespace_only_input_yields_done() {
    let mut tk = JsonTokenizer::new(b" \t\r\n ");
    assert_eq!(tk.next_token(), Ok(JsonToken::Done));
}

#[test]
fn top_level_bare_scalar_rejected() {
    let mut tk = JsonTokenizer::new(b"42");
    assert_eq!(tk.next_token(), Err(JsonError::UnexpectedCharacter));
}

#[test]
fn top_level_quoted_scalar_rejected() {
    let mut tk = JsonTokenizer::new(b"\"42\"");
    assert_eq!(tk.next_token(), Err(JsonError::UnexpectedCharacter));
}

#[test]
fn flat_object() {
    let tokens = collect_tokens(b"{\"time\":1480556487,\"isoDate\":\"2016-12-01T01:41:27Z\"}");
    assert_eq!(
        tokens,
        vec![
            JsonToken::StartObject,
            JsonToken::PropertyName("time".to_string()),
            JsonToken::Literal("1480556487".to_string()),
            JsonToken::PropertyName("isoDate".to_string()),
            JsonToken::Literal("\"2016-12-01T01:41:27Z\"".to_string()),
            JsonToken::EndObject,
            JsonToken::Done,
        ]
    );
}

#[test]
fn array_of_scalars_with_irregular_spacing() {
    let tokens = collect_tokens(b"[1, \"deux\", 42 ]");
    assert_eq!(
        tokens,
        vec![
            JsonToken::StartArray,
            JsonToken::Literal("1".to_string()),
            JsonToken::Literal("\"deux\"".to_string()),
            JsonToken::Literal("42".to_string()),
            JsonToken::EndArray,
            JsonToken::Done,
        ]
    );
}

#[test]
fn array_nested_as_object_member() {
    let tokens = collect_tokens(b"{\"number\":1480556487,\"array\":[1, \"deux\", 3]}");
    assert_eq!(
        tokens,
        vec![
            JsonToken::StartObject,
            JsonToken::PropertyName("number".to_string()),
            JsonToken::Literal("1480556487".to_string()),
            JsonToken::PropertyName("array".to_string()),
            JsonToken::StartArray,
            JsonToken::Literal("1".to_string()),
            JsonToken::Literal("\"deux\"".to_string()),
            JsonToken::Literal("3".to_string()),
            JsonToken::EndArray,
            JsonToken::EndObject,
            JsonToken::Done,
        ]
    );
}

#[test]
fn null_classification_and_nested_object() {
    let tokens = collect_tokens(
        b"{\"unitOfMeasurement\":{\"name\":\"x\",\"symbol\":\"y\"},\"observedArea\":null}",
    );
    assert_eq!(
        tokens,
        vec![
            JsonToken::StartObject,
            JsonToken::PropertyName("unitOfMeasurement".to_string()),
            JsonToken::StartObject,
            JsonToken::PropertyName("name".to_string()),
            JsonToken::Literal("\"x\"".to_string()),
            JsonToken::PropertyName("symbol".to_string()),
            JsonToken::Literal("\"y\"".to_string()),
            JsonToken::EndObject,
            JsonToken::PropertyName("observedArea".to_string()),
            JsonToken::Null,
            JsonToken::EndObject,
            JsonToken::Done,
        ]
    );
}

#[test]
fn keyword_classification() {
    let tokens = collect_tokens(b"[null, true, false, nullx]");
    assert_eq!(
        tokens,
        vec![
            JsonToken::StartArray,
            JsonToken::Null,
            JsonToken::True,
            JsonToken::False,
            JsonToken::Literal("nullx".to_string()),
            JsonToken::EndArray,
            JsonToken::Done,
        ]
    );
}

#[test]
fn keyword_trimmed_before_classification() {
    let tokens = collect_tokens(b"{\"a\": null ,\"b\": true }");
    assert_eq!(
        tokens,
        vec![
            JsonToken::StartObject,
            JsonToken::PropertyName("a".to_string()),
            JsonToken::Null,
            JsonToken::PropertyName("b".to_string()),
            JsonToken::True,
            JsonToken::EndObject,
            JsonToken::Done,
        ]
    );
}

#[test]
fn utf8_spans_round_trip() {
    let tokens = collect_tokens("{\"μg/m³\":\"μg/m³\"}".as_bytes());
    assert_eq!(
        tokens,
        vec![
            JsonToken::StartObject,
            JsonToken::PropertyName("μg/m³".to_string()),
            JsonToken::Literal("\"μg/m³\"".to_string()),
            JsonToken::EndObject,
            JsonToken::Done,
        ]
    );
}

#[test]
fn done_is_idempotent() {
    let mut tk = JsonTokenizer::new(b"{\"a\":1}");
    loop {
        match tk.next_token() {
            Ok(JsonToken::Done) => break,
            Ok(_) => continue,
            Err(e) => panic!("unexpected error {:?}", e),
        }
    }
    for _ in 0..5 {
        assert_eq!(tk.next_token(), Ok(JsonToken::Done));
    }
}

#[test]
fn depth_balance_on_scenarios() {
    for input in [
        &b"{\"time\":1480556487,\"isoDate\":\"2016-12-01T01:41:27Z\"}"[..],
        &b"[1, \"deux\", 42 ]"[..],
        &b"{\"number\":1480556487,\"array\":[1, \"deux\", 3]}"[..],
        &b"{\"a\":{\"b\":1},\"c\":2}"[..],
        &b"[]"[..],
        &b"{\"a\":[1],\"b\":[2]}"[..],
    ] {
        let tokens = collect_tokens(input);
        let opens = tokens
            .iter()
            .filter(|t| matches!(t, JsonToken::StartObject | JsonToken::StartArray))
            .count();
        let closes = tokens
            .iter()
            .filter(|t| matches!(t, JsonToken::EndObject | JsonToken::EndArray))
            .count();
        assert_eq!(opens, closes);
    }
}

#[test]
fn empty_array() {
    let tokens = collect_tokens(b"[]");
    assert_eq!(
        tokens,
        vec![JsonToken::StartArray, JsonToken::EndArray, JsonToken::Done]
    );
}

#[test]
fn truncated_object_fails_with_end_of_input() {
    let mut tk = JsonTokenizer::new(b"{");
    assert_eq!(tk.next_token(), Ok(JsonToken::StartObject));
    assert_eq!(tk.next_token(), Err(JsonError::UnexpectedEndOfInput));
}

#[test]
fn truncated_after_colon_fails_with_end_of_input() {
    let mut tk = JsonTokenizer::new(b"{\"a\":");
    assert_eq!(tk.next_token(), Ok(JsonToken::StartObject));
    assert_eq!(tk.next_token(), Err(JsonError::UnexpectedEndOfInput));
}

#[test]
fn truncated_array_fails_with_end_of_input() {
    let mut tk = JsonTokenizer::new(b"[1");
    assert_eq!(tk.next_token(), Ok(JsonToken::StartArray));
    assert_eq!(tk.next_token(), Err(JsonError::UnexpectedEndOfInput));
}

#[test]
fn unquoted_property_name_rejected() {
    let mut tk = JsonTokenizer::new(b"{a:1}");
    assert_eq!(tk.next_token(), Ok(JsonToken::StartObject));
    assert_eq!(tk.next_token(), Err(JsonError::UnexpectedCharacter));
}

#[test]
fn close_followed_by_non_comma_rejected() {
    let mut tk = JsonTokenizer::new(b"{\"a\":1}x");
    assert_eq!(tk.next_token(), Ok(JsonToken::StartObject));
    assert_eq!(tk.next_token(), Ok(JsonToken::PropertyName("a".to_string())));
    assert_eq!(tk.next_token(), Ok(JsonToken::Literal("1".to_string())));
    assert_eq!(tk.next_token(), Err(JsonError::UnexpectedCharacter));
}

#[test]
fn invalid_utf8_literal_fails_with_invalid_text() {
    let input: &[u8] = &[b'{', b'"', b'a', b'"', b':', 0xff, 0xfe, b',', b'}'];
    let mut tk = JsonTokenizer::new(input);
    assert_eq!(tk.next_token(), Ok(JsonToken::StartObject));
    assert_eq!(tk.next_token(), Ok(JsonToken::PropertyName("a".to_string())));
    assert_eq!(tk.next_token(), Err(JsonError::InvalidText));
}

#[test]
fn invalid_utf8_property_name_fails_with_invalid_text() {
    let input: &[u8] = &[b'{', b'"', 0xff, b'"', b':', b'1', b'}'];
    let mut tk = JsonTokenizer::new(input);
    assert_eq!(tk.next_token(), Ok(JsonToken::StartObject));
    assert_eq!(tk.next_token(), Err(JsonError::InvalidText));
}

#[test]
fn bytes_between_key_and_colon_are_discarded() {
    let tokens = collect_tokens(b"{\"a\" junk: 1}");
    assert_eq!(
        tokens,
        vec![
            JsonToken::StartObject,
            JsonToken::PropertyName("a".to_string()),
            JsonToken::Literal("1".to_string()),
            JsonToken::EndObject,
            JsonToken::Done,
        ]
    );
}

#[test]
fn comma_after_closed_array_leads_to_next_member() {
    let tokens = collect_tokens(b"{\"a\":[1],\"b\":2}");
    assert_eq!(
        tokens,
        vec![
            JsonToken::StartObject,
            JsonToken::PropertyName("a".to_string()),
            JsonToken::StartArray,
            JsonToken::Literal("1".to_string()),
            JsonToken::EndArray,
            JsonToken::PropertyName("b".to_string()),
            JsonToken::Literal("2".to_string()),
            JsonToken::EndObject,
            JsonToken::Done,
        ]
    );
}

#[test]
fn consecutive_closes_follow_separator_rule() {
    let mut tk = JsonTokenizer::new(b"{\"a\":{\"b\":1}}");
    assert_eq!(tk.next_token(), Ok(JsonToken::StartObject));
    assert_eq!(tk.next_token(), Ok(JsonToken::PropertyName("a".to_string())));
    assert_eq!(tk.next_token(), Ok(JsonToken::StartObject));
    assert_eq!(tk.next_token(), Ok(JsonToken::PropertyName("b".to_string())));
    assert_eq!(tk.next_token(), Ok(JsonToken::Literal("1".to_string())));
    assert_eq!(tk.next_token(), Err(JsonError::UnexpectedCharacter));
}

#[test]
fn literal_keeps_quotes_and_raw_text() {
    let tokens = collect_tokens(b"{\"n\": -12.5e3 ,\"s\":\"a b\"}");
    assert_eq!(
        tokens,
        vec![
            JsonToken::StartObject,
            JsonToken::PropertyName("n".to_string()),
            JsonToken::Literal("-12.5e3".to_string()),
            JsonToken::PropertyName("s".to_string()),
            JsonToken::Literal("\"a b\"".to_string()),
            JsonToken::EndObject,
            JsonToken::Done,
        ]
    );
}
