use microjson::property_literal;

#[test]
fn finds_numeric_property() {
    let input = b"{\"time\":1480556487,\"isoDate\":\"2016-12-01T01:41:27Z\"}";
    assert_eq!(
        property_literal(input, b"time"),
        Some("1480556487".to_string())
    );
}

#[test]
fn finds_quoted_property() {
    let input = b"{\"time\":1480556487,\"isoDate\":\"2016-12-01T01:41:27Z\"}";
    assert_eq!(
        property_literal(input, b"isoDate"),
        Some("\"2016-12-01T01:41:27Z\"".to_string())
    );
}

#[test]
fn missing_property_gives_none() {
    let input = b"{\"time\":1480556487}";
    assert_eq!(property_literal(input, b"date"), None);
}

#[test]
fn malformed_input_gives_none() {
    assert_eq!(property_literal(b"42", b"time"), None);
    assert_eq!(property_literal(b"{\"time\"", b"time"), None);
}

#[test]
fn empty_input_gives_none() {
    assert_eq!(property_literal(b"", b"time"), None);
}

#[test]
fn non_literal_value_gives_none() {
    let input = b"{\"x\":null,\"y\":{\"z\":1}}";
    assert_eq!(property_literal(input, b"x"), None);
    assert_eq!(property_literal(input, b"y"), None);
}

#[test]
fn finds_property_in_nested_object() {
    let input = b"{\"outer\":{\"inner\":7},\"w\":8}";
    assert_eq!(property_literal(input, b"inner"), Some("7".to_string()));
    assert_eq!(property_literal(input, b"w"), Some("8".to_string()));
}

#[test]
fn multibyte_name_matches_on_bytes() {
    let input = "{\"μg/m³\":9}".as_bytes();
    assert_eq!(
        property_literal(input, "μg/m³".as_bytes()),
        Some("9".to_string())
    );
}
