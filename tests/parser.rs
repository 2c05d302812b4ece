use json_peek::lexer::Token;
use json_peek::parser::{scalar_value, ParseError, Parser};
use json_peek::value::{Literal, Value};
use json_peek::{Indexable, Keyable, Span};

#[test]
fn try_parse_stuff() {
    let content = r#"
		{
			"foo": 42,
			"bar": 0
		}
		"#;

    let mut parser = Parser::new(content);
    let result = parser.parse().unwrap();

    let map = vec![
        (Literal::new_literal("foo"), Value::test_number("42")),
        (Literal::new_literal("bar"), Value::test_number("0")),
    ];

    assert_eq!(result, Value::test_object(map));
}

#[test]
fn try_parse_nested_stuff() {
    let content = r#"
		{
			"foo": 42,
			"bar": {
				"a": [1, 2,3 ],
				"b": false
			},
			"baz": null
		}
		"#;

    let mut parser = Parser::new(content);
    let result = parser.parse().unwrap();

    assert_eq!(
        result,
        Value::test_object(vec![
            (Literal::new_literal("foo"), Value::test_number("42")),
            (
                Literal::new_literal("bar"),
                Value::test_object(vec![
                    (
                        Literal::new_literal("a"),
                        Value::test_array(vec![
                            Value::test_number("1"),
                            Value::test_number("2"),
                            Value::test_number("3")
                        ])
                    ),
                    (Literal::new_literal("b"), Value::test_bool(false)),
                ])
            ),
            (Literal::new_literal("baz"), Value::test_null()),
        ])
    );
    assert_eq!(result.get("bar").get("b"), Value::test_bool(false).some());
    assert_eq!(result.get("baz"), Value::test_null().some());
}

#[test]
fn parse_with_extra_comma() {
    let content = r#"
		{
			"foo": 1,
			"bar": 2,
		}
		"#;

    let mut parser = Parser::new(content);
    let result = parser.parse();

    assert_eq!(
        result,
        Ok(Value::test_object(vec![
            (Literal::new_literal("foo"), Value::test_number("1")),
            (Literal::new_literal("bar"), Value::test_number("2")),
        ]))
    );
}

#[test]
fn parse_with_incorrect_json() {
    let content = r#"
		[
			"foo": 1,
			"bar": 2,
		]
		"#;

    let mut parser = Parser::new(content);
    let result = parser.parse();

    assert_eq!(
        result,
        Err(ParseError::UnexpectedToken(
            Token::test_symbol(":"),
            Token::test_symbol(",")
        ))
    );
}

#[test]
fn empty_object_body_is_invalid_token() {
    let mut parser = Parser::new("{}");
    assert_eq!(parser.parse(), Err(ParseError::InvalidToken(Token::test_symbol("}"))));
}

#[test]
fn symbol_as_key_is_invalid_token() {
    let mut parser = Parser::new("{\"a\": 1, ]}");
    assert_eq!(parser.parse(), Err(ParseError::InvalidToken(Token::test_symbol("]"))));
}

#[test]
fn empty_array_is_invalid_token() {
    let mut parser = Parser::new("[]");
    assert_eq!(parser.parse(), Err(ParseError::InvalidToken(Token::test_symbol("]"))));
}

#[test]
fn missing_colon_is_unexpected_token() {
    let mut parser = Parser::new("{\"a\" 1}");
    assert_eq!(
        parser.parse(),
        Err(ParseError::UnexpectedToken(Token::test_number("1"), Token::test_symbol(":")))
    );
}

#[test]
fn end_of_input_errors_carry_position() {
    let mut empty = Parser::new("");
    assert_eq!(empty.parse(), Err(ParseError::UnexpectedEndOfFile(Span::new(0, 0))));
    let mut open = Parser::new("  {\"a\": 1");
    assert_eq!(open.parse(), Err(ParseError::UnexpectedEndOfFile(Span::new(8, 8))));
    let mut array = Parser::new("[1, 2");
    assert_eq!(array.parse(), Err(ParseError::UnexpectedEndOfFile(Span::new(4, 4))));
    let mut key = Parser::new("{");
    assert_eq!(key.parse(), Err(ParseError::UnexpectedEndOfFile(Span::new(0, 0))));
}

#[test]
fn unknown_identifier_is_invalid_token() {
    let mut parser = Parser::new("nope");
    assert_eq!(parser.parse(), Err(ParseError::InvalidToken(Token::test_identifier("nope"))));
}

#[test]
fn composite_spans_cover_delimiters() {
    let mut parser = Parser::new(" [1, 2] ");
    let value = parser.parse().unwrap();
    assert_eq!(value.span(), Span::new(1, 6));
    let mut object = Parser::new("{\"k\": true}");
    let value = object.parse().unwrap();
    assert_eq!(value.span(), Span::new(0, 10));
    assert_eq!(value.get("k").unwrap().span(), Span::new(6, 9));
}

#[test]
fn parser_continues_after_a_value() {
    let mut parser = Parser::new("1 \"two\" [3]");
    assert_eq!(parser.parse(), Ok(Value::test_number("1")));
    assert_eq!(parser.parse(), Ok(Value::test_string("two")));
    assert_eq!(parser.parse(), Ok(Value::test_array(vec![Value::test_number("3")])));
    assert_eq!(parser.parse(), Err(ParseError::UnexpectedEndOfFile(Span::new(9, 9))));
}

#[test]
fn repeated_key_keeps_last_value() {
    let mut parser = Parser::new("{\"a\": 1, \"a\": 2}");
    let value = parser.parse().unwrap();
    assert_eq!(
        value,
        Value::test_object(vec![(Literal::new_literal("a"), Value::test_number("2"))])
    );
}

#[test]
fn number_and_identifier_keys_are_text() {
    let mut parser = Parser::new("{7: true, k: null}");
    let value = parser.parse().unwrap();
    assert_eq!(value.get("7"), Value::test_bool(true).some());
    assert!(value.get("k").unwrap().is_null());
}

#[test]
fn trailing_comma_object_example() {
    let mut parser = Parser::new(r#"{"a": 1, "b": 2,}"#);
    let value = parser.parse().unwrap();
    assert_eq!(
        value,
        Value::test_object(vec![
            (Literal::new_literal("a"), Value::test_number("1")),
            (Literal::new_literal("b"), Value::test_number("2")),
        ])
    );
    assert_eq!(value.span(), Span::new(0, 16));
}

#[test]
fn nested_object_example() {
    let mut parser =
        Parser::new(r#"{"foo": 42, "bar": {"a": [1,2,3], "b": false}, "baz": null}"#);
    let value = parser.parse().unwrap();
    assert!(value.is_object());
    assert_eq!(value.get("bar").get("b"), Value::test_bool(false).some());
    assert_eq!(value.get("baz"), Value::test_null().some());
    assert_eq!(value.get("foo").unwrap(), "42");
}

#[test]
fn colon_inside_array_example() {
    let mut parser = Parser::new(r#"["foo": 1, "bar": 2,]"#);
    assert_eq!(
        parser.parse(),
        Err(ParseError::UnexpectedToken(Token::test_symbol(":"), Token::test_symbol(",")))
    );
}

#[test]
fn flat_object_lookups() {
    let mut parser = Parser::new(r#"{"k1": "v1", "k2": 2.5, "k3": true, "k4": null}"#);
    let value = parser.parse().unwrap();
    assert_eq!(value.get("k1").unwrap(), "v1");
    assert_eq!(value.get("k2").unwrap(), "2.5");
    assert_eq!(value.get("k3"), Value::test_bool(true).some());
    assert_eq!(value.get("k4"), Value::test_null().some());
    assert_eq!(value.get("k5"), None);
}

#[test]
fn scalar_array_indexing() {
    let mut parser = Parser::new(r#"["x", -3, false, null]"#);
    let value = parser.parse().unwrap();
    assert_eq!(value.index(0).unwrap(), "x");
    assert_eq!(value.index(1).unwrap(), "-3");
    assert_eq!(value.index(2), Value::test_bool(false).some());
    assert_eq!(value.index(3), Value::test_null().some());
    assert_eq!(value.index(4), None);
}

#[test]
fn scalar_value_of_tokens() {
    assert_eq!(scalar_value(&Token::test_identifier("true")), Value::test_bool(true).some());
    assert_eq!(scalar_value(&Token::test_identifier("null")), Value::test_null().some());
    assert_eq!(scalar_value(&Token::test_identifier("nil")), None);
    assert_eq!(scalar_value(&Token::test_symbol("{")), None);
    assert_eq!(scalar_value(&Token::test_string("s")), Value::test_string("s").some());
}
