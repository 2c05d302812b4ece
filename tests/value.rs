use json_peek::util;
use json_peek::value::{Literal, VIndex, Value};
use json_peek::{Indexable, Keyable, Span};

#[test]
fn get_span() {
    let value = Value::new_string(Span::new(5, 18), "Hello, World!");
    assert_eq!(value.span(), Span::new(5, 18));
}

#[test]
fn get_key() {
    let sample_data = Value::test_object(vec![
        (Literal::new_literal("a"), Value::test_number("1")),
        (Literal::new_literal("b"), Value::test_number("2")),
        (Literal::new_literal("c"), Value::test_number("3")),
    ]);

    assert_eq!(sample_data.get("a"), Value::test_number("1").some());
}

#[test]
fn get_index() {
    let sample_data = Value::test_array(vec![
        Value::test_number("3"),
        Value::test_number("2"),
        Value::test_number("1"),
    ]);

    assert_eq!(sample_data.index(0), Value::test_number("3").some());
}

#[test]
fn getter() {
    let content = r#"
		{
		    "display": {
		        "title": "Installed Datapacks",
		        "description": "",
		        "icon": {
		            "item": "minecraft:knowledge_book"
		        },
		        "background": "minecraft:textures/block/gray_concrete.png",
		        "show_toast": false,
		        "announce_to_chat": false
		    },
		    "criteria": {
		        "trigger": {
		             "trigger": "minecraft:tick"
		        }
		    }
		}
		"#;

    let parse_result = util::from_str(content).expect("Invalid json");
    let title = parse_result.get("display").get("title").expect("Title doesn't exist");

    assert_eq!(title, "Installed Datapacks");
}

#[test]
fn from_str() {
    let content = r#"["megumin", "kazuma", "aqua"]"#;

    let result = util::from_str(content).expect("Invalid JSON");
    assert_eq!(
        result,
        Value::test_array(vec![
            Value::test_string("megumin"),
            Value::test_string("kazuma"),
            Value::test_string("aqua"),
        ])
    );
}

#[test]
fn array_of_numbers_example() {
    let result = util::from_str("[1, 2, 3]").expect("Invalid JSON");
    assert_eq!(
        result,
        Value::test_array(vec![
            Value::test_number("1"),
            Value::test_number("2"),
            Value::test_number("3")
        ])
    );
    assert_eq!(result.index(2), Value::test_number("3").some());
    assert_eq!(result.index(3), None);
}

#[test]
fn accessors_on_wrong_kind_give_nothing() {
    let number = Value::test_number("1");
    assert_eq!(number.get("a"), None);
    assert_eq!(number.index(0), None);
    let nothing: Option<Value> = None;
    assert_eq!(nothing.get("a").get("b").index(3), None);
    let object = Value::test_object(vec![(Literal::new_literal("a"), Value::test_null())]);
    assert_eq!(object.get("missing"), None);
    assert_eq!(object.index(0), None);
}

#[test]
fn kind_predicates() {
    assert!(Value::test_object(vec![]).is_object());
    assert!(Value::test_array(vec![]).is_array());
    assert!(Value::test_string("s").is_string());
    assert!(Value::test_number("1").is_number());
    assert!(Value::null().is_null());
    assert!(Value::test_bool(true).is_bool());
    assert!(!Value::test_bool(true).is_null());
}

#[test]
fn equality_ignores_spans_and_entry_order() {
    let a = Value::new_string(Span::new(3, 7), "x");
    assert_eq!(a, Value::test_string("x"));
    assert_ne!(Value::test_string("1"), Value::test_number("1"));
    let left = Value::test_object(vec![
        (Literal::new_literal("a"), Value::test_number("1")),
        (Literal::new_literal("b"), Value::test_number("2")),
    ]);
    let right = Value::test_object(vec![
        (Literal::new_literal("b"), Value::test_number("2")),
        (Literal::new_literal("a"), Value::test_number("1")),
    ]);
    assert_eq!(left, right);
    assert_eq!(left.clone(), left);
    assert_eq!(Value::test_number("42"), "42");
    assert_ne!(Value::test_bool(true), "true");
}

#[test]
fn item_constructors_have_zero_spans() {
    let literal = Literal::new_literal("key");
    assert_eq!(literal.span, Span::new(0, 0));
    assert_eq!(literal.value, "key".to_string());
    let number = json_peek::value::Number::new_number("12".to_string());
    assert_eq!(number.span(), Span::test());
    let flag = json_peek::value::Bool::new_bool(true);
    assert!(flag.value);
    let null = json_peek::value::Null::new_null();
    assert_eq!(null.span, Span::new(0, 0));
    let array = json_peek::value::Array::new_array(vec![Value::test_null()]);
    assert_eq!(array.value.len(), 1);
    let object = json_peek::value::Object::new_object(vec![]);
    assert!(object.value.is_empty());
    let item = json_peek::value::Item::new(Span::new(1, 2), 5u8);
    assert_eq!(item.span(), Span::new(1, 2));
}

#[test]
fn lexing_twice_gives_the_same_tokens() {
    let text = r#"{"a": [1, true], "b": "c"}"#;
    let first = json_peek::Lexer::new(text).lex();
    let second = json_peek::Lexer::new(text).lex();
    assert_eq!(first, second);
    assert_eq!(first.len(), 13);
}

#[test]
fn index_into_by_position_and_key() {
    let mut value = util::from_str(r#"{"list": [10, 20], "name": "n"}"#).expect("Invalid JSON");
    let list = "list".index_into(&value).expect("no list");
    assert_eq!(1usize.index_into(list), Some(&Value::test_number("20")));
    assert_eq!(2usize.index_into(list), None);
    assert_eq!(String::from("name").index_into(&value), Some(&Value::test_string("n")));
    assert_eq!("missing".index_into(&value), None);
    assert_eq!(0usize.index_into(&value), None);
    if let Some(slot) = "name".index_into_mut(&mut value) {
        *slot = Value::test_bool(true);
    }
    assert_eq!(value.get("name"), Value::test_bool(true).some());
    let list = "list".index_into_mut(&mut value).expect("no list");
    if let Some(first) = 0usize.index_into_mut(list) {
        *first = Value::test_null();
    }
    assert_eq!(value.get("list").index(0), Value::test_null().some());
}

#[test]
fn value_compares_with_owned_text() {
    assert_eq!(Value::test_string("x"), String::from("x"));
    assert_ne!(Value::test_null(), String::from("null"));
}
