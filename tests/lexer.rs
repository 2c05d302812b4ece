use json_peek::lexer::{Lexer, LexerIter, Token, TokenKind};
use json_peek::Span;

#[test]
fn simple_lexing() {
    let content = r#"{"hello_world"}"#;

    let lexer = Lexer::new(content);
    let mut lexer = lexer.into_iter();

    assert_eq!(lexer.next(), Token::test_symbol("{").into());
    assert_eq!(lexer.next(), Token::test_string("hello_world").into());
    assert_eq!(lexer.next(), Token::test_symbol("}").into());
    assert_eq!(lexer.next(), None);
}

#[test]
fn lexer_with_whitespace() {
    let content = r#"
		{
			"foo": {
				"bar": 42
			}
		}
		"#;

    let mut lexer = Lexer::new(content).into_iter();

    assert_eq!(lexer.next(), Token::test_symbol("{").into());
    assert_eq!(lexer.next(), Token::test_string("foo").into());
    assert_eq!(lexer.next(), Token::test_symbol(":").into());
    assert_eq!(lexer.next(), Token::test_symbol("{").into());
    assert_eq!(lexer.next(), Token::test_string("bar").into());
    assert_eq!(lexer.next(), Token::test_symbol(":").into());
    assert_eq!(lexer.next(), Token::test_number("42").into());
    assert_eq!(lexer.next(), Token::test_symbol("}").into());
    assert_eq!(lexer.next(), Token::test_symbol("}").into());
    assert_eq!(lexer.next(), None);
}

#[test]
fn lexer_with_extra_comma() {
    let content = r#"
		{
			"foo": 1,
			"bar": 2,
		}
		"#;

    let mut lexer = Lexer::new(content).into_iter();

    assert_eq!(lexer.next(), Token::test_symbol("{").into());
    assert_eq!(lexer.next(), Token::test_string("foo").into());
    assert_eq!(lexer.next(), Token::test_symbol(":").into());
    assert_eq!(lexer.next(), Token::test_number("1").into());
    assert_eq!(lexer.next(), Token::test_symbol(",").into());
    assert_eq!(lexer.next(), Token::test_string("bar").into());
    assert_eq!(lexer.next(), Token::test_symbol(":").into());
    assert_eq!(lexer.next(), Token::test_number("2").into());
    assert_eq!(lexer.next(), Token::test_symbol(",").into());
    assert_eq!(lexer.next(), Token::test_symbol("}").into());
    assert_eq!(lexer.next(), None);
}

#[test]
fn use_lex_function() {
    let content = r#"{
			"display": {
				"title": "Boomber",
				"description": "",
				"icon": {
					"item": "minecraft:player_head",
					"nbt": "{SkullOwner: 'Boomber'}"
				},
				"show_toast": false,
				"announce_to_chat": false
			},
			"parent": "global:root",
			"criteria": {
				"trigger": {
					"trigger": "minecraft:tick"
				}
			}
		}"#;

    let tokens = Lexer::new(content).lex();

    assert_eq!(
        tokens,
        vec![
            Token::test_symbol("{"),
            Token::test_string("display"),
            Token::test_symbol(":"),
            Token::test_symbol("{"),
            Token::test_string("title"),
            Token::test_symbol(":"),
            Token::test_string("Boomber"),
            Token::test_symbol(","),
            Token::test_string("description"),
            Token::test_symbol(":"),
            Token::test_string(""),
            Token::test_symbol(","),
            Token::test_string("icon"),
            Token::test_symbol(":"),
            Token::test_symbol("{"),
            Token::test_string("item"),
            Token::test_symbol(":"),
            Token::test_string("minecraft:player_head"),
            Token::test_symbol(","),
            Token::test_string("nbt"),
            Token::test_symbol(":"),
            Token::test_string("{SkullOwner: 'Boomber'}"),
            Token::test_symbol("}"),
            Token::test_symbol(","),
            Token::test_string("show_toast"),
            Token::test_symbol(":"),
            Token::test_identifier("false"),
            Token::test_symbol(","),
            Token::test_string("announce_to_chat"),
            Token::test_symbol(":"),
            Token::test_identifier("false"),
            Token::test_symbol("}"),
            Token::test_symbol(","),
            Token::test_string("parent"),
            Token::test_symbol(":"),
            Token::test_string("global:root"),
            Token::test_symbol(","),
            Token::test_string("criteria"),
            Token::test_symbol(":"),
            Token::test_symbol("{"),
            Token::test_string("trigger"),
            Token::test_symbol(":"),
            Token::test_symbol("{"),
            Token::test_string("trigger"),
            Token::test_symbol(":"),
            Token::test_string("minecraft:tick"),
            Token::test_symbol("}"),
            Token::test_symbol("}"),
            Token::test_symbol("}"),
        ]
    );
}

#[test]
fn previous_character_after_one_token() {
    let mut lexer = Lexer::new("177013").into_iter();
    assert_eq!(lexer.next(), Token::test_number("177013").into());
    assert_eq!(lexer.previous_token(), Some('1'));
    assert!(lexer.previous_token_is('1'));
    assert!(!lexer.previous_token_is('3'));
    assert_eq!(lexer.value(), "177013");
}

#[test]
fn previous_character_at_start_is_none() {
    let lexer = LexerIter::new("abc", Span::new(0, 0));
    assert_eq!(lexer.previous_token(), None);
}

#[test]
fn token_equality_ignores_position() {
    let source = "  true";
    let placed = Token::new(Span::new(2, 5), source, TokenKind::Identifier);
    assert_eq!(placed.value(), "true");
    assert_eq!(placed, Token::test_identifier("true"));
    assert_eq!(Token::test_symbol(":"), Token::test_symbol(":"));
    assert_ne!(Token::test_symbol(":"), Token::test_string(":"));
    assert_ne!(Token::test_number("1"), Token::test_number("2"));
}

#[test]
fn token_kinds_of_each_class() {
    let tokens = Lexer::new("-1.5 abc_9 _x ? ] \"q\"").lex();
    assert_eq!(
        tokens,
        vec![
            Token::test_number("-1.5"),
            Token::test_identifier("abc_9"),
            Token::test_identifier("_x"),
            Token::test_unknown("?"),
            Token::test_symbol("]"),
            Token::test_string("q"),
        ]
    );
    assert_eq!(tokens[0].span, Span::new(0, 3));
    assert_eq!(tokens[5].span, Span::new(19, 19));
}

#[test]
fn escaped_quote_stays_in_string() {
    let tokens = Lexer::new(r#""a\"b" 1"#).lex();
    assert_eq!(tokens, vec![Token::test_string(r#"a\"b"#), Token::test_number("1")]);
}

#[test]
fn unterminated_string_loses_last_character() {
    let tokens = Lexer::new("\"abc").lex();
    assert_eq!(tokens, vec![Token::test_string("ab")]);
    let lone = Lexer::new("\"").lex();
    assert_eq!(lone, vec![Token::test_string("")]);
}

#[test]
fn number_then_letters_split() {
    let tokens = Lexer::new("12ab").lex();
    assert_eq!(tokens, vec![Token::test_number("12"), Token::test_identifier("ab")]);
}

#[test]
fn token_trim_and_value() {
    let token = Token::test_identifier("[hello_world!]");
    assert_eq!(token.trim(1), Token::test_identifier("hello_world!"));
    let pair = Token::test_identifier("()");
    assert_eq!(pair.trim(1), Token::test_identifier(""));
    assert_eq!(pair.trim(1).value(), "");
}

#[test]
fn empty_input_has_no_tokens() {
    assert!(Lexer::new("").lex().is_empty());
    assert!(Lexer::new(" \n\t ").lex().is_empty());
}

#[test]
fn unicode_classes_follow_the_character_tables() {
    let tokens = Lexer::new("\u{e9}\u{663}\u{a0}x").lex();
    assert_eq!(tokens.len(), 2);
    assert_eq!(tokens[0].kind, TokenKind::Identifier);
    assert_eq!(tokens[0].span, Span::new(0, 2));
    assert_eq!(tokens[1], Token::test_identifier("x"));
    assert_eq!(tokens[1].span, Span::new(6, 6));
    let digits = Lexer::new("\u{663}\u{2003}1").lex();
    assert_eq!(digits[0].kind, TokenKind::Number);
    assert_eq!(digits[0].span, Span::new(0, 0));
    assert_eq!(digits[1], Token::test_number("1"));
    assert_eq!(digits[1].span, Span::new(5, 5));
    let unknown = Lexer::new("\u{263a}").lex();
    assert_eq!(unknown[0].kind, TokenKind::Unknown);
}

#[test]
fn token_compares_with_its_first_character() {
    assert!(Token::test_symbol("{") == '{');
    assert!(Token::test_string("abc") == 'a');
    assert!(Token::test_string("abc") != 'b');
    assert!(Token::test_string("") != '"');
}
