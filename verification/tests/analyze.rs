use json::analyze::Json4Analyze;
use json::token::{Keyword, LexError, TokenType};

fn kinds(a: &Json4Analyze) -> Vec<TokenType> {
    a.tokens.iter().map(|t| t.kind()).collect()
}

fn payload(a: &Json4Analyze, i: usize) -> Option<String> {
    a.tokens[i].value().clone()
}

#[test]
fn analyze_test_parse() {
    let json = "{
        \"a\" : {
            \"b\": \"  b bb\"
        },
        \"c\" : [
            2.2  , 2.3, 2.4, 2.5
        ],
        \"d\": false,
        \"e\":null
    }"
    .to_string();
    let mut a = Json4Analyze::new(json);
    let r = a.analyze();
    assert!(r.is_ok());
    println!("{:?}", a.render());
}

#[test]
fn mod_test_parse() {
    let json = "{
        \"a\" : {
            \"b\":1.2,
            \"b2\": \"a  aa\",
        },
        \"c\" : [
            2.2 , 2.3, 2.4, 2.5
        ],
        \"d\": false,
        \"e\":null
    }"
    .to_string();
    let a = json::analyze(json).unwrap();
    println!("{:?}", a.render());
}

#[test]
fn end_token_once_at_tail() {
    let a = json::analyze("{\"a\":1,\"b\":[true,null]}".to_string()).unwrap();
    let ks = kinds(&a);
    assert!(ks.len() >= 1);
    assert_eq!(ks[ks.len() - 1], TokenType::End);
    for k in &ks[..ks.len() - 1] {
        assert_ne!(*k, TokenType::End);
    }
}

#[test]
fn whitespace_between_tokens_is_incidental() {
    let tight = json::analyze("{\"a\":1}".to_string()).unwrap();
    let spaced = json::analyze(" {\t\"a\"\n : \r 1 } ".to_string()).unwrap();
    assert_eq!(kinds(&tight), kinds(&spaced));
    for i in 0..tight.tokens.len() {
        assert_eq!(payload(&tight, i), payload(&spaced, i));
    }
}

#[test]
fn empty_input_yields_end_alone() {
    let a = json::analyze(String::new()).unwrap();
    assert_eq!(kinds(&a), vec![TokenType::End]);
}

#[test]
fn unicode_whitespace_is_incidental_too() {
    let tight = json::analyze("{\"a\":1}".to_string()).unwrap();
    let spaced = json::analyze("\u{a0}{\u{2003}\"a\"\u{1680}:\u{3000}1 }\u{2028}".to_string())
        .unwrap();
    assert_eq!(kinds(&tight), kinds(&spaced));
    for i in 0..tight.tokens.len() {
        assert_eq!(payload(&tight, i), payload(&spaced, i));
    }
}

#[test]
fn string_payload_round_trip() {
    let a = json::analyze("\"ab c\"".to_string()).unwrap();
    assert_eq!(kinds(&a), vec![TokenType::String, TokenType::End]);
    assert_eq!(payload(&a, 0), Some("\"ab c\"".to_string()));
}

#[test]
fn number_integer() {
    let a = json::analyze("42".to_string()).unwrap();
    assert_eq!(kinds(&a), vec![TokenType::Number, TokenType::End]);
    let text = payload(&a, 0).unwrap();
    assert_eq!(text, "42");
    assert!(text.parse::<i64>().is_ok());
}

#[test]
fn number_float() {
    let a = json::analyze("4.2".to_string()).unwrap();
    assert_eq!(kinds(&a), vec![TokenType::Number, TokenType::End]);
    let text = payload(&a, 0).unwrap();
    assert_eq!(text, "4.2");
    assert!(text.parse::<f64>().is_ok());
}

#[test]
fn number_two_dots_rejected() {
    let r = json::analyze("4.2.3".to_string());
    assert_eq!(r.err().unwrap(), LexError::InvalidNumber);
}

#[test]
fn literal_true() {
    let a = json::analyze("true".to_string()).unwrap();
    assert_eq!(kinds(&a), vec![TokenType::True, TokenType::End]);
    assert_eq!(payload(&a, 0), None);
}

#[test]
fn literal_false() {
    let a = json::analyze("false".to_string()).unwrap();
    assert_eq!(kinds(&a), vec![TokenType::False, TokenType::End]);
    assert_eq!(payload(&a, 0), None);
}

#[test]
fn literal_null() {
    let a = json::analyze("null".to_string()).unwrap();
    assert_eq!(kinds(&a), vec![TokenType::Null, TokenType::End]);
    assert_eq!(payload(&a, 0), None);
}

#[test]
fn literal_cut_short_rejected() {
    let r = json::analyze("tru".to_string());
    assert_eq!(
        r.err().unwrap(),
        LexError::InvalidLiteral { expected: Keyword::True }
    );
}

#[test]
fn end_to_end_object() {
    let a = json::analyze("{\"a\":1,\"b\":[true,null]}".to_string()).unwrap();
    assert_eq!(
        kinds(&a),
        vec![
            TokenType::ObjectStart,
            TokenType::String,
            TokenType::Colon,
            TokenType::Number,
            TokenType::Comma,
            TokenType::String,
            TokenType::Colon,
            TokenType::ArrayStart,
            TokenType::True,
            TokenType::Comma,
            TokenType::Null,
            TokenType::ArrayEnd,
            TokenType::ObjectEnd,
            TokenType::End,
        ]
    );
    assert_eq!(payload(&a, 1), Some("\"a\"".to_string()));
    assert_eq!(payload(&a, 3), Some("1".to_string()));
    assert_eq!(payload(&a, 5), Some("\"b\"".to_string()));
}

#[test]
fn semicolon_ends_a_number_but_starts_no_token() {
    // `;` terminates the number scan, so the run fails only afterwards,
    // at the `;` itself, as the dispatcher reads it fresh.
    let r = json::analyze("1;".to_string());
    assert_eq!(
        r.err().unwrap(),
        LexError::UnexpectedCharacter { ch: ';', pos: 1 }
    );
}

#[test]
fn comma_ends_a_number() {
    let r = json::analyze("1,".to_string());
    let a = r.unwrap();
    assert_eq!(
        kinds(&a),
        vec![TokenType::Number, TokenType::Comma, TokenType::End]
    );
    assert_eq!(payload(&a, 0), Some("1".to_string()));
}

#[test]
fn unterminated_string_rejected() {
    let r = json::analyze("\"abc".to_string());
    assert_eq!(r.err().unwrap(), LexError::UnterminatedString);
}

#[test]
fn unexpected_character_rejected() {
    let r = json::analyze("  @".to_string());
    assert_eq!(
        r.err().unwrap(),
        LexError::UnexpectedCharacter { ch: '@', pos: 2 }
    );
}

#[test]
fn bad_keyword_start_rejected() {
    let r = json::analyze("nope".to_string());
    assert_eq!(
        r.err().unwrap(),
        LexError::InvalidLiteral { expected: Keyword::Null }
    );
    let r = json::analyze("fals".to_string());
    assert_eq!(
        r.err().unwrap(),
        LexError::InvalidLiteral { expected: Keyword::False }
    );
}

#[test]
fn integer_range_bounds() {
    assert!(json::analyze("9223372036854775807".to_string()).is_ok());
    assert_eq!(
        json::analyze("9223372036854775808".to_string()).err().unwrap(),
        LexError::InvalidNumber
    );
    assert!(json::analyze("-9223372036854775808".to_string()).is_ok());
    assert_eq!(
        json::analyze("-9223372036854775809".to_string()).err().unwrap(),
        LexError::InvalidNumber
    );
}

#[test]
fn float_exponent_forms() {
    assert!(json::analyze("1.5e3".to_string()).is_ok());
    let a = json::analyze("-2.5E-2".to_string()).unwrap();
    assert_eq!(payload(&a, 0), Some("-2.5E-2".to_string()));
    assert_eq!(
        json::analyze("1.5e".to_string()).err().unwrap(),
        LexError::InvalidNumber
    );
    assert_eq!(
        json::analyze(".".to_string()).err().unwrap(),
        LexError::InvalidNumber
    );
    assert!(json::analyze(".5".to_string()).is_ok());
    assert!(json::analyze("1.".to_string()).is_ok());
}

#[test]
fn whitespace_inside_number_span_is_dropped() {
    // the number scan consumes but does not keep whitespace before its
    // delimiter, so the two spans join into one literal
    let a = json::analyze("1 2".to_string()).unwrap();
    assert_eq!(kinds(&a), vec![TokenType::Number, TokenType::End]);
    assert_eq!(payload(&a, 0), Some("12".to_string()));
}

#[test]
fn malformed_dash_dot_rejected_late() {
    // `-.` starts the number recognizer and is only rejected when the
    // collected span fails to parse
    assert_eq!(
        json::analyze("-.".to_string()).err().unwrap(),
        LexError::InvalidNumber
    );
}
