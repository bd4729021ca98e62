use json::token::{JsonToken, TokenType};

#[test]
fn labels_are_canonical() {
    assert_eq!(TokenType::ObjectStart.label(), "{ ");
    assert_eq!(TokenType::ObjectEnd.label(), " }");
    assert_eq!(TokenType::ArrayStart.label(), "[ ");
    assert_eq!(TokenType::ArrayEnd.label(), " ]");
    assert_eq!(TokenType::Colon.label(), ": ");
    assert_eq!(TokenType::Comma.label(), ", ");
    assert_eq!(TokenType::Number.label(), "num");
    assert_eq!(TokenType::String.label(), "str");
    assert_eq!(TokenType::True.label(), "true");
    assert_eq!(TokenType::False.label(), "false");
    assert_eq!(TokenType::Null.label(), "null");
    assert_eq!(TokenType::End.label(), "eof");
}

#[test]
fn token_renders_with_and_without_payload() {
    let t = JsonToken::new(TokenType::Null);
    assert_eq!(t.render(), "null");
    assert_eq!(t.kind(), TokenType::Null);
    let t = JsonToken::new_str(TokenType::Number, "42".to_string());
    assert_eq!(t.render(), "num(42)");
    assert_eq!(t.value().clone(), Some("42".to_string()));
}

#[test]
fn run_renders_space_joined() {
    let a = json::analyze("1".to_string()).unwrap();
    assert_eq!(a.render(), "num(1) eof");
    let a = json::analyze("{}".to_string()).unwrap();
    let expected = ["{ ", " }", "eof"].join(" ");
    assert_eq!(a.render(), expected);
}
