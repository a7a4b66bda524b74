use scrawlc::{Position, Token};

#[test]
fn test_token() {
    let pos = Position::default();
    let mut tok = Token::new("test_name", "test_value", &pos);

    assert_eq!(tok.to_text(), "<test_name>@1:1 = test_value");

    tok = Token::new("test_value", "test_value", &pos);
    assert_eq!(tok.to_text(), "<test_value>@1:1");
}

#[test]
fn token_accessors_return_what_was_given() {
    let pos = Position::new(4, 1, 2);
    let tok = Token::new("number", "42", &pos);

    assert_eq!(tok.name(), "number");
    assert_eq!(tok.value(), "42");
    assert_eq!(tok.position(), &pos);
}

#[test]
fn token_text_uses_token_position() {
    let pos = Position::new(10, 2, 7);
    let tok = Token::new("identifier", "abc", &pos);

    assert_eq!(tok.to_text(), "<identifier>@3:8 = abc");

    let selfdesc = Token::new("==", "==", &pos);

    assert_eq!(selfdesc.to_text(), "<==>@3:8");
}
