use scrawlc::{Position, Scanner, ScannerError, ETX, LF};

fn values_of(content: &str) -> Vec<String> {
    let mut scanner = Scanner::new(content).unwrap();
    scanner
        .scan()
        .unwrap()
        .iter()
        .map(|t| t.value().clone())
        .collect()
}

#[test]
fn test_scan() {
    let content = "ident_123 456\t\n\r (){}[];,. @ # = == + += ++ > >= >> >>= - -= -- < <= << <<= * *= ! != / /= ~ & &= && ? | |= || : :: ^ ^= % %= \"string\"";
    let mut scanner = Scanner::new(content).unwrap();

    let tokens = scanner.scan().unwrap();

    let expected = [
        "ident_", "123", "456", "(", ")", "{", "}", "[", "]", ";", ",", ".", "@", "#", "=", "==",
        "+", "+=", "+", "+", ">", ">=", ">>", ">>=", "-", "-=", "--", "<", "<=", "<<", "<<=", "*",
        "*=", "!", "!=", "/", "/=", "~", "&", "&=", "&&", "?", "|", "|=", "||", ":", "::", "^",
        "^", "=", "%", "%", "=", "string",
    ];
    assert_eq!(tokens.len(), expected.len());
    for (tok, want) in tokens.iter().zip(expected.iter()) {
        assert_eq!(tok.value(), want);
    }

    assert_eq!(tokens.get(0).unwrap().name(), "identifier");
    assert_eq!(tokens.get(1).unwrap().name(), "number");
    assert_eq!(tokens.get(2).unwrap().name(), "number");
    assert_eq!(tokens.get(3).unwrap().name(), "(");
    assert_eq!(tokens.get(53).unwrap().name(), "string");
}

#[test]
fn scan_simple_statement() {
    let mut scanner = Scanner::new("x = 1;").unwrap();

    let tokens = scanner.scan().unwrap();

    assert_eq!(tokens.len(), 4);
    assert_eq!(tokens.get(0).unwrap().name(), "identifier");
    assert_eq!(tokens.get(0).unwrap().value(), "x");
    assert_eq!(tokens.get(1).unwrap().name(), "=");
    assert_eq!(tokens.get(1).unwrap().value(), "=");
    assert_eq!(tokens.get(2).unwrap().name(), "number");
    assert_eq!(tokens.get(2).unwrap().value(), "1");
    assert_eq!(tokens.get(3).unwrap().name(), ";");
    assert_eq!(tokens.get(3).unwrap().value(), ";");
}

#[test]
fn scan_takes_longest_operator() {
    assert_eq!(values_of(">>="), vec![">>="]);
}

#[test]
fn scan_falls_back_to_shorter_operator() {
    assert_eq!(values_of(">><"), vec![">>", "<"]);
    assert_eq!(values_of("=<"), vec!["=", "<"]);
}

#[test]
fn scan_odd_operator_extensions() {
    // The operator table extends `+` with `-`, `^` with `^`, and `%` with `%`.
    assert_eq!(values_of("+-"), vec!["++"]);
    assert_eq!(values_of("^^"), vec!["^="]);
    assert_eq!(values_of("%%"), vec!["%="]);
    // So the `=`-suffixed spellings come out as two tokens.
    assert_eq!(values_of("^="), vec!["^", "="]);
    assert_eq!(values_of("%="), vec!["%", "="]);
    assert_eq!(values_of("++"), vec!["+", "+"]);
}

#[test]
fn scan_line_comment_yields_no_token() {
    let mut scanner = Scanner::new("a // comment\nb").unwrap();

    let tokens = scanner.scan().unwrap();

    assert_eq!(tokens.len(), 2);
    assert_eq!(tokens.get(0).unwrap().name(), "identifier");
    assert_eq!(tokens.get(0).unwrap().value(), "a");
    assert_eq!(tokens.get(1).unwrap().name(), "identifier");
    assert_eq!(tokens.get(1).unwrap().value(), "b");
}

#[test]
fn scan_comment_at_end_of_input() {
    let mut scanner = Scanner::new("// nothing else").unwrap();

    let tokens = scanner.scan().unwrap();

    assert_eq!(tokens.len(), 0);
}

#[test]
fn scan_unsupported_character_fails() {
    let mut scanner = Scanner::new("$").unwrap();

    assert_eq!(scanner.scan(), Err(ScannerError::UnsupportedCharacter('$')));

    let mut late = Scanner::new("ab $").unwrap();

    assert_eq!(late.scan(), Err(ScannerError::UnsupportedCharacter('$')));
}

#[test]
fn scan_string_literal() {
    let mut scanner = Scanner::new("\"hi\"").unwrap();

    let tokens = scanner.scan().unwrap();

    assert_eq!(tokens.len(), 1);
    assert_eq!(tokens.get(0).unwrap().name(), "string");
    assert_eq!(tokens.get(0).unwrap().value(), "hi");

    assert_eq!(
        values_of("x = \"a b\";"),
        vec!["x", "=", "a b", ";"]
    );
}

#[test]
fn scan_unterminated_string_fails() {
    let mut scanner = Scanner::new("\"hi").unwrap();

    // The literal swallows the padding line feed and stops at the sentinel:
    // index 4, line 1, column 0.
    assert_eq!(
        scanner.scan(),
        Err(ScannerError::EndOfContent(Position::new(4, 1, 0)))
    );
}

#[test]
fn scan_empty_input_yields_no_token() {
    let mut scanner = Scanner::new("").unwrap();

    let tokens = scanner.scan().unwrap();

    assert_eq!(tokens.len(), 0);
}

#[test]
fn scan_number_then_letter_splits() {
    // Numeric runs continue with digits only; a letter starts a new token.
    assert_eq!(values_of("1a"), vec!["1", "a"]);
    assert_eq!(values_of("ident_123"), vec!["ident_", "123"]);
}

#[test]
fn scan_records_start_positions() {
    let mut scanner = Scanner::new("ab\ncd").unwrap();

    let tokens = scanner.scan().unwrap();

    assert_eq!(tokens.len(), 2);
    assert_eq!(tokens.get(0).unwrap().position(), &Position::new(0, 0, 0));
    assert_eq!(tokens.get(1).unwrap().position(), &Position::new(3, 1, 0));
}

#[test]
fn content_is_padded_with_line_feed_and_sentinel() {
    let scanner = Scanner::new("ab").unwrap();

    assert_eq!(scanner.content(), &format!("ab{}{}", LF, ETX));

    let empty = Scanner::new("").unwrap();

    assert_eq!(empty.content(), &format!("{}{}", LF, ETX));
}

#[test]
fn with_position_checks_the_index() {
    let pos = Position::new(10, 0, 10);

    let err = Scanner::with_position("ab", &pos).unwrap_err();
    assert_eq!(err, ScannerError::EndOfContent(pos));

    let mid = Position::new(1, 0, 1);
    let mut scanner = Scanner::with_position("ab", &mid).unwrap();

    assert_eq!(scanner.current_character(), 'b');
    assert_eq!(scanner.current_position(), &mid);

    let tokens = scanner.scan().unwrap();

    assert_eq!(tokens.len(), 1);
    assert_eq!(tokens.get(0).unwrap().value(), "b");
}

#[test]
fn advance_returns_the_old_position() {
    let mut scanner = Scanner::new("example content").unwrap();

    assert_eq!(scanner.current_position().index, 0);
    assert_eq!(scanner.current_character(), 'e');

    let old = scanner.advance().unwrap();

    assert_eq!(old, Position::new(0, 0, 0));
    assert_eq!(scanner.current_position().index, 1);
    assert_eq!(scanner.current_character(), 'x');
}

#[test]
fn scan_whitespace_only_yields_no_token() {
    assert_eq!(values_of(" \t\r\n \t"), Vec::<String>::new());
}
