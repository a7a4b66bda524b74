use scrawlc::Position;

#[test]
fn test_position() {
    let mut pos = Position::default();

    assert_eq!(pos.to_text(), "1:1");

    pos.advance('c');
    pos.advance('h');

    assert_eq!(pos.index, 2);
    assert_eq!(pos.column, 2);

    pos.advance('\n');

    assert_eq!(pos.index, 3);
    assert_eq!(pos.line, 1);
    assert_eq!(pos.column, 0);

    assert_eq!(pos.to_text(), "2:1");
}

#[test]
fn position_new_sets_all_fields() {
    let pos = Position::new(1, 2, 3);

    assert_eq!(pos.index, 1);
    assert_eq!(pos.line, 2);
    assert_eq!(pos.column, 3);
}

#[test]
fn position_advance_non_newline_keeps_line() {
    let mut pos = Position::new(7, 3, 5);

    pos.advance('x');

    assert_eq!(pos.index, 8);
    assert_eq!(pos.line, 3);
    assert_eq!(pos.column, 6);
}

#[test]
fn position_text_is_one_based_decimal() {
    let pos = Position::new(500, 122, 4);

    assert_eq!(pos.to_text(), "123:5");

    let big = Position::new(0, 98765, 10009);

    assert_eq!(big.to_text(), "98766:10010");
}
