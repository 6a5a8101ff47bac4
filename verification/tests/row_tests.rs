use arcaea::row::Row;

#[test]
fn test_row() {
    let row = Row::from_str("Hello, world!");
    assert_eq!(row.len(), 13);
    assert_eq!(row.to_string(), "Hello, world!");
    assert_eq!(row.is_empty(), false);
}

#[test]
fn split_then_concat_reconstructs_the_row() {
    let row = Row::from_str("hello world");
    for x in 0..=row.len() {
        let (left, right) = row.split_at(x);
        let back = left.concat(&right);
        assert_eq!(back.to_string(), "hello world");
        assert_eq!(back.len(), row.len());
    }
}

#[test]
fn insert_and_remove_cells() {
    let mut row = Row::from_str("abc");
    let cell = arcaea::row::Cell::new("x".to_string(), 1);
    row.insert_cell(1, cell);
    assert_eq!(row.to_string(), "axbc");
    let removed = row.remove_cell(1);
    assert_eq!(removed.text, "x");
    assert_eq!(row.to_string(), "abc");
}

#[test]
fn grapheme_cells_are_units() {
    // a combining mark stays glued to its base character
    let row = Row::from_str("e\u{301}f");
    assert_eq!(row.len(), 2);
    assert_eq!(row.to_string(), "e\u{301}f");
}

#[test]
fn content_eq_sees_text_and_width() {
    let a = Row::from_str("ab");
    let b = Row::from_str("ab");
    let c = Row::from_str("ac");
    assert!(a.content_eq(&b));
    assert!(!a.content_eq(&c));
}
