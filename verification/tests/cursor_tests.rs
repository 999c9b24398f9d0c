use rlox::lexer::cursor::{Cursor, Peekable};

#[test]
fn substring_return_none_when_start_greater_than_len() {
    let cursor = Cursor::new("hello world");
    let len = cursor.len();

    let start = len + 1;
    let end = start;

    assert_eq!(cursor.substring(start, end), None);
}

#[test]
fn substring_return_none_when_end_greater_than_len() {
    let cursor = Cursor::new("hello world");
    let len = cursor.len();

    let end = len + 1;
    let start = end;

    assert_eq!(cursor.substring(start, end), None);
}

#[test]
fn substring_return_none_when_start_greater_than_end() {
    let cursor = Cursor::new("hello world");

    let end = 0;
    let start = end + 1;

    assert_eq!(cursor.substring(start, end), None);
}

#[test]
fn substring_returns_the_selected_text() {
    let cursor = Cursor::new("hello world");

    assert_eq!(cursor.substring(0, 5), Some("hello".to_owned()));
    assert_eq!(cursor.substring(6, 11), Some("world".to_owned()));
    assert_eq!(cursor.substring(3, 3), Some(String::new()));
}

#[test]
fn cursor_consumes_characters_in_order() {
    let mut cursor = Cursor::new("ab");

    assert!(!cursor.is_at_end());
    assert_eq!(cursor.peek(), Some('a'));
    assert_eq!(cursor.next(), Some('a'));
    assert_eq!(cursor.peek(), Some('b'));
    assert_eq!(cursor.peek_nth(1), None);
    assert_eq!(cursor.peek_prev(), Some('a'));
    assert_eq!(cursor.next(), Some('b'));
    assert!(cursor.is_at_end());
    assert_eq!(cursor.next(), None);
}
