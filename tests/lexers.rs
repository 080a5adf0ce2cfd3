use json::{
    parse_json_false, parse_json_null, parse_json_number, parse_json_string, parse_json_true,
    Cursor, JSONValue, ParseError,
};

#[test]
fn cursor_peeks_and_advances() {
    let mut c = Cursor::new("ab");
    assert_eq!(c.peek(), Some('a'));
    assert_eq!(c.peek(), Some('a'));
    assert_eq!(c.advance(), Some('a'));
    assert_eq!(c.position(), 1);
    assert_eq!(c.advance(), Some('b'));
    assert_eq!(c.advance(), None);
    assert_eq!(c.position(), 2);
}

#[test]
fn literal_readers_stop_where_the_word_ends() {
    let mut c = Cursor::new("true,");
    assert!(matches!(parse_json_true(&mut c), Ok(JSONValue::Bool(true))));
    assert_eq!(c.position(), 4);
    let mut c = Cursor::new("false");
    assert!(matches!(parse_json_false(&mut c), Ok(JSONValue::Bool(false))));
    let mut c = Cursor::new("nuLL");
    assert_eq!(
        parse_json_null(&mut c).unwrap_err(),
        ParseError::LexError { offset: 2, found: 'L', expected: 'l' }
    );
    assert_eq!(c.position(), 2);
}

#[test]
fn number_reader_leaves_the_delimiter() {
    let mut c = Cursor::new("-2.5e1]");
    let v = parse_json_number(&mut c).unwrap();
    assert_eq!(v.try_into_number_text().unwrap(), "-2.5e1");
    assert_eq!(c.peek(), Some(']'));
}

#[test]
fn string_reader_decodes() {
    let mut c = Cursor::new("\"\\u00e9\\t\" tail");
    let v = parse_json_string(&mut c).unwrap();
    assert_eq!(v.try_into_string().unwrap(), "\u{e9}\t");
    assert_eq!(c.position(), 10);
}
