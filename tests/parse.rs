use json::{parse_json, JSONValue, KindMismatch, ParseError, ValueKind, MAX_DEPTH};

fn number_of(v: JSONValue) -> f64 {
    let text = v.try_into_number_text().unwrap();
    text.parse::<f64>().unwrap()
}

fn text_of(v: JSONValue) -> String {
    v.try_into_string().unwrap()
}

#[test]
fn test_parse_null_success() {
    let result = parse_json("null").unwrap();
    assert!(result.is_null());
}

#[test]
fn lib_test_parse_true_success() {
    let result = parse_json("true").unwrap();
    let boolean: bool = result.try_into_bool().unwrap();
    assert_eq!(boolean, true);
}

#[test]
fn lib_test_parse_false_success() {
    let result = parse_json("false").unwrap();
    let boolean: bool = result.try_into_bool().unwrap();
    assert_eq!(boolean, false);
}

#[test]
fn lib_test_parse_number_success() {
    let result = parse_json("0").unwrap();
    let num: f64 = number_of(result);
    assert_eq!(num, 0.0);
}

#[test]
fn lib_test_parse_number_success2() {
    let result = parse_json("999").unwrap();
    let num: f64 = number_of(result);
    assert_eq!(num, 999.0);
}

#[test]
fn lib_test_parse_number_float() {
    let result = parse_json("3.14").unwrap();
    let num: f64 = number_of(result);
    assert_eq!(num, 3.14);
}

#[test]
fn test_parse_string_success2() {
    let result = parse_json("\"hoge\"").unwrap();
    let str: String = text_of(result);
    assert_eq!(str, "hoge");
}

#[test]
fn boolean_test_parse_true_success() {
    let result = parse_json("true").unwrap();
    let boolean: bool = result.try_into_bool().unwrap();
    assert_eq!(boolean, true);
}

#[test]
fn boolean_test_parse_false_success() {
    let result = parse_json("false").unwrap();
    let boolean: bool = result.try_into_bool().unwrap();
    assert_eq!(boolean, false);
}

#[test]
fn number_test_parse_number_success() {
    let result = parse_json("0").unwrap();
    let num: f64 = number_of(result);
    assert_eq!(num, 0.0);
}

#[test]
fn number_test_parse_number_success2() {
    let result = parse_json("999").unwrap();
    let num: f64 = number_of(result);
    assert_eq!(num, 999.0);
}

#[test]
fn number_test_parse_number_float() {
    let result = parse_json("3.14").unwrap();
    let num: f64 = number_of(result);
    assert_eq!(num, 3.14);
}

#[test]
fn literals_give_their_variants() {
    assert!(matches!(parse_json("null"), Ok(JSONValue::Null)));
    assert!(matches!(parse_json("true"), Ok(JSONValue::Bool(true))));
    assert!(matches!(parse_json("false"), Ok(JSONValue::Bool(false))));
}

#[test]
fn number_with_exponent() {
    assert_eq!(number_of(parse_json("-1.5e3").unwrap()), -1500.0);
    assert_eq!(number_of(parse_json("2E+2").unwrap()), 200.0);
    assert_eq!(number_of(parse_json("-0").unwrap()), 0.0);
}

#[test]
fn number_keeps_its_token() {
    let text = parse_json("-12.50e-1").unwrap().try_into_number_text().unwrap();
    assert_eq!(text, "-12.50e-1");
}

#[test]
fn leading_zero_is_invalid_number() {
    assert_eq!(parse_json("01").unwrap_err(), ParseError::InvalidNumber { offset: 0, length: 2 });
}

#[test]
fn malformed_numbers_are_rejected() {
    assert_eq!(parse_json("-").unwrap_err(), ParseError::InvalidNumber { offset: 0, length: 1 });
    assert_eq!(parse_json("1.").unwrap_err(), ParseError::InvalidNumber { offset: 0, length: 2 });
    assert_eq!(parse_json("1.2.3").unwrap_err(), ParseError::InvalidNumber { offset: 0, length: 5 });
    assert_eq!(parse_json("1e").unwrap_err(), ParseError::InvalidNumber { offset: 0, length: 2 });
    assert_eq!(parse_json("--1").unwrap_err(), ParseError::InvalidNumber { offset: 0, length: 3 });
    assert_eq!(
        parse_json("[1, 2-]").unwrap_err(),
        ParseError::InvalidNumber { offset: 4, length: 2 }
    );
}

#[test]
fn number_stops_at_delimiters() {
    match parse_json("[10,20]").unwrap() {
        JSONValue::Array(items) => {
            assert_eq!(items.len(), 2);
            let mut it = items.into_iter();
            assert_eq!(number_of(it.next().unwrap()), 10.0);
            assert_eq!(number_of(it.next().unwrap()), 20.0);
        }
        _ => panic!("not an array"),
    }
}

#[test]
fn escape_newline() {
    assert_eq!(text_of(parse_json("\"a\\nb\"").unwrap()), "a\nb");
}

#[test]
fn escape_unicode() {
    assert_eq!(text_of(parse_json("\"\\u0041\"").unwrap()), "A");
    assert_eq!(text_of(parse_json("\"\\u00e9x\"").unwrap()), "\u{e9}x");
}

#[test]
fn escape_simple_set() {
    let s = text_of(parse_json("\"\\\"\\\\\\/\\b\\f\\n\\r\\t\"").unwrap());
    assert_eq!(s, "\"\\/\u{8}\u{c}\n\r\t");
}

#[test]
fn escape_surrogate_pair() {
    assert_eq!(text_of(parse_json("\"\\uD83D\\uDE00\"").unwrap()), "\u{1F600}");
}

#[test]
fn unpaired_surrogates_are_rejected() {
    assert_eq!(parse_json("\"\\uD83D\"").unwrap_err(), ParseError::InvalidEscape { offset: 1 });
    assert_eq!(parse_json("\"a\\uDE00\"").unwrap_err(), ParseError::InvalidEscape { offset: 2 });
    assert_eq!(
        parse_json("\"\\uD83Dx\\uDE00\"").unwrap_err(),
        ParseError::InvalidEscape { offset: 1 }
    );
}

#[test]
fn unterminated_string() {
    assert_eq!(parse_json("\"abc").unwrap_err(), ParseError::UnterminatedString { offset: 0 });
    assert_eq!(parse_json("[\"ab\\").unwrap_err(), ParseError::UnterminatedString { offset: 1 });
}

#[test]
fn raw_control_character_in_string() {
    assert_eq!(
        parse_json("\"a\nb\"").unwrap_err(),
        ParseError::InvalidStringChar { offset: 2, found: '\n' }
    );
}

#[test]
fn bad_escapes() {
    assert_eq!(parse_json("\"\\x\"").unwrap_err(), ParseError::InvalidEscape { offset: 1 });
    assert_eq!(parse_json("\"\\u12g4\"").unwrap_err(), ParseError::InvalidEscape { offset: 1 });
    assert_eq!(parse_json("\"\\u12\"").unwrap_err(), ParseError::InvalidEscape { offset: 1 });
}

#[test]
fn array_of_three_numbers() {
    match parse_json("[1,2,3]").unwrap() {
        JSONValue::Array(items) => {
            let nums: Vec<f64> = items.into_iter().map(number_of).collect();
            assert_eq!(nums, vec![1.0, 2.0, 3.0]);
        }
        _ => panic!("not an array"),
    }
}

#[test]
fn duplicate_key_last_wins() {
    match parse_json("{\"k\":1,\"k\":2}").unwrap() {
        JSONValue::Object(members) => {
            assert_eq!(members.len(), 1);
            let (key, value) = members.into_iter().next().unwrap();
            assert_eq!(key, "k");
            assert_eq!(number_of(value), 2.0);
        }
        _ => panic!("not an object"),
    }
}

#[test]
fn object_keeps_first_insertion_order() {
    match parse_json("{\"b\":1,\"a\":2,\"b\":3}").unwrap() {
        JSONValue::Object(members) => {
            let keys: Vec<String> = members.iter().map(|m| m.0.clone()).collect();
            assert_eq!(keys, vec!["b".to_string(), "a".to_string()]);
            assert_eq!(format!("{:?}", members[0].1), "Number(\"3\")");
        }
        _ => panic!("not an object"),
    }
}

#[test]
fn empty_containers() {
    assert!(matches!(parse_json("[]"), Ok(JSONValue::Array(v)) if v.is_empty()));
    assert!(matches!(parse_json("{}"), Ok(JSONValue::Object(m)) if m.is_empty()));
    assert!(matches!(parse_json("[ ]"), Ok(JSONValue::Array(v)) if v.is_empty()));
    assert!(matches!(parse_json("{\n}"), Ok(JSONValue::Object(m)) if m.is_empty()));
}

#[test]
fn trailing_comma_is_comma_bracket_error() {
    assert_eq!(
        parse_json("[1,]").unwrap_err(),
        ParseError::ExpectedCommaOrBracket { offset: 3, found: Some(']') }
    );
    assert_eq!(
        parse_json("{\"a\":1, }").unwrap_err(),
        ParseError::ExpectedCommaOrBracket { offset: 8, found: Some('}') }
    );
}

#[test]
fn nested_structures() {
    let v = parse_json("{\"a\":[true,{\"b\":null}],\"c\":\"d\"}").unwrap();
    assert_eq!(
        format!("{:?}", v),
        "Object([(\"a\", Array([Bool(true), Object([(\"b\", Null)])])), (\"c\", String(\"d\"))])"
    );
}

#[test]
fn whitespace_is_tolerated() {
    let spaced = parse_json(" [ 1 , 2 ] ").unwrap();
    let tight = parse_json("[1,2]").unwrap();
    assert_eq!(format!("{:?}", spaced), format!("{:?}", tight));
    let lined = parse_json("\t{\r\n\"k\" :\n 1 }\n").unwrap();
    assert_eq!(format!("{:?}", lined), format!("{:?}", parse_json("{\"k\":1}").unwrap()));
}

#[test]
fn depth_limit_reports_nesting_too_deep() {
    let deep = "[".repeat(MAX_DEPTH + 1);
    assert_eq!(parse_json(&deep).unwrap_err(), ParseError::NestingTooDeep { offset: MAX_DEPTH });
    let very_deep = "[".repeat(100_000);
    assert_eq!(
        parse_json(&very_deep).unwrap_err(),
        ParseError::NestingTooDeep { offset: MAX_DEPTH }
    );
}

#[test]
fn depth_at_limit_is_accepted() {
    let mut text = "[".repeat(MAX_DEPTH);
    text.push_str(&"]".repeat(MAX_DEPTH));
    assert!(parse_json(&text).is_ok());
    let open = "[".repeat(MAX_DEPTH);
    assert_eq!(
        parse_json(&open).unwrap_err(),
        ParseError::UnexpectedToken { offset: MAX_DEPTH, found: None }
    );
}

#[test]
fn errors_repeat_identically() {
    for text in ["[1,", "{\"a\" 1}", "tru", "\"x", "[1 2]", "01"] {
        let first = parse_json(text).unwrap_err();
        let second = parse_json(text).unwrap_err();
        assert_eq!(first, second);
        assert_eq!(first.offset(), second.offset());
    }
}

#[test]
fn each_error_kind() {
    assert_eq!(parse_json("tru").unwrap_err(), ParseError::UnexpectedEndOfInput { offset: 3 });
    assert_eq!(
        parse_json("nul!").unwrap_err(),
        ParseError::LexError { offset: 3, found: '!', expected: 'l' }
    );
    assert_eq!(
        parse_json("x").unwrap_err(),
        ParseError::UnexpectedToken { offset: 0, found: Some('x') }
    );
    assert_eq!(parse_json("  ").unwrap_err(), ParseError::UnexpectedToken { offset: 2, found: None });
    assert_eq!(
        parse_json("[1 2]").unwrap_err(),
        ParseError::ExpectedCommaOrBracket { offset: 3, found: Some('2') }
    );
    assert_eq!(
        parse_json("[1").unwrap_err(),
        ParseError::ExpectedCommaOrBracket { offset: 2, found: None }
    );
    assert_eq!(
        parse_json("{\"a\" 1}").unwrap_err(),
        ParseError::ExpectedColon { offset: 5, found: Some('1') }
    );
    assert_eq!(
        parse_json("{1:2}").unwrap_err(),
        ParseError::ExpectedStringKey { offset: 1, found: Some('1') }
    );
    assert_eq!(
        parse_json("1 2").unwrap_err(),
        ParseError::TrailingContent { offset: 2, found: '2' }
    );
    assert_eq!(
        parse_json("truex").unwrap_err(),
        ParseError::TrailingContent { offset: 4, found: 'x' }
    );
}

#[test]
fn kind_queries_and_mismatch() {
    let v = parse_json("[1]").unwrap();
    assert!(v.is_array());
    assert!(!v.is_object());
    assert_eq!(v.kind(), ValueKind::Array);
    assert_eq!(
        v.try_into_bool().unwrap_err(),
        KindMismatch { expected: ValueKind::Bool, found: ValueKind::Array }
    );
    let n = parse_json("5").unwrap();
    assert!(n.is_number());
    assert!(!n.is_null());
    assert_eq!(
        n.try_into_string().unwrap_err(),
        KindMismatch { expected: ValueKind::String, found: ValueKind::Number }
    );
    let s = parse_json("\"q\"").unwrap();
    assert!(s.is_string());
    assert!(!s.is_bool());
    assert_eq!(
        s.try_into_number_text().unwrap_err(),
        KindMismatch { expected: ValueKind::Number, found: ValueKind::String }
    );
}
