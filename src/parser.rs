//! The recursive-descent parser over a cursor.
use vstd::prelude::*;
use crate::cursor::Cursor;
use crate::error::ParseError;
use crate::grammar::{
    array, char_at, document, elements, has_key, is_digit, keys_unique, members, object,
    put_member, skip_ws, value, MAX_DEPTH,
};
use crate::lexer::{
    lex_string, parse_json_false, parse_json_null, parse_json_number, parse_json_string,
    parse_json_true, yields,
};
use crate::value::{deep_items, deep_members, lemma_deep_members, JSONValue, Json};

verus! {

/// Moves the cursor past any whitespace.
pub fn skip_whitespace(c: &mut Cursor)
    ensures
        final(c).text() == old(c).text(),
        final(c).pos() == skip_ws(old(c).text(), old(c).pos()),
        old(c).pos() <= final(c).pos() <= final(c).text().len(),
{
    let ghost s = c.text();
    let i = c.position();
    loop
        invariant
            s == old(c).text(),
            i == old(c).pos(),
            c.text() == s,
            i <= c.pos() <= s.len(),
            skip_ws(s, c.pos()) == skip_ws(s, i as int),
        ensures
            c.text() == s,
            c.pos() == skip_ws(s, i as int),
            i <= c.pos() <= s.len(),
        decreases s.len() - c.pos(),
    {
        match c.peek() {
            Some(ch) => {
                if ch == ' ' || ch == '\t' || ch == '\n' || ch == '\r' {
                    c.advance();
                } else {
                    break;
                }
            },
            None => {
                break;
            },
        }
    }
}

fn is_digit_char(ch: char) -> (r: bool)
    ensures
        r == is_digit(ch),
{
    '0' <= ch && ch <= '9'
}

/// Parses the value at the cursor (whitespace already skipped), inside
/// `depth` enclosing arrays and objects.
pub fn parse_value(c: &mut Cursor, depth: usize) -> (r: Result<JSONValue, ParseError>)
    requires
        depth <= MAX_DEPTH,
    ensures
        final(c).text() == old(c).text(),
        yields(r, value(old(c).text(), old(c).pos(), depth as int), final(c).pos()),
        r is Ok ==> final(c).pos() > old(c).pos(),
    decreases MAX_DEPTH - depth, 3int, 0int,
{
    let at = c.position();
    match c.peek() {
        None => Err(ParseError::UnexpectedToken { offset: at, found: None }),
        Some(ch) => {
            if ch == 'n' {
                parse_json_null(c)
            } else if ch == 't' {
                parse_json_true(c)
            } else if ch == 'f' {
                parse_json_false(c)
            } else if ch == '"' {
                parse_json_string(c)
            } else if ch == '-' || is_digit_char(ch) {
                parse_json_number(c)
            } else if ch == '[' || ch == '{' {
                if depth >= MAX_DEPTH {
                    Err(ParseError::NestingTooDeep { offset: at })
                } else if ch == '[' {
                    parse_array(c, depth + 1)
                } else {
                    parse_object(c, depth + 1)
                }
            } else {
                Err(ParseError::UnexpectedToken { offset: at, found: Some(ch) })
            }
        },
    }
}

/// Parses the array whose `[` is at the cursor; its elements sit at depth `d`.
fn parse_array(c: &mut Cursor, d: usize) -> (r: Result<JSONValue, ParseError>)
    requires
        1 <= d <= MAX_DEPTH,
        char_at(old(c).text(), old(c).pos()) == Some('['),
    ensures
        final(c).text() == old(c).text(),
        yields(r, array(old(c).text(), old(c).pos(), d as int), final(c).pos()),
        r is Ok ==> final(c).pos() > old(c).pos(),
    decreases MAX_DEPTH - d, 5int, 0int,
{
    let ghost s = c.text();
    let ghost i = c.pos();
    c.advance();
    skip_whitespace(c);
    match c.peek() {
        Some(']') => {
            c.advance();
            assert(deep_items(Seq::<JSONValue>::empty()) =~= Seq::<Json>::empty());
            return Ok(JSONValue::Array(Vec::new()));
        },
        _ => {},
    }
    let mut items: Vec<JSONValue> = Vec::new();
    loop
        invariant
            s == old(c).text(),
            i == old(c).pos(),
            c.text() == s,
            i < c.pos() <= s.len(),
            1 <= d <= MAX_DEPTH,
            elements(s, c.pos(), d as int, deep_items(items@)) == array(s, i, d as int),
        decreases s.len() - c.pos(),
    {
        let ghost j = c.pos();
        let v = match parse_value(c, d) {
            Ok(v) => v,
            Err(e) => {
                return Err(e);
            },
        };
        skip_whitespace(c);
        let m = c.position();
        let ghost before = items@;
        match c.peek() {
            Some(',') => {
                c.advance();
                skip_whitespace(c);
                let n = c.position();
                if let Some(']') = c.peek() {
                    return Err(ParseError::ExpectedCommaOrBracket { offset: n, found: Some(']') });
                }
                items.push(v);
                assert(items@.drop_last() =~= before);
            },
            Some(']') => {
                c.advance();
                items.push(v);
                assert(items@.drop_last() =~= before);
                return Ok(JSONValue::Array(items));
            },
            other => {
                return Err(ParseError::ExpectedCommaOrBracket { offset: m, found: other });
            },
        }
    }
}

/// Adds a member to an object, a present key taking the new value in place.
fn put(ms: &mut Vec<(String, JSONValue)>, key: String, v: JSONValue)
    requires
        keys_unique(deep_members(old(ms)@)),
    ensures
        deep_members(final(ms)@) == put_member(deep_members(old(ms)@), key@, v.deep()),
        keys_unique(deep_members(final(ms)@)),
{
    let ghost m0 = deep_members(ms@);
    proof { lemma_deep_members(ms@); }
    let mut x: usize = 0;
    while x < ms.len()
        invariant
            m0 == deep_members(old(ms)@),
            keys_unique(m0),
            ms@ == old(ms)@,
            m0.len() == ms@.len(),
            x <= ms@.len(),
            forall|y: int| 0 <= y < x ==> m0[y].0 != key@,
            forall|k: int| 0 <= k < ms@.len() ==> #[trigger] m0[k] == (ms@[k].0@, ms@[k].1.deep()),
        decreases ms@.len() - x,
    {
        if ms[x].0 == key {
            assert(m0[x as int].0 == key@);
            let ghost kv = key@;
            let ghost vv = v.deep();
            ms[x] = (key, v);
            proof {
                lemma_deep_members(ms@);
                assert(has_key(m0, kv) && m0[x as int].0 == kv);
                let chosen = choose|y: int| 0 <= y < m0.len() && #[trigger] m0[y].0 == kv;
                assert(m0[chosen].0 == m0[x as int].0);
                assert(deep_members(ms@) =~= m0.update(x as int, (kv, vv)));
            }
            return;
        }
        x = x + 1;
    }
    let ghost kv = key@;
    let ghost vv = v.deep();
    ms.push((key, v));
    proof {
        lemma_deep_members(ms@);
        assert(!has_key(m0, kv));
        assert(deep_members(ms@) =~= m0.push((kv, vv)));
    }
}

/// Parses the object whose `{` is at the cursor; its member values sit at
/// depth `d`.
fn parse_object(c: &mut Cursor, d: usize) -> (r: Result<JSONValue, ParseError>)
    requires
        1 <= d <= MAX_DEPTH,
        char_at(old(c).text(), old(c).pos()) == Some('{'),
    ensures
        final(c).text() == old(c).text(),
        yields(r, object(old(c).text(), old(c).pos(), d as int), final(c).pos()),
        r is Ok ==> final(c).pos() > old(c).pos(),
    decreases MAX_DEPTH - d, 5int, 0int,
{
    let ghost s = c.text();
    let ghost i = c.pos();
    c.advance();
    skip_whitespace(c);
    match c.peek() {
        Some('}') => {
            c.advance();
            assert(deep_members(Seq::<(String, JSONValue)>::empty()) =~= Seq::<(Seq<char>, Json)>::empty());
            return Ok(JSONValue::Object(Vec::new()));
        },
        _ => {},
    }
    let mut ms: Vec<(String, JSONValue)> = Vec::new();
    assert(deep_members(ms@) =~= Seq::<(Seq<char>, Json)>::empty());
    loop
        invariant
            s == old(c).text(),
            i == old(c).pos(),
            c.text() == s,
            i < c.pos() <= s.len(),
            1 <= d <= MAX_DEPTH,
            keys_unique(deep_members(ms@)),
            members(s, c.pos(), d as int, deep_members(ms@)) == object(s, i, d as int),
        decreases s.len() - c.pos(),
    {
        let ghost j = c.pos();
        let at = c.position();
        match c.peek() {
            Some('"') => {},
            other => {
                return Err(ParseError::ExpectedStringKey { offset: at, found: other });
            },
        }
        let key = match lex_string(c) {
            Ok(k) => k,
            Err(e) => {
                return Err(e);
            },
        };
        skip_whitespace(c);
        let m = c.position();
        match c.peek() {
            Some(':') => {
                c.advance();
            },
            other => {
                return Err(ParseError::ExpectedColon { offset: m, found: other });
            },
        }
        skip_whitespace(c);
        let v = match parse_value(c, d) {
            Ok(v) => v,
            Err(e) => {
                return Err(e);
            },
        };
        put(&mut ms, key, v);
        skip_whitespace(c);
        let q = c.position();
        match c.peek() {
            Some(',') => {
                c.advance();
                skip_whitespace(c);
                let n = c.position();
                if let Some('}') = c.peek() {
                    return Err(ParseError::ExpectedCommaOrBracket { offset: n, found: Some('}') });
                }
            },
            Some('}') => {
                c.advance();
                return Ok(JSONValue::Object(ms));
            },
            other => {
                return Err(ParseError::ExpectedCommaOrBracket { offset: q, found: other });
            },
        }
    }
}

/// `r` is what parsing the text `input` gives.
pub open spec fn parse_outcome(input: Seq<char>, r: Result<JSONValue, ParseError>) -> bool {
    match document(input) {
        Ok(v) => r matches Ok(x) && x.deep() == v,
        Err(e) => r == Err::<JSONValue, ParseError>(e),
    }
}

/// Parses a whole JSON document: exactly one value, with optional whitespace
/// around it.
pub fn parse_json(input: &str) -> (r: Result<JSONValue, ParseError>)
    ensures
        parse_outcome(input@, r),
{
    let mut c = Cursor::new(input);
    skip_whitespace(&mut c);
    let v = match parse_value(&mut c, 0) {
        Ok(v) => v,
        Err(e) => {
            return Err(e);
        },
    };
    skip_whitespace(&mut c);
    let at = c.position();
    match c.peek() {
        Some(ch) => Err(ParseError::TrailingContent { offset: at, found: ch }),
        None => Ok(v),
    }
}

} // verus!
