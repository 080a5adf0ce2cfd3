//! The token readers: literal keywords, numbers and strings.
use vstd::prelude::*;
use crate::cursor::Cursor;
use crate::error::ParseError;
use crate::grammar::{
    char_of, code, digits_end, hex4, hex4_ok, hex_value, is_digit, is_hex, literal, match_word,
    number, number_end, number_ok, pair_value, simple_escape, string, string_body, word_false,
    word_null, word_true, Step,
};
use crate::value::{JSONValue, Json};

verus! {

/// `r` is what `step` describes, and the cursor ended at `end` on success.
pub open spec fn yields(r: Result<JSONValue, ParseError>, step: Step<Json>, end: int) -> bool {
    match step {
        Ok((v, j)) => r matches Ok(x) && x.deep() == v && end == j,
        Err(e) => r == Err::<JSONValue, ParseError>(e),
    }
}

/// Relies on `String::push`: appends one character.
#[verifier::external_body]
fn push_char(s: &mut String, ch: char)
    ensures
        final(s)@ == old(s)@.push(ch),
{
    s.push(ch)
}

/// Relies on `char::from_u32`: `Some` exactly for Unicode scalar values,
/// holding the character with that code point.
#[verifier::external_body]
fn char_from_u32(u: u32) -> (r: Option<char>)
    ensures
        r is Some <==> (u < 0xD800 || (0xE000 <= u && u <= 0x10FFFF)),
        r matches Some(ch) ==> ch as int == u,
{
    char::from_u32(u)
}

/// Consumes `word` from the cursor, stopping at the first mismatch.
fn match_literal(c: &mut Cursor, word: &[char]) -> (r: Result<(), ParseError>)
    ensures
        final(c).text() == old(c).text(),
        match match_word(old(c).text(), old(c).pos(), word@, 0) {
            Ok(j) => r is Ok && final(c).pos() == j,
            Err(e) => r == Err::<(), ParseError>(e),
        },
        r is Ok ==> final(c).pos() == old(c).pos() + word@.len(),
{
    let ghost s = c.text();
    let ghost i = c.pos();
    let mut k: usize = 0;
    while k < word.len()
        invariant
            s == old(c).text(),
            i == old(c).pos(),
            c.text() == s,
            c.pos() == i + k,
            k <= word@.len(),
            match_word(s, i, word@, k as int) == match_word(s, i, word@, 0),
        decreases word@.len() - k,
    {
        let at = c.position();
        match c.peek() {
            None => {
                return Err(ParseError::UnexpectedEndOfInput { offset: at });
            },
            Some(ch) => {
                if ch != word[k] {
                    return Err(ParseError::LexError { offset: at, found: ch, expected: word[k] });
                }
            },
        }
        c.advance();
        k = k + 1;
    }
    Ok(())
}

/// Reads `null` at the cursor.
pub fn parse_json_null(c: &mut Cursor) -> (r: Result<JSONValue, ParseError>)
    ensures
        final(c).text() == old(c).text(),
        r is Ok ==> final(c).pos() > old(c).pos(),
        yields(r, literal(old(c).text(), old(c).pos(), word_null(), Json::Null), final(c).pos()),
{
    let word = ['n', 'u', 'l', 'l'];
    assert(word@ == word_null());
    match match_literal(c, &word) {
        Ok(()) => Ok(JSONValue::Null),
        Err(e) => Err(e),
    }
}

/// Reads `true` at the cursor.
pub fn parse_json_true(c: &mut Cursor) -> (r: Result<JSONValue, ParseError>)
    ensures
        final(c).text() == old(c).text(),
        r is Ok ==> final(c).pos() > old(c).pos(),
        yields(r, literal(old(c).text(), old(c).pos(), word_true(), Json::Bool(true)), final(c).pos()),
{
    let word = ['t', 'r', 'u', 'e'];
    assert(word@ == word_true());
    match match_literal(c, &word) {
        Ok(()) => Ok(JSONValue::Bool(true)),
        Err(e) => Err(e),
    }
}

/// Reads `false` at the cursor.
pub fn parse_json_false(c: &mut Cursor) -> (r: Result<JSONValue, ParseError>)
    ensures
        final(c).text() == old(c).text(),
        r is Ok ==> final(c).pos() > old(c).pos(),
        yields(r, literal(old(c).text(), old(c).pos(), word_false(), Json::Bool(false)), final(c).pos()),
{
    let word = ['f', 'a', 'l', 's', 'e'];
    assert(word@ == word_false());
    match match_literal(c, &word) {
        Ok(()) => Ok(JSONValue::Bool(false)),
        Err(e) => Err(e),
    }
}

fn is_digit_char(ch: char) -> (r: bool)
    ensures
        r == is_digit(ch),
{
    '0' <= ch && ch <= '9'
}

/// The end of the run of digits in `t` that starts at `j`.
fn scan_digits(t: &Vec<char>, j: usize) -> (r: usize)
    requires
        j <= t@.len(),
    ensures
        r == digits_end(t@, j as int, t@.len() as int),
        j <= r <= t@.len(),
{
    let mut p = j;
    while p < t.len() && is_digit_char(t[p])
        invariant
            j <= p <= t@.len(),
            digits_end(t@, p as int, t@.len() as int) == digits_end(t@, j as int, t@.len() as int),
        decreases t@.len() - p,
    {
        p = p + 1;
    }
    p
}

/// Whether the token `t` obeys the number grammar.
pub fn is_valid_number(t: &Vec<char>) -> (r: bool)
    ensures
        r == number_ok(t@),
        r ==> t@.len() > 0,
{
    let b = t.len();
    let p0: usize = if 0 < b && t[0] == '-' { 1 } else { 0 };
    let p1 = scan_digits(t, p0);
    if p1 <= p0 {
        return false;
    }
    if t[p0] == '0' && p1 != p0 + 1 {
        return false;
    }
    let has_frac = p1 < b && t[p1] == '.';
    let p2 = if has_frac { scan_digits(t, p1 + 1) } else { p1 };
    if has_frac && p2 <= p1 + 1 {
        return false;
    }
    let has_exp = p2 < b && (t[p2] == 'e' || t[p2] == 'E');
    let p3 = if has_exp && p2 + 1 < b && (t[p2 + 1] == '+' || t[p2 + 1] == '-') {
        p2 + 2
    } else if has_exp {
        p2 + 1
    } else {
        p2
    };
    let p4 = if has_exp { scan_digits(t, p3) } else { p3 };
    if has_exp && p4 <= p3 {
        return false;
    }
    p4 == b
}

/// Reads the number token at the cursor: the whole run of characters that
/// may stand in a number, which must then obey the number grammar.
pub fn parse_json_number(c: &mut Cursor) -> (r: Result<JSONValue, ParseError>)
    ensures
        final(c).text() == old(c).text(),
        yields(r, number(old(c).text(), old(c).pos()), final(c).pos()),
        r is Ok ==> final(c).pos() > old(c).pos(),
{
    let ghost s = c.text();
    let start = c.position();
    let mut token: Vec<char> = Vec::new();
    let mut text = String::new();
    loop
        invariant
            s == old(c).text(),
            start == old(c).pos(),
            c.text() == s,
            start <= c.pos() <= s.len(),
            number_end(s, c.pos()) == number_end(s, start as int),
            token@ == s.subrange(start as int, c.pos()),
            text@ == token@,
        ensures
            c.text() == s,
            start <= c.pos() <= s.len(),
            number_end(s, start as int) == c.pos(),
            token@ == s.subrange(start as int, c.pos()),
            text@ == token@,
        decreases s.len() - c.pos(),
    {
        match c.peek() {
            Some(ch) => {
                if is_digit_char(ch) || ch == '.' || ch == 'e' || ch == 'E' || ch == '+' || ch == '-' {
                    token.push(ch);
                    push_char(&mut text, ch);
                    c.advance();
                    assert(token@ =~= s.subrange(start as int, c.pos()));
                } else {
                    break;
                }
            },
            None => {
                break;
            },
        }
    }
    if is_valid_number(&token) {
        Ok(JSONValue::Number(text))
    } else {
        let end = c.position();
        Err(ParseError::InvalidNumber { offset: start, length: end - start })
    }
}

fn hex_digit(ch: char) -> (r: Option<u32>)
    ensures
        r is Some <==> is_hex(ch),
        r matches Some(d) ==> d == hex_value(ch),
{
    if '0' <= ch && ch <= '9' {
        Some(ch as u32 - '0' as u32)
    } else if 'a' <= ch && ch <= 'f' {
        Some(ch as u32 - 'a' as u32 + 10)
    } else if 'A' <= ch && ch <= 'F' {
        Some(ch as u32 - 'A' as u32 + 10)
    } else {
        None
    }
}

/// Consumes one hexadecimal digit and returns its value.
fn read_hex_digit(c: &mut Cursor) -> (r: Option<u32>)
    ensures
        final(c).text() == old(c).text(),
        0 <= old(c).pos() <= final(c).pos() <= final(c).text().len(),
        r is Some <==> (old(c).pos() < old(c).text().len() && is_hex(old(c).text()[old(c).pos()])),
        r matches Some(d) ==> d == hex_value(old(c).text()[old(c).pos()]) && final(c).pos()
            == old(c).pos() + 1,
{
    match c.advance() {
        Some(ch) => hex_digit(ch),
        None => None,
    }
}

/// Consumes four hexadecimal digits and returns the number they write.
fn read_hex4(c: &mut Cursor) -> (r: Option<u32>)
    ensures
        final(c).text() == old(c).text(),
        r is Some <==> hex4_ok(old(c).text(), old(c).pos()),
        r matches Some(u) ==> u == hex4(old(c).text(), old(c).pos()) && final(c).pos()
            == old(c).pos() + 4,
{
    let ghost s = c.text();
    let ghost i = c.pos();
    let d0 = match read_hex_digit(c) {
        Some(d) => d,
        None => {
            return None;
        },
    };
    let d1 = match read_hex_digit(c) {
        Some(d) => d,
        None => {
            return None;
        },
    };
    let d2 = match read_hex_digit(c) {
        Some(d) => d,
        None => {
            return None;
        },
    };
    let d3 = match read_hex_digit(c) {
        Some(d) => d,
        None => {
            return None;
        },
    };
    Some(d0 * 4096 + d1 * 256 + d2 * 16 + d3)
}

/// The character that the one-letter escape `\e` stands for.
fn escape_char(e: char) -> (r: Option<char>)
    ensures
        r == simple_escape(e),
{
    if e == '"' {
        Some('"')
    } else if e == '\\' {
        Some('\\')
    } else if e == '/' {
        Some('/')
    } else if e == 'b' {
        Some('\x08')
    } else if e == 'f' {
        Some('\x0C')
    } else if e == 'n' {
        Some('\n')
    } else if e == 'r' {
        Some('\r')
    } else if e == 't' {
        Some('\t')
    } else {
        None
    }
}

proof fn lemma_char_of(u: int, ch: char)
    requires
        ch as int == u,
    ensures
        char_of(u) == ch,
{
    assert(code(ch) == u);
    let x = char_of(u);
    assert(code(x) == u);
}

/// Reads the string whose opening quote is at the cursor, decoding its
/// escapes.
pub fn lex_string(c: &mut Cursor) -> (r: Result<String, ParseError>)
    requires
        crate::grammar::char_at(old(c).text(), old(c).pos()) == Some('"'),
    ensures
        final(c).text() == old(c).text(),
        match string(old(c).text(), old(c).pos()) {
            Ok((t, j)) => r matches Ok(x) && x@ == t && final(c).pos() == j,
            Err(e) => r == Err::<String, ParseError>(e),
        },
        r is Ok ==> final(c).pos() > old(c).pos(),
{
    let ghost s = c.text();
    let start = c.position();
    c.advance();
    let mut out = String::new();
    loop
        invariant
            s == old(c).text(),
            start == old(c).pos(),
            c.text() == s,
            start < c.pos() <= s.len(),
            string_body(s, start as int, c.pos(), out@) == string(s, start as int),
        decreases s.len() - c.pos(),
    {
        let at = c.position();
        let ch = match c.advance() {
            Some(ch) => ch,
            None => {
                return Err(ParseError::UnterminatedString { offset: start });
            },
        };
        if ch == '"' {
            return Ok(out);
        } else if ch == '\\' {
            let e = match c.advance() {
                Some(e) => e,
                None => {
                    return Err(ParseError::UnterminatedString { offset: start });
                },
            };
            match escape_char(e) {
                Some(x) => {
                    push_char(&mut out, x);
                },
                None => {
                    if e != 'u' {
                        return Err(ParseError::InvalidEscape { offset: at });
                    }
                    let u = match read_hex4(c) {
                        Some(u) => u,
                        None => {
                            return Err(ParseError::InvalidEscape { offset: at });
                        },
                    };
                    if 0xD800 <= u && u < 0xDC00 {
                        match c.advance() {
                            Some('\\') => {},
                            _ => {
                                return Err(ParseError::InvalidEscape { offset: at });
                            },
                        }
                        match c.advance() {
                            Some('u') => {},
                            _ => {
                                return Err(ParseError::InvalidEscape { offset: at });
                            },
                        }
                        let lo = match read_hex4(c) {
                            Some(lo) => lo,
                            None => {
                                return Err(ParseError::InvalidEscape { offset: at });
                            },
                        };
                        if !(0xDC00 <= lo && lo < 0xE000) {
                            return Err(ParseError::InvalidEscape { offset: at });
                        }
                        let point = 0x10000 + (u - 0xD800) * 1024 + (lo - 0xDC00);
                        match char_from_u32(point) {
                            Some(x) => {
                                proof { lemma_char_of(pair_value(s, at as int), x); }
                                push_char(&mut out, x);
                            },
                            None => {
                                return Err(ParseError::InvalidEscape { offset: at });
                            },
                        }
                    } else if 0xDC00 <= u && u < 0xE000 {
                        return Err(ParseError::InvalidEscape { offset: at });
                    } else {
                        match char_from_u32(u) {
                            Some(x) => {
                                proof { lemma_char_of(hex4(s, at + 2), x); }
                                push_char(&mut out, x);
                            },
                            None => {
                                return Err(ParseError::InvalidEscape { offset: at });
                            },
                        }
                    }
                },
            }
        } else if ' ' > ch {
            return Err(ParseError::InvalidStringChar { offset: at, found: ch });
        } else {
            push_char(&mut out, ch);
        }
    }
}

/// Reads the string value whose opening quote is at the cursor.
pub fn parse_json_string(c: &mut Cursor) -> (r: Result<JSONValue, ParseError>)
    requires
        crate::grammar::char_at(old(c).text(), old(c).pos()) == Some('"'),
    ensures
        final(c).text() == old(c).text(),
        match string(old(c).text(), old(c).pos()) {
            Ok((t, j)) => r matches Ok(x) && x.deep() == Json::String(t) && final(c).pos() == j,
            Err(e) => r == Err::<JSONValue, ParseError>(e),
        },
        r is Ok ==> final(c).pos() > old(c).pos(),
{
    match lex_string(c) {
        Ok(t) => Ok(JSONValue::String(t)),
        Err(e) => Err(e),
    }
}

} // verus!
