//! The JSON grammar as spec functions over the input's characters: each
//! function says what the parser yields when it starts at a given position.
use vstd::prelude::*;
use crate::error::ParseError;
use crate::value::Json;

verus! {

/// The deepest nesting of arrays and objects that the parser accepts.
pub const MAX_DEPTH: usize = 128;

/// What a parser step yields: a value and the position just after it.
pub type Step<T> = Result<(T, int), ParseError>;

pub open spec fn is_ws(c: char) -> bool {
    c == ' ' || c == '\t' || c == '\n' || c == '\r'
}

pub open spec fn is_digit(c: char) -> bool {
    '0' <= c && c <= '9'
}

/// The character at `i`, or `None` past the end.
pub open spec fn char_at(s: Seq<char>, i: int) -> Option<char> {
    if 0 <= i < s.len() {
        Some(s[i])
    } else {
        None
    }
}

/// The first position at or after `i` that does not hold whitespace.
pub open spec fn skip_ws(s: Seq<char>, i: int) -> int
    decreases s.len() - i,
{
    if 0 <= i < s.len() && is_ws(s[i]) {
        skip_ws(s, i + 1)
    } else {
        i
    }
}

pub open spec fn word_null() -> Seq<char> {
    seq!['n', 'u', 'l', 'l']
}

pub open spec fn word_true() -> Seq<char> {
    seq!['t', 'r', 'u', 'e']
}

pub open spec fn word_false() -> Seq<char> {
    seq!['f', 'a', 'l', 's', 'e']
}

/// Matching `word[k..]` against the input from `i + k` on; on success the
/// position after the whole word.
pub open spec fn match_word(s: Seq<char>, i: int, word: Seq<char>, k: int) -> Result<int, ParseError>
    decreases word.len() - k,
{
    if k >= word.len() {
        Ok(i + word.len())
    } else if i + k >= s.len() {
        Err(ParseError::UnexpectedEndOfInput { offset: (i + k) as usize })
    } else if s[i + k] != word[k] {
        Err(ParseError::LexError { offset: (i + k) as usize, found: s[i + k], expected: word[k] })
    } else {
        match_word(s, i, word, k + 1)
    }
}

pub open spec fn literal(s: Seq<char>, i: int, word: Seq<char>, v: Json) -> Step<Json> {
    match match_word(s, i, word, 0) {
        Ok(j) => Ok((v, j)),
        Err(e) => Err(e),
    }
}

// ---- numbers ----

/// Characters that may stand in a number token.
pub open spec fn is_number_char(c: char) -> bool {
    is_digit(c) || c == '.' || c == 'e' || c == 'E' || c == '+' || c == '-'
}

/// The end of the run of number characters that starts at `i`.
pub open spec fn number_end(s: Seq<char>, i: int) -> int
    decreases s.len() - i,
{
    if 0 <= i < s.len() && is_number_char(s[i]) {
        number_end(s, i + 1)
    } else {
        i
    }
}

/// The end of the run of digits that starts at `j`, not past `b`.
pub open spec fn digits_end(s: Seq<char>, j: int, b: int) -> int
    decreases b - j,
{
    if 0 <= j < b && j < s.len() && is_digit(s[j]) {
        digits_end(s, j + 1, b)
    } else {
        j
    }
}

/// The token `t` is `-?(0|[1-9][0-9]*)(\.[0-9]+)?([eE][+-]?[0-9]+)?`.
pub open spec fn number_ok(t: Seq<char>) -> bool {
    let b = t.len() as int;
    let p0: int = if 0 < b && t[0] == '-' { 1 } else { 0 };
    let p1 = digits_end(t, p0, b);
    let has_frac = p1 < b && t[p1] == '.';
    let p2 = if has_frac { digits_end(t, p1 + 1, b) } else { p1 };
    let has_exp = p2 < b && (t[p2] == 'e' || t[p2] == 'E');
    let p3 = if has_exp && p2 + 1 < b && (t[p2 + 1] == '+' || t[p2 + 1] == '-') {
        p2 + 2
    } else if has_exp {
        p2 + 1
    } else {
        p2
    };
    let p4 = if has_exp { digits_end(t, p3, b) } else { p3 };
    &&& p1 > p0
    &&& (t[p0] == '0' ==> p1 == p0 + 1)
    &&& (has_frac ==> p2 > p1 + 1)
    &&& (has_exp ==> p4 > p3)
    &&& p4 == b
}

/// The number token that starts at `i`: the whole run of number characters,
/// which must obey the number grammar.
pub open spec fn number(s: Seq<char>, i: int) -> Step<Json> {
    let e = number_end(s, i);
    if number_ok(s.subrange(i, e)) {
        Ok((Json::Number(s.subrange(i, e)), e))
    } else {
        Err(ParseError::InvalidNumber { offset: i as usize, length: (e - i) as usize })
    }
}

// ---- strings ----

pub open spec fn is_hex(c: char) -> bool {
    is_digit(c) || ('a' <= c && c <= 'f') || ('A' <= c && c <= 'F')
}

pub open spec fn hex_value(c: char) -> int {
    if is_digit(c) {
        c as int - '0' as int
    } else if 'a' <= c && c <= 'f' {
        c as int - 'a' as int + 10
    } else {
        c as int - 'A' as int + 10
    }
}

/// Four hexadecimal digits stand at `j`.
pub open spec fn hex4_ok(s: Seq<char>, j: int) -> bool {
    0 <= j && j + 4 <= s.len() && is_hex(s[j]) && is_hex(s[j + 1]) && is_hex(s[j + 2])
        && is_hex(s[j + 3])
}

pub open spec fn hex4(s: Seq<char>, j: int) -> int {
    hex_value(s[j]) * 4096 + hex_value(s[j + 1]) * 256 + hex_value(s[j + 2]) * 16 + hex_value(
        s[j + 3],
    )
}

pub open spec fn is_high_surrogate(u: int) -> bool {
    0xD800 <= u < 0xDC00
}

pub open spec fn is_low_surrogate(u: int) -> bool {
    0xDC00 <= u < 0xE000
}

/// The code point of `c`.
pub open spec fn code(c: char) -> int {
    c as int
}

/// The character whose code point is `u`.
pub open spec fn char_of(u: int) -> char {
    choose|c: char| #[trigger] code(c) == u
}

/// The character that a one-letter escape `\e` stands for.
pub open spec fn simple_escape(e: char) -> Option<char> {
    if e == '"' {
        Some('"')
    } else if e == '\\' {
        Some('\\')
    } else if e == '/' {
        Some('/')
    } else if e == 'b' {
        Some('\x08')
    } else if e == 'f' {
        Some('\x0C')
    } else if e == 'n' {
        Some('\n')
    } else if e == 'r' {
        Some('\r')
    } else if e == 't' {
        Some('\t')
    } else {
        None
    }
}

/// A `\uXXXX\uXXXX` surrogate pair stands at `i`, high half first.
pub open spec fn pair_ok(s: Seq<char>, i: int) -> bool {
    &&& hex4_ok(s, i + 2)
    &&& is_high_surrogate(hex4(s, i + 2))
    &&& i + 12 <= s.len()
    &&& s[i + 6] == '\\'
    &&& s[i + 7] == 'u'
    &&& hex4_ok(s, i + 8)
    &&& is_low_surrogate(hex4(s, i + 8))
}

pub open spec fn pair_value(s: Seq<char>, i: int) -> int {
    0x10000 + (hex4(s, i + 2) - 0xD800) * 1024 + (hex4(s, i + 8) - 0xDC00)
}

/// The rest of the string opened at `start`, from `i` on, with `acc`
/// decoded so far: the decoded text and the position after the closing quote.
/// A surrogate escape that is not half of a well-formed pair is rejected.
pub open spec fn string_body(s: Seq<char>, start: int, i: int, acc: Seq<char>) -> Step<Seq<char>>
    decreases s.len() - i,
{
    if i < 0 || i >= s.len() {
        Err(ParseError::UnterminatedString { offset: start as usize })
    } else if s[i] == '"' {
        Ok((acc, i + 1))
    } else if s[i] == '\\' {
        if i + 1 >= s.len() {
            Err(ParseError::UnterminatedString { offset: start as usize })
        } else if simple_escape(s[i + 1]) is Some {
            string_body(s, start, i + 2, acc.push(simple_escape(s[i + 1])->0))
        } else if s[i + 1] != 'u' {
            Err(ParseError::InvalidEscape { offset: i as usize })
        } else if !hex4_ok(s, i + 2) {
            Err(ParseError::InvalidEscape { offset: i as usize })
        } else if is_high_surrogate(hex4(s, i + 2)) {
            if pair_ok(s, i) {
                string_body(s, start, i + 12, acc.push(char_of(pair_value(s, i))))
            } else {
                Err(ParseError::InvalidEscape { offset: i as usize })
            }
        } else if is_low_surrogate(hex4(s, i + 2)) {
            Err(ParseError::InvalidEscape { offset: i as usize })
        } else {
            string_body(s, start, i + 6, acc.push(char_of(hex4(s, i + 2))))
        }
    } else if (s[i] as int) < 0x20 {
        Err(ParseError::InvalidStringChar { offset: i as usize, found: s[i] })
    } else {
        string_body(s, start, i + 1, acc.push(s[i]))
    }
}

/// The string whose opening quote stands at `i`.
pub open spec fn string(s: Seq<char>, i: int) -> Step<Seq<char>> {
    string_body(s, i, i + 1, Seq::empty())
}

// ---- objects ----

pub open spec fn has_key(m: Seq<(Seq<char>, Json)>, k: Seq<char>) -> bool {
    exists|x: int| 0 <= x < m.len() && #[trigger] m[x].0 == k
}

/// Each key occurs at most once.
pub open spec fn keys_unique(m: Seq<(Seq<char>, Json)>) -> bool {
    forall|x: int, y: int| 0 <= x < m.len() && 0 <= y < m.len() && #[trigger] m[x].0 == #[trigger] m[y].0 ==> x == y
}

/// Adds a member: a key already present takes the new value in its place,
/// a new key goes last.
pub open spec fn put_member(m: Seq<(Seq<char>, Json)>, k: Seq<char>, v: Json) -> Seq<(Seq<char>, Json)> {
    if has_key(m, k) {
        let x = choose|x: int| 0 <= x < m.len() && #[trigger] m[x].0 == k;
        m.update(x, (k, v))
    } else {
        m.push((k, v))
    }
}

// ---- values ----

/// The value that starts at `i` (whitespace already skipped), inside `depth`
/// enclosing arrays and objects.
pub open spec fn value(s: Seq<char>, i: int, depth: int) -> Step<Json>
    decreases MAX_DEPTH - depth, 3int, 0int,
{
    if i < 0 || i >= s.len() {
        Err(ParseError::UnexpectedToken { offset: i as usize, found: None })
    } else {
        let c = s[i];
        if c == 'n' {
            literal(s, i, word_null(), Json::Null)
        } else if c == 't' {
            literal(s, i, word_true(), Json::Bool(true))
        } else if c == 'f' {
            literal(s, i, word_false(), Json::Bool(false))
        } else if c == '"' {
            match string(s, i) {
                Ok((t, j)) => Ok((Json::String(t), j)),
                Err(e) => Err(e),
            }
        } else if c == '-' || is_digit(c) {
            number(s, i)
        } else if c == '[' || c == '{' {
            if depth >= MAX_DEPTH {
                Err(ParseError::NestingTooDeep { offset: i as usize })
            } else if c == '[' {
                array(s, i, depth + 1)
            } else {
                object(s, i, depth + 1)
            }
        } else {
            Err(ParseError::UnexpectedToken { offset: i as usize, found: Some(c) })
        }
    }
}

/// The array whose `[` stands at `i`; its elements sit at depth `d`.
pub open spec fn array(s: Seq<char>, i: int, d: int) -> Step<Json>
    decreases MAX_DEPTH - d, 5int, 0int,
{
    let j = skip_ws(s, i + 1);
    if char_at(s, j) == Some(']') {
        Ok((Json::Array(Seq::empty()), j + 1))
    } else {
        elements(s, j, d, Seq::empty())
    }
}

/// The array's elements from `j` on, after `acc`. A `,` must be followed
/// by another element, not by the closing bracket.
pub open spec fn elements(s: Seq<char>, j: int, d: int, acc: Seq<Json>) -> Step<Json>
    decreases MAX_DEPTH - d, 4int, s.len() - j,
{
    match value(s, j, d) {
        Err(e) => Err(e),
        Ok((v, k)) => {
            let m = skip_ws(s, k);
            if char_at(s, m) == Some(',') {
                let n = skip_ws(s, m + 1);
                // a value takes at least one character, so `n > j`
                if char_at(s, n) == Some(']') {
                    Err(ParseError::ExpectedCommaOrBracket { offset: n as usize, found: Some(']') })
                } else if j < n <= s.len() {
                    elements(s, n, d, acc.push(v))
                } else {
                    Err(ParseError::UnexpectedToken { offset: n as usize, found: None })
                }
            } else if char_at(s, m) == Some(']') {
                Ok((Json::Array(acc.push(v)), m + 1))
            } else {
                Err(ParseError::ExpectedCommaOrBracket { offset: m as usize, found: char_at(s, m) })
            }
        },
    }
}

/// The object whose `{` stands at `i`; its member values sit at depth `d`.
pub open spec fn object(s: Seq<char>, i: int, d: int) -> Step<Json>
    decreases MAX_DEPTH - d, 5int, 0int,
{
    let j = skip_ws(s, i + 1);
    if char_at(s, j) == Some('}') {
        Ok((Json::Object(Seq::empty()), j + 1))
    } else {
        members(s, j, d, Seq::empty())
    }
}

/// The object's members from `j` on, after `acc`.
pub open spec fn members(s: Seq<char>, j: int, d: int, acc: Seq<(Seq<char>, Json)>) -> Step<Json>
    decreases MAX_DEPTH - d, 4int, s.len() - j,
{
    if char_at(s, j) != Some('"') {
        Err(ParseError::ExpectedStringKey { offset: j as usize, found: char_at(s, j) })
    } else {
        match string(s, j) {
            Err(e) => Err(e),
            Ok((key, k)) => {
                let m = skip_ws(s, k);
                if char_at(s, m) != Some(':') {
                    Err(ParseError::ExpectedColon { offset: m as usize, found: char_at(s, m) })
                } else {
                    match value(s, skip_ws(s, m + 1), d) {
                        Err(e) => Err(e),
                        Ok((v, p)) => {
                            let q = skip_ws(s, p);
                            let acc2 = put_member(acc, key, v);
                            if char_at(s, q) == Some(',') {
                                let n = skip_ws(s, q + 1);
                                // a member takes at least four characters, so `n > j`
                                if char_at(s, n) == Some('}') {
                                    Err(
                                        ParseError::ExpectedCommaOrBracket {
                                            offset: n as usize,
                                            found: Some('}'),
                                        },
                                    )
                                } else if j < n <= s.len() {
                                    members(s, n, d, acc2)
                                } else {
                                    Err(ParseError::UnexpectedToken { offset: n as usize, found: None })
                                }
                            } else if char_at(s, q) == Some('}') {
                                Ok((Json::Object(acc2), q + 1))
                            } else {
                                Err(
                                    ParseError::ExpectedCommaOrBracket {
                                        offset: q as usize,
                                        found: char_at(s, q),
                                    },
                                )
                            }
                        },
                    }
                }
            },
        }
    }
}

/// A whole document: one value, optionally surrounded by whitespace.
pub open spec fn document(s: Seq<char>) -> Result<Json, ParseError> {
    match value(s, skip_ws(s, 0), 0) {
        Err(e) => Err(e),
        Ok((v, j)) => {
            let k = skip_ws(s, j);
            if k < s.len() {
                Err(ParseError::TrailingContent { offset: k as usize, found: s[k] })
            } else {
                Ok(v)
            }
        },
    }
}

} // verus!
