//! Properties of the parser as a whole.
use vstd::prelude::*;
use crate::error::ParseError;
use crate::grammar::{
    array, char_at, document, elements, has_key, keys_unique, members, object, put_member, skip_ws,
    string, value, MAX_DEPTH,
};
use crate::parser::parse_outcome;
use crate::value::{JSONValue, Json};

verus! {

/// `n` opening brackets and nothing else.
pub open spec fn open_brackets(n: nat) -> Seq<char> {
    Seq::new(n, |k: int| '[')
}

proof fn lemma_nested_from(s: Seq<char>, d: int)
    requires
        s.len() > MAX_DEPTH,
        forall|k: int| 0 <= k < s.len() ==> s[k] == '[',
        0 <= d <= MAX_DEPTH,
    ensures
        value(s, d, d) == Err::<(crate::value::Json, int), ParseError>(
            ParseError::NestingTooDeep { offset: MAX_DEPTH },
        ),
    decreases MAX_DEPTH - d,
{
    if d < MAX_DEPTH {
        lemma_nested_from(s, d + 1);
        assert(skip_ws(s, d + 1) == d + 1);
        assert(char_at(s, d + 1) == Some('['));
        assert(elements(s, d + 1, d + 1, Seq::empty()) == value(s, d + 1, d + 1));
        assert(array(s, d, d + 1) == value(s, d + 1, d + 1));
    }
}

/// Nesting deeper than the limit is reported, not followed: a text of more
/// than `MAX_DEPTH` opening brackets fails with `NestingTooDeep` at the
/// first bracket past the limit.
pub proof fn lemma_depth_limit(n: nat)
    requires
        n > MAX_DEPTH,
    ensures
        document(open_brackets(n)) == Err::<crate::value::Json, ParseError>(
            ParseError::NestingTooDeep { offset: MAX_DEPTH },
        ),
{
    let s = open_brackets(n);
    lemma_nested_from(s, 0);
    assert(skip_ws(s, 0) == 0);
}

/// Parsing is deterministic: two parses of one malformed text report the same
/// error, of the same kind at the same offset.
pub proof fn lemma_errors_repeat(
    input: Seq<char>,
    r1: Result<JSONValue, ParseError>,
    r2: Result<JSONValue, ParseError>,
)
    requires
        parse_outcome(input, r1),
        parse_outcome(input, r2),
        r1 is Err,
    ensures
        r2 is Err,
        r1->Err_0 == r2->Err_0,
        r1->Err_0.spec_offset() == r2->Err_0.spec_offset(),
{
}

/// Every object in `v`, at any depth, holds each key once.
pub open spec fn keys_unique_deep(v: Json) -> bool
    decreases v,
{
    match v {
        Json::Object(ms) => keys_unique(ms) && forall|k: int|
            0 <= k < ms.len() ==> keys_unique_deep(#[trigger] ms[k].1),
        Json::Array(items) => forall|k: int|
            0 <= k < items.len() ==> keys_unique_deep(#[trigger] items[k]),
        _ => true,
    }
}

pub open spec fn all_unique_deep(items: Seq<Json>) -> bool {
    forall|k: int| 0 <= k < items.len() ==> keys_unique_deep(#[trigger] items[k])
}

pub open spec fn members_unique_deep(ms: Seq<(Seq<char>, Json)>) -> bool {
    keys_unique(ms) && forall|k: int| 0 <= k < ms.len() ==> keys_unique_deep(#[trigger] ms[k].1)
}

proof fn lemma_put_member(ms: Seq<(Seq<char>, Json)>, k: Seq<char>, v: Json)
    requires
        members_unique_deep(ms),
        keys_unique_deep(v),
    ensures
        members_unique_deep(put_member(ms, k, v)),
{
    let r = put_member(ms, k, v);
    if has_key(ms, k) {
        let x = choose|x: int| 0 <= x < ms.len() && #[trigger] ms[x].0 == k;
        assert forall|a: int, b: int|
            0 <= a < r.len() && 0 <= b < r.len() && #[trigger] r[a].0 == #[trigger] r[b].0 implies a
            == b by {
            assert(r[a].0 == ms[a].0 && r[b].0 == ms[b].0);
        }
    } else {
        assert forall|a: int, b: int|
            0 <= a < r.len() && 0 <= b < r.len() && #[trigger] r[a].0 == #[trigger] r[b].0 implies a
            == b by {
            if a < ms.len() && b < ms.len() {
                assert(r[a].0 == ms[a].0 && r[b].0 == ms[b].0);
            } else if a < ms.len() {
                assert(ms[a].0 == k);
            } else if b < ms.len() {
                assert(ms[b].0 == k);
            }
        }
    }
}

proof fn lemma_value_unique(s: Seq<char>, i: int, depth: int)
    ensures
        value(s, i, depth) matches Ok((v, _)) ==> keys_unique_deep(v),
    decreases MAX_DEPTH - depth, 3int, 0int,
{
    if 0 <= i < s.len() && (s[i] == '[' || s[i] == '{') && depth < MAX_DEPTH {
        if s[i] == '[' {
            lemma_array_unique(s, i, depth + 1);
        } else {
            lemma_object_unique(s, i, depth + 1);
        }
    }
}

proof fn lemma_array_unique(s: Seq<char>, i: int, d: int)
    ensures
        array(s, i, d) matches Ok((v, _)) ==> keys_unique_deep(v),
    decreases MAX_DEPTH - d, 5int, 0int,
{
    let j = skip_ws(s, i + 1);
    if char_at(s, j) != Some(']') {
        lemma_elements_unique(s, j, d, Seq::empty());
    }
}

proof fn lemma_elements_unique(s: Seq<char>, j: int, d: int, acc: Seq<Json>)
    requires
        all_unique_deep(acc),
    ensures
        elements(s, j, d, acc) matches Ok((v, _)) ==> keys_unique_deep(v),
    decreases MAX_DEPTH - d, 4int, s.len() - j,
{
    lemma_value_unique(s, j, d);
    if let Ok((v, k)) = value(s, j, d) {
        let m = skip_ws(s, k);
        let acc2 = acc.push(v);
        assert(all_unique_deep(acc2)) by {
            assert forall|x: int| 0 <= x < acc2.len() implies keys_unique_deep(#[trigger] acc2[x]) by {
                if x < acc.len() {
                    assert(acc2[x] == acc[x]);
                }
            }
        }
        if char_at(s, m) == Some(',') {
            let n = skip_ws(s, m + 1);
            if char_at(s, n) != Some(']') && j < n <= s.len() {
                lemma_elements_unique(s, n, d, acc2);
            }
        }
    }
}

proof fn lemma_object_unique(s: Seq<char>, i: int, d: int)
    ensures
        object(s, i, d) matches Ok((v, _)) ==> keys_unique_deep(v),
    decreases MAX_DEPTH - d, 5int, 0int,
{
    let j = skip_ws(s, i + 1);
    if char_at(s, j) != Some('}') {
        lemma_members_unique(s, j, d, Seq::empty());
    }
}

proof fn lemma_members_unique(s: Seq<char>, j: int, d: int, acc: Seq<(Seq<char>, Json)>)
    requires
        members_unique_deep(acc),
    ensures
        members(s, j, d, acc) matches Ok((v, _)) ==> keys_unique_deep(v),
    decreases MAX_DEPTH - d, 4int, s.len() - j,
{
    if char_at(s, j) == Some('"') {
        if let Ok((key, k)) = string(s, j) {
            let m = skip_ws(s, k);
            if char_at(s, m) == Some(':') {
                lemma_value_unique(s, skip_ws(s, m + 1), d);
                if let Ok((v, p)) = value(s, skip_ws(s, m + 1), d) {
                    let q = skip_ws(s, p);
                    lemma_put_member(acc, key, v);
                    if char_at(s, q) == Some(',') {
                        let n = skip_ws(s, q + 1);
                        if char_at(s, n) != Some('}') && j < n <= s.len() {
                            lemma_members_unique(s, n, d, put_member(acc, key, v));
                        }
                    }
                }
            }
        }
    }
}

/// A parsed document holds no object with a repeated key, at any depth: a
/// later member with the same key replaces the earlier one's value.
pub proof fn lemma_parsed_keys_unique(input: Seq<char>)
    ensures
        document(input) matches Ok(v) ==> keys_unique_deep(v),
{
    lemma_value_unique(input, skip_ws(input, 0), 0);
}

} // verus!
