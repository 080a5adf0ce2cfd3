use vstd::prelude::*;

verus! {

/// The mathematical meaning of a parsed JSON document.
pub enum Json {
    Object(Seq<(Seq<char>, Json)>),
    Array(Seq<Json>),
    String(Seq<char>),
    /// The number as it is written: a token of the JSON number grammar.
    Number(Seq<char>),
    Bool(bool),
    Null,
}

/// A parsed JSON value. Objects keep their members in order of first
/// insertion, each key once.
#[derive(Debug)]
pub enum JSONValue {
    Object(Vec<(String, JSONValue)>),
    Array(Vec<JSONValue>),
    String(String),
    /// The number token as it stands in the text; converting it to a
    /// floating-point value is left to the caller.
    Number(String),
    Bool(bool),
    Null,
}

/// The six kinds of JSON value.
#[derive(Debug, Clone, Copy, PartialEq, Eq, Structural)]
pub enum ValueKind {
    Object,
    Array,
    String,
    Number,
    Bool,
    Null,
}

/// A value was asked for as a kind that it is not.
#[derive(Debug, Clone, Copy, PartialEq, Eq, Structural)]
pub struct KindMismatch {
    pub expected: ValueKind,
    pub found: ValueKind,
}

impl JSONValue {
    pub open spec fn spec_kind(&self) -> ValueKind {
        match *self {
            JSONValue::Object(_) => ValueKind::Object,
            JSONValue::Array(_) => ValueKind::Array,
            JSONValue::String(_) => ValueKind::String,
            JSONValue::Number(_) => ValueKind::Number,
            JSONValue::Bool(_) => ValueKind::Bool,
            JSONValue::Null => ValueKind::Null,
        }
    }

    pub fn kind(&self) -> (r: ValueKind)
        ensures
            r == self.spec_kind(),
    {
        match self {
            JSONValue::Object(_) => ValueKind::Object,
            JSONValue::Array(_) => ValueKind::Array,
            JSONValue::String(_) => ValueKind::String,
            JSONValue::Number(_) => ValueKind::Number,
            JSONValue::Bool(_) => ValueKind::Bool,
            JSONValue::Null => ValueKind::Null,
        }
    }

    pub fn is_null(&self) -> (r: bool)
        ensures
            r == (*self is Null),
    {
        match self {
            JSONValue::Null => true,
            _ => false,
        }
    }

    pub fn is_number(&self) -> (r: bool)
        ensures
            r == (*self is Number),
    {
        match self {
            JSONValue::Number(_) => true,
            _ => false,
        }
    }

    pub fn is_bool(&self) -> (r: bool)
        ensures
            r == (*self is Bool),
    {
        match self {
            JSONValue::Bool(_) => true,
            _ => false,
        }
    }

    pub fn is_string(&self) -> (r: bool)
        ensures
            r == (*self is String),
    {
        match self {
            JSONValue::String(_) => true,
            _ => false,
        }
    }

    pub fn is_array(&self) -> (r: bool)
        ensures
            r == (*self is Array),
    {
        match self {
            JSONValue::Array(_) => true,
            _ => false,
        }
    }

    pub fn is_object(&self) -> (r: bool)
        ensures
            r == (*self is Object),
    {
        match self {
            JSONValue::Object(_) => true,
            _ => false,
        }
    }

    /// The boolean that the value holds.
    pub fn try_into_bool(self) -> (r: Result<bool, KindMismatch>)
        ensures
            match self {
                JSONValue::Bool(b) => r == Ok::<bool, KindMismatch>(b),
                _ => r == Err::<bool, KindMismatch>(
                    KindMismatch { expected: ValueKind::Bool, found: self.spec_kind() },
                ),
            },
    {
        let found = self.kind();
        match self {
            JSONValue::Bool(b) => Ok(b),
            _ => Err(KindMismatch { expected: ValueKind::Bool, found }),
        }
    }

    /// The text of a string value.
    pub fn try_into_string(self) -> (r: Result<String, KindMismatch>)
        ensures
            match self {
                JSONValue::String(t) => r == Ok::<String, KindMismatch>(t),
                _ => r == Err::<String, KindMismatch>(
                    KindMismatch { expected: ValueKind::String, found: self.spec_kind() },
                ),
            },
    {
        let found = self.kind();
        match self {
            JSONValue::String(t) => Ok(t),
            _ => Err(KindMismatch { expected: ValueKind::String, found }),
        }
    }

    /// The token of a number value, as it was written.
    pub fn try_into_number_text(self) -> (r: Result<String, KindMismatch>)
        ensures
            match self {
                JSONValue::Number(t) => r == Ok::<String, KindMismatch>(t),
                _ => r == Err::<String, KindMismatch>(
                    KindMismatch { expected: ValueKind::Number, found: self.spec_kind() },
                ),
            },
    {
        let found = self.kind();
        match self {
            JSONValue::Number(t) => Ok(t),
            _ => Err(KindMismatch { expected: ValueKind::Number, found }),
        }
    }

    pub open spec fn deep(self) -> Json
        decreases self,
    {
        match self {
            JSONValue::Object(members) => Json::Object(deep_members(members@)),
            JSONValue::Array(items) => Json::Array(deep_items(items@)),
            JSONValue::String(s) => Json::String(s@),
            JSONValue::Number(t) => Json::Number(t@),
            JSONValue::Bool(b) => Json::Bool(b),
            JSONValue::Null => Json::Null,
        }
    }
}

pub open spec fn deep_items(items: Seq<JSONValue>) -> Seq<Json>
    decreases items,
{
    if items.len() == 0 {
        Seq::empty()
    } else {
        deep_items(items.drop_last()).push(items.last().deep())
    }
}

pub open spec fn deep_members(members: Seq<(String, JSONValue)>) -> Seq<(Seq<char>, Json)>
    decreases members,
{
    if members.len() == 0 {
        Seq::empty()
    } else {
        deep_members(members.drop_last()).push((members.last().0@, members.last().1.deep()))
    }
}

pub proof fn lemma_deep_members(members: Seq<(String, JSONValue)>)
    ensures
        deep_members(members).len() == members.len(),
        forall|k: int| 0 <= k < members.len() ==> #[trigger] deep_members(members)[k] == (
            members[k].0@,
            members[k].1.deep(),
        ),
    decreases members.len(),
{
    if members.len() > 0 {
        lemma_deep_members(members.drop_last());
    }
}

} // verus!
