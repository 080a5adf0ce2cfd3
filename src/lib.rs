//! A JSON text parser whose result is proved to be the one that the JSON
//! grammar in `grammar` gives, and a small union-find structure.
//!
//! Numbers are kept as the token that was written; turning one into a
//! floating-point value is left to the caller (`str::parse::<f64>`).
use vstd::prelude::*;

pub mod error;
pub mod value;
pub mod grammar;
pub mod cursor;
pub mod lexer;
pub mod parser;
pub mod laws;
pub mod union_find;

pub use cursor::Cursor;
pub use error::ParseError;
pub use grammar::MAX_DEPTH;
pub use lexer::{parse_json_false, parse_json_null, parse_json_number, parse_json_string, parse_json_true};
pub use parser::parse_json;
pub use union_find::UnionFind;
pub use value::{JSONValue, Json, KindMismatch, ValueKind};

verus! {

} // verus!
