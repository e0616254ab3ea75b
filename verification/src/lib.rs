//! A minimal query evaluator for JSON documents: a restricted subset of a
//! `jq`-style dotted path selector, evaluated over a parsed document.

pub mod value;
pub mod path;
pub mod eval;
pub mod jsonlib;
pub mod render;
pub mod laws;

pub use value::Json;
pub use value::JsonValue;
