//! The result renderer and the whole-text queries.
//!
//! Parsing document text and pretty-printing values are the work of the
//! collaborating JSON library, reached through a handful of trusted
//! declarations; everything around them — the query itself — is verified.

use vstd::prelude::*;
use crate::value::JsonValue;
use crate::value::Json;
use crate::value::deep_seq;
use crate::value::lemma_deep_seq;
use crate::eval::QueryError;
use crate::eval::spec_evaluate;
use crate::eval::evaluate;

verus! {

broadcast use vstd::std_specs::vec::group_vec_axioms;

/// The canonical pretty-printed text of a value, as the collaborating
/// printer writes it: it depends on the value alone.
pub uninterp spec fn pretty_of(v: Json) -> Seq<char>;

/// The parse of a document text: `None` exactly when the text is not one
/// well-formed JSON document. It depends on the text alone.
pub uninterp spec fn parsed_doc(s: Seq<char>) -> Option<Json>;

/// Mirror a value of this library into the collaborating library's tree,
/// variant by variant. Trusted conversion half of `to_pretty`.
#[verifier::external_body]
fn to_json(v: &JsonValue) -> serde_json::Value {
    match v {
        JsonValue::Null => serde_json::Value::Null,
        JsonValue::Bool(b) => serde_json::Value::Bool(*b),
        JsonValue::Number(n) => serde_json::Value::Number(n.clone()),
        JsonValue::Str(s) => serde_json::Value::String(s.clone()),
        JsonValue::Array(a) => serde_json::Value::Array(a.iter().map(to_json).collect()),
        JsonValue::Object(m) => serde_json::Value::Object(
            m.iter().map(|p| (p.0.clone(), to_json(&p.1))).collect(),
        ),
    }
}

/// Mirror the collaborating library's tree into a value of this library,
/// variant by variant. Trusted conversion half of `parse_json`.
#[verifier::external_body]
fn from_json(v: serde_json::Value) -> JsonValue {
    match v {
        serde_json::Value::Null => JsonValue::Null,
        serde_json::Value::Bool(b) => JsonValue::Bool(b),
        serde_json::Value::Number(n) => JsonValue::Number(n),
        serde_json::Value::String(s) => JsonValue::Str(s),
        serde_json::Value::Array(a) => JsonValue::Array(a.into_iter().map(from_json).collect()),
        serde_json::Value::Object(m) => JsonValue::Object(
            m.into_iter().map(|p| (p.0, from_json(p.1))).collect(),
        ),
    }
}

/// Relies on `serde_json::to_string_pretty`: it is deterministic in the
/// tree it is given (`to_json` mirrors this value into that tree one
/// variant at a time), and it cannot fail on `serde_json::Value`, whose
/// serializer never errors and whose map keys are strings.
#[verifier::external_body]
fn to_pretty(v: &JsonValue) -> (r: String)
    ensures
        r@ == pretty_of(v.deep()),
{
    serde_json::to_string_pretty(&to_json(v)).unwrap()
}

/// Relies on `serde_json::from_str`: it deterministically accepts one
/// complete well-formed JSON document text and rejects anything else; its
/// maps hold unique keys in insertion order, so the mirrored value is
/// well-formed.
#[verifier::external_body]
fn parse_json(text: &str) -> (r: Option<JsonValue>)
    ensures
        match r {
            Some(v) => parsed_doc(text@) == Some(v.deep()) && v.deep().wf(),
            None => parsed_doc(text@) is None,
        },
{
    match serde_json::from_str::<serde_json::Value>(text) {
        Ok(v) => Some(from_json(v)),
        Err(_) => None,
    }
}

/// The rendering of a value set: each value's pretty text, in order.
pub open spec fn spec_render(vs: Seq<Json>) -> Seq<Seq<char>> {
    Seq::new(vs.len(), |i: int| pretty_of(vs[i]))
}

/// Pretty-print each value independently, in order. No error path: any
/// value that reached this stage is a fully-formed JSON value.
pub fn render(values: &Vec<JsonValue>) -> (r: Vec<String>)
    ensures
        r@.len() == values@.len(),
        forall|i: int| 0 <= i < values@.len() ==> r@[i]@ == pretty_of(values@[i].deep()),
        Seq::new(r@.len(), |i: int| r@[i]@) == spec_render(deep_seq(values@)),
{
    let mut out: Vec<String> = Vec::new();
    let mut i: usize = 0;
    while i < values.len()
        invariant
            i <= values@.len(),
            out@.len() == i as int,
            forall|j: int| 0 <= j < i ==> out@[j]@ == pretty_of(values@[j].deep()),
        decreases values@.len() - i,
    {
        let s = to_pretty(&values[i]);
        out.push(s);
        i = i + 1;
    }
    proof {
        lemma_deep_seq(values@);
        assert(Seq::new(out@.len(), |i: int| out@[i]@) =~= spec_render(deep_seq(values@)));
    }
    out
}

/// Failure of a whole text query.
#[derive(Clone, Copy, Debug, PartialEq, Eq, Structural)]
pub enum TraverseError {
    /// The document text is not well-formed JSON.
    Parse,
    /// The path is malformed, or evaluation hit a structural mismatch.
    Query(QueryError),
}

/// Traverse a JSON document text and return the matched values, each
/// pretty-printed, based on the path argument. The supported paths are a
/// restricted subset of the `jq` utility's selectors.
pub fn traverse(v: &String, path: &String) -> (r: Result<Vec<String>, TraverseError>)
    ensures
        match r {
            Ok(out) => {
                &&& parsed_doc(v@) matches Some(d)
                &&& spec_evaluate(parsed_doc(v@)->0, path@) matches Ok(vs)
                &&& out@.len() == spec_evaluate(parsed_doc(v@)->0, path@)->Ok_0.len()
                &&& forall|i: int|
                    0 <= i < out@.len() ==> out@[i]@ == pretty_of(
                        spec_evaluate(parsed_doc(v@)->0, path@)->Ok_0[i],
                    )
            },
            Err(TraverseError::Parse) => parsed_doc(v@) is None,
            Err(TraverseError::Query(e)) => parsed_doc(v@) matches Some(d) && spec_evaluate(
                d,
                path@,
            ) == Err::<Seq<Json>, QueryError>(e),
        },
{
    let doc = match parse_json(v.as_str()) {
        Some(d) => d,
        None => {
            return Err(TraverseError::Parse);
        },
    };
    let vals = match evaluate(&doc, path.as_str()) {
        Ok(vs) => vs,
        Err(e) => {
            return Err(TraverseError::Query(e));
        },
    };
    let out = render(&vals);
    proof {
        lemma_deep_seq(vals@);
    }
    Ok(out)
}

/// Pretty-print the whole JSON document text, or report that it does not
/// parse.
pub fn format(v: &String) -> (r: Result<String, TraverseError>)
    ensures
        match r {
            Ok(s) => parsed_doc(v@) matches Some(d) && s@ == pretty_of(d),
            Err(e) => parsed_doc(v@) is None && e == TraverseError::Parse,
        },
{
    match parse_json(v.as_str()) {
        Some(d) => Ok(to_pretty(&d)),
        None => Err(TraverseError::Parse),
    }
}

} // verus!
