//! The JSON data model: an owned tree of typed nodes.
//!
//! The query engine only ever reads and clones values, so numbers are carried
//! as the number type of the `serde_json` collaborator, opaque to the engine.
//! `Json` is the mathematical model of a value: the same tree, with sequences
//! in place of vectors and character sequences in place of strings.

use vstd::prelude::*;

verus! {

broadcast use vstd::std_specs::vec::group_vec_axioms;

/// The number type of the JSON library; the engine never looks inside one.
#[verifier::external_type_specification]
#[verifier::external_body]
pub struct ExNumber(serde_json::Number);

/// Mathematical model of a JSON value.
pub enum Json {
    Null,
    Bool(bool),
    Number(serde_json::Number),
    Str(Seq<char>),
    Array(Seq<Json>),
    Object(Seq<(Seq<char>, Json)>),
}

/// A JSON value: null, boolean, number, string, ordered array, or object
/// with string keys in insertion order.
pub enum JsonValue {
    Null,
    Bool(bool),
    Number(serde_json::Number),
    Str(String),
    Array(Vec<JsonValue>),
    Object(Vec<(String, JsonValue)>),
}

impl JsonValue {
    /// The model of this value.
    pub open spec fn deep(&self) -> Json
        decreases self,
    {
        match self {
            JsonValue::Null => Json::Null,
            JsonValue::Bool(b) => Json::Bool(*b),
            JsonValue::Number(n) => Json::Number(*n),
            JsonValue::Str(s) => Json::Str(s@),
            JsonValue::Array(a) => Json::Array(deep_seq(a@)),
            JsonValue::Object(m) => Json::Object(deep_obj(m@)),
        }
    }
}

/// Model of a sequence of values, element by element.
pub open spec fn deep_seq(s: Seq<JsonValue>) -> Seq<Json>
    decreases s,
{
    if s.len() == 0 {
        Seq::empty()
    } else {
        seq![s[0].deep()] + deep_seq(s.subrange(1, s.len() as int))
    }
}

/// Model of an object's member list, pair by pair.
pub open spec fn deep_obj(s: Seq<(String, JsonValue)>) -> Seq<(Seq<char>, Json)>
    decreases s,
{
    if s.len() == 0 {
        Seq::empty()
    } else {
        seq![(s[0].0@, s[0].1.deep())] + deep_obj(s.subrange(1, s.len() as int))
    }
}

pub proof fn lemma_deep_seq(s: Seq<JsonValue>)
    ensures
        deep_seq(s).len() == s.len(),
        forall|i: int| 0 <= i < s.len() ==> deep_seq(s)[i] == s[i].deep(),
    decreases s.len(),
{
    if s.len() > 0 {
        lemma_deep_seq(s.subrange(1, s.len() as int));
    }
}

pub proof fn lemma_deep_obj(s: Seq<(String, JsonValue)>)
    ensures
        deep_obj(s).len() == s.len(),
        forall|i: int| 0 <= i < s.len() ==> deep_obj(s)[i] == (s[i].0@, s[i].1.deep()),
    decreases s.len(),
{
    if s.len() > 0 {
        lemma_deep_obj(s.subrange(1, s.len() as int));
    }
}

/// First member of `m` whose key is `k`, if any. Keys are unique in a
/// well-formed object, so the first match is the only one.
pub open spec fn lookup(m: Seq<(Seq<char>, Json)>, k: Seq<char>) -> Option<Json>
    decreases m.len(),
{
    if m.len() == 0 {
        None
    } else if m[0].0 == k {
        Some(m[0].1)
    } else {
        lookup(m.subrange(1, m.len() as int), k)
    }
}

impl Json {
    /// Well-formedness: every object in the tree has pairwise distinct keys.
    pub open spec fn wf(&self) -> bool
        decreases self,
    {
        match self {
            Json::Null => true,
            Json::Bool(_) => true,
            Json::Number(_) => true,
            Json::Str(_) => true,
            Json::Array(a) => all_wf(*a),
            Json::Object(m) => keys_unique(*m) && members_wf(*m),
        }
    }
}

/// Every value of the sequence is well-formed.
pub open spec fn all_wf(a: Seq<Json>) -> bool
    decreases a,
{
    forall|i: int| 0 <= i < a.len() ==> (#[trigger] a[i]).wf()
}

/// The member keys are pairwise distinct.
pub open spec fn keys_unique(m: Seq<(Seq<char>, Json)>) -> bool {
    forall|i: int, j: int| 0 <= i < j < m.len() ==> (#[trigger] m[i]).0 != (#[trigger] m[j]).0
}

/// Every member value is well-formed.
pub open spec fn members_wf(m: Seq<(Seq<char>, Json)>) -> bool
    decreases m,
{
    forall|i: int| 0 <= i < m.len() ==> (#[trigger] m[i]).1.wf()
}

/// Relies on the derived `Clone` of `serde_json::Number`: the copy is the
/// same number.
#[verifier::external_body]
fn clone_number(n: &serde_json::Number) -> (r: serde_json::Number)
    ensures
        r == *n,
{
    n.clone()
}

impl JsonValue {
    /// An independent copy of this value and all its descendants.
    pub fn deep_clone(&self) -> (r: JsonValue)
        ensures
            r.deep() == self.deep(),
        decreases self,
    {
        match self {
            JsonValue::Null => JsonValue::Null,
            JsonValue::Bool(b) => JsonValue::Bool(*b),
            JsonValue::Number(n) => JsonValue::Number(clone_number(n)),
            JsonValue::Str(s) => JsonValue::Str(s.clone()),
            JsonValue::Array(a) => {
                let mut out: Vec<JsonValue> = Vec::new();
                let mut i: usize = 0;
                while i < a.len()
                    invariant
                        *self == JsonValue::Array(*a),
                        i <= a.len(),
                        out@.len() == i as int,
                        forall|j: int| 0 <= j < i ==> out@[j].deep() == a@[j].deep(),
                    decreases a.len() - i,
                {
                    proof {
                        assert(decreases_to!(*self => self->Array_0));
                        assert(self->Array_0 == *a);
                        assert(decreases_to!(*a => a@));
                        assert(decreases_to!(a@ => a@[i as int]));
                    }
                    let e = a[i].deep_clone();
                    out.push(e);
                    i = i + 1;
                }
                proof {
                    lemma_deep_seq(out@);
                    lemma_deep_seq(a@);
                    assert(deep_seq(out@) =~= deep_seq(a@));
                }
                JsonValue::Array(out)
            },
            JsonValue::Object(m) => {
                let mut out: Vec<(String, JsonValue)> = Vec::new();
                let mut i: usize = 0;
                while i < m.len()
                    invariant
                        *self == JsonValue::Object(*m),
                        i <= m.len(),
                        out@.len() == i as int,
                        forall|j: int|
                            0 <= j < i ==> out@[j].0@ == m@[j].0@ && out@[j].1.deep()
                                == m@[j].1.deep(),
                    decreases m.len() - i,
                {
                    proof {
                        assert(decreases_to!(*self => self->Object_0));
                        assert(self->Object_0 == *m);
                        assert(decreases_to!(*m => m@));
                        assert(decreases_to!(m@ => m@[i as int]));
                        assert(decreases_to!(m@[i as int] => m@[i as int].1));
                    }
                    let pair = (m[i].0.clone(), m[i].1.deep_clone());
                    out.push(pair);
                    i = i + 1;
                }
                proof {
                    lemma_deep_obj(out@);
                    lemma_deep_obj(m@);
                    assert(deep_obj(out@) =~= deep_obj(m@));
                }
                JsonValue::Object(out)
            },
        }
    }
}

} // verus!
