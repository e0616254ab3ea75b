//! The segment evaluator and the traversal driver.
//!
//! One segment maps a set of current values to the next set, value by value,
//! in order. Plain field access on a non-object aborts the query; a missing
//! field there is a silent skip. An array accessor skips non-objects
//! silently, but a missing field or a non-array member aborts. The driver
//! folds the segments over the one-element set holding the whole document,
//! short-circuiting on the first error.

use vstd::prelude::*;
use crate::value::JsonValue;
use crate::value::Json;
use crate::value::deep_seq;
use crate::value::deep_obj;
use crate::value::lookup;
use crate::value::lemma_deep_seq;
use crate::value::lemma_deep_obj;
use crate::path::PathError;
use crate::path::Segment;
use crate::path::Seg;
use crate::path::deep_segs;
use crate::path::spec_parse_path;
use crate::path::parse;

verus! {

broadcast use vstd::std_specs::vec::group_vec_axioms;

/// Failure of segment evaluation; any of these aborts the whole query.
#[derive(Clone, Copy, Debug, PartialEq, Eq, Structural)]
pub enum EvalError {
    /// Plain field access reached a value that is not an object.
    NotAnObject,
    /// An array accessor named a field absent from an object.
    MissingArrayField,
    /// An array accessor named a field whose value is not an array.
    NotAnArray,
}

/// Failure of a whole query: a malformed path or an evaluation error.
#[derive(Clone, Copy, Debug, PartialEq, Eq, Structural)]
pub enum QueryError {
    Path(PathError),
    Eval(EvalError),
}

/// One segment applied to one value: the values it contributes, or the error
/// that aborts the query.
pub open spec fn seg_apply_one(v: Json, seg: Seg) -> Result<Seq<Json>, EvalError> {
    match seg {
        Seg::Field(name) => match v {
            Json::Object(m) => match lookup(m, name) {
                Some(x) => Ok(seq![x]),
                None => Ok(Seq::empty()),
            },
            _ => Err(EvalError::NotAnObject),
        },
        Seg::FieldAllElements(name) => match v {
            Json::Object(m) => match lookup(m, name) {
                None => Err(EvalError::MissingArrayField),
                Some(Json::Array(elems)) => Ok(elems),
                Some(_) => Err(EvalError::NotAnArray),
            },
            _ => Ok(Seq::empty()),
        },
        Seg::FieldIndexedElement(name, idx) => match v {
            Json::Object(m) => match lookup(m, name) {
                None => Err(EvalError::MissingArrayField),
                Some(Json::Array(elems)) => if 0 <= idx < elems.len() {
                    Ok(seq![elems[idx]])
                } else {
                    Ok(Seq::empty())
                },
                Some(_) => Err(EvalError::NotAnArray),
            },
            _ => Ok(Seq::empty()),
        },
    }
}

/// One segment applied to a whole value set: the concatenation, in order, of
/// each value's contribution, or the first error.
pub open spec fn seg_apply(vs: Seq<Json>, seg: Seg) -> Result<Seq<Json>, EvalError>
    decreases vs.len(),
{
    if vs.len() == 0 {
        Ok(Seq::empty())
    } else {
        match seg_apply_one(vs[0], seg) {
            Err(e) => Err(e),
            Ok(head) => match seg_apply(vs.subrange(1, vs.len() as int), seg) {
                Err(e) => Err(e),
                Ok(tail) => Ok(head + tail),
            },
        }
    }
}

/// Splitting the value set splits the evaluation: the whole result is the
/// prefix's result followed by the suffix's, with the prefix's error first.
pub proof fn lemma_seg_apply_split(vs: Seq<Json>, seg: Seg, i: int)
    requires
        0 <= i <= vs.len(),
    ensures
        seg_apply(vs, seg) == (match seg_apply(vs.subrange(0, i), seg) {
            Err(e) => Err(e),
            Ok(pre) => match seg_apply(vs.subrange(i, vs.len() as int), seg) {
                Err(e) => Err(e),
                Ok(post) => Ok(pre + post),
            },
        }),
    decreases i,
{
    if i == 0 {
        assert(vs.subrange(0, 0) =~= Seq::<Json>::empty());
        assert(vs.subrange(0, vs.len() as int) =~= vs);
        if seg_apply(vs, seg) is Ok {
            assert(Seq::<Json>::empty() + seg_apply(vs, seg)->Ok_0 =~= seg_apply(vs, seg)->Ok_0);
        }
    } else {
        let tail = vs.subrange(1, vs.len() as int);
        lemma_seg_apply_split(tail, seg, i - 1);
        assert(tail.subrange(0, i - 1) =~= vs.subrange(0, i).subrange(
            1,
            vs.subrange(0, i).len() as int,
        ));
        assert(tail.subrange(i - 1, tail.len() as int) =~= vs.subrange(i, vs.len() as int));
        assert(vs.subrange(0, i)[0] == vs[0]);
        match seg_apply_one(vs[0], seg) {
            Err(_) => {},
            Ok(h) => {
                match seg_apply(tail.subrange(0, i - 1), seg) {
                    Err(_) => {},
                    Ok(pre1) => {
                        match seg_apply(vs.subrange(i, vs.len() as int), seg) {
                            Err(_) => {},
                            Ok(post) => {
                                assert(h + (pre1 + post) =~= (h + pre1) + post);
                            },
                        }
                    },
                }
            },
        }
    }
}

/// On a one-element set, a segment's result is that element's contribution.
pub proof fn lemma_seg_apply_single(v: Json, seg: Seg)
    ensures
        seg_apply(seq![v], seg) == seg_apply_one(v, seg),
{
    let vs = seq![v];
    assert(vs[0] == v);
    assert(vs.subrange(1, 1) =~= Seq::<Json>::empty());
    assert(seg_apply(Seq::<Json>::empty(), seg) == Ok::<Seq<Json>, EvalError>(Seq::<Json>::empty()));
    match seg_apply_one(v, seg) {
        Err(_) => {},
        Ok(h) => {
            assert(h + Seq::<Json>::empty() =~= h);
        },
    }
}

/// Fold the segments over the value set, short-circuiting on error.
pub open spec fn eval_segs(vs: Seq<Json>, segs: Seq<Seg>) -> Result<Seq<Json>, EvalError>
    decreases segs.len(),
{
    if segs.len() == 0 {
        Ok(vs)
    } else {
        match seg_apply(vs, segs[0]) {
            Err(e) => Err(e),
            Ok(next) => eval_segs(next, segs.subrange(1, segs.len() as int)),
        }
    }
}

/// The whole query at the model level: parse the path, then fold the
/// segments over the one-element set holding the document.
pub open spec fn spec_evaluate(d: Json, path: Seq<char>) -> Result<Seq<Json>, QueryError> {
    match spec_parse_path(path) {
        None => Err(QueryError::Path(PathError::MalformedSegment)),
        Some(segs) => match eval_segs(seq![d], segs) {
            Ok(vs) => Ok(vs),
            Err(e) => Err(QueryError::Eval(e)),
        },
    }
}

/// First member of `m` with key `name`, by scan; agrees with the model's
/// `lookup` on the object's model.
fn obj_get<'a>(m: &'a Vec<(String, JsonValue)>, name: &String) -> (r: Option<&'a JsonValue>)
    ensures
        match r {
            Some(v) => lookup(deep_obj(m@), name@) == Some(v.deep()),
            None => lookup(deep_obj(m@), name@) is None,
        },
{
    let ghost md = deep_obj(m@);
    proof {
        lemma_deep_obj(m@);
    }
    let mut j: usize = 0;
    while j < m.len()
        invariant
            j <= m@.len(),
            md == deep_obj(m@),
            md.len() == m@.len(),
            forall|t: int| 0 <= t < m@.len() ==> md[t] == (m@[t].0@, m@[t].1.deep()),
            forall|t: int| 0 <= t < j ==> md[t].0 != name@,
        decreases m@.len() - j,
    {
        let pair = &m[j];
        if pair.0 == *name {
            proof {
                lemma_lookup_skip(md, name@, j as int);
                assert(md.subrange(j as int, md.len() as int)[0] == md[j as int]);
            }
            return Some(&pair.1);
        }
        j = j + 1;
    }
    proof {
        lemma_lookup_skip(md, name@, md.len() as int);
        assert(md.subrange(md.len() as int, md.len() as int) =~= Seq::<(Seq<char>, Json)>::empty());
    }
    None
}

/// Skipping members whose keys all differ from `k` does not change the
/// lookup's result.
pub proof fn lemma_lookup_skip(m: Seq<(Seq<char>, Json)>, k: Seq<char>, i: int)
    requires
        0 <= i <= m.len(),
        forall|j: int| 0 <= j < i ==> m[j].0 != k,
    ensures
        lookup(m, k) == lookup(m.subrange(i, m.len() as int), k),
    decreases i,
{
    if i > 0 {
        let tail = m.subrange(1, m.len() as int);
        lemma_lookup_skip(tail, k, i - 1);
        assert(tail.subrange(i - 1, tail.len() as int) =~= m.subrange(i, m.len() as int));
    } else {
        assert(m.subrange(0, m.len() as int) =~= m);
    }
}

/// Apply one segment to the whole current value set.
///
/// The result is exactly the model's `seg_apply` on the models of the
/// inputs: the concatenated contributions in order, or the first error.
/// The current set is never mutated; every output value is a deep clone.
pub fn apply(current: &Vec<JsonValue>, segment: &Segment) -> (r: Result<Vec<JsonValue>, EvalError>)
    ensures
        match r {
            Ok(out) => seg_apply(deep_seq(current@), segment.deep()) == Ok::<Seq<Json>, EvalError>(
                deep_seq(out@),
            ),
            Err(e) => seg_apply(deep_seq(current@), segment.deep()) == Err::<Seq<Json>, EvalError>(
                e,
            ),
        },
{
    let ghost vs = deep_seq(current@);
    let ghost sg = segment.deep();
    proof {
        lemma_deep_seq(current@);
    }
    let mut out: Vec<JsonValue> = Vec::new();
    let mut k: usize = 0;
    proof {
        assert(vs.subrange(0, 0) =~= Seq::<Json>::empty());
        assert(deep_seq(out@) =~= Seq::<Json>::empty());
    }
    while k < current.len()
        invariant
            k <= current@.len(),
            vs == deep_seq(current@),
            vs.len() == current@.len(),
            forall|t: int| 0 <= t < current@.len() ==> vs[t] == current@[t].deep(),
            sg == segment.deep(),
            seg_apply(vs.subrange(0, k as int), sg) == Ok::<Seq<Json>, EvalError>(deep_seq(out@)),
        decreases current@.len() - k,
    {
        let ghost out0 = out@;
        let ghost piece_res = seg_apply_one(vs[k as int], sg);
        let v = &current[k];
        match segment {
            Segment::Field(name) => {
                match v {
                    JsonValue::Object(m) => {
                        match obj_get(m, name) {
                            Some(member) => {
                                let c = member.deep_clone();
                                out.push(c);
                            },
                            None => {},
                        }
                    },
                    _ => {
                        proof {
                            lemma_abort(vs, sg, k as int, EvalError::NotAnObject);
                        }
                        return Err(EvalError::NotAnObject);
                    },
                }
            },
            Segment::FieldAllElements(name) => {
                match v {
                    JsonValue::Object(m) => {
                        match obj_get(m, name) {
                            None => {
                                proof {
                                    lemma_abort(vs, sg, k as int, EvalError::MissingArrayField);
                                }
                                return Err(EvalError::MissingArrayField);
                            },
                            Some(member) => {
                                match member {
                                    JsonValue::Array(elems) => {
                                        proof {
                                            lemma_deep_seq(elems@);
                                        }
                                        let mut e: usize = 0;
                                        while e < elems.len()
                                            invariant
                                                e <= elems@.len(),
                                                out@.len() == out0.len() + e as int,
                                                forall|t: int|
                                                    0 <= t < out0.len() ==> out@[t] == out0[t],
                                                forall|t: int|
                                                    0 <= t < e ==> out@[out0.len() + t].deep()
                                                        == elems@[t].deep(),
                                            decreases elems@.len() - e,
                                        {
                                            let c = elems[e].deep_clone();
                                            out.push(c);
                                            e = e + 1;
                                        }
                                    },
                                    _ => {
                                        proof {
                                            lemma_abort(vs, sg, k as int, EvalError::NotAnArray);
                                        }
                                        return Err(EvalError::NotAnArray);
                                    },
                                }
                            },
                        }
                    },
                    _ => {},
                }
            },
            Segment::FieldIndexedElement(name, idx) => {
                match v {
                    JsonValue::Object(m) => {
                        match obj_get(m, name) {
                            None => {
                                proof {
                                    lemma_abort(vs, sg, k as int, EvalError::MissingArrayField);
                                }
                                return Err(EvalError::MissingArrayField);
                            },
                            Some(member) => {
                                match member {
                                    JsonValue::Array(elems) => {
                                        proof {
                                            lemma_deep_seq(elems@);
                                        }
                                        if *idx < elems.len() {
                                            let c = elems[*idx].deep_clone();
                                            out.push(c);
                                        }
                                    },
                                    _ => {
                                        proof {
                                            lemma_abort(vs, sg, k as int, EvalError::NotAnArray);
                                        }
                                        return Err(EvalError::NotAnArray);
                                    },
                                }
                            },
                        }
                    },
                    _ => {},
                }
            },
        }
        proof {
            lemma_deep_seq(out@);
            lemma_deep_seq(out0);
            assert(piece_res is Ok);
            assert(deep_seq(out@) =~= deep_seq(out0) + piece_res->Ok_0);
            lemma_step(vs, sg, k as int, deep_seq(out0), piece_res->Ok_0);
        }
        k = k + 1;
    }
    proof {
        assert(vs.subrange(0, vs.len() as int) =~= vs);
    }
    Ok(out)
}

/// If the prefix succeeded and the next value's contribution errs, the whole
/// evaluation errs with that error.
proof fn lemma_abort(vs: Seq<Json>, sg: Seg, k: int, e: EvalError)
    requires
        0 <= k < vs.len(),
        seg_apply_one(vs[k], sg) == Err::<Seq<Json>, EvalError>(e),
        seg_apply(vs.subrange(0, k), sg) is Ok,
    ensures
        seg_apply(vs, sg) == Err::<Seq<Json>, EvalError>(e),
{
    lemma_seg_apply_split(vs, sg, k);
    let suffix = vs.subrange(k, vs.len() as int);
    assert(suffix[0] == vs[k]);
}

/// If the prefix succeeded and the next value contributes `h`, the prefix
/// one longer succeeds with `h` appended.
proof fn lemma_step(vs: Seq<Json>, sg: Seg, k: int, pre: Seq<Json>, h: Seq<Json>)
    requires
        0 <= k < vs.len(),
        seg_apply(vs.subrange(0, k), sg) == Ok::<Seq<Json>, EvalError>(pre),
        seg_apply_one(vs[k], sg) == Ok::<Seq<Json>, EvalError>(h),
    ensures
        seg_apply(vs.subrange(0, k + 1), sg) == Ok::<Seq<Json>, EvalError>(pre + h),
{
    let ext = vs.subrange(0, k + 1);
    lemma_seg_apply_split(ext, sg, k);
    assert(ext.subrange(0, k) =~= vs.subrange(0, k));
    assert(ext.subrange(k, ext.len() as int) =~= seq![vs[k]]);
    lemma_seg_apply_single(vs[k], sg);
}

/// Evaluate a path expression against a document.
///
/// Parses the path; on success folds the segments over the one-element set
/// holding the document. The result is exactly the model's `spec_evaluate`:
/// the matched values in match order, or the first error, with nothing
/// partial on failure. The document itself is never mutated.
pub fn evaluate(document: &JsonValue, path: &str) -> (r: Result<Vec<JsonValue>, QueryError>)
    ensures
        match r {
            Ok(out) => spec_evaluate(document.deep(), path@) == Ok::<Seq<Json>, QueryError>(
                deep_seq(out@),
            ),
            Err(e) => spec_evaluate(document.deep(), path@) == Err::<Seq<Json>, QueryError>(e),
        },
{
    let segs = match parse(path) {
        Ok(s) => s,
        Err(_) => {
            return Err(QueryError::Path(PathError::MalformedSegment));
        },
    };
    let ghost sgs = deep_segs(segs@);
    let n = segs.len();
    let mut cur: Vec<JsonValue> = Vec::new();
    let first = document.deep_clone();
    cur.push(first);
    proof {
        lemma_deep_seq(cur@);
        assert(deep_seq(cur@) =~= seq![document.deep()]);
        assert(sgs.subrange(0, n as int) =~= sgs);
    }
    let mut k: usize = 0;
    while k < n
        invariant
            k <= n,
            n == segs@.len(),
            sgs == deep_segs(segs@),
            spec_parse_path(path@) == Some(sgs),
            sgs.len() == n,
            eval_segs(seq![document.deep()], sgs) == eval_segs(
                deep_seq(cur@),
                sgs.subrange(k as int, n as int),
            ),
        decreases n - k,
    {
        let ghost rest = sgs.subrange(k as int, n as int);
        proof {
            assert(rest[0] == sgs[k as int]);
            assert(sgs[k as int] == segs@[k as int].deep());
            assert(rest.subrange(1, rest.len() as int) =~= sgs.subrange(k as int + 1, n as int));
        }
        let next = match apply(&cur, &segs[k]) {
            Ok(next) => next,
            Err(e) => {
                return Err(QueryError::Eval(e));
            },
        };
        cur = next;
        k = k + 1;
    }
    proof {
        assert(sgs.subrange(n as int, n as int) =~= Seq::<Seg>::empty());
    }
    Ok(cur)
}

} // verus!
