//! General laws of the query engine, stated over the models that the
//! executable functions' contracts speak of.

use vstd::prelude::*;
use crate::value::Json;
use crate::value::lookup;
use crate::value::all_wf;
use crate::value::keys_unique;
use crate::value::members_wf;
use crate::path::Seg;
use crate::path::spec_parse_path;
use crate::eval::QueryError;
use crate::eval::seg_apply;
use crate::eval::seg_apply_one;
use crate::eval::eval_segs;
use crate::eval::spec_evaluate;
use crate::render::spec_render;
use crate::render::pretty_of;

verus! {

/// For every document and the empty path, evaluation succeeds with exactly
/// the one-element set holding the document.
pub proof fn lemma_empty_path_identity(d: Json)
    ensures
        spec_evaluate(d, Seq::<char>::empty()) == Ok::<Seq<Json>, QueryError>(seq![d]),
{
    assert(spec_parse_path(Seq::<char>::empty()) == Some(Seq::<Seg>::empty()));
    assert(eval_segs(seq![d], Seq::<Seg>::empty()) == Ok::<Seq<Json>, crate::eval::EvalError>(
        seq![d],
    ));
}

/// Evaluation is deterministic: the outcome is a function of the document
/// and the path alone, so two results of the same query are equal, values
/// and order alike. `evaluate` ensures each run's outcome equals
/// `spec_evaluate` on its inputs' models, so this covers repeated runs.
pub proof fn lemma_evaluate_deterministic(
    d: Json,
    path: Seq<char>,
    r1: Result<Seq<Json>, QueryError>,
    r2: Result<Seq<Json>, QueryError>,
)
    requires
        r1 == spec_evaluate(d, path),
        r2 == spec_evaluate(d, path),
    ensures
        r1 == r2,
{
}

/// Round trip: evaluating a parsed document against the path `.` and
/// rendering the result yields exactly the document's own pretty text.
pub proof fn lemma_round_trip(text: Seq<char>, d: Json)
    requires
        crate::render::parsed_doc(text) == Some(d),
    ensures
        spec_evaluate(d, seq!['.']) matches Ok(vs) && spec_render(vs) == seq![pretty_of(d)],
{
    let dot = seq!['.'];
    assert(dot[0] == '.');
    assert(dot.subrange(1, 1) =~= Seq::<char>::empty());
    assert(spec_parse_path(Seq::<char>::empty()) == Some(Seq::<Seg>::empty()));
    assert(spec_parse_path(dot) == Some(Seq::<Seg>::empty()));
    assert(eval_segs(seq![d], Seq::<Seg>::empty()) == Ok::<Seq<Json>, crate::eval::EvalError>(
        seq![d],
    ));
    assert(spec_render(seq![d]) =~= seq![pretty_of(d)]);
}

/// Length of the array member `name` of `v`, counting zero for a value
/// that such a segment skips.
pub open spec fn matched_len(v: Json, name: Seq<char>) -> int {
    match v {
        Json::Object(m) => match lookup(m, name) {
            Some(Json::Array(elems)) => elems.len() as int,
            _ => 0,
        },
        _ => 0,
    }
}

/// Sum of the matched arrays' lengths over a value set.
pub open spec fn matched_total(vs: Seq<Json>, name: Seq<char>) -> int
    decreases vs.len(),
{
    if vs.len() == 0 {
        0
    } else {
        matched_len(vs[0], name) + matched_total(vs.subrange(1, vs.len() as int), name)
    }
}

/// Monotonic narrowing: a plain-field or indexed segment never grows the
/// value set, and an all-elements segment yields exactly the sum of the
/// matched arrays' lengths.
pub proof fn lemma_narrowing(vs: Seq<Json>, seg: Seg)
    requires
        seg_apply(vs, seg) is Ok,
    ensures
        seg is Field ==> seg_apply(vs, seg)->Ok_0.len() <= vs.len(),
        seg is FieldIndexedElement ==> seg_apply(vs, seg)->Ok_0.len() <= vs.len(),
        seg matches Seg::FieldAllElements(name) ==> seg_apply(vs, seg)->Ok_0.len()
            == matched_total(vs, name),
    decreases vs.len(),
{
    if vs.len() > 0 {
        let tail = vs.subrange(1, vs.len() as int);
        let head = seg_apply_one(vs[0], seg)->Ok_0;
        lemma_narrowing(tail, seg);
        match seg {
            Seg::Field(_) => {
                assert(head.len() <= 1);
            },
            Seg::FieldIndexedElement(_, _) => {
                assert(head.len() <= 1);
            },
            Seg::FieldAllElements(name) => {
                assert(head.len() == matched_len(vs[0], name));
            },
        }
    }
}

/// A member looked up in a well-formed object is itself well-formed.
proof fn lemma_lookup_wf(m: Seq<(Seq<char>, Json)>, k: Seq<char>)
    requires
        Json::Object(m).wf(),
        lookup(m, k) is Some,
    ensures
        lookup(m, k)->0.wf(),
    decreases m.len(),
{
    assert(m.len() > 0);
    assert(keys_unique(m) && members_wf(m));
    if m[0].0 == k {
        assert(m[0].1.wf());
    } else {
        let tail = m.subrange(1, m.len() as int);
        assert forall|i: int, j: int| 0 <= i < j < tail.len() implies (#[trigger] tail[i]).0 != (
        #[trigger] tail[j]).0 by {
            assert(tail[i] == m[i + 1]);
            assert(tail[j] == m[j + 1]);
        }
        assert forall|i: int| 0 <= i < tail.len() implies (#[trigger] tail[i]).1.wf() by {
            assert(tail[i] == m[i + 1]);
        }
        assert(Json::Object(tail).wf());
        lemma_lookup_wf(tail, k);
    }
}

/// One value's contribution under a segment holds well-formed values only,
/// when the value itself is well-formed.
proof fn lemma_seg_apply_one_wf(v: Json, seg: Seg)
    requires
        v.wf(),
        seg_apply_one(v, seg) is Ok,
    ensures
        forall|i: int|
            0 <= i < seg_apply_one(v, seg)->Ok_0.len() ==> (#[trigger] seg_apply_one(
                v,
                seg,
            )->Ok_0[i]).wf(),
{
    let name = match seg {
        Seg::Field(n) => n,
        Seg::FieldAllElements(n) => n,
        Seg::FieldIndexedElement(n, _) => n,
    };
    let out = seg_apply_one(v, seg)->Ok_0;
    assert forall|i: int| 0 <= i < out.len() implies (#[trigger] out[i]).wf() by {
        match v {
            Json::Object(m) => {
                if lookup(m, name) is Some {
                    lemma_lookup_wf(m, name);
                    let x = lookup(m, name)->0;
                    assert(x.wf());
                    match x {
                        Json::Array(elems) => {
                            assert(all_wf(elems));
                        },
                        _ => {},
                    }
                }
            },
            _ => {},
        }
    }
}

/// A segment applied to well-formed values yields well-formed values.
proof fn lemma_seg_apply_wf(vs: Seq<Json>, seg: Seg)
    requires
        forall|i: int| 0 <= i < vs.len() ==> (#[trigger] vs[i]).wf(),
        seg_apply(vs, seg) is Ok,
    ensures
        forall|i: int|
            0 <= i < seg_apply(vs, seg)->Ok_0.len() ==> (#[trigger] seg_apply(
                vs,
                seg,
            )->Ok_0[i]).wf(),
    decreases vs.len(),
{
    if vs.len() > 0 {
        let tail = vs.subrange(1, vs.len() as int);
        let head = seg_apply_one(vs[0], seg)->Ok_0;
        let rest = seg_apply(tail, seg)->Ok_0;
        lemma_seg_apply_one_wf(vs[0], seg);
        assert(forall|i: int| 0 <= i < tail.len() ==> (#[trigger] tail[i]).wf());
        lemma_seg_apply_wf(tail, seg);
        let out = seg_apply(vs, seg)->Ok_0;
        assert(out == head + rest);
        assert forall|i: int| 0 <= i < out.len() implies (#[trigger] out[i]).wf() by {
            if i < head.len() {
                assert(out[i] == head[i]);
            } else {
                assert(out[i] == rest[i - head.len()]);
            }
        }
    }
}

/// Every state of the fold keeps well-formedness.
proof fn lemma_eval_segs_wf(vs: Seq<Json>, segs: Seq<Seg>)
    requires
        forall|i: int| 0 <= i < vs.len() ==> (#[trigger] vs[i]).wf(),
        eval_segs(vs, segs) is Ok,
    ensures
        forall|i: int|
            0 <= i < eval_segs(vs, segs)->Ok_0.len() ==> (#[trigger] eval_segs(
                vs,
                segs,
            )->Ok_0[i]).wf(),
    decreases segs.len(),
{
    if segs.len() > 0 {
        lemma_seg_apply_wf(vs, segs[0]);
        lemma_eval_segs_wf(seg_apply(vs, segs[0])->Ok_0, segs.subrange(1, segs.len() as int));
    }
}

/// Evaluation preserves the data model's invariant: every value matched
/// from a well-formed document — unique keys at every object — is itself
/// well-formed.
pub proof fn lemma_evaluate_preserves_wf(d: Json, path: Seq<char>)
    requires
        d.wf(),
        spec_evaluate(d, path) is Ok,
    ensures
        forall|i: int|
            0 <= i < spec_evaluate(d, path)->Ok_0.len() ==> (#[trigger] spec_evaluate(
                d,
                path,
            )->Ok_0[i]).wf(),
{
    if spec_parse_path(path) is Some {
        lemma_eval_segs_wf(seq![d], spec_parse_path(path)->0);
    }
}

} // verus!

