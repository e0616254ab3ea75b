//! The path parser: splits a dotted path expression into segment descriptors.
//!
//! A path is split on `.`; empty pieces are discarded, so `.`, `..a` and
//! `.a.` normalize alike. A piece with no bracket is a plain field access; a
//! piece `name[]` selects all elements of the array member `name`; a piece
//! `name[i]` selects the element at index `i`. Anything else — an unclosed
//! or empty-named accessor, non-numeric index text — is malformed.

use vstd::prelude::*;
use vstd::std_specs::iter::IteratorSpec;

verus! {

broadcast use vstd::std_specs::vec::group_vec_axioms;

/// Failure of path parsing.
#[derive(Clone, Copy, Debug, PartialEq, Eq, Structural)]
pub enum PathError {
    MalformedSegment,
}

/// One dot-delimited unit of a path expression.
#[derive(Debug)]
pub enum Segment {
    /// Select object member `name`.
    Field(String),
    /// Select array member `name`, then expand to all its elements.
    FieldAllElements(String),
    /// Select array member `name`, then pick the element at the index.
    FieldIndexedElement(String, usize),
}

/// Mathematical model of a segment.
pub enum Seg {
    Field(Seq<char>),
    FieldAllElements(Seq<char>),
    FieldIndexedElement(Seq<char>, int),
}

impl Segment {
    /// The model of this segment.
    pub open spec fn deep(&self) -> Seg {
        match self {
            Segment::Field(n) => Seg::Field(n@),
            Segment::FieldAllElements(n) => Seg::FieldAllElements(n@),
            Segment::FieldIndexedElement(n, i) => Seg::FieldIndexedElement(n@, *i as int),
        }
    }
}

/// Model of a sequence of segments.
pub open spec fn deep_segs(s: Seq<Segment>) -> Seq<Seg> {
    Seq::new(s.len(), |i: int| s[i].deep())
}

/// Index of the last occurrence of `c` in `p`, if any.
pub open spec fn rfind(p: Seq<char>, c: char) -> Option<int>
    decreases p.len(),
{
    if p.len() == 0 {
        None
    } else if p[p.len() - 1] == c {
        Some(p.len() - 1)
    } else {
        rfind(p.subrange(0, p.len() - 1), c)
    }
}

/// Index of the first occurrence of `c` in `p`, if any.
pub open spec fn find(p: Seq<char>, c: char) -> Option<int>
    decreases p.len(),
{
    if p.len() == 0 {
        None
    } else if p[0] == c {
        Some(0)
    } else {
        match find(p.subrange(1, p.len() as int), c) {
            None => None,
            Some(i) => Some(i + 1),
        }
    }
}

/// Is `c` a decimal digit?
pub open spec fn is_digit(c: char) -> bool {
    '0' as u32 <= c as u32 && c as u32 <= '9' as u32
}

/// Is `p` a non-empty run of decimal digits?
pub open spec fn is_digits(p: Seq<char>) -> bool {
    p.len() > 0 && forall|i: int| 0 <= i < p.len() ==> is_digit(#[trigger] p[i])
}

/// Value of the decimal numeral `p`.
pub open spec fn digits_val(p: Seq<char>) -> int
    decreases p.len(),
{
    if p.len() == 0 {
        0
    } else {
        digits_val(p.subrange(0, p.len() - 1)) * 10 + (p[p.len() - 1] as u32 - '0' as u32)
    }
}

/// Parse one non-empty dot-delimited piece into a segment descriptor.
///
/// A piece with a `]` is an array accessor: the first `[` must exist and not
/// be the piece's first character, and must come before the last `]`. The
/// text strictly between them is empty for an all-elements accessor, or a
/// decimal index that fits the machine's word size. A piece without `]` but
/// with a stray `[` is malformed; any other piece is a plain field name.
pub open spec fn parse_piece(p: Seq<char>) -> Option<Seg> {
    match rfind(p, ']') {
        None => {
            if find(p, '[') is Some {
                None
            } else {
                Some(Seg::Field(p))
            }
        },
        Some(end) => match find(p, '[') {
            None => None,
            Some(start) => {
                if start == 0 || end <= start {
                    None
                } else {
                    let name = p.subrange(0, start);
                    let inner = p.subrange(start + 1, end);
                    if inner.len() == 0 {
                        Some(Seg::FieldAllElements(name))
                    } else if is_digits(inner) && digits_val(inner) <= usize::MAX as int {
                        Some(Seg::FieldIndexedElement(name, digits_val(inner)))
                    } else {
                        None
                    }
                }
            },
        },
    }
}

/// The maximal dot-free prefix of `s`.
pub open spec fn piece_of(s: Seq<char>) -> Seq<char>
    decreases s.len(),
{
    if s.len() == 0 || s[0] == '.' {
        Seq::empty()
    } else {
        seq![s[0]] + piece_of(s.subrange(1, s.len() as int))
    }
}

pub proof fn lemma_piece_of_len(s: Seq<char>)
    ensures
        piece_of(s).len() <= s.len(),
        s.len() > 0 && s[0] != '.' ==> piece_of(s).len() >= 1,
    decreases s.len(),
{
    if s.len() > 0 && s[0] != '.' {
        lemma_piece_of_len(s.subrange(1, s.len() as int));
    }
}

/// Parse a whole path: split on `.`, discard empty pieces, parse each piece.
/// `None` means the path is malformed.
pub open spec fn spec_parse_path(s: Seq<char>) -> Option<Seq<Seg>>
    decreases s.len() via spec_parse_path_dec
{
    if s.len() == 0 {
        Some(Seq::empty())
    } else if s[0] == '.' {
        spec_parse_path(s.subrange(1, s.len() as int))
    } else {
        let p = piece_of(s);
        match parse_piece(p) {
            None => None,
            Some(seg) => match spec_parse_path(s.subrange(p.len() as int, s.len() as int)) {
                None => None,
                Some(rest) => Some(seq![seg] + rest),
            },
        }
    }
}

#[via_fn]
proof fn spec_parse_path_dec(s: Seq<char>) {
    if s.len() > 0 && s[0] != '.' {
        lemma_piece_of_len(s);
    }
}

/// Prepend `pre` to the segments in `rest`, keeping failure.
pub open spec fn with_prefix(pre: Seq<Seg>, rest: Option<Seq<Seg>>) -> Option<Seq<Seg>> {
    match rest {
        None => None,
        Some(r) => Some(pre + r),
    }
}

pub proof fn lemma_rfind_at(p: Seq<char>, c: char, i: int)
    requires
        0 <= i < p.len(),
        p[i] == c,
        forall|j: int| i < j < p.len() ==> p[j] != c,
    ensures
        rfind(p, c) == Some(i),
    decreases p.len(),
{
    if i < p.len() - 1 {
        lemma_rfind_at(p.subrange(0, p.len() - 1), c, i);
    }
}

pub proof fn lemma_rfind_none(p: Seq<char>, c: char)
    requires
        forall|j: int| 0 <= j < p.len() ==> p[j] != c,
    ensures
        rfind(p, c) is None,
    decreases p.len(),
{
    if p.len() > 0 {
        lemma_rfind_none(p.subrange(0, p.len() - 1), c);
    }
}

pub proof fn lemma_find_at(p: Seq<char>, c: char, i: int)
    requires
        0 <= i < p.len(),
        p[i] == c,
        forall|j: int| 0 <= j < i ==> p[j] != c,
    ensures
        find(p, c) == Some(i),
    decreases p.len(),
{
    if i > 0 {
        lemma_find_at(p.subrange(1, p.len() as int), c, i - 1);
    }
}

pub proof fn lemma_find_none(p: Seq<char>, c: char)
    requires
        forall|j: int| 0 <= j < p.len() ==> p[j] != c,
    ensures
        find(p, c) is None,
    decreases p.len(),
{
    if p.len() > 0 {
        lemma_find_none(p.subrange(1, p.len() as int), c);
    }
}

pub proof fn lemma_digits_val_nonneg(p: Seq<char>)
    requires
        forall|i: int| 0 <= i < p.len() ==> is_digit(#[trigger] p[i]),
    ensures
        digits_val(p) >= 0,
    decreases p.len(),
{
    if p.len() > 0 {
        lemma_digits_val_nonneg(p.subrange(0, p.len() - 1));
    }
}

/// The value of a numeral is at least the value of any of its prefixes.
pub proof fn lemma_digits_val_prefix(p: Seq<char>, k: int)
    requires
        0 <= k <= p.len(),
        forall|i: int| 0 <= i < p.len() ==> is_digit(#[trigger] p[i]),
    ensures
        digits_val(p.subrange(0, k)) <= digits_val(p),
    decreases p.len(),
{
    if k == p.len() {
        assert(p.subrange(0, k) =~= p);
    } else {
        let q = p.subrange(0, p.len() - 1);
        lemma_digits_val_nonneg(q);
        lemma_digits_val_prefix(q, k);
        assert(q.subrange(0, k) =~= p.subrange(0, k));
    }
}

/// The piece starting at the head of `s` ends at its first dot.
pub proof fn lemma_piece_of(s: Seq<char>, k: int)
    requires
        0 <= k <= s.len(),
        forall|j: int| 0 <= j < k ==> s[j] != '.',
        k == s.len() || s[k] == '.',
    ensures
        piece_of(s) == s.subrange(0, k),
    decreases k,
{
    if k == 0 {
        assert(s.subrange(0, 0) =~= Seq::<char>::empty());
    } else {
        let s1 = s.subrange(1, s.len() as int);
        lemma_piece_of(s1, k - 1);
        assert(seq![s[0]] + s1.subrange(0, k - 1) =~= s.subrange(0, k));
    }
}

/// Collect the characters of `s` into a vector.
fn chars_of(s: &str) -> (r: Vec<char>)
    ensures
        r@ == s@,
{
    let mut out: Vec<char> = Vec::new();
    let mut it = s.chars();
    loop
        invariant
            it.obeys_prophetic_iter_laws(),
            it.decrease() is Some,
            out@ + it.remaining() == s@,
        ensures
            out@ == s@,
        decreases it.decrease()->0,
    {
        match it.next() {
            Some(c) => {
                out.push(c);
                proof {
                    assert(out@ + it.remaining() =~= s@);
                }
            },
            None => {
                proof {
                    assert(out@ + it.remaining() =~= out@);
                    assert(out@ =~= s@);
                }
                break;
            },
        }
    }
    out
}

/// Relies on `String`'s `FromIterator<char>` impl: collecting characters
/// yields the string with exactly those characters.
#[verifier::external_body]
fn string_from_chars(cs: &Vec<char>) -> (r: String)
    ensures
        r@ == cs@,
{
    cs.iter().collect()
}

/// Copy the characters of `cs[lo..hi]` into a fresh vector.
fn sub_chars(cs: &Vec<char>, lo: usize, hi: usize) -> (r: Vec<char>)
    requires
        lo <= hi <= cs@.len(),
    ensures
        r@ == cs@.subrange(lo as int, hi as int),
{
    let mut out: Vec<char> = Vec::new();
    let mut k: usize = lo;
    while k < hi
        invariant
            lo <= k <= hi <= cs@.len(),
            out@ == cs@.subrange(lo as int, k as int),
        decreases hi - k,
    {
        let c = cs[k];
        out.push(c);
        proof {
            assert(out@ =~= cs@.subrange(lo as int, k as int + 1));
        }
        k = k + 1;
    }
    out
}

/// Build the field-name string from `cs[lo..hi]`.
fn name_string(cs: &Vec<char>, lo: usize, hi: usize) -> (r: String)
    requires
        lo <= hi <= cs@.len(),
    ensures
        r@ == cs@.subrange(lo as int, hi as int),
{
    let sub = sub_chars(cs, lo, hi);
    string_from_chars(&sub)
}

/// Parse the non-empty piece `cs[lo..hi]` into a segment.
fn parse_piece_exec(cs: &Vec<char>, lo: usize, hi: usize) -> (r: Result<Segment, PathError>)
    requires
        lo < hi <= cs@.len(),
    ensures
        match r {
            Ok(seg) => parse_piece(cs@.subrange(lo as int, hi as int)) == Some(seg.deep()),
            Err(e) => parse_piece(cs@.subrange(lo as int, hi as int)) is None && e
                == PathError::MalformedSegment,
        },
{
    let ghost p = cs@.subrange(lo as int, hi as int);
    // One forward scan: last `]` and first `[` in the piece.
    let mut endpos: usize = hi;  // `hi` stands for "none found"
    let mut lbpos: usize = hi;
    let mut t: usize = lo;
    while t < hi
        invariant
            lo <= t <= hi <= cs@.len(),
            endpos == hi || (lo <= endpos < t && cs@[endpos as int] == ']'),
            endpos == hi ==> forall|u: int| lo <= u < t ==> cs@[u] != ']',
            endpos < hi ==> forall|u: int| endpos < u < t ==> cs@[u] != ']',
            lbpos == hi || (lo <= lbpos < t && cs@[lbpos as int] == '['),
            lbpos == hi ==> forall|u: int| lo <= u < t ==> cs@[u] != '[',
            lbpos < hi ==> forall|u: int| lo <= u < lbpos ==> cs@[u] != '[',
        decreases hi - t,
    {
        let c = cs[t];
        if c == ']' {
            endpos = t;
        }
        if c == '[' && lbpos == hi {
            lbpos = t;
        }
        t = t + 1;
    }
    proof {
        if endpos == hi {
            lemma_rfind_none(p, ']');
        } else {
            lemma_rfind_at(p, ']', endpos - lo);
        }
        if lbpos == hi {
            lemma_find_none(p, '[');
        } else {
            lemma_find_at(p, '[', lbpos - lo);
        }
    }
    if endpos == hi {
        // No `]`: a stray `[` is malformed, otherwise a plain field.
        if lbpos != hi {
            return Err(PathError::MalformedSegment);
        }
        let name = name_string(cs, lo, hi);
        return Ok(Segment::Field(name));
    }
    if lbpos == hi || lbpos == lo || endpos <= lbpos {
        return Err(PathError::MalformedSegment);
    }
    let name = name_string(cs, lo, lbpos);
    let ghost inner = p.subrange(lbpos - lo + 1, endpos - lo);
    proof {
        assert(name@ =~= p.subrange(0, lbpos - lo));
        assert(inner =~= cs@.subrange(lbpos as int + 1, endpos as int));
    }
    if lbpos + 1 == endpos {
        return Ok(Segment::FieldAllElements(name));
    }
    // Decimal index between the brackets.
    let mut acc: usize = 0;
    let mut t: usize = lbpos + 1;
    while t < endpos
        invariant
            lo < lbpos + 1 <= t <= endpos < hi <= cs@.len(),
            p == cs@.subrange(lo as int, hi as int),
            rfind(p, ']') == Some(endpos - lo as int),
            find(p, '[') == Some(lbpos - lo as int),
            lbpos + 1 < endpos,
            name@ == p.subrange(0, lbpos - lo as int),
            inner == p.subrange(lbpos - lo as int + 1, endpos - lo as int),
            inner == cs@.subrange(lbpos as int + 1, endpos as int),
            forall|u: int| lbpos + 1 <= u < t ==> is_digit(#[trigger] cs@[u]),
            acc as int == digits_val(cs@.subrange(lbpos as int + 1, t as int)),
        decreases endpos - t,
    {
        let c = cs[t];
        let u = c as u32;
        if u < '0' as u32 || u > '9' as u32 {
            proof {
                assert(!is_digit(inner[t - (lbpos + 1)]));
            }
            return Err(PathError::MalformedSegment);
        }
        let d = (u - '0' as u32) as usize;
        let ghost taken = cs@.subrange(lbpos as int + 1, t as int + 1);
        proof {
            assert(taken.subrange(0, taken.len() - 1) =~= cs@.subrange(
                lbpos as int + 1,
                t as int,
            ));
            assert(digits_val(taken) == acc as int * 10 + d);
            assert(taken =~= inner.subrange(0, t - (lbpos + 1) + 1));
        }
        let next = match acc.checked_mul(10) {
            Some(m) => m.checked_add(d),
            None => None,
        };
        match next {
            Some(a2) => {
                acc = a2;
            },
            None => {
                proof {
                    if is_digits(inner) {
                        lemma_digits_val_prefix(inner, t - (lbpos + 1) + 1);
                    }
                }
                return Err(PathError::MalformedSegment);
            },
        }
        t = t + 1;
    }
    proof {
        assert(cs@.subrange(lbpos as int + 1, endpos as int) == inner);
        assert(is_digits(inner));
    }
    Ok(Segment::FieldIndexedElement(name, acc))
}

/// Parse a path expression into its sequence of segments.
///
/// Returns exactly the segments of the model parser, or
/// `PathError::MalformedSegment` exactly when the model parser rejects.
pub fn parse(path: &str) -> (r: Result<Vec<Segment>, PathError>)
    ensures
        match r {
            Ok(segs) => spec_parse_path(path@) == Some(deep_segs(segs@)),
            Err(e) => spec_parse_path(path@) is None && e == PathError::MalformedSegment,
        },
{
    let cs = chars_of(path);
    let n = cs.len();
    let mut segs: Vec<Segment> = Vec::new();
    let mut i: usize = 0;
    proof {
        assert(path@.subrange(0, n as int) =~= path@);
        if spec_parse_path(path@) is Some {
            assert(deep_segs(segs@) + spec_parse_path(path@)->0 =~= spec_parse_path(path@)->0);
        }
    }
    while i < n
        invariant
            n == cs@.len(),
            cs@ == path@,
            i <= n,
            spec_parse_path(path@) == with_prefix(
                deep_segs(segs@),
                spec_parse_path(path@.subrange(i as int, n as int)),
            ),
        decreases n - i,
    {
        let ghost s_i = path@.subrange(i as int, n as int);
        if cs[i] == '.' {
            proof {
                assert(s_i.subrange(1, s_i.len() as int) =~= path@.subrange(
                    i as int + 1,
                    n as int,
                ));
            }
            i = i + 1;
        } else {
            let mut j: usize = i;
            while j < n && cs[j] != '.'
                invariant
                    i <= j <= n,
                    n == cs@.len(),
                    forall|u: int| i <= u < j ==> cs@[u] != '.',
                decreases n - j,
            {
                j = j + 1;
            }
            proof {
                lemma_piece_of(s_i, j - i);
                assert(s_i.subrange(0, j - i) =~= path@.subrange(i as int, j as int));
                assert(piece_of(s_i) == path@.subrange(i as int, j as int));
            }
            let seg = match parse_piece_exec(&cs, i, j) {
                Ok(seg) => seg,
                Err(e) => {
                    proof {
                        assert(spec_parse_path(s_i) is None);
                    }
                    return Err(e);
                },
            };
            proof {
                assert(s_i.subrange((j - i) as int, s_i.len() as int) =~= path@.subrange(
                    j as int,
                    n as int,
                ));
            }
            let ghost segs0 = segs@;
            segs.push(seg);
            proof {
                let rest = spec_parse_path(path@.subrange(j as int, n as int));
                assert(spec_parse_path(s_i) == with_prefix(seq![seg.deep()], rest));
                assert(deep_segs(segs@) =~= deep_segs(segs0) + seq![seg.deep()]);
                if rest is Some {
                    assert(deep_segs(segs0) + (seq![seg.deep()] + rest->0) =~= deep_segs(segs@)
                        + rest->0);
                }
            }
            i = j;
        }
    }
    proof {
        assert(path@.subrange(n as int, n as int) =~= Seq::<char>::empty());
        assert(deep_segs(segs@) + Seq::<Seg>::empty() =~= deep_segs(segs@));
    }
    Ok(segs)
}

} // verus!
