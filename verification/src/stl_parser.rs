//! The STL codec: binary and textual decoding and encoding of triangle
//! meshes, with a format-detecting entry point.

use vstd::prelude::*;
use vstd::bytes::spec_u32_to_le_bytes;
use vstd::bytes::spec_u32_from_le_bytes;
use vstd::bytes::lemma_auto_spec_u32_to_from_le_bytes;
use vstd::bytes::u32_from_le_bytes;
use vstd::slice::slice_subrange;
use vstd::slice::slice_to_vec;

use crate::StlError;
use crate::StlErrorV;
use crate::err_view;
use crate::vec3::Vec3;
use crate::vec3::le_bytes_v;
use crate::vec3::parse_triple;
use crate::vec3::parse_floats;
use crate::vec3::push_u32_le;
use crate::float_bits::parse_float_bits;
use crate::float_bits::format_float_bits;
use crate::float_bits::decimal_of;
use crate::float_bits::float_bits_of;
use crate::float_bits::is_nan_bits;

verus! {

broadcast use vstd::array::group_array_axioms;

/// One triangle record: a normal and three ordered vertices. The vertex
/// order defines the winding.
#[verifier::ext_equal]
#[derive(Debug, Clone, Copy, PartialEq)]
pub struct Triangle {
    pub normal: Vec3,
    pub vertices: [Vec3; 3],
}

/// A mesh: the ordered list of its triangles.
pub type Triangles = Vec<Triangle>;

/// Namespace for the codec's entry points.
pub struct StlParser;

// ---------------------------------------------------------------------------
// Whitespace, tokens and lines
// ---------------------------------------------------------------------------

/// ASCII whitespace: tab, line feed, form feed, carriage return, space.
pub open spec fn is_ws(b: u8) -> bool {
    b == 9 || b == 10 || b == 12 || b == 13 || b == 32
}

/// Index of the first whitespace byte (counts to the length when there is
/// none).
pub open spec fn first_ws(s: Seq<u8>) -> nat
    decreases s.len(),
{
    if s.len() == 0 {
        0
    } else if is_ws(s[0]) {
        0
    } else {
        (1 + first_ws(s.drop_first())) as nat
    }
}

/// Index of the first line feed (counts to the length when there is none).
pub open spec fn first_nl(s: Seq<u8>) -> nat
    decreases s.len(),
{
    if s.len() == 0 {
        0
    } else if s[0] == 10 {
        0
    } else {
        (1 + first_nl(s.drop_first())) as nat
    }
}

pub proof fn lemma_first_ws_is(s: Seq<u8>, k: int)
    requires
        0 <= k <= s.len(),
        forall|j: int| 0 <= j < k ==> !is_ws(#[trigger] s[j]),
        k < s.len() ==> is_ws(s[k]),
    ensures
        first_ws(s) == k,
    decreases s.len(),
{
    if k == 0 {
        if s.len() > 0 {
            assert(is_ws(s[0]));
        }
    } else {
        assert(!is_ws(s[0]));
        assert(forall|j: int| 0 <= j < k - 1 ==> s.drop_first()[j] == s[j + 1]);
        lemma_first_ws_is(s.drop_first(), k - 1);
    }
}

pub proof fn lemma_first_nl_is(s: Seq<u8>, k: int)
    requires
        0 <= k <= s.len(),
        forall|j: int| 0 <= j < k ==> #[trigger] s[j] != 10,
        k < s.len() ==> s[k] == 10,
    ensures
        first_nl(s) == k,
    decreases s.len(),
{
    if k == 0 {
        if s.len() > 0 {
            assert(s[0] == 10);
        }
    } else {
        assert(s[0] != 10);
        assert(forall|j: int| 0 <= j < k - 1 ==> s.drop_first()[j] == s[j + 1]);
        lemma_first_nl_is(s.drop_first(), k - 1);
    }
}

/// The whitespace-separated tokens of a line, in order, without empties.
pub open spec fn tokens(s: Seq<u8>) -> Seq<Seq<u8>>
    decreases s.len(),
{
    if s.len() == 0 {
        Seq::empty()
    } else if is_ws(s[0]) {
        tokens(s.drop_first())
    } else {
        let k = vstd::math::min(first_ws(s) as int, s.len() as int);
        seq![s.take(k)] + tokens(s.subrange(k, s.len() as int))
    }
}

/// The tokens of a line after dropping the first `k`; a line with no more
/// than `k` tokens contributes none.
pub open spec fn tokens_from(l: Seq<u8>, k: int) -> Seq<Seq<u8>> {
    let t = tokens(l);
    if t.len() <= k {
        Seq::empty()
    } else {
        t.skip(k)
    }
}

/// The lines of a byte stream, split at each line feed. A stream without a
/// line feed is one line; a trailing line feed yields a final empty line.
pub open spec fn lines_of(b: Seq<u8>) -> Seq<Seq<u8>>
    decreases b.len(),
{
    let k = vstd::math::min(first_nl(b) as int, b.len() as int);
    if k == b.len() {
        seq![b]
    } else {
        seq![b.take(k)] + lines_of(b.subrange(k + 1, b.len() as int))
    }
}

/// Whether a byte is whitespace.
pub(crate) fn is_ws_byte(b: u8) -> (r: bool)
    ensures
        r == is_ws(b),
{
    b == 9 || b == 10 || b == 12 || b == 13 || b == 32
}

/// Split a line into its whitespace-separated tokens.
pub(crate) fn split_tokens(s: &[u8]) -> (r: Vec<Vec<u8>>)
    ensures
        r.deep_view() == tokens(s@),
{
    let mut res: Vec<Vec<u8>> = Vec::new();
    let mut i: usize = 0;
    proof {
        assert(s@.subrange(0, s@.len() as int) =~= s@);
        assert(res.deep_view() =~= Seq::<Seq<u8>>::empty());
    }
    while i < s.len()
        invariant
            i <= s@.len(),
            tokens(s@) == res.deep_view() + tokens(s@.subrange(i as int, s@.len() as int)),
        decreases s@.len() - i,
    {
        let ghost rem = s@.subrange(i as int, s@.len() as int);
        if is_ws_byte(s[i]) {
            proof {
                assert(rem.drop_first() =~= s@.subrange(i + 1, s@.len() as int));
            }
            i = i + 1;
        } else {
            let mut j: usize = i + 1;
            while j < s.len() && !is_ws_byte(s[j])
                invariant
                    i < j <= s@.len(),
                    forall|m: int| i <= m < j ==> !is_ws(#[trigger] s@[m]),
                decreases s@.len() - j,
            {
                j = j + 1;
            }
            proof {
                assert(forall|m: int|
                    0 <= m < j - i ==> !is_ws(#[trigger] rem[m]));
                lemma_first_ws_is(rem, j - i);
                assert(rem.take(j - i) =~= s@.subrange(i as int, j as int));
                assert(rem.subrange(j - i, rem.len() as int) =~= s@.subrange(
                    j as int,
                    s@.len() as int,
                ));
            }
            let tok = slice_to_vec(slice_subrange(s, i, j));
            let ghost old_res = res.deep_view();
            res.push(tok);
            proof {
                assert(res.deep_view() =~~= old_res + seq![tok@]);
            }
            i = j;
        }
    }
    proof {
        let rem = s@.subrange(i as int, s@.len() as int);
        assert(rem.len() == 0);
        assert(tokens(rem) =~= Seq::<Seq<u8>>::empty());
        assert(res.deep_view() + tokens(rem) =~= res.deep_view());
    }
    res
}

/// Prefix a parsed value list onto a further parse result.
pub open spec fn prepend_floats(p: Seq<u32>, r: Result<Seq<u32>, Seq<u8>>) -> Result<
    Seq<u32>,
    Seq<u8>,
> {
    match r {
        Ok(rest) => Ok(p + rest),
        Err(t) => Err(t),
    }
}

/// Parse a coordinate line into a vector, skipping the first `skip` tokens;
/// the remainder must be exactly three floats.
pub(crate) fn parse_line_triple(l: &[u8], skip: usize) -> (r: Result<Vec3, StlError>)
    ensures
        (match r {
            Ok(v) => Ok(v),
            Err(e) => Err(err_view(e)),
        }) == parse_triple(tokens_from(l@, skip as int)),
{
    let toks = split_tokens(l);
    let ghost t = tokens_from(l@, skip as int);
    let mut vals: Vec<u32> = Vec::new();
    let mut idx: usize = skip;
    proof {
        if skip < toks.deep_view().len() {
            assert(t == toks.deep_view().skip(skip as int));
        }
        assert(t.skip(0) =~= t);
        if crate::vec3::parse_floats(t) is Ok {
            let rest = crate::vec3::parse_floats(t)->Ok_0;
            assert(Seq::<u32>::empty() + rest =~= rest);
        }
    }
    while idx < toks.len()
        invariant
            skip <= idx,
            idx <= toks@.len() || idx == skip,
            toks.deep_view() == tokens(l@),
            t == tokens_from(l@, skip as int),
            skip < toks@.len() ==> t == toks.deep_view().skip(skip as int),
            toks@.len() <= skip ==> t == Seq::<Seq<u8>>::empty(),
            idx <= toks@.len() ==> vals@.len() == idx - skip,
            toks@.len() <= skip ==> vals@.len() == 0,
            vals@.len() <= t.len(),
            crate::vec3::parse_floats(t) == prepend_floats(
                vals@,
                crate::vec3::parse_floats(t.skip(vals@.len() as int)),
            ),
        decreases toks@.len() - idx,
    {
        let ghost j = vals@.len() as int;
        let ghost rest0 = t.skip(j);
        let tok_ref: &Vec<u8> = &toks[idx];
        proof {
            assert(rest0.len() > 0);
            assert(rest0[0] == t[j]);
            assert(t[j] == toks.deep_view()[idx as int]);
            assert(toks.deep_view()[idx as int] =~= tok_ref@);
            assert(rest0.drop_first() =~= t.skip(j + 1));
        }
        match parse_float_bits(tok_ref.as_slice()) {
            None => {
                proof {
                    assert(crate::vec3::parse_floats(rest0) == Err::<Seq<u32>, Seq<u8>>(
                        tok_ref@,
                    ));
                }
                let tok = slice_to_vec(tok_ref.as_slice());
                return Err(StlError::BadFloat(tok));
            },
            Some(b) => {
                let ghost vold = vals@;
                vals.push(b);
                proof {
                    assert(vals@ == vold.push(b));
                    if crate::vec3::parse_floats(t.skip(j + 1)) is Ok {
                        let r2 = crate::vec3::parse_floats(t.skip(j + 1))->Ok_0;
                        assert(crate::vec3::parse_floats(rest0) == Ok::<Seq<u32>, Seq<u8>>(
                            seq![b] + r2,
                        ));
                        assert(vold + (seq![b] + r2) =~= vold.push(b) + r2);
                    }
                }
            },
        }
        idx = idx + 1;
    }
    proof {
        assert(t.skip(vals@.len() as int).len() == 0);
        assert(t.skip(vals@.len() as int) =~= Seq::<Seq<u8>>::empty());
        if crate::vec3::parse_floats(t) is Ok {
            assert(vals@ + crate::vec3::parse_floats(t.skip(vals@.len() as int))->Ok_0 =~= vals@);
        }
    }
    if vals.len() == 3 {
        Ok(Vec3 { x: vals[0], y: vals[1], z: vals[2] })
    } else {
        Err(StlError::WrongCount)
    }
}

// ---------------------------------------------------------------------------
// Textual layout
// ---------------------------------------------------------------------------

/// The line with its surrounding whitespace removed.
pub open spec fn trim(s: Seq<u8>) -> Seq<u8>
    decreases s.len(),
{
    if s.len() == 0 {
        s
    } else if is_ws(s[0]) {
        trim(s.drop_first())
    } else if is_ws(s.last()) {
        trim(s.drop_last())
    } else {
        s
    }
}

pub proof fn lemma_trim_subrange(s: Seq<u8>, lo: int, hi: int)
    requires
        0 <= lo <= hi <= s.len(),
        forall|j: int| 0 <= j < lo ==> is_ws(#[trigger] s[j]),
        forall|j: int| hi <= j < s.len() ==> is_ws(#[trigger] s[j]),
        lo < hi ==> !is_ws(s[lo]) && !is_ws(s[hi - 1]),
    ensures
        trim(s) == s.subrange(lo, hi),
    decreases s.len(),
{
    if s.len() == 0 {
        assert(s.subrange(0, 0) =~= s);
    } else if is_ws(s[0]) {
        let d = s.drop_first();
        assert(forall|j: int| 0 <= j < d.len() ==> #[trigger] d[j] == s[j + 1]);
        if lo > 0 {
            lemma_trim_subrange(d, lo - 1, hi - 1);
            assert(d.subrange(lo - 1, hi - 1) =~= s.subrange(lo, hi));
        } else {
            assert(lo == hi);
            lemma_trim_subrange(d, 0, 0);
            assert(d.subrange(0, 0) =~= s.subrange(lo, hi));
        }
    } else if is_ws(s.last()) {
        let d = s.drop_last();
        assert(lo == 0);
        assert(hi < s.len());
        assert(forall|j: int| 0 <= j < d.len() ==> #[trigger] d[j] == s[j]);
        lemma_trim_subrange(d, lo, hi);
        assert(d.subrange(lo as int, hi as int) =~= s.subrange(lo, hi));
    } else {
        assert(lo == 0);
        assert(hi == s.len());
        assert(s.subrange(lo, hi) =~= s);
    }
}

/// The bounds of the trimmed middle of a line: everything before the first
/// bound and from the second on is whitespace.
pub(crate) fn trim_bounds(s: &[u8]) -> (r: (usize, usize))
    ensures
        r.0 <= r.1 <= s@.len(),
        trim(s@) == s@.subrange(r.0 as int, r.1 as int),
{
    let n = s.len();
    let mut lo: usize = 0;
    while lo < n && is_ws_byte(s[lo])
        invariant
            lo <= n == s@.len(),
            forall|j: int| 0 <= j < lo ==> is_ws(#[trigger] s@[j]),
        decreases n - lo,
    {
        lo = lo + 1;
    }
    let mut hi: usize = n;
    while hi > lo && is_ws_byte(s[hi - 1])
        invariant
            lo <= hi <= n == s@.len(),
            forall|j: int| hi <= j < n ==> is_ws(#[trigger] s@[j]),
        decreases hi,
    {
        hi = hi - 1;
    }
    proof {
        lemma_trim_subrange(s@, lo as int, hi as int);
    }
    (lo, hi)
}

/// A line that holds nothing but whitespace.
pub open spec fn is_blank(l: Seq<u8>) -> bool {
    trim(l).len() == 0
}

/// The bytes of `solid `, the opening keyword of the textual layout.
pub open spec fn solid_prefix() -> Seq<u8> {
    seq![115u8, 111u8, 108u8, 105u8, 100u8, 32u8]
}

/// The bytes of `facet normal `, the marker that opens one facet record.
pub open spec fn facet_prefix() -> Seq<u8> {
    seq![102u8, 97u8, 99u8, 101u8, 116u8, 32u8, 110u8, 111u8, 114u8, 109u8, 97u8, 108u8, 32u8]
}

/// The bytes of `solid `.
pub(crate) fn solid_marker() -> (r: Vec<u8>)
    ensures
        r@ == solid_prefix(),
{
    let mut v: Vec<u8> = Vec::new();
    v.push(115u8);
    v.push(111u8);
    v.push(108u8);
    v.push(105u8);
    v.push(100u8);
    v.push(32u8);
    proof {
        assert(v@ =~= solid_prefix());
    }
    v
}

/// The bytes of `facet normal `.
pub(crate) fn facet_marker() -> (r: Vec<u8>)
    ensures
        r@ == facet_prefix(),
{
    let mut v: Vec<u8> = Vec::new();
    v.push(102u8);
    v.push(97u8);
    v.push(99u8);
    v.push(101u8);
    v.push(116u8);
    v.push(32u8);
    v.push(110u8);
    v.push(111u8);
    v.push(114u8);
    v.push(109u8);
    v.push(97u8);
    v.push(108u8);
    v.push(32u8);
    proof {
        assert(v@ =~= facet_prefix());
    }
    v
}

/// Whether the slice's window from `lo` to `hi` opens with the given marker.
pub(crate) fn window_has_prefix(s: &[u8], lo: usize, hi: usize, p: &Vec<u8>) -> (r: bool)
    requires
        lo <= hi <= s@.len(),
    ensures
        r == (hi - lo >= p@.len() && s@.subrange(lo as int, hi as int).take(p@.len() as int)
            == p@),
    decreases p@.len(),
{
    let ghost w = s@.subrange(lo as int, hi as int);
    if hi - lo < p.len() {
        return false;
    }
    let mut i: usize = 0;
    while i < p.len()
        invariant
            lo <= hi <= s@.len(),
            i <= p@.len() <= hi - lo,
            w == s@.subrange(lo as int, hi as int),
            forall|j: int| 0 <= j < i ==> #[trigger] w[j] == p@[j],
        decreases p@.len() - i,
    {
        if s[lo + i] != p[i] {
            proof {
                assert(w.take(p@.len() as int)[i as int] != p@[i as int]);
            }
            return false;
        }
        proof {
            assert(w[i as int] == s@[lo + i]);
        }
        i = i + 1;
    }
    proof {
        assert(w.take(p@.len() as int) =~= p@);
    }
    true
}

/// A line whose trimmed text opens with `facet normal `.
pub open spec fn is_facet_line(l: Seq<u8>) -> bool {
    trim(l).len() >= 13 && trim(l).take(13) == facet_prefix()
}

/// An untrimmed line that opens with `solid `.
pub open spec fn starts_with_solid(l: Seq<u8>) -> bool {
    l.len() >= 6 && l.take(6) == solid_prefix()
}

/// Whether this line opens a facet record.
#[verifier::rlimit(50)]
pub(crate) fn is_facet_line_exec(l: &[u8]) -> (r: bool)
    ensures
        r == is_facet_line(l@),
{
    let (lo, hi) = trim_bounds(l);
    let marker = facet_marker();
    window_has_prefix(l, lo, hi, &marker)
}

/// Split a byte stream into its lines.
pub(crate) fn split_lines(s: &[u8]) -> (r: Vec<Vec<u8>>)
    ensures
        r.deep_view() == lines_of(s@),
        r@.len() >= 1,
{
    let n = s.len();
    let mut res: Vec<Vec<u8>> = Vec::new();
    let mut i: usize = 0;
    proof {
        assert(s@.subrange(0, n as int) =~= s@);
        assert(res.deep_view() =~= Seq::<Seq<u8>>::empty());
    }
    loop
        invariant
            i <= n == s@.len(),
            lines_of(s@) == res.deep_view() + lines_of(s@.subrange(i as int, n as int)),
        decreases n - i,
    {
        let ghost rem = s@.subrange(i as int, n as int);
        let mut j: usize = i;
        while j < n && s[j] != 10
            invariant
                i <= j <= n == s@.len(),
                forall|m: int| i <= m < j ==> #[trigger] s@[m] != 10,
            decreases n - j,
        {
            j = j + 1;
        }
        proof {
            assert(forall|m: int| 0 <= m < j - i ==> #[trigger] rem[m] != 10);
            lemma_first_nl_is(rem, j - i);
            assert(rem.take(j - i) =~= s@.subrange(i as int, j as int));
        }
        let line = slice_to_vec(slice_subrange(s, i, j));
        let ghost old_res = res.deep_view();
        res.push(line);
        proof {
            assert(res.deep_view() =~~= old_res + seq![line@]);
        }
        if j < n {
            proof {
                assert(rem.subrange(j - i + 1, rem.len() as int) =~= s@.subrange(
                    j + 1,
                    n as int,
                ));
            }
            i = j + 1;
        } else {
            proof {
                assert(lines_of(rem) =~= seq![rem]);
                assert(rem =~= line@);
                assert(res.deep_view() =~~= lines_of(s@));
            }
            return res;
        }
    }
}

/// The lines that survive the blank filter, in order.
pub open spec fn nonblank_lines(raw: Seq<Seq<u8>>) -> Seq<Seq<u8>>
    decreases raw.len(),
{
    if raw.len() == 0 {
        Seq::empty()
    } else if is_blank(raw.last()) {
        nonblank_lines(raw.drop_last())
    } else {
        nonblank_lines(raw.drop_last()) + seq![raw.last()]
    }
}

/// Prefix already-decoded triangles onto a further parse result.
pub open spec fn prepend_tris(p: Seq<Triangle>, r: Result<Seq<Triangle>, StlErrorV>) -> Result<
    Seq<Triangle>,
    StlErrorV,
> {
    match r {
        Ok(rest) => Ok(p + rest),
        Err(e) => Err(e),
    }
}

/// Decode the facet records among the non-blank body lines. A line whose
/// trimmed text opens with `facet normal ` starts a record: the rest of
/// that line must hold exactly three floats, the next line is skipped
/// unread, the following three lines each hold a vertex (first token
/// skipped, then exactly three floats), and two more lines are skipped
/// unread. Any other line is passed over.
pub open spec fn parse_facets(ls: Seq<Seq<u8>>) -> Result<Seq<Triangle>, StlErrorV>
    decreases ls.len(),
{
    if ls.len() == 0 {
        Ok(Seq::empty())
    } else if !is_facet_line(ls[0]) {
        parse_facets(ls.drop_first())
    } else {
        match parse_triple(tokens_from(ls[0], 2)) {
            Err(e) => Err(e),
            Ok(n) => if ls.len() < 3 {
                Err(StlErrorV::MissingLine)
            } else {
                match parse_triple(tokens_from(ls[2], 1)) {
                    Err(e) => Err(e),
                    Ok(v0) => if ls.len() < 4 {
                        Err(StlErrorV::MissingLine)
                    } else {
                        match parse_triple(tokens_from(ls[3], 1)) {
                            Err(e) => Err(e),
                            Ok(v1) => if ls.len() < 5 {
                                Err(StlErrorV::MissingLine)
                            } else {
                                match parse_triple(tokens_from(ls[4], 1)) {
                                    Err(e) => Err(e),
                                    Ok(v2) => {
                                        let cut = if ls.len() < 7 {
                                            ls.len() as int
                                        } else {
                                            7
                                        };
                                        prepend_tris(
                                            seq![
                                                (Triangle {
                                                    normal: n,
                                                    vertices: [v0, v1, v2],
                                                }),
                                            ],
                                            parse_facets(ls.skip(cut)),
                                        )
                                    },
                                }
                            },
                        }
                    },
                }
            },
        }
    }
}

pub proof fn lemma_parse_facets_skip(ls: Seq<Seq<u8>>)
    requires
        ls.len() > 0,
        !is_facet_line(ls[0]),
    ensures
        parse_facets(ls) == parse_facets(ls.drop_first()),
{
}

pub proof fn lemma_parse_facets_err_normal(ls: Seq<Seq<u8>>, ev: StlErrorV)
    requires
        ls.len() > 0,
        is_facet_line(ls[0]),
        parse_triple(tokens_from(ls[0], 2)) == Err::<Vec3, StlErrorV>(ev),
    ensures
        parse_facets(ls) == Err::<Seq<Triangle>, StlErrorV>(ev),
{
}

pub proof fn lemma_parse_facets_err_vertex(ls: Seq<Seq<u8>>, n: Vec3, upto: int)
    requires
        ls.len() > 0,
        is_facet_line(ls[0]),
        parse_triple(tokens_from(ls[0], 2)) == Ok::<Vec3, StlErrorV>(n),
        2 <= upto <= 4,
        forall|j: int| 2 <= j < upto ==> j < ls.len() && (#[trigger] parse_triple(
            tokens_from(ls[j], 1),
        )) is Ok,
    ensures
        ls.len() <= upto ==> parse_facets(ls) == Err::<Seq<Triangle>, StlErrorV>(
            StlErrorV::MissingLine,
        ),
        ls.len() > upto && parse_triple(tokens_from(ls[upto], 1)) is Err ==> parse_facets(ls)
            == Err::<Seq<Triangle>, StlErrorV>(parse_triple(tokens_from(ls[upto], 1))->Err_0),
{
}

pub proof fn lemma_parse_facets_step(ls: Seq<Seq<u8>>, n: Vec3, v0: Vec3, v1: Vec3, v2: Vec3)
    requires
        ls.len() >= 5,
        is_facet_line(ls[0]),
        parse_triple(tokens_from(ls[0], 2)) == Ok::<Vec3, StlErrorV>(n),
        parse_triple(tokens_from(ls[2], 1)) == Ok::<Vec3, StlErrorV>(v0),
        parse_triple(tokens_from(ls[3], 1)) == Ok::<Vec3, StlErrorV>(v1),
        parse_triple(tokens_from(ls[4], 1)) == Ok::<Vec3, StlErrorV>(v2),
    ensures
        parse_facets(ls) == prepend_tris(
            seq![(Triangle { normal: n, vertices: [v0, v1, v2] })],
            parse_facets(ls.skip(if ls.len() < 7 { ls.len() as int } else { 7 })),
        ),
{
}

/// Decode the textual layout: a `solid ` opening line, then facet records.
pub open spec fn ascii_decode(b: Seq<u8>) -> Result<Seq<Triangle>, StlErrorV> {
    let raw = lines_of(b);
    if !starts_with_solid(raw[0]) {
        Err(StlErrorV::MissingSolid)
    } else {
        parse_facets(nonblank_lines(raw.drop_first()))
    }
}

// ---------------------------------------------------------------------------
// Textual encoding
// ---------------------------------------------------------------------------

/// Printable, non-blank bytes only.
pub open spec fn printable(s: Seq<u8>) -> bool {
    forall|i: int| 0 <= i < s.len() ==> 0x20 < #[trigger] s[i] < 0x7f
}

/// What the float formatter guarantees of one component: a non-empty
/// printable token that parses back to the very same bit pattern.
pub open spec fn component_fmt_ok(b: u32) -> bool {
    &&& decimal_of(b).len() > 0
    &&& printable(decimal_of(b))
    &&& float_bits_of(decimal_of(b)) == Some(b)
}

/// No component of the triangle is a NaN.
pub open spec fn tri_no_nan(t: Triangle) -> bool {
    &&& !is_nan_bits(t.normal.x) && !is_nan_bits(t.normal.y) && !is_nan_bits(t.normal.z)
    &&& !is_nan_bits(t.vertices[0].x) && !is_nan_bits(t.vertices[0].y) && !is_nan_bits(
        t.vertices[0].z,
    )
    &&& !is_nan_bits(t.vertices[1].x) && !is_nan_bits(t.vertices[1].y) && !is_nan_bits(
        t.vertices[1].z,
    )
    &&& !is_nan_bits(t.vertices[2].x) && !is_nan_bits(t.vertices[2].y) && !is_nan_bits(
        t.vertices[2].z,
    )
}

/// No component of the mesh is a NaN.
pub open spec fn mesh_no_nan(m: Seq<Triangle>) -> bool {
    forall|i: int| 0 <= i < m.len() ==> tri_no_nan(#[trigger] m[i])
}

/// Every component of the triangle formats exactly.
pub open spec fn tri_fmt_ok(t: Triangle) -> bool {
    &&& component_fmt_ok(t.normal.x) && component_fmt_ok(t.normal.y) && component_fmt_ok(
        t.normal.z,
    )
    &&& component_fmt_ok(t.vertices[0].x) && component_fmt_ok(t.vertices[0].y)
        && component_fmt_ok(t.vertices[0].z)
    &&& component_fmt_ok(t.vertices[1].x) && component_fmt_ok(t.vertices[1].y)
        && component_fmt_ok(t.vertices[1].z)
    &&& component_fmt_ok(t.vertices[2].x) && component_fmt_ok(t.vertices[2].y)
        && component_fmt_ok(t.vertices[2].z)
}

/// Every component of the mesh formats exactly.
pub open spec fn mesh_fmt_ok(m: Seq<Triangle>) -> bool {
    forall|i: int| 0 <= i < m.len() ==> tri_fmt_ok(#[trigger] m[i])
}

/// One line feed.
pub open spec fn nl() -> Seq<u8> {
    seq![10u8]
}

/// Three formatted components separated by single blanks.
pub open spec fn num3(v: Vec3) -> Seq<u8> {
    decimal_of(v.x) + seq![32u8] + decimal_of(v.y) + seq![32u8] + decimal_of(v.z)
}

/// The bytes of `solid RustStlParser`.
pub open spec fn solid_line() -> Seq<u8> {
    solid_prefix() + seq![
        82u8,
        117u8,
        115u8,
        116u8,
        83u8,
        116u8,
        108u8,
        80u8,
        97u8,
        114u8,
        115u8,
        101u8,
        114u8,
    ]
}

/// The bytes of `endsolid RustStlParser`.
pub open spec fn endsolid_line() -> Seq<u8> {
    seq![101u8, 110u8, 100u8] + solid_line()
}

/// The bytes of `  outer loop`.
pub open spec fn outer_line() -> Seq<u8> {
    seq![32u8, 32u8, 111u8, 117u8, 116u8, 101u8, 114u8, 32u8, 108u8, 111u8, 111u8, 112u8]
}

/// The bytes of `  vertex `.
pub open spec fn vertex_prefix() -> Seq<u8> {
    seq![32u8, 32u8, 118u8, 101u8, 114u8, 116u8, 101u8, 120u8, 32u8]
}

/// One vertex line.
pub open spec fn vertex_line(v: Vec3) -> Seq<u8> {
    vertex_prefix() + num3(v)
}

/// One facet-opening line.
pub open spec fn facet_line(t: Triangle) -> Seq<u8> {
    seq![32u8] + facet_prefix() + num3(t.normal)
}

/// The bytes of `  endloop`.
pub open spec fn endloop_line() -> Seq<u8> {
    seq![32u8, 32u8, 101u8, 110u8, 100u8, 108u8, 111u8, 111u8, 112u8]
}

/// The bytes of ` endfacet`.
pub open spec fn endfacet_line() -> Seq<u8> {
    seq![32u8, 101u8, 110u8, 100u8, 102u8, 97u8, 99u8, 101u8, 116u8]
}

/// The seven content lines of one facet record and its blank separator.
pub open spec fn block_of(t: Triangle) -> Seq<u8> {
    facet_line(t) + nl() + outer_line() + nl() + vertex_line(t.vertices[0]) + nl() + vertex_line(
        t.vertices[1],
    ) + nl() + vertex_line(t.vertices[2]) + nl() + endloop_line() + nl() + endfacet_line() + nl()
        + nl()
}

/// All facet records, in order.
pub open spec fn ascii_blocks(m: Seq<Triangle>) -> Seq<u8>
    decreases m.len(),
{
    if m.len() == 0 {
        Seq::empty()
    } else {
        ascii_blocks(m.drop_last()) + block_of(m.last())
    }
}

/// The full textual encoding: the `solid` line, the facet records, and the
/// closing `endsolid` line.
pub open spec fn ascii_encode(m: Seq<Triangle>) -> Seq<u8> {
    solid_line() + nl() + ascii_blocks(m) + endsolid_line() + nl()
}

/// Append a byte run.
pub(crate) fn push_bytes(out: &mut Vec<u8>, s: &[u8])
    ensures
        final(out)@ == old(out)@ + s@,
{
    let n = s.len();
    let mut i: usize = 0;
    while i < n
        invariant
            i <= n == s@.len(),
            out@ == old(out)@ + s@.take(i as int),
        decreases n - i,
    {
        out.push(s[i]);
        i = i + 1;
        proof {
            assert(old(out)@ + s@.take(i - 1) + seq![s@[i - 1]] =~= old(out)@ + s@.take(
                i as int,
            ));
        }
    }
    proof {
        assert(s@.take(n as int) =~= s@);
    }
}

/// Append one formatted component followed by nothing; states the
/// formatter's facts about it.
pub(crate) fn push_component(out: &mut Vec<u8>, bits: u32)
    ensures
        final(out)@ == old(out)@ + decimal_of(bits),
        decimal_of(bits).len() > 0,
        printable(decimal_of(bits)),
        !is_nan_bits(bits) ==> float_bits_of(decimal_of(bits)) == Some(bits),
{
    let d = format_float_bits(bits);
    push_bytes(out, d.as_slice());
}

/// Append `X Y Z` for one vector.
pub(crate) fn push_num3(out: &mut Vec<u8>, v: Vec3)
    ensures
        final(out)@ == old(out)@ + num3(v),
        !is_nan_bits(v.x) ==> component_fmt_ok(v.x),
        !is_nan_bits(v.y) ==> component_fmt_ok(v.y),
        !is_nan_bits(v.z) ==> component_fmt_ok(v.z),
{
    push_component(out, v.x);
    out.push(32u8);
    push_component(out, v.y);
    out.push(32u8);
    push_component(out, v.z);
    proof {
        assert(out@ =~= old(out)@ + num3(v));
    }
}

/// The bytes of `solid RustStlParser`.
pub(crate) fn solid_line_text() -> (r: Vec<u8>)
    ensures
        r@ == solid_line(),
{
    let mut v = solid_marker();
    v.push(82u8);
    v.push(117u8);
    v.push(115u8);
    v.push(116u8);
    v.push(83u8);
    v.push(116u8);
    v.push(108u8);
    v.push(80u8);
    v.push(97u8);
    v.push(114u8);
    v.push(115u8);
    v.push(101u8);
    v.push(114u8);
    proof {
        assert(v@ =~= solid_line());
    }
    v
}

/// The bytes of `endsolid RustStlParser`.
pub(crate) fn endsolid_line_text() -> (r: Vec<u8>)
    ensures
        r@ == endsolid_line(),
{
    let mut v: Vec<u8> = Vec::new();
    v.push(101u8);
    v.push(110u8);
    v.push(100u8);
    let tail = solid_line_text();
    push_bytes(&mut v, tail.as_slice());
    proof {
        assert(v@ =~= endsolid_line());
    }
    v
}

/// The bytes of `  outer loop`.
pub(crate) fn outer_line_text() -> (r: Vec<u8>)
    ensures
        r@ == outer_line(),
{
    let mut v: Vec<u8> = Vec::new();
    v.push(32u8);
    v.push(32u8);
    v.push(111u8);
    v.push(117u8);
    v.push(116u8);
    v.push(101u8);
    v.push(114u8);
    v.push(32u8);
    v.push(108u8);
    v.push(111u8);
    v.push(111u8);
    v.push(112u8);
    proof {
        assert(v@ =~= outer_line());
    }
    v
}

/// The bytes of `  vertex `.
pub(crate) fn vertex_prefix_text() -> (r: Vec<u8>)
    ensures
        r@ == vertex_prefix(),
{
    let mut v: Vec<u8> = Vec::new();
    v.push(32u8);
    v.push(32u8);
    v.push(118u8);
    v.push(101u8);
    v.push(114u8);
    v.push(116u8);
    v.push(101u8);
    v.push(120u8);
    v.push(32u8);
    proof {
        assert(v@ =~= vertex_prefix());
    }
    v
}

/// The bytes of `  endloop`.
pub(crate) fn endloop_line_text() -> (r: Vec<u8>)
    ensures
        r@ == endloop_line(),
{
    let mut v: Vec<u8> = Vec::new();
    v.push(32u8);
    v.push(32u8);
    v.push(101u8);
    v.push(110u8);
    v.push(100u8);
    v.push(108u8);
    v.push(111u8);
    v.push(111u8);
    v.push(112u8);
    proof {
        assert(v@ =~= endloop_line());
    }
    v
}

/// The bytes of ` endfacet`.
pub(crate) fn endfacet_line_text() -> (r: Vec<u8>)
    ensures
        r@ == endfacet_line(),
{
    let mut v: Vec<u8> = Vec::new();
    v.push(32u8);
    v.push(101u8);
    v.push(110u8);
    v.push(100u8);
    v.push(102u8);
    v.push(97u8);
    v.push(99u8);
    v.push(101u8);
    v.push(116u8);
    proof {
        assert(v@ =~= endfacet_line());
    }
    v
}

/// Append one full facet record, its blank separator line included.
pub(crate) fn push_block(out: &mut Vec<u8>, t: &Triangle)
    ensures
        final(out)@ == old(out)@ + block_of(*t),
        tri_no_nan(*t) ==> tri_fmt_ok(*t),
{
    out.push(32u8);
    let fm = facet_marker();
    push_bytes(out, fm.as_slice());
    push_num3(out, t.normal);
    out.push(10u8);
    let ol = outer_line_text();
    push_bytes(out, ol.as_slice());
    out.push(10u8);
    let vp = vertex_prefix_text();
    push_bytes(out, vp.as_slice());
    let v0 = t.vertices[0];
    push_num3(out, v0);
    out.push(10u8);
    push_bytes(out, vp.as_slice());
    let v1 = t.vertices[1];
    push_num3(out, v1);
    out.push(10u8);
    push_bytes(out, vp.as_slice());
    let v2 = t.vertices[2];
    push_num3(out, v2);
    out.push(10u8);
    let el = endloop_line_text();
    push_bytes(out, el.as_slice());
    out.push(10u8);
    let ef = endfacet_line_text();
    push_bytes(out, ef.as_slice());
    out.push(10u8);
    out.push(10u8);
    proof {
        assert(out@ =~= old(out)@ + block_of(*t));
    }
}

pub proof fn lemma_ascii_decode_body(b: Seq<u8>)
    requires
        starts_with_solid(lines_of(b)[0]),
    ensures
        ascii_decode(b) == parse_facets(nonblank_lines(lines_of(b).drop_first())),
{
}

pub proof fn lemma_ascii_decode_missing(b: Seq<u8>)
    requires
        !starts_with_solid(lines_of(b)[0]),
    ensures
        ascii_decode(b) == Err::<Seq<Triangle>, StlErrorV>(StlErrorV::MissingSolid),
{
}

// ---------------------------------------------------------------------------
// Binary layout
// ---------------------------------------------------------------------------

/// The word at byte offset `off`, little endian.
pub open spec fn word_at(b: Seq<u8>, off: int) -> u32 {
    spec_u32_from_le_bytes(b.subrange(off, off + 4))
}

/// The vector whose three words start at byte offset `off`.
pub open spec fn vec3_at(b: Seq<u8>, off: int) -> Vec3 {
    Vec3 { x: word_at(b, off), y: word_at(b, off + 4), z: word_at(b, off + 8) }
}

/// The triangle whose 50-byte record starts at byte offset `off`: normal,
/// three vertices, and a two-byte attribute field that is ignored.
pub open spec fn tri_at(b: Seq<u8>, off: int) -> Triangle {
    Triangle {
        normal: vec3_at(b, off),
        vertices: [vec3_at(b, off + 12), vec3_at(b, off + 24), vec3_at(b, off + 36)],
    }
}

/// The declared triangle count: the word after the 80-byte header.
pub open spec fn bin_count(b: Seq<u8>) -> u32
    recommends
        b.len() >= 84,
{
    word_at(b, 80)
}

/// A structurally sound binary stream: room for the header, the count, and
/// every declared 50-byte record. Trailing bytes beyond them are ignored.
pub open spec fn bin_wf(b: Seq<u8>) -> bool {
    b.len() >= 84 && b.len() - 84 >= 50 * (bin_count(b) as int)
}

/// The triangles of a structurally sound binary stream, in record order.
pub open spec fn bin_triangles(b: Seq<u8>) -> Seq<Triangle> {
    Seq::new(bin_count(b) as nat, |i: int| tri_at(b, 84 + 50 * i))
}

/// The 50-byte record of one triangle.
pub open spec fn le_bytes_tri(t: Triangle) -> Seq<u8> {
    le_bytes_v(t.normal) + le_bytes_v(t.vertices[0]) + le_bytes_v(t.vertices[1]) + le_bytes_v(
        t.vertices[2],
    ) + seq![0u8, 0u8]
}

/// The concatenated records of a mesh.
pub open spec fn le_bytes_tris(m: Seq<Triangle>) -> Seq<u8>
    decreases m.len(),
{
    if m.len() == 0 {
        Seq::empty()
    } else {
        le_bytes_tris(m.drop_last()) + le_bytes_tri(m.last())
    }
}

/// The full binary encoding: a zeroed 80-byte header, the little-endian
/// triangle count, then the records.
pub open spec fn bin_encode(m: Seq<Triangle>) -> Seq<u8> {
    Seq::new(80, |i: int| 0u8) + spec_u32_to_le_bytes(m.len() as u32) + le_bytes_tris(m)
}

pub proof fn lemma_le_bytes_tris_len(m: Seq<Triangle>)
    ensures
        le_bytes_tris(m).len() == 50 * m.len(),
    decreases m.len(),
{
    lemma_auto_spec_u32_to_from_le_bytes();
    if m.len() > 0 {
        lemma_le_bytes_tris_len(m.drop_last());
    }
}

pub proof fn lemma_le_bytes_tris_index(m: Seq<Triangle>, k: int)
    requires
        0 <= k < m.len(),
    ensures
        le_bytes_tris(m).subrange(50 * k, 50 * k + 50) == le_bytes_tri(m[k]),
    decreases m.len(),
{
    lemma_le_bytes_tris_len(m.drop_last());
    lemma_auto_spec_u32_to_from_le_bytes();
    if k == m.len() - 1 {
        assert(le_bytes_tris(m).subrange(50 * k, 50 * k + 50) =~= le_bytes_tri(m.last()));
    } else {
        lemma_le_bytes_tris_index(m.drop_last(), k);
        assert(le_bytes_tris(m).subrange(50 * k, 50 * k + 50) =~= le_bytes_tris(
            m.drop_last(),
        ).subrange(50 * k, 50 * k + 50));
    }
}

pub proof fn lemma_vec3_words(b: Seq<u8>, off: int, v: Vec3)
    requires
        0 <= off,
        off + 12 <= b.len(),
        b.subrange(off, off + 12) == le_bytes_v(v),
    ensures
        vec3_at(b, off) == v,
{
    lemma_auto_spec_u32_to_from_le_bytes();
    assert(b.subrange(off, off + 4) =~= le_bytes_v(v).subrange(0, 4));
    assert(le_bytes_v(v).subrange(0, 4) =~= spec_u32_to_le_bytes(v.x));
    assert(b.subrange(off + 4, off + 8) =~= le_bytes_v(v).subrange(4, 8));
    assert(le_bytes_v(v).subrange(4, 8) =~= spec_u32_to_le_bytes(v.y));
    assert(b.subrange(off + 8, off + 12) =~= le_bytes_v(v).subrange(8, 12));
    assert(le_bytes_v(v).subrange(8, 12) =~= spec_u32_to_le_bytes(v.z));
}

/// Binary decoding inverts binary encoding, for every mesh whose length
/// fits the count word: the encoded stream is structurally sound and holds
/// exactly the triangles it was built from, bit for bit.
pub proof fn lemma_binary_round_trip(m: Seq<Triangle>)
    requires
        m.len() <= 0xFFFF_FFFF,
    ensures
        bin_encode(m).len() == 84 + 50 * m.len(),
        bin_wf(bin_encode(m)),
        bin_count(bin_encode(m)) == m.len(),
        bin_triangles(bin_encode(m)) == m,
{
    lemma_auto_spec_u32_to_from_le_bytes();
    lemma_le_bytes_tris_len(m);
    let b = bin_encode(m);
    assert(b.subrange(80, 84) =~= spec_u32_to_le_bytes(m.len() as u32));
    assert(bin_count(b) == m.len() as u32);
    assert forall|k: int| 0 <= k < m.len() implies bin_triangles(b)[k] == m[k] by {
        lemma_le_bytes_tris_index(m, k);
        let base = 84 + 50 * k;
        assert(b.subrange(base, base + 50) =~= le_bytes_tris(m).subrange(50 * k, 50 * k + 50));
        let rec = le_bytes_tri(m[k]);
        assert(b.subrange(base, base + 12) =~= rec.subrange(0, 12));
        assert(rec.subrange(0, 12) =~= le_bytes_v(m[k].normal));
        lemma_vec3_words(b, base, m[k].normal);
        assert(b.subrange(base + 12, base + 24) =~= rec.subrange(12, 24));
        assert(rec.subrange(12, 24) =~= le_bytes_v(m[k].vertices[0]));
        lemma_vec3_words(b, base + 12, m[k].vertices[0]);
        assert(b.subrange(base + 24, base + 36) =~= rec.subrange(24, 36));
        assert(rec.subrange(24, 36) =~= le_bytes_v(m[k].vertices[1]));
        lemma_vec3_words(b, base + 24, m[k].vertices[1]);
        assert(b.subrange(base + 36, base + 48) =~= rec.subrange(36, 48));
        assert(rec.subrange(36, 48) =~= le_bytes_v(m[k].vertices[2]));
        lemma_vec3_words(b, base + 36, m[k].vertices[2]);
        assert(tri_at(b, base) =~= m[k]);
    }
    assert(bin_triangles(b) =~= m);
}

/// The word starting at byte offset `off`.
pub(crate) fn read_u32_at(bytes: &[u8], off: usize) -> (r: u32)
    requires
        off + 4 <= bytes@.len(),
    ensures
        r == word_at(bytes@, off as int),
{
    let n = bytes.len();
    assert(off + 4 <= n);
    u32_from_le_bytes(slice_subrange(bytes, off, off + 4))
}

/// The vector whose three words start at byte offset `off`.
pub(crate) fn read_vec3_at(bytes: &[u8], off: usize) -> (r: Vec3)
    requires
        off + 12 <= bytes@.len(),
    ensures
        r == vec3_at(bytes@, off as int),
{
    let n = bytes.len();
    assert(off + 12 <= n);
    Vec3 {
        x: read_u32_at(bytes, off),
        y: read_u32_at(bytes, off + 4),
        z: read_u32_at(bytes, off + 8),
    }
}

/// Whether the line holds nothing but whitespace.
pub(crate) fn is_blank_exec(l: &[u8]) -> (r: bool)
    ensures
        r == is_blank(l@),
{
    let (lo, hi) = trim_bounds(l);
    hi == lo
}

impl StlParser {
    /// Decode a byte stream in either layout: the binary decoder is tried
    /// first and wins whenever the stream is structurally sound; otherwise
    /// the textual decoder is tried, and when both refuse, the error keeps
    /// both underlying failures.
    pub fn read_stl(bytes: &[u8]) -> (r: Result<Triangles, StlError>)
        ensures
            bin_wf(bytes@) ==> (match r {
                Ok(t) => t@ == bin_triangles(bytes@),
                Err(_) => false,
            }),
            !bin_wf(bytes@) ==> (match r {
                Ok(t) => ascii_decode(bytes@) == Ok::<Seq<Triangle>, StlErrorV>(t@),
                Err(e) => (match ascii_decode(bytes@) {
                    Ok(_) => false,
                    Err(ae) => err_view(e) == StlErrorV::AmbiguousFormat(
                        Box::new(StlErrorV::TruncatedBinary),
                        Box::new(ae),
                    ),
                }),
            }),
    {
        match Self::read_binary_stl(bytes) {
            Ok(t) => Ok(t),
            Err(eb) => match Self::read_ascii_stl(bytes) {
                Ok(t) => Ok(t),
                Err(ea) => {
                    let ghost gb = eb;
                    let ghost ga = ea;
                    proof {
                        crate::lemma_err_view_ambiguous(gb, ga);
                    }
                    Err(StlError::AmbiguousFormat(Box::new(eb), Box::new(ea)))
                },
            },
        }
    }

    /// Decode the textual layout from raw bytes, as `ascii_decode` states.
    pub fn read_ascii_stl(bytes: &[u8]) -> (r: Result<Triangles, StlError>)
        ensures
            (match r {
                Ok(t) => Ok(t@),
                Err(e) => Err(err_view(e)),
            }) == ascii_decode(bytes@),
    {
        let lines = split_lines(bytes);
        let ghost raw = lines.deep_view();
        let first = &lines[0];
        proof {
            assert(raw[0] =~= first@);
        }
        let marker = solid_marker();
        let n0 = first.len();
        let solid_ok = window_has_prefix(first.as_slice(), 0, n0, &marker);
        proof {
            assert(first@.subrange(0, n0 as int) =~= first@);
            if solid_ok {
                assert(first@.take(6) =~= first@.subrange(0, n0 as int).take(6));
            } else if first@.len() >= 6 {
                assert(first@.subrange(0, n0 as int).take(6) =~= first@.take(6));
            }
        }
        if !solid_ok {
            proof {
                lemma_ascii_decode_missing(bytes@);
            }
            return Err(StlError::MissingSolid);
        }
        proof {
            lemma_ascii_decode_body(bytes@);
        }
        // Keep the non-blank body lines, in order.
        let mut body: Vec<Vec<u8>> = Vec::new();
        let mut k: usize = 1;
        proof {
            assert(raw.subrange(1, 1) =~= Seq::<Seq<u8>>::empty());
            assert(body.deep_view() =~= nonblank_lines(raw.subrange(1, 1)));
        }
        while k < lines.len()
            invariant
                1 <= k <= lines@.len(),
                raw == lines.deep_view(),
                body.deep_view() == nonblank_lines(raw.subrange(1, k as int)),
            decreases lines@.len() - k,
        {
            let line = &lines[k];
            proof {
                assert(raw[k as int] =~= line@);
                assert(raw.subrange(1, k + 1).drop_last() =~= raw.subrange(1, k as int));
                assert(raw.subrange(1, k + 1).last() == raw[k as int]);
            }
            if !is_blank_exec(line.as_slice()) {
                let copy = slice_to_vec(line.as_slice());
                let ghost old_body = body.deep_view();
                body.push(copy);
                proof {
                    assert(body.deep_view() =~~= old_body + seq![line@]);
                }
            }
            k = k + 1;
        }
        proof {
            assert(raw.len() == lines@.len());
            assert(raw.subrange(1, raw.len() as int) =~= raw.drop_first());
            assert(body.deep_view() == nonblank_lines(raw.drop_first()));
        }
        let ghost t_all = body.deep_view();
        // Decode the facet records.
        let mut tris: Triangles = Vec::new();
        let mut i: usize = 0;
        proof {
            assert(t_all.skip(0) =~= t_all);
            if parse_facets(t_all) is Ok {
                let rest = parse_facets(t_all)->Ok_0;
                assert(Seq::<Triangle>::empty() + rest =~= rest);
            }
        }
        while i < body.len()
            invariant
                i <= body@.len(),
                t_all == body.deep_view(),
                ascii_decode(bytes@) == parse_facets(t_all),
                parse_facets(t_all) == prepend_tris(tris@, parse_facets(t_all.skip(i as int))),
            decreases body@.len() - i,
        {
            let ghost ls = t_all.skip(i as int);
            let line = &body[i];
            proof {
                assert(ls[0] == t_all[i as int]);
                assert(t_all[i as int] =~= line@);
                assert(ls.drop_first() =~= t_all.skip(i + 1));
            }
            if !is_facet_line_exec(line.as_slice()) {
                proof {
                    lemma_parse_facets_skip(ls);
                }
                i = i + 1;
                continue;
            }
            let normal = match parse_line_triple(line.as_slice(), 2) {
                Ok(v) => v,
                Err(e) => {
                    proof {
                        lemma_parse_facets_err_normal(ls, err_view(e));
                    }
                    return Err(e);
                },
            };
            if body.len() - i < 3 {
                proof {
                    lemma_parse_facets_err_vertex(ls, normal, 2);
                }
                return Err(StlError::MissingLine);
            }
            proof {
                assert(ls[2] =~= body.deep_view()[i + 2]);
                assert(body.deep_view()[i + 2] =~= body@[i + 2]@);
            }
            let v0 = match parse_line_triple(body[i + 2].as_slice(), 1) {
                Ok(v) => v,
                Err(e) => {
                    proof {
                        lemma_parse_facets_err_vertex(ls, normal, 2);
                    }
                    return Err(e);
                },
            };
            if body.len() - i < 4 {
                proof {
                    lemma_parse_facets_err_vertex(ls, normal, 3);
                }
                return Err(StlError::MissingLine);
            }
            proof {
                assert(ls[3] =~= body@[i + 3]@);
            }
            let v1 = match parse_line_triple(body[i + 3].as_slice(), 1) {
                Ok(v) => v,
                Err(e) => {
                    proof {
                        lemma_parse_facets_err_vertex(ls, normal, 3);
                    }
                    return Err(e);
                },
            };
            if body.len() - i < 5 {
                proof {
                    lemma_parse_facets_err_vertex(ls, normal, 4);
                }
                return Err(StlError::MissingLine);
            }
            proof {
                assert(ls[4] =~= body@[i + 4]@);
            }
            let v2 = match parse_line_triple(body[i + 4].as_slice(), 1) {
                Ok(v) => v,
                Err(e) => {
                    proof {
                        lemma_parse_facets_err_vertex(ls, normal, 4);
                    }
                    return Err(e);
                },
            };
            let tri = Triangle { normal, vertices: [v0, v1, v2] };
            let next = if body.len() - i < 7 {
                body.len()
            } else {
                i + 7
            };
            let ghost told = tris@;
            tris.push(tri);
            proof {
                lemma_parse_facets_step(ls, normal, v0, v1, v2);
                let ghost cut = if ls.len() < 7 { ls.len() as int } else { 7 };
                assert(ls.skip(cut) =~= t_all.skip(next as int));
                if parse_facets(t_all.skip(next as int)) is Ok {
                    let rest = parse_facets(t_all.skip(next as int))->Ok_0;
                    assert(told + (seq![tri] + rest) =~= told.push(tri) + rest);
                }
            }
            i = next;
        }
        proof {
            assert(t_all.skip(body@.len() as int) =~= Seq::<Seq<u8>>::empty());
            if parse_facets(t_all) is Ok {
                assert(tris@ + Seq::<Triangle>::empty() =~= tris@);
            }
        }
        Ok(tris)
    }

    /// Encode the textual layout: the `solid` line, one facet record per
    /// triangle, and the closing `endsolid` line.
    pub fn write_to_ascii_file(triangles: &Triangles) -> (r: Vec<u8>)
        ensures
            r@ == ascii_encode(triangles@),
            mesh_no_nan(triangles@) ==> mesh_fmt_ok(triangles@),
            mesh_no_nan(triangles@) ==> ascii_decode(r@) == Ok::<Seq<Triangle>, StlErrorV>(
                triangles@,
            ),
    {
        let mut out: Vec<u8> = Vec::new();
        let sl = solid_line_text();
        push_bytes(&mut out, sl.as_slice());
        out.push(10u8);
        let ghost header = solid_line() + nl();
        proof {
            assert(out@ =~= header + ascii_blocks(triangles@.take(0)));
        }
        let mut k: usize = 0;
        while k < triangles.len()
            invariant
                k <= triangles@.len(),
                header == solid_line() + nl(),
                out@ == header + ascii_blocks(triangles@.take(k as int)),
                forall|j: int|
                    0 <= j < k ==> (tri_no_nan(#[trigger] triangles@[j]) ==> tri_fmt_ok(
                        triangles@[j],
                    )),
            decreases triangles@.len() - k,
        {
            let t = triangles[k];
            push_block(&mut out, &t);
            proof {
                let pre = triangles@.take(k as int);
                let cur = triangles@.take(k + 1);
                assert(cur.drop_last() =~= pre);
                assert(cur.last() == triangles@[k as int]);
                assert(out@ =~= header + ascii_blocks(cur));
            }
            k = k + 1;
        }
        let es = endsolid_line_text();
        push_bytes(&mut out, es.as_slice());
        out.push(10u8);
        proof {
            assert(triangles@.take(triangles@.len() as int) =~= triangles@);
            assert(out@ =~= ascii_encode(triangles@));
            if mesh_no_nan(triangles@) {
                lemma_ascii_round_trip(triangles@);
            }
        }
        out
    }

    /// Decode the binary layout: an 80-byte header whose content is
    /// ignored, a little-endian triangle count, then one 50-byte record per
    /// triangle. Succeeds exactly on structurally sound streams; a stream
    /// shorter than its declared records is refused whole.
    pub fn read_binary_stl(bytes: &[u8]) -> (r: Result<Triangles, StlError>)
        ensures
            bin_wf(bytes@) ==> (match r {
                Ok(t) => t@ == bin_triangles(bytes@),
                Err(_) => false,
            }),
            !bin_wf(bytes@) ==> r == Err::<Triangles, StlError>(StlError::TruncatedBinary),
    {
        if bytes.len() < 84 {
            return Err(StlError::TruncatedBinary);
        }
        let count = read_u32_at(bytes, 80);
        if ((bytes.len() - 84) as u64) < 50u64 * (count as u64) {
            return Err(StlError::TruncatedBinary);
        }
        let n = count as usize;
        let mut tris: Vec<Triangle> = Vec::new();
        let mut k: usize = 0;
        while k < n
            invariant
                n == bin_count(bytes@),
                bytes@.len() <= usize::MAX,
                bytes@.len() - 84 >= 50 * (n as int),
                k <= n,
                tris@.len() == k,
                forall|j: int| 0 <= j < k ==> tris@[j] == tri_at(bytes@, 84 + 50 * j),
            decreases n - k,
        {
            let base = 84 + 50 * k;
            let normal = read_vec3_at(bytes, base);
            let a = read_vec3_at(bytes, base + 12);
            let b = read_vec3_at(bytes, base + 24);
            let c = read_vec3_at(bytes, base + 36);
            tris.push(Triangle { normal, vertices: [a, b, c] });
            k = k + 1;
        }
        proof {
            assert(tris@ =~= bin_triangles(bytes@));
        }
        Ok(tris)
    }

    /// Encode the binary layout: a zeroed header, the triangle count, then
    /// one 50-byte record per triangle with a zeroed attribute field. The
    /// output is structurally sound and decodes back to the very mesh.
    pub fn write_to_binary_file(triangles: &Triangles) -> (r: Vec<u8>)
        requires
            triangles@.len() <= 0xFFFF_FFFF,
        ensures
            r@ == bin_encode(triangles@),
            bin_wf(r@),
            bin_triangles(r@) == triangles@,
    {
        let mut out: Vec<u8> = Vec::new();
        let mut i: usize = 0;
        while i < 80
            invariant
                i <= 80,
                out@ =~= Seq::new(i as nat, |j: int| 0u8),
            decreases 80 - i,
        {
            out.push(0u8);
            i = i + 1;
            proof {
                assert(out@ =~= Seq::new(i as nat, |j: int| 0u8));
            }
        }
        push_u32_le(&mut out, triangles.len() as u32);
        let ghost header = Seq::new(80, |j: int| 0u8) + spec_u32_to_le_bytes(
            triangles@.len() as u32,
        );
        proof {
            assert(out@ =~= header + le_bytes_tris(triangles@.take(0)));
        }
        let mut k: usize = 0;
        while k < triangles.len()
            invariant
                k <= triangles@.len(),
                triangles@.len() <= 0xFFFF_FFFF,
                header == Seq::new(80, |j: int| 0u8) + spec_u32_to_le_bytes(
                    triangles@.len() as u32,
                ),
                out@ == header + le_bytes_tris(triangles@.take(k as int)),
            decreases triangles@.len() - k,
        {
            let t = triangles[k];
            t.normal.write_le_bytes(&mut out);
            let v0 = t.vertices[0];
            v0.write_le_bytes(&mut out);
            let v1 = t.vertices[1];
            v1.write_le_bytes(&mut out);
            let v2 = t.vertices[2];
            v2.write_le_bytes(&mut out);
            out.push(0u8);
            out.push(0u8);
            proof {
                let pre = triangles@.take(k as int);
                let cur = triangles@.take(k + 1);
                assert(cur.drop_last() =~= pre);
                assert(cur.last() == triangles@[k as int]);
                assert(out@ =~= header + le_bytes_tris(cur));
            }
            k = k + 1;
        }
        proof {
            assert(triangles@.take(triangles@.len() as int) =~= triangles@);
            assert(out@ =~= bin_encode(triangles@));
            lemma_binary_round_trip(triangles@);
        }
        out
    }
}

// ---------------------------------------------------------------------------
// The textual round trip
// ---------------------------------------------------------------------------

/// The seven content lines of one facet record, in decoding order.
pub open spec fn tri_lines(t: Triangle) -> Seq<Seq<u8>> {
    seq![
        facet_line(t),
        outer_line(),
        vertex_line(t.vertices[0]),
        vertex_line(t.vertices[1]),
        vertex_line(t.vertices[2]),
        endloop_line(),
        endfacet_line(),
    ]
}

/// The raw lines the encoder emits for one facet record: the content lines
/// and the blank separator.
pub open spec fn tri_raw_lines(t: Triangle) -> Seq<Seq<u8>> {
    tri_lines(t) + seq![Seq::<u8>::empty()]
}

/// The raw lines after the `solid` line: every record's lines, then the
/// `endsolid` line and the empty line after the final line feed.
pub open spec fn raw_tail(m: Seq<Triangle>) -> Seq<Seq<u8>>
    decreases m.len(),
{
    if m.len() == 0 {
        seq![endsolid_line(), Seq::<u8>::empty()]
    } else {
        tri_raw_lines(m[0]) + raw_tail(m.drop_first())
    }
}

/// The non-blank lines after the `solid` line.
pub open spec fn content_lines(m: Seq<Triangle>) -> Seq<Seq<u8>>
    decreases m.len(),
{
    if m.len() == 0 {
        seq![endsolid_line()]
    } else {
        tri_lines(m[0]) + content_lines(m.drop_first())
    }
}

/// The facet records, concatenated front to back.
pub open spec fn fwd_blocks(m: Seq<Triangle>) -> Seq<u8>
    decreases m.len(),
{
    if m.len() == 0 {
        Seq::empty()
    } else {
        block_of(m[0]) + fwd_blocks(m.drop_first())
    }
}

pub proof fn lemma_fwd_blocks_push(m: Seq<Triangle>, t: Triangle)
    ensures
        fwd_blocks(m.push(t)) == fwd_blocks(m) + block_of(t),
    decreases m.len(),
{
    if m.len() == 0 {
        assert(m.push(t).drop_first() =~= m);
        assert(m.push(t)[0] == t);
        assert(fwd_blocks(m.push(t)) =~= fwd_blocks(m) + block_of(t));
    } else {
        assert(m.push(t).drop_first() =~= m.drop_first().push(t));
        lemma_fwd_blocks_push(m.drop_first(), t);
        assert(block_of(m[0]) + (fwd_blocks(m.drop_first()) + block_of(t)) =~= (block_of(m[0])
            + fwd_blocks(m.drop_first())) + block_of(t));
    }
}

pub proof fn lemma_blocks_agree(m: Seq<Triangle>)
    ensures
        ascii_blocks(m) == fwd_blocks(m),
    decreases m.len(),
{
    if m.len() == 0 {
    } else {
        lemma_blocks_agree(m.drop_last());
        lemma_fwd_blocks_push(m.drop_last(), m.last());
        assert(m.drop_last().push(m.last()) =~= m);
    }
}

/// Splitting at the first line feed peels one clean line off the front.
pub proof fn lemma_lines_cons(a: Seq<u8>, rest: Seq<u8>)
    requires
        forall|i: int| 0 <= i < a.len() ==> #[trigger] a[i] != 10,
    ensures
        lines_of(a + nl() + rest) == seq![a] + lines_of(rest),
{
    let s = a + nl() + rest;
    assert(forall|i: int| 0 <= i < a.len() ==> #[trigger] s[i] == a[i]);
    assert(s[a.len() as int] == 10);
    lemma_first_nl_is(s, a.len() as int);
    assert(s.take(a.len() as int) =~= a);
    assert(s.subrange(a.len() as int + 1, s.len() as int) =~= rest);
    assert(seq![s.take(a.len() as int)] + lines_of(s.subrange(a.len() as int + 1, s.len() as int))
        =~= seq![a] + lines_of(rest));
}

pub proof fn lemma_lines_of_empty()
    ensures
        lines_of(Seq::<u8>::empty()) == seq![Seq::<u8>::empty()],
{
    assert(lines_of(Seq::<u8>::empty()) =~= seq![Seq::<u8>::empty()]);
}

/// No line feed hides in a formatted coordinate triple.
pub proof fn lemma_no_nl_num3(v: Vec3)
    requires
        printable(decimal_of(v.x)),
        printable(decimal_of(v.y)),
        printable(decimal_of(v.z)),
    ensures
        forall|i: int| 0 <= i < num3(v).len() ==> #[trigger] num3(v)[i] != 10,
        forall|i: int| 0 <= i < num3(v).len() ==> num3(v)[i] > 0x20 || num3(v)[i] == 32,
{
}

pub proof fn lemma_no_nl_facet_line(t: Triangle)
    requires
        printable(decimal_of(t.normal.x)),
        printable(decimal_of(t.normal.y)),
        printable(decimal_of(t.normal.z)),
    ensures
        forall|i: int| 0 <= i < facet_line(t).len() ==> #[trigger] facet_line(t)[i] != 10,
{
    lemma_no_nl_num3(t.normal);
}

pub proof fn lemma_no_nl_vertex_line(v: Vec3)
    requires
        printable(decimal_of(v.x)),
        printable(decimal_of(v.y)),
        printable(decimal_of(v.z)),
    ensures
        forall|i: int| 0 <= i < vertex_line(v).len() ==> #[trigger] vertex_line(v)[i] != 10,
{
    lemma_no_nl_num3(v);
}

/// A whole word is one token.
pub proof fn lemma_tokens_single(w: Seq<u8>)
    requires
        w.len() > 0,
        forall|i: int| 0 <= i < w.len() ==> !is_ws(#[trigger] w[i]),
    ensures
        tokens(w) == seq![w],
{
    lemma_first_ws_is(w, w.len() as int);
    assert(w.take(w.len() as int) =~= w);
    assert(w.subrange(w.len() as int, w.len() as int).len() == 0);
    assert(seq![w.take(w.len() as int)] + tokens(
        w.subrange(w.len() as int, w.len() as int),
    ) =~= seq![w]);
}

/// A word, a blank, and the rest: the word is the first token.
pub proof fn lemma_tokens_word(w: Seq<u8>, r: Seq<u8>)
    requires
        w.len() > 0,
        forall|i: int| 0 <= i < w.len() ==> !is_ws(#[trigger] w[i]),
    ensures
        tokens(w + seq![32u8] + r) == seq![w] + tokens(r),
{
    let s = w + seq![32u8] + r;
    assert(forall|i: int| 0 <= i < w.len() ==> #[trigger] s[i] == w[i]);
    assert(s[w.len() as int] == 32);
    lemma_first_ws_is(s, w.len() as int);
    assert(s.take(w.len() as int) =~= w);
    let after = s.subrange(w.len() as int, s.len() as int);
    assert(after =~= seq![32u8] + r);
    assert(after[0] == 32);
    assert(after.drop_first() =~= r);
    assert(seq![s.take(w.len() as int)] + tokens(after) =~= seq![w] + tokens(r));
}

/// Leading whitespace never changes the tokens.
pub proof fn lemma_tokens_skip_ws(s: Seq<u8>)
    requires
        s.len() > 0,
        is_ws(s[0]),
    ensures
        tokens(s) == tokens(s.drop_first()),
{
}

/// Three parsable tokens decode to the triple of their values.
pub proof fn lemma_parse_three(tx: Seq<u8>, ty: Seq<u8>, tz: Seq<u8>, x: u32, y: u32, z: u32)
    requires
        float_bits_of(tx) == Some(x),
        float_bits_of(ty) == Some(y),
        float_bits_of(tz) == Some(z),
    ensures
        parse_triple(seq![tx, ty, tz]) == Ok::<Vec3, StlErrorV>(Vec3 { x, y, z }),
{
    let s = seq![tx, ty, tz];
    assert(s.drop_first() =~= seq![ty, tz]);
    assert(seq![ty, tz].drop_first() =~= seq![tz]);
    assert(seq![tz].drop_first() =~= Seq::<Seq<u8>>::empty());
    assert(parse_floats(Seq::<Seq<u8>>::empty()) == Ok::<Seq<u32>, Seq<u8>>(Seq::empty()));
    assert(parse_floats(seq![tz]) == Ok::<Seq<u32>, Seq<u8>>(seq![z] + Seq::<u32>::empty()));
    assert(parse_floats(seq![ty, tz]) == Ok::<Seq<u32>, Seq<u8>>(
        seq![y] + (seq![z] + Seq::<u32>::empty()),
    ));
    assert(parse_floats(s) == Ok::<Seq<u32>, Seq<u8>>(
        seq![x] + (seq![y] + (seq![z] + Seq::<u32>::empty())),
    ));
    let bs = seq![x] + (seq![y] + (seq![z] + Seq::<u32>::empty()));
    assert(bs =~= seq![x, y, z]);
    assert(bs.len() == 3 && bs[0] == x && bs[1] == y && bs[2] == z);
}

/// The tokens of a coordinate tail `X Y Z`.
pub proof fn lemma_tokens_num3(v: Vec3)
    requires
        component_fmt_ok(v.x),
        component_fmt_ok(v.y),
        component_fmt_ok(v.z),
    ensures
        tokens(num3(v)) == seq![decimal_of(v.x), decimal_of(v.y), decimal_of(v.z)],
{
    let xx = decimal_of(v.x);
    let yy = decimal_of(v.y);
    let zz = decimal_of(v.z);
    assert(num3(v) =~= xx + seq![32u8] + (yy + seq![32u8] + zz));
    lemma_tokens_word(xx, yy + seq![32u8] + zz);
    lemma_tokens_word(yy, zz);
    lemma_tokens_single(zz);
    assert(seq![xx] + (seq![yy] + seq![zz]) =~= seq![xx, yy, zz]);
}

/// The facet-opening line both passes the marker test and decodes to the
/// triangle's normal.
pub proof fn lemma_facet_line_facts(t: Triangle)
    requires
        component_fmt_ok(t.normal.x),
        component_fmt_ok(t.normal.y),
        component_fmt_ok(t.normal.z),
    ensures
        is_facet_line(facet_line(t)),
        !is_blank(facet_line(t)),
        parse_triple(tokens_from(facet_line(t), 2)) == Ok::<Vec3, StlErrorV>(t.normal),
{
    let l = facet_line(t);
    let fword = seq![102u8, 97u8, 99u8, 101u8, 116u8];
    let nword = seq![110u8, 111u8, 114u8, 109u8, 97u8, 108u8];
    // Tokens: skip the leading blank, then `facet`, `normal`, X, Y, Z.
    assert(l.drop_first() =~= fword + seq![32u8] + (nword + seq![32u8] + num3(t.normal)));
    lemma_tokens_skip_ws(l);
    lemma_tokens_word(fword, nword + seq![32u8] + num3(t.normal));
    lemma_tokens_word(nword, num3(t.normal));
    lemma_tokens_num3(t.normal);
    let xx = decimal_of(t.normal.x);
    let yy = decimal_of(t.normal.y);
    let zz = decimal_of(t.normal.z);
    assert(tokens(l) =~= seq![fword, nword, xx, yy, zz]);
    assert(tokens_from(l, 2) =~= seq![xx, yy, zz]);
    lemma_parse_three(xx, yy, zz, t.normal.x, t.normal.y, t.normal.z);
    assert(Vec3 { x: t.normal.x, y: t.normal.y, z: t.normal.z } == t.normal);
    // The marker test: the trimmed line is the raw line less its leading blank.
    assert(zz.len() > 0 && !is_ws(zz.last()));
    assert(l.last() == zz.last());
    lemma_trim_subrange(l, 1, l.len() as int);
    assert(trim(l) == l.subrange(1, l.len() as int));
    assert(trim(l).len() >= 13);
    assert(trim(l).take(13) =~= facet_prefix());
}

/// A vertex line decodes, after its skipped keyword, to the vertex.
pub proof fn lemma_vertex_line_facts(v: Vec3)
    requires
        component_fmt_ok(v.x),
        component_fmt_ok(v.y),
        component_fmt_ok(v.z),
    ensures
        !is_blank(vertex_line(v)),
        parse_triple(tokens_from(vertex_line(v), 1)) == Ok::<Vec3, StlErrorV>(v),
{
    let l = vertex_line(v);
    let vword = seq![118u8, 101u8, 114u8, 116u8, 101u8, 120u8];
    assert(l.drop_first() =~= seq![32u8] + (vword + seq![32u8] + num3(v)));
    assert(l.drop_first().drop_first() =~= vword + seq![32u8] + num3(v));
    lemma_tokens_skip_ws(l);
    lemma_tokens_skip_ws(l.drop_first());
    lemma_tokens_word(vword, num3(v));
    lemma_tokens_num3(v);
    let xx = decimal_of(v.x);
    let yy = decimal_of(v.y);
    let zz = decimal_of(v.z);
    assert(tokens(l) =~= seq![vword, xx, yy, zz]);
    assert(tokens_from(l, 1) =~= seq![xx, yy, zz]);
    lemma_parse_three(xx, yy, zz, v.x, v.y, v.z);
    assert(Vec3 { x: v.x, y: v.y, z: v.z } == v);
    assert(zz.len() > 0 && !is_ws(zz.last()));
    assert(l.last() == zz.last());
    lemma_trim_subrange(l, 2, l.len() as int);
    assert(trim(l).len() > 0);
}

/// The fixed lines around a record are non-blank, and the closing line is
/// no facet marker.
pub proof fn lemma_fixed_line_facts()
    ensures
        !is_blank(outer_line()),
        !is_blank(endloop_line()),
        !is_blank(endfacet_line()),
        !is_blank(endsolid_line()),
        !is_facet_line(endsolid_line()),
        is_blank(Seq::<u8>::empty()),
{
    lemma_trim_subrange(outer_line(), 2, outer_line().len() as int);
    lemma_trim_subrange(endloop_line(), 2, endloop_line().len() as int);
    lemma_trim_subrange(endfacet_line(), 1, endfacet_line().len() as int);
    lemma_trim_subrange(endsolid_line(), 0, endsolid_line().len() as int);
    assert(trim(endsolid_line()) == endsolid_line().subrange(0, endsolid_line().len() as int));
    assert(endsolid_line().subrange(0, endsolid_line().len() as int) =~= endsolid_line());
    if is_facet_line(endsolid_line()) {
        assert(trim(endsolid_line()).take(13)[0] == 101);
        assert(facet_prefix()[0] == 102);
    }
}

/// The raw lines of the whole encoding, after the `solid` line.
#[verifier::rlimit(100)]
pub proof fn lemma_lines_of_tail(m: Seq<Triangle>)
    requires
        mesh_fmt_ok(m),
    ensures
        lines_of(fwd_blocks(m) + endsolid_line() + nl()) == raw_tail(m),
    decreases m.len(),
{
    if m.len() == 0 {
        assert(fwd_blocks(m) + endsolid_line() + nl() =~= endsolid_line() + nl()
            + Seq::<u8>::empty());
        lemma_lines_cons(endsolid_line(), Seq::<u8>::empty());
        lemma_lines_of_empty();
        assert(seq![endsolid_line()] + seq![Seq::<u8>::empty()] =~= raw_tail(m));
    } else {
        let t = m[0];
        assert(tri_fmt_ok(t));
        let rest = m.drop_first();
        assert(mesh_fmt_ok(rest)) by {
            assert(forall|i: int|
                0 <= i < rest.len() ==> #[trigger] rest[i] == m[i + 1] && tri_fmt_ok(m[i + 1]));
        }
        let tail = fwd_blocks(rest) + endsolid_line() + nl();
        let whole = fwd_blocks(m) + endsolid_line() + nl();
        lemma_no_nl_facet_line(t);
        lemma_no_nl_vertex_line(t.vertices[0]);
        lemma_no_nl_vertex_line(t.vertices[1]);
        lemma_no_nl_vertex_line(t.vertices[2]);
        let r6 = Seq::<u8>::empty() + nl() + tail;
        let r5 = endfacet_line() + nl() + r6;
        let r4 = endloop_line() + nl() + r5;
        let r3 = vertex_line(t.vertices[2]) + nl() + r4;
        let r2 = vertex_line(t.vertices[1]) + nl() + r3;
        let r1 = vertex_line(t.vertices[0]) + nl() + r2;
        let r0 = outer_line() + nl() + r1;
        assert(whole =~= facet_line(t) + nl() + r0);
        lemma_lines_cons(facet_line(t), r0);
        lemma_lines_cons(outer_line(), r1);
        lemma_lines_cons(vertex_line(t.vertices[0]), r2);
        lemma_lines_cons(vertex_line(t.vertices[1]), r3);
        lemma_lines_cons(vertex_line(t.vertices[2]), r4);
        lemma_lines_cons(endloop_line(), r5);
        lemma_lines_cons(endfacet_line(), r6);
        lemma_lines_cons(Seq::<u8>::empty(), tail);
        lemma_lines_of_tail(rest);
        assert(lines_of(whole) =~= tri_raw_lines(t) + raw_tail(rest));
    }
}

/// Dropping blank lines from the raw tail leaves the content lines.
pub proof fn lemma_nonblank_concat(s1: Seq<Seq<u8>>, s2: Seq<Seq<u8>>)
    ensures
        nonblank_lines(s1 + s2) == nonblank_lines(s1) + nonblank_lines(s2),
    decreases s2.len(),
{
    if s2.len() == 0 {
        assert(s1 + s2 =~= s1);
        assert(nonblank_lines(s1) + nonblank_lines(s2) =~= nonblank_lines(s1));
    } else {
        assert((s1 + s2).drop_last() =~= s1 + s2.drop_last());
        assert((s1 + s2).last() == s2.last());
        lemma_nonblank_concat(s1, s2.drop_last());
        if is_blank(s2.last()) {
            assert(nonblank_lines(s1) + nonblank_lines(s2) =~= nonblank_lines(s1)
                + nonblank_lines(s2.drop_last()));
        } else {
            assert(nonblank_lines(s1) + (nonblank_lines(s2.drop_last()) + seq![s2.last()])
                =~= (nonblank_lines(s1) + nonblank_lines(s2.drop_last())) + seq![s2.last()]);
        }
    }
}

pub proof fn lemma_nonblank_single(l: Seq<u8>)
    ensures
        nonblank_lines(seq![l]) == if is_blank(l) {
            Seq::<Seq<u8>>::empty()
        } else {
            seq![l]
        },
{
    assert(seq![l].drop_last() =~= Seq::<Seq<u8>>::empty());
    assert(seq![l].last() == l);
    assert(nonblank_lines(Seq::<Seq<u8>>::empty()) =~= Seq::<Seq<u8>>::empty());
    if !is_blank(l) {
        assert(Seq::<Seq<u8>>::empty() + seq![l] =~= seq![l]);
    }
}

pub proof fn lemma_nonblank_tail(m: Seq<Triangle>)
    requires
        mesh_fmt_ok(m),
    ensures
        nonblank_lines(raw_tail(m)) == content_lines(m),
    decreases m.len(),
{
    lemma_fixed_line_facts();
    if m.len() == 0 {
        assert(raw_tail(m) =~= seq![endsolid_line()] + seq![Seq::<u8>::empty()]);
        lemma_nonblank_concat(seq![endsolid_line()], seq![Seq::<u8>::empty()]);
        lemma_nonblank_single(endsolid_line());
        lemma_nonblank_single(Seq::<u8>::empty());
        assert(seq![endsolid_line()] + Seq::<Seq<u8>>::empty() =~= content_lines(m));
    } else {
        let t = m[0];
        assert(tri_fmt_ok(t));
        let rest = m.drop_first();
        assert(mesh_fmt_ok(rest)) by {
            assert(forall|i: int|
                0 <= i < rest.len() ==> #[trigger] rest[i] == m[i + 1] && tri_fmt_ok(m[i + 1]));
        }
        lemma_facet_line_facts(t);
        lemma_vertex_line_facts(t.vertices[0]);
        lemma_vertex_line_facts(t.vertices[1]);
        lemma_vertex_line_facts(t.vertices[2]);
        lemma_nonblank_concat(tri_raw_lines(t), raw_tail(rest));
        lemma_nonblank_concat(tri_lines(t), seq![Seq::<u8>::empty()]);
        lemma_nonblank_single(Seq::<u8>::empty());
        // The seven content lines all survive the filter.
        let l7 = tri_lines(t);
        assert(nonblank_lines(l7) =~= l7) by {
            assert(l7.drop_last() =~= seq![
                facet_line(t),
                outer_line(),
                vertex_line(t.vertices[0]),
                vertex_line(t.vertices[1]),
                vertex_line(t.vertices[2]),
                endloop_line(),
            ]);
            let l6 = l7.drop_last();
            assert(l6.drop_last() =~= seq![
                facet_line(t),
                outer_line(),
                vertex_line(t.vertices[0]),
                vertex_line(t.vertices[1]),
                vertex_line(t.vertices[2]),
            ]);
            let l5 = l6.drop_last();
            assert(l5.drop_last() =~= seq![
                facet_line(t),
                outer_line(),
                vertex_line(t.vertices[0]),
                vertex_line(t.vertices[1]),
            ]);
            let l4 = l5.drop_last();
            assert(l4.drop_last() =~= seq![
                facet_line(t),
                outer_line(),
                vertex_line(t.vertices[0]),
            ]);
            let l3 = l4.drop_last();
            assert(l3.drop_last() =~= seq![facet_line(t), outer_line()]);
            let l2 = l3.drop_last();
            assert(l2.drop_last() =~= seq![facet_line(t)]);
            let l1 = l2.drop_last();
            assert(l1.drop_last() =~= Seq::<Seq<u8>>::empty());
            assert(nonblank_lines(Seq::<Seq<u8>>::empty()) =~= Seq::<Seq<u8>>::empty());
            assert(Seq::<Seq<u8>>::empty() + seq![facet_line(t)] =~= seq![facet_line(t)]);
            assert(nonblank_lines(l1) =~= l1);
            assert(nonblank_lines(l2) =~= l2);
            assert(nonblank_lines(l3) =~= l3);
            assert(nonblank_lines(l4) =~= l4);
            assert(nonblank_lines(l5) =~= l5);
            assert(nonblank_lines(l6) =~= l6);
        }
        lemma_nonblank_tail(rest);
        assert(nonblank_lines(raw_tail(m)) =~= tri_lines(t) + content_lines(rest));
    }
}

/// Parsing the content lines recovers the mesh exactly.
pub proof fn lemma_parse_content(m: Seq<Triangle>)
    requires
        mesh_fmt_ok(m),
    ensures
        parse_facets(content_lines(m)) == Ok::<Seq<Triangle>, StlErrorV>(m),
    decreases m.len(),
{
    lemma_fixed_line_facts();
    if m.len() == 0 {
        let ls = content_lines(m);
        assert(ls =~= seq![endsolid_line()]);
        lemma_parse_facets_skip(ls);
        assert(ls.drop_first() =~= Seq::<Seq<u8>>::empty());
        assert(parse_facets(Seq::<Seq<u8>>::empty()) == Ok::<Seq<Triangle>, StlErrorV>(
            Seq::empty(),
        ));
        assert(m =~= Seq::<Triangle>::empty());
    } else {
        let t = m[0];
        assert(tri_fmt_ok(t));
        let rest = m.drop_first();
        assert(mesh_fmt_ok(rest)) by {
            assert(forall|i: int|
                0 <= i < rest.len() ==> #[trigger] rest[i] == m[i + 1] && tri_fmt_ok(m[i + 1]));
        }
        lemma_facet_line_facts(t);
        lemma_vertex_line_facts(t.vertices[0]);
        lemma_vertex_line_facts(t.vertices[1]);
        lemma_vertex_line_facts(t.vertices[2]);
        let ls = content_lines(m);
        assert(ls.len() == 7 + content_lines(rest).len());
        assert(ls[0] == facet_line(t));
        assert(ls[2] == vertex_line(t.vertices[0]));
        assert(ls[3] == vertex_line(t.vertices[1]));
        assert(ls[4] == vertex_line(t.vertices[2]));
        lemma_parse_facets_step(ls, t.normal, t.vertices[0], t.vertices[1], t.vertices[2]);
        assert(ls.skip(7) =~= content_lines(rest));
        lemma_parse_content(rest);
        assert(Triangle {
            normal: t.normal,
            vertices: [t.vertices[0], t.vertices[1], t.vertices[2]],
        } =~= t);
        assert(seq![t] + rest =~= m);
    }
}

/// Textual decoding inverts textual encoding: for every mesh whose
/// components format exactly — which the formatter guarantees for every
/// value but a NaN — decoding the encoder's output yields the very mesh.
pub proof fn lemma_ascii_round_trip(m: Seq<Triangle>)
    requires
        mesh_fmt_ok(m),
    ensures
        ascii_decode(ascii_encode(m)) == Ok::<Seq<Triangle>, StlErrorV>(m),
{
    let b = ascii_encode(m);
    lemma_blocks_agree(m);
    let tail = fwd_blocks(m) + endsolid_line() + nl();
    assert(b =~= solid_line() + nl() + tail);
    assert(forall|i: int| 0 <= i < solid_line().len() ==> #[trigger] solid_line()[i] != 10);
    lemma_lines_cons(solid_line(), tail);
    lemma_lines_of_tail(m);
    assert(lines_of(b) == seq![solid_line()] + raw_tail(m));
    assert(lines_of(b)[0] == solid_line());
    assert(starts_with_solid(solid_line())) by {
        assert(solid_line().take(6) =~= solid_prefix());
    }
    lemma_ascii_decode_body(b);
    assert(lines_of(b).drop_first() =~= raw_tail(m));
    lemma_nonblank_tail(m);
    lemma_parse_content(m);
}

} // verus!
