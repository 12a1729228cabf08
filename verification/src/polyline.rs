//! Ordered vertex paths and the endpoint stitcher that merges
//! geometrically contiguous paths into continuous cutter runs.
use vstd::prelude::*;
use crate::vertex::{Vertex, in_bounds};

verus! {

/// Squared stitching tolerance: (0.001 drawing units)^2 in squared
/// pico-unit counts.
pub const TOUCH_SQ: i128 = 1_000_000_000_000_000_000;

/// An ordered vertex sequence plus a closed flag.
#[derive(Debug)]
pub struct PolyLine {
    pub vertices: Vec<Vertex>,
    pub closed: bool,
}

/// The mathematical value of a path: its vertex sequence and flag.
pub type PathView = (Seq<Vertex>, bool);

/// A well-formed path: at least one vertex, all within range.
pub open spec fn wf_path(p: PathView) -> bool {
    p.0.len() >= 1 && forall|i: int| 0 <= i < p.0.len() ==> in_bounds(#[trigger] p.0[i])
}

/// Two points within the stitching tolerance of one another.
pub open spec fn touches(a: Vertex, b: Vertex) -> bool {
    crate::vertex::dist_sq(a, b) < TOUCH_SQ
}

/// The next path starts where the previous one ended.
pub open spec fn spec_continues(nxt: PathView, prev: PathView) -> bool {
    nxt.0.len() > 0 && prev.0.len() > 0 && touches(nxt.0[0], prev.0.last())
}

/// The next path ends where the previous one ended.
pub open spec fn spec_continues_reversed(nxt: PathView, prev: PathView) -> bool {
    nxt.0.len() > 0 && prev.0.len() > 0 && touches(nxt.0.last(), prev.0.last())
}

/// The previous path with the shared endpoint dropped, then the next
/// path; stitched output is always open.
pub open spec fn spec_merge(prev: PathView, nxt: PathView) -> PathView {
    (prev.0.drop_last() + nxt.0, false)
}

/// A path run backwards; stitched output is always open.
pub open spec fn spec_reversed(p: PathView) -> PathView {
    (Seq::new(p.0.len(), |i: int| p.0[p.0.len() - 1 - i]), false)
}

/// The stitching loop from position `i` with accumulator `acc`.
pub open spec fn glue_from(ls: Seq<PathView>, i: int, acc: PathView) -> Seq<PathView>
    decreases ls.len() - i,
{
    if i < 0 || i >= ls.len() {
        seq![acc]
    } else if spec_continues(ls[i], acc) {
        glue_from(ls, i + 1, spec_merge(acc, ls[i]))
    } else if spec_continues_reversed(ls[i], acc) {
        glue_from(ls, i + 1, spec_merge(acc, spec_reversed(ls[i])))
    } else {
        seq![acc] + glue_from(ls, i + 1, ls[i])
    }
}

/// The stitcher: each path either extends the current run (forwards,
/// or backwards when only its far end touches) or flushes it.
pub open spec fn spec_glue(ls: Seq<PathView>) -> Seq<PathView> {
    if ls.len() == 0 {
        Seq::empty()
    } else {
        glue_from(ls, 1, ls[0])
    }
}

/// The views of a vector of paths.
pub open spec fn views(s: Seq<PolyLine>) -> Seq<PathView> {
    s.map_values(|p: PolyLine| (p.vertices@, p.closed))
}

impl PolyLine {
    /// The view of one path.
    pub open spec fn view_of(&self) -> PathView {
        (self.vertices@, self.closed)
    }

    /// A copy of this path.
    pub fn duplicate(&self) -> (r: PolyLine)
        ensures
            r.view_of() == self.view_of(),
    {
        let mut vs: Vec<Vertex> = Vec::new();
        let mut i: usize = 0;
        while i < self.vertices.len()
            invariant
                i <= self.vertices.len(),
                vs@ == self.vertices@.subrange(0, i as int),
            decreases self.vertices.len() - i,
        {
            vs.push(self.vertices[i]);
            i = i + 1;
        }
        proof {
            assert(vs@ =~= self.vertices@);
        }
        PolyLine { vertices: vs, closed: self.closed }
    }

    /// The two sections joined into one open path, dropping the
    /// first section's final (shared) vertex.
    pub fn from_sections(first: &PolyLine, second: &PolyLine) -> (r: PolyLine)
        requires
            first.vertices@.len() >= 1,
        ensures
            r.view_of() == spec_merge(first.view_of(), second.view_of()),
    {
        let mut vs: Vec<Vertex> = first.duplicate().vertices;
        vs.pop();
        let mut i: usize = 0;
        while i < second.vertices.len()
            invariant
                i <= second.vertices.len(),
                vs@ == first.vertices@.drop_last() + second.vertices@.subrange(0, i as int),
            decreases second.vertices.len() - i,
        {
            vs.push(second.vertices[i]);
            proof {
                assert(first.vertices@.drop_last() + second.vertices@.subrange(0, i as int)
                    + seq![second.vertices@[i as int]]
                    =~= first.vertices@.drop_last()
                    + second.vertices@.subrange(0, i as int + 1));
            }
            i = i + 1;
        }
        proof {
            assert(vs@ =~= first.vertices@.drop_last() + second.vertices@);
        }
        PolyLine { vertices: vs, closed: false }
    }

    /// The same path traversed backwards, as an open path.
    pub fn reverse(&self) -> (r: PolyLine)
        ensures
            r.view_of() == spec_reversed(self.view_of()),
    {
        let n: usize = self.vertices.len();
        let mut vs: Vec<Vertex> = Vec::new();
        let mut i: usize = 0;
        while i < n
            invariant
                i <= n,
                n == self.vertices@.len(),
                vs@.len() == i,
                forall|j: int| 0 <= j < i ==> vs@[j] == self.vertices@[n - 1 - j],
            decreases n - i,
        {
            vs.push(self.vertices[n - 1 - i]);
            i = i + 1;
        }
        proof {
            assert(vs@ =~= spec_reversed(self.view_of()).0);
        }
        PolyLine { vertices: vs, closed: false }
    }

    /// Whether this path starts within the stitching tolerance of
    /// where `previous` ends.
    pub fn continues_from(&self, previous: &PolyLine) -> (r: bool)
        requires
            wf_path(self.view_of()) || self.vertices@.len() == 0,
            wf_path(previous.view_of()) || previous.vertices@.len() == 0,
        ensures
            r == spec_continues(self.view_of(), previous.view_of()),
    {
        if self.vertices.len() >= 1 && previous.vertices.len() >= 1 {
            let a: Vertex = self.vertices[0];
            let b: Vertex = previous.vertices[previous.vertices.len() - 1];
            near(a, b)
        } else {
            false
        }
    }

    /// Whether this path ends within the stitching tolerance of
    /// where `previous` ends.
    pub fn continues_from_reversed(&self, previous: &PolyLine) -> (r: bool)
        requires
            wf_path(self.view_of()) || self.vertices@.len() == 0,
            wf_path(previous.view_of()) || previous.vertices@.len() == 0,
        ensures
            r == spec_continues_reversed(self.view_of(), previous.view_of()),
    {
        if self.vertices.len() >= 1 && previous.vertices.len() >= 1 {
            let a: Vertex = self.vertices[self.vertices.len() - 1];
            let b: Vertex = previous.vertices[previous.vertices.len() - 1];
            near(a, b)
        } else {
            false
        }
    }
}

/// Whether two in-range points lie within the stitching tolerance.
fn near(a: Vertex, b: Vertex) -> (r: bool)
    requires
        in_bounds(a),
        in_bounds(b),
    ensures
        r == touches(a, b),
{
    let dx: i128 = (a.x as i128) - (b.x as i128);
    let dy: i128 = (a.y as i128) - (b.y as i128);
    proof {
        assert(0 <= dx * dx <= 16 * (crate::vertex::P_BOUND as int) * (crate::vertex::P_BOUND as int)
            && 0 <= dy * dy <= 16 * (crate::vertex::P_BOUND as int) * (crate::vertex::P_BOUND as int))
            by (nonlinear_arith)
            requires
                -4 * (crate::vertex::P_BOUND as int) <= dx <= 4 * (crate::vertex::P_BOUND as int),
                -4 * (crate::vertex::P_BOUND as int) <= dy <= 4 * (crate::vertex::P_BOUND as int);
    }
    dx * dx + dy * dy < TOUCH_SQ
}

/// Stitch a list of paths: each path is appended to the current run
/// (reversed when only its far end touches) or flushes it; first-seen
/// order is preserved.
pub fn glue_polylines(lines: Vec<PolyLine>) -> (r: Vec<PolyLine>)
    requires
        forall|i: int| 0 <= i < lines@.len() ==> wf_path(#[trigger] lines@[i].view_of()),
    ensures
        views(r@) == spec_glue(views(lines@)),
        forall|i: int| 0 <= i < r@.len() ==> wf_path(#[trigger] r@[i].view_of()),
{
    let ghost ls = views(lines@);
    let mut out: Vec<PolyLine> = Vec::new();
    if lines.len() == 0 {
        proof {
            assert(views(out@) =~= spec_glue(ls));
        }
        return out;
    }
    let mut acc: PolyLine = lines[0].duplicate();
    let mut i: usize = 1;
    while i < lines.len()
        invariant
            1 <= i <= lines@.len(),
            ls == views(lines@),
            wf_path(acc.view_of()),
            forall|j: int| 0 <= j < out@.len() ==> wf_path(#[trigger] out@[j].view_of()),
            views(out@) + glue_from(ls, i as int, acc.view_of()) == spec_glue(ls),
        decreases lines@.len() - i,
    {
        let ghost prev_out = views(out@);
        let ghost prev_acc = acc.view_of();
        if lines[i].continues_from(&acc) {
            acc = PolyLine::from_sections(&acc, &lines[i]);
        } else if lines[i].continues_from_reversed(&acc) {
            let rev = lines[i].reverse();
            proof {
                assert(forall|k: int| 0 <= k < rev.vertices@.len()
                    ==> in_bounds(#[trigger] rev.vertices@[k]));
            }
            acc = PolyLine::from_sections(&acc, &rev);
        } else {
            out.push(acc);
            acc = lines[i].duplicate();
            proof {
                assert(views(out@) =~= prev_out + seq![prev_acc]);
                assert(prev_out + (seq![prev_acc] + glue_from(ls, i as int + 1, ls[i as int]))
                    =~= views(out@) + glue_from(ls, i as int + 1, ls[i as int]));
            }
        }
        i = i + 1;
    }
    out.push(acc);
    proof {
        assert(views(out@) =~= spec_glue(ls));
    }
    out
}

/// Stitching an already fully glued list changes nothing: when no
/// adjacent pair of paths touches end to end, in either orientation,
/// the stitcher returns its input unchanged.
pub proof fn lemma_glue_fully_glued_noop(ls: Seq<PathView>)
    requires
        forall|i: int| 0 <= i < ls.len() ==> (#[trigger] ls[i]).0.len() >= 1,
        forall|i: int| 1 <= i < ls.len()
            ==> !spec_continues(#[trigger] ls[i], ls[i - 1])
                && !spec_continues_reversed(ls[i], ls[i - 1]),
    ensures
        spec_glue(ls) == ls,
{
    if ls.len() == 0 {
        assert(spec_glue(ls) =~= ls);
    } else {
        lemma_glue_from_noop(ls, 1);
        assert(ls.subrange(0, ls.len() as int) =~= ls);
    }
}

proof fn lemma_glue_from_noop(ls: Seq<PathView>, i: int)
    requires
        1 <= i <= ls.len(),
        forall|k: int| 0 <= k < ls.len() ==> (#[trigger] ls[k]).0.len() >= 1,
        forall|k: int| 1 <= k < ls.len()
            ==> !spec_continues(#[trigger] ls[k], ls[k - 1])
                && !spec_continues_reversed(ls[k], ls[k - 1]),
    ensures
        glue_from(ls, i, ls[i - 1]) == ls.subrange(i - 1, ls.len() as int),
    decreases ls.len() - i,
{
    if i == ls.len() {
        assert(glue_from(ls, i, ls[i - 1]) =~= ls.subrange(i - 1, ls.len() as int));
    } else {
        lemma_glue_from_noop(ls, i + 1);
        assert(glue_from(ls, i, ls[i - 1])
            =~= ls.subrange(i - 1, ls.len() as int));
    }
}

/// Stitching a pair whose second path ends (but does not start) at the
/// first path's endpoint yields one path: the first followed by the
/// second reversed, the shared vertex dropped.
pub proof fn lemma_glue_reversed_pair(a: PathView, b: PathView)
    requires
        a.0.len() >= 1,
        b.0.len() >= 1,
        !spec_continues(b, a),
        spec_continues_reversed(b, a),
    ensures
        spec_glue(seq![a, b]) == seq![spec_merge(a, spec_reversed(b))],
{
    let ls = seq![a, b];
    assert(ls[0] == a && ls[1] == b);
    assert(glue_from(ls, 2, spec_merge(a, spec_reversed(b)))
        == seq![spec_merge(a, spec_reversed(b))]);
}

} // verus!
