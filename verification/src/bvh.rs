//! Finding the cell of a point.
//!
//! Cells are stored under a bounding-volume hierarchy flattened in depth-first
//! order. Every node names the node to continue with when its box rejects the
//! point, so the search needs no stack. Box tests only preselect cells; the
//! cell's own region decides.
use crate::ieee::Real;
use crate::layout::CELL_NOT_FOUND;
use vstd::prelude::*;

verus! {

#[derive(Clone, Copy, Debug)]
pub struct Point {
    pub x: Real,
    pub y: Real,
    pub z: Real,
}

/// Box `k` of a buffer of boxes (three lower, then three upper bounds) holds
/// the point, bounds included.
pub open spec fn box_holds(boxes: Seq<Real>, k: int, p: Point) -> bool {
    &&& boxes[k * 6].le(p.x)
    &&& p.x.le(boxes[k * 6 + 3])
    &&& boxes[k * 6 + 1].le(p.y)
    &&& p.y.le(boxes[k * 6 + 4])
    &&& boxes[k * 6 + 2].le(p.z)
    &&& p.z.le(boxes[k * 6 + 5])
}

pub fn box_holds_point(boxes: &[Real], k: usize, p: Point) -> (r: bool)
    requires
        (k + 1) * 6 <= boxes.len(),
    ensures
        r == box_holds(boxes@, k as int, p),
{
    let b: usize = k * 6;
    boxes[b].is_le(p.x) && p.x.is_le(boxes[b + 3]) && boxes[b + 1].is_le(p.y) && p.y.is_le(
        boxes[b + 4],
    ) && boxes[b + 2].is_le(p.z) && p.z.is_le(boxes[b + 5])
}

/// The flattened hierarchy, and the cells it does not bound.
pub struct Bvh {
    pub aabbs: Vec<Real>,
    /// Per node: first primitive of a leaf, its number of primitives (0 for an
    /// inner node), and the node to continue with on rejection.
    pub meta: Vec<u32>,
    pub prims: Vec<u32>,
    pub unbounded: Vec<u32>,
    pub cell_aabbs: Vec<Real>,
}

impl Bvh {
    pub open spec fn n_nodes(self) -> nat {
        self.aabbs@.len() / 6
    }

    pub open spec fn n_cells(self) -> nat {
        self.cell_aabbs@.len() / 6
    }

    pub open spec fn first(self, b: int) -> int {
        self.meta@[b * 3] as int
    }

    pub open spec fn count(self, b: int) -> int {
        self.meta@[b * 3 + 1] as int
    }

    pub open spec fn escape(self, b: int) -> int {
        self.meta@[b * 3 + 2] as int
    }

    /// The buffers fit together: leaves and primitives name existing entries,
    /// and rejection always moves forward.
    pub open spec fn wf(self) -> bool {
        &&& self.meta@.len() == self.n_nodes() * 3
        &&& self.n_cells() < CELL_NOT_FOUND
        &&& forall|b: int|
            0 <= b < self.n_nodes() ==> b < #[trigger] self.escape(b) && self.first(b)
                + self.count(b) <= self.prims@.len()
        &&& forall|i: int|
            0 <= i < self.prims@.len() ==> #[trigger] self.prims@[i] < self.n_cells()
        &&& forall|i: int|
            0 <= i < self.unbounded@.len() ==> #[trigger] self.unbounded@[i] < self.n_cells()
    }

    /// Box test of a cell.
    pub open spec fn cell_holds(self, c: u32, p: Point) -> bool {
        box_holds(self.cell_aabbs@, c as int, p)
    }

    /// The first `n` cells of a list whose boxes hold the point.
    pub open spec fn preselect(self, list: Seq<u32>, p: Point) -> Seq<u32>
        decreases list.len(),
    {
        if list.len() == 0 {
            Seq::empty()
        } else {
            let rest = self.preselect(list.drop_last(), p);
            if self.cell_holds(list.last(), p) {
                rest.push(list.last())
            } else {
                rest
            }
        }
    }

    pub open spec fn leaf(self, b: int) -> Seq<u32> {
        self.prims@.subrange(self.first(b), self.first(b) + self.count(b))
    }

    /// Nodes not yet passed.
    pub open spec fn left(self, b: int) -> int {
        if b < self.n_nodes() {
            self.n_nodes() - b
        } else {
            0
        }
    }

    /// Cells met on the way from node `b` to the end of the traversal.
    pub open spec fn met_from(self, b: int, p: Point) -> Seq<u32>
        decreases self.left(b),
    {
        if b < 0 || b >= self.n_nodes() {
            Seq::empty()
        } else if box_holds(self.aabbs@, b, p) {
            self.preselect(self.leaf(b), p) + self.met_from(b + 1, p)
        } else if self.escape(b) <= b {
            Seq::empty()
        } else {
            self.met_from(self.escape(b), p)
        }
    }

    /// All cells to test for the point, in search order: those under the
    /// hierarchy, then the unbounded ones.
    pub open spec fn candidates_spec(self, p: Point) -> Seq<u32> {
        self.met_from(0, p) + self.preselect(self.unbounded@, p)
    }

    fn preselect_into(&self, list: &Vec<u32>, first: usize, count: usize, p: Point, out: &mut Vec<u32>)
        requires
            self.wf(),
            first + count <= list@.len(),
            forall|i: int| 0 <= i < list@.len() ==> #[trigger] list@[i] < self.n_cells(),
        ensures
            final(out)@ == old(out)@ + self.preselect(
                list@.subrange(first as int, first + count),
                p,
            ),
    {
        let ghost before = out@;
        let mut i: usize = 0;
        assert(list@.subrange(first as int, first as int) =~= Seq::<u32>::empty());
        assert(out@ =~= before + Seq::<u32>::empty());
        while i < count
            invariant
                i <= count,
                self.wf(),
                first + count <= list@.len(),
                list.len() == list@.len(),
                forall|i: int| 0 <= i < list@.len() ==> #[trigger] list@[i] < self.n_cells(),
                out@ == before + self.preselect(list@.subrange(first as int, first + i), p),
            decreases count - i,
        {
            let c: u32 = list[first + i];
            let ghost upto = list@.subrange(first as int, first + i + 1);
            proof {
                assert(upto.drop_last() =~= list@.subrange(first as int, first + i));
                assert(upto.last() == c);
                assert((c + 1) * 6 <= self.cell_aabbs@.len());
                assert(self.cell_aabbs.len() == self.cell_aabbs@.len());
            }
            if box_holds_point(self.cell_aabbs.as_slice(), c as usize, p) {
                out.push(c);
                assert(out@ =~= before + self.preselect(upto, p));
            }
            i = i + 1;
        }
    }

    /// Collects the cells to test for a point, in search order.
    pub fn candidates(&self, p: Point) -> (r: Vec<u32>)
        requires
            self.wf(),
        ensures
            r@ == self.candidates_spec(p),
    {
        let n: usize = self.aabbs.len() / 6;
        let mut r: Vec<u32> = Vec::new();
        let mut b: usize = 0;
        assert(r@ + self.met_from(0, p) =~= self.met_from(0, p));
        while b < n
            invariant
                n == self.n_nodes(),
                self.wf(),
                self.aabbs.len() == self.aabbs@.len(),
                self.meta.len() == self.meta@.len(),
                r@ + self.met_from(b as int, p) == self.met_from(0, p),
            decreases self.left(b as int),
        {
            let ghost before = r@;
            if box_holds_point(self.aabbs.as_slice(), b, p) {
                let first: usize = self.meta[b * 3] as usize;
                let count: usize = self.meta[b * 3 + 1] as usize;
                assert(self.first(b as int) + self.count(b as int) <= self.prims@.len()) by {
                    assert(b < self.escape(b as int));
                }
                self.preselect_into(&self.prims, first, count, p, &mut r);
                assert(r@ + self.met_from(b + 1, p) =~= before + (self.preselect(
                    self.leaf(b as int),
                    p,
                ) + self.met_from(b + 1, p)));
                b = b + 1;
            } else {
                assert(b < self.escape(b as int));
                b = self.meta[b * 3 + 2] as usize;
            }
        }
        proof {
            assert(self.met_from(b as int, p) =~= Seq::<u32>::empty());
            assert(r@ =~= self.met_from(0, p));
            assert(self.unbounded@.subrange(0, self.unbounded@.len() as int) =~= self.unbounded@);
        }
        self.preselect_into(&self.unbounded, 0, self.unbounded.len(), p, &mut r);
        r
    }
}

/// The first candidate whose region holds the point.
pub open spec fn is_first_inside(inside: Seq<bool>, k: int) -> bool {
    &&& 0 <= k < inside.len()
    &&& inside[k]
    &&& forall|i: int| 0 <= i < k ==> !#[trigger] inside[i]
}

/// Cell of the point: the first candidate whose region holds it. `inside` gives
/// the region test of each candidate.
pub fn first_inside(candidates: &[u32], inside: &[bool]) -> (r: u32)
    requires
        inside.len() == candidates.len(),
    ensures
        forall|k: int| is_first_inside(inside@, k) ==> r == candidates@[k],
        (forall|k: int| 0 <= k < inside.len() ==> !#[trigger] inside@[k]) ==> r == CELL_NOT_FOUND,
{
    let mut i: usize = 0;
    while i < inside.len()
        invariant
            i <= inside.len(),
            inside.len() == candidates.len(),
            forall|k: int| 0 <= k < i ==> !#[trigger] inside@[k],
        decreases inside.len() - i,
    {
        if inside[i] {
            return candidates[i];
        }
        i = i + 1;
    }
    CELL_NOT_FOUND
}

/// Every box bounds what stands under it: a point in the box of a cell is in
/// the box of every node above the cell.
pub open spec fn bounds_its_cells(bvh: Bvh, p: Point) -> bool {
    forall|b: int, l: int, c: u32|
        0 <= b <= l < bvh.n_nodes() && l < bvh.escape(b) && #[trigger] bvh.leaf(l).contains(c)
            && bvh.cell_holds(c, p) ==> #[trigger] box_holds(bvh.aabbs@, b, p)
}

proof fn lemma_preselect_keeps(bvh: Bvh, list: Seq<u32>, c: u32, p: Point)
    requires
        list.contains(c),
        bvh.cell_holds(c, p),
    ensures
        bvh.preselect(list, p).contains(c),
    decreases list.len(),
{
    let i = choose|i: int| 0 <= i < list.len() && list[i] == c;
    let rest = list.drop_last();
    if i == list.len() - 1 {
        let s = bvh.preselect(list, p);
        assert(s[s.len() - 1] == c);
    } else {
        assert(rest[i] == c);
        lemma_preselect_keeps(bvh, rest, c, p);
        let r = bvh.preselect(rest, p);
        let j = choose|j: int| 0 <= j < r.len() && r[j] == c;
        assert(bvh.preselect(list, p)[j] == c);
    }
}

proof fn lemma_met(bvh: Bvh, b: int, l: int, c: u32, p: Point)
    requires
        bvh.wf(),
        bounds_its_cells(bvh, p),
        0 <= b <= l < bvh.n_nodes(),
        bvh.leaf(l).contains(c),
        bvh.cell_holds(c, p),
    ensures
        bvh.met_from(b, p).contains(c),
    decreases bvh.left(b),
{
    assert(b < bvh.escape(b));
    if box_holds(bvh.aabbs@, b, p) {
        let head = bvh.preselect(bvh.leaf(b), p);
        let tail = bvh.met_from(b + 1, p);
        if b == l {
            lemma_preselect_keeps(bvh, bvh.leaf(b), c, p);
            let j = choose|j: int| 0 <= j < head.len() && head[j] == c;
            assert((head + tail)[j] == c);
        } else {
            lemma_met(bvh, b + 1, l, c, p);
            let j = choose|j: int| 0 <= j < tail.len() && tail[j] == c;
            assert((head + tail)[head.len() + j] == c);
        }
    } else {
        if l < bvh.escape(b) {
            assert(bvh.leaf(l).contains(c));
            assert(box_holds(bvh.aabbs@, b, p));
        }
        lemma_met(bvh, bvh.escape(b), l, c, p);
    }
}

/// The search misses no cell: every cell whose box holds the point, whether it
/// stands in a leaf or is unbounded, is among the candidates.
pub proof fn search_misses_no_cell(bvh: Bvh, c: u32, p: Point)
    requires
        bvh.wf(),
        bounds_its_cells(bvh, p),
        bvh.cell_holds(c, p),
        (exists|l: int| 0 <= l < bvh.n_nodes() && #[trigger] bvh.leaf(l).contains(c))
            || bvh.unbounded@.contains(c),
    ensures
        bvh.candidates_spec(p).contains(c),
{
    let met = bvh.met_from(0, p);
    let open = bvh.preselect(bvh.unbounded@, p);
    if bvh.unbounded@.contains(c) {
        lemma_preselect_keeps(bvh, bvh.unbounded@, c, p);
        let j = choose|j: int| 0 <= j < open.len() && open[j] == c;
        assert((met + open)[met.len() + j] == c);
    } else {
        let l = choose|l: int| 0 <= l < bvh.n_nodes() && #[trigger] bvh.leaf(l).contains(c);
        lemma_met(bvh, 0, l, c, p);
        let j = choose|j: int| 0 <= j < met.len() && met[j] == c;
        assert((met + open)[j] == c);
    }
}

proof fn lemma_preselect_holds(bvh: Bvh, list: Seq<u32>, p: Point)
    ensures
        forall|i: int|
            0 <= i < bvh.preselect(list, p).len() ==> bvh.cell_holds(
                #[trigger] bvh.preselect(list, p)[i],
                p,
            ),
    decreases list.len(),
{
    if list.len() > 0 {
        let rest = bvh.preselect(list.drop_last(), p);
        lemma_preselect_holds(bvh, list.drop_last(), p);
        assert forall|i: int| 0 <= i < bvh.preselect(list, p).len() implies bvh.cell_holds(
            #[trigger] bvh.preselect(list, p)[i],
            p,
        ) by {
            if i < rest.len() {
                assert(bvh.preselect(list, p)[i] == rest[i]);
            }
        }
    }
}

proof fn lemma_met_holds(bvh: Bvh, b: int, p: Point)
    ensures
        forall|i: int|
            0 <= i < bvh.met_from(b, p).len() ==> bvh.cell_holds(
                #[trigger] bvh.met_from(b, p)[i],
                p,
            ),
    decreases bvh.left(b),
{
    if 0 <= b < bvh.n_nodes() {
        if box_holds(bvh.aabbs@, b, p) {
            let head = bvh.preselect(bvh.leaf(b), p);
            let tail = bvh.met_from(b + 1, p);
            lemma_preselect_holds(bvh, bvh.leaf(b), p);
            lemma_met_holds(bvh, b + 1, p);
            assert forall|i: int| 0 <= i < (head + tail).len() implies bvh.cell_holds(
                #[trigger] (head + tail)[i],
                p,
            ) by {
                if i < head.len() {
                    assert((head + tail)[i] == head[i]);
                } else {
                    assert((head + tail)[i] == tail[i - head.len()]);
                }
            }
            assert(bvh.met_from(b, p) == head + tail);
        } else if bvh.escape(b) > b {
            lemma_met_holds(bvh, bvh.escape(b), p);
            assert(bvh.met_from(b, p) == bvh.met_from(bvh.escape(b), p));
        } else {
            assert(bvh.met_from(b, p).len() == 0);
        }
    } else {
        assert(bvh.met_from(b, p).len() == 0);
    }
}

/// Only cells whose own box holds the point are candidates.
pub proof fn candidates_hold_the_point(bvh: Bvh, p: Point)
    ensures
        forall|i: int|
            0 <= i < bvh.candidates_spec(p).len() ==> bvh.cell_holds(
                #[trigger] bvh.candidates_spec(p)[i],
                p,
            ),
{
    lemma_met_holds(bvh, 0, p);
    lemma_preselect_holds(bvh, bvh.unbounded@, p);
    let met = bvh.met_from(0, p);
    let open = bvh.preselect(bvh.unbounded@, p);
    assert forall|i: int| 0 <= i < bvh.candidates_spec(p).len() implies bvh.cell_holds(
        #[trigger] bvh.candidates_spec(p)[i],
        p,
    ) by {
        if i < met.len() {
            assert(bvh.candidates_spec(p)[i] == met[i]);
        } else {
            assert(bvh.candidates_spec(p)[i] == open[i - met.len()]);
        }
    }
}

/// The point lies in box `k`: on no axis below its lower or above its upper bound,
/// the three lower bounds standing before the three upper ones.
pub open spec fn lies_in(boxes: Seq<Real>, k: int, p: Point) -> bool {
    &&& boxes[6 * k].le(p.x) && p.x.le(boxes[6 * k + 3])
    &&& boxes[6 * k + 1].le(p.y) && p.y.le(boxes[6 * k + 4])
    &&& boxes[6 * k + 2].le(p.z) && p.z.le(boxes[6 * k + 5])
}

proof fn lemma_preselect_is_filter(bvh: Bvh, list: Seq<u32>, p: Point)
    ensures
        bvh.preselect(list, p) == list.filter(
            |c: u32| lies_in(bvh.cell_aabbs@, c as int, p),
        ),
    decreases list.len(),
{
    let f = |c: u32| lies_in(bvh.cell_aabbs@, c as int, p);
    reveal(Seq::filter);
    if list.len() > 0 {
        lemma_preselect_is_filter(bvh, list.drop_last(), p);
        assert(f(list.last()) == bvh.cell_holds(list.last(), p));
    }
}

/// The candidates are the cells met in the tree, then the unbounded ones; each lies
/// around the point, and they keep the order of their lists.
pub proof fn candidates_come_tree_first(bvh: &Bvh, p: Point, r: Vec<u32>)
    requires
        bvh.wf(),
        call_ensures(Bvh::candidates, (bvh, p), r),
    ensures
        r@ == bvh.met_from(0, p) + bvh.unbounded@.filter(
            |c: u32| lies_in(bvh.cell_aabbs@, c as int, p),
        ),
        forall|i: int|
            0 <= i < r@.len() ==> lies_in(bvh.cell_aabbs@, #[trigger] r@[i] as int, p),
{
    lemma_preselect_is_filter(*bvh, bvh.unbounded@, p);
    candidates_hold_the_point(*bvh, p);
    assert forall|i: int| 0 <= i < r@.len() implies lies_in(
        bvh.cell_aabbs@,
        #[trigger] r@[i] as int,
        p,
    ) by {
        assert(r@[i] == bvh.candidates_spec(p)[i]);
        assert(bvh.cell_holds(r@[i], p));
    }
}

/// A node whose box holds the point hands over its cells around the point and goes
/// on to the next node; any other skips to the node it escapes to.
pub proof fn a_node_is_opened_or_skipped(bvh: Bvh, b: int, p: Point)
    requires
        bvh.wf(),
        0 <= b < bvh.aabbs@.len() / 6,
    ensures
        lies_in(bvh.aabbs@, b, p) ==> bvh.met_from(b, p) == bvh.prims@.subrange(
            bvh.meta@[3 * b] as int,
            bvh.meta@[3 * b] + bvh.meta@[3 * b + 1],
        ).filter(|c: u32| lies_in(bvh.cell_aabbs@, c as int, p)) + bvh.met_from(b + 1, p),
        !lies_in(bvh.aabbs@, b, p) ==> bvh.met_from(b, p) == bvh.met_from(
            bvh.meta@[3 * b + 2] as int,
            p,
        ),
        bvh.met_from((bvh.aabbs@.len() / 6) as int, p).len() == 0,
{
    lemma_preselect_is_filter(bvh, bvh.leaf(b), p);
    assert(b < bvh.escape(b));
}

/// Every cell around the point that stands in a leaf or is unbounded is a candidate,
/// where the boxes of the tree bound the cells below them.
pub proof fn no_cell_around_the_point_is_missed(bvh: &Bvh, c: u32, p: Point, r: Vec<u32>)
    requires
        bvh.wf(),
        bounds_its_cells(*bvh, p),
        lies_in(bvh.cell_aabbs@, c as int, p),
        (exists|l: int|
            0 <= l < bvh.aabbs@.len() / 6 && #[trigger] bvh.prims@.subrange(
                bvh.meta@[l * 3] as int,
                bvh.meta@[l * 3] + bvh.meta@[l * 3 + 1],
            ).contains(c)) || bvh.unbounded@.contains(c),
        call_ensures(Bvh::candidates, (bvh, p), r),
    ensures
        r@.contains(c),
{
    if !bvh.unbounded@.contains(c) {
        let l = choose|l: int|
            0 <= l < bvh.aabbs@.len() / 6 && #[trigger] bvh.prims@.subrange(
                bvh.meta@[l * 3] as int,
                bvh.meta@[l * 3] + bvh.meta@[l * 3 + 1],
            ).contains(c);
        assert(bvh.leaf(l).contains(c));
    }
    assert(bvh.cell_holds(c, p));
    search_misses_no_cell(*bvh, c, p);
}

/// The cell found is the first candidate that holds the point, and all ones where
/// none does.
pub proof fn the_first_candidate_inside_is_found(
    candidates: &[u32],
    inside: &[bool],
    k: int,
    r: u32,
)
    requires
        inside.len() == candidates.len(),
        call_ensures(first_inside, (candidates, inside), r),
    ensures
        0 <= k < inside.len() && inside@[k] && (forall|i: int| 0 <= i < k ==> !#[trigger] inside@[i])
            ==> r == candidates@[k],
        (forall|i: int| 0 <= i < inside.len() ==> !#[trigger] inside@[i]) ==> r == 0xffff_ffff,
{
    if 0 <= k < inside.len() && inside@[k] && (forall|i: int|
        0 <= i < k ==> !#[trigger] inside@[i]) {
        assert(is_first_inside(inside@, k));
    }
}

} // verus!
