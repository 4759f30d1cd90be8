//! Table lookups: energy brackets and rows of the packed per-material tables.
use crate::ieee::{sorted, Real};
use crate::layout::{
    COARSE_META_COLS, COL_COARSE_GRID_OFFSET, COL_COARSE_MT_BASE, COL_COARSE_N,
    COL_FINE_GRID_OFFSET, COL_FINE_N, COL_FINE_NUC_BASE, COL_PERMT_I_START, COL_PERMT_N_STORED,
    COL_PERMT_VALUE_OFFSET, FINE_META_COLS, MT_INELASTIC_COUNT, NUC_PARTIAL_COLS, PERMT_META_COLS,
};
use vstd::prelude::*;

verus! {

/// Two neighbouring points of a grid.
#[derive(Clone, Copy, Debug)]
pub struct Bracket {
    pub lo: usize,
    pub hi: usize,
}

/// Number of grid points below `v`.
pub open spec fn count_below(grid: Seq<Real>, v: Real) -> nat
    decreases grid.len(),
{
    if grid.len() == 0 {
        0
    } else {
        count_below(grid.drop_last(), v) + if grid.last().lt(v) {
            1nat
        } else {
            0nat
        }
    }
}

/// Upper point of the bracket of `v`: the first grid point that is not below
/// `v`, kept inside `1 ..= n - 1` so that the bracket always exists.
pub open spec fn bracket_hi(grid: Seq<Real>, v: Real) -> int {
    let k = count_below(grid, v) as int;
    if k < 1 {
        1
    } else if k > grid.len() - 1 {
        grid.len() - 1
    } else {
        k
    }
}

proof fn lemma_count_partition(grid: Seq<Real>, v: Real, p: int)
    requires
        0 <= p <= grid.len(),
        forall|i: int| 0 <= i < p ==> (#[trigger] grid[i]).lt(v),
        forall|i: int| p <= i < grid.len() ==> !(#[trigger] grid[i]).lt(v),
    ensures
        count_below(grid, v) == p,
    decreases grid.len(),
{
    if grid.len() > 0 {
        let rest = grid.drop_last();
        assert forall|i: int| 0 <= i < rest.len() implies rest[i] == grid[i] by {}
        if p == grid.len() {
            assert(grid[p - 1].lt(v));
            lemma_count_partition(rest, v, p - 1);
        } else {
            assert(!grid[grid.len() - 1].lt(v));
            lemma_count_partition(rest, v, p);
        }
    }
}

/// Bracket of `v` in the grid that occupies `n` points from `offset`. The
/// indices are relative to `offset`.
pub fn grid_bracket(grid: &[Real], offset: usize, n: usize, v: Real) -> (r: Bracket)
    requires
        n >= 2,
        offset + n <= grid.len(),
        sorted(grid@.subrange(offset as int, offset + n)),
    ensures
        r.hi == bracket_hi(grid@.subrange(offset as int, offset + n), v),
        r.lo == r.hi - 1,
        r.hi < n,
{
    let ghost g = grid@.subrange(offset as int, offset + n);
    let mut lo: usize = 0;
    let mut hi: usize = n;
    while lo < hi
        invariant
            lo <= hi <= n,
            offset + n <= grid.len(),
            g == grid@.subrange(offset as int, offset + n),
            sorted(g),
            g.len() == n,
            forall|i: int| 0 <= i < lo ==> (#[trigger] g[i]).lt(v),
            forall|i: int| hi <= i < n ==> !(#[trigger] g[i]).lt(v),
        decreases hi - lo,
    {
        let mid: usize = lo + (hi - lo) / 2;
        assert(g[mid as int] == grid@[offset + mid]);
        if grid[offset + mid].is_lt(v) {
            assert forall|i: int| 0 <= i < mid + 1 implies (#[trigger] g[i]).lt(v) by {
                assert(g[i].key() <= g[mid as int].key());
            }
            lo = mid + 1;
        } else {
            assert forall|i: int| mid <= i < n implies !(#[trigger] g[i]).lt(v) by {
                assert(g[mid as int].key() <= g[i].key());
            }
            hi = mid;
        }
    }
    proof {
        lemma_count_partition(g, v, lo as int);
    }
    let top: usize = if lo < 1 {
        1
    } else if lo > n - 1 {
        n - 1
    } else {
        lo
    };
    Bracket { lo: top - 1, hi: top }
}

/// Inside the range of a grid, the bracket of a value encloses it.
pub proof fn bracket_encloses(grid: Seq<Real>, v: Real)
    requires
        grid.len() >= 2,
        sorted(grid),
        grid[0].le(v),
        v.le(grid[grid.len() - 1]),
    ensures
        1 <= bracket_hi(grid, v) < grid.len(),
        grid[bracket_hi(grid, v) - 1].le(v),
        v.le(grid[bracket_hi(grid, v)]),
{
    let p = lemma_partition_point(grid, v);
    lemma_count_partition(grid, v, p);
    if p == grid.len() {
        assert(grid[p - 1].lt(v));
    }
    if 1 <= p < grid.len() {
        assert(grid[p - 1].lt(v));
        assert(!grid[p].lt(v));
    }
    if p == 0 {
        assert(!grid[0].lt(v));
        assert(grid[0].key() <= grid[1].key());
    }
}

proof fn lemma_partition_point(grid: Seq<Real>, v: Real) -> (p: int)
    requires
        sorted(grid),
    ensures
        0 <= p <= grid.len(),
        forall|i: int| 0 <= i < p ==> (#[trigger] grid[i]).lt(v),
        forall|i: int| p <= i < grid.len() ==> !(#[trigger] grid[i]).lt(v),
    decreases grid.len(),
{
    if grid.len() == 0 {
        0
    } else {
        let rest = grid.drop_last();
        assert forall|i: int, j: int| 0 <= i <= j < rest.len() implies (#[trigger] rest[i]).key()
            <= (#[trigger] rest[j]).key() by {
            assert(grid[i].key() <= grid[j].key());
        }
        assert forall|i: int| 0 <= i < rest.len() implies !(#[trigger] rest[i]).is_nan_spec() by {
            assert(!grid[i].is_nan_spec());
        }
        let p = lemma_partition_point(rest, v);
        assert forall|i: int| 0 <= i < rest.len() implies rest[i] == grid[i] by {}
        if grid[grid.len() - 1].lt(v) {
            if p < rest.len() {
                assert(!rest[p].lt(v));
                assert(grid[p].key() <= grid[grid.len() - 1].key());
            }
            assert forall|i: int| 0 <= i < grid.len() implies (#[trigger] grid[i]).lt(v) by {
                if i < rest.len() {
                    assert(rest[i].lt(v));
                }
            }
            grid.len() as int
        } else {
            assert forall|i: int| 0 <= i < p implies (#[trigger] grid[i]).lt(v) by {
                assert(rest[i].lt(v));
            }
            assert forall|i: int| p <= i < grid.len() implies !(#[trigger] grid[i]).lt(v) by {
                if i < rest.len() {
                    assert(!rest[i].lt(v));
                }
            }
            p
        }
    }
}

/// One material's own fine grid: where it starts (also the row base of the
/// aggregate cross sections), its length, and the element base of its first
/// nuclide.
#[derive(Clone, Copy, Debug)]
pub struct FineGrid {
    pub offset: usize,
    pub n: usize,
    pub nuc_base: usize,
}

pub fn fine_grid(fine_meta: &[u32], mat: usize) -> (r: FineGrid)
    requires
        (mat + 1) * FINE_META_COLS <= fine_meta.len(),
    ensures
        r.offset == fine_meta@[mat * FINE_META_COLS + COL_FINE_GRID_OFFSET],
        r.n == fine_meta@[mat * FINE_META_COLS + COL_FINE_N],
        r.nuc_base == fine_meta@[mat * FINE_META_COLS + COL_FINE_NUC_BASE],
{
    let row: usize = mat * FINE_META_COLS as usize;
    FineGrid {
        offset: fine_meta[row + COL_FINE_GRID_OFFSET as usize] as usize,
        n: fine_meta[row + COL_FINE_N as usize] as usize,
        nuc_base: fine_meta[row + COL_FINE_NUC_BASE as usize] as usize,
    }
}

/// One material's own coarse grid: where it starts, its length, and the row of
/// its first nuclide in the sparse per-reaction table.
#[derive(Clone, Copy, Debug)]
pub struct CoarseGrid {
    pub offset: usize,
    pub n: usize,
    pub mt_base: usize,
}

pub fn coarse_grid(coarse_meta: &[u32], mat: usize) -> (r: CoarseGrid)
    requires
        (mat + 1) * COARSE_META_COLS <= coarse_meta.len(),
    ensures
        r.offset == coarse_meta@[mat * COARSE_META_COLS + COL_COARSE_GRID_OFFSET],
        r.n == coarse_meta@[mat * COARSE_META_COLS + COL_COARSE_N],
        r.mt_base == coarse_meta@[mat * COARSE_META_COLS + COL_COARSE_MT_BASE],
{
    let row: usize = mat * COARSE_META_COLS as usize;
    CoarseGrid {
        offset: coarse_meta[row + COL_COARSE_GRID_OFFSET as usize] as usize,
        n: coarse_meta[row + COL_COARSE_N as usize] as usize,
        mt_base: coarse_meta[row + COL_COARSE_MT_BASE as usize] as usize,
    }
}

/// Nuclides of a material: a run of `count` global slabs from `offset`.
#[derive(Clone, Copy, Debug)]
pub struct NuclideRun {
    pub offset: usize,
    pub count: usize,
}

pub fn nuclide_run(mat_nuclide_meta: &[u32], mat: usize) -> (r: NuclideRun)
    requires
        (mat + 1) * 2 <= mat_nuclide_meta.len(),
    ensures
        r.offset == mat_nuclide_meta@[mat * 2],
        r.count == mat_nuclide_meta@[mat * 2 + 1],
{
    NuclideRun {
        offset: mat_nuclide_meta[mat * 2] as usize,
        count: mat_nuclide_meta[mat * 2 + 1] as usize,
    }
}

/// Element of the per-nuclide totals for the nuclide `within` a material, at
/// point `idx` of the material's fine grid.
pub open spec fn nuclide_element(grid: FineGrid, within: int, idx: int) -> int {
    grid.nuc_base + within * grid.n + idx
}

pub fn nuclide_total_index(grid: FineGrid, within: usize, idx: usize) -> (r: usize)
    requires
        nuclide_element(grid, within as int, idx as int) <= usize::MAX,
    ensures
        r == nuclide_element(grid, within as int, idx as int),
{
    proof {
        lemma_product_bound(within as int, grid.n as int, grid.nuc_base + idx, usize::MAX as int);
    }
    grid.nuc_base + within * grid.n + idx
}

/// First of the four partials (elastic, absorption, inelastic, fission) of a
/// nuclide at a grid point.
pub fn nuclide_partial_index(grid: FineGrid, within: usize, idx: usize) -> (r: usize)
    requires
        nuclide_element(grid, within as int, idx as int) * NUC_PARTIAL_COLS <= usize::MAX,
    ensures
        r == nuclide_element(grid, within as int, idx as int) * NUC_PARTIAL_COLS,
{
    proof {
        assert(within * grid.n >= 0) by (nonlinear_arith);
    }
    nuclide_total_index(grid, within, idx) * NUC_PARTIAL_COLS
}

proof fn lemma_product_bound(a: int, b: int, rest: int, max: int)
    requires
        a >= 0,
        b >= 0,
        rest >= 0,
        a * b + rest <= max,
    ensures
        0 <= a * b <= max,
{
    assert(a * b >= 0) by (nonlinear_arith)
        requires
            a >= 0,
            b >= 0,
    ;
}

/// Row bases of a tight layout: material `m` starts where the materials before
/// it end.
pub open spec fn tight_base(counts: Seq<nat>, m: int) -> nat
    decreases m,
{
    if m <= 0 {
        0
    } else {
        tight_base(counts, m - 1) + counts[m - 1]
    }
}

proof fn lemma_tight_monotone(counts: Seq<nat>, a: int, b: int)
    requires
        0 <= a <= b <= counts.len(),
    ensures
        tight_base(counts, a) <= tight_base(counts, b),
    decreases b,
{
    if a < b {
        lemma_tight_monotone(counts, a, b - 1);
    }
}

/// In a tight layout every element of every material lies inside the buffer.
pub proof fn tight_rows_fit(counts: Seq<nat>, m: int, i: int)
    requires
        0 <= m < counts.len(),
        0 <= i < counts[m],
    ensures
        0 <= tight_base(counts, m) + i < tight_base(counts, counts.len() as int),
{
    lemma_tight_monotone(counts, m + 1, counts.len() as int);
}

/// In a tight layout no element is shared by two materials.
pub proof fn tight_rows_are_disjoint(counts: Seq<nat>, m: int, i: int, n: int, j: int)
    requires
        0 <= m < counts.len(),
        0 <= n < counts.len(),
        0 <= i < counts[m],
        0 <= j < counts[n],
        tight_base(counts, m) + i == tight_base(counts, n) + j,
    ensures
        m == n,
        i == j,
{
    if m < n {
        lemma_tight_monotone(counts, m + 1, n);
    }
    if n < m {
        lemma_tight_monotone(counts, n + 1, m);
    }
}

/// Stored range of one (slab, reaction slot) of the sparse tables.
#[derive(Clone, Copy, Debug)]
pub struct SparseRow {
    pub value_offset: usize,
    pub i_start: usize,
    pub n_stored: usize,
}

/// Row of a (slab, slot) in the sparse table: the material's first row plus the
/// slab's offset within the material.
pub fn sparse_row_index(mt_base: usize, within: usize, slot: usize) -> (r: usize)
    requires
        mt_base + within * MT_INELASTIC_COUNT + slot <= usize::MAX,
    ensures
        r == mt_base + within * MT_INELASTIC_COUNT + slot,
{
    mt_base + within * MT_INELASTIC_COUNT + slot
}

/// The per-material row base reduces to the global slab order.
pub proof fn sparse_rows_follow_slab_order(nuc_off: int, slab: int, slot: int)
    ensures
        nuc_off * MT_INELASTIC_COUNT + (slab - nuc_off) * MT_INELASTIC_COUNT + slot == slab
            * MT_INELASTIC_COUNT + slot,
{
}

pub fn sparse_row(permt_meta: &[u32], row: usize) -> (r: SparseRow)
    requires
        (row + 1) * PERMT_META_COLS <= permt_meta.len(),
    ensures
        r.value_offset == permt_meta@[row * PERMT_META_COLS + COL_PERMT_VALUE_OFFSET],
        r.i_start == permt_meta@[row * PERMT_META_COLS + COL_PERMT_I_START],
        r.n_stored == permt_meta@[row * PERMT_META_COLS + COL_PERMT_N_STORED],
{
    let at: usize = row * PERMT_META_COLS as usize;
    SparseRow {
        value_offset: permt_meta[at + COL_PERMT_VALUE_OFFSET as usize] as usize,
        i_start: permt_meta[at + COL_PERMT_I_START as usize] as usize,
        n_stored: permt_meta[at + COL_PERMT_N_STORED as usize] as usize,
    }
}

impl SparseRow {
    /// Whether grid index `k` is stored.
    pub open spec fn stores(self, k: int) -> bool {
        self.i_start <= k < self.i_start + self.n_stored
    }

    /// Value of the row at grid index `k`: the stored one, or `default` outside
    /// the stored range.
    pub open spec fn value<T>(self, values: Seq<T>, k: int, default: T) -> T {
        if self.stores(k) {
            values[self.value_offset + (k - self.i_start)]
        } else {
            default
        }
    }

    pub fn at<T: Copy>(&self, values: &[T], k: usize, default: T) -> (r: T)
        requires
            self.value_offset + self.n_stored <= values.len(),
        ensures
            r == self.value(values@, k as int, default),
    {
        if k >= self.i_start && k - self.i_start < self.n_stored {
            values[self.value_offset + (k - self.i_start)]
        } else {
            default
        }
    }
}

/// Storing only a row's non-default range loses nothing: the sparse lookup
/// gives back every value of the dense row.
pub proof fn sparse_row_is_dense_row<T>(
    row: SparseRow,
    values: Seq<T>,
    dense: Seq<T>,
    k: int,
    default: T,
)
    requires
        0 <= k < dense.len(),
        row.i_start + row.n_stored <= dense.len(),
        row.value_offset + row.n_stored <= values.len(),
        forall|i: int| #![trigger dense[i]]
            0 <= i < dense.len() && !row.stores(i) ==> dense[i] == default,
        values.subrange(row.value_offset as int, row.value_offset + row.n_stored)
            == dense.subrange(row.i_start as int, row.i_start + row.n_stored),
    ensures
        row.value(values, k, default) == dense[k],
{
    if row.stores(k) {
        let i = k - row.i_start;
        assert(values.subrange(row.value_offset as int, row.value_offset + row.n_stored)[i]
            == values[row.value_offset + i]);
        assert(dense.subrange(row.i_start as int, row.i_start + row.n_stored)[i] == dense[k]);
    }
}

/// How an incident energy lies against a distribution's energy grid.
#[derive(Clone, Copy, Debug, PartialEq, Eq, Structural)]
pub enum GridSide {
    /// At or below the first point.
    Below,
    /// Between the first and the last point.
    Within,
    /// At or above the last point.
    Above,
}

/// Position of an incident energy on a distribution's grid: the lower point of
/// the pair to interpolate between.
#[derive(Clone, Copy, Debug)]
pub struct Incident {
    pub index: usize,
    pub side: GridSide,
}

/// `e` lies between points `k` (inclusive) and `k + 1` (exclusive).
pub open spec fn in_cell(grid: Seq<Real>, k: int, e: Real) -> bool {
    grid[k].le(e) && e.lt(grid[k + 1])
}

pub open spec fn incident_side(grid: Seq<Real>, e: Real) -> GridSide {
    if grid[grid.len() - 1].le(e) {
        GridSide::Above
    } else if grid[0].lt(e) {
        GridSide::Within
    } else {
        GridSide::Below
    }
}

/// Finds the grid cell of an incident energy. Above the grid the last cell is
/// used; below it the first.
pub fn incident_bracket(grid: &[Real], offset: usize, n: usize, e: Real) -> (r: Incident)
    requires
        n >= 1,
        offset + n <= grid.len(),
        sorted(grid@.subrange(offset as int, offset + n)),
    ensures
        r.side == incident_side(grid@.subrange(offset as int, offset + n), e),
        r.side == GridSide::Above ==> r.index == if n > 1 {
            n - 2
        } else {
            0
        },
        r.side == GridSide::Within ==> r.index + 1 < n && in_cell(
            grid@.subrange(offset as int, offset + n),
            r.index as int,
            e,
        ),
        r.side == GridSide::Below ==> r.index == 0,
{
    let ghost g = grid@.subrange(offset as int, offset + n);
    assert(g[n - 1] == grid@[offset + n - 1]);
    assert(g[0] == grid@[offset as int]);
    if grid[offset + n - 1].is_le(e) {
        let index: usize = if n > 1 {
            n - 2
        } else {
            0
        };
        return Incident { index, side: GridSide::Above };
    }
    if !grid[offset].is_lt(e) {
        return Incident { index: 0, side: GridSide::Below };
    }
    let mut k: usize = 0;
    while k + 1 < n
        invariant
            k < n,
            offset + n <= grid.len(),
            g == grid@.subrange(offset as int, offset + n),
            g.len() == n,
            sorted(g),
            g[k as int].le(e),
            !g[n - 1].le(e),
            incident_side(g, e) == GridSide::Within,
        decreases n - k,
    {
        assert(g[k + 1] == grid@[offset + k + 1]);
        if e.is_lt(grid[offset + k + 1]) {
            assert(in_cell(g, k as int, e));
            return Incident { index: k, side: GridSide::Within };
        }
        k = k + 1;
    }
    Incident { index: 0, side: GridSide::Below }
}

/// The cell of an energy inside the grid is the only one that holds it.
pub proof fn incident_cell_is_unique(grid: Seq<Real>, j: int, k: int, e: Real)
    requires
        sorted(grid),
        0 <= j < grid.len() - 1,
        0 <= k < grid.len() - 1,
        in_cell(grid, j, e),
        in_cell(grid, k, e),
    ensures
        j == k,
{
    if j < k {
        assert(grid[j + 1].key() <= grid[k].key());
    }
    if k < j {
        assert(grid[k + 1].key() <= grid[j].key());
    }
}

/// A bracket is a pair of neighbours: the value lies above the lower one, unless
/// that is the first point, and not above the upper one, unless that is the last.
pub proof fn a_bracket_is_the_pair_around_the_value(
    grid: &[Real],
    offset: usize,
    n: usize,
    v: Real,
    r: Bracket,
)
    requires
        n >= 2,
        offset + n <= grid.len(),
        sorted(grid@.subrange(offset as int, offset + n)),
        !v.is_nan_spec(),
        call_ensures(grid_bracket, (grid, offset, n, v), r),
    ensures
        r.hi == r.lo + 1,
        r.hi < n,
        r.lo > 0 ==> grid@[offset + r.lo].lt(v),
        r.hi < n - 1 ==> v.le(grid@[offset + r.hi]),
{
    let g = grid@.subrange(offset as int, offset + n);
    let p = lemma_partition_point(g, v);
    lemma_count_partition(g, v, p);
    assert(g[r.lo as int] == grid@[offset + r.lo]);
    assert(g[r.hi as int] == grid@[offset + r.hi]);
    if r.hi < n - 1 {
        assert(!g[r.hi as int].lt(v));
        assert(!g[r.hi as int].is_nan_spec());
    }
    if r.lo > 0 {
        assert(g[r.lo as int].lt(v));
    }
}

/// The grids of a material are read from its row of three: where the grid begins,
/// how many points it has, and where its values begin.
pub proof fn a_material_reads_its_own_row(
    fine_meta: &[u32],
    coarse_meta: &[u32],
    nuclides: &[u32],
    mat: usize,
    fine: FineGrid,
    coarse: CoarseGrid,
    run: NuclideRun,
)
    requires
        (mat + 1) * 3 <= fine_meta.len(),
        (mat + 1) * 3 <= coarse_meta.len(),
        (mat + 1) * 2 <= nuclides.len(),
        call_ensures(fine_grid, (fine_meta, mat), fine),
        call_ensures(coarse_grid, (coarse_meta, mat), coarse),
        call_ensures(nuclide_run, (nuclides, mat), run),
    ensures
        fine.offset == fine_meta@[mat * 3],
        fine.n == fine_meta@[mat * 3 + 1],
        fine.nuc_base == fine_meta@[mat * 3 + 2],
        coarse.offset == coarse_meta@[mat * 3],
        coarse.n == coarse_meta@[mat * 3 + 1],
        coarse.mt_base == coarse_meta@[mat * 3 + 2],
        run.offset == nuclides@[mat * 2],
        run.count == nuclides@[mat * 2 + 1],
{
}

/// The totals of a nuclide stand point by point in a run of its own, the partials in
/// fours at the same places; the value at the next point is the next one, and the
/// next nuclide's run begins where this one's ends.
pub proof fn nuclide_values_stand_run_by_run(
    grid: FineGrid,
    within: usize,
    idx: usize,
    total: usize,
    next_point: usize,
    next_nuclide: usize,
    partial: usize,
    first: usize,
)
    requires
        grid.nuc_base + (within + 1) * grid.n + idx + 1 <= usize::MAX,
        4 * (grid.nuc_base + within * grid.n + idx) <= usize::MAX,
        within < usize::MAX && idx < usize::MAX,
        call_ensures(nuclide_total_index, (grid, within, idx), total),
        call_ensures(nuclide_total_index, (grid, within, (idx + 1) as usize), next_point),
        call_ensures(nuclide_total_index, (grid, (within + 1) as usize, idx), next_nuclide),
        call_ensures(nuclide_total_index, (grid, 0, 0), first),
        call_ensures(nuclide_partial_index, (grid, within, idx), partial),
    ensures
        first == grid.nuc_base,
        next_point == total + 1,
        next_nuclide == total + grid.n,
        partial == 4 * total,
{
    assert((within + 1) * grid.n == within * grid.n + grid.n) by (nonlinear_arith);
    assert(0 * grid.n == 0) by (nonlinear_arith);
}

/// A reaction's row is that of its slot among the nuclide's fifty-six, and says where
/// its values begin, which grid point the first belongs to and how many there are.
pub proof fn a_reaction_reads_its_own_row(
    mt_base: usize,
    within: usize,
    slot: usize,
    permt_meta: &[u32],
    row: usize,
    r: SparseRow,
)
    requires
        mt_base + within * 56 + slot <= usize::MAX,
        (row + 1) * 3 <= permt_meta.len(),
        call_ensures(sparse_row_index, (mt_base, within, slot), row),
        call_ensures(sparse_row, (permt_meta, row), r),
    ensures
        row == mt_base + within * 56 + slot,
        r.value_offset == permt_meta@[row * 3],
        r.i_start == permt_meta@[row * 3 + 1],
        r.n_stored == permt_meta@[row * 3 + 2],
{
}

/// A row reads back what it stores, each value at its own point, and the default at
/// every other point.
pub proof fn a_row_reads_back_what_it_stores<T>(row: SparseRow, values: Seq<T>, k: int, default: T)
    requires
        row.value_offset + row.n_stored <= values.len(),
    ensures
        0 <= k < row.n_stored ==> row.value(values, row.i_start + k, default)
            == values[row.value_offset + k],
        k < row.i_start ==> row.value(values, k, default) == default,
        k >= row.i_start + row.n_stored ==> row.value(values, k, default) == default,
{
}

/// An incident energy is above a table from its last point on, below it up to its
/// first, and otherwise between the two points of its row.
pub proof fn an_incident_energy_lies_at_its_row(
    grid: &[Real],
    offset: usize,
    n: usize,
    e: Real,
    r: Incident,
)
    requires
        n >= 1,
        offset + n <= grid.len(),
        sorted(grid@.subrange(offset as int, offset + n)),
        !e.is_nan_spec(),
        call_ensures(incident_bracket, (grid, offset, n, e), r),
    ensures
        r.side is Above <==> grid@[offset + n - 1].le(e),
        r.side is Below <==> e.lt(grid@[offset + n - 1]) && e.le(grid@[offset as int]),
        r.side is Within <==> grid@[offset as int].lt(e) && e.lt(grid@[offset + n - 1]),
        r.side is Within ==> r.index + 1 < n && grid@[offset + r.index].le(e) && e.lt(
            grid@[offset + r.index + 1],
        ),
        r.side is Below ==> r.index == 0,
        r.side is Above && n > 1 ==> r.index == n - 2,
        n == 1 ==> r.index == 0,
{
    let g = grid@.subrange(offset as int, offset + n);
    assert(g[0] == grid@[offset as int]);
    assert(g[n - 1] == grid@[offset + n - 1]);
    assert(!g[0].is_nan_spec() && !g[n - 1].is_nan_spec());
    if r.side is Within {
        assert(g[r.index as int] == grid@[offset + r.index]);
        assert(g[r.index + 1] == grid@[offset + r.index + 1]);
    }
}

} // verus!
