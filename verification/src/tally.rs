//! Tallies: which bins a step or a collision scores, and with what factor.
use crate::ieee::{strictly_increasing, Real};
use crate::layout::{
    MESH_NONE, NOT_IN_TALLY, SCORE_ABSORPTION, SCORE_PER_MT, SCORE_TOTAL,
};
use crate::spill::TouchedList;
use crate::words::{deposit, deposited, signed, signed_word, Deposit};
use vstd::prelude::*;

verus! {

/// All tallies of a launch, as parallel arrays with one entry per tally and
/// flat tables addressed by offset.
pub struct TalliesPack {
    pub score_kinds: Vec<u32>,
    /// Score-table slot of a single-reaction score.
    pub score_data: Vec<u32>,
    /// Reaction of a single-reaction score.
    pub score_mt: Vec<u32>,
    /// `1` for a collision estimator; every other tally is track-length.
    pub is_collision: Vec<u32>,
    /// Cell bin of each geometry cell, tally-major.
    pub cell_to_bin: Vec<u32>,
    pub n_cells_per_tally: Vec<u32>,
    pub edges_offsets: Vec<u32>,
    pub n_bins_per_tally: Vec<u32>,
    pub log_edges: Vec<Real>,
    /// Flat output range of each tally, with the total length last.
    pub out_offsets: Vec<u32>,
    pub fixed_point_scales: Vec<Real>,
    /// Voxels per (cell, energy) bin; 1 without a mesh.
    pub n_mesh_per_tally: Vec<u32>,
    pub mesh_kind: Vec<u32>,
    pub mesh_params_offsets: Vec<u32>,
    pub mesh_params: Vec<Real>,
    pub efunc_offsets: Vec<u32>,
    pub efunc_params: Vec<Real>,
}

impl TalliesPack {
    pub open spec fn n(self) -> nat {
        self.score_kinds@.len()
    }

    /// Energy-bin edges of tally `t`.
    pub open spec fn edges(self, t: int) -> Seq<Real> {
        self.log_edges@.subrange(
            self.edges_offsets@[t] as int,
            self.edges_offsets@[t] + self.n_bins_per_tally@[t] + 1,
        )
    }

    /// Knots of tally `t`'s energy function: the table starts with their
    /// number.
    pub open spec fn n_knots(self, t: int) -> int {
        self.efunc_params@[self.efunc_offsets@[t] as int].to_u32_spec() as int
    }

    pub open spec fn knots(self, t: int) -> Seq<Real> {
        self.efunc_params@.subrange(
            self.efunc_offsets@[t] + 1,
            self.efunc_offsets@[t] + 1 + self.n_knots(t),
        )
    }

    pub open spec fn has_efunc(self, t: int) -> bool {
        self.efunc_offsets@[t] < self.efunc_offsets@[t + 1]
    }

    /// One tally's tables lie inside the flat arrays.
    pub open spec fn tally_wf(self, n_cells: nat, t: int) -> bool {
        &&& self.n_bins_per_tally@[t] >= 1
        &&& self.n_mesh_per_tally@[t] >= 1
        &&& self.mesh_kind@[t] == MESH_NONE ==> self.n_mesh_per_tally@[t] == 1
        &&& self.edges_offsets@[t] + self.n_bins_per_tally@[t] + 1 <= self.log_edges@.len()
        &&& strictly_increasing(self.edges(t))
        &&& self.out_offsets@[t] + self.n_cells_per_tally@[t] * self.n_bins_per_tally@[t]
            * self.n_mesh_per_tally@[t] == self.out_offsets@[t + 1]
        &&& forall|c: int|
            0 <= c < n_cells ==> {
                let bin = #[trigger] self.cell_to_bin@[t * n_cells + c];
                bin == NOT_IN_TALLY || bin < self.n_cells_per_tally@[t]
            }
        &&& self.has_efunc(t) ==> {
            &&& self.efunc_offsets@[t] < self.efunc_params@.len()
            &&& self.n_knots(t) >= 2
            &&& self.efunc_offsets@[t] + 1 + self.n_knots(t) + 4 * (self.n_knots(t) - 1)
                <= self.efunc_params@.len()
            &&& strictly_increasing(self.knots(t))
        }
    }

    pub open spec fn wf(self, n_cells: nat) -> bool {
        &&& self.n() <= u32::MAX
        &&& self.score_data@.len() == self.n()
        &&& self.score_mt@.len() == self.n()
        &&& self.is_collision@.len() == self.n()
        &&& self.cell_to_bin@.len() == self.n() * n_cells
        &&& self.n_cells_per_tally@.len() == self.n()
        &&& self.edges_offsets@.len() == self.n()
        &&& self.n_bins_per_tally@.len() == self.n()
        &&& self.out_offsets@.len() == self.n() + 1
        &&& self.n_mesh_per_tally@.len() == self.n()
        &&& self.mesh_kind@.len() == self.n()
        &&& self.efunc_offsets@.len() == self.n() + 1
        &&& forall|t: int| 0 <= t < self.n() ==> #[trigger] self.tally_wf(n_cells, t)
    }

    pub fn n_tallies(&self) -> (r: u32)
        requires
            self.n() <= u32::MAX,
        ensures
            r == self.n(),
    {
        self.score_kinds.len() as u32
    }

    /// Flat outputs of all tallies.
    pub fn total_out_len(&self) -> (r: u32)
        requires
            self.out_offsets@.len() == self.n() + 1,
        ensures
            r == self.out_offsets@[self.n() as int],
    {
        self.out_offsets[self.score_kinds.len()]
    }
}

/// Energy bin of `log_e`: bin `k` covers `(edges[k], edges[k + 1]]`, and the
/// first bin also its lower edge.
pub open spec fn in_bin(edges: Seq<Real>, log_e: Real, k: int) -> bool {
    &&& 0 <= k < edges.len() - 1
    &&& log_e.le(edges[k + 1])
    &&& edges[k].lt(log_e) || (k == 0 && edges[0].le(log_e))
}

/// Outside the edges there is no bin. A NaN, which compares with no edge, falls
/// into the last bin.
pub open spec fn bin_of(edges: Seq<Real>, log_e: Real) -> Option<usize> {
    if log_e.lt(edges[0]) || edges[edges.len() - 1].lt(log_e) {
        None
    } else if log_e.is_nan_spec() {
        Some((edges.len() - 2) as usize)
    } else {
        Some((choose|k: int| in_bin(edges, log_e, k)) as usize)
    }
}

/// A value lies in at most one energy bin.
pub proof fn energy_bins_are_disjoint(edges: Seq<Real>, log_e: Real, j: int, k: int)
    requires
        strictly_increasing(edges),
        in_bin(edges, log_e, j),
        in_bin(edges, log_e, k),
    ensures
        j == k,
{
    if j < k {
        assert(edges[j + 1].key() <= edges[k].key()) by {
            if j + 1 < k {
                assert(edges[j + 1].key() < edges[k].key());
            }
        }
    }
    if k < j {
        assert(edges[k + 1].key() <= edges[j].key()) by {
            if k + 1 < j {
                assert(edges[k + 1].key() < edges[j].key());
            }
        }
    }
}

/// Finds the energy bin in the `n_bins + 1` edges from `offset`. A value on an
/// interior edge belongs to the lower bin; one outside the edges to none.
pub fn log_edges_bin(edges: &[Real], offset: usize, n_bins: usize, log_e: Real) -> (r: Option<usize>)
    requires
        n_bins >= 1,
        offset + n_bins + 1 <= edges.len(),
        strictly_increasing(edges@.subrange(offset as int, offset + n_bins + 1)),
    ensures
        r == bin_of(edges@.subrange(offset as int, offset + n_bins + 1), log_e),
        r matches Some(k) ==> k < n_bins && (log_e.is_nan_spec() || in_bin(
            edges@.subrange(offset as int, offset + n_bins + 1),
            log_e,
            k as int,
        )),
{
    let ghost g = edges@.subrange(offset as int, offset + n_bins + 1);
    assert(g[0] == edges@[offset as int]);
    assert(g[n_bins as int] == edges@[offset + n_bins]);
    if log_e.is_lt(edges[offset]) || edges[offset + n_bins].is_lt(log_e) {
        return None;
    }
    let mut lo: usize = 0;
    let mut hi: usize = n_bins;
    while lo + 1 < hi
        invariant
            lo < hi <= n_bins,
            offset + n_bins + 1 <= edges.len(),
            g == edges@.subrange(offset as int, offset + n_bins + 1),
            g.len() == n_bins + 1,
            strictly_increasing(g),
            !log_e.is_nan_spec() ==> log_e.le(g[hi as int]),
            !log_e.is_nan_spec() ==> g[lo as int].lt(log_e) || (lo == 0 && g[0].le(log_e)),
            log_e.is_nan_spec() ==> hi == n_bins,
        decreases hi - lo,
    {
        let mid: usize = lo + (hi - lo) / 2;
        assert(g[mid as int] == edges@[offset + mid]);
        assert(!g[mid as int].is_nan_spec());
        if log_e.is_le(edges[offset + mid]) {
            hi = mid;
        } else {
            lo = mid;
        }
    }
    proof {
        if !log_e.is_nan_spec() {
            assert(in_bin(g, log_e, lo as int));
            let k = choose|k: int| in_bin(g, log_e, k);
            energy_bins_are_disjoint(g, log_e, lo as int, k);
        }
    }
    Some(lo)
}

/// What a contribution is multiplied by.
#[derive(Clone, Copy, Debug, PartialEq, Eq, Structural)]
pub enum ScoreFactor {
    Unit,
    Total,
    /// Absorption including fission.
    Absorption,
    /// Capture of the sampled resonance band.
    BandCapture,
    Elastic,
    Fission,
    /// Interpolated between two elements of the score table.
    Table { lo: usize, hi: usize },
}

/// Where a step is on the score table, and whether it sampled a resonance band.
#[derive(Clone, Copy, Debug)]
pub struct ScoreContext {
    pub mat: usize,
    pub n_grid: usize,
    pub n_score_mts: usize,
    pub idx_lo: usize,
    pub idx_hi: usize,
    pub band_fired: bool,
}

impl ScoreContext {
    /// First element of a score slot's row for the material.
    pub open spec fn row(self, slot: int) -> int {
        self.mat * self.n_score_mts * self.n_grid + slot * self.n_grid
    }

    /// Every single-reaction score of the pack reads inside the table.
    pub open spec fn fits(self, pack: TalliesPack, table_len: nat) -> bool {
        &&& self.idx_lo <= self.idx_hi
        &&& table_len <= usize::MAX
        &&& forall|t: int|
            0 <= t < pack.n() && pack.score_kinds@[t] == SCORE_PER_MT ==> self.row(
                #[trigger] pack.score_data@[t] as int,
            ) + self.idx_hi < table_len
    }
}

/// Factor of tally `t`. A score on one reaction uses the cross section that the
/// step was transported with when a resonance band was sampled, and the score
/// table otherwise.
pub open spec fn factor_of(pack: TalliesPack, ctx: ScoreContext, t: int) -> ScoreFactor {
    let kind = pack.score_kinds@[t];
    let mt = pack.score_mt@[t];
    if kind == SCORE_TOTAL {
        ScoreFactor::Total
    } else if kind == SCORE_ABSORPTION {
        ScoreFactor::Absorption
    } else if kind == SCORE_PER_MT {
        if ctx.band_fired && mt == 102 {
            ScoreFactor::BandCapture
        } else if ctx.band_fired && mt == 27 {
            ScoreFactor::Absorption
        } else if ctx.band_fired && mt == 2 {
            ScoreFactor::Elastic
        } else if ctx.band_fired && mt == 18 {
            ScoreFactor::Fission
        } else {
            let row = ctx.row(pack.score_data@[t] as int);
            ScoreFactor::Table { lo: (row + ctx.idx_lo) as usize, hi: (row + ctx.idx_hi) as usize }
        }
    } else {
        ScoreFactor::Unit
    }
}

pub fn tally_score_factor(
    pack: &TalliesPack,
    ctx: ScoreContext,
    table_len: usize,
    t: usize,
) -> (r: ScoreFactor)
    requires
        t < pack.n(),
        pack.score_data@.len() == pack.n(),
        pack.score_mt@.len() == pack.n(),
        ctx.fits(*pack, table_len as nat),
    ensures
        r == factor_of(*pack, ctx, t as int),
{
    let kind: u32 = pack.score_kinds[t];
    if kind == SCORE_TOTAL {
        return ScoreFactor::Total;
    }
    if kind == SCORE_ABSORPTION {
        return ScoreFactor::Absorption;
    }
    if kind != SCORE_PER_MT {
        return ScoreFactor::Unit;
    }
    if ctx.band_fired {
        let mt: u32 = pack.score_mt[t];
        if mt == 102 {
            return ScoreFactor::BandCapture;
        }
        if mt == 27 {
            return ScoreFactor::Absorption;
        }
        if mt == 2 {
            return ScoreFactor::Elastic;
        }
        if mt == 18 {
            return ScoreFactor::Fission;
        }
    }
    let slot: usize = pack.score_data[t] as usize;
    proof {
        lemma_row_parts(ctx, slot as int);
        assert(ctx.row(pack.score_data@[t as int] as int) + ctx.idx_hi < table_len);
        if ctx.n_grid == 0 {
            lemma_no_grid(ctx);
        } else {
            lemma_material_rows(ctx);
        }
    }
    if ctx.n_grid == 0 {
        return ScoreFactor::Table { lo: ctx.idx_lo, hi: ctx.idx_hi };
    }
    let row: usize = ctx.mat * ctx.n_score_mts * ctx.n_grid + slot * ctx.n_grid;
    ScoreFactor::Table { lo: row + ctx.idx_lo, hi: row + ctx.idx_hi }
}

proof fn lemma_row_parts(ctx: ScoreContext, slot: int)
    requires
        slot >= 0,
    ensures
        ctx.mat * ctx.n_score_mts * ctx.n_grid >= 0,
        slot * ctx.n_grid >= 0,
{
    assert(ctx.mat * ctx.n_score_mts >= 0) by (nonlinear_arith);
    assert(ctx.mat * ctx.n_score_mts * ctx.n_grid >= 0) by (nonlinear_arith)
        requires
            ctx.mat * ctx.n_score_mts >= 0,
    ;
    assert(slot * ctx.n_grid >= 0) by (nonlinear_arith)
        requires
            slot >= 0,
    ;
}

proof fn lemma_no_grid(ctx: ScoreContext)
    requires
        ctx.n_grid == 0,
    ensures
        forall|slot: int| ctx.row(slot) == 0,
{
    assert forall|slot: int| ctx.row(slot) == 0 by {
        assert(ctx.mat * ctx.n_score_mts * ctx.n_grid == 0) by (nonlinear_arith)
            requires
                ctx.n_grid == 0,
        ;
        assert(slot * ctx.n_grid == 0) by (nonlinear_arith)
            requires
                ctx.n_grid == 0,
        ;
    }
}

proof fn lemma_material_rows(ctx: ScoreContext)
    requires
        ctx.n_grid >= 1,
    ensures
        ctx.mat * ctx.n_score_mts <= ctx.mat * ctx.n_score_mts * ctx.n_grid,
{
    let m = ctx.mat * ctx.n_score_mts;
    assert(m >= 0) by (nonlinear_arith)
        requires
            m == ctx.mat * ctx.n_score_mts,
    ;
    assert(m <= m * ctx.n_grid) by (nonlinear_arith)
        requires
            m >= 0,
            ctx.n_grid >= 1,
    ;
}

/// Energy-function weight of a score: none, or the cubic whose knot and first
/// of four coefficients stand at these positions of the parameter table.
#[derive(Clone, Copy, Debug, PartialEq, Eq, Structural)]
pub enum EnergyWeight {
    Pass,
    Cubic { knot: usize, coefficients: usize },
}

/// Number of knots at or below the energy.
pub open spec fn knots_reached(knots: Seq<Real>, energy: Real) -> nat
    decreases knots.len(),
{
    if knots.len() == 0 {
        0
    } else {
        knots_reached(knots.drop_last(), energy) + if knots.last().le(energy) {
            1nat
        } else {
            0nat
        }
    }
}

/// Interval of an energy inside the table: the last knot at or below it, the
/// right end belonging to the last interval.
pub open spec fn knot_interval(knots: Seq<Real>, energy: Real) -> int {
    let k = knots_reached(knots, energy) - 1;
    if k > knots.len() - 2 {
        knots.len() - 2
    } else {
        k
    }
}

/// The weight of tally `t` at an energy, or `None` when the energy is off the
/// table and the whole event is dropped.
pub open spec fn weight_of(pack: TalliesPack, energy: Real, t: int) -> Option<EnergyWeight> {
    if !pack.has_efunc(t) {
        Some(EnergyWeight::Pass)
    } else {
        let knots = pack.knots(t);
        if !(knots[0].le(energy) && energy.le(knots[knots.len() - 1])) {
            None
        } else {
            let k = knot_interval(knots, energy);
            let at = pack.efunc_offsets@[t] + 1;
            Some(
                EnergyWeight::Cubic {
                    knot: (at + k) as usize,
                    coefficients: (at + knots.len() + 4 * k) as usize,
                },
            )
        }
    }
}

proof fn lemma_knots_partition(knots: Seq<Real>, energy: Real, p: int)
    requires
        0 <= p <= knots.len(),
        forall|i: int| 0 <= i < p ==> (#[trigger] knots[i]).le(energy),
        forall|i: int| p <= i < knots.len() ==> !(#[trigger] knots[i]).le(energy),
    ensures
        knots_reached(knots, energy) == p,
    decreases knots.len(),
{
    if knots.len() > 0 {
        let rest = knots.drop_last();
        assert forall|i: int| 0 <= i < rest.len() implies rest[i] == knots[i] by {}
        if p == knots.len() {
            assert(knots[p - 1].le(energy));
            lemma_knots_partition(rest, energy, p - 1);
        } else {
            assert(!knots[knots.len() - 1].le(energy));
            lemma_knots_partition(rest, energy, p);
        }
    }
}

/// Weight of a tally's energy function at an energy.
pub fn apply_energy_function(pack: &TalliesPack, n_cells: usize, t: usize, energy: Real) -> (r: Option<
    EnergyWeight,
>)
    requires
        pack.wf(n_cells as nat),
        t < pack.n(),
    ensures
        r == weight_of(*pack, energy, t as int),
{
    assert(pack.tally_wf(n_cells as nat, t as int));
    let lo: usize = pack.efunc_offsets[t] as usize;
    let hi: usize = pack.efunc_offsets[t + 1] as usize;
    if hi <= lo {
        return Some(EnergyWeight::Pass);
    }
    let n: usize = pack.efunc_params[lo].to_u32() as usize;
    let ghost knots = pack.knots(t as int);
    let at: usize = lo + 1;
    assert(pack.efunc_params.len() == pack.efunc_params@.len());
    assert(knots[0] == pack.efunc_params@[at as int]);
    assert(knots[n - 1] == pack.efunc_params@[at + n - 1]);
    if !(pack.efunc_params[at].is_le(energy) && energy.is_le(pack.efunc_params[at + n - 1])) {
        return None;
    }
    let mut a: usize = 0;
    let mut b: usize = n;
    while a < b
        invariant
            a <= b <= n,
            at + n <= pack.efunc_params@.len(),
            pack.efunc_params.len() == pack.efunc_params@.len(),
            knots == pack.efunc_params@.subrange(at as int, at + n),
            strictly_increasing(knots),
            forall|i: int| 0 <= i < a ==> (#[trigger] knots[i]).le(energy),
            forall|i: int| b <= i < n ==> !(#[trigger] knots[i]).le(energy),
        decreases b - a,
    {
        let mid: usize = a + (b - a) / 2;
        assert(knots[mid as int] == pack.efunc_params@[at + mid]);
        if pack.efunc_params[at + mid].is_le(energy) {
            assert forall|i: int| 0 <= i < mid + 1 implies (#[trigger] knots[i]).le(energy) by {
                assert(!knots[i].is_nan_spec());
                if i < mid {
                    assert(knots[i].key() < knots[mid as int].key());
                }
            }
            a = mid + 1;
        } else {
            assert forall|i: int| mid <= i < n implies !(#[trigger] knots[i]).le(energy) by {
                if mid < i {
                    assert(knots[mid as int].key() < knots[i].key());
                    assert(!knots[mid as int].is_nan_spec());
                }
            }
            b = mid;
        }
    }
    proof {
        lemma_knots_partition(knots, energy, a as int);
        if a == 0 {
            assert(!knots[0].le(energy));
        }
    }
    let mut k: usize = a - 1;
    if k > n - 2 {
        k = n - 2;
    }
    Some(EnergyWeight::Cubic { knot: at + k, coefficients: at + n + 4 * k })
}

/// The interval found for an energy inside the table encloses it.
pub proof fn energy_function_interval_encloses(knots: Seq<Real>, energy: Real)
    requires
        strictly_increasing(knots),
        knots.len() >= 2,
        knots[0].le(energy),
        energy.le(knots[knots.len() - 1]),
    ensures
        0 <= knot_interval(knots, energy) < knots.len() - 1,
        knots[knot_interval(knots, energy)].le(energy),
        energy.le(knots[knot_interval(knots, energy) + 1]),
{
    lemma_knots_are_reached_in_order(knots, energy);
    let p = knots_reached(knots, energy) as int;
    let k = knot_interval(knots, energy);
    if p == 0 {
        assert(!knots[0].le(energy));
    }
    assert(knots[k].le(energy)) by {
        assert(0 <= k < p);
    }
    if p < knots.len() {
        assert(!knots[p].le(energy));
        assert(!knots[p].is_nan_spec());
    }
}

proof fn lemma_knots_are_reached_in_order(knots: Seq<Real>, energy: Real)
    requires
        strictly_increasing(knots),
    ensures
        knots_reached(knots, energy) <= knots.len(),
        forall|i: int|
            0 <= i < knots_reached(knots, energy) ==> (#[trigger] knots[i]).le(energy),
        forall|i: int|
            knots_reached(knots, energy) <= i < knots.len() ==> !(#[trigger] knots[i]).le(energy),
    decreases knots.len(),
{
    if knots.len() > 0 {
        let rest = knots.drop_last();
        let last = knots.len() - 1;
        assert forall|i: int| 0 <= i < rest.len() implies rest[i] == knots[i] by {}
        assert forall|i: int| 0 <= i < rest.len() implies !(#[trigger] rest[i]).is_nan_spec() by {
            assert(!knots[i].is_nan_spec());
        }
        assert forall|i: int, j: int| 0 <= i < j < rest.len() implies (#[trigger] rest[i]).key() < (
        #[trigger] rest[j]).key() by {
            assert(knots[i].key() < knots[j].key());
        }
        lemma_knots_are_reached_in_order(rest, energy);
        let p = knots_reached(rest, energy) as int;
        if knots[last].le(energy) && p < rest.len() {
            assert(knots[p].key() < knots[last].key());
            assert(!rest[p].le(energy));
        }
        assert forall|i: int| 0 <= i < knots_reached(knots, energy) implies (
        #[trigger] knots[i]).le(energy) by {
            if i < p {
                assert(rest[i].le(energy));
            }
        }
        assert forall|i: int| knots_reached(knots, energy) <= i < knots.len() implies !(
        #[trigger] knots[i]).le(energy) by {
            if i < last {
                assert(!rest[i].le(energy));
            }
        }
    }
}

/// One bin scored: its tally, the flat index of its first voxel, and what the
/// contribution is multiplied by.
#[derive(Clone, Copy, Debug, PartialEq, Eq, Structural)]
pub struct TallyHit {
    pub tally: usize,
    pub slot: usize,
    pub n_mesh: u32,
    pub mesh_kind: u32,
    pub factor: ScoreFactor,
    pub weight: EnergyWeight,
}

/// What a scoring event looks like to every tally.
#[derive(Clone, Copy, Debug)]
pub struct ScoreEvent {
    /// A collision, as opposed to a flight.
    pub collision: bool,
    pub cell: usize,
    pub log_e: Real,
    pub energy: Real,
}

/// The tally scores this kind of event.
pub open spec fn scores(pack: TalliesPack, collision: bool, t: int) -> bool {
    collision == (pack.is_collision@[t] == 1)
}

/// Flat index of the first voxel of a (cell, energy) bin of tally `t`.
pub open spec fn slot_of(pack: TalliesPack, t: int, cell_bin: int, bin_e: int) -> int {
    pack.out_offsets@[t] + (cell_bin * pack.n_bins_per_tally@[t] + bin_e)
        * pack.n_mesh_per_tally@[t]
}

/// The bin that tally `t` scores for an event, if any: the tally must use the
/// event's estimator, its cell filter must hold the cell, and the energy must
/// lie inside its bins and its energy function.
pub open spec fn hit_of(
    pack: TalliesPack,
    n_cells: nat,
    ev: ScoreEvent,
    ctx: ScoreContext,
    t: int,
) -> Option<TallyHit> {
    let cell_bin = pack.cell_to_bin@[t * n_cells + ev.cell];
    if !scores(pack, ev.collision, t) || cell_bin == NOT_IN_TALLY {
        None
    } else {
        match (bin_of(pack.edges(t), ev.log_e), weight_of(pack, ev.energy, t)) {
            (Some(bin_e), Some(weight)) => Some(
                TallyHit {
                    tally: t as usize,
                    slot: slot_of(pack, t, cell_bin as int, bin_e as int) as usize,
                    n_mesh: pack.n_mesh_per_tally@[t],
                    mesh_kind: pack.mesh_kind@[t],
                    factor: factor_of(pack, ctx, t),
                    weight,
                },
            ),
            _ => None,
        }
    }
}

/// The bins scored by the first `n` tallies, in tally order.
pub open spec fn hits_of(
    pack: TalliesPack,
    n_cells: nat,
    ev: ScoreEvent,
    ctx: ScoreContext,
    n: nat,
) -> Seq<TallyHit>
    decreases n,
{
    if n == 0 {
        Seq::empty()
    } else {
        let rest = hits_of(pack, n_cells, ev, ctx, (n - 1) as nat);
        match hit_of(pack, n_cells, ev, ctx, n - 1) {
            Some(h) => rest.push(h),
            None => rest,
        }
    }
}

/// A bin of a tally lies inside the tally's output range, with all its voxels.
pub proof fn bins_stay_in_their_tally(
    pack: TalliesPack,
    n_cells: nat,
    t: int,
    cell_bin: int,
    bin_e: int,
)
    requires
        pack.tally_wf(n_cells, t),
        0 <= cell_bin < pack.n_cells_per_tally@[t],
        0 <= bin_e < pack.n_bins_per_tally@[t],
    ensures
        pack.out_offsets@[t] <= slot_of(pack, t, cell_bin, bin_e),
        slot_of(pack, t, cell_bin, bin_e) + pack.n_mesh_per_tally@[t] <= pack.out_offsets@[t + 1],
        0 <= cell_bin * pack.n_bins_per_tally@[t] + bin_e,
        cell_bin * pack.n_bins_per_tally@[t] + bin_e < pack.n_cells_per_tally@[t]
            * pack.n_bins_per_tally@[t],
        pack.n_cells_per_tally@[t] * pack.n_bins_per_tally@[t] <= u32::MAX,
{
    let nc = pack.n_cells_per_tally@[t] as int;
    let nb = pack.n_bins_per_tally@[t] as int;
    let nm = pack.n_mesh_per_tally@[t] as int;
    let ce = cell_bin * nb + bin_e;
    assert(0 <= ce < nc * nb) by (nonlinear_arith)
        requires
            ce == cell_bin * nb + bin_e,
            0 <= cell_bin < nc,
            0 <= bin_e < nb,
    ;
    assert(0 <= ce * nm && ce * nm + nm <= nc * nb * nm) by (nonlinear_arith)
        requires
            0 <= ce < nc * nb,
            nm >= 1,
    ;
    assert(nc * nb <= nc * nb * nm) by (nonlinear_arith)
        requires
            0 <= nc * nb,
            nm >= 1,
    ;
}

/// Two bins of one tally share no voxel.
pub proof fn bins_of_a_tally_are_disjoint(
    pack: TalliesPack,
    n_cells: nat,
    t: int,
    c: int,
    e: int,
    v: int,
    c2: int,
    e2: int,
    v2: int,
)
    requires
        pack.tally_wf(n_cells, t),
        0 <= e < pack.n_bins_per_tally@[t],
        0 <= e2 < pack.n_bins_per_tally@[t],
        0 <= v < pack.n_mesh_per_tally@[t],
        0 <= v2 < pack.n_mesh_per_tally@[t],
        slot_of(pack, t, c, e) + v == slot_of(pack, t, c2, e2) + v2,
    ensures
        c == c2,
        e == e2,
        v == v2,
{
    let nb = pack.n_bins_per_tally@[t] as int;
    let nm = pack.n_mesh_per_tally@[t] as int;
    vstd::arithmetic::div_mod::lemma_fundamental_div_mod_converse(
        (c * nb + e) * nm + v,
        nm,
        c * nb + e,
        v,
    );
    vstd::arithmetic::div_mod::lemma_fundamental_div_mod_converse(
        (c2 * nb + e2) * nm + v2,
        nm,
        c2 * nb + e2,
        v2,
    );
    vstd::arithmetic::div_mod::lemma_fundamental_div_mod_converse(c * nb + e, nb, c, e);
    vstd::arithmetic::div_mod::lemma_fundamental_div_mod_converse(c2 * nb + e2, nb, c2, e2);
}

/// A tally never receives both a flight's and a collision's contribution.
pub proof fn no_tally_scores_twice(
    pack: TalliesPack,
    n_cells: nat,
    flight: ScoreEvent,
    collision: ScoreEvent,
    ctx: ScoreContext,
    t: int,
)
    requires
        !flight.collision,
        collision.collision,
    ensures
        hit_of(pack, n_cells, flight, ctx, t) is None || hit_of(pack, n_cells, collision, ctx, t) is None,
{
}

fn tally_hit(
    pack: &TalliesPack,
    n_cells: usize,
    ev: ScoreEvent,
    ctx: ScoreContext,
    table_len: usize,
    t: usize,
) -> (r: Option<TallyHit>)
    requires
        pack.wf(n_cells as nat),
        ev.cell < n_cells,
        ctx.fits(*pack, table_len as nat),
        t < pack.n(),
    ensures
        r == hit_of(*pack, n_cells as nat, ev, ctx, t as int),
        r matches Some(h) ==> h.tally == t && pack.out_offsets@[t as int] <= h.slot && h.slot
            + h.n_mesh <= pack.out_offsets@[t + 1],
{
    assert(pack.tally_wf(n_cells as nat, t as int));
    if ev.collision != (pack.is_collision[t] == 1) {
        return None;
    }
    proof {
        assert(t * n_cells + n_cells <= pack.n() * n_cells) by (nonlinear_arith)
            requires
                t + 1 <= pack.n(),
        ;
        assert(t * n_cells >= 0) by (nonlinear_arith);
        assert(pack.cell_to_bin.len() == pack.cell_to_bin@.len());
    }
    let cell_bin: u32 = pack.cell_to_bin[t * n_cells + ev.cell];
    if cell_bin == NOT_IN_TALLY {
        return None;
    }
    let n_bins: usize = pack.n_bins_per_tally[t] as usize;
    assert(pack.log_edges.len() == pack.log_edges@.len());
    let bin_e: usize = match log_edges_bin(
        pack.log_edges.as_slice(),
        pack.edges_offsets[t] as usize,
        n_bins,
        ev.log_e,
    ) {
        Some(b) => b,
        None => return None,
    };
    let weight: EnergyWeight = match apply_energy_function(pack, n_cells, t, ev.energy) {
        Some(w) => w,
        None => return None,
    };
    let factor: ScoreFactor = tally_score_factor(pack, ctx, table_len, t);
    let n_mesh: u32 = pack.n_mesh_per_tally[t];
    proof {
        bins_stay_in_their_tally(*pack, n_cells as nat, t as int, cell_bin as int, bin_e as int);
        assert(cell_bin * n_bins >= 0) by (nonlinear_arith);
        let ce = cell_bin * n_bins + bin_e;
        assert(ce * n_mesh >= 0) by (nonlinear_arith)
            requires
                ce >= 0,
        ;
    }
    let ce: usize = cell_bin as usize * n_bins + bin_e;
    let slot: usize = pack.out_offsets[t] as usize + ce * n_mesh as usize;
    Some(TallyHit { tally: t, slot, n_mesh, mesh_kind: pack.mesh_kind[t], factor, weight })
}

/// The bins an event scores, in tally order.
pub fn tally_hits(
    pack: &TalliesPack,
    n_cells: usize,
    ev: ScoreEvent,
    ctx: ScoreContext,
    table_len: usize,
) -> (r: Vec<TallyHit>)
    requires
        pack.wf(n_cells as nat),
        ev.cell < n_cells,
        ctx.fits(*pack, table_len as nat),
    ensures
        r@ == hits_of(*pack, n_cells as nat, ev, ctx, pack.n()),
        forall|i: int|
            0 <= i < r@.len() ==> {
                let h = #[trigger] r@[i];
                h.tally < pack.n() && pack.out_offsets@[h.tally as int] <= h.slot && h.slot
                    + h.n_mesh <= pack.out_offsets@[h.tally + 1]
            },
{
    let mut r: Vec<TallyHit> = Vec::new();
    let mut t: usize = 0;
    while t < pack.score_kinds.len()
        invariant
            t <= pack.n(),
            pack.wf(n_cells as nat),
            ev.cell < n_cells,
            ctx.fits(*pack, table_len as nat),
            r@ == hits_of(*pack, n_cells as nat, ev, ctx, t as nat),
            forall|i: int|
                0 <= i < r@.len() ==> {
                    let h = #[trigger] r@[i];
                    h.tally < pack.n() && pack.out_offsets@[h.tally as int] <= h.slot && h.slot
                        + h.n_mesh <= pack.out_offsets@[h.tally + 1]
                },
        decreases pack.n() - t,
    {
        match tally_hit(pack, n_cells, ev, ctx, table_len, t) {
            Some(h) => {
                r.push(h);
            },
            None => {},
        }
        t = t + 1;
    }
    r
}

/// Bins scored by one flight.
pub fn track_hits(
    pack: &TalliesPack,
    n_cells: usize,
    cell: usize,
    log_e: Real,
    energy: Real,
    ctx: ScoreContext,
    table_len: usize,
) -> (r: Vec<TallyHit>)
    requires
        pack.wf(n_cells as nat),
        cell < n_cells,
        ctx.fits(*pack, table_len as nat),
    ensures
        r@ == hits_of(
            *pack,
            n_cells as nat,
            (ScoreEvent { collision: false, cell, log_e, energy }),
            ctx,
            pack.n(),
        ),
{
    tally_hits(pack, n_cells, ScoreEvent { collision: false, cell, log_e, energy }, ctx, table_len)
}

/// Bins scored by one collision. Without a positive total cross section nothing
/// is scored.
pub fn collision_hits(
    pack: &TalliesPack,
    n_cells: usize,
    cell: usize,
    log_e: Real,
    energy: Real,
    sigma_t: Real,
    ctx: ScoreContext,
    table_len: usize,
) -> (r: Vec<TallyHit>)
    requires
        pack.wf(n_cells as nat),
        cell < n_cells,
        ctx.fits(*pack, table_len as nat),
    ensures
        r@ == if sigma_t.le(Real { bits: 0 }) {
            Seq::empty()
        } else {
            hits_of(
                *pack,
                n_cells as nat,
                (ScoreEvent { collision: true, cell, log_e, energy }),
                ctx,
                pack.n(),
            )
        },
{
    if sigma_t.is_le(Real::zero()) {
        return Vec::new();
    }
    tally_hits(pack, n_cells, ScoreEvent { collision: true, cell, log_e, energy }, ctx, table_len)
}

/// Deposits of the hits of a flight whose tallies have no mesh: one for each, at
/// its slot. `words` holds each hit's contribution.
pub fn track_scores(hits: &[TallyHit], words: &[u64]) -> (r: Vec<Deposit>)
    requires
        words.len() == hits.len(),
        forall|i: int| 0 <= i < hits.len() ==> (#[trigger] hits@[i]).mesh_kind == MESH_NONE,
    ensures
        r@ == Seq::new(
            hits@.len(),
            |i: int| Deposit { slot: hits@[i].slot, word: words@[i] },
        ),
{
    let mut r: Vec<Deposit> = Vec::new();
    let mut i: usize = 0;
    while i < hits.len()
        invariant
            i <= hits.len(),
            words.len() == hits.len(),
            r@ == Seq::new(i as nat, |j: int| Deposit { slot: hits@[j].slot, word: words@[j] }),
        decreases hits.len() - i,
    {
        r.push(Deposit { slot: hits[i].slot, word: words[i] });
        i = i + 1;
        assert(r@ =~= Seq::new(
            i as nat,
            |j: int| Deposit { slot: hits@[j].slot, word: words@[j] },
        ));
    }
    r
}

/// Voxel that a collision scores in: the only one of a tally without a mesh,
/// else that of the mesh at the collision, if it lies in the mesh at all.
pub open spec fn scored_voxel(hit: TallyHit, voxel: Option<u32>) -> Option<u32> {
    if hit.mesh_kind == MESH_NONE {
        Some(0)
    } else {
        voxel
    }
}

/// Deposits of a collision: one for each hit whose tally holds the point.
pub open spec fn collision_scores_of(
    hits: Seq<TallyHit>,
    voxels: Seq<Option<u32>>,
    words: Seq<u64>,
) -> Seq<Deposit>
    decreases hits.len(),
{
    if hits.len() == 0 {
        Seq::empty()
    } else {
        let i = hits.len() - 1;
        let before = collision_scores_of(hits.drop_last(), voxels, words);
        match scored_voxel(hits[i], voxels[i]) {
            Some(v) => before.push(Deposit { slot: (hits[i].slot + v) as usize, word: words[i] }),
            None => before,
        }
    }
}

/// Deposits of the hits of a collision. `voxels` holds the voxel of each hit's
/// mesh at the collision, `words` each hit's contribution.
pub fn collision_scores(hits: &[TallyHit], voxels: &[Option<u32>], words: &[u64]) -> (r: Vec<
    Deposit,
>)
    requires
        voxels.len() == hits.len(),
        words.len() == hits.len(),
        forall|i: int|
            0 <= i < hits.len() ==> match scored_voxel(#[trigger] hits@[i], voxels@[i]) {
                Some(v) => v < hits@[i].n_mesh && hits@[i].slot + hits@[i].n_mesh <= usize::MAX,
                None => true,
            },
    ensures
        r@ == collision_scores_of(hits@, voxels@, words@),
        forall|j: int|
            0 <= j < r@.len() ==> exists|i: int|
                0 <= i < hits.len() && (#[trigger] hits@[i]).slot <= (#[trigger] r@[j]).slot
                    < hits@[i].slot + hits@[i].n_mesh && r@[j].word == words@[i],
{
    let mut r: Vec<Deposit> = Vec::new();
    let mut i: usize = 0;
    assert(hits@.take(0) =~= Seq::<TallyHit>::empty());
    while i < hits.len()
        invariant
            i <= hits.len(),
            voxels.len() == hits.len(),
            words.len() == hits.len(),
            forall|i: int|
                0 <= i < hits.len() ==> match scored_voxel(#[trigger] hits@[i], voxels@[i]) {
                    Some(v) => v < hits@[i].n_mesh && hits@[i].slot + hits@[i].n_mesh
                        <= usize::MAX,
                    None => true,
                },
            r@ == collision_scores_of(hits@.take(i as int), voxels@, words@),
            forall|j: int|
                0 <= j < r@.len() ==> exists|i: int|
                    0 <= i < hits.len() && (#[trigger] hits@[i]).slot <= (#[trigger] r@[j]).slot
                        < hits@[i].slot + hits@[i].n_mesh && r@[j].word == words@[i],
        decreases hits.len() - i,
    {
        assert(hits@.take(i + 1).drop_last() =~= hits@.take(i as int));
        assert(hits@.take(i + 1)[i as int] == hits@[i as int]);
        let voxel: Option<u32> = if hits[i].mesh_kind == MESH_NONE {
            Some(0)
        } else {
            voxels[i]
        };
        assert(voxel == scored_voxel(hits@[i as int], voxels@[i as int]));
        let ghost before = r@;
        if let Some(v) = voxel {
            r.push(Deposit { slot: hits[i].slot + v as usize, word: words[i] });
            assert forall|j: int| 0 <= j < r@.len() implies exists|i: int|
                0 <= i < hits.len() && (#[trigger] hits@[i]).slot <= (#[trigger] r@[j]).slot
                    < hits@[i].slot + hits@[i].n_mesh && r@[j].word == words@[i] by {
                if j < before.len() {
                    assert(r@[j] == before[j]);
                } else {
                    assert(hits@[i as int].slot <= r@[j].slot);
                }
            }
        }
        i = i + 1;
    }
    assert(hits@.take(i as int) =~= hits@);
    r
}

/// An event touches at most one bin of each tally, so a step touches no more
/// bins than there are tallies.
pub proof fn an_event_touches_one_bin_per_tally(
    pack: TalliesPack,
    n_cells: nat,
    ev: ScoreEvent,
    ctx: ScoreContext,
    n: nat,
)
    ensures
        hits_of(pack, n_cells, ev, ctx, n).len() <= n,
    decreases n,
{
    if n > 0 {
        an_event_touches_one_bin_per_tally(pack, n_cells, ev, ctx, (n - 1) as nat);
    }
}

proof fn lemma_a_step_touches(
    pack: TalliesPack,
    n_cells: nat,
    flight: ScoreEvent,
    collision: ScoreEvent,
    ctx: ScoreContext,
    n: nat,
)
    requires
        !flight.collision,
        collision.collision,
    ensures
        hits_of(pack, n_cells, flight, ctx, n).len() + hits_of(pack, n_cells, collision, ctx, n).len()
            <= n,
    decreases n,
{
    if n > 0 {
        lemma_a_step_touches(pack, n_cells, flight, collision, ctx, (n - 1) as nat);
        no_tally_scores_twice(pack, n_cells, flight, collision, ctx, n - 1);
    }
}

/// A step that flies and then collides still touches at most one bin per tally:
/// the two estimators never share a tally.
pub proof fn a_step_touches_one_bin_per_tally(
    pack: TalliesPack,
    n_cells: nat,
    flight: ScoreEvent,
    collision: ScoreEvent,
    ctx: ScoreContext,
)
    requires
        !flight.collision,
        collision.collision,
    ensures
        hits_of(pack, n_cells, flight, ctx, pack.n()).len() + hits_of(
            pack,
            n_cells,
            collision,
            ctx,
            pack.n(),
        ).len() <= pack.n(),
{
    lemma_a_step_touches(pack, n_cells, flight, collision, ctx, pack.n());
}

/// Where a contribution goes.
#[derive(Clone, Copy, Debug, PartialEq, Eq, Structural)]
pub enum Destination {
    /// Added to the shared accumulator at once.
    Accumulator { slot: usize },
    /// Collected per history and flushed at its end.
    Touched { bin: usize },
    /// Added to the row of the history's source particle.
    SourceRow { slot: usize },
}

/// Destination of a contribution to flat bin `bin` under a variance mode.
pub fn destination(mesh_direct: bool, per_history: bool, src_base: usize, bin: usize) -> (r:
    Destination)
    requires
        src_base + bin <= usize::MAX,
    ensures
        r == if mesh_direct {
            Destination::SourceRow { slot: (src_base + bin) as usize }
        } else if per_history {
            Destination::Touched { bin }
        } else {
            Destination::Accumulator { slot: bin }
        },
{
    if mesh_direct {
        Destination::SourceRow { slot: src_base + bin }
    } else if per_history {
        Destination::Touched { bin }
    } else {
        Destination::Accumulator { slot: bin }
    }
}

/// The accumulator of sums and squares after a history is flushed: the word of
/// each touched bin is added in the first half, its square's in the second.
pub open spec fn flushed(
    acc: Seq<u64>,
    half: int,
    bins: Seq<u32>,
    sums: Seq<u64>,
    squares: Seq<u64>,
) -> Seq<u64>
    decreases bins.len(),
{
    if bins.len() == 0 {
        acc
    } else {
        let k = bins.len() - 1;
        let rest = flushed(acc, half, bins.drop_last(), sums, squares);
        let once = deposited(rest, Deposit { slot: bins[k] as usize, word: sums[k] });
        deposited(once, Deposit { slot: (half + bins[k]) as usize, word: squares[k] })
    }
}

/// Flushes a history into an accumulator whose second half holds the squares.
/// `sums` and `squares` hold the fixed-point words of the touched bins.
pub fn flush_history(acc: &mut Vec<u64>, list: &TouchedList, sums: &[u64], squares: &[u64])
    requires
        list.wf(),
        sums.len() == list@.len(),
        squares.len() == list@.len(),
        old(acc)@.len() % 2 == 0,
        forall|i: int| 0 <= i < list@.len() ==> #[trigger] list@[i] < old(acc)@.len() / 2,
    ensures
        final(acc)@.len() == old(acc)@.len(),
        final(acc)@ == flushed(old(acc)@, old(acc)@.len() as int / 2, list@, sums@, squares@),
{
    let half: usize = acc.len() / 2;
    let n: usize = list.len();
    let mut i: usize = 0;
    assert(list@.subrange(0, 0) =~= Seq::<u32>::empty());
    while i < n
        invariant
            i <= n,
            n == list@.len(),
            list.wf(),
            sums.len() == n,
            squares.len() == n,
            half == old(acc)@.len() / 2,
            half * 2 == old(acc)@.len(),
            acc@.len() == old(acc)@.len(),
            forall|i: int| 0 <= i < list@.len() ==> #[trigger] list@[i] < half,
            acc@ == flushed(
                old(acc)@,
                half as int,
                list@.subrange(0, i as int),
                sums@,
                squares@,
            ),
        decreases n - i,
    {
        let bin: usize = list.bin(i) as usize;
        assert(list@[i as int] < half);
        assert(acc.len() == acc@.len());
        assert(list@.subrange(0, i + 1).drop_last() =~= list@.subrange(0, i as int));
        deposit(acc, Deposit { slot: bin, word: sums[i] });
        deposit(acc, Deposit { slot: half + bin, word: squares[i] });
        i = i + 1;
    }
    assert(list@.subrange(0, i as int) =~= list@);
}

/// The row of a source particle after one of its histories is flushed.
pub open spec fn flushed_row(acc: Seq<u64>, src_base: int, bins: Seq<u32>, sums: Seq<u64>) -> Seq<
    u64,
>
    decreases bins.len(),
{
    if bins.len() == 0 {
        acc
    } else {
        let k = bins.len() - 1;
        deposited(
            flushed_row(acc, src_base, bins.drop_last(), sums),
            Deposit { slot: (src_base + bins[k]) as usize, word: sums[k] },
        )
    }
}

/// Flushes a history into the row of its source particle.
pub fn flush_to_source(acc: &mut Vec<u64>, src_base: usize, list: &TouchedList, sums: &[u64])
    requires
        list.wf(),
        sums.len() == list@.len(),
        forall|i: int| 0 <= i < list@.len() ==> src_base + #[trigger] list@[i] < old(acc)@.len(),
    ensures
        final(acc)@.len() == old(acc)@.len(),
        final(acc)@ == flushed_row(old(acc)@, src_base as int, list@, sums@),
{
    let n: usize = list.len();
    let mut i: usize = 0;
    assert(list@.subrange(0, 0) =~= Seq::<u32>::empty());
    while i < n
        invariant
            i <= n,
            n == list@.len(),
            list.wf(),
            sums.len() == n,
            acc@.len() == old(acc)@.len(),
            forall|i: int|
                0 <= i < list@.len() ==> src_base + #[trigger] list@[i] < old(acc)@.len(),
            acc@ == flushed_row(old(acc)@, src_base as int, list@.subrange(0, i as int), sums@),
        decreases n - i,
    {
        let bin: usize = list.bin(i) as usize;
        assert(src_base + list@[i as int] < acc@.len());
        assert(acc.len() == acc@.len());
        assert(list@.subrange(0, i + 1).drop_last() =~= list@.subrange(0, i as int));
        deposit(acc, Deposit { slot: src_base + bin, word: sums[i] });
        i = i + 1;
    }
    assert(list@.subrange(0, i as int) =~= list@);
}

/// The words from `start` to `end`, each decoded from the signed fixed-point
/// number it holds. The caller's `decode` applies the scale of tally `t`.
pub open spec fn decoded<T, F: Fn(usize, i64) -> T>(
    decode: F,
    t: usize,
    bits: Seq<u64>,
    start: int,
    end: int,
    out: Seq<T>,
) -> bool {
    &&& out.len() == end - start
    &&& forall|i: int|
        0 <= i < out.len() ==> call_ensures(
            decode,
            (t, signed(bits[start + i]) as i64),
            #[trigger] out[i],
        )
}

fn unpack_range<T, F: Fn(usize, i64) -> T>(
    bits: &[u64],
    t: usize,
    start: usize,
    end: usize,
    decode: &F,
) -> (r: Vec<T>)
    requires
        start <= end <= bits.len(),
        forall|w: i64| call_requires(*decode, (t, w)),
    ensures
        decoded(*decode, t, bits@, start as int, end as int, r@),
{
    let mut r: Vec<T> = Vec::new();
    let mut i: usize = start;
    while i < end
        invariant
            start <= i <= end <= bits.len(),
            forall|w: i64| call_requires(*decode, (t, w)),
            decoded(*decode, t, bits@, start as int, i as int, r@),
        decreases end - i,
    {
        let word: i64 = signed_word(bits[i]);
        let v: T = decode(t, word);
        let ghost before = r@;
        r.push(v);
        proof {
            assert forall|j: int| 0 <= j < r@.len() implies call_ensures(
                *decode,
                (t, signed(bits@[start + j]) as i64),
                #[trigger] r@[j],
            ) by {
                if j < before.len() {
                    assert(r@[j] == before[j]);
                }
            }
        }
        i = i + 1;
    }
    r
}

/// Slices the flat accumulator back into one vector per tally.
pub fn unpack_tally_outputs<T, F: Fn(usize, i64) -> T>(
    bits: &[u64],
    out_offsets: &[u32],
    n_tallies: usize,
    decode: F,
) -> (r: Vec<Vec<T>>)
    requires
        n_tallies < out_offsets.len(),
        forall|t: int|
            0 <= t < n_tallies ==> #[trigger] out_offsets@[t] <= out_offsets@[t + 1]
                && out_offsets@[t + 1] <= bits.len(),
        forall|t: usize, w: i64| call_requires(decode, (t, w)),
    ensures
        r@.len() == n_tallies,
        forall|t: int|
            0 <= t < n_tallies ==> decoded(
                decode,
                t as usize,
                bits@,
                out_offsets@[t] as int,
                out_offsets@[t + 1] as int,
                (#[trigger] r@[t])@,
            ),
{
    unpack_from(bits, 0, out_offsets, n_tallies, decode)
}

/// Slices the second half of a sums-and-squares accumulator of `2 * half`
/// words into one vector per tally.
pub fn unpack_tally_sum_sq<T, F: Fn(usize, i64) -> T>(
    bits: &[u64],
    half: usize,
    out_offsets: &[u32],
    n_tallies: usize,
    decode: F,
) -> (r: Vec<Vec<T>>)
    requires
        n_tallies < out_offsets.len(),
        half * 2 <= bits.len(),
        forall|t: int|
            0 <= t < n_tallies ==> #[trigger] out_offsets@[t] <= out_offsets@[t + 1]
                && out_offsets@[t + 1] <= half,
        forall|t: usize, w: i64| call_requires(decode, (t, w)),
    ensures
        r@.len() == n_tallies,
        forall|t: int|
            0 <= t < n_tallies ==> decoded(
                decode,
                t as usize,
                bits@,
                half + out_offsets@[t],
                half + out_offsets@[t + 1],
                (#[trigger] r@[t])@,
            ),
{
    unpack_from(bits, half, out_offsets, n_tallies, decode)
}

fn unpack_from<T, F: Fn(usize, i64) -> T>(
    bits: &[u64],
    first: usize,
    out_offsets: &[u32],
    n_tallies: usize,
    decode: F,
) -> (r: Vec<Vec<T>>)
    requires
        n_tallies < out_offsets.len(),
        forall|t: int|
            0 <= t < n_tallies ==> #[trigger] out_offsets@[t] <= out_offsets@[t + 1] && first
                + out_offsets@[t + 1] <= bits.len(),
        forall|t: usize, w: i64| call_requires(decode, (t, w)),
    ensures
        r@.len() == n_tallies,
        forall|t: int|
            0 <= t < n_tallies ==> decoded(
                decode,
                t as usize,
                bits@,
                first + out_offsets@[t],
                first + out_offsets@[t + 1],
                (#[trigger] r@[t])@,
            ),
{
    let mut r: Vec<Vec<T>> = Vec::new();
    let mut t: usize = 0;
    while t < n_tallies
        invariant
            t <= n_tallies < out_offsets.len(),
            forall|t: int|
                0 <= t < n_tallies ==> #[trigger] out_offsets@[t] <= out_offsets@[t + 1] && first
                    + out_offsets@[t + 1] <= bits.len(),
            forall|t: usize, w: i64| call_requires(decode, (t, w)),
            r@.len() == t,
            forall|k: int|
                0 <= k < t ==> decoded(
                    decode,
                    k as usize,
                    bits@,
                    first + out_offsets@[k],
                    first + out_offsets@[k + 1],
                    (#[trigger] r@[k])@,
                ),
        decreases n_tallies - t,
    {
        assert(out_offsets@[t as int] <= out_offsets@[t + 1]);
        let start: usize = first + out_offsets[t] as usize;
        let end: usize = first + out_offsets[t + 1] as usize;
        let out: Vec<T> = unpack_range(bits, t, start, end, &decode);
        r.push(out);
        t = t + 1;
    }
    r
}

/// Fixed-point scales of the squares of a history's totals.
#[derive(Clone, Copy, Debug)]
pub struct SquareScales {
    /// Largest scale of a heating tally.
    pub heating: Real,
    /// Scale of the squares of a heating tally.
    pub heating_squares: Real,
    /// Largest scale that an accumulator has room for.
    pub ceiling: Real,
}

/// Scale of the squares of a tally: fixed for a heating tally, and for any other
/// `squared`, derived from the square of the tally's own scale, up to the
/// ceiling.
pub fn sum_sq_scale(scale: Real, squared: Real, s: SquareScales) -> (r: Real)
    ensures
        r == if scale.le(s.heating) {
            s.heating_squares
        } else if squared.lt(s.ceiling) {
            squared
        } else {
            s.ceiling
        },
{
    if scale.is_le(s.heating) {
        s.heating_squares
    } else if squared.is_lt(s.ceiling) {
        squared
    } else {
        s.ceiling
    }
}

/// The energy bin of an event, in its own words: above the bin's lower edge, or
/// on it for the first bin, and not above the upper one.
pub open spec fn energy_falls_in(pack: TalliesPack, t: int, log_e: Real, e: int) -> bool {
    let first = pack.edges_offsets@[t] as int;
    &&& 0 <= e < pack.n_bins_per_tally@[t]
    &&& pack.log_edges@[first + e].lt(log_e) || e == 0 && pack.log_edges@[first].le(log_e)
    &&& log_e.le(pack.log_edges@[first + e + 1])
}

/// The weight of a hit is that of its tally at the event's energy: none without an
/// energy function, and otherwise the cubic of the knots around the energy, whose
/// four coefficients stand behind the knots.
pub open spec fn weight_is_the_tallys(
    pack: TalliesPack,
    t: int,
    energy: Real,
    weight: EnergyWeight,
) -> bool {
    let at = pack.efunc_offsets@[t] + 1;
    let n = pack.efunc_params@[at - 1].to_u32_spec() as int;
    if pack.efunc_offsets@[t] >= pack.efunc_offsets@[t + 1] {
        weight is Pass
    } else {
        &&& weight is Cubic
        &&& at <= weight->knot < at + n - 1
        &&& pack.efunc_params@[weight->knot as int].le(energy)
        &&& energy.lt(pack.efunc_params@[weight->knot + 1]) || weight->knot == at + n - 2
            && energy.le(pack.efunc_params@[weight->knot + 1])
        &&& weight->coefficients == at + n + 4 * (weight->knot - at)
    }
}

/// The factor of a hit is that of its score: nothing for a flux, the cross section
/// that the score names, or two neighbours in the score's row of the table. In a
/// sampled band, the band's own partial cross sections stand for those reactions
/// that the band perturbs.
pub open spec fn factor_is_the_scores(
    pack: TalliesPack,
    ctx: ScoreContext,
    t: int,
    factor: ScoreFactor,
) -> bool {
    let kind = pack.score_kinds@[t];
    let mt = pack.score_mt@[t];
    let row = ctx.mat * ctx.n_score_mts * ctx.n_grid + pack.score_data@[t] * ctx.n_grid;
    &&& kind == 1 ==> factor is Total
    &&& kind == 2 ==> factor is Absorption
    &&& kind == 3 && ctx.band_fired && mt == 102 ==> factor is BandCapture
    &&& kind == 3 && ctx.band_fired && mt == 27 ==> factor is Absorption
    &&& kind == 3 && ctx.band_fired && mt == 2 ==> factor is Elastic
    &&& kind == 3 && ctx.band_fired && mt == 18 ==> factor is Fission
    &&& kind == 3 && !(ctx.band_fired && (mt == 102 || mt == 27 || mt == 2 || mt == 18)) ==> {
        &&& factor is Table
        &&& factor->lo == row + ctx.idx_lo
        &&& factor->hi == row + ctx.idx_hi
    }
    &&& kind != 1 && kind != 2 && kind != 3 ==> factor is Unit
}

/// The event is one that the tally counts: a collision for a collision tally and
/// a flight for any other, in one of its cells, within its energy edges and, where
/// it has an energy function, between the function's end knots.
pub open spec fn counts_for(pack: TalliesPack, n_cells: nat, ev: ScoreEvent, t: int) -> bool {
    let edge = pack.edges_offsets@[t] as int;
    let at = pack.efunc_offsets@[t] + 1;
    let n = pack.efunc_params@[at - 1].to_u32_spec() as int;
    &&& ev.collision <==> pack.is_collision@[t] == 1
    &&& pack.cell_to_bin@[t * n_cells + ev.cell] != 0xffff_ffff
    &&& pack.log_edges@[edge].le(ev.log_e)
    &&& ev.log_e.le(pack.log_edges@[edge + pack.n_bins_per_tally@[t]])
    &&& pack.efunc_offsets@[t] < pack.efunc_offsets@[t + 1] ==> pack.efunc_params@[at].le(ev.energy)
        && ev.energy.le(pack.efunc_params@[at + n - 1])
}

/// A hit says where and how its tally scores the event: in the bin of the event's
/// cell and energy, at the bin's first voxel, with the tally's own mesh, factor
/// and energy weight.
pub open spec fn hit_is_right(
    pack: TalliesPack,
    n_cells: nat,
    ev: ScoreEvent,
    ctx: ScoreContext,
    h: TallyHit,
) -> bool {
    let t = h.tally as int;
    &&& 0 <= t < pack.n()
    &&& h.n_mesh == pack.n_mesh_per_tally@[t]
    &&& h.mesh_kind == pack.mesh_kind@[t]
    &&& weight_is_the_tallys(pack, t, ev.energy, h.weight)
    &&& factor_is_the_scores(pack, ctx, t, h.factor)
    &&& exists|e: int| #[trigger]
        energy_falls_in(pack, t, ev.log_e, e) && h.slot == pack.out_offsets@[t] + (
        pack.cell_to_bin@[t * n_cells + ev.cell] * pack.n_bins_per_tally@[t] + e)
            * pack.n_mesh_per_tally@[t]
}

proof fn lemma_some_bin(edges: Seq<Real>, log_e: Real, n: int)
    requires
        strictly_increasing(edges),
        1 <= n < edges.len(),
        edges[0].le(log_e),
        log_e.le(edges[n]),
    ensures
        exists|k: int| #[trigger] in_bin(edges, log_e, k),
    decreases n,
{
    if n > 1 && log_e.le(edges[n - 1]) {
        lemma_some_bin(edges, log_e, n - 1);
    } else {
        assert(!edges[n - 1].is_nan_spec());
        assert(in_bin(edges, log_e, n - 1));
    }
}

proof fn lemma_hit(pack: TalliesPack, n_cells: nat, ev: ScoreEvent, ctx: ScoreContext, t: int, table_len: nat)
    requires
        pack.wf(n_cells),
        0 <= t < pack.n(),
        ev.cell < n_cells,
        ctx.fits(pack, table_len),
        !ev.log_e.is_nan_spec(),
    ensures
        hit_of(pack, n_cells, ev, ctx, t) is Some <==> counts_for(pack, n_cells, ev, t),
        hit_of(pack, n_cells, ev, ctx, t) is Some ==> {
            let h = hit_of(pack, n_cells, ev, ctx, t)->0;
            h.tally == t && hit_is_right(pack, n_cells, ev, ctx, h)
        },
{
    assert(pack.tally_wf(n_cells, t));
    let edges = pack.edges(t);
    let n = pack.n_bins_per_tally@[t] as int;
    let first = pack.edges_offsets@[t] as int;
    assert(edges[0] == pack.log_edges@[first]);
    assert(edges[n] == pack.log_edges@[first + n]);
    assert(!edges[0].is_nan_spec() && !edges[n].is_nan_spec());
    if pack.has_efunc(t) {
        let knots = pack.knots(t);
        let at = pack.efunc_offsets@[t] + 1;
        assert(knots[0] == pack.efunc_params@[at]);
        assert(knots[knots.len() - 1] == pack.efunc_params@[at + pack.n_knots(t) - 1]);
    }
    if let Some(h) = hit_of(pack, n_cells, ev, ctx, t) {
        lemma_some_bin(edges, ev.log_e, n);
        let e = choose|k: int| in_bin(edges, ev.log_e, k);
        assert(in_bin(edges, ev.log_e, e));
        assert(edges[e] == pack.log_edges@[first + e]);
        assert(edges[e + 1] == pack.log_edges@[first + e + 1]);
        assert(energy_falls_in(pack, t, ev.log_e, e));
        let cell_bin = pack.cell_to_bin@[t * n_cells + ev.cell];
        bins_stay_in_their_tally(pack, n_cells, t, cell_bin as int, e);
        assert(h.slot == slot_of(pack, t, cell_bin as int, e));
        if pack.has_efunc(t) {
            lemma_weight(pack, n_cells, t, ev.energy);
        }
        if pack.score_kinds@[t] == SCORE_PER_MT {
            assert(ctx.row(pack.score_data@[t] as int) + ctx.idx_hi < table_len);
            assert(ctx.mat * ctx.n_score_mts * ctx.n_grid >= 0) by (nonlinear_arith);
            assert(pack.score_data@[t] * ctx.n_grid >= 0) by (nonlinear_arith);
        }
    }
}

proof fn lemma_weight(pack: TalliesPack, n_cells: nat, t: int, energy: Real)
    requires
        pack.wf(n_cells),
        0 <= t < pack.n(),
        pack.has_efunc(t),
        weight_of(pack, energy, t) is Some,
    ensures
        weight_is_the_tallys(pack, t, energy, weight_of(pack, energy, t)->0),
{
    assert(pack.tally_wf(n_cells, t));
    let knots = pack.knots(t);
    let at = pack.efunc_offsets@[t] + 1;
    let k = knot_interval(knots, energy);
    energy_function_interval_encloses(knots, energy);
    lemma_knots_are_reached_in_order(knots, energy);
    assert(knots[k] == pack.efunc_params@[at + k]);
    assert(knots[k + 1] == pack.efunc_params@[at + k + 1]);
    if k < knots.len() - 2 {
        assert(!knots[k + 1].le(energy));
        assert(!knots[k + 1].is_nan_spec());
    }
    assert(pack.efunc_params.len() == pack.efunc_params@.len());
}

/// Of `n` tallies, exactly those that count the event are hit, each once and in
/// their order, and each hit is right.
proof fn lemma_hits(pack: TalliesPack, n_cells: nat, ev: ScoreEvent, ctx: ScoreContext, n: nat, table_len: nat)
    requires
        pack.wf(n_cells),
        n <= pack.n(),
        ev.cell < n_cells,
        ctx.fits(pack, table_len),
        !ev.log_e.is_nan_spec(),
    ensures
        ({
            let hits = hits_of(pack, n_cells, ev, ctx, n);
            &&& forall|i: int|
                0 <= i < hits.len() ==> (#[trigger] hits[i]).tally < n && counts_for(
                    pack,
                    n_cells,
                    ev,
                    hits[i].tally as int,
                ) && hit_is_right(pack, n_cells, ev, ctx, hits[i])
            &&& forall|i: int, j: int|
                0 <= i < j < hits.len() ==> (#[trigger] hits[i]).tally < (#[trigger] hits[j]).tally
            &&& forall|t: int|
                0 <= t < n && #[trigger] counts_for(pack, n_cells, ev, t) ==> exists|i: int|
                    0 <= i < hits.len() && (#[trigger] hits[i]).tally == t
        }),
    decreases n,
{
    if n > 0 {
        let m = (n - 1) as nat;
        lemma_hits(pack, n_cells, ev, ctx, m, table_len);
        lemma_hit(pack, n_cells, ev, ctx, n - 1, table_len);
        let before = hits_of(pack, n_cells, ev, ctx, m);
        let hits = hits_of(pack, n_cells, ev, ctx, n);
        assert forall|i: int| 0 <= i < hits.len() implies (#[trigger] hits[i]).tally < n
            && counts_for(pack, n_cells, ev, hits[i].tally as int) && hit_is_right(
            pack,
            n_cells,
            ev,
            ctx,
            hits[i],
        ) by {
            if i < before.len() {
                assert(hits[i] == before[i]);
            }
        }
        assert forall|i: int, j: int| 0 <= i < j < hits.len() implies (#[trigger] hits[i]).tally < (
        #[trigger] hits[j]).tally by {
            assert(hits[i] == before[i]);
            if j < before.len() {
                assert(hits[j] == before[j]);
            }
        }
        assert forall|t: int| 0 <= t < n && #[trigger] counts_for(
            pack,
            n_cells,
            ev,
            t,
        ) implies exists|i: int| 0 <= i < hits.len() && (#[trigger] hits[i]).tally == t by {
            if t < n - 1 {
                let i = choose|i: int| 0 <= i < before.len() && (#[trigger] before[i]).tally == t;
                assert(hits[i] == before[i]);
                assert(hits[i].tally == t);
            } else {
                assert(hits[hits.len() - 1].tally == t);
            }
        }
    }
}

/// The hits are those of the event: every tally that counts it is hit once, no
/// other is, and each hit has the bin, the mesh, the factor and the energy weight
/// that its tally asks for.
pub open spec fn hits_are_right(
    pack: TalliesPack,
    n_cells: nat,
    ev: ScoreEvent,
    ctx: ScoreContext,
    hits: Seq<TallyHit>,
) -> bool {
    &&& forall|i: int|
        0 <= i < hits.len() ==> counts_for(
            pack,
            n_cells,
            ev,
            (#[trigger] hits[i]).tally as int,
        ) && hit_is_right(pack, n_cells, ev, ctx, hits[i])
    &&& forall|i: int, j: int|
        0 <= i < j < hits.len() ==> (#[trigger] hits[i]).tally < (#[trigger] hits[j]).tally
    &&& forall|t: int|
        0 <= t < pack.n() && #[trigger] counts_for(pack, n_cells, ev, t) ==> exists|i: int|
            0 <= i < hits.len() && (#[trigger] hits[i]).tally == t
}

/// A flight scores every track-length tally that counts it, once, in the bin of
/// its cell and energy, with the factor of the score and the weight of the energy
/// function.
pub proof fn a_flight_scores_what_counts_it(
    pack: &TalliesPack,
    n_cells: usize,
    cell: usize,
    log_e: Real,
    energy: Real,
    ctx: ScoreContext,
    table_len: usize,
    hits: Vec<TallyHit>,
)
    requires
        pack.wf(n_cells as nat),
        cell < n_cells,
        ctx.fits(*pack, table_len as nat),
        !log_e.is_nan_spec(),
        call_ensures(track_hits, (pack, n_cells, cell, log_e, energy, ctx, table_len), hits),
    ensures
        hits_are_right(
            *pack,
            n_cells as nat,
            (ScoreEvent { collision: false, cell, log_e, energy }),
            ctx,
            hits@,
        ),
{
    let ev = ScoreEvent { collision: false, cell, log_e, energy };
    lemma_hits(*pack, n_cells as nat, ev, ctx, pack.n(), table_len as nat);
}

/// A collision scores every collision tally that counts it, in the same way, and
/// nothing at all where the total cross section is not above zero.
pub proof fn a_collision_scores_what_counts_it(
    pack: &TalliesPack,
    n_cells: usize,
    cell: usize,
    log_e: Real,
    energy: Real,
    sigma_t: Real,
    ctx: ScoreContext,
    table_len: usize,
    hits: Vec<TallyHit>,
)
    requires
        pack.wf(n_cells as nat),
        cell < n_cells,
        ctx.fits(*pack, table_len as nat),
        !log_e.is_nan_spec(),
        call_ensures(
            collision_hits,
            (pack, n_cells, cell, log_e, energy, sigma_t, ctx, table_len),
            hits,
        ),
    ensures
        sigma_t.le(Real { bits: 0 }) ==> hits@.len() == 0,
        (Real { bits: 0 }).lt(sigma_t) ==> hits_are_right(
            *pack,
            n_cells as nat,
            (ScoreEvent { collision: true, cell, log_e, energy }),
            ctx,
            hits@,
        ),
{
    let ev = ScoreEvent { collision: true, cell, log_e, energy };
    lemma_hits(*pack, n_cells as nat, ev, ctx, pack.n(), table_len as nat);
}

/// The bin of an energy is the one whose edges it lies between, and there is one
/// exactly for the energies from the first edge to the last.
pub proof fn an_energy_has_the_bin_it_lies_in(
    edges: &[Real],
    offset: usize,
    n_bins: usize,
    log_e: Real,
    r: Option<usize>,
)
    requires
        n_bins >= 1,
        offset + n_bins + 1 <= edges.len(),
        strictly_increasing(edges@.subrange(offset as int, offset + n_bins + 1)),
        !log_e.is_nan_spec(),
        call_ensures(log_edges_bin, (edges, offset, n_bins, log_e), r),
    ensures
        r is Some <==> edges@[offset as int].le(log_e) && log_e.le(edges@[offset + n_bins]),
        r matches Some(k) ==> {
            &&& k < n_bins
            &&& log_e.le(edges@[offset + k + 1])
            &&& k == 0 ==> edges@[offset as int].le(log_e)
            &&& k > 0 ==> edges@[offset + k].lt(log_e)
        },
{
    let g = edges@.subrange(offset as int, offset + n_bins + 1);
    assert(g[0] == edges@[offset as int]);
    assert(g[n_bins as int] == edges@[offset + n_bins]);
    assert(!g[0].is_nan_spec() && !g[n_bins as int].is_nan_spec());
    if let Some(k) = r {
        assert(in_bin(g, log_e, k as int));
        assert(g[k as int] == edges@[offset + k]);
        assert(g[k + 1] == edges@[offset + k + 1]);
    }
}

/// One more hit adds one deposit, its word in the voxel that holds the collision,
/// behind those of the hits before it; a hit whose mesh does not hold it adds
/// none. A tally without a mesh has one voxel, which holds every collision.
pub proof fn a_collision_deposits_hit_by_hit(
    hits: Seq<TallyHit>,
    voxels: Seq<Option<u32>>,
    words: Seq<u64>,
    h: TallyHit,
    v: Option<u32>,
    w: u64,
)
    requires
        voxels.len() == hits.len(),
        words.len() == hits.len(),
        h.slot + h.n_mesh <= usize::MAX,
        v matches Some(x) ==> x < h.n_mesh,
    ensures
        collision_scores_of(Seq::empty(), Seq::empty(), Seq::empty()).len() == 0,
        ({
            let before = collision_scores_of(hits, voxels, words);
            let after = collision_scores_of(hits.push(h), voxels.push(v), words.push(w));
            let last = after[before.len() as int];
            &&& forall|i: int| 0 <= i < before.len() ==> #[trigger] after[i] == before[i]
            &&& h.mesh_kind == 0 ==> after.len() == before.len() + 1 && last.slot == h.slot
                && last.word == w
            &&& h.mesh_kind != 0 && v is Some ==> after.len() == before.len() + 1 && last.slot
                == h.slot + v->0 && last.word == w
            &&& h.mesh_kind != 0 && v is None ==> after.len() == before.len()
        }),
{
    lemma_collision_scores_prefix(hits, voxels, words, voxels.push(v), words.push(w));
    assert(hits.push(h).drop_last() =~= hits);
}

proof fn lemma_collision_scores_prefix(
    hits: Seq<TallyHit>,
    voxels: Seq<Option<u32>>,
    words: Seq<u64>,
    voxels2: Seq<Option<u32>>,
    words2: Seq<u64>,
)
    requires
        voxels.len() >= hits.len(),
        words.len() >= hits.len(),
        forall|i: int| 0 <= i < hits.len() ==> #[trigger] voxels2[i] == voxels[i],
        forall|i: int| 0 <= i < hits.len() ==> #[trigger] words2[i] == words[i],
    ensures
        collision_scores_of(hits, voxels2, words2) == collision_scores_of(hits, voxels, words),
    decreases hits.len(),
{
    if hits.len() > 0 {
        lemma_collision_scores_prefix(hits.drop_last(), voxels, words, voxels2, words2);
        let i = hits.len() - 1;
        assert(voxels2[i] == voxels[i] && words2[i] == words[i]);
    }
}

/// A history's totals land where they belong: each touched bin grows by its sum
/// and the same bin of the second half by its square, both modulo `2^64`, and no
/// other word changes.
pub proof fn a_history_flushes_sums_and_squares(
    acc: Seq<u64>,
    half: int,
    bins: Seq<u32>,
    sums: Seq<u64>,
    squares: Seq<u64>,
    slot: int,
)
    requires
        acc.len() == 2 * half,
        half <= usize::MAX / 2,
        bins.no_duplicates(),
        sums.len() == bins.len(),
        squares.len() == bins.len(),
        forall|i: int| 0 <= i < bins.len() ==> #[trigger] bins[i] < half,
        0 <= slot < acc.len(),
    ensures
        flushed(acc, half, bins, sums, squares).len() == acc.len(),
        forall|k: int|
            0 <= k < bins.len() && slot == #[trigger] bins[k] ==> flushed(
                acc,
                half,
                bins,
                sums,
                squares,
            )[slot] == acc[slot].wrapping_add(sums[k]),
        forall|k: int|
            0 <= k < bins.len() && slot == half + #[trigger] bins[k] ==> flushed(
                acc,
                half,
                bins,
                sums,
                squares,
            )[slot] == acc[slot].wrapping_add(squares[k]),
        (forall|k: int| 0 <= k < bins.len() ==> slot != #[trigger] bins[k] && slot != half + bins[k])
            ==> flushed(acc, half, bins, sums, squares)[slot] == acc[slot],
    decreases bins.len(),
{
    if bins.len() > 0 {
        let rest = bins.drop_last();
        let s2 = sums.drop_last();
        let q2 = squares.drop_last();
        lemma_flushed_prefix(acc, half, rest, sums, squares, s2, q2);
        a_history_flushes_sums_and_squares(acc, half, rest, s2, q2, slot);
        let k = bins.len() - 1;
        let before = flushed(acc, half, rest, s2, q2);
        assert(bins[k] < half);
        let once = deposited(before, Deposit { slot: bins[k] as usize, word: sums[k] });
        let now = flushed(acc, half, bins, sums, squares);
        assert(now == deposited(once, Deposit { slot: (half + bins[k]) as usize, word: squares[k] }));
        assert forall|i: int| 0 <= i < rest.len() implies #[trigger] rest[i] != bins[k] && rest[i]
            < half by {
            assert(rest[i] == bins[i]);
            assert(bins[i] != bins[k]);
        }
        if slot == bins[k] || slot == half + bins[k] {
            assert forall|i: int| 0 <= i < rest.len() implies slot != #[trigger] rest[i] && slot
                != half + rest[i] by {}
            assert(before[slot] == acc[slot]);
            assert forall|i: int| 0 <= i < bins.len() && (slot == #[trigger] bins[i] || slot == half
                + bins[i]) implies i == k by {
                if i < k {
                    assert(rest[i] == bins[i]);
                }
            }
        } else {
            assert(now[slot] == before[slot]);
            assert forall|i: int| 0 <= i < bins.len() && slot == #[trigger] bins[i] implies now[slot]
                == acc[slot].wrapping_add(sums[i]) by {
                assert(rest[i] == bins[i]);
            }
            assert forall|i: int| 0 <= i < bins.len() && slot == half + #[trigger] bins[i] implies
                now[slot] == acc[slot].wrapping_add(squares[i]) by {
                assert(rest[i] == bins[i]);
            }
            if forall|i: int| 0 <= i < bins.len() ==> slot != #[trigger] bins[i] && slot != half
                + bins[i] {
                assert forall|i: int| 0 <= i < rest.len() implies slot != #[trigger] rest[i] && slot
                    != half + rest[i] by {
                    assert(rest[i] == bins[i]);
                }
            }
        }
    }
}

proof fn lemma_flushed_prefix(
    acc: Seq<u64>,
    half: int,
    bins: Seq<u32>,
    sums: Seq<u64>,
    squares: Seq<u64>,
    sums2: Seq<u64>,
    squares2: Seq<u64>,
)
    requires
        forall|i: int| 0 <= i < bins.len() ==> #[trigger] sums2[i] == sums[i],
        forall|i: int| 0 <= i < bins.len() ==> #[trigger] squares2[i] == squares[i],
    ensures
        flushed(acc, half, bins, sums2, squares2) == flushed(acc, half, bins, sums, squares),
    decreases bins.len(),
{
    if bins.len() > 0 {
        lemma_flushed_prefix(acc, half, bins.drop_last(), sums, squares, sums2, squares2);
        let k = bins.len() - 1;
        assert(sums2[k] == sums[k] && squares2[k] == squares[k]);
    }
}

/// A source's totals land in its own row: each touched bin of the row grows by its
/// sum modulo `2^64`, and no other word changes.
pub proof fn a_source_flushes_into_its_row(
    acc: Seq<u64>,
    base: int,
    bins: Seq<u32>,
    sums: Seq<u64>,
    slot: int,
)
    requires
        0 <= base,
        acc.len() <= usize::MAX,
        bins.no_duplicates(),
        sums.len() == bins.len(),
        forall|i: int| 0 <= i < bins.len() ==> base + #[trigger] bins[i] < acc.len(),
        0 <= slot < acc.len(),
    ensures
        flushed_row(acc, base, bins, sums).len() == acc.len(),
        forall|k: int|
            0 <= k < bins.len() && slot == base + #[trigger] bins[k] ==> flushed_row(
                acc,
                base,
                bins,
                sums,
            )[slot] == acc[slot].wrapping_add(sums[k]),
        (forall|k: int| 0 <= k < bins.len() ==> slot != base + #[trigger] bins[k]) ==> flushed_row(
            acc,
            base,
            bins,
            sums,
        )[slot] == acc[slot],
    decreases bins.len(),
{
    if bins.len() > 0 {
        let rest = bins.drop_last();
        let s2 = sums.drop_last();
        lemma_flushed_row_prefix(acc, base, rest, sums, s2);
        a_source_flushes_into_its_row(acc, base, rest, s2, slot);
        let k = bins.len() - 1;
        let before = flushed_row(acc, base, rest, s2);
        let now = flushed_row(acc, base, bins, sums);
        assert(base + bins[k] < acc.len());
        assert(now == deposited(before, Deposit { slot: (base + bins[k]) as usize, word: sums[k] }));
        assert forall|i: int| 0 <= i < rest.len() implies #[trigger] rest[i] != bins[k] by {
            assert(rest[i] == bins[i]);
            assert(bins[i] != bins[k]);
        }
        if slot == base + bins[k] {
            assert forall|i: int| 0 <= i < rest.len() implies slot != base + #[trigger] rest[i] by {}
            assert forall|i: int| 0 <= i < bins.len() && slot == base + #[trigger] bins[i] implies i
                == k by {
                if i < k {
                    assert(rest[i] == bins[i]);
                }
            }
        } else {
            assert forall|i: int| 0 <= i < bins.len() && slot == base + #[trigger] bins[i] implies
                now[slot] == acc[slot].wrapping_add(sums[i]) by {
                assert(rest[i] == bins[i]);
            }
            if forall|i: int| 0 <= i < bins.len() ==> slot != base + #[trigger] bins[i] {
                assert forall|i: int| 0 <= i < rest.len() implies slot != base + #[trigger] rest[i] by {
                    assert(rest[i] == bins[i]);
                }
            }
        }
    }
}

proof fn lemma_flushed_row_prefix(acc: Seq<u64>, base: int, bins: Seq<u32>, sums: Seq<u64>, sums2: Seq<u64>)
    requires
        forall|i: int| 0 <= i < bins.len() ==> #[trigger] sums2[i] == sums[i],
    ensures
        flushed_row(acc, base, bins, sums2) == flushed_row(acc, base, bins, sums),
    decreases bins.len(),
{
    if bins.len() > 0 {
        lemma_flushed_row_prefix(acc, base, bins.drop_last(), sums, sums2);
        let k = bins.len() - 1;
        assert(sums2[k] == sums[k]);
    }
}

/// A score goes to the source's own row where meshes are scored directly, to the
/// history's list where variance is per history, and to the accumulator
/// otherwise; never to two of them.
pub proof fn a_score_has_one_destination(
    mesh_direct: bool,
    per_history: bool,
    src_base: usize,
    bin: usize,
    d: Destination,
)
    requires
        src_base + bin <= usize::MAX,
        call_ensures(destination, (mesh_direct, per_history, src_base, bin), d),
    ensures
        d is SourceRow <==> mesh_direct,
        d is Touched <==> !mesh_direct && per_history,
        d is Accumulator <==> !mesh_direct && !per_history,
        d is SourceRow ==> d->SourceRow_slot == src_base + bin,
        d is Touched ==> d->bin == bin,
        d is Accumulator ==> d->Accumulator_slot == bin,
{
}

/// Flights on no mesh deposit one word for each hit, in the hit's own slot.
pub proof fn a_flight_deposits_in_its_slots(hits: &[TallyHit], words: &[u64], i: int, r: Vec<Deposit>)
    requires
        words.len() == hits.len(),
        forall|k: int| 0 <= k < hits.len() ==> (#[trigger] hits@[k]).mesh_kind == 0,
        call_ensures(track_scores, (hits, words), r),
        0 <= i < hits@.len(),
    ensures
        r@.len() == hits@.len(),
        r@[i].slot == hits@[i].slot,
        r@[i].word == words@[i],
{
}

/// The scale of squares is that of heating up to its limit; past it the square of the
/// scale, but never more than the ceiling.
pub proof fn squares_are_scaled_up_to_the_ceiling(scale: Real, squared: Real, s: SquareScales, r: Real)
    requires
        call_ensures(sum_sq_scale, (scale, squared, s), r),
    ensures
        scale.le(s.heating) ==> r == s.heating_squares,
        !scale.le(s.heating) && squared.lt(s.ceiling) ==> r == squared,
        !scale.le(s.heating) && !squared.lt(s.ceiling) ==> r == s.ceiling,
{
}

/// A pack counts its tallies and the words they write.
pub proof fn a_pack_counts_its_tallies(pack: &TalliesPack, n: u32, total: u32)
    requires
        pack.score_kinds@.len() <= u32::MAX,
        pack.out_offsets@.len() == pack.score_kinds@.len() + 1,
        call_ensures(TalliesPack::n_tallies, (pack,), n),
        call_ensures(TalliesPack::total_out_len, (pack,), total),
    ensures
        n == pack.score_kinds@.len(),
        total == pack.out_offsets@[n as int],
{
}

/// A decoded range has one value for each word, decoded from that word read as a
/// signed number and as this tally's.
pub proof fn words_are_decoded_one_by_one<T, F: Fn(usize, i64) -> T>(
    decode: F,
    t: usize,
    bits: Seq<u64>,
    start: int,
    end: int,
    out: Seq<T>,
    i: int,
)
    requires
        decoded(decode, t, bits, start, end, out),
        0 <= i < out.len(),
    ensures
        out.len() == end - start,
        bits[start + i] < 0x8000_0000_0000_0000 ==> call_ensures(
            decode,
            (t, bits[start + i] as i64),
            out[i],
        ),
        bits[start + i] >= 0x8000_0000_0000_0000 ==> call_ensures(
            decode,
            (t, (bits[start + i] - 0x1_0000_0000_0000_0000) as i64),
            out[i],
        ),
{
}

/// The factor of a score is the one it names.
pub proof fn a_factor_is_the_one_named(
    pack: &TalliesPack,
    ctx: ScoreContext,
    table_len: usize,
    t: usize,
    r: ScoreFactor,
)
    requires
        t < pack.n(),
        pack.score_data@.len() == pack.n(),
        pack.score_mt@.len() == pack.n(),
        ctx.fits(*pack, table_len as nat),
        call_ensures(tally_score_factor, (pack, ctx, table_len, t), r),
    ensures
        factor_is_the_scores(*pack, ctx, t as int, r),
{
    if pack.score_kinds@[t as int] == SCORE_PER_MT {
        assert(ctx.row(pack.score_data@[t as int] as int) + ctx.idx_hi < table_len);
        assert(ctx.mat * ctx.n_score_mts * ctx.n_grid >= 0) by (nonlinear_arith);
        assert(pack.score_data@[t as int] * ctx.n_grid >= 0) by (nonlinear_arith);
    }
}

/// An energy function weighs the energies between its end knots, by the cubic of the
/// knots around the energy, and no other; a tally without one weighs them all alike.
pub proof fn an_energy_function_weighs_between_its_knots(
    pack: &TalliesPack,
    n_cells: usize,
    t: usize,
    energy: Real,
    r: Option<EnergyWeight>,
)
    requires
        pack.wf(n_cells as nat),
        t < pack.n(),
        call_ensures(apply_energy_function, (pack, n_cells, t, energy), r),
    ensures
        ({
            let at = pack.efunc_offsets@[t as int] + 1;
            let n = pack.efunc_params@[at - 1].to_u32_spec() as int;
            &&& r is Some <==> (pack.efunc_offsets@[t as int] < pack.efunc_offsets@[t + 1]
                ==> pack.efunc_params@[at].le(energy) && energy.le(pack.efunc_params@[at + n - 1]))
            &&& r is Some ==> weight_is_the_tallys(*pack, t as int, energy, r->0)
        }),
{
    assert(pack.tally_wf(n_cells as nat, t as int));
    if pack.has_efunc(t as int) {
        let knots = pack.knots(t as int);
        let at = pack.efunc_offsets@[t as int] + 1;
        assert(knots[0] == pack.efunc_params@[at]);
        assert(knots[knots.len() - 1] == pack.efunc_params@[at + pack.n_knots(t as int) - 1]);
        if r is Some {
            lemma_weight(*pack, n_cells as nat, t as int, energy);
        }
    }
}

} // verus!
