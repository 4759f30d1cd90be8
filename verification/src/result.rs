//! Results of a transport run.
use crate::bank::LostParticleResult;
use crate::history::LostParticleRecord;
use crate::ieee::Real;
use crate::photon::PhotonBankResult;
use vstd::prelude::*;

verus! {

/// Per-particle and per-tally outputs of a run.
pub struct MultiCellResult {
    pub alive: Vec<u32>,
    pub n_steps: Vec<u32>,
    pub final_energies: Vec<Real>,
    /// Outputs of each tally, cell by cell and bin by bin.
    pub tally_outputs: Vec<Vec<Real>>,
    /// Sums of squares in the same shape; empty without per-history variance.
    pub tally_sum_sq: Vec<Vec<Real>>,
    /// Raw per-source accumulator; empty without per-source variance.
    pub src_acc: Vec<u64>,
    /// Source particle of each banked record; empty without per-source
    /// variance.
    pub bank_source_idx: Vec<u32>,
    pub n_bins_per_tally: Vec<u32>,
    pub n_cells: usize,
    pub photon_bank: PhotonBankResult,
    pub lost: LostParticleResult<LostParticleRecord>,
    /// Secondaries that found the pending stack full.
    pub n_spilled_secondaries: u64,
    /// Deepest pending stack; 0 from a device.
    pub max_pend_depth: u32,
    /// Histories per peak depth of the pending stack; empty where it is not
    /// recorded.
    pub pend_depth_hist: Vec<u64>,
}

/// `total` is what `plus` gives over the values, one after the other, from
/// `zero` on.
pub open spec fn is_total<F: Fn(Real, Real) -> Real>(
    plus: F,
    zero: Real,
    values: Seq<Real>,
    total: Real,
) -> bool
    decreases values.len(),
{
    if values.len() == 0 {
        total == zero
    } else {
        exists|before: Real|
            is_total(plus, zero, values.drop_last(), before) && #[trigger] call_ensures(
                plus,
                (before, values.last()),
                total,
            )
    }
}

fn total_of<F: Fn(Real, Real) -> Real>(
    flat: &[Real],
    from: usize,
    to: usize,
    plus: &F,
    zero: Real,
) -> (r: Real)
    requires
        from <= to <= flat.len(),
        forall|a: Real, b: Real| call_requires(*plus, (a, b)),
    ensures
        is_total(*plus, zero, flat@.subrange(from as int, to as int), r),
{
    let mut r: Real = zero;
    let mut i: usize = from;
    while i < to
        invariant
            from <= i <= to <= flat.len(),
            forall|a: Real, b: Real| call_requires(*plus, (a, b)),
            is_total(*plus, zero, flat@.subrange(from as int, i as int), r),
        decreases to - i,
    {
        let ghost before = r;
        r = plus(r, flat[i]);
        i = i + 1;
        proof {
            let values = flat@.subrange(from as int, i as int);
            assert(values.drop_last() =~= flat@.subrange(from as int, i - 1));
            assert(call_ensures(*plus, (before, values.last()), r));
        }
    }
    r
}

/// Sums each cell's energy bins.
pub fn sum_bins<F: Fn(Real, Real) -> Real>(
    flat: &[Real],
    n_cells: usize,
    n_bins: usize,
    plus: &F,
    zero: Real,
) -> (r: Vec<Real>)
    requires
        n_cells * n_bins <= flat.len(),
        forall|a: Real, b: Real| call_requires(*plus, (a, b)),
    ensures
        r@.len() == n_cells,
        forall|c: int|
            0 <= c < n_cells ==> is_total(
                *plus,
                zero,
                flat@.subrange(c * n_bins, c * n_bins + n_bins),
                #[trigger] r@[c],
            ),
{
    let mut r: Vec<Real> = Vec::new();
    let mut c: usize = 0;
    while c < n_cells
        invariant
            c <= n_cells,
            n_cells * n_bins <= flat.len(),
            forall|a: Real, b: Real| call_requires(*plus, (a, b)),
            r@.len() == c,
            forall|k: int|
                0 <= k < c ==> is_total(
                    *plus,
                    zero,
                    flat@.subrange(k * n_bins, k * n_bins + n_bins),
                    #[trigger] r@[k],
                ),
        decreases n_cells - c,
    {
        assert(0 <= c * n_bins && c * n_bins + n_bins <= n_cells * n_bins) by (nonlinear_arith)
            requires
                c + 1 <= n_cells,
        ;
        let off: usize = c * n_bins;
        r.push(total_of(flat, off, off + n_bins, plus, zero));
        c = c + 1;
    }
    r
}

/// Cell bins of a tally with `len` outputs and `n_bins` energy bins.
pub open spec fn cell_bins(len: nat, n_bins: nat) -> nat {
    if n_bins == 0 {
        len
    } else {
        len / n_bins
    }
}

impl MultiCellResult {
    /// `r` holds the totals of tally `t`, one per cell bin.
    pub open spec fn are_totals<F: Fn(Real, Real) -> Real>(
        self,
        t: int,
        plus: F,
        zero: Real,
        r: Seq<Real>,
    ) -> bool {
        let flat = self.tally_outputs@[t]@;
        let n_bins = self.n_bins_per_tally@[t] as int;
        &&& r.len() == cell_bins(flat.len(), n_bins as nat)
        &&& forall|c: int|
            0 <= c < r.len() ==> is_total(
                plus,
                zero,
                flat.subrange(c * n_bins, c * n_bins + n_bins),
                #[trigger] r[c],
            )
    }

    /// Tally `t` summed over its energy bins, one value per cell bin.
    pub fn tally_per_cell<F: Fn(Real, Real) -> Real>(&self, t: usize, plus: F, zero: Real) -> (r: Vec<
        Real,
    >)
        requires
            t < self.tally_outputs@.len(),
            t < self.n_bins_per_tally@.len(),
            forall|a: Real, b: Real| call_requires(plus, (a, b)),
        ensures
            self.are_totals(t as int, plus, zero, r@),
    {
        let flat = self.tally_outputs[t].as_slice();
        let n_bins: usize = self.n_bins_per_tally[t] as usize;
        let n_cell_bins: usize = if n_bins == 0 {
            flat.len()
        } else {
            flat.len() / n_bins
        };
        assert(n_cell_bins * n_bins <= flat.len()) by (nonlinear_arith)
            requires
                n_bins == 0 || n_cell_bins == flat.len() / n_bins,
                flat.len() >= 0,
        ;
        sum_bins(flat, n_cell_bins, n_bins, &plus, zero)
    }

    /// Outputs of the first tally.
    pub fn flux_per_cell_energy(&self) -> (r: &[Real])
        requires
            self.tally_outputs@.len() > 0,
        ensures
            r@ == self.tally_outputs@[0]@,
    {
        self.tally_outputs[0].as_slice()
    }

    /// Outputs of the second tally.
    pub fn absorption_per_cell_energy(&self) -> (r: &[Real])
        requires
            self.tally_outputs@.len() > 1,
        ensures
            r@ == self.tally_outputs@[1]@,
    {
        self.tally_outputs[1].as_slice()
    }

    /// The first tally summed over its energy bins.
    pub fn flux_per_cell<F: Fn(Real, Real) -> Real>(&self, plus: F, zero: Real) -> (r: Vec<Real>)
        requires
            self.tally_outputs@.len() > 0,
            self.n_bins_per_tally@.len() > 0,
            forall|a: Real, b: Real| call_requires(plus, (a, b)),
        ensures
            self.are_totals(0, plus, zero, r@),
    {
        self.tally_per_cell(0, plus, zero)
    }

    /// The second tally summed over its energy bins.
    pub fn absorption_per_cell<F: Fn(Real, Real) -> Real>(&self, plus: F, zero: Real) -> (r: Vec<Real>)
        requires
            self.tally_outputs@.len() > 1,
            self.n_bins_per_tally@.len() > 1,
            forall|a: Real, b: Real| call_requires(plus, (a, b)),
        ensures
            self.are_totals(1, plus, zero, r@),
    {
        self.tally_per_cell(1, plus, zero)
    }
}

/// A total is built value by value: from zero, each value added to the total of those
/// before it.
pub proof fn totals_grow_value_by_value<F: Fn(Real, Real) -> Real>(
    plus: F,
    zero: Real,
    values: Seq<Real>,
    v: Real,
    before: Real,
    total: Real,
)
    ensures
        is_total(plus, zero, Seq::empty(), total) <==> total == zero,
        is_total(plus, zero, values, before) && call_ensures(plus, (before, v), total) ==> is_total(
            plus,
            zero,
            values.push(v),
            total,
        ),
        is_total(plus, zero, values.push(v), total) ==> exists|b: Real|
            is_total(plus, zero, values, b) && #[trigger] call_ensures(plus, (b, v), total),
{
    let all = values.push(v);
    assert(all.drop_last() =~= values);
    assert(all.last() == v);
    if is_total(plus, zero, values, before) && call_ensures(plus, (before, v), total) {
        assert(call_ensures(plus, (before, all.last()), total));
        assert(is_total(plus, zero, all.drop_last(), before));
    }
}

/// The totals of a tally have one value for each run of its bins, added up over that
/// run; flux is the first tally and absorption the second.
pub proof fn cells_total_their_own_bins<F: Fn(Real, Real) -> Real>(
    res: &MultiCellResult,
    t: usize,
    plus: F,
    zero: Real,
    c: int,
    r: Vec<Real>,
    flux: Vec<Real>,
    absorption: Vec<Real>,
)
    requires
        t < res.tally_outputs@.len(),
        t < res.n_bins_per_tally@.len(),
        res.tally_outputs@.len() > 1,
        res.n_bins_per_tally@.len() > 1,
        forall|a: Real, b: Real| call_requires(plus, (a, b)),
        call_ensures(MultiCellResult::tally_per_cell::<F>, (res, t, plus, zero), r),
        call_ensures(MultiCellResult::flux_per_cell::<F>, (res, plus, zero), flux),
        call_ensures(MultiCellResult::absorption_per_cell::<F>, (res, plus, zero), absorption),
    ensures
        totals_of_bins(res, t as int, plus, zero, r@, c),
        totals_of_bins(res, 0, plus, zero, flux@, c),
        totals_of_bins(res, 1, plus, zero, absorption@, c),
{
}

/// One total for each run of a tally's bins, and at `c` the total of its own run.
pub open spec fn totals_of_bins<F: Fn(Real, Real) -> Real>(
    res: &MultiCellResult,
    t: int,
    plus: F,
    zero: Real,
    r: Seq<Real>,
    c: int,
) -> bool {
    let flat = res.tally_outputs@[t]@;
    let n_bins = res.n_bins_per_tally@[t];
    &&& n_bins > 0 ==> r.len() == flat.len() / n_bins as nat
    &&& n_bins == 0 ==> r.len() == flat.len()
    &&& 0 <= c < r.len() ==> is_total(
        plus,
        zero,
        flat.subrange(c * n_bins, c * n_bins + n_bins),
        r[c],
    )
}

/// Flux bins are those of the first tally, absorption bins those of the second.
pub proof fn flux_comes_before_absorption(
    res: &MultiCellResult,
    flux: &[Real],
    absorption: &[Real],
)
    requires
        res.tally_outputs@.len() > 1,
        call_ensures(MultiCellResult::flux_per_cell_energy, (res,), flux),
        call_ensures(MultiCellResult::absorption_per_cell_energy, (res,), absorption),
    ensures
        flux@ == res.tally_outputs@[0]@,
        absorption@ == res.tally_outputs@[1]@,
{
}

} // verus!
