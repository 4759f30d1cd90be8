//! Resonance bands: where a nuclide's cross sections are sampled from a
//! probability table.
use crate::ieee::Real;
use crate::layout::{COL_URR_N_ENERGIES, COL_URR_PRESENT, URR_META_COLS};
use crate::lookup::NuclideRun;
use vstd::prelude::*;

verus! {

/// Probability tables of all nuclide slabs.
pub struct BandTables<'a> {
    /// Per slab: whether it has a table, and the table's number of energies.
    pub meta: &'a [u32],
    /// First energy of each slab's table.
    pub ae_offset: &'a [u32],
    pub energy_grid: &'a [Real],
}

impl<'a> BandTables<'a> {
    pub open spec fn present(self, slab: int) -> bool {
        self.meta@[slab * URR_META_COLS + COL_URR_PRESENT] == 1
    }

    pub open spec fn n_energies(self, slab: int) -> int {
        self.meta@[slab * URR_META_COLS + COL_URR_N_ENERGIES] as int
    }

    /// The tables of the slabs `0 .. n` lie inside the energies.
    pub open spec fn wf(self, n: int) -> bool {
        &&& n * URR_META_COLS <= self.meta.len()
        &&& n <= self.ae_offset.len()
        &&& forall|s: int|
            0 <= s < n && #[trigger] self.present(s) ==> self.ae_offset@[s] + self.n_energies(s)
                <= self.energy_grid.len()
    }

    /// The slab is sampled at an energy: it has a table of at least two energies,
    /// and the energy lies strictly between its ends.
    pub open spec fn samples(self, slab: int, energy: Real) -> bool {
        let first = self.ae_offset@[slab] as int;
        let n = self.n_energies(slab);
        &&& self.present(slab)
        &&& n >= 2
        &&& self.energy_grid@[first].lt(energy)
        &&& energy.lt(self.energy_grid@[first + n - 1])
    }

    /// Some nuclide of the run is sampled at `energy`.
    pub open spec fn samples_any(self, run: NuclideRun, energy: Real) -> bool {
        exists|s: int|
            run.offset <= s < run.offset + run.count && #[trigger] self.samples(s, energy)
    }

    fn slab_samples(&self, slab: usize, energy: Real) -> (r: bool)
        requires
            self.wf(slab + 1),
        ensures
            r == self.samples(slab as int, energy),
    {
        assert(URR_META_COLS == 8 && COL_URR_PRESENT == 0 && COL_URR_N_ENERGIES == 1);
        assert(slab * URR_META_COLS == slab * 8);
        let row: usize = slab * URR_META_COLS;
        if self.meta[row + COL_URR_PRESENT] != 1 {
            return false;
        }
        assert(self.present(slab as int));
        let n: u32 = self.meta[row + COL_URR_N_ENERGIES];
        if n < 2 {
            return false;
        }
        let first: usize = self.ae_offset[slab] as usize;
        let last: usize = first + (n as usize - 1);
        self.energy_grid[first].is_lt(energy) && energy.is_lt(self.energy_grid[last])
    }

    /// Whether any nuclide of a material is sampled at an energy.
    pub fn any_in_range(&self, run: NuclideRun, energy: Real) -> (r: bool)
        requires
            self.wf(run.offset + run.count),
        ensures
            r == exists|s: int|
                run.offset <= s < run.offset + run.count && #[trigger] self.samples(s, energy),
            r == self.samples_any(run, energy),
    {
        let mut k: usize = 0;
        while k < run.count
            invariant
                k <= run.count,
                self.wf(run.offset + run.count),
                forall|s: int|
                    run.offset <= s < run.offset + k ==> !#[trigger] self.samples(s, energy),
            decreases run.count - k,
        {
            assert(self.ae_offset.len() <= usize::MAX);
            proof {
                lemma_fewer_slabs(*self, run.offset + run.count, run.offset + k + 1);
            }
            if self.slab_samples(run.offset + k, energy) {
                assert(self.samples(run.offset + k, energy));
                return true;
            }
            k = k + 1;
        }
        false
    }
}

proof fn lemma_fewer_slabs(t: BandTables, n: int, m: int)
    requires
        t.wf(n),
        0 <= m <= n,
    ensures
        t.wf(m),
{
    assert(m * URR_META_COLS <= n * URR_META_COLS) by (nonlinear_arith)
        requires
            m <= n,
            URR_META_COLS >= 0,
    ;
}

/// A sampled cross section, which a band may push below zero, kept at zero.
pub fn at_least_zero(sigma: Real) -> (r: Real)
    ensures
        r == if sigma.lt(Real { bits: 0 }) {
            Real { bits: 0 }
        } else {
            sigma
        },
{
    if sigma.is_lt(Real::zero()) {
        Real::zero()
    } else {
        sigma
    }
}

/// A band is sampled exactly where some nuclide of the material has one, with at
/// least two energies, and the energy lies strictly between its first and its
/// last.
pub proof fn a_band_is_sampled_between_its_energies(
    t: &BandTables,
    run: NuclideRun,
    energy: Real,
    r: bool,
)
    requires
        t.wf(run.offset + run.count),
        call_ensures(BandTables::any_in_range, (t, run, energy), r),
    ensures
        r <==> exists|s: int|
            {
                let first = #[trigger] t.ae_offset@[s];
                let n = t.meta@[s * 8 + 1];
                &&& run.offset <= s < run.offset + run.count
                &&& t.meta@[s * 8] == 1
                &&& n >= 2
                &&& t.energy_grid@[first as int].lt(energy)
                &&& energy.lt(t.energy_grid@[first + n - 1])
            },
{
    if r {
        let s = choose|s: int|
            run.offset <= s < run.offset + run.count && #[trigger] t.samples(s, energy);
        assert(t.samples(s, energy));
        let first = t.ae_offset@[s];
    } else {
        assert forall|s: int| run.offset <= s < run.offset + run.count implies !{
            let first = #[trigger] t.ae_offset@[s];
            let n = t.meta@[s * 8 + 1];
            &&& t.meta@[s * 8] == 1
            &&& n >= 2
            &&& t.energy_grid@[first as int].lt(energy)
            &&& energy.lt(t.energy_grid@[first + n - 1])
        } by {
            assert(!t.samples_any(run, energy));
            assert(!t.samples(s, energy));
        }
    }
}

/// A cross section below zero counts as zero, any other as itself.
pub proof fn cross_sections_are_not_below_zero(sigma: Real, r: Real)
    requires
        call_ensures(at_least_zero, (sigma,), r),
    ensures
        sigma.lt(Real { bits: 0 }) ==> r.bits == 0,
        !sigma.lt(Real { bits: 0 }) ==> r == sigma,
        !sigma.is_nan_spec() ==> (Real { bits: 0 }).le(r),
{
}

} // verus!
