//! Checks of tables that come from outside: whether they are laid out as their
//! readers expect.
use crate::bvh::Bvh;
use crate::cyl::CylShape;
use crate::ieee::{strictly_increasing, Real};
use crate::layout::{CELL_NOT_FOUND, MESH_NONE, NOT_IN_TALLY};
use crate::tally::TalliesPack;
use vstd::prelude::*;

verus! {

proof fn lemma_neighbours_suffice(s: Seq<Real>)
    requires
        s.len() >= 2,
        forall|x: int| 0 <= x < s.len() - 1 ==> (#[trigger] s[x]).lt(s[x + 1]),
    ensures
        strictly_increasing(s),
    decreases s.len(),
{
    let last = s.len() - 1;
    assert(s[last - 1].lt(s[last]));
    if s.len() > 2 {
        let rest = s.drop_last();
        assert forall|x: int| 0 <= x < rest.len() - 1 implies (#[trigger] rest[x]).lt(
            rest[x + 1],
        ) by {
            assert(s[x].lt(s[x + 1]));
        }
        lemma_neighbours_suffice(rest);
        assert forall|i: int, j: int| 0 <= i < j < s.len() implies (#[trigger] s[i]).key() < (
        #[trigger] s[j]).key() by {
            if j < last {
                assert(rest[i].key() < rest[j].key());
            } else if i < last - 1 {
                assert(rest[i].key() < rest[last - 1].key());
            }
        }
        assert forall|i: int| 0 <= i < s.len() implies !(#[trigger] s[i]).is_nan_spec() by {
            if i < last {
                assert(!rest[i].is_nan_spec());
            }
        }
    }
}

/// The `n` values from `from` on are strictly increasing numbers.
pub fn is_strictly_increasing(values: &[Real], from: usize, n: usize) -> (r: bool)
    requires
        n >= 2,
        from + n <= values.len(),
    ensures
        r == strictly_increasing(values@.subrange(from as int, from + n)),
{
    let ghost s = values@.subrange(from as int, from + n);
    let mut i: usize = 0;
    while i < n - 1
        invariant
            i <= n - 1,
            n >= 2,
            from + n <= values.len(),
            s == values@.subrange(from as int, from + n),
            forall|x: int| 0 <= x < i ==> (#[trigger] s[x]).lt(s[x + 1]),
        decreases n - i,
    {
        assert(s[i as int] == values@[from + i] && s[i + 1] == values@[from + i + 1]);
        if !values[from + i].is_lt(values[from + i + 1]) {
            assert(!(s[i as int].key() < s[i + 1].key()) || s[i as int].is_nan_spec() || s[i
                + 1].is_nan_spec());
            return false;
        }
        i = i + 1;
    }
    proof {
        lemma_neighbours_suffice(s);
    }
    true
}

/// Every entry of a list is below `bound`.
fn all_below(list: &[u32], bound: usize) -> (r: bool)
    ensures
        r == forall|i: int| 0 <= i < list.len() ==> #[trigger] list@[i] < bound,
{
    let mut i: usize = 0;
    while i < list.len()
        invariant
            i <= list.len(),
            forall|k: int| 0 <= k < i ==> #[trigger] list@[k] < bound,
        decreases list.len() - i,
    {
        if list[i] as u64 >= bound as u64 {
            return false;
        }
        i = i + 1;
    }
    true
}

impl Bvh {
    /// Whether the buffers fit together.
    pub fn is_wf(&self) -> (r: bool)
        ensures
            r == self.wf(),
    {
        let n: usize = self.aabbs.len() / 6;
        let n_cells: usize = self.cell_aabbs.len() / 6;
        assert(n == self.n_nodes() && n_cells == self.n_cells());
        if self.meta.len() / 3 != n || self.meta.len() % 3 != 0 {
            return false;
        }
        assert(self.meta@.len() == n * 3);
        if n_cells as u64 >= CELL_NOT_FOUND as u64 {
            return false;
        }
        if !all_below(self.prims.as_slice(), n_cells) || !all_below(
            self.unbounded.as_slice(),
            n_cells,
        ) {
            return false;
        }
        assert(forall|i: int|
            0 <= i < self.prims@.len() ==> #[trigger] self.prims@[i] < self.n_cells());
        assert(forall|i: int|
            0 <= i < self.unbounded@.len() ==> #[trigger] self.unbounded@[i] < self.n_cells());
        let mut b: usize = 0;
        while b < n
            invariant
                b <= n,
                n == self.n_nodes(),
                self.meta@.len() == n * 3,
                self.meta.len() == self.meta@.len(),
                forall|k: int|
                    0 <= k < b ==> k < #[trigger] self.escape(k) && self.first(k) + self.count(k)
                        <= self.prims@.len(),
            decreases n - b,
        {
            let first: u64 = self.meta[b * 3] as u64;
            let count: u64 = self.meta[b * 3 + 1] as u64;
            let escape: u64 = self.meta[b * 3 + 2] as u64;
            assert(self.escape(b as int) == escape);
            if escape <= b as u64 || first + count > self.prims.len() as u64 {
                return false;
            }
            b = b + 1;
        }
        true
    }
}

impl CylShape {
    /// Whether the tables lie inside the parameters and are strictly increasing.
    pub fn is_wf(&self, params: &[Real]) -> (r: bool)
        ensures
            r == self.wf(params@),
    {
        if self.nr < 1 || self.nphi < 1 || self.nz < 1 {
            return false;
        }
        let voxels: Option<u32> = match self.nr.checked_mul(self.nphi) {
            Some(layer) => layer.checked_mul(self.nz),
            None => None,
        };
        if voxels.is_none() {
            proof {
                let layer = self.nr * self.nphi;
                let nz = self.nz as int;
                assert(layer * nz >= layer) by (nonlinear_arith)
                    requires
                        nz >= 1,
                        layer >= 0,
                ;
            }
            return false;
        }
        let nr: u64 = self.nr as u64;
        let nphi: u64 = self.nphi as u64;
        let nz: u64 = self.nz as u64;
        if self.rsq_off as u128 != self.r_off as u128 + nr as u128 + 1 || self.phi_off as u128
            != self.rsq_off as u128 + nr as u128 + 1 || self.z_off as u128 != self.phi_off as u128
            + nphi as u128 + 1 || self.z_off as u128 + nz as u128 + 1 > params.len() as u128 {
            return false;
        }
        is_strictly_increasing(params, self.r_off, self.nr as usize + 1) && is_strictly_increasing(
            params,
            self.phi_off,
            self.nphi as usize + 1,
        ) && is_strictly_increasing(params, self.z_off, self.nz as usize + 1)
    }
}

impl TalliesPack {
    /// Whether the cell bins of tally `t` are its own.
    fn cell_bins_fit(&self, n_cells: usize, t: usize) -> (r: bool)
        requires
            t < self.n(),
            self.cell_to_bin@.len() == self.n() * n_cells,
            self.n_cells_per_tally@.len() == self.n(),
        ensures
            r == forall|c: int|
                0 <= c < n_cells ==> {
                    let bin = #[trigger] self.cell_to_bin@[t * n_cells + c];
                    bin == NOT_IN_TALLY || bin < self.n_cells_per_tally@[t as int]
                },
    {
        let mut c: usize = 0;
        while c < n_cells
            invariant
                c <= n_cells,
                t < self.n(),
                self.cell_to_bin@.len() == self.n() * n_cells,
                self.cell_to_bin.len() == self.cell_to_bin@.len(),
                self.n_cells_per_tally@.len() == self.n(),
                forall|k: int|
                    0 <= k < c ==> {
                        let bin = #[trigger] self.cell_to_bin@[t * n_cells + k];
                        bin == NOT_IN_TALLY || bin < self.n_cells_per_tally@[t as int]
                    },
            decreases n_cells - c,
        {
            proof {
                let n = self.n() as int;
                let w = n_cells as int;
                assert(0 <= t * w && t * w + c < n * w) by (nonlinear_arith)
                    requires
                        0 <= t < n,
                        0 <= c < w,
                ;
            }
            let bin: u32 = self.cell_to_bin[t * n_cells + c];
            assert(bin == self.cell_to_bin@[t * n_cells + c]);
            if bin != NOT_IN_TALLY && bin >= self.n_cells_per_tally[t] {
                return false;
            }
            c = c + 1;
        }
        true
    }

    /// Whether the energy function of tally `t` lies inside its table.
    fn efunc_fits(&self, t: usize) -> (r: bool)
        requires
            t < self.n(),
            self.efunc_offsets@.len() == self.n() + 1,
        ensures
            r == (self.has_efunc(t as int) ==> {
                &&& self.efunc_offsets@[t as int] < self.efunc_params@.len()
                &&& self.n_knots(t as int) >= 2
                &&& self.efunc_offsets@[t as int] + 1 + self.n_knots(t as int) + 4 * (self.n_knots(
                    t as int,
                ) - 1) <= self.efunc_params@.len()
                &&& strictly_increasing(self.knots(t as int))
            }),
    {
        assert(self.efunc_offsets.len() == self.efunc_offsets@.len());
        let lo: u32 = self.efunc_offsets[t];
        if lo >= self.efunc_offsets[t + 1] {
            return true;
        }
        assert(self.has_efunc(t as int));
        assert(self.efunc_params.len() == self.efunc_params@.len());
        if lo as u64 >= self.efunc_params.len() as u64 {
            return false;
        }
        let n: u32 = self.efunc_params[lo as usize].to_u32();
        assert(n == self.n_knots(t as int));
        if n < 2 {
            return false;
        }
        if lo as u64 + 1 + n as u64 + 4 * (n as u64 - 1) > self.efunc_params.len() as u64 {
            return false;
        }
        is_strictly_increasing(self.efunc_params.as_slice(), lo as usize + 1, n as usize)
    }

    /// Whether the tables of tally `t` lie inside the flat arrays.
    fn tally_is_wf(&self, n_cells: usize, t: usize) -> (r: bool)
        requires
            t < self.n(),
            self.cell_to_bin@.len() == self.n() * n_cells,
            self.n_cells_per_tally@.len() == self.n(),
            self.edges_offsets@.len() == self.n(),
            self.n_bins_per_tally@.len() == self.n(),
            self.out_offsets@.len() == self.n() + 1,
            self.n_mesh_per_tally@.len() == self.n(),
            self.mesh_kind@.len() == self.n(),
            self.efunc_offsets@.len() == self.n() + 1,
        ensures
            r == self.tally_wf(n_cells as nat, t as int),
    {
        let n_bins: u32 = self.n_bins_per_tally[t];
        let n_mesh: u32 = self.n_mesh_per_tally[t];
        let cells: u32 = self.n_cells_per_tally[t];
        let edges: u32 = self.edges_offsets[t];
        if n_bins < 1 || n_mesh < 1 || (self.mesh_kind[t] == MESH_NONE && n_mesh != 1) {
            return false;
        }
        assert(self.log_edges.len() == self.log_edges@.len());
        if edges as u64 + n_bins as u64 + 1 > self.log_edges.len() as u64 {
            return false;
        }
        if !is_strictly_increasing(
            self.log_edges.as_slice(),
            edges as usize,
            n_bins as usize + 1,
        ) {
            return false;
        }
        proof {
            let a = cells as int;
            let b = n_bins as int;
            let c = n_mesh as int;
            assert(0 <= a * b <= 0xffff_ffff * 0xffff_ffff) by (nonlinear_arith)
                requires
                    0 <= a <= 0xffff_ffff,
                    0 <= b <= 0xffff_ffff,
            ;
            let ab = a * b;
            assert(0 <= ab * c <= 0xffff_ffff * 0xffff_ffff * 0xffff_ffff) by (nonlinear_arith)
                requires
                    0 <= ab <= 0xffff_ffff * 0xffff_ffff,
                    0 <= c <= 0xffff_ffff,
            ;
        }
        assert(self.out_offsets.len() == self.out_offsets@.len());
        let slots: u128 = cells as u128 * n_bins as u128 * n_mesh as u128;
        if self.out_offsets[t] as u128 + slots != self.out_offsets[t + 1] as u128 {
            return false;
        }
        self.cell_bins_fit(n_cells, t) && self.efunc_fits(t)
    }

    /// Whether all tables of the pack lie inside the flat arrays, for a geometry
    /// of `n_cells` cells.
    pub fn is_wf(&self, n_cells: usize) -> (r: bool)
        ensures
            r == self.wf(n_cells as nat),
    {
        let n: usize = self.score_kinds.len();
        if n as u64 > u32::MAX as u64 {
            return false;
        }
        if self.score_data.len() != n || self.score_mt.len() != n || self.is_collision.len() != n
            || self.n_cells_per_tally.len() != n || self.edges_offsets.len() != n
            || self.n_bins_per_tally.len() != n || self.n_mesh_per_tally.len() != n
            || self.mesh_kind.len() != n || self.out_offsets.len() as u64 != n as u64 + 1
            || self.efunc_offsets.len() as u64 != n as u64 + 1 {
            return false;
        }
        match n.checked_mul(n_cells) {
            Some(bins) => {
                if self.cell_to_bin.len() != bins {
                    return false;
                }
            },
            None => {
                assert(self.cell_to_bin.len() == self.cell_to_bin@.len());
                return false;
            },
        }
        assert(self.cell_to_bin@.len() == self.n() * n_cells);
        let mut t: usize = 0;
        while t < n
            invariant
                t <= n,
                n == self.n(),
                self.cell_to_bin@.len() == self.n() * n_cells,
                self.n_cells_per_tally@.len() == self.n(),
                self.edges_offsets@.len() == self.n(),
                self.n_bins_per_tally@.len() == self.n(),
                self.out_offsets@.len() == self.n() + 1,
                self.n_mesh_per_tally@.len() == self.n(),
                self.mesh_kind@.len() == self.n(),
                self.efunc_offsets@.len() == self.n() + 1,
                forall|k: int| 0 <= k < t ==> #[trigger] self.tally_wf(n_cells as nat, k),
            decreases n - t,
        {
            if !self.tally_is_wf(n_cells, t) {
                assert(!self.tally_wf(n_cells as nat, t as int));
                return false;
            }
            t = t + 1;
        }
        true
    }
}

} // verus!
