//! Photon-production tables of all materials, packed for the device.
//!
//! The tables of the materials stand one after the other. Indices that pointed
//! within one material's table (reaction rows, continuous slots, first rows and
//! first points) are moved by what stands before it, so that they point into
//! the packed tables directly.
use crate::ieee::Real;
use crate::pack::{append, at_least_one, count_or_one, filled, zeros};
use vstd::prelude::*;

verus! {

/// Photon-production table of one material.
#[derive(Debug, Clone)]
pub struct GpuPhotonProductionXs {
    pub n_grid: usize,
    pub n_product: usize,
    /// Aggregate production cross section per grid point.
    pub photon_prod: Vec<Real>,
    /// Cross-section row of each photon reaction.
    pub rxn_xs: Vec<Real>,
    /// Reaction row of each product.
    pub prod_rxn_idx: Vec<u32>,
    /// Yield of each product per grid point.
    pub prod_yield_grid: Vec<Real>,
    /// Outgoing-energy law of each product.
    pub prod_eout_kind: Vec<u32>,
    /// Line energy of each product.
    pub prod_line_energy: Vec<Real>,
    /// Primary-photon flag of each product.
    pub prod_primary_flag: Vec<i32>,
    /// Mass ratio of each product's target.
    pub prod_awr: Vec<Real>,
    /// Continuous slot of each product, or the mark for none.
    pub prod_dist_slot: Vec<u32>,
    /// Angular rows of each product.
    pub pa_n_energies: Vec<u32>,
    /// First angular row of each product.
    pub pa_ae_offset: Vec<u32>,
    /// First cosine of each angular row.
    pub pa_mu_offset: Vec<u32>,
    pub pa_energy_grid: Vec<Real>,
    pub pa_n_mu: Vec<u32>,
    pub pa_mu: Vec<Real>,
    pub pa_cdf: Vec<Real>,
    pub pa_pdf: Vec<Real>,
    pub pa_interp: Vec<u32>,
    /// First energy row of each continuous slot.
    pub ct_ae_offset: Vec<u32>,
    /// First point of each energy row.
    pub ct_x_offset: Vec<u32>,
    pub ct_energy_grid: Vec<Real>,
    pub ct_n_x: Vec<u32>,
    pub ct_x: Vec<Real>,
    pub ct_cdf: Vec<Real>,
    pub ct_p: Vec<Real>,
    pub ct_interp: Vec<u32>,
    pub ct_n_discrete: Vec<u32>,
    /// Energy rows of each continuous slot.
    pub ct_n_eout: Vec<u32>,
    /// Histogram flag of each continuous slot.
    pub ct_hist: Vec<u32>,
}

/// Photon-production buffers of a launch.
#[derive(Debug, Clone)]
pub struct CoupledPhotonInputs {
    /// `1` where secondary photons are emitted, `0` where not.
    pub coupled_enabled: Vec<u32>,
    pub photon_prod: Vec<Real>,
    pub rxn_xs: Vec<Real>,
    pub prod_rxn_idx: Vec<u32>,
    pub prod_yield_grid: Vec<Real>,
    pub prod_eout_kind: Vec<u32>,
    pub prod_line_energy: Vec<Real>,
    pub prod_primary_flag: Vec<i32>,
    pub prod_awr: Vec<Real>,
    pub prod_dist_slot: Vec<u32>,
    pub pa_n_energies: Vec<u32>,
    pub pa_ae_offset: Vec<u32>,
    pub pa_mu_offset: Vec<u32>,
    pub pa_energy_grid: Vec<Real>,
    pub pa_n_mu: Vec<u32>,
    pub pa_mu: Vec<Real>,
    pub pa_cdf: Vec<Real>,
    pub pa_pdf: Vec<Real>,
    pub pa_interp: Vec<u32>,
    pub ct_ae_offset: Vec<u32>,
    pub ct_x_offset: Vec<u32>,
    pub ct_energy_grid: Vec<Real>,
    pub ct_n_x: Vec<u32>,
    pub ct_x: Vec<Real>,
    pub ct_cdf: Vec<Real>,
    pub ct_p: Vec<Real>,
    pub ct_interp: Vec<u32>,
    pub ct_n_discrete: Vec<u32>,
    pub ct_n_eout: Vec<u32>,
    pub ct_hist: Vec<u32>,
    /// Products of each material.
    pub n_product_per_material: Vec<u32>,
    /// First product of each material.
    pub prod_base_per_material: Vec<u32>,
    /// Start of each material's aggregate row.
    pub pp_base_per_material: Vec<u32>,
}

/// Packed photon-production tables, as mathematical values.
#[verifier::ext_equal]
pub struct PhotonTables {
    pub photon_prod: Seq<Real>,
    pub rxn_xs: Seq<Real>,
    pub prod_rxn_idx: Seq<u32>,
    pub prod_yield_grid: Seq<Real>,
    pub prod_eout_kind: Seq<u32>,
    pub prod_line_energy: Seq<Real>,
    pub prod_primary_flag: Seq<i32>,
    pub prod_awr: Seq<Real>,
    pub prod_dist_slot: Seq<u32>,
    pub pa_n_energies: Seq<u32>,
    pub pa_ae_offset: Seq<u32>,
    pub pa_mu_offset: Seq<u32>,
    pub pa_energy_grid: Seq<Real>,
    pub pa_n_mu: Seq<u32>,
    pub pa_mu: Seq<Real>,
    pub pa_cdf: Seq<Real>,
    pub pa_pdf: Seq<Real>,
    pub pa_interp: Seq<u32>,
    pub ct_ae_offset: Seq<u32>,
    pub ct_x_offset: Seq<u32>,
    pub ct_energy_grid: Seq<Real>,
    pub ct_n_x: Seq<u32>,
    pub ct_x: Seq<Real>,
    pub ct_cdf: Seq<Real>,
    pub ct_p: Seq<Real>,
    pub ct_interp: Seq<u32>,
    pub ct_n_discrete: Seq<u32>,
    pub ct_n_eout: Seq<u32>,
    pub ct_hist: Seq<u32>,
    pub n_product_per_material: Seq<u32>,
    pub prod_base_per_material: Seq<u32>,
    pub pp_base_per_material: Seq<u32>,
}

/// Indices moved up by `base`.
pub open spec fn moved(s: Seq<u32>, base: int) -> Seq<u32> {
    s.map_values(|x: u32| (x + base) as u32)
}

/// Indices moved up by `base`, but for those that are `none`.
pub open spec fn moved_slots(s: Seq<u32>, base: int, none: u32) -> Seq<u32> {
    s.map_values(
        |x: u32|
            if x == none {
                x
            } else {
                (x + base) as u32
            },
    )
}

/// The indices can be moved up by `base`.
pub open spec fn movable(s: Seq<u32>, base: int) -> bool {
    forall|i: int| 0 <= i < s.len() ==> (#[trigger] s[i]) + base <= u32::MAX
}

pub open spec fn movable_slots(s: Seq<u32>, base: int, none: u32) -> bool {
    forall|i: int| 0 <= i < s.len() ==> (#[trigger] s[i]) == none || s[i] + base <= u32::MAX
}

impl PhotonTables {
    pub open spec fn empty() -> PhotonTables {
        PhotonTables {
            photon_prod: Seq::empty(),
            rxn_xs: Seq::empty(),
            prod_rxn_idx: Seq::empty(),
            prod_yield_grid: Seq::empty(),
            prod_eout_kind: Seq::empty(),
            prod_line_energy: Seq::empty(),
            prod_primary_flag: Seq::empty(),
            prod_awr: Seq::empty(),
            prod_dist_slot: Seq::empty(),
            pa_n_energies: Seq::empty(),
            pa_ae_offset: Seq::empty(),
            pa_mu_offset: Seq::empty(),
            pa_energy_grid: Seq::empty(),
            pa_n_mu: Seq::empty(),
            pa_mu: Seq::empty(),
            pa_cdf: Seq::empty(),
            pa_pdf: Seq::empty(),
            pa_interp: Seq::empty(),
            ct_ae_offset: Seq::empty(),
            ct_x_offset: Seq::empty(),
            ct_energy_grid: Seq::empty(),
            ct_n_x: Seq::empty(),
            ct_x: Seq::empty(),
            ct_cdf: Seq::empty(),
            ct_p: Seq::empty(),
            ct_interp: Seq::empty(),
            ct_n_discrete: Seq::empty(),
            ct_n_eout: Seq::empty(),
            ct_hist: Seq::empty(),
            n_product_per_material: Seq::empty(),
            prod_base_per_material: Seq::empty(),
            pp_base_per_material: Seq::empty(),
        }
    }

    /// Reaction rows of `n_grid` points each.
    pub open spec fn rxn_rows(self, n_grid: nat) -> int {
        (self.rxn_xs.len() / n_grid) as int
    }

    /// The tables with one material's behind them.
    pub open spec fn with(self, t: GpuPhotonProductionXs, none: u32) -> PhotonTables {
        PhotonTables {
            photon_prod: self.photon_prod + t.photon_prod@,
            rxn_xs: self.rxn_xs + t.rxn_xs@,
            prod_rxn_idx: self.prod_rxn_idx + moved(t.prod_rxn_idx@, self.rxn_rows(t.n_grid as nat)),
            prod_yield_grid: self.prod_yield_grid + t.prod_yield_grid@,
            prod_eout_kind: self.prod_eout_kind + t.prod_eout_kind@,
            prod_line_energy: self.prod_line_energy + t.prod_line_energy@,
            prod_primary_flag: self.prod_primary_flag + t.prod_primary_flag@,
            prod_awr: self.prod_awr + t.prod_awr@,
            prod_dist_slot: self.prod_dist_slot + moved_slots(t.prod_dist_slot@, self.ct_n_eout.len() as int, none),
            pa_n_energies: self.pa_n_energies + t.pa_n_energies@,
            pa_ae_offset: self.pa_ae_offset + moved(t.pa_ae_offset@, self.pa_n_mu.len() as int),
            pa_mu_offset: self.pa_mu_offset + moved(t.pa_mu_offset@, self.pa_mu.len() as int),
            pa_energy_grid: self.pa_energy_grid + t.pa_energy_grid@,
            pa_n_mu: self.pa_n_mu + t.pa_n_mu@,
            pa_mu: self.pa_mu + t.pa_mu@,
            pa_cdf: self.pa_cdf + t.pa_cdf@,
            pa_pdf: self.pa_pdf + t.pa_pdf@,
            pa_interp: self.pa_interp + t.pa_interp@,
            ct_ae_offset: self.ct_ae_offset + moved(t.ct_ae_offset@, self.ct_n_x.len() as int),
            ct_x_offset: self.ct_x_offset + moved(t.ct_x_offset@, self.ct_x.len() as int),
            ct_energy_grid: self.ct_energy_grid + t.ct_energy_grid@,
            ct_n_x: self.ct_n_x + t.ct_n_x@,
            ct_x: self.ct_x + t.ct_x@,
            ct_cdf: self.ct_cdf + t.ct_cdf@,
            ct_p: self.ct_p + t.ct_p@,
            ct_interp: self.ct_interp + t.ct_interp@,
            ct_n_discrete: self.ct_n_discrete + t.ct_n_discrete@,
            ct_n_eout: self.ct_n_eout + t.ct_n_eout@,
            ct_hist: self.ct_hist + t.ct_hist@,
            n_product_per_material: self.n_product_per_material.push(t.n_product as u32),
            prod_base_per_material: self.prod_base_per_material.push(
                self.prod_eout_kind.len() as u32,
            ),
            pp_base_per_material: self.pp_base_per_material.push(self.photon_prod.len() as u32),
        }
    }

    /// One material's indices fit in 32 bits behind these tables.
    pub open spec fn has_room(self, t: GpuPhotonProductionXs, none: u32) -> bool {
        &&& t.n_product <= u32::MAX
        &&& self.prod_eout_kind.len() <= u32::MAX
        &&& self.photon_prod.len() <= u32::MAX
        &&& self.rxn_rows(t.n_grid as nat) <= u32::MAX
        &&& self.ct_n_eout.len() <= u32::MAX
        &&& self.pa_n_mu.len() <= u32::MAX
        &&& self.pa_mu.len() <= u32::MAX
        &&& self.ct_n_x.len() <= u32::MAX
        &&& self.ct_x.len() <= u32::MAX
        &&& movable(t.prod_rxn_idx@, self.rxn_rows(t.n_grid as nat))
        &&& movable_slots(t.prod_dist_slot@, self.ct_n_eout.len() as int, none)
        &&& movable(t.pa_ae_offset@, self.pa_n_mu.len() as int)
        &&& movable(t.pa_mu_offset@, self.pa_mu.len() as int)
        &&& movable(t.ct_ae_offset@, self.ct_n_x.len() as int)
        &&& movable(t.ct_x_offset@, self.ct_x.len() as int)
    }
}

/// The tables of all materials.
pub open spec fn packed(tables: Seq<GpuPhotonProductionXs>, none: u32) -> PhotonTables
    decreases tables.len(),
{
    if tables.len() == 0 {
        PhotonTables::empty()
    } else {
        packed(tables.drop_last(), none).with(tables.last(), none)
    }
}

impl View for CoupledPhotonInputs {
    type V = PhotonTables;

    open spec fn view(&self) -> PhotonTables {
        PhotonTables {
            photon_prod: self.photon_prod@,
            rxn_xs: self.rxn_xs@,
            prod_rxn_idx: self.prod_rxn_idx@,
            prod_yield_grid: self.prod_yield_grid@,
            prod_eout_kind: self.prod_eout_kind@,
            prod_line_energy: self.prod_line_energy@,
            prod_primary_flag: self.prod_primary_flag@,
            prod_awr: self.prod_awr@,
            prod_dist_slot: self.prod_dist_slot@,
            pa_n_energies: self.pa_n_energies@,
            pa_ae_offset: self.pa_ae_offset@,
            pa_mu_offset: self.pa_mu_offset@,
            pa_energy_grid: self.pa_energy_grid@,
            pa_n_mu: self.pa_n_mu@,
            pa_mu: self.pa_mu@,
            pa_cdf: self.pa_cdf@,
            pa_pdf: self.pa_pdf@,
            pa_interp: self.pa_interp@,
            ct_ae_offset: self.ct_ae_offset@,
            ct_x_offset: self.ct_x_offset@,
            ct_energy_grid: self.ct_energy_grid@,
            ct_n_x: self.ct_n_x@,
            ct_x: self.ct_x@,
            ct_cdf: self.ct_cdf@,
            ct_p: self.ct_p@,
            ct_interp: self.ct_interp@,
            ct_n_discrete: self.ct_n_discrete@,
            ct_n_eout: self.ct_n_eout@,
            ct_hist: self.ct_hist@,
            n_product_per_material: self.n_product_per_material@,
            prod_base_per_material: self.prod_base_per_material@,
            pp_base_per_material: self.pp_base_per_material@,
        }
    }
}

fn append_moved(out: &mut Vec<u32>, s: &[u32], base: u32)
    requires
        movable(s@, base as int),
    ensures
        final(out)@ == old(out)@ + moved(s@, base as int),
{
    let ghost before = out@;
    let mut i: usize = 0;
    while i < s.len()
        invariant
            i <= s.len(),
            movable(s@, base as int),
            out@ == before + moved(s@.subrange(0, i as int), base as int),
        decreases s.len() - i,
    {
        assert(s@[i as int] + base <= u32::MAX);
        out.push(s[i] + base);
        i = i + 1;
        assert(out@ =~= before + moved(s@.subrange(0, i as int), base as int));
    }
    assert(s@.subrange(0, i as int) =~= s@);
}

fn append_moved_slots(out: &mut Vec<u32>, s: &[u32], base: u32, none: u32)
    requires
        movable_slots(s@, base as int, none),
    ensures
        final(out)@ == old(out)@ + moved_slots(s@, base as int, none),
{
    let ghost before = out@;
    let mut i: usize = 0;
    while i < s.len()
        invariant
            i <= s.len(),
            movable_slots(s@, base as int, none),
            out@ == before + moved_slots(s@.subrange(0, i as int), base as int, none),
        decreases s.len() - i,
    {
        assert(s@[i as int] == none || s@[i as int] + base <= u32::MAX);
        if s[i] == none {
            out.push(s[i]);
        } else {
            out.push(s[i] + base);
        }
        i = i + 1;
        assert(out@ =~= before + moved_slots(s@.subrange(0, i as int), base as int, none));
    }
    assert(s@.subrange(0, i as int) =~= s@);
}

/// The tables of a launch that emits no photons: one product without rows, and
/// one continuous slot with a single row and point, shared by all materials.
pub open spec fn blank(n_materials: usize, n_grid: usize) -> PhotonTables {
    let row = zeros(count_or_one(n_grid));
    let mats = count_or_one(n_materials);
    PhotonTables {
        photon_prod: row,
        rxn_xs: row,
        prod_rxn_idx: seq![0u32],
        prod_yield_grid: row,
        prod_eout_kind: seq![0u32],
        prod_line_energy: zeros(1),
        prod_primary_flag: seq![0i32],
        prod_awr: zeros(1),
        prod_dist_slot: seq![0u32],
        pa_n_energies: seq![0u32],
        pa_ae_offset: seq![0u32],
        pa_mu_offset: Seq::empty(),
        pa_energy_grid: Seq::empty(),
        pa_n_mu: Seq::empty(),
        pa_mu: Seq::empty(),
        pa_cdf: Seq::empty(),
        pa_pdf: Seq::empty(),
        pa_interp: Seq::empty(),
        ct_ae_offset: seq![0u32],
        ct_x_offset: seq![0u32],
        ct_energy_grid: zeros(1),
        ct_n_x: seq![0u32],
        ct_x: zeros(1),
        ct_cdf: zeros(1),
        ct_p: zeros(1),
        ct_interp: seq![0u32],
        ct_n_discrete: seq![0u32],
        ct_n_eout: seq![0u32],
        ct_hist: seq![0u32],
        n_product_per_material: Seq::new(mats, |m: int| 1u32),
        prod_base_per_material: Seq::new(mats, |m: int| 0u32),
        pp_base_per_material: Seq::new(mats, |m: int| 0u32),
    }
}

impl CoupledPhotonInputs {
    /// Buffers of a launch that emits no secondary photons.
    pub fn coupled_off(n_materials: usize, n_grid: usize) -> (r: CoupledPhotonInputs)
        ensures
            r.coupled_enabled@ == seq![0u32],
            r@ == blank(n_materials, n_grid),
    {
        let row: usize = at_least_one(n_grid);
        let mats: usize = at_least_one(n_materials);
        let r = CoupledPhotonInputs {
            coupled_enabled: filled(1, 0u32),
            photon_prod: filled(row, Real::zero()),
            rxn_xs: filled(row, Real::zero()),
            prod_rxn_idx: filled(1, 0u32),
            prod_yield_grid: filled(row, Real::zero()),
            prod_eout_kind: filled(1, 0u32),
            prod_line_energy: filled(1, Real::zero()),
            prod_primary_flag: filled(1, 0i32),
            prod_awr: filled(1, Real::zero()),
            prod_dist_slot: filled(1, 0u32),
            pa_n_energies: filled(1, 0u32),
            pa_ae_offset: filled(1, 0u32),
            pa_mu_offset: Vec::new(),
            pa_energy_grid: Vec::new(),
            pa_n_mu: Vec::new(),
            pa_mu: Vec::new(),
            pa_cdf: Vec::new(),
            pa_pdf: Vec::new(),
            pa_interp: Vec::new(),
            ct_ae_offset: filled(1, 0u32),
            ct_x_offset: filled(1, 0u32),
            ct_energy_grid: filled(1, Real::zero()),
            ct_n_x: filled(1, 0u32),
            ct_x: filled(1, Real::zero()),
            ct_cdf: filled(1, Real::zero()),
            ct_p: filled(1, Real::zero()),
            ct_interp: filled(1, 0u32),
            ct_n_discrete: filled(1, 0u32),
            ct_n_eout: filled(1, 0u32),
            ct_hist: filled(1, 0u32),
            n_product_per_material: filled(mats, 1u32),
            prod_base_per_material: filled(mats, 0u32),
            pp_base_per_material: filled(mats, 0u32),
        };
        assert(r@ =~= blank(n_materials, n_grid));
        r
    }

    /// Appends one material's tables.
    fn append_material(&mut self, t: &GpuPhotonProductionXs, none: u32)
        requires
            t.n_grid > 0,
            old(self)@.has_room(*t, none),
        ensures
            final(self)@ == old(self)@.with(*t, none),
            final(self).coupled_enabled == old(self).coupled_enabled,
    {
        let ghost before = self@;
        let prod_base: u32 = self.prod_eout_kind.len() as u32;
        let rxn_row_base: u32 = (self.rxn_xs.len() / t.n_grid) as u32;
        let pp_base: u32 = self.photon_prod.len() as u32;
        let slot_base: u32 = self.ct_n_eout.len() as u32;
        let pa_row_base: u32 = self.pa_n_mu.len() as u32;
        let pa_mu_base: u32 = self.pa_mu.len() as u32;
        let ct_row_base: u32 = self.ct_n_x.len() as u32;
        let ct_x_base: u32 = self.ct_x.len() as u32;
        self.n_product_per_material.push(t.n_product as u32);
        self.prod_base_per_material.push(prod_base);
        self.pp_base_per_material.push(pp_base);
        append(&mut self.photon_prod, t.photon_prod.as_slice());
        append(&mut self.rxn_xs, t.rxn_xs.as_slice());
        append_moved(&mut self.prod_rxn_idx, t.prod_rxn_idx.as_slice(), rxn_row_base);
        append(&mut self.prod_yield_grid, t.prod_yield_grid.as_slice());
        append(&mut self.prod_eout_kind, t.prod_eout_kind.as_slice());
        append(&mut self.prod_line_energy, t.prod_line_energy.as_slice());
        append(&mut self.prod_primary_flag, t.prod_primary_flag.as_slice());
        append(&mut self.prod_awr, t.prod_awr.as_slice());
        append_moved_slots(&mut self.prod_dist_slot, t.prod_dist_slot.as_slice(), slot_base, none);
        append(&mut self.pa_n_energies, t.pa_n_energies.as_slice());
        append_moved(&mut self.pa_ae_offset, t.pa_ae_offset.as_slice(), pa_row_base);
        append_moved(&mut self.pa_mu_offset, t.pa_mu_offset.as_slice(), pa_mu_base);
        append(&mut self.pa_energy_grid, t.pa_energy_grid.as_slice());
        append(&mut self.pa_n_mu, t.pa_n_mu.as_slice());
        append(&mut self.pa_mu, t.pa_mu.as_slice());
        append(&mut self.pa_cdf, t.pa_cdf.as_slice());
        append(&mut self.pa_pdf, t.pa_pdf.as_slice());
        append(&mut self.pa_interp, t.pa_interp.as_slice());
        append_moved(&mut self.ct_ae_offset, t.ct_ae_offset.as_slice(), ct_row_base);
        append_moved(&mut self.ct_x_offset, t.ct_x_offset.as_slice(), ct_x_base);
        append(&mut self.ct_energy_grid, t.ct_energy_grid.as_slice());
        append(&mut self.ct_n_x, t.ct_n_x.as_slice());
        append(&mut self.ct_x, t.ct_x.as_slice());
        append(&mut self.ct_cdf, t.ct_cdf.as_slice());
        append(&mut self.ct_p, t.ct_p.as_slice());
        append(&mut self.ct_interp, t.ct_interp.as_slice());
        append(&mut self.ct_n_discrete, t.ct_n_discrete.as_slice());
        append(&mut self.ct_n_eout, t.ct_n_eout.as_slice());
        append(&mut self.ct_hist, t.ct_hist.as_slice());
        assert(self@ =~= before.with(*t, none));
    }

    /// Buffers of a launch on the given materials, whose products without a
    /// continuous slot are marked `none`.
    pub fn from_materials(tables: &[GpuPhotonProductionXs], none: u32) -> (r: CoupledPhotonInputs)
        requires
            tables.len() > 0,
            tables@[0].n_grid > 0,
            forall|m: int|
                0 <= m < tables.len() ==> (#[trigger] tables@[m]).n_grid == tables@[0].n_grid,
            forall|m: int|
                0 <= m < tables.len() ==> packed(tables@.take(m), none).has_room(
                    #[trigger] tables@[m],
                    none,
                ),
        ensures
            r.coupled_enabled@ == seq![1u32],
            r@ == packed(tables@, none),
    {
        let mut out = CoupledPhotonInputs {
            coupled_enabled: filled(1, 1u32),
            photon_prod: Vec::new(),
            rxn_xs: Vec::new(),
            prod_rxn_idx: Vec::new(),
            prod_yield_grid: Vec::new(),
            prod_eout_kind: Vec::new(),
            prod_line_energy: Vec::new(),
            prod_primary_flag: Vec::new(),
            prod_awr: Vec::new(),
            prod_dist_slot: Vec::new(),
            pa_n_energies: Vec::new(),
            pa_ae_offset: Vec::new(),
            pa_mu_offset: Vec::new(),
            pa_energy_grid: Vec::new(),
            pa_n_mu: Vec::new(),
            pa_mu: Vec::new(),
            pa_cdf: Vec::new(),
            pa_pdf: Vec::new(),
            pa_interp: Vec::new(),
            ct_ae_offset: Vec::new(),
            ct_x_offset: Vec::new(),
            ct_energy_grid: Vec::new(),
            ct_n_x: Vec::new(),
            ct_x: Vec::new(),
            ct_cdf: Vec::new(),
            ct_p: Vec::new(),
            ct_interp: Vec::new(),
            ct_n_discrete: Vec::new(),
            ct_n_eout: Vec::new(),
            ct_hist: Vec::new(),
            n_product_per_material: Vec::new(),
            prod_base_per_material: Vec::new(),
            pp_base_per_material: Vec::new(),
        };
        assert(out@ =~= packed(tables@.take(0), none));
        let mut m: usize = 0;
        while m < tables.len()
            invariant
                m <= tables.len(),
                tables.len() > 0,
                tables@[0].n_grid > 0,
                forall|m: int|
                    0 <= m < tables.len() ==> (#[trigger] tables@[m]).n_grid == tables@[0].n_grid,
                forall|m: int|
                    0 <= m < tables.len() ==> packed(tables@.take(m), none).has_room(
                        #[trigger] tables@[m],
                        none,
                    ),
                out.coupled_enabled@ == seq![1u32],
                out@ == packed(tables@.take(m as int), none),
            decreases tables.len() - m,
        {
            let t = &tables[m];
            assert(tables@[m as int].n_grid == tables@[0].n_grid);
            out.append_material(t, none);
            m = m + 1;
            assert(tables@.take(m as int).drop_last() =~= tables@.take(m - 1));
            assert(tables@.take(m as int).last() == *t);
        }
        assert(tables@.take(m as int) =~= tables@);
        out
    }
}

/// Contents of the device's particle bank after a launch.
#[derive(Debug, Clone)]
pub struct PhotonBankResult {
    /// Slots reserved, those beyond the capacity too.
    pub count: u64,
    /// Slots reserved beyond the capacity.
    pub overflow: u64,
    pub bank_f64: Vec<Real>,
    pub bank_u32: Vec<u32>,
}

impl Default for PhotonBankResult {
    fn default() -> (r: PhotonBankResult)
        ensures
            r.count == 0,
            r.overflow == 0,
            r.bank_f64@.len() == 0,
            r.bank_u32@.len() == 0,
    {
        PhotonBankResult { count: 0, overflow: 0, bank_f64: Vec::new(), bank_u32: Vec::new() }
    }
}

pub open spec fn prefix<A>(a: Seq<A>, b: Seq<A>) -> bool {
    a.len() <= b.len() && forall|i: int| 0 <= i < a.len() ==> #[trigger] b[i] == a[i]
}

impl PhotonTables {
    /// Every table begins with the other's.
    pub open spec fn extends(self, other: PhotonTables) -> bool {
        &&& prefix(other.photon_prod, self.photon_prod)
        &&& prefix(other.rxn_xs, self.rxn_xs)
        &&& prefix(other.prod_rxn_idx, self.prod_rxn_idx)
        &&& prefix(other.prod_yield_grid, self.prod_yield_grid)
        &&& prefix(other.prod_eout_kind, self.prod_eout_kind)
        &&& prefix(other.prod_line_energy, self.prod_line_energy)
        &&& prefix(other.prod_primary_flag, self.prod_primary_flag)
        &&& prefix(other.prod_awr, self.prod_awr)
        &&& prefix(other.prod_dist_slot, self.prod_dist_slot)
        &&& prefix(other.pa_n_energies, self.pa_n_energies)
        &&& prefix(other.pa_ae_offset, self.pa_ae_offset)
        &&& prefix(other.pa_mu_offset, self.pa_mu_offset)
        &&& prefix(other.pa_energy_grid, self.pa_energy_grid)
        &&& prefix(other.pa_n_mu, self.pa_n_mu)
        &&& prefix(other.pa_mu, self.pa_mu)
        &&& prefix(other.pa_cdf, self.pa_cdf)
        &&& prefix(other.pa_pdf, self.pa_pdf)
        &&& prefix(other.pa_interp, self.pa_interp)
        &&& prefix(other.ct_ae_offset, self.ct_ae_offset)
        &&& prefix(other.ct_x_offset, self.ct_x_offset)
        &&& prefix(other.ct_energy_grid, self.ct_energy_grid)
        &&& prefix(other.ct_n_x, self.ct_n_x)
        &&& prefix(other.ct_x, self.ct_x)
        &&& prefix(other.ct_cdf, self.ct_cdf)
        &&& prefix(other.ct_p, self.ct_p)
        &&& prefix(other.ct_interp, self.ct_interp)
        &&& prefix(other.ct_n_discrete, self.ct_n_discrete)
        &&& prefix(other.ct_n_eout, self.ct_n_eout)
        &&& prefix(other.ct_hist, self.ct_hist)
        &&& prefix(other.n_product_per_material, self.n_product_per_material)
        &&& prefix(other.prod_base_per_material, self.prod_base_per_material)
        &&& prefix(other.pp_base_per_material, self.pp_base_per_material)
    }
}

impl GpuPhotonProductionXs {
    /// Parallel arrays have one length: per product, per angular row and cosine,
    /// per continuous slot, energy row and point.
    pub open spec fn shaped(self) -> bool {
        &&& self.n_grid > 0
        &&& self.rxn_xs@.len() % (self.n_grid as nat) == 0
        &&& self.prod_yield_grid@.len() == self.n_product * self.n_grid
        &&& self.prod_eout_kind@.len() == self.n_product
        &&& self.prod_rxn_idx@.len() == self.n_product
        &&& self.prod_line_energy@.len() == self.n_product
        &&& self.prod_primary_flag@.len() == self.n_product
        &&& self.prod_awr@.len() == self.n_product
        &&& self.prod_dist_slot@.len() == self.n_product
        &&& self.pa_n_energies@.len() == self.n_product
        &&& self.pa_ae_offset@.len() == self.n_product
        &&& self.pa_mu_offset@.len() == self.pa_n_mu@.len()
        &&& self.pa_energy_grid@.len() == self.pa_n_mu@.len()
        &&& self.pa_interp@.len() == self.pa_n_mu@.len()
        &&& self.pa_cdf@.len() == self.pa_mu@.len()
        &&& self.pa_pdf@.len() == self.pa_mu@.len()
        &&& self.ct_ae_offset@.len() == self.ct_n_eout@.len()
        &&& self.ct_hist@.len() == self.ct_n_eout@.len()
        &&& self.ct_x_offset@.len() == self.ct_n_x@.len()
        &&& self.ct_energy_grid@.len() == self.ct_n_x@.len()
        &&& self.ct_interp@.len() == self.ct_n_x@.len()
        &&& self.ct_n_discrete@.len() == self.ct_n_x@.len()
        &&& self.ct_cdf@.len() == self.ct_x@.len()
        &&& self.ct_p@.len() == self.ct_x@.len()
    }
}

/// All tables can be packed, share one grid and have parallel arrays.
pub open spec fn packable(tables: Seq<GpuPhotonProductionXs>, none: u32) -> bool {
    forall|m: int|
        0 <= m < tables.len() ==> {
            &&& (#[trigger] tables[m]).shaped()
            &&& tables[m].n_grid == tables[0].n_grid
            &&& packed(tables.take(m), none).has_room(tables[m], none)
        }
}

impl PhotonTables {
    /// Parallel tables have one length.
    pub open spec fn shaped(self, n_grid: int) -> bool {
        let products = self.prod_eout_kind.len();
        &&& self.rxn_xs.len() == self.rxn_rows(n_grid as nat) * n_grid
        &&& self.prod_yield_grid.len() == products * n_grid
        &&& self.prod_rxn_idx.len() == products
        &&& self.prod_line_energy.len() == products
        &&& self.prod_primary_flag.len() == products
        &&& self.prod_awr.len() == products
        &&& self.prod_dist_slot.len() == products
        &&& self.pa_n_energies.len() == products
        &&& self.pa_ae_offset.len() == products
        &&& self.pa_mu_offset.len() == self.pa_n_mu.len()
        &&& self.pa_energy_grid.len() == self.pa_n_mu.len()
        &&& self.pa_interp.len() == self.pa_n_mu.len()
        &&& self.pa_cdf.len() == self.pa_mu.len()
        &&& self.pa_pdf.len() == self.pa_mu.len()
        &&& self.ct_ae_offset.len() == self.ct_n_eout.len()
        &&& self.ct_hist.len() == self.ct_n_eout.len()
        &&& self.ct_x_offset.len() == self.ct_n_x.len()
        &&& self.ct_energy_grid.len() == self.ct_n_x.len()
        &&& self.ct_interp.len() == self.ct_n_x.len()
        &&& self.ct_n_discrete.len() == self.ct_n_x.len()
        &&& self.ct_cdf.len() == self.ct_x.len()
        &&& self.ct_p.len() == self.ct_x.len()
    }
}

proof fn lemma_packed_is_shaped(tables: Seq<GpuPhotonProductionXs>, none: u32, m: int)
    requires
        packable(tables, none),
        0 <= m <= tables.len(),
        tables.len() > 0,
    ensures
        packed(tables.take(m), none).shaped(tables[0].n_grid as int),
        packed(tables.take(m), none).n_product_per_material.len() == m,
        packed(tables.take(m), none).prod_base_per_material.len() == m,
        packed(tables.take(m), none).pp_base_per_material.len() == m,
    decreases m,
{
    let g = tables[0].n_grid as int;
    assert(tables[0].shaped());
    if m > 0 {
        lemma_packed_is_shaped(tables, none, m - 1);
        let b = packed(tables.take(m - 1), none);
        let t = tables[m - 1];
        assert(t.shaped() && t.n_grid == g);
        assert(tables.take(m).drop_last() =~= tables.take(m - 1));
        let rows = t.rxn_xs@.len() as int / g;
        let before = b.rxn_rows(g as nat);
        let products = b.prod_eout_kind.len() as int;
        vstd::arithmetic::div_mod::lemma_fundamental_div_mod(t.rxn_xs@.len() as int, g);
        assert(t.rxn_xs@.len() == rows * g) by (nonlinear_arith)
            requires
                t.rxn_xs@.len() == g * rows,
        ;
        assert((before + rows) * g == before * g + rows * g) by (nonlinear_arith);
        vstd::arithmetic::div_mod::lemma_div_by_multiple(before + rows, g);
        assert((products + t.n_product) * g == products * g + t.n_product * g) by (nonlinear_arith);
    } else {
        assert(tables.take(0) =~= Seq::empty());
        assert(0 * g == 0) by (nonlinear_arith);
        vstd::arithmetic::div_mod::lemma_div_by_multiple(0, g);
    }
}

proof fn lemma_packed_extends(tables: Seq<GpuPhotonProductionXs>, none: u32, m: int)
    requires
        0 <= m <= tables.len(),
    ensures
        packed(tables, none).extends(packed(tables.take(m), none)),
    decreases tables.len() - m,
{
    if m < tables.len() {
        lemma_packed_extends(tables, none, m + 1);
        assert(tables.take(m + 1).drop_last() =~= tables.take(m));
        assert(packed(tables.take(m + 1), none).extends(packed(tables.take(m), none)));
    } else {
        assert(tables.take(m) =~= tables);
    }
}

/// The packed tables begin with those of the first `m` materials, followed by
/// material `m`'s own.
proof fn lemma_material_in_place(tables: Seq<GpuPhotonProductionXs>, none: u32, m: int)
    requires
        packable(tables, none),
        0 <= m < tables.len(),
    ensures
        packed(tables, none).extends(packed(tables.take(m), none).with(tables[m], none)),
        packed(tables.take(m), none).shaped(tables[m].n_grid as int),
        packed(tables.take(m), none).n_product_per_material.len() == m,
        packed(tables.take(m), none).prod_base_per_material.len() == m,
        packed(tables.take(m), none).pp_base_per_material.len() == m,
{
    assert(tables[m].n_grid == tables[0].n_grid);
    lemma_packed_extends(tables, none, m + 1);
    lemma_packed_is_shaped(tables, none, m);
    assert(tables.take(m + 1).drop_last() =~= tables.take(m));
}

/// Row `j` of a table behind `before` rows is row `before + j` of the whole.
proof fn lemma_row_in_place<A>(
    all: Seq<A>,
    earlier: Seq<A>,
    own: Seq<A>,
    before: int,
    j: int,
    g: int,
)
    requires
        prefix(earlier + own, all),
        0 <= before,
        earlier.len() == before * g,
        0 <= j,
        0 <= g,
        (j + 1) * g <= own.len(),
    ensures
        all.subrange((before + j) * g, (before + j) * g + g) == own.subrange(j * g, j * g + g),
{
    assert((before + j) * g == before * g + j * g && (j + 1) * g == j * g + g && j * g >= 0)
        by (nonlinear_arith)
        requires
            j >= 0,
            g >= 0,
    ;
    assert(all.subrange((before + j) * g, (before + j) * g + g) =~= own.subrange(j * g, j * g + g));
}

/// Packed product `prod_base + p` is material `m`'s product `p`: the same law,
/// line, yields and reaction row. The material's aggregate row stands at its
/// `pp_base`.
pub proof fn packed_products_are_the_materials_own(
    tables: Seq<GpuPhotonProductionXs>,
    none: u32,
    m: int,
    p: int,
)
    requires
        packable(tables, none),
        0 <= m < tables.len(),
        0 <= p < tables[m].n_product,
        (tables[m].prod_rxn_idx@[p] + 1) * tables[m].n_grid <= tables[m].rxn_xs@.len(),
    ensures
        ({
            let r = packed(tables, none);
            let t = tables[m];
            let g = t.n_grid as int;
            let row = r.pp_base_per_material[m] as int;
            let k = r.prod_base_per_material[m] + p;
            &&& r.n_product_per_material[m] == t.n_product
            &&& r.photon_prod.subrange(row, row + t.photon_prod@.len()) == t.photon_prod@
            &&& r.prod_eout_kind[k] == t.prod_eout_kind@[p]
            &&& r.prod_line_energy[k] == t.prod_line_energy@[p]
            &&& r.prod_primary_flag[k] == t.prod_primary_flag@[p]
            &&& r.prod_awr[k] == t.prod_awr@[p]
            &&& r.pa_n_energies[k] == t.pa_n_energies@[p]
            &&& r.prod_yield_grid.subrange(k * g, k * g + g) == t.prod_yield_grid@.subrange(
                p * g,
                p * g + g,
            )
            &&& r.rxn_xs.subrange(r.prod_rxn_idx[k] * g, r.prod_rxn_idx[k] * g + g)
                == t.rxn_xs@.subrange(t.prod_rxn_idx@[p] * g, t.prod_rxn_idx@[p] * g + g)
        }),
{
    let r = packed(tables, none);
    let b = packed(tables.take(m), none);
    let t = tables[m];
    let g = t.n_grid as int;
    let x = t.prod_rxn_idx@[p] as int;
    let rows = b.rxn_rows(g as nat);
    lemma_material_in_place(tables, none, m);
    assert(t.shaped() && b.has_room(t, none));
    let row = b.photon_prod.len() as int;
    let k = b.prod_eout_kind.len() + p;
    let now = b.with(t, none);
    assert(r.pp_base_per_material[m] == now.pp_base_per_material[m]);
    assert(r.prod_base_per_material[m] == now.prod_base_per_material[m]);
    assert(r.n_product_per_material[m] == now.n_product_per_material[m]);
    assert(r.photon_prod.subrange(row, row + t.photon_prod@.len()) =~= t.photon_prod@);
    assert(now.prod_rxn_idx[k] == moved(t.prod_rxn_idx@, rows)[p]);
    assert(t.prod_rxn_idx@[p] + rows <= u32::MAX);
    assert(r.prod_rxn_idx[k] == x + rows);
    assert((p + 1) * g <= t.n_product * g) by (nonlinear_arith)
        requires
            p + 1 <= t.n_product,
            g >= 0,
    ;
    lemma_row_in_place(
        r.prod_yield_grid,
        b.prod_yield_grid,
        t.prod_yield_grid@,
        b.prod_eout_kind.len() as int,
        p,
        g,
    );
    lemma_row_in_place(r.rxn_xs, b.rxn_xs, t.rxn_xs@, rows, x, g);
}

/// Row `e` of a packed product's angular distribution is that row of the
/// material's own, point by point.
pub proof fn packed_angles_are_the_products_own(
    tables: Seq<GpuPhotonProductionXs>,
    none: u32,
    m: int,
    p: int,
    e: int,
    i: int,
)
    requires
        packable(tables, none),
        0 <= m < tables.len(),
        0 <= p < tables[m].n_product,
        0 <= e,
        tables[m].pa_ae_offset@[p] + e < tables[m].pa_n_mu@.len(),
        0 <= i,
        tables[m].pa_mu_offset@[tables[m].pa_ae_offset@[p] + e] + i < tables[m].pa_mu@.len(),
    ensures
        ({
            let r = packed(tables, none);
            let t = tables[m];
            let k = r.prod_base_per_material[m] + p;
            let to = r.pa_ae_offset[k] + e;
            let from = t.pa_ae_offset@[p] + e;
            let point = r.pa_mu_offset[to] + i;
            let own = t.pa_mu_offset@[from] + i;
            &&& r.pa_n_mu[to] == t.pa_n_mu@[from]
            &&& r.pa_energy_grid[to] == t.pa_energy_grid@[from]
            &&& r.pa_interp[to] == t.pa_interp@[from]
            &&& r.pa_mu[point] == t.pa_mu@[own]
            &&& r.pa_cdf[point] == t.pa_cdf@[own]
            &&& r.pa_pdf[point] == t.pa_pdf@[own]
        }),
{
    let r = packed(tables, none);
    let b = packed(tables.take(m), none);
    let t = tables[m];
    lemma_material_in_place(tables, none, m);
    assert(t.shaped() && b.has_room(t, none));
    let now = b.with(t, none);
    let k = b.prod_eout_kind.len() + p;
    let rows = b.pa_n_mu.len() as int;
    let points = b.pa_mu.len() as int;
    let from = t.pa_ae_offset@[p] + e;
    let own = t.pa_mu_offset@[from] + i;
    assert(r.prod_base_per_material[m] == now.prod_base_per_material[m]);
    assert(now.pa_ae_offset[k] == moved(t.pa_ae_offset@, rows)[p]);
    assert(t.pa_ae_offset@[p] + rows <= u32::MAX);
    assert(r.pa_ae_offset[k] == t.pa_ae_offset@[p] + rows);
    assert(now.pa_mu_offset[rows + from] == moved(t.pa_mu_offset@, points)[from]);
    assert(t.pa_mu_offset@[from] + points <= u32::MAX);
    assert(r.pa_mu_offset[rows + from] == t.pa_mu_offset@[from] + points);
    assert(now.pa_mu[points + own] == t.pa_mu@[own]);
}

/// A packed product's continuous slot is the material's own: row `e` and its
/// points agree. A product without one stays without one, and gets none by
/// being moved.
#[verifier::rlimit(40)]
#[verifier::spinoff_prover]
pub proof fn packed_slots_are_the_products_own(
    tables: Seq<GpuPhotonProductionXs>,
    none: u32,
    m: int,
    p: int,
    e: int,
    i: int,
)
    requires
        packable(tables, none),
        packed(tables, none).ct_n_eout.len() <= none,
        0 <= m < tables.len(),
        0 <= p < tables[m].n_product,
        ({
            let t = tables[m];
            let s = t.prod_dist_slot@[p] as int;
            let row = t.ct_ae_offset@[s] + e;
            s != none ==> {
                &&& s < t.ct_n_eout@.len()
                &&& 0 <= e
                &&& row < t.ct_n_x@.len()
                &&& 0 <= i
                &&& t.ct_x_offset@[row] + i < t.ct_x@.len()
            }
        }),
    ensures
        ({
            let r = packed(tables, none);
            let t = tables[m];
            let k = r.prod_base_per_material[m] + p;
            let s = t.prod_dist_slot@[p] as int;
            let slot = r.prod_dist_slot[k] as int;
            let to = r.ct_ae_offset[slot] + e;
            let from = t.ct_ae_offset@[s] + e;
            let point = r.ct_x_offset[to] + i;
            let own = t.ct_x_offset@[from] + i;
            &&& slot == none <==> s == none
            &&& s != none ==> {
                &&& r.ct_n_eout[slot] == t.ct_n_eout@[s]
                &&& r.ct_hist[slot] == t.ct_hist@[s]
                &&& r.ct_n_x[to] == t.ct_n_x@[from]
                &&& r.ct_energy_grid[to] == t.ct_energy_grid@[from]
                &&& r.ct_interp[to] == t.ct_interp@[from]
                &&& r.ct_n_discrete[to] == t.ct_n_discrete@[from]
                &&& r.ct_x[point] == t.ct_x@[own]
                &&& r.ct_cdf[point] == t.ct_cdf@[own]
                &&& r.ct_p[point] == t.ct_p@[own]
            }
        }),
{
    let r = packed(tables, none);
    let b = packed(tables.take(m), none);
    let t = tables[m];
    lemma_material_in_place(tables, none, m);
    assert(t.shaped() && b.has_room(t, none));
    let now = b.with(t, none);
    let k = b.prod_eout_kind.len() + p;
    let slots = b.ct_n_eout.len() as int;
    let s = t.prod_dist_slot@[p] as int;
    assert(r.prod_base_per_material[m] == now.prod_base_per_material[m]);
    assert(now.prod_dist_slot[k] == moved_slots(t.prod_dist_slot@, slots, none)[p]);
    assert(t.prod_dist_slot@[p] == none || t.prod_dist_slot@[p] + slots <= u32::MAX);
    if s != none {
        let rows = b.ct_n_x.len() as int;
        let points = b.ct_x.len() as int;
        let from = t.ct_ae_offset@[s] + e;
        let own = t.ct_x_offset@[from] + i;
        assert(r.prod_dist_slot[k] == s + slots);
        assert(now.ct_n_eout[slots + s] == t.ct_n_eout@[s]);
        assert(now.ct_ae_offset[slots + s] == moved(t.ct_ae_offset@, rows)[s]);
        assert(t.ct_ae_offset@[s] + rows <= u32::MAX);
        assert(r.ct_ae_offset[slots + s] == t.ct_ae_offset@[s] + rows);
        assert(now.ct_x_offset[rows + from] == moved(t.ct_x_offset@, points)[from]);
        assert(t.ct_x_offset@[from] + points <= u32::MAX);
        assert(r.ct_x_offset[rows + from] == t.ct_x_offset@[from] + points);
        assert(now.ct_x[points + own] == t.ct_x@[own]);
    }
}

/// Switched off, the tables say so: every material has one product, the same one, and
/// nothing is ever produced.
pub proof fn switched_off_photons_produce_nothing(
    n_materials: usize,
    n_grid: usize,
    i: int,
    m: int,
    r: CoupledPhotonInputs,
)
    requires
        call_ensures(CoupledPhotonInputs::coupled_off, (n_materials, n_grid), r),
    ensures
        r.coupled_enabled@.len() == 1 && r.coupled_enabled@[0] == 0,
        n_grid > 0 ==> r.photon_prod@.len() == n_grid && r.rxn_xs@.len() == n_grid
            && r.prod_yield_grid@.len() == n_grid,
        n_grid == 0 ==> r.photon_prod@.len() == 1,
        0 <= i < r.photon_prod@.len() ==> r.photon_prod@[i].bits == 0 && r.rxn_xs@[i].bits == 0
            && r.prod_yield_grid@[i].bits == 0,
        n_materials > 0 ==> r.n_product_per_material@.len() == n_materials,
        n_materials == 0 ==> r.n_product_per_material@.len() == 1,
        0 <= m < r.n_product_per_material@.len() ==> r.n_product_per_material@[m] == 1
            && r.prod_base_per_material@[m] == 0 && r.pp_base_per_material@[m] == 0,
        r.prod_eout_kind@.len() == 1 && r.prod_rxn_idx@.len() == 1 && r.prod_rxn_idx@[0] == 0,
{
    assert(r@ == blank(n_materials, n_grid));
    assert(r@.photon_prod == r.photon_prod@);
    assert(r@.n_product_per_material == r.n_product_per_material@);
}

/// Packed tables are switched on and are those of the materials in their order.
pub proof fn packed_photons_are_switched_on(
    tables: &[GpuPhotonProductionXs],
    none: u32,
    r: CoupledPhotonInputs,
)
    requires
        tables.len() > 0,
        packable(tables@, none),
        call_ensures(CoupledPhotonInputs::from_materials, (tables, none), r),
    ensures
        r.coupled_enabled@.len() == 1 && r.coupled_enabled@[0] == 1,
        r@ == packed(tables@, none),
{
}

} // verus!
