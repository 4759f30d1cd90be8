//! Lengths of the packed input buffers, and the lengths that the geometry, the
//! materials and the nuclides imply for them.
use crate::layout::{
    COARSE_META_COLS, FINE_META_COLS, MT_INELASTIC_COUNT, NUC_PARTIAL_COLS, PERMT_META_COLS,
    URR_META_COLS,
};
use crate::tally::TalliesPack;
use vstd::prelude::*;

verus! {

/// The buffers whose lengths are checked.
#[derive(Clone, Copy, Debug, PartialEq, Eq, Structural)]
pub enum Buffer {
    CellToMaterial,
    SurfaceBoundaries,
    FineMeta,
    XsElastic,
    XsAbsorption,
    XsInelastic,
    XsFission,
    NuBar,
    BetaDelayed,
    FissionA,
    FissionB,
    FissionEoutKind,
    FissionEoutNEnergies,
    FissionEoutAeOffset,
    FissionEoutEnergyGrid,
    FissionEoutXOffset,
    FissionEoutCdf,
    FissionEoutP,
    FissionEoutInterp,
    CoarseMeta,
    MatNuclideMeta,
    Slabs,
    PermtMeta,
    XsInelasticSparse,
    YieldSparse,
    QInelastic,
    AngleNEnergies,
    AngleAeOffset,
    AngleEnergyGrid,
    AngleMuOffset,
    AngleCdf,
    ScatterInCm,
    EoutKind,
    EoutNEnergies,
    EoutAeOffset,
    EoutEnergyGrid,
    EoutXOffset,
    EoutCdf,
    EoutP,
    EoutHistogramInterp,
    EoutInterp,
    EoutNDiscrete,
    CorrNEnergies,
    CorrNComponents,
    CorrAeOffset,
    CorrEnergyGrid,
    CorrXOffset,
    CorrX,
    CorrCdf,
    CorrP,
    CorrInterp,
    CorrNDiscrete,
    CorrMuOffset,
    CorrMuCdf,
    CorrMuPdf,
    CorrMuInterp,
    TallyCellToBin,
    TallyNCells,
    TallyEdgesOffsets,
    TallyNBins,
    TallyOutOffsets,
    NucPartialXs,
    NucMacroTotal,
    AnglePdf,
    AngleInterp,
    ElasticNEnergies,
    ElasticAeOffset,
    ElasticEnergyGrid,
    ElasticInterp,
    ElasticMuOffset,
    ElasticCdf,
    ElasticPdf,
    TemperatureK,
    KmNEnergies,
    KmAeOffset,
    KmEnergyGrid,
    KmInterp,
    KmNDiscrete,
    KmXOffset,
    KmP,
    KmC,
    KmR,
    KmA,
    EvapNEnergies,
    EvapNComponents,
    EvapAeOffset,
    EvapThetaOffset,
    EvapU,
    NbpsNBodies,
    NbpsTotalMass,
    MaxwellNEnergies,
    MaxwellAeOffset,
    MaxwellTheta,
    MaxwellU,
    WattNEnergies,
    WattAeOffset,
    WattA,
    WattB,
    WattU,
    UrrMeta,
    UrrAeOffset,
    UrrCdfOffset,
    UrrXs,
    UrrAtomDensity,
}

/// One length check, as a mathematical value.
pub struct Check {
    pub buffer: Buffer,
    pub found: int,
    pub expected: int,
}

impl Check {
    pub open spec fn holds(self) -> bool {
        self.found == self.expected
    }
}

/// One length check.
#[derive(Clone, Copy, Debug, PartialEq, Eq, Structural)]
pub struct LengthCheck {
    pub buffer: Buffer,
    pub found: u128,
    pub expected: u128,
}

impl View for LengthCheck {
    type V = Check;

    open spec fn view(&self) -> Check {
        Check { buffer: self.buffer, found: self.found as int, expected: self.expected as int }
    }
}

/// Lengths of all buffers of a launch, and the counts they are checked against.
#[derive(Clone, Copy, Debug)]
pub struct TransportLengths {
    pub n_cells: usize,
    pub surface_types: usize,
    pub n_materials: usize,
    pub n_slab: usize,
    pub fine_log_energy_grid: usize,
    pub fission_eout_n_x: usize,
    pub fission_eout_x: usize,
    pub angle_n_mu: usize,
    pub angle_mu: usize,
    pub eout_n_x: usize,
    pub eout_x: usize,
    pub corr_n_x: usize,
    pub corr_n_mu: usize,
    pub corr_mu: usize,
    pub elastic_n_mu: usize,
    pub elastic_mu: usize,
    pub km_n_x: usize,
    pub km_x: usize,
    pub evap_energy_grid: usize,
    pub maxwell_energy_grid: usize,
    pub watt_energy_grid: usize,
    pub urr_cdf: usize,
    pub urr_xs_cols: usize,
    pub cell_to_material: usize,
    pub surface_boundaries: usize,
    pub fine_meta: usize,
    pub xs_elastic: usize,
    pub xs_absorption: usize,
    pub xs_inelastic: usize,
    pub xs_fission: usize,
    pub nu_bar: usize,
    pub beta_delayed: usize,
    pub fission_a: usize,
    pub fission_b: usize,
    pub fission_eout_kind: usize,
    pub fission_eout_n_energies: usize,
    pub fission_eout_ae_offset: usize,
    pub fission_eout_energy_grid: usize,
    pub fission_eout_x_offset: usize,
    pub fission_eout_cdf: usize,
    pub fission_eout_p: usize,
    pub fission_eout_interp: usize,
    pub coarse_meta: usize,
    pub mat_nuclide_meta: usize,
    pub permt_meta: usize,
    pub xs_inelastic_sparse: usize,
    pub yield_sparse: usize,
    pub q_inelastic: usize,
    pub angle_n_energies: usize,
    pub angle_ae_offset: usize,
    pub angle_energy_grid: usize,
    pub angle_mu_offset: usize,
    pub angle_cdf: usize,
    pub scatter_in_cm: usize,
    pub eout_kind: usize,
    pub eout_n_energies: usize,
    pub eout_ae_offset: usize,
    pub eout_energy_grid: usize,
    pub eout_x_offset: usize,
    pub eout_cdf: usize,
    pub eout_p: usize,
    pub eout_histogram_interp: usize,
    pub eout_interp: usize,
    pub eout_n_discrete: usize,
    pub corr_n_energies: usize,
    pub corr_n_components: usize,
    pub corr_ae_offset: usize,
    pub corr_energy_grid: usize,
    pub corr_x_offset: usize,
    pub corr_x: usize,
    pub corr_cdf: usize,
    pub corr_p: usize,
    pub corr_interp: usize,
    pub corr_n_discrete: usize,
    pub corr_mu_offset: usize,
    pub corr_mu_cdf: usize,
    pub corr_mu_pdf: usize,
    pub corr_mu_interp: usize,
    pub nuc_partial_xs: usize,
    pub nuc_macro_total: usize,
    pub angle_pdf: usize,
    pub angle_interp: usize,
    pub elastic_n_energies: usize,
    pub elastic_ae_offset: usize,
    pub elastic_energy_grid: usize,
    pub elastic_interp: usize,
    pub elastic_mu_offset: usize,
    pub elastic_cdf: usize,
    pub elastic_pdf: usize,
    pub temperature_k: usize,
    pub km_n_energies: usize,
    pub km_ae_offset: usize,
    pub km_energy_grid: usize,
    pub km_interp: usize,
    pub km_n_discrete: usize,
    pub km_x_offset: usize,
    pub km_p: usize,
    pub km_c: usize,
    pub km_r: usize,
    pub km_a: usize,
    pub evap_n_energies: usize,
    pub evap_n_components: usize,
    pub evap_ae_offset: usize,
    pub evap_theta_offset: usize,
    pub evap_u: usize,
    pub nbps_n_bodies: usize,
    pub nbps_total_mass: usize,
    pub maxwell_n_energies: usize,
    pub maxwell_ae_offset: usize,
    pub maxwell_theta: usize,
    pub maxwell_u: usize,
    pub watt_n_energies: usize,
    pub watt_ae_offset: usize,
    pub watt_a: usize,
    pub watt_b: usize,
    pub watt_u: usize,
    pub urr_meta: usize,
    pub urr_ae_offset: usize,
    pub urr_cdf_offset: usize,
    pub urr_xs: usize,
    pub urr_atom_density: usize,
}

/// Reaction slots over all nuclide slabs.
pub open spec fn slot_rows(l: TransportLengths) -> int {
    l.n_slab * MT_INELASTIC_COUNT
}

pub open spec fn views(v: Seq<LengthCheck>) -> Seq<Check> {
    v.map_values(|c: LengthCheck| c@)
}

pub open spec fn all_hold(checks: Seq<Check>) -> bool {
    forall|i: int| 0 <= i < checks.len() ==> (#[trigger] checks[i]).holds()
}

/// `c` is the first check of the list that fails.
pub open spec fn is_first_failure(checks: Seq<Check>, c: Check) -> bool {
    exists|i: int|
        0 <= i < checks.len() && #[trigger] checks[i] == c && !c.holds() && forall|j: int|
            0 <= j < i ==> (#[trigger] checks[j]).holds()
}

/// First check of the list that fails.
pub fn first_failure(v: &Vec<LengthCheck>) -> (r: Option<LengthCheck>)
    ensures
        r is None <==> all_hold(views(v@)),
        r matches Some(c) ==> is_first_failure(views(v@), c@),
{
    let ghost checks = views(v@);
    let mut i: usize = 0;
    while i < v.len()
        invariant
            i <= v@.len(),
            checks == views(v@),
            forall|j: int| 0 <= j < i ==> (#[trigger] checks[j]).holds(),
        decreases v@.len() - i,
    {
        let c: LengthCheck = v[i];
        assert(checks[i as int] == c@);
        if c.found != c.expected {
            return Some(c);
        }
        i = i + 1;
    }
    None
}

/// One material per cell and one boundary per surface.
pub open spec fn surface_checks(l: TransportLengths) -> Seq<Check> {
    seq![
        Check { buffer: Buffer::CellToMaterial, found: l.cell_to_material as int, expected: l.n_cells as int },
        Check { buffer: Buffer::SurfaceBoundaries, found: l.surface_boundaries as int, expected: l.surface_types as int },
    ]
}

pub fn surface_list(l: &TransportLengths) -> (r: Vec<LengthCheck>)
    ensures
        views(r@) == surface_checks(*l),
{
    let mut r: Vec<LengthCheck> = Vec::new();
    r.push(LengthCheck { buffer: Buffer::CellToMaterial, found: l.cell_to_material as u128, expected: l.n_cells as u128 });
    r.push(LengthCheck { buffer: Buffer::SurfaceBoundaries, found: l.surface_boundaries as u128, expected: l.surface_types as u128 });
    assert(views(r@) =~= surface_checks(*l));
    r
}

/// The materials' fine-grid table.
pub open spec fn fine_checks(l: TransportLengths) -> Seq<Check> {
    seq![
        Check { buffer: Buffer::FineMeta, found: l.fine_meta as int, expected: l.n_materials * FINE_META_COLS },
    ]
}

pub fn fine_list(l: &TransportLengths) -> (r: Vec<LengthCheck>)
    ensures
        views(r@) == fine_checks(*l),
{
    assert(l.n_materials * FINE_META_COLS == l.n_materials * 3);
    let mut r: Vec<LengthCheck> = Vec::new();
    r.push(LengthCheck { buffer: Buffer::FineMeta, found: l.fine_meta as u128, expected: l.n_materials as u128 * FINE_META_COLS as u128 });
    assert(views(r@) =~= fine_checks(*l));
    r
}

/// Aggregate cross sections: `points` grid points over all materials.
pub open spec fn aggregate_checks(l: TransportLengths, points: int) -> Seq<Check> {
    seq![
        Check { buffer: Buffer::XsElastic, found: l.xs_elastic as int, expected: points },
        Check { buffer: Buffer::XsAbsorption, found: l.xs_absorption as int, expected: points },
        Check { buffer: Buffer::XsInelastic, found: l.xs_inelastic as int, expected: points },
        Check { buffer: Buffer::XsFission, found: l.xs_fission as int, expected: points },
        Check { buffer: Buffer::NuBar, found: l.nu_bar as int, expected: points },
        Check { buffer: Buffer::BetaDelayed, found: l.beta_delayed as int, expected: points },
    ]
}

pub fn aggregate_list(l: &TransportLengths, points: u128) -> (r: Vec<LengthCheck>)
    ensures
        views(r@) == aggregate_checks(*l, points as int),
{
    let mut r: Vec<LengthCheck> = Vec::new();
    r.push(LengthCheck { buffer: Buffer::XsElastic, found: l.xs_elastic as u128, expected: points });
    r.push(LengthCheck { buffer: Buffer::XsAbsorption, found: l.xs_absorption as u128, expected: points });
    r.push(LengthCheck { buffer: Buffer::XsInelastic, found: l.xs_inelastic as u128, expected: points });
    r.push(LengthCheck { buffer: Buffer::XsFission, found: l.xs_fission as u128, expected: points });
    r.push(LengthCheck { buffer: Buffer::NuBar, found: l.nu_bar as u128, expected: points });
    r.push(LengthCheck { buffer: Buffer::BetaDelayed, found: l.beta_delayed as u128, expected: points });
    assert(views(r@) =~= aggregate_checks(*l, points as int));
    r
}

/// Fission spectra: a prompt and a delayed row per material.
pub open spec fn fission_checks(l: TransportLengths) -> Seq<Check> {
    seq![
        Check { buffer: Buffer::FissionA, found: l.fission_a as int, expected: l.n_materials as int },
        Check { buffer: Buffer::FissionB, found: l.fission_b as int, expected: l.n_materials as int },
        Check { buffer: Buffer::FissionEoutKind, found: l.fission_eout_kind as int, expected: 2 * l.n_materials },
        Check { buffer: Buffer::FissionEoutNEnergies, found: l.fission_eout_n_energies as int, expected: 2 * l.n_materials },
        Check { buffer: Buffer::FissionEoutAeOffset, found: l.fission_eout_ae_offset as int, expected: 2 * l.n_materials },
        Check { buffer: Buffer::FissionEoutEnergyGrid, found: l.fission_eout_energy_grid as int, expected: l.fission_eout_n_x as int },
        Check { buffer: Buffer::FissionEoutXOffset, found: l.fission_eout_x_offset as int, expected: l.fission_eout_n_x as int },
        Check { buffer: Buffer::FissionEoutCdf, found: l.fission_eout_cdf as int, expected: l.fission_eout_x as int },
        Check { buffer: Buffer::FissionEoutP, found: l.fission_eout_p as int, expected: l.fission_eout_x as int },
        Check { buffer: Buffer::FissionEoutInterp, found: l.fission_eout_interp as int, expected: l.fission_eout_n_x as int },
    ]
}

pub fn fission_list(l: &TransportLengths) -> (r: Vec<LengthCheck>)
    ensures
        views(r@) == fission_checks(*l),
{
    let mut r: Vec<LengthCheck> = Vec::new();
    r.push(LengthCheck { buffer: Buffer::FissionA, found: l.fission_a as u128, expected: l.n_materials as u128 });
    r.push(LengthCheck { buffer: Buffer::FissionB, found: l.fission_b as u128, expected: l.n_materials as u128 });
    r.push(LengthCheck { buffer: Buffer::FissionEoutKind, found: l.fission_eout_kind as u128, expected: 2 * l.n_materials as u128 });
    r.push(LengthCheck { buffer: Buffer::FissionEoutNEnergies, found: l.fission_eout_n_energies as u128, expected: 2 * l.n_materials as u128 });
    r.push(LengthCheck { buffer: Buffer::FissionEoutAeOffset, found: l.fission_eout_ae_offset as u128, expected: 2 * l.n_materials as u128 });
    r.push(LengthCheck { buffer: Buffer::FissionEoutEnergyGrid, found: l.fission_eout_energy_grid as u128, expected: l.fission_eout_n_x as u128 });
    r.push(LengthCheck { buffer: Buffer::FissionEoutXOffset, found: l.fission_eout_x_offset as u128, expected: l.fission_eout_n_x as u128 });
    r.push(LengthCheck { buffer: Buffer::FissionEoutCdf, found: l.fission_eout_cdf as u128, expected: l.fission_eout_x as u128 });
    r.push(LengthCheck { buffer: Buffer::FissionEoutP, found: l.fission_eout_p as u128, expected: l.fission_eout_x as u128 });
    r.push(LengthCheck { buffer: Buffer::FissionEoutInterp, found: l.fission_eout_interp as u128, expected: l.fission_eout_n_x as u128 });
    assert(views(r@) =~= fission_checks(*l));
    r
}

/// The materials' coarse-grid table.
pub open spec fn coarse_checks(l: TransportLengths) -> Seq<Check> {
    seq![
        Check { buffer: Buffer::CoarseMeta, found: l.coarse_meta as int, expected: l.n_materials * COARSE_META_COLS },
    ]
}

pub fn coarse_list(l: &TransportLengths) -> (r: Vec<LengthCheck>)
    ensures
        views(r@) == coarse_checks(*l),
{
    assert(l.n_materials * COARSE_META_COLS == l.n_materials * 3);
    let mut r: Vec<LengthCheck> = Vec::new();
    r.push(LengthCheck { buffer: Buffer::CoarseMeta, found: l.coarse_meta as u128, expected: l.n_materials as u128 * COARSE_META_COLS as u128 });
    assert(views(r@) =~= coarse_checks(*l));
    r
}

/// The materials' nuclide ranges.
pub open spec fn range_checks(l: TransportLengths) -> Seq<Check> {
    seq![
        Check { buffer: Buffer::MatNuclideMeta, found: l.mat_nuclide_meta as int, expected: l.n_materials * 2 },
    ]
}

pub fn range_list(l: &TransportLengths) -> (r: Vec<LengthCheck>)
    ensures
        views(r@) == range_checks(*l),
{
    let mut r: Vec<LengthCheck> = Vec::new();
    r.push(LengthCheck { buffer: Buffer::MatNuclideMeta, found: l.mat_nuclide_meta as u128, expected: l.n_materials as u128 * 2 });
    assert(views(r@) =~= range_checks(*l));
    r
}

/// Nuclides of all materials together.
pub open spec fn slab_checks(l: TransportLengths, total: int) -> Seq<Check> {
    seq![
        Check { buffer: Buffer::Slabs, found: total, expected: l.n_slab as int },
    ]
}

pub fn slab_list(l: &TransportLengths, total: u128) -> (r: Vec<LengthCheck>)
    ensures
        views(r@) == slab_checks(*l, total as int),
{
    let mut r: Vec<LengthCheck> = Vec::new();
    r.push(LengthCheck { buffer: Buffer::Slabs, found: total, expected: l.n_slab as u128 });
    assert(views(r@) =~= slab_checks(*l, total as int));
    r
}

/// The per-slot table of the stored ranges.
pub open spec fn slot_checks(l: TransportLengths) -> Seq<Check> {
    seq![
        Check { buffer: Buffer::PermtMeta, found: l.permt_meta as int, expected: slot_rows(l) * PERMT_META_COLS },
    ]
}

pub fn slot_list(l: &TransportLengths) -> (r: Vec<LengthCheck>)
    ensures
        views(r@) == slot_checks(*l),
{
    let nm: u128 = l.n_slab as u128 * MT_INELASTIC_COUNT as u128;
    assert(nm == l.n_slab * 56);
    assert(nm * PERMT_META_COLS == nm * 3);
    let mut r: Vec<LengthCheck> = Vec::new();
    r.push(LengthCheck { buffer: Buffer::PermtMeta, found: l.permt_meta as u128, expected: nm * PERMT_META_COLS as u128 });
    assert(views(r@) =~= slot_checks(*l));
    r
}

/// Per-slot values: `stored` of them over all slots.
pub open spec fn sparse_checks(l: TransportLengths, stored: int) -> Seq<Check> {
    seq![
        Check { buffer: Buffer::XsInelasticSparse, found: l.xs_inelastic_sparse as int, expected: stored },
        Check { buffer: Buffer::YieldSparse, found: l.yield_sparse as int, expected: stored },
        Check { buffer: Buffer::QInelastic, found: l.q_inelastic as int, expected: slot_rows(l) },
    ]
}

pub fn sparse_list(l: &TransportLengths, stored: u128) -> (r: Vec<LengthCheck>)
    ensures
        views(r@) == sparse_checks(*l, stored as int),
{
    let nm: u128 = l.n_slab as u128 * MT_INELASTIC_COUNT as u128;
    let mut r: Vec<LengthCheck> = Vec::new();
    r.push(LengthCheck { buffer: Buffer::XsInelasticSparse, found: l.xs_inelastic_sparse as u128, expected: stored });
    r.push(LengthCheck { buffer: Buffer::YieldSparse, found: l.yield_sparse as u128, expected: stored });
    r.push(LengthCheck { buffer: Buffer::QInelastic, found: l.q_inelastic as u128, expected: nm });
    assert(views(r@) =~= sparse_checks(*l, stored as int));
    r
}

/// Angular distributions of the inelastic slots.
pub open spec fn angle_checks(l: TransportLengths) -> Seq<Check> {
    seq![
        Check { buffer: Buffer::AngleNEnergies, found: l.angle_n_energies as int, expected: slot_rows(l) },
        Check { buffer: Buffer::AngleAeOffset, found: l.angle_ae_offset as int, expected: slot_rows(l) },
        Check { buffer: Buffer::AngleEnergyGrid, found: l.angle_energy_grid as int, expected: l.angle_n_mu as int },
        Check { buffer: Buffer::AngleMuOffset, found: l.angle_mu_offset as int, expected: l.angle_n_mu as int },
        Check { buffer: Buffer::AngleCdf, found: l.angle_cdf as int, expected: l.angle_mu as int },
    ]
}

pub fn angle_list(l: &TransportLengths) -> (r: Vec<LengthCheck>)
    ensures
        views(r@) == angle_checks(*l),
{
    let nm: u128 = l.n_slab as u128 * MT_INELASTIC_COUNT as u128;
    let mut r: Vec<LengthCheck> = Vec::new();
    r.push(LengthCheck { buffer: Buffer::AngleNEnergies, found: l.angle_n_energies as u128, expected: nm });
    r.push(LengthCheck { buffer: Buffer::AngleAeOffset, found: l.angle_ae_offset as u128, expected: nm });
    r.push(LengthCheck { buffer: Buffer::AngleEnergyGrid, found: l.angle_energy_grid as u128, expected: l.angle_n_mu as u128 });
    r.push(LengthCheck { buffer: Buffer::AngleMuOffset, found: l.angle_mu_offset as u128, expected: l.angle_n_mu as u128 });
    r.push(LengthCheck { buffer: Buffer::AngleCdf, found: l.angle_cdf as u128, expected: l.angle_mu as u128 });
    assert(views(r@) =~= angle_checks(*l));
    r
}

/// The slots' frame flags.
pub open spec fn frame_checks(l: TransportLengths) -> Seq<Check> {
    seq![
        Check { buffer: Buffer::ScatterInCm, found: l.scatter_in_cm as int, expected: slot_rows(l) },
    ]
}

pub fn frame_list(l: &TransportLengths) -> (r: Vec<LengthCheck>)
    ensures
        views(r@) == frame_checks(*l),
{
    let nm: u128 = l.n_slab as u128 * MT_INELASTIC_COUNT as u128;
    let mut r: Vec<LengthCheck> = Vec::new();
    r.push(LengthCheck { buffer: Buffer::ScatterInCm, found: l.scatter_in_cm as u128, expected: nm });
    assert(views(r@) =~= frame_checks(*l));
    r
}

/// Outgoing-energy tables: rows and points.
pub open spec fn eout_points_checks(l: TransportLengths) -> Seq<Check> {
    seq![
        Check { buffer: Buffer::EoutKind, found: l.eout_kind as int, expected: slot_rows(l) },
        Check { buffer: Buffer::EoutNEnergies, found: l.eout_n_energies as int, expected: slot_rows(l) },
        Check { buffer: Buffer::EoutAeOffset, found: l.eout_ae_offset as int, expected: slot_rows(l) },
        Check { buffer: Buffer::EoutEnergyGrid, found: l.eout_energy_grid as int, expected: l.eout_n_x as int },
        Check { buffer: Buffer::EoutXOffset, found: l.eout_x_offset as int, expected: l.eout_n_x as int },
        Check { buffer: Buffer::EoutCdf, found: l.eout_cdf as int, expected: l.eout_x as int },
    ]
}

pub fn eout_points_list(l: &TransportLengths) -> (r: Vec<LengthCheck>)
    ensures
        views(r@) == eout_points_checks(*l),
{
    let nm: u128 = l.n_slab as u128 * MT_INELASTIC_COUNT as u128;
    let mut r: Vec<LengthCheck> = Vec::new();
    r.push(LengthCheck { buffer: Buffer::EoutKind, found: l.eout_kind as u128, expected: nm });
    r.push(LengthCheck { buffer: Buffer::EoutNEnergies, found: l.eout_n_energies as u128, expected: nm });
    r.push(LengthCheck { buffer: Buffer::EoutAeOffset, found: l.eout_ae_offset as u128, expected: nm });
    r.push(LengthCheck { buffer: Buffer::EoutEnergyGrid, found: l.eout_energy_grid as u128, expected: l.eout_n_x as u128 });
    r.push(LengthCheck { buffer: Buffer::EoutXOffset, found: l.eout_x_offset as u128, expected: l.eout_n_x as u128 });
    r.push(LengthCheck { buffer: Buffer::EoutCdf, found: l.eout_cdf as u128, expected: l.eout_x as u128 });
    assert(views(r@) =~= eout_points_checks(*l));
    r
}

/// Outgoing-energy tables: densities.
pub open spec fn eout_density_checks(l: TransportLengths) -> Seq<Check> {
    seq![
        Check { buffer: Buffer::EoutP, found: l.eout_p as int, expected: l.eout_x as int },
    ]
}

pub fn eout_density_list(l: &TransportLengths) -> (r: Vec<LengthCheck>)
    ensures
        views(r@) == eout_density_checks(*l),
{
    let mut r: Vec<LengthCheck> = Vec::new();
    r.push(LengthCheck { buffer: Buffer::EoutP, found: l.eout_p as u128, expected: l.eout_x as u128 });
    assert(views(r@) =~= eout_density_checks(*l));
    r
}

/// Outgoing-energy tables: one interpolation flag per slot.
pub open spec fn eout_histogram_checks(l: TransportLengths) -> Seq<Check> {
    seq![
        Check { buffer: Buffer::EoutHistogramInterp, found: l.eout_histogram_interp as int, expected: slot_rows(l) },
    ]
}

pub fn eout_histogram_list(l: &TransportLengths) -> (r: Vec<LengthCheck>)
    ensures
        views(r@) == eout_histogram_checks(*l),
{
    let nm: u128 = l.n_slab as u128 * MT_INELASTIC_COUNT as u128;
    let mut r: Vec<LengthCheck> = Vec::new();
    r.push(LengthCheck { buffer: Buffer::EoutHistogramInterp, found: l.eout_histogram_interp as u128, expected: nm });
    assert(views(r@) =~= eout_histogram_checks(*l));
    r
}

/// Outgoing-energy tables: one interpolation law and discrete-line count per row.
pub open spec fn eout_rows_checks(l: TransportLengths) -> Seq<Check> {
    seq![
        Check { buffer: Buffer::EoutInterp, found: l.eout_interp as int, expected: l.eout_n_x as int },
        Check { buffer: Buffer::EoutNDiscrete, found: l.eout_n_discrete as int, expected: l.eout_n_x as int },
    ]
}

pub fn eout_rows_list(l: &TransportLengths) -> (r: Vec<LengthCheck>)
    ensures
        views(r@) == eout_rows_checks(*l),
{
    let mut r: Vec<LengthCheck> = Vec::new();
    r.push(LengthCheck { buffer: Buffer::EoutInterp, found: l.eout_interp as u128, expected: l.eout_n_x as u128 });
    r.push(LengthCheck { buffer: Buffer::EoutNDiscrete, found: l.eout_n_discrete as u128, expected: l.eout_n_x as u128 });
    assert(views(r@) =~= eout_rows_checks(*l));
    r
}

/// Correlated angle-energy tables.
pub open spec fn corr_checks(l: TransportLengths) -> Seq<Check> {
    seq![
        Check { buffer: Buffer::CorrNEnergies, found: l.corr_n_energies as int, expected: slot_rows(l) },
        Check { buffer: Buffer::CorrNComponents, found: l.corr_n_components as int, expected: slot_rows(l) },
        Check { buffer: Buffer::CorrAeOffset, found: l.corr_ae_offset as int, expected: slot_rows(l) },
        Check { buffer: Buffer::CorrEnergyGrid, found: l.corr_energy_grid as int, expected: l.corr_n_x as int },
        Check { buffer: Buffer::CorrXOffset, found: l.corr_x_offset as int, expected: l.corr_n_x as int },
        Check { buffer: Buffer::CorrX, found: l.corr_x as int, expected: l.corr_n_mu as int },
        Check { buffer: Buffer::CorrCdf, found: l.corr_cdf as int, expected: l.corr_x as int },
        Check { buffer: Buffer::CorrP, found: l.corr_p as int, expected: l.corr_x as int },
        Check { buffer: Buffer::CorrInterp, found: l.corr_interp as int, expected: l.corr_n_x as int },
        Check { buffer: Buffer::CorrNDiscrete, found: l.corr_n_discrete as int, expected: l.corr_n_x as int },
        Check { buffer: Buffer::CorrMuOffset, found: l.corr_mu_offset as int, expected: l.corr_n_mu as int },
        Check { buffer: Buffer::CorrMuCdf, found: l.corr_mu_cdf as int, expected: l.corr_mu as int },
        Check { buffer: Buffer::CorrMuPdf, found: l.corr_mu_pdf as int, expected: l.corr_mu as int },
        Check { buffer: Buffer::CorrMuInterp, found: l.corr_mu_interp as int, expected: l.corr_n_mu as int },
    ]
}

pub fn corr_list(l: &TransportLengths) -> (r: Vec<LengthCheck>)
    ensures
        views(r@) == corr_checks(*l),
{
    let nm: u128 = l.n_slab as u128 * MT_INELASTIC_COUNT as u128;
    let mut r: Vec<LengthCheck> = Vec::new();
    r.push(LengthCheck { buffer: Buffer::CorrNEnergies, found: l.corr_n_energies as u128, expected: nm });
    r.push(LengthCheck { buffer: Buffer::CorrNComponents, found: l.corr_n_components as u128, expected: nm });
    r.push(LengthCheck { buffer: Buffer::CorrAeOffset, found: l.corr_ae_offset as u128, expected: nm });
    r.push(LengthCheck { buffer: Buffer::CorrEnergyGrid, found: l.corr_energy_grid as u128, expected: l.corr_n_x as u128 });
    r.push(LengthCheck { buffer: Buffer::CorrXOffset, found: l.corr_x_offset as u128, expected: l.corr_n_x as u128 });
    r.push(LengthCheck { buffer: Buffer::CorrX, found: l.corr_x as u128, expected: l.corr_n_mu as u128 });
    r.push(LengthCheck { buffer: Buffer::CorrCdf, found: l.corr_cdf as u128, expected: l.corr_x as u128 });
    r.push(LengthCheck { buffer: Buffer::CorrP, found: l.corr_p as u128, expected: l.corr_x as u128 });
    r.push(LengthCheck { buffer: Buffer::CorrInterp, found: l.corr_interp as u128, expected: l.corr_n_x as u128 });
    r.push(LengthCheck { buffer: Buffer::CorrNDiscrete, found: l.corr_n_discrete as u128, expected: l.corr_n_x as u128 });
    r.push(LengthCheck { buffer: Buffer::CorrMuOffset, found: l.corr_mu_offset as u128, expected: l.corr_n_mu as u128 });
    r.push(LengthCheck { buffer: Buffer::CorrMuCdf, found: l.corr_mu_cdf as u128, expected: l.corr_mu as u128 });
    r.push(LengthCheck { buffer: Buffer::CorrMuPdf, found: l.corr_mu_pdf as u128, expected: l.corr_mu as u128 });
    r.push(LengthCheck { buffer: Buffer::CorrMuInterp, found: l.corr_mu_interp as u128, expected: l.corr_n_mu as u128 });
    assert(views(r@) =~= corr_checks(*l));
    r
}

/// Per-tally tables of `n` tallies.
pub open spec fn tally_table_checks(l: TransportLengths, t: TalliesPack) -> Seq<Check> {
    seq![
        Check { buffer: Buffer::TallyCellToBin, found: t.cell_to_bin@.len() as int, expected: t.n() * l.n_cells },
        Check { buffer: Buffer::TallyNCells, found: t.n_cells_per_tally@.len() as int, expected: t.n() as int },
        Check { buffer: Buffer::TallyEdgesOffsets, found: t.edges_offsets@.len() as int, expected: t.n() as int },
        Check { buffer: Buffer::TallyNBins, found: t.n_bins_per_tally@.len() as int, expected: t.n() as int },
        Check { buffer: Buffer::TallyOutOffsets, found: t.out_offsets@.len() as int, expected: t.n() + 1int },
    ]
}

pub fn tally_table_list(l: &TransportLengths, t: &TalliesPack) -> (r: Vec<LengthCheck>)
    ensures
        views(r@) == tally_table_checks(*l, *t),
{
    let n: u128 = t.score_kinds.len() as u128;
    assert(0 <= n * l.n_cells <= 0xffff_ffff_ffff_ffff * 0xffff_ffff_ffff_ffff) by (nonlinear_arith)
        requires
            0 <= n <= 0xffff_ffff_ffff_ffff,
            0 <= l.n_cells <= 0xffff_ffff_ffff_ffff,
    ;
    let mut r: Vec<LengthCheck> = Vec::new();
    r.push(LengthCheck { buffer: Buffer::TallyCellToBin, found: t.cell_to_bin.len() as u128, expected: n * l.n_cells as u128 });
    r.push(LengthCheck { buffer: Buffer::TallyNCells, found: t.n_cells_per_tally.len() as u128, expected: n });
    r.push(LengthCheck { buffer: Buffer::TallyEdgesOffsets, found: t.edges_offsets.len() as u128, expected: n });
    r.push(LengthCheck { buffer: Buffer::TallyNBins, found: t.n_bins_per_tally.len() as u128, expected: n });
    r.push(LengthCheck { buffer: Buffer::TallyOutOffsets, found: t.out_offsets.len() as u128, expected: n + 1 });
    assert(views(r@) =~= tally_table_checks(*l, *t));
    r
}

/// Per-nuclide cross sections: `elements` grid points over all nuclides.
pub open spec fn nuclide_checks(l: TransportLengths, elements: int) -> Seq<Check> {
    seq![
        Check { buffer: Buffer::NucPartialXs, found: l.nuc_partial_xs as int, expected: elements * NUC_PARTIAL_COLS },
        Check { buffer: Buffer::NucMacroTotal, found: l.nuc_macro_total as int, expected: elements },
    ]
}

pub fn nuclide_list(l: &TransportLengths, elements: u128) -> (r: Vec<LengthCheck>)
    requires
        elements * NUC_PARTIAL_COLS <= u128::MAX,
    ensures
        views(r@) == nuclide_checks(*l, elements as int),
{
    let mut r: Vec<LengthCheck> = Vec::new();
    r.push(LengthCheck { buffer: Buffer::NucPartialXs, found: l.nuc_partial_xs as u128, expected: elements * NUC_PARTIAL_COLS as u128 });
    r.push(LengthCheck { buffer: Buffer::NucMacroTotal, found: l.nuc_macro_total as u128, expected: elements });
    assert(views(r@) =~= nuclide_checks(*l, elements as int));
    r
}

/// Angular distributions: densities and interpolation laws.
pub open spec fn angle_density_checks(l: TransportLengths) -> Seq<Check> {
    seq![
        Check { buffer: Buffer::AnglePdf, found: l.angle_pdf as int, expected: l.angle_mu as int },
        Check { buffer: Buffer::AngleInterp, found: l.angle_interp as int, expected: l.angle_n_mu as int },
    ]
}

pub fn angle_density_list(l: &TransportLengths) -> (r: Vec<LengthCheck>)
    ensures
        views(r@) == angle_density_checks(*l),
{
    let mut r: Vec<LengthCheck> = Vec::new();
    r.push(LengthCheck { buffer: Buffer::AnglePdf, found: l.angle_pdf as u128, expected: l.angle_mu as u128 });
    r.push(LengthCheck { buffer: Buffer::AngleInterp, found: l.angle_interp as u128, expected: l.angle_n_mu as u128 });
    assert(views(r@) =~= angle_density_checks(*l));
    r
}

/// Elastic angular distributions.
pub open spec fn elastic_checks(l: TransportLengths) -> Seq<Check> {
    seq![
        Check { buffer: Buffer::ElasticNEnergies, found: l.elastic_n_energies as int, expected: l.n_slab as int },
        Check { buffer: Buffer::ElasticAeOffset, found: l.elastic_ae_offset as int, expected: l.n_slab as int },
        Check { buffer: Buffer::ElasticEnergyGrid, found: l.elastic_energy_grid as int, expected: l.elastic_n_mu as int },
        Check { buffer: Buffer::ElasticInterp, found: l.elastic_interp as int, expected: l.elastic_n_mu as int },
        Check { buffer: Buffer::ElasticMuOffset, found: l.elastic_mu_offset as int, expected: l.elastic_n_mu as int },
        Check { buffer: Buffer::ElasticCdf, found: l.elastic_cdf as int, expected: l.elastic_mu as int },
        Check { buffer: Buffer::ElasticPdf, found: l.elastic_pdf as int, expected: l.elastic_mu as int },
    ]
}

pub fn elastic_list(l: &TransportLengths) -> (r: Vec<LengthCheck>)
    ensures
        views(r@) == elastic_checks(*l),
{
    let mut r: Vec<LengthCheck> = Vec::new();
    r.push(LengthCheck { buffer: Buffer::ElasticNEnergies, found: l.elastic_n_energies as u128, expected: l.n_slab as u128 });
    r.push(LengthCheck { buffer: Buffer::ElasticAeOffset, found: l.elastic_ae_offset as u128, expected: l.n_slab as u128 });
    r.push(LengthCheck { buffer: Buffer::ElasticEnergyGrid, found: l.elastic_energy_grid as u128, expected: l.elastic_n_mu as u128 });
    r.push(LengthCheck { buffer: Buffer::ElasticInterp, found: l.elastic_interp as u128, expected: l.elastic_n_mu as u128 });
    r.push(LengthCheck { buffer: Buffer::ElasticMuOffset, found: l.elastic_mu_offset as u128, expected: l.elastic_n_mu as u128 });
    r.push(LengthCheck { buffer: Buffer::ElasticCdf, found: l.elastic_cdf as u128, expected: l.elastic_mu as u128 });
    r.push(LengthCheck { buffer: Buffer::ElasticPdf, found: l.elastic_pdf as u128, expected: l.elastic_mu as u128 });
    assert(views(r@) =~= elastic_checks(*l));
    r
}

/// One temperature per material.
pub open spec fn temperature_checks(l: TransportLengths) -> Seq<Check> {
    seq![
        Check { buffer: Buffer::TemperatureK, found: l.temperature_k as int, expected: l.n_materials as int },
    ]
}

pub fn temperature_list(l: &TransportLengths) -> (r: Vec<LengthCheck>)
    ensures
        views(r@) == temperature_checks(*l),
{
    let mut r: Vec<LengthCheck> = Vec::new();
    r.push(LengthCheck { buffer: Buffer::TemperatureK, found: l.temperature_k as u128, expected: l.n_materials as u128 });
    assert(views(r@) =~= temperature_checks(*l));
    r
}

/// Kalbach-Mann tables.
pub open spec fn km_checks(l: TransportLengths) -> Seq<Check> {
    seq![
        Check { buffer: Buffer::KmNEnergies, found: l.km_n_energies as int, expected: slot_rows(l) },
        Check { buffer: Buffer::KmAeOffset, found: l.km_ae_offset as int, expected: slot_rows(l) },
        Check { buffer: Buffer::KmEnergyGrid, found: l.km_energy_grid as int, expected: l.km_n_x as int },
        Check { buffer: Buffer::KmInterp, found: l.km_interp as int, expected: l.km_n_x as int },
        Check { buffer: Buffer::KmNDiscrete, found: l.km_n_discrete as int, expected: l.km_n_x as int },
        Check { buffer: Buffer::KmXOffset, found: l.km_x_offset as int, expected: l.km_n_x as int },
        Check { buffer: Buffer::KmP, found: l.km_p as int, expected: l.km_x as int },
        Check { buffer: Buffer::KmC, found: l.km_c as int, expected: l.km_x as int },
        Check { buffer: Buffer::KmR, found: l.km_r as int, expected: l.km_x as int },
        Check { buffer: Buffer::KmA, found: l.km_a as int, expected: l.km_x as int },
    ]
}

pub fn km_list(l: &TransportLengths) -> (r: Vec<LengthCheck>)
    ensures
        views(r@) == km_checks(*l),
{
    let nm: u128 = l.n_slab as u128 * MT_INELASTIC_COUNT as u128;
    let mut r: Vec<LengthCheck> = Vec::new();
    r.push(LengthCheck { buffer: Buffer::KmNEnergies, found: l.km_n_energies as u128, expected: nm });
    r.push(LengthCheck { buffer: Buffer::KmAeOffset, found: l.km_ae_offset as u128, expected: nm });
    r.push(LengthCheck { buffer: Buffer::KmEnergyGrid, found: l.km_energy_grid as u128, expected: l.km_n_x as u128 });
    r.push(LengthCheck { buffer: Buffer::KmInterp, found: l.km_interp as u128, expected: l.km_n_x as u128 });
    r.push(LengthCheck { buffer: Buffer::KmNDiscrete, found: l.km_n_discrete as u128, expected: l.km_n_x as u128 });
    r.push(LengthCheck { buffer: Buffer::KmXOffset, found: l.km_x_offset as u128, expected: l.km_n_x as u128 });
    r.push(LengthCheck { buffer: Buffer::KmP, found: l.km_p as u128, expected: l.km_x as u128 });
    r.push(LengthCheck { buffer: Buffer::KmC, found: l.km_c as u128, expected: l.km_x as u128 });
    r.push(LengthCheck { buffer: Buffer::KmR, found: l.km_r as u128, expected: l.km_x as u128 });
    r.push(LengthCheck { buffer: Buffer::KmA, found: l.km_a as u128, expected: l.km_x as u128 });
    assert(views(r@) =~= km_checks(*l));
    r
}

/// Evaporation, n-body, Maxwell and Watt laws.
pub open spec fn law_checks(l: TransportLengths) -> Seq<Check> {
    seq![
        Check { buffer: Buffer::EvapNEnergies, found: l.evap_n_energies as int, expected: slot_rows(l) },
        Check { buffer: Buffer::EvapNComponents, found: l.evap_n_components as int, expected: slot_rows(l) },
        Check { buffer: Buffer::EvapAeOffset, found: l.evap_ae_offset as int, expected: slot_rows(l) },
        Check { buffer: Buffer::EvapThetaOffset, found: l.evap_theta_offset as int, expected: slot_rows(l) },
        Check { buffer: Buffer::EvapU, found: l.evap_u as int, expected: l.evap_energy_grid as int },
        Check { buffer: Buffer::NbpsNBodies, found: l.nbps_n_bodies as int, expected: slot_rows(l) },
        Check { buffer: Buffer::NbpsTotalMass, found: l.nbps_total_mass as int, expected: slot_rows(l) },
        Check { buffer: Buffer::MaxwellNEnergies, found: l.maxwell_n_energies as int, expected: slot_rows(l) },
        Check { buffer: Buffer::MaxwellAeOffset, found: l.maxwell_ae_offset as int, expected: slot_rows(l) },
        Check { buffer: Buffer::MaxwellTheta, found: l.maxwell_theta as int, expected: l.maxwell_energy_grid as int },
        Check { buffer: Buffer::MaxwellU, found: l.maxwell_u as int, expected: slot_rows(l) },
        Check { buffer: Buffer::WattNEnergies, found: l.watt_n_energies as int, expected: slot_rows(l) },
        Check { buffer: Buffer::WattAeOffset, found: l.watt_ae_offset as int, expected: slot_rows(l) },
        Check { buffer: Buffer::WattA, found: l.watt_a as int, expected: l.watt_energy_grid as int },
        Check { buffer: Buffer::WattB, found: l.watt_b as int, expected: l.watt_energy_grid as int },
        Check { buffer: Buffer::WattU, found: l.watt_u as int, expected: slot_rows(l) },
    ]
}

pub fn law_list(l: &TransportLengths) -> (r: Vec<LengthCheck>)
    ensures
        views(r@) == law_checks(*l),
{
    let nm: u128 = l.n_slab as u128 * MT_INELASTIC_COUNT as u128;
    let mut r: Vec<LengthCheck> = Vec::new();
    r.push(LengthCheck { buffer: Buffer::EvapNEnergies, found: l.evap_n_energies as u128, expected: nm });
    r.push(LengthCheck { buffer: Buffer::EvapNComponents, found: l.evap_n_components as u128, expected: nm });
    r.push(LengthCheck { buffer: Buffer::EvapAeOffset, found: l.evap_ae_offset as u128, expected: nm });
    r.push(LengthCheck { buffer: Buffer::EvapThetaOffset, found: l.evap_theta_offset as u128, expected: nm });
    r.push(LengthCheck { buffer: Buffer::EvapU, found: l.evap_u as u128, expected: l.evap_energy_grid as u128 });
    r.push(LengthCheck { buffer: Buffer::NbpsNBodies, found: l.nbps_n_bodies as u128, expected: nm });
    r.push(LengthCheck { buffer: Buffer::NbpsTotalMass, found: l.nbps_total_mass as u128, expected: nm });
    r.push(LengthCheck { buffer: Buffer::MaxwellNEnergies, found: l.maxwell_n_energies as u128, expected: nm });
    r.push(LengthCheck { buffer: Buffer::MaxwellAeOffset, found: l.maxwell_ae_offset as u128, expected: nm });
    r.push(LengthCheck { buffer: Buffer::MaxwellTheta, found: l.maxwell_theta as u128, expected: l.maxwell_energy_grid as u128 });
    r.push(LengthCheck { buffer: Buffer::MaxwellU, found: l.maxwell_u as u128, expected: nm });
    r.push(LengthCheck { buffer: Buffer::WattNEnergies, found: l.watt_n_energies as u128, expected: nm });
    r.push(LengthCheck { buffer: Buffer::WattAeOffset, found: l.watt_ae_offset as u128, expected: nm });
    r.push(LengthCheck { buffer: Buffer::WattA, found: l.watt_a as u128, expected: l.watt_energy_grid as u128 });
    r.push(LengthCheck { buffer: Buffer::WattB, found: l.watt_b as u128, expected: l.watt_energy_grid as u128 });
    r.push(LengthCheck { buffer: Buffer::WattU, found: l.watt_u as u128, expected: nm });
    assert(views(r@) =~= law_checks(*l));
    r
}

/// Unresolved-resonance tables.
pub open spec fn urr_checks(l: TransportLengths) -> Seq<Check> {
    seq![
        Check { buffer: Buffer::UrrMeta, found: l.urr_meta as int, expected: l.n_slab * URR_META_COLS },
        Check { buffer: Buffer::UrrAeOffset, found: l.urr_ae_offset as int, expected: l.n_slab as int },
        Check { buffer: Buffer::UrrCdfOffset, found: l.urr_cdf_offset as int, expected: l.n_slab as int },
        Check { buffer: Buffer::UrrXs, found: l.urr_xs as int, expected: l.urr_cdf * l.urr_xs_cols },
        Check { buffer: Buffer::UrrAtomDensity, found: l.urr_atom_density as int, expected: l.n_slab as int },
    ]
}

pub fn urr_list(l: &TransportLengths) -> (r: Vec<LengthCheck>)
    ensures
        views(r@) == urr_checks(*l),
{
    assert(0 <= l.urr_cdf * l.urr_xs_cols <= 0xffff_ffff_ffff_ffff * 0xffff_ffff_ffff_ffff) by (nonlinear_arith)
        requires
            0 <= l.urr_cdf <= 0xffff_ffff_ffff_ffff,
            0 <= l.urr_xs_cols <= 0xffff_ffff_ffff_ffff,
    ;
    assert(l.n_slab * URR_META_COLS == l.n_slab * 8);
    let mut r: Vec<LengthCheck> = Vec::new();
    r.push(LengthCheck { buffer: Buffer::UrrMeta, found: l.urr_meta as u128, expected: l.n_slab as u128 * URR_META_COLS as u128 });
    r.push(LengthCheck { buffer: Buffer::UrrAeOffset, found: l.urr_ae_offset as u128, expected: l.n_slab as u128 });
    r.push(LengthCheck { buffer: Buffer::UrrCdfOffset, found: l.urr_cdf_offset as u128, expected: l.n_slab as u128 });
    r.push(LengthCheck { buffer: Buffer::UrrXs, found: l.urr_xs as u128, expected: l.urr_cdf as u128 * l.urr_xs_cols as u128 });
    r.push(LengthCheck { buffer: Buffer::UrrAtomDensity, found: l.urr_atom_density as u128, expected: l.n_slab as u128 });
    assert(views(r@) =~= urr_checks(*l));
    r
}

} // verus!
