//! Which inputs are taken: those whose tables have the lengths that go together,
//! and whose tallies have bins with ascending edges.
use crate::ieee::Real;
use crate::lengths::{
    aggregate_checks, angle_checks, angle_density_checks, coarse_checks, corr_checks,
    elastic_checks, eout_density_checks, eout_histogram_checks, eout_points_checks,
    eout_rows_checks, fine_checks, fission_checks, frame_checks, km_checks, law_checks,
    nuclide_checks, range_checks, slab_checks, slot_checks, sparse_checks, surface_checks,
    tally_table_checks, temperature_checks, urr_checks,
    all_hold, is_first_failure, Buffer, Check, TransportLengths,
};
use crate::tally::TalliesPack;
use crate::validate::{
    column_sum, launch_law_checks, launch_material_checks, launch_table_checks, material_checks,
    nuclide_points, shape_checks, slab_shape_checks, slot_value_checks,
    tallies_valid, tally_valid, transport_checks, validate_launch_inputs,
    validate_transport_inputs, LayoutError,
};
use vstd::prelude::*;

verus! {

/// Cells and surfaces have the lengths that go with them.
pub open spec fn surface_fit(l: TransportLengths) -> bool {
    &&& l.cell_to_material == l.n_cells
    &&& l.surface_boundaries == l.surface_types
}

/// The refusal names one of these tables, with the length found and the one asked for.
pub open spec fn surface_named(l: TransportLengths, c: Check) -> bool {
    ||| c.buffer == Buffer::CellToMaterial && c.found == l.cell_to_material && c.expected == l.n_cells
    ||| c.buffer == Buffer::SurfaceBoundaries && c.found == l.surface_boundaries
        && c.expected == l.surface_types
}

proof fn lemma_surface(l: TransportLengths)
    ensures
        all_hold(surface_checks(l)) <==> surface_fit(l),
        forall|c: Check| #[trigger] surface_checks(l).contains(c) ==> surface_named(l, c),
{
    let s = surface_checks(l);
    assert(s.len() == 2);
    assert(s[0].holds() <==> s[0].found == s[0].expected);
    assert(s[1].holds() <==> s[1].found == s[1].expected);
}

/// Fine grids have the lengths that go with them.
pub open spec fn fine_fit(l: TransportLengths) -> bool {
    &&& l.fine_meta == l.n_materials * 3
}

/// The refusal names one of these tables, with the length found and the one asked for.
pub open spec fn fine_named(l: TransportLengths, c: Check) -> bool {
    ||| c.buffer == Buffer::FineMeta && c.found == l.fine_meta && c.expected == l.n_materials * 3
}

proof fn lemma_fine(l: TransportLengths)
    ensures
        all_hold(fine_checks(l)) <==> fine_fit(l),
        forall|c: Check| #[trigger] fine_checks(l).contains(c) ==> fine_named(l, c),
{
    let s = fine_checks(l);
    assert(s.len() == 1);
    assert(s[0].holds() <==> s[0].found == s[0].expected);
}

/// Cross sections of a material have the lengths that go with them.
pub open spec fn aggregate_fit(l: TransportLengths, points: int) -> bool {
    &&& l.xs_elastic == points
    &&& l.xs_absorption == points
    &&& l.xs_inelastic == points
    &&& l.xs_fission == points
    &&& l.nu_bar == points
    &&& l.beta_delayed == points
}

/// The refusal names one of these tables, with the length found and the one asked for.
pub open spec fn aggregate_named(l: TransportLengths, points: int, c: Check) -> bool {
    ||| c.buffer == Buffer::XsElastic && c.found == l.xs_elastic && c.expected == points
    ||| c.buffer == Buffer::XsAbsorption && c.found == l.xs_absorption && c.expected == points
    ||| c.buffer == Buffer::XsInelastic && c.found == l.xs_inelastic && c.expected == points
    ||| c.buffer == Buffer::XsFission && c.found == l.xs_fission && c.expected == points
    ||| c.buffer == Buffer::NuBar && c.found == l.nu_bar && c.expected == points
    ||| c.buffer == Buffer::BetaDelayed && c.found == l.beta_delayed && c.expected == points
}

proof fn lemma_aggregate(l: TransportLengths, points: int)
    ensures
        all_hold(aggregate_checks(l, points)) <==> aggregate_fit(l, points),
        forall|c: Check| #[trigger]
            aggregate_checks(l, points).contains(c)
            ==> aggregate_named(l, points, c),
{
    let s = aggregate_checks(l, points);
    assert(s.len() == 6);
    assert(s[0].holds() <==> s[0].found == s[0].expected);
    assert(s[1].holds() <==> s[1].found == s[1].expected);
    assert(s[2].holds() <==> s[2].found == s[2].expected);
    assert(s[3].holds() <==> s[3].found == s[3].expected);
    assert(s[4].holds() <==> s[4].found == s[4].expected);
    assert(s[5].holds() <==> s[5].found == s[5].expected);
}

/// Fission tables have the lengths that go with them.
pub open spec fn fission_fit(l: TransportLengths) -> bool {
    &&& l.fission_a == l.n_materials
    &&& l.fission_b == l.n_materials
    &&& l.fission_eout_kind == 2 * l.n_materials
    &&& l.fission_eout_n_energies == 2 * l.n_materials
    &&& l.fission_eout_ae_offset == 2 * l.n_materials
    &&& l.fission_eout_energy_grid == l.fission_eout_n_x
    &&& l.fission_eout_x_offset == l.fission_eout_n_x
    &&& l.fission_eout_cdf == l.fission_eout_x
    &&& l.fission_eout_p == l.fission_eout_x
    &&& l.fission_eout_interp == l.fission_eout_n_x
}

/// The refusal names one of these tables, with the length found and the one asked for.
pub open spec fn fission_named(l: TransportLengths, c: Check) -> bool {
    ||| c.buffer == Buffer::FissionA && c.found == l.fission_a && c.expected == l.n_materials
    ||| c.buffer == Buffer::FissionB && c.found == l.fission_b && c.expected == l.n_materials
    ||| c.buffer == Buffer::FissionEoutKind && c.found == l.fission_eout_kind
        && c.expected == 2 * l.n_materials
    ||| c.buffer == Buffer::FissionEoutNEnergies && c.found == l.fission_eout_n_energies
        && c.expected == 2 * l.n_materials
    ||| c.buffer == Buffer::FissionEoutAeOffset && c.found == l.fission_eout_ae_offset
        && c.expected == 2 * l.n_materials
    ||| c.buffer == Buffer::FissionEoutEnergyGrid && c.found == l.fission_eout_energy_grid
        && c.expected == l.fission_eout_n_x
    ||| c.buffer == Buffer::FissionEoutXOffset && c.found == l.fission_eout_x_offset
        && c.expected == l.fission_eout_n_x
    ||| c.buffer == Buffer::FissionEoutCdf && c.found == l.fission_eout_cdf
        && c.expected == l.fission_eout_x
    ||| c.buffer == Buffer::FissionEoutP && c.found == l.fission_eout_p && c.expected == l.fission_eout_x
    ||| c.buffer == Buffer::FissionEoutInterp && c.found == l.fission_eout_interp
        && c.expected == l.fission_eout_n_x
}

proof fn lemma_fission(l: TransportLengths)
    ensures
        all_hold(fission_checks(l)) <==> fission_fit(l),
        forall|c: Check| #[trigger] fission_checks(l).contains(c) ==> fission_named(l, c),
{
    let s = fission_checks(l);
    assert(s.len() == 10);
    assert(s[0].holds() <==> s[0].found == s[0].expected);
    assert(s[1].holds() <==> s[1].found == s[1].expected);
    assert(s[2].holds() <==> s[2].found == s[2].expected);
    assert(s[3].holds() <==> s[3].found == s[3].expected);
    assert(s[4].holds() <==> s[4].found == s[4].expected);
    assert(s[5].holds() <==> s[5].found == s[5].expected);
    assert(s[6].holds() <==> s[6].found == s[6].expected);
    assert(s[7].holds() <==> s[7].found == s[7].expected);
    assert(s[8].holds() <==> s[8].found == s[8].expected);
    assert(s[9].holds() <==> s[9].found == s[9].expected);
}

/// Coarse grids have the lengths that go with them.
pub open spec fn coarse_fit(l: TransportLengths) -> bool {
    &&& l.coarse_meta == l.n_materials * 3
}

/// The refusal names one of these tables, with the length found and the one asked for.
pub open spec fn coarse_named(l: TransportLengths, c: Check) -> bool {
    ||| c.buffer == Buffer::CoarseMeta && c.found == l.coarse_meta && c.expected == l.n_materials * 3
}

proof fn lemma_coarse(l: TransportLengths)
    ensures
        all_hold(coarse_checks(l)) <==> coarse_fit(l),
        forall|c: Check| #[trigger] coarse_checks(l).contains(c) ==> coarse_named(l, c),
{
    let s = coarse_checks(l);
    assert(s.len() == 1);
    assert(s[0].holds() <==> s[0].found == s[0].expected);
}

/// Nuclide ranges have the lengths that go with them.
pub open spec fn range_fit(l: TransportLengths) -> bool {
    &&& l.mat_nuclide_meta == l.n_materials * 2
}

/// The refusal names one of these tables, with the length found and the one asked for.
pub open spec fn range_named(l: TransportLengths, c: Check) -> bool {
    ||| c.buffer == Buffer::MatNuclideMeta && c.found == l.mat_nuclide_meta
        && c.expected == l.n_materials * 2
}

proof fn lemma_range(l: TransportLengths)
    ensures
        all_hold(range_checks(l)) <==> range_fit(l),
        forall|c: Check| #[trigger] range_checks(l).contains(c) ==> range_named(l, c),
{
    let s = range_checks(l);
    assert(s.len() == 1);
    assert(s[0].holds() <==> s[0].found == s[0].expected);
}

/// Slabs have the lengths that go with them.
pub open spec fn slab_fit(l: TransportLengths, total: int) -> bool {
    &&& total == l.n_slab
}

/// The refusal names one of these tables, with the length found and the one asked for.
pub open spec fn slab_named(l: TransportLengths, total: int, c: Check) -> bool {
    ||| c.buffer == Buffer::Slabs && c.found == total && c.expected == l.n_slab
}

proof fn lemma_slab(l: TransportLengths, total: int)
    ensures
        all_hold(slab_checks(l, total)) <==> slab_fit(l, total),
        forall|c: Check| #[trigger] slab_checks(l, total).contains(c) ==> slab_named(l, total, c),
{
    let s = slab_checks(l, total);
    assert(s.len() == 1);
    assert(s[0].holds() <==> s[0].found == s[0].expected);
}

/// Reaction rows have the lengths that go with them.
pub open spec fn slot_fit(l: TransportLengths) -> bool {
    &&& l.permt_meta == l.n_slab * 56 * 3
}

/// The refusal names one of these tables, with the length found and the one asked for.
pub open spec fn slot_named(l: TransportLengths, c: Check) -> bool {
    ||| c.buffer == Buffer::PermtMeta && c.found == l.permt_meta && c.expected == l.n_slab * 56 * 3
}

proof fn lemma_slot(l: TransportLengths)
    ensures
        all_hold(slot_checks(l)) <==> slot_fit(l),
        forall|c: Check| #[trigger] slot_checks(l).contains(c) ==> slot_named(l, c),
{
    let s = slot_checks(l);
    assert(s.len() == 1);
    assert(s[0].holds() <==> s[0].found == s[0].expected);
}

/// Sparse reaction values have the lengths that go with them.
pub open spec fn sparse_fit(l: TransportLengths, stored: int) -> bool {
    &&& l.xs_inelastic_sparse == stored
    &&& l.yield_sparse == stored
    &&& l.q_inelastic == l.n_slab * 56
}

/// The refusal names one of these tables, with the length found and the one asked for.
pub open spec fn sparse_named(l: TransportLengths, stored: int, c: Check) -> bool {
    ||| c.buffer == Buffer::XsInelasticSparse && c.found == l.xs_inelastic_sparse && c.expected == stored
    ||| c.buffer == Buffer::YieldSparse && c.found == l.yield_sparse && c.expected == stored
    ||| c.buffer == Buffer::QInelastic && c.found == l.q_inelastic && c.expected == l.n_slab * 56
}

proof fn lemma_sparse(l: TransportLengths, stored: int)
    ensures
        all_hold(sparse_checks(l, stored)) <==> sparse_fit(l, stored),
        forall|c: Check| #[trigger] sparse_checks(l, stored).contains(c) ==> sparse_named(l, stored, c),
{
    let s = sparse_checks(l, stored);
    assert(s.len() == 3);
    assert(s[0].holds() <==> s[0].found == s[0].expected);
    assert(s[1].holds() <==> s[1].found == s[1].expected);
    assert(s[2].holds() <==> s[2].found == s[2].expected);
}

/// Angle tables have the lengths that go with them.
pub open spec fn angle_fit(l: TransportLengths) -> bool {
    &&& l.angle_n_energies == l.n_slab * 56
    &&& l.angle_ae_offset == l.n_slab * 56
    &&& l.angle_energy_grid == l.angle_n_mu
    &&& l.angle_mu_offset == l.angle_n_mu
    &&& l.angle_cdf == l.angle_mu
}

/// The refusal names one of these tables, with the length found and the one asked for.
pub open spec fn angle_named(l: TransportLengths, c: Check) -> bool {
    ||| c.buffer == Buffer::AngleNEnergies && c.found == l.angle_n_energies
        && c.expected == l.n_slab * 56
    ||| c.buffer == Buffer::AngleAeOffset && c.found == l.angle_ae_offset && c.expected == l.n_slab * 56
    ||| c.buffer == Buffer::AngleEnergyGrid && c.found == l.angle_energy_grid
        && c.expected == l.angle_n_mu
    ||| c.buffer == Buffer::AngleMuOffset && c.found == l.angle_mu_offset && c.expected == l.angle_n_mu
    ||| c.buffer == Buffer::AngleCdf && c.found == l.angle_cdf && c.expected == l.angle_mu
}

proof fn lemma_angle(l: TransportLengths)
    ensures
        all_hold(angle_checks(l)) <==> angle_fit(l),
        forall|c: Check| #[trigger] angle_checks(l).contains(c) ==> angle_named(l, c),
{
    let s = angle_checks(l);
    assert(s.len() == 5);
    assert(s[0].holds() <==> s[0].found == s[0].expected);
    assert(s[1].holds() <==> s[1].found == s[1].expected);
    assert(s[2].holds() <==> s[2].found == s[2].expected);
    assert(s[3].holds() <==> s[3].found == s[3].expected);
    assert(s[4].holds() <==> s[4].found == s[4].expected);
}

/// Frames have the lengths that go with them.
pub open spec fn frame_fit(l: TransportLengths) -> bool {
    &&& l.scatter_in_cm == l.n_slab * 56
}

/// The refusal names one of these tables, with the length found and the one asked for.
pub open spec fn frame_named(l: TransportLengths, c: Check) -> bool {
    ||| c.buffer == Buffer::ScatterInCm && c.found == l.scatter_in_cm && c.expected == l.n_slab * 56
}

proof fn lemma_frame(l: TransportLengths)
    ensures
        all_hold(frame_checks(l)) <==> frame_fit(l),
        forall|c: Check| #[trigger] frame_checks(l).contains(c) ==> frame_named(l, c),
{
    let s = frame_checks(l);
    assert(s.len() == 1);
    assert(s[0].holds() <==> s[0].found == s[0].expected);
}

/// Outgoing energies have the lengths that go with them.
pub open spec fn eout_points_fit(l: TransportLengths) -> bool {
    &&& l.eout_kind == l.n_slab * 56
    &&& l.eout_n_energies == l.n_slab * 56
    &&& l.eout_ae_offset == l.n_slab * 56
    &&& l.eout_energy_grid == l.eout_n_x
    &&& l.eout_x_offset == l.eout_n_x
    &&& l.eout_cdf == l.eout_x
}

/// The refusal names one of these tables, with the length found and the one asked for.
pub open spec fn eout_points_named(l: TransportLengths, c: Check) -> bool {
    ||| c.buffer == Buffer::EoutKind && c.found == l.eout_kind && c.expected == l.n_slab * 56
    ||| c.buffer == Buffer::EoutNEnergies && c.found == l.eout_n_energies && c.expected == l.n_slab * 56
    ||| c.buffer == Buffer::EoutAeOffset && c.found == l.eout_ae_offset && c.expected == l.n_slab * 56
    ||| c.buffer == Buffer::EoutEnergyGrid && c.found == l.eout_energy_grid && c.expected == l.eout_n_x
    ||| c.buffer == Buffer::EoutXOffset && c.found == l.eout_x_offset && c.expected == l.eout_n_x
    ||| c.buffer == Buffer::EoutCdf && c.found == l.eout_cdf && c.expected == l.eout_x
}

proof fn lemma_eout_points(l: TransportLengths)
    ensures
        all_hold(eout_points_checks(l)) <==> eout_points_fit(l),
        forall|c: Check| #[trigger] eout_points_checks(l).contains(c) ==> eout_points_named(l, c),
{
    let s = eout_points_checks(l);
    assert(s.len() == 6);
    assert(s[0].holds() <==> s[0].found == s[0].expected);
    assert(s[1].holds() <==> s[1].found == s[1].expected);
    assert(s[2].holds() <==> s[2].found == s[2].expected);
    assert(s[3].holds() <==> s[3].found == s[3].expected);
    assert(s[4].holds() <==> s[4].found == s[4].expected);
    assert(s[5].holds() <==> s[5].found == s[5].expected);
}

/// Outgoing densities have the lengths that go with them.
pub open spec fn eout_density_fit(l: TransportLengths) -> bool {
    &&& l.eout_p == l.eout_x
}

/// The refusal names one of these tables, with the length found and the one asked for.
pub open spec fn eout_density_named(l: TransportLengths, c: Check) -> bool {
    ||| c.buffer == Buffer::EoutP && c.found == l.eout_p && c.expected == l.eout_x
}

proof fn lemma_eout_density(l: TransportLengths)
    ensures
        all_hold(eout_density_checks(l)) <==> eout_density_fit(l),
        forall|c: Check| #[trigger] eout_density_checks(l).contains(c) ==> eout_density_named(l, c),
{
    let s = eout_density_checks(l);
    assert(s.len() == 1);
    assert(s[0].holds() <==> s[0].found == s[0].expected);
}

/// Outgoing interpolation have the lengths that go with them.
pub open spec fn eout_histogram_fit(l: TransportLengths) -> bool {
    &&& l.eout_histogram_interp == l.n_slab * 56
}

/// The refusal names one of these tables, with the length found and the one asked for.
pub open spec fn eout_histogram_named(l: TransportLengths, c: Check) -> bool {
    ||| c.buffer == Buffer::EoutHistogramInterp && c.found == l.eout_histogram_interp
        && c.expected == l.n_slab * 56
}

proof fn lemma_eout_histogram(l: TransportLengths)
    ensures
        all_hold(eout_histogram_checks(l)) <==> eout_histogram_fit(l),
        forall|c: Check| #[trigger] eout_histogram_checks(l).contains(c) ==> eout_histogram_named(l, c),
{
    let s = eout_histogram_checks(l);
    assert(s.len() == 1);
    assert(s[0].holds() <==> s[0].found == s[0].expected);
}

/// Outgoing rows have the lengths that go with them.
pub open spec fn eout_rows_fit(l: TransportLengths) -> bool {
    &&& l.eout_interp == l.eout_n_x
    &&& l.eout_n_discrete == l.eout_n_x
}

/// The refusal names one of these tables, with the length found and the one asked for.
pub open spec fn eout_rows_named(l: TransportLengths, c: Check) -> bool {
    ||| c.buffer == Buffer::EoutInterp && c.found == l.eout_interp && c.expected == l.eout_n_x
    ||| c.buffer == Buffer::EoutNDiscrete && c.found == l.eout_n_discrete && c.expected == l.eout_n_x
}

proof fn lemma_eout_rows(l: TransportLengths)
    ensures
        all_hold(eout_rows_checks(l)) <==> eout_rows_fit(l),
        forall|c: Check| #[trigger] eout_rows_checks(l).contains(c) ==> eout_rows_named(l, c),
{
    let s = eout_rows_checks(l);
    assert(s.len() == 2);
    assert(s[0].holds() <==> s[0].found == s[0].expected);
    assert(s[1].holds() <==> s[1].found == s[1].expected);
}

/// Correlated tables have the lengths that go with them.
pub open spec fn corr_fit(l: TransportLengths) -> bool {
    &&& l.corr_n_energies == l.n_slab * 56
    &&& l.corr_n_components == l.n_slab * 56
    &&& l.corr_ae_offset == l.n_slab * 56
    &&& l.corr_energy_grid == l.corr_n_x
    &&& l.corr_x_offset == l.corr_n_x
    &&& l.corr_x == l.corr_n_mu
    &&& l.corr_cdf == l.corr_x
    &&& l.corr_p == l.corr_x
    &&& l.corr_interp == l.corr_n_x
    &&& l.corr_n_discrete == l.corr_n_x
    &&& l.corr_mu_offset == l.corr_n_mu
    &&& l.corr_mu_cdf == l.corr_mu
    &&& l.corr_mu_pdf == l.corr_mu
    &&& l.corr_mu_interp == l.corr_n_mu
}

/// The refusal names one of these tables, with the length found and the one asked for.
pub open spec fn corr_named(l: TransportLengths, c: Check) -> bool {
    ||| c.buffer == Buffer::CorrNEnergies && c.found == l.corr_n_energies && c.expected == l.n_slab * 56
    ||| c.buffer == Buffer::CorrNComponents && c.found == l.corr_n_components
        && c.expected == l.n_slab * 56
    ||| c.buffer == Buffer::CorrAeOffset && c.found == l.corr_ae_offset && c.expected == l.n_slab * 56
    ||| c.buffer == Buffer::CorrEnergyGrid && c.found == l.corr_energy_grid && c.expected == l.corr_n_x
    ||| c.buffer == Buffer::CorrXOffset && c.found == l.corr_x_offset && c.expected == l.corr_n_x
    ||| c.buffer == Buffer::CorrX && c.found == l.corr_x && c.expected == l.corr_n_mu
    ||| c.buffer == Buffer::CorrCdf && c.found == l.corr_cdf && c.expected == l.corr_x
    ||| c.buffer == Buffer::CorrP && c.found == l.corr_p && c.expected == l.corr_x
    ||| c.buffer == Buffer::CorrInterp && c.found == l.corr_interp && c.expected == l.corr_n_x
    ||| c.buffer == Buffer::CorrNDiscrete && c.found == l.corr_n_discrete && c.expected == l.corr_n_x
    ||| c.buffer == Buffer::CorrMuOffset && c.found == l.corr_mu_offset && c.expected == l.corr_n_mu
    ||| c.buffer == Buffer::CorrMuCdf && c.found == l.corr_mu_cdf && c.expected == l.corr_mu
    ||| c.buffer == Buffer::CorrMuPdf && c.found == l.corr_mu_pdf && c.expected == l.corr_mu
    ||| c.buffer == Buffer::CorrMuInterp && c.found == l.corr_mu_interp && c.expected == l.corr_n_mu
}

proof fn lemma_corr(l: TransportLengths)
    ensures
        all_hold(corr_checks(l)) <==> corr_fit(l),
        forall|c: Check| #[trigger] corr_checks(l).contains(c) ==> corr_named(l, c),
{
    let s = corr_checks(l);
    assert(s.len() == 14);
    assert(s[0].holds() <==> s[0].found == s[0].expected);
    assert(s[1].holds() <==> s[1].found == s[1].expected);
    assert(s[2].holds() <==> s[2].found == s[2].expected);
    assert(s[3].holds() <==> s[3].found == s[3].expected);
    assert(s[4].holds() <==> s[4].found == s[4].expected);
    assert(s[5].holds() <==> s[5].found == s[5].expected);
    assert(s[6].holds() <==> s[6].found == s[6].expected);
    assert(s[7].holds() <==> s[7].found == s[7].expected);
    assert(s[8].holds() <==> s[8].found == s[8].expected);
    assert(s[9].holds() <==> s[9].found == s[9].expected);
    assert(s[10].holds() <==> s[10].found == s[10].expected);
    assert(s[11].holds() <==> s[11].found == s[11].expected);
    assert(s[12].holds() <==> s[12].found == s[12].expected);
    assert(s[13].holds() <==> s[13].found == s[13].expected);
}

/// Tally tables have the lengths that go with them.
pub open spec fn tally_table_fit(l: TransportLengths, t: TalliesPack) -> bool {
    &&& t.cell_to_bin@.len() == t.score_kinds@.len() * l.n_cells
    &&& t.n_cells_per_tally@.len() == t.score_kinds@.len()
    &&& t.edges_offsets@.len() == t.score_kinds@.len()
    &&& t.n_bins_per_tally@.len() == t.score_kinds@.len()
    &&& t.out_offsets@.len() == t.score_kinds@.len() + 1int
}

/// The refusal names one of these tables, with the length found and the one asked for.
pub open spec fn tally_table_named(l: TransportLengths, t: TalliesPack, c: Check) -> bool {
    ||| c.buffer == Buffer::TallyCellToBin && c.found == t.cell_to_bin@.len()
        && c.expected == t.score_kinds@.len() * l.n_cells
    ||| c.buffer == Buffer::TallyNCells && c.found == t.n_cells_per_tally@.len()
        && c.expected == t.score_kinds@.len()
    ||| c.buffer == Buffer::TallyEdgesOffsets && c.found == t.edges_offsets@.len()
        && c.expected == t.score_kinds@.len()
    ||| c.buffer == Buffer::TallyNBins && c.found == t.n_bins_per_tally@.len()
        && c.expected == t.score_kinds@.len()
    ||| c.buffer == Buffer::TallyOutOffsets && c.found == t.out_offsets@.len()
        && c.expected == t.score_kinds@.len() + 1int
}

proof fn lemma_tally_table(l: TransportLengths, t: TalliesPack)
    ensures
        all_hold(tally_table_checks(l, t)) <==> tally_table_fit(l, t),
        forall|c: Check| #[trigger] tally_table_checks(l, t).contains(c) ==> tally_table_named(l, t, c),
{
    let s = tally_table_checks(l, t);
    assert(s.len() == 5);
    assert(s[0].holds() <==> s[0].found == s[0].expected);
    assert(s[1].holds() <==> s[1].found == s[1].expected);
    assert(s[2].holds() <==> s[2].found == s[2].expected);
    assert(s[3].holds() <==> s[3].found == s[3].expected);
    assert(s[4].holds() <==> s[4].found == s[4].expected);
}

/// Nuclide cross sections have the lengths that go with them.
pub open spec fn nuclide_fit(l: TransportLengths, elements: int) -> bool {
    &&& l.nuc_partial_xs == elements * 4
    &&& l.nuc_macro_total == elements
}

/// The refusal names one of these tables, with the length found and the one asked for.
pub open spec fn nuclide_named(l: TransportLengths, elements: int, c: Check) -> bool {
    ||| c.buffer == Buffer::NucPartialXs && c.found == l.nuc_partial_xs && c.expected == elements * 4
    ||| c.buffer == Buffer::NucMacroTotal && c.found == l.nuc_macro_total && c.expected == elements
}

proof fn lemma_nuclide(l: TransportLengths, elements: int)
    ensures
        all_hold(nuclide_checks(l, elements)) <==> nuclide_fit(l, elements),
        forall|c: Check| #[trigger]
            nuclide_checks(l, elements).contains(c)
            ==> nuclide_named(l, elements, c),
{
    let s = nuclide_checks(l, elements);
    assert(s.len() == 2);
    assert(s[0].holds() <==> s[0].found == s[0].expected);
    assert(s[1].holds() <==> s[1].found == s[1].expected);
}

/// Angle densities have the lengths that go with them.
pub open spec fn angle_density_fit(l: TransportLengths) -> bool {
    &&& l.angle_pdf == l.angle_mu
    &&& l.angle_interp == l.angle_n_mu
}

/// The refusal names one of these tables, with the length found and the one asked for.
pub open spec fn angle_density_named(l: TransportLengths, c: Check) -> bool {
    ||| c.buffer == Buffer::AnglePdf && c.found == l.angle_pdf && c.expected == l.angle_mu
    ||| c.buffer == Buffer::AngleInterp && c.found == l.angle_interp && c.expected == l.angle_n_mu
}

proof fn lemma_angle_density(l: TransportLengths)
    ensures
        all_hold(angle_density_checks(l)) <==> angle_density_fit(l),
        forall|c: Check| #[trigger] angle_density_checks(l).contains(c) ==> angle_density_named(l, c),
{
    let s = angle_density_checks(l);
    assert(s.len() == 2);
    assert(s[0].holds() <==> s[0].found == s[0].expected);
    assert(s[1].holds() <==> s[1].found == s[1].expected);
}

/// Elastic tables have the lengths that go with them.
pub open spec fn elastic_fit(l: TransportLengths) -> bool {
    &&& l.elastic_n_energies == l.n_slab
    &&& l.elastic_ae_offset == l.n_slab
    &&& l.elastic_energy_grid == l.elastic_n_mu
    &&& l.elastic_interp == l.elastic_n_mu
    &&& l.elastic_mu_offset == l.elastic_n_mu
    &&& l.elastic_cdf == l.elastic_mu
    &&& l.elastic_pdf == l.elastic_mu
}

/// The refusal names one of these tables, with the length found and the one asked for.
pub open spec fn elastic_named(l: TransportLengths, c: Check) -> bool {
    ||| c.buffer == Buffer::ElasticNEnergies && c.found == l.elastic_n_energies && c.expected == l.n_slab
    ||| c.buffer == Buffer::ElasticAeOffset && c.found == l.elastic_ae_offset && c.expected == l.n_slab
    ||| c.buffer == Buffer::ElasticEnergyGrid && c.found == l.elastic_energy_grid
        && c.expected == l.elastic_n_mu
    ||| c.buffer == Buffer::ElasticInterp && c.found == l.elastic_interp && c.expected == l.elastic_n_mu
    ||| c.buffer == Buffer::ElasticMuOffset && c.found == l.elastic_mu_offset
        && c.expected == l.elastic_n_mu
    ||| c.buffer == Buffer::ElasticCdf && c.found == l.elastic_cdf && c.expected == l.elastic_mu
    ||| c.buffer == Buffer::ElasticPdf && c.found == l.elastic_pdf && c.expected == l.elastic_mu
}

proof fn lemma_elastic(l: TransportLengths)
    ensures
        all_hold(elastic_checks(l)) <==> elastic_fit(l),
        forall|c: Check| #[trigger] elastic_checks(l).contains(c) ==> elastic_named(l, c),
{
    let s = elastic_checks(l);
    assert(s.len() == 7);
    assert(s[0].holds() <==> s[0].found == s[0].expected);
    assert(s[1].holds() <==> s[1].found == s[1].expected);
    assert(s[2].holds() <==> s[2].found == s[2].expected);
    assert(s[3].holds() <==> s[3].found == s[3].expected);
    assert(s[4].holds() <==> s[4].found == s[4].expected);
    assert(s[5].holds() <==> s[5].found == s[5].expected);
    assert(s[6].holds() <==> s[6].found == s[6].expected);
}

/// Temperatures have the lengths that go with them.
pub open spec fn temperature_fit(l: TransportLengths) -> bool {
    &&& l.temperature_k == l.n_materials
}

/// The refusal names one of these tables, with the length found and the one asked for.
pub open spec fn temperature_named(l: TransportLengths, c: Check) -> bool {
    ||| c.buffer == Buffer::TemperatureK && c.found == l.temperature_k && c.expected == l.n_materials
}

proof fn lemma_temperature(l: TransportLengths)
    ensures
        all_hold(temperature_checks(l)) <==> temperature_fit(l),
        forall|c: Check| #[trigger] temperature_checks(l).contains(c) ==> temperature_named(l, c),
{
    let s = temperature_checks(l);
    assert(s.len() == 1);
    assert(s[0].holds() <==> s[0].found == s[0].expected);
}

/// Kalbach-Mann tables have the lengths that go with them.
pub open spec fn km_fit(l: TransportLengths) -> bool {
    &&& l.km_n_energies == l.n_slab * 56
    &&& l.km_ae_offset == l.n_slab * 56
    &&& l.km_energy_grid == l.km_n_x
    &&& l.km_interp == l.km_n_x
    &&& l.km_n_discrete == l.km_n_x
    &&& l.km_x_offset == l.km_n_x
    &&& l.km_p == l.km_x
    &&& l.km_c == l.km_x
    &&& l.km_r == l.km_x
    &&& l.km_a == l.km_x
}

/// The refusal names one of these tables, with the length found and the one asked for.
pub open spec fn km_named(l: TransportLengths, c: Check) -> bool {
    ||| c.buffer == Buffer::KmNEnergies && c.found == l.km_n_energies && c.expected == l.n_slab * 56
    ||| c.buffer == Buffer::KmAeOffset && c.found == l.km_ae_offset && c.expected == l.n_slab * 56
    ||| c.buffer == Buffer::KmEnergyGrid && c.found == l.km_energy_grid && c.expected == l.km_n_x
    ||| c.buffer == Buffer::KmInterp && c.found == l.km_interp && c.expected == l.km_n_x
    ||| c.buffer == Buffer::KmNDiscrete && c.found == l.km_n_discrete && c.expected == l.km_n_x
    ||| c.buffer == Buffer::KmXOffset && c.found == l.km_x_offset && c.expected == l.km_n_x
    ||| c.buffer == Buffer::KmP && c.found == l.km_p && c.expected == l.km_x
    ||| c.buffer == Buffer::KmC && c.found == l.km_c && c.expected == l.km_x
    ||| c.buffer == Buffer::KmR && c.found == l.km_r && c.expected == l.km_x
    ||| c.buffer == Buffer::KmA && c.found == l.km_a && c.expected == l.km_x
}

proof fn lemma_km(l: TransportLengths)
    ensures
        all_hold(km_checks(l)) <==> km_fit(l),
        forall|c: Check| #[trigger] km_checks(l).contains(c) ==> km_named(l, c),
{
    let s = km_checks(l);
    assert(s.len() == 10);
    assert(s[0].holds() <==> s[0].found == s[0].expected);
    assert(s[1].holds() <==> s[1].found == s[1].expected);
    assert(s[2].holds() <==> s[2].found == s[2].expected);
    assert(s[3].holds() <==> s[3].found == s[3].expected);
    assert(s[4].holds() <==> s[4].found == s[4].expected);
    assert(s[5].holds() <==> s[5].found == s[5].expected);
    assert(s[6].holds() <==> s[6].found == s[6].expected);
    assert(s[7].holds() <==> s[7].found == s[7].expected);
    assert(s[8].holds() <==> s[8].found == s[8].expected);
    assert(s[9].holds() <==> s[9].found == s[9].expected);
}

/// Closed-form laws have the lengths that go with them.
pub open spec fn law_fit(l: TransportLengths) -> bool {
    &&& l.evap_n_energies == l.n_slab * 56
    &&& l.evap_n_components == l.n_slab * 56
    &&& l.evap_ae_offset == l.n_slab * 56
    &&& l.evap_theta_offset == l.n_slab * 56
    &&& l.evap_u == l.evap_energy_grid
    &&& l.nbps_n_bodies == l.n_slab * 56
    &&& l.nbps_total_mass == l.n_slab * 56
    &&& l.maxwell_n_energies == l.n_slab * 56
    &&& l.maxwell_ae_offset == l.n_slab * 56
    &&& l.maxwell_theta == l.maxwell_energy_grid
    &&& l.maxwell_u == l.n_slab * 56
    &&& l.watt_n_energies == l.n_slab * 56
    &&& l.watt_ae_offset == l.n_slab * 56
    &&& l.watt_a == l.watt_energy_grid
    &&& l.watt_b == l.watt_energy_grid
    &&& l.watt_u == l.n_slab * 56
}

/// The refusal names one of these tables, with the length found and the one asked for.
pub open spec fn law_named(l: TransportLengths, c: Check) -> bool {
    ||| c.buffer == Buffer::EvapNEnergies && c.found == l.evap_n_energies && c.expected == l.n_slab * 56
    ||| c.buffer == Buffer::EvapNComponents && c.found == l.evap_n_components
        && c.expected == l.n_slab * 56
    ||| c.buffer == Buffer::EvapAeOffset && c.found == l.evap_ae_offset && c.expected == l.n_slab * 56
    ||| c.buffer == Buffer::EvapThetaOffset && c.found == l.evap_theta_offset
        && c.expected == l.n_slab * 56
    ||| c.buffer == Buffer::EvapU && c.found == l.evap_u && c.expected == l.evap_energy_grid
    ||| c.buffer == Buffer::NbpsNBodies && c.found == l.nbps_n_bodies && c.expected == l.n_slab * 56
    ||| c.buffer == Buffer::NbpsTotalMass && c.found == l.nbps_total_mass && c.expected == l.n_slab * 56
    ||| c.buffer == Buffer::MaxwellNEnergies && c.found == l.maxwell_n_energies
        && c.expected == l.n_slab * 56
    ||| c.buffer == Buffer::MaxwellAeOffset && c.found == l.maxwell_ae_offset
        && c.expected == l.n_slab * 56
    ||| c.buffer == Buffer::MaxwellTheta && c.found == l.maxwell_theta
        && c.expected == l.maxwell_energy_grid
    ||| c.buffer == Buffer::MaxwellU && c.found == l.maxwell_u && c.expected == l.n_slab * 56
    ||| c.buffer == Buffer::WattNEnergies && c.found == l.watt_n_energies && c.expected == l.n_slab * 56
    ||| c.buffer == Buffer::WattAeOffset && c.found == l.watt_ae_offset && c.expected == l.n_slab * 56
    ||| c.buffer == Buffer::WattA && c.found == l.watt_a && c.expected == l.watt_energy_grid
    ||| c.buffer == Buffer::WattB && c.found == l.watt_b && c.expected == l.watt_energy_grid
    ||| c.buffer == Buffer::WattU && c.found == l.watt_u && c.expected == l.n_slab * 56
}

proof fn lemma_law(l: TransportLengths)
    ensures
        all_hold(law_checks(l)) <==> law_fit(l),
        forall|c: Check| #[trigger] law_checks(l).contains(c) ==> law_named(l, c),
{
    let s = law_checks(l);
    assert(s.len() == 16);
    assert(s[0].holds() <==> s[0].found == s[0].expected);
    assert(s[1].holds() <==> s[1].found == s[1].expected);
    assert(s[2].holds() <==> s[2].found == s[2].expected);
    assert(s[3].holds() <==> s[3].found == s[3].expected);
    assert(s[4].holds() <==> s[4].found == s[4].expected);
    assert(s[5].holds() <==> s[5].found == s[5].expected);
    assert(s[6].holds() <==> s[6].found == s[6].expected);
    assert(s[7].holds() <==> s[7].found == s[7].expected);
    assert(s[8].holds() <==> s[8].found == s[8].expected);
    assert(s[9].holds() <==> s[9].found == s[9].expected);
    assert(s[10].holds() <==> s[10].found == s[10].expected);
    assert(s[11].holds() <==> s[11].found == s[11].expected);
    assert(s[12].holds() <==> s[12].found == s[12].expected);
    assert(s[13].holds() <==> s[13].found == s[13].expected);
    assert(s[14].holds() <==> s[14].found == s[14].expected);
    assert(s[15].holds() <==> s[15].found == s[15].expected);
}

/// Unresolved-resonance tables have the lengths that go with them.
pub open spec fn urr_fit(l: TransportLengths) -> bool {
    &&& l.urr_meta == l.n_slab * 8
    &&& l.urr_ae_offset == l.n_slab
    &&& l.urr_cdf_offset == l.n_slab
    &&& l.urr_xs == l.urr_cdf * l.urr_xs_cols
    &&& l.urr_atom_density == l.n_slab
}

/// The refusal names one of these tables, with the length found and the one asked for.
pub open spec fn urr_named(l: TransportLengths, c: Check) -> bool {
    ||| c.buffer == Buffer::UrrMeta && c.found == l.urr_meta && c.expected == l.n_slab * 8
    ||| c.buffer == Buffer::UrrAeOffset && c.found == l.urr_ae_offset && c.expected == l.n_slab
    ||| c.buffer == Buffer::UrrCdfOffset && c.found == l.urr_cdf_offset && c.expected == l.n_slab
    ||| c.buffer == Buffer::UrrXs && c.found == l.urr_xs && c.expected == l.urr_cdf * l.urr_xs_cols
    ||| c.buffer == Buffer::UrrAtomDensity && c.found == l.urr_atom_density && c.expected == l.n_slab
}

proof fn lemma_urr(l: TransportLengths)
    ensures
        all_hold(urr_checks(l)) <==> urr_fit(l),
        forall|c: Check| #[trigger] urr_checks(l).contains(c) ==> urr_named(l, c),
{
    let s = urr_checks(l);
    assert(s.len() == 5);
    assert(s[0].holds() <==> s[0].found == s[0].expected);
    assert(s[1].holds() <==> s[1].found == s[1].expected);
    assert(s[2].holds() <==> s[2].found == s[2].expected);
    assert(s[3].holds() <==> s[3].found == s[3].expected);
    assert(s[4].holds() <==> s[4].found == s[4].expected);
}

/// All tables of a run on the host fit together.
pub open spec fn tables_fit(
    l: TransportLengths,
    t: TalliesPack,
    points: int,
    slabs: int,
    stored: int,
) -> bool {
    &&& surface_fit(l)
    &&& fine_fit(l)
    &&& aggregate_fit(l, points)
    &&& fission_fit(l)
    &&& coarse_fit(l)
    &&& range_fit(l)
    &&& slab_fit(l, slabs)
    &&& slot_fit(l)
    &&& sparse_fit(l, stored)
    &&& angle_fit(l)
    &&& frame_fit(l)
    &&& eout_points_fit(l)
    &&& eout_density_fit(l)
    &&& eout_histogram_fit(l)
    &&& eout_rows_fit(l)
    &&& corr_fit(l)
    &&& tally_table_fit(l, t)
}

/// The refusal is about one of the tables of a run on the host.
pub open spec fn names_a_table(
    l: TransportLengths,
    t: TalliesPack,
    points: int,
    slabs: int,
    stored: int,
    c: Check,
) -> bool {
    ||| surface_named(l, c)
    ||| fine_named(l, c)
    ||| aggregate_named(l, points, c)
    ||| fission_named(l, c)
    ||| coarse_named(l, c)
    ||| range_named(l, c)
    ||| slab_named(l, slabs, c)
    ||| slot_named(l, c)
    ||| sparse_named(l, stored, c)
    ||| angle_named(l, c)
    ||| frame_named(l, c)
    ||| eout_points_named(l, c)
    ||| eout_density_named(l, c)
    ||| eout_histogram_named(l, c)
    ||| eout_rows_named(l, c)
    ||| corr_named(l, c)
    ||| tally_table_named(l, t, c)
}

/// All tables of a launch fit together, those of the surfaces aside.
pub open spec fn launch_tables_fit(
    l: TransportLengths,
    t: TalliesPack,
    elements: int,
    stored: int,
) -> bool {
    &&& coarse_fit(l)
    &&& fine_fit(l)
    &&& nuclide_fit(l, elements)
    &&& aggregate_fit(l, l.fine_log_energy_grid as int)
    &&& fission_fit(l)
    &&& slot_fit(l)
    &&& sparse_fit(l, stored)
    &&& tally_table_fit(l, t)
    &&& angle_fit(l)
    &&& angle_density_fit(l)
    &&& eout_points_fit(l)
    &&& eout_histogram_fit(l)
    &&& eout_density_fit(l)
    &&& eout_rows_fit(l)
    &&& corr_fit(l)
    &&& frame_fit(l)
    &&& elastic_fit(l)
    &&& temperature_fit(l)
    &&& km_fit(l)
    &&& law_fit(l)
    &&& urr_fit(l)
}

/// The refusal is about one of the tables of a launch.
pub open spec fn names_a_launch_table(
    l: TransportLengths,
    t: TalliesPack,
    elements: int,
    stored: int,
    c: Check,
) -> bool {
    ||| surface_named(l, c)
    ||| coarse_named(l, c)
    ||| fine_named(l, c)
    ||| nuclide_named(l, elements, c)
    ||| aggregate_named(l, l.fine_log_energy_grid as int, c)
    ||| fission_named(l, c)
    ||| slot_named(l, c)
    ||| sparse_named(l, stored, c)
    ||| tally_table_named(l, t, c)
    ||| angle_named(l, c)
    ||| angle_density_named(l, c)
    ||| eout_points_named(l, c)
    ||| eout_histogram_named(l, c)
    ||| eout_density_named(l, c)
    ||| eout_rows_named(l, c)
    ||| corr_named(l, c)
    ||| frame_named(l, c)
    ||| elastic_named(l, c)
    ||| temperature_named(l, c)
    ||| km_named(l, c)
    ||| law_named(l, c)
    ||| urr_named(l, c)
}

/// The tally has at least one bin, all its edges in the table, and each edge below
/// the next.
pub open spec fn edges_ascend(t: TalliesPack, k: int) -> bool {
    let first = t.edges_offsets@[k];
    let n = t.n_bins_per_tally@[k];
    &&& n >= 1
    &&& first + n + 1 <= t.log_edges@.len()
    &&& forall|i: int|
        first <= i < first + n ==> (#[trigger] t.log_edges@[i]).lt(t.log_edges@[i + 1])
}

/// So have all tallies.
pub open spec fn tallies_have_ascending_edges(t: TalliesPack) -> bool {
    forall|k: int| 0 <= k < t.score_kinds@.len() ==> #[trigger] edges_ascend(t, k)
}

proof fn lemma_ascending_all(s: Seq<Real>, i: int, j: int)
    requires
        0 <= i < j < s.len(),
        forall|k: int| 0 <= k < s.len() - 1 ==> (#[trigger] s[k]).lt(s[k + 1]),
    ensures
        s[i].key() < s[j].key(),
    decreases j - i,
{
    assert(s[j - 1].lt(s[j - 1 + 1]));
    if i < j - 1 {
        lemma_ascending_all(s, i, j - 1);
    }
}

proof fn lemma_edges(t: TalliesPack)
    ensures
        tallies_valid(t) <==> tallies_have_ascending_edges(t),
{
    if tallies_valid(t) {
        assert forall|k: int| 0 <= k < t.score_kinds@.len() implies #[trigger] edges_ascend(
            t,
            k,
        ) by {
            assert(tally_valid(t, k));
            let first = t.edges_offsets@[k];
            let n = t.n_bins_per_tally@[k];
            let e = t.edges(k);
            assert forall|i: int| first <= i < first + n implies (#[trigger] t.log_edges@[i]).lt(
                t.log_edges@[i + 1],
            ) by {
                assert(e[i - first] == t.log_edges@[i]);
                assert(e[i - first + 1] == t.log_edges@[i + 1]);
            }
        }
    }
    if tallies_have_ascending_edges(t) {
        assert forall|k: int| 0 <= k < t.n() implies #[trigger] tally_valid(t, k) by {
            assert(edges_ascend(t, k));
            let first = t.edges_offsets@[k];
            let e = t.edges(k);
            assert forall|i: int| 0 <= i < e.len() - 1 implies (#[trigger] e[i]).lt(e[i + 1]) by {
                assert(t.log_edges@[first + i].lt(t.log_edges@[first + i + 1]));
            }
            assert forall|i: int| 0 <= i < e.len() implies !(#[trigger] e[i]).is_nan_spec() by {
                if i < e.len() - 1 {
                    assert(e[i].lt(e[i + 1]));
                } else {
                    assert(e[i - 1].lt(e[i - 1 + 1]));
                }
            }
            assert forall|i: int, j: int| 0 <= i < j < e.len() implies (#[trigger] e[i]).key() < (
            #[trigger] e[j]).key() by {
                lemma_ascending_all(e, i, j);
            }
        }
    }
}

proof fn lemma_parts(a: Seq<Check>, b: Seq<Check>)
    ensures
        all_hold(a + b) <==> all_hold(a) && all_hold(b),
        forall|c: Check| #[trigger] (a + b).contains(c) ==> a.contains(c) || b.contains(c),
{
    let s = a + b;
    if all_hold(s) {
        assert forall|i: int| 0 <= i < a.len() implies (#[trigger] a[i]).holds() by {
            assert(s[i].holds());
        }
        assert forall|i: int| 0 <= i < b.len() implies (#[trigger] b[i]).holds() by {
            assert(s[a.len() + i].holds());
        }
    }
    if all_hold(a) && all_hold(b) {
        assert forall|i: int| 0 <= i < s.len() implies (#[trigger] s[i]).holds() by {
            if i < a.len() {
                assert(a[i].holds());
            } else {
                assert(b[i - a.len()].holds());
            }
        }
    }
    assert forall|c: Check| #[trigger] s.contains(c) implies a.contains(c) || b.contains(c) by {
        let i = choose|i: int| 0 <= i < s.len() && s[i] == c;
        if i < a.len() {
            assert(a[i] == c);
        } else {
            assert(b[i - a.len()] == c);
        }
    }
}

proof fn lemma_shape(l: TransportLengths)
    ensures
        all_hold(shape_checks(l)) <==> surface_fit(l) && fine_fit(l),
        forall|c: Check| #[trigger] shape_checks(l).contains(c) ==> surface_named(l, c)
            || fine_named(l, c),
{
    lemma_surface(l);
    lemma_fine(l);
    let p1 = surface_checks(l);
    lemma_parts(p1, fine_checks(l));
    assert(shape_checks(l) == p1 + fine_checks(l));
}

proof fn lemma_material(l: TransportLengths, fine_meta: Seq<u32>)
    ensures
        all_hold(material_checks(l, fine_meta))
            <==> aggregate_fit(l, column_sum(fine_meta, 3, 1, l.n_materials as nat))
            && fission_fit(l) && coarse_fit(l) && range_fit(l),
        forall|c: Check| #[trigger]
            material_checks(l, fine_meta).contains(c)
            ==> aggregate_named(l, column_sum(fine_meta, 3, 1, l.n_materials as nat), c)
            || fission_named(l, c) || coarse_named(l, c) || range_named(l, c),
{
    lemma_aggregate(l, column_sum(fine_meta, 3, 1, l.n_materials as nat));
    lemma_fission(l);
    lemma_coarse(l);
    lemma_range(l);
    let p1 = aggregate_checks(l, column_sum(fine_meta, 3, 1, l.n_materials as nat));
    lemma_parts(p1, fission_checks(l));
    let p2 = p1 + fission_checks(l);
    lemma_parts(p2, coarse_checks(l));
    let p3 = p2 + coarse_checks(l);
    lemma_parts(p3, range_checks(l));
    assert(material_checks(l, fine_meta) == p3 + range_checks(l));
}

proof fn lemma_slabs(l: TransportLengths, mat_nuclide_meta: Seq<u32>)
    ensures
        all_hold(slab_shape_checks(l, mat_nuclide_meta))
            <==> slab_fit(l, column_sum(mat_nuclide_meta, 2, 1, l.n_materials as nat))
            && slot_fit(l),
        forall|c: Check| #[trigger]
            slab_shape_checks(l, mat_nuclide_meta).contains(c)
            ==> slab_named(l, column_sum(mat_nuclide_meta, 2, 1, l.n_materials as nat), c)
            || slot_named(l, c),
{
    lemma_slab(l, column_sum(mat_nuclide_meta, 2, 1, l.n_materials as nat));
    lemma_slot(l);
    let p1 = slab_checks(l, column_sum(mat_nuclide_meta, 2, 1, l.n_materials as nat));
    lemma_parts(p1, slot_checks(l));
    assert(slab_shape_checks(l, mat_nuclide_meta) == p1 + slot_checks(l));
}

proof fn lemma_slot_values(l: TransportLengths, t: TalliesPack, permt_meta: Seq<u32>)
    ensures
        all_hold(slot_value_checks(l, t, permt_meta))
            <==> sparse_fit(l, column_sum(permt_meta, 3, 2, (l.n_slab * 56) as nat))
            && angle_fit(l) && frame_fit(l) && eout_points_fit(l) && eout_density_fit(l)
            && eout_histogram_fit(l) && eout_rows_fit(l) && corr_fit(l) && tally_table_fit(l, t),
        forall|c: Check| #[trigger]
            slot_value_checks(l, t, permt_meta).contains(c)
            ==> sparse_named(l, column_sum(permt_meta, 3, 2, (l.n_slab * 56) as nat), c)
            || angle_named(l, c) || frame_named(l, c) || eout_points_named(l, c)
            || eout_density_named(l, c) || eout_histogram_named(l, c) || eout_rows_named(l, c)
            || corr_named(l, c) || tally_table_named(l, t, c),
{
    lemma_sparse(l, column_sum(permt_meta, 3, 2, (l.n_slab * 56) as nat));
    lemma_angle(l);
    lemma_frame(l);
    lemma_eout_points(l);
    lemma_eout_density(l);
    lemma_eout_histogram(l);
    lemma_eout_rows(l);
    lemma_corr(l);
    lemma_tally_table(l, t);
    let p1 = sparse_checks(l, column_sum(permt_meta, 3, 2, (l.n_slab * 56) as nat));
    lemma_parts(p1, angle_checks(l));
    let p2 = p1 + angle_checks(l);
    lemma_parts(p2, frame_checks(l));
    let p3 = p2 + frame_checks(l);
    lemma_parts(p3, eout_points_checks(l));
    let p4 = p3 + eout_points_checks(l);
    lemma_parts(p4, eout_density_checks(l));
    let p5 = p4 + eout_density_checks(l);
    lemma_parts(p5, eout_histogram_checks(l));
    let p6 = p5 + eout_histogram_checks(l);
    lemma_parts(p6, eout_rows_checks(l));
    let p7 = p6 + eout_rows_checks(l);
    lemma_parts(p7, corr_checks(l));
    let p8 = p7 + corr_checks(l);
    lemma_parts(p8, tally_table_checks(l, t));
    assert(slot_value_checks(l, t, permt_meta) == p8 + tally_table_checks(l, t));
}

proof fn lemma_launch_material(l: TransportLengths, fine_meta: Seq<u32>, mat_nuclide_meta: Seq<u32>)
    ensures
        all_hold(launch_material_checks(l, fine_meta, mat_nuclide_meta))
            <==> nuclide_fit(l, nuclide_points(mat_nuclide_meta, fine_meta, l.n_materials as nat))
            && aggregate_fit(l, l.fine_log_energy_grid as int) && fission_fit(l) && slot_fit(l),
        forall|c: Check| #[trigger]
            launch_material_checks(l, fine_meta, mat_nuclide_meta).contains(c)
            ==> nuclide_named(l, nuclide_points(mat_nuclide_meta, fine_meta, l.n_materials as nat), c)
            || aggregate_named(l, l.fine_log_energy_grid as int, c) || fission_named(l, c)
            || slot_named(l, c),
{
    lemma_nuclide(l, nuclide_points(mat_nuclide_meta, fine_meta, l.n_materials as nat));
    lemma_aggregate(l, l.fine_log_energy_grid as int);
    lemma_fission(l);
    lemma_slot(l);
    let p1 = nuclide_checks(l, nuclide_points(mat_nuclide_meta, fine_meta, l.n_materials as nat));
    lemma_parts(p1, aggregate_checks(l, l.fine_log_energy_grid as int));
    let p2 = p1 + aggregate_checks(l, l.fine_log_energy_grid as int);
    lemma_parts(p2, fission_checks(l));
    let p3 = p2 + fission_checks(l);
    lemma_parts(p3, slot_checks(l));
    assert(launch_material_checks(l, fine_meta, mat_nuclide_meta) == p3 + slot_checks(l));
}

proof fn lemma_launch_law(l: TransportLengths, t: TalliesPack)
    ensures
        all_hold(launch_law_checks(l, t)) <==> tally_table_fit(l, t) && angle_fit(l)
            && angle_density_fit(l) && eout_points_fit(l) && eout_histogram_fit(l)
            && eout_density_fit(l) && eout_rows_fit(l) && corr_fit(l) && frame_fit(l)
            && elastic_fit(l) && temperature_fit(l) && km_fit(l) && law_fit(l) && urr_fit(l),
        forall|c: Check| #[trigger] launch_law_checks(l, t).contains(c) ==> tally_table_named(l, t, c)
            || angle_named(l, c) || angle_density_named(l, c) || eout_points_named(l, c)
            || eout_histogram_named(l, c) || eout_density_named(l, c) || eout_rows_named(l, c)
            || corr_named(l, c) || frame_named(l, c) || elastic_named(l, c)
            || temperature_named(l, c) || km_named(l, c) || law_named(l, c) || urr_named(l, c),
{
    lemma_tally_table(l, t);
    lemma_angle(l);
    lemma_angle_density(l);
    lemma_eout_points(l);
    lemma_eout_histogram(l);
    lemma_eout_density(l);
    lemma_eout_rows(l);
    lemma_corr(l);
    lemma_frame(l);
    lemma_elastic(l);
    lemma_temperature(l);
    lemma_km(l);
    lemma_law(l);
    lemma_urr(l);
    let p1 = tally_table_checks(l, t);
    lemma_parts(p1, angle_checks(l));
    let p2 = p1 + angle_checks(l);
    lemma_parts(p2, angle_density_checks(l));
    let p3 = p2 + angle_density_checks(l);
    lemma_parts(p3, eout_points_checks(l));
    let p4 = p3 + eout_points_checks(l);
    lemma_parts(p4, eout_histogram_checks(l));
    let p5 = p4 + eout_histogram_checks(l);
    lemma_parts(p5, eout_density_checks(l));
    let p6 = p5 + eout_density_checks(l);
    lemma_parts(p6, eout_rows_checks(l));
    let p7 = p6 + eout_rows_checks(l);
    lemma_parts(p7, corr_checks(l));
    let p8 = p7 + corr_checks(l);
    lemma_parts(p8, frame_checks(l));
    let p9 = p8 + frame_checks(l);
    lemma_parts(p9, elastic_checks(l));
    let p10 = p9 + elastic_checks(l);
    lemma_parts(p10, temperature_checks(l));
    let p11 = p10 + temperature_checks(l);
    lemma_parts(p11, km_checks(l));
    let p12 = p11 + km_checks(l);
    lemma_parts(p12, law_checks(l));
    let p13 = p12 + law_checks(l);
    lemma_parts(p13, urr_checks(l));
    assert(launch_law_checks(l, t) == p13 + urr_checks(l));
}

proof fn lemma_transport(
    l: TransportLengths,
    t: TalliesPack,
    fine_meta: Seq<u32>,
    mat_nuclide_meta: Seq<u32>,
    permt_meta: Seq<u32>,
)
    ensures
        all_hold(transport_checks(l, t, fine_meta, mat_nuclide_meta, permt_meta)) <==> tables_fit(
            l,
            t,
            column_sum(fine_meta, 3, 1, l.n_materials as nat),
            column_sum(mat_nuclide_meta, 2, 1, l.n_materials as nat),
            column_sum(permt_meta, 3, 2, (l.n_slab * 56) as nat),
        ),
        forall|c: Check| #[trigger]
            transport_checks(l, t, fine_meta, mat_nuclide_meta, permt_meta).contains(c)
                ==> names_a_table(
                l,
                t,
                column_sum(fine_meta, 3, 1, l.n_materials as nat),
                column_sum(mat_nuclide_meta, 2, 1, l.n_materials as nat),
                column_sum(permt_meta, 3, 2, (l.n_slab * 56) as nat),
                c,
            ),
{
    lemma_shape(l);
    lemma_material(l, fine_meta);
    lemma_slabs(l, mat_nuclide_meta);
    lemma_slot_values(l, t, permt_meta);
    let p1 = shape_checks(l);
    lemma_parts(p1, material_checks(l, fine_meta));
    let p2 = p1 + material_checks(l, fine_meta);
    lemma_parts(p2, slab_shape_checks(l, mat_nuclide_meta));
    let p3 = p2 + slab_shape_checks(l, mat_nuclide_meta);
    lemma_parts(p3, slot_value_checks(l, t, permt_meta));
}

proof fn lemma_launch(
    l: TransportLengths,
    t: TalliesPack,
    fine_meta: Seq<u32>,
    mat_nuclide_meta: Seq<u32>,
    permt_meta: Seq<u32>,
)
    ensures
        all_hold(launch_table_checks(l, fine_meta, mat_nuclide_meta, permt_meta)) && all_hold(
            launch_law_checks(l, t),
        ) <==> launch_tables_fit(
            l,
            t,
            nuclide_points(mat_nuclide_meta, fine_meta, l.n_materials as nat),
            column_sum(permt_meta, 3, 2, (l.n_slab * 56) as nat),
        ),
        forall|c: Check| #[trigger]
            launch_table_checks(l, fine_meta, mat_nuclide_meta, permt_meta).contains(c)
                ==> names_a_launch_table(
                l,
                t,
                nuclide_points(mat_nuclide_meta, fine_meta, l.n_materials as nat),
                column_sum(permt_meta, 3, 2, (l.n_slab * 56) as nat),
                c,
            ),
        forall|c: Check| #[trigger]
            launch_law_checks(l, t).contains(c) ==> names_a_launch_table(
                l,
                t,
                nuclide_points(mat_nuclide_meta, fine_meta, l.n_materials as nat),
                column_sum(permt_meta, 3, 2, (l.n_slab * 56) as nat),
                c,
            ),
{
    lemma_coarse(l);
    lemma_fine(l);
    lemma_launch_material(l, fine_meta, mat_nuclide_meta);
    lemma_sparse(l, column_sum(permt_meta, 3, 2, (l.n_slab * 56) as nat));
    lemma_launch_law(l, t);
    lemma_parts(coarse_checks(l), fine_checks(l));
    let p1 = coarse_checks(l) + fine_checks(l);
    lemma_parts(p1, launch_material_checks(l, fine_meta, mat_nuclide_meta));
    let p2 = p1 + launch_material_checks(l, fine_meta, mat_nuclide_meta);
    lemma_parts(p2, sparse_checks(l, column_sum(permt_meta, 3, 2, (l.n_slab * 56) as nat)));
}

proof fn lemma_failure(checks: Seq<Check>, c: Check)
    requires
        is_first_failure(checks, c),
    ensures
        checks.contains(c),
        c.found != c.expected,
{
    let i = choose|i: int|
        0 <= i < checks.len() && #[trigger] checks[i] == c && !c.holds() && forall|j: int|
            0 <= j < i ==> (#[trigger] checks[j]).holds();
    assert(checks[i] == c);
}

/// A run on the host takes its inputs exactly where there is a tally, all tables fit
/// together and all edges ascend. A refusal over a length names a table whose
/// length is not the one asked for, with both; the one over tallies comes where
/// there is none.
pub proof fn the_host_takes_what_fits(
    l: &TransportLengths,
    t: &TalliesPack,
    fine_meta: &[u32],
    mat_nuclide_meta: &[u32],
    permt_meta: &[u32],
    r: Result<(), LayoutError>,
)
    requires
        l.fine_meta == fine_meta.len(),
        l.mat_nuclide_meta == mat_nuclide_meta.len(),
        l.permt_meta == permt_meta.len(),
        call_ensures(
            validate_transport_inputs,
            (l, t, fine_meta, mat_nuclide_meta, permt_meta),
            r,
        ),
    ensures
        ({
            let points = column_sum(fine_meta@, 3, 1, l.n_materials as nat);
            let slabs = column_sum(mat_nuclide_meta@, 2, 1, l.n_materials as nat);
            let stored = column_sum(permt_meta@, 3, 2, (l.n_slab * 56) as nat);
            &&& r is Ok <==> t.score_kinds@.len() > 0 && tables_fit(*l, *t, points, slabs, stored)
                && tallies_have_ascending_edges(*t)
            &&& r is Err && r->Err_0 is Length ==> names_a_table(
                *l,
                *t,
                points,
                slabs,
                stored,
                r->Err_0->Length_0@,
            ) && r->Err_0->Length_0.found != r->Err_0->Length_0.expected
            &&& r is Err && r->Err_0 is NoTallies ==> t.score_kinds@.len() == 0
            &&& r is Err
                && r->Err_0 is EmptyTally ==> t.n_bins_per_tally@[r->Err_0->EmptyTally_tally as int]
                == 0
        }),
{
    lemma_transport(*l, *t, fine_meta@, mat_nuclide_meta@, permt_meta@);
    lemma_edges(*t);
    if r is Err && r->Err_0 is Length {
        lemma_failure(
            transport_checks(*l, *t, fine_meta@, mat_nuclide_meta@, permt_meta@),
            r->Err_0->Length_0@,
        );
    }
}

/// A launch takes its inputs where in addition enough storage buffers are to be had,
/// 181 of them.
pub proof fn a_launch_takes_what_fits(
    l: &TransportLengths,
    t: &TalliesPack,
    fine_meta: &[u32],
    mat_nuclide_meta: &[u32],
    permt_meta: &[u32],
    available: u32,
    r: Result<(), LayoutError>,
)
    requires
        l.fine_meta == fine_meta.len(),
        l.permt_meta == permt_meta.len(),
        l.n_materials * 2 <= mat_nuclide_meta.len(),
        l.n_materials * 24 <= usize::MAX,
        call_ensures(
            validate_launch_inputs,
            (l, t, fine_meta, mat_nuclide_meta, permt_meta, available),
            r,
        ),
    ensures
        ({
            let elements = nuclide_points(mat_nuclide_meta@, fine_meta@, l.n_materials as nat);
            let stored = column_sum(permt_meta@, 3, 2, (l.n_slab * 56) as nat);
            &&& r is Ok <==> surface_fit(*l) && available >= 181 && t.score_kinds@.len() > 0
                && launch_tables_fit(*l, *t, elements, stored) && tallies_have_ascending_edges(*t)
            &&& r is Err && r->Err_0 is Length ==> names_a_launch_table(
                *l,
                *t,
                elements,
                stored,
                r->Err_0->Length_0@,
            ) && r->Err_0->Length_0.found != r->Err_0->Length_0.expected
            &&& r is Err && r->Err_0 is NoTallies ==> t.score_kinds@.len() == 0
            &&& r is Err && r->Err_0 is TooFewBindings ==> available < 181
                && r->Err_0->TooFewBindings_available == available
        }),
{
    lemma_surface(*l);
    lemma_launch(*l, *t, fine_meta@, mat_nuclide_meta@, permt_meta@);
    lemma_edges(*t);
    if r is Err && r->Err_0 is Length {
        let c = r->Err_0->Length_0@;
        let tables = launch_table_checks(*l, fine_meta@, mat_nuclide_meta@, permt_meta@);
        let laws = launch_law_checks(*l, *t);
        if is_first_failure(surface_checks(*l), c) {
            lemma_failure(surface_checks(*l), c);
        } else if is_first_failure(tables, c) {
            lemma_failure(tables, c);
        } else {
            lemma_failure(laws, c);
        }
    }
}

/// A column adds up row by row, and the points of the nuclides material by material:
/// each of a material's nuclides has a value at every point of the fine grid.
pub proof fn columns_add_up_row_by_row(
    table: Seq<u32>,
    cols: int,
    col: int,
    fine_meta: Seq<u32>,
    mat_nuclide_meta: Seq<u32>,
    n: nat,
)
    ensures
        column_sum(table, cols, col, 0) == 0,
        column_sum(table, cols, col, n + 1) == column_sum(table, cols, col, n) + table[n * cols + col],
        nuclide_points(mat_nuclide_meta, fine_meta, 0) == 0,
        nuclide_points(mat_nuclide_meta, fine_meta, n + 1) == nuclide_points(
            mat_nuclide_meta,
            fine_meta,
            n,
        ) + mat_nuclide_meta[2 * n as int + 1] * fine_meta[3 * n as int + 1],
{
    reveal_with_fuel(column_sum, 2);
    reveal_with_fuel(nuclide_points, 2);
}
} // verus!
