//! Validation of input buffers.
use yamc_transport::ieee::Real;
use yamc_transport::layout::{
    COL_FINE_N, COL_PERMT_N_STORED, KERNEL_STORAGE_BUFFER_COUNT, MESH_NONE, MT_INELASTIC_COUNT,
    SCORE_FLUX,
};
use yamc_transport::lengths::{Buffer, LengthCheck, TransportLengths};
use yamc_transport::tally::TalliesPack;
use yamc_transport::validate::{validate_launch_inputs, validate_transport_inputs, LayoutError};

fn nums(xs: &[f64]) -> Vec<Real> {
    xs.iter().map(|x| Real::new(x.to_bits())).collect()
}

/// Lengths that fit two cells, three surfaces, two materials with four and five
/// fine-grid points, and three nuclides.
fn lengths() -> TransportLengths {
    TransportLengths {
        n_cells: 2,
        surface_types: 3,
        n_materials: 2,
        n_slab: 3,
        fine_log_energy_grid: 9,
        fission_eout_n_x: 4,
        fission_eout_x: 7,
        angle_n_mu: 5,
        angle_mu: 11,
        eout_n_x: 6,
        eout_x: 12,
        corr_n_x: 2,
        corr_n_mu: 5,
        corr_mu: 9,
        elastic_n_mu: 3,
        elastic_mu: 6,
        km_n_x: 2,
        km_x: 4,
        evap_energy_grid: 3,
        maxwell_energy_grid: 2,
        watt_energy_grid: 1,
        urr_cdf: 5,
        urr_xs_cols: 6,
        cell_to_material: 2,
        surface_boundaries: 3,
        fine_meta: 6,
        xs_elastic: 9,
        xs_absorption: 9,
        xs_inelastic: 9,
        xs_fission: 9,
        nu_bar: 9,
        beta_delayed: 9,
        fission_a: 2,
        fission_b: 2,
        fission_eout_kind: 4,
        fission_eout_n_energies: 4,
        fission_eout_ae_offset: 4,
        fission_eout_energy_grid: 4,
        fission_eout_x_offset: 4,
        fission_eout_cdf: 7,
        fission_eout_p: 7,
        fission_eout_interp: 4,
        coarse_meta: 6,
        mat_nuclide_meta: 4,
        permt_meta: 504,
        xs_inelastic_sparse: 5,
        yield_sparse: 5,
        q_inelastic: 168,
        angle_n_energies: 168,
        angle_ae_offset: 168,
        angle_energy_grid: 5,
        angle_mu_offset: 5,
        angle_cdf: 11,
        scatter_in_cm: 168,
        eout_kind: 168,
        eout_n_energies: 168,
        eout_ae_offset: 168,
        eout_energy_grid: 6,
        eout_x_offset: 6,
        eout_cdf: 12,
        eout_p: 12,
        eout_histogram_interp: 168,
        eout_interp: 6,
        eout_n_discrete: 6,
        corr_n_energies: 168,
        corr_n_components: 168,
        corr_ae_offset: 168,
        corr_energy_grid: 2,
        corr_x_offset: 2,
        corr_x: 5,
        corr_cdf: 5,
        corr_p: 5,
        corr_interp: 2,
        corr_n_discrete: 2,
        corr_mu_offset: 5,
        corr_mu_cdf: 9,
        corr_mu_pdf: 9,
        corr_mu_interp: 5,
        nuc_partial_xs: 56,
        nuc_macro_total: 14,
        angle_pdf: 11,
        angle_interp: 5,
        elastic_n_energies: 3,
        elastic_ae_offset: 3,
        elastic_energy_grid: 3,
        elastic_interp: 3,
        elastic_mu_offset: 3,
        elastic_cdf: 6,
        elastic_pdf: 6,
        temperature_k: 2,
        km_n_energies: 168,
        km_ae_offset: 168,
        km_energy_grid: 2,
        km_interp: 2,
        km_n_discrete: 2,
        km_x_offset: 2,
        km_p: 4,
        km_c: 4,
        km_r: 4,
        km_a: 4,
        evap_n_energies: 168,
        evap_n_components: 168,
        evap_ae_offset: 168,
        evap_theta_offset: 168,
        evap_u: 3,
        nbps_n_bodies: 168,
        nbps_total_mass: 168,
        maxwell_n_energies: 168,
        maxwell_ae_offset: 168,
        maxwell_theta: 2,
        maxwell_u: 168,
        watt_n_energies: 168,
        watt_ae_offset: 168,
        watt_a: 1,
        watt_b: 1,
        watt_u: 168,
        urr_meta: 24,
        urr_ae_offset: 3,
        urr_cdf_offset: 3,
        urr_xs: 30,
        urr_atom_density: 3,
    }
}

/// The materials' fine grids, their nuclides and the slots' stored values.
struct Tables {
    fine_meta: Vec<u32>,
    mat_nuclide_meta: Vec<u32>,
    permt_meta: Vec<u32>,
}

fn tables() -> Tables {
    let mut fine_meta = vec![0u32; 6];
    fine_meta[COL_FINE_N as usize] = 4;
    fine_meta[3 + COL_FINE_N as usize] = 5;
    let mut permt_meta = vec![0u32; 3 * MT_INELASTIC_COUNT * 3];
    permt_meta[COL_PERMT_N_STORED as usize] = 2;
    permt_meta[3 * 100 + COL_PERMT_N_STORED as usize] = 3;
    Tables {
        fine_meta,
        mat_nuclide_meta: vec![0, 1, 1, 2],
        permt_meta,
    }
}

fn pack() -> TalliesPack {
    TalliesPack {
        score_kinds: vec![SCORE_FLUX, SCORE_FLUX],
        score_data: vec![0, 0],
        score_mt: vec![0, 0],
        is_collision: vec![0, 0],
        cell_to_bin: vec![0, 1, 0, 1],
        n_cells_per_tally: vec![2, 2],
        edges_offsets: vec![0, 2],
        n_bins_per_tally: vec![1, 2],
        log_edges: nums(&[0.0, 1.0, 0.0, 1.0, 2.0]),
        out_offsets: vec![0, 2, 6],
        fixed_point_scales: nums(&[1.0, 1.0]),
        n_mesh_per_tally: vec![1, 1],
        mesh_kind: vec![MESH_NONE; 2],
        mesh_params_offsets: vec![0; 3],
        mesh_params: vec![],
        efunc_offsets: vec![0; 3],
        efunc_params: vec![],
    }
}

fn host(l: &TransportLengths, t: &TalliesPack, m: &Tables) -> Result<(), LayoutError> {
    let mut l = *l;
    l.fine_meta = m.fine_meta.len();
    l.mat_nuclide_meta = m.mat_nuclide_meta.len();
    l.permt_meta = m.permt_meta.len();
    validate_transport_inputs(&l, t, &m.fine_meta, &m.mat_nuclide_meta, &m.permt_meta)
}

fn device(l: &TransportLengths, t: &TalliesPack, m: &Tables, available: u32) -> Result<(), LayoutError> {
    validate_launch_inputs(l, t, &m.fine_meta, &m.mat_nuclide_meta, &m.permt_meta, available)
}

fn wrong(buffer: Buffer, found: u128, expected: u128) -> Result<(), LayoutError> {
    Err(LayoutError::Length(LengthCheck {
        buffer,
        found,
        expected,
    }))
}

#[test]
fn fitting_inputs_pass_on_the_host_and_for_a_launch() {
    assert_eq!(host(&lengths(), &pack(), &tables()), Ok(()));
    let n = KERNEL_STORAGE_BUFFER_COUNT;
    assert_eq!(device(&lengths(), &pack(), &tables(), n), Ok(()));
}

#[test]
fn run_needs_a_tally() {
    let mut t = pack();
    t.score_kinds.clear();
    assert_eq!(host(&lengths(), &t, &tables()), Err(LayoutError::NoTallies));
    let n = KERNEL_STORAGE_BUFFER_COUNT;
    assert_eq!(
        device(&lengths(), &t, &tables(), n),
        Err(LayoutError::NoTallies)
    );
}

#[test]
fn launch_needs_all_bindings() {
    let n = KERNEL_STORAGE_BUFFER_COUNT - 1;
    assert_eq!(
        device(&lengths(), &pack(), &tables(), n),
        Err(LayoutError::TooFewBindings { available: n })
    );
    // The geometry is looked at first.
    let mut l = lengths();
    l.surface_boundaries = 4;
    assert_eq!(
        device(&l, &pack(), &tables(), n),
        wrong(Buffer::SurfaceBoundaries, 4, 3)
    );
}

#[test]
fn first_wrong_length_is_reported() {
    let mut l = lengths();
    l.nu_bar = 8;
    l.corr_mu_pdf = 1;
    assert_eq!(host(&l, &pack(), &tables()), wrong(Buffer::NuBar, 8, 9));
    l.nu_bar = 9;
    assert_eq!(host(&l, &pack(), &tables()), wrong(Buffer::CorrMuPdf, 1, 9));
}

#[test]
fn lengths_follow_the_tables() {
    let mut m = tables();
    m.fine_meta.push(0);
    assert_eq!(host(&lengths(), &pack(), &m), wrong(Buffer::FineMeta, 7, 6));
    let mut m = tables();
    m.fine_meta[COL_FINE_N as usize] = 6;
    assert_eq!(host(&lengths(), &pack(), &m), wrong(Buffer::XsElastic, 9, 11));
    let mut m = tables();
    m.mat_nuclide_meta[3] = 7;
    assert_eq!(host(&lengths(), &pack(), &m), wrong(Buffer::Slabs, 8, 3));
    let mut m = tables();
    m.permt_meta[COL_PERMT_N_STORED as usize] = 4;
    assert_eq!(host(&lengths(), &pack(), &m), wrong(Buffer::XsInelasticSparse, 5, 7));
    let mut m = tables();
    m.permt_meta.pop();
    assert_eq!(
        host(&lengths(), &pack(), &m),
        wrong(Buffer::PermtMeta, 503, 504)
    );
}

#[test]
fn launch_checks_what_the_host_does_not_read() {
    let n = KERNEL_STORAGE_BUFFER_COUNT;
    let mut l = lengths();
    l.nuc_partial_xs = 55;
    assert_eq!(host(&l, &pack(), &tables()), Ok(()));
    assert_eq!(
        device(&l, &pack(), &tables(), n),
        wrong(Buffer::NucPartialXs, 55, 56)
    );
    let mut l = lengths();
    l.urr_xs = 29;
    assert_eq!(device(&l, &pack(), &tables(), n), wrong(Buffer::UrrXs, 29, 30));
    let mut l = lengths();
    l.eout_p = 11;
    l.eout_histogram_interp = 1;
    // The histogram flags come before the densities for a launch, and after
    // them on the host.
    assert_eq!(
        device(&l, &pack(), &tables(), n),
        wrong(Buffer::EoutHistogramInterp, 1, 168)
    );
    assert_eq!(host(&l, &pack(), &tables()), wrong(Buffer::EoutP, 11, 12));
}

#[test]
fn tally_needs_a_bin() {
    let mut t = pack();
    t.n_bins_per_tally[1] = 0;
    assert_eq!(
        host(&lengths(), &t, &tables()),
        Err(LayoutError::EmptyTally { tally: 1 })
    );
}

#[test]
fn tally_edges_lie_in_their_buffer() {
    let mut t = pack();
    t.edges_offsets[1] = 3;
    assert_eq!(
        host(&lengths(), &t, &tables()),
        Err(LayoutError::EdgesOutOfRange { tally: 1 })
    );
}

#[test]
fn tally_edges_increase() {
    let mut t = pack();
    t.log_edges = nums(&[0.0, 1.0, 0.0, 1.0, 1.0]);
    assert_eq!(
        host(&lengths(), &t, &tables()),
        Err(LayoutError::EdgesNotIncreasing { tally: 1, bin: 1 })
    );
    let n = KERNEL_STORAGE_BUFFER_COUNT;
    t.log_edges = nums(&[f64::NAN, 1.0, 0.0, 1.0, 2.0]);
    assert_eq!(
        device(&lengths(), &t, &tables(), n),
        Err(LayoutError::EdgesNotIncreasing { tally: 0, bin: 0 })
    );
}

#[test]
fn tally_tables_have_one_entry_per_tally() {
    let mut t = pack();
    t.out_offsets.push(6);
    assert_eq!(
        host(&lengths(), &t, &tables()),
        wrong(Buffer::TallyOutOffsets, 4, 3)
    );
}
