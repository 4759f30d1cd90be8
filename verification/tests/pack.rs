//! Packing of host tables.
use yamc_transport::ieee::Real;
use yamc_transport::layout::{
    COL_EOUT_KIND, COL_EVAP_U, COL_FISSION_A, COL_FISSION_B, COL_MAXWELL_U, COL_NBPS_TOTAL_MASS,
    COL_TARGET_MASS, COL_TEMPERATURE_K, COL_URR_ATOM_DENSITY, COL_WATT_N_ENERGIES, COL_WATT_U,
    MAT_F64_COLS, MT_SLOT_F64_COLS, MT_SLOT_U32_COLS,
};
use yamc_transport::pack::{
    append, at_least_one, copied, filled, pack_mat_f64_meta, pack_mt_slot_f64_meta,
    pack_mt_slot_u32_meta, pack_watt_ab_interleaved, pad, pad_score_table, pad_to,
};
use yamc_transport::photon::{CoupledPhotonInputs, GpuPhotonProductionXs, PhotonBankResult};

fn num(x: f64) -> Real {
    Real::new(x.to_bits())
}

fn nums(xs: &[f64]) -> Vec<Real> {
    xs.iter().map(|x| num(*x)).collect()
}

#[test]
fn pack_watt_ab_interleaves_pairs() {
    let ab = pack_watt_ab_interleaved(&[1.0, 2.0, 3.0], &[10.0, 20.0, 30.0]);
    assert_eq!(ab, vec![1.0, 10.0, 2.0, 20.0, 3.0, 30.0]);
}

#[test]
fn pack_mat_f64_meta_places_each_scalar_at_its_column() {
    let meta = pack_mat_f64_meta(&[1.0, 2.0], &[300.0, 600.0], &[0.1, 0.2], &[0.3, 0.4], 0.0);
    let cols = MAT_F64_COLS as usize;
    assert_eq!(meta.len(), 2 * cols);
    assert_eq!(meta[COL_TARGET_MASS as usize], 1.0);
    assert_eq!(meta[COL_TEMPERATURE_K as usize], 300.0);
    assert_eq!(meta[COL_FISSION_A as usize], 0.1);
    assert_eq!(meta[COL_FISSION_B as usize], 0.3);
    assert_eq!(meta[COL_URR_ATOM_DENSITY as usize], 0.0);
    assert_eq!(meta[cols + COL_TARGET_MASS as usize], 2.0);
    assert_eq!(meta[cols + COL_URR_ATOM_DENSITY as usize], 0.0);
}

#[test]
fn pack_mt_slot_u32_meta_strides_and_places_columns() {
    let z = [0u32, 0u32];
    let meta = pack_mt_slot_u32_meta(&[7, 8], &z, &z, &z, &z, &z, &z, &z, &z, &z, &[3, 4]);
    let cols = MT_SLOT_U32_COLS as usize;
    assert_eq!(meta.len(), 2 * cols);
    assert_eq!(meta[COL_EOUT_KIND as usize], 7);
    assert_eq!(meta[COL_WATT_N_ENERGIES as usize], 3);
    assert_eq!(meta[cols + COL_EOUT_KIND as usize], 8);
    assert_eq!(meta[cols + COL_WATT_N_ENERGIES as usize], 4);
}

#[test]
fn slot_scalars_leave_the_evaporation_column_zero() {
    let meta = pack_mt_slot_f64_meta(&[1.0, 2.0], &[3.0, 4.0], &[5.0, 6.0], 0.0);
    let cols = MT_SLOT_F64_COLS as usize;
    assert_eq!(meta.len(), 2 * cols);
    assert_eq!(meta[COL_EVAP_U as usize], 0.0);
    assert_eq!(meta[COL_MAXWELL_U as usize], 1.0);
    assert_eq!(meta[COL_WATT_U as usize], 3.0);
    assert_eq!(meta[COL_NBPS_TOTAL_MASS as usize], 5.0);
    assert_eq!(meta[cols + COL_MAXWELL_U as usize], 2.0);
    assert_eq!(meta[cols + COL_NBPS_TOTAL_MASS as usize], 6.0);
}

#[test]
fn empty_tables_are_padded_and_others_copied() {
    assert_eq!(pad(&[], 7u32), vec![7]);
    assert_eq!(pad(&[1u32, 2], 7), vec![1, 2]);
    assert_eq!(pad_to(&[], 3, 0u32), vec![0, 0, 0]);
    assert_eq!(filled(2, 5u8), vec![5, 5]);
    assert_eq!(copied(&[1u8, 2]), vec![1, 2]);
    assert_eq!(at_least_one(0), 1);
    assert_eq!(at_least_one(4), 4);
    let mut v = vec![1u32];
    append(&mut v, &[2, 3]);
    assert_eq!(v, vec![1, 2, 3]);
}

#[test]
fn score_table_gets_a_zero_row_per_material() {
    assert_eq!(pad_score_table(&[], 2, 3, 0.0), vec![0.0; 6]);
    assert_eq!(pad_score_table(&[], 0, 0, 0.0), vec![0.0]);
    assert_eq!(pad_score_table(&[1.0, 2.0], 2, 3, 0.0), vec![1.0, 2.0]);
}

fn photon_table(shift: f64, n_slots: usize) -> GpuPhotonProductionXs {
    // Two products on a grid of two points; one angular row of two cosines and
    // `n_slots` continuous slots of one row with one point each.
    GpuPhotonProductionXs {
        n_grid: 2,
        n_product: 2,
        photon_prod: nums(&[shift, shift + 1.0]),
        rxn_xs: nums(&[shift, shift, shift + 2.0, shift + 2.0]),
        prod_rxn_idx: vec![0, 1],
        prod_yield_grid: nums(&[1.0, 1.0, 2.0, 2.0]),
        prod_eout_kind: vec![3, 4],
        prod_line_energy: nums(&[shift, shift]),
        prod_primary_flag: vec![-1, 1],
        prod_awr: nums(&[1.0, 2.0]),
        prod_dist_slot: vec![u32::MAX, 0],
        pa_n_energies: vec![1, 0],
        pa_ae_offset: vec![0, 1],
        pa_mu_offset: vec![0],
        pa_energy_grid: nums(&[shift]),
        pa_n_mu: vec![2],
        pa_mu: nums(&[-1.0, 1.0]),
        pa_cdf: nums(&[0.0, 1.0]),
        pa_pdf: nums(&[0.5, 0.5]),
        pa_interp: vec![2],
        ct_ae_offset: (0..n_slots as u32).collect(),
        ct_x_offset: (0..n_slots as u32).collect(),
        ct_energy_grid: vec![num(shift); n_slots],
        ct_n_x: vec![1; n_slots],
        ct_x: vec![num(shift); n_slots],
        ct_cdf: vec![num(1.0); n_slots],
        ct_p: vec![num(0.5); n_slots],
        ct_interp: vec![1; n_slots],
        ct_n_discrete: vec![0; n_slots],
        ct_n_eout: vec![1; n_slots],
        ct_hist: vec![0; n_slots],
    }
}

#[test]
fn photon_tables_are_joined_and_their_indices_moved() {
    let c = CoupledPhotonInputs::from_materials(
        &[photon_table(10.0, 3), photon_table(20.0, 1)],
        u32::MAX,
    );
    assert_eq!(c.coupled_enabled, vec![1]);
    assert_eq!(c.n_product_per_material, vec![2, 2]);
    assert_eq!(c.prod_base_per_material, vec![0, 2]);
    assert_eq!(c.pp_base_per_material, vec![0, 2]);
    assert_eq!(c.photon_prod, nums(&[10.0, 11.0, 20.0, 21.0]));
    assert_eq!(c.prod_rxn_idx, vec![0, 1, 2, 3]);
    assert_eq!(c.prod_dist_slot, vec![u32::MAX, 0, u32::MAX, 3]);
    assert_eq!(c.pa_ae_offset, vec![0, 1, 1, 2]);
    assert_eq!(c.pa_mu_offset, vec![0, 2]);
    assert_eq!(c.ct_ae_offset, vec![0, 1, 2, 3]);
    assert_eq!(c.ct_x_offset, vec![0, 1, 2, 3]);
    assert_eq!(c.prod_primary_flag, vec![-1, 1, -1, 1]);
    // The second material's second product: its reaction row and its slot.
    let k = 3;
    let row = c.prod_rxn_idx[k] as usize * 2;
    assert_eq!(&c.rxn_xs[row..row + 2], &nums(&[22.0, 22.0])[..]);
    let slot = c.prod_dist_slot[k] as usize;
    let x = c.ct_x_offset[c.ct_ae_offset[slot] as usize] as usize;
    assert_eq!(c.ct_x[x], num(20.0));
}

#[test]
fn coupled_off_has_gate_zero_and_one_blank_product() {
    let c = CoupledPhotonInputs::coupled_off(2, 3);
    assert_eq!(c.coupled_enabled, vec![0]);
    assert_eq!(c.photon_prod, nums(&[0.0, 0.0, 0.0]));
    assert_eq!(c.prod_eout_kind, vec![0]);
    assert_eq!(c.ct_x_offset, vec![0]);
    assert!(c.pa_mu.is_empty());
    assert_eq!(c.n_product_per_material, vec![1, 1]);
    assert_eq!(c.prod_base_per_material, vec![0, 0]);
    let none = CoupledPhotonInputs::coupled_off(0, 0);
    assert_eq!(none.photon_prod, nums(&[0.0]));
    assert_eq!(none.pp_base_per_material, vec![0]);
}

#[test]
fn empty_bank_result_is_the_default() {
    let b = PhotonBankResult::default();
    assert_eq!((b.count, b.overflow), (0, 0));
    assert!(b.bank_f64.is_empty() && b.bank_u32.is_empty());
}
