//! Packing of decay-photon tables and sampling of decay photons.
use yamc_transport::bank::{Bank, BankRecord};
use yamc_transport::decay::{DecayPhotonInputs, MaterialDecayTable};
use yamc_transport::emission::{
    bank_collision_photons, bank_photons, decay_photon, decay_photon_record, decay_range,
    decay_stream, emit_at_collision, emits_decay_photon, line_range, photon_attempts,
    photon_stream, prompt_photon_record, select_channel, select_line, CollisionSite, DecayPhoton,
    EmissionGates, PhotonBirth, DECAY_STREAM_KEY, PHOTON_STREAM_KEY,
};
use yamc_transport::ieee::Real;
use yamc_transport::layout::{DECAY_META_COLS, MAX_PHOTONS_PER_COLLISION};
use yamc_transport::pend::Particle;

fn num(x: f64) -> Real {
    Real::new(x.to_bits())
}

fn nums(xs: &[f64]) -> Vec<Real> {
    xs.iter().map(|x| num(*x)).collect()
}

fn two_materials() -> Vec<MaterialDecayTable> {
    let mat0 = MaterialDecayTable {
        photon_prod: nums(&[1.0, 2.0, 3.0, 4.0]),
        ch_xs: nums(&[1.0, 2.0, 3.0, 4.0]),
        ch_parent_id: vec![7],
        ch_energies: nums(&[100.0, 200.0]),
        ch_intensity_cdf: nums(&[0.4, 1.0]),
        ch_e_base: vec![0],
        ch_e_count: vec![2],
    };
    let mat1 = MaterialDecayTable {
        photon_prod: nums(&[5.0, 6.0, 7.0, 8.0]),
        ch_xs: nums(&[2.0, 3.0, 4.0, 5.0, 3.0, 3.0, 3.0, 3.0]),
        ch_parent_id: vec![11, 13],
        ch_energies: nums(&[300.0, 400.0, 500.0, 600.0]),
        ch_intensity_cdf: nums(&[1.0, 0.3, 0.6, 1.0]),
        ch_e_base: vec![0, 1],
        ch_e_count: vec![1, 3],
    };
    vec![mat0, mat1]
}

#[test]
fn decay_off_has_gate_zero_and_nonempty_buffers() {
    let d = DecayPhotonInputs::decay_off(3, 5);
    assert_eq!(d.decay_enabled, vec![0]);
    assert_eq!(d.photon_prod.len(), 5);
    assert_eq!(d.meta.len(), 3 * DECAY_META_COLS);
    assert!(d.meta.iter().all(|&x| x == 0));
    assert!(!d.ch_parent_id.is_empty());
    assert!(!d.ch_energies.is_empty());
}

#[test]
fn from_materials_concatenates_and_rewrites_global_bases() {
    let n_grid = 4;
    let d = DecayPhotonInputs::from_materials(&two_materials(), n_grid);

    assert_eq!(d.decay_enabled, vec![1]);
    // Material 0 meta: pp_base 0, ch_base 0, ch_count 1.
    assert_eq!(&d.meta[0..3], &[0, 0, 1]);
    // Material 1 meta: pp_base 4, ch_base 1, ch_count 2.
    assert_eq!(&d.meta[3..6], &[4, 1, 2]);

    assert_eq!(d.photon_prod.len(), 8);
    assert_eq!(d.ch_parent_id, vec![7, 11, 13]);

    // Interleaved first line and count of each packed channel.
    assert_eq!(d.ch_e_meta, vec![0, 2, 2, 1, 3, 3]);
    assert_eq!(
        d.ch_energies,
        nums(&[100.0, 200.0, 300.0, 400.0, 500.0, 600.0])
    );
    assert_eq!(
        d.ch_intensity_cdf,
        nums(&[0.4, 1.0, 1.0, 0.3, 0.6, 1.0])
    );
}

#[test]
fn decay_off_without_materials_or_grid_is_still_bindable() {
    let d = DecayPhotonInputs::decay_off(0, 0);
    assert_eq!(d.photon_prod, nums(&[0.0]));
    assert_eq!(d.ch_xs, nums(&[0.0]));
    assert_eq!(d.ch_e_meta, vec![0, 0]);
    assert_eq!(d.meta, vec![0, 0, 0]);
}

#[test]
fn packing_no_material_pads_every_buffer() {
    let d = DecayPhotonInputs::from_materials(&[], 4);
    assert_eq!(d.decay_enabled, vec![1]);
    assert_eq!(d.photon_prod, nums(&[0.0]));
    assert_eq!(d.ch_xs, nums(&[0.0]));
    assert_eq!(d.ch_parent_id, vec![0]);
    assert_eq!(d.ch_e_meta, vec![0, 0]);
    assert_eq!(d.ch_energies, nums(&[0.0]));
    assert_eq!(d.ch_intensity_cdf, nums(&[0.0]));
    assert_eq!(d.meta, vec![0, 0, 0]);
}

#[test]
fn void_material_keeps_a_zero_row_and_no_channels() {
    let void = MaterialDecayTable::void(3);
    assert_eq!(void.n_channels(), 0);
    assert_eq!(void.photon_prod, nums(&[0.0, 0.0, 0.0]));
    let mut tables = two_materials();
    tables.insert(1, MaterialDecayTable::void(4));
    let d = DecayPhotonInputs::from_materials(&tables, 4);
    assert_eq!(d.meta, vec![0, 0, 1, 4, 1, 0, 8, 1, 2]);
    assert_eq!(d.ch_parent_id, vec![7, 11, 13]);
}

#[test]
fn material_without_a_row_gets_zeros() {
    let d = DecayPhotonInputs::from_materials(&[MaterialDecayTable::default()], 2);
    assert_eq!(d.photon_prod, nums(&[0.0, 0.0]));
    assert_eq!(d.meta, vec![0, 0, 0]);
}

#[test]
fn packed_channel_is_found_through_its_material() {
    let d = DecayPhotonInputs::from_materials(&two_materials(), 4);
    let range = decay_range(&d.meta, 1);
    assert_eq!((range.pp_base, range.ch_base, range.ch_count), (4, 1, 2));
    assert_eq!(line_range(&d.ch_e_meta, 2), (3, 3));
    // Second channel of the second material: lines 400, 500, 600 at 0.3, 0.6, 1.
    let photon = decay_photon(&d, range, 1, num(0.5));
    assert_eq!(photon.energy, num(500.0));
    assert_eq!(photon.parent, 13);
    let photon = decay_photon(&d, range, 0, num(0.5));
    assert_eq!(photon.energy, num(300.0));
    assert_eq!(photon.parent, 11);
    // Cross-section row of the packed channel.
    let row = &d.ch_xs[2 * 4..3 * 4];
    assert_eq!(row, &nums(&[3.0, 3.0, 3.0, 3.0])[..]);
}

#[test]
fn line_on_the_intensity_is_taken_and_past_the_end_is_the_last() {
    let cdf = nums(&[9.0, 0.25, 0.5, 1.0]);
    assert_eq!(select_line(&cdf, 1, 3, num(0.25)), 0);
    assert_eq!(select_line(&cdf, 1, 3, num(0.26)), 1);
    assert_eq!(select_line(&cdf, 1, 3, num(1.0)), 2);
    assert_eq!(select_line(&cdf, 1, 3, num(1.5)), 2);
}

#[test]
fn channel_is_the_first_past_the_cutoff() {
    let xs = nums(&[1.0, 0.0, 2.0, 3.0]);
    let sums = nums(&[1.0, 1.0, 3.0, 6.0]);
    assert_eq!(select_channel(&xs, &sums, num(0.5)), 0);
    // A sum equal to the cutoff is not past it; the closed channel is skipped.
    assert_eq!(select_channel(&xs, &sums, num(1.0)), 2);
    assert_eq!(select_channel(&xs, &sums, num(5.9)), 3);
}

#[test]
fn channel_falls_back_to_the_last_open_one() {
    let xs = nums(&[1.0, 2.0, 0.0]);
    let sums = nums(&[1.0, 3.0, 3.0]);
    assert_eq!(select_channel(&xs, &sums, num(4.0)), 1);
    let closed = nums(&[0.0, 0.0, 0.0]);
    assert_eq!(select_channel(&closed, &closed, num(0.0)), 2);
}

#[test]
fn decay_photon_needs_production_and_channels() {
    assert!(emits_decay_photon(num(1.0e-9), 1));
    assert!(!emits_decay_photon(num(0.0), 1));
    assert!(!emits_decay_photon(num(-1.0), 1));
    assert!(!emits_decay_photon(num(f64::NAN), 1));
    assert!(!emits_decay_photon(num(1.0), 0));
}

#[test]
fn photon_streams_are_apart() {
    let state = 0x0123_4567_89AB_CDEF;
    assert_eq!(photon_stream(0), PHOTON_STREAM_KEY);
    assert_eq!(decay_stream(0), DECAY_STREAM_KEY);
    assert_ne!(photon_stream(state), state);
    assert_ne!(decay_stream(state), state);
    assert_ne!(photon_stream(state), decay_stream(state));
    assert_eq!(photon_stream(photon_stream(state)), state);
}

#[test]
fn photons_per_collision_are_capped() {
    assert_eq!(photon_attempts(0), 0);
    assert_eq!(photon_attempts(3), 3);
    assert_eq!(photon_attempts(16), MAX_PHOTONS_PER_COLLISION);
    assert_eq!(photon_attempts(17), 16);
}

fn photon(energy: f64, seed: u32) -> BankRecord<Real> {
    BankRecord {
        energy: num(energy),
        px: num(1.0),
        py: num(2.0),
        pz: num(3.0),
        dx: num(0.0),
        dy: num(0.0),
        dz: num(1.0),
        weight: num(0.5),
        ptype: 1,
        cell: 4,
        seed,
        gen: 0,
        source_idx: 9,
    }
}

#[test]
fn photons_without_energy_are_not_banked() {
    let mut bank = Bank::new(3, num(0.0));
    bank_photons(&mut bank, &[photon(10.0, 1), photon(0.0, 2), photon(20.0, 3)]);
    assert_eq!(bank.count, 2);
    assert_eq!(bank.overflow, 0);
    assert_eq!(bank.bank_f64[0], num(10.0));
    assert_eq!(bank.bank_f64[8], num(20.0));
    assert_eq!(&bank.bank_u32[4..8], &[1, 4, 3, 0]);
    assert_eq!(&bank.source_idx, &[9, 9, 0]);
    bank_photons(&mut bank, &[photon(30.0, 4), photon(40.0, 5)]);
    assert_eq!(bank.count, 4);
    assert_eq!(bank.overflow, 1);
    assert_eq!(bank.bank_f64[16], num(30.0));
}

#[test]
fn photon_starts_where_the_neutron_collides() {
    let neutron = Particle {
        energy: num(2.0e6),
        px: num(1.0),
        py: num(2.0),
        pz: num(3.0),
        dx: num(0.0),
        dy: num(0.0),
        dz: num(1.0),
        weight: num(0.5),
    };
    let site = CollisionSite { cell: 4, source_idx: 9 };
    let birth = PhotonBirth { dx: num(1.0), dy: num(0.0), dz: num(0.0), seed: 77 };
    let r = prompt_photon_record(neutron, site, num(8.0), birth, 2);
    assert_eq!((r.energy, r.px, r.py, r.pz), (num(8.0), num(1.0), num(2.0), num(3.0)));
    assert_eq!((r.dx, r.dz, r.weight), (num(1.0), num(0.0), num(0.5)));
    assert_eq!((r.ptype, r.cell, r.seed, r.gen, r.source_idx), (2, 4, 77, 0, 9));
    let line = DecayPhoton { energy: num(6.0), parent: 1234 };
    let r = decay_photon_record(neutron, site, line, num(0.125), birth, 2);
    assert_eq!((r.energy, r.weight, r.gen, r.seed), (num(6.0), num(0.125), 1234, 77));
    assert_eq!((r.px, r.cell, r.source_idx), (num(1.0), 4, 9));
}

#[test]
fn photons_are_banked_through_open_gates_only() {
    let prompt = [photon(10.0, 1), photon(0.0, 2), photon(20.0, 3)];
    let decay = [photon(5.0, 4)];
    let banked = |prompt_on: bool, decay_on: bool| {
        let mut bank = Bank::new(4, num(0.0));
        let gates = EmissionGates { prompt: prompt_on, decay: decay_on };
        bank_collision_photons(&mut bank, gates, &prompt, &decay);
        (0..bank.count as usize).map(|s| bank.bank_u32[4 * s + 2]).collect::<Vec<u32>>()
    };
    assert_eq!(banked(false, false), vec![]);
    assert_eq!(banked(true, false), vec![1, 3]);
    assert_eq!(banked(false, true), vec![4]);
    assert_eq!(banked(true, true), vec![1, 3, 4]);
}

#[test]
fn photons_are_sampled_from_streams_of_their_own() {
    let state = 0x0123_4567_89AB_CDEF;
    let seed = |stream: u64| (stream % 1000) as u32;
    let prompt = |stream: u64| vec![photon(10.0, seed(stream)), photon(0.0, 1)];
    let decay = |stream: u64| vec![photon(5.0, seed(stream))];
    let mut bank = Bank::new(4, num(0.0));
    let both = EmissionGates { prompt: true, decay: true };
    emit_at_collision(&mut bank, both, state, &prompt, &decay);
    assert_eq!(bank.count, 2);
    assert_eq!(bank.bank_u32[2], seed(photon_stream(state)));
    assert_eq!(bank.bank_u32[6], seed(decay_stream(state)));
    // A shut gate samples nothing.
    let never = |_: u64| -> Vec<BankRecord<Real>> { panic!() };
    let shut = EmissionGates { prompt: false, decay: false };
    emit_at_collision(&mut bank, shut, state, &never, &never);
    assert_eq!(bank.count, 2);
}
