//! Runs on the host, launches and their results.
use yamc_transport::bank::LostParticleResult;
use yamc_transport::bytes::{
    read_counter, read_real, read_u32, read_u64, upload_real, upload_u32, upload_u64,
};
use yamc_transport::drivers::{
    chunk_end, chunk_starts, merge_chunks, ChunkResult, RunLog, CHUNK,
};
use yamc_transport::history::{CollisionRecord, LostParticleRecord, ParticleOutcome};
use yamc_transport::ieee::Real;
use yamc_transport::launch::{
    launch_result, plan_launch, read_bank, read_tallies, BankOverflow, ParticleReadback,
    TallyReadback, TallyVarianceMode,
};
use yamc_transport::layout::{BANK_GEN_NXN_SPILL, MESH_NONE, SCORE_FLUX};
use yamc_transport::lengths::TransportLengths;
use yamc_transport::photon::PhotonBankResult;
use yamc_transport::result::MultiCellResult;
use yamc_transport::run::{
    run_multi_cell_transport_cpu, run_multi_cell_transport_cpu_rayon, HistoryRun, HostRun,
};
use yamc_transport::spill::PERHIST_K;
use yamc_transport::tally::TalliesPack;
use yamc_transport::validate::LayoutError;
use yamc_transport::words::Deposit;

fn num(x: f64) -> Real {
    Real::new(x.to_bits())
}

fn nums(xs: &[f64]) -> Vec<Real> {
    xs.iter().map(|x| num(*x)).collect()
}

fn value(x: Real) -> f64 {
    f64::from_bits(x.bits)
}

fn loss(cell: usize) -> LostParticleRecord {
    LostParticleRecord {
        position: [num(cell as f64), num(0.0), num(0.0)],
        direction: [num(0.0), num(0.0), num(1.0)],
        energy: num(1.0),
        last_cell_index: Some(cell),
    }
}

fn outcome(i: usize) -> ParticleOutcome {
    ParticleOutcome {
        alive: (i % 2) as u32,
        n_steps: i as u32,
        final_energy: num(i as f64),
        lost: if i % 1000 == 7 {
            vec![loss(i)]
        } else {
            vec![]
        },
        n_spilled: (i % 3) as u32,
        max_pend_depth: (i % 5) as u32,
    }
}

fn history(i: usize) -> HistoryRun {
    HistoryRun {
        outcome: outcome(i),
        deposits: vec![
            Deposit { slot: i % 3, word: i as u64 },
            Deposit { slot: 2, word: (-1i64) as u64 },
        ],
        trace: vec![CollisionRecord {
            step: 0,
            energy_in: num(i as f64),
            energy_out: num(0.0),
            reaction: 2,
        }],
    }
}

fn pack() -> TalliesPack {
    TalliesPack {
        score_kinds: vec![SCORE_FLUX, SCORE_FLUX],
        score_data: vec![0, 0],
        score_mt: vec![0, 0],
        is_collision: vec![0, 0],
        cell_to_bin: vec![0, 0],
        n_cells_per_tally: vec![1, 1],
        edges_offsets: vec![0, 2],
        n_bins_per_tally: vec![1, 2],
        log_edges: nums(&[0.0, 1.0, 0.0, 1.0, 2.0]),
        out_offsets: vec![0, 1, 3],
        fixed_point_scales: nums(&[1.0, 1.0]),
        n_mesh_per_tally: vec![1, 1],
        mesh_kind: vec![MESH_NONE; 2],
        mesh_params_offsets: vec![0; 3],
        mesh_params: vec![],
        efunc_offsets: vec![0; 3],
        efunc_params: vec![],
    }
}

/// Lengths of a geometry of one cell, without surfaces, materials or nuclides.
fn lengths() -> TransportLengths {
    TransportLengths {
        n_cells: 1,
        surface_types: 0,
        n_materials: 0,
        n_slab: 0,
        fine_log_energy_grid: 0,
        fission_eout_n_x: 0,
        fission_eout_x: 0,
        angle_n_mu: 0,
        angle_mu: 0,
        eout_n_x: 0,
        eout_x: 0,
        corr_n_x: 0,
        corr_n_mu: 0,
        corr_mu: 0,
        elastic_n_mu: 0,
        elastic_mu: 0,
        km_n_x: 0,
        km_x: 0,
        evap_energy_grid: 0,
        maxwell_energy_grid: 0,
        watt_energy_grid: 0,
        urr_cdf: 0,
        urr_xs_cols: 0,
        cell_to_material: 1,
        surface_boundaries: 0,
        fine_meta: 0,
        xs_elastic: 0,
        xs_absorption: 0,
        xs_inelastic: 0,
        xs_fission: 0,
        nu_bar: 0,
        beta_delayed: 0,
        fission_a: 0,
        fission_b: 0,
        fission_eout_kind: 0,
        fission_eout_n_energies: 0,
        fission_eout_ae_offset: 0,
        fission_eout_energy_grid: 0,
        fission_eout_x_offset: 0,
        fission_eout_cdf: 0,
        fission_eout_p: 0,
        fission_eout_interp: 0,
        coarse_meta: 0,
        mat_nuclide_meta: 0,
        permt_meta: 0,
        xs_inelastic_sparse: 0,
        yield_sparse: 0,
        q_inelastic: 0,
        angle_n_energies: 0,
        angle_ae_offset: 0,
        angle_energy_grid: 0,
        angle_mu_offset: 0,
        angle_cdf: 0,
        scatter_in_cm: 0,
        eout_kind: 0,
        eout_n_energies: 0,
        eout_ae_offset: 0,
        eout_energy_grid: 0,
        eout_x_offset: 0,
        eout_cdf: 0,
        eout_p: 0,
        eout_histogram_interp: 0,
        eout_interp: 0,
        eout_n_discrete: 0,
        corr_n_energies: 0,
        corr_n_components: 0,
        corr_ae_offset: 0,
        corr_energy_grid: 0,
        corr_x_offset: 0,
        corr_x: 0,
        corr_cdf: 0,
        corr_p: 0,
        corr_interp: 0,
        corr_n_discrete: 0,
        corr_mu_offset: 0,
        corr_mu_cdf: 0,
        corr_mu_pdf: 0,
        corr_mu_interp: 0,
        nuc_partial_xs: 0,
        nuc_macro_total: 0,
        angle_pdf: 0,
        angle_interp: 0,
        elastic_n_energies: 0,
        elastic_ae_offset: 0,
        elastic_energy_grid: 0,
        elastic_interp: 0,
        elastic_mu_offset: 0,
        elastic_cdf: 0,
        elastic_pdf: 0,
        temperature_k: 0,
        km_n_energies: 0,
        km_ae_offset: 0,
        km_energy_grid: 0,
        km_interp: 0,
        km_n_discrete: 0,
        km_x_offset: 0,
        km_p: 0,
        km_c: 0,
        km_r: 0,
        km_a: 0,
        evap_n_energies: 0,
        evap_n_components: 0,
        evap_ae_offset: 0,
        evap_theta_offset: 0,
        evap_u: 0,
        nbps_n_bodies: 0,
        nbps_total_mass: 0,
        maxwell_n_energies: 0,
        maxwell_ae_offset: 0,
        maxwell_theta: 0,
        maxwell_u: 0,
        watt_n_energies: 0,
        watt_ae_offset: 0,
        watt_a: 0,
        watt_b: 0,
        watt_u: 0,
        urr_meta: 0,
        urr_ae_offset: 0,
        urr_cdf_offset: 0,
        urr_xs: 0,
        urr_atom_density: 0,
    }
}

fn run<'a>(l: &'a TransportLengths, t: &'a TalliesPack, n: usize) -> HostRun<'a> {
    HostRun {
        lengths: l,
        tallies: t,
        fine_meta: &[],
        mat_nuclide_meta: &[],
        permt_meta: &[],
        n,
        lost_capacity: 2,
    }
}

fn decode(t: usize, word: i64) -> Real {
    num(word as f64 * (t as f64 + 1.0))
}

fn same(a: &MultiCellResult, b: &MultiCellResult) {
    assert_eq!(a.alive, b.alive);
    assert_eq!(a.n_steps, b.n_steps);
    assert_eq!(a.final_energies, b.final_energies);
    assert_eq!(a.tally_outputs, b.tally_outputs);
    assert_eq!(a.n_spilled_secondaries, b.n_spilled_secondaries);
    assert_eq!(a.max_pend_depth, b.max_pend_depth);
    assert_eq!(a.pend_depth_hist, b.pend_depth_hist);
    assert_eq!(a.lost.count, b.lost.count);
    assert_eq!(a.lost.records.len(), b.lost.records.len());
    for (x, y) in a.lost.records.iter().zip(&b.lost.records) {
        assert_eq!(x.last_cell_index, y.last_cell_index);
    }
}

#[test]
fn parallel_run_equals_the_serial_run() {
    let (l, t) = (lengths(), pack());
    for n in [0, 1, CHUNK, 2 * CHUNK + 17] {
        let r = run(&l, &t, n);
        let (serial, traces) = run_multi_cell_transport_cpu(&r, &history, decode, false).unwrap();
        let parallel = run_multi_cell_transport_cpu_rayon(&r, &history, decode).unwrap();
        same(&serial, &parallel);
        assert!(traces.is_empty());
        assert_eq!(serial.alive.len(), n);
    }
}

#[test]
fn serial_run_reports_every_history() {
    let (l, t) = (lengths(), pack());
    let (r, traces) = run_multi_cell_transport_cpu(&run(&l, &t, 12), &history, decode, true).unwrap();
    assert_eq!(r.n_steps, (0..12).collect::<Vec<u32>>());
    assert_eq!(r.alive, (0..12).map(|i| i % 2).collect::<Vec<u32>>());
    // Slots 0 and 1 hold sums of i with i % 3 == slot; slot 2 also loses 12.
    assert_eq!(
        r.tally_outputs,
        vec![nums(&[18.0]), nums(&[44.0, 2.0 * (26.0 - 12.0)])]
    );
    assert_eq!(r.n_spilled_secondaries, 12);
    assert_eq!((r.max_pend_depth, r.pend_depth_hist), (4, vec![3, 3, 2, 2, 2]));
    assert_eq!((r.lost.count, r.lost.records.len()), (1, 1));
    assert_eq!(traces.len(), 12);
    assert_eq!(traces[5][0].energy_in, num(5.0));
    assert!(r.tally_sum_sq.is_empty() && r.src_acc.is_empty() && r.bank_source_idx.is_empty());
    assert_eq!((r.n_cells, r.n_bins_per_tally), (1, vec![1, 2]));
    assert_eq!(r.photon_bank.count, 0);
}

#[test]
fn lost_records_are_capped_and_counted() {
    let (l, t) = (lengths(), pack());
    let r = run_multi_cell_transport_cpu_rayon(&run(&l, &t, 5000), &history, decode).unwrap();
    assert_eq!(r.lost.count, 5);
    let cells: Vec<Option<usize>> = r.lost.records.iter().map(|x| x.last_cell_index).collect();
    assert_eq!(cells, vec![Some(7), Some(1007)]);
}

#[test]
fn invalid_inputs_are_not_run() {
    let (l, mut t) = (lengths(), pack());
    t.n_bins_per_tally[0] = 0;
    let r = run_multi_cell_transport_cpu_rayon(&run(&l, &t, 1), &history, decode);
    assert!(matches!(r, Err(LayoutError::EmptyTally { tally: 0 })));
    let r = run_multi_cell_transport_cpu(&run(&l, &t, 1), &history, decode, true);
    assert!(matches!(r, Err(LayoutError::EmptyTally { tally: 0 })));
}

#[test]
fn chunks_cover_the_particles() {
    assert!(chunk_starts(0).is_empty());
    assert_eq!(chunk_starts(1), vec![0]);
    assert_eq!(chunk_starts(CHUNK), vec![0]);
    assert_eq!(chunk_starts(2 * CHUNK + 1), vec![0, CHUNK, 2 * CHUNK]);
    assert_eq!(chunk_end(0, CHUNK + 5), CHUNK);
    assert_eq!(chunk_end(CHUNK, CHUNK + 5), CHUNK + 5);
}

fn chunk(start: usize, n: usize) -> ChunkResult {
    let mut log = RunLog::new();
    for i in start..start + n {
        log.record(outcome(i));
    }
    ChunkResult {
        chunk_start: start,
        log,
        tally_acc: vec![start as u64, u64::MAX],
    }
}

#[test]
fn chunks_that_finish_out_of_order_are_put_in_order() {
    let merged = merge_chunks(&[chunk(8, 4), chunk(0, 4), chunk(4, 4)], 2);
    assert_eq!(merged.log.n_steps, (0..12).collect::<Vec<u32>>());
    assert_eq!(merged.tally_acc, vec![12, u64::MAX - 2]);
    assert_eq!(merged.log.pend_depth_hist, vec![3, 3, 2, 2, 2]);
    let none = merge_chunks(&[], 2);
    assert_eq!(none.tally_acc, vec![0, 0]);
    assert!(none.log.pend_depth_hist.is_empty());
}

fn per_source(direct: bool, source_idx: Option<Vec<u32>>) -> TallyVarianceMode {
    if direct {
        TallyVarianceMode::PerSourceDirect { chunk_sources: 10, total_bins: 100, source_idx }
    } else {
        TallyVarianceMode::PerSource { chunk_sources: 10, total_bins: 100, source_idx }
    }
}

#[test]
fn variance_mode_sizes_the_buffers() {
    let cap = 100 - PERHIST_K as usize;
    let p = plan_launch(&TallyVarianceMode::PerStep, 65, 100, 1000, 2, 0);
    assert_eq!((p.tally_len, p.spill_len, p.src_acc_len), (100, 1, 1));
    assert_eq!((p.groups, p.bank_slots, p.source_idx), (2, 1, vec![0]));
    let p = plan_launch(&TallyVarianceMode::PerHistory, 64, 100, 1000, 2, 7);
    assert_eq!((p.tally_len, p.spill_cap, p.spill_len), (200, cap, 64 * cap));
    assert_eq!((p.groups, p.bank_slots), (1, 7));
    let p = plan_launch(&per_source(false, None), 3, 100, 1000, 2, 7);
    assert_eq!((p.tally_len, p.spill_len, p.src_acc_len), (1, 3 * cap, 1000));
    assert_eq!(p.source_idx, vec![0, 1, 2]);
    let p = plan_launch(&per_source(true, Some(vec![4, 4])), 2, 100, 1000, 2, 7);
    assert_eq!((p.spill_cap, p.spill_len, p.src_acc_len), (0, 1, 1000));
    assert_eq!(p.source_idx, vec![4, 4]);
    let p = plan_launch(&TallyVarianceMode::PerStep, 0, 0, 0, 0, 0);
    assert_eq!((p.tally_len, p.groups), (1, 0));
}

#[test]
fn variance_mode_says_where_totals_go() {
    let modes = [
        TallyVarianceMode::PerStep,
        TallyVarianceMode::PerHistory,
        per_source(false, None),
        per_source(true, None),
    ];
    let flags: Vec<(bool, bool, bool, bool, u32)> = modes
        .iter()
        .map(|m| {
            (
                m.per_history(),
                m.per_source(),
                m.mesh_direct(),
                m.uses_src_acc(),
                m.total_bins(),
            )
        })
        .collect();
    assert_eq!(
        flags,
        vec![
            (false, false, false, false, 0),
            (true, false, false, false, 0),
            (true, true, false, true, 100),
            (true, true, true, true, 100),
        ]
    );
}

#[test]
fn tallies_are_read_back_by_mode() {
    let plain = |_: usize, w: i64| num(w as f64);
    let halved = |_: usize, w: i64| num(w as f64 / 2.0);
    let offsets = [0u32, 1, 3];
    let r = read_tallies(&TallyVarianceMode::PerStep, vec![1, 2, 3], &offsets, 2, plain, halved);
    assert_eq!(r.outputs, vec![nums(&[1.0]), nums(&[2.0, 3.0])]);
    assert!(r.sum_sq.is_empty() && r.src_acc.is_empty());
    let words = vec![1, 2, 3, 10, 20, 30];
    let r = read_tallies(&TallyVarianceMode::PerHistory, words, &offsets, 2, plain, halved);
    assert_eq!(r.outputs, vec![nums(&[1.0]), nums(&[2.0, 3.0])]);
    assert_eq!(r.sum_sq, vec![nums(&[5.0]), nums(&[10.0, 15.0])]);
    let r = read_tallies(&per_source(false, None), vec![9, 8], &offsets, 2, plain, halved);
    assert_eq!(r.src_acc, vec![9, 8]);
    assert!(r.outputs.is_empty() && r.sum_sq.is_empty());
}

#[test]
fn bank_overflow_is_an_error() {
    let r = read_bank(5, 2, vec![], vec![]);
    assert!(matches!(r, Err(BankOverflow { overflow: 2, count: 5 })));
    let r = read_bank(0, 0, nums(&[1.0]), vec![1]).unwrap();
    assert!(r.bank_f64.is_empty() && r.bank_u32.is_empty());
    let r = read_bank(1, 0, nums(&[1.0]), vec![1]).unwrap();
    assert_eq!((r.count, r.bank_f64, r.bank_u32), (1, nums(&[1.0]), vec![1]));
}

fn result_of(mode: &TallyVarianceMode, bank: PhotonBankResult) -> MultiCellResult {
    launch_result(
        mode,
        ParticleReadback {
            alive: vec![1],
            n_steps: vec![4],
            final_energies: nums(&[2.0]),
        },
        TallyReadback {
            outputs: vec![nums(&[1.0, 2.0, 3.0, 4.0]), nums(&[5.0, 6.0])],
            sum_sq: vec![],
            src_acc: vec![],
        },
        &[2, 1],
        2,
        bank,
        vec![11],
        LostParticleResult::new(),
        0,
    )
}

#[test]
fn launch_result_counts_spills_and_keeps_sources() {
    let bank = PhotonBankResult {
        count: 1,
        overflow: 0,
        bank_f64: nums(&[0.0; 8]),
        bank_u32: vec![0, 3, 4, BANK_GEN_NXN_SPILL],
    };
    let r = result_of(&per_source(false, None), bank);
    assert_eq!((r.n_spilled_secondaries, r.bank_source_idx.clone()), (1, vec![11]));
    assert_eq!((r.max_pend_depth, r.pend_depth_hist.len(), r.n_cells), (0, 0, 2));
    let r = result_of(&per_source(false, None), PhotonBankResult::default());
    assert!(r.bank_source_idx.is_empty());
    let r = result_of(&TallyVarianceMode::PerStep, PhotonBankResult::default());
    assert_eq!((r.alive, r.n_steps, r.final_energies), (vec![1], vec![4], nums(&[2.0])));
}

#[test]
fn tallies_are_summed_over_energy() {
    let r = result_of(&TallyVarianceMode::PerStep, PhotonBankResult::default());
    let plus = |a: Real, b: Real| num(value(a) + value(b));
    assert_eq!(r.tally_per_cell(0, plus, num(0.0)), nums(&[3.0, 7.0]));
    assert_eq!(r.flux_per_cell(plus, num(0.0)), nums(&[3.0, 7.0]));
    assert_eq!(r.absorption_per_cell(plus, num(0.0)), nums(&[5.0, 6.0]));
    assert_eq!(r.flux_per_cell_energy(), &nums(&[1.0, 2.0, 3.0, 4.0])[..]);
    assert_eq!(r.absorption_per_cell_energy(), &nums(&[5.0, 6.0])[..]);
}

#[test]
fn words_come_back_from_their_bytes() {
    let words = [1u32, 0x0102_0304, u32::MAX];
    let bytes = upload_u32(&words);
    assert_eq!(bytes.len(), 12);
    assert_eq!(&bytes[4..8], &0x0102_0304u32.to_ne_bytes()[..]);
    assert_eq!(read_u32(&bytes), Some(words.to_vec()));
    // Bytes that start anywhere in memory.
    let shifted: Vec<u8> = std::iter::once(0).chain(bytes.iter().copied()).collect();
    assert_eq!(read_u32(&shifted[1..]), Some(words.to_vec()));
    let long = [1u64, 0x0102_0304_0506_0708];
    let bytes = upload_u64(&long);
    assert_eq!(&bytes[8..16], &long[1].to_ne_bytes()[..]);
    assert_eq!(read_u64(&bytes), Some(long.to_vec()));
    assert_eq!(read_counter(&bytes), Some(1));
    let xs = nums(&[1.5, -0.0, 1.0e300]);
    let bytes = upload_real(&xs);
    assert_eq!(&bytes[..8], &1.5f64.to_ne_bytes()[..]);
    assert_eq!(read_real(&bytes), Some(xs));
}

#[test]
fn empty_tables_upload_one_zero() {
    assert_eq!(upload_u32(&[]), vec![0; 4]);
    assert_eq!(upload_u64(&[]), vec![0; 8]);
    assert_eq!(upload_real(&[]), vec![0; 8]);
}

#[test]
fn broken_words_are_not_read() {
    assert_eq!(read_u32(&[1, 2, 3]), None);
    assert_eq!(read_u64(&[1; 12]), None);
    assert_eq!(read_real(&[1; 9]), None);
    assert_eq!(read_counter(&[]), None);
    assert_eq!(read_counter(&[0; 7]), None);
}

#[test]
fn every_lost_walk_of_a_history_is_counted() {
    let (l, t) = (lengths(), pack());
    // Each third history loses its walk and two of the secondaries.
    let leaky = |i: usize| {
        let mut h = history(i);
        h.outcome.lost = (0..if i % 3 == 0 { 3 } else { 0 }).map(|k| loss(10 * i + k)).collect();
        h
    };
    let (r, _) = run_multi_cell_transport_cpu(&run(&l, &t, 7), &leaky, decode, false).unwrap();
    assert_eq!(r.lost.count, 9);
    let cells: Vec<Option<usize>> = r.lost.records.iter().map(|x| x.last_cell_index).collect();
    assert_eq!(cells, vec![Some(0), Some(1)]);
    let p = run_multi_cell_transport_cpu_rayon(&run(&l, &t, 7), &leaky, decode).unwrap();
    assert_eq!(p.lost.count, 9);
}

#[test]
fn traces_do_not_change_the_result() {
    let (l, t) = (lengths(), pack());
    let untraced = |i: usize| HistoryRun { trace: vec![], ..history(i) };
    let (a, traces) = run_multi_cell_transport_cpu(&run(&l, &t, 9), &history, decode, true).unwrap();
    let (b, none) = run_multi_cell_transport_cpu(&run(&l, &t, 9), &untraced, decode, false).unwrap();
    same(&a, &b);
    assert_eq!((traces.len(), none.len()), (9, 0));
}

#[test]
fn a_run_adds_up_from_two_runs() {
    let (l, t) = (lengths(), pack());
    let later = |i: usize| history(1000 + i);
    let (whole, _) = run_multi_cell_transport_cpu(&run(&l, &t, 1010), &history, decode, false).unwrap();
    let (a, _) = run_multi_cell_transport_cpu(&run(&l, &t, 1000), &history, decode, false).unwrap();
    let (b, _) = run_multi_cell_transport_cpu(&run(&l, &t, 10), &later, decode, false).unwrap();
    assert_eq!(whole.n_steps, [a.n_steps, b.n_steps].concat());
    assert_eq!(whole.final_energies, [a.final_energies, b.final_energies].concat());
    assert_eq!((a.lost.count, b.lost.count, whole.lost.count), (1, 1, 2));
    assert_eq!(
        whole.n_spilled_secondaries,
        a.n_spilled_secondaries + b.n_spilled_secondaries
    );
    assert_eq!(whole.max_pend_depth, a.max_pend_depth.max(b.max_pend_depth));
    for k in 0..2 {
        for j in 0..whole.tally_outputs[k].len() {
            assert_eq!(
                value(whole.tally_outputs[k][j]),
                value(a.tally_outputs[k][j]) + value(b.tally_outputs[k][j])
            );
        }
    }
}
