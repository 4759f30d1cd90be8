//! Scoring and the fixed-point accumulators.
use yamc_transport::ieee::Real;
use yamc_transport::layout::{
    MESH_CYLINDRICAL, MESH_NONE, NOT_IN_TALLY, SCORE_ABSORPTION, SCORE_FLUX, SCORE_PER_MT, SCORE_TOTAL,
};
use yamc_transport::spill::TouchedList;
use yamc_transport::tally::{
    apply_energy_function, collision_hits, collision_scores, destination, flush_history,
    flush_to_source, log_edges_bin, sum_sq_scale, tally_score_factor, track_hits, track_scores,
    unpack_tally_outputs, unpack_tally_sum_sq, Destination, EnergyWeight, ScoreContext,
    ScoreFactor, SquareScales, TalliesPack,
};
use yamc_transport::words::{deposit, deposit_all, merge, signed_word, Deposit};

fn num(x: f64) -> Real {
    Real::new(x.to_bits())
}

fn nums(xs: &[f64]) -> Vec<Real> {
    xs.iter().map(|x| num(*x)).collect()
}

/// Two cells; a track-length flux in two energy bins over both cells, a
/// track-length total in the second cell only, and a collision flux.
fn pack() -> TalliesPack {
    TalliesPack {
        score_kinds: vec![SCORE_FLUX, SCORE_TOTAL, SCORE_FLUX],
        score_data: vec![0, 0, 0],
        score_mt: vec![0, 0, 0],
        is_collision: vec![0, 0, 1],
        cell_to_bin: vec![0, 1, NOT_IN_TALLY, 0, 0, 1],
        n_cells_per_tally: vec![2, 1, 2],
        edges_offsets: vec![0, 3, 3],
        n_bins_per_tally: vec![2, 1, 1],
        log_edges: nums(&[0.0, 1.0, 2.0, 0.0, 5.0]),
        out_offsets: vec![0, 4, 5, 7],
        fixed_point_scales: nums(&[1.0, 1.0, 1.0]),
        n_mesh_per_tally: vec![1, 1, 1],
        mesh_kind: vec![MESH_NONE; 3],
        mesh_params_offsets: vec![0; 4],
        mesh_params: vec![],
        efunc_offsets: vec![0; 4],
        efunc_params: vec![],
    }
}

fn context() -> ScoreContext {
    ScoreContext {
        mat: 1,
        n_grid: 4,
        n_score_mts: 2,
        idx_lo: 1,
        idx_hi: 2,
        band_fired: false,
    }
}

#[test]
fn value_on_an_interior_edge_is_in_the_lower_bin() {
    let edges = nums(&[-9.0, 0.0, 1.0, 2.0, 3.0]);
    let bin = |x: f64| log_edges_bin(&edges, 1, 3, num(x));
    assert_eq!(bin(0.0), Some(0));
    assert_eq!(bin(1.0), Some(0));
    assert_eq!(bin(1.0000001), Some(1));
    assert_eq!(bin(2.0), Some(1));
    assert_eq!(bin(3.0), Some(2));
    assert_eq!(bin(-0.0000001), None);
    assert_eq!(bin(3.0000001), None);
    assert_eq!(bin(f64::INFINITY), None);
}

#[test]
fn flight_scores_its_tallies_and_no_collision_tally() {
    let p = pack();
    assert_eq!((p.n_tallies(), p.total_out_len()), (3, 7));
    let hits = track_hits(&p, 2, 1, num(1.5), num(4.0), context(), 100);
    let got: Vec<(usize, usize)> = hits.iter().map(|h| (h.tally, h.slot)).collect();
    // Second cell, second energy bin; then the only bin of the second tally.
    assert_eq!(got, vec![(0, 3), (1, 4)]);
    assert_eq!(hits[0].factor, ScoreFactor::Unit);
    assert_eq!(hits[1].factor, ScoreFactor::Total);
    // The first cell is not in the second tally.
    let hits = track_hits(&p, 2, 0, num(0.5), num(4.0), context(), 100);
    let got: Vec<(usize, usize)> = hits.iter().map(|h| (h.tally, h.slot)).collect();
    assert_eq!(got, vec![(0, 0)]);
    // Above the first tally's edges only the second is left.
    let hits = track_hits(&p, 2, 1, num(3.0), num(4.0), context(), 100);
    let got: Vec<usize> = hits.iter().map(|h| h.tally).collect();
    assert_eq!(got, vec![1]);
}

#[test]
fn collision_scores_collision_tallies_only() {
    let p = pack();
    let hits = collision_hits(&p, 2, 1, num(1.5), num(4.0), num(2.0), context(), 100);
    let got: Vec<(usize, usize)> = hits.iter().map(|h| (h.tally, h.slot)).collect();
    assert_eq!(got, vec![(2, 6)]);
    // Without a cross section nothing collides.
    let hits = collision_hits(&p, 2, 1, num(1.5), num(4.0), num(0.0), context(), 100);
    assert!(hits.is_empty());
}

#[test]
fn factor_follows_the_score_and_the_sampled_band() {
    let mut p = pack();
    p.score_kinds = vec![SCORE_ABSORPTION, SCORE_PER_MT, SCORE_FLUX];
    p.score_data = vec![0, 1, 0];
    let ctx = context();
    let factor = |p: &TalliesPack, ctx: ScoreContext, t: usize| tally_score_factor(p, ctx, 100, t);
    assert_eq!(factor(&p, ctx, 0), ScoreFactor::Absorption);
    assert_eq!(factor(&p, ctx, 2), ScoreFactor::Unit);
    // Row of material 1, slot 1 on a grid of 4: 1 * 2 * 4 + 1 * 4.
    assert_eq!(factor(&p, ctx, 1), ScoreFactor::Table { lo: 13, hi: 14 });
    let fired = ScoreContext { band_fired: true, ..ctx };
    for (mt, expected) in [
        (102, ScoreFactor::BandCapture),
        (27, ScoreFactor::Absorption),
        (2, ScoreFactor::Elastic),
        (18, ScoreFactor::Fission),
        (16, ScoreFactor::Table { lo: 13, hi: 14 }),
    ] {
        p.score_mt = vec![0, mt, 0];
        assert_eq!(factor(&p, fired, 1), expected, "reaction {mt}");
    }
}

#[test]
fn energy_function_drops_what_is_off_its_table() {
    let mut p = pack();
    // Tally 0: three knots 1, 2, 4 and two cubics.
    p.efunc_params = nums(&[
        3.0, 1.0, 2.0, 4.0, 0.0, 0.0, 0.0, 0.0, 0.0, 0.0, 0.0, 0.0,
    ]);
    p.efunc_offsets = vec![0, 12, 12, 12];
    let weight = |e: f64| apply_energy_function(&p, 2, 0, num(e));
    assert_eq!(weight(0.5), None);
    assert_eq!(weight(1.0), Some(EnergyWeight::Cubic { knot: 1, coefficients: 4 }));
    assert_eq!(weight(2.0), Some(EnergyWeight::Cubic { knot: 2, coefficients: 8 }));
    assert_eq!(weight(4.0), Some(EnergyWeight::Cubic { knot: 2, coefficients: 8 }));
    assert_eq!(weight(4.5), None);
    assert_eq!(weight(f64::NAN), None);
    assert_eq!(apply_energy_function(&p, 2, 1, num(9.0)), Some(EnergyWeight::Pass));
}

#[test]
fn contribution_goes_where_the_variance_mode_says() {
    assert_eq!(destination(false, false, 70, 3), Destination::Accumulator { slot: 3 });
    assert_eq!(destination(false, true, 70, 3), Destination::Touched { bin: 3 });
    assert_eq!(destination(true, true, 70, 3), Destination::SourceRow { slot: 73 });
}

#[test]
fn history_flushes_its_sums_and_squares() {
    let mut list = TouchedList::new();
    list.touch(2);
    list.touch(0);
    let mut acc = vec![1u64; 6];
    flush_history(&mut acc, &list, &[10, 20], &[100, 400]);
    assert_eq!(acc, vec![21, 1, 11, 401, 1, 101]);
    let mut rows = vec![0u64; 6];
    flush_to_source(&mut rows, 3, &list, &[10, u64::MAX]);
    assert_eq!(rows, vec![0, 0, 0, u64::MAX, 0, 10]);
}

#[test]
fn words_are_unpacked_per_tally_and_signed() {
    let words = [1u64, 2, 3, (-4i64) as u64, 10, 20, 30, 40];
    let offsets = [0u32, 1, 4];
    let out = unpack_tally_outputs(&words, &offsets, 2, |t, w| w as f64 / (t as f64 + 1.0));
    assert_eq!(out, vec![vec![1.0], vec![1.0, 1.5, -2.0]]);
    let sq = unpack_tally_sum_sq(&words, 4, &offsets, 2, |_, w| w as f64);
    assert_eq!(sq, vec![vec![10.0], vec![20.0, 30.0, 40.0]]);
    assert_eq!(signed_word(u64::MAX), -1);
    assert_eq!(signed_word(i64::MAX as u64), i64::MAX);
}

#[test]
fn chunks_merge_to_the_serial_accumulator() {
    let deposits: Vec<Deposit> = (0..20u64)
        .map(|i| Deposit {
            slot: (i % 3) as usize,
            word: if i % 4 == 0 { (-(i as i64)) as u64 } else { i },
        })
        .collect();
    let mut serial = vec![0u64; 3];
    deposit_all(&mut serial, &deposits);
    let mut first = vec![0u64; 3];
    let mut second = vec![0u64; 3];
    deposit_all(&mut first, &deposits[..7]);
    deposit_all(&mut second, &deposits[7..]);
    let mut merged = vec![0u64; 3];
    merge(&mut merged, &second);
    merge(&mut merged, &first);
    assert_eq!(merged, serial);
    deposit(&mut merged, Deposit { slot: 1, word: u64::MAX });
    assert_eq!(merged[1], serial[1].wrapping_sub(1));
}

#[test]
fn tally_check_finds_what_does_not_fit() {
    assert!(pack().is_wf(2));
    assert!(!pack().is_wf(3));
    let mut p = pack();
    p.score_mt.pop();
    assert!(!p.is_wf(2));
    // A cell bin of a tally is below its number of cells.
    let mut p = pack();
    p.cell_to_bin[0] = 2;
    assert!(!p.is_wf(2));
    // The output range of a tally is that of its bins.
    let mut p = pack();
    p.out_offsets[1] = 3;
    assert!(!p.is_wf(2));
    // Without a mesh a bin has one slot.
    let mut p = pack();
    p.n_mesh_per_tally[0] = 2;
    p.out_offsets = vec![0, 8, 9, 11];
    assert!(!p.is_wf(2));
    p.mesh_kind[0] = 1;
    assert!(p.is_wf(2));
    let mut p = pack();
    p.log_edges[1] = num(0.0);
    assert!(!p.is_wf(2));
}

#[test]
fn tally_check_reads_the_energy_function() {
    let mut p = pack();
    // Two knots and one cubic for the first tally.
    p.efunc_params = nums(&[2.0, 1.0, 3.0, 0.5, 0.0, 0.0, 0.0]);
    p.efunc_offsets = vec![0, 7, 7, 7];
    assert!(p.is_wf(2));
    p.efunc_params[2] = num(1.0);
    assert!(!p.is_wf(2));
    p.efunc_params[2] = num(3.0);
    p.efunc_params.pop();
    assert!(!p.is_wf(2));
    p.efunc_params[0] = num(1.0);
    assert!(!p.is_wf(2));
}

#[test]
fn squares_are_scaled_up_to_the_ceiling() {
    let s = SquareScales {
        heating: num(2.0),
        heating_squares: num(0.5),
        ceiling: num(100.0),
    };
    assert_eq!(sum_sq_scale(num(2.0), num(4.0), s), num(0.5));
    assert_eq!(sum_sq_scale(num(3.0), num(9.0), s), num(9.0));
    assert_eq!(sum_sq_scale(num(30.0), num(900.0), s), num(100.0));
}

#[test]
fn collision_deposits_into_the_voxel_that_holds_it() {
    let p = pack();
    let mut hits = collision_hits(&p, 2, 1, num(1.5), num(4.0), num(2.0), context(), 100);
    hits.extend(collision_hits(&p, 2, 1, num(1.5), num(4.0), num(2.0), context(), 100));
    hits.extend(collision_hits(&p, 2, 1, num(1.5), num(4.0), num(2.0), context(), 100));
    for hit in &mut hits[1..] {
        hit.mesh_kind = MESH_CYLINDRICAL;
        hit.n_mesh = 8;
        hit.slot = 20;
    }
    // The second mesh holds the point in its voxel 5, the third does not.
    let ds = collision_scores(&hits, &[None, Some(5), None], &[7, 8, 9]);
    let got: Vec<(usize, u64)> = ds.iter().map(|d| (d.slot, d.word)).collect();
    assert_eq!(got, vec![(6, 7), (25, 8)]);
}

#[test]
fn flight_deposits_at_the_slot_of_each_hit() {
    let p = pack();
    let hits = track_hits(&p, 2, 1, num(1.5), num(4.0), context(), 100);
    let ds = track_scores(&hits, &[70, 80]);
    let got: Vec<(usize, u64)> = ds.iter().map(|d| (d.slot, d.word)).collect();
    assert_eq!(got, vec![(3, 70), (4, 80)]);
    assert!(track_scores(&[], &[]).is_empty());
}
