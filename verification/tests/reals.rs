//! Ordering of reals by their bit patterns, and searches on their grids.
use yamc_transport::ieee::Real;
use yamc_transport::layout::{
    COL_COARSE_GRID_OFFSET, COL_COARSE_MT_BASE, COL_COARSE_N, COL_FINE_GRID_OFFSET, COL_FINE_N,
    COL_FINE_NUC_BASE, MT_INELASTIC_COUNT,
};
use yamc_transport::lookup::{
    coarse_grid, fine_grid, grid_bracket, incident_bracket, nuclide_partial_index, nuclide_run,
    nuclide_total_index, sparse_row, sparse_row_index, GridSide,
};

fn num(x: f64) -> Real {
    Real::new(x.to_bits())
}

fn nums(xs: &[f64]) -> Vec<Real> {
    xs.iter().map(|x| num(*x)).collect()
}

const SAMPLES: [f64; 13] = [
    f64::NEG_INFINITY,
    -1.0e300,
    -1.0,
    -f64::MIN_POSITIVE,
    -5.0e-324,
    -0.0,
    0.0,
    5.0e-324,
    0.5,
    1.0,
    1.0e300,
    f64::INFINITY,
    f64::NAN,
];

#[test]
fn comparisons_are_those_of_the_numbers() {
    for a in SAMPLES {
        for b in SAMPLES {
            let (x, y) = (num(a), num(b));
            assert_eq!(x.is_lt(y), a < b, "{a} < {b}");
            assert_eq!(x.is_le(y), a <= b, "{a} <= {b}");
            assert_eq!(x.is_eq(y), a == b, "{a} == {b}");
            assert_eq!(x == y, a == b, "{a} == {b}");
        }
        assert_eq!(num(a).is_nan(), a.is_nan());
        assert_eq!(num(a).is_positive(), a > 0.0);
        assert_eq!(num(a).to_u32(), a as u32, "{a} as u32");
    }
}

#[test]
fn conversion_to_u32_truncates_and_clamps() {
    for a in [
        0.99,
        1.0,
        1.999,
        2.0,
        41.5,
        4294967294.5,
        4294967295.0,
        4294967295.9,
        4294967296.0,
        1.0e20,
        -0.5,
        -3.0,
    ] {
        assert_eq!(num(a).to_u32(), a as u32, "{a} as u32");
    }
}

#[test]
fn constants_are_the_numbers_they_name() {
    assert_eq!(Real::zero(), num(0.0));
    assert_eq!(Real::one(), num(1.0));
}

#[test]
fn bracket_encloses_and_is_clamped_at_the_ends() {
    let grid = nums(&[9.0, 1.0, 2.0, 4.0, 8.0]);
    let b = grid_bracket(&grid, 1, 4, num(3.0));
    assert_eq!((b.lo, b.hi), (1, 2));
    // A value on a point belongs to the interval below it.
    let b = grid_bracket(&grid, 1, 4, num(4.0));
    assert_eq!((b.lo, b.hi), (1, 2));
    let b = grid_bracket(&grid, 1, 4, num(0.5));
    assert_eq!((b.lo, b.hi), (0, 1));
    let b = grid_bracket(&grid, 1, 4, num(100.0));
    assert_eq!((b.lo, b.hi), (2, 3));
}

#[test]
fn material_rows_are_read_by_column() {
    let mut fine = vec![0u32; 6];
    fine[3 + COL_FINE_GRID_OFFSET as usize] = 10;
    fine[3 + COL_FINE_N as usize] = 5;
    fine[3 + COL_FINE_NUC_BASE as usize] = 40;
    let f = fine_grid(&fine, 1);
    assert_eq!((f.offset, f.n, f.nuc_base), (10, 5, 40));
    let mut coarse = vec![0u32; 6];
    coarse[3 + COL_COARSE_GRID_OFFSET as usize] = 11;
    coarse[3 + COL_COARSE_N as usize] = 6;
    coarse[3 + COL_COARSE_MT_BASE as usize] = 112;
    let c = coarse_grid(&coarse, 1);
    assert_eq!((c.offset, c.n, c.mt_base), (11, 6, 112));
    let run = nuclide_run(&[0, 2, 2, 3], 1);
    assert_eq!((run.offset, run.count), (2, 3));
    // Second nuclide of the material, grid point 3.
    assert_eq!(nuclide_total_index(f, 1, 3), 40 + 5 + 3);
    assert_eq!(nuclide_partial_index(f, 1, 3), (40 + 5 + 3) * 4);
}

#[test]
fn sparse_row_is_the_dense_row_with_a_default() {
    // Row 1 stores points 2 and 3 at value offset 4.
    let meta = [0, 0, 0, 4, 2, 2];
    let values = nums(&[0.0, 0.0, 0.0, 0.0, 7.0, 8.0]);
    let row = sparse_row(&meta, 1);
    assert_eq!((row.value_offset, row.i_start, row.n_stored), (4, 2, 2));
    let dense: Vec<Real> = (0..5).map(|k| row.at(&values, k, num(1.0))).collect();
    assert_eq!(dense, nums(&[1.0, 1.0, 7.0, 8.0, 1.0]));
    assert_eq!(
        sparse_row_index(112, 1, 3),
        112 + MT_INELASTIC_COUNT + 3
    );
}

#[test]
fn incident_energy_is_placed_on_its_grid() {
    let grid = nums(&[0.0, 1.0, 2.0, 3.0]);
    let i = incident_bracket(&grid, 1, 3, num(0.5));
    assert_eq!((i.index, i.side), (0, GridSide::Below));
    let i = incident_bracket(&grid, 1, 3, num(2.0));
    assert_eq!((i.index, i.side), (1, GridSide::Within));
    let i = incident_bracket(&grid, 1, 3, num(3.0));
    assert_eq!(i.side, GridSide::Above);
}
