//! Validation of the inputs of a transport run: the lengths of all buffers in a
//! fixed order, then the energy edges of every tally. The first failure is
//! reported.
use crate::ieee::{strictly_increasing, Real};
use crate::layout::{
    COL_FINE_N, COL_PERMT_N_STORED, FINE_META_COLS, KERNEL_STORAGE_BUFFER_COUNT, MT_INELASTIC_COUNT,
    NUC_PARTIAL_COLS, PERMT_META_COLS,
};
use crate::lengths::{
    aggregate_checks, aggregate_list, all_hold, angle_checks, angle_density_checks,
    angle_density_list, angle_list, coarse_checks, coarse_list, corr_checks, corr_list,
    elastic_checks, elastic_list, eout_density_checks, eout_density_list, eout_histogram_checks,
    eout_histogram_list, eout_points_checks, eout_points_list, eout_rows_checks, eout_rows_list,
    fine_checks, fine_list, first_failure, fission_checks, fission_list, frame_checks, frame_list,
    is_first_failure, km_checks, km_list, law_checks, law_list, nuclide_checks, nuclide_list,
    range_checks, range_list, slab_checks, slab_list, slot_checks, slot_list, slot_rows,
    sparse_checks, sparse_list, surface_checks, surface_list, tally_table_checks, tally_table_list,
    temperature_checks, temperature_list, urr_checks, urr_list, views, Check, LengthCheck,
    TransportLengths,
};
use crate::tally::TalliesPack;
use vstd::prelude::*;

verus! {

/// Why a set of inputs is refused.
#[derive(Clone, Copy, Debug, PartialEq, Eq, Structural)]
pub enum LayoutError {
    /// There is no tally.
    NoTallies,
    /// A buffer does not have the length that the others imply.
    Length(LengthCheck),
    /// A tally has no energy bin.
    EmptyTally { tally: usize },
    /// A tally's energy edges reach past the end of their buffer.
    EdgesOutOfRange { tally: usize },
    /// A tally's energy edge is not below the next one.
    EdgesNotIncreasing { tally: usize, bin: usize },
    /// The device binds fewer buffers than the kernel needs.
    TooFewBindings { available: u32 },
}

/// Sum of one column over the first `n` rows of a row-major table.
pub open spec fn column_sum(table: Seq<u32>, cols: int, col: int, n: nat) -> int
    decreases n,
{
    if n == 0 {
        0
    } else {
        column_sum(table, cols, col, (n - 1) as nat) + table[(n - 1) * cols + col]
    }
}

/// Grid points over all nuclides of the first `n` materials: each nuclide rides
/// its material's fine grid.
pub open spec fn nuclide_points(mat_nuclide_meta: Seq<u32>, fine_meta: Seq<u32>, n: nat) -> int
    decreases n,
{
    if n == 0 {
        0
    } else {
        nuclide_points(mat_nuclide_meta, fine_meta, (n - 1) as nat) + mat_nuclide_meta[(n - 1) * 2
            + 1] * fine_meta[(n - 1) * FINE_META_COLS + COL_FINE_N]
    }
}

fn sum_column(table: &[u32], cols: usize, col: usize, n: usize) -> (r: u128)
    requires
        col < cols,
        n * cols <= table.len(),
    ensures
        r == column_sum(table@, cols as int, col as int, n as nat),
{
    let mut r: u128 = 0;
    let mut i: usize = 0;
    while i < n
        invariant
            i <= n,
            col < cols,
            n * cols <= table.len(),
            r == column_sum(table@, cols as int, col as int, i as nat),
            r <= i * 0xffff_ffff,
        decreases n - i,
    {
        assert(i * cols + cols <= n * cols && i * cols >= 0) by (nonlinear_arith)
            requires
                i + 1 <= n,
        ;
        r = r + table[i * cols + col] as u128;
        i = i + 1;
    }
    r
}

fn sum_nuclide_points(mat_nuclide_meta: &[u32], fine_meta: &[u32], n: usize) -> (r: u128)
    requires
        n * 2 <= mat_nuclide_meta.len(),
        n * FINE_META_COLS <= fine_meta.len(),
        n * 24 <= usize::MAX,
    ensures
        r == nuclide_points(mat_nuclide_meta@, fine_meta@, n as nat),
        r * NUC_PARTIAL_COLS <= u128::MAX,
{
    let mut r: u128 = 0;
    let mut i: usize = 0;
    while i < n
        invariant
            i <= n,
            n * 2 <= mat_nuclide_meta.len(),
            n * 3 <= fine_meta.len(),
            r == nuclide_points(mat_nuclide_meta@, fine_meta@, i as nat),
            r <= i * 0xffff_fffe_0000_0001,
        decreases n - i,
    {
        let count: u32 = mat_nuclide_meta[i * 2 + 1];
        let points: u32 = fine_meta[i * 3 + 1];
        assert(i * FINE_META_COLS + COL_FINE_N == i * 3 + 1);
        assert(0 <= count * points <= 0xffff_fffe_0000_0001) by (nonlinear_arith)
            requires
                0 <= count <= 0xffff_ffff,
                0 <= points <= 0xffff_ffff,
        ;
        r = r + count as u128 * points as u128;
        i = i + 1;
    }
    assert(r * NUC_PARTIAL_COLS == r * 4);
    r
}

/// The checks that need no table's contents.
pub open spec fn shape_checks(l: TransportLengths) -> Seq<Check> {
    surface_checks(l) + fine_checks(l)
}

/// The checks per material.
pub open spec fn material_checks(l: TransportLengths, fine_meta: Seq<u32>) -> Seq<Check> {
    aggregate_checks(
        l,
        column_sum(fine_meta, FINE_META_COLS as int, COL_FINE_N as int, l.n_materials as nat),
    ) + fission_checks(l) + coarse_checks(l) + range_checks(l)
}

/// The checks on the number of nuclide slabs and their slots.
pub open spec fn slab_shape_checks(l: TransportLengths, mat_nuclide_meta: Seq<u32>) -> Seq<Check> {
    slab_checks(l, column_sum(mat_nuclide_meta, 2, 1, l.n_materials as nat)) + slot_checks(l)
}

/// Values that the slots store, over all of them.
pub open spec fn stored_values(l: TransportLengths, permt_meta: Seq<u32>) -> int {
    column_sum(
        permt_meta,
        PERMT_META_COLS as int,
        COL_PERMT_N_STORED as int,
        slot_rows(l) as nat,
    )
}

/// The checks per slot, and those of the tallies' tables.
pub open spec fn slot_value_checks(
    l: TransportLengths,
    t: TalliesPack,
    permt_meta: Seq<u32>,
) -> Seq<Check> {
    sparse_checks(l, stored_values(l, permt_meta)) + angle_checks(l) + frame_checks(l)
        + eout_points_checks(l) + eout_density_checks(l) + eout_histogram_checks(l)
        + eout_rows_checks(l) + corr_checks(l) + tally_table_checks(l, t)
}

/// All length checks of a run, in the order in which they are made.
pub open spec fn transport_checks(
    l: TransportLengths,
    t: TalliesPack,
    fine_meta: Seq<u32>,
    mat_nuclide_meta: Seq<u32>,
    permt_meta: Seq<u32>,
) -> Seq<Check> {
    shape_checks(l) + material_checks(l, fine_meta) + slab_shape_checks(l, mat_nuclide_meta)
        + slot_value_checks(l, t, permt_meta)
}

/// The checks of a launch per nuclide and material.
pub open spec fn launch_material_checks(
    l: TransportLengths,
    fine_meta: Seq<u32>,
    mat_nuclide_meta: Seq<u32>,
) -> Seq<Check> {
    nuclide_checks(l, nuclide_points(mat_nuclide_meta, fine_meta, l.n_materials as nat))
        + aggregate_checks(l, l.fine_log_energy_grid as int) + fission_checks(l) + slot_checks(l)
}

/// The checks of a launch between the binding limit and the tallies.
pub open spec fn launch_table_checks(
    l: TransportLengths,
    fine_meta: Seq<u32>,
    mat_nuclide_meta: Seq<u32>,
    permt_meta: Seq<u32>,
) -> Seq<Check> {
    (coarse_checks(l) + fine_checks(l)) + launch_material_checks(l, fine_meta, mat_nuclide_meta)
        + sparse_checks(l, stored_values(l, permt_meta))
}

/// The checks of a launch from the tallies on.
pub open spec fn launch_law_checks(l: TransportLengths, t: TalliesPack) -> Seq<Check> {
    tally_table_checks(l, t) + angle_checks(l) + angle_density_checks(l) + eout_points_checks(l)
        + eout_histogram_checks(l) + eout_density_checks(l) + eout_rows_checks(l) + corr_checks(l)
        + frame_checks(l) + elastic_checks(l) + temperature_checks(l) + km_checks(l) + law_checks(l)
        + urr_checks(l)
}

fn concat(a: Vec<LengthCheck>, b: Vec<LengthCheck>) -> (r: Vec<LengthCheck>)
    ensures
        views(r@) == views(a@) + views(b@),
{
    let mut r = a;
    let mut rest = b;
    r.append(&mut rest);
    assert(views(r@) =~= views(a@) + views(b@));
    r
}

proof fn lemma_failure_stays_first(a: Seq<Check>, b: Seq<Check>, c: Check)
    requires
        is_first_failure(a, c),
    ensures
        is_first_failure(a + b, c),
{
    let i = choose|i: int|
        0 <= i < a.len() && #[trigger] a[i] == c && !c.holds() && forall|j: int|
            0 <= j < i ==> (#[trigger] a[j]).holds();
    assert((a + b)[i] == c);
    assert forall|j: int| 0 <= j < i implies (#[trigger] (a + b)[j]).holds() by {
        assert(a[j].holds());
    }
}

proof fn lemma_all_hold_in_parts(a: Seq<Check>, b: Seq<Check>)
    ensures
        all_hold(a + b) <==> all_hold(a) && all_hold(b),
{
    if all_hold(a + b) {
        assert forall|i: int| 0 <= i < a.len() implies (#[trigger] a[i]).holds() by {
            assert((a + b)[i].holds());
        }
        assert forall|i: int| 0 <= i < b.len() implies (#[trigger] b[i]).holds() by {
            assert((a + b)[a.len() + i].holds());
        }
    }
    if all_hold(a) && all_hold(b) {
        assert forall|i: int| 0 <= i < (a + b).len() implies (#[trigger] (a + b)[i]).holds() by {
            if i < a.len() {
                assert(a[i].holds());
            } else {
                assert(b[i - a.len()].holds());
            }
        }
    }
}

/// The energy edges of tally `k` lie in their buffer.
pub open spec fn edges_in_range(t: TalliesPack, k: int) -> bool {
    t.edges_offsets@[k] + t.n_bins_per_tally@[k] + 1 <= t.log_edges@.len()
}

/// Tally `k` has at least one bin, and edges that increase from one to the
/// next.
pub open spec fn tally_valid(t: TalliesPack, k: int) -> bool {
    &&& t.n_bins_per_tally@[k] >= 1
    &&& edges_in_range(t, k)
    &&& strictly_increasing(t.edges(k))
}

pub open spec fn tallies_valid(t: TalliesPack) -> bool {
    forall|k: int| 0 <= k < t.n() ==> #[trigger] tally_valid(t, k)
}

/// Tally `k` is refused for reason `e`.
pub open spec fn tally_fails(t: TalliesPack, k: int, e: LayoutError) -> bool {
    match e {
        LayoutError::EmptyTally { tally } => tally == k && t.n_bins_per_tally@[k] == 0,
        LayoutError::EdgesOutOfRange { tally } => tally == k && t.n_bins_per_tally@[k] >= 1
            && !edges_in_range(t, k),
        LayoutError::EdgesNotIncreasing { tally, bin } => {
            &&& tally == k
            &&& edges_in_range(t, k)
            &&& bin < t.n_bins_per_tally@[k]
            &&& !t.edges(k)[bin as int].lt(t.edges(k)[bin + 1])
            &&& forall|i: int|
                0 <= i < bin ==> (#[trigger] t.edges(k)[i]).lt(t.edges(k)[i + 1])
        },
        _ => false,
    }
}

/// `e` is what is wrong with the first tally that is not valid.
pub open spec fn is_first_tally_failure(t: TalliesPack, e: LayoutError) -> bool {
    exists|k: int|
        0 <= k < t.n() && #[trigger] tally_fails(t, k, e) && forall|j: int|
            0 <= j < k ==> #[trigger] tally_valid(t, j)
}

proof fn lemma_ascending(s: Seq<Real>, i: int, j: int)
    requires
        0 <= i < j < s.len(),
        forall|x: int| 0 <= x < s.len() - 1 ==> (#[trigger] s[x]).lt(s[x + 1]),
    ensures
        s[i].lt(s[j]),
    decreases j - i,
{
    assert(s[j - 1].lt(s[j]));
    if i < j - 1 {
        lemma_ascending(s, i, j - 1);
    }
}

fn check_tally(t: &TalliesPack, k: usize) -> (r: Result<(), LayoutError>)
    requires
        k < t.n(),
        t.edges_offsets@.len() == t.n(),
        t.n_bins_per_tally@.len() == t.n(),
    ensures
        r is Ok <==> tally_valid(*t, k as int),
        r matches Err(e) ==> tally_fails(*t, k as int, e),
{
    let n_bins: u32 = t.n_bins_per_tally[k];
    if n_bins < 1 {
        return Err(LayoutError::EmptyTally { tally: k });
    }
    let off: u32 = t.edges_offsets[k];
    if off as u64 + n_bins as u64 + 1 > t.log_edges.len() as u64 {
        return Err(LayoutError::EdgesOutOfRange { tally: k });
    }
    let ghost edges = t.edges(k as int);
    assert(t.log_edges.len() == t.log_edges@.len());
    let mut i: u32 = 0;
    while i < n_bins
        invariant
            i <= n_bins,
            edges == t.edges(k as int),
            t.log_edges.len() == t.log_edges@.len(),
            k < t.n(),
            t.edges_offsets@.len() == t.n(),
            t.n_bins_per_tally@.len() == t.n(),
            off == t.edges_offsets@[k as int],
            n_bins == t.n_bins_per_tally@[k as int],
            n_bins >= 1,
            edges_in_range(*t, k as int),
            forall|x: int| 0 <= x < i ==> (#[trigger] edges[x]).lt(edges[x + 1]),
        decreases n_bins - i,
    {
        let at: usize = off as usize + i as usize;
        let low: Real = t.log_edges[at];
        let high: Real = t.log_edges[at + 1];
        assert(edges[i as int] == low && edges[i + 1] == high);
        if !low.is_lt(high) {
            assert(!strictly_increasing(edges)) by {
                if strictly_increasing(edges) {
                    assert(edges[i as int].key() < edges[i + 1].key());
                }
            }
            return Err(LayoutError::EdgesNotIncreasing { tally: k, bin: i as usize });
        }
        i = i + 1;
    }
    proof {
        assert forall|x: int, y: int| 0 <= x < y < edges.len() implies (#[trigger] edges[x]).key()
            < (#[trigger] edges[y]).key() by {
            lemma_ascending(edges, x, y);
        }
        assert forall|x: int| 0 <= x < edges.len() implies !(#[trigger] edges[x]).is_nan_spec() by {
            if x < edges.len() - 1 {
                assert(edges[x].lt(edges[x + 1]));
            } else {
                assert(edges[x - 1].lt(edges[x]));
            }
        }
    }
    Ok(())
}

fn check_tallies(t: &TalliesPack) -> (r: Result<(), LayoutError>)
    requires
        t.edges_offsets@.len() == t.n(),
        t.n_bins_per_tally@.len() == t.n(),
    ensures
        r is Ok <==> tallies_valid(*t),
        r matches Err(e) ==> is_first_tally_failure(*t, e),
{
    let mut k: usize = 0;
    while k < t.score_kinds.len()
        invariant
            k <= t.n(),
            t.edges_offsets@.len() == t.n(),
            t.n_bins_per_tally@.len() == t.n(),
            forall|j: int| 0 <= j < k ==> #[trigger] tally_valid(*t, j),
        decreases t.n() - k,
    {
        match check_tally(t, k) {
            Ok(_) => {},
            Err(e) => {
                return Err(e);
            },
        }
        k = k + 1;
    }
    Ok(())
}

/// Checks the inputs of a run on the host.
pub fn validate_transport_inputs(
    l: &TransportLengths,
    t: &TalliesPack,
    fine_meta: &[u32],
    mat_nuclide_meta: &[u32],
    permt_meta: &[u32],
) -> (r: Result<(), LayoutError>)
    requires
        l.fine_meta == fine_meta.len(),
        l.mat_nuclide_meta == mat_nuclide_meta.len(),
        l.permt_meta == permt_meta.len(),
    ensures
        r is Ok <==> t.n() > 0 && all_hold(
            transport_checks(*l, *t, fine_meta@, mat_nuclide_meta@, permt_meta@),
        ) && tallies_valid(*t),
        r matches Err(e) ==> match e {
            LayoutError::NoTallies => t.n() == 0,
            LayoutError::Length(c) => t.n() > 0 && is_first_failure(
                transport_checks(*l, *t, fine_meta@, mat_nuclide_meta@, permt_meta@),
                c@,
            ),
            LayoutError::TooFewBindings { .. } => false,
            _ => t.n() > 0 && all_hold(
                transport_checks(*l, *t, fine_meta@, mat_nuclide_meta@, permt_meta@),
            ) && is_first_tally_failure(*t, e),
        },
{
    if t.score_kinds.len() == 0 {
        return Err(LayoutError::NoTallies);
    }
    let ghost p1 = shape_checks(*l);
    let ghost p2 = material_checks(*l, fine_meta@);
    let ghost p3 = slab_shape_checks(*l, mat_nuclide_meta@);
    let ghost p4 = slot_value_checks(*l, *t, permt_meta@);
    proof {
        lemma_all_hold_in_parts(p1, p2);
        lemma_all_hold_in_parts(p1 + p2, p3);
        lemma_all_hold_in_parts(p1 + p2 + p3, p4);
    }
    let v = concat(surface_list(l), fine_list(l));
    if let Some(c) = first_failure(&v) {
        proof {
            lemma_failure_stays_first(p1, p2, c@);
            lemma_failure_stays_first(p1 + p2, p3, c@);
            lemma_failure_stays_first(p1 + p2 + p3, p4, c@);
        }
        return Err(LayoutError::Length(c));
    }
    assert(fine_checks(*l)[0].holds()) by {
        lemma_all_hold_in_parts(surface_checks(*l), fine_checks(*l));
    }
    assert(l.n_materials * FINE_META_COLS == l.n_materials * 3);
    let points = sum_column(fine_meta, FINE_META_COLS as usize, COL_FINE_N as usize, l.n_materials);
    let v = concat(
        v,
        concat(
            concat(concat(aggregate_list(l, points), fission_list(l)), coarse_list(l)),
            range_list(l),
        ),
    );
    if let Some(c) = first_failure(&v) {
        proof {
            lemma_failure_stays_first(p1 + p2, p3, c@);
            lemma_failure_stays_first(p1 + p2 + p3, p4, c@);
        }
        return Err(LayoutError::Length(c));
    }
    assert(range_checks(*l)[0].holds()) by {
        let others = aggregate_checks(*l, points as int) + fission_checks(*l) + coarse_checks(*l);
        lemma_all_hold_in_parts(others, range_checks(*l));
    }
    let total = sum_column(mat_nuclide_meta, 2, 1, l.n_materials);
    let v = concat(v, concat(slab_list(l, total), slot_list(l)));
    if let Some(c) = first_failure(&v) {
        proof {
            lemma_failure_stays_first(p1 + p2 + p3, p4, c@);
        }
        return Err(LayoutError::Length(c));
    }
    assert(slot_checks(*l)[0].holds()) by {
        lemma_all_hold_in_parts(slab_checks(*l, total as int), slot_checks(*l));
    }
    let stored = sum_stored(l, permt_meta);
    let v = concat(
        v,
        concat(
            concat(
                concat(
                    concat(
                        concat(
                            concat(
                                concat(
                                    concat(sparse_list(l, stored), angle_list(l)),
                                    frame_list(l),
                                ),
                                eout_points_list(l),
                            ),
                            eout_density_list(l),
                        ),
                        eout_histogram_list(l),
                    ),
                    eout_rows_list(l),
                ),
                corr_list(l),
            ),
            tally_table_list(l, t),
        ),
    );
    if let Some(c) = first_failure(&v) {
        return Err(LayoutError::Length(c));
    }
    proof {
        let others = sparse_checks(*l, stored as int) + angle_checks(*l) + frame_checks(*l)
            + eout_points_checks(*l) + eout_density_checks(*l) + eout_histogram_checks(*l)
            + eout_rows_checks(*l) + corr_checks(*l);
        lemma_all_hold_in_parts(others, tally_table_checks(*l, *t));
        assert(tally_table_checks(*l, *t)[2].holds());
        assert(tally_table_checks(*l, *t)[3].holds());
    }
    check_tallies(t)
}

/// Values that the slots store, over all of them.
fn sum_stored(l: &TransportLengths, permt_meta: &[u32]) -> (r: u128)
    requires
        permt_meta.len() == slot_rows(*l) * PERMT_META_COLS,
    ensures
        r == stored_values(*l, permt_meta@),
{
    assert(slot_rows(*l) == l.n_slab * 56);
    assert(slot_rows(*l) * PERMT_META_COLS == slot_rows(*l) * 3);
    let rows: usize = l.n_slab * MT_INELASTIC_COUNT;
    sum_column(permt_meta, PERMT_META_COLS as usize, COL_PERMT_N_STORED as usize, rows)
}

/// Checks the inputs of a launch on a device that binds `available` storage
/// buffers. A slice spans at most half the address space, so the three words
/// that `fine_meta` holds per material bound the number of materials.
pub fn validate_launch_inputs(
    l: &TransportLengths,
    t: &TalliesPack,
    fine_meta: &[u32],
    mat_nuclide_meta: &[u32],
    permt_meta: &[u32],
    available: u32,
) -> (r: Result<(), LayoutError>)
    requires
        l.fine_meta == fine_meta.len(),
        l.permt_meta == permt_meta.len(),
        l.n_materials * 2 <= mat_nuclide_meta.len(),
        l.n_materials * 24 <= usize::MAX,
    ensures
        r is Ok <==> all_hold(surface_checks(*l)) && available >= KERNEL_STORAGE_BUFFER_COUNT
            && all_hold(launch_table_checks(*l, fine_meta@, mat_nuclide_meta@, permt_meta@))
            && t.n() > 0 && all_hold(launch_law_checks(*l, *t)) && tallies_valid(*t),
        r matches Err(e) ==> match e {
            LayoutError::TooFewBindings { available: found } => found == available && available
                < KERNEL_STORAGE_BUFFER_COUNT && all_hold(surface_checks(*l)),
            LayoutError::NoTallies => t.n() == 0 && all_hold(surface_checks(*l)) && available
                >= KERNEL_STORAGE_BUFFER_COUNT && all_hold(
                launch_table_checks(*l, fine_meta@, mat_nuclide_meta@, permt_meta@),
            ),
            LayoutError::Length(c) => {
                ||| is_first_failure(surface_checks(*l), c@)
                ||| all_hold(surface_checks(*l)) && available >= KERNEL_STORAGE_BUFFER_COUNT
                    && is_first_failure(
                    launch_table_checks(*l, fine_meta@, mat_nuclide_meta@, permt_meta@),
                    c@,
                )
                ||| all_hold(surface_checks(*l)) && available >= KERNEL_STORAGE_BUFFER_COUNT
                    && all_hold(
                    launch_table_checks(*l, fine_meta@, mat_nuclide_meta@, permt_meta@),
                ) && t.n() > 0 && is_first_failure(launch_law_checks(*l, *t), c@)
            },
            _ => all_hold(surface_checks(*l)) && available >= KERNEL_STORAGE_BUFFER_COUNT
                && all_hold(launch_table_checks(*l, fine_meta@, mat_nuclide_meta@, permt_meta@))
                && t.n() > 0 && all_hold(launch_law_checks(*l, *t)) && is_first_tally_failure(*t, e),
        },
{
    if let Some(c) = first_failure(&surface_list(l)) {
        return Err(LayoutError::Length(c));
    }
    if available < KERNEL_STORAGE_BUFFER_COUNT {
        return Err(LayoutError::TooFewBindings { available });
    }
    let ghost p1 = coarse_checks(*l) + fine_checks(*l);
    let ghost p2 = launch_material_checks(*l, fine_meta@, mat_nuclide_meta@);
    let ghost p3 = sparse_checks(*l, stored_values(*l, permt_meta@));
    proof {
        lemma_all_hold_in_parts(p1, p2);
        lemma_all_hold_in_parts(p1 + p2, p3);
    }
    let v = concat(coarse_list(l), fine_list(l));
    if let Some(c) = first_failure(&v) {
        proof {
            lemma_failure_stays_first(p1, p2, c@);
            lemma_failure_stays_first(p1 + p2, p3, c@);
        }
        return Err(LayoutError::Length(c));
    }
    assert(fine_checks(*l)[0].holds()) by {
        lemma_all_hold_in_parts(coarse_checks(*l), fine_checks(*l));
    }
    let elements = sum_nuclide_points(mat_nuclide_meta, fine_meta, l.n_materials);
    let v = concat(
        v,
        concat(
            concat(
                concat(
                    nuclide_list(l, elements),
                    aggregate_list(l, l.fine_log_energy_grid as u128),
                ),
                fission_list(l),
            ),
            slot_list(l),
        ),
    );
    if let Some(c) = first_failure(&v) {
        proof {
            lemma_failure_stays_first(p1 + p2, p3, c@);
        }
        return Err(LayoutError::Length(c));
    }
    assert(slot_checks(*l)[0].holds()) by {
        let others = nuclide_checks(*l, elements as int) + aggregate_checks(
            *l,
            l.fine_log_energy_grid as int,
        ) + fission_checks(*l);
        lemma_all_hold_in_parts(others, slot_checks(*l));
    }
    let v = concat(v, sparse_list(l, sum_stored(l, permt_meta)));
    if let Some(c) = first_failure(&v) {
        return Err(LayoutError::Length(c));
    }
    if t.score_kinds.len() == 0 {
        return Err(LayoutError::NoTallies);
    }
    let v = launch_law_list(l, t);
    if let Some(c) = first_failure(&v) {
        return Err(LayoutError::Length(c));
    }
    proof {
        lemma_tally_tables_hold(*l, *t);
    }
    check_tallies(t)
}

fn launch_law_list(l: &TransportLengths, t: &TalliesPack) -> (r: Vec<LengthCheck>)
    ensures
        views(r@) == launch_law_checks(*l, *t),
{
    let v = concat(tally_table_list(l, t), angle_list(l));
    let v = concat(v, angle_density_list(l));
    let v = concat(v, eout_points_list(l));
    let v = concat(v, eout_histogram_list(l));
    let v = concat(v, eout_density_list(l));
    let v = concat(v, eout_rows_list(l));
    let v = concat(v, corr_list(l));
    let v = concat(v, frame_list(l));
    let v = concat(v, elastic_list(l));
    let v = concat(v, temperature_list(l));
    let v = concat(v, km_list(l));
    let v = concat(v, law_list(l));
    concat(v, urr_list(l))
}

proof fn lemma_tally_tables_hold(l: TransportLengths, t: TalliesPack)
    requires
        all_hold(launch_law_checks(l, t)),
    ensures
        t.edges_offsets@.len() == t.n(),
        t.n_bins_per_tally@.len() == t.n(),
{
    let all = launch_law_checks(l, t);
    assert(all[2] == tally_table_checks(l, t)[2]);
    assert(all[3] == tally_table_checks(l, t)[3]);
    assert(all[2].holds());
    assert(all[3].holds());
}

/// Inputs that pass for a launch pass on the host too, where the fine grids
/// together have as many points as the materials' table says and the materials'
/// nuclide ranges together cover the slabs.
pub proof fn launch_inputs_suit_the_host(
    l: TransportLengths,
    t: TalliesPack,
    fine_meta: Seq<u32>,
    mat_nuclide_meta: Seq<u32>,
    permt_meta: Seq<u32>,
)
    requires
        all_hold(surface_checks(l)),
        all_hold(launch_table_checks(l, fine_meta, mat_nuclide_meta, permt_meta)),
        all_hold(launch_law_checks(l, t)),
        all_hold(range_checks(l)),
        l.fine_log_energy_grid == column_sum(
            fine_meta,
            FINE_META_COLS as int,
            COL_FINE_N as int,
            l.n_materials as nat,
        ),
        l.n_slab == column_sum(mat_nuclide_meta, 2, 1, l.n_materials as nat),
    ensures
        all_hold(transport_checks(l, t, fine_meta, mat_nuclide_meta, permt_meta)),
{
    let points = l.fine_log_energy_grid as int;
    let stored = stored_values(l, permt_meta);
    let n = nuclide_checks(l, nuclide_points(mat_nuclide_meta, fine_meta, l.n_materials as nat));
    let a = aggregate_checks(l, points);
    let f = fission_checks(l);
    let s = slot_checks(l);
    let g = coarse_checks(l) + fine_checks(l);
    lemma_all_hold_in_parts(g + (n + a + f + s), sparse_checks(l, stored));
    lemma_all_hold_in_parts(g, n + a + f + s);
    lemma_all_hold_in_parts(coarse_checks(l), fine_checks(l));
    lemma_all_hold_in_parts(n + a + f, s);
    lemma_all_hold_in_parts(n + a, f);
    lemma_all_hold_in_parts(n, a);
    let w1 = tally_table_checks(l, t) + angle_checks(l);
    let w2 = w1 + angle_density_checks(l);
    let w3 = w2 + eout_points_checks(l);
    let w4 = w3 + eout_histogram_checks(l);
    let w5 = w4 + eout_density_checks(l);
    let w6 = w5 + eout_rows_checks(l);
    let w7 = w6 + corr_checks(l);
    let w8 = w7 + frame_checks(l);
    let w9 = w8 + elastic_checks(l);
    let w10 = w9 + temperature_checks(l);
    let w11 = w10 + km_checks(l);
    let w12 = w11 + law_checks(l);
    lemma_all_hold_in_parts(w12, urr_checks(l));
    lemma_all_hold_in_parts(w11, law_checks(l));
    lemma_all_hold_in_parts(w10, km_checks(l));
    lemma_all_hold_in_parts(w9, temperature_checks(l));
    lemma_all_hold_in_parts(w8, elastic_checks(l));
    lemma_all_hold_in_parts(w7, frame_checks(l));
    lemma_all_hold_in_parts(w6, corr_checks(l));
    lemma_all_hold_in_parts(w5, eout_rows_checks(l));
    lemma_all_hold_in_parts(w4, eout_density_checks(l));
    lemma_all_hold_in_parts(w3, eout_histogram_checks(l));
    lemma_all_hold_in_parts(w2, eout_points_checks(l));
    lemma_all_hold_in_parts(w1, angle_density_checks(l));
    lemma_all_hold_in_parts(tally_table_checks(l, t), angle_checks(l));
    let h1 = sparse_checks(l, stored) + angle_checks(l);
    let h2 = h1 + frame_checks(l);
    let h3 = h2 + eout_points_checks(l);
    let h4 = h3 + eout_density_checks(l);
    let h5 = h4 + eout_histogram_checks(l);
    let h6 = h5 + eout_rows_checks(l);
    let h7 = h6 + corr_checks(l);
    lemma_all_hold_in_parts(sparse_checks(l, stored), angle_checks(l));
    lemma_all_hold_in_parts(h1, frame_checks(l));
    lemma_all_hold_in_parts(h2, eout_points_checks(l));
    lemma_all_hold_in_parts(h3, eout_density_checks(l));
    lemma_all_hold_in_parts(h4, eout_histogram_checks(l));
    lemma_all_hold_in_parts(h5, eout_rows_checks(l));
    lemma_all_hold_in_parts(h6, corr_checks(l));
    lemma_all_hold_in_parts(h7, tally_table_checks(l, t));
    lemma_all_hold_in_parts(a, f);
    lemma_all_hold_in_parts(a + f, coarse_checks(l));
    lemma_all_hold_in_parts(a + f + coarse_checks(l), range_checks(l));
    lemma_all_hold_in_parts(surface_checks(l), fine_checks(l));
    lemma_all_hold_in_parts(slab_checks(l, l.n_slab as int), s);
    let p1 = shape_checks(l);
    let p2 = material_checks(l, fine_meta);
    let p3 = slab_shape_checks(l, mat_nuclide_meta);
    lemma_all_hold_in_parts(p1, p2);
    lemma_all_hold_in_parts(p1 + p2, p3);
    lemma_all_hold_in_parts(p1 + p2 + p3, slot_value_checks(l, t, permt_meta));
}

} // verus!
