//! Packing of host tables into the buffers a launch uploads.
use crate::ieee::Real;
use crate::layout::{
    COL_CORR_N_COMPONENTS, COL_CORR_N_ENERGIES, COL_EOUT_KIND, COL_EOUT_N_ENERGIES, COL_EVAP_U,
    COL_EVAP_N_COMPONENTS, COL_EVAP_N_ENERGIES, COL_FISSION_A, COL_FISSION_B, COL_KM_N_ENERGIES,
    COL_MAXWELL_N_ENERGIES, COL_MAXWELL_U, COL_NBPS_N_BODIES, COL_NBPS_TOTAL_MASS,
    COL_SCATTER_IN_CM, COL_TARGET_MASS, COL_TEMPERATURE_K, COL_URR_ATOM_DENSITY,
    COL_WATT_N_ENERGIES, COL_WATT_U, MAT_F64_COLS, MT_SLOT_F64_COLS, MT_SLOT_U32_COLS,
};
use vstd::prelude::*;

verus! {

/// `n` zeros.
pub open spec fn zeros(n: nat) -> Seq<Real> {
    Seq::new(n, |i: int| Real { bits: 0 })
}

/// A count, but at least one: a device buffer cannot be empty.
pub open spec fn count_or_one(n: usize) -> nat {
    if n == 0 {
        1
    } else {
        n as nat
    }
}

/// A count, but at least one.
pub fn at_least_one(n: usize) -> (r: usize)
    ensures
        r == count_or_one(n),
{
    if n == 0 {
        1
    } else {
        n
    }
}

/// `n` copies of a value.
pub fn filled<T: Copy>(n: usize, value: T) -> (r: Vec<T>)
    ensures
        r@ == Seq::new(n as nat, |i: int| value),
{
    let mut r: Vec<T> = Vec::new();
    let mut i: usize = 0;
    while i < n
        invariant
            i <= n,
            r@ == Seq::new(i as nat, |i: int| value),
        decreases n - i,
    {
        r.push(value);
        i = i + 1;
    }
    r
}

/// Copies a table.
pub fn copied<T: Copy>(s: &[T]) -> (r: Vec<T>)
    ensures
        r@ == s@,
{
    let mut r: Vec<T> = Vec::new();
    append(&mut r, s);
    r
}

/// Appends a table.
pub fn append<T: Copy>(out: &mut Vec<T>, s: &[T])
    ensures
        final(out)@ == old(out)@ + s@,
{
    let ghost before = out@;
    let mut i: usize = 0;
    while i < s.len()
        invariant
            i <= s.len(),
            out@ == before + s@.subrange(0, i as int),
        decreases s.len() - i,
    {
        out.push(s[i]);
        i = i + 1;
        assert(s@.subrange(0, i as int) =~= s@.subrange(0, i - 1).push(s@[i - 1]));
        assert(out@ =~= before + s@.subrange(0, i as int));
    }
    assert(s@.subrange(0, i as int) =~= s@);
}

/// Tables one after the other.
pub open spec fn joined<A>(parts: Seq<Seq<A>>) -> Seq<A>
    decreases parts.len(),
{
    if parts.len() == 0 {
        Seq::empty()
    } else {
        joined(parts.drop_last()) + parts.last()
    }
}

/// Where table `m` starts among the joined ones.
pub open spec fn offset<A>(parts: Seq<Seq<A>>, m: int) -> int {
    joined(parts.take(m)).len() as int
}

/// Joining one more table appends it.
pub proof fn lemma_joined_push<A>(parts: Seq<Seq<A>>, part: Seq<A>)
    ensures
        joined(parts.push(part)) == joined(parts) + part,
{
    assert(parts.push(part).drop_last() =~= parts);
}

/// The first `m + 1` tables are the first `m` and table `m`.
pub proof fn lemma_joined_take<A>(parts: Seq<Seq<A>>, m: int)
    requires
        0 <= m < parts.len(),
    ensures
        joined(parts.take(m + 1)) == joined(parts.take(m)) + parts[m],
        offset(parts, m + 1) == offset(parts, m) + parts[m].len(),
{
    lemma_joined_push(parts.take(m), parts[m]);
    assert(parts.take(m + 1) =~= parts.take(m).push(parts[m]));
}

/// Table `m` stands among the joined tables at its offset.
pub proof fn joined_table_stands_at_its_offset<A>(parts: Seq<Seq<A>>, m: int)
    requires
        0 <= m < parts.len(),
    ensures
        0 <= offset(parts, m),
        offset(parts, m) + parts[m].len() <= joined(parts).len(),
        joined(parts).subrange(offset(parts, m), offset(parts, m) + parts[m].len()) == parts[m],
    decreases parts.len(),
{
    let rest = parts.drop_last();
    if m == parts.len() - 1 {
        assert(parts.take(m) =~= rest);
        assert(joined(parts).subrange(offset(parts, m), offset(parts, m) + parts[m].len())
            =~= parts[m]);
    } else {
        joined_table_stands_at_its_offset(rest, m);
        assert(parts.take(m) =~= rest.take(m));
        assert(joined(parts).subrange(offset(parts, m), offset(parts, m) + parts[m].len())
            =~= joined(rest).subrange(offset(rest, m), offset(rest, m) + rest[m].len()));
    }
}

/// The table, or `n` sentinels in place of an empty one: a device buffer cannot
/// be empty.
pub open spec fn padded<T>(s: Seq<T>, n: nat, sentinel: T) -> Seq<T> {
    if s.len() == 0 {
        Seq::new(n, |i: int| sentinel)
    } else {
        s
    }
}

/// Pads an empty table to `n` sentinels.
pub fn pad_to<T: Copy>(s: &[T], n: usize, sentinel: T) -> (r: Vec<T>)
    ensures
        r@ == padded(s@, n as nat, sentinel),
        n > 0 ==> r@.len() > 0,
{
    if s.len() == 0 {
        filled(n, sentinel)
    } else {
        copied(s)
    }
}

/// Pads an empty table to one sentinel.
pub fn pad<T: Copy>(s: &[T], sentinel: T) -> (r: Vec<T>)
    ensures
        r@ == padded(s@, 1, sentinel),
        r@.len() > 0,
{
    pad_to(s, 1, sentinel)
}

/// Score table of a model: an all-zero row per material when no tally scores a
/// single reaction.
pub fn pad_score_table<T: Copy>(
    table: &[T],
    n_materials: usize,
    n_grid: usize,
    zero: T,
) -> (r: Vec<T>)
    requires
        score_row_block(n_materials as int, n_grid as int) <= usize::MAX,
    ensures
        r@ == padded(table@, score_row_block(n_materials as int, n_grid as int) as nat, zero),
        r@.len() > 0,
{
    let m: usize = at_least_one(n_materials);
    let g: usize = at_least_one(n_grid);
    assert(m * g >= 1) by (nonlinear_arith)
        requires
            m >= 1,
            g >= 1,
    ;
    pad_to(table, m * g, zero)
}

/// Elements one scored reaction takes over all materials.
pub open spec fn score_row_block(n_materials: int, n_grid: int) -> int {
    (if n_materials == 0 {
        1
    } else {
        n_materials
    }) * (if n_grid == 0 {
        1
    } else {
        n_grid
    })
}

/// Scored reactions per material, from the size of the padded score table.
pub fn n_score_mts(table_len: usize, n_materials: usize, n_grid: usize) -> (r: usize)
    requires
        score_row_block(n_materials as int, n_grid as int) <= usize::MAX,
    ensures
        r == table_len as int / score_row_block(n_materials as int, n_grid as int),
{
    let m: usize = at_least_one(n_materials);
    let g: usize = at_least_one(n_grid);
    assert(m * g >= 1) by (nonlinear_arith)
        requires
            m >= 1,
            g >= 1,
    ;
    table_len / (m * g)
}

/// Element of a row-major table with `cols` columns.
pub open spec fn at<T>(table: Seq<T>, cols: u32, row: int, col: u32) -> T {
    table[row * cols + col]
}

/// A row-major table of `n` rows, row `r` being `row(r)`.
pub open spec fn has_rows<T>(table: Seq<T>, cols: u32, n: nat, row: spec_fn(int) -> Seq<T>) -> bool {
    &&& table.len() == n * cols
    &&& forall|r: int, c: u32|
        0 <= r < n && 0 <= c < cols ==> #[trigger] at(table, cols, r, c) == row(r)[c as int]
}

proof fn lemma_add_row<T>(
    table: Seq<T>,
    cols: u32,
    n: nat,
    row: spec_fn(int) -> Seq<T>,
    longer: Seq<T>,
)
    requires
        has_rows(table, cols, n, row),
        row(n as int).len() == cols,
        longer == table + row(n as int),
    ensures
        has_rows(longer, cols, n + 1, row),
{
    assert((n + 1) * cols == n * cols + cols) by (nonlinear_arith);
    assert forall|r: int, c: u32| 0 <= r < n + 1 && 0 <= c < cols implies #[trigger] at(
        longer,
        cols,
        r,
        c,
    ) == row(r)[c as int] by {
        assert(r * cols >= 0) by (nonlinear_arith)
            requires
                r >= 0,
        ;
        if r < n {
            assert(r * cols + cols <= n * cols) by (nonlinear_arith)
                requires
                    r + 1 <= n,
            ;
            assert(at(table, cols, r, c) == row(r)[c as int]);
        }
    }
}

/// Per-material scalars in one row-major table of [`MAT_F64_COLS`] columns. The
/// unused column stays zero.
pub fn pack_mat_f64_meta<T: Copy>(
    target_mass: &[T],
    temperature_k: &[T],
    fission_a: &[T],
    fission_b: &[T],
    zero: T,
) -> (r: Vec<T>)
    requires
        temperature_k.len() >= target_mass.len(),
        fission_a.len() >= target_mass.len(),
        fission_b.len() >= target_mass.len(),
    ensures
        r@.len() == target_mass.len() * MAT_F64_COLS,
        forall|m: int| #![trigger target_mass@[m]]
            0 <= m < target_mass.len() ==> {
                &&& at(r@, MAT_F64_COLS, m, COL_TARGET_MASS) == target_mass@[m]
                &&& at(r@, MAT_F64_COLS, m, COL_TEMPERATURE_K) == temperature_k@[m]
                &&& at(r@, MAT_F64_COLS, m, COL_FISSION_A) == fission_a@[m]
                &&& at(r@, MAT_F64_COLS, m, COL_FISSION_B) == fission_b@[m]
                &&& at(r@, MAT_F64_COLS, m, COL_URR_ATOM_DENSITY) == zero
            },
{
    let ghost row = |k: int| seq![target_mass@[k], temperature_k@[k], fission_a@[k], fission_b@[k], zero];
    let mut r: Vec<T> = Vec::new();
    let mut s: usize = 0;
    while s < target_mass.len()
        invariant
            s <= target_mass.len(),
            temperature_k.len() >= target_mass.len(),
            fission_a.len() >= target_mass.len(),
            fission_b.len() >= target_mass.len(),
            row == (|k: int| seq![target_mass@[k], temperature_k@[k], fission_a@[k], fission_b@[k], zero]),
            has_rows(r@, MAT_F64_COLS, s as nat, row),
        decreases target_mass.len() - s,
    {
        let ghost before = r@;
        r.push(target_mass[s]);
        r.push(temperature_k[s]);
        r.push(fission_a[s]);
        r.push(fission_b[s]);
        r.push(zero);
        proof {
            assert(r@ =~= before + row(s as int));
            lemma_add_row(before, MAT_F64_COLS, s as nat, row, r@);
        }
        s = s + 1;
    }
    r
}

/// Per-slot counts and flags in one row-major table of [`MT_SLOT_U32_COLS`]
/// columns.
pub fn pack_mt_slot_u32_meta(
    eout_kind: &[u32],
    eout_n_energies: &[u32],
    corr_n_energies: &[u32],
    corr_n_components: &[u32],
    scatter_in_cm: &[u32],
    km_n_energies: &[u32],
    evap_n_energies: &[u32],
    evap_n_components: &[u32],
    nbps_n_bodies: &[u32],
    maxwell_n_energies: &[u32],
    watt_n_energies: &[u32],
) -> (r: Vec<u32>)
    requires
        eout_n_energies.len() >= eout_kind.len(),
        corr_n_energies.len() >= eout_kind.len(),
        corr_n_components.len() >= eout_kind.len(),
        scatter_in_cm.len() >= eout_kind.len(),
        km_n_energies.len() >= eout_kind.len(),
        evap_n_energies.len() >= eout_kind.len(),
        evap_n_components.len() >= eout_kind.len(),
        nbps_n_bodies.len() >= eout_kind.len(),
        maxwell_n_energies.len() >= eout_kind.len(),
        watt_n_energies.len() >= eout_kind.len(),
    ensures
        r@.len() == eout_kind.len() * MT_SLOT_U32_COLS,
        forall|s: int| #![trigger eout_kind@[s]]
            0 <= s < eout_kind.len() ==> {
                &&& at(r@, MT_SLOT_U32_COLS, s, COL_EOUT_KIND) == eout_kind@[s]
                &&& at(r@, MT_SLOT_U32_COLS, s, COL_EOUT_N_ENERGIES) == eout_n_energies@[s]
                &&& at(r@, MT_SLOT_U32_COLS, s, COL_CORR_N_ENERGIES) == corr_n_energies@[s]
                &&& at(r@, MT_SLOT_U32_COLS, s, COL_SCATTER_IN_CM) == scatter_in_cm@[s]
                &&& at(r@, MT_SLOT_U32_COLS, s, COL_KM_N_ENERGIES) == km_n_energies@[s]
                &&& at(r@, MT_SLOT_U32_COLS, s, COL_EVAP_N_ENERGIES) == evap_n_energies@[s]
                &&& at(r@, MT_SLOT_U32_COLS, s, COL_NBPS_N_BODIES) == nbps_n_bodies@[s]
                &&& at(r@, MT_SLOT_U32_COLS, s, COL_MAXWELL_N_ENERGIES) == maxwell_n_energies@[s]
                &&& at(r@, MT_SLOT_U32_COLS, s, COL_WATT_N_ENERGIES) == watt_n_energies@[s]
                &&& at(r@, MT_SLOT_U32_COLS, s, COL_EVAP_N_COMPONENTS) == evap_n_components@[s]
                &&& at(r@, MT_SLOT_U32_COLS, s, COL_CORR_N_COMPONENTS) == corr_n_components@[s]
            },
{
    let ghost row = |k: int| seq![eout_kind@[k], eout_n_energies@[k], corr_n_energies@[k], scatter_in_cm@[k], km_n_energies@[k], evap_n_energies@[k], nbps_n_bodies@[k], maxwell_n_energies@[k], watt_n_energies@[k], evap_n_components@[k], corr_n_components@[k]];
    let mut r: Vec<u32> = Vec::new();
    let mut s: usize = 0;
    while s < eout_kind.len()
        invariant
            s <= eout_kind.len(),
            eout_n_energies.len() >= eout_kind.len(),
            corr_n_energies.len() >= eout_kind.len(),
            scatter_in_cm.len() >= eout_kind.len(),
            km_n_energies.len() >= eout_kind.len(),
            evap_n_energies.len() >= eout_kind.len(),
            nbps_n_bodies.len() >= eout_kind.len(),
            maxwell_n_energies.len() >= eout_kind.len(),
            watt_n_energies.len() >= eout_kind.len(),
            evap_n_components.len() >= eout_kind.len(),
            corr_n_components.len() >= eout_kind.len(),
            row == (|k: int| seq![eout_kind@[k], eout_n_energies@[k], corr_n_energies@[k], scatter_in_cm@[k], km_n_energies@[k], evap_n_energies@[k], nbps_n_bodies@[k], maxwell_n_energies@[k], watt_n_energies@[k], evap_n_components@[k], corr_n_components@[k]]),
            has_rows(r@, MT_SLOT_U32_COLS, s as nat, row),
        decreases eout_kind.len() - s,
    {
        let ghost before = r@;
        r.push(eout_kind[s]);
        r.push(eout_n_energies[s]);
        r.push(corr_n_energies[s]);
        r.push(scatter_in_cm[s]);
        r.push(km_n_energies[s]);
        r.push(evap_n_energies[s]);
        r.push(nbps_n_bodies[s]);
        r.push(maxwell_n_energies[s]);
        r.push(watt_n_energies[s]);
        r.push(evap_n_components[s]);
        r.push(corr_n_components[s]);
        proof {
            assert(r@ =~= before + row(s as int));
            lemma_add_row(before, MT_SLOT_U32_COLS, s as nat, row, r@);
        }
        s = s + 1;
    }
    r
}

/// Per-slot scalars in one row-major table of [`MT_SLOT_F64_COLS`] columns. The
/// unused column stays zero.
pub fn pack_mt_slot_f64_meta<T: Copy>(
    maxwell_u: &[T],
    watt_u: &[T],
    nbps_total_mass: &[T],
    zero: T,
) -> (r: Vec<T>)
    requires
        maxwell_u.len() >= nbps_total_mass.len(),
        watt_u.len() >= nbps_total_mass.len(),
    ensures
        r@.len() == nbps_total_mass.len() * MT_SLOT_F64_COLS,
        forall|s: int| #![trigger nbps_total_mass@[s]]
            0 <= s < nbps_total_mass.len() ==> {
                &&& at(r@, MT_SLOT_F64_COLS, s, COL_EVAP_U) == zero
                &&& at(r@, MT_SLOT_F64_COLS, s, COL_MAXWELL_U) == maxwell_u@[s]
                &&& at(r@, MT_SLOT_F64_COLS, s, COL_WATT_U) == watt_u@[s]
                &&& at(r@, MT_SLOT_F64_COLS, s, COL_NBPS_TOTAL_MASS) == nbps_total_mass@[s]
            },
{
    let ghost row = |k: int| seq![zero, maxwell_u@[k], watt_u@[k], nbps_total_mass@[k]];
    let mut r: Vec<T> = Vec::new();
    let mut s: usize = 0;
    while s < nbps_total_mass.len()
        invariant
            s <= nbps_total_mass.len(),
            maxwell_u.len() >= nbps_total_mass.len(),
            watt_u.len() >= nbps_total_mass.len(),
            row == (|k: int| seq![zero, maxwell_u@[k], watt_u@[k], nbps_total_mass@[k]]),
            has_rows(r@, MT_SLOT_F64_COLS, s as nat, row),
        decreases nbps_total_mass.len() - s,
    {
        let ghost before = r@;
        r.push(zero);
        r.push(maxwell_u[s]);
        r.push(watt_u[s]);
        r.push(nbps_total_mass[s]);
        proof {
            assert(r@ =~= before + row(s as int));
            lemma_add_row(before, MT_SLOT_F64_COLS, s as nat, row, r@);
        }
        s = s + 1;
    }
    r
}

/// Interleaves the two Watt parameters.
pub fn pack_watt_ab_interleaved<T: Copy>(watt_a: &[T], watt_b: &[T]) -> (r: Vec<T>)
    requires
        watt_b.len() >= watt_a.len(),
    ensures
        r@ == Seq::new(
            (watt_a.len() * 2) as nat,
            |i: int| if i % 2 == 0 {
                watt_a@[i / 2]
            } else {
                watt_b@[i / 2]
            },
        ),
{
    let mut r: Vec<T> = Vec::new();
    let mut i: usize = 0;
    while i < watt_a.len()
        invariant
            i <= watt_a.len(),
            watt_b.len() >= watt_a.len(),
            r@.len() == i * 2,
            forall|j: int|
                0 <= j < i * 2 ==> #[trigger] r@[j] == if j % 2 == 0 {
                    watt_a@[j / 2]
                } else {
                    watt_b@[j / 2]
                },
        decreases watt_a.len() - i,
    {
        r.push(watt_a[i]);
        r.push(watt_b[i]);
        i = i + 1;
    }
    r
}

/// A material's row of five holds its mass, its temperature and the two numbers of its
/// fission spectrum, and leaves the last for a density.
pub proof fn a_material_packs_five_values(
    target_mass: &[Real],
    temperature_k: &[Real],
    fission_a: &[Real],
    fission_b: &[Real],
    zero: Real,
    m: int,
    r: Vec<Real>,
)
    requires
        temperature_k.len() >= target_mass.len(),
        fission_a.len() >= target_mass.len(),
        fission_b.len() >= target_mass.len(),
        0 <= m < target_mass.len(),
        call_ensures(
            pack_mat_f64_meta::<Real>,
            (target_mass, temperature_k, fission_a, fission_b, zero),
            r,
        ),
    ensures
        r@.len() == 5 * target_mass.len(),
        r@[5 * m] == target_mass@[m],
        r@[5 * m + 1] == temperature_k@[m],
        r@[5 * m + 2] == fission_a@[m],
        r@[5 * m + 3] == fission_b@[m],
        r@[5 * m + 4] == zero,
{
    let mass = target_mass@[m];
    assert(at(r@, MAT_F64_COLS, m, COL_TARGET_MASS) == mass);
}

/// A slot's row of four leaves the first value and holds the two restriction energies
/// and the total mass.
pub proof fn a_slot_packs_four_values(
    maxwell_u: &[Real],
    watt_u: &[Real],
    nbps_total_mass: &[Real],
    zero: Real,
    s: int,
    r: Vec<Real>,
)
    requires
        maxwell_u.len() >= nbps_total_mass.len(),
        watt_u.len() >= nbps_total_mass.len(),
        0 <= s < nbps_total_mass.len(),
        call_ensures(pack_mt_slot_f64_meta::<Real>, (maxwell_u, watt_u, nbps_total_mass, zero), r),
    ensures
        r@.len() == 4 * nbps_total_mass.len(),
        r@[4 * s] == zero,
        r@[4 * s + 1] == maxwell_u@[s],
        r@[4 * s + 2] == watt_u@[s],
        r@[4 * s + 3] == nbps_total_mass@[s],
{
    let mass = nbps_total_mass@[s];
    assert(at(r@, MT_SLOT_F64_COLS, s, COL_NBPS_TOTAL_MASS) == mass);
}

/// The two numbers of a Watt spectrum stand side by side, the first before the
/// second.
pub proof fn watt_numbers_stand_in_pairs(watt_a: &[Real], watt_b: &[Real], i: int, r: Vec<Real>)
    requires
        watt_b.len() >= watt_a.len(),
        0 <= i < watt_a.len(),
        call_ensures(pack_watt_ab_interleaved::<Real>, (watt_a, watt_b), r),
    ensures
        r@.len() == 2 * watt_a.len(),
        r@[2 * i] == watt_a@[i],
        r@[2 * i + 1] == watt_b@[i],
{
    assert((2 * i) % 2 == 0 && (2 * i) / 2 == i);
    assert((2 * i + 1) % 2 == 1 && (2 * i + 1) / 2 == i);
}

/// A table that holds anything is handed on as it is; an empty one becomes sentinels,
/// as many as asked for.
pub proof fn only_empty_tables_are_padded(
    s: &[Real],
    n: usize,
    sentinel: Real,
    one: Vec<Real>,
    many: Vec<Real>,
)
    requires
        call_ensures(pad::<Real>, (s, sentinel), one),
        call_ensures(pad_to::<Real>, (s, n, sentinel), many),
    ensures
        s@.len() > 0 ==> one@ == s@ && many@ == s@,
        s@.len() == 0 ==> one@.len() == 1 && one@[0] == sentinel && many@.len() == n,
        s@.len() == 0 ==> forall|i: int| 0 <= i < n ==> #[trigger] many@[i] == sentinel,
{
}

/// A score table has one block for each reaction, one value for each material and grid
/// point; an empty one stands for a single block of zeros.
pub proof fn a_score_table_has_whole_blocks(
    table: &[Real],
    n_materials: usize,
    n_grid: usize,
    zero: Real,
    r: Vec<Real>,
    blocks: usize,
)
    requires
        0 < n_materials * n_grid <= usize::MAX,
        call_ensures(pad_score_table::<Real>, (table, n_materials, n_grid, zero), r),
        call_ensures(n_score_mts, (table.len(), n_materials, n_grid), blocks),
    ensures
        table@.len() > 0 ==> r@ == table@,
        table@.len() == 0 ==> r@.len() == n_materials * n_grid && forall|i: int|
            0 <= i < r@.len() ==> #[trigger] r@[i] == zero,
        blocks * (n_materials * n_grid) <= table@.len() < (blocks + 1) * (n_materials * n_grid),
{
    let b = n_materials * n_grid;
    assert(n_materials > 0 && n_grid > 0) by (nonlinear_arith)
        requires
            n_materials * n_grid > 0,
            n_materials >= 0,
            n_grid >= 0,
    ;
    assert(score_row_block(n_materials as int, n_grid as int) == b);
    let len = table@.len() as int;
    let q = len / b;
    assert(q * b <= len < (q + 1) * b) by (nonlinear_arith)
        requires
            q == len / b,
            b > 0,
    ;
}

/// Joined tables follow one another in their order.
pub proof fn joined_tables_follow_one_another<A>(parts: Seq<Seq<A>>, part: Seq<A>)
    ensures
        joined(Seq::<Seq<A>>::empty()).len() == 0,
        joined(parts.push(part)) == joined(parts) + part,
{
    lemma_joined_push(parts, part);
}

/// Nothing counts as one, anything else as itself.
pub proof fn nothing_counts_as_one(n: usize, r: usize)
    requires
        call_ensures(at_least_one, (n,), r),
    ensures
        n == 0 ==> r == 1,
        n > 0 ==> r == n,
{
}

} // verus!
