//! Collision decisions: which surface is hit first, which nuclide is struck,
//! which reaction takes place and how many neutrons leave it.
//!
//! The cross sections, running sums and random numbers come from outside as
//! plain values; every choice made from them is made here.
use crate::ieee::{sorted, Real, ONE_BITS};
use crate::layout::{
    COL_CORR_N_COMPONENTS, COL_CORR_N_ENERGIES, COL_EOUT_KIND, COL_EOUT_N_ENERGIES,
    COL_EVAP_N_COMPONENTS, COL_EVAP_N_ENERGIES, COL_KM_N_ENERGIES, COL_MAXWELL_N_ENERGIES,
    COL_NBPS_N_BODIES, COL_SCATTER_IN_CM, COL_WATT_N_ENERGIES, CONTINUUM_SLOT,
    EOUT_KIND_CONTINUOUS_TABULAR, EOUT_KIND_CORRELATED, EOUT_KIND_EVAPORATION,
    EOUT_KIND_KALBACH_MANN, EOUT_KIND_MAXWELL, EOUT_KIND_NBODY, EOUT_KIND_TABULATED,
    EOUT_KIND_WATT, FISSION_BANK_PROGENY_CAP, MT_INELASTIC_COUNT, MT_SLOT_U32_COLS, NO_HIT_BITS,
};
use crate::lookup::{GridSide, Incident, NuclideRun};
use crate::pack::{at, pack_mt_slot_u32_meta};
use vstd::prelude::*;

verus! {

/// Nearest surface along a flight.
#[derive(Clone, Copy, Debug)]
pub struct Nearest {
    pub distance: Real,
    pub surface: usize,
}

/// `s` is hit before every other surface, and first in order among equals.
pub open spec fn is_first_hit(hits: Seq<Real>, s: int) -> bool {
    &&& 0 <= s < hits.len()
    &&& hits[s].lt(Real { bits: NO_HIT_BITS })
    &&& forall|i: int| 0 <= i < hits.len() ==> !(#[trigger] hits[i]).lt(hits[s])
    &&& forall|i: int| 0 <= i < s ==> hits[s].lt(#[trigger] hits[i]) || hits[i].is_nan_spec()
}

/// Scans the distances to all surfaces. Without a hit closer than the no-hit
/// distance, the result is that distance and surface 0.
pub fn nearest_surface(hits: &[Real]) -> (r: Nearest)
    ensures
        (exists|s: int| is_first_hit(hits@, s)) ==> is_first_hit(hits@, r.surface as int)
            && r.distance == hits@[r.surface as int],
        !(exists|s: int| is_first_hit(hits@, s)) ==> r.surface == 0 && r.distance.bits
            == NO_HIT_BITS && forall|i: int|
            0 <= i < hits.len() ==> !(#[trigger] hits@[i]).lt(Real { bits: NO_HIT_BITS }),
        r == nearest_of(hits@),
{
    let mut distance: Real = Real { bits: NO_HIT_BITS };
    let mut surface: usize = 0;
    let ghost mut found = false;
    let mut s: usize = 0;
    while s < hits.len()
        invariant
            s <= hits.len(),
            !found ==> distance.bits == NO_HIT_BITS && surface == 0,
            found ==> surface < s && distance == hits@[surface as int] && distance.lt(
                Real { bits: NO_HIT_BITS },
            ),
            forall|i: int| 0 <= i < s ==> !(#[trigger] hits@[i]).lt(distance),
            found ==> forall|i: int|
                0 <= i < surface ==> distance.lt(#[trigger] hits@[i]) || hits@[i].is_nan_spec(),
        decreases hits.len() - s,
    {
        if hits[s].is_lt(distance) {
            distance = hits[s];
            surface = s;
            proof {
                found = true;
            }
        }
        s = s + 1;
    }
    proof {
        if found {
            assert(is_first_hit(hits@, surface as int));
            assert forall|t: int| is_first_hit(hits@, t) implies t == surface by {
                if t < surface {
                    assert(!hits@[t].is_nan_spec());
                    assert(!hits@[surface as int].lt(hits@[t]));
                }
                if surface < t {
                    assert(!hits@[surface as int].is_nan_spec());
                    assert(!hits@[t].lt(hits@[surface as int]));
                }
            }
        }
    }
    Nearest { distance, surface }
}

/// Nearest surface and its distance, as a function of the distances.
pub open spec fn nearest_of(hits: Seq<Real>) -> Nearest {
    if exists|s: int| is_first_hit(hits, s) {
        let s = choose|s: int| is_first_hit(hits, s);
        Nearest { distance: hits[s], surface: s as usize }
    } else {
        Nearest { distance: Real { bits: NO_HIT_BITS }, surface: 0 }
    }
}

/// Only one surface is the first hit.
pub proof fn first_hit_is_unique(hits: Seq<Real>, s: int, t: int)
    requires
        is_first_hit(hits, s),
        is_first_hit(hits, t),
    ensures
        s == t,
{
    if s < t {
        assert(!hits[s].lt(hits[t]));
        assert(!hits[s].is_nan_spec());
    }
    if t < s {
        assert(!hits[t].lt(hits[s]));
        assert(!hits[t].is_nan_spec());
    }
}

/// The flight ends in a collision when the sampled distance is shorter than the
/// distance to the nearest surface.
pub fn collides_first(sampled: Real, boundary: Real) -> (r: bool)
    ensures
        r == sampled.lt(boundary),
{
    sampled.is_lt(boundary)
}

/// Number of running sums that `xi` has reached.
pub open spec fn sums_reached(sums: Seq<Real>, xi: Real) -> nat
    decreases sums.len(),
{
    if sums.len() == 0 {
        0
    } else {
        sums_reached(sums.drop_last(), xi) + if sums.last().le(xi) {
            1nat
        } else {
            0nat
        }
    }
}

/// A material of one nuclide draws nothing for the choice of the struck one.
pub fn draws_nuclide(run: NuclideRun) -> (r: bool)
    ensures
        r == (run.count > 1),
{
    run.count > 1
}

/// Struck nuclide, from the running sums of the nuclides' cross sections and a
/// uniform scaled to their total.
pub fn select_nuclide(sums: &[Real], xi: Real) -> (r: usize)
    requires
        sums.len() >= 1,
    ensures
        r < sums.len(),
        r == if sums_reached(sums@, xi) < sums.len() {
            sums_reached(sums@, xi) as int
        } else {
            sums.len() - 1
        },
{
    let mut chosen: usize = 0;
    let mut k: usize = 0;
    while k < sums.len()
        invariant
            k <= sums.len(),
            chosen <= k,
            chosen == sums_reached(sums@.subrange(0, k as int), xi),
        decreases sums.len() - k,
    {
        assert(sums@.subrange(0, k + 1).drop_last() =~= sums@.subrange(0, k as int));
        if sums[k].is_le(xi) {
            chosen = chosen + 1;
        }
        k = k + 1;
    }
    assert(sums@.subrange(0, k as int) =~= sums@);
    if chosen >= sums.len() {
        chosen = sums.len() - 1;
    }
    chosen
}

/// With non-decreasing running sums, the struck nuclide is the first whose sum
/// exceeds the scaled uniform.
pub proof fn nuclide_is_first_to_exceed(sums: Seq<Real>, xi: Real, k: int)
    requires
        sorted(sums),
        !xi.is_nan_spec(),
        0 <= k < sums.len(),
        xi.lt(sums[k]),
        k > 0 ==> sums[k - 1].le(xi),
    ensures
        sums_reached(sums, xi) == k,
{
    lemma_reached(sums, xi, k);
}

proof fn lemma_reached(sums: Seq<Real>, xi: Real, k: int)
    requires
        sorted(sums),
        !xi.is_nan_spec(),
        0 <= k <= sums.len(),
        k < sums.len() ==> xi.lt(sums[k]),
        k > 0 ==> sums[k - 1].le(xi),
    ensures
        sums_reached(sums, xi) == k,
    decreases sums.len(),
{
    if sums.len() > 0 {
        let rest = sums.drop_last();
        assert forall|i: int| 0 <= i < rest.len() implies rest[i] == sums[i] by {}
        assert forall|i: int| 0 <= i < rest.len() implies !(#[trigger] rest[i]).is_nan_spec() by {
            assert(!sums[i].is_nan_spec());
        }
        assert forall|i: int, j: int| 0 <= i <= j < rest.len() implies (#[trigger] rest[i]).key()
            <= (#[trigger] rest[j]).key() by {
            assert(sums[i].key() <= sums[j].key());
        }
        if k == sums.len() {
            if k > 1 {
                assert(sums[k - 2].key() <= sums[k - 1].key());
                assert(!sums[k - 2].is_nan_spec());
            }
            lemma_reached(rest, xi, k - 1);
        } else {
            assert(sums[k].key() <= sums[sums.len() - 1].key());
            lemma_reached(rest, xi, k);
        }
    }
}

/// Reaction classes of a collision.
#[derive(Clone, Copy, Debug, PartialEq, Eq, Structural)]
pub enum Reaction {
    Absorption,
    Elastic,
    Inelastic,
    Fission,
}

/// Whether implicit capture renormalises the selection over scattering and
/// fission: it must be on, and there must be something to scatter into.
pub fn survival_applies(enabled: bool, sigma_sf: Real) -> (r: bool)
    ensures
        r == (enabled && sigma_sf.positive()),
{
    enabled && sigma_sf.is_positive()
}

pub open spec fn reaction_for(
    xi: Real,
    p_elastic: Real,
    p_scatter: Real,
    p_fission_or_scatter: Real,
) -> Reaction {
    if p_fission_or_scatter.le(xi) {
        Reaction::Absorption
    } else if xi.lt(p_elastic) {
        Reaction::Elastic
    } else if xi.lt(p_scatter) {
        Reaction::Inelastic
    } else {
        Reaction::Fission
    }
}

/// Reaction class, from a uniform and the cumulative probabilities of the
/// classes.
pub fn select_reaction(
    xi: Real,
    p_elastic: Real,
    p_scatter: Real,
    p_fission_or_scatter: Real,
) -> (r: Reaction)
    ensures
        r == reaction_for(xi, p_elastic, p_scatter, p_fission_or_scatter),
{
    if p_fission_or_scatter.is_le(xi) {
        Reaction::Absorption
    } else if xi.is_lt(p_elastic) {
        Reaction::Elastic
    } else if xi.is_lt(p_scatter) {
        Reaction::Inelastic
    } else {
        Reaction::Fission
    }
}

/// With implicit capture the cumulative scatter-or-fission probability is one,
/// so a uniform below one is never absorbed.
pub proof fn implicit_capture_never_absorbs(xi: Real, p_elastic: Real, p_scatter: Real)
    requires
        xi.lt(Real { bits: ONE_BITS }),
    ensures
        reaction_for(xi, p_elastic, p_scatter, Real { bits: ONE_BITS })
            != Reaction::Absorption,
{
}

/// First slot whose running sum reaches the target, or the continuum slot when
/// none does.
pub open spec fn slot_for(sums: Seq<Real>, target: Real) -> int {
    if exists|s: int| is_first_reaching(sums, target, s) {
        choose|s: int| is_first_reaching(sums, target, s)
    } else {
        CONTINUUM_SLOT as int
    }
}

pub open spec fn is_first_reaching(sums: Seq<Real>, target: Real, s: int) -> bool {
    &&& 0 <= s < sums.len()
    &&& target.le(sums[s])
    &&& forall|i: int| 0 <= i < s ==> !target.le(#[trigger] sums[i])
}

/// Reaction slot of an inelastic collision, from the running sums of the slots'
/// cross sections.
pub fn select_slot(sums: &[Real], target: Real) -> (r: usize)
    requires
        sums.len() == MT_INELASTIC_COUNT,
    ensures
        r < MT_INELASTIC_COUNT,
        r == slot_for(sums@, target),
{
    let mut s: usize = 0;
    while s < sums.len()
        invariant
            s <= sums.len(),
            sums.len() == MT_INELASTIC_COUNT,
            forall|i: int| 0 <= i < s ==> !target.le(#[trigger] sums@[i]),
        decreases sums.len() - s,
    {
        if target.is_le(sums[s]) {
            assert(is_first_reaching(sums@, target, s as int));
            assert forall|t: int| is_first_reaching(sums@, target, t) implies t == s by {}
            return s;
        }
        s = s + 1;
    }
    CONTINUUM_SLOT
}

/// Code recorded for a reaction: the MT number, with every absorption reported
/// as capture.
pub fn reaction_code(reaction: Reaction, slot: usize) -> (r: i32)
    requires
        slot < MT_INELASTIC_COUNT,
    ensures
        r == match reaction {
            Reaction::Absorption => 102int,
            Reaction::Elastic => 2int,
            Reaction::Fission => 18int,
            Reaction::Inelastic => 51 + slot,
        },
{
    match reaction {
        Reaction::Absorption => 102,
        Reaction::Elastic => 2,
        Reaction::Fission => 18,
        Reaction::Inelastic => 51 + slot as i32,
    }
}

/// Bit pattern of `1e-10`.
pub const YIELD_TOLERANCE_BITS: u64 = 0x3ddb_7cdf_d9d7_bdbb;

/// Neutrons leaving a reaction whose yield rounds to `yield_round` with
/// distance `deviation`: an integral yield of two or more is emitted as that
/// many neutrons. `None` means the yield multiplies the weight instead.
pub fn analog_multiplicity(yield_round: u32, deviation: Real) -> (r: Option<u32>)
    ensures
        r == if yield_round >= 2 && deviation.lt(Real { bits: YIELD_TOLERANCE_BITS }) {
            Some(yield_round)
        } else {
            None
        },
{
    if yield_round >= 2 && deviation.is_lt(Real::new(YIELD_TOLERANCE_BITS)) {
        Some(yield_round)
    } else {
        None
    }
}

/// Neutrons of a fission: the mean number rounded down, or up with the
/// probability of the fraction.
pub fn progeny_count(n_floor: u32, xi: Real, fraction: Real) -> (r: u32)
    requires
        n_floor < u32::MAX,
    ensures
        r == if xi.lt(fraction) {
            n_floor + 1
        } else {
            n_floor as int
        },
{
    if xi.is_lt(fraction) {
        n_floor + 1
    } else {
        n_floor
    }
}

/// Progeny emitted besides the continuing walk.
pub fn extra_progeny(n_progeny: u32) -> (r: u32)
    ensures
        r < FISSION_BANK_PROGENY_CAP,
        n_progeny == 0 ==> r == 0,
        1 <= n_progeny <= FISSION_BANK_PROGENY_CAP ==> r == n_progeny - 1,
        n_progeny > FISSION_BANK_PROGENY_CAP ==> r == FISSION_BANK_PROGENY_CAP - 1,
{
    if n_progeny == 0 {
        0
    } else if n_progeny <= FISSION_BANK_PROGENY_CAP {
        n_progeny - 1
    } else {
        FISSION_BANK_PROGENY_CAP - 1
    }
}

/// A material without delayed data draws nothing for the choice of spectrum.
pub fn draws_spectrum(beta: Real) -> (r: bool)
    ensures
        r == beta.positive(),
{
    beta.is_positive()
}

/// Rows come in pairs: a material's prompt spectrum, then its delayed one.
pub open spec fn chi_row_for(mat: int, beta: Real, xi: Option<Real>) -> int {
    match xi {
        Some(x) => if beta.positive() && x.lt(beta) {
            2 * mat + 1
        } else {
            2 * mat
        },
        None => 2 * mat,
    }
}

/// Row of a material's fission spectrum: prompt, or delayed when the uniform
/// drawn for the choice falls below the delayed fraction.
pub fn chi_row(mat: usize, beta: Real, xi: Option<Real>) -> (r: usize)
    requires
        2 * mat + 1 <= usize::MAX,
    ensures
        r == chi_row_for(mat as int, beta, xi),
{
    if beta.is_positive() {
        match xi {
            Some(x) => if x.is_lt(beta) {
                return 2 * mat + 1;
            },
            None => {},
        }
    }
    2 * mat
}

/// Chooses a fission spectrum on the random stream `s`: one number is drawn for
/// the choice, and none for a material without delayed neutrons, whose stream
/// stays where it is. Gives the row and the stream behind the choice.
pub fn spectrum_row<S, F: Fn(S) -> (Real, S)>(mat: usize, beta: Real, s: S, draw: &F) -> (r: (
    usize,
    S,
))
    requires
        2 * mat + 1 <= usize::MAX,
        beta.positive() ==> call_requires(*draw, (s,)),
    ensures
        !beta.positive() ==> r == ((2 * mat) as usize, s),
        beta.positive() ==> exists|d: (Real, S)| #[trigger]
            call_ensures(*draw, (s,), d) && r == (
                chi_row_for(mat as int, beta, Some(d.0)) as usize,
                d.1,
            ),
{
    if draws_spectrum(beta) {
        let ghost from = s;
        let d = draw(s);
        let (xi, next) = d;
        assert(call_ensures(*draw, (from,), (xi, next)));
        (chi_row(mat, beta, Some(xi)), next)
    } else {
        (chi_row(mat, beta, None), s)
    }
}

/// `r` is an energy of a fission neutron, with the stream behind it: `chi` samples
/// the prompt row on the stream as it is, or behind one draw the row it picks.
pub open spec fn is_progeny_energy<S, F: Fn(S) -> (Real, S), C: Fn(usize, S) -> (Real, S)>(
    mat: usize,
    beta: Real,
    s: S,
    draw: F,
    chi: C,
    r: (Real, S),
) -> bool {
    if beta.positive() {
        exists|d: (Real, S)| #[trigger]
            call_ensures(draw, (s,), d) && call_ensures(
                chi,
                (chi_row_for(mat as int, beta, Some(d.0)) as usize, d.1),
                r,
            )
    } else {
        call_ensures(chi, ((2 * mat) as usize, s), r)
    }
}

/// Energy of a fission neutron on the random stream `s`: the spectrum is chosen
/// first, and `chi` samples its row on the stream behind the choice.
pub fn fission_progeny_energy<S, F: Fn(S) -> (Real, S), C: Fn(usize, S) -> (Real, S)>(
    mat: usize,
    beta: Real,
    s: S,
    draw: &F,
    chi: &C,
) -> (r: (Real, S))
    requires
        2 * mat + 1 <= usize::MAX,
        beta.positive() ==> call_requires(*draw, (s,)),
        forall|row: usize, t: S|
            2 * mat <= row <= 2 * mat + 1 ==> #[trigger] call_requires(*chi, (row, t)),
    ensures
        is_progeny_energy(mat, beta, s, *draw, *chi, r),
{
    let (row, next) = spectrum_row(mat, beta, s, draw);
    chi(row, next)
}

/// The draws of a fission neutron's energy: a material without delayed neutrons
/// samples its prompt row on the stream as it is. Any other draws exactly one
/// uniform, and samples the row that it picks on the stream behind it: the
/// delayed one below the delayed fraction, else the prompt one.
pub proof fn one_uniform_picks_the_spectrum<
    S,
    F: Fn(S) -> (Real, S),
    C: Fn(usize, S) -> (Real, S),
>(mat: usize, beta: Real, s: S, draw: F, chi: C, uniform: (Real, S), r: (Real, S))
    requires
        2 * mat + 1 <= usize::MAX,
        is_progeny_energy(mat, beta, s, draw, chi, r),
        forall|d: (Real, S)| #[trigger] call_ensures(draw, (s,), d) ==> d == uniform,
    ensures
        !beta.positive() ==> call_ensures(chi, ((2 * mat) as usize, s), r),
        beta.positive() && uniform.0.lt(beta) ==> call_ensures(
            chi,
            ((2 * mat + 1) as usize, uniform.1),
            r,
        ),
        beta.positive() && !uniform.0.lt(beta) ==> call_ensures(
            chi,
            ((2 * mat) as usize, uniform.1),
            r,
        ),
{
}

/// Law of a fission spectrum.
#[derive(Clone, Copy, Debug, PartialEq, Eq, Structural)]
pub enum ChiLaw {
    /// Tabulated rows from the given offset.
    Tabular { offset: usize, n: usize },
    Maxwell { offset: usize, n: usize },
    Evaporation { offset: usize, n: usize },
    /// Closed form with per-material parameters.
    Watt,
}

/// Law of one spectrum row. A row without incident energies, or of any other
/// kind, uses the closed form.
pub fn chi_law(kind: u32, n_energies: u32, ae_offset: u32) -> (r: ChiLaw)
    ensures
        r == if n_energies == 0 {
            ChiLaw::Watt
        } else if kind == EOUT_KIND_CONTINUOUS_TABULAR {
            ChiLaw::Tabular { offset: ae_offset as usize, n: n_energies as usize }
        } else if kind == EOUT_KIND_MAXWELL {
            ChiLaw::Maxwell { offset: ae_offset as usize, n: n_energies as usize }
        } else if kind == EOUT_KIND_EVAPORATION {
            ChiLaw::Evaporation { offset: ae_offset as usize, n: n_energies as usize }
        } else {
            ChiLaw::Watt
        },
{
    let offset: usize = ae_offset as usize;
    let n: usize = n_energies as usize;
    if n_energies == 0 {
        ChiLaw::Watt
    } else if kind == EOUT_KIND_CONTINUOUS_TABULAR {
        ChiLaw::Tabular { offset, n }
    } else if kind == EOUT_KIND_MAXWELL {
        ChiLaw::Maxwell { offset, n }
    } else if kind == EOUT_KIND_EVAPORATION {
        ChiLaw::Evaporation { offset, n }
    } else {
        ChiLaw::Watt
    }
}

/// Temperatures of the rows of a Maxwell or evaporation spectrum: each row
/// carries one point, found through its offset.
pub fn gather_theta<T: Copy>(x: &[T], x_offset: &[u32], offset: usize, n: usize) -> (r: Vec<T>)
    requires
        offset + n <= x_offset.len(),
        forall|i: int| offset <= i < offset + n ==> #[trigger] x_offset@[i] < x.len(),
    ensures
        r@ == Seq::new(n as nat, |i: int| x@[x_offset@[offset + i] as int]),
{
    let mut r: Vec<T> = Vec::new();
    let mut i: usize = 0;
    while i < n
        invariant
            i <= n,
            offset + n <= x_offset.len(),
            forall|i: int| offset <= i < offset + n ==> #[trigger] x_offset@[i] < x.len(),
            r@.len() == i,
            forall|j: int| 0 <= j < i ==> #[trigger] r@[j] == x@[x_offset@[offset + j] as int],
        decreases n - i,
    {
        r.push(x[x_offset[offset + i] as usize]);
        i = i + 1;
    }
    r
}

/// Outgoing-energy law of one reaction slot.
#[derive(Clone, Copy, Debug, PartialEq, Eq, Structural)]
pub enum OutgoingLaw {
    /// Discrete-level kinematics in closed form.
    Level,
    Tabular { n: u32 },
    Correlated { n_per_component: u32, n_components: u32 },
    KalbachMann { n: u32 },
    Evaporation { n: u32, n_components: u32 },
    NBody { n_bodies: u32 },
    Maxwell { n: u32 },
    Watt { n: u32 },
    /// Equiprobable bins.
    Tabulated { n: u32 },
}

/// Column `col` of a slot's row.
pub open spec fn slot_meta(meta: Seq<u32>, mat_slot: int, col: u32) -> u32 {
    meta[mat_slot * MT_SLOT_U32_COLS + col]
}

pub open spec fn outgoing_law_for(meta: Seq<u32>, mat_slot: int) -> OutgoingLaw {
    let kind = slot_meta(meta, mat_slot, COL_EOUT_KIND);
    let n_eout = slot_meta(meta, mat_slot, COL_EOUT_N_ENERGIES);
    let n_corr = slot_meta(meta, mat_slot, COL_CORR_N_ENERGIES);
    let corr_parts = slot_meta(meta, mat_slot, COL_CORR_N_COMPONENTS);
    let n_km = slot_meta(meta, mat_slot, COL_KM_N_ENERGIES);
    let n_evap = slot_meta(meta, mat_slot, COL_EVAP_N_ENERGIES);
    let evap_parts = slot_meta(meta, mat_slot, COL_EVAP_N_COMPONENTS);
    let n_maxwell = slot_meta(meta, mat_slot, COL_MAXWELL_N_ENERGIES);
    let n_watt = slot_meta(meta, mat_slot, COL_WATT_N_ENERGIES);
    if kind == EOUT_KIND_CONTINUOUS_TABULAR && n_eout > 0 {
        OutgoingLaw::Tabular { n: n_eout }
    } else if kind == EOUT_KIND_CORRELATED && n_eout == 0 && n_corr > 0 {
        if corr_parts >= 2 {
            OutgoingLaw::Correlated {
                n_per_component: (n_corr / corr_parts) as u32,
                n_components: corr_parts,
            }
        } else {
            OutgoingLaw::Correlated { n_per_component: n_corr, n_components: 1 }
        }
    } else if kind == EOUT_KIND_KALBACH_MANN && n_km > 0 {
        OutgoingLaw::KalbachMann { n: n_km }
    } else if kind == EOUT_KIND_EVAPORATION && n_evap > 0 {
        OutgoingLaw::Evaporation {
            n: n_evap,
            n_components: if evap_parts >= 2 {
                evap_parts
            } else {
                1
            },
        }
    } else if kind == EOUT_KIND_NBODY {
        OutgoingLaw::NBody { n_bodies: slot_meta(meta, mat_slot, COL_NBPS_N_BODIES) }
    } else if kind == EOUT_KIND_MAXWELL && n_maxwell > 0 {
        OutgoingLaw::Maxwell { n: n_maxwell }
    } else if kind == EOUT_KIND_WATT && n_watt > 0 {
        OutgoingLaw::Watt { n: n_watt }
    } else if kind == EOUT_KIND_TABULATED && n_eout > 0 {
        OutgoingLaw::Tabulated { n: n_eout }
    } else {
        OutgoingLaw::Level
    }
}

/// Law by which a slot's outgoing energy is sampled. A law whose table is empty
/// falls back to the closed form.
pub fn outgoing_law(meta: &[u32], mat_slot: usize) -> (r: OutgoingLaw)
    requires
        (mat_slot + 1) * MT_SLOT_U32_COLS <= meta.len(),
    ensures
        r == outgoing_law_for(meta@, mat_slot as int),
{
    assert((mat_slot + 1) * MT_SLOT_U32_COLS == mat_slot * MT_SLOT_U32_COLS + MT_SLOT_U32_COLS)
        by (nonlinear_arith);
    let at: usize = mat_slot * MT_SLOT_U32_COLS as usize;
    let kind: u32 = meta[at + COL_EOUT_KIND as usize];
    let n_eout: u32 = meta[at + COL_EOUT_N_ENERGIES as usize];
    let n_corr: u32 = meta[at + COL_CORR_N_ENERGIES as usize];
    let corr_parts: u32 = meta[at + COL_CORR_N_COMPONENTS as usize];
    let n_km: u32 = meta[at + COL_KM_N_ENERGIES as usize];
    let n_evap: u32 = meta[at + COL_EVAP_N_ENERGIES as usize];
    let evap_parts: u32 = meta[at + COL_EVAP_N_COMPONENTS as usize];
    let n_maxwell: u32 = meta[at + COL_MAXWELL_N_ENERGIES as usize];
    let n_watt: u32 = meta[at + COL_WATT_N_ENERGIES as usize];
    if kind == EOUT_KIND_CONTINUOUS_TABULAR && n_eout > 0 {
        OutgoingLaw::Tabular { n: n_eout }
    } else if kind == EOUT_KIND_CORRELATED && n_eout == 0 && n_corr > 0 {
        if corr_parts >= 2 {
            OutgoingLaw::Correlated {
                n_per_component: n_corr / corr_parts,
                n_components: corr_parts,
            }
        } else {
            OutgoingLaw::Correlated { n_per_component: n_corr, n_components: 1 }
        }
    } else if kind == EOUT_KIND_KALBACH_MANN && n_km > 0 {
        OutgoingLaw::KalbachMann { n: n_km }
    } else if kind == EOUT_KIND_EVAPORATION && n_evap > 0 {
        let n_components: u32 = if evap_parts >= 2 {
            evap_parts
        } else {
            1
        };
        OutgoingLaw::Evaporation { n: n_evap, n_components }
    } else if kind == EOUT_KIND_NBODY {
        OutgoingLaw::NBody { n_bodies: meta[at + COL_NBPS_N_BODIES as usize] }
    } else if kind == EOUT_KIND_MAXWELL && n_maxwell > 0 {
        OutgoingLaw::Maxwell { n: n_maxwell }
    } else if kind == EOUT_KIND_WATT && n_watt > 0 {
        OutgoingLaw::Watt { n: n_watt }
    } else if kind == EOUT_KIND_TABULATED && n_eout > 0 {
        OutgoingLaw::Tabulated { n: n_eout }
    } else {
        OutgoingLaw::Level
    }
}

/// Whether a slot's table is in the centre-of-mass frame.
pub fn scatters_in_cm(meta: &[u32], mat_slot: usize) -> (r: bool)
    requires
        (mat_slot + 1) * MT_SLOT_U32_COLS <= meta.len(),
    ensures
        r == (slot_meta(meta@, mat_slot as int, COL_SCATTER_IN_CM) == 1),
{
    assert((mat_slot + 1) * MT_SLOT_U32_COLS == mat_slot * MT_SLOT_U32_COLS + MT_SLOT_U32_COLS)
        by (nonlinear_arith);
    let at: usize = mat_slot * MT_SLOT_U32_COLS as usize;
    meta[at + COL_SCATTER_IN_CM as usize] == 1
}

/// Component drawn for a mixture of `n_components` equally weighted laws, from
/// the scaled uniform rounded down.
pub fn clamp_component(drawn: u32, n_components: u32) -> (r: u32)
    requires
        n_components >= 1,
    ensures
        r == if drawn < n_components {
            drawn as int
        } else {
            n_components - 1
        },
{
    if drawn < n_components {
        drawn
    } else {
        n_components - 1
    }
}

/// First row of a component of a component-major table.
pub fn component_row(base: usize, component: u32, n_per_component: u32) -> (r: usize)
    requires
        base + component * n_per_component <= usize::MAX,
    ensures
        r == base + component * n_per_component,
{
    proof {
        assert(component * n_per_component >= 0) by (nonlinear_arith);
    }
    base + component as usize * n_per_component as usize
}

/// The rows of every component of a correlated mixture lie inside the rows of
/// its slot.
pub proof fn component_rows_fit(total: nat, n_components: nat, component: nat)
    requires
        n_components >= 1,
        component < n_components,
    ensures
        component * (total / n_components) + total / n_components <= total,
{
    let per = total / n_components;
    vstd::arithmetic::div_mod::lemma_fundamental_div_mod(total as int, n_components as int);
    assert(component * per + per <= n_components * per) by (nonlinear_arith)
        requires
            component + 1 <= n_components,
            per >= 0,
    ;
}

/// Whether an outgoing energy and frame give a surviving neutron: the energy
/// must be positive, and so must the laboratory energy when the table is in the
/// centre-of-mass frame.
pub fn kinematics_survive(e_cm: Real, in_cm: bool, e_lab: Real) -> (r: bool)
    ensures
        r == (e_cm.positive() && (!in_cm || e_lab.positive())),
{
    e_cm.is_positive() && (!in_cm || e_lab.is_positive())
}

/// Whether the motion of the target matters in an elastic scattering. It does
/// at a positive temperature: for a target heavier than the neutron below
/// `limit`, a multiple of the thermal energy, and for any other at every energy.
pub fn is_free_gas(temperature: Real, target_mass: Real, energy: Real, limit: Real) -> (r: bool)
    ensures
        r == (temperature.positive() && if (Real { bits: ONE_BITS }).lt(target_mass) {
            energy.lt(limit)
        } else {
            target_mass.le(Real { bits: ONE_BITS })
        }),
{
    if !temperature.is_positive() {
        return false;
    }
    if Real::one().is_lt(target_mass) {
        energy.is_lt(limit)
    } else {
        target_mass.is_le(Real::one())
    }
}

/// Row of a law whose values are not interpolated: the one below the incident
/// energy, and the last one from the end of the grid on.
pub fn incident_row(at: Incident, n: usize) -> (r: usize)
    requires
        n >= 1,
    ensures
        r == if at.side == GridSide::Above {
            n - 1
        } else {
            at.index as int
        },
{
    match at.side {
        GridSide::Above => n - 1,
        _ => at.index,
    }
}

/// Whether a spectrum with a restriction energy can be sampled: its parameter is
/// positive and the incident energy is above the restriction.
pub fn spectrum_is_open(parameter: Real, energy: Real, restriction: Real) -> (r: bool)
    ensures
        r == (parameter.positive() && restriction.lt(energy)),
{
    parameter.is_positive() && restriction.is_lt(energy)
}

/// Outgoing energy of a law: the sampled one where there is one and it is
/// positive, and that of the closed form otherwise.
pub fn outgoing_energy(sampled: Option<Real>, closed: Real) -> (r: Real)
    ensures
        r == match sampled {
            Some(e) => if e.positive() {
                e
            } else {
                closed
            },
            None => closed,
        },
{
    match sampled {
        Some(e) => if e.is_positive() {
            e
        } else {
            closed
        },
        None => closed,
    }
}

/// Bit pattern of `1e-6`, the energy that stands for a draw without one.
pub const LEAST_ENERGY_BITS: u64 = 0x3eb0_c6f7_a0b5_ed8d;

/// Outgoing energy of a draw from a Watt spectrum: the draw itself, or the least
/// energy where the draw is not above zero.
pub fn watt_energy(drawn: Real) -> (r: Real)
    ensures
        r == if drawn.le(Real { bits: 0 }) {
            (Real { bits: LEAST_ENERGY_BITS })
        } else {
            drawn
        },
{
    if drawn.is_le(Real::zero()) {
        Real::new(LEAST_ENERGY_BITS)
    } else {
        drawn
    }
}

/// Each kind of outgoing law whose table has energies is sampled from that table,
/// with the table's own size; only the level kind, a kind that is not known, or
/// an empty table gives the closed form. Correlated tables of several components
/// share their energies out evenly.
pub proof fn a_slot_is_sampled_by_the_law_of_its_kind(meta: &[u32], mat_slot: usize, law: OutgoingLaw)
    requires
        call_ensures(outgoing_law, (meta, mat_slot), law),
    ensures
        ({
            let row = |col: int| meta@[mat_slot * 11 + col];
            let kind = row(0);
            &&& kind == 1 && row(1) > 0 ==> law == OutgoingLaw::Tabular { n: row(1) }
            &&& kind == 2 && row(1) == 0 && row(2) > 0 ==> {
                &&& law is Correlated
                &&& row(10) < 2 ==> law->n_per_component == row(2)
                    && law->Correlated_n_components == 1
                &&& row(10) >= 2 ==> law->Correlated_n_components == row(10)
                    && law->n_per_component == row(2) / row(10)
            }
            &&& kind == 3 && row(4) > 0 ==> law == OutgoingLaw::KalbachMann { n: row(4) }
            &&& kind == 4 && row(5) > 0 ==> {
                &&& law is Evaporation && law->Evaporation_n == row(5)
                &&& law->Evaporation_n_components == if row(9) < 2 {
                    1
                } else {
                    row(9)
                }
            }
            &&& kind == 5 ==> law == OutgoingLaw::NBody { n_bodies: row(6) }
            &&& kind == 6 && row(7) > 0 ==> law == OutgoingLaw::Maxwell { n: row(7) }
            &&& kind == 7 && row(8) > 0 ==> law == OutgoingLaw::Watt { n: row(8) }
            &&& kind == 8 && row(1) > 0 ==> law == OutgoingLaw::Tabulated { n: row(1) }
            &&& law is Level <==> {
                ||| kind == 0 || kind > 8
                ||| (kind == 1 || kind == 8) && row(1) == 0
                ||| kind == 2 && (row(1) > 0 || row(2) == 0)
                ||| kind == 3 && row(4) == 0
                ||| kind == 4 && row(5) == 0
                ||| kind == 6 && row(7) == 0
                ||| kind == 7 && row(8) == 0
            }
        }),
{
}

/// A slot that was packed is sampled by the law that was packed for it: what the
/// packer was given for a slot, the slot is found to have.
pub proof fn a_packed_slot_has_its_own_law(
    eout_kind: &[u32],
    eout_n: &[u32],
    corr_n: &[u32],
    corr_parts: &[u32],
    in_cm: &[u32],
    km_n: &[u32],
    evap_n: &[u32],
    evap_parts: &[u32],
    bodies: &[u32],
    maxwell_n: &[u32],
    watt_n: &[u32],
    packed: Vec<u32>,
    meta: &[u32],
    slot: usize,
    law: OutgoingLaw,
    frame: bool,
)
    requires
        call_ensures(
            pack_mt_slot_u32_meta,
            (
                eout_kind,
                eout_n,
                corr_n,
                corr_parts,
                in_cm,
                km_n,
                evap_n,
                evap_parts,
                bodies,
                maxwell_n,
                watt_n,
            ),
            packed,
        ),
        meta@ == packed@,
        slot < eout_kind@.len(),
        call_ensures(outgoing_law, (meta, slot), law),
        call_ensures(scatters_in_cm, (meta, slot), frame),
    ensures
        ({
            let k = slot as int;
            let kind = eout_kind@[k];
            &&& frame == (in_cm@[k] == 1)
            &&& kind == 1 && eout_n@[k] > 0 ==> law == OutgoingLaw::Tabular { n: eout_n@[k] }
            &&& kind == 2 && eout_n@[k] == 0 && corr_n@[k] > 0 && corr_parts@[k] < 2 ==> law
                == OutgoingLaw::Correlated { n_per_component: corr_n@[k], n_components: 1 }
            &&& kind == 2 && eout_n@[k] == 0 && corr_n@[k] > 0 && corr_parts@[k] >= 2 ==> law
                is Correlated && law->Correlated_n_components == corr_parts@[k]
            &&& kind == 3 && km_n@[k] > 0 ==> law == OutgoingLaw::KalbachMann { n: km_n@[k] }
            &&& kind == 4 && evap_n@[k] > 0 ==> law is Evaporation && law->Evaporation_n
                == evap_n@[k]
            &&& kind == 4 && evap_n@[k] > 0 && evap_parts@[k] >= 2
                ==> law->Evaporation_n_components == evap_parts@[k]
            &&& kind == 5 ==> law == OutgoingLaw::NBody { n_bodies: bodies@[k] }
            &&& kind == 6 && maxwell_n@[k] > 0 ==> law == OutgoingLaw::Maxwell {
                n: maxwell_n@[k],
            }
            &&& kind == 7 && watt_n@[k] > 0 ==> law == OutgoingLaw::Watt { n: watt_n@[k] }
            &&& kind == 8 && eout_n@[k] > 0 ==> law == OutgoingLaw::Tabulated { n: eout_n@[k] }
        }),
{
    assert(packed@.len() == eout_kind.len() * MT_SLOT_U32_COLS);
    let kind = eout_kind@[slot as int];
    assert(at(packed@, MT_SLOT_U32_COLS, slot as int, COL_EOUT_KIND) == kind);
    assert(slot_meta(meta@, slot as int, COL_EOUT_KIND) == kind);
}

/// A spectrum row of a tabulated kind with incident energies is sampled from its
/// own rows, and any other by the closed form.
pub proof fn a_spectrum_row_is_sampled_by_its_kind(
    kind: u32,
    n_energies: u32,
    ae_offset: u32,
    law: ChiLaw,
)
    requires
        call_ensures(chi_law, (kind, n_energies, ae_offset), law),
    ensures
        ({
            let offset = ae_offset as usize;
            let n = n_energies as usize;
            &&& n > 0 && kind == 1 ==> law == ChiLaw::Tabular { offset, n }
            &&& n > 0 && kind == 6 ==> law == ChiLaw::Maxwell { offset, n }
            &&& n > 0 && kind == 4 ==> law == ChiLaw::Evaporation { offset, n }
            &&& law is Watt <==> n == 0 || (kind != 1 && kind != 6 && kind != 4)
        }),
{
}

/// The reaction is the interval that the draw falls into: with cumulative
/// probabilities in order, elastic, inelastic and fission each take the draws
/// from the end of the one before to their own, and absorption the rest.
pub proof fn the_reaction_is_where_the_draw_falls(
    xi: Real,
    p_elastic: Real,
    p_scatter: Real,
    p_any: Real,
    r: Reaction,
)
    requires
        call_ensures(select_reaction, (xi, p_elastic, p_scatter, p_any), r),
        p_elastic.le(p_scatter),
        p_scatter.le(p_any),
        !xi.is_nan_spec(),
    ensures
        r == Reaction::Elastic <==> xi.lt(p_elastic),
        r == Reaction::Inelastic <==> p_elastic.le(xi) && xi.lt(p_scatter),
        r == Reaction::Fission <==> p_scatter.le(xi) && xi.lt(p_any),
        r == Reaction::Absorption <==> p_any.le(xi),
{
}

/// The nuclide struck is the first whose running sum is above the draw, and the
/// last where none is.
pub proof fn the_draw_picks_the_nuclide(sums: &[Real], xi: Real, r: usize)
    requires
        call_ensures(select_nuclide, (sums, xi), r),
        sums.len() >= 1,
        sorted(sums@),
        !xi.is_nan_spec(),
    ensures
        r < sums.len(),
        xi.lt(sums@[r as int]) || r == sums.len() - 1,
        forall|i: int| 0 <= i < r ==> (#[trigger] sums@[i]).le(xi),
{
    let s = sums@;
    assert(sums.len() == s.len());
    lemma_reached_splits(s, xi);
    let n = sums_reached(s, xi) as int;
    assert forall|i: int| 0 <= i < r implies (#[trigger] s[i]).le(xi) by {
        assert(i < n);
    }
    if n < s.len() {
        assert(!s[n].le(xi));
        assert(!s[n].is_nan_spec());
    }
}

proof fn lemma_reached_splits(sums: Seq<Real>, xi: Real)
    requires
        sorted(sums),
        !xi.is_nan_spec(),
    ensures
        sums_reached(sums, xi) <= sums.len(),
        forall|i: int| 0 <= i < sums_reached(sums, xi) ==> (#[trigger] sums[i]).le(xi),
        forall|i: int| sums_reached(sums, xi) <= i < sums.len() ==> !(#[trigger] sums[i]).le(xi),
    decreases sums.len(),
{
    if sums.len() > 0 {
        let rest = sums.drop_last();
        assert forall|i: int| 0 <= i < rest.len() implies !(#[trigger] rest[i]).is_nan_spec() by {
            assert(!sums[i].is_nan_spec());
        }
        assert forall|i: int, j: int| 0 <= i <= j < rest.len() implies (#[trigger] rest[i]).key()
            <= (#[trigger] rest[j]).key() by {
            assert(sums[i].key() <= sums[j].key());
        }
        lemma_reached_splits(rest, xi);
        let last = sums.last();
        assert forall|i: int| 0 <= i < rest.len() && last.le(xi) implies (#[trigger] rest[i]).le(
            xi,
        ) by {
            assert(sums[i].key() <= sums[sums.len() - 1].key());
            assert(!sums[i].is_nan_spec());
        }
        if last.le(xi) {
            if sums_reached(rest, xi) < rest.len() {
                let i = sums_reached(rest, xi) as int;
                assert(!rest[i].le(xi));
            }
        }
        assert forall|i: int| 0 <= i < sums_reached(sums, xi) implies (#[trigger] sums[i]).le(
            xi,
        ) by {
            if i < rest.len() {
                assert(rest[i].le(xi));
            }
        }
        assert forall|i: int| sums_reached(sums, xi) <= i < sums.len() implies !(
        #[trigger] sums[i]).le(xi) by {
            if i < rest.len() {
                assert(!rest[i].le(xi));
            }
        }
    }
}

/// A yield is emitted as neutrons exactly where it is two or more to within
/// `1e-10`, and then as that many. A fission emits its mean number rounded up for
/// the draws below the fraction, down for the others, and of them at most eight.
pub proof fn counts_follow_the_yields(
    rounded: u32,
    deviation: Real,
    many: Option<u32>,
    n_floor: u32,
    xi: Real,
    fraction: Real,
    born: u32,
    beside: u32,
)
    requires
        call_ensures(analog_multiplicity, (rounded, deviation), many),
        n_floor < u32::MAX,
        call_ensures(progeny_count, (n_floor, xi, fraction), born),
        call_ensures(extra_progeny, (born,), beside),
    ensures
        many is Some <==> rounded >= 2 && deviation.lt(Real { bits: 0x3ddb_7cdf_d9d7_bdbb }),
        many is Some ==> many->0 == rounded,
        xi.lt(fraction) ==> born == n_floor + 1,
        !xi.lt(fraction) ==> born == n_floor,
        beside <= 7,
        0 < born <= 8 ==> beside + 1 == born,
        born > 8 ==> beside == 7,
        born == 0 ==> beside == 0,
{
}

/// Codes tell reactions apart: the same code is given to one class only, but for
/// the slot numbered 51, and to one slot of the inelastic class.
pub proof fn codes_tell_reactions_apart(
    a: Reaction,
    i: usize,
    b: Reaction,
    j: usize,
    x: i32,
    y: i32,
)
    requires
        i < 56,
        j < 56,
        call_ensures(reaction_code, (a, i), x),
        call_ensures(reaction_code, (b, j), y),
    ensures
        a == Reaction::Inelastic && b == Reaction::Inelastic ==> y - x == j - i,
        a == Reaction::Inelastic && i == 0 ==> x == 51,
        a == Reaction::Elastic ==> x == 2,
        a == Reaction::Fission ==> x == 18,
        a == Reaction::Absorption ==> x == 102,
        x == y && a != b ==> (a == Reaction::Inelastic && i == 51) || (b == Reaction::Inelastic && j
            == 51),
{
}

/// A sampled energy is used where there is one above zero, and the closed form's
/// otherwise; a Watt draw that is not above zero is a millionth of an electron
/// volt instead. A neutron survives a law where its energy is above zero, in the
/// laboratory too where the table is in the centre of mass.
pub proof fn outgoing_energies_are_above_zero_or_fall_back(
    sampled: Option<Real>,
    closed: Real,
    r: Real,
    drawn: Real,
    w: Real,
    e_cm: Real,
    in_cm: bool,
    e_lab: Real,
    alive: bool,
)
    requires
        call_ensures(outgoing_energy, (sampled, closed), r),
        call_ensures(watt_energy, (drawn,), w),
        call_ensures(kinematics_survive, (e_cm, in_cm, e_lab), alive),
    ensures
        ({
            let zero = Real { bits: 0 };
            &&& r == closed || sampled == Some(r)
            &&& sampled is Some && zero.lt(sampled->0) ==> sampled == Some(r)
            &&& sampled is None || !zero.lt(sampled->0) ==> r == closed
            &&& zero.lt(drawn) ==> w == drawn
            &&& drawn.le(zero) ==> w.bits == 0x3eb0_c6f7_a0b5_ed8d
            &&& alive ==> zero.lt(e_cm)
            &&& alive && in_cm ==> zero.lt(e_lab)
            &&& zero.lt(e_cm) && (!in_cm || zero.lt(e_lab)) ==> alive
        }),
{
}

/// A material without delayed neutrons has its prompt spectrum, and any other the
/// delayed one for the draws below the delayed fraction. Rows of different
/// materials never meet.
pub proof fn spectra_stand_in_pairs(
    mat: usize,
    beta: Real,
    xi: Option<Real>,
    row: usize,
    other: usize,
    beta2: Real,
    xi2: Option<Real>,
    row2: usize,
)
    requires
        2 * mat + 1 <= usize::MAX,
        2 * other + 1 <= usize::MAX,
        call_ensures(chi_row, (mat, beta, xi), row),
        call_ensures(chi_row, (other, beta2, xi2), row2),
    ensures
        row / 2 == mat,
        row % 2 == 1 <==> (Real { bits: 0 }).lt(beta) && xi is Some && xi->0.lt(beta),
        row == row2 ==> mat == other,
{
}

/// The motion of the target matters at a temperature above zero: for a target no
/// heavier than the neutron always, for a heavier one below the limit.
pub proof fn light_targets_move_always_and_heavy_ones_below_the_limit(
    temperature: Real,
    mass: Real,
    energy: Real,
    limit: Real,
    r: bool,
)
    requires
        call_ensures(is_free_gas, (temperature, mass, energy, limit), r),
    ensures
        ({
            let one = Real { bits: 0x3ff0_0000_0000_0000 };
            &&& r ==> (Real { bits: 0 }).lt(temperature)
            &&& (Real { bits: 0 }).lt(temperature) && mass.le(one) ==> r
            &&& (Real { bits: 0 }).lt(temperature) && one.lt(mass) ==> r == energy.lt(limit)
        }),
{
}

/// A component of a mixture is one that the mixture has, and its rows begin where
/// the rows of the components before it end.
pub proof fn components_follow_one_another(
    drawn: u32,
    n_components: u32,
    c: u32,
    base: usize,
    n_per: u32,
    first: usize,
    next: usize,
)
    requires
        n_components >= 1,
        call_ensures(clamp_component, (drawn, n_components), c),
        base + (c + 1) * n_per <= usize::MAX,
        c < u32::MAX,
        call_ensures(component_row, (base, c, n_per), first),
        call_ensures(component_row, (base, (c + 1) as u32, n_per), next),
    ensures
        c < n_components,
        drawn < n_components ==> c == drawn,
        drawn >= n_components ==> c == n_components - 1,
        next == first + n_per,
        c == 0 ==> first == base,
{
    assert((c + 1) * n_per == c * n_per + n_per) by (nonlinear_arith);
}

/// What the small questions of a collision ask: a nuclide is drawn where there is
/// more than one, a flight collides where the sampled distance is short of the
/// boundary, capture is implicit where it is switched on and something is left to
/// scatter or fission, and a spectrum is drawn where there are delayed neutrons.
pub proof fn collisions_ask_what_they_must(
    run: NuclideRun,
    nuclide: bool,
    sampled: Real,
    boundary: Real,
    collides: bool,
    enabled: bool,
    sigma_sf: Real,
    implicit: bool,
    beta: Real,
    spectrum: bool,
)
    requires
        call_ensures(draws_nuclide, (run,), nuclide),
        call_ensures(collides_first, (sampled, boundary), collides),
        call_ensures(survival_applies, (enabled, sigma_sf), implicit),
        call_ensures(draws_spectrum, (beta,), spectrum),
    ensures
        nuclide <==> run.count >= 2,
        collides <==> sampled.lt(boundary),
        implicit <==> enabled && (Real { bits: 0 }).lt(sigma_sf),
        spectrum <==> (Real { bits: 0 }).lt(beta),
{
}

/// A spectrum with a parameter is open above zero and above its restriction energy;
/// above the table an energy takes the last row, elsewhere the row it lies at.
pub proof fn spectra_open_above_their_restriction(
    parameter: Real,
    energy: Real,
    restriction: Real,
    opens: bool,
    at: Incident,
    n: usize,
    row: usize,
)
    requires
        n >= 1,
        call_ensures(spectrum_is_open, (parameter, energy, restriction), opens),
        call_ensures(incident_row, (at, n), row),
    ensures
        opens <==> (Real { bits: 0 }).lt(parameter) && restriction.lt(energy),
        at.side is Above ==> row == n - 1,
        at.side is Within || at.side is Below ==> row == at.index,
{
}

/// The parameters of a spectrum are those that its offsets point at, in order.
pub proof fn gathered_parameters_are_those_pointed_at(
    x: &[Real],
    x_offset: &[u32],
    offset: usize,
    n: usize,
    i: int,
    r: Vec<Real>,
)
    requires
        offset + n <= x_offset.len(),
        forall|k: int| offset <= k < offset + n ==> #[trigger] x_offset@[k] < x.len(),
        call_ensures(gather_theta::<Real>, (x, x_offset, offset, n), r),
        0 <= i < n,
    ensures
        r@.len() == n,
        r@[i] == x@[x_offset@[offset + i] as int],
{
}

} // verus!
