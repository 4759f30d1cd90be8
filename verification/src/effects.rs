//! What the events of a step do to a history.
//!
//! Each law names what a history is after one event, or after a few that belong
//! together, in terms of what the host handed over: where the particle is, with
//! which energy, direction and weight, whether it lives, what was recorded, and
//! what the host is asked for next.
use crate::history::{
    a_collision_leaves_the_rest_alone, collision_queues_only_its_secondaries,
    emitted_count_leaves_the_walk_its_weight, fission_walk_is_the_sampled_neutron,
    scattering_turns_and_absorption_ends, secondaries_wait_as_they_were_emitted,
    yield_that_is_no_count_becomes_weight, Collision, Secondary,
};
use crate::ieee::Real;
use crate::pend::PendDrain;
use crate::reaction::{is_first_hit, is_first_reaching, nearest_of};
use crate::transport::{Action, Event, Phase, WalkState};
use vstd::prelude::*;

verus! {

/// A collision that was entered in state `s` at `energy_in` has left `n`: the
/// particle is put to roulette where implicit capture is on and it lives below
/// the cutoff, and otherwise the step is over and counted, with one record of
/// its step, the energies and the code where the history is traced.
pub open spec fn collision_ends(
    s: WalkState,
    n: WalkState,
    action: Action,
    energy_in: Real,
    code: int,
) -> bool {
    let was = s.history;
    let h = n.history;
    let last = h.trace[was.trace.len() as int];
    if s.rules.survival_on && h.alive && h.particle.weight.lt(s.rules.weight_cutoff) {
        &&& action is DrawRoulette
        &&& n.phase is Rouletting
        &&& n.phase->Rouletting_energy_in == energy_in
        &&& n.phase->Rouletting_code == code
        &&& h.step == was.step && h.trace == was.trace
    } else {
        &&& action is Begin
        &&& n.phase is Between
        &&& h.step == was.step + 1 && h.n_steps == was.step + 1
        &&& was.tracing ==> {
            &&& h.trace.len() == was.trace.len() + 1
            &&& forall|i: int| 0 <= i < was.trace.len() ==> #[trigger] h.trace[i] == was.trace[i]
            &&& last.step == was.step && last.energy_in == energy_in && last.energy_out
                == h.particle.energy && last.reaction == code
        }
        &&& !was.tracing ==> h.trace == was.trace
    }
}

/// What no event of a step changes: the settings, the seed of the walk's stream,
/// what was lost, and the last cell.
pub open spec fn keeps_the_rest(s: WalkState, n: WalkState) -> bool {
    &&& n.rules == s.rules
    &&& n.history.max_steps == s.history.max_steps && n.history.tracing == s.history.tracing
        && n.history.drain == s.history.drain
    &&& n.history.walk_seed == s.history.walk_seed
    &&& n.history.lost == s.history.lost && n.history.last_cell == s.history.last_cell
    &&& n.history.band == s.history.band
}

proof fn lemma_collision_ends(s: WalkState, c: Collision, energy_in: Real, code: i32)
    requires
        0 <= s.history.step <= u32::MAX,
    ensures
        ({
            let (n, a) = s.after_collision(c, energy_in, code);
            &&& collision_ends(s, n, a, energy_in, code as int)
            &&& keeps_the_rest(s, n)
            &&& n.history.particle == s.history.collided(c).particle
            &&& n.history.alive == s.history.collided(c).alive
            &&& n.history.pend == s.history.collided(c).pend
            &&& n.history.spilled == s.history.collided(c).spilled
            &&& n.history.depth == s.history.collided(c).depth
            &&& n.history.walk_secondaries == s.history.collided(c).walk_secondaries
        }),
{
    reveal(WalkState::after_collision);
    a_collision_leaves_the_rest_alone(s.history, c);
}

/// A step begins: a walk that lives and has steps left goes on as it is. One that
/// has ended gives way to the next queued secondary, whose own stream is started,
/// and without one the history is over.
pub proof fn beginning_goes_on_resumes_or_finishes(s: WalkState)
    requires
        s.phase is Between,
    ensures
        ({
            let (n, a) = s.next(Event::Begin);
            let h = s.history;
            let i = if h.drain == PendDrain::Fifo {
                0
            } else {
                h.pend.len() - 1
            };
            &&& h.alive && h.step < h.max_steps ==> a is Locate && n.history == h && n.phase
                is AtPoint
            &&& !(h.alive && h.step < h.max_steps) && h.pend.len() == 0 ==> a is Finished
                && n.history == h && n.phase is Over
            &&& !(h.alive && h.step < h.max_steps) && h.pend.len() > 0 ==> {
                &&& a is Resume && a->Resume_seed == h.pend[i].seed
                &&& n.phase is AtPoint
                &&& n.history.particle == h.pend[i].particle
                &&& n.history.walk_seed == h.pend[i].seed
                &&& n.history.pend == h.pend.remove(i)
                &&& n.history.alive && n.history.step == 0 && n.history.walk_secondaries == 0
                &&& n.history.band is None
                &&& n.history.lost == h.lost && n.history.trace == h.trace
                &&& n.history.spilled == h.spilled && n.history.depth == h.depth
                &&& n.history.n_steps == h.n_steps
            }
            &&& n.rules == s.rules
        }),
{
}

/// A point in no cell loses the walk there and then: it is recorded, ended, and
/// its step is counted. Any other cell is noted and flown in, and nothing else
/// changes.
pub proof fn locating_loses_or_flies(s: WalkState, cell: u32)
    requires
        s.phase is AtPoint,
    ensures
        ({
            let (n, a) = s.next(Event::Cell { cell });
            let h = s.history;
            &&& cell == 0xffff_ffff ==> {
                &&& a is Begin && n.phase is Between
                &&& !n.history.alive
                &&& n.history.step == h.step + 1 && n.history.n_steps == h.step + 1
                &&& n.history.lost.len() == h.lost.len() + 1
                &&& n.history.lost[h.lost.len() as int].energy == h.particle.energy
                &&& n.history.lost[h.lost.len() as int].last_cell_index == h.last_cell
                &&& n.history.particle == h.particle && n.history.pend == h.pend
                &&& n.history.trace == h.trace
            }
            &&& cell != 0xffff_ffff ==> {
                &&& a is Fly && a->Fly_cell == cell
                &&& n.phase is InCell
                &&& n.history.last_cell == Some(cell as usize)
                &&& n.history.particle == h.particle && n.history.alive == h.alive
                &&& n.history.step == h.step && n.history.pend == h.pend
                &&& n.history.lost == h.lost && n.history.trace == h.trace
                &&& n.history.band == h.band
            }
        }),
{
}

/// A flight goes to what comes first: to the collision where it was sampled
/// nearer than every surface, and otherwise to a surface that no other is nearer
/// than, the first of equals. With no surface nearer than the distance that
/// stands for none, it flies that distance.
pub proof fn a_flight_goes_to_what_comes_first(s: WalkState, sampled: Real, hits: Vec<Real>)
    requires
        s.phase is InCell,
    ensures
        ({
            let (n, a) = s.next(Event::Flight { sampled, hits });
            let none = Real { bits: 0x4629_3e59_39a0_8cea };
            let hs = hits@;
            &&& a is Move && n.phase is Moving
            &&& n.history == s.history
            &&& n.phase->Moving_collides == a->Move_collides
            &&& a->Move_collides ==> a->distance == sampled && sampled.le(none) && forall|i: int|
                0 <= i < hs.len() && !hs[i].is_nan_spec() ==> sampled.lt(#[trigger] hs[i])
            &&& !a->Move_collides ==> {
                let k = n.phase->Moving_surface as int;
                &&& !sampled.lt(a->distance)
                &&& forall|i: int| 0 <= i < hs.len() ==> !(#[trigger] hs[i]).lt(a->distance)
                &&& (exists|i: int| 0 <= i < hs.len() && (#[trigger] hs[i]).lt(none)) ==> {
                    &&& hs.len() <= usize::MAX ==> 0 <= k < hs.len() && a->distance == hs[k]
                        && forall|i: int|
                        0 <= i < k && !hs[i].is_nan_spec() ==> hs[k].lt(#[trigger] hs[i])
                }
                &&& !(exists|i: int| 0 <= i < hs.len() && (#[trigger] hs[i]).lt(none))
                    ==> a->distance == none && k == 0
            }
        }),
{
    lemma_nearest(hits@);
    assert(hits.len() == hits@.len());
}

proof fn lemma_nearest(hits: Seq<Real>)
    ensures
        ({
            let none = Real { bits: 0x4629_3e59_39a0_8cea };
            let near = nearest_of(hits);
            &&& !near.distance.is_nan_spec() && near.distance.le(none)
            &&& forall|i: int| 0 <= i < hits.len() ==> !(#[trigger] hits[i]).lt(near.distance)
            &&& (exists|i: int| 0 <= i < hits.len() && (#[trigger] hits[i]).lt(none)) ==> exists|
                s: int,
            | #[trigger]
                is_first_hit(hits, s)
            &&& !(exists|i: int| 0 <= i < hits.len() && (#[trigger] hits[i]).lt(none))
                ==> near.distance == none && near.surface == 0
        }),
{
    let none = Real { bits: 0x4629_3e59_39a0_8cea };
    if exists|i: int| 0 <= i < hits.len() && (#[trigger] hits[i]).lt(none) {
        lemma_some_first_hit(hits, hits.len() as int);
        let s = choose|s: int| is_first_hit(hits, s);
        assert(is_first_hit(hits, s));
    } else {
        if exists|s: int| is_first_hit(hits, s) {
            let s = choose|s: int| is_first_hit(hits, s);
            assert(hits[s].lt(none));
        }
    }
}

/// Among the first `n` distances one is the first of the nearest, if any is
/// nearer than none.
proof fn lemma_some_first_hit(hits: Seq<Real>, n: int)
    requires
        0 <= n <= hits.len(),
    ensures
        (exists|i: int| 0 <= i < n && (#[trigger] hits[i]).lt(
            Real { bits: 0x4629_3e59_39a0_8cea },
        )) ==> exists|s: int| #[trigger] is_first_hit(hits.take(n), s),
        n == hits.len() && (exists|i: int| 0 <= i < n && (#[trigger] hits[i]).lt(
            Real { bits: 0x4629_3e59_39a0_8cea },
        )) ==> exists|s: int| #[trigger] is_first_hit(hits, s),
    decreases n,
{
    let none = Real { bits: 0x4629_3e59_39a0_8cea };
    let all = hits.take(n);
    if exists|i: int| 0 <= i < n && (#[trigger] hits[i]).lt(none) {
        let i = choose|i: int| 0 <= i < n && (#[trigger] hits[i]).lt(none);
        lemma_some_first_hit(hits, n - 1);
        let fewer = hits.take(n - 1);
        let last = hits[n - 1];
        if exists|j: int| 0 <= j < n - 1 && (#[trigger] hits[j]).lt(none) {
            let s = choose|s: int| #[trigger] is_first_hit(fewer, s);
            assert(is_first_hit(fewer, s));
            if last.lt(fewer[s]) {
                assert forall|j: int| 0 <= j < all.len() implies !(#[trigger] all[j]).lt(last) by {
                    if j < n - 1 {
                        assert(all[j] == fewer[j]);
                        assert(!fewer[j].lt(fewer[s]));
                    }
                }
                assert forall|j: int| 0 <= j < n - 1 implies last.lt(#[trigger] all[j])
                    || all[j].is_nan_spec() by {
                    assert(all[j] == fewer[j]);
                    assert(!fewer[j].lt(fewer[s]));
                }
                assert(is_first_hit(all, n - 1));
            } else {
                assert forall|j: int| 0 <= j < all.len() implies !(#[trigger] all[j]).lt(
                    all[s],
                ) by {
                    if j < n - 1 {
                        assert(all[j] == fewer[j]);
                    }
                }
                assert forall|j: int| 0 <= j < s implies all[s].lt(#[trigger] all[j])
                    || all[j].is_nan_spec() by {
                    assert(all[j] == fewer[j]);
                }
                assert(is_first_hit(all, s));
            }
        } else {
            assert(i == n - 1);
            assert forall|j: int| 0 <= j < all.len() implies !(#[trigger] all[j]).lt(last) by {
                if j < n - 1 {
                    assert(!hits[j].lt(none));
                }
            }
            assert forall|j: int| 0 <= j < n - 1 implies last.lt(#[trigger] all[j])
                || all[j].is_nan_spec() by {
                assert(!hits[j].lt(none));
            }
            assert(is_first_hit(all, n - 1));
        }
        if n == hits.len() {
            assert(all =~= hits);
        }
    }
}

/// The particle arrives where the host moved it, and nowhere else does it
/// change: at a collision, entered at its energy, or at the surface that the
/// flight was to.
pub proof fn a_move_ends_at_the_collision_or_the_surface(s: WalkState, px: Real, py: Real, pz: Real)
    requires
        s.phase is Moving,
    ensures
        ({
            let (n, a) = s.next(Event::Moved { px, py, pz });
            let p = n.history.particle;
            let q = s.history.particle;
            &&& p.px == px && p.py == py && p.pz == pz
            &&& p.energy == q.energy && p.weight == q.weight && p.dx == q.dx && p.dy == q.dy
                && p.dz == q.dz
            &&& s.phase->Moving_collides ==> a is Strike && n.phase is Struck
                && n.phase->Struck_energy_in == q.energy
            &&& !s.phase->Moving_collides ==> a is Cross && a->Cross_surface
                == s.phase->Moving_surface && n.phase is AtSurface
            &&& n.history.alive == s.history.alive && n.history.step == s.history.step
            &&& n.history.pend == s.history.pend && n.history.trace == s.history.trace
            &&& n.history.walk_secondaries == s.history.walk_secondaries
            &&& keeps_the_rest(s, n)
        }),
{
}

/// A vacuum boundary ends the walk where it is; any other lets it through to the
/// point past the surface, alive. Either way the step is over and counted.
pub proof fn a_surface_ends_the_walk_or_lets_it_through(
    s: WalkState,
    boundary: u32,
    px: Real,
    py: Real,
    pz: Real,
)
    requires
        s.phase is AtSurface,
    ensures
        ({
            let (n, a) = s.next(Event::Crossed { boundary, px, py, pz });
            let p = n.history.particle;
            let q = s.history.particle;
            &&& a is Begin && n.phase is Between
            &&& n.history.step == s.history.step + 1 && n.history.n_steps == s.history.step + 1
            &&& boundary == 1 ==> !n.history.alive && p == q
            &&& boundary != 1 ==> {
                &&& n.history.alive == s.history.alive
                &&& p.px == px && p.py == py && p.pz == pz
                &&& p.energy == q.energy && p.weight == q.weight && p.dx == q.dx && p.dy == q.dy
                    && p.dz == q.dz
            }
            &&& n.history.pend == s.history.pend && n.history.trace == s.history.trace
            &&& keeps_the_rest(s, n)
        }),
{
}

/// Capture is implicit where it is switched on and there is something to scatter
/// into or to fission. The collision keeps the energy it was entered at.
pub proof fn capture_is_implicit_where_something_is_left(s: WalkState, sigma_sf: Real)
    requires
        s.phase is Struck,
    ensures
        ({
            let (n, a) = s.next(Event::Partials { sigma_sf });
            &&& a is Split && n.phase is Splitting
            &&& a->implicit <==> s.rules.survival_on && (Real { bits: 0 }).lt(sigma_sf)
            &&& n.phase->Splitting_implicit == a->implicit
            &&& n.phase->Splitting_energy_in == s.phase->Struck_energy_in
            &&& n.history == s.history && n.rules == s.rules
        }),
{
}

/// The draw picks the reaction by where it falls among the cumulative
/// probabilities: elastic below the first, inelastic from there to the second,
/// fission from there to the third, absorption past it. Implicit capture sets the
/// discounted weight first, and otherwise the weight stays.
pub proof fn the_draw_picks_the_reaction(
    s: WalkState,
    weight: Real,
    p_elastic: Real,
    p_scatter: Real,
    p_any: Real,
    xi: Real,
)
    requires
        s.phase is Splitting,
        0 <= s.history.step <= u32::MAX,
        p_elastic.le(p_scatter),
        p_scatter.le(p_any),
        !xi.is_nan_spec(),
    ensures
        ({
            let (n, a) = s.next(Event::Thresholds { weight, p_elastic, p_scatter, p_any, xi });
            let p = n.history.particle;
            let q = s.history.particle;
            let energy_in = s.phase->Splitting_energy_in;
            &&& s.phase->Splitting_implicit ==> p.weight == weight
            &&& !s.phase->Splitting_implicit ==> p.weight == q.weight
            &&& p.energy == q.energy && p.px == q.px && p.py == q.py && p.pz == q.pz && p.dx
                == q.dx && p.dy == q.dy && p.dz == q.dz
            &&& xi.lt(p_elastic) <==> a is ScatterElastically && n.phase is Scattering
                && n.phase->Scattering_energy_in == energy_in
            &&& p_elastic.le(xi) && xi.lt(p_scatter) <==> a is FindSlot && n.phase is Slotting
                && n.phase->Slotting_energy_in == energy_in
            &&& p_scatter.le(xi) && xi.lt(p_any) && s.rules.fission_bank <==> a is CountProgeny
                && n.phase is Counting && n.phase->Counting_energy_in == energy_in
            &&& p_scatter.le(xi) && xi.lt(p_any) && !s.rules.fission_bank <==> a is Fission
                && n.phase is Fissioning && n.phase->Fissioning_energy_in == energy_in
            &&& p_any.le(xi) ==> !n.history.alive && a is Begin && collision_ends(
                s,
                n,
                a,
                energy_in,
                102,
            )
            &&& xi.lt(p_any) ==> n.history.alive == s.history.alive && n.history.step
                == s.history.step && n.history.trace == s.history.trace
            &&& n.history.pend == s.history.pend
            &&& keeps_the_rest(s, n)
        }),
{
    match s.phase {
        Phase::Splitting { energy_in, implicit } => {
            let h = if implicit {
                s.history.with_weight(weight)
            } else {
                s.history
            };
            let t = s.at(h, s.phase);
            lemma_collision_ends(t, Collision::Absorption, energy_in, 102i32);
            scattering_turns_and_absorption_ends(h, Collision::Absorption);
            secondaries_wait_as_they_were_emitted(h, Collision::Absorption, 0);
        },
        _ => {},
    }
}

/// An elastic scattering leaves the particle at the sampled energy in the sampled
/// direction, where it was and as heavy as it was, and is recorded with code 2.
pub proof fn scattering_follows_the_sample(
    s: WalkState,
    energy: Real,
    dx: Real,
    dy: Real,
    dz: Real,
)
    requires
        s.phase is Scattering,
        0 <= s.history.step <= u32::MAX,
    ensures
        ({
            let (n, a) = s.next(Event::Scattered { energy, dx, dy, dz });
            let p = n.history.particle;
            let q = s.history.particle;
            &&& p.energy == energy && p.dx == dx && p.dy == dy && p.dz == dz
            &&& p.px == q.px && p.py == q.py && p.pz == q.pz && p.weight == q.weight
            &&& n.history.alive == s.history.alive
            &&& n.history.pend == s.history.pend
            &&& collision_ends(s, n, a, s.phase->Scattering_energy_in, 2)
            &&& keeps_the_rest(s, n)
        }),
{
    match s.phase {
        Phase::Scattering { energy_in } => {
            let c = Collision::Elastic { energy, dx, dy, dz };
            lemma_collision_ends(s, c, energy_in, 2i32);
            scattering_turns_and_absorption_ends(s.history, c);
            a_collision_leaves_the_rest_alone(s.history, c);
            secondaries_wait_as_they_were_emitted(s.history, c, 0);
        },
        _ => {},
    }
}

/// An inelastic collision falls to the first slot whose running sum is not below
/// the target, and to slot 40, the continuum, where none reaches it.
pub proof fn the_target_picks_the_slot(s: WalkState, sums: Vec<Real>, target: Real)
    requires
        s.phase is Slotting,
        sums@.len() == 56,
    ensures
        ({
            let (n, a) = s.next(Event::Slots { sums, target });
            let k = a->FindYield_slot as int;
            &&& a is FindYield && n.phase is Yielding
            &&& n.phase->Yielding_slot == k && n.phase->Yielding_energy_in
                == s.phase->Slotting_energy_in
            &&& n.history == s.history && n.rules == s.rules
            &&& 0 <= k < 56
            &&& forall|i: int| 0 <= i < 56 && target.le(#[trigger] sums@[i]) ==> k <= i
                && target.le(sums@[k])
            &&& (forall|i: int| 0 <= i < 56 ==> !target.le(#[trigger] sums@[i])) ==> k == 40
        }),
{
    lemma_first_reaching(sums@, target, 56);
    if exists|t: int| is_first_reaching(sums@, target, t) {
        let t = choose|t: int| is_first_reaching(sums@, target, t);
        assert(is_first_reaching(sums@, target, t));
    }
}

/// If a sum among the first `n` reaches the target, one is the first to.
proof fn lemma_first_reaching(sums: Seq<Real>, target: Real, n: int)
    requires
        0 <= n <= sums.len(),
    ensures
        (exists|i: int| 0 <= i < n && target.le(#[trigger] sums[i])) ==> exists|t: int| #[trigger]
            is_first_reaching(sums, target, t),
    decreases n,
{
    if n > 0 {
        lemma_first_reaching(sums, target, n - 1);
        if !(exists|i: int| 0 <= i < n - 1 && target.le(#[trigger] sums[i])) && target.le(
            sums[n - 1],
        ) {
            assert(is_first_reaching(sums, target, n - 1));
        }
    }
}

/// A yield that is no count reaches the walk as weight. Where the yield is not
/// two or more to within `1e-10`, no neutron is emitted beside the walk, and the
/// walk goes on with the weight that the host handed over with the yield, at the
/// sampled energy in the sampled direction. More than a thousand of weight, or
/// failed kinematics, ends it. The record has the code of the slot.
pub proof fn a_fractional_yield_reaches_the_walk_as_weight(
    s: WalkState,
    rounded: u32,
    deviation: Real,
    weight: Real,
    walk_energy: Option<Real>,
    dx: Real,
    dy: Real,
    dz: Real,
    none: Vec<Secondary>,
)
    requires
        s.phase is Yielding,
        s.phase->Yielding_slot < 56,
        0 <= s.history.step <= u32::MAX,
        rounded < 2 || !deviation.lt(Real { bits: 0x3ddb_7cdf_d9d7_bdbb }),
        none@.len() == 0,
    ensures
        ({
            let slot = s.phase->Yielding_slot;
            let (m, asked) = s.next(Event::Yield { rounded, deviation, weight });
            let (n, a) = m.next(
                Event::Emitted { walk_energy, dx, dy, dz, secondaries: none },
            );
            let p = n.history.particle;
            let q = s.history.particle;
            &&& asked is Emit && asked->Emit_slot == slot && asked->Emit_extra == 0
            &&& m.history == s.history
            &&& p.weight == weight
            &&& p.dx == dx && p.dy == dy && p.dz == dz
            &&& p.px == q.px && p.py == q.py && p.pz == q.pz
            &&& (walk_energy matches Some(e) ==> p.energy == e)
            &&& n.history.alive <==> s.history.alive && walk_energy is Some && !(Real {
                bits: 0x408f_4000_0000_0000,
            }).lt(weight)
            &&& n.history.pend == s.history.pend
            &&& collision_ends(s, n, a, s.phase->Yielding_energy_in, 51 + slot)
            &&& keeps_the_rest(s, n)
        }),
{
    match s.phase {
        Phase::Yielding { energy_in, slot } => {
            let m = s.next(Event::Yield { rounded, deviation, weight }).0;
            let c = Collision::Weighted { weight, walk_energy, dx, dy, dz };
            lemma_collision_ends(m, c, energy_in, (51 + slot) as i32);
            yield_that_is_no_count_becomes_weight(s.history, c);
            a_collision_leaves_the_rest_alone(s.history, c);
            secondaries_wait_as_they_were_emitted(s.history, c, 0);
        },
        _ => {},
    }
}

/// A yield that is a count of two or more is emitted as that many neutrons. The
/// host is asked for all but one beside the walk; the walk keeps its weight and
/// goes on at the sampled energy in the sampled direction, and the others wait
/// in the queue behind what waited before. More neutrons than the count are
/// refused.
pub proof fn a_counted_yield_is_emitted(
    s: WalkState,
    rounded: u32,
    deviation: Real,
    weight: Real,
    walk_energy: Option<Real>,
    dx: Real,
    dy: Real,
    dz: Real,
    secondaries: Vec<Secondary>,
)
    requires
        s.phase is Yielding,
        s.phase->Yielding_slot < 56,
        0 <= s.history.step <= u32::MAX,
        rounded >= 2 && deviation.lt(Real { bits: 0x3ddb_7cdf_d9d7_bdbb }),
    ensures
        ({
            let slot = s.phase->Yielding_slot;
            let (m, asked) = s.next(Event::Yield { rounded, deviation, weight });
            let (n, a) = m.next(Event::Emitted { walk_energy, dx, dy, dz, secondaries });
            let p = n.history.particle;
            let q = s.history.particle;
            &&& asked is Emit && asked->Emit_slot == slot && asked->Emit_extra == rounded - 1
            &&& m.history == s.history
            &&& secondaries@.len() > rounded - 1 ==> a is Unexpected && n == m
            &&& secondaries@.len() <= rounded - 1 ==> {
                &&& p.weight == q.weight
                &&& p.dx == dx && p.dy == dy && p.dz == dz
                &&& p.px == q.px && p.py == q.py && p.pz == q.pz
                &&& (walk_energy matches Some(e) ==> p.energy == e)
                &&& n.history.alive <==> s.history.alive && walk_energy is Some
                &&& n.history.pend.len() == s.history.pend.len() + secondaries@.len()
                &&& n.history.pend.take(s.history.pend.len() as int) == s.history.pend
                &&& n.history.walk_secondaries == s.history.walk_secondaries + secondaries@.len()
                &&& collision_ends(s, n, a, s.phase->Yielding_energy_in, 51 + slot)
                &&& keeps_the_rest(s, n)
            }
        }),
{
    match s.phase {
        Phase::Yielding { energy_in, slot } => {
            let m = s.next(Event::Yield { rounded, deviation, weight }).0;
            let c = Collision::Multiple { walk_energy, dx, dy, dz, secondaries };
            lemma_collision_ends(m, c, energy_in, (51 + slot) as i32);
            emitted_count_leaves_the_walk_its_weight(s.history, c);
            a_collision_leaves_the_rest_alone(s.history, c);
            secondaries_wait_as_they_were_emitted(s.history, c, 0);
            assert(s.history.collided(c).pend.take(s.history.pend.len() as int)
                =~= s.history.pend);
        },
        _ => {},
    }
}

/// A fission that multiplies the weight leaves the walk as a fission neutron: at
/// the sampled energy in the sampled direction, with the weight handed over. More
/// than a thousand of it ends the walk. It is recorded with code 18.
pub proof fn weighted_fission_leaves_a_fission_neutron(
    s: WalkState,
    weight: Real,
    energy: Real,
    dx: Real,
    dy: Real,
    dz: Real,
)
    requires
        s.phase is Fissioning,
        0 <= s.history.step <= u32::MAX,
    ensures
        ({
            let (n, a) = s.next(Event::Fissioned { weight, energy, dx, dy, dz });
            let p = n.history.particle;
            let q = s.history.particle;
            &&& p.energy == energy && p.weight == weight
            &&& p.dx == dx && p.dy == dy && p.dz == dz
            &&& p.px == q.px && p.py == q.py && p.pz == q.pz
            &&& n.history.alive <==> s.history.alive && !(Real {
                bits: 0x408f_4000_0000_0000,
            }).lt(weight)
            &&& n.history.pend == s.history.pend
            &&& collision_ends(s, n, a, s.phase->Fissioning_energy_in, 18)
            &&& keeps_the_rest(s, n)
        }),
{
    match s.phase {
        Phase::Fissioning { energy_in } => {
            let c = Collision::FissionWeighted { weight, energy, dx, dy, dz };
            lemma_collision_ends(s, c, energy_in, 18i32);
            fission_walk_is_the_sampled_neutron(s.history, c);
            a_collision_leaves_the_rest_alone(s.history, c);
        },
        _ => {},
    }
}

/// A fission that branches emits its mean number of neutrons rounded down, or up
/// where the draw falls below the fraction, and never more than eight. The walk
/// goes on as the first, at the sampled fission energy in the sampled direction
/// and with its own weight; the others wait in the queue behind what waited
/// before. Without a neutron the walk ends. It is recorded with code 18.
pub proof fn branching_fission_goes_on_as_its_first_neutron(
    s: WalkState,
    n_floor: u32,
    xi: Real,
    fraction: Real,
    energy: Real,
    dx: Real,
    dy: Real,
    dz: Real,
    progeny: Vec<Secondary>,
)
    requires
        s.phase is Counting,
        0 <= s.history.step <= u32::MAX,
        n_floor < u32::MAX,
    ensures
        ({
            let born = if xi.lt(fraction) {
                n_floor + 1
            } else {
                n_floor as int
            };
            let beside = if born == 0 {
                0
            } else if born <= 8 {
                born - 1
            } else {
                7
            };
            let (m, asked) = s.next(Event::MeanProgeny { n_floor, xi, fraction });
            let (n, a) = m.next(Event::Branched { energy, dx, dy, dz, progeny });
            let p = n.history.particle;
            let q = s.history.particle;
            &&& asked is EmitProgeny && asked->EmitProgeny_extra == beside
            &&& m.history == s.history
            &&& progeny@.len() != beside ==> a is Unexpected && n == m
            &&& progeny@.len() == beside ==> {
                &&& p.energy == energy
                &&& p.dx == dx && p.dy == dy && p.dz == dz
                &&& p.px == q.px && p.py == q.py && p.pz == q.pz && p.weight == q.weight
                &&& n.history.alive <==> s.history.alive && born > 0
                &&& n.history.pend.len() == s.history.pend.len() + beside
                &&& n.history.pend.take(s.history.pend.len() as int) == s.history.pend
                &&& n.history.walk_secondaries == s.history.walk_secondaries + beside
                &&& n.history.spilled == s.history.spilled && n.history.depth == s.history.depth
                &&& collision_ends(s, n, a, s.phase->Counting_energy_in, 18)
                &&& keeps_the_rest(s, n)
            }
        }),
{
    match s.phase {
        Phase::Counting { energy_in } => {
            let m = s.next(Event::MeanProgeny { n_floor, xi, fraction }).0;
            let n_progeny: u32 = m.phase->Branching_n_progeny;
            let c = Collision::FissionBanked { n_progeny, energy, dx, dy, dz, progeny };
            lemma_collision_ends(m, c, energy_in, 18i32);
            fission_walk_is_the_sampled_neutron(s.history, c);
            a_collision_leaves_the_rest_alone(s.history, c);
            secondaries_wait_as_they_were_emitted(s.history, c, 0);
            collision_queues_only_its_secondaries(s.history, c);
            crate::history::fission_progeny_take_no_register_slot(s.history, progeny@);
            assert(s.history.collided(c).pend.take(s.history.pend.len() as int)
                =~= s.history.pend);
        },
        _ => {},
    }
}

/// Roulette ends the collision: a draw below the survival probability leaves the
/// particle at the survivor weight, any other ends it. The record has the code
/// and the energy of the collision.
pub proof fn roulette_ends_the_collision(s: WalkState, survival: Real, xi: Real)
    requires
        s.phase is Rouletting,
        0 <= s.history.step <= u32::MAX,
    ensures
        ({
            let (n, a) = s.next(Event::Roulette { survival, xi });
            let was = s.history;
            let h = n.history;
            let last = h.trace[was.trace.len() as int];
            &&& a is Begin && n.phase is Between
            &&& xi.lt(survival) ==> h.particle.weight == s.rules.weight_survive
            &&& xi.lt(survival) && (Real { bits: 0 }).lt(s.rules.weight_survive) ==> h.alive
                == was.alive
            &&& !xi.lt(survival) ==> !h.alive
            &&& h.particle.energy == was.particle.energy && h.particle.px == was.particle.px
                && h.particle.dx == was.particle.dx
            &&& h.step == was.step + 1 && h.n_steps == was.step + 1
            &&& was.tracing ==> h.trace.len() == was.trace.len() + 1 && last.step == was.step
                && last.energy_in == s.phase->Rouletting_energy_in && last.energy_out
                == was.particle.energy && last.reaction == s.phase->Rouletting_code
            &&& !was.tracing ==> h.trace == was.trace
            &&& h.pend == was.pend
            &&& keeps_the_rest(s, n)
        }),
{
}

/// The event answers what the walk last asked for, and brings as much as was asked:
/// all fifty-six sums for a slot, no more secondaries than the yield allows, and as
/// many progeny as were to be emitted.
pub open spec fn is_awaited(phase: Phase, event: Event) -> bool {
    ||| phase is Between && event is Begin
    ||| phase is AtPoint && event is Cell
    ||| phase is InCell && event is Flight
    ||| phase is Moving && event is Moved
    ||| phase is AtSurface && event is Crossed
    ||| phase is Struck && event is Partials
    ||| phase is Splitting && event is Thresholds
    ||| phase is Scattering && event is Scattered
    ||| phase is Slotting && event is Slots && event->sums@.len() == 56
    ||| phase is Yielding && event is Yield
    ||| phase is Emitting && event is Emitted && (event->secondaries@.len() == 0
        || phase->n_out is Some && event->secondaries@.len() < phase->n_out->0)
    ||| phase is Fissioning && event is Fissioned
    ||| phase is Counting && event is MeanProgeny && event->n_floor < u32::MAX
    ||| phase is Branching && event is Branched && event->progeny@.len() == phase->extra
    ||| phase is Rouletting && event is Roulette
}

/// A walk takes the event it waits for and no other; any other changes nothing.
pub proof fn only_the_awaited_event_is_taken(s: WalkState, event: Event)
    requires
        s.phase is Emitting && s.phase->n_out is Some ==> s.phase->n_out->0 >= 1,
    ensures
        s.next(event).1 is Unexpected <==> !is_awaited(s.phase, event),
        !is_awaited(s.phase, event) ==> s.next(event).0 == s,
{
    reveal(WalkState::after_collision);
}

} // verus!
