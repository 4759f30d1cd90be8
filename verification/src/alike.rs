//! What a walk's next move depends on.
//!
//! Within a step a history looks at nothing but the walk under way: not at what
//! is queued, spilled or lost, nor at its trace.
use crate::history::{
    collision_queues_only_its_secondaries, Collision, HistoryState, Secondary,
};
use crate::ieee::Real;
use crate::layout::CELL_NOT_FOUND;
use crate::pend::PendDrain;
use crate::reaction::{reaction_for, Reaction};
use crate::transport::{code_of, Action, Event, Phase, WalkState};
use vstd::prelude::*;

verus! {

/// The history as if it had never been traced.
pub open spec fn untraced_history(h: HistoryState) -> HistoryState {
    HistoryState { tracing: false, trace: Seq::empty(), ..h }
}

pub open spec fn untraced(s: WalkState) -> WalkState {
    WalkState { history: untraced_history(s.history), ..s }
}

/// What the walk of a history depends on: the particle and the walk's own
/// counts. All else is cleared.
pub open spec fn own_history(h: HistoryState) -> HistoryState {
    HistoryState {
        drain: PendDrain::Fifo,
        n_steps: 0,
        pend: Seq::empty(),
        spilled: 0,
        depth: 0,
        last_cell: None,
        lost: Seq::empty(),
        tracing: false,
        trace: Seq::empty(),
        ..h
    }
}

pub open spec fn own_part(s: WalkState) -> WalkState {
    WalkState { history: own_history(s.history), ..s }
}

proof fn lemma_queued(h: HistoryState, q: Seq<Secondary>, nxn: bool)
    ensures
        untraced_history(h.queued_all(q, nxn)) == untraced_history(h).queued_all(q, nxn),
        own_history(h.queued_all(q, nxn)) == own_history(own_history(h).queued_all(q, nxn)),
        h.queued_all(q, nxn).lost == h.lost,
    decreases q.len(),
{
    if q.len() > 0 {
        lemma_queued(h, q.drop_last(), nxn);
        let a = h.queued_all(q.drop_last(), nxn);
        let b = own_history(h).queued_all(q.drop_last(), nxn);
        assert(own_history(a.queued(q.last(), nxn)) == own_history(b.queued(q.last(), nxn)));
        assert(untraced_history(a.queued(q.last(), nxn)) == untraced_history(a).queued(
            q.last(),
            nxn,
        ));
    }
}

#[verifier::rlimit(40)]
proof fn lemma_collided(h: HistoryState, c: Collision)
    ensures
        untraced_history(h.collided(c)) == untraced_history(h).collided(c),
        own_history(h.collided(c)) == own_history(own_history(h).collided(c)),
        h.collided(c).pend == h.pend + own_history(h).collided(c).pend,
        h.collided(c).lost == h.lost,
        own_history(h).collided(c).lost.len() == 0,
{
    collision_queues_only_its_secondaries(h, c);
    collision_queues_only_its_secondaries(own_history(h), c);
    match c {
        Collision::Multiple { walk_energy, dx, dy, dz, secondaries } => {
            lemma_queued(h, secondaries@, true);
            lemma_queued(own_history(h), secondaries@, true);
            assert(h.entries_of(secondaries@, true) =~= own_history(h).entries_of(
                secondaries@,
                true,
            ));
        },
        Collision::FissionBanked { n_progeny, energy, dx, dy, dz, progeny } => {
            lemma_queued(h, progeny@, false);
            lemma_queued(own_history(h), progeny@, false);
            assert(h.entries_of(progeny@, false) =~= own_history(h).entries_of(progeny@, false));
        },
        _ => {},
    }
    assert(h.collided(c).pend =~= h.pend + own_history(h).collided(c).pend);
}

/// Both states answer an event alike: one knows all, the other only the walk.
pub open spec fn own_course(s: WalkState, n: (WalkState, Action), o: (WalkState, Action)) -> bool {
    &&& n.1 == o.1
    &&& own_part(n.0) == own_part(o.0)
    &&& n.0.history.pend == s.history.pend + o.0.history.pend
    &&& n.0.history.lost.len() == s.history.lost.len() + o.0.history.lost.len()
}

#[verifier::rlimit(40)]
proof fn lemma_own_collision(s: WalkState, c: Collision, energy_in: Real, code: i32)
    ensures
        own_course(
            s,
            s.after_collision(c, energy_in, code),
            own_part(s).after_collision(c, energy_in, code),
        ),
        untraced(s.after_collision(c, energy_in, code).0) == untraced(s).after_collision(
            c,
            energy_in,
            code,
        ).0,
        s.after_collision(c, energy_in, code).1 == untraced(s).after_collision(
            c,
            energy_in,
            code,
        ).1,
{
    reveal(WalkState::after_collision);
    lemma_collided(s.history, c);
    lemma_collided(own_history(s.history), c);
    let a = s.history.collided(c);
    let b = own_history(s.history).collided(c);
    assert(own_history(a) == own_history(b));
    assert(a.particle == own_history(a).particle && b.particle == own_history(b).particle);
    assert(a.alive == own_history(a).alive && b.alive == own_history(b).alive);
    assert(a.step == own_history(a).step && b.step == own_history(b).step);
    let u = untraced_history(s.history).collided(c);
    assert(a.particle == u.particle && a.alive == u.alive);
    let x = s.after_collision(c, energy_in, code).0.history;
    let y = own_part(s).after_collision(c, energy_in, code).0.history;
    assert(own_history(x) =~= own_history(y));
}

/// What follows an event, with the machine's inside hidden.
#[verifier::opaque]
pub open spec fn met(s: WalkState, event: Event) -> (WalkState, Action) {
    s.next(event)
}

/// What the event does depends on the walk alone, and not on whether it is
/// traced.
pub open spec fn answers_alike(s: WalkState, event: Event) -> bool {
    &&& own_course(s, met(s, event), met(own_part(s), event))
    &&& untraced(met(s, event).0) == met(untraced(s), event).0
    &&& met(s, event).1 == met(untraced(s), event).1
}

proof fn lemma_own_other(s: WalkState, event: Event)
    requires
        s.in_step() || s.phase is Between && s.history.running(),
        !(s.phase is Splitting),
        !(s.phase is Scattering),
        !(s.phase is Emitting),
        !(s.phase is Fissioning),
        !(s.phase is Branching),
    ensures
        answers_alike(s, event),
{
    reveal(met);
    assert(s.history.pend + Seq::empty() =~= s.history.pend);
    assert(own_part(s.next(event).0) =~= own_part(own_part(s).next(event).0));
    assert(untraced(s.next(event).0) =~= untraced(s).next(event).0);
}

proof fn lemma_own_split(
    s: WalkState,
    energy_in: Real,
    implicit: bool,
    weight: Real,
    reaction: Reaction,
)
    ensures
        own_course(
            s,
            s.split(energy_in, implicit, weight, reaction),
            own_part(s).split(energy_in, implicit, weight, reaction),
        ),
        untraced(s.split(energy_in, implicit, weight, reaction).0) == untraced(s).split(
            energy_in,
            implicit,
            weight,
            reaction,
        ).0,
        s.split(energy_in, implicit, weight, reaction).1 == untraced(s).split(
            energy_in,
            implicit,
            weight,
            reaction,
        ).1,
{
    let h2 = if implicit {
        s.history.with_weight(weight)
    } else {
        s.history
    };
    let t = s.at(h2, s.phase);
    assert(s.history.pend + Seq::empty() =~= s.history.pend);
    assert(own_part(t) =~= own_part(s).at(own_history(h2), s.phase));
    assert(untraced(t) =~= untraced(s).at(untraced_history(h2), s.phase));
    if reaction == Reaction::Absorption {
        let code = code_of(Reaction::Absorption, 0);
        lemma_own_collision(t, Collision::Absorption, energy_in, code);
    }
}

proof fn lemma_own_splitting(s: WalkState, event: Event)
    requires
        s.phase is Splitting,
    ensures
        answers_alike(s, event),
{
    reveal(met);
    assert(s.history.pend + Seq::empty() =~= s.history.pend);
    match (s.phase, event) {
        (
            Phase::Splitting { energy_in, implicit },
            Event::Thresholds { weight, p_elastic, p_scatter, p_any, xi },
        ) => {
            let reaction = reaction_for(xi, p_elastic, p_scatter, p_any);
            lemma_own_split(s, energy_in, implicit, weight, reaction);
        },
        _ => {},
    }
}

proof fn lemma_own_scattering(s: WalkState, event: Event)
    requires
        s.phase is Scattering,
    ensures
        answers_alike(s, event),
{
    reveal(met);
    assert(s.history.pend + Seq::empty() =~= s.history.pend);
    match (s.phase, event) {
        (Phase::Scattering { energy_in }, Event::Scattered { energy, dx, dy, dz }) => {
            let c = Collision::Elastic { energy, dx, dy, dz };
            lemma_own_collision(s, c, energy_in, code_of(Reaction::Elastic, 0));
        },
        _ => {},
    }
}

proof fn lemma_own_fissioning(s: WalkState, event: Event)
    requires
        s.phase is Fissioning,
    ensures
        answers_alike(s, event),
{
    reveal(met);
    assert(s.history.pend + Seq::empty() =~= s.history.pend);
    match (s.phase, event) {
        (Phase::Fissioning { energy_in }, Event::Fissioned { weight, energy, dx, dy, dz }) => {
            let c = Collision::FissionWeighted { weight, energy, dx, dy, dz };
            lemma_own_collision(s, c, energy_in, code_of(Reaction::Fission, 0));
        },
        _ => {},
    }
}

proof fn lemma_own_branching(s: WalkState, event: Event)
    requires
        s.phase is Branching,
    ensures
        answers_alike(s, event),
{
    reveal(met);
    assert(s.history.pend + Seq::empty() =~= s.history.pend);
    match (s.phase, event) {
        (
            Phase::Branching { energy_in, n_progeny, extra },
            Event::Branched { energy, dx, dy, dz, progeny },
        ) => {
            let c = Collision::FissionBanked { n_progeny, energy, dx, dy, dz, progeny };
            lemma_own_collision(s, c, energy_in, code_of(Reaction::Fission, 0));
        },
        _ => {},
    }
}

#[verifier::rlimit(40)]
proof fn lemma_own_emitting(s: WalkState, event: Event)
    requires
        s.phase is Emitting,
    ensures
        answers_alike(s, event),
{
    reveal(met);
    assert(s.history.pend + Seq::empty() =~= s.history.pend);
    match (s.phase, event) {
        (
            Phase::Emitting { energy_in, slot, n_out, weight },
            Event::Emitted { walk_energy, dx, dy, dz, secondaries },
        ) => {
            let code = code_of(Reaction::Inelastic, slot as int);
            let a = Collision::Multiple { walk_energy, dx, dy, dz, secondaries };
            let b = Collision::Weighted { weight, walk_energy, dx, dy, dz };
            lemma_own_collision(s, a, energy_in, code);
            lemma_own_collision(s, b, energy_in, code);
        },
        _ => {},
    }
}

/// Within a step, and where the next one begins, what an event does depends on
/// the walk alone, and not on whether it is traced.
pub proof fn lemma_own_next(s: WalkState, event: Event)
    requires
        s.in_step() || s.phase is Between && s.history.running(),
    ensures
        answers_alike(s, event),
{
    match s.phase {
        Phase::Splitting { .. } => lemma_own_splitting(s, event),
        Phase::Scattering { .. } => lemma_own_scattering(s, event),
        Phase::Emitting { .. } => lemma_own_emitting(s, event),
        Phase::Fissioning { .. } => lemma_own_fissioning(s, event),
        Phase::Branching { .. } => lemma_own_branching(s, event),
        _ => lemma_own_other(s, event),
    }
}

/// What a history has lost once the event is over: a walk that stands in no cell
/// is lost, and nothing else is.
#[verifier::opaque]
pub open spec fn loses_rightly(s: WalkState, event: Event) -> bool {
    met(s, event).0.history.lost == match (s.phase, event) {
        (Phase::AtPoint, Event::Cell { cell }) => if cell == CELL_NOT_FOUND {
            s.history.lost_here().lost
        } else {
            s.history.lost
        },
        _ => s.history.lost,
    }
}

proof fn lemma_collision_loses_none(s: WalkState, c: Collision, energy_in: Real, code: i32)
    ensures
        s.after_collision(c, energy_in, code).0.history.lost == s.history.lost,
{
    reveal(WalkState::after_collision);
    lemma_collided(s.history, c);
}

proof fn lemma_other_loses(s: WalkState, event: Event)
    requires
        !(s.phase is Splitting),
        !(s.phase is Scattering),
        !(s.phase is Emitting),
        !(s.phase is Fissioning),
        !(s.phase is Branching),
    ensures
        loses_rightly(s, event),
{
    reveal(met);
    reveal(loses_rightly);
}

proof fn lemma_splitting_loses(s: WalkState, event: Event)
    requires
        s.phase is Splitting,
    ensures
        loses_rightly(s, event),
{
    reveal(met);
    reveal(loses_rightly);
    match (s.phase, event) {
        (
            Phase::Splitting { energy_in, implicit },
            Event::Thresholds { weight, p_elastic, p_scatter, p_any, xi },
        ) => {
            let h2 = if implicit {
                s.history.with_weight(weight)
            } else {
                s.history
            };
            lemma_collision_loses_none(
                s.at(h2, s.phase),
                Collision::Absorption,
                energy_in,
                code_of(Reaction::Absorption, 0),
            );
        },
        _ => {},
    }
}

proof fn lemma_scattering_loses(s: WalkState, event: Event)
    requires
        s.phase is Scattering,
    ensures
        loses_rightly(s, event),
{
    reveal(met);
    reveal(loses_rightly);
    match (s.phase, event) {
        (Phase::Scattering { energy_in }, Event::Scattered { energy, dx, dy, dz }) => {
            let c = Collision::Elastic { energy, dx, dy, dz };
            lemma_collision_loses_none(s, c, energy_in, code_of(Reaction::Elastic, 0));
        },
        _ => {},
    }
}

proof fn lemma_fissioning_loses(s: WalkState, event: Event)
    requires
        s.phase is Fissioning,
    ensures
        loses_rightly(s, event),
{
    reveal(met);
    reveal(loses_rightly);
    match (s.phase, event) {
        (Phase::Fissioning { energy_in }, Event::Fissioned { weight, energy, dx, dy, dz }) => {
            let c = Collision::FissionWeighted { weight, energy, dx, dy, dz };
            lemma_collision_loses_none(s, c, energy_in, code_of(Reaction::Fission, 0));
        },
        _ => {},
    }
}

proof fn lemma_branching_loses(s: WalkState, event: Event)
    requires
        s.phase is Branching,
    ensures
        loses_rightly(s, event),
{
    reveal(met);
    reveal(loses_rightly);
    match (s.phase, event) {
        (
            Phase::Branching { energy_in, n_progeny, extra },
            Event::Branched { energy, dx, dy, dz, progeny },
        ) => {
            let c = Collision::FissionBanked { n_progeny, energy, dx, dy, dz, progeny };
            lemma_collision_loses_none(s, c, energy_in, code_of(Reaction::Fission, 0));
        },
        _ => {},
    }
}

proof fn lemma_emitting_loses(s: WalkState, event: Event)
    requires
        s.phase is Emitting,
    ensures
        loses_rightly(s, event),
{
    reveal(met);
    reveal(loses_rightly);
    match (s.phase, event) {
        (
            Phase::Emitting { energy_in, slot, n_out, weight },
            Event::Emitted { walk_energy, dx, dy, dz, secondaries },
        ) => {
            let code = code_of(Reaction::Inelastic, slot as int);
            let a = Collision::Multiple { walk_energy, dx, dy, dz, secondaries };
            let b = Collision::Weighted { weight, walk_energy, dx, dy, dz };
            lemma_collision_loses_none(s, a, energy_in, code);
            lemma_collision_loses_none(s, b, energy_in, code);
        },
        _ => {},
    }
}

/// A loss is a walk that stands in no cell, whether it is the source particle's
/// or a queued secondary's, and leaves one record. Nothing else is a loss: not an
/// absorption, nor a walk that leaves through a vacuum boundary.
pub proof fn only_a_walk_in_no_cell_is_lost(s: WalkState, event: Event)
    ensures
        loses_rightly(s, event),
        s.history.lost_here().lost.len() == s.history.lost.len() + 1,
{
    match s.phase {
        Phase::Splitting { .. } => lemma_splitting_loses(s, event),
        Phase::Scattering { .. } => lemma_scattering_loses(s, event),
        Phase::Emitting { .. } => lemma_emitting_loses(s, event),
        Phase::Fissioning { .. } => lemma_fissioning_loses(s, event),
        Phase::Branching { .. } => lemma_branching_loses(s, event),
        _ => lemma_other_loses(s, event),
    }
}

} // verus!
