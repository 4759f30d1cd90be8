//! Histories as sequences of events.
use crate::alike::met;
use crate::pend::PEND_SLOTS;
use crate::transport::{
    is_record, lemma_next, lemma_next_is_sound, lemma_next_keeps_settings, lemma_strike,
    record_of, same_settings, Action, Event, WalkState,
};
use vstd::prelude::*;

verus! {

/// The state of a history after the given events.
pub open spec fn after(s: WalkState, events: Seq<Event>) -> WalkState
    decreases events.len(),
{
    if events.len() == 0 {
        s
    } else {
        met(after(s, events.drop_last()), events.last()).0
    }
}

/// What a history answered the given events with.
pub open spec fn answers(s: WalkState, events: Seq<Event>) -> Seq<Action>
    decreases events.len(),
{
    if events.len() == 0 {
        Seq::empty()
    } else {
        answers(s, events.drop_last()).push(met(after(s, events.drop_last()), events.last()).1)
    }
}

/// A history about to take the first step of its source particle.
pub open spec fn is_start(s: WalkState) -> bool {
    &&& s.phase is Between
    &&& s.history.step == 0
    &&& s.history.n_steps == 0
    &&& s.history.pend.len() == 0
    &&& s.history.spilled == 0
    &&& s.history.depth == 0
    &&& s.history.trace.len() == 0
}

proof fn lemma_event_is_sound(s: WalkState, event: Event)
    requires
        s.ready(),
        s.sound(),
    ensures
        met(s, event).0.ready(),
        met(s, event).0.sound(),
        same_settings(s, met(s, event).0),
{
    reveal(met);
    lemma_next_is_sound(s, event);
    lemma_next_keeps_settings(s, event);
}

/// Whatever the events, a history stays sound and its settings do not change.
proof fn lemma_history_is_sound(s: WalkState, events: Seq<Event>)
    requires
        is_start(s),
    ensures
        after(s, events).ready(),
        after(s, events).sound(),
        same_settings(s, after(s, events)),
    decreases events.len(),
{
    if events.len() > 0 {
        let rest = events.drop_last();
        lemma_history_is_sound(s, rest);
        lemma_event_is_sound(after(s, rest), events.last());
    }
}

/// A particle that is alive when its history is over has taken every step that
/// it was allowed.
pub proof fn alive_at_the_end_took_every_step(s: WalkState, events: Seq<Event>)
    requires
        is_start(s),
        after(s, events).phase is Over,
    ensures
        after(s, events).history.outcome().alive == 1 ==> after(
            s,
            events,
        ).history.outcome().n_steps == s.history.max_steps,
{
    lemma_history_is_sound(s, events);
}

/// A history that spilled a secondary had every register slot taken.
pub proof fn a_spill_takes_every_slot(s: WalkState, events: Seq<Event>)
    requires
        is_start(s),
        after(s, events).history.spilled <= u32::MAX,
    ensures
        after(s, events).history.outcome().n_spilled > 0 ==> after(
            s,
            events,
        ).history.outcome().max_pend_depth == PEND_SLOTS,
{
    lemma_history_is_sound(s, events);
}

/// Collisions among the answers: each begins with a strike.
pub open spec fn strikes(answers: Seq<Action>) -> nat
    decreases answers.len(),
{
    if answers.len() == 0 {
        0
    } else {
        strikes(answers.drop_last()) + if answers.last() is Strike {
            1nat
        } else {
            0nat
        }
    }
}

proof fn lemma_event_records(s: WalkState, event: Event)
    ensures
        ({
            let (n, action) = met(s, event);
            &&& s.history.trace.is_prefix_of(n.history.trace)
            &&& n.history.trace.len() == s.history.trace.len() + if s.history.tracing
                && s.energy_in() is Some && n.energy_in() is None {
                1int
            } else {
                0int
            }
            &&& action is Strike ==> s.energy_in() is None && n.energy_in() is Some
            &&& !(action is Strike) && n.energy_in() is Some ==> s.energy_in() is Some
        }),
{
    reveal(met);
    lemma_strike(s, event);
    if s.in_step() {
        lemma_next(s, event);
    }
    let n = s.next(event).0;
    if n.history.trace.len() > s.history.trace.len() {
        let code = choose|code: i32|
            n.history.trace == s.history.trace.push(
                #[trigger] record_of(s.history.step, s.energy_in()->0, n, code),
            );
        assert(n.history.trace.take(s.history.trace.len() as int) =~= s.history.trace);
    }
}

/// A trace only grows, and its records are those of collisions within the
/// allowed steps. A traced history has one record for each collision that is
/// over.
pub proof fn a_trace_records_every_collision(s: WalkState, events: Seq<Event>, n: int)
    requires
        is_start(s),
        0 <= n <= events.len(),
    ensures
        after(s, events.take(n)).history.trace.is_prefix_of(after(s, events).history.trace),
        forall|i: int|
            0 <= i < after(s, events).history.trace.len() ==> is_record(
                #[trigger] after(s, events).history.trace[i],
                s.history.max_steps,
            ),
        after(s, events).history.trace.len() == if s.history.tracing {
            strikes(answers(s, events)) - if after(s, events).energy_in() is Some {
                1int
            } else {
                0int
            }
        } else {
            0
        },
    decreases events.len(),
{
    lemma_history_is_sound(s, events);
    if events.len() > 0 {
        let rest = events.drop_last();
        let before = after(s, rest);
        lemma_history_is_sound(s, rest);
        a_trace_records_every_collision(s, rest, if n < events.len() {
            n
        } else {
            0
        });
        assert(answers(s, events).drop_last() =~= answers(s, rest));
        lemma_event_records(before, events.last());
        if n < events.len() {
            assert(events.take(n) =~= rest.take(n));
        } else {
            assert(events.take(n) =~= events);
        }
    } else {
        assert(events.take(n) =~= events);
    }
}

} // verus!
