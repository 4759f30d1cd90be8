//! The course of a history under a host whose findings are fixed.
//!
//! A host finds what a walk meets: cells, flights, outcomes of collisions. What
//! it finds depends on where the walk started, on what it found there before and
//! on the walk's random stream. So each walk of a history takes its own course,
//! whatever the history did before it, and neither traces nor photons nor the
//! order in which the queue is drained change what a history scores.
use crate::alike::{
    lemma_own_next, met, own_part, untraced,
};
use crate::bank::{Bank, BankRecord};
use crate::emission::{
    are_sampled, at_most, gated, took, EmissionGates, DECAY_STREAM_KEY, PHOTON_STREAM_KEY,
};
use crate::history::HistoryState;
use crate::ieee::Real;
use crate::pend::{
    drain_order_visits_every_secondary, drained, forest_size, lemma_forest_append,
    lemma_forest_remove, next_out, tree_entries, Emission, Particle, PendDrain, PendEntry,
};
use crate::transport::{
    lemma_next_keeps_settings, same_settings, Action, Event, Phase, WalkRules, WalkState,
};
use crate::words::{
    accumulation_is_a_sum, deposited_all, in_range, lemma_deposited_len, total_at, Deposit,
};
use vstd::prelude::*;

verus! {

/// The particle that a walk starts as, with the seed of its random stream.
#[verifier::ext_equal]
pub struct WalkStart {
    pub seed: u32,
    pub particle: Particle,
}

/// What a host finds, as a function of the walk.
pub struct Host {
    /// Random stream that starts from a seed.
    pub seeded: spec_fn(u32) -> u64,
    /// The next finding in a walk, from its start, the earlier findings and its
    /// stream, with the stream behind the draws.
    pub found: spec_fn(WalkStart, Seq<Event>, u64) -> (Event, u64),
    /// What the walk scores with the last of its findings.
    pub scores: spec_fn(WalkStart, Seq<Event>) -> Seq<Deposit>,
}

/// A history under way, with what it has scored.
#[verifier::ext_equal]
pub struct Course {
    pub walk: WalkState,
    /// Start of the current walk.
    pub start: WalkStart,
    /// What the host has found in the current walk.
    pub past: Seq<Event>,
    /// Random stream of the current walk.
    pub stream: u64,
    pub deposits: Seq<Deposit>,
}

/// The current walk is over and the next has not begun.
pub open spec fn walk_is_done(s: WalkState) -> bool {
    s.phase is Between && !s.history.running()
}

impl Host {
    /// One move of a history: a step begins, a queued secondary starts on its
    /// own stream, or the host finds what the walk meets next.
    #[verifier::opaque]
    pub open spec fn moved(self, c: Course) -> (Course, Action) {
        if c.walk.phase is Over {
            (c, Action::Finished)
        } else if c.walk.phase is Between {
            let (walk, action) = met(c.walk, Event::Begin);
            let next = match action {
                Action::Resume { seed } => Course {
                    walk,
                    start: WalkStart { seed, particle: walk.history.particle },
                    past: Seq::empty(),
                    stream: (self.seeded)(seed),
                    deposits: c.deposits,
                },
                _ => Course { walk, ..c },
            };
            (next, action)
        } else {
            let (event, stream) = (self.found)(c.start, c.past, c.stream);
            let (walk, action) = met(c.walk, event);
            let past = c.past.push(event);
            let deposits = c.deposits + (self.scores)(c.start, past);
            (Course { walk, start: c.start, past, stream, deposits }, action)
        }
    }

    /// The history after `n` moves.
    pub open spec fn course(self, c: Course, n: nat) -> Course
        decreases n,
    {
        if n == 0 {
            c
        } else {
            self.moved(self.course(c, (n - 1) as nat)).0
        }
    }
}

/// Moves add up.
proof fn lemma_course_in_parts(host: Host, c: Course, n: nat, m: nat)
    ensures
        host.course(host.course(c, n), m) == host.course(c, n + m),
    decreases m,
{
    if m > 0 {
        lemma_course_in_parts(host, c, n, (m - 1) as nat);
    }
}

/// A history that is over stays as it is.
pub proof fn an_ended_history_stays(host: Host, c: Course, n: nat, m: nat)
    requires
        n <= m,
        host.course(c, n).walk.phase is Over,
    ensures
        host.course(c, m) == host.course(c, n),
    decreases m,
{
    if n < m {
        reveal(Host::moved);
        an_ended_history_stays(host, c, n, (m - 1) as nat);
    }
}

proof fn lemma_move_keeps_settings(host: Host, c: Course)
    ensures
        same_settings(c.walk, host.moved(c).0.walk),
{
    reveal(met);
    reveal(Host::moved);
    lemma_next_keeps_settings(c.walk, Event::Begin);
    lemma_next_keeps_settings(c.walk, (host.found)(c.start, c.past, c.stream).0);
}

proof fn lemma_course_keeps_settings(host: Host, c: Course, n: nat)
    ensures
        same_settings(c.walk, host.course(c, n).walk),
    decreases n,
{
    if n > 0 {
        lemma_course_keeps_settings(host, c, (n - 1) as nat);
        lemma_move_keeps_settings(host, host.course(c, (n - 1) as nat));
    }
}

/// A traced course and its untraced twin move alike.
#[verifier::rlimit(40)]
proof fn lemma_untraced_move(host: Host, c: Course)
    ensures
        host.moved(Course { walk: untraced(c.walk), ..c }) == (
            Course { walk: untraced(host.moved(c).0.walk), ..host.moved(c).0 },
            host.moved(c).1,
        ),
{
    reveal(Host::moved);
    let u = Course { walk: untraced(c.walk), ..c };
    if c.walk.phase is Between {
        if c.walk.history.running() {
            lemma_own_next(c.walk, Event::Begin);
        } else {
            reveal(met);
            assert(untraced(met(c.walk, Event::Begin).0) =~= met(
                untraced(c.walk),
                Event::Begin,
            ).0);
        }
    } else if !(c.walk.phase is Over) {
        lemma_own_next(c.walk, (host.found)(c.start, c.past, c.stream).0);
    }
    let a = host.moved(u).0;
    let b = host.moved(c).0;
    assert(a =~= (Course { walk: untraced(b.walk), ..b }));
}

/// Tracing a history changes neither its outcome nor what it scores: the traced
/// history and the same one without a trace are at every move alike but for the
/// trace.
pub proof fn tracing_changes_only_the_trace(host: Host, c: Course, n: nat)
    ensures
        ({
            let traced = host.course(c, n);
            let plain = host.course(Course { walk: untraced(c.walk), ..c }, n);
            &&& plain == (Course { walk: untraced(traced.walk), ..traced })
            &&& plain.walk.history.outcome() == traced.walk.history.outcome()
            &&& plain.deposits == traced.deposits
            &&& plain.walk.history.trace.len() == 0
        }),
    decreases n,
{
    let u = Course { walk: untraced(c.walk), ..c };
    if n > 0 {
        tracing_changes_only_the_trace(host, c, (n - 1) as nat);
        lemma_untraced_move(host, host.course(c, (n - 1) as nat));
    }
}

/// How the photons of a collision are sampled, each kind from a stream of its
/// own, at the point that the history has reached.
pub struct PhotonSampler {
    pub prompt: spec_fn(u64, Course) -> Seq<BankRecord<Real>>,
    pub decay: spec_fn(u64, Course) -> Seq<BankRecord<Real>>,
}

/// A device thread: its history, and the photons that it has handed to the bank.
#[verifier::ext_equal]
pub struct DeviceThread {
    pub course: Course,
    pub photons: Seq<BankRecord<Real>>,
}

impl Host {
    /// One move of a thread. At a collision it hands over the photons whose gate
    /// is open, sampled from streams forked from the walk's own.
    pub open spec fn thread_moved(
        self,
        sampler: PhotonSampler,
        gates: EmissionGates,
        t: DeviceThread,
    ) -> DeviceThread {
        let (course, action) = self.moved(t.course);
        let state = course.stream;
        DeviceThread {
            course,
            photons: if action is Strike {
                t.photons + gated(
                    gates,
                    (sampler.prompt)(state ^ PHOTON_STREAM_KEY, course),
                    (sampler.decay)(state ^ DECAY_STREAM_KEY, course),
                )
            } else {
                t.photons
            },
        }
    }

    /// The thread after `n` moves.
    pub open spec fn thread(
        self,
        sampler: PhotonSampler,
        gates: EmissionGates,
        t: DeviceThread,
        n: nat,
    ) -> DeviceThread
        decreases n,
    {
        if n == 0 {
            t
        } else {
            self.thread_moved(sampler, gates, self.thread(sampler, gates, t, (n - 1) as nat))
        }
    }
}

/// Emitting photons leaves the neutron as it is: whichever gates are open, a
/// thread's walk, its random stream and what it has scored are at every move
/// those of a thread that emits none. With both gates shut no photon is banked.
pub proof fn photon_emission_leaves_the_neutron_alone(
    host: Host,
    sampler: PhotonSampler,
    gates: EmissionGates,
    t: DeviceThread,
    n: nat,
)
    ensures
        ({
            let shut = EmissionGates { prompt: false, decay: false };
            let emitting = host.thread(sampler, gates, t, n);
            let plain = host.thread(sampler, shut, t, n);
            &&& emitting.course == plain.course
            &&& emitting.course == host.course(t.course, n)
            &&& plain.photons == t.photons
        }),
    decreases n,
{
    let shut = EmissionGates { prompt: false, decay: false };
    if n > 0 {
        photon_emission_leaves_the_neutron_alone(host, sampler, gates, t, (n - 1) as nat);
        let before = host.thread(sampler, shut, t, (n - 1) as nat);
        let after = host.thread(sampler, shut, t, n);
        assert(after.photons =~= before.photons);
    }
}

/// Photons that a thread hands over with its next move.
pub open spec fn handed_over(
    host: Host,
    sampler: PhotonSampler,
    gates: EmissionGates,
    t: DeviceThread,
) -> Seq<BankRecord<Real>> {
    let (course, action) = host.moved(t.course);
    if action is Strike {
        gated(
            gates,
            (sampler.prompt)(course.stream ^ PHOTON_STREAM_KEY, course),
            (sampler.decay)(course.stream ^ DECAY_STREAM_KEY, course),
        )
    } else {
        Seq::empty()
    }
}

/// What a thread hands over at a collision is what the bank takes when the
/// photons of that collision are emitted into it under the same gates, with
/// samplers that give what the thread's give. Nothing else of the thread moves
/// with the gates.
pub proof fn a_strike_banks_what_the_thread_hands_over<
    P: Fn(u64) -> Vec<BankRecord<Real>>,
    D: Fn(u64) -> Vec<BankRecord<Real>>,
>(
    host: Host,
    sampler: PhotonSampler,
    gates: EmissionGates,
    t: DeviceThread,
    prompt: P,
    decay: D,
    before: Bank<Real>,
    after: Bank<Real>,
    p: Seq<BankRecord<Real>>,
    d: Seq<BankRecord<Real>>,
)
    requires
        host.moved(t.course).1 is Strike,
        ({
            let course = host.moved(t.course).0;
            let a = course.stream ^ PHOTON_STREAM_KEY;
            let b = course.stream ^ DECAY_STREAM_KEY;
            &&& forall|v: Vec<BankRecord<Real>>| #[trigger]
                call_ensures(prompt, (a,), v) ==> v@ == (sampler.prompt)(a, course)
            &&& forall|v: Vec<BankRecord<Real>>| #[trigger]
                call_ensures(decay, (b,), v) ==> v@ == (sampler.decay)(b, course)
            &&& are_sampled(prompt, gates.prompt, a, p)
            &&& are_sampled(decay, gates.decay, b, d)
            &&& took(before, after, gated(gates, p, d))
        }),
    ensures
        took(before, after, handed_over(host, sampler, gates, t)),
        host.thread_moved(sampler, gates, t).photons == t.photons + handed_over(
            host,
            sampler,
            gates,
            t,
        ),
        host.thread_moved(sampler, gates, t).course == host.moved(t.course).0,
{
    assert(gated(gates, p, d) =~= handed_over(host, sampler, gates, t));
}

/// A bank that takes at each move what a thread hands over holds the thread's
/// photons behind the records it began with, as many as it has room for, and has
/// counted every one.
pub proof fn a_bank_holds_the_photons_of_its_thread(
    host: Host,
    sampler: PhotonSampler,
    gates: EmissionGates,
    t: DeviceThread,
    banks: Seq<Bank<Real>>,
    n: nat,
)
    requires
        t.photons.len() == 0,
        banks.len() == n + 1,
        banks[0].wf(),
        forall|k: int|
            0 <= k < n ==> took(
                #[trigger] banks[k],
                banks[k + 1],
                handed_over(host, sampler, gates, host.thread(sampler, gates, t, k as nat)),
            ),
    ensures
        took_all(banks[0], banks[n as int], host.thread(sampler, gates, t, n).photons),
    decreases n,
{
    let photons = host.thread(sampler, gates, t, n).photons;
    if n == 0 {
        assert(banks[0].records() + photons =~= banks[0].records());
        assert(banks[0].records() =~= at_most(
            banks[0].records() + photons,
            banks[0].capacity as nat,
        ));
    } else {
        let m = (n - 1) as nat;
        let earlier = banks.drop_last();
        assert forall|k: int| 0 <= k < m implies took(
            #[trigger] earlier[k],
            earlier[k + 1],
            handed_over(host, sampler, gates, host.thread(sampler, gates, t, k as nat)),
        ) by {
            assert(took(
                banks[k],
                banks[k + 1],
                handed_over(host, sampler, gates, host.thread(sampler, gates, t, k as nat)),
            ));
        }
        a_bank_holds_the_photons_of_its_thread(host, sampler, gates, t, earlier, m);
        let thread = host.thread(sampler, gates, t, m);
        let more = handed_over(host, sampler, gates, thread);
        assert(took(banks[m as int], banks[m as int + 1], more));
        assert(photons =~= thread.photons + more);
        let first = banks[0].records();
        assert(first + photons =~= (first + thread.photons) + more);
        assert(banks[n as int].records() =~= at_most(
            first + photons,
            banks[0].capacity as nat,
        ));
    }
}

/// `after` is the bank once it has taken the photons, over any number of moves.
pub open spec fn took_all(
    before: Bank<Real>,
    after: Bank<Real>,
    photons: Seq<BankRecord<Real>>,
) -> bool {
    &&& after.wf()
    &&& after.capacity == before.capacity
    &&& after.count == before.count + photons.len()
    &&& after.records() == at_most(before.records() + photons, before.capacity as nat)
}

/// The state of a walk that has just started, with nothing known but the walk.
pub open spec fn lone_walk(start: WalkStart, rules: WalkRules, max_steps: u32) -> WalkState {
    WalkState {
        history: HistoryState {
            drain: PendDrain::Fifo,
            max_steps,
            particle: start.particle,
            walk_seed: start.seed,
            walk_secondaries: 0,
            alive: true,
            step: 0,
            n_steps: 0,
            band: None,
            pend: Seq::empty(),
            spilled: 0,
            depth: 0,
            last_cell: None,
            lost: Seq::empty(),
            tracing: false,
            trace: Seq::empty(),
        },
        rules,
        phase: Phase::AtPoint,
    }
}

/// The walk that a queued secondary starts.
pub open spec fn start_of(entry: PendEntry) -> WalkStart {
    WalkStart { seed: entry.seed, particle: entry.particle }
}

impl Host {
    /// The course of a walk on its own, about to begin.
    pub open spec fn lone(self, start: WalkStart, rules: WalkRules, max_steps: u32) -> Course {
        Course {
            walk: lone_walk(start, rules, max_steps),
            start,
            past: Seq::empty(),
            stream: (self.seeded)(start.seed),
            deposits: Seq::empty(),
        }
    }

    /// The walk is over after `k` moves, and not before.
    pub open spec fn ends_at(
        self,
        start: WalkStart,
        rules: WalkRules,
        max_steps: u32,
        k: nat,
    ) -> bool {
        let c = self.lone(start, rules, max_steps);
        &&& walk_is_done(self.course(c, k).walk)
        &&& forall|j: nat| j < k ==> !walk_is_done((#[trigger] self.course(c, j)).walk)
    }

    /// Moves of a walk that ends.
    pub open spec fn moves_of(self, start: WalkStart, rules: WalkRules, max_steps: u32) -> nat {
        choose|k: nat| self.ends_at(start, rules, max_steps, k)
    }

    /// A walk on its own, at its end: what it has queued, lost and scored.
    pub open spec fn ended(self, start: WalkStart, rules: WalkRules, max_steps: u32) -> Course {
        self.course(
            self.lone(start, rules, max_steps),
            self.moves_of(start, rules, max_steps),
        )
    }

    /// The walk ends, and has queued the given secondaries.
    #[verifier::opaque]
    pub open spec fn emits(
        self,
        start: WalkStart,
        rules: WalkRules,
        max_steps: u32,
        entries: Seq<PendEntry>,
    ) -> bool {
        &&& exists|k: nat| self.ends_at(start, rules, max_steps, k)
        &&& self.ended(start, rules, max_steps).walk.history.pend == entries
    }

    /// The tree is that of the secondaries: its walk ends and emits the roots of
    /// the trees below it, and so do they.
    pub open spec fn grows(self, t: Emission, rules: WalkRules, max_steps: u32) -> bool
        decreases t,
    {
        &&& self.emits(start_of(t.entry), rules, max_steps, roots(t.emits))
        &&& self.all_grow(t.emits, rules, max_steps)
    }

    pub open spec fn all_grow(self, f: Seq<Emission>, rules: WalkRules, max_steps: u32) -> bool
        decreases f,
    {
        if f.len() == 0 {
            true
        } else {
            self.all_grow(f.drop_last(), rules, max_steps) && self.grows(
                f.last(),
                rules,
                max_steps,
            )
        }
    }

    /// What walks that start as the given secondaries score, one after the other.
    pub open spec fn scored_by(
        self,
        entries: Seq<PendEntry>,
        rules: WalkRules,
        max_steps: u32,
    ) -> Seq<Deposit>
        decreases entries.len(),
    {
        if entries.len() == 0 {
            Seq::empty()
        } else {
            self.ended(start_of(entries[0]), rules, max_steps).deposits + self.scored_by(
                entries.drop_first(),
                rules,
                max_steps,
            )
        }
    }

    /// How many of them are lost.
    pub open spec fn lost_by(
        self,
        entries: Seq<PendEntry>,
        rules: WalkRules,
        max_steps: u32,
    ) -> nat
        decreases entries.len(),
    {
        if entries.len() == 0 {
            0
        } else {
            self.ended(start_of(entries[0]), rules, max_steps).walk.history.lost.len()
                + self.lost_by(entries.drop_first(), rules, max_steps)
        }
    }
}

/// The secondaries at the roots of the trees.
pub open spec fn roots(f: Seq<Emission>) -> Seq<PendEntry> {
    f.map_values(|t: Emission| t.entry)
}

proof fn lemma_grows(host: Host, t: Emission, rules: WalkRules, max_steps: u32)
    requires
        host.grows(t, rules, max_steps),
    ensures
        exists|k: nat| host.ends_at(start_of(t.entry), rules, max_steps, k),
        host.ended(start_of(t.entry), rules, max_steps).walk.history.pend == roots(t.emits),
{
    reveal(Host::emits);
}

proof fn lemma_all_grow(host: Host, f: Seq<Emission>, rules: WalkRules, max_steps: u32)
    ensures
        host.all_grow(f, rules, max_steps) <==> forall|i: int|
            0 <= i < f.len() ==> host.grows(#[trigger] f[i], rules, max_steps),
    decreases f.len(),
{
    if f.len() > 0 {
        let rest = f.drop_last();
        lemma_all_grow(host, rest, rules, max_steps);
        if host.all_grow(f, rules, max_steps) {
            assert forall|i: int| 0 <= i < f.len() implies host.grows(
                #[trigger] f[i],
                rules,
                max_steps,
            ) by {
                if i < rest.len() {
                    assert(rest[i] == f[i]);
                }
            }
        }
        if forall|i: int| 0 <= i < f.len() ==> host.grows(#[trigger] f[i], rules, max_steps) {
            assert forall|i: int| 0 <= i < rest.len() implies host.grows(
                #[trigger] rest[i],
                rules,
                max_steps,
            ) by {
                assert(rest[i] == f[i]);
            }
            assert(host.grows(f[f.len() - 1], rules, max_steps));
        }
    }
}

/// A walk in a history, `at`, keeps step with the same walk on its own, `alone`;
/// `from` is the history at the walk's start.
spec fn in_step_with(from: Course, at: Course, alone: Course) -> bool {
    &&& own_part(at.walk) == own_part(alone.walk)
    &&& at.start == alone.start
    &&& at.past == alone.past
    &&& at.stream == alone.stream
    &&& at.deposits == from.deposits + alone.deposits
    &&& at.walk.history.pend == from.walk.history.pend + alone.walk.history.pend
    &&& at.walk.history.lost.len() == from.walk.history.lost.len()
        + alone.walk.history.lost.len()
}

#[verifier::rlimit(40)]
proof fn lemma_move_in_step(host: Host, from: Course, at: Course, alone: Course)
    requires
        in_step_with(from, at, alone),
        !walk_is_done(alone.walk),
        !(alone.walk.phase is Over),
    ensures
        in_step_with(from, host.moved(at).0, host.moved(alone).0),
{
    reveal(Host::moved);
    let a = at.walk;
    let b = alone.walk;
    assert(a.phase == own_part(a).phase && b.phase == own_part(b).phase);
    assert(a.history.alive == own_part(a).history.alive);
    assert(b.history.alive == own_part(b).history.alive);
    assert(a.history.step == own_part(a).history.step);
    assert(b.history.step == own_part(b).history.step);
    assert(a.history.max_steps == own_part(a).history.max_steps);
    assert(b.history.max_steps == own_part(b).history.max_steps);
    let event = if b.phase is Between {
        Event::Begin
    } else {
        (host.found)(alone.start, alone.past, alone.stream).0
    };
    lemma_own_next(a, event);
    lemma_own_next(b, event);
    let o = met(own_part(a), event).0.history;
    assert((from.walk.history.pend + b.history.pend) + o.pend =~= from.walk.history.pend + (
    b.history.pend + o.pend));
    if !(b.phase is Between) {
        let scores = (host.scores)(alone.start, alone.past.push(event));
        assert((from.deposits + alone.deposits) + scores =~= from.deposits + (alone.deposits
            + scores));
    }
}

proof fn lemma_move_is_not_over(host: Host, c: Course)
    requires
        !(c.walk.phase is Over),
        !walk_is_done(c.walk),
    ensures
        !(host.moved(c).0.walk.phase is Over),
{
    reveal(met);
    reveal(Host::moved);
    if c.walk.in_step() {
        crate::transport::a_step_is_counted_once(
            c.walk,
            (host.found)(c.start, c.past, c.stream).0,
        );
    }
}

/// No walk on its own is over as a history before it is done as a walk.
proof fn lemma_not_over(host: Host, c: Course, k: nat)
    requires
        !(c.walk.phase is Over),
        forall|j: nat| j < k ==> !walk_is_done((#[trigger] host.course(c, j)).walk),
    ensures
        !(host.course(c, k).walk.phase is Over),
    decreases k,
{
    if k > 0 {
        let j = (k - 1) as nat;
        lemma_not_over(host, c, j);
        assert(!walk_is_done(host.course(c, j).walk));
        lemma_move_is_not_over(host, host.course(c, j));
    }
}

/// A walk in a history takes the course that it takes on its own.
proof fn lemma_walk_in_step(host: Host, from: Course, alone: Course, k: nat)
    requires
        in_step_with(from, from, alone),
        alone.walk.history.pend.len() == 0,
        !(alone.walk.phase is Over),
        forall|j: nat| j < k ==> !walk_is_done((#[trigger] host.course(alone, j)).walk),
    ensures
        in_step_with(from, host.course(from, k), host.course(alone, k)),
    decreases k,
{
    if k > 0 {
        let j = (k - 1) as nat;
        lemma_walk_in_step(host, from, alone, j);
        lemma_not_over(host, alone, j);
        assert(!walk_is_done(host.course(alone, j).walk));
        lemma_move_in_step(host, from, host.course(from, j), host.course(alone, j));
    }
}

/// A walk that has just started in a history ends as it does on its own.
proof fn lemma_walk_ends(host: Host, from: Course, start: WalkStart)
    requires
        exists|k: nat|
            host.ends_at(start, from.walk.rules, from.walk.history.max_steps, k),
        own_part(from.walk) == lone_walk(
            start,
            from.walk.rules,
            from.walk.history.max_steps,
        ),
        from.start == start,
        from.past.len() == 0,
        from.stream == (host.seeded)(start.seed),
    ensures
        ({
            let rules = from.walk.rules;
            let max_steps = from.walk.history.max_steps;
            let k = host.moves_of(start, rules, max_steps);
            let end = host.ended(start, rules, max_steps);
            let at = host.course(from, k);
            &&& walk_is_done(at.walk)
            &&& at.deposits == from.deposits + end.deposits
            &&& at.walk.history.pend == from.walk.history.pend + end.walk.history.pend
            &&& at.walk.history.lost.len() == from.walk.history.lost.len()
                + end.walk.history.lost.len()
        }),
{
    let rules = from.walk.rules;
    let max_steps = from.walk.history.max_steps;
    let alone = host.lone(start, rules, max_steps);
    let k = host.moves_of(start, rules, max_steps);
    assert(host.ends_at(start, rules, max_steps, k));
    assert(own_part(alone.walk) =~= alone.walk);
    assert(from.past =~= alone.past);
    assert(from.deposits + alone.deposits =~= from.deposits);
    assert(from.walk.history.pend + alone.walk.history.pend =~= from.walk.history.pend);
    assert(in_step_with(from, from, alone));
    lemma_walk_in_step(host, from, alone, k);
    let at = host.course(from, k);
    let end = host.course(alone, k);
    assert(at.walk.phase == own_part(at.walk).phase && end.walk.phase == own_part(
        end.walk,
    ).phase);
    assert(at.walk.history.alive == own_part(at.walk).history.alive);
    assert(end.walk.history.alive == own_part(end.walk).history.alive);
    assert(at.walk.history.step == own_part(at.walk).history.step);
    assert(end.walk.history.step == own_part(end.walk).history.step);
    assert(at.walk.history.max_steps == own_part(at.walk).history.max_steps);
    assert(end.walk.history.max_steps == own_part(end.walk).history.max_steps);
}

/// The history is over after `n` moves, and has by then transported the given
/// secondaries one after the other.
pub open spec fn transports(host: Host, c: Course, entries: Seq<PendEntry>, n: nat) -> bool {
    let rules = c.walk.rules;
    let max_steps = c.walk.history.max_steps;
    let end = host.course(c, n);
    &&& end.walk.phase is Over
    &&& end.deposits == c.deposits + host.scored_by(entries, rules, max_steps)
    &&& end.walk.history.lost.len() == c.walk.history.lost.len() + host.lost_by(
        entries,
        rules,
        max_steps,
    )
}

/// What is left of a forest when tree `i` has been transported.
spec fn left_of(f: Seq<Emission>, i: int) -> Seq<Emission> {
    f.remove(i) + f[i].emits
}

proof fn lemma_left_grows(host: Host, f: Seq<Emission>, i: int, rules: WalkRules, max_steps: u32)
    requires
        0 <= i < f.len(),
        host.all_grow(f, rules, max_steps),
    ensures
        host.grows(f[i], rules, max_steps),
        host.all_grow(left_of(f, i), rules, max_steps),
        forest_size(left_of(f, i)) < forest_size(f),
        roots(left_of(f, i)) == roots(f).remove(i) + roots(f[i].emits),
{
    let t = f[i];
    let rest = left_of(f, i);
    lemma_all_grow(host, f, rules, max_steps);
    assert(host.grows(t, rules, max_steps));
    lemma_grows(host, t, rules, max_steps);
    lemma_all_grow(host, t.emits, rules, max_steps);
    assert forall|j: int| 0 <= j < rest.len() implies host.grows(
        #[trigger] rest[j],
        rules,
        max_steps,
    ) by {
        if j < i {
            assert(rest[j] == f[j]);
        } else if j < f.len() - 1 {
            assert(rest[j] == f[j + 1]);
        } else {
            assert(rest[j] == t.emits[j - (f.len() - 1)]);
        }
    }
    lemma_all_grow(host, rest, rules, max_steps);
    lemma_forest_remove(f, i);
    lemma_forest_append(f.remove(i), t.emits);
    assert(roots(rest) =~= roots(f).remove(i) + roots(t.emits));
}

/// The move with which a queued secondary starts.
#[verifier::rlimit(40)]
proof fn lemma_resume(host: Host, c: Course)
    requires
        walk_is_done(c.walk),
        c.walk.history.pend.len() > 0,
    ensures
        ({
            let i = next_out(c.walk.history.drain, c.walk.history.pend.len());
            let start = start_of(c.walk.history.pend[i]);
            let c1 = host.course(c, 1);
            &&& own_part(c1.walk) == lone_walk(start, c.walk.rules, c.walk.history.max_steps)
            &&& c1.start == start
            &&& c1.past.len() == 0
            &&& c1.stream == (host.seeded)(start.seed)
            &&& c1.deposits == c.deposits
            &&& c1.walk.history.pend == c.walk.history.pend.remove(i)
            &&& c1.walk.history.lost == c.walk.history.lost
            &&& same_settings(c.walk, c1.walk)
        }),
{
    reveal(met);
    reveal(Host::moved);
    reveal_with_fuel(Host::course, 2);
    let i = next_out(c.walk.history.drain, c.walk.history.pend.len());
    let start = start_of(c.walk.history.pend[i]);
    let c1 = host.moved(c).0;
    assert(c1.walk.history == c.walk.history.resumed());
    assert(own_part(c1.walk) =~= lone_walk(start, c.walk.rules, c.walk.history.max_steps));
}

/// The move with which a history ends.
proof fn lemma_finish(host: Host, c: Course)
    requires
        walk_is_done(c.walk),
        c.walk.history.pend.len() == 0,
    ensures
        host.course(c, 1).walk.phase is Over,
        host.course(c, 1).deposits == c.deposits,
        host.course(c, 1).walk.history == c.walk.history,
{
    reveal(met);
    reveal(Host::moved);
    reveal_with_fuel(Host::course, 2);
}

/// One queued secondary is transported, and what it emits joins the queue.
proof fn lemma_one_is_drained(host: Host, c: Course, f: Seq<Emission>) -> (n: nat)
    requires
        walk_is_done(c.walk),
        c.walk.history.pend == roots(f),
        f.len() > 0,
        host.all_grow(f, c.walk.rules, c.walk.history.max_steps),
    ensures
        ({
            let i = next_out(c.walk.history.drain, f.len());
            let end = host.ended(
                start_of(f[i].entry),
                c.walk.rules,
                c.walk.history.max_steps,
            );
            let c2 = host.course(c, n);
            &&& walk_is_done(c2.walk)
            &&& c2.walk.history.pend == roots(left_of(f, i))
            &&& c2.deposits == c.deposits + end.deposits
            &&& c2.walk.history.lost.len() == c.walk.history.lost.len()
                + end.walk.history.lost.len()
            &&& same_settings(c.walk, c2.walk)
        }),
{
    let rules = c.walk.rules;
    let max_steps = c.walk.history.max_steps;
    let i = next_out(c.walk.history.drain, f.len());
    let start = start_of(f[i].entry);
    assert(roots(f)[i] == f[i].entry);
    lemma_left_grows(host, f, i, rules, max_steps);
    lemma_grows(host, f[i], rules, max_steps);
    lemma_resume(host, c);
    let c1 = host.course(c, 1);
    lemma_walk_ends(host, c1, start);
    let k = host.moves_of(start, rules, max_steps);
    lemma_course_keeps_settings(host, c1, k);
    lemma_course_in_parts(host, c, 1, k);
    1 + k
}

/// A history whose walk is done drains its queue in its own order.
#[verifier::rlimit(40)]
proof fn lemma_queue_is_drained(host: Host, c: Course, f: Seq<Emission>) -> (n: nat)
    requires
        walk_is_done(c.walk),
        c.walk.history.pend == roots(f),
        host.all_grow(f, c.walk.rules, c.walk.history.max_steps),
    ensures
        transports(host, c, drained(c.walk.history.drain, f), n),
    decreases forest_size(f),
{
    let drain = c.walk.history.drain;
    let rules = c.walk.rules;
    let max_steps = c.walk.history.max_steps;
    let order = drained(drain, f);
    if f.len() == 0 {
        lemma_finish(host, c);
        assert(c.deposits + host.scored_by(order, rules, max_steps) =~= c.deposits);
        1
    } else {
        let i = next_out(drain, f.len());
        let rest = left_of(f, i);
        lemma_left_grows(host, f, i, rules, max_steps);
        let k = lemma_one_is_drained(host, c, f);
        let c2 = host.course(c, k);
        let m = lemma_queue_is_drained(host, c2, rest);
        lemma_course_in_parts(host, c, k, m);
        assert(order[0] == f[i].entry);
        assert(order.drop_first() =~= drained(drain, rest));
        let tail = host.scored_by(drained(drain, rest), rules, max_steps);
        let own = host.ended(start_of(f[i].entry), rules, max_steps).deposits;
        assert((c.deposits + own) + tail =~= c.deposits + (own + tail));
        k + m
    }
}

/// Source particle of a history, as a walk's start.
pub open spec fn source_start(
    seed: u32,
    energy: Real,
    position: [Real; 3],
    direction: [Real; 3],
) -> WalkStart {
    WalkStart {
        seed,
        particle: HistoryState::source(
            seed,
            energy,
            position,
            direction,
            PendDrain::Fifo,
            0,
            false,
        ).particle,
    }
}

impl Host {
    /// A history about to begin.
    pub open spec fn source(
        self,
        seed: u32,
        energy: Real,
        position: [Real; 3],
        direction: [Real; 3],
        drain: PendDrain,
        max_steps: u32,
        tracing: bool,
        rules: WalkRules,
    ) -> Course {
        Course {
            walk: WalkState {
                history: HistoryState::source(
                    seed,
                    energy,
                    position,
                    direction,
                    drain,
                    max_steps,
                    tracing,
                ),
                rules,
                phase: Phase::Between,
            },
            start: source_start(seed, energy, position, direction),
            past: Seq::empty(),
            stream: (self.seeded)(seed),
            deposits: Seq::empty(),
        }
    }
}

/// The move with which a history begins: the source particle starts its walk.
proof fn lemma_source_begins(host: Host, c: Course)
    requires
        c.walk.phase is Between,
        c.walk.history.running(),
    ensures
        host.course(c, 1) == (Course { walk: c.walk.at(c.walk.history, Phase::AtPoint), ..c }),
{
    reveal(met);
    reveal(Host::moved);
    reveal_with_fuel(Host::course, 2);
}

/// A source particle's walk, from the first move on to its end.
proof fn lemma_source_walk(host: Host, c: Course, t: Emission) -> (n: nat)
    requires
        c.walk.phase is Between,
        c.walk.history.running(),
        own_part(c.walk.at(c.walk.history, Phase::AtPoint)) == lone_walk(
            start_of(t.entry),
            c.walk.rules,
            c.walk.history.max_steps,
        ),
        c.start == start_of(t.entry),
        c.past.len() == 0,
        c.stream == (host.seeded)(t.entry.seed),
        c.walk.history.pend.len() == 0,
        host.grows(t, c.walk.rules, c.walk.history.max_steps),
    ensures
        ({
            let end = host.ended(
                start_of(t.entry),
                c.walk.rules,
                c.walk.history.max_steps,
            );
            let c2 = host.course(c, n);
            &&& walk_is_done(c2.walk)
            &&& c2.walk.history.pend == roots(t.emits)
            &&& c2.deposits == c.deposits + end.deposits
            &&& c2.walk.history.lost.len() == c.walk.history.lost.len()
                + end.walk.history.lost.len()
            &&& same_settings(c.walk, c2.walk)
        }),
{
    let start = start_of(t.entry);
    let k = host.moves_of(start, c.walk.rules, c.walk.history.max_steps);
    lemma_source_begins(host, c);
    lemma_grows(host, t, c.walk.rules, c.walk.history.max_steps);
    let c1 = host.course(c, 1);
    lemma_walk_ends(host, c1, start);
    lemma_course_keeps_settings(host, c1, k);
    lemma_course_in_parts(host, c, 1, k);
    assert(host.course(c, 1 + k).walk.history.pend =~= roots(t.emits));
    1 + k
}

/// Every history whose emission tree is finite comes to an end, in either drain
/// order. It transports the source particle and then each secondary of the tree
/// once, on its own seed; none is dropped.
pub proof fn a_history_transports_its_tree(
    host: Host,
    t: Emission,
    seed: u32,
    energy: Real,
    position: [Real; 3],
    direction: [Real; 3],
    drain: PendDrain,
    max_steps: u32,
    tracing: bool,
    rules: WalkRules,
) -> (n: nat)
    requires
        max_steps > 0,
        start_of(t.entry) == source_start(seed, energy, position, direction),
        host.grows(t, rules, max_steps),
    ensures
        transports(
            host,
            host.source(seed, energy, position, direction, drain, max_steps, tracing, rules),
            seq![t.entry] + drained(drain, t.emits),
            n,
        ),
        (seq![t.entry] + drained(drain, t.emits)).to_multiset() =~= tree_entries(t),
{
    let c = host.source(seed, energy, position, direction, drain, max_steps, tracing, rules);
    let rest = drained(drain, t.emits);
    let order = seq![t.entry] + rest;
    assert(own_part(c.walk.at(c.walk.history, Phase::AtPoint)) =~= lone_walk(
        start_of(t.entry),
        rules,
        max_steps,
    ));
    let k = lemma_source_walk(host, c, t);
    let m = lemma_queue_is_drained(host, host.course(c, k), t.emits);
    lemma_course_in_parts(host, c, k, m);
    assert(order[0] == t.entry);
    assert(order.drop_first() =~= rest);
    let tail = host.scored_by(rest, rules, max_steps);
    let own = host.ended(start_of(t.entry), rules, max_steps).deposits;
    assert((c.deposits + own) + tail =~= c.deposits + (own + tail));
    drain_order_visits_every_secondary(drain, t.emits);
    lemma_head_first(t.entry, rest);
    k + m
}

proof fn lemma_head_first(entry: PendEntry, rest: Seq<PendEntry>)
    ensures
        (seq![entry] + rest).to_multiset() =~= rest.to_multiset().insert(entry),
{
    broadcast use vstd::seq_lib::group_to_multiset_ensures;

    let head = seq![entry];
    vstd::seq_lib::lemma_multiset_commutative(head, rest);
    assert(head =~= Seq::<PendEntry>::empty().push(entry));
}

/// Sum of the words that the walks deposit into one slot.
spec fn words_by(
    host: Host,
    entries: Seq<PendEntry>,
    rules: WalkRules,
    max_steps: u32,
    slot: int,
) -> int
    decreases entries.len(),
{
    if entries.len() == 0 {
        0
    } else {
        total_at(host.ended(start_of(entries[0]), rules, max_steps).deposits, slot) + words_by(
            host,
            entries.drop_first(),
            rules,
            max_steps,
            slot,
        )
    }
}

proof fn lemma_total_append(a: Seq<Deposit>, b: Seq<Deposit>, slot: int)
    ensures
        total_at(a + b, slot) == total_at(a, slot) + total_at(b, slot),
    decreases b.len(),
{
    if b.len() == 0 {
        assert(a + b =~= a);
    } else {
        lemma_total_append(a, b.drop_last(), slot);
        assert((a + b).drop_last() =~= a + b.drop_last());
    }
}

proof fn lemma_words_by(
    host: Host,
    entries: Seq<PendEntry>,
    rules: WalkRules,
    max_steps: u32,
    slot: int,
)
    ensures
        total_at(host.scored_by(entries, rules, max_steps), slot) == words_by(
            host,
            entries,
            rules,
            max_steps,
            slot,
        ),
    decreases entries.len(),
{
    if entries.len() > 0 {
        let rest = entries.drop_first();
        lemma_words_by(host, rest, rules, max_steps, slot);
        lemma_total_append(
            host.ended(start_of(entries[0]), rules, max_steps).deposits,
            host.scored_by(rest, rules, max_steps),
            slot,
        );
    }
}

/// Taking one secondary out of the order takes its share out of the sums.
proof fn lemma_take_out(
    host: Host,
    entries: Seq<PendEntry>,
    rules: WalkRules,
    max_steps: u32,
    slot: int,
    i: int,
)
    requires
        0 <= i < entries.len(),
    ensures
        ({
            let end = host.ended(start_of(entries[i]), rules, max_steps);
            let rest = entries.remove(i);
            &&& words_by(host, entries, rules, max_steps, slot) == total_at(end.deposits, slot)
                + words_by(host, rest, rules, max_steps, slot)
            &&& host.lost_by(entries, rules, max_steps) == end.walk.history.lost.len()
                + host.lost_by(rest, rules, max_steps)
        }),
    decreases entries.len(),
{
    let rest = entries.remove(i);
    if i == 0 {
        assert(rest =~= entries.drop_first());
    } else {
        lemma_take_out(host, entries.drop_first(), rules, max_steps, slot, i - 1);
        assert(rest[0] == entries[0]);
        assert(rest.drop_first() =~= entries.drop_first().remove(i - 1));
        assert(entries.drop_first()[i - 1] == entries[i]);
    }
}

/// The sums do not depend on the order.
proof fn lemma_any_order(
    host: Host,
    a: Seq<PendEntry>,
    b: Seq<PendEntry>,
    rules: WalkRules,
    max_steps: u32,
    slot: int,
)
    requires
        a.to_multiset() == b.to_multiset(),
    ensures
        words_by(host, a, rules, max_steps, slot) == words_by(host, b, rules, max_steps, slot),
        host.lost_by(a, rules, max_steps) == host.lost_by(b, rules, max_steps),
    decreases a.len(),
{
    broadcast use vstd::seq_lib::group_to_multiset_ensures;

    assert(a.to_multiset().len() == a.len() && b.to_multiset().len() == b.len());
    if a.len() > 0 {
        let x = a[0];
        assert(a.contains(x));
        assert(b.to_multiset().count(x) > 0);
        assert(b.contains(x));
        let i = choose|i: int| 0 <= i < b.len() && b[i] == x;
        lemma_take_out(host, a, rules, max_steps, slot, 0);
        lemma_take_out(host, b, rules, max_steps, slot, i);
        assert(a.remove(0).to_multiset() =~= a.to_multiset().remove(x));
        assert(b.remove(i).to_multiset() =~= b.to_multiset().remove(x));
        lemma_any_order(host, a.remove(0), b.remove(i), rules, max_steps, slot);
    }
}

proof fn lemma_move_scores_in_range(host: Host, c: Course, size: nat)
    requires
        forall|start: WalkStart, past: Seq<Event>|
            in_range(#[trigger] (host.scores)(start, past), size),
        in_range(c.deposits, size),
    ensures
        in_range(host.moved(c).0.deposits, size),
{
    reveal(Host::moved);
    let event = (host.found)(c.start, c.past, c.stream).0;
    let own = (host.scores)(c.start, c.past.push(event));
    assert(in_range(own, size));
    let both = c.deposits + own;
    assert forall|i: int| 0 <= i < both.len() implies (#[trigger] both[i]).slot < size by {
        if i < c.deposits.len() {
            assert(both[i] == c.deposits[i]);
        } else {
            assert(both[i] == own[i - c.deposits.len()]);
        }
    }
}

proof fn lemma_scores_in_range(host: Host, c: Course, n: nat, size: nat)
    requires
        forall|start: WalkStart, past: Seq<Event>|
            in_range(#[trigger] (host.scores)(start, past), size),
        in_range(c.deposits, size),
    ensures
        in_range(host.course(c, n).deposits, size),
    decreases n,
{
    if n > 0 {
        lemma_scores_in_range(host, c, (n - 1) as nat, size);
        lemma_move_scores_in_range(host, host.course(c, (n - 1) as nat), size);
    }
}

/// Moves after which a history is over in either order, with the same tally.
proof fn lemma_orders_score_alike(
    host: Host,
    t: Emission,
    seed: u32,
    energy: Real,
    position: [Real; 3],
    direction: [Real; 3],
    max_steps: u32,
    tracing: bool,
    rules: WalkRules,
    acc: Seq<u64>,
) -> (r: (nat, nat))
    requires
        max_steps > 0,
        start_of(t.entry) == source_start(seed, energy, position, direction),
        host.grows(t, rules, max_steps),
        forall|start: WalkStart, past: Seq<Event>|
            in_range(#[trigger] (host.scores)(start, past), acc.len()),
    ensures
        ({
            let fifo = PendDrain::Fifo;
            let lifo = PendDrain::Lifo;
            let a = host.course(
                host.source(seed, energy, position, direction, fifo, max_steps, tracing, rules),
                r.0,
            );
            let b = host.course(
                host.source(seed, energy, position, direction, lifo, max_steps, tracing, rules),
                r.1,
            );
            &&& a.walk.phase is Over
            &&& b.walk.phase is Over
            &&& deposited_all(acc, a.deposits) == deposited_all(acc, b.deposits)
            &&& a.walk.history.lost.len() == b.walk.history.lost.len()
        }),
{
    let fifo = PendDrain::Fifo;
    let lifo = PendDrain::Lifo;
    let a = host.source(seed, energy, position, direction, fifo, max_steps, tracing, rules);
    let b = host.source(seed, energy, position, direction, lifo, max_steps, tracing, rules);
    let na = a_history_transports_its_tree(
        host,
        t,
        seed,
        energy,
        position,
        direction,
        fifo,
        max_steps,
        tracing,
        rules,
    );
    let nb = a_history_transports_its_tree(
        host,
        t,
        seed,
        energy,
        position,
        direction,
        lifo,
        max_steps,
        tracing,
        rules,
    );
    let sa = seq![t.entry] + drained(fifo, t.emits);
    let sb = seq![t.entry] + drained(lifo, t.emits);
    let da = host.course(a, na).deposits;
    let db = host.course(b, nb).deposits;
    lemma_scores_in_range(host, a, na, acc.len());
    lemma_scores_in_range(host, b, nb, acc.len());
    assert(da =~= host.scored_by(sa, rules, max_steps));
    assert(db =~= host.scored_by(sb, rules, max_steps));
    lemma_any_order(host, sa, sb, rules, max_steps, 0);
    assert forall|slot: int| 0 <= slot < acc.len() implies deposited_all(acc, da)[slot]
        == deposited_all(acc, db)[slot] by {
        accumulation_is_a_sum(acc, da, slot);
        accumulation_is_a_sum(acc, db, slot);
        lemma_words_by(host, sa, rules, max_steps, slot);
        lemma_words_by(host, sb, rules, max_steps, slot);
        lemma_any_order(host, sa, sb, rules, max_steps, slot);
    }
    lemma_deposited_len(acc, da);
    lemma_deposited_len(acc, db);
    assert(deposited_all(acc, da) =~= deposited_all(acc, db));
    (na, nb)
}

/// The order in which the queue is drained changes neither the tally of a
/// history nor how many of its walks are lost: both orders come to an end, and
/// wherever they have, every slot of the tally holds the same word. The history
/// is any whose emission tree is finite.
#[verifier::rlimit(40)]
pub proof fn drain_order_changes_no_tally(
    host: Host,
    t: Emission,
    seed: u32,
    energy: Real,
    position: [Real; 3],
    direction: [Real; 3],
    max_steps: u32,
    tracing: bool,
    rules: WalkRules,
    acc: Seq<u64>,
)
    requires
        start_of(t.entry) == source_start(seed, energy, position, direction),
        max_steps > 0 ==> host.grows(t, rules, max_steps),
        forall|start: WalkStart, past: Seq<Event>|
            in_range(#[trigger] (host.scores)(start, past), acc.len()),
    ensures
        ({
            let a = host.source(
                seed,
                energy,
                position,
                direction,
                PendDrain::Fifo,
                max_steps,
                tracing,
                rules,
            );
            let b = host.source(
                seed,
                energy,
                position,
                direction,
                PendDrain::Lifo,
                max_steps,
                tracing,
                rules,
            );
            &&& exists|n: nat| (#[trigger] host.course(a, n)).walk.phase is Over
            &&& exists|m: nat| (#[trigger] host.course(b, m)).walk.phase is Over
            &&& forall|n: nat, m: nat|
                (#[trigger] host.course(a, n)).walk.phase is Over && (#[trigger] host.course(
                    b,
                    m,
                )).walk.phase is Over ==> deposited_all(acc, host.course(a, n).deposits)
                    == deposited_all(acc, host.course(b, m).deposits) && host.course(
                    a,
                    n,
                ).walk.history.lost.len() == host.course(b, m).walk.history.lost.len()
        }),
{
    let fifo = PendDrain::Fifo;
    let lifo = PendDrain::Lifo;
    let a = host.source(seed, energy, position, direction, fifo, max_steps, tracing, rules);
    let b = host.source(seed, energy, position, direction, lifo, max_steps, tracing, rules);
    let (na, nb) = if max_steps == 0 {
        lemma_finish(host, a);
        lemma_finish(host, b);
        (1nat, 1nat)
    } else {
        lemma_orders_score_alike(
            host,
            t,
            seed,
            energy,
            position,
            direction,
            max_steps,
            tracing,
            rules,
            acc,
        )
    };
    assert forall|n: nat, m: nat|
        (#[trigger] host.course(a, n)).walk.phase is Over && (#[trigger] host.course(
            b,
            m,
        )).walk.phase is Over implies host.course(a, n) == host.course(a, na) && host.course(b, m)
        == host.course(b, nb) by {
        if n <= na {
            an_ended_history_stays(host, a, n, na);
        } else {
            an_ended_history_stays(host, a, na, n);
        }
        if m <= nb {
            an_ended_history_stays(host, b, m, nb);
        } else {
            an_ended_history_stays(host, b, nb, m);
        }
    }
}

} // verus!
