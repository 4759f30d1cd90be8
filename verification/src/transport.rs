//! The step machine of one particle history.
//!
//! A step takes the particle from a point in a cell to a collision or a
//! surface. The host evaluates the physics: which cell holds the point, how far
//! the particle flies, what a collision samples. The machine asks for one such
//! result at a time, decides what follows from it, and asks for the next. It
//! keeps the order in which a step's parts take place: locate, fly, move, then
//! either cross or collide, roulette, record, and the step is over.
use crate::history::{
    emitted, lemma_depth_holds, Collision, CollisionRecord, History, HistoryState, 
    ParticleOutcome, Secondary, StepStart,
};
use crate::ieee::Real;
use crate::layout::{CELL_NOT_FOUND, FISSION_BANK_PROGENY_CAP, MT_INELASTIC_COUNT};
use crate::pend::{Particle, PendDrain, PEND_SLOTS};
use crate::reaction::{
    analog_multiplicity, collides_first, extra_progeny, is_first_reaching, nearest_of,
    nearest_surface, progeny_count, reaction_code, reaction_for, select_reaction, select_slot,
    slot_for, survival_applies, Reaction, YIELD_TOLERANCE_BITS,
};
use crate::roulette::needs_roulette;
use vstd::prelude::*;

verus! {

/// Settings that a walk's decisions depend on.
#[derive(Clone, Copy, Debug)]
pub struct WalkRules {
    /// Implicit capture, with roulette below the cutoff.
    pub survival_on: bool,
    pub weight_cutoff: Real,
    pub weight_survive: Real,
    /// Fission emits its neutrons one by one.
    pub fission_bank: bool,
}

/// What the machine waits for.
#[derive(Clone, Copy, Debug)]
pub enum Phase {
    /// The next step.
    Between,
    /// The cell of the particle.
    AtPoint,
    /// The distances of the flight.
    InCell,
    /// The point at the end of the flight.
    Moving { collides: bool, surface: usize },
    /// The surface's boundary code and the point just past it.
    AtSurface,
    /// The struck nuclide's cross section for scattering and fission.
    Struck { energy_in: Real },
    /// The cumulative probabilities of the reactions.
    Splitting { energy_in: Real, implicit: bool },
    /// The outcome of elastic scattering.
    Scattering { energy_in: Real },
    /// The running sums of the inelastic slots.
    Slotting { energy_in: Real },
    /// The yield of the chosen slot.
    Yielding { energy_in: Real, slot: usize },
    /// The neutrons that leave the chosen slot.
    Emitting { energy_in: Real, slot: usize, n_out: Option<u32>, weight: Real },
    /// The outcome of a fission that multiplies the weight.
    Fissioning { energy_in: Real },
    /// The mean number of fission neutrons.
    Counting { energy_in: Real },
    /// The fission neutrons.
    Branching { energy_in: Real, n_progeny: u32, extra: u32 },
    /// The draw of the roulette.
    Rouletting { energy_in: Real, code: i32 },
    /// Nothing: the history is over.
    Over,
}

/// What the host found.
pub enum Event {
    Begin,
    Cell { cell: u32 },
    /// Sampled distance to a collision, and the distance to each surface.
    Flight { sampled: Real, hits: Vec<Real> },
    Moved { px: Real, py: Real, pz: Real },
    Crossed { boundary: u32, px: Real, py: Real, pz: Real },
    Partials { sigma_sf: Real },
    /// Cumulative probabilities and the draw. `weight` is the weight discounted
    /// by implicit capture, where it applies.
    Thresholds { weight: Real, p_elastic: Real, p_scatter: Real, p_any: Real, xi: Real },
    Scattered { energy: Real, dx: Real, dy: Real, dz: Real },
    /// Running sums of the slots' cross sections, and the drawn fraction of
    /// their total.
    Slots { sums: Vec<Real>, target: Real },
    /// The yield rounded to an integer, its distance to it, and the weight times
    /// the yield.
    Yield { rounded: u32, deviation: Real, weight: Real },
    Emitted { walk_energy: Option<Real>, dx: Real, dy: Real, dz: Real, secondaries: Vec<Secondary> },
    Fissioned { weight: Real, energy: Real, dx: Real, dy: Real, dz: Real },
    /// The mean number of neutrons: its integer part, the draw and the rest.
    MeanProgeny { n_floor: u32, xi: Real, fraction: Real },
    Branched { energy: Real, dx: Real, dy: Real, dz: Real, progeny: Vec<Secondary> },
    Roulette { survival: Real, xi: Real },
}

/// What the host does next.
#[derive(Clone, Copy, Debug)]
pub enum Action {
    /// Begin the next step.
    Begin,
    /// Find the cell of the particle.
    Locate,
    /// Start the random stream of a queued secondary, then find its cell.
    Resume { seed: u32 },
    /// Sample a flight in the cell.
    Fly { cell: u32 },
    /// Move the particle and score the flight.
    Move { distance: Real, collides: bool },
    /// Cross the surface.
    Cross { surface: usize },
    /// Find the struck nuclide.
    Strike,
    /// Compute the cumulative probabilities, over scattering and fission alone
    /// where capture is implicit.
    Split { implicit: bool },
    ScatterElastically,
    FindSlot,
    FindYield { slot: usize },
    /// Sample the walk's outgoing state, and those of `extra` more neutrons.
    Emit { slot: usize, extra: u32 },
    Fission,
    CountProgeny,
    EmitProgeny { extra: u32 },
    DrawRoulette,
    Finished,
    /// The event was not what the machine waits for; nothing changed.
    Unexpected,
}

/// A history in progress, as a mathematical value.
#[verifier::ext_equal]
pub struct WalkState {
    pub history: HistoryState,
    pub rules: WalkRules,
    pub phase: Phase,
}

/// Neutrons that leave a reaction besides the walk.
pub open spec fn extra_out(n_out: Option<u32>) -> int {
    match n_out {
        Some(n) => n - 1,
        None => 0,
    }
}

/// Progeny besides the walk.
pub open spec fn extra_of(n_progeny: u32) -> int {
    if n_progeny == 0 {
        0
    } else if n_progeny <= FISSION_BANK_PROGENY_CAP {
        n_progeny - 1
    } else {
        FISSION_BANK_PROGENY_CAP - 1
    }
}

/// Code recorded for a reaction.
pub open spec fn code_of(reaction: Reaction, slot: int) -> i32 {
    match reaction {
        Reaction::Absorption => 102i32,
        Reaction::Elastic => 2i32,
        Reaction::Fission => 18i32,
        Reaction::Inelastic => (51 + slot) as i32,
    }
}

/// Neutrons emitted by a reaction of the given yield.
pub open spec fn multiplicity(rounded: u32, deviation: Real) -> Option<u32> {
    if rounded >= 2 && deviation.lt(Real { bits: YIELD_TOLERANCE_BITS }) {
        Some(rounded)
    } else {
        None
    }
}

impl WalkState {
    pub open spec fn at(self, history: HistoryState, phase: Phase) -> WalkState {
        WalkState { history, phase, ..self }
    }

    /// The step is over.
    pub open spec fn step_over(self, history: HistoryState) -> (WalkState, Action) {
        (self.at(history.stepped(), Phase::Between), Action::Begin)
    }

    /// The collision is recorded and the step is over.
    pub open spec fn collision_over(
        self,
        history: HistoryState,
        energy_in: Real,
        code: i32,
    ) -> (WalkState, Action) {
        self.step_over(history.recorded(energy_in, code))
    }

    /// After a collision: roulette, where the particle needs it.
    #[verifier::opaque]
    pub open spec fn after_collision(
        self,
        collision: Collision,
        energy_in: Real,
        code: i32,
    ) -> (WalkState, Action) {
        let h = self.history.collided(collision);
        if self.rules.survival_on && h.alive && h.particle.weight.lt(self.rules.weight_cutoff) {
            (self.at(h, Phase::Rouletting { energy_in, code }), Action::DrawRoulette)
        } else {
            self.collision_over(h, energy_in, code)
        }
    }

    pub open spec fn begun(self) -> (WalkState, Action) {
        let (h, start) = self.history.begun();
        match start {
            StepStart::Finished => (self.at(h, Phase::Over), Action::Finished),
            StepStart::Continue => (self.at(h, Phase::AtPoint), Action::Locate),
            StepStart::Resume { seed } => (self.at(h, Phase::AtPoint), Action::Resume { seed }),
        }
    }

    pub open spec fn located(self, cell: u32) -> (WalkState, Action) {
        if cell == CELL_NOT_FOUND {
            self.step_over(self.history.lost_here())
        } else {
            (
                self.at(
                    HistoryState { last_cell: Some(cell as usize), ..self.history },
                    Phase::InCell,
                ),
                Action::Fly { cell },
            )
        }
    }

    /// The particle goes to the collision or to the nearest surface, whichever
    /// is nearer.
    pub open spec fn flown(self, sampled: Real, hits: Seq<Real>) -> (WalkState, Action) {
        let near = nearest_of(hits);
        let collides = sampled.lt(near.distance);
        let distance = if collides {
            sampled
        } else {
            near.distance
        };
        (
            self.at(self.history, Phase::Moving { collides, surface: near.surface }),
            Action::Move { distance, collides },
        )
    }

    pub open spec fn moved(
        self,
        collides: bool,
        surface: usize,
        px: Real,
        py: Real,
        pz: Real,
    ) -> (WalkState, Action) {
        let h = self.history.with_position(px, py, pz);
        if collides {
            (self.at(h, Phase::Struck { energy_in: h.particle.energy }), Action::Strike)
        } else {
            (self.at(h, Phase::AtSurface), Action::Cross { surface })
        }
    }

    pub open spec fn crossed(self, boundary: u32, px: Real, py: Real, pz: Real) -> (
        WalkState,
        Action,
    ) {
        self.step_over(
            if boundary == crate::layout::BOUNDARY_VACUUM {
                self.history.ended()
            } else {
                self.history.with_position(px, py, pz)
            },
        )
    }

    pub open spec fn split(
        self,
        energy_in: Real,
        implicit: bool,
        weight: Real,
        reaction: Reaction,
    ) -> (WalkState, Action) {
        let h = if implicit {
            self.history.with_weight(weight)
        } else {
            self.history
        };
        let s = self.at(h, self.phase);
        match reaction {
            Reaction::Absorption => s.after_collision(
                Collision::Absorption,
                energy_in,
                code_of(reaction, 0),
            ),
            Reaction::Elastic => (
                self.at(h, Phase::Scattering { energy_in }),
                Action::ScatterElastically,
            ),
            Reaction::Inelastic => (self.at(h, Phase::Slotting { energy_in }), Action::FindSlot),
            Reaction::Fission => if self.rules.fission_bank {
                (self.at(h, Phase::Counting { energy_in }), Action::CountProgeny)
            } else {
                (self.at(h, Phase::Fissioning { energy_in }), Action::Fission)
            },
        }
    }

    pub open spec fn yielded(
        self,
        energy_in: Real,
        slot: usize,
        rounded: u32,
        deviation: Real,
        weight: Real,
    ) -> (WalkState, Action) {
        let n_out = multiplicity(rounded, deviation);
        (
            self.at(self.history, Phase::Emitting { energy_in, slot, n_out, weight }),
            Action::Emit { slot, extra: extra_out(n_out) as u32 },
        )
    }

    pub open spec fn counted(self, energy_in: Real, n_progeny: u32) -> (WalkState, Action) {
        let extra = extra_of(n_progeny) as u32;
        (
            self.at(self.history, Phase::Branching { energy_in, n_progeny, extra }),
            Action::EmitProgeny { extra },
        )
    }

    /// What follows an event.
    pub open spec fn next(self, event: Event) -> (WalkState, Action) {
        let h = self.history;
        match (self.phase, event) {
            (Phase::Between, Event::Begin) => self.begun(),
            (Phase::AtPoint, Event::Cell { cell }) => self.located(cell),
            (Phase::InCell, Event::Flight { sampled, hits }) => self.flown(sampled, hits@),
            (Phase::Moving { collides, surface }, Event::Moved { px, py, pz }) => self.moved(
                collides,
                surface,
                px,
                py,
                pz,
            ),
            (Phase::AtSurface, Event::Crossed { boundary, px, py, pz }) => self.crossed(
                boundary,
                px,
                py,
                pz,
            ),
            (Phase::Struck { energy_in }, Event::Partials { sigma_sf }) => {
                let implicit = self.rules.survival_on && sigma_sf.positive();
                (self.at(h, Phase::Splitting { energy_in, implicit }), Action::Split { implicit })
            },
            (
                Phase::Splitting { energy_in, implicit },
                Event::Thresholds { weight, p_elastic, p_scatter, p_any, xi },
            ) => self.split(
                energy_in,
                implicit,
                weight,
                reaction_for(xi, p_elastic, p_scatter, p_any),
            ),
            (Phase::Scattering { energy_in }, Event::Scattered { energy, dx, dy, dz }) =>
            self.after_collision(
                Collision::Elastic { energy, dx, dy, dz },
                energy_in,
                code_of(Reaction::Elastic, 0),
            ),
            (Phase::Slotting { energy_in }, Event::Slots { sums, target }) => if sums@.len()
                == MT_INELASTIC_COUNT {
                let slot = slot_for(sums@, target) as usize;
                (self.at(h, Phase::Yielding { energy_in, slot }), Action::FindYield { slot })
            } else {
                (self, Action::Unexpected)
            },
            (Phase::Yielding { energy_in, slot }, Event::Yield { rounded, deviation, weight }) =>
            self.yielded(energy_in, slot, rounded, deviation, weight),
            (
                Phase::Emitting { energy_in, slot, n_out, weight },
                Event::Emitted { walk_energy, dx, dy, dz, secondaries },
            ) => if secondaries@.len() <= extra_out(n_out) {
                let code = code_of(Reaction::Inelastic, slot as int);
                match n_out {
                    Some(_) => self.after_collision(
                        Collision::Multiple { walk_energy, dx, dy, dz, secondaries },
                        energy_in,
                        code,
                    ),
                    None => self.after_collision(
                        Collision::Weighted { weight, walk_energy, dx, dy, dz },
                        energy_in,
                        code,
                    ),
                }
            } else {
                (self, Action::Unexpected)
            },
            (
                Phase::Fissioning { energy_in },
                Event::Fissioned { weight, energy, dx, dy, dz },
            ) => self.after_collision(
                Collision::FissionWeighted { weight, energy, dx, dy, dz },
                energy_in,
                code_of(Reaction::Fission, 0),
            ),
            (
                Phase::Counting { energy_in },
                Event::MeanProgeny { n_floor, xi, fraction },
            ) => if n_floor < u32::MAX {
                self.counted(
                    energy_in,
                    if xi.lt(fraction) {
                        (n_floor + 1) as u32
                    } else {
                        n_floor
                    },
                )
            } else {
                (self, Action::Unexpected)
            },
            (
                Phase::Branching { energy_in, n_progeny, extra },
                Event::Branched { energy, dx, dy, dz, progeny },
            ) => if progeny@.len() == extra {
                self.after_collision(
                    Collision::FissionBanked { n_progeny, energy, dx, dy, dz, progeny },
                    energy_in,
                    code_of(Reaction::Fission, 0),
                )
            } else {
                (self, Action::Unexpected)
            },
            (Phase::Rouletting { energy_in, code }, Event::Roulette { survival, xi }) =>
            self.collision_over(
                h.rouletted(survival, self.rules.weight_survive, xi),
                energy_in,
                code,
            ),
            _ => (self, Action::Unexpected),
        }
    }
}

/// Neutrons that an event queues.
pub open spec fn carried(event: Event) -> nat {
    match event {
        Event::Emitted { walk_energy, dx, dy, dz, secondaries } => secondaries@.len(),
        Event::Branched { energy, dx, dy, dz, progeny } => progeny@.len(),
        _ => 0,
    }
}

/// One history and where in a step it is.
pub struct Walk {
    history: History,
    rules: WalkRules,
    phase: Phase,
}

impl View for Walk {
    type V = WalkState;

    closed spec fn view(&self) -> WalkState {
        WalkState { history: self.history@, rules: self.rules, phase: self.phase }
    }
}

impl WalkState {
    /// The walk is in the middle of a step.
    pub open spec fn in_step(self) -> bool {
        !(self.phase is Between) && !(self.phase is Over)
    }

    /// A step that is under way may be taken; before its collision the particle
    /// lives.
    pub open spec fn ready(self) -> bool {
        &&& self.in_step() ==> self.history.step < self.history.max_steps
        &&& self.in_step() && !(self.phase is Rouletting) ==> self.history.alive
        &&& (self.phase matches Phase::Yielding { slot, .. } ==> slot < MT_INELASTIC_COUNT)
        &&& (self.phase matches Phase::Emitting { slot, n_out, .. } ==> slot < MT_INELASTIC_COUNT
            && extra_out(n_out) >= 0)
    }
}

/// Code of an inelastic slot.
pub open spec fn is_slot_code(code: i32) -> bool {
    51 <= code < 51 + MT_INELASTIC_COUNT
}

/// A record of a collision within the allowed steps: an absorption, which leaves
/// the energy as it was, an elastic scattering, a fission or an inelastic slot.
/// Slot 51 shares its code with absorption.
pub open spec fn is_record(rec: CollisionRecord, max_steps: u32) -> bool {
    &&& rec.step < max_steps
    &&& {
        ||| rec.reaction == 102 && rec.energy_out == rec.energy_in
        ||| rec.reaction == 2
        ||| rec.reaction == 18
        ||| is_slot_code(rec.reaction)
    }
}

impl WalkState {
    /// What holds of a history at any point: no walk takes more steps than
    /// allowed, between steps their number is that of the current walk, and it
    /// is over only when nothing is left to transport. Until a collision's
    /// outcome is known the walk has the energy that entered it.
    pub open spec fn sound(self) -> bool {
        let h = self.history;
        &&& h.depth_holds()
        &&& 0 <= h.step <= h.max_steps
        &&& h.pend.len() > 0 ==> h.max_steps > 0
        &&& !self.in_step() ==> h.n_steps == h.step
        &&& self.phase is Over ==> h.finished()
        &&& (self.phase matches Phase::Struck { energy_in } ==> energy_in == h.particle.energy)
        &&& (self.phase matches Phase::Splitting { energy_in, .. } ==> energy_in
            == h.particle.energy)
        &&& (self.phase matches Phase::Rouletting { code, .. } ==> code == 2 || code == 18
            || is_slot_code(code))
        &&& forall|i: int|
            0 <= i < h.trace.len() ==> is_record(#[trigger] h.trace[i], h.max_steps)
    }
}

impl Walk {
    closed spec fn wf_history(self) -> bool {
        self.history.wf()
    }

    closed spec fn wf_step(self) -> bool {
        &&& self.history.wf()
        &&& self@.ready()
    }

    pub closed spec fn wf(self) -> bool {
        &&& self.wf_step()
        &&& self@.sound()
    }

    /// Starts a history: the source particle is about to take its first step.
    pub fn start(
        seed: u32,
        energy: Real,
        position: [Real; 3],
        direction: [Real; 3],
        drain: PendDrain,
        max_steps: u32,
        tracing: bool,
        rules: WalkRules,
    ) -> (r: Walk)
        ensures
            r.wf(),
            r@.rules == rules,
            r@.phase is Between,
            r@.history == HistoryState::source(
                seed,
                energy,
                position,
                direction,
                drain,
                max_steps,
                tracing,
            ),
    {
        Walk {
            history: History::start(seed, energy, position, direction, drain, max_steps, tracing),
            rules,
            phase: Phase::Between,
        }
    }

    /// The particle of the current walk.
    pub fn particle(&self) -> (r: Particle)
        ensures
            r == self@.history.particle,
    {
        self.history.particle()
    }

    /// Seed of the current walk and the ordinal of its next secondary: the key
    /// from which the secondary's own seed is derived.
    pub fn secondary_key(&self) -> (r: (u32, u32))
        ensures
            r.0 == self@.history.walk_seed,
            r.1 == self@.history.walk_secondaries,
    {
        self.history.secondary_key()
    }

    /// Base uniform of the band that the walk holds at its energy.
    pub fn held_band(&self) -> (r: Option<Real>)
        ensures
            r == self@.history.band_here(),
    {
        self.history.held_band()
    }

    /// Holds a freshly drawn band for the current energy.
    pub fn hold_band(&mut self, base: Real)
        requires
            old(self).wf(),
        ensures
            final(self).wf(),
            final(self)@ == old(self)@.at(old(self)@.history.holding(base), old(self)@.phase),
    {
        self.history.hold_band(base);
        assert(self@ =~= old(self)@.at(old(self)@.history.holding(base), old(self)@.phase));
    }

    fn step_over(&mut self) -> (r: Action)
        requires
            old(self).wf_history(),
            old(self)@.history.step < old(self)@.history.max_steps,
        ensures
            final(self).wf_step(),
            (final(self)@, r) == old(self)@.step_over(old(self)@.history),
    {
        self.history.end_step();
        self.phase = Phase::Between;
        Action::Begin
    }

    fn collision_over(&mut self, energy_in: Real, code: i32) -> (r: Action)
        requires
            old(self).wf_history(),
            old(self)@.history.step < old(self)@.history.max_steps,
        ensures
            final(self).wf_step(),
            (final(self)@, r) == old(self)@.collision_over(old(self)@.history, energy_in, code),
    {
        self.history.record(energy_in, code);
        self.step_over()
    }

    fn after_collision(&mut self, collision: Collision, energy_in: Real, code: i32) -> (r: Action)
        requires
            old(self).wf_history(),
            old(self)@.history.running(),
            old(self)@.history.pend.len() + emitted(collision) < usize::MAX,
            old(self)@.history.walk_secondaries + emitted(collision) <= u32::MAX,
            old(self)@.history.spilled + emitted(collision) <= u32::MAX,
        ensures
            final(self).wf_step(),
            (final(self)@, r) == old(self)@.after_collision(collision, energy_in, code),
    {
        self.history.collide(&collision);
        proof {
            reveal(WalkState::after_collision);
            lemma_collision_keeps_step(old(self)@.history, collision);
        }
        if needs_roulette(
            self.rules.survival_on,
            self.history.is_alive(),
            self.history.particle().weight,
            self.rules.weight_cutoff,
        ) {
            self.phase = Phase::Rouletting { energy_in, code };
            Action::DrawRoulette
        } else {
            self.collision_over(energy_in, code)
        }
    }

    fn begin(&mut self) -> (r: Action)
        requires
            old(self).wf_step(),
        ensures
            final(self).wf_step(),
            (final(self)@, r) == old(self)@.begun(),
    {
        match self.history.begin_step() {
            StepStart::Finished => {
                self.phase = Phase::Over;
                Action::Finished
            },
            StepStart::Continue => {
                self.phase = Phase::AtPoint;
                Action::Locate
            },
            StepStart::Resume { seed } => {
                self.phase = Phase::AtPoint;
                Action::Resume { seed }
            },
        }
    }

    fn locate(&mut self, cell: u32) -> (r: Action)
        requires
            old(self).wf_step(),
            old(self)@.phase is AtPoint,
        ensures
            final(self).wf_step(),
            (final(self)@, r) == old(self)@.located(cell),
    {
        if self.history.enter_cell(cell) {
            self.phase = Phase::InCell;
            Action::Fly { cell }
        } else {
            self.step_over()
        }
    }

    fn fly(&mut self, sampled: Real, hits: &[Real]) -> (r: Action)
        requires
            old(self).wf_step(),
            old(self)@.phase is InCell,
        ensures
            final(self).wf_step(),
            (final(self)@, r) == old(self)@.flown(sampled, hits@),
    {
        let near = nearest_surface(hits);
        let collides = collides_first(sampled, near.distance);
        let distance: Real = if collides {
            sampled
        } else {
            near.distance
        };
        self.phase = Phase::Moving { collides, surface: near.surface };
        Action::Move { distance, collides }
    }

    fn arrive(&mut self, collides: bool, surface: usize, px: Real, py: Real, pz: Real) -> (r: Action)
        requires
            old(self).wf_step(),
            old(self)@.phase is Moving,
        ensures
            final(self).wf_step(),
            (final(self)@, r) == old(self)@.moved(collides, surface, px, py, pz),
    {
        self.history.fly_to(px, py, pz);
        if collides {
            self.phase = Phase::Struck { energy_in: self.history.particle().energy };
            Action::Strike
        } else {
            self.phase = Phase::AtSurface;
            Action::Cross { surface }
        }
    }

    fn split(&mut self, energy_in: Real, implicit: bool, weight: Real, reaction: Reaction) -> (r:
        Action)
        requires
            old(self).wf_step(),
            old(self)@.phase is Splitting,
            old(self)@.history.pend.len() < usize::MAX,
            old(self)@.history.walk_secondaries <= u32::MAX,
            old(self)@.history.spilled <= u32::MAX,
        ensures
            final(self).wf_step(),
            (final(self)@, r) == old(self)@.split(energy_in, implicit, weight, reaction),
    {
        if implicit {
            self.history.set_weight(weight);
        }
        match reaction {
            Reaction::Absorption => self.after_collision(
                Collision::Absorption,
                energy_in,
                reaction_code(reaction, 0),
            ),
            Reaction::Elastic => {
                self.phase = Phase::Scattering { energy_in };
                Action::ScatterElastically
            },
            Reaction::Inelastic => {
                self.phase = Phase::Slotting { energy_in };
                Action::FindSlot
            },
            Reaction::Fission => if self.rules.fission_bank {
                self.phase = Phase::Counting { energy_in };
                Action::CountProgeny
            } else {
                self.phase = Phase::Fissioning { energy_in };
                Action::Fission
            },
        }
    }

    /// Takes what the host found and says what it does next.
    #[verifier::rlimit(40)]
    pub fn advance(&mut self, event: Event) -> (r: Action)
        requires
            old(self).wf(),
            old(self)@.history.pend.len() + carried(event) < usize::MAX,
            old(self)@.history.walk_secondaries + carried(event) <= u32::MAX,
            old(self)@.history.spilled + carried(event) <= u32::MAX,
        ensures
            final(self).wf(),
            (final(self)@, r) == old(self)@.next(event),
    {
        proof {
            lemma_next_is_sound(self@, event);
        }
        match (self.phase, event) {
            (Phase::Between, Event::Begin) => self.begin(),
            (Phase::AtPoint, Event::Cell { cell }) => self.locate(cell),
            (Phase::InCell, Event::Flight { sampled, hits }) => self.fly(sampled, hits.as_slice()),
            (Phase::Moving { collides, surface }, Event::Moved { px, py, pz }) => self.arrive(
                collides,
                surface,
                px,
                py,
                pz,
            ),
            (Phase::AtSurface, Event::Crossed { boundary, px, py, pz }) => {
                self.history.cross(boundary, px, py, pz);
                self.step_over()
            },
            (Phase::Struck { energy_in }, Event::Partials { sigma_sf }) => {
                let implicit = survival_applies(self.rules.survival_on, sigma_sf);
                self.phase = Phase::Splitting { energy_in, implicit };
                Action::Split { implicit }
            },
            (
                Phase::Splitting { energy_in, implicit },
                Event::Thresholds { weight, p_elastic, p_scatter, p_any, xi },
            ) => {
                let reaction = select_reaction(xi, p_elastic, p_scatter, p_any);
                self.split(energy_in, implicit, weight, reaction)
            },
            (Phase::Scattering { energy_in }, Event::Scattered { energy, dx, dy, dz }) =>
            self.after_collision(
                Collision::Elastic { energy, dx, dy, dz },
                energy_in,
                reaction_code(Reaction::Elastic, 0),
            ),
            (Phase::Slotting { energy_in }, Event::Slots { sums, target }) => {
                if sums.len() == MT_INELASTIC_COUNT {
                    let slot: usize = select_slot(sums.as_slice(), target);
                    self.phase = Phase::Yielding { energy_in, slot };
                    Action::FindYield { slot }
                } else {
                    Action::Unexpected
                }
            },
            (Phase::Yielding { energy_in, slot }, Event::Yield { rounded, deviation, weight }) => {
                let n_out = analog_multiplicity(rounded, deviation);
                let extra: u32 = match n_out {
                    Some(n) => n - 1,
                    None => 0,
                };
                self.phase = Phase::Emitting { energy_in, slot, n_out, weight };
                Action::Emit { slot, extra }
            },
            (
                Phase::Emitting { energy_in, slot, n_out, weight },
                Event::Emitted { walk_energy, dx, dy, dz, secondaries },
            ) => {
                let extra: usize = match n_out {
                    Some(n) => n as usize - 1,
                    None => 0,
                };
                let code: i32 = reaction_code(Reaction::Inelastic, slot);
                if secondaries.len() > extra {
                    Action::Unexpected
                } else {
                    match n_out {
                        Some(_) => self.after_collision(
                            Collision::Multiple { walk_energy, dx, dy, dz, secondaries },
                            energy_in,
                            code,
                        ),
                        None => self.after_collision(
                            Collision::Weighted { weight, walk_energy, dx, dy, dz },
                            energy_in,
                            code,
                        ),
                    }
                }
            },
            (Phase::Fissioning { energy_in }, Event::Fissioned { weight, energy, dx, dy, dz }) =>
            self.after_collision(
                Collision::FissionWeighted { weight, energy, dx, dy, dz },
                energy_in,
                reaction_code(Reaction::Fission, 0),
            ),
            (Phase::Counting { energy_in }, Event::MeanProgeny { n_floor, xi, fraction }) => {
                if n_floor < u32::MAX {
                    let n_progeny: u32 = progeny_count(n_floor, xi, fraction);
                    let extra: u32 = extra_progeny(n_progeny);
                    self.phase = Phase::Branching { energy_in, n_progeny, extra };
                    Action::EmitProgeny { extra }
                } else {
                    Action::Unexpected
                }
            },
            (
                Phase::Branching { energy_in, n_progeny, extra },
                Event::Branched { energy, dx, dy, dz, progeny },
            ) => {
                if progeny.len() as u64 == extra as u64 {
                    self.after_collision(
                        Collision::FissionBanked { n_progeny, energy, dx, dy, dz, progeny },
                        energy_in,
                        reaction_code(Reaction::Fission, 0),
                    )
                } else {
                    Action::Unexpected
                }
            },
            (Phase::Rouletting { energy_in, code }, Event::Roulette { survival, xi }) => {
                self.history.roulette(survival, self.rules.weight_survive, xi);
                self.collision_over(energy_in, code)
            },
            _ => Action::Unexpected,
        }
    }

    /// Outcome of the history, with its trace.
    pub fn finish(self) -> (r: (ParticleOutcome, Vec<CollisionRecord>))
        requires
            self.wf(),
        ensures
            r.0@ == self@.history.outcome(),
            r.1@ == self@.history.trace,
            r.0.n_steps <= self@.history.max_steps,
            r.0.max_pend_depth <= PEND_SLOTS,
            r.0.n_spilled > 0 ==> r.0.max_pend_depth == PEND_SLOTS,
            self@.phase is Over && r.0.alive == 1 ==> r.0.n_steps == self@.history.max_steps,
            forall|i: int|
                0 <= i < r.1@.len() ==> is_record(#[trigger] r.1@[i], self@.history.max_steps),
    {
        self.history.finish()
    }
}

proof fn lemma_collision_keeps_step(h: HistoryState, c: Collision)
    ensures
        h.collided(c).step == h.step,
        h.collided(c).max_steps == h.max_steps,
        h.collided(c).trace == h.trace,
        h.collided(c).tracing == h.tracing,
        h.collided(c).drain == h.drain,
{
    match c {
        Collision::Multiple { walk_energy, dx, dy, dz, secondaries } => {
            lemma_queueing_keeps_step(h, secondaries@, true);
        },
        Collision::FissionBanked { n_progeny, energy, dx, dy, dz, progeny } => {
            lemma_queueing_keeps_step(h, progeny@, false);
        },
        _ => {},
    }
}

proof fn lemma_queueing_keeps_step(h: HistoryState, s: Seq<Secondary>, nxn: bool)
    ensures
        h.queued_all(s, nxn).step == h.step,
        h.queued_all(s, nxn).max_steps == h.max_steps,
        h.queued_all(s, nxn).trace == h.trace,
        h.queued_all(s, nxn).tracing == h.tracing,
        h.queued_all(s, nxn).drain == h.drain,
    decreases s.len(),
{
    if s.len() > 0 {
        lemma_queueing_keeps_step(h, s.drop_last(), nxn);
    }
}

impl WalkState {
    /// Energy at which the collision under way was entered.
    pub open spec fn energy_in(self) -> Option<Real> {
        match self.phase {
            Phase::Struck { energy_in } => Some(energy_in),
            Phase::Splitting { energy_in, .. } => Some(energy_in),
            Phase::Scattering { energy_in } => Some(energy_in),
            Phase::Slotting { energy_in } => Some(energy_in),
            Phase::Yielding { energy_in, .. } => Some(energy_in),
            Phase::Emitting { energy_in, .. } => Some(energy_in),
            Phase::Fissioning { energy_in } => Some(energy_in),
            Phase::Counting { energy_in } => Some(energy_in),
            Phase::Branching { energy_in, .. } => Some(energy_in),
            Phase::Rouletting { energy_in, .. } => Some(energy_in),
            _ => None,
        }
    }
}

/// A collision leads to the roulette, or ends the step and is recorded.
proof fn lemma_after_collision(s: WalkState, c: Collision, energy_in: Real, code: i32)
    ensures
        ({
            let n = s.after_collision(c, energy_in, code).0;
            let h = n.history;
            &&& n.rules == s.rules
            &&& n.phase is Rouletting || n.phase is Between
            &&& n.phase is Rouletting ==> s.rules.survival_on && h.step == s.history.step && h.trace
                == s.history.trace
            &&& n.phase is Between ==> h.step == s.history.step + 1 && h.trace
                == if s.history.tracing {
                s.history.trace.push(record_of(s.history.step, energy_in, n, code))
            } else {
                s.history.trace
            }
        }),
{
    reveal(WalkState::after_collision);
    lemma_collision_keeps_step(s.history, c);
}

/// The settings of a history are the same in both states.
pub open spec fn same_settings(a: WalkState, b: WalkState) -> bool {
    &&& a.history.max_steps == b.history.max_steps
    &&& a.history.tracing == b.history.tracing
    &&& a.history.drain == b.history.drain
    &&& a.rules == b.rules
}

proof fn lemma_after_collision_keeps_settings(
    s: WalkState,
    c: Collision,
    energy_in: Real,
    code: i32,
)
    ensures
        same_settings(s, s.after_collision(c, energy_in, code).0),
{
    reveal(WalkState::after_collision);
    lemma_collision_keeps_step(s.history, c);
}

/// No event changes the settings.
#[verifier::rlimit(40)]
pub(crate) proof fn lemma_next_keeps_settings(s: WalkState, event: Event)
    ensures
        same_settings(s, s.next(event).0),
{
    let h = s.history;
    match (s.phase, event) {
        (
            Phase::Splitting { energy_in, implicit },
            Event::Thresholds { weight, p_elastic, p_scatter, p_any, xi },
        ) => {
            let h2 = if implicit {
                h.with_weight(weight)
            } else {
                h
            };
            lemma_after_collision_keeps_settings(
                s.at(h2, s.phase),
                Collision::Absorption,
                energy_in,
                code_of(Reaction::Absorption, 0),
            );
        },
        (Phase::Scattering { energy_in }, Event::Scattered { energy, dx, dy, dz }) => {
            lemma_after_collision_keeps_settings(
                s,
                Collision::Elastic { energy, dx, dy, dz },
                energy_in,
                code_of(Reaction::Elastic, 0),
            );
        },
        (
            Phase::Emitting { energy_in, slot, n_out, weight },
            Event::Emitted { walk_energy, dx, dy, dz, secondaries },
        ) => {
            let code = code_of(Reaction::Inelastic, slot as int);
            let a = Collision::Multiple { walk_energy, dx, dy, dz, secondaries };
            let b = Collision::Weighted { weight, walk_energy, dx, dy, dz };
            lemma_after_collision_keeps_settings(s, a, energy_in, code);
            lemma_after_collision_keeps_settings(s, b, energy_in, code);
        },
        (Phase::Fissioning { energy_in }, Event::Fissioned { weight, energy, dx, dy, dz }) => {
            lemma_after_collision_keeps_settings(
                s,
                Collision::FissionWeighted { weight, energy, dx, dy, dz },
                energy_in,
                code_of(Reaction::Fission, 0),
            );
        },
        (
            Phase::Branching { energy_in, n_progeny, extra },
            Event::Branched { energy, dx, dy, dz, progeny },
        ) => {
            lemma_after_collision_keeps_settings(
                s,
                Collision::FissionBanked { n_progeny, energy, dx, dy, dz, progeny },
                energy_in,
                code_of(Reaction::Fission, 0),
            );
        },
        _ => {},
    }
}

/// What every event keeps of a walk.
pub open spec fn keeps_count(s: WalkState, n: WalkState) -> bool {
    &&& n.rules == s.rules
    &&& n.in_step() ==> n.history.step == s.history.step && n.history.trace == s.history.trace
    &&& !n.in_step() ==> n.phase is Between && n.history.step == s.history.step + 1
    &&& !n.in_step() && !(s.history.tracing && s.energy_in() is Some) ==> n.history.trace
        == s.history.trace
    &&& !n.in_step() && s.history.tracing && s.energy_in() is Some ==> exists|code: i32|
        n.history.trace == s.history.trace.push(
            #[trigger] record_of(s.history.step, s.energy_in()->0, n, code),
        )
    &&& n.phase is Rouletting ==> s.phase is Rouletting || s.rules.survival_on
}

proof fn lemma_after_collision_keeps_count(
    s: WalkState,
    from: WalkState,
    c: Collision,
    energy_in: Real,
    code: i32,
)
    requires
        from.energy_in() == Some(energy_in),
        s.rules == from.rules,
        s.history.step == from.history.step,
        s.history.trace == from.history.trace,
        s.history.tracing == from.history.tracing,
    ensures
        keeps_count(from, s.after_collision(c, energy_in, code).0),
{
    lemma_after_collision(s, c, energy_in, code);
    let n = s.after_collision(c, energy_in, code).0;
    if n.phase is Between && s.history.tracing {
        assert(n.history.trace == from.history.trace.push(
            record_of(from.history.step, from.energy_in()->0, n, code),
        ));
    }
}

/// An event ends the step or leaves its count and the trace alone.
#[verifier::rlimit(40)]
pub(crate) proof fn lemma_next(s: WalkState, event: Event)
    requires
        s.in_step(),
    ensures
        keeps_count(s, s.next(event).0),
{
    let h = s.history;
    let n = s.next(event).0;
    match (s.phase, event) {
        (
            Phase::Splitting { energy_in, implicit },
            Event::Thresholds { weight, p_elastic, p_scatter, p_any, xi },
        ) => {
            let h2 = if implicit {
                h.with_weight(weight)
            } else {
                h
            };
            let reaction = reaction_for(xi, p_elastic, p_scatter, p_any);
            lemma_after_collision_keeps_count(
                s.at(h2, s.phase),
                s,
                Collision::Absorption,
                energy_in,
                code_of(reaction, 0),
            );
        },
        (Phase::Scattering { energy_in }, Event::Scattered { energy, dx, dy, dz }) => {
            lemma_after_collision_keeps_count(
                s,
                s,
                Collision::Elastic { energy, dx, dy, dz },
                energy_in,
                code_of(Reaction::Elastic, 0),
            );
        },
        (
            Phase::Emitting { energy_in, slot, n_out, weight },
            Event::Emitted { walk_energy, dx, dy, dz, secondaries },
        ) => {
            let code = code_of(Reaction::Inelastic, slot as int);
            let a = Collision::Multiple { walk_energy, dx, dy, dz, secondaries };
            let b = Collision::Weighted { weight, walk_energy, dx, dy, dz };
            lemma_after_collision_keeps_count(s, s, a, energy_in, code);
            lemma_after_collision_keeps_count(s, s, b, energy_in, code);
        },
        (Phase::Fissioning { energy_in }, Event::Fissioned { weight, energy, dx, dy, dz }) => {
            lemma_after_collision_keeps_count(
                s,
                s,
                Collision::FissionWeighted { weight, energy, dx, dy, dz },
                energy_in,
                code_of(Reaction::Fission, 0),
            );
        },
        (
            Phase::Branching { energy_in, n_progeny, extra },
            Event::Branched { energy, dx, dy, dz, progeny },
        ) => {
            lemma_after_collision_keeps_count(
                s,
                s,
                Collision::FissionBanked { n_progeny, energy, dx, dy, dz, progeny },
                energy_in,
                code_of(Reaction::Fission, 0),
            );
        },
        (Phase::Rouletting { energy_in, code }, Event::Roulette { survival, xi }) => {
            if h.tracing {
                assert(n.history.trace == h.trace.push(
                    record_of(h.step, s.energy_in()->0, n, code),
                ));
            }
        },
        _ => {},
    }
}

proof fn lemma_recorded_is_sound(h: HistoryState, energy_in: Real, code: i32)
    requires
        0 <= h.step < h.max_steps,
        forall|i: int| 0 <= i < h.trace.len() ==> is_record(#[trigger] h.trace[i], h.max_steps),
        code == 102 && h.particle.energy == energy_in || code == 2 || code == 18 || is_slot_code(
            code,
        ),
    ensures
        ({
            let n = h.recorded(energy_in, code);
            forall|i: int| 0 <= i < n.trace.len() ==> is_record(#[trigger] n.trace[i], n.max_steps)
        }),
{
    let n = h.recorded(energy_in, code);
    assert forall|i: int| 0 <= i < n.trace.len() implies is_record(
        #[trigger] n.trace[i],
        n.max_steps,
    ) by {
        if i < h.trace.len() {
            assert(n.trace[i] == h.trace[i]);
        }
    }
}

proof fn lemma_after_collision_is_sound(s: WalkState, c: Collision, energy_in: Real, code: i32)
    requires
        s.history.depth_holds(),
        0 <= s.history.step < s.history.max_steps,
        forall|i: int|
            0 <= i < s.history.trace.len() ==> is_record(
                #[trigger] s.history.trace[i],
                s.history.max_steps,
            ),
        c is Absorption && code == 102 && s.history.particle.energy == energy_in || code == 2
            || code == 18 || is_slot_code(code),
    ensures
        s.after_collision(c, energy_in, code).0.sound(),
        s.after_collision(c, energy_in, code).0.ready(),
{
    reveal(WalkState::after_collision);
    lemma_collision_keeps_step(s.history, c);
    lemma_depth_holds(s.history, c);
    let h = s.history.collided(c);
    lemma_recorded_is_sound(h, energy_in, code);
}

proof fn lemma_slot_in_range(sums: Seq<Real>, target: Real)
    requires
        sums.len() == MT_INELASTIC_COUNT,
    ensures
        0 <= slot_for(sums, target) < MT_INELASTIC_COUNT,
{
    if exists|s: int| is_first_reaching(sums, target, s) {
        let slot = choose|s: int| is_first_reaching(sums, target, s);
        assert(is_first_reaching(sums, target, slot));
    }
}

/// Every event keeps what holds of a history.
#[verifier::rlimit(40)]
pub(crate) proof fn lemma_next_is_sound(s: WalkState, event: Event)
    requires
        s.ready(),
        s.sound(),
    ensures
        s.next(event).0.ready(),
        s.next(event).0.sound(),
{
    let h = s.history;
    match (s.phase, event) {
        (Phase::Between, Event::Begin) => {
            lemma_depth_holds(h, Collision::Absorption);
        },
        (
            Phase::Splitting { energy_in, implicit },
            Event::Thresholds { weight, p_elastic, p_scatter, p_any, xi },
        ) => {
            let h2 = if implicit {
                h.with_weight(weight)
            } else {
                h
            };
            lemma_after_collision_is_sound(
                s.at(h2, s.phase),
                Collision::Absorption,
                energy_in,
                code_of(Reaction::Absorption, 0),
            );
        },
        (Phase::Scattering { energy_in }, Event::Scattered { energy, dx, dy, dz }) => {
            lemma_after_collision_is_sound(
                s,
                Collision::Elastic { energy, dx, dy, dz },
                energy_in,
                code_of(Reaction::Elastic, 0),
            );
        },
        (Phase::Slotting { energy_in }, Event::Slots { sums, target }) => {
            if sums@.len() == MT_INELASTIC_COUNT {
                lemma_slot_in_range(sums@, target);
            }
        },
        (
            Phase::Emitting { energy_in, slot, n_out, weight },
            Event::Emitted { walk_energy, dx, dy, dz, secondaries },
        ) => {
            let code = code_of(Reaction::Inelastic, slot as int);
            assert(is_slot_code(code));
            let a = Collision::Multiple { walk_energy, dx, dy, dz, secondaries };
            let b = Collision::Weighted { weight, walk_energy, dx, dy, dz };
            lemma_after_collision_is_sound(s, a, energy_in, code);
            lemma_after_collision_is_sound(s, b, energy_in, code);
        },
        (Phase::Fissioning { energy_in }, Event::Fissioned { weight, energy, dx, dy, dz }) => {
            lemma_after_collision_is_sound(
                s,
                Collision::FissionWeighted { weight, energy, dx, dy, dz },
                energy_in,
                code_of(Reaction::Fission, 0),
            );
        },
        (
            Phase::Branching { energy_in, n_progeny, extra },
            Event::Branched { energy, dx, dy, dz, progeny },
        ) => {
            lemma_after_collision_is_sound(
                s,
                Collision::FissionBanked { n_progeny, energy, dx, dy, dz, progeny },
                energy_in,
                code_of(Reaction::Fission, 0),
            );
        },
        (Phase::Rouletting { energy_in, code }, Event::Roulette { survival, xi }) => {
            lemma_recorded_is_sound(
                h.rouletted(survival, s.rules.weight_survive, xi),
                energy_in,
                code,
            );
        },
        _ => {},
    }
}

/// A collision is answered with the roulette or ends the step.
proof fn lemma_collisions_go_on()
    ensures
        forall|s: WalkState, c: Collision, energy_in: Real, code: i32|
            #![trigger s.after_collision(c, energy_in, code)]
            {
                let (n, action) = s.after_collision(c, energy_in, code);
                &&& n.phase is Rouletting && action is DrawRoulette || n.phase is Between
                    && action is Begin
            },
{
    reveal(WalkState::after_collision);
}

/// Record of a collision that was entered at `energy_in` in the given step and
/// left the walk as it is in `after`.
pub open spec fn record_of(step: int, energy_in: Real, after: WalkState, code: i32) -> CollisionRecord {
    CollisionRecord {
        step: step as u32,
        energy_in,
        energy_out: after.history.particle.energy,
        reaction: code,
    }
}

/// An event that the machine does not wait for changes nothing.
pub proof fn unexpected_event_changes_nothing(s: WalkState, event: Event)
    requires
        s.next(event).1 is Unexpected,
    ensures
        s.next(event).0 == s,
{
    lemma_collisions_go_on();
}

/// A step is counted once, when it is over.
pub proof fn a_step_is_counted_once(s: WalkState, event: Event)
    requires
        s.in_step(),
    ensures
        s.next(event).0.in_step() ==> s.next(event).0.history.step == s.history.step,
        !s.next(event).0.in_step() ==> s.next(event).0.phase is Between && s.next(
            event,
        ).0.history.step == s.history.step + 1,
{
    lemma_next(s, event);
}

/// In a traced history, a collision leaves one record, when it is over: of its
/// step, the energy that entered it and the energy that the walk goes on with.
/// Nothing else is recorded.
pub proof fn a_collision_is_recorded_once(s: WalkState, event: Event)
    requires
        s.in_step(),
    ensures
        ({
            let n = s.next(event).0;
            if s.history.tracing && s.energy_in() is Some && !n.in_step() {
                exists|code: i32|
                    n.history.trace == s.history.trace.push(
                        #[trigger] record_of(s.history.step, s.energy_in()->0, n, code),
                    )
            } else {
                n.history.trace == s.history.trace
            }
        }),
{
    lemma_next(s, event);
}

/// A collision is under way exactly from its strike on.
#[verifier::rlimit(40)]
pub(crate) proof fn lemma_strike(s: WalkState, event: Event)
    ensures
        s.next(event).1 is Strike ==> s.energy_in() is None && s.next(event).0.energy_in() is Some,
        !(s.next(event).1 is Strike) ==> (s.next(event).0.energy_in() is Some ==> s.energy_in()
            is Some),
        s.energy_in() is Some ==> s.in_step(),
        s.next(event).0.energy_in() is None && s.energy_in() is Some ==> !s.next(event).0.in_step(),
        !s.in_step() ==> s.next(event).0.history.trace == s.history.trace,
{
    lemma_collisions_go_on();
}

/// Without implicit capture no particle is put to roulette.
pub proof fn no_roulette_without_implicit_capture(s: WalkState, event: Event)
    requires
        !s.rules.survival_on,
        !(s.phase is Rouletting),
    ensures
        !(s.next(event).0.phase is Rouletting),
        !s.next(event).0.rules.survival_on,
{
    if s.in_step() {
        lemma_next(s, event);
    }
}

} // verus!
