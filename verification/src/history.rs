//! The control flow of one particle history.
//!
//! A history is a sequence of walks: the source particle, then each secondary
//! it queued. A walk is a sequence of steps. The host computes the physics of a
//! step (distances, cross sections, sampled energies and directions) and hands
//! the results over; this module decides what becomes of the particle.
use crate::ieee::{Real, ONE_BITS};
use crate::layout::{BOUNDARY_VACUUM, CELL_NOT_FOUND, FISSION_WEIGHT_CAP_BITS};
use crate::pend::{count_nxn, lemma_count_remove, next_out, PEND_SLOTS, Particle, PendDrain, PendEntry, PendQueue};
use crate::roulette::{rouletted, weight_cutoff_roulette_cpu};
use vstd::prelude::*;

verus! {

/// Unresolved-resonance band held by a walk: the base uniform drawn at one
/// energy, reused until the energy changes.
#[derive(Clone, Copy, Debug)]
pub struct Band {
    pub energy: Real,
    pub base: Real,
}

/// A particle that reached a point no cell covers.
#[derive(Clone, Copy, Debug)]
pub struct LostParticleRecord {
    pub position: [Real; 3],
    pub direction: [Real; 3],
    pub energy: Real,
    /// Cell of the previous step, if any.
    pub last_cell_index: Option<usize>,
}

/// One recorded collision.
#[derive(Debug, Clone, Copy, PartialEq)]
pub struct CollisionRecord {
    /// Step of the walk at which the collision took place.
    pub step: u32,
    /// Energy entering the collision.
    pub energy_in: Real,
    /// Energy leaving it, equal to `energy_in` for an absorption.
    pub energy_out: Real,
    /// `2` elastic, `18` fission, `51 + slot` inelastic, `102` absorption.
    pub reaction: i32,
}

/// Energy, direction and collision seed of an emitted secondary.
#[derive(Clone, Copy, Debug)]
pub struct Secondary {
    pub seed: u32,
    pub energy: Real,
    pub dx: Real,
    pub dy: Real,
    pub dz: Real,
}

/// What a collision did, with every sampled quantity.
pub enum Collision {
    Absorption,
    Elastic { energy: Real, dx: Real, dy: Real, dz: Real },
    /// The yield multiplies the weight: `weight` is the product. The walk
    /// continues at `energy`, unless the kinematics failed.
    Weighted { weight: Real, walk_energy: Option<Real>, dx: Real, dy: Real, dz: Real },
    /// An integral yield: the walk keeps its weight and queues the others.
    Multiple {
        walk_energy: Option<Real>,
        dx: Real,
        dy: Real,
        dz: Real,
        secondaries: Vec<Secondary>,
    },
    /// Fission that multiplies the weight by the mean number of neutrons.
    FissionWeighted { weight: Real, energy: Real, dx: Real, dy: Real, dz: Real },
    /// Fission that emits `n_progeny` neutrons; the walk is the first of them.
    FissionBanked {
        n_progeny: u32,
        energy: Real,
        dx: Real,
        dy: Real,
        dz: Real,
        progeny: Vec<Secondary>,
    },
}

/// What the host does next.
#[derive(Clone, Copy, Debug, PartialEq, Eq, Structural)]
pub enum StepStart {
    /// The history is over.
    Finished,
    /// Transport the current walk on.
    Continue,
    /// A queued secondary became the current walk; its random stream starts
    /// from this seed.
    Resume { seed: u32 },
}

/// Result of a finished history.
#[derive(Clone, Debug)]
pub struct ParticleOutcome {
    pub alive: u32,
    pub n_steps: u32,
    pub final_energy: Real,
    /// One record for each of its walks that ended in no cell, in the order in
    /// which they were lost.
    pub lost: Vec<LostParticleRecord>,
    pub n_spilled: u32,
    pub max_pend_depth: u32,
}

/// The result of a history as a mathematical value.
#[verifier::ext_equal]
pub struct OutcomeState {
    pub alive: u32,
    pub n_steps: u32,
    pub final_energy: Real,
    pub lost: Seq<LostParticleRecord>,
    pub n_spilled: u32,
    pub max_pend_depth: u32,
}

impl View for ParticleOutcome {
    type V = OutcomeState;

    open spec fn view(&self) -> OutcomeState {
        OutcomeState {
            alive: self.alive,
            n_steps: self.n_steps,
            final_energy: self.final_energy,
            lost: self.lost@,
            n_spilled: self.n_spilled,
            max_pend_depth: self.max_pend_depth,
        }
    }
}

/// The state of a history as a mathematical value.
#[verifier::ext_equal]
pub struct HistoryState {
    pub drain: PendDrain,
    pub max_steps: u32,
    pub particle: Particle,
    pub walk_seed: u32,
    /// Secondaries the current walk has emitted: the ordinal of the next one.
    pub walk_secondaries: int,
    pub alive: bool,
    pub step: int,
    pub n_steps: int,
    pub band: Option<Band>,
    pub pend: Seq<PendEntry>,
    pub spilled: int,
    pub depth: int,
    pub last_cell: Option<usize>,
    pub lost: Seq<LostParticleRecord>,
    pub tracing: bool,
    pub trace: Seq<CollisionRecord>,
}

/// Weight above which a history is ended.
pub open spec fn weight_cap() -> Real {
    Real { bits: FISSION_WEIGHT_CAP_BITS }
}

impl HistoryState {
    /// The source particle, alive at unit weight and about to take its first
    /// step.
    pub open spec fn source(
        seed: u32,
        energy: Real,
        position: [Real; 3],
        direction: [Real; 3],
        drain: PendDrain,
        max_steps: u32,
        tracing: bool,
    ) -> HistoryState {
        HistoryState {
            drain,
            max_steps,
            particle: Particle {
                energy,
                px: position[0],
                py: position[1],
                pz: position[2],
                dx: direction[0],
                dy: direction[1],
                dz: direction[2],
                weight: Real { bits: ONE_BITS },
            },
            walk_seed: seed,
            walk_secondaries: 0,
            alive: true,
            step: 0,
            n_steps: 0,
            band: None,
            pend: Seq::empty(),
            spilled: 0,
            depth: 0,
            last_cell: None,
            lost: Seq::empty(),
            tracing,
            trace: Seq::empty(),
        }
    }

    /// The current walk goes on.
    pub open spec fn running(self) -> bool {
        self.alive && self.step < self.max_steps
    }

    /// The history is over: the walk has ended and nothing is queued.
    pub open spec fn finished(self) -> bool {
        !self.running() && self.pend.len() == 0
    }

    pub open spec fn with_particle(self, particle: Particle) -> HistoryState {
        HistoryState { particle, ..self }
    }

    pub open spec fn with_energy(self, energy: Real) -> HistoryState {
        self.with_particle(Particle { energy, ..self.particle })
    }

    pub open spec fn with_weight(self, weight: Real) -> HistoryState {
        self.with_particle(Particle { weight, ..self.particle })
    }

    pub open spec fn with_position(self, px: Real, py: Real, pz: Real) -> HistoryState {
        self.with_particle(Particle { px, py, pz, ..self.particle })
    }

    pub open spec fn with_direction(self, dx: Real, dy: Real, dz: Real) -> HistoryState {
        self.with_particle(Particle { dx, dy, dz, ..self.particle })
    }

    pub open spec fn ended(self) -> HistoryState {
        HistoryState { alive: false, ..self }
    }

    /// The next queued secondary becomes the current walk: it starts alive at
    /// step 0, numbers its own secondaries and holds no band.
    pub open spec fn resumed(self) -> HistoryState {
        let i = next_out(self.drain, self.pend.len());
        HistoryState {
            particle: self.pend[i].particle,
            walk_seed: self.pend[i].seed,
            walk_secondaries: 0,
            alive: true,
            band: None,
            step: 0,
            pend: self.pend.remove(i),
            ..self
        }
    }

    pub open spec fn begun(self) -> (HistoryState, StepStart) {
        if self.running() {
            (self, StepStart::Continue)
        } else if self.pend.len() == 0 {
            (self, StepStart::Finished)
        } else {
            (self.resumed(), StepStart::Resume { seed: self.resumed().walk_seed })
        }
    }

    /// The walk is lost: recorded and ended.
    pub open spec fn lost_here(self) -> HistoryState {
        let p = self.particle;
        HistoryState {
            lost: self.lost.push(
                LostParticleRecord {
                    position: [p.px, p.py, p.pz],
                    direction: [p.dx, p.dy, p.dz],
                    energy: p.energy,
                    last_cell_index: self.last_cell,
                },
            ),
            alive: false,
            ..self
        }
    }

    /// A weight above the cap ends the history.
    pub open spec fn weighted(self, weight: Real) -> HistoryState {
        if weight_cap().lt(weight) {
            self.with_weight(weight).ended()
        } else {
            self.with_weight(weight)
        }
    }

    /// The walk's outgoing energy, or its end when the kinematics failed.
    pub open spec fn committed(self, energy: Option<Real>) -> HistoryState {
        match energy {
            Some(e) => self.with_energy(e),
            None => self.ended(),
        }
    }

    /// Queue entry of a secondary: at the position and weight of the walk.
    pub open spec fn entry_of(self, s: Secondary, nxn: bool) -> PendEntry {
        PendEntry {
            seed: s.seed,
            nxn,
            particle: Particle {
                energy: s.energy,
                dx: s.dx,
                dy: s.dy,
                dz: s.dz,
                ..self.particle
            },
        }
    }

    pub open spec fn entries_of(self, s: Seq<Secondary>, nxn: bool) -> Seq<PendEntry> {
        Seq::new(s.len(), |i: int| self.entry_of(s[i], nxn))
    }

    /// A secondary is queued.
    pub open spec fn queued(self, s: Secondary, nxn: bool) -> HistoryState {
        let full = count_nxn(self.pend) >= PEND_SLOTS;
        HistoryState {
            pend: self.pend.push(self.entry_of(s, nxn)),
            walk_secondaries: self.walk_secondaries + 1,
            spilled: if nxn && full {
                self.spilled + 1
            } else {
                self.spilled
            },
            depth: if nxn && !full && count_nxn(self.pend) + 1 > self.depth {
                count_nxn(self.pend) as int + 1
            } else {
                self.depth
            },
            ..self
        }
    }

    pub open spec fn queued_all(self, s: Seq<Secondary>, nxn: bool) -> HistoryState
        decreases s.len(),
    {
        if s.len() == 0 {
            self
        } else {
            self.queued_all(s.drop_last(), nxn).queued(s.last(), nxn)
        }
    }

    /// The state after a collision. Secondaries leave from the incident
    /// position and weight.
    pub open spec fn collided(self, c: Collision) -> HistoryState {
        match c {
            Collision::Absorption => self.ended(),
            Collision::Elastic { energy, dx, dy, dz } => self.with_energy(energy).with_direction(
                dx,
                dy,
                dz,
            ),
            Collision::Weighted { weight, walk_energy, dx, dy, dz } => self.weighted(
                weight,
            ).committed(
                walk_energy,
            ).with_direction(dx, dy, dz),
            Collision::Multiple { walk_energy, dx, dy, dz, secondaries } => self.queued_all(
                secondaries@,
                true,
            ).committed(walk_energy).with_direction(dx, dy, dz),
            Collision::FissionWeighted { weight, energy, dx, dy, dz } => self.weighted(
                weight,
            ).with_energy(energy).with_direction(dx, dy, dz),
            Collision::FissionBanked { n_progeny, energy, dx, dy, dz, progeny } => {
                let s = self.queued_all(progeny@, false).with_energy(energy).with_direction(
                    dx,
                    dy,
                    dz,
                );
                if n_progeny == 0 {
                    s.ended()
                } else {
                    s
                }
            },
        }
    }

    /// The particle continues at the survivor weight or is ended.
    pub open spec fn rouletted(self, survival: Real, weight_survive: Real, xi: Real) -> HistoryState {
        let w = rouletted(survival, weight_survive, xi);
        if w.eqv(Real { bits: 0 }) {
            self.with_weight(w).ended()
        } else {
            self.with_weight(w)
        }
    }

    pub open spec fn recorded(self, energy_in: Real, reaction: i32) -> HistoryState {
        if self.tracing {
            HistoryState {
                trace: self.trace.push(
                    CollisionRecord {
                        step: self.step as u32,
                        energy_in,
                        energy_out: self.particle.energy,
                        reaction,
                    },
                ),
                ..self
            }
        } else {
            self
        }
    }

    /// Base uniform of the band held at the current energy.
    pub open spec fn band_here(self) -> Option<Real> {
        match self.band {
            Some(b) => if b.energy.eqv(self.particle.energy) {
                Some(b.base)
            } else {
                None
            },
            None => None,
        }
    }

    /// A band is held for the current energy.
    pub open spec fn holding(self, base: Real) -> HistoryState {
        HistoryState { band: Some(Band { energy: self.particle.energy, base }), ..self }
    }

    /// What the history reports.
    pub open spec fn outcome(self) -> OutcomeState {
        OutcomeState {
            alive: if self.alive {
                1
            } else {
                0
            },
            n_steps: self.n_steps as u32,
            final_energy: self.particle.energy,
            lost: self.lost,
            n_spilled: self.spilled as u32,
            max_pend_depth: self.depth as u32,
        }
    }

    pub open spec fn stepped(self) -> HistoryState {
        HistoryState { step: self.step + 1, n_steps: self.step + 1, ..self }
    }
}

impl HistoryState {
    /// The recorded depth is that of the register slots: never beyond them, no
    /// less than what they hold now, and all of them once a secondary spilled.
    pub open spec fn depth_holds(self) -> bool {
        &&& 0 <= self.depth <= PEND_SLOTS
        &&& count_nxn(self.pend) <= self.depth || self.depth == PEND_SLOTS
        &&& 0 <= self.spilled
        &&& self.spilled > 0 ==> self.depth == PEND_SLOTS
    }
}

/// Number of secondaries a collision queues.
pub open spec fn emitted(c: Collision) -> nat {
    match c {
        Collision::Multiple { walk_energy, dx, dy, dz, secondaries } => secondaries@.len(),
        Collision::FissionBanked { n_progeny, energy, dx, dy, dz, progeny } => progeny@.len(),
        _ => 0,
    }
}

/// One particle history in progress.
pub struct History {
    max_steps: u32,
    particle: Particle,
    walk_seed: u32,
    walk_secondaries: u32,
    alive: bool,
    step: u32,
    n_steps: u32,
    band: Option<Band>,
    pend: PendQueue,
    last_cell: Option<usize>,
    lost: Vec<LostParticleRecord>,
    tracing: bool,
    trace: Vec<CollisionRecord>,
}

impl View for History {
    type V = HistoryState;

    closed spec fn view(&self) -> HistoryState {
        HistoryState {
            drain: self.pend.drain_spec(),
            max_steps: self.max_steps,
            particle: self.particle,
            walk_seed: self.walk_seed,
            walk_secondaries: self.walk_secondaries as int,
            alive: self.alive,
            step: self.step as int,
            n_steps: self.n_steps as int,
            band: self.band,
            pend: self.pend@,
            spilled: self.pend.spilled_spec() as int,
            depth: self.pend.depth_spec() as int,
            last_cell: self.last_cell,
            lost: self.lost@,
            tracing: self.tracing,
            trace: self.trace@,
        }
    }
}

impl History {
    /// No walk takes more steps than allowed, and nothing is queued unless
    /// steps are allowed at all.
    pub closed spec fn wf(self) -> bool {
        &&& self.pend.wf()
        &&& self.step <= self.max_steps
        &&& self.n_steps <= self.max_steps
        &&& self.pend@.len() > 0 ==> self.max_steps > 0
    }

    /// The source particle, at unit weight.
    pub fn start(
        seed: u32,
        energy: Real,
        position: [Real; 3],
        direction: [Real; 3],
        drain: PendDrain,
        max_steps: u32,
        tracing: bool,
    ) -> (r: History)
        ensures
            r.wf(),
            r@ == HistoryState::source(
                seed,
                energy,
                position,
                direction,
                drain,
                max_steps,
                tracing,
            ),
    {
        let r = History {
            max_steps,
            particle: Particle {
                energy,
                px: position[0],
                py: position[1],
                pz: position[2],
                dx: direction[0],
                dy: direction[1],
                dz: direction[2],
                weight: Real::one(),
            },
            walk_seed: seed,
            walk_secondaries: 0,
            alive: true,
            step: 0,
            n_steps: 0,
            band: None,
            pend: PendQueue::new(drain),
            last_cell: None,
            lost: Vec::new(),
            tracing,
            trace: Vec::new(),
        };
        assert(r.lost@ =~= Seq::<LostParticleRecord>::empty());
        assert(r.trace@ =~= Seq::<CollisionRecord>::empty());
        r
    }

    pub fn particle(&self) -> (r: Particle)
        ensures
            r == self@.particle,
    {
        self.particle
    }

    /// Seed of the current walk and the ordinal of its next secondary: the key
    /// from which the secondary's own seed is derived.
    pub fn secondary_key(&self) -> (r: (u32, u32))
        ensures
            r.0 == self@.walk_seed,
            r.1 == self@.walk_secondaries,
    {
        (self.walk_seed, self.walk_secondaries)
    }

    pub fn is_alive(&self) -> (r: bool)
        ensures
            r == self@.alive,
    {
        self.alive
    }

    /// Starts the next step: the current walk goes on, the next queued
    /// secondary takes over, or the history is over.
    pub fn begin_step(&mut self) -> (r: StepStart)
        requires
            old(self).wf(),
        ensures
            final(self).wf(),
            final(self)@ == old(self)@.begun().0,
            r == old(self)@.begun().1,
            r != StepStart::Finished ==> final(self)@.running(),
    {
        if self.alive && self.step < self.max_steps {
            return StepStart::Continue;
        }
        match self.pend.pop() {
            None => StepStart::Finished,
            Some(e) => {
                self.particle = e.particle;
                self.walk_seed = e.seed;
                self.walk_secondaries = 0;
                self.alive = true;
                self.band = None;
                self.step = 0;
                StepStart::Resume { seed: e.seed }
            },
        }
    }

    /// Notes the cell the particle is in. A particle in no cell is lost: it is
    /// recorded and its walk ends.
    pub fn enter_cell(&mut self, cell: u32) -> (found: bool)
        requires
            old(self).wf(),
        ensures
            final(self).wf(),
            found == (cell != CELL_NOT_FOUND),
            final(self)@ == if cell == CELL_NOT_FOUND {
                old(self)@.lost_here()
            } else {
                (HistoryState { last_cell: Some(cell as usize), ..old(self)@ })
            },
    {
        if cell == CELL_NOT_FOUND {
            let p = self.particle;
            let last_cell_index: Option<usize> = self.last_cell;
            self.lost.push(
                LostParticleRecord {
                    position: [p.px, p.py, p.pz],
                    direction: [p.dx, p.dy, p.dz],
                    energy: p.energy,
                    last_cell_index,
                },
            );
            self.alive = false;
            false
        } else {
            self.last_cell = Some(cell as usize);
            true
        }
    }

    /// Band held at the current energy, if any. A band drawn at another energy
    /// does not apply.
    pub fn held_band(&self) -> (r: Option<Real>)
        ensures
            r == self@.band_here(),
    {
        match self.band {
            Some(b) => if b.energy.is_eq(self.particle.energy) {
                Some(b.base)
            } else {
                None
            },
            None => None,
        }
    }

    /// Holds a freshly drawn band for the current energy.
    pub fn hold_band(&mut self, base: Real)
        requires
            old(self).wf(),
        ensures
            final(self).wf(),
            final(self)@ == old(self)@.holding(base),
    {
        self.band = Some(Band { energy: self.particle.energy, base });
    }

    /// Moves the particle to the end of its flight.
    pub fn fly_to(&mut self, px: Real, py: Real, pz: Real)
        requires
            old(self).wf(),
        ensures
            final(self).wf(),
            final(self)@ == old(self)@.with_position(px, py, pz),
    {
        self.particle = Particle { px, py, pz, ..self.particle };
    }

    /// Replaces the weight, after implicit capture has discounted it.
    pub fn set_weight(&mut self, weight: Real)
        requires
            old(self).wf(),
        ensures
            final(self).wf(),
            final(self)@ == old(self)@.with_weight(weight),
    {
        self.particle = Particle { weight, ..self.particle };
    }

    fn scale_weight(&mut self, weight: Real)
        requires
            old(self).wf(),
        ensures
            final(self).wf(),
            final(self)@ == old(self)@.weighted(weight),
    {
        self.particle = Particle { weight, ..self.particle };
        if Real::new(FISSION_WEIGHT_CAP_BITS).is_lt(weight) {
            self.alive = false;
        }
    }

    fn commit_energy(&mut self, energy: Option<Real>)
        requires
            old(self).wf(),
        ensures
            final(self).wf(),
            final(self)@ == old(self)@.committed(energy),
    {
        match energy {
            Some(e) => {
                self.particle = Particle { energy: e, ..self.particle };
            },
            None => {
                self.alive = false;
            },
        }
    }

    fn turn(&mut self, dx: Real, dy: Real, dz: Real)
        requires
            old(self).wf(),
        ensures
            final(self).wf(),
            final(self)@ == old(self)@.with_direction(dx, dy, dz),
    {
        self.particle = Particle { dx, dy, dz, ..self.particle };
    }

    fn queue_all(&mut self, s: &Vec<Secondary>, nxn: bool)
        requires
            old(self).wf(),
            old(self)@.max_steps > 0,
            old(self)@.pend.len() + s@.len() < usize::MAX,
            old(self)@.walk_secondaries + s@.len() <= u32::MAX,
            old(self)@.spilled + s@.len() <= u32::MAX,
        ensures
            final(self).wf(),
            final(self)@ == old(self)@.queued_all(s@, nxn),
    {
        let mut i: usize = 0;
        proof {
            assert(s@.subrange(0, 0) =~= Seq::<Secondary>::empty());
        }
        while i < s.len()
            invariant
                i <= s@.len(),
                self.wf(),
                self@ == old(self)@.queued_all(s@.subrange(0, i as int), nxn),
                self@.max_steps > 0,
                self@.pend.len() + (s@.len() - i) < usize::MAX,
                self@.walk_secondaries + (s@.len() - i) <= u32::MAX,
                self@.spilled + (s@.len() - i) <= u32::MAX,
            decreases s@.len() - i,
        {
            let e = s[i];
            assert(s@.subrange(0, i + 1).drop_last() =~= s@.subrange(0, i as int));
            assert(s@.subrange(0, i + 1).last() == e);
            let ghost before = self@;
            self.pend.push(
                PendEntry {
                    seed: e.seed,
                    nxn,
                    particle: Particle {
                        energy: e.energy,
                        dx: e.dx,
                        dy: e.dy,
                        dz: e.dz,
                        ..self.particle
                    },
                },
            );
            self.walk_secondaries = self.walk_secondaries + 1;
            assert(self@ =~= before.queued(e, nxn));
            i = i + 1;
        }
        assert(s@.subrange(0, i as int) =~= s@);
    }

    /// Applies a collision.
    pub fn collide(&mut self, c: &Collision)
        requires
            old(self).wf(),
            old(self)@.running(),
            old(self)@.pend.len() + emitted(*c) < usize::MAX,
            old(self)@.walk_secondaries + emitted(*c) <= u32::MAX,
            old(self)@.spilled + emitted(*c) <= u32::MAX,
        ensures
            final(self).wf(),
            final(self)@ == old(self)@.collided(*c),
    {
        match c {
            Collision::Absorption => {
                self.alive = false;
            },
            Collision::Elastic { energy, dx, dy, dz } => {
                self.commit_energy(Some(*energy));
                self.turn(*dx, *dy, *dz);
            },
            Collision::Weighted { weight, walk_energy, dx, dy, dz } => {
                self.scale_weight(*weight);
                self.commit_energy(*walk_energy);
                self.turn(*dx, *dy, *dz);
            },
            Collision::Multiple { walk_energy, dx, dy, dz, secondaries } => {
                self.queue_all(secondaries, true);
                self.commit_energy(*walk_energy);
                self.turn(*dx, *dy, *dz);
            },
            Collision::FissionWeighted { weight, energy, dx, dy, dz } => {
                self.scale_weight(*weight);
                self.commit_energy(Some(*energy));
                self.turn(*dx, *dy, *dz);
            },
            Collision::FissionBanked { n_progeny, energy, dx, dy, dz, progeny } => {
                self.queue_all(progeny, false);
                self.commit_energy(Some(*energy));
                self.turn(*dx, *dy, *dz);
                if *n_progeny == 0 {
                    self.alive = false;
                }
            },
        }
    }

    /// Puts the particle to roulette.
    pub fn roulette(&mut self, survival: Real, weight_survive: Real, xi: Real)
        requires
            old(self).wf(),
        ensures
            final(self).wf(),
            final(self)@ == old(self)@.rouletted(survival, weight_survive, xi),
    {
        let w = weight_cutoff_roulette_cpu(survival, weight_survive, xi);
        self.particle = Particle { weight: w, ..self.particle };
        if w.is_eq(Real::zero()) {
            self.alive = false;
        }
    }

    /// Records a finished collision when the history is traced.
    pub fn record(&mut self, energy_in: Real, reaction: i32)
        requires
            old(self).wf(),
        ensures
            final(self).wf(),
            final(self)@ == old(self)@.recorded(energy_in, reaction),
    {
        if self.tracing {
            let rec = CollisionRecord {
                step: self.step,
                energy_in,
                energy_out: self.particle.energy,
                reaction,
            };
            self.trace.push(rec);
        }
    }

    /// Crosses a surface: a vacuum boundary ends the walk, any other surface
    /// lets it through to the given point just past it.
    pub fn cross(&mut self, boundary: u32, px: Real, py: Real, pz: Real)
        requires
            old(self).wf(),
        ensures
            final(self).wf(),
            final(self)@ == if boundary == BOUNDARY_VACUUM {
                old(self)@.ended()
            } else {
                old(self)@.with_position(px, py, pz)
            },
    {
        if boundary == BOUNDARY_VACUUM {
            self.alive = false;
        } else {
            self.particle = Particle { px, py, pz, ..self.particle };
        }
    }

    /// Ends the step.
    pub fn end_step(&mut self)
        requires
            old(self).wf(),
            old(self)@.step < old(self)@.max_steps,
        ensures
            final(self).wf(),
            final(self)@ == old(self)@.stepped(),
    {
        self.step = self.step + 1;
        self.n_steps = self.step;
    }

    /// Outcome of the history, with its trace.
    pub fn finish(self) -> (r: (ParticleOutcome, Vec<CollisionRecord>))
        requires
            self.wf(),
        ensures
            r.0@ == self@.outcome(),
            r.1@ == self@.trace,
            r.0.n_steps <= self@.max_steps,
            r.0.max_pend_depth <= PEND_SLOTS,
    {
        let alive: u32 = if self.alive {
            1
        } else {
            0
        };
        (
            ParticleOutcome {
                alive,
                n_steps: self.n_steps,
                final_energy: self.particle.energy,
                lost: self.lost,
                n_spilled: self.pend.spilled(),
                max_pend_depth: self.pend.depth(),
            },
            self.trace,
        )
    }
}

/// A collision without extra neutrons leaves the queue alone, and one with them
/// adds exactly those, oldest first, behind what was queued.
pub proof fn collision_queues_only_its_secondaries(s: HistoryState, c: Collision)
    ensures
        s.collided(c).pend == s.pend + match c {
            Collision::Multiple { walk_energy, dx, dy, dz, secondaries } => s.entries_of(
                secondaries@,
                true,
            ),
            Collision::FissionBanked { n_progeny, energy, dx, dy, dz, progeny } => s.entries_of(
                progeny@,
                false,
            ),
            _ => Seq::empty(),
        },
        s.collided(c).walk_secondaries == s.walk_secondaries + emitted(c),
{
    match c {
        Collision::Multiple { walk_energy, dx, dy, dz, secondaries } => {
            lemma_queued_all(s, secondaries@, true);
        },
        Collision::FissionBanked { n_progeny, energy, dx, dy, dz, progeny } => {
            lemma_queued_all(s, progeny@, false);
        },
        _ => {
            assert(s.pend + Seq::empty() =~= s.pend);
        },
    }
}

proof fn lemma_queued_all(s: HistoryState, q: Seq<Secondary>, nxn: bool)
    ensures
        s.queued_all(q, nxn).pend == s.pend + s.entries_of(q, nxn),
        s.queued_all(q, nxn).walk_secondaries == s.walk_secondaries + q.len(),
        !nxn ==> s.queued_all(q, nxn).spilled == s.spilled,
        !nxn ==> s.queued_all(q, nxn).depth == s.depth,
        s.queued_all(q, nxn).particle == s.particle,
    decreases q.len(),
{
    if q.len() > 0 {
        let rest = q.drop_last();
        lemma_queued_all(s, rest, nxn);
        assert(s.entries_of(q, nxn) =~= s.entries_of(rest, nxn).push(s.entry_of(q.last(), nxn)));
        assert(s.queued_all(q, nxn).pend =~= s.pend + s.entries_of(q, nxn));
    } else {
        assert(s.pend + s.entries_of(q, nxn) =~= s.pend);
    }
}

/// Queueing secondaries and taking one out keep the recorded depth right.
pub proof fn lemma_depth_holds(s: HistoryState, c: Collision)
    requires
        s.depth_holds(),
    ensures
        s.collided(c).depth_holds(),
        s.pend.len() > 0 ==> s.resumed().depth_holds(),
{
    if s.pend.len() > 0 {
        lemma_count_remove(s.pend, next_out(s.drain, s.pend.len()));
    }
    match c {
        Collision::Multiple { walk_energy, dx, dy, dz, secondaries } => {
            lemma_queueing_keeps_depth(s, secondaries@, true);
        },
        Collision::FissionBanked { n_progeny, energy, dx, dy, dz, progeny } => {
            lemma_queueing_keeps_depth(s, progeny@, false);
        },
        _ => {},
    }
}

proof fn lemma_queueing_keeps_depth(s: HistoryState, q: Seq<Secondary>, nxn: bool)
    requires
        s.depth_holds(),
    ensures
        s.queued_all(q, nxn).depth_holds(),
    decreases q.len(),
{
    if q.len() > 0 {
        lemma_queueing_keeps_depth(s, q.drop_last(), nxn);
        let before = s.queued_all(q.drop_last(), nxn);
        let after = before.queued(q.last(), nxn);
        assert(after.pend.drop_last() =~= before.pend);
    }
}

/// Fission progeny never take a register slot: they leave the spill count and
/// the recorded depth alone.
pub proof fn fission_progeny_take_no_register_slot(s: HistoryState, progeny: Seq<Secondary>)
    ensures
        s.queued_all(progeny, false).spilled == s.spilled,
        s.queued_all(progeny, false).depth == s.depth,
{
    lemma_queued_all(s, progeny, false);
}

/// Analog emission leaves the weight of the walk alone.
pub proof fn analog_emission_keeps_the_weight(s: HistoryState, c: Collision)
    requires
        c is Multiple || c is FissionBanked || c is Elastic || c is Absorption,
    ensures
        s.collided(c).particle.weight == s.particle.weight,
{
    match c {
        Collision::Multiple { walk_energy, dx, dy, dz, secondaries } => {
            lemma_queued_all(s, secondaries@, true);
        },
        Collision::FissionBanked { n_progeny, energy, dx, dy, dz, progeny } => {
            lemma_queued_all(s, progeny@, false);
        },
        _ => {},
    }
}

/// A walk whose weight stays within the cap stays within it through any
/// collision it survives: a collision that multiplies the weight past the cap
/// ends the walk.
pub proof fn surviving_weight_stays_within_cap(s: HistoryState, c: Collision)
    requires
        !weight_cap().lt(s.particle.weight),
        s.collided(c).alive,
    ensures
        !weight_cap().lt(s.collided(c).particle.weight),
{
    match c {
        Collision::Multiple { walk_energy, dx, dy, dz, secondaries } => {
            lemma_queued_all(s, secondaries@, true);
        },
        Collision::FissionBanked { n_progeny, energy, dx, dy, dz, progeny } => {
            lemma_queued_all(s, progeny@, false);
        },
        _ => {},
    }
}

/// A popped secondary starts as its own particle: alive, at step 0, with no
/// band and with its own numbering, whatever walk ran before it.
pub proof fn resumed_walk_is_fresh(a: HistoryState, b: HistoryState)
    requires
        a.pend == b.pend,
        a.pend.len() > 0,
        a.drain == b.drain,
    ensures
        a.resumed().particle == b.resumed().particle,
        a.resumed().walk_seed == b.resumed().walk_seed,
        a.resumed().walk_secondaries == b.resumed().walk_secondaries,
        a.resumed().band == b.resumed().band,
        a.resumed().step == b.resumed().step,
        a.resumed().alive && b.resumed().alive,
{
}

/// What no collision touches: the place of the walk, the steps taken, the seed
/// of its stream, the band it holds and the history's settings and records.
pub proof fn a_collision_leaves_the_rest_alone(s: HistoryState, c: Collision)
    ensures
        ({
            let n = s.collided(c);
            &&& n.particle.px == s.particle.px && n.particle.py == s.particle.py && n.particle.pz
                == s.particle.pz
            &&& n.step == s.step && n.n_steps == s.n_steps && n.max_steps == s.max_steps
            &&& n.walk_seed == s.walk_seed && n.band == s.band && n.last_cell == s.last_cell
            &&& n.lost == s.lost && n.trace == s.trace && n.tracing == s.tracing && n.drain
                == s.drain
            &&& n.alive ==> s.alive
        }),
{
    lemma_collision_frame(s, c);
}

proof fn lemma_queueing_frame(s: HistoryState, q: Seq<Secondary>, nxn: bool)
    ensures
        ({
            let n = s.queued_all(q, nxn);
            &&& n.particle == s.particle && n.alive == s.alive
            &&& n.step == s.step && n.n_steps == s.n_steps && n.max_steps == s.max_steps
            &&& n.walk_seed == s.walk_seed && n.band == s.band && n.last_cell == s.last_cell
            &&& n.lost == s.lost && n.trace == s.trace && n.tracing == s.tracing && n.drain
                == s.drain
        }),
    decreases q.len(),
{
    if q.len() > 0 {
        lemma_queueing_frame(s, q.drop_last(), nxn);
    }
}

proof fn lemma_collision_frame(s: HistoryState, c: Collision)
    ensures
        ({
            let n = s.collided(c);
            &&& n.particle.px == s.particle.px && n.particle.py == s.particle.py && n.particle.pz
                == s.particle.pz
            &&& n.step == s.step && n.n_steps == s.n_steps && n.max_steps == s.max_steps
            &&& n.walk_seed == s.walk_seed && n.band == s.band && n.last_cell == s.last_cell
            &&& n.lost == s.lost && n.trace == s.trace && n.tracing == s.tracing && n.drain
                == s.drain
            &&& n.alive ==> s.alive
        }),
{
    match c {
        Collision::Multiple { walk_energy, dx, dy, dz, secondaries } => {
            lemma_queueing_frame(s, secondaries@, true);
        },
        Collision::FissionBanked { n_progeny, energy, dx, dy, dz, progeny } => {
            lemma_queueing_frame(s, progeny@, false);
        },
        _ => {},
    }
}

/// After a fission that emits at least one neutron, banked or weighted, the walk
/// is a fission neutron: it has the sampled energy and the sampled direction. The
/// weighted one carries the weight that was handed over, and a weight of more
/// than a thousand ends it; the banked one keeps its weight and lives on. A
/// fission that emits none ends the walk.
pub proof fn fission_walk_is_the_sampled_neutron(s: HistoryState, c: Collision)
    ensures
        c matches Collision::FissionWeighted { weight, energy, dx, dy, dz } ==> {
            let p = s.collided(c).particle;
            &&& p.energy == energy
            &&& p.dx == dx && p.dy == dy && p.dz == dz
            &&& p.weight == weight
            &&& s.collided(c).alive <==> s.alive && !(Real { bits: 0x408f_4000_0000_0000 }).lt(
                weight,
            )
            &&& s.collided(c).pend == s.pend
        },
        c matches Collision::FissionBanked { n_progeny, energy, dx, dy, dz, progeny } ==> {
            let p = s.collided(c).particle;
            &&& p.energy == energy
            &&& p.dx == dx && p.dy == dy && p.dz == dz
            &&& p.weight == s.particle.weight
            &&& s.collided(c).alive <==> s.alive && n_progeny > 0
        },
{
    match c {
        Collision::FissionBanked { n_progeny, energy, dx, dy, dz, progeny } => {
            lemma_queueing_frame(s, progeny@, false);
        },
        _ => {},
    }
}

/// Each secondary of a collision waits at the end of the queue, in the order of
/// emission: with its own seed, energy and direction, at the place and with the
/// weight that the walk had when it collided. Fission progeny are told apart
/// from (n,xn) secondaries. What waited before keeps its place.
pub proof fn secondaries_wait_as_they_were_emitted(s: HistoryState, c: Collision, i: int)
    ensures
        forall|j: int| 0 <= j < s.pend.len() ==> #[trigger] s.collided(c).pend[j] == s.pend[j],
        c matches Collision::Multiple { walk_energy, dx, dy, dz, secondaries } ==> {
            &&& s.collided(c).pend.len() == s.pend.len() + secondaries@.len()
            &&& 0 <= i < secondaries@.len() ==> {
                let e = s.collided(c).pend[s.pend.len() + i];
                let x = secondaries@[i];
                &&& e.nxn && e.seed == x.seed && e.particle.energy == x.energy
                &&& e.particle.dx == x.dx && e.particle.dy == x.dy && e.particle.dz == x.dz
                &&& e.particle.px == s.particle.px && e.particle.py == s.particle.py
                    && e.particle.pz == s.particle.pz
                &&& e.particle.weight == s.particle.weight
            }
        },
        c matches Collision::FissionBanked { n_progeny, energy, dx, dy, dz, progeny } ==> {
            &&& s.collided(c).pend.len() == s.pend.len() + progeny@.len()
            &&& 0 <= i < progeny@.len() ==> {
                let e = s.collided(c).pend[s.pend.len() + i];
                let x = progeny@[i];
                &&& !e.nxn && e.seed == x.seed && e.particle.energy == x.energy
                &&& e.particle.dx == x.dx && e.particle.dy == x.dy && e.particle.dz == x.dz
                &&& e.particle.px == s.particle.px && e.particle.py == s.particle.py
                    && e.particle.pz == s.particle.pz
                &&& e.particle.weight == s.particle.weight
            }
        },
        !(c is Multiple) && !(c is FissionBanked) ==> s.collided(c).pend == s.pend,
{
    collision_queues_only_its_secondaries(s, c);
}

/// After a reaction whose yield multiplies the weight, the walk's weight is the
/// product that was handed over, and more than a thousand of it ends the walk.
/// Otherwise the walk goes on at the sampled energy in the sampled direction, or
/// ends where the kinematics gave none.
pub proof fn yield_that_is_no_count_becomes_weight(s: HistoryState, c: Collision)
    requires
        c is Weighted,
    ensures
        c matches Collision::Weighted { weight, walk_energy, dx, dy, dz } ==> {
            let n = s.collided(c);
            &&& n.particle.weight == weight
            &&& n.particle.dx == dx && n.particle.dy == dy && n.particle.dz == dz
            &&& (walk_energy matches Some(e) ==> n.particle.energy == e)
            &&& walk_energy is None ==> n.particle.energy == s.particle.energy
            &&& n.alive <==> s.alive && walk_energy is Some && !(Real {
                bits: 0x408f_4000_0000_0000,
            }).lt(weight)
            &&& n.spilled == s.spilled && n.depth == s.depth && n.walk_secondaries
                == s.walk_secondaries
        },
{
}

/// After a reaction that emits a count of neutrons, the walk keeps its weight and
/// goes on as the first of them, at the sampled energy in the sampled direction,
/// or ends where the kinematics gave none.
pub proof fn emitted_count_leaves_the_walk_its_weight(s: HistoryState, c: Collision)
    requires
        c is Multiple,
    ensures
        c matches Collision::Multiple { walk_energy, dx, dy, dz, secondaries } ==> {
            let n = s.collided(c);
            &&& n.particle.weight == s.particle.weight
            &&& n.particle.dx == dx && n.particle.dy == dy && n.particle.dz == dz
            &&& (walk_energy matches Some(e) ==> n.particle.energy == e)
            &&& walk_energy is None ==> n.particle.energy == s.particle.energy
            &&& n.alive <==> s.alive && walk_energy is Some
            &&& n.walk_secondaries == s.walk_secondaries + secondaries@.len()
        },
{
    collision_queues_only_its_secondaries(s, c);
    match c {
        Collision::Multiple { walk_energy, dx, dy, dz, secondaries } => {
            lemma_queueing_frame(s, secondaries@, true);
        },
        _ => {},
    }
}

/// An elastic scattering gives the walk the sampled energy and direction and
/// nothing else; an absorption ends the walk and leaves the particle as it was.
pub proof fn scattering_turns_and_absorption_ends(s: HistoryState, c: Collision)
    ensures
        c matches Collision::Elastic { energy, dx, dy, dz } ==> {
            let n = s.collided(c);
            &&& n.particle.energy == energy
            &&& n.particle.dx == dx && n.particle.dy == dy && n.particle.dz == dz
            &&& n.particle.weight == s.particle.weight
            &&& n.alive == s.alive
            &&& n.walk_secondaries == s.walk_secondaries
        },
        c is Absorption ==> !s.collided(c).alive && s.collided(c).particle == s.particle
            && s.collided(c).walk_secondaries == s.walk_secondaries,
{
}

/// Secondaries that spilled and those that fit account for all: each (n,xn)
/// secondary found a register slot or was counted as spilled. With `held` of the
/// slots taken, of `q` more the ones past the fourth slot spill, and the recorded
/// depth is the larger of what it was and the slots taken.
pub proof fn spills_are_the_secondaries_past_the_slots(s: HistoryState, q: Seq<Secondary>)
    ensures
        ({
            let held = count_nxn(s.pend);
            let n = s.queued_all(q, true);
            let room = if held < 4 {
                4 - held
            } else {
                0
            };
            &&& count_nxn(n.pend) == held + q.len()
            &&& n.spilled == s.spilled + if q.len() > room {
                q.len() - room
            } else {
                0
            }
            &&& q.len() > 0 && held < 4 ==> {
                let top = if q.len() > room {
                    4
                } else {
                    held + q.len()
                };
                n.depth == if top > s.depth {
                    top as int
                } else {
                    s.depth
                }
            }
            &&& q.len() == 0 || held >= 4 ==> n.depth == s.depth
        }),
    decreases q.len(),
{
    if q.len() > 0 {
        let rest = q.drop_last();
        spills_are_the_secondaries_past_the_slots(s, rest);
        let before = s.queued_all(rest, true);
        let after = before.queued(q.last(), true);
        assert(after.pend.drop_last() =~= before.pend);
    }
}

/// The queue's next secondary becomes the walk: the one that has waited longest
/// when the oldest goes first, the last one queued when the newest does. It
/// starts at step 0 without a band, alive, numbering its own secondaries, on its
/// own seed; the others wait on in their order, and nothing else changes.
pub proof fn resuming_takes_the_next_in_line(s: HistoryState)
    requires
        s.pend.len() > 0,
    ensures
        ({
            let n = s.resumed();
            let i = if s.drain == PendDrain::Fifo {
                0
            } else {
                s.pend.len() - 1
            };
            &&& n.particle == s.pend[i].particle
            &&& n.walk_seed == s.pend[i].seed
            &&& n.alive && n.step == 0 && n.walk_secondaries == 0 && n.band is None
            &&& n.pend.len() == s.pend.len() - 1
            &&& forall|j: int| 0 <= j < i ==> #[trigger] n.pend[j] == s.pend[j]
            &&& forall|j: int| i <= j < n.pend.len() ==> #[trigger] n.pend[j] == s.pend[j + 1]
            &&& n.n_steps == s.n_steps && n.spilled == s.spilled && n.depth == s.depth
            &&& n.last_cell == s.last_cell && n.lost == s.lost && n.trace == s.trace
            &&& n.drain == s.drain && n.max_steps == s.max_steps && n.tracing == s.tracing
        }),
{
}

/// A lost walk ends and leaves one more record, of where it was, where it went,
/// its energy and the last cell that the history was in. Nothing else changes.
pub proof fn a_loss_records_where_it_happened(s: HistoryState)
    ensures
        ({
            let n = s.lost_here();
            let r = n.lost[s.lost.len() as int];
            &&& n.lost.len() == s.lost.len() + 1
            &&& forall|i: int| 0 <= i < s.lost.len() ==> #[trigger] n.lost[i] == s.lost[i]
            &&& r.position[0] == s.particle.px && r.position[1] == s.particle.py && r.position[2]
                == s.particle.pz
            &&& r.direction[0] == s.particle.dx && r.direction[1] == s.particle.dy
                && r.direction[2] == s.particle.dz
            &&& r.energy == s.particle.energy
            &&& r.last_cell_index == s.last_cell
            &&& !n.alive
            &&& n.particle == s.particle && n.pend == s.pend && n.step == s.step && n.n_steps
                == s.n_steps && n.trace == s.trace && n.last_cell == s.last_cell
        }),
{
}

/// Roulette: a draw below the survival probability gives the survivor weight,
/// any other gives weight zero and ends the walk. Only weight and life change.
pub proof fn roulette_survives_or_ends(s: HistoryState, survival: Real, weight_survive: Real, xi: Real)
    ensures
        ({
            let n = s.rouletted(survival, weight_survive, xi);
            &&& xi.lt(survival) ==> n.particle.weight == weight_survive
            &&& xi.lt(survival) && !weight_survive.eqv(Real { bits: 0 }) ==> n.alive == s.alive
            &&& !xi.lt(survival) ==> !n.alive && n.particle.weight.bits == 0
            &&& n.particle.energy == s.particle.energy && n.particle.px == s.particle.px
                && n.particle.py == s.particle.py && n.particle.pz == s.particle.pz
                && n.particle.dx == s.particle.dx && n.particle.dy == s.particle.dy
                && n.particle.dz == s.particle.dz
            &&& n.pend == s.pend && n.step == s.step && n.trace == s.trace && n.lost == s.lost
        }),
{
}

/// A band that was drawn is held for the energy it was drawn at: asked at once it
/// answers with its base uniform, and at an energy that differs it does not
/// answer.
pub proof fn a_band_answers_at_its_own_energy(s: HistoryState, base: Real, energy: Real)
    ensures
        !s.particle.energy.is_nan_spec() ==> s.holding(base).band_here() == Some(base),
        !energy.eqv(s.particle.energy) ==> s.holding(base).with_energy(energy).band_here() is None,
        s.holding(base).particle == s.particle,
        s.holding(base).alive == s.alive && s.holding(base).step == s.step && s.holding(base).pend
            == s.pend,
        s.band is None ==> s.band_here() is None,
{
}

/// A step that is over is counted once, and the count reported is that of the
/// walk under way.
pub proof fn a_step_adds_one(s: HistoryState)
    ensures
        s.stepped().step == s.step + 1,
        s.stepped().n_steps == s.step + 1,
        s.stepped().particle == s.particle,
        s.stepped().alive == s.alive,
        s.stepped().pend == s.pend,
        s.stepped().lost == s.lost,
        s.stepped().trace == s.trace,
{
}

/// A history reports whether its last walk lives, the steps of that walk, its
/// energy, every loss, and how many secondaries spilled from how deep a stack.
pub proof fn a_history_reports_its_end(s: HistoryState)
    requires
        0 <= s.n_steps <= u32::MAX,
        0 <= s.spilled <= u32::MAX,
        0 <= s.depth <= u32::MAX,
    ensures
        s.outcome().alive == 1 <==> s.alive,
        s.outcome().alive == 0 <==> !s.alive,
        s.outcome().n_steps == s.n_steps,
        s.outcome().final_energy == s.particle.energy,
        s.outcome().lost == s.lost,
        s.outcome().n_spilled == s.spilled,
        s.outcome().max_pend_depth == s.depth,
{
}

/// A history begins as its source particle: where it was put, in the direction
/// and at the energy it was given, at weight one, alive, before its first step,
/// with nothing queued, lost, recorded or held.
pub proof fn a_history_begins_as_its_source(
    seed: u32,
    energy: Real,
    position: [Real; 3],
    direction: [Real; 3],
    drain: PendDrain,
    max_steps: u32,
    tracing: bool,
)
    ensures
        ({
            let s = HistoryState::source(
                seed,
                energy,
                position,
                direction,
                drain,
                max_steps,
                tracing,
            );
            let p = s.particle;
            &&& p.energy == energy
            &&& p.px == position[0] && p.py == position[1] && p.pz == position[2]
            &&& p.dx == direction[0] && p.dy == direction[1] && p.dz == direction[2]
            &&& p.weight.bits == 0x3ff0_0000_0000_0000
            &&& s.walk_seed == seed && s.walk_secondaries == 0
            &&& s.alive && s.step == 0 && s.n_steps == 0 && s.band is None
            &&& s.pend.len() == 0 && s.spilled == 0 && s.depth == 0
            &&& s.last_cell is None && s.lost.len() == 0 && s.trace.len() == 0
            &&& s.drain == drain && s.max_steps == max_steps && s.tracing == tracing
        }),
{
}

/// A traced collision adds one record, of its step, the energies before and after
/// and the code; a history that is not traced records nothing.
pub proof fn a_record_tells_step_energies_and_code(s: HistoryState, energy_in: Real, reaction: i32)
    requires
        0 <= s.step <= u32::MAX,
    ensures
        ({
            let n = s.recorded(energy_in, reaction);
            let r = n.trace[s.trace.len() as int];
            &&& s.tracing ==> {
                &&& n.trace.len() == s.trace.len() + 1
                &&& forall|i: int| 0 <= i < s.trace.len() ==> #[trigger] n.trace[i] == s.trace[i]
                &&& r.step == s.step && r.energy_in == energy_in && r.energy_out
                    == s.particle.energy && r.reaction == reaction
            }
            &&& !s.tracing ==> n.trace == s.trace
            &&& n.particle == s.particle && n.alive == s.alive && n.step == s.step && n.pend
                == s.pend && n.lost == s.lost
        }),
{
}

} // verus!
