//! Reactions, histories and the step machine.
use yamc_transport::band::{at_least_zero, BandTables};
use yamc_transport::history::{Collision, History, Secondary, StepStart};
use yamc_transport::ieee::Real;
use yamc_transport::layout::{
    BOUNDARY_TRANSMISSION, BOUNDARY_VACUUM, CELL_NOT_FOUND, COL_CORR_N_COMPONENTS,
    COL_CORR_N_ENERGIES, COL_EOUT_KIND, COL_EOUT_N_ENERGIES, COL_SCATTER_IN_CM, CONTINUUM_SLOT,
    EOUT_KIND_CONTINUOUS_TABULAR, EOUT_KIND_CORRELATED, EOUT_KIND_EVAPORATION, EOUT_KIND_MAXWELL,
    MT_INELASTIC_COUNT, MT_SLOT_U32_COLS, NO_HIT_BITS,
};
use yamc_transport::lookup::{GridSide, Incident, NuclideRun};
use yamc_transport::pend::{PendDrain, PEND_SLOTS};
use yamc_transport::reaction::{
    analog_multiplicity, chi_law, chi_row, clamp_component, collides_first, component_row,
    draws_nuclide, draws_spectrum, extra_progeny, fission_progeny_energy, gather_theta,
    incident_row, is_free_gas, kinematics_survive, nearest_surface, outgoing_energy, outgoing_law,
    progeny_count, reaction_code, scatters_in_cm, select_nuclide, select_reaction, select_slot,
    spectrum_is_open, spectrum_row, survival_applies, watt_energy, ChiLaw, OutgoingLaw, Reaction,
    LEAST_ENERGY_BITS,
};
use yamc_transport::transport::{Action, Event, Walk, WalkRules};

fn num(x: f64) -> Real {
    Real::new(x.to_bits())
}

fn nums(xs: &[f64]) -> Vec<Real> {
    xs.iter().map(|x| num(*x)).collect()
}

fn value(x: Real) -> f64 {
    f64::from_bits(x.bits)
}

#[test]
fn nearest_surface_is_the_first_of_the_closest() {
    let n = nearest_surface(&nums(&[5.0, 2.0, 2.0, 1.0e30]));
    assert_eq!((n.surface, n.distance), (1, num(2.0)));
    let n = nearest_surface(&nums(&[1.0e30, 1.0e31, f64::NAN]));
    assert_eq!((n.surface, n.distance.bits), (0, NO_HIT_BITS));
    assert_eq!(num(1.0e30).bits, NO_HIT_BITS);
    let n = nearest_surface(&[]);
    assert_eq!((n.surface, n.distance.bits), (0, NO_HIT_BITS));
}

#[test]
fn tie_between_collision_and_surface_is_a_crossing() {
    assert!(collides_first(num(1.0), num(2.0)));
    assert!(!collides_first(num(2.0), num(2.0)));
    assert!(!collides_first(num(f64::NAN), num(2.0)));
}

#[test]
fn nuclide_is_the_first_whose_sum_exceeds_the_draw() {
    let sums = nums(&[1.0, 3.0, 6.0]);
    assert_eq!(select_nuclide(&sums, num(0.5)), 0);
    assert_eq!(select_nuclide(&sums, num(1.0)), 1);
    assert_eq!(select_nuclide(&sums, num(5.9)), 2);
    assert_eq!(select_nuclide(&sums, num(6.0)), 2);
}

#[test]
fn single_nuclide_is_struck_without_a_draw() {
    assert!(!draws_nuclide(NuclideRun { offset: 4, count: 1 }));
    assert!(!draws_nuclide(NuclideRun { offset: 4, count: 0 }));
    assert!(draws_nuclide(NuclideRun { offset: 4, count: 2 }));
}

#[test]
fn reaction_is_chosen_by_the_cumulative_probabilities() {
    let choose = |xi: f64| select_reaction(num(xi), num(0.25), num(0.5), num(0.75));
    assert_eq!(choose(0.1), Reaction::Elastic);
    assert_eq!(choose(0.25), Reaction::Inelastic);
    assert_eq!(choose(0.5), Reaction::Fission);
    assert_eq!(choose(0.75), Reaction::Absorption);
    assert_eq!(choose(1.0), Reaction::Absorption);
    assert!(survival_applies(true, num(1.0)));
    assert!(!survival_applies(true, num(0.0)));
    assert!(!survival_applies(false, num(1.0)));
    // With implicit capture nothing is absorbed below one.
    let implicit = select_reaction(num(0.999), num(0.5), num(0.9), num(1.0));
    assert_eq!(implicit, Reaction::Fission);
}

#[test]
fn slot_is_the_first_to_reach_the_target_or_the_continuum() {
    let sums: Vec<Real> = (0..MT_INELASTIC_COUNT).map(|i| num(i as f64)).collect();
    assert_eq!(select_slot(&sums, num(0.0)), 0);
    assert_eq!(select_slot(&sums, num(3.5)), 4);
    assert_eq!(select_slot(&sums, num(1000.0)), CONTINUUM_SLOT);
    assert_eq!(reaction_code(Reaction::Inelastic, 40), 91);
    assert_eq!(reaction_code(Reaction::Elastic, 0), 2);
    assert_eq!(reaction_code(Reaction::Fission, 0), 18);
    assert_eq!(reaction_code(Reaction::Absorption, 0), 102);
}

#[test]
fn integral_yields_are_emitted_and_others_weigh() {
    assert_eq!(analog_multiplicity(2, num(0.0)), Some(2));
    assert_eq!(analog_multiplicity(3, num(0.9e-10)), Some(3));
    assert_eq!(analog_multiplicity(3, num(1.0e-10)), None);
    assert_eq!(analog_multiplicity(1, num(0.0)), None);
    assert_eq!(analog_multiplicity(2, num(0.3)), None);
}

#[test]
fn fission_neutrons_round_by_the_draw_and_are_capped() {
    assert_eq!(progeny_count(2, num(0.3), num(0.4)), 3);
    assert_eq!(progeny_count(2, num(0.4), num(0.4)), 2);
    assert_eq!(extra_progeny(0), 0);
    assert_eq!(extra_progeny(1), 0);
    assert_eq!(extra_progeny(8), 7);
    assert_eq!(extra_progeny(9), 7);
}

#[test]
fn delayed_spectrum_is_the_second_row_of_a_pair() {
    assert!(draws_spectrum(num(0.01)));
    assert!(!draws_spectrum(num(0.0)));
    assert_eq!(chi_row(3, num(0.01), Some(num(0.005))), 7);
    assert_eq!(chi_row(3, num(0.01), Some(num(0.01))), 6);
    assert_eq!(chi_row(3, num(0.0), None), 6);
    let tabular = chi_law(EOUT_KIND_CONTINUOUS_TABULAR, 4, 9);
    assert_eq!(tabular, ChiLaw::Tabular { offset: 9, n: 4 });
    assert_eq!(chi_law(EOUT_KIND_MAXWELL, 4, 9), ChiLaw::Maxwell { offset: 9, n: 4 });
    assert_eq!(chi_law(EOUT_KIND_EVAPORATION, 4, 9), ChiLaw::Evaporation { offset: 9, n: 4 });
    assert_eq!(chi_law(EOUT_KIND_MAXWELL, 0, 9), ChiLaw::Watt);
    assert_eq!(gather_theta(&[1.0, 2.0, 3.0], &[2, 0, 1], 1, 2), vec![1.0, 2.0]);
}

#[test]
fn slot_row_names_its_outgoing_law() {
    let cols = MT_SLOT_U32_COLS as usize;
    let mut meta = vec![0u32; 2 * cols];
    assert_eq!(outgoing_law(&meta, 1), OutgoingLaw::Level);
    assert!(!scatters_in_cm(&meta, 1));
    meta[cols + COL_SCATTER_IN_CM as usize] = 1;
    assert!(scatters_in_cm(&meta, 1));
    let kind = cols + COL_EOUT_KIND as usize;
    meta[kind] = EOUT_KIND_CONTINUOUS_TABULAR;
    assert_eq!(outgoing_law(&meta, 1), OutgoingLaw::Level);
    meta[cols + COL_EOUT_N_ENERGIES as usize] = 4;
    assert_eq!(outgoing_law(&meta, 1), OutgoingLaw::Tabular { n: 4 });
    meta[cols + COL_EOUT_N_ENERGIES as usize] = 0;
    meta[kind] = EOUT_KIND_CORRELATED;
    meta[cols + COL_CORR_N_ENERGIES as usize] = 6;
    meta[cols + COL_CORR_N_COMPONENTS as usize] = 2;
    assert_eq!(
        outgoing_law(&meta, 1),
        OutgoingLaw::Correlated { n_per_component: 3, n_components: 2 }
    );
    meta[cols + COL_CORR_N_COMPONENTS as usize] = 1;
    assert_eq!(
        outgoing_law(&meta, 1),
        OutgoingLaw::Correlated { n_per_component: 6, n_components: 1 }
    );
}

#[test]
fn failed_kinematics_and_component_indices() {
    assert!(kinematics_survive(num(1.0), false, num(-1.0)));
    assert!(!kinematics_survive(num(1.0), true, num(-1.0)));
    assert!(kinematics_survive(num(1.0), true, num(0.5)));
    assert!(!kinematics_survive(num(0.0), false, num(1.0)));
    assert!(!kinematics_survive(num(f64::NAN), false, num(1.0)));
    assert_eq!(component_row(10, 2, 4), 18);
    assert_eq!(clamp_component(5, 3), 2);
    assert_eq!(clamp_component(1, 3), 1);
}

const OFF: WalkRules = WalkRules {
    survival_on: false,
    weight_cutoff: Real { bits: 0 },
    weight_survive: Real { bits: 0 },
    fission_bank: false,
};

fn start(rules: WalkRules, max_steps: u32) -> Walk {
    Walk::start(
        42,
        num(2.0e6),
        [num(0.0), num(0.0), num(0.0)],
        [num(0.0), num(0.0), num(1.0)],
        PendDrain::Lifo,
        max_steps,
        true,
        rules,
    )
}

/// Takes a walk from the start of a step to the choice of a reaction.
fn collide(w: &mut Walk, weight: f64, xi: f64) -> Action {
    assert!(matches!(w.advance(Event::Begin), Action::Locate | Action::Resume { .. }));
    assert!(matches!(w.advance(Event::Cell { cell: 3 }), Action::Fly { cell: 3 }));
    let action = w.advance(Event::Flight {
        sampled: num(1.0),
        hits: nums(&[4.0, 2.0]),
    });
    assert!(matches!(action, Action::Move { distance, collides: true } if distance == num(1.0)));
    let p = w.particle();
    let z = value(p.pz) + 1.0;
    assert!(matches!(
        w.advance(Event::Moved { px: p.px, py: p.py, pz: num(z) }),
        Action::Strike
    ));
    assert!(matches!(
        w.advance(Event::Partials { sigma_sf: num(1.0) }),
        Action::Split { .. }
    ));
    w.advance(Event::Thresholds {
        weight: num(weight),
        p_elastic: num(0.25),
        p_scatter: num(0.5),
        p_any: num(0.75),
        xi: num(xi),
    })
}

#[test]
fn absorbed_particle_ends_with_one_record() {
    let mut w = start(OFF, 10);
    assert!(matches!(collide(&mut w, 1.0, 0.9), Action::Begin));
    assert!(matches!(w.advance(Event::Begin), Action::Finished));
    let (outcome, trace) = w.finish();
    assert_eq!((outcome.alive, outcome.n_steps), (0, 1));
    assert_eq!(trace.len(), 1);
    assert_eq!((trace[0].step, trace[0].reaction), (0, 102));
    assert_eq!(trace[0].energy_in, trace[0].energy_out);
}

#[test]
fn elastic_collision_turns_and_slows_the_particle() {
    let mut w = start(OFF, 2);
    assert!(matches!(collide(&mut w, 0.5, 0.1), Action::ScatterElastically));
    // The discounted weight is used with implicit capture only.
    assert_eq!(w.particle().weight, num(1.0));
    let action = w.advance(Event::Scattered {
        energy: num(1.0e6),
        dx: num(1.0),
        dy: num(0.0),
        dz: num(0.0),
    });
    assert!(matches!(action, Action::Begin));
    let p = w.particle();
    assert_eq!((p.energy, p.dx, p.pz), (num(1.0e6), num(1.0), num(1.0)));
    assert!(matches!(collide(&mut w, 1.0, 0.1), Action::ScatterElastically));
    w.advance(Event::Scattered {
        energy: num(5.0e5),
        dx: num(1.0),
        dy: num(0.0),
        dz: num(0.0),
    });
    // The walk has taken all its steps and still lives.
    assert!(matches!(w.advance(Event::Begin), Action::Finished));
    let (outcome, trace) = w.finish();
    assert_eq!((outcome.alive, outcome.n_steps), (1, 2));
    assert_eq!(outcome.final_energy, num(5.0e5));
    let energies: Vec<(Real, Real)> = trace.iter().map(|t| (t.energy_in, t.energy_out)).collect();
    assert_eq!(
        energies,
        vec![(num(2.0e6), num(1.0e6)), (num(1.0e6), num(5.0e5))]
    );
}

fn secondary(seed: u32) -> Secondary {
    Secondary {
        seed,
        energy: num(seed as f64),
        dx: num(0.0),
        dy: num(1.0),
        dz: num(0.0),
    }
}

#[test]
fn integral_yield_queues_the_other_neutrons() {
    let mut w = start(OFF, 5);
    assert!(matches!(collide(&mut w, 1.0, 0.3), Action::FindSlot));
    let sums: Vec<Real> = (0..MT_INELASTIC_COUNT).map(|i| num(i as f64)).collect();
    let action = w.advance(Event::Slots { sums, target: num(40.5) });
    assert!(matches!(action, Action::FindYield { slot: 41 }));
    assert_eq!(w.secondary_key(), (42, 0));
    let action = w.advance(Event::Yield {
        rounded: 3,
        deviation: num(0.0),
        weight: num(3.0),
    });
    assert!(matches!(action, Action::Emit { slot: 41, extra: 2 }));
    // More neutrons than the yield are refused.
    let action = w.advance(Event::Emitted {
        walk_energy: Some(num(10.0)),
        dx: num(1.0),
        dy: num(0.0),
        dz: num(0.0),
        secondaries: vec![secondary(1), secondary(2), secondary(3)],
    });
    assert!(matches!(action, Action::Unexpected));
    let action = w.advance(Event::Emitted {
        walk_energy: Some(num(10.0)),
        dx: num(1.0),
        dy: num(0.0),
        dz: num(0.0),
        secondaries: vec![secondary(7), secondary(8)],
    });
    assert!(matches!(action, Action::Begin));
    assert_eq!(w.particle().weight, num(1.0));
    assert_eq!(w.secondary_key(), (42, 2));
    // The walk is absorbed; the last queued neutron takes over.
    assert!(matches!(collide(&mut w, 1.0, 0.9), Action::Begin));
    assert!(matches!(w.advance(Event::Begin), Action::Resume { seed: 8 }));
    assert_eq!(w.particle().energy, num(8.0));
    assert_eq!(w.secondary_key(), (8, 0));
    assert_eq!(w.particle().pz, num(1.0));
}

#[test]
fn fractional_yield_multiplies_the_weight() {
    let mut w = start(OFF, 5);
    collide(&mut w, 1.0, 0.3);
    let sums: Vec<Real> = vec![num(1.0); MT_INELASTIC_COUNT];
    w.advance(Event::Slots { sums, target: num(0.5) });
    let action = w.advance(Event::Yield {
        rounded: 1,
        deviation: num(0.4),
        weight: num(1.4),
    });
    assert!(matches!(action, Action::Emit { slot: 0, extra: 0 }));
    w.advance(Event::Emitted {
        walk_energy: None,
        dx: num(1.0),
        dy: num(0.0),
        dz: num(0.0),
        secondaries: vec![],
    });
    // Failed kinematics end the walk.
    let (outcome, trace) = w.finish();
    assert_eq!(outcome.alive, 0);
    assert_eq!(trace[0].reaction, 51);
}

#[test]
fn fission_multiplies_the_weight_or_branches() {
    let mut w = start(OFF, 5);
    assert!(matches!(collide(&mut w, 1.0, 0.6), Action::Fission));
    w.advance(Event::Fissioned {
        weight: num(2.5),
        energy: num(1.0e6),
        dx: num(1.0),
        dy: num(0.0),
        dz: num(0.0),
    });
    assert_eq!(w.particle().weight, num(2.5));
    // Past the weight cap the walk ends.
    collide(&mut w, 1.0, 0.6);
    w.advance(Event::Fissioned {
        weight: num(1000.5),
        energy: num(1.0e6),
        dx: num(1.0),
        dy: num(0.0),
        dz: num(0.0),
    });
    assert!(matches!(w.advance(Event::Begin), Action::Finished));

    let banked = WalkRules { fission_bank: true, ..OFF };
    let mut w = start(banked, 5);
    assert!(matches!(collide(&mut w, 1.0, 0.6), Action::CountProgeny));
    let action = w.advance(Event::MeanProgeny {
        n_floor: 2,
        xi: num(0.1),
        fraction: num(0.4),
    });
    assert!(matches!(action, Action::EmitProgeny { extra: 2 }));
    w.advance(Event::Branched {
        energy: num(3.0),
        dx: num(1.0),
        dy: num(0.0),
        dz: num(0.0),
        progeny: vec![secondary(5), secondary(6)],
    });
    assert_eq!(w.particle().weight, num(1.0));
    let (outcome, trace) = w.finish();
    assert_eq!((outcome.alive, outcome.n_spilled, outcome.max_pend_depth), (1, 0, 0));
    assert_eq!(trace[0].reaction, 18);
}

#[test]
fn low_weight_survivor_is_put_to_roulette() {
    let rules = WalkRules {
        survival_on: true,
        weight_cutoff: num(0.25),
        weight_survive: num(1.0),
        fission_bank: false,
    };
    let mut w = start(rules, 5);
    assert!(matches!(collide(&mut w, 0.1, 0.1), Action::ScatterElastically));
    assert_eq!(w.particle().weight, num(0.1));
    let scattered = |w: &mut Walk| {
        w.advance(Event::Scattered {
            energy: num(1.0),
            dx: num(1.0),
            dy: num(0.0),
            dz: num(0.0),
        })
    };
    assert!(matches!(scattered(&mut w), Action::DrawRoulette));
    w.advance(Event::Roulette { survival: num(0.1), xi: num(0.05) });
    assert_eq!(w.particle().weight, num(1.0));
    collide(&mut w, 0.1, 0.1);
    scattered(&mut w);
    w.advance(Event::Roulette { survival: num(0.1), xi: num(0.5) });
    assert!(matches!(w.advance(Event::Begin), Action::Finished));
    let (outcome, trace) = w.finish();
    assert_eq!(outcome.alive, 0);
    assert_eq!(trace.len(), 2);
    // Above the cutoff nothing is drawn.
    let mut w = start(rules, 5);
    collide(&mut w, 0.5, 0.1);
    assert!(matches!(scattered(&mut w), Action::Begin));
}

fn fly_to_surface(w: &mut Walk) {
    w.advance(Event::Begin);
    w.advance(Event::Cell { cell: 0 });
    let action = w.advance(Event::Flight {
        sampled: num(9.0),
        hits: nums(&[1.0e30, 2.0]),
    });
    assert!(matches!(action, Action::Move { distance, collides: false } if distance == num(2.0)));
    let action = w.advance(Event::Moved { px: num(0.0), py: num(0.0), pz: num(2.0) });
    assert!(matches!(action, Action::Cross { surface: 1 }));
}

#[test]
fn surface_lets_through_or_ends_the_walk() {
    let mut w = start(OFF, 5);
    fly_to_surface(&mut w);
    w.advance(Event::Crossed {
        boundary: BOUNDARY_TRANSMISSION,
        px: num(0.0),
        py: num(0.0),
        pz: num(2.00001),
    });
    assert_eq!(w.particle().pz, num(2.00001));
    fly_to_surface(&mut w);
    w.advance(Event::Crossed {
        boundary: BOUNDARY_VACUUM,
        px: num(0.0),
        py: num(0.0),
        pz: num(9.0),
    });
    assert_eq!(w.particle().pz, num(2.0));
    assert!(matches!(w.advance(Event::Begin), Action::Finished));
    let (outcome, trace) = w.finish();
    assert_eq!((outcome.alive, outcome.n_steps), (0, 2));
    assert!(trace.is_empty());
    // A walk that leaks out is not lost.
    assert!(outcome.lost.is_empty());
}

#[test]
fn particle_in_no_cell_is_lost_with_its_last_cell() {
    let mut w = start(OFF, 5);
    fly_to_surface(&mut w);
    w.advance(Event::Crossed {
        boundary: BOUNDARY_TRANSMISSION,
        px: num(0.0),
        py: num(0.0),
        pz: num(3.0),
    });
    w.advance(Event::Begin);
    assert!(matches!(
        w.advance(Event::Cell { cell: CELL_NOT_FOUND }),
        Action::Begin
    ));
    let (outcome, _) = w.finish();
    assert_eq!(outcome.lost.len(), 1);
    let lost = outcome.lost[0];
    assert_eq!(lost.last_cell_index, Some(0));
    assert_eq!(lost.position, [num(0.0), num(0.0), num(3.0)]);
    assert_eq!((outcome.alive, outcome.n_steps), (0, 2));
}

#[test]
fn unexpected_event_changes_nothing() {
    let mut w = start(OFF, 5);
    assert!(matches!(w.advance(Event::Cell { cell: 1 }), Action::Unexpected));
    assert!(matches!(w.advance(Event::Begin), Action::Locate));
    assert!(matches!(w.advance(Event::Begin), Action::Unexpected));
    assert!(matches!(w.advance(Event::Cell { cell: 1 }), Action::Fly { cell: 1 }));
}

#[test]
fn no_step_is_taken_without_any_allowed() {
    let mut w = start(OFF, 0);
    assert!(matches!(w.advance(Event::Begin), Action::Finished));
    let (outcome, _) = w.finish();
    assert_eq!((outcome.alive, outcome.n_steps), (1, 0));
}

#[test]
fn band_is_held_for_one_energy() {
    let mut w = start(OFF, 5);
    assert_eq!(w.held_band(), None);
    w.hold_band(num(0.3));
    assert_eq!(w.held_band(), Some(num(0.3)));
    collide(&mut w, 1.0, 0.1);
    w.advance(Event::Scattered {
        energy: num(1.0),
        dx: num(1.0),
        dy: num(0.0),
        dz: num(0.0),
    });
    assert_eq!(w.held_band(), None);
}

#[test]
fn history_resumes_fresh_after_its_walk() {
    let mut h = History::start(
        1,
        num(5.0),
        [num(0.0), num(0.0), num(0.0)],
        [num(1.0), num(0.0), num(0.0)],
        PendDrain::Fifo,
        3,
        false,
    );
    assert_eq!(h.begin_step(), StepStart::Continue);
    h.collide(&Collision::Multiple {
        walk_energy: None,
        dx: num(1.0),
        dy: num(0.0),
        dz: num(0.0),
        secondaries: vec![secondary(20), secondary(21)],
    });
    h.end_step();
    assert!(!h.is_alive());
    assert_eq!(h.begin_step(), StepStart::Resume { seed: 20 });
    assert!(h.is_alive());
    assert_eq!(h.secondary_key(), (20, 0));
    h.collide(&Collision::Absorption);
    h.end_step();
    assert_eq!(h.begin_step(), StepStart::Resume { seed: 21 });
    h.collide(&Collision::Absorption);
    h.end_step();
    assert_eq!(h.begin_step(), StepStart::Finished);
    let (outcome, trace) = h.finish();
    assert_eq!((outcome.n_steps, outcome.max_pend_depth), (1, 2));
    assert!(trace.is_empty());
}

#[test]
fn band_is_in_range_strictly_between_its_ends() {
    // Three slabs: without a table, with one energy only, with a range 1 to 3.
    let mut meta = vec![0u32; 24];
    meta[8] = 1;
    meta[9] = 1;
    meta[16] = 1;
    meta[17] = 3;
    let grid = [num(5.0), num(1.0), num(2.0), num(3.0)];
    let t = BandTables {
        meta: &meta,
        ae_offset: &[0, 0, 1],
        energy_grid: &grid,
    };
    let all = NuclideRun { offset: 0, count: 3 };
    assert!(t.any_in_range(all, num(2.5)));
    assert!(!t.any_in_range(all, num(1.0)));
    assert!(!t.any_in_range(all, num(3.0)));
    assert!(!t.any_in_range(all, num(5.0)));
    // Only the nuclides of the material count.
    assert!(!t.any_in_range(NuclideRun { offset: 0, count: 2 }, num(2.5)));
    assert!(!t.any_in_range(NuclideRun { offset: 2, count: 0 }, num(2.5)));
    assert_eq!(at_least_zero(num(-0.5)), num(0.0));
    assert_eq!(at_least_zero(num(0.5)), num(0.5));
}

#[test]
fn target_motion_matters_for_light_targets_and_low_energies() {
    let hot = num(300.0);
    assert!(is_free_gas(hot, num(1.0), num(1.0e7), num(10.0)));
    assert!(is_free_gas(hot, num(12.0), num(9.0), num(10.0)));
    assert!(!is_free_gas(hot, num(12.0), num(10.0), num(10.0)));
    assert!(!is_free_gas(num(0.0), num(1.0), num(1.0), num(10.0)));
}

#[test]
fn outgoing_energy_is_sampled_or_that_of_the_closed_form() {
    let at = |index: usize, side: GridSide| Incident { index, side };
    assert_eq!(incident_row(at(0, GridSide::Below), 4), 0);
    assert_eq!(incident_row(at(1, GridSide::Within), 4), 1);
    assert_eq!(incident_row(at(2, GridSide::Above), 4), 3);
    assert!(spectrum_is_open(num(0.1), num(2.0), num(1.0)));
    assert!(!spectrum_is_open(num(0.1), num(1.0), num(1.0)));
    assert!(!spectrum_is_open(num(0.0), num(2.0), num(1.0)));
    assert_eq!(outgoing_energy(Some(num(3.0)), num(7.0)), num(3.0));
    assert_eq!(outgoing_energy(Some(num(0.0)), num(7.0)), num(7.0));
    assert_eq!(outgoing_energy(None, num(7.0)), num(7.0));
}

#[test]
fn watt_draw_without_energy_gets_the_least() {
    assert_eq!(watt_energy(num(2.5)), num(2.5));
    assert_eq!(watt_energy(num(0.0)), num(1.0e-6));
    assert_eq!(watt_energy(num(-3.0)).bits, LEAST_ENERGY_BITS);
    assert_eq!(watt_energy(num(1.0e-9)), num(1.0e-9));
}

fn begin(drain: PendDrain, tracing: bool) -> Walk {
    Walk::start(
        42,
        num(2.0e6),
        [num(0.0), num(0.0), num(0.0)],
        [num(0.0), num(0.0), num(1.0)],
        drain,
        5,
        tracing,
        OFF,
    )
}

/// The source particle emits `extra` more neutrons and goes on at energy 10.
fn emit(w: &mut Walk, extra: u32) {
    assert!(matches!(collide(w, 1.0, 0.3), Action::FindSlot));
    let sums: Vec<Real> = (0..MT_INELASTIC_COUNT).map(|i| num(i as f64)).collect();
    w.advance(Event::Slots { sums, target: num(0.0) });
    w.advance(Event::Yield {
        rounded: extra + 1,
        deviation: num(0.0),
        weight: num(1.0),
    });
    let action = w.advance(Event::Emitted {
        walk_energy: Some(num(10.0)),
        dx: num(1.0),
        dy: num(0.0),
        dz: num(0.0),
        secondaries: (1..=extra).map(secondary).collect(),
    });
    assert!(matches!(action, Action::Begin));
}

/// The source particle emits; then every walk is lost when its seed is odd and
/// absorbed when it is even. Gives what each walk scored, in order.
fn history_of(w: &mut Walk, extra: u32) -> Vec<u32> {
    emit(w, extra);
    let mut scored = vec![];
    loop {
        match w.advance(Event::Begin) {
            Action::Finished => return scored,
            Action::Locate | Action::Resume { .. } => {}
            _ => panic!(),
        }
        let seed = w.secondary_key().0;
        scored.push(seed);
        if seed % 2 == 1 {
            w.advance(Event::Cell { cell: CELL_NOT_FOUND });
            continue;
        }
        w.advance(Event::Cell { cell: 0 });
        w.advance(Event::Flight { sampled: num(1.0), hits: vec![] });
        w.advance(Event::Moved { px: num(0.0), py: num(0.0), pz: num(0.0) });
        w.advance(Event::Partials { sigma_sf: num(1.0) });
        w.advance(Event::Thresholds {
            weight: num(1.0),
            p_elastic: num(0.0),
            p_scatter: num(0.0),
            p_any: num(0.0),
            xi: num(0.5),
        });
    }
}

#[test]
fn every_lost_walk_leaves_a_record() {
    let mut w = begin(PendDrain::Fifo, false);
    history_of(&mut w, 3);
    let (outcome, _) = w.finish();
    let energies: Vec<Real> = outcome.lost.iter().map(|r| r.energy).collect();
    assert_eq!(energies, nums(&[1.0, 3.0]));
    assert_eq!(outcome.alive, 0);
}

#[test]
fn drain_orders_score_and_lose_alike() {
    let mut a = begin(PendDrain::Fifo, false);
    let mut b = begin(PendDrain::Lifo, false);
    let mut x = history_of(&mut a, 3);
    let mut y = history_of(&mut b, 3);
    assert_eq!(x, vec![42, 1, 2, 3]);
    assert_eq!(y, vec![42, 3, 2, 1]);
    x.sort();
    y.sort();
    assert_eq!(x, y);
    assert_eq!(a.finish().0.lost.len(), b.finish().0.lost.len());
}

#[test]
fn trace_changes_no_outcome() {
    let mut a = begin(PendDrain::Lifo, true);
    let mut b = begin(PendDrain::Lifo, false);
    assert_eq!(history_of(&mut a, 2), history_of(&mut b, 2));
    let (x, trace) = a.finish();
    let (y, none) = b.finish();
    assert_eq!((x.alive, x.n_steps, x.final_energy), (y.alive, y.n_steps, y.final_energy));
    assert_eq!((x.n_spilled, x.max_pend_depth), (y.n_spilled, y.max_pend_depth));
    assert_eq!(x.lost.len(), y.lost.len());
    assert!(none.is_empty());
    // One record for each collision: the emission, and two absorptions.
    let reactions: Vec<(u32, i32)> = trace.iter().map(|r| (r.step, r.reaction)).collect();
    assert_eq!(reactions, vec![(0, 51), (1, 102), (0, 102)]);
    assert_eq!(trace[1].energy_in, trace[1].energy_out);
}

#[test]
fn spill_takes_every_register_slot() {
    let mut w = begin(PendDrain::Lifo, false);
    history_of(&mut w, PEND_SLOTS as u32);
    let (outcome, _) = w.finish();
    assert_eq!((outcome.n_spilled, outcome.max_pend_depth), (0, PEND_SLOTS as u32));
    let mut w = begin(PendDrain::Lifo, false);
    history_of(&mut w, PEND_SLOTS as u32 + 2);
    let (outcome, _) = w.finish();
    assert_eq!((outcome.n_spilled, outcome.max_pend_depth), (2, PEND_SLOTS as u32));
}

#[test]
fn spectrum_is_chosen_by_one_uniform_at_most() {
    // The stream is the number of draws made on it; each gives 0.25.
    let draw = |n: u32| (num(0.25), n + 1);
    assert_eq!(spectrum_row(3, num(0.0), 5, &draw), (6, 5));
    assert_eq!(spectrum_row(3, num(-1.0), 5, &draw), (6, 5));
    assert_eq!(spectrum_row(3, num(0.5), 5, &draw), (7, 6));
    assert_eq!(spectrum_row(3, num(0.25), 5, &draw), (6, 6));
    // The row is sampled on the stream behind the choice.
    let chi = |row: usize, n: u32| (num((100 * row) as f64 + n as f64), n + 4);
    assert_eq!(fission_progeny_energy(3, num(0.0), 5, &draw, &chi), (num(605.0), 9));
    assert_eq!(fission_progeny_energy(3, num(0.5), 5, &draw, &chi), (num(706.0), 10));
    assert_eq!(fission_progeny_energy(3, num(0.1), 5, &draw, &chi), (num(606.0), 10));
}
