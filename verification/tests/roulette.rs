//! Weight-cutoff Russian roulette.
use yamc_transport::ieee::Real;
use yamc_transport::roulette::{needs_roulette, weight_cutoff_roulette, weight_cutoff_roulette_cpu};

fn num(x: f64) -> Real {
    Real::new(x.to_bits())
}

fn value(x: Real) -> f64 {
    f64::from_bits(x.bits)
}

/// The device form and the host form agree bit for bit, for weights below the
/// survivor weight and uniforms on both sides of the survival probability.
#[test]
fn gpu_weight_cutoff_roulette_matches_cpu() {
    let weight_survive = 1.0_f64;
    let mut weights = Vec::new();
    let mut survives = Vec::new();
    let mut xis = Vec::new();
    for &w in &[0.01_f64, 0.1, 0.25, 0.5, 0.75, 0.9] {
        for k in 0..=20u32 {
            let xi = (k as f64 + 1.0) / 21.0; // (0, 1]
            weights.push(w);
            survives.push(weight_survive);
            xis.push(xi);
        }
    }
    let device: Vec<Real> = (0..weights.len())
        .map(|i| {
            weight_cutoff_roulette(num(weights[i] / survives[i]), num(survives[i]), num(xis[i]))
        })
        .collect();
    assert_eq!(device.len(), weights.len());
    for i in 0..weights.len() {
        let cpu =
            weight_cutoff_roulette_cpu(num(weights[i] / survives[i]), num(survives[i]), num(xis[i]));
        assert_eq!(
            device[i].bits, cpu.bits,
            "roulette differs at i={i}: device {:?} cpu {cpu:?} (w {} ws {} xi {})",
            device[i], weights[i], survives[i], xis[i]
        );
        let expected = if xis[i] < weights[i] / survives[i] {
            survives[i]
        } else {
            0.0
        };
        assert_eq!(value(cpu), expected);
    }
}

/// Averaged over uniform draws, the surviving weight equals the weight before
/// the roulette.
#[test]
fn roulette_cpu_is_variance_neutral() {
    let weight_survive = 1.0_f64;
    for &w in &[0.05_f64, 0.2, 0.4, 0.7] {
        let n = 1_000_000u32;
        let mut sum = 0.0_f64;
        for k in 0..n {
            let xi = (k as f64 + 0.5) / n as f64;
            sum += value(weight_cutoff_roulette_cpu(
                num(w / weight_survive),
                num(weight_survive),
                num(xi),
            ));
        }
        let mean = sum / n as f64;
        assert!(
            (mean - w).abs() < 1.0e-4,
            "roulette mean {mean} != pre-roulette weight {w}"
        );
    }
}

#[test]
fn draw_on_the_survival_probability_kills() {
    let w = weight_cutoff_roulette_cpu(num(0.25), num(2.0), num(0.25));
    assert_eq!(w, num(0.0));
    let w = weight_cutoff_roulette_cpu(num(0.25), num(2.0), num(0.2499));
    assert_eq!(w, num(2.0));
}

#[test]
fn roulette_is_for_living_particles_below_the_cutoff() {
    assert!(needs_roulette(true, true, num(0.1), num(0.25)));
    assert!(!needs_roulette(true, true, num(0.25), num(0.25)));
    assert!(!needs_roulette(true, false, num(0.1), num(0.25)));
    assert!(!needs_roulette(false, true, num(0.1), num(0.25)));
}
