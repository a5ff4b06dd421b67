//! End-to-end behaviour of the simulation engine.

use molsim::fixed::{Fx, SCALE};
use molsim::{
    get_element_properties, parse_model, simulate_harmonic_oscillator, simulate_molecule,
    SimError, SimModel, SimulationParameters, SimulationState,
};

fn fx(units: i128) -> Fx {
    Fx::from_units(units)
}

fn params(model: &str, element: &str, duration: Fx, timestep: Fx, temperature: Fx) -> SimulationParameters {
    SimulationParameters::new(model.to_string(), element.to_string(), duration, timestep, temperature)
}

fn to_f64(x: Fx) -> f64 {
    x.units() as f64 / SCALE as f64
}

#[test]
fn element_table_holds_the_reference_records() {
    let h = get_element_properties("H").expect("hydrogen present");
    assert_eq!(h.m_au.units(), 911_440_000_000_000);
    assert_eq!(h.k_au.units(), 366_535_800_000);
    assert_eq!(h.d_au.units(), 181_844_600_000);
    assert_eq!(h.alpha_au.units(), 1_003_894_000_000);
    assert_eq!(h.rstr_au.units(), 0);
    assert_eq!(h.eps_au.units(), 0);
    let hg = get_element_properties("Hg").expect("mercury present");
    assert_eq!(hg.m_au.units(), 184_084_100_000_000_000);
    assert_eq!(hg.rstr_au.units(), 6_952_302_000_000);
    let ar = get_element_properties("Ar").expect("argon present");
    assert_eq!(ar.eps_au.units(), 453_624_000);
    assert!(get_element_properties("Xe").is_none());
    assert!(get_element_properties("").is_none());
    // the same symbol resolves to the same record across calls
    assert_eq!(get_element_properties("H"), get_element_properties("H"));
}

#[test]
fn model_names_resolve_against_the_closed_set() {
    assert_eq!(parse_model("harmonic"), Some(SimModel::Harmonic));
    assert_eq!(parse_model("morse"), Some(SimModel::Morse));
    assert_eq!(parse_model("lennard-jones"), Some(SimModel::LennardJones));
    assert_eq!(parse_model("xyz"), None);
    assert_eq!(parse_model(""), None);
}

#[test]
fn parameter_accessors_return_what_was_stored() {
    let p = params("harmonic", "H", Fx::from_int(10), fx(100_000_000_000), Fx::from_int(300));
    assert_eq!(p.model(), "harmonic");
    assert_eq!(p.element(), "H");
    assert_eq!(p.duration().units(), 10 * SCALE);
    assert_eq!(p.timestep().units(), 100_000_000_000);
    assert_eq!(p.temperature().units(), 300 * SCALE);
}

#[test]
fn harmonic_scenario_has_the_expected_shape() {
    // harmonic, hydrogen, duration 10, timestep 0.1, temperature 300
    let p = params("harmonic", "H", Fx::from_int(10), fx(100_000_000_000), Fx::from_int(300));
    let r = simulate_molecule(&p).expect("valid scenario");
    assert_eq!(r.times.len(), 101);
    assert_eq!(r.displacements.len(), 101);
    assert_eq!(r.distances.len(), 101);
    assert_eq!(r.potential_energies.len(), 101);
    assert_eq!(r.kinetic_energies.len(), 101);
    assert_eq!(r.total_energies.len(), 101);
    assert_eq!(r.times[0].units(), 0);
    // 100 exact steps of 0.1 land exactly on 10
    assert_eq!(r.times[100].units(), 10 * SCALE);
    assert_eq!(r.kinetic_energies[0].units(), 0);
    // the equipartition seed, to the unit: sqrt(seed_per_k * 300)
    assert_eq!(r.displacements[0].units(), 71_999_341_663);
    assert_eq!(r.potential_energies[0].units(), 950_043_419);
}

#[test]
fn initial_sample_has_zero_kinetic_and_equal_energies() {
    // the equality of initial potential and total energy holds for every
    // supported model and element that admits the temperature
    let cases = [
        ("harmonic", "H"),
        ("harmonic", "Hg"),
        ("harmonic", "Ar"),
        ("morse", "H"),
        ("lennard-jones", "Hg"),
        ("lennard-jones", "Ar"),
    ];
    for (model, element) in cases {
        let p = params(model, element, Fx::from_int(1), fx(100_000_000_000), Fx::from_int(300));
        let r = simulate_molecule(&p).expect("valid combination");
        assert_eq!(r.kinetic_energies[0].units(), 0, "{model}/{element}");
        assert_eq!(
            r.potential_energies[0].units(),
            r.total_energies[0].units(),
            "{model}/{element}"
        );
    }
}

#[test]
fn harmonic_energy_stays_conserved_over_ten_thousand_steps() {
    // timestep 1.0 atomic time unit, 10000 steps
    let p = params("harmonic", "H", Fx::from_int(10_000), Fx::from_int(1), Fx::from_int(300));
    let r = simulate_molecule(&p).expect("valid run");
    assert_eq!(r.total_energies.len(), 10_001);
    let e0 = to_f64(r.total_energies[0]);
    assert!(e0 > 0.0);
    let mut worst = 0.0f64;
    for e in &r.total_energies {
        let rel = ((to_f64(*e) - e0) / e0).abs();
        if rel > worst {
            worst = rel;
        }
    }
    assert!(worst < 1e-3, "relative energy drift {worst}");
}

#[test]
fn repeated_runs_are_bit_identical() {
    let p = params("morse", "H", Fx::from_int(10), fx(100_000_000_000), Fx::from_int(300));
    let r1 = simulate_molecule(&p).expect("valid run");
    let r2 = simulate_molecule(&p).expect("valid run");
    assert_eq!(r1.times, r2.times);
    assert_eq!(r1.displacements, r2.displacements);
    assert_eq!(r1.distances, r2.distances);
    assert_eq!(r1.potential_energies, r2.potential_energies);
    assert_eq!(r1.kinetic_energies, r2.kinetic_energies);
    assert_eq!(r1.total_energies, r2.total_energies);
}

#[test]
fn morse_high_temperature_is_rejected_not_propagated() {
    // beyond the well depth (about 5.7e4 kelvin for hydrogen) the Morse
    // inversion leaves its domain and the run must fail cleanly
    let p = params("morse", "H", Fx::from_int(5), fx(50_000_000_000), Fx::from_int(60_000));
    assert_eq!(simulate_molecule(&p).err(), Some(SimError::InvalidInitialCondition));
}

#[test]
fn morse_within_the_domain_produces_a_clean_series() {
    let p = params("morse", "H", Fx::from_int(5), fx(50_000_000_000), Fx::from_int(5_000));
    let r = simulate_molecule(&p).expect("within the inversion domain");
    assert_eq!(r.times.len(), 101);
    assert_eq!(r.kinetic_energies[0].units(), 0);
    // displacement stays bounded (no runaway from a bad inversion)
    for d in &r.displacements {
        assert!(d.units().abs() < 10 * SCALE);
    }
}

#[test]
fn morse_on_an_element_without_a_well_is_rejected() {
    // mercury and argon carry no Morse well depth
    let p = params("morse", "Ar", Fx::from_int(1), fx(100_000_000_000), Fx::from_int(300));
    assert_eq!(simulate_molecule(&p).err(), Some(SimError::InvalidInitialCondition));
}

#[test]
fn lennard_jones_scenario_has_the_expected_shape() {
    // lennard-jones, argon, duration 20, timestep 0.2, temperature 100
    let p = params("lennard-jones", "Ar", Fx::from_int(20), fx(200_000_000_000), Fx::from_int(100));
    let r = simulate_molecule(&p).expect("valid scenario");
    assert_eq!(r.times.len(), 101);
    let e0 = to_f64(r.total_energies[0]);
    assert!(e0 > 0.0);
    for e in &r.total_energies {
        let rel = ((to_f64(*e) - e0) / e0).abs();
        assert!(rel < 1e-3, "relative energy drift {rel}");
    }
    // the 12-6 inversion, to the unit
    assert_eq!(r.displacements[0].units(), -684_194_691_468);
    assert_eq!(r.potential_energies[0].units(), 316_672_271);
    // the initial compression is negative, so the distance offset is live
    assert!(r.displacements[0].units() < 0);
    for d in &r.distances {
        assert!(d.units() >= 0);
    }
}

#[test]
fn lennard_jones_on_an_element_without_a_well_is_rejected() {
    // hydrogen carries no 12-6 well in the table
    let p = params("lennard-jones", "H", Fx::from_int(1), fx(100_000_000_000), Fx::from_int(300));
    assert_eq!(simulate_molecule(&p).err(), Some(SimError::InvalidInitialCondition));
}

#[test]
fn unknown_model_is_rejected() {
    let p = params("xyz", "H", Fx::from_int(1), fx(100_000_000_000), Fx::from_int(300));
    assert_eq!(simulate_molecule(&p).err(), Some(SimError::UnknownModel));
}

#[test]
fn unknown_element_is_rejected() {
    let p = params("harmonic", "Xe", Fx::from_int(1), fx(100_000_000_000), Fx::from_int(300));
    assert_eq!(simulate_molecule(&p).err(), Some(SimError::UnknownElement));
}

#[test]
fn invalid_parameters_are_rejected() {
    let t300 = Fx::from_int(300);
    // non-positive timestep
    let p = params("harmonic", "H", Fx::from_int(1), Fx::zero(), t300);
    assert_eq!(simulate_molecule(&p).err(), Some(SimError::InvalidParameters));
    let p = params("harmonic", "H", Fx::from_int(1), Fx::from_int(-1), t300);
    assert_eq!(simulate_molecule(&p).err(), Some(SimError::InvalidParameters));
    // duration below one timestep
    let p = params("harmonic", "H", fx(50_000_000_000), fx(100_000_000_000), t300);
    assert_eq!(simulate_molecule(&p).err(), Some(SimError::InvalidParameters));
    // step count beyond the cap
    let p = params("harmonic", "H", Fx::from_int(1_000_000), fx(1), t300);
    assert_eq!(simulate_molecule(&p).err(), Some(SimError::InvalidParameters));
}

#[test]
fn negative_temperature_is_a_domain_error() {
    let p = params("harmonic", "H", Fx::from_int(1), fx(100_000_000_000), Fx::from_int(-300));
    assert_eq!(simulate_molecule(&p).err(), Some(SimError::InvalidInitialCondition));
}

#[test]
fn sample_count_follows_the_floor_law() {
    let t300 = Fx::from_int(300);
    let cases: [(i128, i128); 4] = [
        (SCALE, 300_000_000_000),          // 1.0 / 0.3 -> 3 steps
        (10 * SCALE, 100_000_000_000),     // 10 / 0.1 -> 100 steps
        (SCALE, SCALE),                    // 1.0 / 1.0 -> 1 step
        (7 * SCALE, 2 * SCALE),            // 7.0 / 2.0 -> 3 steps
    ];
    for (dur, ts) in cases {
        let p = params("harmonic", "H", fx(dur), fx(ts), t300);
        let r = simulate_molecule(&p).expect("valid parameters");
        let steps = (dur / ts) as usize;
        assert_eq!(r.times.len(), steps + 1, "duration {dur} timestep {ts}");
        assert_eq!(r.distances.len(), steps + 1);
    }
}

#[test]
fn distances_are_displacements_shifted_by_the_offset() {
    let p = params("lennard-jones", "Ar", Fx::from_int(20), fx(200_000_000_000), Fx::from_int(100));
    let r = simulate_molecule(&p).expect("valid scenario");
    let min_disp = r.displacements.iter().map(|d| d.units()).min().unwrap();
    let offset = if min_disp < 0 {
        (min_disp.abs() * 1_100_000_000_000) / 1_000_000_000_000
    } else {
        0
    };
    assert!(min_disp < 0, "scenario chosen so the offset is live");
    for (d, s) in r.displacements.iter().zip(r.distances.iter()) {
        assert_eq!(s.units(), d.units() + offset);
    }
    assert!(r.distances.iter().all(|d| d.units() >= 0));
}

#[test]
fn zero_offset_leaves_nonnegative_displacements_alone() {
    // a harmonic run started from a positive displacement with zero
    // velocity first moves inward; over a fraction of a period it stays
    // positive, so the offset is zero
    let p = params("harmonic", "H", Fx::from_int(10), fx(100_000_000_000), Fx::from_int(300));
    let r = simulate_molecule(&p).expect("valid run");
    let min_disp = r.displacements.iter().map(|d| d.units()).min().unwrap();
    assert!(min_disp >= 0);
    for (d, s) in r.displacements.iter().zip(r.distances.iter()) {
        assert_eq!(s.units(), d.units());
    }
}

#[test]
fn integrator_wrapper_runs_from_a_prepared_state() {
    let props = get_element_properties("H").expect("hydrogen present");
    let state = SimulationState::init_harmonic_oscillator(props, Fx::from_int(300))
        .expect("valid temperature");
    assert_eq!(state.velocity.units(), 0);
    assert_eq!(state.kinetic_e.units(), 0);
    assert_eq!(state.time.units(), 0);
    assert_eq!(state.potential_e, state.total_e);
    let p = params("harmonic", "H", Fx::from_int(2), fx(100_000_000_000), Fx::from_int(300));
    let r = simulate_harmonic_oscillator(state, &p).expect("valid parameters");
    assert_eq!(r.times.len(), 21);
    assert_eq!(r.displacements[0], state.displacement);
}

#[test]
fn initial_state_derivations_fail_exactly_on_domain_errors() {
    let h = get_element_properties("H").expect("hydrogen present");
    let ar = get_element_properties("Ar").expect("argon present");
    assert!(SimulationState::init_harmonic_oscillator(h, Fx::from_int(300)).is_ok());
    assert_eq!(
        SimulationState::init_harmonic_oscillator(h, Fx::from_int(-1)).err(),
        Some(SimError::InvalidInitialCondition)
    );
    let morse300 = SimulationState::init_morse_potential(h, Fx::from_int(300)).expect("in domain");
    // the Morse inversion of the thermal seed, to the unit
    assert_eq!(morse300.displacement.units(), 74_733_987_789);
    assert_eq!(morse300.potential_e.units(), 950_020_981);
    assert!(SimulationState::init_morse_potential(h, Fx::from_int(5_000)).is_ok());
    assert_eq!(
        SimulationState::init_morse_potential(h, Fx::from_int(60_000)).err(),
        Some(SimError::InvalidInitialCondition)
    );
    assert_eq!(
        SimulationState::init_morse_potential(ar, Fx::from_int(300)).err(),
        Some(SimError::InvalidInitialCondition)
    );
    assert!(SimulationState::init_lennard_jones(ar, Fx::from_int(100)).is_ok());
    assert_eq!(
        SimulationState::init_lennard_jones(h, Fx::from_int(100)).err(),
        Some(SimError::InvalidInitialCondition)
    );
}
