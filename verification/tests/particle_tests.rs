use fieldsim::particles::axis_offset_exec;
use fieldsim::rng::rand;
use fieldsim::sim::Simulation;

fn particle_count(sim: &Simulation) -> usize {
    let n = sim.dim();
    let mut count = 0;
    for y in 0..n {
        for x in 0..n {
            if sim.occupied_at(x, y) {
                count += 1;
            }
        }
    }
    count
}

#[test]
fn stochastic_rounding_is_unbiased_on_average() {
    // movement 1.5 cells, in fixed point
    let m: i64 = 98304;
    let mut total: i64 = 0;
    let mut count: i64 = 0;
    for t in 0..4u32 {
        for x in 0..128u32 {
            for y in 0..128u32 {
                let r = rand(128, x, y, t, 0);
                total += axis_offset_exec(m, r);
                count += 1;
            }
        }
    }
    let mean = total as f64 / count as f64;
    assert!((mean - 1.5).abs() < 0.01, "mean {mean}");
}

#[test]
fn stochastic_rounding_integer_part_is_deterministic() {
    // movement of exactly 3 cells never rounds
    for r in [0u32, 1, 12345, u32::MAX] {
        assert_eq!(axis_offset_exec(3 * 65536, r), 3);
        assert_eq!(axis_offset_exec(-3 * 65536, r), -3);
    }
}

#[test]
fn stochastic_rounding_flips_exactly_at_the_threshold() {
    // movement 1.5: the fractional half rounds up exactly when the
    // pseudo-random word falls below half the 32-bit range.
    let m: i64 = 98304;
    assert_eq!(axis_offset_exec(m, 2147483647), 2);
    assert_eq!(axis_offset_exec(m, 2147483648), 1);
    assert_eq!(axis_offset_exec(m, u32::MAX), 1);
    assert_eq!(axis_offset_exec(m, 0), 2);
}

#[test]
fn stochastic_rounding_is_odd_in_the_movement() {
    for (m, rseed) in [(98304i64, 7u32), (42i64, 9), (650000i64, 123)] {
        for i in 0..64u32 {
            let r = rand(128, i % 8, i / 8, rseed, 0);
            assert_eq!(axis_offset_exec(-m, r), -axis_offset_exec(m, r));
        }
    }
}

#[test]
fn particles_stay_put_in_a_zero_field() {
    let mut sim = Simulation::new(3, 1);
    sim.place_particle(1, 1);
    sim.place_particle(6, 6);
    sim.place_particle(2, 5);
    for t in 1..10u32 {
        sim.transport(t);
        assert_eq!(particle_count(&sim), 3);
        assert!(sim.occupied_at(1, 1));
        assert!(sim.occupied_at(6, 6));
        assert!(sim.occupied_at(2, 5));
    }
}

#[test]
fn particle_count_is_conserved_while_moving() {
    let mut sim = Simulation::new(3, 1);
    sim.write_charge(2, 2, 327680);
    sim.relax(0, 50);
    sim.place_particle(5, 5);
    for t in 1..20u32 {
        sim.transport(t);
        assert_eq!(particle_count(&sim), 1);
    }
}

#[test]
fn corner_particle_never_leaves_the_grid() {
    // A source at (1, 1) pushes the corner particle toward negative
    // coordinates; every attempted move lands outside, so the particle
    // stays in its cell.
    let mut sim = Simulation::new(2, 1);
    sim.write_charge(1, 1, 327680);
    sim.relax(0, 50);
    sim.place_particle(0, 0);
    for t in 1..25u32 {
        sim.transport(t);
        assert_eq!(particle_count(&sim), 1);
        assert!(sim.occupied_at(0, 0));
    }
}

#[test]
fn trail_marks_particles_and_decays_by_steps() {
    let mut sim = Simulation::new(3, 1);
    sim.place_particle(3, 3);
    sim.update_trail();
    assert_eq!(sim.trail_at(3, 3), 65536);
    assert_eq!(sim.trail_at(0, 0), 0);
    // While the particle stands still the trail stays saturated.
    sim.update_trail();
    assert_eq!(sim.trail_at(3, 3), 65536);
    // Drive the particle away and watch its old cell decay step by step.
    let mut sim2 = Simulation::new(3, 1);
    sim2.write_charge(2, 2, 327680);
    sim2.relax(0, 50);
    sim2.place_particle(5, 5);
    let mut decayed = false;
    for t in 1..30u32 {
        sim2.tick(t, false, 2);
        let n = sim2.dim();
        for y in 0..n {
            for x in 0..n {
                let v = sim2.trail_at(x, y);
                if v > 0 && v < 65536 {
                    assert_eq!((65536 - v) % 1311, 0);
                    decayed = true;
                }
            }
        }
    }
    assert!(decayed);
}
