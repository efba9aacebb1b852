use fieldsim::sim::Simulation;

fn scripted_run() -> Simulation {
    let mut sim = Simulation::new(3, 2);
    sim.write_charge(2, 2, 327680);
    sim.write_magnet(5, 3, 65536);
    sim.place_particle(5, 5);
    for t in 1..6u32 {
        sim.tick(t, true, 4);
    }
    sim
}

#[test]
fn whole_simulation_is_reproducible() {
    let a = scripted_run();
    let b = scripted_run();
    let n = a.dim();
    for y in 0..n {
        for x in 0..n {
            assert_eq!(a.occupied_at(x, y), b.occupied_at(x, y));
            assert_eq!(a.trail_at(x, y), b.trail_at(x, y));
            let fa = a.field_at(0, x, y);
            let fb = b.field_at(0, x, y);
            assert_eq!(fa.x, fb.x);
            assert_eq!(fa.y, fb.y);
            let va = a.velocity_at(x, y);
            let vb = b.velocity_at(x, y);
            assert_eq!(va.x, vb.x);
            assert_eq!(va.y, vb.y);
        }
    }
}

#[test]
fn a_tick_actually_solves_the_field() {
    let sim = scripted_run();
    let mut nonzero = false;
    let n = sim.dim();
    for y in 0..n {
        for x in 0..n {
            let f = sim.field_at(0, x, y);
            if f.x != 0 || f.y != 0 {
                nonzero = true;
            }
        }
    }
    assert!(nonzero);
    // The residual at the source cell has been driven well below the bare
    // target magnitude.
    assert!(sim.divergence_residual(0, 2, 2).abs() < 327680 / 4);
}

#[test]
fn fresh_simulation_is_empty() {
    let sim = Simulation::new(4, 3);
    assert_eq!(sim.dim(), 16);
    assert_eq!(sim.level_count(), 3);
    assert_eq!(sim.level_dim(0), 16);
    assert_eq!(sim.level_dim(1), 8);
    assert_eq!(sim.level_dim(2), 4);
    for y in 0..16usize {
        for x in 0..16usize {
            assert!(!sim.occupied_at(x, y));
            assert_eq!(sim.charge_at(0, x, y), 0);
            assert_eq!(sim.trail_at(x, y), 0);
            let f = sim.field_at(0, x, y);
            assert_eq!((f.x, f.y), (0, 0));
        }
    }
}
