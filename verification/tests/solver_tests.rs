use fieldsim::sim::Simulation;

fn residual_sum_squares(sim: &Simulation, l: usize) -> i128 {
    let s = sim.level_dim(l);
    let mut total: i128 = 0;
    for y in 0..s {
        for x in 0..s {
            let r = sim.divergence_residual(l, x, y) as i128;
            total += r * r;
        }
    }
    total
}

#[test]
fn residual_shrinks_under_relaxation() {
    let mut sim = Simulation::new(3, 1);
    sim.write_charge(3, 3, 65536);
    let mut prev = residual_sum_squares(&sim, 0);
    assert!(prev > 0);
    for _ in 0..30 {
        sim.relax(0, 1);
        let cur = residual_sum_squares(&sim, 0);
        assert!(cur < prev);
        prev = cur;
    }
}

#[test]
fn multigrid_beats_flat_relaxation_on_equal_budget() {
    let levels = 4usize;
    let iters = 16usize;
    let mut with_mg = Simulation::new(6, levels);
    with_mg.write_charge(20, 20, 327680);
    with_mg.vcycle(true, iters);

    let mut flat = Simulation::new(6, levels);
    flat.write_charge(20, 20, 327680);
    flat.downsample_sources();
    flat.relax(0, iters * levels);

    let mg_res = residual_sum_squares(&with_mg, 0);
    let flat_res = residual_sum_squares(&flat, 0);
    assert!(mg_res < flat_res);
}

#[test]
fn point_charge_scenario_converges_and_is_symmetric() {
    // 4x4 grid, one unit charge at (1, 1), 50 iterations at level 0 only,
    // no multigrid, no curl target.
    let mut sim = Simulation::new(2, 1);
    sim.write_charge(1, 1, 65536);
    sim.relax(0, 50);
    // The residual at the injection cell settles within one thousandth of
    // a unit (65 fixed-point units).
    let r = sim.divergence_residual(0, 1, 1);
    assert!(r.abs() <= 65, "residual {r}");
    // The solved field is symmetric under exchange of the axes about the
    // injection cell's diagonal: the horizontal component at (x, y) equals
    // the vertical component at (y, x), boundary edges included.
    for y in 0..5usize {
        for x in 0..5usize {
            let a = sim.field_at(0, x, y);
            let b = sim.field_at(0, y, x);
            assert_eq!(a.x, b.y);
            assert_eq!(a.y, b.x);
        }
    }
}

#[test]
fn relaxation_flips_parity_each_iteration() {
    let mut sim = Simulation::new(2, 1);
    sim.write_charge(1, 1, 65536);
    sim.relax(0, 1);
    let d_red = sim.div_err_at(0, 1, 1);
    sim.relax(0, 1);
    let d_black = sim.div_err_at(0, 1, 1);
    // (1, 1) is a parity-0 cell: its residual is stored on the first pass
    // and masked to zero on the second. With a zero starting field the
    // stored value is the charge error scaled by minus three halves.
    assert_eq!(d_red, -98304);
    assert_eq!(d_black, 0);
}

#[test]
fn divergence_residual_reads_target_exactly() {
    // With a zero field, the raw residual is minus the charge.
    let mut sim = Simulation::new(2, 1);
    sim.write_charge(2, 1, 12345);
    assert_eq!(sim.divergence_residual(0, 2, 1), -12345);
    assert_eq!(sim.divergence_residual(0, 0, 0), 0);
}

#[test]
fn curl_error_tracks_magnet_target() {
    // With a zero field, the stored curl error after one iteration is
    // minus the magnet target.
    let mut sim = Simulation::new(2, 1);
    sim.write_magnet(1, 1, 5000);
    // A single divergence-free, curl-driven iteration: the curl pass reads
    // the field before the correction lands.
    sim.relax(0, 1);
    assert_eq!(sim.curl_err_at(0, 1, 1), -5000);
    assert_eq!(sim.curl_err_at(0, 0, 0), 0);
}
