use fieldsim::sim::Simulation;

#[test]
fn downsample_sums_children_exactly() {
    let mut sim = Simulation::new(2, 2);
    sim.write_charge(0, 0, 100);
    sim.write_charge(1, 0, 200);
    sim.write_charge(0, 1, 300);
    sim.write_charge(1, 1, 400);
    sim.write_charge(2, 3, 7);
    sim.write_charge(3, 2, 11);
    sim.write_magnet(1, 1, 50);
    sim.downsample_sources();
    assert_eq!(sim.charge_at(1, 0, 0), 1000);
    assert_eq!(sim.charge_at(1, 1, 1), 18);
    assert_eq!(sim.charge_at(1, 1, 0), 0);
    assert_eq!(sim.charge_at(1, 0, 1), 0);
    assert_eq!(sim.magnet_at(1, 0, 0), 50);
    assert_eq!(sim.magnet_at(1, 1, 1), 0);
}

#[test]
fn pyramid_sum_invariant_holds_at_every_level() {
    let mut sim = Simulation::new(3, 3);
    sim.write_charge(3, 3, 65536);
    sim.write_charge(5, 2, -32768);
    sim.write_charge(0, 7, 12345);
    sim.write_magnet(2, 6, 777);
    sim.downsample_sources();
    for l in 1..3usize {
        let s = sim.level_dim(l);
        for y in 0..s {
            for x in 0..s {
                let kids = sim.charge_at(l - 1, 2 * x, 2 * y)
                    + sim.charge_at(l - 1, 2 * x + 1, 2 * y)
                    + sim.charge_at(l - 1, 2 * x, 2 * y + 1)
                    + sim.charge_at(l - 1, 2 * x + 1, 2 * y + 1);
                assert_eq!(sim.charge_at(l, x, y), kids);
                let mkids = sim.magnet_at(l - 1, 2 * x, 2 * y)
                    + sim.magnet_at(l - 1, 2 * x + 1, 2 * y)
                    + sim.magnet_at(l - 1, 2 * x, 2 * y + 1)
                    + sim.magnet_at(l - 1, 2 * x + 1, 2 * y + 1);
                assert_eq!(sim.magnet_at(l, x, y), mkids);
            }
        }
    }
}

#[test]
fn pyramid_sum_invariant_survives_a_tick() {
    let mut sim = Simulation::new(3, 2);
    sim.write_charge(4, 4, 65536);
    sim.tick(1, true, 4);
    for y in 0..4usize {
        for x in 0..4usize {
            let kids = sim.charge_at(0, 2 * x, 2 * y)
                + sim.charge_at(0, 2 * x + 1, 2 * y)
                + sim.charge_at(0, 2 * x, 2 * y + 1)
                + sim.charge_at(0, 2 * x + 1, 2 * y + 1);
            assert_eq!(sim.charge_at(1, x, y), kids);
        }
    }
}

#[test]
fn upsample_copies_even_and_interpolates_odd() {
    let mut sim = Simulation::new(2, 2);
    // Drive a nonzero field at level 1 by relaxing against a coarse charge.
    sim.write_charge(0, 0, 65536);
    sim.downsample_sources();
    sim.relax(1, 8);
    let c00 = sim.field_at(1, 0, 0);
    let c10 = sim.field_at(1, 1, 0);
    let c01 = sim.field_at(1, 0, 1);
    sim.upsample_level(0);
    // Even coordinates copy the coarse cell, halved (truncating).
    let f00 = sim.field_at(0, 0, 0);
    assert_eq!(f00.x, trunc_half(c00.x));
    assert_eq!(f00.y, trunc_half(c00.y));
    // Odd columns average the two horizontal coarse neighbours, then halve.
    let f10 = sim.field_at(0, 1, 0);
    assert_eq!(f10.x, trunc_half(trunc_half(c00.x + c10.x)));
    // Odd rows average the two vertical coarse neighbours, then halve.
    let f01 = sim.field_at(0, 0, 1);
    assert_eq!(f01.y, trunc_half(trunc_half(c00.y + c01.y)));
}

fn trunc_half(v: i64) -> i64 {
    if v >= 0 { v / 2 } else { -((-v) / 2) }
}
