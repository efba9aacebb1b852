use fieldsim::sim::Simulation;
use fieldsim::view::{InputKey, Rgb, Runtime, View};

#[test]
fn view_cycles_through_all_modes() {
    let mut v = View::Field;
    v.next();
    assert_eq!(v, View::Divergence);
    v.next();
    assert_eq!(v, View::Curl);
    v.next();
    assert_eq!(v, View::TrailOnly);
    v.next();
    assert_eq!(v, View::Field);
}

#[test]
fn runtime_starts_at_defaults() {
    let rt = Runtime::default();
    assert_eq!(rt.t, 0);
    assert_eq!(rt.viewed_layer, 0);
    assert_eq!(rt.view, View::Field);
    assert!(rt.activate_multigrid);
}

#[test]
fn layer_cycling_wraps_both_ways() {
    let mut rt = Runtime::default();
    let levels = 7u32;
    for expected in [1u32, 2, 3, 4, 5, 6, 0, 1] {
        rt.handle_key(InputKey::LayerUp, levels);
        assert_eq!(rt.viewed_layer, expected);
    }
    for expected in [0u32, 6, 5] {
        rt.handle_key(InputKey::LayerDown, levels);
        assert_eq!(rt.viewed_layer, expected);
    }
}

#[test]
fn keys_cycle_view_and_toggle_multigrid() {
    let mut rt = Runtime::default();
    rt.handle_key(InputKey::CycleView, 7);
    assert_eq!(rt.view, View::Divergence);
    rt.handle_key(InputKey::ToggleMultigrid, 7);
    assert!(!rt.activate_multigrid);
    rt.handle_key(InputKey::ToggleMultigrid, 7);
    assert!(rt.activate_multigrid);
    assert_eq!(rt.viewed_layer, 0);
}

#[test]
fn tick_counter_advances() {
    let mut rt = Runtime::default();
    rt.next_tick();
    rt.next_tick();
    assert_eq!(rt.t, 2);
}

#[test]
fn pointer_injection_overwrites_cells() {
    let mut sim = Simulation::new(3, 2);
    sim.apply_pointer(2, 3, true, false, false);
    assert_eq!(sim.charge_at(0, 2, 3), -327680);
    assert_eq!(sim.magnet_at(0, 2, 3), 0);
    assert!(!sim.occupied_at(2, 3));
    sim.apply_pointer(2, 3, true, false, false);
    assert_eq!(sim.charge_at(0, 2, 3), -327680);
    sim.apply_pointer(4, 4, false, true, false);
    assert_eq!(sim.magnet_at(0, 4, 4), 327680);
    sim.apply_pointer(5, 1, false, false, true);
    assert!(sim.occupied_at(5, 1));
    assert_eq!(sim.charge_at(0, 5, 1), 0);
}

#[test]
fn particle_cells_render_white() {
    let mut sim = Simulation::new(2, 1);
    sim.place_particle(2, 2);
    let c = sim.cell_color(View::Field, 0, 2, 2);
    assert_eq!(c, Rgb { r: 255, g: 255, b: 255 });
}

#[test]
fn charge_cells_render_red_or_blue() {
    let mut sim = Simulation::new(2, 1);
    sim.apply_pointer(1, 1, true, false, false);
    let c = sim.cell_color(View::Field, 0, 1, 1);
    assert_eq!(c, Rgb { r: 0, g: 0, b: 255 });
    sim.write_charge(2, 2, 327680);
    let c2 = sim.cell_color(View::Field, 0, 2, 2);
    assert_eq!(c2, Rgb { r: 255, g: 0, b: 0 });
    // Half the injection magnitude gives half the brightness, truncated.
    sim.write_charge(3, 3, 163840);
    let c3 = sim.cell_color(View::Field, 0, 3, 3);
    assert_eq!(c3, Rgb { r: 127, g: 0, b: 0 });
}

#[test]
fn empty_cells_render_the_selected_view() {
    let sim = Simulation::new(2, 1);
    // Zero field sits mid-range in the field view.
    let f = sim.cell_color(View::Field, 0, 0, 0);
    assert_eq!(f, Rgb { r: 128, g: 128, b: 0 });
    // Zero trail and residuals are black.
    assert_eq!(sim.cell_color(View::TrailOnly, 0, 0, 0), Rgb { r: 0, g: 0, b: 0 });
    assert_eq!(sim.cell_color(View::Divergence, 0, 0, 0), Rgb { r: 0, g: 0, b: 0 });
    assert_eq!(sim.cell_color(View::Curl, 0, 0, 0), Rgb { r: 0, g: 0, b: 0 });
}

#[test]
fn trail_view_scales_intensity() {
    let mut sim = Simulation::new(2, 1);
    sim.place_particle(1, 2);
    sim.update_trail();
    // Run one more refresh so the occupied cell stays saturated.
    sim.update_trail();
    // The particle cell renders white (occupied), but a decayed
    // neighbour's trail would scale linearly; here check the saturated
    // intensity through a fresh simulation where the particle moved off.
    assert_eq!(sim.trail_at(1, 2), 65536);
    let c = sim.cell_color(View::TrailOnly, 0, 1, 2);
    assert_eq!(c, Rgb { r: 255, g: 255, b: 255 });
}

#[test]
fn coarser_levels_normalize_charge_for_display() {
    let mut sim = Simulation::new(2, 2);
    // Four children of one unit each sum to four units at level 1; the
    // display divides by four per level, back to one unit of brightness.
    sim.write_charge(0, 0, 65536);
    sim.write_charge(1, 0, 65536);
    sim.write_charge(0, 1, 65536);
    sim.write_charge(1, 1, 65536);
    sim.downsample_sources();
    assert_eq!(sim.charge_at(1, 0, 0), 262144);
    let c = sim.cell_color(View::Field, 1, 0, 0);
    // One unit over the five-unit injection scale, truncated twice.
    assert_eq!(c, Rgb { r: 50, g: 0, b: 0 });
}
