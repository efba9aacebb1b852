//! Interactive state and visualization mapping.
//!
//! `Runtime` holds what the outer loop owns: the tick counter, the
//! inspected pyramid level, the selected view and the multigrid toggle.
//! `cell_color` maps one level-0 cell's state to a display color under
//! the current view, scaling fixed-point values into bytes.

use vstd::prelude::*;
use vstd::view::View as VstdView;
use crate::fixed::{tdiv, SCALE};
use crate::sim::{Simulation, INJECT_CHARGE};

verus! {

/// Denominator scaling a field component into the color range: twice the
/// largest field magnitude the display shows at full saturation.
pub const FIELD_COLOR_DEN: u32 = 655360;

/// What the display shows for cells that hold neither a particle nor a
/// charge.
#[derive(Clone, Copy, Debug, PartialEq, Eq, Structural)]
pub enum View {
    /// The staggered field, components as red and green.
    Field,
    /// The divergence residual, green for positive, red for negative.
    Divergence,
    /// The curl residual magnitude, grey.
    Curl,
    /// The decaying particle trail, grey.
    TrailOnly,
}

/// The view after one cycling step.
pub open spec fn view_next(v: View) -> View {
    match v {
        View::Field => View::Divergence,
        View::Divergence => View::Curl,
        View::Curl => View::TrailOnly,
        View::TrailOnly => View::Field,
    }
}

impl View {
    /// Cycle to the next view.
    pub fn next(&mut self)
        ensures
            *final(self) == view_next(*old(self)),
    {
        *self = match self {
            Self::Field => Self::Divergence,
            Self::Divergence => Self::Curl,
            Self::Curl => Self::TrailOnly,
            Self::TrailOnly => Self::Field,
        }
    }
}

/// A discrete input action the host maps its key events to.
#[derive(Clone, Copy, Debug, PartialEq, Eq, Structural)]
pub enum InputKey {
    /// Inspect the next coarser level, wrapping to the finest.
    LayerUp,
    /// Inspect the next finer level, wrapping to the coarsest.
    LayerDown,
    /// Cycle the view mode.
    CycleView,
    /// Toggle the multigrid seeding on or off.
    ToggleMultigrid,
}

/// The mutable state the outer loop threads through injection and
/// visualization: tick counter, inspected level, view mode and the
/// multigrid toggle.
#[derive(Clone, Copy, Debug)]
pub struct Runtime {
    /// Ticks advanced so far.
    pub t: u32,
    /// The pyramid level the display inspects.
    pub viewed_layer: u32,
    /// The selected view mode.
    pub view: View,
    /// Whether the V-cycle seeds each level from the coarser one.
    pub activate_multigrid: bool,
}

impl Default for Runtime {
    /// The starting state: tick zero, finest level, field view, multigrid
    /// on.
    fn default() -> (r: Runtime)
        ensures
            r.t == 0,
            r.viewed_layer == 0,
            r.view == View::Field,
            r.activate_multigrid,
    {
        Runtime { t: 0, viewed_layer: 0, view: View::Field, activate_multigrid: true }
    }
}

/// The runtime state after one discrete input action: the inspected
/// level steps with wraparound, the view cycles, or the multigrid toggle
/// flips.
pub open spec fn runtime_after_key(rt: Runtime, key: InputKey, levels: u32) -> Runtime {
    match key {
        InputKey::LayerUp => Runtime {
            viewed_layer: if rt.viewed_layer + 1 >= levels {
                0u32
            } else {
                (rt.viewed_layer + 1) as u32
            },
            ..rt
        },
        InputKey::LayerDown => Runtime {
            viewed_layer: if rt.viewed_layer == 0 {
                (levels - 1) as u32
            } else {
                (rt.viewed_layer - 1) as u32
            },
            ..rt
        },
        InputKey::CycleView => Runtime { view: view_next(rt.view), ..rt },
        InputKey::ToggleMultigrid => Runtime { activate_multigrid: !rt.activate_multigrid, ..rt },
    }
}

impl Runtime {
    /// Advance the tick counter.
    pub fn next_tick(&mut self)
        requires
            old(self).t < u32::MAX,
        ensures
            final(self).t == old(self).t + 1,
            final(self).viewed_layer == old(self).viewed_layer,
            final(self).view == old(self).view,
            final(self).activate_multigrid == old(self).activate_multigrid,
    {
        self.t = self.t + 1;
    }

    /// Inspect the next coarser level, wrapping past the coarsest.
    pub fn layer_up(&mut self, levels: u32)
        requires
            levels >= 1,
        ensures
            final(self).viewed_layer == if old(self).viewed_layer + 1 >= levels {
                0u32
            } else {
                (old(self).viewed_layer + 1) as u32
            },
            final(self).t == old(self).t,
            final(self).view == old(self).view,
            final(self).activate_multigrid == old(self).activate_multigrid,
    {
        if self.viewed_layer >= levels - 1 {
            self.viewed_layer = 0;
        } else {
            self.viewed_layer = self.viewed_layer + 1;
        }
    }

    /// Inspect the next finer level, wrapping past the finest.
    pub fn layer_down(&mut self, levels: u32)
        requires
            levels >= 1,
        ensures
            final(self).viewed_layer == if old(self).viewed_layer == 0 {
                (levels - 1) as u32
            } else {
                (old(self).viewed_layer - 1) as u32
            },
            final(self).t == old(self).t,
            final(self).view == old(self).view,
            final(self).activate_multigrid == old(self).activate_multigrid,
    {
        if self.viewed_layer == 0 {
            self.viewed_layer = levels - 1;
        } else {
            self.viewed_layer = self.viewed_layer - 1;
        }
    }

    /// Apply one discrete input action.
    pub fn handle_key(&mut self, key: InputKey, levels: u32)
        requires
            levels >= 1,
        ensures
            *final(self) == runtime_after_key(*old(self), key, levels),
    {
        match key {
            InputKey::LayerUp => self.layer_up(levels),
            InputKey::LayerDown => self.layer_down(levels),
            InputKey::CycleView => self.view.next(),
            InputKey::ToggleMultigrid => self.activate_multigrid = !self.activate_multigrid,
        }
    }
}

/// One display color.
#[derive(Clone, Copy, Debug, PartialEq, Eq, Structural)]
pub struct Rgb {
    pub r: u8,
    pub g: u8,
    pub b: u8,
}

/// A non-negative fixed-point value scaled so that one unit is full
/// brightness, saturated into a byte.
pub open spec fn byte_of(v: int) -> int {
    let b = tdiv(v * 255, SCALE as int);
    if b < 0 {
        0
    } else if b > 255 {
        255
    } else {
        b
    }
}

/// A field component scaled so that zero sits mid-range and the largest
/// displayed magnitude saturates, as a byte.
pub open spec fn field_byte_of(v: int) -> int {
    let b = tdiv(v * 255, FIELD_COLOR_DEN as int) + 128;
    if b < 0 {
        0
    } else if b > 255 {
        255
    } else {
        b
    }
}

/// Saturate a fixed-point value into a brightness byte.
pub fn byte_of_exec(v: i64) -> (b: u8)
    requires
        -0x200_0000_0000 <= v <= 0x200_0000_0000,
    ensures
        b as int == byte_of(v as int),
{
    let raw = crate::fixed::div_trunc(v * 255, SCALE as u32);
    if raw < 0 {
        0
    } else if raw > 255 {
        255
    } else {
        raw as u8
    }
}

/// Center and saturate a field component into a brightness byte.
pub fn field_byte_of_exec(v: i64) -> (b: u8)
    requires
        -0x200_0000_0000 <= v <= 0x200_0000_0000,
    ensures
        b as int == field_byte_of(v as int),
{
    let raw = crate::fixed::div_trunc(v * 255, FIELD_COLOR_DEN) + 128;
    if raw < 0 {
        0
    } else if raw > 255 {
        255
    } else {
        raw as u8
    }
}

/// The color of one displayed level-0 cell: white where a particle
/// stands; red or blue where a charge is injected, scaled by its share of
/// the injection magnitude; otherwise the selected view of the inspected
/// level's cell above it.
pub open spec fn cell_color_spec(
    sim: Simulation,
    view: View,
    layer: int,
    x: int,
    y: int,
    fx: int,
    fy: int,
) -> Rgb {
    let c = tdiv(sim.charge@[layer].at(fx, fy), pow4(layer));
    if sim.occ(x, y) {
        Rgb { r: 255, g: 255, b: 255 }
    } else if c != 0 {
        if c > 0 {
            Rgb { r: byte_of(tdiv(c * (SCALE as int), INJECT_CHARGE as int)) as u8, g: 0, b: 0 }
        } else {
            Rgb { r: 0, g: 0, b: byte_of(tdiv(-c * (SCALE as int), INJECT_CHARGE as int)) as u8 }
        }
    } else {
        match view {
            View::Curl => {
                let e = sim.curl_err@[layer].at0(fx, fy);
                let m = if e >= 0 {
                    e
                } else {
                    -e
                };
                Rgb { r: byte_of(m) as u8, g: byte_of(m) as u8, b: byte_of(m) as u8 }
            },
            View::Divergence => {
                let d = sim.div_err@[layer].at(fx, fy);
                if d > 0 {
                    Rgb { r: 0, g: byte_of(d) as u8, b: 0 }
                } else {
                    Rgb { r: byte_of(-d) as u8, g: 0, b: 0 }
                }
            },
            View::TrailOnly => {
                let tr = sim.trail.at(x, y);
                Rgb { r: byte_of(tr) as u8, g: byte_of(tr) as u8, b: byte_of(tr) as u8 }
            },
            View::Field => {
                let f = sim.field@[layer].at(fx, fy);
                let sx = tdiv(f.x as int, pow2i(layer));
                let sy = tdiv(f.y as int, pow2i(layer));
                Rgb { r: field_byte_of(sx) as u8, g: field_byte_of(sy) as u8, b: 0 }
            },
        }
    }
}

/// `2^k`.
pub open spec fn pow2i(k: int) -> int
    decreases k,
{
    if k <= 0 {
        1
    } else {
        2 * pow2i(k - 1)
    }
}

/// `4^k`.
pub open spec fn pow4(k: int) -> int
    decreases k,
{
    if k <= 0 {
        1
    } else {
        4 * pow4(k - 1)
    }
}

impl Simulation {
    /// The display color of level-0 cell `(x, y)` under the given view,
    /// inspecting the given pyramid level.
    pub fn cell_color(&self, view: View, layer: usize, x: usize, y: usize) -> (c: Rgb)
        requires
            self.wf(),
            layer < self.levels,
            layer <= 11,
            self.cell_in_range(x as int, y as int),
        ensures
            c == cell_color_spec(
                *self,
                view,
                layer as int,
                x as int,
                y as int,
                (x as int) / pow2i(layer as int),
                (y as int) / pow2i(layer as int),
            ),
    {
        proof {
            assert(self.level_ok(layer as int));
            lemma_pow2i_shift(layer);
            lemma_level_size_pow2(*self, layer as int);
            lemma_pow4_square(layer);
        }
        let div: usize = 1usize << layer;
        let fx = x / div;
        let fy = y / div;
        proof {
            assert(div as int * self.level_size(layer as int) == self.n as int)
                by (nonlinear_arith)
                requires
                    self.level_size(layer as int) * (div as int) == self.n as int,
            ;
            lemma_div_in_range(x as int, div as int, self.level_size(layer as int));
            lemma_div_in_range(y as int, div as int, self.level_size(layer as int));
        }
        let cdiv: u32 = (1u32 << layer) * (1u32 << layer);
        let c = crate::fixed::div_trunc(self.charge[layer].get(fx, fy), cdiv);
        if self.occupied_at(x, y) {
            Rgb { r: 255, g: 255, b: 255 }
        } else if c != 0 {
            if c > 0 {
                Rgb {
                    r: byte_of_exec(crate::fixed::div_trunc(c * SCALE, INJECT_CHARGE as u32)),
                    g: 0,
                    b: 0,
                }
            } else {
                Rgb {
                    r: 0,
                    g: 0,
                    b: byte_of_exec(crate::fixed::div_trunc(-c * SCALE, INJECT_CHARGE as u32)),
                }
            }
        } else {
            match view {
                View::Curl => {
                    let e = self.curl_err[layer].read0(fx, fy);
                    let m = if e >= 0 {
                        e
                    } else {
                        -e
                    };
                    let b = byte_of_exec(m);
                    Rgb { r: b, g: b, b }
                },
                View::Divergence => {
                    let d = self.div_err[layer].get(fx, fy);
                    if d > 0 {
                        Rgb { r: 0, g: byte_of_exec(d), b: 0 }
                    } else {
                        Rgb { r: byte_of_exec(-d), g: 0, b: 0 }
                    }
                },
                View::TrailOnly => {
                    let tr = self.trail.get(x, y);
                    let b = byte_of_exec(tr);
                    Rgb { r: b, g: b, b }
                },
                View::Field => {
                    let f = self.field[layer].get(fx, fy);
                    let sx = crate::fixed::div_trunc(f.x, div as u32);
                    let sy = crate::fixed::div_trunc(f.y, div as u32);
                    Rgb { r: field_byte_of_exec(sx), g: field_byte_of_exec(sy), b: 0 }
                },
            }
        }
    }
}

/// `1 << k` computes `pow2i(k)` for the supported level range.
proof fn lemma_pow2i_shift(k: usize)
    requires
        k <= 11,
    ensures
        (1usize << k) as int == pow2i(k as int),
        (1u32 << k) as int == pow2i(k as int),
        1 <= pow2i(k as int) <= 2048,
    decreases k,
{
    if k == 0 {
        assert((1usize << 0usize) as int == 1) by (bit_vector);
        assert((1u32 << 0usize) as int == 1) by (bit_vector);
    } else {
        lemma_pow2i_shift((k - 1) as usize);
        assert((1usize << k) == 2 * (1usize << ((k - 1) as usize))) by (bit_vector)
            requires
                1 <= k <= 11usize,
        ;
        assert((1u32 << k) == 2 * (1u32 << ((k - 1) as usize))) by (bit_vector)
            requires
                1 <= k <= 11usize,
        ;
    }
    assert(1usize <= (1usize << k) <= 2048usize) by (bit_vector)
        requires
            k <= 11usize,
    ;
}

/// The square of `2^k` is `4^k`.
proof fn lemma_pow4_square(k: usize)
    requires
        k <= 11,
    ensures
        pow2i(k as int) * pow2i(k as int) == pow4(k as int),
        1 <= pow4(k as int) <= 0x400_000,
    decreases k,
{
    lemma_pow2i_shift(k);
    if k > 0 {
        lemma_pow4_square((k - 1) as usize);
        assert(pow2i(k as int) * pow2i(k as int) == 4 * (pow2i(k as int - 1) * pow2i(
            k as int - 1,
        ))) by (nonlinear_arith)
            requires
                pow2i(k as int) == 2 * pow2i(k as int - 1),
        ;
    }
    assert(1 <= pow2i(k as int) * pow2i(k as int) <= 0x400_000) by (nonlinear_arith)
        requires
            1 <= pow2i(k as int) <= 2048,
    ;
}

/// A level's dimension times its scale is the full grid dimension.
pub proof fn lemma_level_size_pow2(sim: Simulation, l: int)
    requires
        sim.wf(),
        0 <= l < sim.levels as int,
    ensures
        sim.level_size(l) * pow2i(l) == sim.n as int,
        sim.level_size(l) >= 1,
    decreases l,
{
    assert(sim.level_ok(l));
    if l == 0 {
    } else {
        lemma_level_size_pow2(sim, l - 1);
        assert(2 * sim.level_size(l) == sim.level_size(l - 1));
        assert(sim.level_size(l) * pow2i(l) == (2 * sim.level_size(l)) * pow2i(l - 1))
            by (nonlinear_arith)
            requires
                pow2i(l) == 2 * pow2i(l - 1),
        ;
    }
}

/// Dividing an in-range fine coordinate by the level scale lands inside
/// the level.
proof fn lemma_div_in_range(x: int, d: int, s: int)
    by (nonlinear_arith)
    requires
        d >= 1,
        0 <= x < d * s,
    ensures
        0 <= x / d < s,
{
}

} // verus!
