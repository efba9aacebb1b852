//! Particle advection through the solved field.
//!
//! Each occupied level-0 cell carries one particle. Per tick the particle's
//! velocity gains a fraction of the local field; the velocity times the
//! step length gives a movement whose integer part is taken as-is and
//! whose fractional part rounds up with probability equal to the fraction,
//! decided by the deterministic cell hash — stochastic rounding. A particle
//! whose target falls outside the grid does not move and keeps its old
//! velocity.
//!
//! Destinations are scatter writes, so two particles can aim at one cell.
//! The order is fixed deterministically: moves are computed for every
//! particle from the pre-tick state, in row-major order, and applied in
//! that order, so when two particles collide on one cell the later source
//! index wins and the earlier particle is lost. Occupancy is rebuilt from
//! scratch, so the final occupancy is exactly the set of computed
//! destinations.

use vstd::prelude::*;
use crate::fixed::{clamp, clamp_mag, div_trunc, tdiv, MAG_LIMIT, SCALE};
use crate::grid::{FieldVec, lemma_flat_decompose, lemma_flat_index, ScalarGrid};
use crate::rng::{rand, rand_spec};
use crate::sim::Simulation;

verus! {

/// Denominator of the field fraction added to a particle's velocity each
/// tick.
pub const VEL_GAIN_DEN: u32 = 30;

/// Step length multiplier: cells of movement per unit velocity per tick.
pub const STEP_SCALE: i64 = 10;

/// Trail intensity lost per tick on an unoccupied cell.
pub const TRAIL_DECAY: i64 = 1311;

/// One particle's computed move: the flat source index, the destination
/// cell, the updated velocity, and whether the velocity update applies
/// (it does not when the raw target fell outside the grid).
#[derive(Clone, Copy, Debug, PartialEq, Eq, Structural)]
pub struct Move {
    pub src: usize,
    pub dx: usize,
    pub dy: usize,
    pub vel: FieldVec,
    pub update_vel: bool,
}

/// The flat index of a move's destination on a grid of dimension `n`.
pub open spec fn dst_idx(m: Move, n: int) -> int {
    m.dy as int * n + m.dx as int
}

/// Signed whole cells of movement along one axis: the integer part of the
/// magnitude, plus one when the pseudo-random word `r` falls below the
/// fractional part (scaled to the 32-bit range), with the sign of `m`.
/// The probability of rounding up is exactly `(|m| % SCALE) / SCALE`.
pub open spec fn axis_offset(m: int, r: u32) -> int {
    let mag = if m > 0 {
        m
    } else {
        -m
    };
    let steps = mag / (SCALE as int) + if (r as int) < (mag % (SCALE as int)) * (SCALE as int) {
        1int
    } else {
        0int
    };
    if m > 0 {
        steps
    } else {
        -steps
    }
}

/// The velocity a particle at `(x, y)` carries this tick: its stored
/// velocity plus a thirtieth of the level-0 field at its cell, saturated.
pub open spec fn new_velocity(sim: Simulation, x: int, y: int) -> FieldVec {
    FieldVec {
        x: clamp_mag(
            sim.velocity.at(x, y).x + tdiv(sim.field@[0].at(x, y).x as int, VEL_GAIN_DEN as int),
        ) as i64,
        y: clamp_mag(
            sim.velocity.at(x, y).y + tdiv(sim.field@[0].at(x, y).y as int, VEL_GAIN_DEN as int),
        ) as i64,
    }
}

/// The raw target cell of the particle at `(x, y)` on tick `t`, before the
/// bounds check: its cell plus the stochastically rounded movement along
/// each axis.
pub open spec fn particle_target(sim: Simulation, t: u32, x: int, y: int) -> (int, int) {
    let v = new_velocity(sim, x, y);
    let n = sim.n as u32;
    (
        x + axis_offset(v.x as int * STEP_SCALE as int, rand_spec(n, x as u32, y as u32, t, 0)),
        y + axis_offset(v.y as int * STEP_SCALE as int, rand_spec(n, x as u32, y as u32, t, 1)),
    )
}

/// The move of the particle whose flat source index is `c`: its target
/// when that lies inside the grid, else its own cell with the velocity
/// update withheld.
#[verifier::opaque]
pub open spec fn move_spec(sim: Simulation, t: u32, c: int) -> Move {
    let n = sim.n as int;
    let x = c % n;
    let y = c / n;
    let (tx, ty) = particle_target(sim, t, x, y);
    if 0 <= tx < n && 0 <= ty < n {
        Move {
            src: c as usize,
            dx: tx as usize,
            dy: ty as usize,
            vel: new_velocity(sim, x, y),
            update_vel: true,
        }
    } else {
        Move {
            src: c as usize,
            dx: x as usize,
            dy: y as usize,
            vel: new_velocity(sim, x, y),
            update_vel: false,
        }
    }
}

/// The moves of the particles among the first `j` cells, in row-major
/// order of their source cells.
pub open spec fn moves_prefix(sim: Simulation, t: u32, j: nat) -> Seq<Move>
    decreases j,
{
    if j == 0 {
        Seq::empty()
    } else {
        moves_prefix(sim, t, (j - 1) as nat) + if sim.occupied@[j - 1] {
            seq![move_spec(sim, t, j - 1)]
        } else {
            Seq::empty()
        }
    }
}

/// An all-false occupancy of `len` cells.
pub open spec fn all_false(len: nat) -> Seq<bool> {
    Seq::new(len, |i: int| false)
}

/// Occupancy after applying the first `i` moves: each destination set, in
/// order.
pub open spec fn occ_fold(occ: Seq<bool>, moves: Seq<Move>, n: int, i: nat) -> Seq<bool>
    decreases i,
{
    if i == 0 {
        occ
    } else {
        occ_fold(occ, moves, n, (i - 1) as nat).update(dst_idx(moves[i - 1], n), true)
    }
}

/// Velocities after applying the first `i` moves: each destination whose
/// velocity update applies overwritten, in order, so a later source index
/// wins a collision.
pub open spec fn vel_fold(vel: Seq<FieldVec>, moves: Seq<Move>, n: int, i: nat) -> Seq<FieldVec>
    decreases i,
{
    if i == 0 {
        vel
    } else {
        let prev = vel_fold(vel, moves, n, (i - 1) as nat);
        if moves[i - 1].update_vel {
            prev.update(dst_idx(moves[i - 1], n), moves[i - 1].vel)
        } else {
            prev
        }
    }
}

/// What the trail pass leaves at cell `(x, y)`: full intensity on an
/// occupied cell, otherwise one decay step while any intensity is left.
pub open spec fn trail_value(occ: Seq<bool>, tr: &ScalarGrid, x: int, y: int) -> int {
    if occ[y * tr.size() + x] {
        SCALE as int
    } else if tr.at(x, y) > 0 {
        tr.at(x, y) - TRAIL_DECAY
    } else {
        tr.at(x, y)
    }
}

/// `trail_value` by flat row-major index.
pub open spec fn flat_trail_value(occ: Seq<bool>, tr: &ScalarGrid, j: int) -> int {
    trail_value(occ, tr, j % tr.size(), j / tr.size())
}

/// Refresh the trail from the occupancy: occupied cells to full intensity,
/// the rest decayed one step while positive.
pub fn trail_pass(occ: &Vec<bool>, trail: &mut ScalarGrid)
    requires
        old(trail).wf(),
        occ@.len() == old(trail).size() * old(trail).size(),
    ensures
        final(trail).wf(),
        final(trail).size() == old(trail).size(),
        forall|x: int, y: int|
            0 <= x < old(trail).size() && 0 <= y < old(trail).size() ==> final(trail).at(x, y)
                == trail_value(occ@, old(trail), x, y),
{
    let s = trail.dim();
    let mut y: usize = 0;
    let mut i: usize = 0;
    while y < s
        invariant
            y <= s,
            i as int == y as int * s as int,
            trail.wf(),
            trail.size() == s as int,
            forall|j: int|
                0 <= j < i as int ==> #[trigger] trail@[j] as int == flat_trail_value(
                    occ@,
                    old(trail),
                    j,
                ),
            forall|j: int| i as int <= j < trail@.len() ==> #[trigger] trail@[j] == old(trail)@[j],
        decreases s - y,
    {
        let mut x: usize = 0;
        while x < s
            invariant
                x <= s,
                y < s,
                i as int == y as int * s as int + x as int,
                trail.wf(),
                trail.size() == s as int,
                forall|j: int|
                    0 <= j < i as int ==> #[trigger] trail@[j] as int == flat_trail_value(
                        occ@,
                        old(trail),
                        j,
                    ),
                forall|j: int|
                    i as int <= j < trail@.len() ==> #[trigger] trail@[j] == old(trail)@[j],
            decreases s - x,
        {
            proof {
                lemma_flat_index(s as int, x as int, y as int);
                lemma_flat_decompose(s as int, x as int, y as int);
            }
            let t0 = trail.get(x, y);
            let v: i64 = if occ[i] {
                SCALE
            } else if t0 > 0 {
                t0 - TRAIL_DECAY
            } else {
                t0
            };
            trail.set(x, y, v);
            i += 1;
            x += 1;
        }
        proof {
            assert((y as int + 1) * s as int == y as int * s as int + s as int)
                by (nonlinear_arith);
        }
        y += 1;
    }
    proof {
        assert forall|xx: int, yy: int|
            0 <= xx < old(trail).size() && 0 <= yy < old(trail).size() implies final(trail).at(
            xx,
            yy,
        ) == trail_value(occ@, old(trail), xx, yy) by {
            lemma_flat_index(s as int, xx, yy);
            lemma_flat_decompose(s as int, xx, yy);
        }
    }
}

/// The particle stage's step relation: occupancy rebuilt as the set of
/// computed destinations, velocities overwritten at the destinations in
/// source order, everything else untouched.
pub open spec fn transport_rel(pre: Simulation, post: Simulation, t: u32) -> bool {
    let area = (pre.n as int * pre.n as int) as nat;
    let moves = moves_prefix(pre, t, area);
    &&& post.n == pre.n
    &&& post.levels == pre.levels
    &&& post.parity == pre.parity
    &&& post.charge == pre.charge
    &&& post.magnet == pre.magnet
    &&& post.field == pre.field
    &&& post.div_err == pre.div_err
    &&& post.curl_err == pre.curl_err
    &&& post.trail == pre.trail
    &&& post.occupied@ == occ_fold(all_false(area), moves, pre.n as int, moves.len())
    &&& post.velocity@ == vel_fold(pre.velocity@, moves, pre.n as int, moves.len())
    &&& post.velocity.size() == pre.velocity.size()
}

/// The trail stage's step relation: the trail refreshed from the
/// occupancy, everything else untouched.
pub open spec fn trail_rel(pre: Simulation, post: Simulation) -> bool {
    &&& post.n == pre.n
    &&& post.levels == pre.levels
    &&& post.parity == pre.parity
    &&& post.charge == pre.charge
    &&& post.magnet == pre.magnet
    &&& post.field == pre.field
    &&& post.div_err == pre.div_err
    &&& post.curl_err == pre.curl_err
    &&& post.occupied == pre.occupied
    &&& post.velocity == pre.velocity
    &&& post.trail.size() == pre.trail.size()
    &&& forall|x: int, y: int|
        0 <= x < pre.trail.size() && 0 <= y < pre.trail.size() ==> #[trigger] post.trail.at(x, y)
            == trail_value(pre.occupied@, &pre.trail, x, y)
}

/// A move computed by `move_spec` from an in-range source lands in range
/// and carries a bounded velocity.
pub proof fn lemma_move_spec_in_range(sim: Simulation, t: u32, c: int)
    requires
        sim.wf(),
        0 <= c < sim.n as int * sim.n as int,
    ensures
        move_spec(sim, t, c).src == c,
        0 <= move_spec(sim, t, c).dx < sim.n as int,
        0 <= move_spec(sim, t, c).dy < sim.n as int,
        0 <= dst_idx(move_spec(sim, t, c), sim.n as int) < sim.n as int * sim.n as int,
        move_spec(sim, t, c).vel.bounded(),
{
    reveal(move_spec);
    let n = sim.n as int;
    lemma_flat_decompose_bounds(n, c);
    let x = c % n;
    let y = c / n;
    let m = move_spec(sim, t, c);
    lemma_flat_index(n, m.dx as int, m.dy as int);
}

/// A flat index inside the grid area splits into in-range coordinates.
pub proof fn lemma_flat_decompose_bounds(n: int, c: int)
    by (nonlinear_arith)
    requires
        n >= 1,
        0 <= c < n * n,
    ensures
        0 <= c % n < n,
        0 <= c / n < n,
        (c / n) * n + (c % n) == c,
{
}

impl Simulation {
    /// Advect every particle one tick: compute each occupied cell's move
    /// from the pre-tick state in row-major order, then rebuild occupancy
    /// as the set of destinations and overwrite each destination's
    /// velocity, later sources winning collisions.
    pub fn transport(&mut self, t: u32)
        requires
            old(self).wf(),
        ensures
            final(self).wf(),
            transport_rel(*old(self), *final(self), t),
    {
        let n = self.n;
        proof {
            crate::grid::lemma_grid_area(n as int);
            assert(self.level_ok(0));
        }
        let area = n * n;
        let ghost pre = *self;

        // Phase one: compute every particle's move from the pre-tick state.
        let mut moves: Vec<Move> = Vec::new();
        let mut c: usize = 0;
        while c < area
            invariant
                c <= area,
                *self == pre,
                moves@ == moves_prefix(pre, t, c as nat),
            decreases area - c,
        {
            let x = c % n;
            let y = c / n;
            proof {
                lemma_flat_decompose_bounds(n as int, c as int);
                lemma_flat_index(n as int, x as int, y as int);
            }
            if self.occupied[c] {
                let vel = self.velocity.get(x, y);
                let f = self.field[0].get(x, y);
                let vx = clamp(vel.x + div_trunc(f.x, VEL_GAIN_DEN));
                let vy = clamp(vel.y + div_trunc(f.y, VEL_GAIN_DEN));
                let rx = rand(n as u32, x as u32, y as u32, t, 0);
                let ry = rand(n as u32, x as u32, y as u32, t, 1);
                let ox = axis_offset_exec(vx * STEP_SCALE, rx);
                let oy = axis_offset_exec(vy * STEP_SCALE, ry);
                let tx: i64 = x as i64 + ox;
                let ty: i64 = y as i64 + oy;
                let newvel = FieldVec { x: vx, y: vy };
                let mv: Move = if 0 <= tx && tx < n as i64 && 0 <= ty && ty < n as i64 {
                    Move { src: c, dx: tx as usize, dy: ty as usize, vel: newvel, update_vel: true }
                } else {
                    Move { src: c, dx: x, dy: y, vel: newvel, update_vel: false }
                };
                proof {
                    reveal(move_spec);
                    assert(mv == move_spec(pre, t, c as int));
                    assert(moves@.push(mv) == moves_prefix(pre, t, (c + 1) as nat));
                }
                moves.push(mv);
            } else {
                proof {
                    assert(moves@ == moves_prefix(pre, t, (c + 1) as nat));
                }
            }
            c += 1;
        }

        // Phase two: clear the occupancy, then set every destination.
        let mut j: usize = 0;
        while j < area
            invariant
                j <= area,
                self.occupied@.len() == area as int,
                forall|i: int| 0 <= i < j as int ==> !self.occupied@[i],
                forall|i: int| j as int <= i < area as int ==> self.occupied@[i] == pre.occupied@[i],
                self.n == pre.n,
                self.levels == pre.levels,
                self.parity == pre.parity,
                self.charge == pre.charge,
                self.magnet == pre.magnet,
                self.field == pre.field,
                self.div_err == pre.div_err,
                self.curl_err == pre.curl_err,
                self.trail == pre.trail,
                self.velocity == pre.velocity,
                moves@ == moves_prefix(pre, t, area as nat),
            decreases area - j,
        {
            self.occupied.set(j, false);
            j += 1;
        }
        proof {
            assert(self.occupied@ =~= all_false(area as nat));
        }

        let mut k: usize = 0;
        while k < moves.len()
            invariant
                k <= moves@.len(),
                moves@ == moves_prefix(pre, t, area as nat),
                self.occupied@ == occ_fold(all_false(area as nat), moves@, n as int, k as nat),
                self.occupied@.len() == area as int,
                self.velocity@ == vel_fold(pre.velocity@, moves@, n as int, k as nat),
                self.velocity.wf(),
                self.velocity.size() == n as int,
                self.n == pre.n,
                self.levels == pre.levels,
                self.parity == pre.parity,
                self.charge == pre.charge,
                self.magnet == pre.magnet,
                self.field == pre.field,
                self.div_err == pre.div_err,
                self.curl_err == pre.curl_err,
                self.trail == pre.trail,
            decreases moves@.len() - k,
        {
            let mv = moves[k];
            proof {
                lemma_moves_prefix_src(pre, t, area as nat, k as int);
                lemma_move_spec_in_range(pre, t, mv.src as int);
                lemma_flat_index(n as int, mv.dx as int, mv.dy as int);
            }
            let di = mv.dy * n + mv.dx;
            self.occupied.set(di, true);
            if mv.update_vel {
                self.velocity.set(mv.dx, mv.dy, mv.vel);
            }
            k += 1;
        }
        proof {
            assert forall|q: int| 0 <= q < self.levels as int implies self.level_ok(q) by {
                assert(pre.level_ok(q));
            }
            assert forall|q: int|
                1 <= q < self.levels as int implies 2 * #[trigger] self.level_size(q)
                == self.level_size(q - 1) by {
                assert(pre.level_ok(q));
                assert(pre.level_ok(q - 1));
                assert(2 * pre.level_size(q) == pre.level_size(q - 1));
            }
        }
    }

    /// Refresh the level-0 trail from the current occupancy.
    pub fn update_trail(&mut self)
        requires
            old(self).wf(),
        ensures
            final(self).wf(),
            trail_rel(*old(self), *final(self)),
    {
        let tr = &mut self.trail;
        trail_pass(&self.occupied, tr);
        proof {
            assert forall|q: int| 0 <= q < self.levels as int implies self.level_ok(q) by {
                assert(old(self).level_ok(q));
            }
            assert forall|q: int|
                1 <= q < self.levels as int implies 2 * #[trigger] self.level_size(q)
                == self.level_size(q - 1) by {
                assert(old(self).level_ok(q));
                assert(old(self).level_ok(q - 1));
                assert(2 * old(self).level_size(q) == old(self).level_size(q - 1));
            }
        }
    }
}

/// Whole cells of movement along one axis, as `axis_offset` specifies.
pub fn axis_offset_exec(m: i64, r: u32) -> (o: i64)
    requires
        -0x1000_0000_0000 <= m <= 0x1000_0000_0000,
    ensures
        o as int == axis_offset(m as int, r),
        -0x1_0000_0000 <= o <= 0x1_0000_0000,
{
    let mag: i64 = if m > 0 {
        m
    } else {
        -m
    };
    let steps_base = div_trunc(mag, SCALE as u32);
    let frac = (mag as u64) % (SCALE as u64);
    let up: i64 = if (r as u64) < frac * (SCALE as u64) {
        1
    } else {
        0
    };
    let steps = steps_base + up;
    if m > 0 {
        steps
    } else {
        -steps
    }
}

/// The source index recorded in a move is the cell it was computed for.
pub proof fn lemma_move_spec_src(sim: Simulation, t: u32, c: int)
    requires
        0 <= c <= 0xffff_ffff,
    ensures
        move_spec(sim, t, c).src == c,
{
    reveal(move_spec);
}

/// Every entry of a move prefix is the move of its own source cell, which
/// is occupied and lies below `j`; the entry at position `k` is pinned.
pub proof fn lemma_moves_prefix_src(sim: Simulation, t: u32, j: nat, k: int)
    requires
        0 <= k < moves_prefix(sim, t, j).len(),
        j <= sim.occupied@.len(),
        j <= 0xffff_ffff,
    ensures
        moves_prefix(sim, t, j)[k] == move_spec(
            sim,
            t,
            moves_prefix(sim, t, j)[k].src as int,
        ),
        0 <= moves_prefix(sim, t, j)[k].src < j,
        sim.occupied@[moves_prefix(sim, t, j)[k].src as int],
    decreases j,
{
    if j > 0 {
        let prev = moves_prefix(sim, t, (j - 1) as nat);
        if k < prev.len() {
            lemma_moves_prefix_src(sim, t, (j - 1) as nat, k);
        } else {
            assert(sim.occupied@[j - 1]);
            assert(moves_prefix(sim, t, j)[k] == move_spec(sim, t, j - 1));
            lemma_move_spec_src(sim, t, j - 1);
        }
    }
}

/// The sum of `axis_offset(m, r)` over the pseudo-random words
/// `r = 0, 1, ..., k - 1`.
pub open spec fn offset_sum(m: int, k: nat) -> int
    decreases k,
{
    if k == 0 {
        0
    } else {
        offset_sum(m, (k - 1) as nat) + axis_offset(m, (k - 1) as u32)
    }
}

/// Closed form of `offset_sum` for a non-negative movement: each word
/// contributes the integer part, and exactly `(m % SCALE) * SCALE` of the
/// first `k` words also contribute the rounded-up step.
proof fn lemma_offset_sum_closed(m: int, k: nat)
    requires
        0 <= m,
        k <= 0x1_0000_0000,
    ensures
        offset_sum(m, k) == (m / (SCALE as int)) * k + (if k <= (m % (SCALE as int)) * (
        SCALE as int) {
            k as int
        } else {
            (m % (SCALE as int)) * (SCALE as int)
        }),
    decreases k,
{
    let s = SCALE as int;
    let frac = (m % s) * s;
    assert(frac >= 0) by (nonlinear_arith)
        requires
            s == 65536,
            frac == (m % s) * s,
    ;
    if k == 0 {
        assert((m / s) * (k as int) == 0) by (nonlinear_arith)
            requires
                k as int == 0,
        ;
    }
    if k > 0 {
        lemma_offset_sum_closed(m, (k - 1) as nat);
        let r = ((k - 1) as u32);
        assert(r as int == k - 1);
        assert(axis_offset(m, r) == m / s + if (r as int) < frac {
            1int
        } else {
            0int
        });
        assert(offset_sum(m, k) == offset_sum(m, (k - 1) as nat) + axis_offset(m, r));
        assert((m / s) * (k as int) == (m / s) * ((k - 1) as int) + m / s) by (nonlinear_arith);
        if k - 1 < frac {
            assert(offset_sum(m, k) == (m / s) * (k as int) + (k - 1) + 1);
            assert(k <= frac);
        } else {
            assert(offset_sum(m, k) == (m / s) * (k as int) + frac);
        }
    }
}

/// Stochastic rounding is unbiased: over all `2^32` pseudo-random words
/// the rounded offsets sum to exactly `m * SCALE`, so their average is the
/// movement `m / SCALE` itself — neither rounding direction is favoured.
pub proof fn lemma_stochastic_rounding_unbiased(m: int)
    requires
        0 <= m <= MAG_LIMIT,
    ensures
        offset_sum(m, 0x1_0000_0000) == m * (SCALE as int),
{
    lemma_offset_sum_closed(m, 0x1_0000_0000);
    let s = SCALE as int;
    let q = m / s;
    let r = m % s;
    vstd::arithmetic::div_mod::lemma_fundamental_div_mod(m, s);
    assert(0 <= r < s) by {
        vstd::arithmetic::div_mod::lemma_mod_bound(m, s);
    }
    assert(r * s < 0x1_0000_0000) by (nonlinear_arith)
        requires
            0 <= r < s == 65536,
    ;
    assert(q * 0x1_0000_0000 + r * s == (q * s + r) * s) by (nonlinear_arith)
        requires
            s == 65536,
    ;
}

/// Negating the movement negates the rounded offset: the rounding is
/// symmetric about zero.
pub proof fn lemma_axis_offset_odd(m: int, r: u32)
    ensures
        axis_offset(-m, r) == -axis_offset(m, r),
{
}

/// The number of `true` flags among the first `j` cells.
pub open spec fn count_true_upto(s: Seq<bool>, j: nat) -> int
    decreases j,
{
    if j == 0 {
        0
    } else {
        count_true_upto(s, (j - 1) as nat) + if s[j - 1] {
            1int
        } else {
            0int
        }
    }
}

/// How one overwrite changes the count of the first `j` cells.
proof fn lemma_count_upto_update(s: Seq<bool>, i: int, b: bool, j: nat)
    requires
        0 <= i < s.len(),
        j <= s.len(),
    ensures
        count_true_upto(s.update(i, b), j) == count_true_upto(s, j) + if i < j {
            (if b {
                1int
            } else {
                0int
            }) - (if s[i] {
                1int
            } else {
                0int
            })
        } else {
            0int
        },
    decreases j,
{
    if j > 0 {
        lemma_count_upto_update(s, i, b, (j - 1) as nat);
    }
}

/// An all-false occupancy counts zero.
proof fn lemma_all_false_count(len: nat, j: nat)
    requires
        j <= len,
    ensures
        count_true_upto(all_false(len), j) == 0,
    decreases j,
{
    if j > 0 {
        lemma_all_false_count(len, (j - 1) as nat);
    }
}

/// There is one move per occupied cell among the first `j`.
proof fn lemma_moves_prefix_len(sim: Simulation, t: u32, j: nat)
    ensures
        moves_prefix(sim, t, j).len() == count_true_upto(sim.occupied@, j),
    decreases j,
{
    if j > 0 {
        lemma_moves_prefix_len(sim, t, (j - 1) as nat);
    }
}

/// Moves are listed in strictly increasing source order.
proof fn lemma_moves_prefix_mono(sim: Simulation, t: u32, j: nat)
    requires
        j <= sim.occupied@.len(),
        j <= 0xffff_ffff,
    ensures
        forall|k1: int, k2: int|
            0 <= k1 < k2 < moves_prefix(sim, t, j).len() ==> (#[trigger] moves_prefix(
                sim,
                t,
                j,
            )[k1]).src < (#[trigger] moves_prefix(sim, t, j)[k2]).src,
    decreases j,
{
    if j > 0 {
        lemma_moves_prefix_mono(sim, t, (j - 1) as nat);
        let prev = moves_prefix(sim, t, (j - 1) as nat);
        let cur = moves_prefix(sim, t, j);
        assert forall|k1: int, k2: int|
            0 <= k1 < k2 < cur.len() implies (#[trigger] cur[k1]).src < (#[trigger] cur[k2]).src by {
            if k2 < prev.len() {
                assert(cur[k1] == prev[k1]);
                assert(cur[k2] == prev[k2]);
            } else {
                assert(sim.occupied@[j - 1]);
                assert(cur[k2] == move_spec(sim, t, j - 1));
                lemma_move_spec_src(sim, t, j - 1);
                assert(cur[k1] == prev[k1]);
                lemma_moves_prefix_src(sim, t, (j - 1) as nat, k1);
            }
        }
    }
}

/// Every occupied cell among the first `j` has its move in the prefix.
proof fn lemma_moves_prefix_complete(sim: Simulation, t: u32, j: nat, c: int)
    requires
        0 <= c < j,
        sim.occupied@[c],
    ensures
        exists|k: int|
            0 <= k < moves_prefix(sim, t, j).len() && #[trigger] moves_prefix(sim, t, j)[k]
                == move_spec(sim, t, c),
    decreases j,
{
    let prev = moves_prefix(sim, t, (j - 1) as nat);
    let cur = moves_prefix(sim, t, j);
    if c == j - 1 {
        assert(cur[prev.len() as int] == move_spec(sim, t, c));
    } else {
        lemma_moves_prefix_complete(sim, t, (j - 1) as nat, c);
        let k = choose|k: int|
            0 <= k < prev.len() && #[trigger] prev[k] == move_spec(sim, t, c);
        assert(cur[k] == move_spec(sim, t, c));
    }
}

/// What the occupancy fold leaves at each cell: its starting flag, or
/// `true` if some applied move lands there.
proof fn lemma_occ_fold_char(occ: Seq<bool>, moves: Seq<Move>, n: int, i: nat)
    requires
        i <= moves.len(),
        forall|k: int| 0 <= k < i as int ==> 0 <= #[trigger] dst_idx(moves[k], n) < occ.len(),
    ensures
        occ_fold(occ, moves, n, i).len() == occ.len(),
        forall|j: int|
            0 <= j < occ.len() ==> (#[trigger] occ_fold(occ, moves, n, i)[j]) == (occ[j]
                || exists|k: int| 0 <= k < i as int && #[trigger] dst_idx(moves[k], n) == j),
    decreases i,
{
    if i > 0 {
        lemma_occ_fold_char(occ, moves, n, (i - 1) as nat);
        let prev = occ_fold(occ, moves, n, (i - 1) as nat);
        let cur = occ_fold(occ, moves, n, i);
        let d = dst_idx(moves[i as int - 1], n);
        assert forall|j: int|
            0 <= j < occ.len() implies (#[trigger] cur[j]) == (occ[j] || exists|k: int|
                0 <= k < i as int && #[trigger] dst_idx(moves[k], n) == j) by {
            if j == d {
                assert(0 <= i as int - 1 < i as int && dst_idx(moves[i as int - 1], n) == j);
                assert(cur[j]);
            } else {
                assert(cur[j] == prev[j]);
                if exists|k: int| 0 <= k < i as int - 1 && #[trigger] dst_idx(moves[k], n) == j {
                    let kw = choose|k: int|
                        0 <= k < i as int - 1 && #[trigger] dst_idx(moves[k], n) == j;
                    assert(0 <= kw < i as int && dst_idx(moves[kw], n) == j);
                }
                if exists|k: int| 0 <= k < i as int && #[trigger] dst_idx(moves[k], n) == j {
                    let kw = choose|k: int|
                        0 <= k < i as int && #[trigger] dst_idx(moves[k], n) == j;
                    assert(kw != i as int - 1);
                    assert(0 <= kw < i as int - 1 && dst_idx(moves[kw], n) == j);
                }
            }
        }
    }
}

/// Distinct destinations starting from an empty occupancy: each applied
/// move raises the count by one.
proof fn lemma_occ_fold_count(occ: Seq<bool>, moves: Seq<Move>, n: int, i: nat)
    requires
        i <= moves.len(),
        forall|k: int| 0 <= k < moves.len() ==> 0 <= #[trigger] dst_idx(moves[k], n) < occ.len(),
        forall|k1: int, k2: int|
            0 <= k1 < k2 < moves.len() ==> #[trigger] dst_idx(moves[k1], n) != #[trigger] dst_idx(
                moves[k2],
                n,
            ),
        forall|j: int| 0 <= j < occ.len() ==> !occ[j],
    ensures
        count_true_upto(occ_fold(occ, moves, n, i), occ.len() as nat) == count_true_upto(
            occ,
            occ.len() as nat,
        ) + i,
    decreases i,
{
    if i > 0 {
        lemma_occ_fold_count(occ, moves, n, (i - 1) as nat);
        let prev = occ_fold(occ, moves, n, (i - 1) as nat);
        let d = dst_idx(moves[i as int - 1], n);
        lemma_occ_fold_char(occ, moves, n, (i - 1) as nat);
        assert(!occ[d]);
        if exists|k: int| 0 <= k < i as int - 1 && #[trigger] dst_idx(moves[k], n) == d {
            let kw = choose|k: int| 0 <= k < i as int - 1 && #[trigger] dst_idx(moves[k], n) == d;
            assert(dst_idx(moves[kw], n) != dst_idx(moves[i as int - 1], n));
            assert(false);
        }
        assert(!prev[d]);
        lemma_count_upto_update(prev, d, true, occ.len() as nat);
    }
}

/// Particle conservation without collisions: when no two occupied cells
/// compute the same destination, transport keeps the particle count, and
/// every particle stands exactly at its computed destination afterwards.
pub proof fn lemma_particle_conservation(sim: Simulation, t: u32)
    requires
        sim.wf(),
        forall|c1: int, c2: int|
            0 <= c1 < c2 < sim.occupied@.len() && sim.occupied@[c1] && sim.occupied@[c2]
                ==> #[trigger] dst_idx(move_spec(sim, t, c1), sim.n as int) != #[trigger] dst_idx(
                move_spec(sim, t, c2),
                sim.n as int,
            ),
    ensures
        ({
            let area = (sim.n as int * sim.n as int) as nat;
            let moves = moves_prefix(sim, t, area);
            let fold = occ_fold(all_false(area), moves, sim.n as int, moves.len());
            &&& count_true_upto(fold, area) == count_true_upto(sim.occupied@, area)
            &&& forall|c: int|
                0 <= c < area as int && sim.occupied@[c] ==> fold[dst_idx(
                    #[trigger] move_spec(sim, t, c),
                    sim.n as int,
                )]
        }),
{
    let n = sim.n as int;
    let area = (n * n) as nat;
    let moves = moves_prefix(sim, t, area);
    let start = all_false(area);
    crate::grid::lemma_grid_area(n);
    lemma_moves_prefix_len(sim, t, area);
    assert forall|k: int| 0 <= k < moves.len() implies 0 <= #[trigger] dst_idx(moves[k], n)
        < start.len() by {
        lemma_moves_prefix_src(sim, t, area, k);
        lemma_move_spec_in_range(sim, t, moves[k].src as int);
    }
    lemma_moves_prefix_mono(sim, t, area);
    assert forall|k1: int, k2: int|
        0 <= k1 < k2 < moves.len() implies #[trigger] dst_idx(moves[k1], n) != #[trigger] dst_idx(
        moves[k2],
        n,
    ) by {
        lemma_moves_prefix_src(sim, t, area, k1);
        lemma_moves_prefix_src(sim, t, area, k2);
        assert(moves[k1].src < moves[k2].src);
    }
    lemma_occ_fold_count(start, moves, n, moves.len());
    lemma_all_false_count(area, area);
    lemma_occ_fold_char(start, moves, n, moves.len());
    assert forall|c: int| 0 <= c < area as int && sim.occupied@[c] implies occ_fold(
        start,
        moves,
        n,
        moves.len(),
    )[dst_idx(#[trigger] move_spec(sim, t, c), n)] by {
        lemma_moves_prefix_complete(sim, t, area, c);
        let k = choose|k: int|
            0 <= k < moves.len() && #[trigger] moves[k] == move_spec(sim, t, c);
        lemma_move_spec_in_range(sim, t, c);
        lemma_move_spec_src(sim, t, c);
        let d = dst_idx(move_spec(sim, t, c), n);
        assert(0 <= k < moves.len() && dst_idx(moves[k], n) == d);
        assert(0 <= d < start.len());
        assert((occ_fold(start, moves, n, moves.len())[d]) == (start[d] || exists|kk: int|
            0 <= kk < moves.len() && #[trigger] dst_idx(moves[kk], n) == d));
    }
}

/// Particle conservation, stated of the transport stage itself: when no
/// two occupied cells compute the same destination, the number of
/// occupied cells after transport equals the number before.
pub proof fn lemma_transport_conserves_particles(pre: Simulation, post: Simulation, t: u32)
    requires
        pre.wf(),
        transport_rel(pre, post, t),
        forall|c1: int, c2: int|
            0 <= c1 < c2 < pre.occupied@.len() && pre.occupied@[c1] && pre.occupied@[c2]
                ==> #[trigger] dst_idx(move_spec(pre, t, c1), pre.n as int) != #[trigger] dst_idx(
                move_spec(pre, t, c2),
                pre.n as int,
            ),
    ensures
        count_true_upto(post.occupied@, (pre.n as int * pre.n as int) as nat) == count_true_upto(
            pre.occupied@,
            (pre.n as int * pre.n as int) as nat,
        ),
{
    lemma_particle_conservation(pre, t);
}

} // verus!