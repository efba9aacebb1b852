//! The per-tick solve schedule.
//!
//! Each tick first rebuilds the source pyramid, then walks the levels from
//! coarsest to finest: optionally prolonging the coarser level's solved
//! field as the current level's starting guess, then running a fixed
//! number of relaxation iterations there. The field is never reset, so
//! convergence is amortized across ticks.
//!
//! The contracts are stated as step relations between the state before and
//! after: `relax_step_rel` pins one residual-solve/correct iteration
//! exactly, `relax_iter_rel` chains it, and `vcycle_rel` composes the
//! whole schedule.

use vstd::prelude::*;
use crate::grid::{ScalarGrid, VecGrid};
use crate::pyramid::{downsample_pass, downsample_value, upsample_pass, upsampled_cell};
use crate::sim::Simulation;
use crate::particles::{trail_rel, transport_rel};
use crate::solver::{
    apply_pass, corrected_cell, curl_pass, curl_value, div_raw, div_value, divergence_pass,
};

verus! {

/// The fields that no solver stage touches: shape, sources and particle
/// state.
pub open spec fn solver_frame(pre: Simulation, post: Simulation) -> bool {
    &&& post.n == pre.n
    &&& post.levels == pre.levels
    &&& post.charge == pre.charge
    &&& post.magnet == pre.magnet
    &&& post.occupied == pre.occupied
    &&& post.velocity == pre.velocity
    &&& post.trail == pre.trail
}

/// One relaxation iteration at level `l`: the divergence pass fills the
/// level's divergence residual from the pre-state field at the pre-state
/// red-black parity, the curl pass fills the curl residual, the correction
/// pass adds a quarter of the residual stencil to every field cell, and
/// the parity flips. Every other level is untouched.
pub open spec fn relax_step_rel(pre: Simulation, post: Simulation, l: int) -> bool {
    let s = pre.level_size(l);
    &&& solver_frame(pre, post)
    &&& post.parity == 1 - pre.parity
    &&& post.field@.len() == pre.field@.len()
    &&& post.div_err@.len() == pre.div_err@.len()
    &&& post.curl_err@.len() == pre.curl_err@.len()
    &&& forall|k: int|
        0 <= k < pre.levels as int && k != l ==> #[trigger] post.field@[k] == pre.field@[k]
            && post.div_err@[k] == pre.div_err@[k] && post.curl_err@[k] == pre.curl_err@[k]
    &&& post.div_err@[l].size() == pre.div_err@[l].size()
    &&& post.curl_err@[l].size() == pre.curl_err@[l].size()
    &&& post.field@[l].size() == pre.field@[l].size()
    &&& forall|x: int, y: int|
        0 <= x < s && 0 <= y < s ==> #[trigger] post.div_err@[l].at(x, y) == div_value(
            &pre.charge@[l],
            &pre.field@[l],
            pre.parity as int,
            x,
            y,
        )
    &&& forall|x: int, y: int|
        0 <= x < s - 1 && 0 <= y < s - 1 ==> #[trigger] post.curl_err@[l].at(x, y) == curl_value(
            &pre.magnet@[l],
            &pre.field@[l],
            x,
            y,
        )
    &&& forall|x: int, y: int|
        0 <= x < s + 1 && 0 <= y < s + 1 ==> #[trigger] post.field@[l].at(x, y) == corrected_cell(
            &post.div_err@[l],
            &post.curl_err@[l],
            pre.field@[l].at(x, y),
            x,
            y,
        )
}

/// `k` chained relaxation iterations at level `l`.
pub open spec fn relax_iter_rel(pre: Simulation, post: Simulation, l: int, k: nat) -> bool
    decreases k,
{
    if k == 0 {
        post == pre
    } else {
        exists|mid: Simulation|
            relax_iter_rel(pre, mid, l, (k - 1) as nat) && #[trigger] relax_step_rel(mid, post, l)
    }
}

/// The source pyramid has been rebuilt: level 0 of `charge` and `magnet`
/// is unchanged, and every coarser cell holds the saturated sum of its
/// four children — the pyramid sum invariant. Nothing else moved.
pub open spec fn pyramid_rebuilt(pre: Simulation, post: Simulation) -> bool {
    &&& post.n == pre.n
    &&& post.levels == pre.levels
    &&& post.parity == pre.parity
    &&& post.field == pre.field
    &&& post.div_err == pre.div_err
    &&& post.curl_err == pre.curl_err
    &&& post.occupied == pre.occupied
    &&& post.velocity == pre.velocity
    &&& post.trail == pre.trail
    &&& post.charge@.len() == pre.charge@.len()
    &&& post.magnet@.len() == pre.magnet@.len()
    &&& post.charge@[0] == pre.charge@[0]
    &&& post.magnet@[0] == pre.magnet@[0]
    &&& forall|k: int|
        1 <= k < pre.levels as int ==> #[trigger] post.charge@[k].size() == pre.charge@[k].size()
            && post.magnet@[k].size() == pre.magnet@[k].size()
    &&& pyramid_consistent(post)
}

/// Cell `(x, y)` of source level `k` holds the saturated sum of its four
/// children one level finer, for charge and magnet alike.
pub open spec fn pyramid_cell_ok(sim: Simulation, k: int, x: int, y: int) -> bool {
    &&& sim.charge@[k].at(x, y) == downsample_value(&sim.charge@[k - 1], x, y)
    &&& sim.magnet@[k].at(x, y) == downsample_value(&sim.magnet@[k - 1], x, y)
}

/// The pyramid sum invariant up to (excluding) level `hi`: each of those
/// coarser source cells equals the saturated sum of its four children one
/// level finer.
pub open spec fn pyramid_prefix(sim: Simulation, hi: int) -> bool {
    forall|k: int, x: int, y: int|
        1 <= k < hi && 0 <= x < sim.level_size(k) && 0 <= y < sim.level_size(k)
            ==> #[trigger] pyramid_cell_ok(sim, k, x, y)
}

/// The pyramid sum invariant: every cell of every coarser source level
/// equals the saturated sum of its four children one level finer.
pub open spec fn pyramid_consistent(sim: Simulation) -> bool {
    pyramid_prefix(sim, sim.levels as int)
}

/// Level `l` has been given the coarser level's solved field as its new
/// starting guess; everything else is unchanged.
pub open spec fn upsampled_rel(pre: Simulation, post: Simulation, l: int) -> bool {
    &&& solver_frame(pre, post)
    &&& post.parity == pre.parity
    &&& post.div_err == pre.div_err
    &&& post.curl_err == pre.curl_err
    &&& post.field@.len() == pre.field@.len()
    &&& forall|k: int|
        0 <= k < pre.levels as int && k != l ==> #[trigger] post.field@[k] == pre.field@[k]
    &&& post.field@[l].size() == pre.field@[l].size()
    &&& forall|x: int, y: int|
        0 <= x < pre.field@[l].size() && 0 <= y < pre.field@[l].size()
            ==> #[trigger] post.field@[l].at(x, y) == upsampled_cell(
            &pre.field@[l + 1],
            pre.field@[l].at(x, y),
            pre.level_size(l),
            x,
            y,
        )
}

/// One level's share of the V-cycle: the prolongation (where multigrid is
/// on and a coarser level exists) followed by `k` relaxation iterations.
pub open spec fn vcycle_level_rel(
    pre: Simulation,
    post: Simulation,
    l: int,
    multigrid: bool,
    k: nat,
) -> bool {
    exists|mid: Simulation|
        (if multigrid && l + 1 < pre.levels as int {
            upsampled_rel(pre, mid, l)
        } else {
            mid == pre
        }) && #[trigger] relax_iter_rel(mid, post, l, k)
}

/// Levels `levels - 1` down to `l` have each run their V-cycle share, in
/// that order.
pub open spec fn vcycle_span_rel(
    pre: Simulation,
    post: Simulation,
    l: int,
    multigrid: bool,
    k: nat,
) -> bool
    decreases pre.levels as int - l,
{
    if l >= pre.levels as int {
        post == pre
    } else {
        exists|mid: Simulation|
            vcycle_span_rel(pre, mid, l + 1, multigrid, k) && #[trigger] vcycle_level_rel(
                mid,
                post,
                l,
                multigrid,
                k,
            )
    }
}

/// A whole per-tick solve: sources downsampled to every level, then every
/// level from coarsest to finest relaxed, each first seeded from its
/// coarser neighbour when multigrid is on.
pub open spec fn vcycle_rel(
    pre: Simulation,
    post: Simulation,
    multigrid: bool,
    k: nat,
) -> bool {
    exists|mid: Simulation|
        #[trigger] pyramid_rebuilt(pre, mid) && vcycle_span_rel(mid, post, 0, multigrid, k)
}

/// One whole tick: the V-cycle solve, then particle transport, then the
/// trail refresh, in that order.
pub open spec fn tick_rel(
    pre: Simulation,
    post: Simulation,
    t: u32,
    multigrid: bool,
    k: nat,
) -> bool {
    exists|solved: Simulation, moved: Simulation|
        vcycle_rel(pre, solved, multigrid, k) && #[trigger] transport_rel(solved, moved, t)
            && trail_rel(moved, post)
}

/// Chained relaxation never touches the sources or the shape.
pub proof fn lemma_relax_iter_sources(pre: Simulation, post: Simulation, l: int, k: nat)
    requires
        relax_iter_rel(pre, post, l, k),
    ensures
        post.n == pre.n,
        post.levels == pre.levels,
        post.charge == pre.charge,
        post.magnet == pre.magnet,
    decreases k,
{
    if k > 0 {
        let mid = choose|mid: Simulation|
            relax_iter_rel(pre, mid, l, (k - 1) as nat) && #[trigger] relax_step_rel(mid, post, l);
        lemma_relax_iter_sources(pre, mid, l, (k - 1) as nat);
    }
}

/// One level's V-cycle share never touches the sources or the shape.
pub proof fn lemma_vcycle_level_sources(
    pre: Simulation,
    post: Simulation,
    l: int,
    multigrid: bool,
    k: nat,
)
    requires
        vcycle_level_rel(pre, post, l, multigrid, k),
    ensures
        post.n == pre.n,
        post.levels == pre.levels,
        post.charge == pre.charge,
        post.magnet == pre.magnet,
{
    let mid = choose|mid: Simulation|
        (if multigrid && l + 1 < pre.levels as int {
            upsampled_rel(pre, mid, l)
        } else {
            mid == pre
        }) && #[trigger] relax_iter_rel(mid, post, l, k);
    lemma_relax_iter_sources(mid, post, l, k);
}

/// The level walk never touches the sources or the shape.
pub proof fn lemma_vcycle_span_sources(
    pre: Simulation,
    post: Simulation,
    l: int,
    multigrid: bool,
    k: nat,
)
    requires
        vcycle_span_rel(pre, post, l, multigrid, k),
    ensures
        post.n == pre.n,
        post.levels == pre.levels,
        post.charge == pre.charge,
        post.magnet == pre.magnet,
    decreases pre.levels as int - l,
{
    if l < pre.levels as int {
        let mid = choose|mid: Simulation|
            vcycle_span_rel(pre, mid, l + 1, multigrid, k) && #[trigger] vcycle_level_rel(
                mid,
                post,
                l,
                multigrid,
                k,
            );
        lemma_vcycle_span_sources(pre, mid, l + 1, multigrid, k);
        lemma_vcycle_level_sources(mid, post, l, multigrid, k);
    }
}

/// The pyramid sum invariant depends only on the sources and the shape,
/// so it carries over to any state sharing them.
pub proof fn lemma_pyramid_consistent_transfer(a: Simulation, b: Simulation)
    requires
        pyramid_consistent(a),
        b.charge == a.charge,
        b.magnet == a.magnet,
        b.levels == a.levels,
    ensures
        pyramid_consistent(b),
{
    assert forall|k: int, x: int, y: int|
        1 <= k < b.levels as int && 0 <= x < b.level_size(k) && 0 <= y
            < b.level_size(k) implies #[trigger] pyramid_cell_ok(b, k, x, y) by {
        assert(pyramid_cell_ok(a, k, x, y));
    }
}

impl Simulation {
    /// Raw divergence residual of cell `(x, y)` at level `l`, before
    /// over-relaxation and red-black masking: how far the stored field is
    /// from meeting the cell's charge target.
    pub fn divergence_residual(&self, l: usize, x: usize, y: usize) -> (r: i64)
        requires
            self.wf(),
            l < self.levels,
            0 <= (x as int) < self.level_size(l as int),
            0 <= (y as int) < self.level_size(l as int),
        ensures
            r as int == div_raw(&self.charge@[l as int], &self.field@[l as int], x as int, y as int),
    {
        proof {
            assert(self.level_ok(l as int));
        }
        let fr = self.field[l].get(x + 1, y);
        let fd = self.field[l].get(x, y + 1);
        let f0 = self.field[l].get(x, y);
        let c = self.charge[l].get(x, y);
        fr.x + fd.y - f0.x - f0.y - c
    }

    /// One relaxation iteration at level `l`: compute both residuals from
    /// the current field, apply the correction, flip the red-black parity.
    pub fn relax_once(&mut self, l: usize)
        requires
            old(self).wf(),
            l < old(self).levels,
        ensures
            final(self).wf(),
            relax_step_rel(*old(self), *final(self), l as int),
    {
        proof {
            assert(old(self).level_ok(l as int));
        }
        let parity = self.parity;
        let dv = &mut self.div_err[l];
        divergence_pass(&self.charge[l], &self.field[l], dv, parity);
        let cv = &mut self.curl_err[l];
        curl_pass(&self.magnet[l], &self.field[l], cv);
        let fv = &mut self.field[l];
        apply_pass(&self.div_err[l], &self.curl_err[l], fv);
        self.parity = 1 - parity;
        proof {
            assert forall|k: int| 0 <= k < self.levels as int implies self.level_ok(k) by {
                assert(old(self).level_ok(k));
            }
            assert forall|k: int|
                1 <= k < self.levels as int implies 2 * #[trigger] self.level_size(k)
                == self.level_size(k - 1) by {
                assert(old(self).level_ok(k));
                assert(old(self).level_ok(k - 1));
                assert(2 * old(self).level_size(k) == old(self).level_size(k - 1));
            }
        }
    }

    /// Rebuild the source pyramid: fill every coarser `charge` and
    /// `magnet` level with the 2x2 block sums of the level below, finest
    /// first, so each level sums the already-current finer level.
    #[verifier::rlimit(50)]
    pub fn downsample_sources(&mut self)
        requires
            old(self).wf(),
        ensures
            final(self).wf(),
            pyramid_rebuilt(*old(self), *final(self)),
    {
        let mut l: usize = 1;
        while l < self.levels
            invariant
                1 <= l <= self.levels,
                self.wf(),
                self.n == old(self).n,
                self.levels == old(self).levels,
                self.parity == old(self).parity,
                self.field == old(self).field,
                self.div_err == old(self).div_err,
                self.curl_err == old(self).curl_err,
                self.occupied == old(self).occupied,
                self.velocity == old(self).velocity,
                self.trail == old(self).trail,
                self.charge@.len() == old(self).charge@.len(),
                self.magnet@.len() == old(self).magnet@.len(),
                self.charge@[0] == old(self).charge@[0],
                self.magnet@[0] == old(self).magnet@[0],
                forall|k: int|
                    1 <= k < self.levels as int ==> #[trigger] self.charge@[k].size() == old(
                        self,
                    ).charge@[k].size() && self.magnet@[k].size() == old(self).magnet@[k].size(),
                pyramid_prefix(*self, l as int),
            decreases self.levels - l,
        {
            let ghost pre_iter = *self;
            proof {
                assert(pre_iter.level_ok(l as int));
                assert(pre_iter.level_ok(l as int - 1));
                assert(2 * pre_iter.level_size(l as int) == pre_iter.level_size(l as int - 1));
            }
            let mut g = ScalarGrid::new(0);
            core::mem::swap(&mut g, &mut self.charge[l]);
            downsample_pass(&self.charge[l - 1], &mut g);
            core::mem::swap(&mut g, &mut self.charge[l]);
            let mut m = ScalarGrid::new(0);
            core::mem::swap(&mut m, &mut self.magnet[l]);
            downsample_pass(&self.magnet[l - 1], &mut m);
            core::mem::swap(&mut m, &mut self.magnet[l]);
            proof {
                assert(self.charge@ =~= pre_iter.charge@.update(l as int, self.charge@[l as int]));
                assert(self.magnet@ =~= pre_iter.magnet@.update(l as int, self.magnet@[l as int]));
                assert forall|k: int| 0 <= k < self.levels as int implies self.level_ok(k) by {
                    assert(pre_iter.level_ok(k));
                }
                assert forall|k: int|
                    1 <= k < self.levels as int implies 2 * #[trigger] self.level_size(k)
                    == self.level_size(k - 1) by {
                    assert(pre_iter.level_ok(k));
                    assert(pre_iter.level_ok(k - 1));
                    assert(2 * pre_iter.level_size(k) == pre_iter.level_size(k - 1));
                }
                assert forall|k: int, x: int, y: int|
                    1 <= k < l as int + 1 && 0 <= x < self.level_size(k) && 0 <= y
                        < self.level_size(k) implies #[trigger] pyramid_cell_ok(
                    *self,
                    k,
                    x,
                    y,
                ) by {
                    if k < l as int {
                        assert(pyramid_cell_ok(pre_iter, k, x, y));
                        assert(pre_iter.charge@[k].at(x, y) == downsample_value(
                            &pre_iter.charge@[k - 1],
                            x,
                            y,
                        ));
                        assert(pre_iter.magnet@[k].at(x, y) == downsample_value(
                            &pre_iter.magnet@[k - 1],
                            x,
                            y,
                        ));
                    }
                }
                assert(pyramid_prefix(*self, l as int + 1));
            }
            l += 1;
        }
    }

    /// Seed level `l` with the solved field of the coarser level `l + 1`.
    pub fn upsample_level(&mut self, l: usize)
        requires
            old(self).wf(),
            (l as int) + 1 < old(self).levels as int,
        ensures
            final(self).wf(),
            upsampled_rel(*old(self), *final(self), l as int),
    {
        proof {
            assert(old(self).level_ok(l as int));
            assert(old(self).level_ok(l as int + 1));
            assert(2 * old(self).level_size(l as int + 1) == old(self).level_size(l as int));
        }
        let mut g = VecGrid::new(0);
        core::mem::swap(&mut g, &mut self.field[l]);
        upsample_pass(&self.field[l + 1], &mut g);
        core::mem::swap(&mut g, &mut self.field[l]);
        proof {
            assert(self.field@ =~= old(self).field@.update(l as int, self.field@[l as int]));
            assert forall|k: int| 0 <= k < self.levels as int implies self.level_ok(k) by {
                assert(old(self).level_ok(k));
            }
            assert forall|k: int|
                1 <= k < self.levels as int implies 2 * #[trigger] self.level_size(k)
                == self.level_size(k - 1) by {
                assert(old(self).level_ok(k));
                assert(old(self).level_ok(k - 1));
                assert(2 * old(self).level_size(k) == old(self).level_size(k - 1));
            }
        }
    }

    /// Run one whole solve pass: rebuild the source pyramid, then walk
    /// the levels from coarsest to finest, seeding each from its coarser
    /// neighbour when `multigrid` is on and relaxing it `iterations`
    /// times.
    pub fn vcycle(&mut self, multigrid: bool, iterations: usize)
        requires
            old(self).wf(),
        ensures
            final(self).wf(),
            vcycle_rel(*old(self), *final(self), multigrid, iterations as nat),
    {
        self.downsample_sources();
        let ghost after_pyramid = *self;
        let mut l: usize = self.levels;
        while l > 0
            invariant
                l <= self.levels,
                self.wf(),
                self.levels == after_pyramid.levels,
                vcycle_span_rel(after_pyramid, *self, l as int, multigrid, iterations as nat),
            decreases l,
        {
            l -= 1;
            let ghost pre_level = *self;
            if multigrid && l + 1 < self.levels {
                self.upsample_level(l);
            }
            let ghost mid_level = *self;
            self.relax(l, iterations);
            proof {
                assert((if multigrid && (l as int) + 1 < pre_level.levels as int {
                    upsampled_rel(pre_level, mid_level, l as int)
                } else {
                    mid_level == pre_level
                }) && relax_iter_rel(mid_level, *self, l as int, iterations as nat));
                assert(vcycle_level_rel(
                    pre_level,
                    *self,
                    l as int,
                    multigrid,
                    iterations as nat,
                ));
                assert(vcycle_span_rel(
                    after_pyramid,
                    pre_level,
                    l as int + 1,
                    multigrid,
                    iterations as nat,
                ));
            }
        }
        proof {
            assert(pyramid_rebuilt(*old(self), after_pyramid));
        }
    }

    /// Run `iterations` relaxation iterations at level `l`.
    pub fn relax(&mut self, l: usize, iterations: usize)
        requires
            old(self).wf(),
            l < old(self).levels,
        ensures
            final(self).wf(),
            final(self).n == old(self).n,
            final(self).levels == old(self).levels,
            relax_iter_rel(*old(self), *final(self), l as int, iterations as nat),
    {
        let mut it: usize = 0;
        while it < iterations
            invariant
                it <= iterations,
                self.wf(),
                self.n == old(self).n,
                self.levels == old(self).levels,
                relax_iter_rel(*old(self), *self, l as int, it as nat),
            decreases iterations - it,
        {
            let ghost mid = *self;
            self.relax_once(l);
            proof {
                assert(relax_iter_rel(*old(self), mid, l as int, it as nat));
                assert(relax_step_rel(mid, *self, l as int));
            }
            it += 1;
        }
    }

    /// Advance the simulation one tick: solve the field with the V-cycle,
    /// advect the particles through it, refresh the trail. The rebuilt
    /// source pyramid keeps its sum invariant through the later stages.
    pub fn tick(&mut self, t: u32, multigrid: bool, iterations: usize)
        requires
            old(self).wf(),
        ensures
            final(self).wf(),
            tick_rel(*old(self), *final(self), t, multigrid, iterations as nat),
            pyramid_consistent(*final(self)),
    {
        self.vcycle(multigrid, iterations);
        let ghost solved = *self;
        self.transport(t);
        let ghost moved = *self;
        self.update_trail();
        proof {
            assert(vcycle_rel(*old(self), solved, multigrid, iterations as nat));
            assert(transport_rel(solved, moved, t));
            assert(trail_rel(moved, *self));
            let midp = choose|mid: Simulation|
                #[trigger] pyramid_rebuilt(*old(self), mid) && vcycle_span_rel(
                    mid,
                    solved,
                    0,
                    multigrid,
                    iterations as nat,
                );
            lemma_vcycle_span_sources(midp, solved, 0, multigrid, iterations as nat);
            lemma_pyramid_consistent_transfer(midp, solved);
            lemma_pyramid_consistent_transfer(solved, moved);
            lemma_pyramid_consistent_transfer(moved, *self);
        }
    }
}

} // verus!
