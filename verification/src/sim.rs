//! The simulation state: a pyramid of source, field and residual grids,
//! plus the level-0 particle population.
//!
//! Level 0 is full resolution; each coarser level halves the linear
//! dimension. Source grids (`charge`, `magnet`) and residual grids have the
//! level's dimension; the staggered field has one extra row and column to
//! hold the boundary edges; the curl residual lives on the interior 2x2
//! diagonals and has one row and column less.

use vstd::prelude::*;
use crate::fixed::MAG_LIMIT;
use crate::grid::{FieldVec, ScalarGrid, VecGrid, lemma_flat_index, lemma_grid_area};

verus! {

/// Magnitude written by pointer injection: five units, in fixed point.
pub const INJECT_CHARGE: i64 = 327680;

/// The whole mutable state of one simulation.
pub struct Simulation {
    /// Level-0 linear dimension; a power of two.
    pub n: usize,
    /// Number of pyramid levels.
    pub levels: usize,
    /// Red-black phase of the next divergence pass, 0 or 1.
    pub parity: u32,
    /// Divergence targets, one grid per level.
    pub charge: Vec<ScalarGrid>,
    /// Curl targets, one grid per level.
    pub magnet: Vec<ScalarGrid>,
    /// The staggered vector field, one grid per level.
    pub field: Vec<VecGrid>,
    /// Divergence residual scratch, one grid per level.
    pub div_err: Vec<ScalarGrid>,
    /// Curl residual scratch, one grid per level.
    pub curl_err: Vec<ScalarGrid>,
    /// Level-0 particle occupancy, row-major.
    pub occupied: Vec<bool>,
    /// Level-0 particle velocities; meaningful where `occupied` holds.
    pub velocity: VecGrid,
    /// Level-0 trail intensity, decayed each tick.
    pub trail: ScalarGrid,
}

impl Simulation {
    /// The linear dimension of level `k`.
    pub open spec fn level_size(&self, k: int) -> int {
        self.charge@[k].size()
    }

    /// Shape conditions of one level's grids.
    pub open spec fn level_ok(&self, k: int) -> bool {
        &&& self.charge@[k].wf()
        &&& 1 <= self.charge@[k].size() <= 2048
        &&& self.magnet@[k].wf()
        &&& self.magnet@[k].size() == self.charge@[k].size()
        &&& self.field@[k].wf()
        &&& self.field@[k].size() == self.charge@[k].size() + 1
        &&& self.div_err@[k].wf()
        &&& self.div_err@[k].size() == self.charge@[k].size()
        &&& self.curl_err@[k].wf()
        &&& self.curl_err@[k].size() == self.charge@[k].size() - 1
    }

    /// Shape and bounds invariant of the whole state.
    pub open spec fn wf(&self) -> bool {
        &&& 1 <= self.levels as int
        &&& 1 <= self.n as int <= 2048
        &&& self.charge@.len() == self.levels as int
        &&& self.magnet@.len() == self.levels as int
        &&& self.field@.len() == self.levels as int
        &&& self.div_err@.len() == self.levels as int
        &&& self.curl_err@.len() == self.levels as int
        &&& self.charge@[0].size() == self.n as int
        &&& forall|k: int| 0 <= k < self.levels as int ==> #[trigger] self.level_ok(k)
        &&& forall|k: int|
            1 <= k < self.levels as int ==> 2 * #[trigger] self.level_size(k) == self.level_size(
                k - 1,
            )
        &&& self.occupied@.len() == self.n as int * self.n as int
        &&& self.velocity.wf()
        &&& self.velocity.size() == self.n as int
        &&& self.trail.wf()
        &&& self.trail.size() == self.n as int
        &&& self.parity <= 1
    }

    /// Whether `(x, y)` is a level-0 cell.
    pub open spec fn cell_in_range(&self, x: int, y: int) -> bool {
        0 <= x < self.n as int && 0 <= y < self.n as int
    }

    /// The occupancy flag of level-0 cell `(x, y)`.
    pub open spec fn occ(&self, x: int, y: int) -> bool {
        self.occupied@[y * self.n as int + x]
    }

    /// A fresh simulation: grid dimension `2^size_bits`, all sources, field,
    /// residuals, particles and trails zero.
    pub fn new(size_bits: usize, levels: usize) -> (sim: Simulation)
        requires
            size_bits <= 11,
            1 <= levels <= size_bits + 1,
        ensures
            sim.wf(),
            sim.n as int == (1usize << size_bits) as int,
            sim.levels == levels,
            sim.parity == 0,
            forall|k: int, i: int|
                0 <= k < levels && 0 <= i < sim.charge@[k]@.len() ==> #[trigger] sim.charge@[k]@[i]
                    == 0,
            forall|k: int, i: int|
                0 <= k < levels && 0 <= i < sim.magnet@[k]@.len() ==> #[trigger] sim.magnet@[k]@[i]
                    == 0,
            forall|k: int, i: int|
                0 <= k < levels && 0 <= i < sim.field@[k]@.len() ==> #[trigger] sim.field@[k]@[i]
                    == (FieldVec { x: 0, y: 0 }),
            forall|k: int, i: int|
                0 <= k < levels && 0 <= i < sim.div_err@[k]@.len() ==> #[trigger] sim.div_err@[k]@[i]
                    == 0,
            forall|k: int, i: int|
                0 <= k < levels && 0 <= i < sim.curl_err@[k]@.len()
                    ==> #[trigger] sim.curl_err@[k]@[i] == 0,
            forall|i: int| 0 <= i < sim.occupied@.len() ==> !sim.occupied@[i],
            forall|i: int| 0 <= i < sim.velocity@.len() ==> sim.velocity@[i] == (FieldVec {
                x: 0,
                y: 0,
            }),
            forall|i: int| 0 <= i < sim.trail@.len() ==> sim.trail@[i] == 0,
    {
        let n: usize = 1usize << size_bits;
        proof {
            assert((1usize << size_bits) >= 1 && (1usize << size_bits) <= 2048) by (bit_vector)
                requires
                    size_bits <= 11usize,
            ;
        }
        let mut charge: Vec<ScalarGrid> = Vec::new();
        let mut magnet: Vec<ScalarGrid> = Vec::new();
        let mut field: Vec<VecGrid> = Vec::new();
        let mut div_err: Vec<ScalarGrid> = Vec::new();
        let mut curl_err: Vec<ScalarGrid> = Vec::new();
        let mut l: usize = 0;
        let mut s: usize = n;
        proof {
            assert(n >> 0usize == n) by (bit_vector);
        }
        while l < levels
            invariant
                l <= levels,
                s == n >> l,
                charge@.len() == l as int,
                magnet@.len() == l as int,
                field@.len() == l as int,
                div_err@.len() == l as int,
                curl_err@.len() == l as int,
                l >= 1 ==> charge@[0].size() == n as int,
                forall|k: int|
                    0 <= k < l as int ==> {
                        &&& (#[trigger] charge@[k]).wf()
                        &&& 1 <= charge@[k].size() <= 2048
                        &&& magnet@[k].wf()
                        &&& magnet@[k].size() == charge@[k].size()
                        &&& field@[k].wf()
                        &&& field@[k].size() == charge@[k].size() + 1
                        &&& div_err@[k].wf()
                        &&& div_err@[k].size() == charge@[k].size()
                        &&& curl_err@[k].wf()
                        &&& curl_err@[k].size() == charge@[k].size() - 1
                    },
                forall|k: int|
                    1 <= k < l as int ==> 2 * (#[trigger] charge@[k]).size() == charge@[k
                        - 1].size(),
                l >= 1 && l < levels ==> charge@[l - 1].size() == 2 * s as int,
                forall|k: int, i: int|
                    0 <= k < l as int && 0 <= i < charge@[k]@.len() ==> #[trigger] charge@[k]@[i]
                        == 0,
                forall|k: int, i: int|
                    0 <= k < l as int && 0 <= i < magnet@[k]@.len() ==> #[trigger] magnet@[k]@[i]
                        == 0,
                forall|k: int, i: int|
                    0 <= k < l as int && 0 <= i < field@[k]@.len() ==> #[trigger] field@[k]@[i]
                        == (FieldVec { x: 0, y: 0 }),
                forall|k: int, i: int|
                    0 <= k < l as int && 0 <= i < div_err@[k]@.len() ==> #[trigger] div_err@[k]@[i]
                        == 0,
                forall|k: int, i: int|
                    0 <= k < l as int && 0 <= i < curl_err@[k]@.len()
                        ==> #[trigger] curl_err@[k]@[i] == 0,
            decreases levels - l,
        {
            proof {
                assert(s >= 1 && s <= 2048) by (bit_vector)
                    requires
                        s == n >> l,
                        n == 1usize << size_bits,
                        size_bits <= 11usize,
                        l <= size_bits,
                ;
            }
            proof {
                if l == 0 {
                    assert(n >> 0usize == n) by (bit_vector);
                }
            }
            charge.push(ScalarGrid::new(s));
            magnet.push(ScalarGrid::new(s));
            field.push(VecGrid::new(s + 1));
            div_err.push(ScalarGrid::new(s));
            curl_err.push(ScalarGrid::new(s - 1));
            if l + 1 < levels {
                proof {
                    assert(2 * ((n >> l) / 2) == n >> l) by (bit_vector)
                        requires
                            n == 1usize << size_bits,
                            size_bits <= 11usize,
                            l + 1 <= size_bits,
                    ;
                }
            }
            proof {
                assert((n >> l) / 2 == n >> (l + 1)) by (bit_vector)
                    requires
                        l <= 12usize,
                ;
            }
            s = s / 2;
            l = l + 1;
        }
        proof {
            lemma_grid_area(n as int);
        }
        let area = n * n;
        let mut occupied: Vec<bool> = Vec::new();
        let mut i: usize = 0;
        while i < area
            invariant
                i <= area,
                occupied@.len() == i as int,
                forall|j: int| 0 <= j < i as int ==> !occupied@[j],
            decreases area - i,
        {
            occupied.push(false);
            i += 1;
        }
        Simulation {
            n,
            levels,
            parity: 0,
            charge,
            magnet,
            field,
            div_err,
            curl_err,
            occupied,
            velocity: VecGrid::new(n),
            trail: ScalarGrid::new(n),
        }
    }

    /// Level-0 linear dimension.
    pub fn dim(&self) -> (r: usize)
        ensures
            r == self.n,
    {
        self.n
    }

    /// Number of pyramid levels.
    pub fn level_count(&self) -> (r: usize)
        ensures
            r == self.levels,
    {
        self.levels
    }

    /// Linear dimension of level `l`.
    pub fn level_dim(&self, l: usize) -> (r: usize)
        requires
            self.wf(),
            l < self.levels,
        ensures
            r as int == self.level_size(l as int),
    {
        proof {
            assert(self.level_ok(l as int));
        }
        self.charge[l].dim()
    }

    /// The divergence target at a level's cell.
    pub fn charge_at(&self, l: usize, x: usize, y: usize) -> (r: i64)
        requires
            self.wf(),
            l < self.levels,
            0 <= (x as int) < self.level_size(l as int),
            0 <= (y as int) < self.level_size(l as int),
        ensures
            r == self.charge@[l as int].at(x as int, y as int),
    {
        proof {
            assert(self.level_ok(l as int));
        }
        self.charge[l].get(x, y)
    }

    /// The curl target at a level's cell.
    pub fn magnet_at(&self, l: usize, x: usize, y: usize) -> (r: i64)
        requires
            self.wf(),
            l < self.levels,
            0 <= (x as int) < self.level_size(l as int),
            0 <= (y as int) < self.level_size(l as int),
        ensures
            r == self.magnet@[l as int].at(x as int, y as int),
    {
        proof {
            assert(self.level_ok(l as int));
        }
        self.magnet[l].get(x, y)
    }

    /// The staggered field cell at a level's cell, boundary edges included.
    pub fn field_at(&self, l: usize, x: usize, y: usize) -> (r: FieldVec)
        requires
            self.wf(),
            l < self.levels,
            0 <= (x as int) <= self.level_size(l as int),
            0 <= (y as int) <= self.level_size(l as int),
        ensures
            r == self.field@[l as int].at(x as int, y as int),
    {
        proof {
            assert(self.level_ok(l as int));
        }
        self.field[l].get(x, y)
    }

    /// The stored divergence residual at a level's cell.
    pub fn div_err_at(&self, l: usize, x: usize, y: usize) -> (r: i64)
        requires
            self.wf(),
            l < self.levels,
            0 <= (x as int) < self.level_size(l as int),
            0 <= (y as int) < self.level_size(l as int),
        ensures
            r == self.div_err@[l as int].at(x as int, y as int),
    {
        proof {
            assert(self.level_ok(l as int));
        }
        self.div_err[l].get(x, y)
    }

    /// The stored curl residual at an interior diagonal, zero past the edge.
    pub fn curl_err_at(&self, l: usize, x: usize, y: usize) -> (r: i64)
        requires
            self.wf(),
            l < self.levels,
        ensures
            r == self.curl_err@[l as int].at0(x as int, y as int),
    {
        proof {
            assert(self.level_ok(l as int));
        }
        self.curl_err[l].read0(x, y)
    }

    /// Particle occupancy of a level-0 cell.
    pub fn occupied_at(&self, x: usize, y: usize) -> (r: bool)
        requires
            self.wf(),
            self.cell_in_range(x as int, y as int),
        ensures
            r == self.occ(x as int, y as int),
    {
        proof {
            lemma_flat_index(self.n as int, x as int, y as int);
        }
        self.occupied[y * self.n + x]
    }

    /// Velocity of the particle at a level-0 cell.
    pub fn velocity_at(&self, x: usize, y: usize) -> (r: FieldVec)
        requires
            self.wf(),
            self.cell_in_range(x as int, y as int),
        ensures
            r == self.velocity.at(x as int, y as int),
    {
        self.velocity.get(x, y)
    }

    /// Trail intensity of a level-0 cell.
    pub fn trail_at(&self, x: usize, y: usize) -> (r: i64)
        requires
            self.wf(),
            self.cell_in_range(x as int, y as int),
        ensures
            r == self.trail.at(x as int, y as int),
    {
        self.trail.get(x, y)
    }

    /// Overwrite the level-0 divergence target at one cell.
    pub fn write_charge(&mut self, x: usize, y: usize, v: i64)
        requires
            old(self).wf(),
            old(self).cell_in_range(x as int, y as int),
            -MAG_LIMIT <= v <= MAG_LIMIT,
        ensures
            final(self).wf(),
            final(self).charge@[0].at(x as int, y as int) == v,
            final(self).charge@[0]@ == old(self).charge@[0]@.update(
                y as int * old(self).n as int + x as int,
                v,
            ),
            forall|k: int|
                1 <= k < old(self).levels as int ==> final(self).charge@[k] == old(self).charge@[k],
            final(self).magnet == old(self).magnet,
            final(self).field == old(self).field,
            final(self).div_err == old(self).div_err,
            final(self).curl_err == old(self).curl_err,
            final(self).occupied == old(self).occupied,
            final(self).velocity == old(self).velocity,
            final(self).trail == old(self).trail,
            final(self).n == old(self).n,
            final(self).levels == old(self).levels,
            final(self).parity == old(self).parity,
    {
        proof {
            assert(old(self).level_ok(0));
            lemma_flat_index(old(self).n as int, x as int, y as int);
        }
        let g = &mut self.charge[0];
        g.set(x, y, v);
        proof {
            assert forall|k: int| 0 <= k < self.levels as int implies self.level_ok(k) by {
                assert(old(self).level_ok(k));
            }
            assert forall|k: int|
                1 <= k < self.levels as int implies 2 * #[trigger] self.level_size(k)
                == self.level_size(k - 1) by {
                assert(old(self).level_ok(k));
                assert(old(self).level_ok(k - 1));
                assert(2 * old(self).level_size(k) == old(self).level_size(k - 1));
            }
        }
    }

    /// Overwrite the level-0 curl target at one cell.
    pub fn write_magnet(&mut self, x: usize, y: usize, v: i64)
        requires
            old(self).wf(),
            old(self).cell_in_range(x as int, y as int),
            -MAG_LIMIT <= v <= MAG_LIMIT,
        ensures
            final(self).wf(),
            final(self).magnet@[0].at(x as int, y as int) == v,
            final(self).magnet@[0]@ == old(self).magnet@[0]@.update(
                y as int * old(self).n as int + x as int,
                v,
            ),
            forall|k: int|
                1 <= k < old(self).levels as int ==> final(self).magnet@[k] == old(self).magnet@[k],
            final(self).charge == old(self).charge,
            final(self).field == old(self).field,
            final(self).div_err == old(self).div_err,
            final(self).curl_err == old(self).curl_err,
            final(self).occupied == old(self).occupied,
            final(self).velocity == old(self).velocity,
            final(self).trail == old(self).trail,
            final(self).n == old(self).n,
            final(self).levels == old(self).levels,
            final(self).parity == old(self).parity,
    {
        proof {
            assert(old(self).level_ok(0));
            lemma_flat_index(old(self).n as int, x as int, y as int);
        }
        let g = &mut self.magnet[0];
        g.set(x, y, v);
        proof {
            assert forall|k: int| 0 <= k < self.levels as int implies self.level_ok(k) by {
                assert(old(self).level_ok(k));
            }
            assert forall|k: int|
                1 <= k < self.levels as int implies 2 * #[trigger] self.level_size(k)
                == self.level_size(k - 1) by {
                assert(old(self).level_ok(k));
                assert(old(self).level_ok(k - 1));
                assert(2 * old(self).level_size(k) == old(self).level_size(k - 1));
            }
        }
    }

    /// Place a particle at a level-0 cell.
    pub fn place_particle(&mut self, x: usize, y: usize)
        requires
            old(self).wf(),
            old(self).cell_in_range(x as int, y as int),
        ensures
            final(self).wf(),
            final(self).occ(x as int, y as int),
            final(self).occupied@ == old(self).occupied@.update(
                y as int * old(self).n as int + x as int,
                true,
            ),
            final(self).charge == old(self).charge,
            final(self).magnet == old(self).magnet,
            final(self).field == old(self).field,
            final(self).div_err == old(self).div_err,
            final(self).curl_err == old(self).curl_err,
            final(self).velocity == old(self).velocity,
            final(self).trail == old(self).trail,
            final(self).n == old(self).n,
            final(self).levels == old(self).levels,
            final(self).parity == old(self).parity,
    {
        proof {
            lemma_flat_index(self.n as int, x as int, y as int);
        }
        let i = y * self.n + x;
        self.occupied.set(i, true);
        proof {
            assert forall|k: int| 0 <= k < self.levels as int implies self.level_ok(k) by {
                assert(old(self).level_ok(k));
            }
            assert forall|k: int|
                1 <= k < self.levels as int implies 2 * #[trigger] self.level_size(k)
                == self.level_size(k - 1) by {
                assert(old(self).level_ok(k));
                assert(old(self).level_ok(k - 1));
                assert(2 * old(self).level_size(k) == old(self).level_size(k - 1));
            }
        }
    }

    /// Apply one pointer edit at a level-0 cell: the left button writes a
    /// negative charge, the right button writes a positive magnet, the
    /// middle button places a particle. Writes overwrite; they do not
    /// accumulate.
    pub fn apply_pointer(&mut self, x: usize, y: usize, left: bool, right: bool, middle: bool)
        requires
            old(self).wf(),
            old(self).cell_in_range(x as int, y as int),
        ensures
            final(self).wf(),
            final(self).charge@[0]@ == if left {
                old(self).charge@[0]@.update(
                    y as int * old(self).n as int + x as int,
                    (-INJECT_CHARGE) as i64,
                )
            } else {
                old(self).charge@[0]@
            },
            final(self).magnet@[0]@ == if right {
                old(self).magnet@[0]@.update(y as int * old(self).n as int + x as int, INJECT_CHARGE)
            } else {
                old(self).magnet@[0]@
            },
            final(self).occupied@ == if middle {
                old(self).occupied@.update(y as int * old(self).n as int + x as int, true)
            } else {
                old(self).occupied@
            },
            forall|k: int|
                1 <= k < old(self).levels as int ==> final(self).charge@[k] == old(self).charge@[k]
                    && final(self).magnet@[k] == old(self).magnet@[k],
            final(self).field == old(self).field,
            final(self).div_err == old(self).div_err,
            final(self).curl_err == old(self).curl_err,
            final(self).velocity == old(self).velocity,
            final(self).trail == old(self).trail,
            final(self).n == old(self).n,
            final(self).levels == old(self).levels,
            final(self).parity == old(self).parity,
    {
        if left {
            self.write_charge(x, y, -INJECT_CHARGE);
        }
        if right {
            self.write_magnet(x, y, INJECT_CHARGE);
        }
        if middle {
            self.place_particle(x, y);
        }
    }
}

} // verus!
