//! Transfer of data between pyramid levels.
//!
//! Downsampling builds each coarser source grid from the sum — not the
//! average — of every 2x2 block of the finer grid, so that the discretized
//! equation keeps the same total charge at every resolution. Upsampling
//! copies a solved coarser field onto the even coordinates of the finer
//! level and linearly interpolates the odd ones, halving the values to
//! undo the coarse level's doubled cell size.

use vstd::prelude::*;
use crate::fixed::{clamp, clamp_mag, div_trunc, tdiv};
use crate::grid::{FieldVec, ScalarGrid, VecGrid, lemma_flat_decompose, lemma_flat_index};

verus! {

/// The sum of the four children of coarse cell `(x, y)`, saturated.
pub open spec fn downsample_value(fine: &ScalarGrid, x: int, y: int) -> int {
    clamp_mag(
        fine.at(2 * x, 2 * y) + fine.at(2 * x + 1, 2 * y) + fine.at(2 * x, 2 * y + 1) + fine.at(
            2 * x + 1,
            2 * y + 1,
        ),
    )
}

/// `downsample_value` by flat row-major index over the coarse grid.
pub open spec fn flat_downsample_value(fine: &ScalarGrid, csize: int, j: int) -> int {
    downsample_value(fine, j % csize, j / csize)
}

/// Fill a coarse source grid with the 2x2 block sums of the finer grid.
pub fn downsample_pass(fine: &ScalarGrid, coarse: &mut ScalarGrid)
    requires
        fine.wf(),
        old(coarse).wf(),
        2 * old(coarse).size() == fine.size(),
    ensures
        final(coarse).wf(),
        final(coarse).size() == old(coarse).size(),
        forall|x: int, y: int|
            0 <= x < old(coarse).size() && 0 <= y < old(coarse).size() ==> final(coarse).at(x, y)
                == downsample_value(fine, x, y),
{
    let cs = coarse.dim();
    let mut y: usize = 0;
    let mut i: usize = 0;
    while y < cs
        invariant
            y <= cs,
            i as int == y as int * cs as int,
            coarse.wf(),
            2 * coarse.size() == fine.size(),
            coarse.size() == cs as int,
            forall|j: int|
                0 <= j < i as int ==> #[trigger] coarse@[j] as int == flat_downsample_value(
                    fine,
                    cs as int,
                    j,
                ),
        decreases cs - y,
    {
        let mut x: usize = 0;
        while x < cs
            invariant
                x <= cs,
                y < cs,
                i as int == y as int * cs as int + x as int,
                coarse.wf(),
                2 * coarse.size() == fine.size(),
                coarse.size() == cs as int,
                forall|j: int|
                    0 <= j < i as int ==> #[trigger] coarse@[j] as int == flat_downsample_value(
                        fine,
                        cs as int,
                        j,
                    ),
            decreases cs - x,
        {
            proof {
                lemma_flat_index(cs as int, x as int, y as int);
                lemma_flat_decompose(cs as int, x as int, y as int);
            }
            let a = fine.get(2 * x, 2 * y);
            let b = fine.get(2 * x + 1, 2 * y);
            let c = fine.get(2 * x, 2 * y + 1);
            let d = fine.get(2 * x + 1, 2 * y + 1);
            let v = clamp(a + b + c + d);
            coarse.set(x, y, v);
            i += 1;
            x += 1;
        }
        proof {
            assert((y as int + 1) * cs as int == y as int * cs as int + cs as int)
                by (nonlinear_arith);
        }
        y += 1;
    }
    proof {
        assert forall|xx: int, yy: int|
            0 <= xx < old(coarse).size() && 0 <= yy < old(coarse).size() implies final(coarse).at(
            xx,
            yy,
        ) == downsample_value(fine, xx, yy) by {
            lemma_flat_index(cs as int, xx, yy);
            lemma_flat_decompose(cs as int, xx, yy);
        }
    }
}

/// The horizontal component prolonged to fine coordinate `(x, y)`: the
/// coarse value at `(x/2, y/2)`, averaged with its right neighbour on odd
/// columns, halved.
pub open spec fn upsample_comp_x(coarse: &VecGrid, x: int, y: int) -> int {
    if x % 2 == 1 {
        tdiv(tdiv(coarse.at(x / 2, y / 2).x + coarse.at(x / 2 + 1, y / 2).x, 2), 2)
    } else {
        tdiv(coarse.at(x / 2, y / 2).x as int, 2)
    }
}

/// The vertical component prolonged to fine coordinate `(x, y)`: the
/// coarse value at `(x/2, y/2)`, averaged with its lower neighbour on odd
/// rows, halved.
pub open spec fn upsample_comp_y(coarse: &VecGrid, x: int, y: int) -> int {
    if y % 2 == 1 {
        tdiv(tdiv(coarse.at(x / 2, y / 2).y + coarse.at(x / 2, y / 2 + 1).y, 2), 2)
    } else {
        tdiv(coarse.at(x / 2, y / 2).y as int, 2)
    }
}

/// What the upsample pass leaves at fine cell `(x, y)` on a level of
/// dimension `s`: the prolonged coarse field inside `[0, s)^2`, the old
/// cell on the extra boundary row and column.
pub open spec fn upsampled_cell(
    coarse: &VecGrid,
    oldcell: FieldVec,
    s: int,
    x: int,
    y: int,
) -> FieldVec {
    if x < s && y < s {
        FieldVec { x: upsample_comp_x(coarse, x, y) as i64, y: upsample_comp_y(coarse, x, y) as i64 }
    } else {
        oldcell
    }
}

/// `upsampled_cell` by flat row-major index over the fine field grid.
pub open spec fn flat_upsampled_cell(
    coarse: &VecGrid,
    fineview: Seq<FieldVec>,
    fsize: int,
    j: int,
) -> FieldVec {
    upsampled_cell(coarse, fineview[j], fsize - 1, j % fsize, j / fsize)
}

/// Prolong a solved coarser field into a finer level as its new starting
/// guess.
pub fn upsample_pass(coarse: &VecGrid, fine: &mut VecGrid)
    requires
        coarse.wf(),
        old(fine).wf(),
        coarse.size() >= 2,
        old(fine).size() == 2 * (coarse.size() - 1) + 1,
    ensures
        final(fine).wf(),
        final(fine).size() == old(fine).size(),
        forall|x: int, y: int|
            0 <= x < old(fine).size() && 0 <= y < old(fine).size() ==> final(fine).at(x, y)
                == upsampled_cell(coarse, old(fine).at(x, y), old(fine).size() - 1, x, y),
{
    let fs = fine.dim();
    let s = fs - 1;
    let mut y: usize = 0;
    let mut i: usize = 0;
    while y < fs
        invariant
            y <= fs,
            i as int == y as int * fs as int,
            fine.wf(),
            fine.size() == fs as int,
            fs as int == 2 * (coarse.size() - 1) + 1,
            forall|j: int|
                0 <= j < i as int ==> #[trigger] fine@[j] == flat_upsampled_cell(
                    coarse,
                    old(fine)@,
                    fs as int,
                    j,
                ),
            forall|j: int| i as int <= j < fine@.len() ==> #[trigger] fine@[j] == old(fine)@[j],
        decreases fs - y,
    {
        let mut x: usize = 0;
        while x < fs
            invariant
                x <= fs,
                y < fs,
                i as int == y as int * fs as int + x as int,
                fine.wf(),
                fine.size() == fs as int,
                fs as int == 2 * (coarse.size() - 1) + 1,
                forall|j: int|
                    0 <= j < i as int ==> #[trigger] fine@[j] == flat_upsampled_cell(
                        coarse,
                        old(fine)@,
                        fs as int,
                        j,
                    ),
                forall|j: int| i as int <= j < fine@.len() ==> #[trigger] fine@[j] == old(fine)@[j],
            decreases fs - x,
        {
            proof {
                lemma_flat_index(fs as int, x as int, y as int);
                lemma_flat_decompose(fs as int, x as int, y as int);
            }
            let cell = fine.get(x, y);
            let v: FieldVec = if x < s && y < s {
                let base = coarse.get(x / 2, y / 2);
                let vx = if x % 2 == 1 {
                    let r = coarse.get(x / 2 + 1, y / 2);
                    div_trunc(div_trunc(base.x + r.x, 2), 2)
                } else {
                    div_trunc(base.x, 2)
                };
                let vy = if y % 2 == 1 {
                    let d = coarse.get(x / 2, y / 2 + 1);
                    div_trunc(div_trunc(base.y + d.y, 2), 2)
                } else {
                    div_trunc(base.y, 2)
                };
                FieldVec { x: vx, y: vy }
            } else {
                cell
            };
            fine.set(x, y, v);
            i += 1;
            x += 1;
        }
        proof {
            assert((y as int + 1) * fs as int == y as int * fs as int + fs as int)
                by (nonlinear_arith);
        }
        y += 1;
    }
    proof {
        assert forall|xx: int, yy: int|
            0 <= xx < old(fine).size() && 0 <= yy < old(fine).size() implies final(fine).at(xx, yy)
            == upsampled_cell(coarse, old(fine).at(xx, yy), old(fine).size() - 1, xx, yy) by {
            lemma_flat_index(fs as int, xx, yy);
            lemma_flat_decompose(fs as int, xx, yy);
        }
    }
}

} // verus!
