//! Residual computation and correction for one pyramid level.
//!
//! One relaxation iteration is three passes over a level's grids:
//! a divergence pass writing the scaled divergence error of the red (or
//! black) cells into the divergence residual grid, a curl pass writing the
//! curl error of every interior 2x2 diagonal into the curl residual grid,
//! and a correction pass adding a quarter of the accumulated residual
//! stencil to every field cell. The residual grids are the only targets of
//! the first two passes and the field is the only target of the third, so
//! every read within a pass sees the state as it stood when the pass began.

use vstd::prelude::*;
use crate::fixed::{clamp, clamp_mag, div_trunc, tdiv};
use crate::grid::{
    FieldVec, ScalarGrid, VecGrid, lemma_flat_decompose, lemma_flat_index,
};

verus! {

/// Numerator of the over-relaxation multiplier applied to the divergence
/// residual (and to it alone): three halves trades some stability margin
/// for visibly faster convergence while staying well inside the stable
/// range.
pub const OVER_RELAX_NUM: i64 = 3;

/// Denominator of the over-relaxation multiplier.
pub const OVER_RELAX_DEN: u32 = 2;

/// Raw divergence error of cell `(x, y)`: flow out through the right and
/// bottom edges minus flow in through the left and top edges, minus the
/// cell's charge target.
pub open spec fn div_raw(charge: &ScalarGrid, field: &VecGrid, x: int, y: int) -> int {
    field.at(x + 1, y).x + field.at(x, y + 1).y - field.at(x, y).x - field.at(x, y).y - charge.at(
        x,
        y,
    )
}

/// What the divergence pass stores at `(x, y)`: the over-relaxed error on
/// cells of the active red-black parity, zero on the others.
pub open spec fn div_value(
    charge: &ScalarGrid,
    field: &VecGrid,
    parity: int,
    x: int,
    y: int,
) -> int {
    if (x + y) % 2 == parity {
        clamp_mag(tdiv(div_raw(charge, field, x, y) * OVER_RELAX_NUM as int, OVER_RELAX_DEN as int))
    } else {
        0
    }
}

/// `div_value` by flat row-major index.
pub open spec fn flat_div_value(
    charge: &ScalarGrid,
    field: &VecGrid,
    parity: int,
    j: int,
) -> int {
    div_value(charge, field, parity, j % charge.size(), j / charge.size())
}

/// Raw curl error of the 2x2 diagonal whose top-left cell is `(x, y)`:
/// the signed circulation around the loop through the four edges meeting
/// at corner `(x + 1, y + 1)`, minus the diagonal's magnet target.
pub open spec fn curl_raw(magnet: &ScalarGrid, field: &VecGrid, x: int, y: int) -> int {
    field.at(x + 1, y).x + field.at(x + 1, y + 1).y - field.at(x + 1, y + 1).x - field.at(
        x,
        y + 1,
    ).y - magnet.at(x, y)
}

/// What the curl pass stores at `(x, y)`.
pub open spec fn curl_value(magnet: &ScalarGrid, field: &VecGrid, x: int, y: int) -> int {
    clamp_mag(curl_raw(magnet, field, x, y))
}

/// `curl_value` by flat row-major index over the interior grid.
pub open spec fn flat_curl_value(magnet: &ScalarGrid, field: &VecGrid, j: int) -> int {
    curl_value(magnet, field, j % (magnet.size() - 1), j / (magnet.size() - 1))
}

/// Horizontal correction for the field cell `(x, y)`: its own divergence
/// residual, less the left neighbour's, plus the upper-left diagonal's curl
/// residual, less the left diagonal's. Terms past a residual grid's edge
/// are skipped.
pub open spec fn delta_x(div: &ScalarGrid, curl: &ScalarGrid, x: int, y: int) -> int {
    div.at0(x, y) - div.at0(x - 1, y) + curl.at0(x - 1, y - 1) - curl.at0(x - 1, y)
}

/// Vertical correction for the field cell `(x, y)`: its own divergence
/// residual, less the top neighbour's, less the upper-left diagonal's curl
/// residual, plus the upper diagonal's. Terms past a residual grid's edge
/// are skipped.
pub open spec fn delta_y(div: &ScalarGrid, curl: &ScalarGrid, x: int, y: int) -> int {
    div.at0(x, y) - div.at0(x, y - 1) - curl.at0(x - 1, y - 1) + curl.at0(x, y - 1)
}

/// What the correction pass leaves in field cell `(x, y)`: the old cell
/// plus a quarter of each correction, saturated.
pub open spec fn corrected_cell(
    div: &ScalarGrid,
    curl: &ScalarGrid,
    cell: FieldVec,
    x: int,
    y: int,
) -> FieldVec {
    FieldVec {
        x: clamp_mag(cell.x + tdiv(delta_x(div, curl, x, y), 4)) as i64,
        y: clamp_mag(cell.y + tdiv(delta_y(div, curl, x, y), 4)) as i64,
    }
}

/// Compute the divergence residual of every cell of one level.
pub fn divergence_pass(charge: &ScalarGrid, field: &VecGrid, div: &mut ScalarGrid, parity: u32)
    requires
        charge.wf(),
        field.wf(),
        old(div).wf(),
        field.size() == charge.size() + 1,
        old(div).size() == charge.size(),
        parity <= 1,
    ensures
        final(div).wf(),
        final(div).size() == old(div).size(),
        forall|x: int, y: int|
            0 <= x < charge.size() && 0 <= y < charge.size() ==> final(div).at(x, y) == div_value(
                charge,
                field,
                parity as int,
                x,
                y,
            ),
{
    let s = charge.dim();
    let mut y: usize = 0;
    let mut i: usize = 0;
    while y < s
        invariant
            y <= s,
            i as int == y as int * s as int,
            div.wf(),
            div.size() == charge.size(),
            forall|j: int|
                0 <= j < i as int ==> #[trigger] div@[j] as int == flat_div_value(
                    charge,
                    field,
                    parity as int,
                    j,
                ),
        decreases s - y,
    {
        let mut x: usize = 0;
        while x < s
            invariant
                x <= s,
                y < s,
                i as int == y as int * s as int + x as int,
                div.wf(),
                div.size() == charge.size(),
                forall|j: int|
                    0 <= j < i as int ==> #[trigger] div@[j] as int == flat_div_value(
                        charge,
                        field,
                        parity as int,
                        j,
                    ),
            decreases s - x,
        {
            proof {
                lemma_flat_index(s as int, x as int, y as int);
                lemma_flat_decompose(s as int, x as int, y as int);
            }
            let fr = field.get(x + 1, y);
            let fd = field.get(x, y + 1);
            let f0 = field.get(x, y);
            let c = charge.get(x, y);
            let e: i64 = fr.x + fd.y - f0.x - f0.y - c;
            let v: i64 = if (x + y) % 2 == parity as usize {
                clamp(div_trunc(e * OVER_RELAX_NUM, OVER_RELAX_DEN))
            } else {
                0
            };
            div.set(x, y, v);
            i += 1;
            x += 1;
        }
        proof {
            assert((y as int + 1) * s as int == y as int * s as int + s as int) by (nonlinear_arith);
        }
        y += 1;
    }
    proof {
        assert forall|xx: int, yy: int|
            0 <= xx < charge.size() && 0 <= yy < charge.size() implies final(div).at(xx, yy)
            == div_value(charge, field, parity as int, xx, yy) by {
            lemma_flat_index(s as int, xx, yy);
            lemma_flat_decompose(s as int, xx, yy);
        }
    }
}

/// Compute the curl residual of every interior diagonal of one level.
pub fn curl_pass(magnet: &ScalarGrid, field: &VecGrid, curl: &mut ScalarGrid)
    requires
        magnet.wf(),
        field.wf(),
        old(curl).wf(),
        magnet.size() >= 1,
        field.size() == magnet.size() + 1,
        old(curl).size() == magnet.size() - 1,
    ensures
        final(curl).wf(),
        final(curl).size() == old(curl).size(),
        forall|x: int, y: int|
            0 <= x < magnet.size() - 1 && 0 <= y < magnet.size() - 1 ==> final(curl).at(x, y)
                == curl_value(magnet, field, x, y),
{
    let cs = curl.dim();
    let mut y: usize = 0;
    let mut i: usize = 0;
    while y < cs
        invariant
            y <= cs,
            i as int == y as int * cs as int,
            curl.wf(),
            curl.size() == magnet.size() - 1,
            forall|j: int|
                0 <= j < i as int ==> #[trigger] curl@[j] as int == flat_curl_value(
                    magnet,
                    field,
                    j,
                ),
        decreases cs - y,
    {
        let mut x: usize = 0;
        while x < cs
            invariant
                x <= cs,
                y < cs,
                i as int == y as int * cs as int + x as int,
                curl.wf(),
                curl.size() == magnet.size() - 1,
                forall|j: int|
                    0 <= j < i as int ==> #[trigger] curl@[j] as int == flat_curl_value(
                        magnet,
                        field,
                        j,
                    ),
            decreases cs - x,
        {
            proof {
                lemma_flat_index(cs as int, x as int, y as int);
                lemma_flat_decompose(cs as int, x as int, y as int);
            }
            let fr = field.get(x + 1, y);
            let fc = field.get(x + 1, y + 1);
            let fu = field.get(x, y + 1);
            let m = magnet.get(x, y);
            let e: i64 = fr.x + fc.y - fc.x - fu.y - m;
            let v = clamp(e);
            curl.set(x, y, v);
            i += 1;
            x += 1;
        }
        proof {
            assert((y as int + 1) * cs as int == y as int * cs as int + cs as int)
                by (nonlinear_arith);
        }
        y += 1;
    }
    proof {
        assert forall|xx: int, yy: int|
            0 <= xx < magnet.size() - 1 && 0 <= yy < magnet.size() - 1 implies final(curl).at(
            xx,
            yy,
        ) == curl_value(magnet, field, xx, yy) by {
            lemma_flat_index(cs as int, xx, yy);
            lemma_flat_decompose(cs as int, xx, yy);
        }
    }
}

/// `corrected_cell` by flat row-major index over the field grid.
pub open spec fn flat_corrected_cell(
    div: &ScalarGrid,
    curl: &ScalarGrid,
    fieldview: Seq<FieldVec>,
    fieldsize: int,
    j: int,
) -> FieldVec {
    corrected_cell(div, curl, fieldview[j], j % fieldsize, j / fieldsize)
}

/// Add a quarter of the residual stencil to every field cell of one level,
/// boundary edges included.
pub fn apply_pass(div: &ScalarGrid, curl: &ScalarGrid, field: &mut VecGrid)
    requires
        div.wf(),
        curl.wf(),
        old(field).wf(),
        div.size() >= 1,
        old(field).size() == div.size() + 1,
        curl.size() == div.size() - 1,
    ensures
        final(field).wf(),
        final(field).size() == old(field).size(),
        forall|x: int, y: int|
            0 <= x < old(field).size() && 0 <= y < old(field).size() ==> final(field).at(x, y)
                == corrected_cell(div, curl, old(field).at(x, y), x, y),
{
    let fs = field.dim();
    let mut y: usize = 0;
    let mut i: usize = 0;
    while y < fs
        invariant
            y <= fs,
            i as int == y as int * fs as int,
            field.wf(),
            field.size() == div.size() + 1,
            forall|j: int|
                0 <= j < i as int ==> #[trigger] field@[j] == flat_corrected_cell(
                    div,
                    curl,
                    old(field)@,
                    fs as int,
                    j,
                ),
            forall|j: int| i as int <= j < field@.len() ==> #[trigger] field@[j] == old(field)@[j],
        decreases fs - y,
    {
        let mut x: usize = 0;
        while x < fs
            invariant
                x <= fs,
                y < fs,
                i as int == y as int * fs as int + x as int,
                field.wf(),
                field.size() == div.size() + 1,
                forall|j: int|
                    0 <= j < i as int ==> #[trigger] field@[j] == flat_corrected_cell(
                        div,
                        curl,
                        old(field)@,
                        fs as int,
                        j,
                    ),
                forall|j: int|
                    i as int <= j < field@.len() ==> #[trigger] field@[j] == old(field)@[j],
            decreases fs - x,
        {
            proof {
                lemma_flat_index(fs as int, x as int, y as int);
                lemma_flat_decompose(fs as int, x as int, y as int);
            }
            let cell = field.get(x, y);
            let mut dx: i64 = div.read0(x, y);
            let mut dy: i64 = dx;
            if x >= 1 {
                dx = dx - div.read0(x - 1, y);
            }
            if y >= 1 {
                dy = dy - div.read0(x, y - 1);
            }
            if x >= 1 && y >= 1 {
                let c = curl.read0(x - 1, y - 1);
                dx = dx + c;
                dy = dy - c;
            }
            if x >= 1 {
                dx = dx - curl.read0(x - 1, y);
            }
            if y >= 1 {
                dy = dy + curl.read0(x, y - 1);
            }
            let vx = clamp(cell.x + div_trunc(dx, 4));
            let vy = clamp(cell.y + div_trunc(dy, 4));
            field.set(x, y, FieldVec { x: vx, y: vy });
            i += 1;
            x += 1;
        }
        proof {
            assert((y as int + 1) * fs as int == y as int * fs as int + fs as int)
                by (nonlinear_arith);
        }
        y += 1;
    }
    proof {
        assert forall|xx: int, yy: int|
            0 <= xx < old(field).size() && 0 <= yy < old(field).size() implies final(field).at(
            xx,
            yy,
        ) == corrected_cell(div, curl, old(field).at(xx, yy), xx, yy) by {
            lemma_flat_index(fs as int, xx, yy);
            lemma_flat_decompose(fs as int, xx, yy);
        }
    }
}

} // verus!
