//! Upsampling of a reference picture for spatial scalability.
//!
//! A picture of a lower layer predicts one of twice its width, height or both.
//! Planes are stored row by row, without gaps.

use crate::upsample;
use crate::upsample::{far_index, interpolate_four, interpolate_two};
use vstd::prelude::*;

verus! {

/// The samples of a plane by row and column.
pub open spec fn samples(plane: Seq<u8>, width: int) -> spec_fn(int, int) -> int {
    |i: int, j: int| plane[i * width + j] as int
}

/// The samples of row `i` of a plane.
pub open spec fn row(plane: Seq<u8>, width: int, i: int) -> spec_fn(int) -> int {
    |j: int| plane[i * width + j] as int
}

/// The samples of column `j` of a plane.
pub open spec fn column(plane: Seq<u8>, width: int, j: int) -> spec_fn(int) -> int {
    |i: int| plane[i * width + j] as int
}

/// A position in a grid has its place in the rows laid end to end.
pub(crate) proof fn lemma_position(i: int, j: int, width: int, height: int)
    requires
        0 <= i < height,
        0 <= j < width,
    ensures
        0 <= i * width,
        i * width + j < width * height,
        (i + 1) * width <= width * height,
        (i * width + j) / width == i,
        (i * width + j) % width == j,
{
    assert((i + 1) * width <= width * height) by (nonlinear_arith)
        requires
            i + 1 <= height,
            0 <= width,
    ;
    assert((i + 1) * width == i * width + width) by (nonlinear_arith);
    assert(0 <= i * width) by (nonlinear_arith)
        requires
            0 <= i,
            0 <= width,
    ;
    vstd::arithmetic::div_mod::lemma_fundamental_div_mod_converse(i * width + j, width, i, j);
}

/// The sample in row `i` and column `j`.
fn sample(plane: &[u8], width: usize, height: usize, i: usize, j: usize) -> (v: i32)
    requires
        plane@.len() == width * height,
        i < height,
        j < width,
    ensures
        v == samples(plane@, width as int)(i as int, j as int),
        0 <= v <= 255,
{
    assert(plane.len() == plane@.len());
    proof {
        lemma_position(i as int, j as int, width as int, height as int);
    }
    plane[i * width + j] as i32
}

/// Double a plane in both directions.
pub fn upsample_plane_2d(plane: &[u8], width: usize, height: usize) -> (out: Vec<u8>)
    requires
        plane@.len() == width * height,
        width > 0,
        height > 0,
        (2 * width) * (2 * height) <= usize::MAX,
    ensures
        out@.len() == (2 * width) * (2 * height),
        forall|y: int, x: int|
            #![trigger out@[y * (2 * width) + x]]
            0 <= y < 2 * height && 0 <= x < 2 * width ==> out@[y * (2 * width) + x]
                == upsample::grid_position(
                samples(plane@, width as int),
                width as int,
                height as int,
                y,
                x,
            ),
{
    let mut out: Vec<u8> = Vec::new();
    let ghost s = samples(plane@, width as int);
    proof {
        lemma_doubled(width as int, height as int);
    }
    let rows: usize = height * 2;
    let columns: usize = width * 2;
    let mut y: usize = 0;
    while y < rows
        invariant
            width > 0,
            height > 0,
            plane@.len() == width * height,
            s == samples(plane@, width as int),
            rows == 2 * height,
            columns == 2 * width,
            y <= rows,
            out@.len() == y * columns,
            forall|q: int, x: int|
                #![trigger out@[q * columns + x]]
                0 <= q < y && 0 <= x < columns ==> out@[q * columns + x]
                    == upsample::grid_position(s, width as int, height as int, q, x),
        decreases rows - y,
    {
        let i: usize = y / 2;
        let edge_row: bool = y == 0 || y == rows - 1;
        let mut x: usize = 0;
        while x < columns
            invariant
                width > 0,
                height > 0,
                plane@.len() == width * height,
                s == samples(plane@, width as int),
                rows == 2 * height,
                columns == 2 * width,
                y < rows,
                x <= columns,
                i == y / 2,
                edge_row == upsample::outermost(y as int, height as int),
                out@.len() == y * columns + x,
                forall|q: int, c: int|
                    #![trigger out@[q * columns + c]]
                    (0 <= q < y && 0 <= c < columns || q == y && 0 <= c < x) ==> out@[q * columns
                        + c] == upsample::grid_position(s, width as int, height as int, q, c),
            decreases columns - x,
        {
            let j: usize = x / 2;
            let near: i32 = sample(plane, width, height, i, j);
            let edge_column: bool = x == 0 || x == columns - 1;
            let v: i32 = if edge_row && edge_column {
                near
            } else if edge_row {
                let fj: usize = far_index(x, width);
                interpolate_two(near, sample(plane, width, height, i, fj))
            } else if edge_column {
                let fi: usize = far_index(y, height);
                interpolate_two(near, sample(plane, width, height, fi, j))
            } else {
                let fi: usize = far_index(y, height);
                let fj: usize = far_index(x, width);
                interpolate_four(
                    near,
                    sample(plane, width, height, i, fj),
                    sample(plane, width, height, fi, j),
                    sample(plane, width, height, fi, fj),
                )
            };
            let ghost before = out@;
            out.push(v as u8);
            proof {
                assert forall|q: int, c: int|
                    #![trigger out@[q * columns + c]]
                    (0 <= q < y && 0 <= c < columns || q == y && 0 <= c < x + 1) implies out@[q
                    * columns + c] == upsample::grid_position(
                    s,
                    width as int,
                    height as int,
                    q,
                    c,
                ) by {
                    lemma_earlier(q, c, columns as int, y as int);
                    if q < y || c < x {
                        assert(out@[q * columns + c] == before[q * columns + c]);
                    }
                }
            }
            x = x + 1;
        }
        assert((y + 1) * columns == y * columns + columns) by (nonlinear_arith);
        y = y + 1;
    }
    assert(rows * columns == (2 * width) * (2 * height)) by (nonlinear_arith)
        requires
            rows == 2 * height,
            columns == 2 * width,
    ;
    out
}

/// Output position `k` of a line of `n` samples, from the sample nearest to it
/// and, where it is not outermost, the second nearest.
fn interpolated(plane: &[u8], width: usize, height: usize, y: usize, x: usize, across: bool) -> (v:
    u8)
    requires
        plane@.len() == width * height,
        across ==> y < height && x < 2 * width <= usize::MAX,
        !across ==> y < 2 * height <= usize::MAX && x < width,
    ensures
        v == (if across {
            upsample::line_position(row(plane@, width as int, y as int), width as int, x as int)
        } else {
            upsample::line_position(column(plane@, width as int, x as int), height as int, y as int)
        }),
{
    if across {
        let near: i32 = sample(plane, width, height, y, x / 2);
        if x == 0 || x == 2 * width - 1 {
            near as u8
        } else {
            let f: usize = far_index(x, width);
            interpolate_two(near, sample(plane, width, height, y, f)) as u8
        }
    } else {
        let near: i32 = sample(plane, width, height, y / 2, x);
        if y == 0 || y == 2 * height - 1 {
            near as u8
        } else {
            let f: usize = far_index(y, height);
            interpolate_two(near, sample(plane, width, height, f, x)) as u8
        }
    }
}

/// Double a plane in width.
pub fn upsample_plane_1d_horizontal(plane: &[u8], width: usize, height: usize) -> (out: Vec<u8>)
    requires
        plane@.len() == width * height,
        width > 0,
        height > 0,
        (2 * width) * height <= usize::MAX,
    ensures
        out@.len() == (2 * width) * height,
        forall|y: int, x: int|
            #![trigger out@[y * (2 * width) + x]]
            0 <= y < height && 0 <= x < 2 * width ==> out@[y * (2 * width) + x]
                == upsample::line_position(row(plane@, width as int, y), width as int, x),
{
    let mut out: Vec<u8> = Vec::new();
    assert(2 * width <= (2 * width) * height) by (nonlinear_arith)
        requires
            width > 0,
            height > 0,
    ;
    let columns: usize = width * 2;
    let mut y: usize = 0;
    while y < height
        invariant
            width > 0,
            plane@.len() == width * height,
            columns == 2 * width,
            y <= height,
            out@.len() == y * columns,
            forall|q: int, c: int|
                #![trigger out@[q * columns + c]]
                0 <= q < y && 0 <= c < columns ==> out@[q * columns + c]
                    == upsample::line_position(row(plane@, width as int, q), width as int, c),
        decreases height - y,
    {
        let mut x: usize = 0;
        while x < columns
            invariant
                width > 0,
                plane@.len() == width * height,
                columns == 2 * width,
                y < height,
                x <= columns,
                out@.len() == y * columns + x,
                forall|q: int, c: int|
                    #![trigger out@[q * columns + c]]
                    (0 <= q < y && 0 <= c < columns || q == y && 0 <= c < x) ==> out@[q * columns
                        + c] == upsample::line_position(
                        row(plane@, width as int, q),
                        width as int,
                        c,
                    ),
            decreases columns - x,
        {
            let ghost before = out@;
            out.push(interpolated(plane, width, height, y, x, true));
            proof {
                assert forall|q: int, c: int|
                    #![trigger out@[q * columns + c]]
                    (0 <= q < y && 0 <= c < columns || q == y && 0 <= c < x + 1) implies out@[q
                    * columns + c] == upsample::line_position(
                    row(plane@, width as int, q),
                    width as int,
                    c,
                ) by {
                    lemma_earlier(q, c, columns as int, y as int);
                    if q < y || c < x {
                        assert(out@[q * columns + c] == before[q * columns + c]);
                    }
                }
            }
            x = x + 1;
        }
        assert((y + 1) * columns == y * columns + columns) by (nonlinear_arith);
        y = y + 1;
    }
    assert(height * columns == (2 * width) * height) by (nonlinear_arith)
        requires
            columns == 2 * width,
    ;
    out
}

/// Double a plane in height.
pub fn upsample_plane_1d_vertical(plane: &[u8], width: usize, height: usize) -> (out: Vec<u8>)
    requires
        plane@.len() == width * height,
        width > 0,
        height > 0,
        width * (2 * height) <= usize::MAX,
    ensures
        out@.len() == width * (2 * height),
        forall|y: int, x: int|
            #![trigger out@[y * width + x]]
            0 <= y < 2 * height && 0 <= x < width ==> out@[y * width + x]
                == upsample::line_position(column(plane@, width as int, x), height as int, y),
{
    let mut out: Vec<u8> = Vec::new();
    assert(2 * height <= width * (2 * height)) by (nonlinear_arith)
        requires
            width > 0,
            height > 0,
    ;
    let rows: usize = height * 2;
    let mut y: usize = 0;
    while y < rows
        invariant
            height > 0,
            plane@.len() == width * height,
            rows == 2 * height,
            y <= rows,
            out@.len() == y * width,
            forall|q: int, c: int|
                #![trigger out@[q * width + c]]
                0 <= q < y && 0 <= c < width ==> out@[q * width + c] == upsample::line_position(
                    column(plane@, width as int, c),
                    height as int,
                    q,
                ),
        decreases rows - y,
    {
        let mut x: usize = 0;
        while x < width
            invariant
                height > 0,
                plane@.len() == width * height,
                rows == 2 * height,
                y < rows,
                x <= width,
                out@.len() == y * width + x,
                forall|q: int, c: int|
                    #![trigger out@[q * width + c]]
                    (0 <= q < y && 0 <= c < width || q == y && 0 <= c < x) ==> out@[q * width + c]
                        == upsample::line_position(column(plane@, width as int, c), height as int, q),
            decreases width - x,
        {
            let ghost before = out@;
            out.push(interpolated(plane, width, height, y, x, false));
            proof {
                assert forall|q: int, c: int|
                    #![trigger out@[q * width + c]]
                    (0 <= q < y && 0 <= c < width || q == y && 0 <= c < x + 1) implies out@[q * width
                    + c] == upsample::line_position(
                    column(plane@, width as int, c),
                    height as int,
                    q,
                ) by {
                    lemma_earlier(q, c, width as int, y as int);
                    if q < y || c < x {
                        assert(out@[q * width + c] == before[q * width + c]);
                    }
                }
            }
            x = x + 1;
        }
        assert((y + 1) * width == y * width + width) by (nonlinear_arith);
        y = y + 1;
    }
    assert(rows * width == width * (2 * height)) by (nonlinear_arith)
        requires
            rows == 2 * height,
    ;
    out
}

/// Where the position in row `q` and column `c` stands relative to the first
/// `y` rows.
proof fn lemma_earlier(q: int, c: int, columns: int, y: int)
    requires
        0 <= q < y && 0 <= c < columns || q == y && 0 <= c,
        0 <= y,
        0 <= columns,
    ensures
        0 <= q * columns + c,
        q < y ==> q * columns + c < y * columns,
{
    if q < y {
        lemma_position(q, c, columns, y);
        assert(columns * y == y * columns) by (nonlinear_arith);
    } else {
        assert(0 <= y * columns) by (nonlinear_arith)
            requires
                0 <= y,
                0 <= columns,
        ;
    }
}

/// The bounds of a doubled plane.
proof fn lemma_doubled(width: int, height: int)
    requires
        width > 0,
        height > 0,
    ensures
        2 * width <= (2 * width) * (2 * height),
        2 * height <= (2 * width) * (2 * height),
        (2 * width) * height <= (2 * width) * (2 * height),
{
    assert(2 * width <= (2 * width) * (2 * height)) by (nonlinear_arith)
        requires
            width > 0,
            height > 0,
    ;
    assert(2 * height <= (2 * width) * (2 * height)) by (nonlinear_arith)
        requires
            width > 0,
            height > 0,
    ;
    assert((2 * width) * height <= (2 * width) * (2 * height)) by (nonlinear_arith)
        requires
            width > 0,
            height > 0,
    ;
}

} // verus!
