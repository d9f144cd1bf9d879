//! Laws of the inverse transform and of reconstruction.

use crate::residual;
use vstd::prelude::*;

verus! {

/// The cosine transform in numbers: row `u` holds the eight samples of half the
/// cosine of `u` half periods, times two to the power of twenty; the first row
/// is divided by the root of two.
pub open spec fn matrix() -> Seq<Seq<int>> {
    seq![
        seq![370728int, 370728, 370728, 370728, 370728, 370728, 370728, 370728],
        seq![514214int, 435930, 291279, 102284, -102284, -291279, -435930, -514214],
        seq![484379int, 200636, -200636, -484379, -484379, -200636, 200636, 484379],
        seq![435930int, -102284, -514214, -291279, 291279, 514214, 102284, -435930],
        seq![370728int, -370728, -370728, 370728, 370728, -370728, -370728, 370728],
        seq![291279int, -514214, 102284, 435930, -435930, -102284, 514214, -291279],
        seq![200636int, -484379, 484379, -200636, -200636, 484379, -484379, 200636],
        seq![102284int, -291279, 435930, -514214, 514214, -435930, 291279, -102284],
    ]
}

/// The first `k` coefficients, each with its weight at column `x` and row `y`.
pub open spec fn weighted(c: Seq<int>, x: int, y: int, k: int) -> int
    decreases k,
{
    if k <= 0 {
        0
    } else {
        weighted(c, x, y, k - 1) + matrix()[(k - 1) / 8][y] * matrix()[(k - 1) % 8][x] * c[k - 1]
    }
}

/// The numbers of the transform are those that it computes with.
#[verifier::spinoff_prover]
#[verifier::rlimit(40)]
pub(crate) proof fn lemma_matrix()
    ensures
        forall|u: int, x: int|
            0 <= u < 8 && 0 <= x < 8 ==> #[trigger] residual::basis(u, x) == matrix()[u][x],
{
    assert(residual::basis(0, 0) == 370728);
    assert(residual::basis(0, 1) == 370728);
    assert(residual::basis(0, 2) == 370728);
    assert(residual::basis(0, 3) == 370728);
    assert(residual::basis(0, 4) == 370728);
    assert(residual::basis(0, 5) == 370728);
    assert(residual::basis(0, 6) == 370728);
    assert(residual::basis(0, 7) == 370728);
    assert(residual::basis(1, 0) == 514214);
    assert(residual::basis(1, 1) == 435930);
    assert(residual::basis(1, 2) == 291279);
    assert(residual::basis(1, 3) == 102284);
    assert(residual::basis(1, 4) == -102284);
    assert(residual::basis(1, 5) == -291279);
    assert(residual::basis(1, 6) == -435930);
    assert(residual::basis(1, 7) == -514214);
    assert(residual::basis(2, 0) == 484379);
    assert(residual::basis(2, 1) == 200636);
    assert(residual::basis(2, 2) == -200636);
    assert(residual::basis(2, 3) == -484379);
    assert(residual::basis(2, 4) == -484379);
    assert(residual::basis(2, 5) == -200636);
    assert(residual::basis(2, 6) == 200636);
    assert(residual::basis(2, 7) == 484379);
    assert(residual::basis(3, 0) == 435930);
    assert(residual::basis(3, 1) == -102284);
    assert(residual::basis(3, 2) == -514214);
    assert(residual::basis(3, 3) == -291279);
    assert(residual::basis(3, 4) == 291279);
    assert(residual::basis(3, 5) == 514214);
    assert(residual::basis(3, 6) == 102284);
    assert(residual::basis(3, 7) == -435930);
    assert(residual::basis(4, 0) == 370728);
    assert(residual::basis(4, 1) == -370728);
    assert(residual::basis(4, 2) == -370728);
    assert(residual::basis(4, 3) == 370728);
    assert(residual::basis(4, 4) == 370728);
    assert(residual::basis(4, 5) == -370728);
    assert(residual::basis(4, 6) == -370728);
    assert(residual::basis(4, 7) == 370728);
    assert(residual::basis(5, 0) == 291279);
    assert(residual::basis(5, 1) == -514214);
    assert(residual::basis(5, 2) == 102284);
    assert(residual::basis(5, 3) == 435930);
    assert(residual::basis(5, 4) == -435930);
    assert(residual::basis(5, 5) == -102284);
    assert(residual::basis(5, 6) == 514214);
    assert(residual::basis(5, 7) == -291279);
    assert(residual::basis(6, 0) == 200636);
    assert(residual::basis(6, 1) == -484379);
    assert(residual::basis(6, 2) == 484379);
    assert(residual::basis(6, 3) == -200636);
    assert(residual::basis(6, 4) == -200636);
    assert(residual::basis(6, 5) == 484379);
    assert(residual::basis(6, 6) == -484379);
    assert(residual::basis(6, 7) == 200636);
    assert(residual::basis(7, 0) == 102284);
    assert(residual::basis(7, 1) == -291279);
    assert(residual::basis(7, 2) == 435930);
    assert(residual::basis(7, 3) == -514214);
    assert(residual::basis(7, 4) == 514214);
    assert(residual::basis(7, 5) == -435930);
    assert(residual::basis(7, 6) == 291279);
    assert(residual::basis(7, 7) == -102284);
    assert forall|u: int, x: int| 0 <= u < 8 && 0 <= x < 8 implies #[trigger] residual::basis(u, x)
        == matrix()[u][x] by {
        assert(u == 0 || u == 1 || u == 2 || u == 3 || u == 4 || u == 5 || u == 6 || u == 7);
        assert(x == 0 || x == 1 || x == 2 || x == 3 || x == 4 || x == 5 || x == 6 || x == 7);
    }
}

/// One row of coefficients adds its weighted sum.
proof fn lemma_row(c: Seq<int>, x: int, y: int, v: int, n: int)
    requires
        0 <= x < 8,
        0 <= y < 8,
        0 <= v < 8,
        0 <= n <= 8,
    ensures
        weighted(c, x, y, 8 * v + n) == weighted(c, x, y, 8 * v) + residual::basis(v, y)
            * residual::row_sum(c, v, x, n),
    decreases n,
{
    let b = residual::basis(v, y);
    if n > 0 {
        lemma_row(c, x, y, v, n - 1);
        lemma_matrix();
        let k = 8 * v + n;
        assert((k - 1) / 8 == v && (k - 1) % 8 == n - 1);
        let w = residual::basis(n - 1, x);
        let before = residual::row_sum(c, v, x, n - 1);
        let f = c[k - 1];
        assert(b * (before + w * f) == b * before + b * w * f) by (nonlinear_arith);
    } else {
        assert(b * 0 == 0) by (nonlinear_arith);
    }
}

/// All rows together.
proof fn lemma_rows(c: Seq<int>, x: int, y: int, n: int)
    requires
        0 <= x < 8,
        0 <= y < 8,
        0 <= n <= 8,
    ensures
        weighted(c, x, y, 8 * n) == residual::column_sum(c, x, y, n),
    decreases n,
{
    if n > 0 {
        lemma_rows(c, x, y, n - 1);
        lemma_row(c, x, y, n - 1, 8);
    }
}

/// The inverse transform is the inverse cosine transform: a sample is the number
/// nearest to the sum of all coefficients, each times the cosine that its column
/// has at `x` and the cosine that its row has at `y`, and is kept between -256
/// and 255.
pub proof fn samples_are_sums_of_cosines(c: Seq<int>, x: int, y: int)
    requires
        0 <= x < 8,
        0 <= y < 8,
    ensures
        ({
            let s = residual::inverse_transform(c)[8 * y + x];
            let t = weighted(c, x, y, 64);
            &&& -256 <= s <= 255
            &&& -256 < s < 255 ==> -0x80_0000_0000 <= t - 0x100_0000_0000 * s < 0x80_0000_0000
            &&& s == 255 ==> t >= 0x100_0000_0000 * 255 - 0x80_0000_0000
            &&& s == -256 ==> t < 0x100_0000_0000 * -256 + 0x80_0000_0000
        }),
{
    lemma_rows(c, x, y, 8);
    assert((8 * y + x) % 8 == x && (8 * y + x) / 8 == y);
}

/// The basis functions are orthogonal to each other and of the same length, but
/// for the rounding of their samples.
#[verifier::spinoff_prover]
pub proof fn basis_functions_are_orthonormal(u: int, w: int)
    requires
        0 <= u < 8,
        0 <= w < 8,
    ensures
        ({
            let m = matrix();
            let product = m[u][0] * m[w][0] + m[u][1] * m[w][1] + m[u][2] * m[w][2] + m[u][3]
                * m[w][3] + m[u][4] * m[w][4] + m[u][5] * m[w][5] + m[u][6] * m[w][6] + m[u][7]
                * m[w][7];
            if u == w {
                0xff_ffc0_0000 <= product <= 0x100_0040_0000
            } else {
                -0x40_0000 <= product <= 0x40_0000
            }
        }),
{
    assert(u == 0 || u == 1 || u == 2 || u == 3 || u == 4 || u == 5 || u == 6 || u == 7);
    assert(w == 0 || w == 1 || w == 2 || w == 3 || w == 4 || w == 5 || w == 6 || w == 7);
}

/// The samples of the basis functions are cosines of multiples of one angle: two
/// neighbouring ones add up to twice the product of the one between them and the
/// first, and the one behind the last would vanish.
#[verifier::spinoff_prover]
pub proof fn basis_functions_are_cosines(u: int, x: int)
    requires
        1 <= u < 8,
        0 <= x < 8,
    ensures
        ({
            let m = matrix();
            let before = if u == 1 {
                524288
            } else {
                m[u - 1][x]
            };
            let behind = if u == 7 {
                0
            } else {
                m[u + 1][x]
            };
            -0x10_0000 <= 524288 * (before + behind) - 2 * m[1][x] * m[u][x] <= 0x10_0000
        }),
        x < 7 ==> matrix()[1][x] > matrix()[1][x + 1],
{
    assert(u == 1 || u == 2 || u == 3 || u == 4 || u == 5 || u == 6 || u == 7);
    assert(x == 0 || x == 1 || x == 2 || x == 3 || x == 4 || x == 5 || x == 6 || x == 7);
}

/// The first `n` numbers of row `v` of a table.
spec fn line(f: spec_fn(int, int) -> int, v: int, n: int) -> int
    decreases n,
{
    if n <= 0 {
        0
    } else {
        line(f, v, n - 1) + f(v, n - 1)
    }
}

/// The first `n` numbers of the first `m` rows of a table.
spec fn table(f: spec_fn(int, int) -> int, m: int, n: int) -> int
    decreases m,
{
    if m <= 0 {
        0
    } else {
        table(f, m - 1, n) + line(f, m - 1, n)
    }
}

/// A table has the same sum by rows and by columns: one more column.
proof fn lemma_column(f: spec_fn(int, int) -> int, g: spec_fn(int, int) -> int, m: int, n: int)
    requires
        0 <= m,
        0 < n,
        forall|i: int, j: int| #[trigger] f(i, j) == g(j, i),
    ensures
        table(f, m, n) == table(f, m, n - 1) + line(g, n - 1, m),
    decreases m,
{
    if m > 0 {
        lemma_column(f, g, m - 1, n);
        assert(f(m - 1, n - 1) == g(n - 1, m - 1));
    }
}

/// A table has the same sum by rows and by columns.
proof fn lemma_exchanged(f: spec_fn(int, int) -> int, g: spec_fn(int, int) -> int, m: int, n: int)
    requires
        0 <= m,
        0 <= n,
        forall|i: int, j: int| #[trigger] f(i, j) == g(j, i),
    ensures
        table(f, m, n) == table(g, n, m),
    decreases n,
{
    if n > 0 {
        lemma_column(f, g, m, n);
        lemma_exchanged(f, g, m, n - 1);
    } else {
        lemma_empty(f, m);
    }
}

/// A table without columns has no sum.
proof fn lemma_empty(f: spec_fn(int, int) -> int, m: int)
    ensures
        table(f, m, 0) == 0,
    decreases m,
{
    if m > 0 {
        lemma_empty(f, m - 1);
    }
}

/// The weighted coefficients at column `x` and row `y`, as a table.
spec fn terms(c: Seq<int>, x: int, y: int) -> spec_fn(int, int) -> int {
    |v: int, u: int| residual::basis(v, y) * (residual::basis(u, x) * c[8 * v + u])
}

/// A row of the table of weighted coefficients.
proof fn lemma_line(c: Seq<int>, x: int, y: int, v: int, n: int)
    ensures
        line(terms(c, x, y), v, n) == residual::basis(v, y) * residual::row_sum(c, v, x, n),
    decreases n,
{
    let b = residual::basis(v, y);
    if n > 0 {
        lemma_line(c, x, y, v, n - 1);
        let before = residual::row_sum(c, v, x, n - 1);
        let t = residual::basis(n - 1, x) * c[8 * v + n - 1];
        assert(c[8 * v + (n - 1)] == c[8 * v + n - 1]);
        assert(b * (before + t) == b * before + b * t) by (nonlinear_arith);
    } else {
        assert(b * 0 == 0) by (nonlinear_arith);
    }
}

/// Exchanging rows and columns of the coefficients exchanges rows and columns of
/// the samples.
pub proof fn transposing_coefficients_transposes_samples(
    c: Seq<int>,
    d: Seq<int>,
    x: int,
    y: int,
)
    requires
        0 <= x < 8,
        0 <= y < 8,
        forall|i: int, j: int|
            0 <= i < 8 && 0 <= j < 8 ==> #[trigger] d[8 * i + j] == c[8 * j + i],
    ensures
        residual::inverse_transform(d)[8 * y + x] == residual::inverse_transform(c)[8 * x + y],
{
    let e = Seq::new(64, |k: int| c[8 * (k % 8) + k / 8]);
    lemma_same_sums(d, e, x, y, 8);
    let f = terms_inside(e, x, y);
    let g = terms_inside(c, y, x);
    assert forall|i: int, j: int| #[trigger] f(i, j) == g(j, i) by {
        if 0 <= i < 8 && 0 <= j < 8 {
            assert((8 * i + j) % 8 == j && (8 * i + j) / 8 == i);
            let p = residual::basis(i, y);
            let q = residual::basis(j, x);
            let t = c[8 * j + i];
            assert(p * (q * t) == q * (p * t)) by (nonlinear_arith);
        }
    }
    lemma_exchanged(f, g, 8, 8);
    lemma_inside(e, x, y, 8);
    lemma_inside(c, y, x, 8);
    assert((8 * y + x) % 8 == x && (8 * y + x) / 8 == y);
    assert((8 * x + y) % 8 == y && (8 * x + y) / 8 == x);
}

/// The weighted coefficients of a block, and nothing outside it.
spec fn terms_inside(c: Seq<int>, x: int, y: int) -> spec_fn(int, int) -> int {
    |v: int, u: int|
        if 0 <= v < 8 && 0 <= u < 8 {
            residual::basis(v, y) * (residual::basis(u, x) * c[8 * v + u])
        } else {
            0
        }
}

/// A row inside a block.
proof fn lemma_line_inside(c: Seq<int>, x: int, y: int, v: int, n: int)
    requires
        0 <= v < 8,
        n <= 8,
    ensures
        line(terms_inside(c, x, y), v, n) == line(terms(c, x, y), v, n),
    decreases n,
{
    if n > 0 {
        lemma_line_inside(c, x, y, v, n - 1);
    }
}

/// The table of a block.
proof fn lemma_inside(c: Seq<int>, x: int, y: int, n: int)
    requires
        n <= 8,
    ensures
        table(terms_inside(c, x, y), n, 8) == residual::column_sum(c, x, y, n),
    decreases n,
{
    if n > 0 {
        lemma_inside(c, x, y, n - 1);
        lemma_line_inside(c, x, y, n - 1, 8);
        lemma_line(c, x, y, n - 1, 8);
    }
}

/// Equal coefficients have equal sums: a row.
proof fn lemma_same_row(c: Seq<int>, d: Seq<int>, x: int, v: int, n: int)
    requires
        0 <= v < 8,
        n <= 8,
        forall|k: int| 0 <= k < 64 ==> #[trigger] c[k] == d[k],
    ensures
        residual::row_sum(c, v, x, n) == residual::row_sum(d, v, x, n),
    decreases n,
{
    if n > 0 {
        lemma_same_row(c, d, x, v, n - 1);
        assert(c[8 * v + n - 1] == d[8 * v + n - 1]);
    }
}

/// Coefficients that are a block's with rows and columns exchanged have the sums
/// of that block.
proof fn lemma_same_sums(d: Seq<int>, e: Seq<int>, x: int, y: int, n: int)
    requires
        n <= 8,
        e.len() == 64,
        forall|i: int, j: int|
            0 <= i < 8 && 0 <= j < 8 ==> #[trigger] d[8 * i + j] == e[8 * i + j],
    ensures
        residual::column_sum(d, x, y, n) == residual::column_sum(e, x, y, n),
    decreases n,
{
    if n > 0 {
        lemma_same_sums(d, e, x, y, n - 1);
        assert forall|k: int| 0 <= k < 64 implies #[trigger] d[k] == e[k] by {
            assert(d[8 * (k / 8) + k % 8] == e[8 * (k / 8) + k % 8]);
        }
        lemma_same_row(d, e, x, n - 1, 8);
    }
}

/// A row with one coefficient at most.
proof fn lemma_single_row(c: Seq<int>, p: int, x: int, v: int, n: int)
    requires
        0 <= p < 64,
        0 <= v < 8,
        n <= 8,
        forall|k: int| 0 <= k < 64 && k != p ==> #[trigger] c[k] == 0,
    ensures
        residual::row_sum(c, v, x, n) == if v == p / 8 && p % 8 < n {
            residual::basis(p % 8, x) * c[p]
        } else {
            0
        },
    decreases n,
{
    if n > 0 {
        lemma_single_row(c, p, x, v, n - 1);
        let b = residual::basis(n - 1, x);
        assert(b * 0 == 0) by (nonlinear_arith);
        if 8 * v + n - 1 == p {
            assert(p % 8 == n - 1 && p / 8 == v);
        } else {
            assert(c[8 * v + n - 1] == 0);
        }
    }
}

/// A block with one coefficient at most.
pub(crate) proof fn lemma_single(c: Seq<int>, p: int, x: int, y: int, n: int)
    requires
        0 <= p < 64,
        n <= 8,
        forall|k: int| 0 <= k < 64 && k != p ==> #[trigger] c[k] == 0,
    ensures
        residual::column_sum(c, x, y, n) == if p / 8 < n {
            residual::basis(p / 8, y) * (residual::basis(p % 8, x) * c[p])
        } else {
            0
        },
    decreases n,
{
    if n > 0 {
        lemma_single(c, p, x, y, n - 1);
        lemma_single_row(c, p, x, n - 1, 8);
        let b = residual::basis(n - 1, y);
        assert(b * 0 == 0) by (nonlinear_arith);
    }
}

/// A block whose only coefficient is a positive first vertical frequency never
/// gets brighter from a row to a lower one, and is the same all along a row.
pub proof fn vertical_frequency_fades_downwards(c: Seq<int>, x: int, y: int, lower: int)
    requires
        c[8] >= 0,
        forall|k: int| 0 <= k < 64 && k != 8 ==> #[trigger] c[k] == 0,
        0 <= x < 8,
        0 <= y <= lower < 8,
    ensures
        residual::inverse_transform(c)[8 * y + x] >= residual::inverse_transform(c)[8 * lower + x],
        residual::inverse_transform(c)[8 * y + x] == residual::inverse_transform(c)[8 * y],
        c[8] >= 8 && y < 4 ==> residual::inverse_transform(c)[y * 8 + x] >= 0,
        c[8] >= 8 && y == 0 ==> residual::inverse_transform(c)[x] > 0,
{
    lemma_matrix();
    lemma_single(c, 8, x, y, 8);
    lemma_single(c, 8, 0, y, 8);
    lemma_single(c, 8, x, lower, 8);
    let t = 370728 * c[8];
    let high = matrix()[1][y];
    let low = matrix()[1][lower];
    assert(residual::basis(0, x) == 370728 && residual::basis(0, 0) == 370728);
    assert(residual::basis(1, y) == high && residual::basis(1, lower) == low);
    assert(y == 0 || y == 1 || y == 2 || y == 3 || y == 4 || y == 5 || y == 6 || y == 7);
    assert(lower == 0 || lower == 1 || lower == 2 || lower == 3 || lower == 4 || lower == 5
        || lower == 6 || lower == 7);
    assert(high >= low);
    assert(high * t >= low * t) by (nonlinear_arith)
        requires
            high >= low,
            t >= 0,
    ;
    assert((8 * y + x) % 8 == x && (8 * y + x) / 8 == y);
    assert((8 * lower + x) % 8 == x && (8 * lower + x) / 8 == lower);
    assert((8 * y) % 8 == 0 && (8 * y) / 8 == y);
}

/// A block whose only coefficient is a positive first horizontal frequency never
/// gets brighter from a column to one further right, and is the same all along a
/// column.
pub proof fn horizontal_frequency_fades_to_the_right(c: Seq<int>, x: int, y: int, further: int)
    requires
        c[1] >= 0,
        forall|k: int| 0 <= k < 64 && k != 1 ==> #[trigger] c[k] == 0,
        0 <= x <= further < 8,
        0 <= y < 8,
    ensures
        residual::inverse_transform(c)[8 * y + x] >= residual::inverse_transform(c)[8 * y
            + further],
        residual::inverse_transform(c)[8 * y + x] == residual::inverse_transform(c)[x],
        c[1] >= 8 && x == 0 ==> residual::inverse_transform(c)[8 * y] > 0,
{
    let d = Seq::new(64, |k: int| c[8 * (k % 8) + k / 8]);
    assert forall|i: int, j: int| 0 <= i < 8 && 0 <= j < 8 implies #[trigger] c[8 * i + j] == d[8
        * j + i] by {
        assert((8 * j + i) % 8 == i && (8 * j + i) / 8 == j);
    }
    assert forall|k: int| 0 <= k < 64 && k != 8 implies #[trigger] d[k] == 0 by {
        let p = 8 * (k % 8) + k / 8;
        assert(p != 1);
        assert(c[p] == 0);
    }
    assert(d[8] == c[1]);
    vertical_frequency_fades_downwards(d, y, x, further);
    vertical_frequency_fades_downwards(d, 0, x, further);
    transposing_coefficients_transposes_samples(d, c, x, y);
    transposing_coefficients_transposes_samples(d, c, further, y);
    transposing_coefficients_transposes_samples(d, c, x, 0);
}

/// A block whose only coefficient is the first has that coefficient's eighth,
/// rounded, in every sample.
pub proof fn first_coefficients_are_eight_times_the_mean(c: Seq<int>, k: int)
    requires
        -2048 <= c[0] <= 2047,
        forall|i: int| 0 < i < 64 ==> #[trigger] c[i] == 0,
        0 <= k < 64,
    ensures
        -4 <= 8 * residual::inverse_transform(c)[k] - c[0] <= 4 || c[0] >= 2044,
{
    lemma_matrix();
    lemma_single(c, 0, k % 8, k / 8, 8);
    assert(residual::basis(0, k % 8) == 370728 && residual::basis(0, k / 8) == 370728);
}

/// A coefficient stands for its level times twice the quantiser, half a step
/// further from zero, and is odd: the sign is the level's, no level is no
/// coefficient, and what leaves the range of coefficients is kept at its end.
pub proof fn coefficients_lie_in_the_middle_of_their_steps(level: int, quant: int)
    requires
        1 <= quant <= 31,
    ensures
        ({
            let r = residual::dequantised(level, quant);
            let far = quant * (2 * level + 1);
            let back = quant * (2 * level - 1);
            &&& level == 0 ==> r == 0
            &&& level > 0 ==> 0 < r && (r == 2047 && far >= 2047 || r % 2 == 1 && far - 1 <= r
                <= far)
            &&& level < 0 ==> r < 0 && (r == -2048 && back <= -2048 || r % 2 == 1 && back <= r
                <= back + 1)
        }),
        -2048 <= residual::dequantised(level, quant) <= 2047,
{
    let even = quant % 2 == 0;
    let far = quant * (2 * level + 1);
    let back = quant * (2 * level - 1);
    assert(quant * (-2 * level + 1) == -back) by (nonlinear_arith)
        requires
            back == quant * (2 * level - 1),
    ;
    assert(far == 2 * (quant * level) + quant && back == 2 * (quant * level) - quant)
        by (nonlinear_arith)
        requires
            far == quant * (2 * level + 1),
            back == quant * (2 * level - 1),
    ;
    assert(level > 0 ==> quant * level >= 1) by (nonlinear_arith)
        requires
            quant >= 1,
    ;
    assert(level < 0 ==> quant * level <= -1) by (nonlinear_arith)
        requires
            quant >= 1,
    ;
}

/// The zigzag scan starts in the corner and walks along the diagonals of the
/// block, to and fro: up to the right on every other one, down to the left on
/// those between.
#[verifier::spinoff_prover]
#[verifier::rlimit(60)]
pub proof fn zigzag_walks_along_the_diagonals(row: int, column: int)
    requires
        0 <= row < 8,
        0 <= column < 8,
    ensures
        residual::slot_of(residual::Scan::Zigzag, 0) == 0,
        row < 7 || column < 7 ==> ({
            let (r, c) = if (row + column) % 2 == 0 {
                if column == 7 {
                    (row + 1, column)
                } else if row == 0 {
                    (row, column + 1)
                } else {
                    (row - 1, column + 1)
                }
            } else {
                if row == 7 {
                    (row, column + 1)
                } else if column == 0 {
                    (row + 1, column)
                } else {
                    (row + 1, column - 1)
                }
            };
            residual::slot_of(residual::Scan::Zigzag, 8 * r + c) == residual::slot_of(
                residual::Scan::Zigzag,
                8 * row + column,
            ) + 1
        }),
{
    reveal(residual::slot_of);
    assert(residual::ZIGZAG_SLOTS@[0] == 0);
    assert(residual::ZIGZAG_SLOTS@[1] == 1);
    assert(residual::ZIGZAG_SLOTS@[2] == 5);
    assert(residual::ZIGZAG_SLOTS@[3] == 6);
    assert(residual::ZIGZAG_SLOTS@[4] == 14);
    assert(residual::ZIGZAG_SLOTS@[5] == 15);
    assert(residual::ZIGZAG_SLOTS@[6] == 27);
    assert(residual::ZIGZAG_SLOTS@[7] == 28);
    assert(residual::ZIGZAG_SLOTS@[8] == 2);
    assert(residual::ZIGZAG_SLOTS@[9] == 4);
    assert(residual::ZIGZAG_SLOTS@[10] == 7);
    assert(residual::ZIGZAG_SLOTS@[11] == 13);
    assert(residual::ZIGZAG_SLOTS@[12] == 16);
    assert(residual::ZIGZAG_SLOTS@[13] == 26);
    assert(residual::ZIGZAG_SLOTS@[14] == 29);
    assert(residual::ZIGZAG_SLOTS@[15] == 42);
    assert(residual::ZIGZAG_SLOTS@[16] == 3);
    assert(residual::ZIGZAG_SLOTS@[17] == 8);
    assert(residual::ZIGZAG_SLOTS@[18] == 12);
    assert(residual::ZIGZAG_SLOTS@[19] == 17);
    assert(residual::ZIGZAG_SLOTS@[20] == 25);
    assert(residual::ZIGZAG_SLOTS@[21] == 30);
    assert(residual::ZIGZAG_SLOTS@[22] == 41);
    assert(residual::ZIGZAG_SLOTS@[23] == 43);
    assert(residual::ZIGZAG_SLOTS@[24] == 9);
    assert(residual::ZIGZAG_SLOTS@[25] == 11);
    assert(residual::ZIGZAG_SLOTS@[26] == 18);
    assert(residual::ZIGZAG_SLOTS@[27] == 24);
    assert(residual::ZIGZAG_SLOTS@[28] == 31);
    assert(residual::ZIGZAG_SLOTS@[29] == 40);
    assert(residual::ZIGZAG_SLOTS@[30] == 44);
    assert(residual::ZIGZAG_SLOTS@[31] == 53);
    assert(residual::ZIGZAG_SLOTS@[32] == 10);
    assert(residual::ZIGZAG_SLOTS@[33] == 19);
    assert(residual::ZIGZAG_SLOTS@[34] == 23);
    assert(residual::ZIGZAG_SLOTS@[35] == 32);
    assert(residual::ZIGZAG_SLOTS@[36] == 39);
    assert(residual::ZIGZAG_SLOTS@[37] == 45);
    assert(residual::ZIGZAG_SLOTS@[38] == 52);
    assert(residual::ZIGZAG_SLOTS@[39] == 54);
    assert(residual::ZIGZAG_SLOTS@[40] == 20);
    assert(residual::ZIGZAG_SLOTS@[41] == 22);
    assert(residual::ZIGZAG_SLOTS@[42] == 33);
    assert(residual::ZIGZAG_SLOTS@[43] == 38);
    assert(residual::ZIGZAG_SLOTS@[44] == 46);
    assert(residual::ZIGZAG_SLOTS@[45] == 51);
    assert(residual::ZIGZAG_SLOTS@[46] == 55);
    assert(residual::ZIGZAG_SLOTS@[47] == 60);
    assert(residual::ZIGZAG_SLOTS@[48] == 21);
    assert(residual::ZIGZAG_SLOTS@[49] == 34);
    assert(residual::ZIGZAG_SLOTS@[50] == 37);
    assert(residual::ZIGZAG_SLOTS@[51] == 47);
    assert(residual::ZIGZAG_SLOTS@[52] == 50);
    assert(residual::ZIGZAG_SLOTS@[53] == 56);
    assert(residual::ZIGZAG_SLOTS@[54] == 59);
    assert(residual::ZIGZAG_SLOTS@[55] == 61);
    assert(residual::ZIGZAG_SLOTS@[56] == 35);
    assert(residual::ZIGZAG_SLOTS@[57] == 36);
    assert(residual::ZIGZAG_SLOTS@[58] == 48);
    assert(residual::ZIGZAG_SLOTS@[59] == 49);
    assert(residual::ZIGZAG_SLOTS@[60] == 57);
    assert(residual::ZIGZAG_SLOTS@[61] == 58);
    assert(residual::ZIGZAG_SLOTS@[62] == 62);
    assert(residual::ZIGZAG_SLOTS@[63] == 63);
    assert(row == 0 || row == 1 || row == 2 || row == 3 || row == 4 || row == 5 || row == 6 || row
        == 7);
    assert(column == 0 || column == 1 || column == 2 || column == 3 || column == 4 || column == 5
        || column == 6 || column == 7);
}

/// The two alternate scans are each other with rows and columns exchanged.
#[verifier::spinoff_prover]
#[verifier::rlimit(60)]
pub proof fn alternate_scans_mirror_each_other(row: int, column: int)
    requires
        0 <= row < 8,
        0 <= column < 8,
    ensures
        residual::slot_of(residual::Scan::AlternateHorizontal, 8 * row + column)
            == residual::slot_of(residual::Scan::AlternateVertical, 8 * column + row),
        row == 0 && column < 4 ==> residual::slot_of(residual::Scan::AlternateHorizontal, column)
            == column,
{
    reveal(residual::slot_of);
    assert(row == 0 || row == 1 || row == 2 || row == 3 || row == 4 || row == 5 || row == 6 || row
        == 7);
    assert(column == 0 || column == 1 || column == 2 || column == 3 || column == 4 || column == 5
        || column == 6 || column == 7);
}

/// The alternate horizontal scan runs along the rows, two samples at a time in the left
/// half and four in the right half; it goes backwards once in each half, where it comes
/// back from the right.
#[verifier::spinoff_prover]
#[verifier::rlimit(60)]
pub proof fn alternate_scans_run_along_rows(row: int, column: int)
    requires
        0 <= row < 8,
        0 <= column < 8,
    ensures
        ({
            let slot = |c: int| residual::slot_of(residual::Scan::AlternateHorizontal, 8 * row + c);
            &&& slot(0) == seq![0int, 4, 6, 20, 22, 36, 38, 52][row]
            &&& slot(2) == seq![2int, 8, 19, 24, 34, 40, 50, 54][row]
            &&& slot(4) == seq![10int, 17, 26, 30, 42, 46, 56, 60][row]
            &&& slot(1) == slot(0) + 1
            &&& slot(3) == if row == 2 {
                slot(2) - 1
            } else {
                slot(2) + 1
            }
            &&& column >= 4 ==> slot(column) == if row == 1 {
                slot(4) - (column - 4)
            } else {
                slot(4) + (column - 4)
            }
        }),
{
    reveal(residual::slot_of);
    assert(row == 0 || row == 1 || row == 2 || row == 3 || row == 4 || row == 5 || row == 6 || row
        == 7);
    assert(column < 4 || column == 4 || column == 5 || column == 6 || column == 7);
}

/// The sum of two rows.
proof fn lemma_added_row(a: Seq<int>, b: Seq<int>, c: Seq<int>, x: int, v: int, n: int)
    requires
        0 <= v < 8,
        n <= 8,
        forall|k: int| 0 <= k < 64 ==> #[trigger] c[k] == a[k] + b[k],
    ensures
        residual::row_sum(c, v, x, n) == residual::row_sum(a, v, x, n) + residual::row_sum(
            b,
            v,
            x,
            n,
        ),
    decreases n,
{
    if n > 0 {
        lemma_added_row(a, b, c, x, v, n - 1);
        let k = 8 * v + n - 1;
        let w = residual::basis(n - 1, x);
        assert(c[k] == a[k] + b[k]);
        assert(w * (a[k] + b[k]) == w * a[k] + w * b[k]) by (nonlinear_arith);
    }
}

/// The sum of two blocks.
proof fn lemma_added(a: Seq<int>, b: Seq<int>, c: Seq<int>, x: int, y: int, n: int)
    requires
        n <= 8,
        forall|k: int| 0 <= k < 64 ==> #[trigger] c[k] == a[k] + b[k],
    ensures
        residual::column_sum(c, x, y, n) == residual::column_sum(a, x, y, n)
            + residual::column_sum(b, x, y, n),
    decreases n,
{
    if n > 0 {
        lemma_added(a, b, c, x, y, n - 1);
        lemma_added_row(a, b, c, x, n - 1, 8);
        let w = residual::basis(n - 1, y);
        let r = residual::row_sum(a, n - 1, x, 8);
        let t = residual::row_sum(b, n - 1, x, 8);
        assert(w * (r + t) == w * r + w * t) by (nonlinear_arith);
    }
}

/// Adding the coefficients of two blocks adds their samples, but for rounding,
/// where none of them is cut off.
pub proof fn coefficients_add_up(a: Seq<int>, b: Seq<int>, c: Seq<int>, k: int)
    requires
        forall|i: int| 0 <= i < 64 ==> #[trigger] c[i] == a[i] + b[i],
        0 <= k < 64,
        -256 < residual::inverse_transform(a)[k] < 255,
        -256 < residual::inverse_transform(b)[k] < 255,
        -256 < residual::inverse_transform(c)[k] < 255,
    ensures
        -1 <= residual::inverse_transform(c)[k] - residual::inverse_transform(a)[k]
            - residual::inverse_transform(b)[k] <= 1,
{
    lemma_added(a, b, c, k % 8, k / 8, 8);
}

/// A mean level on top does not change that: a block whose only coefficients are
/// the first and a positive first vertical frequency never gets brighter from a row
/// to a lower one.
pub proof fn vertical_frequency_fades_on_any_ground(c: Seq<int>, x: int, y: int, lower: int)
    requires
        c[8] >= 0,
        forall|k: int| 0 < k < 64 && k != 8 ==> #[trigger] c[k] == 0,
        0 <= x < 8,
        0 <= y <= lower < 8,
    ensures
        residual::inverse_transform(c)[8 * y + x] >= residual::inverse_transform(c)[8 * lower + x],
{
    let a = Seq::new(
        64,
        |i: int|
            if i == 0 {
                c[0]
            } else {
                0
            },
    );
    let b = Seq::new(
        64,
        |i: int|
            if i == 8 {
                c[8]
            } else {
                0
            },
    );
    assert forall|i: int| 0 <= i < 64 implies #[trigger] c[i] == a[i] + b[i] by {
        if i != 0 && i != 8 {
            assert(c[i] == 0);
        }
    }
    lemma_added(a, b, c, x, y, 8);
    lemma_added(a, b, c, x, lower, 8);
    lemma_flat(a, x, y, lower);
    lemma_fading(b, x, y, lower);
    assert((8 * y + x) % 8 == x && (8 * y + x) / 8 == y);
    assert((8 * lower + x) % 8 == x && (8 * lower + x) / 8 == lower);
}

/// The sums of a block with a first coefficient only.
proof fn lemma_flat(c: Seq<int>, x: int, y: int, lower: int)
    requires
        forall|k: int| 0 < k < 64 ==> #[trigger] c[k] == 0,
        0 <= x < 8,
        0 <= y < 8,
        0 <= lower < 8,
    ensures
        residual::column_sum(c, x, y, 8) == residual::column_sum(c, x, lower, 8),
{
    lemma_matrix();
    lemma_single(c, 0, x, y, 8);
    lemma_single(c, 0, x, lower, 8);
    assert(residual::basis(0, y) == 370728 && residual::basis(0, lower) == 370728);
}

/// The sums of a block with a first vertical frequency only.
proof fn lemma_fading(c: Seq<int>, x: int, y: int, lower: int)
    requires
        c[8] >= 0,
        forall|k: int| 0 <= k < 64 && k != 8 ==> #[trigger] c[k] == 0,
        0 <= x < 8,
        0 <= y <= lower < 8,
    ensures
        residual::column_sum(c, x, y, 8) >= residual::column_sum(c, x, lower, 8),
{
    lemma_matrix();
    lemma_single(c, 8, x, y, 8);
    lemma_single(c, 8, x, lower, 8);
    let t = 370728 * c[8];
    let high = matrix()[1][y];
    let low = matrix()[1][lower];
    assert(residual::basis(0, x) == 370728);
    assert(residual::basis(1, y) == high && residual::basis(1, lower) == low);
    assert(y == 0 || y == 1 || y == 2 || y == 3 || y == 4 || y == 5 || y == 6 || y == 7);
    assert(lower == 0 || lower == 1 || lower == 2 || lower == 3 || lower == 4 || lower == 5
        || lower == 6 || lower == 7);
    assert(high * t >= low * t) by (nonlinear_arith)
        requires
            high >= low,
            t >= 0,
    ;
}

/// The samples of a block that is not predicted are what the transform gives, kept
/// between 0 and 255; those of a predicted block are the sum with the prediction, kept
/// likewise.
pub proof fn samples_are_kept_in_range(c: Seq<int>, prediction: Seq<u8>, k: int)
    requires
        0 <= k < 64,
    ensures
        ({
            let t = residual::inverse_transform(c)[k];
            let s = residual::plain_samples(c)[k];
            let u = residual::summed_samples(c, prediction)[k];
            let sum = prediction[k] + t;
            &&& 0 <= t <= 255 ==> s == t
            &&& t < 0 ==> s == 0
            &&& t > 255 ==> s == 255
            &&& 0 <= sum <= 255 ==> u == sum
            &&& sum < 0 ==> u == 0
            &&& sum > 255 ==> u == 255
        }),
{
}

} // verus!
