//! The occupancy grid: a point cloud binned into cells, each cell classified
//! by how many points fell into it.

use crate::geometry::{cloud_in_range, lemma_product_bound, Point, Ratio, COORD_LIMIT};
use image::DynamicImage;
use vstd::arithmetic::div_mod::lemma_fundamental_div_mod_converse;
use vstd::prelude::*;

verus! {

/// A half-open range `[min / den, max / den)` on one axis.
#[derive(Clone, Copy, Debug, PartialEq, Eq)]
pub struct Interval {
    pub min: i128,
    pub max: i128,
    pub den: u32,
}

/// One bucket of a grid: the range it stands for on each axis, and the
/// number of points that were put into it.
#[derive(Clone, Copy, Debug, PartialEq, Eq)]
pub struct Cell {
    pub x_span: Interval,
    pub y_span: Interval,
    pub point_count: usize,
}

/// A rectangular array of cells. The cell at column `x`, row `y` stands for
/// the ranges that start `x` and `y` cell widths after the grid's origin.
pub struct DynGrid {
    data: Vec<Vec<Cell>>,
    x_size: usize,
    y_size: usize,
    x_span: Ratio,
    y_span: Ratio,
}

/// A grid with its point counts and the count above which a cell is occupied.
pub struct FloorGrid {
    grid: DynGrid,
    threshold: usize,
}

/// A graph for navigation over a grid. Building it is not available.
pub struct NavGraph {}

/// The answer of an operation that is declared but not available.
#[derive(Clone, Copy, Debug, PartialEq, Eq)]
pub struct Unsupported {}

/// An image of any pixel format, as the `image` crate holds it.
#[verifier::external_type_specification]
#[verifier::external_body]
pub struct ExDynamicImage(DynamicImage);

/// The number of pixels in a row of the image.
pub uninterp spec fn image_width(img: DynamicImage) -> int;

/// The number of rows of the image.
pub uninterp spec fn image_height(img: DynamicImage) -> int;

/// The samples that the image holds, as bytes: where there is one sample
/// for each channel of each pixel, they stand row after row, pixel after
/// pixel, and for each pixel channel after channel.
pub uninterp spec fn image_bytes(img: DynamicImage) -> Seq<u8>;

/// The shade of a pixel that stands for an occupied cell.
pub const BLACK: u8 = 0;

/// The shade of a pixel that stands for a free cell.
pub const WHITE: u8 = 255;

/// The divisor that `FloorGrid::new` applies to the highest count to get the
/// occupancy threshold.
pub const THRESHOLD_DIVISOR: usize = 10;

/// The range that the `k`-th cell of an axis stands for, where the axis
/// starts at `start` and each cell is `span` wide.
pub open spec fn cell_interval(start: int, span: Ratio, k: int) -> Interval {
    Interval {
        min: (start * span.den + k * span.num) as i128,
        max: (start * span.den + (k + 1) * span.num) as i128,
        den: span.den,
    }
}

/// The index, along one axis, of the cell that takes a coordinate: the whole
/// part of the coordinate divided by the cell width, and 0 for a negative
/// coordinate.
pub open spec fn cell_index(v: int, span: Ratio) -> int {
    if v < 0 {
        0
    } else {
        (v * span.den) / (span.num as int)
    }
}

/// The point `p` is put into the cell at column `x`, row `y`.
pub open spec fn lands_in(p: Point, x_span: Ratio, y_span: Ratio, x: int, y: int) -> bool {
    cell_index(p.x as int, x_span) == x && cell_index(p.y as int, y_span) == y
}

/// The number of points of the cloud that are put into the cell at `(x, y)`.
pub open spec fn tally(points: Seq<Point>, x_span: Ratio, y_span: Ratio, x: int, y: int) -> nat {
    points.filter(|p: Point| lands_in(p, x_span, y_span, x, y)).len()
}

/// Every point of the cloud is put into a cell of a grid of the given size.
pub open spec fn cloud_fits(
    points: Seq<Point>,
    x_span: Ratio,
    y_span: Ratio,
    x_size: int,
    y_size: int,
) -> bool {
    forall|i: int|
        0 <= i < points.len() ==> 0 <= cell_index((#[trigger] points[i]).x as int, x_span)
            < x_size && 0 <= cell_index(points[i].y as int, y_span) < y_size
}

/// `peak` is the highest count that any cell of the grid gets from the cloud.
pub open spec fn is_peak(
    peak: int,
    points: Seq<Point>,
    x_span: Ratio,
    y_span: Ratio,
    x_size: int,
    y_size: int,
) -> bool {
    &&& forall|x: int, y: int|
        0 <= x < x_size && 0 <= y < y_size ==> #[trigger] tally(points, x_span, y_span, x, y)
            <= peak
    &&& peak == 0 || exists|x: int, y: int|
        0 <= x < x_size && 0 <= y < y_size && #[trigger] tally(points, x_span, y_span, x, y)
            == peak
}

/// The smallest of the values; 0 where there is none.
pub open spec fn lowest(vals: Seq<int>) -> int
    decreases vals.len(),
{
    if vals.len() == 0 {
        0
    } else if vals.len() == 1 {
        vals[0]
    } else {
        let rest = lowest(vals.drop_last());
        if vals.last() < rest {
            vals.last()
        } else {
            rest
        }
    }
}

/// The largest of the values; 0 where there is none.
pub open spec fn highest(vals: Seq<int>) -> int
    decreases vals.len(),
{
    if vals.len() == 0 {
        0
    } else if vals.len() == 1 {
        vals[0]
    } else {
        let rest = highest(vals.drop_last());
        if vals.last() > rest {
            vals.last()
        } else {
            rest
        }
    }
}

/// The first coordinate of each point.
pub open spec fn xs(points: Seq<Point>) -> Seq<int> {
    Seq::new(points.len(), |i: int| points[i].x as int)
}

/// The second coordinate of each point.
pub open spec fn ys(points: Seq<Point>) -> Seq<int> {
    Seq::new(points.len(), |i: int| points[i].y as int)
}

/// The width of a cell where `cell_count` cells cover the values: the whole
/// numbers from the lowest to the highest value, divided among the cells.
pub open spec fn span_over(vals: Seq<int>, cell_count: int) -> Ratio {
    Ratio { num: (highest(vals) - lowest(vals) + 1) as u32, den: cell_count as u32 }
}

/// The sum of `f(x, y)` over the first `y_size` rows of column `x`.
pub open spec fn column_sum(f: spec_fn(int, int) -> nat, x: int, y_size: nat) -> nat
    decreases y_size,
{
    if y_size == 0 {
        0
    } else {
        column_sum(f, x, (y_size - 1) as nat) + f(x, y_size - 1)
    }
}

/// The sum of `f(x, y)` over the cells of a grid of the given size.
pub open spec fn grid_sum(f: spec_fn(int, int) -> nat, x_size: nat, y_size: nat) -> nat
    decreases x_size,
{
    if x_size == 0 {
        0
    } else {
        grid_sum(f, (x_size - 1) as nat, y_size) + column_sum(f, x_size - 1, y_size)
    }
}

impl Interval {
    /// The range `[min / den, max / den)`.
    pub fn new(min: i128, max: i128, den: u32) -> (r: Interval)
        ensures
            r.min == min,
            r.max == max,
            r.den == den,
    {
        Interval { min, max, den }
    }

    /// The value `v` lies in the range.
    pub open spec fn contains(self, v: int) -> bool {
        self.min <= v * self.den < self.max
    }
}

impl DynGrid {
    /// The number of columns.
    pub closed spec fn columns(self) -> int {
        self.x_size as int
    }

    /// The number of rows.
    pub closed spec fn rows(self) -> int {
        self.y_size as int
    }

    /// The width of a cell.
    pub closed spec fn cell_width(self) -> Ratio {
        self.x_span
    }

    /// The height of a cell.
    pub closed spec fn cell_height(self) -> Ratio {
        self.y_span
    }

    /// The cell at column `x`, row `y`.
    pub closed spec fn cell_at(self, x: int, y: int) -> Cell {
        self.data@[x]@[y]
    }

    /// The array has `columns()` columns of `rows()` cells each.
    #[verifier::type_invariant]
    spec fn wf(self) -> bool {
        &&& self.data@.len() == self.x_size
        &&& forall|x: int| 0 <= x < self.x_size ==> (#[trigger] self.data@[x])@.len() == self.y_size
    }

    /// No cell has a point yet.
    pub open spec fn is_blank(self) -> bool {
        forall|x: int, y: int|
            0 <= x < self.columns() && 0 <= y < self.rows() ==> (#[trigger] self.cell_at(
                x,
                y,
            )).point_count == 0
    }

    /// The ranges of every cell are those of a grid that starts at
    /// `(x_start, y_start)`.
    pub open spec fn laid_out_from(self, x_start: int, y_start: int) -> bool {
        forall|x: int, y: int|
            0 <= x < self.columns() && 0 <= y < self.rows() ==> {
                &&& (#[trigger] self.cell_at(x, y)).x_span == cell_interval(
                    x_start,
                    self.cell_width(),
                    x,
                )
                &&& self.cell_at(x, y).y_span == cell_interval(y_start, self.cell_height(), y)
            }
    }

    /// A blank grid of `x_size` columns and `y_size` rows, whose cells are
    /// `x_span` wide and `y_span` high and start at `(x_start, y_start)`.
    pub fn new(
        x_size: usize,
        y_size: usize,
        x_span: Ratio,
        y_span: Ratio,
        x_start: i64,
        y_start: i64,
    ) -> (g: DynGrid)
        ensures
            g.columns() == x_size,
            g.rows() == y_size,
            g.cell_width() == x_span,
            g.cell_height() == y_span,
            g.is_blank(),
            g.laid_out_from(x_start as int, y_start as int),
    {
        let mut data: Vec<Vec<Cell>> = Vec::new();
        let mut x: usize = 0;
        while x < x_size
            invariant
                x <= x_size,
                data@.len() == x,
                forall|i: int| 0 <= i < x ==> (#[trigger] data@[i])@.len() == y_size,
                forall|i: int, j: int|
                    0 <= i < x && 0 <= j < y_size ==> (#[trigger] data@[i]@[j]) == (Cell {
                        x_span: cell_interval(x_start as int, x_span, i),
                        y_span: cell_interval(y_start as int, y_span, j),
                        point_count: 0,
                    }),
            decreases x_size - x,
        {
            let x_int = span_interval(x_start, x_span, x);
            let mut column: Vec<Cell> = Vec::new();
            let mut y: usize = 0;
            while y < y_size
                invariant
                    y <= y_size,
                    column@.len() == y,
                    x_int == cell_interval(x_start as int, x_span, x as int),
                    forall|j: int|
                        0 <= j < y ==> (#[trigger] column@[j]) == (Cell {
                            x_span: x_int,
                            y_span: cell_interval(y_start as int, y_span, j),
                            point_count: 0,
                        }),
                decreases y_size - y,
            {
                let y_int = span_interval(y_start, y_span, y);
                column.push(Cell { x_span: x_int, y_span: y_int, point_count: 0 });
                y = y + 1;
            }
            data.push(column);
            x = x + 1;
        }
        DynGrid { data, x_size, y_size, x_span, y_span }
    }
}

/// The range that the `k`-th cell of an axis stands for.
pub fn span_interval(start: i64, span: Ratio, k: usize) -> (r: Interval)
    ensures
        r == cell_interval(start as int, span, k as int),
{
    proof {
        lemma_product_bound(
            start as int,
            span.den as int,
            0x8000_0000_0000_0000,
            0xffff_ffff,
        );
        lemma_product_bound(
            k as int,
            span.num as int,
            0xffff_ffff_ffff_ffff,
            0xffff_ffff,
        );
        lemma_product_bound(
            k + 1,
            span.num as int,
            0x1_0000_0000_0000_0000,
            0xffff_ffff,
        );
    }
    let base: i128 = (start as i128) * (span.den as i128);
    let min: i128 = base + (k as i128) * (span.num as i128);
    let max: i128 = base + ((k as i128) + 1) * (span.num as i128);
    Interval { min, max, den: span.den }
}

/// The index, along one axis, of the cell that takes the coordinate `v`.
pub fn index_of(v: i64, span: Ratio) -> (idx: u128)
    requires
        span.num >= 1,
    ensures
        idx as int == cell_index(v as int, span),
{
    if v < 0 {
        0
    } else {
        proof {
            lemma_product_bound(
                v as int,
                span.den as int,
                0x8000_0000_0000_0000,
                0xffff_ffff,
            );
            assert(v * span.den >= 0) by (nonlinear_arith)
                requires
                    v >= 0,
                    span.den >= 0,
            ;
        }
        ((v as u128) * (span.den as u128)) / (span.num as u128)
    }
}

/// The ranges of the cells of an axis follow one another without a gap: each
/// starts where the one before it ends, and each is one cell width long.
pub proof fn lemma_cell_ranges_adjoin(start: i64, span: Ratio, k: usize)
    ensures
        cell_interval(start as int, span, k as int).max == cell_interval(
            start as int,
            span,
            k + 1,
        ).min,
        cell_interval(start as int, span, k as int).max - cell_interval(
            start as int,
            span,
            k as int,
        ).min == span.num,
        forall|v: int|
            cell_interval(start as int, span, k as int).contains(v) ==> !cell_interval(
                start as int,
                span,
                k + 1,
            ).contains(v),
{
    lemma_product_bound(start as int, span.den as int, 0x8000_0000_0000_0000, 0xffff_ffff);
    lemma_product_bound(k as int, span.num as int, 0xffff_ffff_ffff_ffff, 0xffff_ffff);
    lemma_product_bound(k + 1, span.num as int, 0x1_0000_0000_0000_0000, 0xffff_ffff);
    assert((k + 1) * span.num == k * span.num + span.num) by (nonlinear_arith);
}

/// The lowest and the highest value lie among the values.
pub proof fn lemma_extremes_bounded(vals: Seq<int>, lo: int, hi: int)
    requires
        lo <= 0 <= hi,
        forall|i: int| 0 <= i < vals.len() ==> lo <= #[trigger] vals[i] <= hi,
    ensures
        lo <= lowest(vals) <= highest(vals) <= hi,
    decreases vals.len(),
{
    if vals.len() > 1 {
        lemma_extremes_bounded(vals.drop_last(), lo, hi);
    }
}

/// The lowest and highest coordinates of a cloud on each axis, as
/// `(min_x, max_x, min_y, max_y)`; all zero for an empty cloud.
pub fn bounding_box(points: &[Point]) -> (b: (i64, i64, i64, i64))
    ensures
        b.0 == lowest(xs(points@)),
        b.1 == highest(xs(points@)),
        b.2 == lowest(ys(points@)),
        b.3 == highest(ys(points@)),
{
    if points.len() == 0 {
        return (0, 0, 0, 0);
    }
    let mut min_x: i64 = points[0].x;
    let mut max_x: i64 = points[0].x;
    let mut min_y: i64 = points[0].y;
    let mut max_y: i64 = points[0].y;
    let mut i: usize = 1;
    while i < points.len()
        invariant
            1 <= i <= points@.len(),
            min_x == lowest(xs(points@).take(i as int)),
            max_x == highest(xs(points@).take(i as int)),
            min_y == lowest(ys(points@).take(i as int)),
            max_y == highest(ys(points@).take(i as int)),
        decreases points@.len() - i,
    {
        let p = points[i];
        proof {
            assert(xs(points@).take(i + 1).drop_last() =~= xs(points@).take(i as int));
            assert(ys(points@).take(i + 1).drop_last() =~= ys(points@).take(i as int));
        }
        if p.x < min_x {
            min_x = p.x;
        }
        if p.x > max_x {
            max_x = p.x;
        }
        if p.y < min_y {
            min_y = p.y;
        }
        if p.y > max_y {
            max_y = p.y;
        }
        i = i + 1;
    }
    proof {
        assert(xs(points@).take(points@.len() as int) =~= xs(points@));
        assert(ys(points@).take(points@.len() as int) =~= ys(points@));
    }
    (min_x, max_x, min_y, max_y)
}

/// Whether every point of the cloud is put into a cell of a grid of the
/// given size.
pub fn fits_grid(points: &[Point], x_span: Ratio, y_span: Ratio, x_size: usize, y_size: usize) -> (ok:
    bool)
    requires
        x_span.num >= 1,
        y_span.num >= 1,
    ensures
        ok == cloud_fits(points@, x_span, y_span, x_size as int, y_size as int),
{
    let mut i: usize = 0;
    while i < points.len()
        invariant
            i <= points@.len(),
            x_span.num >= 1,
            y_span.num >= 1,
            forall|j: int|
                0 <= j < i ==> 0 <= cell_index((#[trigger] points@[j]).x as int, x_span)
                    < x_size && 0 <= cell_index(points@[j].y as int, y_span) < y_size,
        decreases points@.len() - i,
    {
        let p = points[i];
        if index_of(p.x, x_span) >= x_size as u128 || index_of(p.y, y_span) >= y_size as u128 {
            return false;
        }
        i = i + 1;
    }
    true
}

/// One more point adds one to the count of the cell it is put into, and
/// leaves every other count as it was.
pub proof fn lemma_tally_push(points: Seq<Point>, p: Point, x_span: Ratio, y_span: Ratio, x: int, y: int)
    ensures
        tally(points.push(p), x_span, y_span, x, y) == tally(points, x_span, y_span, x, y) + if lands_in(
            p,
            x_span,
            y_span,
            x,
            y,
        ) {
            1nat
        } else {
            0nat
        },
        tally(points, x_span, y_span, x, y) <= points.len(),
{
    reveal(Seq::filter);
    let pred = |q: Point| lands_in(q, x_span, y_span, x, y);
    assert(points.push(p).drop_last() =~= points);
    points.lemma_filter_len(pred);
}

/// Only one number is the highest count.
pub proof fn lemma_peak_unique(
    a: int,
    b: int,
    points: Seq<Point>,
    x_span: Ratio,
    y_span: Ratio,
    x_size: int,
    y_size: int,
)
    requires
        is_peak(a, points, x_span, y_span, x_size, y_size),
        is_peak(b, points, x_span, y_span, x_size, y_size),
    ensures
        a == b,
{
}

/// A sum over a grid depends only on the values in the grid.
pub proof fn lemma_grid_sum_same(
    f: spec_fn(int, int) -> nat,
    g: spec_fn(int, int) -> nat,
    x_size: nat,
    y_size: nat,
)
    requires
        forall|x: int, y: int| 0 <= x < x_size && 0 <= y < y_size ==> #[trigger] f(x, y) == g(x, y),
    ensures
        grid_sum(f, x_size, y_size) == grid_sum(g, x_size, y_size),
    decreases x_size,
{
    if x_size > 0 {
        lemma_grid_sum_same(f, g, (x_size - 1) as nat, y_size);
        lemma_column_sum_step(f, g, x_size - 1, y_size, -1);
    }
}

/// Two columns that agree everywhere but in row `at`, where the second has
/// one more, have sums that differ by one; where `at` is no row of theirs,
/// the sums are equal.
pub proof fn lemma_column_sum_step(
    f: spec_fn(int, int) -> nat,
    g: spec_fn(int, int) -> nat,
    x: int,
    y_size: nat,
    at: int,
)
    requires
        forall|y: int| 0 <= y < y_size && y != at ==> #[trigger] f(x, y) == g(x, y),
        0 <= at < y_size ==> g(x, at) == f(x, at) + 1,
    ensures
        column_sum(g, x, y_size) == column_sum(f, x, y_size) + if 0 <= at < y_size {
            1nat
        } else {
            0nat
        },
    decreases y_size,
{
    if y_size > 0 {
        lemma_column_sum_step(f, g, x, (y_size - 1) as nat, at);
    }
}

/// Two grids that agree everywhere but in one cell, where the second has
/// one more, have sums that differ by one.
pub proof fn lemma_grid_sum_step(
    f: spec_fn(int, int) -> nat,
    g: spec_fn(int, int) -> nat,
    x_size: nat,
    y_size: nat,
    cx: int,
    cy: int,
)
    requires
        0 <= cy < y_size,
        forall|x: int, y: int|
            0 <= x < x_size && 0 <= y < y_size && !(x == cx && y == cy) ==> #[trigger] f(x, y)
                == g(x, y),
        0 <= cx < x_size ==> g(cx, cy) == f(cx, cy) + 1,
    ensures
        grid_sum(g, x_size, y_size) == grid_sum(f, x_size, y_size) + if 0 <= cx < x_size {
            1nat
        } else {
            0nat
        },
    decreases x_size,
{
    if x_size > 0 {
        lemma_grid_sum_step(f, g, (x_size - 1) as nat, y_size, cx, cy);
        if cx == x_size - 1 {
            lemma_column_sum_step(f, g, x_size - 1, y_size, cy);
        } else {
            lemma_column_sum_step(f, g, x_size - 1, y_size, -1);
        }
    }
}

/// Every point is counted once: where each point of the cloud is put into a
/// cell of the grid, the counts of all cells add up to the number of points.
pub proof fn lemma_every_point_counted(
    points: Seq<Point>,
    x_span: Ratio,
    y_span: Ratio,
    x_size: nat,
    y_size: nat,
)
    requires
        cloud_fits(points, x_span, y_span, x_size as int, y_size as int),
    ensures
        grid_sum(|x: int, y: int| tally(points, x_span, y_span, x, y), x_size, y_size)
            == points.len(),
    decreases points.len(),
{
    let now = |x: int, y: int| tally(points, x_span, y_span, x, y);
    if points.len() == 0 {
        let zero = |x: int, y: int| 0nat;
        assert forall|x: int, y: int| #[trigger] now(x, y) == zero(x, y) by {
            points.lemma_filter_len(|p: Point| lands_in(p, x_span, y_span, x, y));
        }
        lemma_grid_sum_same(now, zero, x_size, y_size);
        lemma_grid_sum_zero(x_size, y_size);
    } else {
        let front = points.drop_last();
        let p = points.last();
        assert(front.push(p) =~= points);
        assert(forall|i: int| 0 <= i < front.len() ==> #[trigger] front[i] == points[i]);
        let before = |x: int, y: int| tally(front, x_span, y_span, x, y);
        lemma_every_point_counted(front, x_span, y_span, x_size, y_size);
        let cx = cell_index(p.x as int, x_span);
        let cy = cell_index(p.y as int, y_span);
        assert(points[points.len() - 1] == p);
        assert forall|x: int, y: int|
            0 <= x < x_size && 0 <= y < y_size && !(x == cx && y == cy) implies #[trigger] before(
            x,
            y,
        ) == now(x, y) by {
            lemma_tally_push(front, p, x_span, y_span, x, y);
        }
        lemma_tally_push(front, p, x_span, y_span, cx, cy);
        lemma_grid_sum_step(before, now, x_size, y_size, cx, cy);
    }
}

/// The sum of a grid of zeros is zero.
pub proof fn lemma_grid_sum_zero(x_size: nat, y_size: nat)
    ensures
        grid_sum(|x: int, y: int| 0nat, x_size, y_size) == 0,
    decreases x_size,
{
    let zero = |x: int, y: int| 0nat;
    if x_size > 0 {
        lemma_grid_sum_zero((x_size - 1) as nat, y_size);
        lemma_column_sum_zero(x_size - 1, y_size);
    }
}

/// The sum of a column of zeros is zero.
pub proof fn lemma_column_sum_zero(x: int, y_size: nat)
    ensures
        column_sum(|x: int, y: int| 0nat, x, y_size) == 0,
    decreases y_size,
{
    if y_size > 0 {
        lemma_column_sum_zero(x, (y_size - 1) as nat);
    }
}

impl FloorGrid {
    /// The grid that holds the counts.
    pub closed spec fn grid(self) -> DynGrid {
        self.grid
    }

    /// The count above which a cell is occupied.
    pub closed spec fn limit(self) -> int {
        self.threshold as int
    }

    /// The number of points in the cell at column `x`, row `y`.
    pub open spec fn count_at(self, x: int, y: int) -> nat {
        self.grid().cell_at(x, y).point_count as nat
    }

    /// The cell at column `x`, row `y` is occupied: it holds more points than
    /// the threshold.
    pub open spec fn occupied(self, x: int, y: int) -> bool {
        self.count_at(x, y) > self.limit()
    }

    /// The sum of the counts of all cells.
    pub open spec fn total(self) -> nat {
        grid_sum(
            |x: int, y: int| self.count_at(x, y),
            self.grid().columns() as nat,
            self.grid().rows() as nat,
        )
    }

    /// Each cell holds the number of points of the cloud that are put into
    /// it, and the threshold is the highest of these counts divided by
    /// `divisor`, rounded down.
    pub open spec fn counts_cloud(self, points: Seq<Point>, divisor: int) -> bool {
        &&& forall|x: int, y: int|
            0 <= x < self.grid().columns() && 0 <= y < self.grid().rows()
                ==> #[trigger] self.count_at(x, y) == tally(
                points,
                self.grid().cell_width(),
                self.grid().cell_height(),
                x,
                y,
            )
        &&& exists|peak: int|
            #[trigger] is_peak(
                peak,
                points,
                self.grid().cell_width(),
                self.grid().cell_height(),
                self.grid().columns(),
                self.grid().rows(),
            ) && self.limit() == peak / divisor
    }

    /// The grid is the one that `cell_count` cells per axis over the bounding
    /// box of the cloud give: a cell is as wide as the whole numbers from the
    /// lowest to the highest first coordinate, divided by `cell_count`, and
    /// as high as the same of the second coordinates; the ranges start at the
    /// lowest coordinates; the counts and the threshold are those of the
    /// cloud.
    pub open spec fn is_grid_of(self, points: Seq<Point>, cell_count: int, divisor: int) -> bool {
        &&& self.grid().columns() == cell_count
        &&& self.grid().rows() == cell_count
        &&& self.grid().cell_width() == span_over(xs(points), cell_count)
        &&& self.grid().cell_height() == span_over(ys(points), cell_count)
        &&& self.grid().laid_out_from(lowest(xs(points)), lowest(ys(points)))
        &&& self.counts_cloud(points, divisor)
    }

    /// A cloud can be put into a grid of `cell_count` cells per axis: the
    /// count is at least 1 and fits 32 bits, the points are in range, and
    /// each of them is put into a cell of the grid.
    pub open spec fn can_hold(points: Seq<Point>, cell_count: int) -> bool {
        &&& 1 <= cell_count <= u32::MAX
        &&& cloud_in_range(points)
        &&& cloud_fits(
            points,
            span_over(xs(points), cell_count),
            span_over(ys(points), cell_count),
            cell_count,
            cell_count,
        )
    }

    /// Puts the points of the cloud into the cells of a blank grid. The
    /// threshold is the highest count divided by `divisor`.
    pub fn new_with_divisor(grid: DynGrid, points: &[Point], divisor: usize) -> (g: FloorGrid)
        requires
            grid.is_blank(),
            grid.cell_width().num >= 1,
            grid.cell_height().num >= 1,
            cloud_fits(points@, grid.cell_width(), grid.cell_height(), grid.columns(), grid.rows()),
            divisor >= 1,
        ensures
            g.counts_cloud(points@, divisor as int),
            g.grid().columns() == grid.columns(),
            g.grid().rows() == grid.rows(),
            g.grid().cell_width() == grid.cell_width(),
            g.grid().cell_height() == grid.cell_height(),
            forall|x: int, y: int|
                0 <= x < grid.columns() && 0 <= y < grid.rows() ==> (#[trigger] g.grid().cell_at(
                    x,
                    y,
                )).x_span == grid.cell_at(x, y).x_span && g.grid().cell_at(x, y).y_span
                    == grid.cell_at(x, y).y_span,
            g.total() == points@.len(),
    {
        proof {
            use_type_invariant(&grid);
        }
        let ghost start = grid;
        let x_size: usize = grid.x_size;
        let y_size: usize = grid.y_size;
        let x_span: Ratio = grid.x_span;
        let y_span: Ratio = grid.y_span;
        let mut data: Vec<Vec<Cell>> = grid.data;
        let mut max: usize = 0;
        let mut i: usize = 0;
        proof {
            assert forall|x: int, y: int| 0 <= x < x_size && 0 <= y < y_size implies (
            #[trigger] data@[x]@[y]).point_count == tally(
                points@.take(0),
                x_span,
                y_span,
                x,
                y,
            ) by {
                assert(start.cell_at(x, y).point_count == 0);
                points@.take(0).lemma_filter_len(
                    |p: Point| lands_in(p, x_span, y_span, x, y),
                );
            }
        }
        while i < points.len()
            invariant
                i <= points@.len(),
                data@.len() == x_size,
                forall|x: int| 0 <= x < x_size ==> (#[trigger] data@[x])@.len() == y_size,
                x_size == start.x_size,
                y_size == start.y_size,
                x_span == start.x_span,
                y_span == start.y_span,
                x_span.num >= 1,
                y_span.num >= 1,
                cloud_fits(
                    points@,
                    x_span,
                    y_span,
                    x_size as int,
                    y_size as int,
                ),
                forall|x: int, y: int|
                    0 <= x < x_size && 0 <= y < y_size ==> (
                    #[trigger] data@[x]@[y]).point_count == tally(
                        points@.take(i as int),
                        x_span,
                        y_span,
                        x,
                        y,
                    ),
                forall|x: int, y: int|
                    0 <= x < x_size && 0 <= y < y_size ==> (
                    #[trigger] data@[x]@[y]).x_span == start.data@[x]@[y].x_span
                        && data@[x]@[y].y_span == start.data@[x]@[y].y_span,
                is_peak(
                    max as int,
                    points@.take(i as int),
                    x_span,
                    y_span,
                    x_size as int,
                    y_size as int,
                ),
            decreases points@.len() - i,
        {
            let p = points[i];
            let ghost seen = points@.take(i as int);
            let ghost seen_next = points@.take(i + 1);
            let ghost before = data@;
            let xi: u128 = index_of(p.x, x_span);
            let yi: u128 = index_of(p.y, y_span);
            let x: usize = xi as usize;
            let y: usize = yi as usize;
            proof {
                assert(seen.push(p) =~= seen_next);
                lemma_tally_push(seen, p, x_span, y_span, x as int, y as int);
                assert(before[x as int]@[y as int].point_count <= i);
            }
            let count: usize = data[x][y].point_count + 1;
            data[x][y].point_count = count;
            proof {
                assert forall|a: int, b: int|
                    0 <= a < x_size && 0 <= b < y_size implies (
                #[trigger] data@[a]@[b]).point_count == tally(
                    seen_next,
                    x_span,
                    y_span,
                    a,
                    b,
                ) by {
                    lemma_tally_push(seen, p, x_span, y_span, a, b);
                    assert(before[a]@[b].point_count == tally(
                        seen,
                        x_span,
                        y_span,
                        a,
                        b,
                    ));
                }
                assert forall|a: int, b: int|
                    0 <= a < x_size && 0 <= b < y_size implies #[trigger] tally(
                    seen_next,
                    x_span,
                    y_span,
                    a,
                    b,
                ) <= (if max < count {
                    count
                } else {
                    max
                }) by {
                    lemma_tally_push(seen, p, x_span, y_span, a, b);
                }
                if max >= count && max > 0 {
                    let (wx, wy) = choose|wx: int, wy: int|
                        0 <= wx < x_size && 0 <= wy < y_size && #[trigger] tally(
                            seen,
                            x_span,
                            y_span,
                            wx,
                            wy,
                        ) == max;
                    lemma_tally_push(seen, p, x_span, y_span, wx, wy);
                    assert(tally(seen_next, x_span, y_span, wx, wy) == max);
                } else if max < count {
                    assert(tally(seen_next, x_span, y_span, x as int, y as int)
                        == count);
                }
            }
            if max < count {
                max = count;
            }
            i = i + 1;
        }
        let grid = DynGrid { data, x_size, y_size, x_span, y_span };
        let g = FloorGrid { grid, threshold: max / divisor };
        proof {
            assert(points@.take(points@.len() as int) =~= points@);
            assert(is_peak(
                max as int,
                points@,
                g.grid().cell_width(),
                g.grid().cell_height(),
                g.grid().columns(),
                g.grid().rows(),
            ));
            let counted = |x: int, y: int| g.count_at(x, y);
            let tallied = |x: int, y: int|
                tally(points@, g.grid().cell_width(), g.grid().cell_height(), x, y);
            assert forall|x: int, y: int|
                0 <= x < g.grid().columns() && 0 <= y < g.grid().rows() implies #[trigger] counted(
                x,
                y,
            ) == tallied(x, y) by {
                assert(g.grid.data@[x]@[y].point_count == tally(
                    points@,
                    g.grid.x_span,
                    g.grid.y_span,
                    x,
                    y,
                ));
            }
            lemma_grid_sum_same(
                counted,
                tallied,
                g.grid().columns() as nat,
                g.grid().rows() as nat,
            );
            lemma_every_point_counted(
                points@,
                g.grid().cell_width(),
                g.grid().cell_height(),
                g.grid().columns() as nat,
                g.grid().rows() as nat,
            );
        }
        g
    }

    /// Puts the points of the cloud into the cells of a blank grid. The
    /// threshold is a tenth of the highest count.
    pub fn new_with_grid(grid: DynGrid, points: &[Point]) -> (g: FloorGrid)
        requires
            grid.is_blank(),
            grid.cell_width().num >= 1,
            grid.cell_height().num >= 1,
            cloud_fits(points@, grid.cell_width(), grid.cell_height(), grid.columns(), grid.rows()),
        ensures
            g.counts_cloud(points@, THRESHOLD_DIVISOR as int),
            g.grid().columns() == grid.columns(),
            g.grid().rows() == grid.rows(),
            g.grid().cell_width() == grid.cell_width(),
            g.grid().cell_height() == grid.cell_height(),
            forall|x: int, y: int|
                0 <= x < grid.columns() && 0 <= y < grid.rows() ==> (#[trigger] g.grid().cell_at(
                    x,
                    y,
                )).x_span == grid.cell_at(x, y).x_span && g.grid().cell_at(x, y).y_span
                    == grid.cell_at(x, y).y_span,
            g.total() == points@.len(),
    {
        Self::new_with_divisor(grid, points, THRESHOLD_DIVISOR)
    }

    /// Whether the cloud can be put into a grid of `cell_count` cells per
    /// axis.
    pub fn fits(points: &[Point], cell_count: usize) -> (ok: bool)
        ensures
            ok == Self::can_hold(points@, cell_count as int),
    {
        if cell_count < 1 || cell_count > 0xffff_ffff {
            return false;
        }
        if !crate::geometry::all_in_range(points) {
            return false;
        }
        let (min_x, max_x, min_y, max_y) = bounding_box(points);
        proof {
            lemma_cloud_extremes(points@);
        }
        let x_span = Ratio::new((max_x - min_x + 1) as u32, cell_count as u32);
        let y_span = Ratio::new((max_y - min_y + 1) as u32, cell_count as u32);
        fits_grid(points, x_span, y_span, cell_count, cell_count)
    }

    /// The occupancy grid of a cloud, with `cell_count` cells per axis and a
    /// threshold of the highest count divided by `divisor`.
    pub fn with_divisor(points: &[Point], cell_count: usize, divisor: usize) -> (g: FloorGrid)
        requires
            Self::can_hold(points@, cell_count as int),
            divisor >= 1,
        ensures
            g.is_grid_of(points@, cell_count as int, divisor as int),
            g.total() == points@.len(),
    {
        let (min_x, max_x, min_y, max_y) = bounding_box(points);
        proof {
            lemma_cloud_extremes(points@);
        }
        let x_span = Ratio::new((max_x - min_x + 1) as u32, cell_count as u32);
        let y_span = Ratio::new((max_y - min_y + 1) as u32, cell_count as u32);
        let grid = DynGrid::new(cell_count, cell_count, x_span, y_span, min_x, min_y);
        Self::new_with_divisor(grid, points, divisor)
    }

    /// `built` is what building the grid of a cloud comes to: a grid where
    /// the cloud can be put into one, and then the grid of the cloud; nothing
    /// where it cannot.
    pub open spec fn is_outcome_of(
        built: Option<FloorGrid>,
        points: Seq<Point>,
        cell_count: int,
        divisor: int,
    ) -> bool {
        &&& built is Some <==> Self::can_hold(points, cell_count)
        &&& built matches Some(g) ==> g.is_grid_of(points, cell_count, divisor) && g.total()
            == points.len()
    }

    /// The occupancy grid of a cloud, with `cell_count` cells per axis and a
    /// threshold of the highest count divided by `divisor`; `None` where the
    /// cloud cannot be put into such a grid.
    pub fn try_with_divisor(points: &[Point], cell_count: usize, divisor: usize) -> (built: Option<
        FloorGrid,
    >)
        requires
            divisor >= 1,
        ensures
            Self::is_outcome_of(built, points@, cell_count as int, divisor as int),
    {
        if Self::fits(points, cell_count) {
            Some(Self::with_divisor(points, cell_count, divisor))
        } else {
            None
        }
    }

    /// The occupancy grid of a cloud, with `cell_count` cells per axis and a
    /// threshold of a tenth of the highest count; `None` where the cloud
    /// cannot be put into such a grid.
    pub fn try_new(points: &[Point], cell_count: usize) -> (built: Option<FloorGrid>)
        ensures
            Self::is_outcome_of(built, points@, cell_count as int, THRESHOLD_DIVISOR as int),
    {
        Self::try_with_divisor(points, cell_count, THRESHOLD_DIVISOR)
    }

    /// The occupancy grid of a cloud, with `cell_count` cells per axis and a
    /// threshold of a tenth of the highest count.
    pub fn new(points: &[Point], cell_count: usize) -> (g: FloorGrid)
        requires
            Self::can_hold(points@, cell_count as int),
        ensures
            g.is_grid_of(points@, cell_count as int, THRESHOLD_DIVISOR as int),
            g.total() == points@.len(),
    {
        Self::with_divisor(points, cell_count, THRESHOLD_DIVISOR)
    }
}

/// The lowest and the highest coordinate of a cloud in range are in range.
pub proof fn lemma_cloud_extremes(points: Seq<Point>)
    requires
        cloud_in_range(points),
    ensures
        -COORD_LIMIT <= lowest(xs(points)) <= highest(xs(points)) <= COORD_LIMIT,
        -COORD_LIMIT <= lowest(ys(points)) <= highest(ys(points)) <= COORD_LIMIT,
{
    assert forall|i: int| 0 <= i < xs(points).len() implies -COORD_LIMIT <= #[trigger] xs(
        points,
    )[i] <= COORD_LIMIT by {
        assert(points[i].in_range());
    }
    assert forall|i: int| 0 <= i < ys(points).len() implies -COORD_LIMIT <= #[trigger] ys(
        points,
    )[i] <= COORD_LIMIT by {
        assert(points[i].in_range());
    }
    lemma_extremes_bounded(xs(points), -COORD_LIMIT as int, COORD_LIMIT as int);
    lemma_extremes_bounded(ys(points), -COORD_LIMIT as int, COORD_LIMIT as int);
}

/// Building is a function of the cloud: two grids that count the same cloud
/// over the same cells with the same divisor hold the same counts and the
/// same threshold, and so classify every cell alike.
pub proof fn lemma_same_cloud_same_classification(
    a: FloorGrid,
    b: FloorGrid,
    points: Seq<Point>,
    divisor: int,
)
    requires
        a.counts_cloud(points, divisor),
        b.counts_cloud(points, divisor),
        a.grid().columns() == b.grid().columns(),
        a.grid().rows() == b.grid().rows(),
        a.grid().cell_width() == b.grid().cell_width(),
        a.grid().cell_height() == b.grid().cell_height(),
    ensures
        a.limit() == b.limit(),
        forall|x: int, y: int|
            0 <= x < a.grid().columns() && 0 <= y < a.grid().rows() ==> a.count_at(x, y)
                == b.count_at(x, y) && a.occupied(x, y) == b.occupied(x, y),
{
    let w = a.grid().cell_width();
    let h = a.grid().cell_height();
    let pa = choose|peak: int|
        #[trigger] is_peak(peak, points, w, h, a.grid().columns(), a.grid().rows()) && a.limit()
            == peak / divisor;
    let pb = choose|peak: int|
        #[trigger] is_peak(peak, points, w, h, a.grid().columns(), a.grid().rows()) && b.limit()
            == peak / divisor;
    lemma_peak_unique(pa, pb, points, w, h, a.grid().columns(), a.grid().rows());
    assert forall|x: int, y: int|
        0 <= x < a.grid().columns() && 0 <= y < a.grid().rows() implies a.count_at(x, y)
        == b.count_at(x, y) && a.occupied(x, y) == b.occupied(x, y) by {
        assert(a.count_at(x, y) == tally(points, w, h, x, y));
        assert(b.count_at(x, y) == tally(points, w, h, x, y));
    }
}

/// Two grids built from the same cloud with the same cell count and divisor
/// classify every cell alike.
pub proof fn lemma_build_is_deterministic(
    a: FloorGrid,
    b: FloorGrid,
    points: Seq<Point>,
    cell_count: int,
    divisor: int,
)
    requires
        a.is_grid_of(points, cell_count, divisor),
        b.is_grid_of(points, cell_count, divisor),
    ensures
        a.limit() == b.limit(),
        forall|x: int, y: int|
            0 <= x < cell_count && 0 <= y < cell_count ==> a.count_at(x, y) == b.count_at(x, y)
                && a.occupied(x, y) == b.occupied(x, y) && a.grid().cell_at(x, y)
                == b.grid().cell_at(x, y),
{
    lemma_same_cloud_same_classification(a, b, points, divisor);
    assert forall|x: int, y: int| 0 <= x < cell_count && 0 <= y < cell_count implies a.grid().cell_at(
        x,
        y,
    ) == b.grid().cell_at(x, y) by {
        assert(a.count_at(x, y) == b.count_at(x, y));
        assert(a.grid().cell_at(x, y).x_span == b.grid().cell_at(x, y).x_span);
        assert(a.grid().cell_at(x, y).y_span == b.grid().cell_at(x, y).y_span);
    }
}

/// Building depends on nothing but the cloud, the cell count and the
/// divisor: two outcomes of building from the same three are both a grid or
/// both none, and two grids agree in every cell on the count, on the ranges
/// and on whether the cell is occupied, and agree on the threshold.
pub proof fn lemma_outcome_is_deterministic(
    a: Option<FloorGrid>,
    b: Option<FloorGrid>,
    points: Seq<Point>,
    cell_count: int,
    divisor: int,
)
    requires
        FloorGrid::is_outcome_of(a, points, cell_count, divisor),
        FloorGrid::is_outcome_of(b, points, cell_count, divisor),
    ensures
        a is Some <==> b is Some,
        a is Some ==> a.unwrap().limit() == b.unwrap().limit(),
        a is Some ==> forall|x: int, y: int|
            0 <= x < cell_count && 0 <= y < cell_count ==> a.unwrap().count_at(x, y)
                == b.unwrap().count_at(x, y) && a.unwrap().occupied(x, y) == b.unwrap().occupied(
                x,
                y,
            ) && a.unwrap().grid().cell_at(x, y) == b.unwrap().grid().cell_at(x, y),
{
    if a is Some {
        lemma_build_is_deterministic(a.unwrap(), b.unwrap(), points, cell_count, divisor);
    }
}

/// `image::ImageBuffer::from_raw` on three bytes per pixel, handed on as
/// `DynamicImage::ImageRgb8`: an image of the given width and height over
/// the given samples, which it keeps as they are. It gives `None` where three
/// times the width cannot be addressed, or where the samples are fewer than
/// three for each pixel.
#[verifier::external_body]
fn rgb_image(width: u32, height: u32, bytes: Vec<u8>) -> (img: Option<DynamicImage>)
    ensures
        img is Some <==> (3 * width <= usize::MAX && 3 * width * height <= bytes@.len()),
        img matches Some(i) ==> image_width(i) == width && image_height(i) == height
            && image_bytes(i) == bytes@,
{
    image::RgbImage::from_raw(width, height, bytes).map(DynamicImage::ImageRgb8)
}

impl FloorGrid {
    /// The shade of the pixel at column `x`, row `y` of the picture: that of
    /// the cell at column `y`, row `x` of the grid, black if it is occupied
    /// and white if it is not.
    pub open spec fn shade(self, x: int, y: int) -> u8 {
        if self.occupied(y, x) {
            BLACK
        } else {
            WHITE
        }
    }

    /// The samples of the picture of the grid: row after row, one pixel for
    /// each cell, three equal bytes for each pixel.
    pub open spec fn rendered(self) -> Seq<u8> {
        let w = self.grid().columns();
        let h = self.grid().rows();
        Seq::new((3 * w * h) as nat, |k: int| self.shade((k / 3) % w, (k / 3) / w))
    }

    /// The grid can be drawn: it is square or has no cell, its sizes fit 32
    /// bits, and three bytes for each cell of a row, and for each cell of the
    /// grid, can be addressed.
    pub open spec fn renderable(self) -> bool {
        let w = self.grid().columns();
        let h = self.grid().rows();
        &&& w == h || w == 0 || h == 0
        &&& w <= u32::MAX
        &&& h <= u32::MAX
        &&& 3 * w <= usize::MAX
        &&& 3 * w * h <= usize::MAX
    }

    /// The number of columns and of rows.
    pub fn size(&self) -> (s: (usize, usize))
        ensures
            s.0 == self.grid().columns(),
            s.1 == self.grid().rows(),
    {
        (self.grid.x_size, self.grid.y_size)
    }

    /// The count above which a cell is occupied.
    pub fn threshold(&self) -> (t: usize)
        ensures
            t == self.limit(),
    {
        self.threshold
    }

    /// The cell at column `x`, row `y`; `None` outside the grid.
    pub fn cell(&self, x: usize, y: usize) -> (c: Option<Cell>)
        ensures
            c == if x < self.grid().columns() && y < self.grid().rows() {
                Some(self.grid().cell_at(x as int, y as int))
            } else {
                None
            },
    {
        proof {
            use_type_invariant(&self.grid);
        }
        if x < self.grid.x_size && y < self.grid.y_size {
            Some(self.grid.data[x][y])
        } else {
            None
        }
    }

    /// Whether the cell at column `x`, row `y` is occupied; `None` outside
    /// the grid.
    pub fn is_occupied(&self, x: usize, y: usize) -> (o: Option<bool>)
        ensures
            o == if x < self.grid().columns() && y < self.grid().rows() {
                Some(self.occupied(x as int, y as int))
            } else {
                None
            },
    {
        proof {
            use_type_invariant(&self.grid);
        }
        if x < self.grid.x_size && y < self.grid.y_size {
            Some(self.grid.data[x][y].point_count > self.threshold)
        } else {
            None
        }
    }

    /// Whether the grid can be drawn.
    pub fn can_render(&self) -> (ok: bool)
        ensures
            ok == self.renderable(),
    {
        proof {
            use_type_invariant(&self.grid);
        }
        let w: usize = self.grid.x_size;
        let h: usize = self.grid.y_size;
        if !(w == h || w == 0 || h == 0) {
            return false;
        }
        if w > 0xffff_ffff || h > 0xffff_ffff {
            return false;
        }
        proof {
            lemma_product_bound(w as int, h as int, 0xffff_ffff, 0xffff_ffff);
            assert(w * h >= 0) by (nonlinear_arith)
                requires
                    w >= 0,
                    h >= 0,
            ;
            assert(3 * w * h == 3 * (w * h)) by (nonlinear_arith);
        }
        let cells: u128 = (w as u128) * (h as u128);
        3 * (w as u128) <= usize::MAX as u128 && 3 * cells <= usize::MAX as u128
    }

    /// The picture of the grid: one pixel for each cell, black where the
    /// cell is occupied and white where it is not. The pixel at column `x`,
    /// row `y` shows the cell at column `y`, row `x`.
    pub fn into_image(&self) -> (img: DynamicImage)
        requires
            self.renderable(),
        ensures
            image_width(img) == self.grid().columns(),
            image_height(img) == self.grid().rows(),
            image_bytes(img) == self.rendered(),
    {
        proof {
            use_type_invariant(&self.grid);
        }
        let width: u32 = self.grid.x_size as u32;
        let height: u32 = self.grid.y_size as u32;
        let ghost w: int = width as int;
        let ghost h: int = height as int;
        let mut bytes: Vec<u8> = Vec::new();
        let mut y: u32 = 0;
        while y < height
            invariant
                y <= height,
                w == width,
                h == height,
                w == self.grid().columns(),
                h == self.grid().rows(),
                self.renderable(),
                self.grid.wf(),
                bytes@.len() == 3 * (y * w),
                forall|k: int|
                    0 <= k < bytes@.len() ==> #[trigger] bytes@[k] == self.shade(
                        (k / 3) % w,
                        (k / 3) / w,
                    ),
            decreases height - y,
        {
            let mut x: u32 = 0;
            while x < width
                invariant
                    x <= width,
                    y < height,
                    w == width,
                    h == height,
                    w == self.grid().columns(),
                    h == self.grid().rows(),
                    self.renderable(),
                    self.grid.wf(),
                    bytes@.len() == 3 * (y * w + x),
                    forall|k: int|
                        0 <= k < bytes@.len() ==> #[trigger] bytes@[k] == self.shade(
                            (k / 3) % w,
                            (k / 3) / w,
                        ),
                decreases width - x,
            {
                let cell = self.grid.data[y as usize][x as usize];
                let shade: u8 = if cell.point_count > self.threshold {
                    BLACK
                } else {
                    WHITE
                };
                let ghost base: int = 3 * (y * w + x);
                proof {
                    assert(shade == self.shade(x as int, y as int));
                    lemma_fundamental_div_mod_converse(y * w + x, w, y as int, x as int);
                    assert(base + 3 <= 3 * w * h) by (nonlinear_arith)
                        requires
                            base == 3 * (y * w + x),
                            0 <= x < w,
                            0 <= y < h,
                    ;
                }
                bytes.push(shade);
                bytes.push(shade);
                bytes.push(shade);
                proof {
                    assert forall|k: int| 0 <= k < bytes@.len() implies #[trigger] bytes@[k]
                        == self.shade((k / 3) % w, (k / 3) / w) by {
                        if k >= base {
                            assert(k / 3 == y * w + x);
                        }
                    }
                    assert(3 * (y * w + (x + 1)) == base + 3) by (nonlinear_arith)
                        requires
                            base == 3 * (y * w + x),
                    ;
                }
                x = x + 1;
            }
            proof {
                assert(3 * (y * w + w) == 3 * ((y + 1) * w)) by (nonlinear_arith);
            }
            y = y + 1;
        }
        proof {
            assert(3 * (h * w) == 3 * w * h) by (nonlinear_arith);
            assert(bytes@ =~= self.rendered());
        }
        let made = rgb_image(width, height, bytes);
        made.unwrap()
    }
}

impl NavGraph {
    /// Building a navigation graph from a grid is not available: the answer
    /// is `Unsupported`, whatever the grid and the destination.
    pub fn new_from_grid(grid: FloorGrid, dest: Point) -> (r: Result<NavGraph, Unsupported>)
        ensures
            r == Err::<NavGraph, Unsupported>(Unsupported {  }),
    {
        Err(Unsupported {  })
    }
}

} // verus!
