//! From an ordered point cloud to straight runs, and from runs to walls.

use crate::geometry::{
    cloud_in_range, lemma_limit_squared, lemma_product_bound, Line, Point, Ratio, Segment,
};
use crate::grid::Unsupported;
use vstd::prelude::*;

verus! {

/// A piece of a wall: a run that was observed, or a bridge between two
/// observed runs of the same wall.
#[derive(Clone, Copy, Debug, PartialEq)]
pub enum SegmentType {
    Interpolated(Segment),
    Measured(Segment),
}

/// Observed runs that lie close to one line, in the order in which they were
/// met, with a bridge between each two neighbours.
#[derive(Clone, Debug, PartialEq)]
pub struct Wall {
    pub segments: Vec<SegmentType>,
}

/// Offsets of two lines of one wall differ by at most this much.
pub const DISTANCE: u64 = 5;

/// Slopes of two lines of one wall differ by at most a tenth.
pub open spec fn slope_diff() -> Ratio {
    Ratio { num: 1, den: 10 }
}

/// The distance `sqrt(n2 / q)` and the radius `sqrt(r)` differ by less than 5.
///
/// Both roots are removed by squaring. The distance stays below the radius
/// plus 5 exactly if `n2 - (r + 25) * q`, where it is not negative, has a square
/// below `100 * r * q * q`; the radius stays below the distance plus 5 exactly
/// if `(r - 25) * q - n2`, where it is not negative, has a square below
/// `100 * n2 * q`.
pub open spec fn radius_near_distance(n2: int, q: int, r: int) -> bool {
    let over = n2 - (r + 25) * q;
    let under = (r - 25) * q - n2;
    &&& (over < 0 || over * over < 100 * r * q * q)
    &&& (under < 0 || under * under < 100 * n2 * q)
}

/// The point `p` speaks against the run `test` being straight.
///
/// With `d` the distance of `p` from the line through `test` and `len` the
/// distance of `p` from the origin: where `len` exceeds 600, `d` exceeds a
/// hundredth of `len`; where it does not, `d` and `len` differ by less than 5.
/// A run whose two ends coincide has no line, and no point speaks against it.
pub open spec fn rejects(test: Segment, p: Point) -> bool {
    let line = Line::through(test);
    let n2 = line.offset(p) * line.offset(p);
    let q = line.normal_sq();
    let r = p.norm_sq();
    &&& q > 0
    &&& if r > 360_000 {
        10_000 * n2 > q * r
    } else {
        radius_near_distance(n2, q, r)
    }
}

/// Some point strictly between `left` and `right` speaks against the straight
/// run from `points[left]` to `points[right]`.
pub open spec fn hypothesis_fails(points: Seq<Point>, left: int, right: int) -> bool {
    exists|k: int|
        left < k < right && #[trigger] rejects(
            Segment { p1: points[left], p2: points[right] },
            points[k],
        )
}

/// The last point of the cloud is held already: a run was closed, and the
/// run closed last ends on the coordinates of the last point.
pub open spec fn last_point_held(points: Seq<Point>, prev_end: Option<Point>) -> bool {
    prev_end == Some(points[points.len() - 1])
}

/// The runs that a scan over `points` yields from the moment at which the
/// current run starts at `left`, the hypothesis reaches to `right`, and
/// `prev_end` is the end of the run closed last, if one was closed.
///
/// Where the hypothesis from `left` to `right` fails, the run from `left` to
/// `right - 1` is closed and the next one starts at `right`. At the end of the
/// input the open run is closed at the last point, unless the last point is
/// held already. A run that starts at the last point is closed there too, as
/// a run of one point.
pub open spec fn scan_runs(points: Seq<Point>, left: int, right: int, prev_end: Option<Point>) -> Seq<
    Segment,
>
    decreases points.len() - right,
{
    let last = points.len() - 1;
    if right >= points.len() {
        if last_point_held(points, prev_end) {
            Seq::empty()
        } else {
            seq![Segment { p1: points[left], p2: points[last] }]
        }
    } else if hypothesis_fails(points, left, right) {
        seq![Segment { p1: points[left], p2: points[right - 1] }] + scan_runs(
            points,
            right,
            right + 1,
            Some(points[right - 1]),
        )
    } else {
        scan_runs(points, left, right + 1, prev_end)
    }
}

/// For each run of `scan_runs`, the indices of the points at which it starts
/// and ends.
pub open spec fn scan_bounds(points: Seq<Point>, left: int, right: int, prev_end: Option<Point>) -> Seq<
    (int, int),
>
    decreases points.len() - right,
{
    let last = points.len() - 1;
    if right >= points.len() {
        if last_point_held(points, prev_end) {
            Seq::empty()
        } else {
            seq![(left, last)]
        }
    } else if hypothesis_fails(points, left, right) {
        seq![(left, right - 1)] + scan_bounds(points, right, right + 1, Some(points[right - 1]))
    } else {
        scan_bounds(points, left, right + 1, prev_end)
    }
}

/// The straight runs of an ordered point cloud.
pub open spec fn extracted(points: Seq<Point>) -> Seq<Segment> {
    if points.len() < 2 {
        Seq::empty()
    } else {
        scan_runs(points, 0, 1, None)
    }
}

/// For each straight run of a cloud, the indices of the points at which it
/// starts and ends.
pub open spec fn extracted_bounds(points: Seq<Point>) -> Seq<(int, int)> {
    if points.len() < 2 {
        Seq::empty()
    } else {
        scan_bounds(points, 0, 1, None)
    }
}

/// All runs have both ends in range.
pub open spec fn runs_in_range(runs: Seq<Segment>) -> bool {
    forall|i: int| 0 <= i < runs.len() ==> (#[trigger] runs[i]).in_range()
}

/// The run `s` lies close enough to the line of `seed` to belong to its wall.
pub open spec fn joins(seed: Segment, s: Segment) -> bool {
    Line::through(seed).close_to_collinear(Line::through(s), slope_diff(), DISTANCE)
}

/// The runs of `rest` that join the wall of `seed`, in their order.
pub open spec fn members(seed: Segment, rest: Seq<Segment>) -> Seq<Segment> {
    rest.filter(|s: Segment| joins(seed, s))
}

/// The runs of `rest` that do not join the wall of `seed`, in their order.
pub open spec fn leftover(seed: Segment, rest: Seq<Segment>) -> Seq<Segment> {
    rest.filter(|s: Segment| !joins(seed, s))
}

/// The wall made of the runs of `chain`, in their order: each run as a
/// measured piece, and between each two neighbours a bridge from the end of
/// the first to the start of the second.
pub open spec fn wall_pieces(chain: Seq<Segment>) -> Seq<SegmentType> {
    Seq::new(
        if chain.len() == 0 {
            0
        } else {
            (2 * chain.len() - 1) as nat
        },
        |j: int|
            if j % 2 == 0 {
                SegmentType::Measured(chain[j / 2])
            } else {
                SegmentType::Interpolated(
                    Segment { p1: chain[j / 2].p2, p2: chain[j / 2 + 1].p1 },
                )
            },
    )
}

/// The walls of a pool of runs: the first run seeds a wall, which takes every
/// later run that joins it; the runs that are left form the pool for the
/// walls that follow.
pub open spec fn walls_of(pool: Seq<Segment>) -> Seq<Seq<SegmentType>>
    decreases pool.len(),
    via walls_of_decreases
{
    if pool.len() == 0 {
        Seq::empty()
    } else {
        let seed = pool[0];
        let rest = pool.drop_first();
        seq![wall_pieces(seq![seed] + members(seed, rest))] + walls_of(leftover(seed, rest))
    }
}

#[via_fn]
proof fn walls_of_decreases(pool: Seq<Segment>) {
    if pool.len() != 0 {
        let seed = pool[0];
        pool.drop_first().lemma_filter_len(|s: Segment| !joins(seed, s));
    }
}

/// The observed runs among `pieces`, in their order.
pub open spec fn measured_runs(pieces: Seq<SegmentType>) -> Seq<Segment>
    decreases pieces.len(),
{
    if pieces.len() == 0 {
        Seq::empty()
    } else {
        match pieces.last() {
            SegmentType::Measured(s) => measured_runs(pieces.drop_last()).push(s),
            SegmentType::Interpolated(_) => measured_runs(pieces.drop_last()),
        }
    }
}

/// The bridges among `pieces`, in their order.
pub open spec fn bridges(pieces: Seq<SegmentType>) -> Seq<Segment>
    decreases pieces.len(),
{
    if pieces.len() == 0 {
        Seq::empty()
    } else {
        match pieces.last() {
            SegmentType::Interpolated(s) => bridges(pieces.drop_last()).push(s),
            SegmentType::Measured(_) => bridges(pieces.drop_last()),
        }
    }
}

/// The pieces of each wall of `walls`.
pub open spec fn wall_views(walls: Seq<Wall>) -> Seq<Seq<SegmentType>> {
    walls.map_values(|w: Wall| w.segments@)
}

/// Adding a run to a chain adds a bridge and a measured piece to its wall.
pub proof fn lemma_wall_pieces_push(chain: Seq<Segment>, s: Segment)
    requires
        chain.len() >= 1,
    ensures
        wall_pieces(chain.push(s)) == wall_pieces(chain).push(
            SegmentType::Interpolated(Segment { p1: chain.last().p2, p2: s.p1 }),
        ).push(SegmentType::Measured(s)),
{
    let longer = wall_pieces(chain.push(s));
    let built = wall_pieces(chain).push(
        SegmentType::Interpolated(Segment { p1: chain.last().p2, p2: s.p1 }),
    ).push(SegmentType::Measured(s));
    assert(longer.len() == built.len());
    assert forall|j: int| 0 <= j < longer.len() implies longer[j] == built[j] by {
        if j < 2 * chain.len() - 1 {
            assert(0 <= j / 2 < chain.len());
            if j % 2 != 0 {
                assert(j / 2 + 1 < chain.len());
            }
        }
    }
    assert(longer =~= built);
}

/// Taking the bridges out of a wall leaves the runs it was made of, and a
/// wall of `n` runs has `n - 1` bridges.
pub proof fn lemma_wall_keeps_runs(chain: Seq<Segment>)
    ensures
        measured_runs(wall_pieces(chain)) == chain,
        chain.len() >= 1 ==> bridges(wall_pieces(chain)).len() == chain.len() - 1,
        chain.len() == 0 ==> bridges(wall_pieces(chain)).len() == 0,
    decreases chain.len(),
{
    if chain.len() == 0 {
        assert(wall_pieces(chain) =~= Seq::empty());
        assert(measured_runs(wall_pieces(chain)) =~= chain);
    } else if chain.len() == 1 {
        let w = wall_pieces(chain);
        assert(w =~= seq![SegmentType::Measured(chain[0])]);
        assert(w.drop_last() =~= Seq::empty());
        assert(measured_runs(w.drop_last()) =~= Seq::empty());
        assert(bridges(w.drop_last()) =~= Seq::empty());
        assert(measured_runs(w) =~= chain);
    } else {
        let front = chain.drop_last();
        let s = chain.last();
        assert(front.push(s) =~= chain);
        lemma_wall_keeps_runs(front);
        lemma_wall_pieces_push(front, s);
        let bridge = SegmentType::Interpolated(Segment { p1: front.last().p2, p2: s.p1 });
        let w1 = wall_pieces(front).push(bridge);
        let w2 = w1.push(SegmentType::Measured(s));
        assert(w2.drop_last() =~= w1);
        assert(w1.drop_last() =~= wall_pieces(front));
        assert(measured_runs(w1) == measured_runs(wall_pieces(front)));
        assert(bridges(w2) == bridges(w1));
        assert(measured_runs(w2) =~= chain);
    }
}

/// Where every run satisfies the test, filtering keeps them all; where none
/// does, it keeps none.
pub proof fn lemma_filter_all_or_none(runs: Seq<Segment>, pred: spec_fn(Segment) -> bool)
    ensures
        (forall|i: int| 0 <= i < runs.len() ==> pred(#[trigger] runs[i])) ==> runs.filter(pred)
            == runs,
        (forall|i: int| 0 <= i < runs.len() ==> !pred(#[trigger] runs[i])) ==> runs.filter(pred)
            == Seq::<Segment>::empty(),
    decreases runs.len(),
{
    reveal(Seq::filter);
    if runs.len() > 0 {
        lemma_filter_all_or_none(runs.drop_last(), pred);
        assert(forall|i: int|
            0 <= i < runs.drop_last().len() ==> #[trigger] runs.drop_last()[i] == runs[i]);
        if forall|i: int| 0 <= i < runs.len() ==> pred(#[trigger] runs[i]) {
            assert(pred(runs.last()));
            assert(runs.drop_last().push(runs.last()) =~= runs);
        }
        if forall|i: int| 0 <= i < runs.len() ==> !pred(#[trigger] runs[i]) {
            assert(!pred(runs.last()));
        }
    } else {
        assert(runs.filter(pred) =~= runs);
    }
}

/// Runs that all lie close to the line of the first form one wall: it holds
/// every run as a measured piece, in the given order, and one bridge fewer
/// than runs.
pub proof fn lemma_collinear_runs_form_one_wall(pool: Seq<Segment>)
    requires
        pool.len() >= 1,
        forall|i: int| 1 <= i < pool.len() ==> joins(pool[0], #[trigger] pool[i]),
    ensures
        walls_of(pool).len() == 1,
        walls_of(pool)[0] == wall_pieces(pool),
        measured_runs(walls_of(pool)[0]) == pool,
        measured_runs(walls_of(pool)[0]).len() == pool.len(),
        bridges(walls_of(pool)[0]).len() == pool.len() - 1,
{
    let seed = pool[0];
    let rest = pool.drop_first();
    assert(forall|i: int| 0 <= i < rest.len() ==> #[trigger] rest[i] == pool[i + 1]);
    lemma_filter_all_or_none(rest, |s: Segment| joins(seed, s));
    lemma_filter_all_or_none(rest, |s: Segment| !joins(seed, s));
    assert(members(seed, rest) == rest);
    assert(leftover(seed, rest) == Seq::<Segment>::empty());
    assert(seq![seed] + rest =~= pool);
    assert(walls_of(leftover(seed, rest)) =~= Seq::empty());
    assert(walls_of(pool) =~= seq![wall_pieces(pool)]);
    lemma_wall_keeps_runs(pool);
}

/// Every wall keeps the runs it was made of: its measured pieces are its seed
/// followed by the runs that joined it, and it has one bridge fewer than
/// measured pieces.
pub proof fn lemma_walls_keep_their_runs(pool: Seq<Segment>, i: int)
    requires
        0 <= i < walls_of(pool).len(),
    ensures
        measured_runs(walls_of(pool)[i]).len() >= 1,
        bridges(walls_of(pool)[i]).len() == measured_runs(walls_of(pool)[i]).len() - 1,
        walls_of(pool)[i] == wall_pieces(measured_runs(walls_of(pool)[i])),
    decreases pool.len(),
{
    let seed = pool[0];
    let rest = pool.drop_first();
    if i == 0 {
        lemma_wall_keeps_runs(seq![seed] + members(seed, rest));
    } else {
        rest.lemma_filter_len(|s: Segment| !joins(seed, s));
        lemma_walls_keep_their_runs(leftover(seed, rest), i - 1);
    }
}

/// The runs of a scan follow the cloud: each goes from one point of the
/// cloud to the same or a later one, the first starts where the scan stands,
/// and each of the others starts at the point after the one at which the run
/// before it ends. There are no more runs than points from where the scan
/// stands, and at least one where no run was closed before.
pub proof fn lemma_runs_follow_cloud(
    points: Seq<Point>,
    left: int,
    right: int,
    prev_end: Option<Point>,
)
    requires
        0 <= left < right,
        left < points.len(),
    ensures
        scan_bounds(points, left, right, prev_end).len() == scan_runs(
            points,
            left,
            right,
            prev_end,
        ).len(),
        scan_runs(points, left, right, prev_end).len() <= points.len() - left,
        prev_end is None ==> scan_runs(points, left, right, prev_end).len() >= 1,
        forall|k: int|
            0 <= k < scan_runs(points, left, right, prev_end).len() ==> {
                let b = #[trigger] scan_bounds(points, left, right, prev_end)[k];
                &&& left <= b.0 <= b.1 < points.len()
                &&& scan_runs(points, left, right, prev_end)[k] == (Segment {
                    p1: points[b.0],
                    p2: points[b.1],
                })
            },
        scan_runs(points, left, right, prev_end).len() > 0 ==> scan_bounds(
            points,
            left,
            right,
            prev_end,
        )[0].0 == left,
        forall|k: int|
            1 <= k < scan_runs(points, left, right, prev_end).len() ==> (#[trigger] scan_bounds(
                points,
                left,
                right,
                prev_end,
            )[k]).0 == scan_bounds(points, left, right, prev_end)[k - 1].1 + 1,
    decreases points.len() - right,
{
    let runs = scan_runs(points, left, right, prev_end);
    let bounds = scan_bounds(points, left, right, prev_end);
    if right >= points.len() {
    } else if hypothesis_fails(points, left, right) {
        let closed = Some(points[right - 1]);
        let tail = scan_runs(points, right, right + 1, closed);
        let tail_bounds = scan_bounds(points, right, right + 1, closed);
        lemma_runs_follow_cloud(points, right, right + 1, closed);
        assert(runs == seq![Segment { p1: points[left], p2: points[right - 1] }] + tail);
        assert(bounds == seq![(left, right - 1)] + tail_bounds);
        assert forall|k: int| 0 <= k < runs.len() implies {
            let b = #[trigger] bounds[k];
            &&& left <= b.0 <= b.1 < points.len()
            &&& runs[k] == (Segment { p1: points[b.0], p2: points[b.1] })
        } by {
            if k > 0 {
                assert(bounds[k] == tail_bounds[k - 1]);
                assert(runs[k] == tail[k - 1]);
            }
        }
        assert forall|k: int| 1 <= k < runs.len() implies (#[trigger] bounds[k]).0 == bounds[k
            - 1].1 + 1 by {
            assert(bounds[k] == tail_bounds[k - 1]);
            if k > 1 {
                assert(bounds[k - 1] == tail_bounds[k - 2]);
            }
        }
    } else {
        lemma_runs_follow_cloud(points, left, right + 1, prev_end);
        assert(runs == scan_runs(points, left, right + 1, prev_end));
        assert(bounds == scan_bounds(points, left, right + 1, prev_end));
    }
}

/// The straight runs of a cloud of two or more points follow the cloud:
/// there is at least one run and there are no more runs than points; each
/// run goes from one point of the cloud to the same or a later one; the
/// first starts at the first point, and each of the others starts at the
/// point after the one at which the run before it ends.
pub proof fn lemma_extracted_runs_follow_cloud(points: Seq<Point>)
    requires
        points.len() >= 2,
    ensures
        1 <= extracted(points).len() <= points.len(),
        extracted_bounds(points).len() == extracted(points).len(),
        forall|k: int|
            0 <= k < extracted(points).len() ==> {
                let b = #[trigger] extracted_bounds(points)[k];
                &&& 0 <= b.0 <= b.1 < points.len()
                &&& extracted(points)[k] == (Segment { p1: points[b.0], p2: points[b.1] })
            },
        extracted_bounds(points)[0].0 == 0,
        forall|k: int|
            1 <= k < extracted(points).len() ==> (#[trigger] extracted_bounds(points)[k]).0
                == extracted_bounds(points)[k - 1].1 + 1,
{
    lemma_runs_follow_cloud(points, 0, 1, None);
}

/// The number of observed runs in all the walls together.
pub open spec fn measured_total(walls: Seq<Seq<SegmentType>>) -> nat
    decreases walls.len(),
{
    if walls.len() == 0 {
        0
    } else {
        measured_runs(walls[0]).len() + measured_total(walls.drop_first())
    }
}

/// The runs that join a seed and those that do not are, together, all the
/// runs.
pub proof fn lemma_members_and_leftover(seed: Segment, rest: Seq<Segment>)
    ensures
        members(seed, rest).len() + leftover(seed, rest).len() == rest.len(),
    decreases rest.len(),
{
    reveal(Seq::filter);
    if rest.len() > 0 {
        lemma_members_and_leftover(seed, rest.drop_last());
    }
}

/// Every run of the pool becomes a measured piece of exactly one wall: the
/// walls together hold as many measured pieces as the pool has runs.
pub proof fn lemma_every_run_in_one_wall(pool: Seq<Segment>)
    ensures
        measured_total(walls_of(pool)) == pool.len(),
    decreases pool.len(),
{
    if pool.len() > 0 {
        let seed = pool[0];
        let rest = pool.drop_first();
        let chain = seq![seed] + members(seed, rest);
        let others = walls_of(leftover(seed, rest));
        rest.lemma_filter_len(|s: Segment| !joins(seed, s));
        lemma_members_and_leftover(seed, rest);
        lemma_every_run_in_one_wall(leftover(seed, rest));
        lemma_wall_keeps_runs(chain);
        assert(walls_of(pool).drop_first() =~= others);
        assert(walls_of(pool)[0] == wall_pieces(chain));
    }
}

/// Merging the runs of one wall again gives that wall and no other.
pub proof fn lemma_merging_a_wall_again(pool: Seq<Segment>, i: int)
    requires
        0 <= i < walls_of(pool).len(),
    ensures
        walls_of(measured_runs(walls_of(pool)[i])) == seq![walls_of(pool)[i]],
    decreases pool.len(),
{
    let seed = pool[0];
    let rest = pool.drop_first();
    if i == 0 {
        let joined = members(seed, rest);
        let chain = seq![seed] + joined;
        lemma_wall_keeps_runs(chain);
        assert forall|k: int| 1 <= k < chain.len() implies joins(chain[0], #[trigger] chain[k]) by {
            rest.lemma_filter_pred(|s: Segment| joins(seed, s), k - 1);
            assert(chain[k] == joined[k - 1]);
        }
        lemma_collinear_runs_form_one_wall(chain);
        assert(walls_of(chain) =~= seq![wall_pieces(chain)]);
    } else {
        rest.lemma_filter_len(|s: Segment| !joins(seed, s));
        lemma_merging_a_wall_again(leftover(seed, rest), i - 1);
    }
}

/// Whether `p` speaks against the run `test` being straight.
pub fn breaks_hypothesis(test: &Segment, p: Point) -> (b: bool)
    requires
        test.in_range(),
        p.in_range(),
    ensures
        b == rejects(*test, p),
{
    let line = Line::from_segment(test);
    let q: i128 = line.normal_squared();
    if q == 0 {
        return false;
    }
    let n: i128 = line.offset_at(p);
    proof {
        lemma_limit_squared();
        lemma_product_bound(n as int, n as int, 8_000_000_000_000, 8_000_000_000_000);
        assert(n * n >= 0) by (nonlinear_arith);
        lemma_product_bound(p.x as int, p.x as int, 1_000_000, 1_000_000);
        lemma_product_bound(p.y as int, p.y as int, 1_000_000, 1_000_000);
        assert(p.x * p.x >= 0) by (nonlinear_arith);
        assert(p.y * p.y >= 0) by (nonlinear_arith);
    }
    let n2: i128 = n * n;
    let r: i128 = (p.x as i128) * (p.x as i128) + (p.y as i128) * (p.y as i128);
    if r > 360_000 {
        proof {
            lemma_product_bound(q as int, r as int, 8_000_000_000_000, 2_000_000_000_000);
        }
        10_000 * n2 > q * r
    } else {
        proof {
            lemma_product_bound(r + 25, q as int, 360_025, 8_000_000_000_000);
            lemma_product_bound(r - 25, q as int, 360_025, 8_000_000_000_000);
        }
        let over: i128 = n2 - (r + 25) * q;
        let under: i128 = (r - 25) * q - n2;
        let below_upper: bool = if over < 0 {
            true
        } else if over >= 100_000_000_000_000_000 {
            proof {
                lemma_product_bound(100 * r, q as int, 36_000_000, 8_000_000_000_000);
                lemma_product_bound(
                    100 * r * q,
                    q as int,
                    288_000_000_000_000_000_000,
                    8_000_000_000_000,
                );
                assert(over * over >= 10_000_000_000_000_000_000_000_000_000_000_000)
                    by (nonlinear_arith)
                    requires
                        over >= 100_000_000_000_000_000,
                ;
            }
            false
        } else {
            proof {
                lemma_product_bound(
                    over as int,
                    over as int,
                    100_000_000_000_000_000,
                    100_000_000_000_000_000,
                );
                lemma_product_bound(100 * r, q as int, 36_000_000, 8_000_000_000_000);
                lemma_product_bound(
                    100 * r * q,
                    q as int,
                    288_000_000_000_000_000_000,
                    8_000_000_000_000,
                );
            }
            over * over < 100 * r * q * q
        };
        let above_lower: bool = if under < 0 {
            true
        } else {
            proof {
                lemma_product_bound(
                    under as int,
                    under as int,
                    2_880_200_000_000_000_000,
                    2_880_200_000_000_000_000,
                );
                lemma_product_bound(100 * n2, q as int, 288_020_000_000_000_000_000, 8_000_000_000_000);
            }
            under * under < 100 * n2 * q
        };
        below_upper && above_lower
    }
}

/// Whether some point strictly between `left` and `right` speaks against the
/// straight run from `points[left]` to `points[right]`.
pub fn fails_between(points: &[Point], left: usize, right: usize) -> (b: bool)
    requires
        cloud_in_range(points@),
        left < right < points@.len(),
    ensures
        b == hypothesis_fails(points@, left as int, right as int),
{
    let test = Segment::new(points[left], points[right]);
    let mut k: usize = left + 1;
    while k < right
        invariant
            left < k <= right,
            right < points@.len(),
            cloud_in_range(points@),
            test == (Segment { p1: points@[left as int], p2: points@[right as int] }),
            forall|j: int| left < j < k ==> !rejects(test, #[trigger] points@[j]),
        decreases right - k,
    {
        if breaks_hypothesis(&test, points[k]) {
            assert(rejects(test, points@[k as int]));
            return true;
        }
        k = k + 1;
    }
    false
}

/// Partitions an ordered point cloud into straight runs.
pub fn create_segments(points: &[Point]) -> (segments: Vec<Segment>)
    requires
        cloud_in_range(points@),
    ensures
        segments@ == extracted(points@),
        runs_in_range(segments@),
        points@.len() >= 2 ==> 1 <= segments@.len() <= points@.len(),
{
    let mut segments: Vec<Segment> = Vec::new();
    if points.len() < 2 {
        return segments;
    }
    proof {
        lemma_extracted_runs_follow_cloud(points@);
    }
    let last: usize = points.len() - 1;
    let mut prev_end: Option<Point> = None;
    let mut left: usize = 0;
    let mut right: usize = 1;
    while right < points.len()
        invariant
            left < right <= points@.len(),
            last == points@.len() - 1,
            cloud_in_range(points@),
            runs_in_range(segments@),
            segments@ + scan_runs(points@, left as int, right as int, prev_end) == extracted(
                points@,
            ),
        decreases points@.len() - right,
    {
        let ghost before = segments@;
        if fails_between(points, left, right) {
            let run = Segment::new(points[left], points[right - 1]);
            segments.push(run);
            proof {
                let tail = scan_runs(points@, right as int, right + 1, Some(points@[right - 1]));
                assert(before + (seq![run] + tail) =~= before.push(run) + tail);
            }
            prev_end = Some(points[right - 1]);
            left = right;
        }
        right = right + 1;
    }
    let held: bool = match prev_end {
        Some(end) => end.same_as(&points[last]),
        None => false,
    };
    if !held {
        let run = Segment::new(points[left], points[last]);
        proof {
            assert(segments@ + seq![run] =~= segments@.push(run));
        }
        segments.push(run);
    } else {
        proof {
            assert(segments@ + Seq::<Segment>::empty() =~= segments@);
        }
    }
    segments
}

/// Groups runs into walls: the first run of the pool seeds a wall and takes
/// with it every later run that lies close to its line; the rest is grouped
/// in the same way.
pub fn connect_segments(segments: Vec<Segment>) -> (walls: Vec<Wall>)
    requires
        runs_in_range(segments@),
    ensures
        wall_views(walls@) == walls_of(segments@),
{
    let mut pool: Vec<Segment> = segments;
    let mut walls: Vec<Wall> = Vec::new();
    proof {
        assert(wall_views(walls@) + walls_of(pool@) =~= walls_of(segments@));
    }
    while pool.len() > 0
        invariant
            runs_in_range(pool@),
            wall_views(walls@) + walls_of(pool@) == walls_of(segments@),
        decreases pool@.len(),
    {
        let seed: Segment = pool[0];
        let line = Line::from_segment(&seed);
        let mut pieces: Vec<SegmentType> = Vec::new();
        pieces.push(SegmentType::Measured(seed));
        let mut last_end: Point = seed.p2;
        let mut remaining: Vec<Segment> = Vec::new();
        let ghost mut chain: Seq<Segment> = seq![seed];
        let ghost rest = pool@.drop_first();
        proof {
            assert(pool@.subrange(1, 1) =~= Seq::empty());
            assert(chain =~= seq![seed] + members(seed, pool@.subrange(1, 1)));
            assert(remaining@ =~= leftover(seed, pool@.subrange(1, 1)));
            assert(pieces@ =~= wall_pieces(chain));
        }
        let mut i: usize = 1;
        while i < pool.len()
            invariant
                1 <= i <= pool@.len(),
                runs_in_range(pool@),
                runs_in_range(remaining@),
                seed == pool@[0],
                line == Line::through(seed),
                line.wf(),
                chain.len() >= 1,
                chain == seq![seed] + members(seed, pool@.subrange(1, i as int)),
                remaining@ == leftover(seed, pool@.subrange(1, i as int)),
                pieces@ == wall_pieces(chain),
                last_end == chain.last().p2,
            decreases pool@.len() - i,
        {
            let s: Segment = pool[i];
            let other = Line::from_segment(&s);
            let ghost seen = pool@.subrange(1, i as int);
            let ghost seen_next = pool@.subrange(1, i + 1);
            proof {
                reveal(Seq::filter);
                assert(seen_next.drop_last() =~= seen);
                assert(seen_next.last() == s);
            }
            if line.is_close_to_collinear(&other, Ratio::new(1, 10), DISTANCE) {
                proof {
                    assert(joins(seed, s));
                    lemma_wall_pieces_push(chain, s);
                    assert(seq![seed] + members(seed, seen).push(s) =~= chain.push(s));
                }
                pieces.push(SegmentType::Interpolated(Segment::new(last_end, s.p1)));
                pieces.push(SegmentType::Measured(s));
                last_end = s.p2;
                proof {
                    chain = chain.push(s);
                }
            } else {
                proof {
                    assert(!joins(seed, s));
                }
                remaining.push(s);
            }
            i = i + 1;
        }
        proof {
            assert(pool@.subrange(1, pool@.len() as int) =~= rest);
            rest.lemma_filter_len(|s: Segment| !joins(seed, s));
            let wall = wall_pieces(seq![seed] + members(seed, rest));
            let before = wall_views(walls@);
            assert(before.push(wall) + walls_of(leftover(seed, rest)) =~= before + (seq![wall]
                + walls_of(leftover(seed, rest))));
            assert(wall_views(walls@.push(Wall { segments: pieces })) =~= before.push(wall));
        }
        walls.push(Wall { segments: pieces });
        pool = remaining;
    }
    proof {
        assert(wall_views(walls@) + Seq::<Seq<SegmentType>>::empty() =~= wall_views(walls@));
    }
    walls
}

/// The walls of an ordered point cloud: its straight runs, grouped by the
/// line they lie close to.
pub fn find_walls(points: &[Point]) -> (walls: Vec<Wall>)
    requires
        cloud_in_range(points@),
    ensures
        wall_views(walls@) == walls_of(extracted(points@)),
{
    let segments = create_segments(points);
    connect_segments(segments)
}

/// Fitting a line to a cloud by least squares. The fit is not available: a
/// cloud of fewer than two points has no line, and for every other cloud the
/// answer is `Unsupported`.
pub fn least_square_method(points: &[Point]) -> (r: Result<Option<Line>, Unsupported>)
    ensures
        points@.len() < 2 ==> r == Ok::<Option<Line>, Unsupported>(None),
        points@.len() >= 2 ==> r == Err::<Option<Line>, Unsupported>(Unsupported {  }),
{
    if points.len() < 2 {
        Ok(None)
    } else {
        Err(Unsupported {  })
    }
}

} // verus!
