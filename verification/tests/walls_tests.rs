use lidar_map::geometry::{Point, Segment, Vec2};
use lidar_map::walls::{
    breaks_hypothesis, connect_segments, create_segments, fails_between, find_walls, SegmentType,
    Wall, DISTANCE,
};

fn pt(x: i64, y: i64) -> Point {
    Vec2::new(x, y)
}

fn seg(x1: i64, y1: i64, x2: i64, y2: i64) -> Segment {
    Segment::new(pt(x1, y1), pt(x2, y2))
}

fn measured(w: &Wall) -> Vec<Segment> {
    let mut out = Vec::new();
    for piece in w.segments.iter() {
        if let SegmentType::Measured(s) = piece {
            out.push(*s);
        }
    }
    out
}

fn bridges(w: &Wall) -> Vec<Segment> {
    let mut out = Vec::new();
    for piece in w.segments.iter() {
        if let SegmentType::Interpolated(s) = piece {
            out.push(*s);
        }
    }
    out
}

fn corner() -> Vec<Point> {
    vec![pt(0, 0), pt(0, 5), pt(0, 10), pt(2, 0), pt(5, 0)]
}

#[test]
fn near_points_break_a_line_when_distance_is_close_to_radius() {
    // distance 5, radius 5
    assert!(breaks_hypothesis(&seg(0, 0, 2, 0), pt(0, 5)));
    // distance 0, radius 5: they differ by 5, which is not less than 5
    assert!(!breaks_hypothesis(&seg(0, 0, 0, 10), pt(0, 5)));
    // distance 0, radius 4
    assert!(breaks_hypothesis(&seg(0, 0, 0, 10), pt(0, 4)));
    // distance 10, radius 5
    assert!(!breaks_hypothesis(&seg(0, 14, 5, 14), pt(3, 4)));
    // distance 6, radius 5
    assert!(breaks_hypothesis(&seg(0, 10, 5, 10), pt(3, 4)));
    // distance 9, radius 5
    assert!(breaks_hypothesis(&seg(0, 13, 5, 13), pt(3, 4)));
    // radius exactly 600 belongs to the near rule: distance 600, radius 600
    assert!(breaks_hypothesis(&seg(0, 0, 5, 0), pt(0, 600)));
    // distance 0, radius 600
    assert!(!breaks_hypothesis(&seg(0, 0, 0, 5), pt(0, 600)));
}

#[test]
fn far_points_break_a_line_beyond_a_hundredth_of_the_radius() {
    // radius 1000, distance 10: not more than a hundredth
    assert!(!breaks_hypothesis(&seg(0, 10, 5, 10), pt(1000, 0)));
    // radius 1000, distance 11
    assert!(breaks_hypothesis(&seg(0, 11, 5, 11), pt(1000, 0)));
    // radius 601, distance 601: far rule, far off the line
    assert!(breaks_hypothesis(&seg(0, 0, 5, 0), pt(0, 601)));
    // radius 601, distance 0
    assert!(!breaks_hypothesis(&seg(0, 0, 0, 5), pt(0, 601)));
    // radius about 1005, distance about 31.6
    assert!(breaks_hypothesis(&seg(1000, 0, 900, 300), pt(1000, 100)));
}

#[test]
fn run_of_one_point_is_never_broken() {
    assert!(!breaks_hypothesis(&seg(3, 3, 3, 3), pt(0, 5)));
    assert!(!breaks_hypothesis(&seg(3, 3, 3, 3), pt(1000, 1000)));
    assert!(!breaks_hypothesis(&seg(0, 0, 0, 0), pt(0, 0)));
}

#[test]
fn hypothesis_is_tested_on_points_strictly_between() {
    let points = corner();
    assert!(!fails_between(&points, 0, 1));
    assert!(!fails_between(&points, 0, 2));
    assert!(fails_between(&points, 0, 3));
    assert!(!fails_between(&points, 3, 4));
}

#[test]
fn degenerate_clouds_give_no_segment() {
    assert_eq!(create_segments(&[]), vec![]);
    assert_eq!(create_segments(&[pt(1, 2)]), vec![]);
    assert!(find_walls(&[]).is_empty());
    assert!(find_walls(&[pt(1, 2)]).is_empty());
    assert!(connect_segments(vec![]).is_empty());
}

#[test]
fn two_points_give_one_segment() {
    assert_eq!(create_segments(&[pt(1, 2), pt(3, 4)]), vec![seg(1, 2, 3, 4)]);
    // no run was closed before the end, so the open one is closed there,
    // also where the last point lies on the first
    assert_eq!(create_segments(&[pt(1, 2), pt(1, 2)]), vec![seg(1, 2, 1, 2)]);
    assert_eq!(
        create_segments(&[pt(1000, 0), pt(1000, 10), pt(1000, 20), pt(1000, 0)]),
        vec![seg(1000, 0, 1000, 0)]
    );
}

#[test]
fn far_straight_run_is_one_segment() {
    let points = vec![pt(1000, 0), pt(1000, 100), pt(1000, 200), pt(1000, 300)];
    assert_eq!(create_segments(&points), vec![seg(1000, 0, 1000, 300)]);
}

#[test]
fn far_run_breaks_where_it_bends() {
    let points = vec![pt(1000, 0), pt(1000, 100), pt(1000, 200), pt(900, 300)];
    // the run is closed at the point before the one that failed; the last
    // point starts a run of its own, which is closed there
    assert_eq!(
        create_segments(&points),
        vec![seg(1000, 0, 1000, 200), seg(900, 300, 900, 300)]
    );
    let longer = vec![pt(1000, 0), pt(1000, 100), pt(1000, 200), pt(900, 300), pt(800, 300)];
    assert_eq!(
        create_segments(&longer),
        vec![seg(1000, 0, 1000, 200), seg(900, 300, 800, 300)]
    );
}

#[test]
fn trailing_run_is_dropped_when_last_point_repeats_the_closed_end() {
    // the break comes at index 3; the run closed there ends at (0, 10), and
    // so does the cloud
    let points = vec![pt(0, 0), pt(0, 5), pt(0, 10), pt(2, 0), pt(0, 10)];
    assert_eq!(create_segments(&points), vec![seg(0, 0, 0, 10)]);
}

#[test]
fn last_point_is_held_by_some_run() {
    // the break comes at the last point
    let points = vec![pt(0, 0), pt(0, 5), pt(0, 10), pt(2, 0)];
    assert_eq!(create_segments(&points), vec![seg(0, 0, 0, 10), seg(2, 0, 2, 0)]);
    // a run of one point seeds a wall of its own or joins one
    let walls = connect_segments(create_segments(&points));
    let mut runs = 0;
    for w in walls.iter() {
        runs += measured(w).len();
    }
    assert_eq!(runs, 2);
}

#[test]
fn runs_follow_the_cloud() {
    let clouds: Vec<Vec<Point>> = vec![
        corner(),
        vec![pt(1, 2), pt(1, 2)],
        vec![pt(0, 0), pt(0, 5), pt(0, 10), pt(2, 0)],
        vec![pt(1000, 0), pt(1000, 100), pt(1000, 200), pt(900, 300), pt(800, 300)],
        (0..40).map(|i| pt((i * 37) % 900 - 300, (i * 91) % 700)).collect(),
    ];
    for points in clouds.iter() {
        let runs = create_segments(points);
        assert!(!runs.is_empty());
        assert!(runs.len() <= points.len());
        // each run starts at the point after the end of the run before it
        let mut next = 0;
        for run in runs.iter() {
            assert_eq!(run.p1, points[next]);
            let end = (next..points.len()).find(|j| {
                points[*j] == run.p2
                    && (*j + 1 == points.len() || fails_between(points, next, *j + 1))
            });
            next = end.unwrap() + 1;
        }
    }
}

#[test]
fn end_to_end_corner() {
    let points = corner();
    let segments = create_segments(&points);
    assert_eq!(segments, vec![seg(0, 0, 0, 10), seg(2, 0, 5, 0)]);
    let walls = connect_segments(segments);
    assert_eq!(walls.len(), 2);
    assert_eq!(walls[0].segments, vec![SegmentType::Measured(seg(0, 0, 0, 10))]);
    assert_eq!(walls[1].segments, vec![SegmentType::Measured(seg(2, 0, 5, 0))]);
    assert_eq!(find_walls(&points), walls);
    // no wall spans the two runs
    for w in walls.iter() {
        assert!(bridges(w).is_empty());
        assert_eq!(measured(w).len(), 1);
    }
}

#[test]
fn collinear_segments_merge_into_one_wall() {
    let runs = vec![seg(0, 0, 1, 0), seg(2, 0, 3, 0), seg(5, 0, 9, 0), seg(20, 0, 21, 0)];
    let walls = connect_segments(runs.clone());
    assert_eq!(walls.len(), 1);
    assert_eq!(
        walls[0].segments,
        vec![
            SegmentType::Measured(seg(0, 0, 1, 0)),
            SegmentType::Interpolated(seg(1, 0, 2, 0)),
            SegmentType::Measured(seg(2, 0, 3, 0)),
            SegmentType::Interpolated(seg(3, 0, 5, 0)),
            SegmentType::Measured(seg(5, 0, 9, 0)),
            SegmentType::Interpolated(seg(9, 0, 20, 0)),
            SegmentType::Measured(seg(20, 0, 21, 0)),
        ]
    );
    assert_eq!(measured(&walls[0]), runs);
    assert_eq!(bridges(&walls[0]).len(), runs.len() - 1);
}

#[test]
fn merging_a_wall_again_changes_nothing() {
    let runs = vec![seg(0, 0, 1, 0), seg(2, 0, 3, 0), seg(5, 0, 9, 0)];
    let once = connect_segments(runs);
    let again = connect_segments(measured(&once[0]));
    assert_eq!(again, once);
}

#[test]
fn single_segment_is_a_wall_of_its_own() {
    let walls = connect_segments(vec![seg(4, 4, 8, 9)]);
    assert_eq!(walls.len(), 1);
    assert_eq!(walls[0].segments, vec![SegmentType::Measured(seg(4, 4, 8, 9))]);
}

#[test]
fn walls_follow_list_order() {
    let a = seg(0, 0, 1, 0);
    let b = seg(0, 0, 0, 1);
    let c = seg(2, 0, 3, 0);
    let d = seg(0, 7, 0, 8);
    let walls = connect_segments(vec![a, b, c, d]);
    assert_eq!(walls.len(), 2);
    assert_eq!(
        walls[0].segments,
        vec![
            SegmentType::Measured(a),
            SegmentType::Interpolated(seg(1, 0, 2, 0)),
            SegmentType::Measured(c),
        ]
    );
    assert_eq!(
        walls[1].segments,
        vec![
            SegmentType::Measured(b),
            SegmentType::Interpolated(seg(0, 1, 0, 7)),
            SegmentType::Measured(d),
        ]
    );
}

#[test]
fn later_runs_are_held_against_the_seed_only() {
    // slopes 0, 1/10, 2/10: the second joins the first, the third does not,
    // though it is within a tenth of the second
    let a = seg(0, 0, 10, 0);
    let b = seg(0, 0, 10, 1);
    let c = seg(0, 0, 10, 2);
    let walls = connect_segments(vec![a, b, c]);
    assert_eq!(walls.len(), 2);
    assert_eq!(measured(&walls[0]), vec![a, b]);
    assert_eq!(measured(&walls[1]), vec![c]);
}

#[test]
fn offset_tolerance_is_five() {
    assert_eq!(DISTANCE, 5);
    // constant terms 0 and -5
    let near = connect_segments(vec![seg(0, 0, 1, 0), seg(0, 5, 1, 5)]);
    assert_eq!(near.len(), 1);
    // constant terms 0 and -6
    let far = connect_segments(vec![seg(0, 0, 1, 0), seg(0, 6, 1, 6)]);
    assert_eq!(far.len(), 2);
    // the constant term grows with the length of the run: 0 and -6
    let long = connect_segments(vec![seg(0, 0, 1, 0), seg(0, 3, 2, 3)]);
    assert_eq!(long.len(), 2);
}

#[test]
fn every_run_lands_in_exactly_one_wall() {
    let runs = vec![
        seg(0, 0, 1, 0),
        seg(0, 0, 0, 1),
        seg(3, 0, 4, 0),
        seg(0, 0, 1, 1),
        seg(0, 3, 0, 9),
        seg(5, 5, 6, 6),
        seg(0, 0, 1, 5),
    ];
    let walls = connect_segments(runs.clone());
    let mut seen: Vec<Segment> = Vec::new();
    for w in walls.iter() {
        let m = measured(w);
        assert!(!m.is_empty());
        assert_eq!(bridges(w).len(), m.len() - 1);
        assert_eq!(w.segments.len(), 2 * m.len() - 1);
        seen.extend(m);
    }
    assert_eq!(seen.len(), runs.len());
    for r in runs.iter() {
        assert_eq!(seen.iter().filter(|s| *s == r).count(), 1);
    }
}
