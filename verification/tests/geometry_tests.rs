use lidar_map::geometry::{all_in_range, isqrt, Line, Point, Ratio, Segment, Vec2, COORD_LIMIT};

fn pt(x: i64, y: i64) -> Point {
    Vec2::new(x, y)
}

#[test]
fn vec2_new_keeps_coordinates() {
    let v = Vec2::new(3u8, 4u8);
    assert_eq!(v.x, 3);
    assert_eq!(v.y, 4);
    let p = pt(-7, 9);
    assert_eq!((p.x, p.y), (-7, 9));
}

#[test]
fn vec2_from_and_into_pair() {
    let v: Vec2<i32> = Vec2::from((5, -6));
    assert_eq!(v, Vec2::new(5, -6));
    assert_eq!(v.into_pair(), (5, -6));
    let w: Vec2<i64> = (1, 2).into();
    assert_eq!(w, pt(1, 2));
    let pair: (i64, i64) = pt(7, -8).into();
    assert_eq!(pair, (7, -8));
    assert_eq!(<(u8, u8)>::from(Vec2::new(3u8, 4u8)), (3, 4));
}

#[test]
fn length_is_rounded_down() {
    assert_eq!(pt(3, 4).length(), 5);
    assert_eq!(pt(-3, -4).length(), 5);
    assert_eq!(pt(0, 0).length(), 0);
    assert_eq!(pt(1, 1).length(), 1);
    assert_eq!(pt(2, 2).length(), 2);
    assert_eq!(pt(600, 0).length(), 600);
    assert_eq!(pt(0, -65535).length(), 65535);
    assert_eq!(pt(3, 4).length_squared(), 25);
    assert_eq!(pt(i64::MIN, i64::MIN).length(), 13043817825332782212);
}

#[test]
fn integer_square_root() {
    assert_eq!(isqrt(0), 0);
    assert_eq!(isqrt(1), 1);
    assert_eq!(isqrt(3), 1);
    assert_eq!(isqrt(4), 2);
    assert_eq!(isqrt(15), 3);
    assert_eq!(isqrt(16), 4);
    assert_eq!(isqrt(17), 4);
    assert_eq!(isqrt(1_000_000_000_000), 1_000_000);
    assert_eq!(isqrt(u128::MAX), u64::MAX);
}

#[test]
fn range_of_coordinates() {
    assert!(pt(COORD_LIMIT, -COORD_LIMIT).is_in_range());
    assert!(!pt(COORD_LIMIT + 1, 0).is_in_range());
    assert!(!pt(0, -COORD_LIMIT - 1).is_in_range());
    assert!(all_in_range(&[pt(0, 0), pt(1, 1)]));
    assert!(all_in_range(&[]));
    assert!(!all_in_range(&[pt(0, 0), pt(0, COORD_LIMIT + 1)]));
}

#[test]
fn same_as_compares_coordinates() {
    assert!(pt(1, 2).same_as(&pt(1, 2)));
    assert!(!pt(1, 2).same_as(&pt(2, 1)));
    assert!(!pt(1, 2).same_as(&pt(1, 3)));
}

#[test]
fn line_constructors() {
    let l = Line::new(1, 2, 3);
    assert_eq!((l.a, l.b, l.c), (1, 2, 3));
    let m = Line::from2(2, 3);
    assert_eq!((m.a, m.b, m.c), (2, -1, 3));
}

#[test]
fn line_through_a_segment() {
    let l = Line::from_segment(&Segment::new(pt(1, 2), pt(4, 6)));
    assert_eq!((l.a, l.b, l.c), (-4, 3, -2));
    let v = Line::from_segment(&Segment::new(pt(0, 0), pt(0, 10)));
    assert_eq!((v.a, v.b, v.c), (-10, 0, 0));
    let h = Line::from_segment(&Segment::new(pt(2, 0), pt(5, 0)));
    assert_eq!((h.a, h.b, h.c), (0, 3, 0));
    let d = Line::from_segment(&Segment::new(pt(7, 7), pt(7, 7)));
    assert_eq!((d.a, d.b, d.c), (0, 0, 0));
}

#[test]
fn offset_and_normal() {
    let l = Line::new(-4, 3, -2);
    assert_eq!(l.offset_at(pt(1, 2)), 0);
    assert_eq!(l.offset_at(pt(4, 6)), 0);
    assert_eq!(l.offset_at(pt(10, 0)), -42);
    assert_eq!(l.normal_squared(), 25);
}

#[test]
fn distance_is_rounded_down() {
    let l = Line::new(-4, 3, -2);
    assert_eq!(l.distance(pt(1, 2)), Some(0));
    assert_eq!(l.distance(pt(0, 0)), Some(0));
    assert_eq!(l.distance(pt(10, 0)), Some(8));
    assert_eq!(Line::new(0, 1, 0).distance(pt(123, -45)), Some(45));
    assert_eq!(Line::new(0, 0, 0).distance(pt(1, 1)), None);
    assert_eq!(Line::new(0, 0, 5).distance(pt(1, 1)), None);
}

#[test]
fn segment_distance() {
    let s = Segment::new(pt(0, 0), pt(2, 0));
    assert_eq!(s.distance(pt(0, 5)), Some(5));
    assert_eq!(s.distance(pt(100, -7)), Some(7));
    let one_point = Segment::new(pt(3, 3), pt(3, 3));
    assert_eq!(one_point.distance(pt(0, 5)), None);
    assert_eq!(s.p1, pt(0, 0));
    assert_eq!(s.p2, pt(2, 0));
}

#[test]
fn parallel_lines() {
    assert!(Line::new(1, 2, 0).is_parallel(&Line::new(2, 4, 5)));
    assert!(!Line::new(1, 2, 0).is_parallel(&Line::new(2, 5, 5)));
    assert!(Line::new(1, 0, 0).is_parallel(&Line::new(-3, 0, 7)));
    assert!(!Line::new(1, 0, 0).is_parallel(&Line::new(1, 1, 0)));
    assert!(!Line::new(1, 1, 0).is_parallel(&Line::new(1, 0, 0)));
    // the line with no direction counts as vertical
    assert!(Line::new(0, 0, 0).is_parallel(&Line::new(5, 0, 0)));
}

#[test]
fn close_to_parallel_lines() {
    let tenth = Ratio::new(1, 10);
    let base = Line::new(10, -10, 0);
    assert!(base.is_close_to_parallel(&Line::new(11, -10, 0), tenth));
    assert!(base.is_close_to_parallel(&Line::new(9, -10, 0), tenth));
    assert!(!base.is_close_to_parallel(&Line::new(12, -10, 0), tenth));
    assert!(base.is_close_to_parallel(&Line::new(12, -10, 0), Ratio::new(1, 5)));
    assert!(base.is_close_to_parallel(&Line::new(20, -20, 9), Ratio::new(0, 1)));
    // one of them vertical: never close at a tolerance below one
    assert!(!Line::new(1, 0, 0).is_close_to_parallel(&Line::new(1, 1, 0), tenth));
    assert!(!Line::new(1, 1, 0).is_close_to_parallel(&Line::new(1, 0, 0), tenth));
    // the sum of the two b decides there
    assert!(Line::new(1, 0, 0).is_close_to_parallel(&Line::new(1, 1, 0), Ratio::new(2, 1)));
    assert!(!Line::new(1, 0, 0).is_close_to_parallel(&Line::new(1, 1, 0), Ratio::new(1, 1)));
    // both vertical
    assert!(Line::new(1, 0, 0).is_close_to_parallel(&Line::new(2, 0, 0), tenth));
}

#[test]
fn close_to_collinear_lines() {
    let tenth = Ratio::new(1, 10);
    let base = Line::new(0, 1, 0);
    assert!(base.is_close_to_collinear(&Line::new(0, 1, -5), tenth, 5));
    assert!(base.is_close_to_collinear(&Line::new(0, 1, 5), tenth, 5));
    assert!(!base.is_close_to_collinear(&Line::new(0, 1, -6), tenth, 5));
    assert!(!base.is_close_to_collinear(&Line::new(1, 0, 0), tenth, 5));
    assert!(base.is_close_to_collinear(&Line::new(0, 1, -6), tenth, 6));
}
