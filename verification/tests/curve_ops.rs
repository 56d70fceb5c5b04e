use amicola::{LineSegment, Rat, RasterableLineSegment, RatV2, Slope, V2};

#[test]
fn sample_t_matches_bookends() {
    let seg = LineSegment::new(V2::new(3, 1), V2::new(4, 2));
    let (first, second) = seg.bookends();
    let at_zero = seg.sample_t(Rat::from_int(0)).unwrap();
    assert!(at_zero.x.eq_val(&Rat::from_int(first.x)));
    assert!(at_zero.y.eq_val(&Rat::from_int(first.y)));
    let at_one = seg.sample_t(Rat::from_int(1)).unwrap();
    assert!(at_one.x.eq_val(&Rat::from_int(second.x)));
    assert!(at_one.y.eq_val(&Rat::from_int(second.y)));
}

#[test]
fn sample_t_interpolates_and_rejects_out_of_range() {
    let seg = LineSegment::new(V2::new(3, 1), V2::new(4, 2));
    let mid: RatV2 = seg.sample_t(Rat::new(1, 2)).unwrap();
    assert!(mid.x.eq_val(&Rat::new(7, 2)));
    assert!(mid.y.eq_val(&Rat::new(3, 2)));
    assert_eq!(seg.sample_t(Rat::new(-1, 2)), None);
    assert_eq!(seg.sample_t(Rat::new(3, 2)), None);
}

#[test]
fn sample_t_follows_traversal_order() {
    // Reversing the endpoints reverses the parametric direction.
    let seg = LineSegment::new(V2::new(4, 2), V2::new(3, 1));
    let at_zero = seg.sample_t(Rat::from_int(0)).unwrap();
    assert!(at_zero.x.eq_val(&Rat::from_int(4)));
    assert!(at_zero.y.eq_val(&Rat::from_int(2)));
    let at_one = seg.sample_t(Rat::from_int(1)).unwrap();
    assert!(at_one.x.eq_val(&Rat::from_int(3)));
    assert!(at_one.y.eq_val(&Rat::from_int(1)));
}

#[test]
fn rasterable_sample_t_delegates() {
    let seg = RasterableLineSegment::new(V2::new(0, 0), V2::new(0, 100)).unwrap();
    let quarter = seg.sample_t(Rat::new(1, 4)).unwrap();
    assert!(quarter.x.eq_val(&Rat::from_int(0)));
    assert!(quarter.y.eq_val(&Rat::from_int(25)));
    assert_eq!(seg.sample_t(Rat::new(5, 4)), None);
}

#[test]
fn translate_preserves_direction_and_length() {
    let seg = LineSegment::new(V2::new(3, 1), V2::new(4, 2));
    let moved = seg.translate(V2::new(1, 0), 2);
    assert_eq!(moved.bookends(), (V2::new(5, 1), V2::new(6, 2)));
    assert_eq!(moved.length_sq(), seg.length_sq());
    assert_eq!(
        moved.slope(),
        Slope::Defined { m: Rat::from_int(1), b: Rat::new(-4, 1) }
    );
}

#[test]
fn swapped_endpoints_same_classification() {
    let forward = LineSegment::new(V2::new(3, 1), V2::new(4, 3));
    let backward = LineSegment::new(V2::new(4, 3), V2::new(3, 1));
    assert_eq!(forward.slope(), backward.slope());
    assert_eq!(forward.bounds(), backward.bounds());
    assert_eq!(forward.length_sq(), backward.length_sq());
    assert_eq!(backward.bookends(), (V2::new(4, 3), V2::new(3, 1)));
}

#[test]
fn round_trip_on_line() {
    // Every reported crossing satisfies y == m*axis + b exactly.
    let seg = LineSegment::new(V2::new(0, 100), V2::new(100, 0));
    let (m, b) = match seg.slope() {
        Slope::Defined { m, b } => (m, b),
        other => panic!("expected a defined slope, got {:?}", other),
    };
    for yi in [0i64, 1, 17, 50, 99, 100] {
        let y = Rat::from_int(yi);
        let hit = seg.sample_y(y).unwrap();
        // y * axis.den * m.den == m.num * axis.num * y.den + b.num * axis.den * y.den
        let lhs = i128::from(yi) * hit.axis.den * m.den;
        let rhs = m.num * hit.axis.num + b.num * hit.axis.den;
        assert_eq!(lhs, rhs);
    }
}

#[test]
fn boundary_probes_are_inclusive() {
    let seg = LineSegment::new(V2::new(3, 1), V2::new(4, 2));
    let bounds = seg.bounds();
    assert!(seg.sample_y(Rat::from_int(bounds.bottom)).is_some());
    assert!(seg.sample_y(Rat::from_int(bounds.top)).is_some());
    // Any rational strictly above the top misses, however close.
    assert_eq!(seg.sample_y(Rat::new(2001, 1000)), None);
    assert_eq!(seg.sample_y(Rat::new(999, 1000)), None);
}

#[test]
fn vector_arithmetic() {
    let a = V2::new(3, 4);
    let b = V2::new(1, -2);
    assert_eq!(a.plus(b), V2::new(4, 2));
    assert_eq!(a.minus(b), V2::new(2, 6));
    assert_eq!(b.scale(3), V2::new(3, -6));
    assert_eq!(a.norm_sq(), 25);
    assert_eq!(a.dist_sq(b), 40);
}

#[test]
fn rational_values() {
    assert!(Rat::new(2, 4).eq_val(&Rat::new(1, 2)));
    assert!(Rat::new(1, -2).eq_val(&Rat::new(-1, 2)));
    assert!(!Rat::new(1, 2).eq_val(&Rat::new(1, 3)));
    assert!(Rat::new(1, 3).le_val(&Rat::new(1, 2)));
    assert!(!Rat::new(1, 2).le_val(&Rat::new(1, 3)));
    assert!(Rat::from_int(-7).eq_val(&Rat::new(7, -1)));
}
