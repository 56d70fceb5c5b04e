use amicola::{Bounds, LineSegment, Rat, Slope, V2};

#[test]
fn line_segment_new_valid() {
    let seg = LineSegment::new(V2::new(3, 1), V2::new(4, 2));
    assert_eq!(
        seg.slope(),
        Slope::Defined { m: Rat::from_int(1), b: Rat::new(-2, 1) }
    );
    assert_eq!(
        seg.bounds(),
        Bounds { left: 3, right: 4, top: 2, bottom: 1 }
    );
    assert_eq!(seg.bookends(), (V2::new(3, 1), V2::new(4, 2)));
    assert_eq!(seg.length_sq(), 2);
}

#[test]
fn line_segment_new_valid_steep_slope() {
    let seg = LineSegment::new(V2::new(3, 1), V2::new(4, 3));
    assert_eq!(
        seg.slope(),
        Slope::Defined { m: Rat::from_int(2), b: Rat::new(-5, 1) }
    );
    assert_eq!(
        seg.bounds(),
        Bounds { left: 3, right: 4, top: 3, bottom: 1 }
    );
    assert_eq!(seg.bookends(), (V2::new(3, 1), V2::new(4, 3)));
    assert_eq!(seg.length_sq(), 5);
}

#[test]
fn line_segment_new_invalid() {
    let seg = LineSegment::new(V2::new(3, 1), V2::new(6, 1));
    assert_eq!(seg.slope(), Slope::Horizontal);
    assert_eq!(
        seg.bounds(),
        Bounds { left: 3, right: 6, top: 1, bottom: 1 }
    );
    assert_eq!(seg.bookends(), (V2::new(3, 1), V2::new(6, 1)));
    assert_eq!(seg.length_sq(), 9);
}

#[test]
fn sample() {
    let segment = LineSegment::new(V2::new(3, 1), V2::new(4, 2));
    let hit_bottom = segment.sample_y(Rat::from_int(1)).unwrap();
    assert!(hit_bottom.axis.eq_val(&Rat::from_int(3)));
    assert!(hit_bottom.t.eq_val(&Rat::from_int(0)));
    let hit_middle = segment.sample_y(Rat::new(3, 2)).unwrap();
    assert!(hit_middle.axis.eq_val(&Rat::new(7, 2)));
    assert!(hit_middle.t.eq_val(&Rat::new(1, 2)));
    let hit_top = segment.sample_y(Rat::from_int(2)).unwrap();
    assert!(hit_top.axis.eq_val(&Rat::from_int(4)));
    assert!(hit_top.t.eq_val(&Rat::from_int(1)));
    assert_eq!(segment.sample_y(Rat::new(21, 10)), None);
}

#[test]
fn line_segment_new_triangle_edges() {
    let rising = LineSegment::new(V2::new(0, 0), V2::new(0, 100));
    assert_eq!(rising.slope(), Slope::Vertical);
    assert_eq!(
        rising.bounds(),
        Bounds { left: 0, right: 0, top: 100, bottom: 0 }
    );
    assert_eq!(rising.length_sq(), 100 * 100);

    let hypotenuse = LineSegment::new(V2::new(0, 100), V2::new(100, 0));
    match hypotenuse.slope() {
        Slope::Defined { m, b } => {
            assert!(m.eq_val(&Rat::from_int(-1)));
            assert!(b.eq_val(&Rat::from_int(100)));
        }
        other => panic!("expected a defined slope, got {:?}", other),
    }
    assert_eq!(
        hypotenuse.bounds(),
        Bounds { left: 0, right: 100, top: 100, bottom: 0 }
    );
    assert_eq!(hypotenuse.length_sq(), 100 * 100 + 100 * 100);

    let base = LineSegment::new(V2::new(100, 0), V2::new(0, 0));
    assert_eq!(base.slope(), Slope::Horizontal);
    assert_eq!(
        base.bounds(),
        Bounds { left: 0, right: 100, top: 0, bottom: 0 }
    );
    assert_eq!(base.length_sq(), 100 * 100);
}
