use amicola::{HorizontalNotRasterable, LineSegment, Rat, RasterableLineSegment, Slope, V2};

#[test]
fn vertical_segment_probes() {
    let seg = LineSegment::new(V2::new(0, 0), V2::new(0, 100));
    assert_eq!(seg.slope(), Slope::Vertical);
    // A vertical segment never crosses a vertical probe line.
    assert_eq!(seg.sample_x(Rat::from_int(0)), None);
    assert_eq!(seg.sample_x(Rat::from_int(50)), None);
    // Every height within bounds crosses at the shared x-coordinate.
    let mid = seg.sample_y(Rat::from_int(50)).unwrap();
    assert!(mid.axis.eq_val(&Rat::from_int(0)));
    assert!(mid.t.eq_val(&Rat::new(1, 2)));
    assert!(seg.sample_y(Rat::from_int(0)).is_some());
    assert!(seg.sample_y(Rat::from_int(100)).is_some());
    assert_eq!(seg.sample_y(Rat::from_int(101)), None);
    assert_eq!(seg.sample_y(Rat::from_int(-1)), None);
}

#[test]
fn vertical_probe_t_is_bottom_based() {
    // The segment runs downwards, yet the reported t for a vertical segment
    // is measured from the bottom of its bounds, not from `start`.
    let seg = LineSegment::new(V2::new(0, 100), V2::new(0, 0));
    let hit = seg.sample_y(Rat::from_int(0)).unwrap();
    assert!(hit.t.eq_val(&Rat::from_int(0)));
    let top_hit = seg.sample_y(Rat::from_int(100)).unwrap();
    assert!(top_hit.t.eq_val(&Rat::from_int(1)));
}

#[test]
fn horizontal_segment_probes() {
    let seg = LineSegment::new(V2::new(100, 0), V2::new(0, 0));
    assert_eq!(seg.slope(), Slope::Horizontal);
    // A horizontal segment never crosses a horizontal probe line, even at
    // its own height.
    assert_eq!(seg.sample_y(Rat::from_int(0)), None);
    // A vertical probe within bounds crosses at the shared y-coordinate;
    // t is measured from the left of the bounds, not from `start`.
    let hit = seg.sample_x(Rat::from_int(50)).unwrap();
    assert!(hit.axis.eq_val(&Rat::from_int(0)));
    assert!(hit.t.eq_val(&Rat::new(1, 2)));
    assert!(seg.sample_x(Rat::from_int(0)).is_some());
    assert!(seg.sample_x(Rat::from_int(100)).is_some());
    assert_eq!(seg.sample_x(Rat::from_int(101)), None);
}

#[test]
fn defined_segment_probe_x() {
    // y = x - 2 on [3, 4].
    let seg = LineSegment::new(V2::new(3, 1), V2::new(4, 2));
    let hit = seg.sample_x(Rat::new(7, 2)).unwrap();
    assert!(hit.axis.eq_val(&Rat::new(3, 2)));
    assert!(hit.t.eq_val(&Rat::new(1, 2)));
    assert_eq!(seg.sample_x(Rat::new(5, 2)), None);
    assert_eq!(seg.sample_x(Rat::new(9, 2)), None);
}

#[test]
fn defined_probe_t_is_start_based() {
    // Reversed traversal: the Defined-slope t runs from `start`, so the
    // bottom endpoint of this downward segment has t == 1.
    let seg = LineSegment::new(V2::new(4, 2), V2::new(3, 1));
    let hit = seg.sample_y(Rat::from_int(1)).unwrap();
    assert!(hit.axis.eq_val(&Rat::from_int(3)));
    assert!(hit.t.eq_val(&Rat::from_int(1)));
    let top_hit = seg.sample_y(Rat::from_int(2)).unwrap();
    assert!(top_hit.t.eq_val(&Rat::from_int(0)));
}

#[test]
fn rasterable_conversion_rejects_horizontal() {
    let horizontal = LineSegment::new(V2::new(100, 0), V2::new(0, 0));
    assert_eq!(
        RasterableLineSegment::try_from(horizontal),
        Err(HorizontalNotRasterable)
    );
    assert_eq!(RasterableLineSegment::new(V2::new(100, 0), V2::new(0, 0)), None);
}

#[test]
fn rasterable_conversion_accepts_non_horizontal() {
    let vertical = LineSegment::new(V2::new(0, 0), V2::new(0, 100));
    let wrapped = RasterableLineSegment::try_from(vertical).unwrap();
    assert_eq!(
        Some(wrapped),
        RasterableLineSegment::new(V2::new(0, 0), V2::new(0, 100))
    );
    let sloped = RasterableLineSegment::new(V2::new(3, 1), V2::new(4, 2)).unwrap();
    assert_eq!(sloped.bookends(), (V2::new(3, 1), V2::new(4, 2)));
}

#[test]
fn rasterable_probes_delegate() {
    let seg = RasterableLineSegment::new(V2::new(0, 0), V2::new(0, 100)).unwrap();
    assert_eq!(seg.slope(), Slope::Vertical);
    let hit = seg.sample_y(Rat::from_int(25)).unwrap();
    assert!(hit.axis.eq_val(&Rat::from_int(0)));
    assert!(hit.t.eq_val(&Rat::new(1, 4)));
    assert_eq!(seg.sample_x(Rat::from_int(0)), None);
    assert_eq!(seg.bounds().top, 100);
}
