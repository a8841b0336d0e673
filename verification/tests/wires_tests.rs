use intcode::wires::{Point, PointAxisTranslation, Wire, WireSegment};

#[test]
fn it_correctly_determines_closest_intersection_for_first_input() {
    let wire1 = Wire::new_from_raw("R8,U5,L5,D3");
    let wire2 = Wire::new_from_raw("U7,R6,D4,L4");

    assert_eq!(
        6,
        wire1
            .closest_intersection_to_origin(&wire2)
            .manhattan_distance_to_origin()
    )
}

#[test]
fn it_correctly_determines_closest_intersection_for_second_input() {
    let wire1 = Wire::new_from_raw("R75,D30,R83,U83,L12,D49,R71,U7,L72");
    let wire2 = Wire::new_from_raw("U62,R66,U55,R34,D71,R55,D58,R83");

    assert_eq!(
        159,
        wire1
            .closest_intersection_to_origin(&wire2)
            .manhattan_distance_to_origin()
    )
}

#[test]
fn it_correctly_determines_closest_intersection_for_third_input() {
    let wire1 = Wire::new_from_raw("R98,U47,R26,D63,R33,U87,L62,D20,R33,U53,R51");
    let wire2 = Wire::new_from_raw("U98,R91,D20,R16,D67,R40,U7,R15,U6,R7");

    assert_eq!(
        135,
        wire1
            .closest_intersection_to_origin(&wire2)
            .manhattan_distance_to_origin()
    )
}

#[test]
fn it_correctly_detects_intersection() {
    let l1 = WireSegment::new(Point::new(4, 0), Point::new(6, 10));
    let l2 = WireSegment::new(Point::new(0, 3), Point::new(10, 7));
    assert_eq!(Point::new(5, 5), l1.intersection(&l2).unwrap())
}

#[test]
fn it_correctly_detects_no_intersection() {
    let l1 = WireSegment::new(Point::new(0, 0), Point::new(1, 1));
    let l2 = WireSegment::new(Point::new(1, 2), Point::new(4, 5));
    assert_eq!(None, l1.intersection(&l2))
}

#[test]
fn it_correctly_detects_no_intersection_for_parallel_lines() {
    let l1 = WireSegment::new(Point::new(0, 0), Point::new(1, 1));
    let l2 = WireSegment::new(Point::new(0, 1), Point::new(1, 2));
    assert_eq!(None, l1.intersection(&l2))
}

#[test]
fn it_correctly_detects_no_intersection_outside_segments_even_if_infinite_lines_would_have_intersected(
) {
    let l1 = WireSegment::new(Point::new(0, 0), Point::new(1, 1));
    let l2 = WireSegment::new(Point::new(2, 3), Point::new(3, 2));
    assert_eq!(None, l1.intersection(&l2))
}

#[test]
fn it_returns_valid_up_translation() {
    assert_eq!(
        PointAxisTranslation::Up(10),
        PointAxisTranslation::from_str("U10").unwrap()
    );
}

#[test]
fn it_returns_valid_right_translation() {
    assert_eq!(
        PointAxisTranslation::Right(10),
        PointAxisTranslation::from_str("R10").unwrap()
    );
}

#[test]
fn it_returns_valid_down_translation() {
    assert_eq!(
        PointAxisTranslation::Down(10),
        PointAxisTranslation::from_str("D10").unwrap()
    );
}

#[test]
fn it_returns_valid_left_translation() {
    assert_eq!(
        PointAxisTranslation::Left(10),
        PointAxisTranslation::from_str("L10").unwrap()
    );
}

#[test]
fn it_returns_none_for_invalid_translations() {
    if let Some(_) = PointAxisTranslation::from_str("Z10") {
        panic!("expected nothing!")
    }
    if let Some(_) = PointAxisTranslation::from_str("Z1Y0") {
        panic!("expected nothing!")
    }
}

#[test]
fn a_wire_traces_its_segments_from_the_origin() {
    let wire = Wire::new_from_raw("R8,U5");
    let segments = wire.segments();
    assert_eq!(2, segments.len());
    assert_eq!(
        WireSegment::new(Point::new(0, 0), Point::new(8, 0)),
        segments[0]
    );
    assert_eq!(
        WireSegment::new(Point::new(8, 0), Point::new(8, 5)),
        segments[1]
    );
}
