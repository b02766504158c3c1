use exshape_shape::point::Point;
use exshape_shape::ring::Ring;
use exshape_shape::ShapeError;

// Coordinates live on a fixed-point grid: here one coordinate unit of the
// shape data is 100 grid steps, so 0.45 becomes 45 and 10.0 becomes 1000.

fn pt(x: i32, y: i32) -> Point {
    Point { x, y }
}

fn unit_square() -> Ring {
    Ring::decode(vec![pt(-50, -50), pt(-50, 50), pt(50, 50), pt(50, -50)]).unwrap()
}

fn u_shape() -> Ring {
    Ring::decode(vec![
        pt(-50, -50),
        pt(-50, 50),
        pt(-40, 50),
        pt(-40, -40),
        pt(40, -40),
        pt(40, 50),
        pt(50, 50),
        pt(50, -50),
    ])
    .unwrap()
}

#[test]
fn basic_sanity_check() {
    let sq = unit_square();
    assert!(sq.contains(&pt(0, 0)));
    assert!(!sq.contains(&pt(1000, 0)));
    assert!(!sq.contains(&pt(-1000, 0)));
    assert!(!sq.contains(&pt(0, 1000)));
    assert!(!sq.contains(&pt(0, -1000)));
}

#[test]
fn more_complex_sanity_check() {
    let shape = u_shape();
    assert!(shape.contains(&pt(-45, 0)));
    assert!(shape.contains(&pt(45, 0)));
    assert!(shape.contains(&pt(0, -45)));
    assert!(!shape.contains(&pt(0, 45)));
    assert!(!shape.contains(&pt(0, 0)));
    assert!(!shape.contains(&pt(1000, 0)));
    assert!(!shape.contains(&pt(-1000, 0)));
    assert!(!shape.contains(&pt(0, 1000)));
    assert!(!shape.contains(&pt(0, -1000)));
}

#[test]
fn unsliced_gives_textbook_results() {
    let sq = unit_square();
    assert!(sq.contains_unsliced(&pt(0, 0)));
    assert!(!sq.contains_unsliced(&pt(1000, 0)));
    assert!(!sq.contains_unsliced(&pt(-1000, 0)));
    assert!(!sq.contains_unsliced(&pt(0, 1000)));
    assert!(!sq.contains_unsliced(&pt(0, -1000)));
    let shape = u_shape();
    assert!(shape.contains_unsliced(&pt(-45, 0)));
    assert!(shape.contains_unsliced(&pt(45, 0)));
    assert!(shape.contains_unsliced(&pt(0, -45)));
    assert!(!shape.contains_unsliced(&pt(0, 45)));
    assert!(!shape.contains_unsliced(&pt(0, 0)));
}

#[test]
fn banded_and_unbanded_agree_everywhere() {
    // Sweep a grid around each ring, including rows exactly on the ring's
    // own vertical extremes, where a boundary misclassification would show.
    for ring in [unit_square(), u_shape()] {
        let mut y: i32 = -60;
        while y <= 60 {
            let mut x: i32 = -60;
            while x <= 60 {
                let p = pt(x, y);
                assert_eq!(ring.contains(&p), ring.contains_unsliced(&p));
                x += 1;
            }
            y += 5;
        }
        for y in [-50, 50, -51, 51] {
            for x in [-55, -50, -45, -1, 0, 1, 45, 50, 55] {
                let p = pt(x, y);
                assert_eq!(ring.contains(&p), ring.contains_unsliced(&p));
            }
        }
    }
}

#[test]
fn decode_rejects_empty_ring() {
    let r = Ring::decode(Vec::new());
    assert_eq!(r.unwrap_err(), ShapeError::BadArg);
}

#[test]
fn decode_then_encode_is_identity() {
    let points = vec![pt(-50, -50), pt(-50, 50), pt(50, 50), pt(50, -50)];
    let ring = Ring::decode(points.clone()).unwrap();
    assert_eq!(ring.encode(), points);
    assert_eq!(*ring.first_point(), pt(-50, -50));
}

#[test]
fn winding_direction_by_signed_area() {
    // The unit square as written runs up the left side first: clockwise.
    assert!(unit_square().is_clockwise());
    // The same square traversed in reverse order is counter-clockwise.
    let rev = Ring::decode(vec![pt(50, -50), pt(50, 50), pt(-50, 50), pt(-50, -50)]).unwrap();
    assert!(!rev.is_clockwise());
    // A degenerate ring has zero area, so it is not clockwise: a hole.
    let dot = Ring::decode(vec![pt(3, 4)]).unwrap();
    assert!(!dot.is_clockwise());
}

#[test]
fn single_point_ring_contains_nothing() {
    let dot = Ring::decode(vec![pt(3, 4)]).unwrap();
    assert!(!dot.contains(&pt(3, 4)));
    assert!(!dot.contains_unsliced(&pt(3, 4)));
    assert!(!dot.contains(&pt(0, 0)));
}

#[test]
fn zero_height_ring_is_handled() {
    // All points on one row: the padded extent still has positive height,
    // so the band computation never divides by zero.
    let flat = Ring::decode(vec![pt(-10, 0), pt(0, 0), pt(10, 0)]).unwrap();
    assert!(!flat.contains(&pt(0, 0)));
    assert!(!flat.contains(&pt(0, 5)));
    assert_eq!(flat.contains(&pt(0, 0)), flat.contains_unsliced(&pt(0, 0)));
}
