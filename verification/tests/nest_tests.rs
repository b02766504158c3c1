use exshape_shape::nest::{nest_holes, nest_polygon, process, ContainMode};
use exshape_shape::point::Point;
use exshape_shape::poly::Poly;
use exshape_shape::ring::Ring;
use exshape_shape::ShapeError;

fn pt(x: i32, y: i32) -> Point {
    Point { x, y }
}

// A square traversed up the left side first is clockwise: an exterior.
fn cw_square(cx: i32, cy: i32, h: i32) -> Vec<Point> {
    vec![
        pt(cx - h, cy - h),
        pt(cx - h, cy + h),
        pt(cx + h, cy + h),
        pt(cx + h, cy - h),
    ]
}

// The same square traversed the other way round is counter-clockwise: a hole.
fn ccw_square(cx: i32, cy: i32, h: i32) -> Vec<Point> {
    vec![
        pt(cx + h, cy - h),
        pt(cx + h, cy + h),
        pt(cx - h, cy + h),
        pt(cx - h, cy - h),
    ]
}

fn ring(points: Vec<Point>) -> Ring {
    Ring::decode(points).unwrap()
}

fn encoded(polys: &[Poly]) -> Vec<Vec<Vec<Point>>> {
    polys.iter().map(|p| p.encode()).collect()
}

#[test]
fn single_polygon_takes_every_hole() {
    // One exterior and several holes: each hole is attached to that polygon
    // whatever its position — even a hole lying entirely outside it.
    let ext = cw_square(0, 0, 50);
    let h1 = ccw_square(0, 0, 5);
    let h2 = ccw_square(2000, 0, 5);
    let h3 = ccw_square(-20, 20, 5);
    let polys = nest_polygon(vec![
        ring(ext.clone()),
        ring(h1.clone()),
        ring(h2.clone()),
        ring(h3.clone()),
    ]);
    assert_eq!(encoded(&polys), vec![vec![ext, h1, h2, h3]]);
}

#[test]
fn orphan_hole_becomes_its_own_polygon() {
    // No exterior at all: the hole is wrapped as a polygon whose sole
    // "exterior" ring is the hole itself.
    let h = ccw_square(0, 0, 5);
    let polys = nest_polygon(vec![ring(h.clone())]);
    assert_eq!(encoded(&polys), vec![vec![h]]);
}

#[test]
fn hole_goes_to_polygon_containing_first_point() {
    // Two disjoint exteriors; the hole's first point lies inside the second.
    // The hole is attached to the second polygon, although the first comes
    // earlier in the input.
    let a = cw_square(-200, 0, 50);
    let b = cw_square(200, 0, 50);
    let h = ccw_square(200, 0, 10);
    let polys = nest_polygon(vec![ring(a.clone()), ring(b.clone()), ring(h.clone())]);
    assert_eq!(encoded(&polys), vec![vec![a], vec![b, h]]);
}

#[test]
fn unassignable_hole_falls_back_to_last_polygon() {
    // Two exteriors, a hole contained in neither: it is smashed onto the
    // last polygon rather than dropped.
    let a = cw_square(-200, 0, 50);
    let b = cw_square(200, 0, 50);
    let h = ccw_square(0, 500, 10);
    let polys = nest_polygon(vec![ring(a.clone()), ring(b.clone()), ring(h.clone())]);
    assert_eq!(encoded(&polys), vec![vec![a], vec![b, h]]);
}

#[test]
fn exterior_order_is_preserved() {
    // A hole may precede its exterior in the input; classification keeps the
    // exteriors' relative order and the holes' relative order.
    let a = cw_square(-200, 0, 50);
    let b = cw_square(200, 0, 50);
    let ha = ccw_square(-200, 0, 10);
    let hb = ccw_square(200, 0, 10);
    let polys = nest_polygon(vec![
        ring(hb.clone()),
        ring(a.clone()),
        ring(ha.clone()),
        ring(b.clone()),
    ]);
    assert_eq!(encoded(&polys), vec![vec![a, ha], vec![b, hb]]);
}

#[test]
fn nesting_passes_rings_through_untouched() {
    // Every ring of the output is byte-for-byte one of the input rings:
    // nesting regroups, it never rewrites a point sequence.
    let input = vec![
        cw_square(-200, 0, 50),
        ccw_square(-200, 0, 10),
        cw_square(200, 0, 50),
        ccw_square(210, 10, 5),
    ];
    let polys = nest_polygon(input.iter().cloned().map(ring).collect());
    let mut out: Vec<Vec<Point>> = Vec::new();
    for p in &polys {
        out.extend(p.encode());
    }
    let mut expect = input.clone();
    let key = |ps: &Vec<Point>| ps.iter().map(|p| (p.x, p.y)).collect::<Vec<_>>();
    out.sort_by_key(key);
    expect.sort_by_key(key);
    assert_eq!(out, expect);
}

#[test]
fn nest_holes_on_separated_input() {
    // The second entry point: an already-separated polygon list and a list
    // of already-classified hole rings, same assignment policy.
    let a = cw_square(-200, 0, 50);
    let b = cw_square(200, 0, 50);
    let h = ccw_square(-200, 0, 10);
    let mut polys = vec![
        Poly::from_ring(ring(a.clone())),
        Poly::from_ring(ring(b.clone())),
    ];
    nest_holes(&mut polys, vec![ring(h.clone())]);
    assert_eq!(encoded(&polys), vec![vec![a, h], vec![b]]);
}

#[test]
fn process_wraps_hole_when_no_polygons() {
    let h = ccw_square(0, 0, 5);
    let mut polys: Vec<Poly> = Vec::new();
    process(&mut polys, ring(h.clone()), ContainMode::Banded);
    assert_eq!(encoded(&polys), vec![vec![h]]);
}

#[test]
fn process_attaches_unconditionally_to_lone_polygon() {
    let ext = cw_square(0, 0, 50);
    let h = ccw_square(2000, 2000, 5);
    let mut polys = vec![Poly::from_ring(ring(ext.clone()))];
    process(&mut polys, ring(h.clone()), ContainMode::Unbanded);
    assert_eq!(encoded(&polys), vec![vec![ext, h]]);
}

#[test]
fn poly_decode_rejects_empty_and_encodes_back() {
    assert_eq!(Poly::decode(Vec::new()).unwrap_err(), ShapeError::BadArg);
    let ext = cw_square(0, 0, 50);
    let h = ccw_square(0, 0, 5);
    let poly = Poly::decode(vec![ring(ext.clone()), ring(h.clone())]).unwrap();
    assert_eq!(poly.encode(), vec![ext.clone(), h]);
    assert_eq!(poly.first_ring().encode(), ext);
}

#[test]
fn push_appends_in_order() {
    let ext = cw_square(0, 0, 50);
    let h1 = ccw_square(0, 0, 5);
    let h2 = ccw_square(10, 10, 5);
    let mut poly = Poly::from_ring(ring(ext.clone()));
    poly.push(ring(h1.clone()));
    poly.push(ring(h2.clone()));
    assert_eq!(poly.encode(), vec![ext, h1, h2]);
}
