use geom2::{Circle, Frac, HalfPlane, Location, OverlapClass, Point, Polygon, RPoint, Shape};

fn pt(x: i64, y: i64) -> Point {
    Point::new(x, y)
}

#[test]
fn square() {
    let square = Polygon::new(vec![pt(0, 0), pt(3, 0), pt(3, 2), pt(0, 2)]);
    let clump = square.clump();
    assert!(clump.area.eqv(&Frac::from_int(6)));
    assert!(clump.centroid.eqv(&RPoint::new(3, 2, 2)));
}

#[test]
fn triangle_clump() {
    // Right triangle (0,0), (6,0), (0,6): area 18, centroid (2, 2)
    let tri = Polygon::new(vec![pt(0, 0), pt(6, 0), pt(0, 6)]);
    let clump = tri.clump();
    assert!(clump.area.eqv(&Frac::from_int(18)));
    assert!(clump.centroid.eqv(&RPoint::from_point(pt(2, 2))));
}

#[test]
fn polygon_vertices() {
    let poly = Polygon::new(vec![pt(0, 0), pt(1, 0), pt(0, 1)]);
    let vs = poly.vertices();
    assert_eq!(vs.len(), 3);
    assert_eq!(vs[1], pt(1, 0));
}

#[test]
fn location_from_distance() {
    assert_eq!(Location::from_distance(-3), Location::Inside);
    assert_eq!(Location::from_distance(0), Location::AtEdge);
    assert_eq!(Location::from_distance(7), Location::Outside);
}

#[test]
fn halfplane_from_normal() {
    let plane = HalfPlane::from_normal(pt(1, 1), pt(0, 1));
    assert_eq!(plane.offset, -1);
    // occupied side is away from the normal
    assert_eq!(plane.locate(pt(0, -5)), Location::Inside);
    assert_eq!(plane.locate(pt(0, -1)), Location::AtEdge);
    assert_eq!(plane.locate(pt(0, 5)), Location::Outside);
    assert_eq!(plane.distance(pt(0, 5)), 6);
}

#[test]
fn halfplane_from_edge() {
    let plane = HalfPlane::from_edge(pt(0, 0), pt(2, 0));
    assert_eq!(plane.normal, pt(0, 2));
    assert_eq!(plane.offset, 0);
    assert_eq!(plane.locate(pt(1, -3)), Location::Inside);
    assert_eq!(plane.locate(pt(1, 0)), Location::AtEdge);
    assert_eq!(plane.locate(pt(1, 3)), Location::Outside);
}

#[test]
fn circle_locate() {
    let circle = Circle { center: pt(0, 0), radius: 5 };
    assert!(circle.is_inside(pt(1, 1)));
    assert!(circle.is_inside(pt(3, 4)));
    assert!(!circle.is_inside(pt(6, 0)));
    assert_eq!(circle.locate(pt(1, 1)), Location::Inside);
    assert_eq!(circle.locate(pt(3, 4)), Location::AtEdge);
    assert_eq!(circle.locate(pt(6, 0)), Location::Outside);
}

#[test]
fn circle_circle_disjoint() {
    // Separated circles share no point
    let c1 = Circle { center: pt(0, 0), radius: 2 };
    let c2 = Circle { center: pt(5, 0), radius: 2 };
    assert_eq!(c1.overlap_class(&c2), OverlapClass::Disjoint);

    // Externally tangent circles count as disjoint (zero-area intersection)
    let c2 = Circle { center: pt(4, 0), radius: 2 };
    assert_eq!(c1.overlap_class(&c2), OverlapClass::Disjoint);
}

#[test]
fn circle_circle_contained() {
    // One circle fully inside the other
    let big = Circle { center: pt(0, 0), radius: 5 };
    let small = Circle { center: pt(1, 0), radius: 2 };
    assert_eq!(big.overlap_class(&small), OverlapClass::Full);
    assert_eq!(small.overlap_class(&big), OverlapClass::Full);

    // Internally tangent circles still count as containment
    let small = Circle { center: pt(3, 0), radius: 2 };
    assert_eq!(big.overlap_class(&small), OverlapClass::Full);
}

#[test]
fn circle_circle_lens() {
    let c1 = Circle { center: pt(0, 0), radius: 2 };
    let c2 = Circle { center: pt(3, 0), radius: 2 };
    assert_eq!(c1.overlap_class(&c2), OverlapClass::Partial);
    assert_eq!(c2.overlap_class(&c1), OverlapClass::Partial);
}

#[test]
fn circle_halfplane_regimes() {
    // occupied region: y <= 0 (normal points up)
    let plane = HalfPlane::from_normal(pt(0, 0), pt(0, 1));

    // circle on the free side
    let free = Circle { center: pt(0, 5), radius: 3 };
    assert_eq!(plane.circle_overlap_class(&free), OverlapClass::Disjoint);

    // tangent from the free side: still no area
    let tangent = Circle { center: pt(0, 3), radius: 3 };
    assert_eq!(plane.circle_overlap_class(&tangent), OverlapClass::Disjoint);

    // circle straddling the edge
    let straddling = Circle { center: pt(0, 1), radius: 3 };
    assert_eq!(plane.circle_overlap_class(&straddling), OverlapClass::Partial);

    // circle fully inside the occupied region
    let inside = Circle { center: pt(0, -5), radius: 3 };
    assert_eq!(plane.circle_overlap_class(&inside), OverlapClass::Full);

    // tangent from the occupied side: the whole circle counts
    let tangent_in = Circle { center: pt(0, -3), radius: 3 };
    assert_eq!(plane.circle_overlap_class(&tangent_in), OverlapClass::Full);

    // the mirror dispatch agrees
    assert_eq!(
        straddling.halfplane_overlap_class(&plane),
        plane.circle_overlap_class(&straddling)
    );
}

#[test]
fn frac_equivalence() {
    assert!(Frac::new(2, 4).eqv(&Frac::new(1, 2)));
    assert!(!Frac::new(2, 4).eqv(&Frac::new(2, 3)));
    assert!(Frac::from_int(-3).eqv(&Frac::new(-6, 2)));
    assert!(RPoint::new(2, 4, 2).eqv(&RPoint::from_point(pt(1, 2))));
    assert!(!RPoint::new(2, 4, 2).eqv(&RPoint::from_point(pt(1, 1))));
}

#[test]
fn clump_through_shape_trait() {
    let poly = Polygon::new(vec![pt(0, 0), pt(2, 0), pt(2, 2), pt(0, 2)]);
    let clump = Shape::clump(&poly);
    assert!(clump.area.eqv(&Frac::from_int(4)));
    assert!(clump.centroid.eqv(&RPoint::from_point(pt(1, 1))));
}
