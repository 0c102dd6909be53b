use geom2::{Intersect, Line, LineSegment, Point, RPoint};

fn pt(x: i64, y: i64) -> Point {
    Point::new(x, y)
}

fn expect(x: i64, y: i64) -> RPoint {
    RPoint::from_point(Point::new(x, y))
}

#[test]
fn line_line_intersection() {
    // Basic intersection
    let l1 = Line(pt(0, 0), pt(2, 0));
    let l2 = Line(pt(1, -1), pt(1, 1));
    let result = l1.intersect(&l2);
    assert!(result.is_some());
    assert!(result.unwrap().eqv(&expect(1, 0)));

    // Intersection at endpoint of line definition
    let l1 = Line(pt(0, 0), pt(2, 2));
    let l2 = Line(pt(2, 0), pt(0, 2));
    let result = l1.intersect(&l2);
    assert!(result.is_some());
    assert!(result.unwrap().eqv(&expect(1, 1)));
}

#[test]
fn line_line_parallel() {
    // Parallel lines (different intercepts)
    let l1 = Line(pt(0, 0), pt(1, 1));
    let l2 = Line(pt(0, 1), pt(1, 2));
    assert!(l1.intersect(&l2).is_none());

    // Vertical parallel lines
    let l1 = Line(pt(1, 0), pt(1, 10));
    let l2 = Line(pt(2, 0), pt(2, 10));
    assert!(l1.intersect(&l2).is_none());
}

#[test]
fn line_line_coincident() {
    // Same line defined by different points
    let l1 = Line(pt(0, 0), pt(2, 2));
    let l2 = Line(pt(-1, -1), pt(3, 3));
    let result = l1.intersect(&l2);
    assert!(result.is_some());
    // Returns a point of the common line: the first line's anchor
    assert!(result.unwrap().eqv(&expect(0, 0)));

    // Coincident but opposite directions
    let l1 = Line(pt(0, 0), pt(2, 2));
    let l2 = Line(pt(3, 3), pt(1, 1));
    let result = l1.intersect(&l2);
    assert!(result.is_some());
    assert!(result.unwrap().eqv(&expect(0, 0)));
}

#[test]
fn line_line_degenerate() {
    // First line is degenerate (a single point)
    let l1 = Line(pt(1, 1), pt(1, 1));
    let l2 = Line(pt(0, 0), pt(2, 2));
    let result = l1.intersect(&l2);
    // Degenerate line intersects if its point lies on the other line
    assert!(result.is_some());
    assert!(result.unwrap().eqv(&expect(1, 1)));

    // Second line is degenerate
    let l1 = Line(pt(0, 0), pt(2, 2));
    let l2 = Line(pt(1, 1), pt(1, 1));
    let result = l1.intersect(&l2);
    assert!(result.is_some());
    assert!(result.unwrap().eqv(&expect(1, 1)));

    // Both lines degenerate at the same point
    let l1 = Line(pt(1, 1), pt(1, 1));
    let l2 = Line(pt(1, 1), pt(1, 1));
    let result = l1.intersect(&l2);
    assert!(result.is_some());
    assert!(result.unwrap().eqv(&expect(1, 1)));

    // Both lines degenerate at different points
    let l1 = Line(pt(0, 0), pt(0, 0));
    let l2 = Line(pt(1, 1), pt(1, 1));
    assert!(l1.intersect(&l2).is_none());
}

#[test]
fn line_segment_intersection() {
    // Segment fully intersects line
    let seg = LineSegment(pt(-1, 0), pt(3, 0));
    let line = Line(pt(1, -1), pt(1, 1));
    let result = seg.intersect(&line);
    assert!(result.is_some());
    assert!(result.unwrap().eqv(&expect(1, 0)));

    // Segment endpoint lies on line
    let seg = LineSegment(pt(0, 0), pt(2, 2));
    let line = Line(pt(2, 0), pt(0, 2));
    let result = seg.intersect(&line);
    assert!(result.is_some());
    assert!(result.unwrap().eqv(&expect(1, 1)));

    // Segment just touches line at endpoint
    let seg = LineSegment(pt(0, 0), pt(1, 1));
    let line = Line(pt(2, 0), pt(3, -1));
    let result = seg.intersect(&line);
    assert!(result.is_some());
    assert!(result.unwrap().eqv(&expect(1, 1)));
}

#[test]
fn line_segment_no_intersection() {
    // Segment doesn't reach line
    let seg = LineSegment(pt(0, 0), pt(1, 1));
    let line = Line(pt(4, 0), pt(0, 4));
    assert!(seg.intersect(&line).is_none());

    // Segment beyond intersection point
    let seg = LineSegment(pt(2, 2), pt(3, 3));
    let line = Line(pt(0, 0), pt(10, 0));
    assert!(seg.intersect(&line).is_none());
}

#[test]
fn line_segment_parallel() {
    // Segment parallel to line, not coincident
    let seg = LineSegment(pt(0, 1), pt(2, 1));
    let line = Line(pt(0, 0), pt(2, 0));
    assert!(seg.intersect(&line).is_none());

    // Segment coincident with line: returns the segment's midpoint
    let seg = LineSegment(pt(0, 0), pt(2, 2));
    let line = Line(pt(-1, -1), pt(3, 3));
    let result = seg.intersect(&line);
    assert!(result.is_some());
    assert!(result.unwrap().eqv(&expect(1, 1)));
}

#[test]
fn line_segment_degenerate() {
    // Degenerate segment on line
    let seg = LineSegment(pt(1, 1), pt(1, 1));
    let line = Line(pt(0, 0), pt(2, 2));
    let result = seg.intersect(&line);
    assert!(result.is_some());
    assert!(result.unwrap().eqv(&expect(1, 1)));

    // Degenerate segment not on line
    let seg = LineSegment(pt(0, 1), pt(0, 1));
    let line = Line(pt(0, 0), pt(2, 2));
    assert!(seg.intersect(&line).is_none());

    // Line is degenerate, segment passes through its point
    let seg = LineSegment(pt(0, 0), pt(2, 2));
    let line = Line(pt(1, 1), pt(1, 1));
    let result = seg.intersect(&line);
    assert!(result.is_some());
    assert!(result.unwrap().eqv(&expect(1, 1)));

    // Both degenerate, same point
    let seg = LineSegment(pt(1, 1), pt(1, 1));
    let line = Line(pt(1, 1), pt(1, 1));
    let result = seg.intersect(&line);
    assert!(result.is_some());
    assert!(result.unwrap().eqv(&expect(1, 1)));
}

#[test]
fn line_segment_commutative() {
    // Line.intersect(LineSegment) == LineSegment.intersect(Line)
    let line = Line(pt(0, 0), pt(2, 2));
    let seg = LineSegment(pt(0, 2), pt(2, 0));

    let result1 = line.intersect(&seg);
    let result2 = seg.intersect(&line);

    assert!(result1.is_some());
    assert!(result2.is_some());
    let p1 = result1.unwrap();
    let p2 = result2.unwrap();
    assert!(p1.eqv(&p2));
    assert!(p1.eqv(&expect(1, 1)));
}

#[test]
fn segment_segment_intersection() {
    // Basic intersection
    let s1 = LineSegment(pt(0, 0), pt(2, 2));
    let s2 = LineSegment(pt(0, 2), pt(2, 0));
    let result = s1.intersect(&s2);
    assert!(result.is_some());
    assert!(result.unwrap().eqv(&expect(1, 1)));

    // Intersection at endpoint
    let s1 = LineSegment(pt(0, 0), pt(1, 1));
    let s2 = LineSegment(pt(1, 1), pt(2, 0));
    let result = s1.intersect(&s2);
    assert!(result.is_some());
    assert!(result.unwrap().eqv(&expect(1, 1)));

    // Just touching at endpoints
    let s1 = LineSegment(pt(0, 0), pt(1, 0));
    let s2 = LineSegment(pt(1, 0), pt(1, 1));
    let result = s1.intersect(&s2);
    assert!(result.is_some());
    assert!(result.unwrap().eqv(&expect(1, 0)));
}

#[test]
fn segment_segment_no_intersection() {
    // Segments don't intersect
    let s1 = LineSegment(pt(0, 0), pt(1, 0));
    let s2 = LineSegment(pt(2, 0), pt(3, 0));
    assert!(s1.intersect(&s2).is_none());

    // Lines intersect but segments don't
    let s1 = LineSegment(pt(0, 0), pt(1, 1));
    let s2 = LineSegment(pt(2, 2), pt(3, 3));
    assert!(s1.intersect(&s2).is_none());
}

#[test]
fn segment_segment_parallel() {
    // Parallel, not collinear
    let s1 = LineSegment(pt(0, 0), pt(2, 0));
    let s2 = LineSegment(pt(0, 1), pt(2, 1));
    assert!(s1.intersect(&s2).is_none());

    // Parallel, collinear, no overlap
    let s1 = LineSegment(pt(0, 0), pt(1, 0));
    let s2 = LineSegment(pt(2, 0), pt(3, 0));
    assert!(s1.intersect(&s2).is_none());
}

#[test]
fn segment_segment_collinear_overlap() {
    // Complete overlap: midpoint of the contained segment's interval
    let s1 = LineSegment(pt(0, 0), pt(3, 0));
    let s2 = LineSegment(pt(1, 0), pt(2, 0));
    let result = s1.intersect(&s2);
    assert!(result.is_some());
    assert!(result.unwrap().eqv(&RPoint::new(3, 0, 2)));

    // Partial overlap: overlap from (1,0) to (2,0), midpoint (1.5, 0)
    let s1 = LineSegment(pt(0, 0), pt(2, 0));
    let s2 = LineSegment(pt(1, 0), pt(3, 0));
    let result = s1.intersect(&s2);
    assert!(result.is_some());
    assert!(result.unwrap().eqv(&RPoint::new(3, 0, 2)));

    // Overlap at a single point
    let s1 = LineSegment(pt(0, 0), pt(1, 0));
    let s2 = LineSegment(pt(1, 0), pt(2, 0));
    let result = s1.intersect(&s2);
    assert!(result.is_some());
    assert!(result.unwrap().eqv(&expect(1, 0)));

    // Overlap from (1,0) to (3,0), midpoint at (2,0)
    let s1 = LineSegment(pt(0, 0), pt(4, 0));
    let s2 = LineSegment(pt(1, 0), pt(3, 0));
    let result = s1.intersect(&s2);
    assert!(result.is_some());
    assert!(result.unwrap().eqv(&expect(2, 0)));
}

#[test]
fn segment_segment_degenerate() {
    // First segment degenerate, lies on second segment
    let s1 = LineSegment(pt(1, 1), pt(1, 1));
    let s2 = LineSegment(pt(0, 2), pt(2, 0));
    let result = s1.intersect(&s2);
    assert!(result.is_some());
    assert!(result.unwrap().eqv(&expect(1, 1)));

    // First segment degenerate, doesn't lie on second segment
    let s1 = LineSegment(pt(0, 0), pt(0, 0));
    let s2 = LineSegment(pt(1, 1), pt(2, 2));
    assert!(s1.intersect(&s2).is_none());

    // Second segment degenerate, lies on first segment
    let s1 = LineSegment(pt(0, 0), pt(2, 2));
    let s2 = LineSegment(pt(1, 1), pt(1, 1));
    let result = s1.intersect(&s2);
    assert!(result.is_some());
    assert!(result.unwrap().eqv(&expect(1, 1)));

    // Both segments degenerate, same point
    let s1 = LineSegment(pt(1, 1), pt(1, 1));
    let s2 = LineSegment(pt(1, 1), pt(1, 1));
    let result = s1.intersect(&s2);
    assert!(result.is_some());
    assert!(result.unwrap().eqv(&expect(1, 1)));

    // Both segments degenerate, different points
    let s1 = LineSegment(pt(0, 0), pt(0, 0));
    let s2 = LineSegment(pt(1, 1), pt(1, 1));
    assert!(s1.intersect(&s2).is_none());
}

#[test]
fn segment_segment_horizontal_vertical() {
    // Horizontal and vertical segments
    let horiz = LineSegment(pt(0, 2), pt(5, 2));
    let vert = LineSegment(pt(3, 0), pt(3, 5));
    let result = horiz.intersect(&vert);
    assert!(result.is_some());
    assert!(result.unwrap().eqv(&expect(3, 2)));

    // Vertical segment endpoints straddling the horizontal
    let horiz = LineSegment(pt(0, 0), pt(5, 0));
    let vert = LineSegment(pt(2, -1), pt(2, 1));
    let result = horiz.intersect(&vert);
    assert!(result.is_some());
    assert!(result.unwrap().eqv(&expect(2, 0)));
}

#[test]
fn segment_segment_numerical_stability() {
    // Very large coordinates stay exact
    let s1 = LineSegment(pt(0, 0), pt(1_000_000_000, 1_000_000_000));
    let s2 = LineSegment(pt(1_000_000_000, 0), pt(0, 1_000_000_000));
    let result = s1.intersect(&s2);
    assert!(result.is_some());
    assert!(result.unwrap().eqv(&expect(500_000_000, 500_000_000)));

    // Nearly parallel segments still yield their crossing
    let s1 = LineSegment(pt(0, 0), pt(1_000_000, 0));
    let s2 = LineSegment(pt(0, 1), pt(1_000_000, 0));
    let result = s1.intersect(&s2);
    assert!(result.is_some());
    assert!(result.unwrap().eqv(&expect(1_000_000, 0)));
}

#[test]
fn contains() {
    let seg = LineSegment(pt(0, 0), pt(2, 0));

    // Point at start
    assert!(seg.contains(pt(0, 0)));

    // Point at end
    assert!(seg.contains(pt(2, 0)));

    // Point in middle
    assert!(seg.contains(pt(1, 0)));

    // Point beyond start
    assert!(!seg.contains(pt(-1, 0)));

    // Point beyond end
    assert!(!seg.contains(pt(3, 0)));

    // Point not collinear
    assert!(!seg.contains(pt(1, 1)));

    // Diagonal segment
    let seg = LineSegment(pt(0, 0), pt(2, 2));
    assert!(seg.contains(pt(1, 1)));
    assert!(!seg.contains(pt(1, 2)));

    // The infinite line through the same points keeps collinear points only
    let line = Line(pt(0, 0), pt(2, 0));
    assert!(line.contains(pt(5, 0)));
    assert!(!line.contains(pt(5, 1)));
}

#[test]
fn contains_degenerate() {
    // Degenerate segment (zero length)
    let seg = LineSegment(pt(1, 1), pt(1, 1));

    // Contains its own point
    assert!(seg.contains(pt(1, 1)));

    // Doesn't contain other points
    assert!(!seg.contains(pt(1, 2)));

    // A degenerate line behaves the same
    let line = Line(pt(1, 1), pt(1, 1));
    assert!(line.contains(pt(1, 1)));
    assert!(!line.contains(pt(0, 1)));
}

#[test]
fn is_degenerate() {
    // Normal line/segment
    let line = Line(pt(0, 0), pt(1, 0));
    assert!(!line.is_degenerate());

    // Degenerate line
    let line = Line(pt(0, 0), pt(0, 0));
    assert!(line.is_degenerate());

    // Normal segment
    let seg = LineSegment(pt(0, 0), pt(1, 0));
    assert!(!seg.is_degenerate());

    // Degenerate segment
    let seg = LineSegment(pt(0, 0), pt(0, 0));
    assert!(seg.is_degenerate());

    // to_line keeps the defining points
    let seg = LineSegment(pt(0, 0), pt(2, 3));
    let line = seg.to_line();
    assert_eq!(line.0, pt(0, 0));
    assert_eq!(line.1, pt(2, 3));
}

#[test]
fn intersection_symmetry() {
    // a.intersect(b) == b.intersect(a) over representative pairs
    let segments = [
        LineSegment(pt(0, 0), pt(2, 2)),
        LineSegment(pt(0, 2), pt(2, 0)),
        LineSegment(pt(1, 0), pt(1, 3)),
        LineSegment(pt(-1, -1), pt(3, 3)),
        LineSegment(pt(0, 0), pt(4, 0)),
        LineSegment(pt(1, 0), pt(3, 0)),
        LineSegment(pt(1, 1), pt(1, 1)),
    ];

    for i in 0..segments.len() {
        for j in 0..segments.len() {
            let a = &segments[i];
            let b = &segments[j];
            let result1 = a.intersect(b);
            let result2 = b.intersect(a);

            match (result1, result2) {
                (Some(p1), Some(p2)) => assert!(p1.eqv(&p2)),
                (None, None) => (),
                _ => panic!("Intersection not symmetric between {} and {}", i, j),
            }
        }
    }
}
