use fj_kernel::geometry::{Curve, Line, Plane, Surface};
use fj_kernel::math::{Point, Vector};
use fj_kernel::shape::store::{Handle, Kind};
use fj_kernel::shape::traits::TopoObject;
use fj_kernel::shape::{Shape, ValidationError};
use fj_kernel::topology::{Cycle, Edge, Ends, Face, Triangle, Vertex};

fn point(x: i32, y: i32, z: i32) -> Point {
    Point { x, y, z }
}

fn line(origin: Point, x: i32, y: i32, z: i32) -> Curve {
    Curve::Line(Line { origin, direction: Vector { x, y, z } })
}

fn vertex_at(shape: &mut Shape, p: Point) -> Handle {
    let point = shape.geometry().add_point(p);
    shape.topology().add_vertex(Vertex { point }).unwrap()
}

fn counts(shape: &mut Shape) -> [usize; 7] {
    fn count<T>(mut pass: fj_kernel::shape::store::Iter<'_, T>) -> usize {
        let mut n = 0;
        while pass.next().is_some() {
            n += 1;
        }
        n
    }
    let points = count(shape.geometry().points());
    let curves = count(shape.geometry().curves());
    let surfaces = count(shape.geometry().surfaces());
    let vertices = count(shape.topology().vertices());
    let edges = count(shape.topology().edges());
    let cycles = count(shape.topology().cycles());
    let faces = count(shape.topology().faces());
    [points, curves, surfaces, vertices, edges, cycles, faces]
}

struct Source {
    shape: Shape,
    vertices: [Handle; 4],
    edges: [Handle; 4],
    cycle: Handle,
    face: Handle,
}

/// A square of side 1000 with its face, in a shape of its own.
fn square(identity: u64) -> Source {
    let mut shape = Shape::tagged_with(identity, 10);
    let corners = [point(0, 0, 0), point(1000, 0, 0), point(1000, 1000, 0), point(0, 1000, 0)];
    let vertices = corners.map(|p| vertex_at(&mut shape, p));
    let curves = [
        line(corners[0], 1, 0, 0),
        line(corners[1], 0, 1, 0),
        line(corners[2], -1, 0, 0),
        line(corners[3], 0, -1, 0),
    ]
    .map(|c| shape.geometry().add_curve(c));
    let mut edges = [vertices[0]; 4];
    for i in 0..4 {
        let edge = Edge { curve: curves[i], vertices: Ends::Two(vertices[i], vertices[(i + 1) % 4]) };
        edges[i] = shape.topology().add_edge(edge).unwrap();
    }
    let cycle = shape.topology().add_cycle(Cycle::new(edges.to_vec())).unwrap();
    let surface = shape.geometry().add_surface(Surface::x_y_plane());
    let face = shape.topology().add_face(Face::Face { surface, cycles: vec![cycle] }).unwrap();
    Source { shape, vertices, edges, cycle, face }
}

#[test]
fn merged_vertex_brings_its_point() {
    let mut source = Shape::tagged_with(1, 10);
    let v = vertex_at(&mut source, point(5, 5, 5));
    let vertex = source.topology().vertex(&v).unwrap();

    let mut target = Shape::tagged_with(2, 10);
    let merged = target.topology().merge_vertex(&source, &vertex).unwrap();
    assert_eq!(merged, Handle { shape: 2, kind: Kind::Vertex, index: 0 });
    let homed = target.topology().vertex(&merged).unwrap();
    assert_eq!(homed.point, Handle { shape: 2, kind: Kind::Point, index: 0 });
    assert_eq!(target.geometry().point(&homed.point), Some(point(5, 5, 5)));
    assert_eq!(counts(&mut target), [1, 0, 0, 1, 0, 0, 0]);
}

#[test]
fn merged_vertex_uses_a_close_point_and_a_close_vertex_again() {
    let mut source = Shape::tagged_with(1, 10);
    let v = vertex_at(&mut source, point(5, 5, 5));
    let vertex = source.topology().vertex(&v).unwrap();

    let mut target = Shape::tagged_with(2, 10);
    target.geometry().add_point(point(500, 0, 0));
    let close = target.geometry().add_point(point(5, 5, 9));
    let merged = target.topology().merge_vertex(&source, &vertex).unwrap();
    assert_eq!(target.topology().vertex(&merged), Some(Vertex { point: close }));
    assert_eq!(counts(&mut target), [2, 0, 0, 1, 0, 0, 0]);

    let mut held = Shape::tagged_with(3, 10);
    let there = vertex_at(&mut held, point(5, 9, 5));
    assert_eq!(held.topology().merge_vertex(&source, &vertex), Ok(there));
    assert_eq!(counts(&mut held), [1, 0, 0, 1, 0, 0, 0]);
}

#[test]
fn merged_vertex_settles_on_the_vertex_near_the_point_it_was_given() {
    let mut source = Shape::tagged_with(1, 10);
    let v = vertex_at(&mut source, point(0, 0, 0));
    let vertex = source.topology().vertex(&v).unwrap();

    // The first close point is (8, 0, 0); the vertex at (16, 0, 0) is close to
    // that point, though not to the point of the merged vertex.
    let mut target = Shape::tagged_with(2, 10);
    target.geometry().add_point(point(8, 0, 0));
    let there = vertex_at(&mut target, point(16, 0, 0));
    assert_eq!(target.topology().merge_vertex(&source, &vertex), Ok(there));
    assert_eq!(counts(&mut target), [2, 0, 0, 1, 0, 0, 0]);
}

#[test]
fn merging_twice_is_merging_once() {
    let Source { shape: mut source, vertices, edges, cycle, face } = square(1);
    let vertex = source.topology().vertex(&vertices[2]).unwrap();
    let edge = source.topology().edge(&edges[1]).unwrap();
    let ring = source.topology().cycle(&cycle).unwrap();
    let region = source.topology().face(&face).unwrap();

    let mut target = Shape::tagged_with(2, 10);
    let first = target.topology().merge_vertex(&source, &vertex).unwrap();
    let after = counts(&mut target);
    assert_eq!(after, [1, 0, 0, 1, 0, 0, 0]);
    assert_eq!(target.topology().merge_vertex(&source, &vertex), Ok(first));
    assert_eq!(counts(&mut target), after);

    let first = target.topology().merge_edge(&source, &edge).unwrap();
    let after = counts(&mut target);
    assert_eq!(after, [2, 1, 0, 2, 1, 0, 0]);
    assert_eq!(target.topology().merge_edge(&source, &edge), Ok(first));
    assert_eq!(counts(&mut target), after);

    let first = target.topology().merge_cycle(&source, &ring).unwrap();
    let after = counts(&mut target);
    assert_eq!(after, [4, 4, 0, 4, 4, 1, 0]);
    assert_eq!(target.topology().merge_cycle(&source, &ring), Ok(first));
    assert_eq!(counts(&mut target), after);

    let first = target.topology().merge_face(&source, &region).unwrap();
    let after = counts(&mut target);
    assert_eq!(after, [4, 4, 1, 4, 4, 1, 1]);
    assert_eq!(target.topology().merge_face(&source, &region), Ok(first));
    assert_eq!(counts(&mut target), after);
}

#[test]
fn merged_face_brings_everything_it_refers_to() {
    let Source { shape: mut source, face, .. } = square(1);
    let region = source.topology().face(&face).unwrap();

    let mut target = Shape::tagged_with(2, 10);
    let merged = target.topology().merge(&source, &region).unwrap();
    assert_eq!(merged, Handle { shape: 2, kind: Kind::Face, index: 0 });
    assert_eq!(counts(&mut target), [4, 4, 1, 4, 4, 1, 1]);

    let (surface, cycles) = match target.topology().face(&merged).unwrap() {
        Face::Face { surface, cycles } => (surface, cycles),
        Face::Triangles(_) => panic!("the face is bounded by cycles"),
    };
    assert_eq!(target.geometry().surface(&surface), Some(Surface::x_y_plane()));
    assert_eq!(cycles.len(), 1);
    let edges = target.topology().cycle(&cycles[0]).unwrap().edges;
    assert_eq!(edges.len(), 4);
    let corners = [point(0, 0, 0), point(1000, 0, 0), point(1000, 1000, 0), point(0, 1000, 0)];
    for (i, handle) in edges.iter().enumerate() {
        assert_eq!(handle.shape, 2);
        let edge = target.topology().edge(handle).unwrap();
        let (a, b) = match edge.vertices {
            Ends::Two(a, b) => (a, b),
            _ => panic!("the edge has two vertices"),
        };
        let from = target.topology().vertex(&a).unwrap().point;
        let to = target.topology().vertex(&b).unwrap().point;
        assert_eq!(target.geometry().point(&from), Some(corners[i]));
        assert_eq!(target.geometry().point(&to), Some(corners[(i + 1) % 4]));
        match target.geometry().curve(&edge.curve) {
            Some(Curve::Line(line)) => assert_eq!(line.origin, corners[i]),
            _ => panic!("the line was brought in"),
        }
    }
}

#[test]
fn merge_by_kind_is_the_merge_of_that_kind() {
    let Source { shape: mut source, vertices, edges, cycle, .. } = square(1);
    let vertex = source.topology().vertex(&vertices[0]).unwrap();
    let edge = source.topology().edge(&edges[0]).unwrap();
    let ring = source.topology().cycle(&cycle).unwrap();

    let mut by_kind = Shape::tagged_with(2, 10);
    let mut by_name = Shape::tagged_with(2, 10);
    assert_eq!(
        by_kind.topology().merge(&source, &vertex),
        by_name.topology().merge_vertex(&source, &vertex)
    );
    assert_eq!(
        by_kind.topology().merge(&source, &edge),
        by_name.topology().merge_edge(&source, &edge)
    );
    assert_eq!(
        ring.merge_into(&source, &mut by_kind.topology()),
        by_name.topology().merge_cycle(&source, &ring)
    );
    assert_eq!(counts(&mut by_kind), counts(&mut by_name));
    assert_eq!(counts(&mut by_kind), [4, 4, 0, 4, 4, 1, 0]);
}

#[test]
fn merge_of_what_the_source_does_not_hold_changes_nothing() {
    let Source { shape: source, vertices, edges, cycle, .. } = square(1);
    let mut target = Shape::tagged_with(2, 10);
    target.geometry().add_point(point(1, 1, 1));

    let stray = Handle { shape: 7, kind: Kind::Point, index: 0 };
    assert_eq!(
        target.topology().merge_vertex(&source, &Vertex { point: stray }),
        Err(ValidationError::StructuralMissing)
    );
    let stray_edge = Edge { curve: stray, vertices: Ends::Two(vertices[0], vertices[1]) };
    assert_eq!(
        target.topology().merge_edge(&source, &stray_edge),
        Err(ValidationError::StructuralMissing)
    );
    assert_eq!(
        target.topology().merge_cycle(&source, &Cycle::new(vec![edges[0], stray])),
        Err(ValidationError::StructuralMissing)
    );
    let stray_face = Face::Face { surface: stray, cycles: vec![cycle] };
    assert_eq!(
        target.topology().merge_face(&source, &stray_face),
        Err(ValidationError::StructuralMissing)
    );
    assert_eq!(counts(&mut target), [1, 0, 0, 0, 0, 0, 0]);
}

#[test]
fn merge_that_fails_late_takes_back_what_it_added() {
    // In the source the first vertex lies 10 from the line, which is close
    // enough. The target holds a point that is close to that vertex and 20
    // from the line, so the merged edge is not on its curve.
    let mut source = Shape::tagged_with(1, 15);
    let a = vertex_at(&mut source, point(0, 10, 0));
    let b = vertex_at(&mut source, point(1000, 0, 0));
    let curve = source.geometry().add_curve(Curve::x_axis());
    let e = source.topology().add_edge(Edge { curve, vertices: Ends::Two(a, b) }).unwrap();
    let edge = source.topology().edge(&e).unwrap();
    let open = source.topology().add_cycle(Cycle::new(vec![e, e])).unwrap();
    let ring = source.topology().cycle(&open).unwrap();

    let mut target = Shape::tagged_with(2, 15);
    target.geometry().add_point(point(0, 20, 0));
    assert_eq!(target.topology().merge_edge(&source, &edge), Err(ValidationError::NotOnCarrier));
    assert_eq!(counts(&mut target), [1, 0, 0, 0, 0, 0, 0]);
    assert_eq!(target.topology().merge_cycle(&source, &ring), Err(ValidationError::NotOnCarrier));
    assert_eq!(counts(&mut target), [1, 0, 0, 0, 0, 0, 0]);
    assert_eq!(target.geometry().handle_for(&point(0, 20, 0)).map(|h| h.index), Some(0));
    assert_eq!(target.geometry().handle_for(&Curve::x_axis()), None);
    assert_eq!(target.geometry().handle_for(&point(1000, 0, 0)), None);
}

#[test]
fn merged_cycle_that_no_longer_closes_is_refused() {
    // The source tells the two ends of its edges apart; the target, with a
    // larger minimum distance, takes them for one vertex, and so two edges of
    // the source become one edge with both ends at that vertex.
    let mut source = Shape::tagged_with(1, 1);
    let a = vertex_at(&mut source, point(0, 0, 0));
    let b = vertex_at(&mut source, point(5, 0, 0));
    let c = vertex_at(&mut source, point(1000, 0, 0));
    let curve = source.geometry().add_curve(Curve::x_axis());
    let ab = source.topology().add_edge(Edge { curve, vertices: Ends::Two(a, b) }).unwrap();
    let bc = source.topology().add_edge(Edge { curve, vertices: Ends::Two(b, c) }).unwrap();
    let ca = source.topology().add_edge(Edge { curve, vertices: Ends::Two(c, a) }).unwrap();
    let h = source.topology().add_cycle(Cycle::new(vec![ab, bc, ca])).unwrap();
    let ring = source.topology().cycle(&h).unwrap();

    let mut same = Shape::tagged_with(2, 1);
    assert!(same.topology().merge_cycle(&source, &ring).is_ok());
    assert_eq!(counts(&mut same), [3, 1, 0, 3, 3, 1, 0]);

    // With the ends of the second and the third edge taken for the same
    // edge, the chain runs a-a, a-c, a-c: it still closes.
    let mut coarse = Shape::tagged_with(3, 10);
    let merged = coarse.topology().merge_cycle(&source, &ring).unwrap();
    assert_eq!(counts(&mut coarse), [2, 1, 0, 2, 2, 1, 0]);
    let edges = coarse.topology().cycle(&merged).unwrap().edges;
    assert_eq!(edges.len(), 3);
    assert_eq!(edges[1], edges[2]);

    let open = Cycle::new(vec![ab, bc]);
    let mut refusing = Shape::tagged_with(4, 1);
    assert_eq!(refusing.topology().merge_cycle(&source, &open), Err(ValidationError::NotClosed));
    assert_eq!(counts(&mut refusing), [0, 0, 0, 0, 0, 0, 0]);
}

#[test]
fn merged_list_of_triangles_is_added_each_time() {
    let source = Shape::tagged_with(1, 10);
    let triangles = Face::Triangles(vec![Triangle {
        a: point(0, 0, 0),
        b: point(1, 0, 0),
        c: point(0, 1, 0),
    }]);
    let mut target = Shape::tagged_with(2, 10);
    let first = target.topology().merge_face(&source, &triangles).unwrap();
    let second = target.topology().merge_face(&source, &triangles).unwrap();
    assert_eq!((first.index, second.index), (0, 1));
    assert_eq!(counts(&mut target), [0, 0, 0, 0, 0, 0, 2]);
}

#[test]
fn merged_face_off_its_surface_is_refused_and_taken_back() {
    let Source { shape: mut source, cycle, .. } = square(1);
    // In the source the tolerance is wide enough for this surface; in the
    // target it is not.
    let mut wide = Shape::tagged_with(5, 100);
    let ring = source.topology().cycle(&cycle).unwrap();
    let homed = wide.topology().merge_cycle(&source, &ring).unwrap();
    let lifted = wide.geometry().add_surface(Surface::Plane(Plane {
        origin: point(0, 0, 50),
        normal: Vector { x: 0, y: 0, z: 1 },
    }));
    let f = wide.topology().add_face(Face::Face { surface: lifted, cycles: vec![homed] }).unwrap();
    let region = wide.topology().face(&f).unwrap();

    let mut target = Shape::tagged_with(2, 10);
    assert_eq!(target.topology().merge_face(&wide, &region), Err(ValidationError::NotOnCarrier));
    assert_eq!(counts(&mut target), [0, 0, 0, 0, 0, 0, 0]);
}

#[test]
fn merged_edge_uses_the_same_curve_again() {
    let mut source = Shape::tagged_with(1, 10);
    let a = vertex_at(&mut source, point(0, 0, 0));
    let b = vertex_at(&mut source, point(1000, 0, 0));
    let curve = source.geometry().add_curve(line(point(0, 0, 0), -5, 0, 0));
    let e = source.topology().add_edge(Edge { curve, vertices: Ends::Two(a, b) }).unwrap();
    let edge = source.topology().edge(&e).unwrap();

    let mut target = Shape::tagged_with(2, 10);
    target.geometry().add_curve(line(point(0, 1, 0), 1, 0, 0));
    let axis = target.geometry().add_curve(Curve::x_axis());
    let merged = target.topology().merge_edge(&source, &edge).unwrap();
    assert_eq!(target.topology().edge(&merged).unwrap().curve, axis);
    assert_eq!(counts(&mut target), [2, 2, 0, 2, 1, 0, 0]);
    assert_eq!(target.geometry().curve(&axis), Some(Curve::x_axis()));
}
