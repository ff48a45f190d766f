use fj_kernel::geometry::{Circle, Curve, Line, Plane, Surface};
use fj_kernel::math::{Axis, Point, Transform, Vector};
use fj_kernel::shape::store::{Handle, Kind};
use fj_kernel::shape::validate::{
    cycle_closed, edge_on_curve, face_on_surface, find_curve, find_cycle, find_edge, find_face,
    find_surface, nearest_point, nearest_vertex, normalize,
};
use fj_kernel::shape::{Shape, ValidationError, DEFAULT_MINIMUM_DISTANCE};
use fj_kernel::topology::{
    ahead, behind, comes_before, Cycle, Edge, Ends, Face, Triangle, Vertex,
};

/// A length in model units as a whole number of grid units, a thousand to the unit.
fn grid(v: f64) -> i32 {
    (v * 1000.0).round() as i32
}

fn at(x: f64, y: f64, z: f64) -> Point {
    Point { x: grid(x), y: grid(y), z: grid(z) }
}

fn line(origin: Point, x: i32, y: i32, z: i32) -> Curve {
    Curve::Line(Line { origin, direction: Vector { x, y, z } })
}

fn vertex_at(shape: &mut Shape, p: Point) -> Handle {
    let point = shape.geometry().add_point(p);
    shape.topology().add_vertex(Vertex { point }).unwrap()
}

struct Square {
    shape: Shape,
    vertices: [Handle; 4],
    edges: [Handle; 4],
    cycle: Handle,
}

/// The unit square in the plane of the first two axes.
fn unit_square() -> Square {
    let mut shape = Shape::with_minimum_distance(grid(0.01) as u32);
    let corners = [at(0., 0., 0.), at(1., 0., 0.), at(1., 1., 0.), at(0., 1., 0.)];
    let vertices = corners.map(|p| vertex_at(&mut shape, p));
    let curves = [
        line(corners[0], 1, 0, 0),
        line(corners[1], 0, 1, 0),
        line(corners[2], -1, 0, 0),
        line(corners[3], 0, -1, 0),
    ]
    .map(|c| shape.geometry().add_curve(c));
    let mut edges = [vertices[0]; 4];
    for i in 0..4 {
        let edge = Edge { curve: curves[i], vertices: Ends::Two(vertices[i], vertices[(i + 1) % 4]) };
        edges[i] = shape.topology().add_edge(edge).unwrap();
    }
    let cycle = shape.topology().add_cycle(Cycle::new(edges.to_vec())).unwrap();
    Square { shape, vertices, edges, cycle }
}

#[test]
fn vertex_closer_than_the_minimum_distance_is_a_duplicate() {
    let mut shape = Shape::with_minimum_distance(grid(0.01) as u32);
    let first = shape.geometry().add_point(at(0., 0., 0.));
    let second = shape.geometry().add_point(at(0.005, 0., 0.));

    let added = shape.topology().add_vertex(Vertex { point: first });
    assert_eq!(added, Ok(Handle { shape: 0, kind: Kind::Vertex, index: 0 }));
    assert_eq!(
        shape.topology().add_vertex(Vertex { point: second }),
        Err(ValidationError::GeometricDuplicate)
    );
    assert!(shape.topology().vertices().next().is_some());
    let topology = shape.topology();
    let mut vertices = topology.vertices();
    assert_eq!(vertices.next(), Some((added.unwrap(), &Vertex { point: first })));
    assert_eq!(vertices.next(), None);
}

#[test]
fn vertex_at_the_minimum_distance_is_accepted() {
    let mut shape = Shape::with_minimum_distance(grid(0.01) as u32);
    let first = shape.geometry().add_point(at(0., 0., 0.));
    let at_distance = shape.geometry().add_point(at(0.01, 0., 0.));
    let just_inside = shape.geometry().add_point(at(0., 0.009, 0.));

    assert!(shape.topology().add_vertex(Vertex { point: first }).is_ok());
    assert!(shape.topology().add_vertex(Vertex { point: at_distance }).is_ok());
    assert_eq!(
        shape.topology().add_vertex(Vertex { point: just_inside }),
        Err(ValidationError::GeometricDuplicate)
    );
}

#[test]
fn vertex_on_the_point_of_another_vertex_is_a_duplicate() {
    let mut shape = Shape::new();
    assert_eq!(shape.minimum_distance(), DEFAULT_MINIMUM_DISTANCE);
    let point = shape.geometry().add_point(at(1., 2., 3.));
    let next = shape.geometry().add_point(Point { x: 1001, y: 2000, z: 3000 });
    assert!(shape.topology().add_vertex(Vertex { point }).is_ok());
    assert_eq!(
        shape.topology().add_vertex(Vertex { point }),
        Err(ValidationError::GeometricDuplicate)
    );
    assert!(shape.topology().add_vertex(Vertex { point: next }).is_ok());
}

#[test]
fn vertex_on_a_handle_of_another_shape_is_refused() {
    let mut shape = Shape::tagged_with(1, 10);
    let mut other = Shape::tagged_with(2, 10);
    let foreign = other.geometry().add_point(at(0., 0., 0.));
    shape.geometry().add_point(at(5., 5., 5.));
    let curve = shape.geometry().add_curve(Curve::x_axis());

    assert_eq!(
        shape.topology().add_vertex(Vertex { point: foreign }),
        Err(ValidationError::StructuralMissing)
    );
    assert_eq!(
        shape.topology().add_vertex(Vertex { point: curve }),
        Err(ValidationError::StructuralMissing)
    );
    let beyond = Handle { shape: 1, kind: Kind::Point, index: 1 };
    assert_eq!(
        shape.topology().add_vertex(Vertex { point: beyond }),
        Err(ValidationError::StructuralMissing)
    );
    assert!(shape.topology().vertices().next().is_none());
}

#[test]
fn edge_between_vertices_on_its_line_is_added_once() {
    let mut shape = Shape::with_minimum_distance(grid(0.01) as u32);
    let a = vertex_at(&mut shape, at(0., 0., 0.));
    let b = vertex_at(&mut shape, at(1., 0., 0.));
    let curve = shape.geometry().add_curve(Curve::x_axis());

    let edge = Edge { curve, vertices: Ends::Two(a, b) };
    let added = shape.topology().add_edge(edge);
    assert_eq!(added, Ok(Handle { shape: 0, kind: Kind::Edge, index: 0 }));
    assert_eq!(shape.topology().add_edge(edge), Err(ValidationError::TopologicalDuplicate));
    assert_eq!(shape.topology().edge(&added.unwrap()), Some(edge));
    let topology = shape.topology();
    let mut edges = topology.edges();
    assert_eq!(edges.next(), Some((added.unwrap(), &edge)));
    assert_eq!(edges.next(), None);
}

#[test]
fn edge_between_the_same_vertices_the_other_way_round_is_a_duplicate() {
    let mut shape = Shape::with_minimum_distance(10);
    let a = vertex_at(&mut shape, at(0., 0., 0.));
    let b = vertex_at(&mut shape, at(1., 0., 0.));
    let curve = shape.geometry().add_curve(Curve::x_axis());
    let again = shape.geometry().add_curve(Curve::x_axis());

    assert!(shape.topology().add_edge(Edge { curve, vertices: Ends::Two(a, b) }).is_ok());
    assert_eq!(
        shape.topology().add_edge(Edge { curve, vertices: Ends::Two(b, a) }),
        Err(ValidationError::TopologicalDuplicate)
    );
    // The same vertices on another curve handle are another edge.
    assert!(shape.topology().add_edge(Edge { curve: again, vertices: Ends::Two(a, b) }).is_ok());
    // An edge with other ends on the same curve is another edge.
    assert!(shape.topology().add_edge(Edge { curve, vertices: Ends::One(a) }).is_ok());
    assert!(shape.topology().add_edge(Edge { curve, vertices: Ends::Open }).is_ok());
    assert_eq!(
        shape.topology().add_edge(Edge { curve, vertices: Ends::Open }),
        Err(ValidationError::TopologicalDuplicate)
    );
    assert_eq!(
        shape.topology().add_edge(Edge { curve, vertices: Ends::One(a) }),
        Err(ValidationError::TopologicalDuplicate)
    );
    assert!(shape.topology().add_edge(Edge { curve, vertices: Ends::One(b) }).is_ok());
}

#[test]
fn edge_with_a_vertex_off_its_curve_is_refused() {
    let mut shape = Shape::with_minimum_distance(10);
    let a = vertex_at(&mut shape, at(0., 0., 0.));
    let near = vertex_at(&mut shape, at(1., 0.009, 0.));
    let off = vertex_at(&mut shape, at(2., 0.01, 0.));
    let curve = shape.geometry().add_curve(Curve::x_axis());

    assert_eq!(
        shape.topology().add_edge(Edge { curve, vertices: Ends::Two(a, off) }),
        Err(ValidationError::NotOnCarrier)
    );
    assert_eq!(
        shape.topology().add_edge(Edge { curve, vertices: Ends::Two(off, a) }),
        Err(ValidationError::NotOnCarrier)
    );
    assert!(shape.topology().add_edge(Edge { curve, vertices: Ends::Two(a, near) }).is_ok());
    // Only an edge with two vertices is held to its curve.
    assert!(shape.topology().add_edge(Edge { curve, vertices: Ends::One(off) }).is_ok());
    assert!(!edge_on_curve(&shape, &Edge { curve, vertices: Ends::Two(a, off) }));
    assert!(edge_on_curve(&shape, &Edge { curve, vertices: Ends::Two(a, near) }));
}

#[test]
fn edge_on_handles_of_another_shape_is_refused() {
    let mut shape = Shape::tagged_with(1, 10);
    let mut other = Shape::tagged_with(2, 10);
    let a = vertex_at(&mut shape, at(0., 0., 0.));
    let b = vertex_at(&mut shape, at(1., 0., 0.));
    let curve = shape.geometry().add_curve(Curve::x_axis());
    let foreign_vertex = vertex_at(&mut other, at(0., 0., 0.));
    let foreign_curve = other.geometry().add_curve(Curve::x_axis());

    for edge in [
        Edge { curve: foreign_curve, vertices: Ends::Two(a, b) },
        Edge { curve, vertices: Ends::Two(foreign_vertex, b) },
        Edge { curve, vertices: Ends::Two(a, foreign_vertex) },
        Edge { curve, vertices: Ends::One(foreign_vertex) },
        Edge { curve: a, vertices: Ends::Open },
    ] {
        assert_eq!(shape.topology().add_edge(edge), Err(ValidationError::StructuralMissing));
    }
    assert!(shape.topology().edges().next().is_none());
}

#[test]
fn cycle_is_the_same_from_any_edge_in_either_direction() {
    let Square { mut shape, edges, cycle, .. } = unit_square();
    assert_eq!(cycle, Handle { shape: 0, kind: Kind::Cycle, index: 0 });

    let rotated = vec![edges[1], edges[2], edges[3], edges[0]];
    assert_eq!(
        shape.topology().add_cycle(Cycle::new(rotated)),
        Err(ValidationError::TopologicalDuplicate)
    );
    let reversed = vec![edges[3], edges[2], edges[1], edges[0]];
    assert_eq!(
        shape.topology().add_cycle(Cycle::new(reversed)),
        Err(ValidationError::TopologicalDuplicate)
    );
    assert_eq!(
        shape.topology().add_cycle(Cycle::new(edges.to_vec())),
        Err(ValidationError::TopologicalDuplicate)
    );
    let reversed_from_the_middle = vec![edges[1], edges[0], edges[3], edges[2]];
    assert_eq!(
        shape.topology().add_cycle(Cycle::new(reversed_from_the_middle)),
        Err(ValidationError::TopologicalDuplicate)
    );

    let topology = shape.topology();
    let mut cycles = topology.cycles();
    let (handle, stored) = cycles.next().unwrap();
    assert_eq!(handle, cycle);
    assert_eq!(stored.edges, edges.to_vec());
    assert!(cycles.next().is_none());
    assert_eq!(topology.cycle(&cycle).unwrap().edges, edges.to_vec());
}

#[test]
fn cycle_matches_only_turns_of_itself() {
    let h = |index: usize| Handle { shape: 0, kind: Kind::Edge, index };
    let cycle = Cycle::new(vec![h(0), h(1), h(2), h(3)]);
    assert!(cycle.matches(&Cycle::new(vec![h(2), h(3), h(0), h(1)])));
    assert!(cycle.matches(&Cycle::new(vec![h(0), h(3), h(2), h(1)])));
    assert!(!cycle.matches(&Cycle::new(vec![h(0), h(2), h(1), h(3)])));
    assert!(!cycle.matches(&Cycle::new(vec![h(0), h(1), h(2)])));
    assert!(!cycle.matches(&Cycle::new(vec![h(0), h(1), h(2), h(4)])));
    assert!(Cycle::new(vec![]).matches(&Cycle::new(vec![])));
    assert!(!Cycle::new(vec![]).matches(&cycle));
    assert_eq!(cycle.duplicate().edges, cycle.edges);
}

#[test]
fn cycle_that_does_not_close_is_refused() {
    let Square { mut shape, edges, .. } = unit_square();

    let open = vec![edges[0], edges[1], edges[2]];
    assert_eq!(shape.topology().add_cycle(Cycle::new(open)), Err(ValidationError::NotClosed));
    let out_of_order = vec![edges[0], edges[2], edges[1], edges[3]];
    assert_eq!(
        shape.topology().add_cycle(Cycle::new(out_of_order)),
        Err(ValidationError::NotClosed)
    );
    assert_eq!(shape.topology().add_cycle(Cycle::new(vec![])), Err(ValidationError::NotClosed));
    assert_eq!(
        shape.topology().add_cycle(Cycle::new(vec![edges[0]])),
        Err(ValidationError::NotClosed)
    );
    // There and back along one edge is a closed chain.
    assert!(shape.topology().add_cycle(Cycle::new(vec![edges[0], edges[0]])).is_ok());
    assert!(cycle_closed(&shape, &Cycle::new(edges.to_vec())));
    assert!(!cycle_closed(&shape, &Cycle::new(vec![edges[0], edges[1]])));
}

#[test]
fn cycle_with_an_edge_that_has_not_two_ends_is_refused() {
    let mut shape = Shape::with_minimum_distance(10);
    let a = vertex_at(&mut shape, at(0., 0., 0.));
    let curve = shape.geometry().add_curve(Curve::x_axis());
    let unbounded = shape.topology().add_edge(Edge { curve, vertices: Ends::Open }).unwrap();
    let ray = shape.topology().add_edge(Edge { curve, vertices: Ends::One(a) }).unwrap();
    let ring = shape.topology().add_edge(Edge { curve, vertices: Ends::Two(a, a) }).unwrap();

    assert_eq!(
        shape.topology().add_cycle(Cycle::new(vec![unbounded])),
        Err(ValidationError::NotClosed)
    );
    assert_eq!(
        shape.topology().add_cycle(Cycle::new(vec![ray, ray])),
        Err(ValidationError::NotClosed)
    );
    assert!(shape.topology().add_cycle(Cycle::new(vec![ring])).is_ok());
}

#[test]
fn cycle_on_handles_of_another_shape_is_refused() {
    let Square { mut shape, edges, vertices, .. } = unit_square();
    let foreign = Handle { shape: 9, ..edges[0] };
    assert_eq!(
        shape.topology().add_cycle(Cycle::new(vec![foreign, edges[1], edges[2], edges[3]])),
        Err(ValidationError::StructuralMissing)
    );
    assert_eq!(
        shape.topology().add_cycle(Cycle::new(vec![edges[0], edges[1], edges[2], vertices[3]])),
        Err(ValidationError::StructuralMissing)
    );
}

#[test]
fn face_on_the_surface_of_its_cycles_is_added_once() {
    let Square { mut shape, cycle, .. } = unit_square();
    let surface = shape.geometry().add_surface(Surface::x_y_plane());

    let added = shape.topology().add_face(Face::Face { surface, cycles: vec![cycle] });
    assert_eq!(added, Ok(Handle { shape: 0, kind: Kind::Face, index: 0 }));
    assert_eq!(
        shape.topology().add_face(Face::Face { surface, cycles: vec![cycle] }),
        Err(ValidationError::TopologicalDuplicate)
    );
    // The cycles of a face are a set.
    assert_eq!(
        shape.topology().add_face(Face::Face { surface, cycles: vec![cycle, cycle] }),
        Err(ValidationError::TopologicalDuplicate)
    );
    match shape.topology().face(&added.unwrap()).unwrap() {
        Face::Face { surface: s, cycles } => {
            assert_eq!(s, surface);
            assert_eq!(cycles, vec![cycle]);
        }
        Face::Triangles(_) => panic!("the face is bounded by cycles"),
    }
    let topology = shape.topology();
    let mut faces = topology.faces();
    assert_eq!(faces.next().unwrap().0, added.unwrap());
    assert!(faces.next().is_none());
}

#[test]
fn face_with_other_cycles_or_another_surface_is_another_face() {
    let Square { mut shape, cycle, edges, .. } = unit_square();
    let surface = shape.geometry().add_surface(Surface::x_y_plane());
    let again = shape.geometry().add_surface(Surface::x_y_plane());
    let there_and_back = shape.topology().add_cycle(Cycle::new(vec![edges[0], edges[0]])).unwrap();

    assert!(shape.topology().add_face(Face::Face { surface, cycles: vec![cycle] }).is_ok());
    assert!(shape
        .topology()
        .add_face(Face::Face { surface, cycles: vec![cycle, there_and_back] })
        .is_ok());
    assert!(shape.topology().add_face(Face::Face { surface: again, cycles: vec![cycle] }).is_ok());
    assert!(shape.topology().add_face(Face::Face { surface, cycles: vec![] }).is_ok());
    assert_eq!(
        shape.topology().add_face(Face::Face { surface, cycles: vec![there_and_back, cycle] }),
        Err(ValidationError::TopologicalDuplicate)
    );
}

#[test]
fn face_whose_curves_leave_its_surface_is_refused() {
    let Square { mut shape, cycle, .. } = unit_square();
    let lifted = shape.geometry().add_surface(Surface::Plane(Plane {
        origin: at(0., 0., 0.01),
        normal: Vector { x: 0, y: 0, z: 1 },
    }));
    let close = shape.geometry().add_surface(Surface::Plane(Plane {
        origin: at(0., 0., 0.009),
        normal: Vector { x: 0, y: 0, z: 1 },
    }));
    let upright = shape.geometry().add_surface(Surface::Plane(Plane {
        origin: at(0., 0., 0.),
        normal: Vector { x: 1, y: 0, z: 0 },
    }));

    assert_eq!(
        shape.topology().add_face(Face::Face { surface: lifted, cycles: vec![cycle] }),
        Err(ValidationError::NotOnCarrier)
    );
    assert_eq!(
        shape.topology().add_face(Face::Face { surface: upright, cycles: vec![cycle] }),
        Err(ValidationError::NotOnCarrier)
    );
    assert!(!face_on_surface(&shape, &Face::Face { surface: lifted, cycles: vec![cycle] }));
    assert!(face_on_surface(&shape, &Face::Face { surface: close, cycles: vec![cycle] }));
    assert!(shape.topology().add_face(Face::Face { surface: close, cycles: vec![cycle] }).is_ok());
}

#[test]
fn face_on_handles_of_another_shape_is_refused() {
    let Square { mut shape, cycle, edges, .. } = unit_square();
    let surface = shape.geometry().add_surface(Surface::x_y_plane());
    let foreign_surface = Handle { shape: 9, ..surface };
    assert_eq!(
        shape.topology().add_face(Face::Face { surface: foreign_surface, cycles: vec![cycle] }),
        Err(ValidationError::StructuralMissing)
    );
    assert_eq!(
        shape.topology().add_face(Face::Face { surface, cycles: vec![cycle, edges[0]] }),
        Err(ValidationError::StructuralMissing)
    );
    assert!(shape.topology().faces().next().is_none());
}

#[test]
fn list_of_triangles_is_always_added() {
    let mut shape = Shape::new();
    let triangle = Triangle { a: at(0., 0., 0.), b: at(1., 0., 0.), c: at(0., 1., 0.) };
    let first = shape.topology().add_face(Face::Triangles(vec![triangle])).unwrap();
    let second = shape.topology().add_face(Face::Triangles(vec![triangle])).unwrap();
    let empty = shape.topology().add_face(Face::Triangles(vec![])).unwrap();
    assert_eq!(first.index, 0);
    assert_eq!(second.index, 1);
    assert_eq!(empty.index, 2);
    assert!(!Face::Triangles(vec![triangle]).matches(&Face::Triangles(vec![triangle])));
}

#[test]
fn transform_moves_the_points_of_all_vertices() {
    let Square { mut shape, vertices, .. } = unit_square();
    let before: Vec<Point> = vertices
        .iter()
        .map(|v| {
            let vertex = shape.topology().vertex(v).unwrap();
            shape.geometry().point(&vertex.point).unwrap()
        })
        .collect();

    let shift = Transform::translation(Vector { x: grid(10.), y: 0, z: 0 });
    assert!(shape.geometry().transform(&shift));

    for (v, was) in vertices.iter().zip(before) {
        let vertex = shape.topology().vertex(v).unwrap();
        let now = shape.geometry().point(&vertex.point).unwrap();
        assert_eq!(now, Point { x: was.x + 10_000, y: was.y, z: was.z });
    }
    let corner = shape.topology().vertex(&vertices[2]).unwrap().point;
    assert_eq!(shape.geometry().point(&corner), Some(at(11., 1., 0.)));
}

#[test]
fn moved_shape_still_refuses_what_it_refused() {
    let Square { mut shape, edges, cycle, vertices, .. } = unit_square();
    let turn = Transform::quarter_turn_z();
    assert!(shape.geometry().transform(&turn));

    let rotated = vec![edges[2], edges[3], edges[0], edges[1]];
    assert_eq!(
        shape.topology().add_cycle(Cycle::new(rotated)),
        Err(ValidationError::TopologicalDuplicate)
    );
    let point = shape.topology().vertex(&vertices[1]).unwrap().point;
    assert_eq!(shape.geometry().point(&point), Some(at(0., 1., 0.)));
    assert_eq!(
        shape.topology().add_vertex(Vertex { point }),
        Err(ValidationError::GeometricDuplicate)
    );
    assert_eq!(shape.topology().cycle(&cycle).unwrap().edges, edges.to_vec());
}

#[test]
fn minimum_distance_is_frozen_by_the_first_entity() {
    let mut shape = Shape::with_minimum_distance(grid(0.01) as u32);
    assert_eq!(shape.set_minimum_distance(grid(0.02) as u32), Ok(()));
    assert_eq!(shape.minimum_distance(), 20);
    assert!(shape.is_empty());

    vertex_at(&mut shape, at(0., 0., 0.));
    assert_eq!(
        shape.set_minimum_distance(grid(0.1) as u32),
        Err(ValidationError::ToleranceFrozen)
    );
    assert_eq!(shape.minimum_distance(), 20);
    assert!(!shape.is_empty());
}

#[test]
fn minimum_distance_is_frozen_by_geometry_too() {
    let mut shape = Shape::new();
    shape.geometry().add_curve(Curve::x_axis());
    assert_eq!(shape.set_minimum_distance(5), Err(ValidationError::ToleranceFrozen));
    assert_eq!(shape.minimum_distance(), DEFAULT_MINIMUM_DISTANCE);

    let mut faced = Shape::new();
    faced.topology().add_face(Face::Triangles(vec![])).unwrap();
    assert_eq!(faced.set_minimum_distance(5), Err(ValidationError::ToleranceFrozen));
}

#[test]
fn searches_find_the_first_that_fits() {
    let Square { mut shape, vertices, edges, cycle, .. } = unit_square();
    let surface = shape.geometry().add_surface(Surface::x_y_plane());
    let face = shape.topology().add_face(Face::Face { surface, cycles: vec![cycle] }).unwrap();
    let extra = shape.geometry().add_point(at(1., 1., 0.001));

    assert_eq!(nearest_point(&shape, &at(1., 1., 0.002)).map(|h| h.index), Some(2));
    assert_eq!(nearest_point(&shape, &at(1., 1., 0.01)), Some(extra));
    assert_eq!(nearest_point(&shape, &at(5., 5., 5.)), None);
    assert_eq!(nearest_vertex(&shape, &at(1., 1., 0.002)), Some(vertices[2]));
    assert_eq!(nearest_vertex(&shape, &at(1., 1., 0.01)), None);
    assert_eq!(find_curve(&shape, &line(at(1., 0., 0.), 0, 1, 0)).map(|h| h.index), Some(1));
    assert_eq!(find_curve(&shape, &Curve::x_axis()).map(|h| h.index), Some(0));
    assert_eq!(find_curve(&shape, &line(at(1., 0., 0.), 0, 2, 0)).map(|h| h.index), Some(1));
    assert_eq!(find_curve(&shape, &line(at(1., 0., 0.), 1, 2, 0)), None);
    assert_eq!(find_surface(&shape, &Surface::x_y_plane()), Some(surface));
    let edge = shape.topology().edge(&edges[1]).unwrap();
    assert_eq!(find_edge(&shape, &edge), Some(edges[1]));
    assert_eq!(find_edge(&shape, &Edge { vertices: Ends::Open, ..edge }), None);
    assert_eq!(find_cycle(&shape, &Cycle::new(vec![edges[2], edges[1], edges[0], edges[3]])), Some(cycle));
    assert_eq!(find_cycle(&shape, &Cycle::new(vec![edges[2], edges[1]])), None);
    assert_eq!(find_face(&shape, &Face::Face { surface, cycles: vec![cycle] }), Some(face));
    assert_eq!(find_face(&shape, &Face::Face { surface, cycles: vec![] }), None);
}

#[test]
fn builder_adds_a_point_and_a_vertex_or_nothing() {
    let mut shape = Shape::with_minimum_distance(10);
    let first = Vertex::builder(&mut shape).from_point(at(0., 0., 0.)).unwrap();
    assert_eq!(first, Handle { shape: 0, kind: Kind::Vertex, index: 0 });
    assert_eq!(
        Vertex::builder(&mut shape).from_point(at(0.005, 0., 0.)),
        Err(ValidationError::GeometricDuplicate)
    );
    let second = Vertex::builder(&mut shape).from_point(at(0.01, 0., 0.)).unwrap();
    assert_eq!(second.index, 1);

    let vertex = shape.topology().vertex(&second).unwrap();
    assert_eq!(vertex.point, Handle { shape: 0, kind: Kind::Point, index: 1 });
    assert_eq!(shape.geometry().point(&vertex.point), Some(at(0.01, 0., 0.)));
    assert_eq!(shape.geometry().handle_for(&at(0.005, 0., 0.)), None);
    let geometry = shape.geometry();
    let mut points = geometry.points();
    assert!(points.next().is_some());
    assert!(points.next().is_some());
    assert!(points.next().is_none());
}

#[test]
fn cycle_is_stored_in_its_normal_form() {
    let Square { shape: _, .. } = unit_square();
    let mut shape = Shape::with_minimum_distance(10);
    let corners = [at(0., 0., 0.), at(1., 0., 0.), at(1., 1., 0.), at(0., 1., 0.)];
    let vertices = corners.map(|p| vertex_at(&mut shape, p));
    let mut edges = [vertices[0]; 4];
    for i in 0..4 {
        let curve = shape.geometry().add_curve(line(
            corners[i],
            corners[(i + 1) % 4].x - corners[i].x,
            corners[(i + 1) % 4].y - corners[i].y,
            0,
        ));
        let edge = Edge { curve, vertices: Ends::Two(vertices[i], vertices[(i + 1) % 4]) };
        edges[i] = shape.topology().add_edge(edge).unwrap();
    }
    let submitted = vec![edges[2], edges[1], edges[0], edges[3]];
    let cycle = shape.topology().add_cycle(Cycle::new(submitted)).unwrap();
    assert_eq!(shape.topology().cycle(&cycle).unwrap().edges, edges.to_vec());
}

#[test]
fn normal_form_runs_in_the_direction_of_the_lesser_vertices() {
    // A triangle whose edges were added in another order than the chain runs:
    // the first edge joins the first vertex to the third.
    let mut shape = Shape::with_minimum_distance(10);
    let corners = [at(0., 0., 0.), at(1., 0., 0.), at(0., 1., 0.)];
    let v = corners.map(|p| vertex_at(&mut shape, p));
    let mut edge = |a: usize, b: usize| {
        let curve = shape.geometry().add_curve(line(
            corners[a],
            corners[b].x - corners[a].x,
            corners[b].y - corners[a].y,
            0,
        ));
        shape.topology().add_edge(Edge { curve, vertices: Ends::Two(v[a], v[b]) }).unwrap()
    };
    let e0 = edge(0, 2);
    let e1 = edge(0, 1);
    let e2 = edge(1, 2);

    // From the first edge the chain runs through the vertices 0, 2, 1 one
    // way and 2, 0, 1 the other: the first way comes first.
    let cycle = shape.topology().add_cycle(Cycle::new(vec![e1, e0, e2])).unwrap();
    assert_eq!(shape.topology().cycle(&cycle).unwrap().edges, vec![e0, e2, e1]);
    assert_eq!(normalize(&shape, &Cycle::new(vec![e2, e1, e0])).edges, vec![e0, e2, e1]);
    assert_eq!(normalize(&shape, &Cycle::new(vec![e0, e2, e1])).edges, vec![e0, e2, e1]);
    assert_eq!(normalize(&shape, &Cycle::new(vec![e0, e1, e2])).edges, vec![e0, e2, e1]);
}

#[test]
fn normal_form_of_a_chain_there_and_back_begins_at_the_lesser_vertex() {
    let mut shape = Shape::with_minimum_distance(10);
    let far = vertex_at(&mut shape, at(1., 0., 0.));
    let near = vertex_at(&mut shape, at(0., 0., 0.));
    let curve = shape.geometry().add_curve(Curve::x_axis());
    let again = shape.geometry().add_curve(Curve::x_axis());
    let out = shape.topology().add_edge(Edge { curve, vertices: Ends::Two(near, far) }).unwrap();
    let home = shape.topology().add_edge(Edge { curve: again, vertices: Ends::Two(far, near) }).unwrap();
    assert_eq!(normalize(&shape, &Cycle::new(vec![home, out])).edges, vec![out, home]);
    assert_eq!(normalize(&shape, &Cycle::new(vec![out, home])).edges, vec![out, home]);
    assert_eq!(normalize(&shape, &Cycle::new(vec![out, out])).edges, vec![out, out]);
}

#[test]
fn turns_of_a_cycle() {
    let h = |index: usize| Handle { shape: 0, kind: Kind::Edge, index };
    let of = |indices: &[usize]| Cycle::new(indices.iter().map(|i| h(*i)).collect());
    let indices = |edges: Vec<Handle>| -> Vec<usize> { edges.iter().map(|e| e.index).collect() };
    let cycle = of(&[5, 7, 4, 9, 6]);
    assert_eq!(cycle.least(), 2);
    assert_eq!(of(&[3, 1, 5, 1, 2]).least(), 1);
    assert_eq!(of(&[8]).least(), 0);
    assert_eq!(indices(cycle.turn(2)), vec![4, 9, 6, 5, 7]);
    assert_eq!(indices(cycle.turn_back(2)), vec![4, 7, 5, 6, 9]);
    assert_eq!(indices(cycle.turn(0)), vec![5, 7, 4, 9, 6]);
    assert_eq!(indices(cycle.turn_back(0)), vec![5, 6, 9, 4, 7]);
    assert!(cycle.matches(&Cycle::new(cycle.turn_back(4))));
    assert!(comes_before(&cycle.turn_back(2), &cycle.turn(2)));
    assert!(!comes_before(&cycle.turn(2), &cycle.turn_back(2)));
    assert!(!comes_before(&cycle.turn(2), &cycle.turn(2)));
    assert_eq!(ahead(3, 4, 5), 2);
    assert_eq!(ahead(0, 0, 1), 0);
    assert_eq!(behind(3, 1, 5), 3);
    assert_eq!(behind(1, 3, 5), 2);
}

#[test]
fn circle_without_vertices_is_a_cycle_and_bounds_a_face() {
    let mut shape = Shape::with_minimum_distance(10);
    let ring = Curve::Circle(Circle { center: at(0., 0., 0.), normal: Axis::Z, radius: 1000 });
    let curve = shape.geometry().add_curve(ring);
    let axis = shape.geometry().add_curve(Curve::x_axis());
    let edge = shape.topology().add_edge(Edge { curve, vertices: Ends::Open }).unwrap();
    let unbounded = shape.topology().add_edge(Edge { curve: axis, vertices: Ends::Open }).unwrap();

    let cycle = shape.topology().add_cycle(Cycle::new(vec![edge])).unwrap();
    assert_eq!(
        shape.topology().add_cycle(Cycle::new(vec![edge])),
        Err(ValidationError::TopologicalDuplicate)
    );
    assert_eq!(
        shape.topology().add_cycle(Cycle::new(vec![edge, edge])),
        Err(ValidationError::NotClosed)
    );
    assert_eq!(
        shape.topology().add_cycle(Cycle::new(vec![unbounded])),
        Err(ValidationError::NotClosed)
    );

    let floor = shape.geometry().add_surface(Surface::x_y_plane());
    let wall = shape.geometry().add_surface(Surface::Plane(Plane {
        origin: at(0., 0., 0.),
        normal: Vector { x: 1, y: 0, z: 0 },
    }));
    assert_eq!(
        shape.topology().add_face(Face::Face { surface: wall, cycles: vec![cycle] }),
        Err(ValidationError::NotOnCarrier)
    );
    assert!(shape.topology().add_face(Face::Face { surface: floor, cycles: vec![cycle] }).is_ok());

    assert!(shape.geometry().transform(&Transform::quarter_turn_z()));
    assert_eq!(shape.geometry().curve(&curve), Some(ring));
    assert_eq!(
        shape.topology().add_cycle(Cycle::new(vec![edge])),
        Err(ValidationError::TopologicalDuplicate)
    );
}

#[test]
fn arc_between_vertices_on_its_circle_is_an_edge() {
    let mut shape = Shape::with_minimum_distance(10);
    let ring = Curve::Circle(Circle { center: at(0., 0., 0.), normal: Axis::Z, radius: 1000 });
    let curve = shape.geometry().add_curve(ring);
    let east = vertex_at(&mut shape, at(1., 0., 0.));
    let north = vertex_at(&mut shape, at(0., 1.009, 0.));
    let off = vertex_at(&mut shape, at(-1.01, 0., 0.));
    let center = vertex_at(&mut shape, at(0., 0., 0.));

    assert!(shape.topology().add_edge(Edge { curve, vertices: Ends::Two(east, north) }).is_ok());
    assert_eq!(
        shape.topology().add_edge(Edge { curve, vertices: Ends::Two(east, off) }),
        Err(ValidationError::NotOnCarrier)
    );
    assert_eq!(
        shape.topology().add_edge(Edge { curve, vertices: Ends::Two(center, north) }),
        Err(ValidationError::NotOnCarrier)
    );
}
