use fj_kernel::geometry::{Curve, Line, Plane, Surface};
use fj_kernel::math::{AxisOrder, Point, Transform, Vector};
use fj_kernel::shape::store::Kind;
use fj_kernel::shape::Shape;
use fj_kernel::topology::{Face, Triangle};

fn point(x: i32, y: i32, z: i32) -> Point {
    Point { x, y, z }
}

#[test]
fn handle_for() {
    let mut shape = Shape::new();

    let point = Point::origin();
    let curve = Curve::x_axis();
    let surface = Surface::x_y_plane();

    assert!(shape.geometry().handle_for(&point).is_none());
    assert!(shape.geometry().handle_for(&curve).is_none());
    assert!(shape.geometry().handle_for(&surface).is_none());

    shape.geometry().add_point(point);
    shape.geometry().add_curve(curve);
    shape.geometry().add_surface(surface);

    assert!(shape.geometry().handle_for(&point).is_some());
    assert!(shape.geometry().handle_for(&curve).is_some());
    assert!(shape.geometry().handle_for(&surface).is_some());
}

#[test]
fn handle_for_is_none_in_another_shape() {
    let mut shape = Shape::new();
    let mut other = Shape::new();

    shape.geometry().add_curve(Curve::x_axis());
    shape.geometry().add_surface(Surface::x_y_plane());

    assert!(shape.geometry().handle_for(&Curve::x_axis()).is_some());
    assert!(other.geometry().handle_for(&Curve::x_axis()).is_none());
    assert!(other.geometry().handle_for(&Surface::x_y_plane()).is_none());
}

#[test]
fn handle_for_gives_the_first_of_equal_payloads() {
    let mut shape = Shape::new();
    let unrelated = shape.geometry().add_point(point(7, 7, 7));
    let first = shape.geometry().add_point(point(1, 2, 3));
    let second = shape.geometry().add_point(point(1, 2, 3));

    assert_ne!(first, second);
    assert_ne!(first, unrelated);
    assert_eq!(shape.geometry().handle_for(&point(1, 2, 3)), Some(first));
    assert_eq!(shape.geometry().handle_for(&point(7, 7, 7)), Some(unrelated));
    assert_eq!(shape.geometry().handle_for(&point(3, 2, 1)), None);
}

#[test]
fn added_geometry_is_addressed_by_kind_and_position() {
    let mut shape = Shape::tagged_with(42, 5);
    let a = shape.geometry().add_point(point(1, 0, 0));
    let b = shape.geometry().add_point(point(2, 0, 0));
    let c = shape.geometry().add_curve(Curve::x_axis());
    let s = shape.geometry().add_surface(Surface::x_y_plane());

    assert_eq!((a.shape, a.kind, a.index), (42, Kind::Point, 0));
    assert_eq!((b.shape, b.kind, b.index), (42, Kind::Point, 1));
    assert_eq!((c.shape, c.kind, c.index), (42, Kind::Curve, 0));
    assert_eq!((s.shape, s.kind, s.index), (42, Kind::Surface, 0));

    assert_eq!(shape.geometry().point(&a), Some(point(1, 0, 0)));
    assert_eq!(shape.geometry().point(&b), Some(point(2, 0, 0)));
    assert_eq!(shape.geometry().curve(&c), Some(Curve::x_axis()));
    assert_eq!(shape.geometry().surface(&s), Some(Surface::x_y_plane()));
}

#[test]
fn a_handle_of_another_kind_or_shape_resolves_to_nothing() {
    let mut shape = Shape::tagged_with(1, 1);
    let mut other = Shape::tagged_with(2, 1);
    let p = shape.geometry().add_point(point(1, 0, 0));
    let c = shape.geometry().add_curve(Curve::x_axis());
    other.geometry().add_point(point(9, 9, 9));

    assert_eq!(shape.geometry().point(&c), None);
    assert_eq!(shape.geometry().curve(&p), None);
    assert_eq!(shape.geometry().surface(&p), None);
    assert_eq!(other.geometry().point(&p), None);
}

#[test]
fn duplicate_geometry_is_accepted() {
    let mut shape = Shape::new();
    let a = shape.geometry().add_curve(Curve::x_axis());
    let b = shape.geometry().add_curve(Curve::x_axis());
    assert_ne!(a, b);
    assert_eq!(shape.geometry().curve(&a), shape.geometry().curve(&b));
}

#[test]
fn passes_visit_every_slot_once_in_order() {
    let mut shape = Shape::new();
    let a = shape.geometry().add_point(point(1, 0, 0));
    let b = shape.geometry().add_point(point(2, 0, 0));
    shape.geometry().add_curve(Curve::x_axis());
    shape.geometry().add_surface(Surface::x_y_plane());

    let geometry = shape.geometry();
    let mut points = geometry.points();
    assert_eq!(points.next(), Some((a, &point(1, 0, 0))));
    assert_eq!(points.next(), Some((b, &point(2, 0, 0))));
    assert_eq!(points.next(), None);
    assert_eq!(points.next(), None);

    let mut curves = geometry.curves();
    let (handle, curve) = curves.next().unwrap();
    assert_eq!(handle.kind, Kind::Curve);
    assert_eq!(*curve, Curve::x_axis());
    assert!(curves.next().is_none());

    let mut surfaces = geometry.surfaces();
    let (handle, surface) = surfaces.next().unwrap();
    assert_eq!(handle.kind, Kind::Surface);
    assert_eq!(*surface, Surface::x_y_plane());
    assert!(surfaces.next().is_none());
}

#[test]
fn transform_moves_every_geometric_payload() {
    let mut shape = Shape::new();
    let p = shape.geometry().add_point(point(1, 2, 3));
    let c = shape.geometry().add_curve(Curve::Line(Line {
        origin: point(0, 1, 0),
        direction: Vector { x: 1, y: 0, z: 0 },
    }));
    let s = shape.geometry().add_surface(Surface::Plane(Plane {
        origin: point(0, 0, 4),
        normal: Vector { x: 0, y: 0, z: 1 },
    }));
    let f = shape
        .topology()
        .add_face(Face::Triangles(vec![Triangle {
            a: point(0, 0, 0),
            b: point(1, 0, 0),
            c: point(0, 1, 0),
        }]))
        .unwrap();

    // (x, y, z) goes to (-y + 10, x, z).
    let mut turn = Transform::quarter_turn_z();
    turn.offset = Vector { x: 10, y: 0, z: 0 };
    assert!(shape.geometry().transform(&turn));

    assert_eq!(shape.geometry().point(&p), Some(point(8, 1, 3)));
    assert_eq!(
        shape.geometry().curve(&c),
        Some(Curve::Line(Line { origin: point(9, 0, 0), direction: Vector { x: 0, y: 1, z: 0 } }))
    );
    assert_eq!(
        shape.geometry().surface(&s),
        Some(Surface::Plane(Plane {
            origin: point(10, 0, 4),
            normal: Vector { x: 0, y: 0, z: 1 }
        }))
    );
    match shape.topology().face(&f).unwrap() {
        Face::Triangles(triangles) => assert_eq!(
            triangles,
            vec![Triangle { a: point(10, 0, 0), b: point(10, 1, 0), c: point(9, 0, 0) }]
        ),
        Face::Face { .. } => panic!("the face is a list of triangles"),
    }
}

#[test]
fn transform_that_leaves_the_grid_changes_nothing() {
    let mut shape = Shape::new();
    let a = shape.geometry().add_point(point(0, 0, 0));
    let b = shape.geometry().add_point(point(i32::MAX, 0, 0));
    let c = shape.geometry().add_curve(Curve::x_axis());

    let shift = Transform::translation(Vector { x: 1, y: 0, z: 0 });
    assert!(!shape.geometry().transform(&shift));

    assert_eq!(shape.geometry().point(&a), Some(point(0, 0, 0)));
    assert_eq!(shape.geometry().point(&b), Some(point(i32::MAX, 0, 0)));
    assert_eq!(shape.geometry().curve(&c), Some(Curve::x_axis()));
}

#[test]
fn transform_and_its_inverse_restore_every_payload() {
    let mut shape = Shape::new();
    let p = shape.geometry().add_point(point(1, 2, 3));
    let q = shape.geometry().add_point(point(-4, 5, -6));
    let c = shape.geometry().add_curve(Curve::Line(Line {
        origin: point(3, 1, 0),
        direction: Vector { x: 1, y: -2, z: 5 },
    }));
    let s = shape.geometry().add_surface(Surface::x_y_plane());

    let t = Transform {
        order: AxisOrder::Yzx,
        flip_x: true,
        flip_y: false,
        flip_z: true,
        offset: Vector { x: 7, y: -8, z: 9 },
    };
    let back = t.inverse().unwrap();
    assert!(shape.geometry().transform(&t));
    assert_eq!(shape.geometry().point(&p), Some(point(5, -5, 8)));
    assert!(shape.geometry().transform(&back));

    assert_eq!(shape.geometry().point(&p), Some(point(1, 2, 3)));
    assert_eq!(shape.geometry().point(&q), Some(point(-4, 5, -6)));
    assert_eq!(
        shape.geometry().curve(&c),
        Some(Curve::Line(Line {
            origin: point(3, 1, 0),
            direction: Vector { x: 1, y: -2, z: 5 }
        }))
    );
    assert_eq!(shape.geometry().surface(&s), Some(Surface::x_y_plane()));
}

#[test]
fn handles_issued_before_growth_and_a_move_still_resolve() {
    let mut shape = Shape::new();
    let early = shape.geometry().add_point(point(1, 1, 1));
    for i in 0..100 {
        shape.geometry().add_point(point(i, 0, 0));
    }
    let shift = Transform::translation(Vector { x: 0, y: 0, z: 5 });
    assert!(shape.geometry().transform(&shift));
    assert_eq!(shape.geometry().point(&early), Some(point(1, 1, 6)));
}

#[test]
fn handle_for_finds_a_curve_by_what_it_describes() {
    let mut shape = Shape::new();
    let axis = shape.geometry().add_curve(Curve::x_axis());
    let floor = shape.geometry().add_surface(Surface::x_y_plane());

    let origin = point(0, 0, 0);
    let longer = Curve::Line(Line { origin, direction: Vector { x: 7, y: 0, z: 0 } });
    let opposite = Curve::Line(Line { origin, direction: Vector { x: -1, y: 0, z: 0 } });
    let elsewhere = Curve::Line(Line { origin: point(1, 0, 0), direction: Vector { x: 1, y: 0, z: 0 } });
    let askew = Curve::Line(Line { origin, direction: Vector { x: 7, y: 1, z: 0 } });
    let still = Curve::Line(Line { origin, direction: Vector { x: 0, y: 0, z: 0 } });
    assert_eq!(shape.geometry().handle_for(&longer), Some(axis));
    assert_eq!(shape.geometry().handle_for(&opposite), Some(axis));
    assert_eq!(shape.geometry().handle_for(&elsewhere), None);
    assert_eq!(shape.geometry().handle_for(&askew), None);
    assert_eq!(shape.geometry().handle_for(&still), None);

    let down = Surface::Plane(Plane { origin, normal: Vector { x: 0, y: 0, z: -3 } });
    let tilted = Surface::Plane(Plane { origin, normal: Vector { x: 0, y: 1, z: -3 } });
    assert_eq!(shape.geometry().handle_for(&down), Some(floor));
    assert_eq!(shape.geometry().handle_for(&tilted), None);

    let kept = shape.geometry().add_curve(still);
    assert_eq!(shape.geometry().handle_for(&still), Some(kept));
}
