use fj_kernel::geometry::{Circle, Curve, Line, Plane, Surface};
use fj_kernel::math::{
    square_below, squared, sum_below, Axis, AxisOrder, Point, Transform, Vector,
};
use fj_kernel::shape::store::{Handle, Kind, Store};

fn point(x: i32, y: i32, z: i32) -> Point {
    Point { x, y, z }
}

#[test]
fn within_compares_the_squared_distance() {
    let origin = point(0, 0, 0);
    // The distance from (3, 4, 12) to the origin is 13.
    assert!(!origin.within(&point(3, 4, 12), 13));
    assert!(origin.within(&point(3, 4, 12), 14));
    assert!(!origin.within(&point(3, 4, 12), 0));
    assert!(point(3, 4, 12).within(&origin, 14));
    // A point is closer to itself than any positive distance, not closer than zero.
    assert!(origin.within(&origin, 1));
    assert!(!origin.within(&origin, 0));
}

#[test]
fn within_holds_out_at_the_ends_of_the_grid() {
    let low = point(i32::MIN, i32::MIN, i32::MIN);
    let high = point(i32::MAX, i32::MAX, i32::MAX);
    assert!(!low.within(&high, u32::MAX));
    assert!(low.within(&point(i32::MIN + 1, i32::MIN, i32::MIN), 2));
    assert!(!low.within(&point(i32::MIN + 1, i32::MIN, i32::MIN), 1));
}

#[test]
fn squares_and_sums() {
    assert_eq!(squared(-5), 25);
    assert_eq!(squared(0), 0);
    assert_eq!(squared((1i128 << 64) - 1), u128::MAX - (1u128 << 65) + 2);
    assert!(sum_below(1, 2, 3, 7));
    assert!(!sum_below(1, 2, 3, 6));
    assert!(!sum_below(u128::MAX, u128::MAX, u128::MAX, u128::MAX));
    assert!(!sum_below(0, 0, 0, 0));
}

#[test]
fn line_carries_points_at_less_than_the_tolerance() {
    let diagonal = Line { origin: point(0, 0, 0), direction: Vector { x: 1, y: 1, z: 0 } };
    // (10, 0, 0) lies sqrt(50) from the diagonal: 7 is too little, 8 is enough.
    assert!(!diagonal.carries(&point(10, 0, 0), 7));
    assert!(diagonal.carries(&point(10, 0, 0), 8));
    assert!(diagonal.carries(&point(5, 5, 0), 1));
    assert!(!diagonal.carries(&point(5, 5, 0), 0));
    assert!(!diagonal.carries(&point(5, 5, 3), 3));
    assert!(diagonal.carries(&point(5, 5, 3), 4));
}

#[test]
fn degenerate_line_carries_nothing() {
    let dot = Line { origin: point(0, 0, 0), direction: Vector { x: 0, y: 0, z: 0 } };
    assert!(!dot.carries(&point(0, 0, 0), u32::MAX));
}

#[test]
fn line_decides_at_the_ends_of_the_grid() {
    let steep = Line {
        origin: point(i32::MIN, i32::MIN, i32::MIN),
        direction: Vector { x: i32::MIN, y: i32::MAX, z: i32::MIN },
    };
    assert!(!steep.carries(&point(i32::MAX, i32::MAX, i32::MAX), u32::MAX));
    assert!(steep.carries(&point(i32::MIN, i32::MIN, i32::MIN), 1));
}

#[test]
fn plane_carries_points_at_less_than_the_tolerance() {
    let tilted = Plane { origin: point(0, 0, 0), normal: Vector { x: 3, y: 4, z: 0 } };
    // (5, 0, 0) lies 3 from the plane.
    assert!(!tilted.carries(&point(5, 0, 0), 3));
    assert!(tilted.carries(&point(5, 0, 0), 4));
    assert!(tilted.carries(&point(4, -3, 100), 1));
    assert!(!tilted.carries(&point(4, -3, 100), 0));
}

#[test]
fn plane_decides_at_the_ends_of_the_grid() {
    let far = Plane {
        origin: point(i32::MIN, i32::MIN, i32::MIN),
        normal: Vector { x: i32::MIN, y: i32::MIN, z: i32::MIN },
    };
    assert!(!far.carries(&point(i32::MAX, i32::MAX, i32::MAX), u32::MAX));
    assert!(far.carries(&point(i32::MIN, i32::MIN, i32::MIN), 1));
}

#[test]
fn plane_carries_a_line_by_its_origin_and_the_next_location() {
    let floor = Plane { origin: point(0, 0, 0), normal: Vector { x: 0, y: 0, z: 1 } };
    let flat = Line { origin: point(5, 5, 0), direction: Vector { x: 1, y: 2, z: 0 } };
    let rising = Line { origin: point(5, 5, 0), direction: Vector { x: 1, y: 0, z: 3 } };
    let lifted = Line { origin: point(5, 5, 2), direction: Vector { x: 1, y: 0, z: 0 } };
    assert!(floor.carries_line(&flat, 1));
    assert!(!floor.carries_line(&rising, 3));
    assert!(floor.carries_line(&rising, 4));
    assert!(!floor.carries_line(&lifted, 2));
    assert!(floor.carries_line(&lifted, 3));
    assert!(Surface::Plane(floor).carries_curve(&Curve::Line(flat), 1));
    assert!(!Surface::Plane(floor).carries_curve(&Curve::Line(rising), 3));
    assert!(Surface::x_y_plane().carries_curve(&Curve::x_axis(), 1));
}

#[test]
fn curve_and_surface_carry_as_their_variant_does() {
    assert!(Curve::x_axis().carries(&point(100, 0, 0), 1));
    assert!(!Curve::x_axis().carries(&point(100, 1, 0), 1));
    assert!(Curve::x_axis().carries(&point(100, 1, 0), 2));
    assert!(Surface::x_y_plane().carries(&point(100, -100, 0), 1));
    assert!(!Surface::x_y_plane().carries(&point(0, 0, -1), 1));
    assert!(Surface::x_y_plane().carries(&point(0, 0, -1), 2));
}

#[test]
fn transform_reorders_mirrors_and_displaces() {
    let t = Transform {
        order: AxisOrder::Zxy,
        flip_x: false,
        flip_y: true,
        flip_z: false,
        offset: Vector { x: 100, y: 200, z: 300 },
    };
    assert_eq!(t.try_point(&point(1, 2, 3)), Some(point(103, 199, 302)));
    assert_eq!(t.try_vector(&Vector { x: 1, y: 2, z: 3 }), Some(Vector { x: 3, y: -1, z: 2 }));
    assert_eq!(Transform::identity().try_point(&point(1, 2, 3)), Some(point(1, 2, 3)));
    assert_eq!(
        Transform::translation(Vector { x: 10, y: 0, z: 0 }).try_point(&point(1, 2, 3)),
        Some(point(11, 2, 3))
    );
    assert_eq!(Transform::quarter_turn_z().try_point(&point(1, 0, 0)), Some(point(0, 1, 0)));
    assert_eq!(Transform::quarter_turn_z().try_point(&point(0, 1, 0)), Some(point(-1, 0, 0)));
}

#[test]
fn transform_refuses_what_leaves_the_grid() {
    let shift = Transform::translation(Vector { x: 1, y: 0, z: 0 });
    assert_eq!(shift.try_point(&point(i32::MAX, 0, 0)), None);
    assert_eq!(shift.try_point(&point(i32::MAX - 1, 0, 0)), Some(point(i32::MAX, 0, 0)));
    let mirror = Transform { flip_y: true, ..Transform::identity() };
    assert_eq!(mirror.try_vector(&Vector { x: 0, y: i32::MIN, z: 0 }), None);
    assert_eq!(
        mirror.try_vector(&Vector { x: 0, y: i32::MAX, z: 0 }),
        Some(Vector { x: 0, y: -i32::MAX, z: 0 })
    );
    assert_eq!(
        Curve::x_axis().transform(&Transform::translation(Vector { x: 0, y: 5, z: 0 })),
        Some(Curve::Line(Line { origin: point(0, 5, 0), direction: Vector { x: 1, y: 0, z: 0 } }))
    );
    let edge = Curve::Line(Line {
        origin: point(i32::MAX, 0, 0),
        direction: Vector { x: 1, y: 0, z: 0 },
    });
    assert_eq!(edge.transform(&shift), None);
    let wall = Surface::Plane(Plane {
        origin: point(0, 0, 0),
        normal: Vector { x: 0, y: i32::MIN, z: 0 },
    });
    assert_eq!(wall.transform(&mirror), None);
    assert_eq!(
        Surface::x_y_plane().transform(&shift),
        Some(Surface::Plane(Plane {
            origin: point(1, 0, 0),
            normal: Vector { x: 0, y: 0, z: 1 }
        }))
    );
}

#[test]
fn inverse_undoes_every_axis_order() {
    let orders = [
        AxisOrder::Xyz,
        AxisOrder::Xzy,
        AxisOrder::Yxz,
        AxisOrder::Yzx,
        AxisOrder::Zxy,
        AxisOrder::Zyx,
    ];
    for order in orders {
        for flips in 0..8 {
            let t = Transform {
                order,
                flip_x: flips & 1 != 0,
                flip_y: flips & 2 != 0,
                flip_z: flips & 4 != 0,
                offset: Vector { x: 11, y: -22, z: 33 },
            };
            let back = t.inverse().unwrap();
            let p = point(5, -7, 9);
            let there = t.try_point(&p).unwrap();
            assert_eq!(back.try_point(&there), Some(p));
            let v = Vector { x: 1, y: 2, z: 3 };
            let turned = t.try_vector(&v).unwrap();
            assert_eq!(back.try_vector(&turned), Some(v));
        }
    }
}

#[test]
fn inverse_of_a_translation_is_the_opposite_translation() {
    let t = Transform::translation(Vector { x: 10, y: -20, z: 30 });
    assert_eq!(t.inverse(), Some(Transform::translation(Vector { x: -10, y: 20, z: -30 })));
    assert_eq!(Transform::identity().inverse(), Some(Transform::identity()));
    assert_eq!(
        Transform::quarter_turn_z().inverse().unwrap().try_point(&point(0, 1, 0)),
        Some(point(1, 0, 0))
    );
    assert_eq!(AxisOrder::Yzx.inverse(), AxisOrder::Zxy);
    assert_eq!(AxisOrder::Zxy.inverse(), AxisOrder::Yzx);
    assert_eq!(AxisOrder::Xzy.inverse(), AxisOrder::Xzy);
}

#[test]
fn inverse_does_not_exist_for_the_least_offset() {
    let t = Transform::translation(Vector { x: i32::MIN, y: 0, z: 0 });
    assert_eq!(t.inverse(), None);
}

#[test]
fn store_appends_reads_and_replaces() {
    let mut store: Store<u8> = Store::new(3, Kind::Point);
    assert!(store.is_empty());
    let a = store.insert(10);
    let b = store.insert(20);
    assert_eq!(store.len(), 2);
    assert!(!store.is_empty());
    assert_eq!(a, Handle { shape: 3, kind: Kind::Point, index: 0 });
    assert_eq!(b, Handle { shape: 3, kind: Kind::Point, index: 1 });
    assert_eq!(store.handle(1), b);
    assert_eq!(store.get(&a), Some(&10));
    assert_eq!(store.get(&b), Some(&20));
    assert_eq!(*store.at(1), 20);

    assert!(store.set(&a, 11));
    assert_eq!(store.get(&a), Some(&11));
    assert_eq!(store.get(&b), Some(&20));
    assert_eq!(store.len(), 2);
}

#[test]
fn store_knows_its_own_handles() {
    let mut store: Store<u8> = Store::new(3, Kind::Point);
    let a = store.insert(10);
    let beyond = Handle { index: 1, ..a };
    let foreign = Handle { shape: 4, ..a };
    let other_kind = Handle { kind: Kind::Curve, ..a };
    assert!(store.contains(&a));
    assert!(!store.contains(&beyond));
    assert!(!store.contains(&foreign));
    assert!(!store.contains(&other_kind));
    assert_eq!(store.get(&beyond), None);
    assert_eq!(store.get(&foreign), None);
    assert!(!store.set(&foreign, 99));
    assert!(!store.set(&beyond, 99));
    assert_eq!(store.get(&a), Some(&10));
    assert_eq!(store.len(), 1);
}

#[test]
fn store_pass_hands_out_each_slot_once() {
    let mut store: Store<u8> = Store::new(0, Kind::Edge);
    let a = store.insert(1);
    let b = store.insert(2);
    let mut pass = store.iter();
    assert_eq!(pass.next(), Some((a, &1)));
    assert_eq!(pass.next(), Some((b, &2)));
    assert_eq!(pass.next(), None);
    assert_eq!(pass.next(), None);
    let empty: Store<u8> = Store::new(0, Kind::Edge);
    assert_eq!(empty.iter().next(), None);
}

#[test]
fn square_below_compares_without_overflow() {
    assert!(square_below(5, 2, 7)); // 25 < 28
    assert!(!square_below(6, 2, 9)); // 36 < 36
    assert!(square_below(6, 2, 10));
    assert!(!square_below(1, 0, 100));
    assert!(!square_below(0, 3, 0));
    assert!(square_below(0, 3, 1));
    let c = (1u128 << 67) - 1;
    let s = (1u128 << 34) - 1;
    let q = (1u128 << 66) - 1;
    // c^2 is about 2^134, s^2 * q about 2^134 too: s^2 * q is the lesser.
    assert!(!square_below(c, s, q));
    assert!(square_below(c / 2, s, q));
    assert!(!square_below(c, 1, q));
    assert!(square_below(1 << 33, 1, (1 << 66) + 0 - 1) == false);
    // Just on either side of equality, far beyond what fits: (3 * 2^40)^2 = 9 * 2^80.
    assert!(!square_below(3 << 40, 1 << 20, 9 << 40));
    assert!(square_below(3 << 40, 1 << 20, (9 << 40) + 1));
    assert!(square_below((3 << 40) - 1, 1 << 20, 9 << 40));
}

#[test]
fn line_evaluates_at_a_parameter() {
    let line = Line { origin: point(1, 2, 3), direction: Vector { x: 2, y: 0, z: -1 } };
    assert_eq!(line.point_at(0), Some(point(1, 2, 3)));
    assert_eq!(line.point_at(1), Some(point(3, 2, 2)));
    assert_eq!(line.point_at(-5), Some(point(-9, 2, 8)));
    assert_eq!(line.point_at(i32::MAX), None);
    assert_eq!(line.point_at(i32::MAX / 2), Some(point(i32::MAX, 2, 3 - i32::MAX / 2)));
    assert_eq!(line.point_at(i32::MAX / 2 + 1), None);
    for t in [-3, 0, 7] {
        assert!(line.carries(&line.point_at(t).unwrap(), 1));
    }
}

#[test]
fn circle_carries_points_at_less_than_the_tolerance() {
    let ring = Circle { center: point(0, 0, 0), normal: Axis::Z, radius: 100 };
    assert!(!ring.carries(&point(103, 0, 0), 3));
    assert!(ring.carries(&point(103, 0, 0), 4));
    assert!(!ring.carries(&point(97, 0, 0), 3));
    assert!(ring.carries(&point(0, -97, 0), 4));
    assert!(!ring.carries(&point(100, 0, 4), 4));
    assert!(ring.carries(&point(100, 0, 4), 5));
    assert!(ring.carries(&point(60, 80, 0), 1));
    assert!(!ring.carries(&point(60, 80, 0), 0));
    // The center lies a radius away.
    assert!(!ring.carries(&point(0, 0, 0), 100));
    assert!(ring.carries(&point(0, 0, 0), 101));
    // (3, 4, 0) lies 95 away, (1, 1, 0) a little more than 98.58.
    assert!(!ring.carries(&point(3, 4, 0), 95));
    assert!(ring.carries(&point(3, 4, 0), 96));
    assert!(!ring.carries(&point(1, 1, 0), 98));
    assert!(ring.carries(&point(1, 1, 0), 99));
    // (103, 0, 4) lies 5 away.
    assert!(!ring.carries(&point(103, 0, 4), 5));
    assert!(ring.carries(&point(103, 0, 4), 6));
    assert!(Curve::Circle(ring).carries(&point(103, 0, 4), 6));
    assert!(Curve::Circle(ring).is_closed());
    assert!(!Curve::x_axis().is_closed());
}

#[test]
fn circle_lies_in_the_plane_of_its_normal() {
    let upright = Circle { center: point(5, 5, 5), normal: Axis::X, radius: 10 };
    assert!(upright.carries(&point(5, 15, 5), 1));
    assert!(upright.carries(&point(5, 5, -5), 1));
    assert!(!upright.carries(&point(15, 5, 5), 14));
    assert!(upright.carries(&point(15, 5, 5), 15));
    let level = Circle { normal: Axis::Y, ..upright };
    assert!(level.carries(&point(15, 5, 5), 1));
    assert!(!level.carries(&point(5, 15, 5), 14));
}

#[test]
fn circle_of_radius_zero_is_its_center() {
    let dot = Circle { center: point(1, 1, 1), normal: Axis::Z, radius: 0 };
    assert!(dot.carries(&point(1, 1, 1), 1));
    assert!(!dot.carries(&point(1, 1, 1), 0));
    assert!(!dot.carries(&point(4, 5, 1), 5));
    assert!(dot.carries(&point(4, 5, 1), 6));
}

#[test]
fn circle_decides_at_the_ends_of_the_grid() {
    let huge = Circle {
        center: point(i32::MIN, i32::MIN, i32::MIN),
        normal: Axis::Z,
        radius: u32::MAX,
    };
    assert!(!huge.carries(&point(i32::MAX, i32::MAX, i32::MAX), u32::MAX));
    assert!(huge.carries(&point(i32::MAX, i32::MIN, i32::MIN), 1));
    assert!(!huge.carries(&point(i32::MAX - 1, i32::MIN, i32::MIN), 1));
    assert!(huge.carries(&point(i32::MAX - 1, i32::MIN, i32::MIN), 2));
}

#[test]
fn plane_carries_a_circle_by_four_samples() {
    let floor = Plane { origin: point(0, 0, 0), normal: Vector { x: 0, y: 0, z: 1 } };
    let flat = Circle { center: point(7, 7, 0), normal: Axis::Z, radius: 100 };
    let upright = Circle { center: point(7, 7, 0), normal: Axis::X, radius: 100 };
    let lifted = Circle { center: point(7, 7, 3), normal: Axis::Z, radius: 100 };
    assert!(floor.carries_circle(&flat, 1));
    assert!(!floor.carries_circle(&upright, 100));
    assert!(floor.carries_circle(&upright, 101));
    assert!(!floor.carries_circle(&lifted, 3));
    assert!(floor.carries_circle(&lifted, 4));
    assert!(Surface::Plane(floor).carries_curve(&Curve::Circle(flat), 1));
    let far = Circle { center: point(i32::MAX, i32::MIN, 0), normal: Axis::Z, radius: u32::MAX };
    assert!(floor.carries_circle(&far, 1));
}

#[test]
fn transform_moves_a_circle_with_its_axis() {
    let ring = Curve::Circle(Circle { center: point(10, 0, 0), normal: Axis::X, radius: 4 });
    assert_eq!(
        ring.transform(&Transform::quarter_turn_z()),
        Some(Curve::Circle(Circle { center: point(0, 10, 0), normal: Axis::Y, radius: 4 }))
    );
    let shift = Transform::translation(Vector { x: 0, y: 0, z: 9 });
    assert_eq!(
        ring.transform(&shift),
        Some(Curve::Circle(Circle { center: point(10, 0, 9), normal: Axis::X, radius: 4 }))
    );
    let edge = Curve::Circle(Circle { center: point(0, 0, i32::MAX), normal: Axis::X, radius: 4 });
    assert_eq!(edge.transform(&shift), None);
    assert_eq!(AxisOrder::Yzx.move_axis(Axis::X), Axis::Z);
    assert_eq!(AxisOrder::Yzx.move_axis(Axis::Y), Axis::X);
    assert_eq!(AxisOrder::Yzx.move_axis(Axis::Z), Axis::Y);
    for order in [
        AxisOrder::Xyz,
        AxisOrder::Xzy,
        AxisOrder::Yxz,
        AxisOrder::Yzx,
        AxisOrder::Zxy,
        AxisOrder::Zyx,
    ] {
        for axis in [Axis::X, Axis::Y, Axis::Z] {
            assert_eq!(order.inverse().move_axis(order.move_axis(axis)), axis);
        }
    }
}

#[test]
fn parallel_displacements_and_the_same_lines_and_planes() {
    let v = |x: i32, y: i32, z: i32| Vector { x, y, z };
    assert!(v(1, 2, 3).runs_along(&v(2, 4, 6)));
    assert!(v(1, 2, 3).runs_along(&v(-3, -6, -9)));
    assert!(v(1, 2, 3).runs_along(&v(1, 2, 3)));
    assert!(!v(1, 2, 3).runs_along(&v(2, 4, 7)));
    assert!(!v(1, 2, 3).runs_along(&v(0, 0, 0)));
    assert!(!v(0, 0, 0).runs_along(&v(0, 0, 0)));
    assert!(v(i32::MIN, i32::MAX, 0).runs_along(&v(i32::MIN, i32::MAX, 0)));
    assert!(!v(i32::MIN, i32::MAX, 0).runs_along(&v(i32::MAX, i32::MIN, 0)));
    assert!(v(i32::MIN, 0, i32::MIN).runs_along(&v(1, 0, 1)));

    let line = |origin: Point, direction: Vector| Line { origin, direction };
    let a = line(point(1, 1, 1), v(2, 0, 4));
    assert!(a.matches(&a));
    assert!(a.matches(&line(point(1, 1, 1), v(-1, 0, -2))));
    assert!(!a.matches(&line(point(3, 1, 5), v(2, 0, 4))));
    assert!(!a.matches(&line(point(1, 1, 1), v(2, 1, 4))));
    let still = line(point(1, 1, 1), v(0, 0, 0));
    assert!(still.matches(&still));
    assert!(!still.matches(&a));

    let plane = |origin: Point, normal: Vector| Plane { origin, normal };
    let p = plane(point(0, 0, 5), v(0, 0, 2));
    assert!(p.matches(&plane(point(0, 0, 5), v(0, 0, -7))));
    assert!(!p.matches(&plane(point(1, 0, 5), v(0, 0, 2))));
    assert!(!p.matches(&plane(point(0, 0, 5), v(0, 1, 2))));

    let ring = Circle { center: point(0, 0, 0), normal: Axis::Z, radius: 5 };
    assert!(Curve::Circle(ring).matches(&Curve::Circle(ring)));
    assert!(!Curve::Circle(ring).matches(&Curve::Circle(Circle { radius: 6, ..ring })));
    assert!(!Curve::Circle(ring).matches(&Curve::Circle(Circle { normal: Axis::X, ..ring })));
    assert!(!Curve::Circle(ring).matches(&Curve::x_axis()));
    assert!(Curve::x_axis().matches(&Curve::Line(line(point(0, 0, 0), v(-9, 0, 0)))));
    assert!(Surface::x_y_plane().matches(&Surface::Plane(plane(point(0, 0, 0), v(0, 0, 4)))));

    // Values that describe the same line carry the same points.
    let b = line(point(1, 1, 1), v(-3, 0, -6));
    for q in [point(1, 1, 1), point(3, 1, 5), point(3, 2, 5), point(-40, 7, 9)] {
        for eps in [1, 2, 5, 50] {
            assert_eq!(a.carries(&q, eps), b.carries(&q, eps));
        }
    }
}
