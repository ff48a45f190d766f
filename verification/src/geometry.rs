//! Curves and surfaces: the geometry that carries edges and faces.
//!
//! Whether a point lies on a curve or a surface is decided up to a tolerance,
//! and exactly: the distance is never formed, only the squares of integers are
//! compared.

use vstd::prelude::*;
use crate::math::{
    cross_squared, dot, fits_i32, lemma_factor_of_product, lemma_scaled_comparison,
    lemma_scaled_cross, lemma_scaled_dot, lemma_scaled_norm, lemma_product_bound, lemma_square_bound, norm_squared, square,
    square_below, squared, sum_below, Axis, Point, Transform, Vector,
};

verus! {

/// The straight line through `origin` along `direction`.
///
/// A line whose direction is zero is degenerate: no point lies on it.
#[derive(Clone, Copy, Debug, PartialEq, Eq, Structural, Hash)]
pub struct Line {
    pub origin: Point,
    pub direction: Vector,
}

/// The circle about `center` with the given radius, in the plane through the
/// center at right angles to the axis `normal`.
///
/// A circle is a closed curve: an edge on it needs no vertex to bound it.
#[derive(Clone, Copy, Debug, PartialEq, Eq, Structural, Hash)]
pub struct Circle {
    pub center: Point,
    pub normal: Axis,
    pub radius: u32,
}

/// A curve.
#[derive(Clone, Copy, Debug, PartialEq, Eq, Structural, Hash)]
pub enum Curve {
    Line(Line),
    Circle(Circle),
}

/// The plane through `origin` at right angles to `normal`.
///
/// A plane whose normal is zero is degenerate: no point lies on it.
#[derive(Clone, Copy, Debug, PartialEq, Eq, Structural, Hash)]
pub struct Plane {
    pub origin: Point,
    pub normal: Vector,
}

/// A surface.
#[derive(Clone, Copy, Debug, PartialEq, Eq, Structural, Hash)]
pub enum Surface {
    Plane(Plane),
}

impl Line {
    /// Whether the location `(x, y, z)` is closer to the line than `eps`.
    ///
    /// With `w` the displacement from the origin to the location and `d` the
    /// direction, the distance is `|w x d| / |d|`; the comparison is made
    /// between the squares, multiplied by `|d|^2`.
    pub open spec fn holds_at(self, x: int, y: int, z: int, eps: u32) -> bool {
        cross_squared(
            x - self.origin.x,
            y - self.origin.y,
            z - self.origin.z,
            self.direction.x as int,
            self.direction.y as int,
            self.direction.z as int,
        ) < (eps * eps) * norm_squared(
            self.direction.x as int,
            self.direction.y as int,
            self.direction.z as int,
        )
    }

    /// Whether `p` is closer to the line than `eps`.
    pub open spec fn holds(self, p: Point, eps: u32) -> bool {
        self.holds_at(p.x as int, p.y as int, p.z as int, eps)
    }

    /// The location on the line at the parameter `t`: `t` times the direction
    /// away from the origin.
    pub open spec fn location(self, t: int) -> (int, int, int) {
        (
            self.origin.x + t * self.direction.x,
            self.origin.y + t * self.direction.y,
            self.origin.z + t * self.direction.z,
        )
    }

    /// The point on the line at the parameter `t`, or `None` where that
    /// location is outside the grid.
    pub fn point_at(&self, t: i32) -> (r: Option<Point>)
        ensures
            r.is_some() == (fits_i32(self.location(t as int).0) && fits_i32(
                self.location(t as int).1,
            ) && fits_i32(self.location(t as int).2)),
            r.is_some() ==> r.unwrap().x == self.location(t as int).0 && r.unwrap().y
                == self.location(t as int).1 && r.unwrap().z == self.location(t as int).2,
    {
        proof {
            lemma_product_bound(t as int, self.direction.x as int, 0x8000_0000, 0x8000_0000);
            lemma_product_bound(t as int, self.direction.y as int, 0x8000_0000, 0x8000_0000);
            lemma_product_bound(t as int, self.direction.z as int, 0x8000_0000, 0x8000_0000);
            assert(0x8000_0000int * 0x8000_0000int == 0x4000_0000_0000_0000) by (nonlinear_arith);
        }
        let x: i128 = self.origin.x as i128 + (t as i128) * (self.direction.x as i128);
        let y: i128 = self.origin.y as i128 + (t as i128) * (self.direction.y as i128);
        let z: i128 = self.origin.z as i128 + (t as i128) * (self.direction.z as i128);
        if -0x8000_0000 <= x && x <= 0x7fff_ffff && -0x8000_0000 <= y && y <= 0x7fff_ffff
            && -0x8000_0000 <= z && z <= 0x7fff_ffff {
            Some(Point { x: x as i32, y: y as i32, z: z as i32 })
        } else {
            None
        }
    }

    /// Decides `holds`.
    pub fn carries(&self, p: &Point, eps: u32) -> (r: bool)
        ensures
            r == self.holds(*p, eps),
    {
        let wx: i128 = p.x as i128 - self.origin.x as i128;
        let wy: i128 = p.y as i128 - self.origin.y as i128;
        let wz: i128 = p.z as i128 - self.origin.z as i128;
        let dx: i128 = self.direction.x as i128;
        let dy: i128 = self.direction.y as i128;
        let dz: i128 = self.direction.z as i128;
        proof {
            let w: int = 0xffff_ffff;
            let d: int = 0x8000_0000;
            lemma_product_bound(wy as int, dz as int, w, d);
            lemma_product_bound(wz as int, dy as int, w, d);
            lemma_product_bound(wz as int, dx as int, w, d);
            lemma_product_bound(wx as int, dz as int, w, d);
            lemma_product_bound(wx as int, dy as int, w, d);
            lemma_product_bound(wy as int, dx as int, w, d);
            assert(w * d == 0x7fff_ffff_8000_0000) by (nonlinear_arith)
                requires
                    w == 0xffff_ffff,
                    d == 0x8000_0000,
            ;
        }
        let cx: i128 = wy * dz - wz * dy;
        let cy: i128 = wz * dx - wx * dz;
        let cz: i128 = wx * dy - wy * dx;
        let limit: u128 = scaled_tolerance(eps, &self.direction);
        sum_below(squared(cx), squared(cy), squared(cz), limit)
    }

    /// Whether two values describe the same line from the same origin: they
    /// are equal, or their origins are equal and their directions, neither of
    /// them zero, are parallel. Directions are parallel exactly when they have
    /// the same shortest form with the same sign, so this compares lines by
    /// origin and by that form of the direction.
    pub open spec fn same(self, other: Line) -> bool {
        self == other || (self.origin == other.origin && self.direction.parallel(
            other.direction,
        ))
    }

    /// Decides `same`.
    pub fn matches(&self, other: &Line) -> (r: bool)
        ensures
            r == self.same(*other),
    {
        self.origin == other.origin && (self.direction == other.direction
            || self.direction.runs_along(&other.direction))
    }

    /// Whether the image of this line under `t` can be stored.
    pub open spec fn maps(self, t: Transform) -> bool {
        t.maps_point(self.origin) && t.maps_vector(self.direction)
    }

    /// The image of this line under `t`, meaningful where `maps` holds.
    pub open spec fn image(self, t: Transform) -> Line {
        Line { origin: t.point_image(self.origin), direction: t.vector_image(self.direction) }
    }
}

impl Circle {
    /// Whether the location `(x, y, z)` is closer to the circle than `eps`.
    ///
    /// With `h` the height of the location over the plane of the circle, `q`
    /// the square of its distance from the axis through the center and `r` the
    /// radius, the squared distance is `h^2 + (sqrt(q) - r)^2`. That is less
    /// than `eps^2` exactly when `c < 2 * r * sqrt(q)` for `c = h^2 + q + r^2 -
    /// eps^2`: when `c` is negative, or else `c^2 < (2 * r)^2 * q`.
    pub open spec fn holds_at(self, x: int, y: int, z: int, eps: u32) -> bool {
        let h = self.normal.along(x - self.center.x, y - self.center.y, z - self.center.z);
        let q = self.normal.beside_squared(
            x - self.center.x,
            y - self.center.y,
            z - self.center.z,
        );
        let c = square(h) + q + square(self.radius as int) - eps * eps;
        c < 0 || c * c < (2 * self.radius) * (2 * self.radius) * q
    }

    /// Whether `p` is closer to the circle than `eps`.
    pub open spec fn holds(self, p: Point, eps: u32) -> bool {
        self.holds_at(p.x as int, p.y as int, p.z as int, eps)
    }

    /// Decides `holds`.
    pub fn carries(&self, p: &Point, eps: u32) -> (r: bool)
        ensures
            r == self.holds(*p, eps),
    {
        let wx: i128 = p.x as i128 - self.center.x as i128;
        let wy: i128 = p.y as i128 - self.center.y as i128;
        let wz: i128 = p.z as i128 - self.center.z as i128;
        let (h, u, v): (i128, i128, i128) = match self.normal {
            Axis::X => (wx, wy, wz),
            Axis::Y => (wy, wx, wz),
            Axis::Z => (wz, wx, wy),
        };
        proof {
            lemma_square_bound(h as int, 0xffff_ffff);
            lemma_square_bound(u as int, 0xffff_ffff);
            lemma_square_bound(v as int, 0xffff_ffff);
            lemma_square_bound(self.radius as int, 0xffff_ffff);
            lemma_square_bound(eps as int, 0xffff_ffff);
            assert(0xffff_ffffint * 0xffff_ffffint == 0xffff_fffe_0000_0001) by (nonlinear_arith);
        }
        let q: u128 = squared(u) + squared(v);
        let total: u128 = squared(h) + q + squared(self.radius as i128);
        let limit: u128 = squared(eps as i128);
        if total < limit {
            return true;
        }
        square_below(total - limit, 2 * (self.radius as u128), q)
    }

    /// Whether the image of this circle under `t` can be stored.
    pub open spec fn maps(self, t: Transform) -> bool {
        t.maps_point(self.center)
    }

    /// The image of this circle under `t`, meaningful where `maps` holds.
    pub open spec fn image(self, t: Transform) -> Circle {
        Circle {
            center: t.point_image(self.center),
            normal: t.order.axis_image(self.normal),
            radius: self.radius,
        }
    }

    /// A point lies on a circle exactly when its image lies on the image of
    /// the circle.
    pub proof fn lemma_moved(self, t: Transform, p: Point, eps: u32)
        requires
            self.maps(t),
            t.maps_point(p),
        ensures
            self.image(t).holds(t.point_image(p), eps) == self.holds(p, eps),
    {
        t.lemma_keeps_axis(
            self.normal,
            p.x - self.center.x,
            p.y - self.center.y,
            p.z - self.center.z,
        );
    }
}

/// `eps^2 * |v|^2`.
fn scaled_tolerance(eps: u32, v: &Vector) -> (r: u128)
    ensures
        r == (eps * eps) * norm_squared(v.x as int, v.y as int, v.z as int),
        r < 0x1_0000_0000_0000_0000 * 0x1_0000_0000_0000_0000,
{
    let e: u128 = squared(eps as i128);
    let x: u128 = squared(v.x as i128);
    let y: u128 = squared(v.y as i128);
    let z: u128 = squared(v.z as i128);
    proof {
        lemma_square_bound(eps as int, 0xffff_ffff);
        lemma_square_bound(v.x as int, 0x8000_0000);
        lemma_square_bound(v.y as int, 0x8000_0000);
        lemma_square_bound(v.z as int, 0x8000_0000);
        assert(0xffff_ffffint * 0xffff_ffffint == 0xffff_fffe_0000_0001) by (nonlinear_arith);
        assert(0x8000_0000int * 0x8000_0000int == 0x4000_0000_0000_0000) by (nonlinear_arith);
        lemma_product_bound(
            e as int,
            (x + y + z) as int,
            0xffff_fffe_0000_0001,
            0xc000_0000_0000_0000,
        );
        assert(0xffff_fffe_0000_0001int * 0xc000_0000_0000_0000int
            < 0x1_0000_0000_0000_0000 * 0x1_0000_0000_0000_0000) by (nonlinear_arith);
        assert(0x1_0000_0000_0000_0000int * 0x1_0000_0000_0000_0000int
            == 0x1_0000_0000_0000_0000_0000_0000_0000_0000) by (nonlinear_arith);
    }
    e * (x + y + z)
}

impl Plane {
    /// Whether the location `(x, y, z)` is closer to the plane than `eps`.
    ///
    /// With `w` the displacement from the origin to the location and `n` the
    /// normal, the distance is `|w . n| / |n|`; the comparison is made between
    /// the squares, multiplied by `|n|^2`.
    pub open spec fn holds_at(self, x: int, y: int, z: int, eps: u32) -> bool {
        square(
            dot(
                x - self.origin.x,
                y - self.origin.y,
                z - self.origin.z,
                self.normal.x as int,
                self.normal.y as int,
                self.normal.z as int,
            ),
        ) < (eps * eps) * norm_squared(
            self.normal.x as int,
            self.normal.y as int,
            self.normal.z as int,
        )
    }

    /// Whether `p` is closer to the plane than `eps`.
    pub open spec fn holds(self, p: Point, eps: u32) -> bool {
        self.holds_at(p.x as int, p.y as int, p.z as int, eps)
    }

    /// Decides `holds_at` for a location given by coordinates that need not
    /// lie on the grid.
    pub fn carries_at(&self, x: i64, y: i64, z: i64, eps: u32) -> (r: bool)
        requires
            -0x2_0000_0000 <= x <= 0x2_0000_0000,
            -0x2_0000_0000 <= y <= 0x2_0000_0000,
            -0x2_0000_0000 <= z <= 0x2_0000_0000,
        ensures
            r == self.holds_at(x as int, y as int, z as int, eps),
    {
        let wx: i128 = x as i128 - self.origin.x as i128;
        let wy: i128 = y as i128 - self.origin.y as i128;
        let wz: i128 = z as i128 - self.origin.z as i128;
        let nx: i128 = self.normal.x as i128;
        let ny: i128 = self.normal.y as i128;
        let nz: i128 = self.normal.z as i128;
        proof {
            let w: int = 0x2_8000_0000;
            let n: int = 0x8000_0000;
            lemma_product_bound(wx as int, nx as int, w, n);
            lemma_product_bound(wy as int, ny as int, w, n);
            lemma_product_bound(wz as int, nz as int, w, n);
            assert(w * n == 0x1_4000_0000_0000_0000) by (nonlinear_arith)
                requires
                    w == 0x2_8000_0000,
                    n == 0x8000_0000,
            ;
        }
        let a: i128 = wx * nx + wy * ny + wz * nz;
        let limit: u128 = scaled_tolerance(eps, &self.normal);
        if a >= 0x1_0000_0000_0000_0000 || a <= -0x1_0000_0000_0000_0000 {
            proof {
                assert(square(a as int) >= 0x1_0000_0000_0000_0000 * 0x1_0000_0000_0000_0000)
                    by (nonlinear_arith)
                    requires
                        a >= 0x1_0000_0000_0000_0000 || a <= -0x1_0000_0000_0000_0000,
                ;
            }
            false
        } else {
            squared(a) < limit
        }
    }

    /// Decides `holds`.
    pub fn carries(&self, p: &Point, eps: u32) -> (r: bool)
        ensures
            r == self.holds(*p, eps),
    {
        self.carries_at(p.x as i64, p.y as i64, p.z as i64, eps)
    }

    /// Whether two values describe the same plane from the same origin: they
    /// are equal, or their origins are equal and their normals, neither of
    /// them zero, are parallel.
    pub open spec fn same(self, other: Plane) -> bool {
        self == other || (self.origin == other.origin && self.normal.parallel(other.normal))
    }

    /// Decides `same`.
    pub fn matches(&self, other: &Plane) -> (r: bool)
        ensures
            r == self.same(*other),
    {
        self.origin == other.origin && (self.normal == other.normal || self.normal.runs_along(
            &other.normal,
        ))
    }

    /// Whether the image of this plane under `t` can be stored.
    pub open spec fn maps(self, t: Transform) -> bool {
        t.maps_point(self.origin) && t.maps_vector(self.normal)
    }

    /// The image of this plane under `t`, meaningful where `maps` holds.
    pub open spec fn image(self, t: Transform) -> Plane {
        Plane { origin: t.point_image(self.origin), normal: t.vector_image(self.normal) }
    }

    /// Whether the line runs in the plane up to `eps`, judged at two samples:
    /// the locations on the line at the parameters 0 and 1 are both closer to
    /// the plane than `eps`, and then so is every location between the two.
    pub open spec fn holds_line(self, line: Line, eps: u32) -> bool {
        &&& self.holds_at(line.location(0).0, line.location(0).1, line.location(0).2, eps)
        &&& self.holds_at(line.location(1).0, line.location(1).1, line.location(1).2, eps)
    }

    /// Decides `holds_line`.
    pub fn carries_line(&self, line: &Line, eps: u32) -> (r: bool)
        ensures
            r == self.holds_line(*line, eps),
    {
        let x: i64 = line.origin.x as i64 + line.direction.x as i64;
        let y: i64 = line.origin.y as i64 + line.direction.y as i64;
        let z: i64 = line.origin.z as i64 + line.direction.z as i64;
        self.carries(&line.origin, eps) && self.carries_at(x, y, z, eps)
    }

    /// Whether the two locations of the circle that lie along `axis` from its
    /// center are closer to the plane than `eps`.
    pub open spec fn holds_along(self, circle: Circle, axis: Axis, eps: u32) -> bool {
        let r = axis.times(circle.radius as int);
        &&& self.holds_at(circle.center.x + r.0, circle.center.y + r.1, circle.center.z + r.2, eps)
        &&& self.holds_at(circle.center.x - r.0, circle.center.y - r.1, circle.center.z - r.2, eps)
    }

    /// Whether the circle runs in the plane up to `eps`, judged at four
    /// samples: the locations of the circle that lie along the two axes beside
    /// its normal from its center are closer to the plane than `eps`.
    pub open spec fn holds_circle(self, circle: Circle, eps: u32) -> bool {
        &&& circle.normal != Axis::X ==> self.holds_along(circle, Axis::X, eps)
        &&& circle.normal != Axis::Y ==> self.holds_along(circle, Axis::Y, eps)
        &&& circle.normal != Axis::Z ==> self.holds_along(circle, Axis::Z, eps)
    }

    /// Decides `holds_along`.
    fn carries_along(&self, circle: &Circle, axis: Axis, eps: u32) -> (r: bool)
        ensures
            r == self.holds_along(*circle, axis, eps),
    {
        let r: i64 = circle.radius as i64;
        let (x, y, z): (i64, i64, i64) = match axis {
            Axis::X => (r, 0, 0),
            Axis::Y => (0, r, 0),
            Axis::Z => (0, 0, r),
        };
        let cx: i64 = circle.center.x as i64;
        let cy: i64 = circle.center.y as i64;
        let cz: i64 = circle.center.z as i64;
        self.carries_at(cx + x, cy + y, cz + z, eps) && self.carries_at(
            cx - x,
            cy - y,
            cz - z,
            eps,
        )
    }

    /// Decides `holds_circle`.
    pub fn carries_circle(&self, circle: &Circle, eps: u32) -> (r: bool)
        ensures
            r == self.holds_circle(*circle, eps),
    {
        match circle.normal {
            Axis::X => self.carries_along(circle, Axis::Y, eps) && self.carries_along(
                circle,
                Axis::Z,
                eps,
            ),
            Axis::Y => self.carries_along(circle, Axis::X, eps) && self.carries_along(
                circle,
                Axis::Z,
                eps,
            ),
            Axis::Z => self.carries_along(circle, Axis::X, eps) && self.carries_along(
                circle,
                Axis::Y,
                eps,
            ),
        }
    }
}

impl Curve {
    /// The line through the origin along the first axis.
    pub fn x_axis() -> (r: Curve)
        ensures
            r == Curve::Line(
                Line { origin: Point { x: 0, y: 0, z: 0 }, direction: Vector { x: 1, y: 0, z: 0 } },
            ),
    {
        Curve::Line(Line { origin: Point::origin(), direction: Vector::unit_x() })
    }

    /// Whether two values describe the same curve: they are of the same
    /// variant, and the same line or equal circles.
    pub open spec fn same(self, other: Curve) -> bool {
        match (self, other) {
            (Curve::Line(a), Curve::Line(b)) => a.same(b),
            (Curve::Circle(a), Curve::Circle(b)) => a == b,
            _ => false,
        }
    }

    /// Decides `same`.
    pub fn matches(&self, other: &Curve) -> (r: bool)
        ensures
            r == self.same(*other),
    {
        match (self, other) {
            (Curve::Line(a), Curve::Line(b)) => a.matches(b),
            (Curve::Circle(a), Curve::Circle(b)) => *a == *b,
            _ => false,
        }
    }

    /// Whether the curve is closed: a curve that comes back to where it began.
    pub open spec fn closed(self) -> bool {
        self is Circle
    }

    /// Decides `closed`.
    pub fn is_closed(&self) -> (r: bool)
        ensures
            r == self.closed(),
    {
        match self {
            Curve::Line(_) => false,
            Curve::Circle(_) => true,
        }
    }

    /// Whether `p` is closer to the curve than `eps`.
    pub open spec fn holds(self, p: Point, eps: u32) -> bool {
        match self {
            Curve::Line(line) => line.holds(p, eps),
            Curve::Circle(circle) => circle.holds(p, eps),
        }
    }

    /// Decides `holds`.
    pub fn carries(&self, p: &Point, eps: u32) -> (r: bool)
        ensures
            r == self.holds(*p, eps),
    {
        match self {
            Curve::Line(line) => line.carries(p, eps),
            Curve::Circle(circle) => circle.carries(p, eps),
        }
    }

    /// Whether the image of this curve under `t` can be stored.
    pub open spec fn maps(self, t: Transform) -> bool {
        match self {
            Curve::Line(line) => line.maps(t),
            Curve::Circle(circle) => circle.maps(t),
        }
    }

    /// The image of this curve under `t`, meaningful where `maps` holds.
    pub open spec fn image(self, t: Transform) -> Curve {
        match self {
            Curve::Line(line) => Curve::Line(line.image(t)),
            Curve::Circle(circle) => Curve::Circle(circle.image(t)),
        }
    }

    /// The image of this curve under `t`, a curve of the same variant, or `None`
    /// where the image has a coordinate outside the grid.
    pub fn transform(&self, t: &Transform) -> (r: Option<Curve>)
        ensures
            r.is_some() == self.maps(*t),
            r.is_some() ==> r.unwrap() == self.image(*t),
    {
        match self {
            Curve::Line(line) => {
                match (t.try_point(&line.origin), t.try_vector(&line.direction)) {
                    (Some(origin), Some(direction)) => Some(Curve::Line(Line { origin, direction })),
                    _ => None,
                }
            },
            Curve::Circle(circle) => {
                match t.try_point(&circle.center) {
                    Some(center) => Some(
                        Curve::Circle(
                            Circle {
                                center,
                                normal: t.order.move_axis(circle.normal),
                                radius: circle.radius,
                            },
                        ),
                    ),
                    None => None,
                }
            },
        }
    }
}

impl Surface {
    /// The plane through the origin that holds the first and the second axis.
    pub fn x_y_plane() -> (r: Surface)
        ensures
            r == Surface::Plane(
                Plane { origin: Point { x: 0, y: 0, z: 0 }, normal: Vector { x: 0, y: 0, z: 1 } },
            ),
    {
        Surface::Plane(Plane { origin: Point::origin(), normal: Vector::unit_z() })
    }

    /// Whether two values describe the same surface: they are of the same
    /// variant, and the same plane.
    pub open spec fn same(self, other: Surface) -> bool {
        match (self, other) {
            (Surface::Plane(a), Surface::Plane(b)) => a.same(b),
        }
    }

    /// Decides `same`.
    pub fn matches(&self, other: &Surface) -> (r: bool)
        ensures
            r == self.same(*other),
    {
        match (self, other) {
            (Surface::Plane(a), Surface::Plane(b)) => a.matches(b),
        }
    }

    /// Whether `p` is closer to the surface than `eps`.
    pub open spec fn holds(self, p: Point, eps: u32) -> bool {
        match self {
            Surface::Plane(plane) => plane.holds(p, eps),
        }
    }

    /// Decides `holds`.
    pub fn carries(&self, p: &Point, eps: u32) -> (r: bool)
        ensures
            r == self.holds(*p, eps),
    {
        match self {
            Surface::Plane(plane) => plane.carries(p, eps),
        }
    }

    /// Whether the curve runs in the surface up to `eps`, judged at the sample
    /// locations of the curve.
    pub open spec fn holds_curve(self, curve: Curve, eps: u32) -> bool {
        match (self, curve) {
            (Surface::Plane(plane), Curve::Line(line)) => plane.holds_line(line, eps),
            (Surface::Plane(plane), Curve::Circle(circle)) => plane.holds_circle(circle, eps),
        }
    }

    /// Decides `holds_curve`.
    pub fn carries_curve(&self, curve: &Curve, eps: u32) -> (r: bool)
        ensures
            r == self.holds_curve(*curve, eps),
    {
        match (self, curve) {
            (Surface::Plane(plane), Curve::Line(line)) => plane.carries_line(line, eps),
            (Surface::Plane(plane), Curve::Circle(circle)) => plane.carries_circle(circle, eps),
        }
    }

    /// Whether the image of this surface under `t` can be stored.
    pub open spec fn maps(self, t: Transform) -> bool {
        match self {
            Surface::Plane(plane) => plane.maps(t),
        }
    }

    /// The image of this surface under `t`, meaningful where `maps` holds.
    pub open spec fn image(self, t: Transform) -> Surface {
        match self {
            Surface::Plane(plane) => Surface::Plane(plane.image(t)),
        }
    }

    /// The image of this surface under `t`, a surface of the same variant, or
    /// `None` where the image has a coordinate outside the grid.
    pub fn transform(&self, t: &Transform) -> (r: Option<Surface>)
        ensures
            r.is_some() == self.maps(*t),
            r.is_some() ==> r.unwrap() == self.image(*t),
    {
        match self {
            Surface::Plane(plane) => {
                match (t.try_point(&plane.origin), t.try_vector(&plane.normal)) {
                    (Some(origin), Some(normal)) => Some(Surface::Plane(Plane { origin, normal })),
                    _ => None,
                }
            },
        }
    }
}

impl Line {
    /// A point lies on a line exactly when its image lies on the image of the line.
    pub proof fn lemma_moved(self, t: Transform, p: Point, eps: u32)
        requires
            self.maps(t),
            t.maps_point(p),
        ensures
            self.image(t).holds(t.point_image(p), eps) == self.holds(p, eps),
    {
        t.lemma_keeps_cross(
            p.x - self.origin.x,
            p.y - self.origin.y,
            p.z - self.origin.z,
            self.direction.x as int,
            self.direction.y as int,
            self.direction.z as int,
        );
        t.lemma_keeps_norm(
            self.direction.x as int,
            self.direction.y as int,
            self.direction.z as int,
        );
    }
}

impl Plane {
    /// A location lies on a plane exactly when its image lies on the image of
    /// the plane.
    pub proof fn lemma_moved_at(self, t: Transform, x: int, y: int, z: int, eps: u32)
        requires
            self.maps(t),
        ensures
            self.image(t).holds_at(t.move_x(x, y, z), t.move_y(x, y, z), t.move_z(x, y, z), eps)
                == self.holds_at(x, y, z, eps),
    {
        t.lemma_keeps_dot(
            x - self.origin.x,
            y - self.origin.y,
            z - self.origin.z,
            self.normal.x as int,
            self.normal.y as int,
            self.normal.z as int,
        );
        t.lemma_keeps_norm(self.normal.x as int, self.normal.y as int, self.normal.z as int);
    }

    /// A line runs in a plane exactly when its image runs in the image of the plane.
    pub proof fn lemma_moved_line(self, t: Transform, line: Line, eps: u32)
        requires
            self.maps(t),
            line.maps(t),
        ensures
            self.image(t).holds_line(line.image(t), eps) == self.holds_line(line, eps),
    {
        self.lemma_moved_at(
            t,
            line.origin.x as int,
            line.origin.y as int,
            line.origin.z as int,
            eps,
        );
        self.lemma_moved_at(
            t,
            line.origin.x + line.direction.x,
            line.origin.y + line.direction.y,
            line.origin.z + line.direction.z,
            eps,
        );
    }
}

impl Plane {
    /// The two locations of a circle along an axis lie on a plane exactly when
    /// the two locations of the image of the circle along the image of the
    /// axis lie on the image of the plane.
    proof fn lemma_moved_along(self, t: Transform, circle: Circle, axis: Axis, eps: u32)
        requires
            self.maps(t),
            circle.maps(t),
        ensures
            self.image(t).holds_along(circle.image(t), t.order.axis_image(axis), eps)
                == self.holds_along(circle, axis, eps),
    {
        let radius = circle.radius as int;
        let cx = circle.center.x as int;
        let cy = circle.center.y as int;
        let cz = circle.center.z as int;
        let r = axis.times(radius);
        let moved = t.order.axis_image(axis).times(radius);
        let there = circle.image(t).center;
        t.lemma_moves_along(axis, cx, cy, cz, radius);
        t.lemma_moves_along(axis, cx, cy, cz, -radius);
        self.lemma_moved_at(t, cx + r.0, cy + r.1, cz + r.2, eps);
        self.lemma_moved_at(t, cx - r.0, cy - r.1, cz - r.2, eps);
        let plus = self.image(t).holds_at(
            there.x + moved.0,
            there.y + moved.1,
            there.z + moved.2,
            eps,
        );
        let minus = self.image(t).holds_at(
            there.x - moved.0,
            there.y - moved.1,
            there.z - moved.2,
            eps,
        );
        let before_plus = self.holds_at(cx + r.0, cy + r.1, cz + r.2, eps);
        let before_minus = self.holds_at(cx - r.0, cy - r.1, cz - r.2, eps);
        if t.mirrors(axis) {
            assert(t.move_x(cx + r.0, cy + r.1, cz + r.2) == there.x - moved.0);
            assert(t.move_y(cx + r.0, cy + r.1, cz + r.2) == there.y - moved.1);
            assert(t.move_z(cx + r.0, cy + r.1, cz + r.2) == there.z - moved.2);
            assert(t.move_x(cx - r.0, cy - r.1, cz - r.2) == there.x + moved.0);
            assert(t.move_y(cx - r.0, cy - r.1, cz - r.2) == there.y + moved.1);
            assert(t.move_z(cx - r.0, cy - r.1, cz - r.2) == there.z + moved.2);
            assert(minus == before_plus);
            assert(plus == before_minus);
        } else {
            assert(t.move_x(cx + r.0, cy + r.1, cz + r.2) == there.x + moved.0);
            assert(t.move_y(cx + r.0, cy + r.1, cz + r.2) == there.y + moved.1);
            assert(t.move_z(cx + r.0, cy + r.1, cz + r.2) == there.z + moved.2);
            assert(t.move_x(cx - r.0, cy - r.1, cz - r.2) == there.x - moved.0);
            assert(t.move_y(cx - r.0, cy - r.1, cz - r.2) == there.y - moved.1);
            assert(t.move_z(cx - r.0, cy - r.1, cz - r.2) == there.z - moved.2);
            assert(plus == before_plus);
            assert(minus == before_minus);
        }
    }

    /// A circle runs in a plane exactly when its image runs in the image of
    /// the plane.
    pub proof fn lemma_moved_circle(self, t: Transform, circle: Circle, eps: u32)
        requires
            self.maps(t),
            circle.maps(t),
        ensures
            self.image(t).holds_circle(circle.image(t), eps) == self.holds_circle(circle, eps),
    {
        self.lemma_moved_along(t, circle, Axis::X, eps);
        self.lemma_moved_along(t, circle, Axis::Y, eps);
        self.lemma_moved_along(t, circle, Axis::Z, eps);
    }
}

impl Curve {
    /// A point lies on a curve exactly when its image lies on the image of the curve.
    pub proof fn lemma_moved(self, t: Transform, p: Point, eps: u32)
        requires
            self.maps(t),
            t.maps_point(p),
        ensures
            self.image(t).holds(t.point_image(p), eps) == self.holds(p, eps),
    {
        match self {
            Curve::Line(line) => line.lemma_moved(t, p, eps),
            Curve::Circle(circle) => circle.lemma_moved(t, p, eps),
        }
    }
}

impl Surface {
    /// A curve runs in a surface exactly when its image runs in the image of
    /// the surface.
    pub proof fn lemma_moved_curve(self, t: Transform, curve: Curve, eps: u32)
        requires
            self.maps(t),
            curve.maps(t),
        ensures
            self.image(t).holds_curve(curve.image(t), eps) == self.holds_curve(curve, eps),
    {
        match (self, curve) {
            (Surface::Plane(plane), Curve::Line(line)) => plane.lemma_moved_line(t, line, eps),
            (Surface::Plane(plane), Curve::Circle(circle)) => plane.lemma_moved_circle(
                t,
                circle,
                eps,
            ),
        }
    }
}

impl Line {
    /// Values that describe the same line hold the same locations.
    pub proof fn lemma_same_holds(self, other: Line, x: int, y: int, z: int, eps: u32)
        requires
            self.same(other),
        ensures
            self.holds_at(x, y, z, eps) == other.holds_at(x, y, z, eps),
    {
        if self != other {
            let (m, n) = self.direction.lemma_parallel_multiples(other.direction);
            let wx = x - self.origin.x;
            let wy = y - self.origin.y;
            let wz = z - self.origin.z;
            let a = self.direction;
            let b = other.direction;
            let e = eps * eps;
            let ca = cross_squared(wx, wy, wz, a.x as int, a.y as int, a.z as int);
            let cb = cross_squared(wx, wy, wz, b.x as int, b.y as int, b.z as int);
            let na = norm_squared(a.x as int, a.y as int, a.z as int);
            let nb = norm_squared(b.x as int, b.y as int, b.z as int);
            lemma_scaled_cross(n, wx, wy, wz, a.x as int, a.y as int, a.z as int);
            lemma_scaled_cross(m, wx, wy, wz, b.x as int, b.y as int, b.z as int);
            lemma_scaled_norm(n, a.x as int, a.y as int, a.z as int);
            lemma_scaled_norm(m, b.x as int, b.y as int, b.z as int);
            assert((n * n) * ca == (m * m) * cb);
            assert((n * n) * na == (m * m) * nb);
            lemma_factor_of_product(e, n * n, na);
            lemma_factor_of_product(e, m * m, nb);
            lemma_scaled_comparison(n, ca, e * na);
            lemma_scaled_comparison(m, cb, e * nb);
        }
    }
}

impl Plane {
    /// Values that describe the same plane hold the same locations.
    pub proof fn lemma_same_holds(self, other: Plane, x: int, y: int, z: int, eps: u32)
        requires
            self.same(other),
        ensures
            self.holds_at(x, y, z, eps) == other.holds_at(x, y, z, eps),
    {
        if self != other {
            let (m, n) = self.normal.lemma_parallel_multiples(other.normal);
            let wx = x - self.origin.x;
            let wy = y - self.origin.y;
            let wz = z - self.origin.z;
            let a = self.normal;
            let b = other.normal;
            let e = eps * eps;
            let da = square(dot(wx, wy, wz, a.x as int, a.y as int, a.z as int));
            let db = square(dot(wx, wy, wz, b.x as int, b.y as int, b.z as int));
            let na = norm_squared(a.x as int, a.y as int, a.z as int);
            let nb = norm_squared(b.x as int, b.y as int, b.z as int);
            lemma_scaled_dot(n, wx, wy, wz, a.x as int, a.y as int, a.z as int);
            lemma_scaled_dot(m, wx, wy, wz, b.x as int, b.y as int, b.z as int);
            lemma_scaled_norm(n, a.x as int, a.y as int, a.z as int);
            lemma_scaled_norm(m, b.x as int, b.y as int, b.z as int);
            assert((n * n) * da == (m * m) * db);
            assert((n * n) * na == (m * m) * nb);
            lemma_factor_of_product(e, n * n, na);
            lemma_factor_of_product(e, m * m, nb);
            lemma_scaled_comparison(n, da, e * na);
            lemma_scaled_comparison(m, db, e * nb);
        }
    }
}

impl Curve {
    /// Values that describe the same curve carry the same points.
    pub proof fn lemma_same_holds(self, other: Curve, p: Point, eps: u32)
        requires
            self.same(other),
        ensures
            self.holds(p, eps) == other.holds(p, eps),
    {
        match (self, other) {
            (Curve::Line(a), Curve::Line(b)) => {
                a.lemma_same_holds(b, p.x as int, p.y as int, p.z as int, eps);
            },
            _ => {},
        }
    }
}

impl Surface {
    /// Values that describe the same surface carry the same points.
    pub proof fn lemma_same_holds(self, other: Surface, p: Point, eps: u32)
        requires
            self.same(other),
        ensures
            self.holds(p, eps) == other.holds(p, eps),
    {
        match (self, other) {
            (Surface::Plane(a), Surface::Plane(b)) => {
                a.lemma_same_holds(b, p.x as int, p.y as int, p.z as int, eps);
            },
        }
    }
}

} // verus!
