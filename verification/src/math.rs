//! Exact arithmetic on the integer grid.
//!
//! Every coordinate is a whole number of grid units. Distances are compared
//! through their squares, so each predicate of this module is decided exactly.

use vstd::prelude::*;

verus! {

/// A location on the grid.
#[derive(Clone, Copy, Debug, PartialEq, Eq, Structural, Hash)]
pub struct Point {
    pub x: i32,
    pub y: i32,
    pub z: i32,
}

/// A displacement on the grid.
#[derive(Clone, Copy, Debug, PartialEq, Eq, Structural, Hash)]
pub struct Vector {
    pub x: i32,
    pub y: i32,
    pub z: i32,
}

/// The square of an integer.
pub open spec fn square(v: int) -> int {
    v * v
}

/// Whether an integer is the value of some `i32`.
pub open spec fn fits_i32(v: int) -> bool {
    i32::MIN <= v <= i32::MAX
}

/// The squared length of the displacement `(x, y, z)`.
pub open spec fn norm_squared(x: int, y: int, z: int) -> int {
    square(x) + square(y) + square(z)
}

/// The squared length of the cross product of `(ax, ay, az)` and `(bx, by, bz)`.
pub open spec fn cross_squared(ax: int, ay: int, az: int, bx: int, by: int, bz: int) -> int {
    norm_squared(ay * bz - az * by, az * bx - ax * bz, ax * by - ay * bx)
}

/// The dot product of `(ax, ay, az)` and `(bx, by, bz)`.
pub open spec fn dot(ax: int, ay: int, az: int, bx: int, by: int, bz: int) -> int {
    ax * bx + ay * by + az * bz
}

/// The square of a number between `-bound` and `bound` is at most the square
/// of `bound`.
pub proof fn lemma_square_bound(v: int, bound: int)
    requires
        -bound <= v <= bound,
    ensures
        0 <= square(v) <= bound * bound,
{
    assert(0 <= v * v <= bound * bound) by (nonlinear_arith)
        requires
            -bound <= v <= bound,
    ;
}

/// The product of two bounded numbers is bounded by the product of the bounds.
pub proof fn lemma_product_bound(a: int, b: int, bound_a: int, bound_b: int)
    requires
        -bound_a <= a <= bound_a,
        -bound_b <= b <= bound_b,
    ensures
        -(bound_a * bound_b) <= a * b <= bound_a * bound_b,
{
    assert(-(bound_a * bound_b) <= a * b <= bound_a * bound_b) by (nonlinear_arith)
        requires
            -bound_a <= a <= bound_a,
            -bound_b <= b <= bound_b,
    ;
}

/// The square of `v`, for `v` of magnitude below 2^64.
pub fn squared(v: i128) -> (r: u128)
    requires
        -0x1_0000_0000_0000_0000 < v < 0x1_0000_0000_0000_0000,
    ensures
        r == square(v as int),
{
    let m: u128 = if v < 0 {
        (-v) as u128
    } else {
        v as u128
    };
    proof {
        lemma_square_bound(m as int, 0xffff_ffff_ffff_ffff);
        assert(square(m as int) == square(v as int)) by (nonlinear_arith)
            requires
                m == v || m == -v,
        ;
    }
    m * m
}

/// Whether `a + b + c < limit`, decided without forming the sum.
pub fn sum_below(a: u128, b: u128, c: u128, limit: u128) -> (r: bool)
    ensures
        r == (a + b + c < limit),
{
    if a >= limit {
        return false;
    }
    let after_a: u128 = limit - a;
    if b >= after_a {
        return false;
    }
    c < after_a - b
}

/// Whether `c^2 < s^2 * q`, decided without forming a product that might not fit.
///
/// With `c = k * s + rest` and `rest < s`, `c^2` is `k^2 * s^2 + rest * (2 * k *
/// s + rest)`, so the question is whether `rest * (2 * k * s + rest) < s^2 * (q -
/// k^2)`, and the left side is less than `s^2 * (2 * k + 1)`.
pub fn square_below(c: u128, s: u128, q: u128) -> (r: bool)
    requires
        c < 0x8_0000_0000_0000_0000,
        s < 0x4_0000_0000,
        q < 0x4_0000_0000_0000_0000,
    ensures
        r == (c * c < s * s * q),
{
    if s == 0 {
        assert(c * c >= 0 && s * s * q == 0) by (nonlinear_arith)
            requires
                s == 0,
        ;
        return false;
    }
    let k: u128 = c / s;
    let rest: u128 = c % s;
    assert(c == k * s + rest && rest < s) by {
        vstd::arithmetic::div_mod::lemma_fundamental_div_mod(c as int, s as int);
        vstd::arithmetic::div_mod::lemma_mod_bound(c as int, s as int);
        assert(s * k == k * s) by (nonlinear_arith);
    }
    assert(c * c == (k * k) * (s * s) + rest * (2 * k * s + rest)) by (nonlinear_arith)
        requires
            c == k * s + rest,
    ;
    assert(rest * (2 * k * s + rest) < (s * s) * (2 * k + 1)) by (nonlinear_arith)
        requires
            0 <= rest < s,
            0 <= k,
    ;
    if k >= 0x2_0000_0000 {
        assert(c * c >= s * s * q) by (nonlinear_arith)
            requires
                c * c == (k * k) * (s * s) + rest * (2 * k * s + rest),
                k >= 0x2_0000_0000,
                q < 0x4_0000_0000_0000_0000,
                0 <= rest,
                s > 0,
        ;
        return false;
    }
    assert(k * k < 0x4_0000_0000_0000_0000) by (nonlinear_arith)
        requires
            0 <= k < 0x2_0000_0000,
    ;
    let k2: u128 = k * k;
    if k2 > q {
        assert(c * c >= s * s * q) by (nonlinear_arith)
            requires
                c * c == (k * k) * (s * s) + rest * (2 * k * s + rest),
                k * k > q,
                0 <= rest,
                0 <= k,
                s > 0,
        ;
        return false;
    }
    let d: u128 = q - k2;
    assert(s * s * q == (k * k) * (s * s) + (s * s) * d) by (nonlinear_arith)
        requires
            d == q - k * k,
    ;
    if d >= 2 * k + 1 {
        assert((s * s) * (2 * k + 1) <= (s * s) * d) by (nonlinear_arith)
            requires
                d >= 2 * k + 1,
        ;
        return true;
    }
    assert(s * s < 0x10_0000_0000_0000_0000) by (nonlinear_arith)
        requires
            0 <= s < 0x4_0000_0000,
    ;
    assert(k * s < 0x8_0000_0000_0000_0000) by (nonlinear_arith)
        requires
            0 <= s < 0x4_0000_0000,
            0 <= k < 0x2_0000_0000,
    ;
    let ks: u128 = k * s;
    let ss: u128 = s * s;
    assert(rest * (2 * ks + rest) < 0x4_0000_0000 * 0x10_0000_0004_0000_0000) by (nonlinear_arith)
        requires
            0 <= rest < 0x4_0000_0000,
            0 <= ks < 0x8_0000_0000_0000_0000,
    ;
    assert(ss * d < 0x10_0000_0000_0000_0000 * 0x4_0000_0000) by (nonlinear_arith)
        requires
            0 <= ss < 0x10_0000_0000_0000_0000,
            0 <= d < 0x4_0000_0000,
    ;
    assert(rest * (2 * ks + rest) == rest * (2 * k * s + rest)) by (nonlinear_arith)
        requires
            ks == k * s,
    ;
    assert(ss * d == (s * s) * d) by (nonlinear_arith)
        requires
            ss == s * s,
    ;
    let left: u128 = rest * (2 * ks + rest);
    let right: u128 = ss * d;
    left < right
}

impl Point {
    /// The point with all coordinates zero.
    pub fn origin() -> (r: Point)
        ensures
            r == (Point { x: 0, y: 0, z: 0 }),
    {
        Point { x: 0, y: 0, z: 0 }
    }

    /// The squared distance between two points.
    pub open spec fn distance_squared(self, other: Point) -> int {
        norm_squared(self.x - other.x, self.y - other.y, self.z - other.z)
    }

    /// Whether two points are closer to each other than `eps`.
    pub open spec fn near(self, other: Point, eps: u32) -> bool {
        self.distance_squared(other) < eps * eps
    }

    /// Decides `near`.
    pub fn within(&self, other: &Point, eps: u32) -> (r: bool)
        ensures
            r == self.near(*other, eps),
    {
        let dx: i128 = self.x as i128 - other.x as i128;
        let dy: i128 = self.y as i128 - other.y as i128;
        let dz: i128 = self.z as i128 - other.z as i128;
        let limit: u128 = squared(eps as i128);
        sum_below(squared(dx), squared(dy), squared(dz), limit)
    }
}

impl Vector {
    /// Whether this is the displacement of length zero.
    pub open spec fn is_zero(self) -> bool {
        self.x == 0 && self.y == 0 && self.z == 0
    }

    /// Whether two displacements, neither of them zero, run along the same
    /// line, in the same direction or in opposite ones: their cross product
    /// is zero.
    pub open spec fn parallel(self, other: Vector) -> bool {
        &&& !self.is_zero()
        &&& !other.is_zero()
        &&& self.y * other.z - self.z * other.y == 0
        &&& self.z * other.x - self.x * other.z == 0
        &&& self.x * other.y - self.y * other.x == 0
    }

    /// Decides `parallel`.
    pub fn runs_along(&self, other: &Vector) -> (r: bool)
        ensures
            r == self.parallel(*other),
    {
        if (self.x == 0 && self.y == 0 && self.z == 0) || (other.x == 0 && other.y == 0 && other.z
            == 0) {
            return false;
        }
        let ax: i128 = self.x as i128;
        let ay: i128 = self.y as i128;
        let az: i128 = self.z as i128;
        let bx: i128 = other.x as i128;
        let by: i128 = other.y as i128;
        let bz: i128 = other.z as i128;
        proof {
            let m: int = 0x8000_0000;
            lemma_product_bound(ay as int, bz as int, m, m);
            lemma_product_bound(az as int, by as int, m, m);
            lemma_product_bound(az as int, bx as int, m, m);
            lemma_product_bound(ax as int, bz as int, m, m);
            lemma_product_bound(ax as int, by as int, m, m);
            lemma_product_bound(ay as int, bx as int, m, m);
            assert(m * m == 0x4000_0000_0000_0000) by (nonlinear_arith)
                requires
                    m == 0x8000_0000,
            ;
        }
        ay * bz - az * by == 0 && az * bx - ax * bz == 0 && ax * by - ay * bx == 0
    }

    /// The unit displacement along the first axis.
    pub fn unit_x() -> (r: Vector)
        ensures
            r == (Vector { x: 1, y: 0, z: 0 }),
    {
        Vector { x: 1, y: 0, z: 0 }
    }

    /// The unit displacement along the second axis.
    pub fn unit_y() -> (r: Vector)
        ensures
            r == (Vector { x: 0, y: 1, z: 0 }),
    {
        Vector { x: 0, y: 1, z: 0 }
    }

    /// The unit displacement along the third axis.
    pub fn unit_z() -> (r: Vector)
        ensures
            r == (Vector { x: 0, y: 0, z: 1 }),
    {
        Vector { x: 0, y: 0, z: 1 }
    }
}

/// One of the three axes of the grid.
#[derive(Clone, Copy, Debug, PartialEq, Eq, Structural, Hash)]
pub enum Axis {
    X,
    Y,
    Z,
}

impl Axis {
    /// The coordinate of `(x, y, z)` along this axis.
    pub open spec fn along(self, x: int, y: int, z: int) -> int {
        match self {
            Axis::X => x,
            Axis::Y => y,
            Axis::Z => z,
        }
    }

    /// The squared length of what is left of `(x, y, z)` when its part along
    /// this axis is taken away.
    pub open spec fn beside_squared(self, x: int, y: int, z: int) -> int {
        match self {
            Axis::X => square(y) + square(z),
            Axis::Y => square(x) + square(z),
            Axis::Z => square(x) + square(y),
        }
    }

    /// The displacement of length `r` along this axis.
    pub open spec fn times(self, r: int) -> (int, int, int) {
        match self {
            Axis::X => (r, 0, 0),
            Axis::Y => (0, r, 0),
            Axis::Z => (0, 0, r),
        }
    }
}

/// The order in which a transform reads the axes of its argument: `Yzx` takes
/// its first output coordinate from the second input coordinate, its second from
/// the third and its third from the first.
#[derive(Clone, Copy, Debug, PartialEq, Eq, Structural, Hash)]
pub enum AxisOrder {
    Xyz,
    Xzy,
    Yxz,
    Yzx,
    Zxy,
    Zyx,
}

impl AxisOrder {
    /// The input coordinate that becomes the first output coordinate.
    pub open spec fn first(self, x: int, y: int, z: int) -> int {
        match self {
            AxisOrder::Xyz | AxisOrder::Xzy => x,
            AxisOrder::Yxz | AxisOrder::Yzx => y,
            AxisOrder::Zxy | AxisOrder::Zyx => z,
        }
    }

    /// The input coordinate that becomes the second output coordinate.
    pub open spec fn second(self, x: int, y: int, z: int) -> int {
        match self {
            AxisOrder::Yxz | AxisOrder::Zxy => x,
            AxisOrder::Xyz | AxisOrder::Zyx => y,
            AxisOrder::Xzy | AxisOrder::Yzx => z,
        }
    }

    /// The input coordinate that becomes the third output coordinate.
    pub open spec fn third(self, x: int, y: int, z: int) -> int {
        match self {
            AxisOrder::Yzx | AxisOrder::Zyx => x,
            AxisOrder::Xzy | AxisOrder::Zxy => y,
            AxisOrder::Xyz | AxisOrder::Yxz => z,
        }
    }

    /// The axis from which the first output coordinate is read.
    pub open spec fn first_source(self) -> Axis {
        match self {
            AxisOrder::Xyz | AxisOrder::Xzy => Axis::X,
            AxisOrder::Yxz | AxisOrder::Yzx => Axis::Y,
            AxisOrder::Zxy | AxisOrder::Zyx => Axis::Z,
        }
    }

    /// The axis from which the second output coordinate is read.
    pub open spec fn second_source(self) -> Axis {
        match self {
            AxisOrder::Yxz | AxisOrder::Zxy => Axis::X,
            AxisOrder::Xyz | AxisOrder::Zyx => Axis::Y,
            AxisOrder::Xzy | AxisOrder::Yzx => Axis::Z,
        }
    }

    /// The axis onto which this order takes `axis`.
    pub open spec fn axis_image(self, axis: Axis) -> Axis {
        if self.first_source() == axis {
            Axis::X
        } else if self.second_source() == axis {
            Axis::Y
        } else {
            Axis::Z
        }
    }

    /// Computes `axis_image`.
    pub fn move_axis(&self, axis: Axis) -> (r: Axis)
        ensures
            r == self.axis_image(axis),
    {
        match (self, axis) {
            (AxisOrder::Xyz, Axis::X) | (AxisOrder::Xzy, Axis::X) => Axis::X,
            (AxisOrder::Yxz, Axis::Y) | (AxisOrder::Yzx, Axis::Y) => Axis::X,
            (AxisOrder::Zxy, Axis::Z) | (AxisOrder::Zyx, Axis::Z) => Axis::X,
            (AxisOrder::Yxz, Axis::X) | (AxisOrder::Zxy, Axis::X) => Axis::Y,
            (AxisOrder::Xyz, Axis::Y) | (AxisOrder::Zyx, Axis::Y) => Axis::Y,
            (AxisOrder::Xzy, Axis::Z) | (AxisOrder::Yzx, Axis::Z) => Axis::Y,
            _ => Axis::Z,
        }
    }

    /// The order that undoes this one.
    pub open spec fn spec_inverse(self) -> AxisOrder {
        match self {
            AxisOrder::Yzx => AxisOrder::Zxy,
            AxisOrder::Zxy => AxisOrder::Yzx,
            other => other,
        }
    }

    /// Computes `spec_inverse`.
    pub fn inverse(&self) -> (r: AxisOrder)
        ensures
            r == self.spec_inverse(),
    {
        match self {
            AxisOrder::Yzx => AxisOrder::Zxy,
            AxisOrder::Zxy => AxisOrder::Yzx,
            AxisOrder::Xyz => AxisOrder::Xyz,
            AxisOrder::Xzy => AxisOrder::Xzy,
            AxisOrder::Yxz => AxisOrder::Yxz,
            AxisOrder::Zyx => AxisOrder::Zyx,
        }
    }
}

/// `-v` where `flip` holds, else `v`.
pub open spec fn signed(flip: bool, v: int) -> int {
    if flip {
        -v
    } else {
        v
    }
}

/// A rigid motion of the grid: the axes are reordered, some are mirrored, and
/// the result is displaced. Every such map keeps all distances, and every map of
/// the grid onto itself that keeps all distances has this form.
#[derive(Clone, Copy, Debug, PartialEq, Eq, Structural, Hash)]
pub struct Transform {
    pub order: AxisOrder,
    pub flip_x: bool,
    pub flip_y: bool,
    pub flip_z: bool,
    pub offset: Vector,
}

impl Transform {
    /// First coordinate of the image of the displacement `(x, y, z)`.
    pub open spec fn turn_x(self, x: int, y: int, z: int) -> int {
        signed(self.flip_x, self.order.first(x, y, z))
    }

    /// Second coordinate of the image of the displacement `(x, y, z)`.
    pub open spec fn turn_y(self, x: int, y: int, z: int) -> int {
        signed(self.flip_y, self.order.second(x, y, z))
    }

    /// Third coordinate of the image of the displacement `(x, y, z)`.
    pub open spec fn turn_z(self, x: int, y: int, z: int) -> int {
        signed(self.flip_z, self.order.third(x, y, z))
    }

    /// First coordinate of the image of the location `(x, y, z)`.
    pub open spec fn move_x(self, x: int, y: int, z: int) -> int {
        self.turn_x(x, y, z) + self.offset.x
    }

    /// Second coordinate of the image of the location `(x, y, z)`.
    pub open spec fn move_y(self, x: int, y: int, z: int) -> int {
        self.turn_y(x, y, z) + self.offset.y
    }

    /// Third coordinate of the image of the location `(x, y, z)`.
    pub open spec fn move_z(self, x: int, y: int, z: int) -> int {
        self.turn_z(x, y, z) + self.offset.z
    }

    /// Whether the image of `p` is a point that can be stored.
    pub open spec fn maps_point(self, p: Point) -> bool {
        &&& fits_i32(self.move_x(p.x as int, p.y as int, p.z as int))
        &&& fits_i32(self.move_y(p.x as int, p.y as int, p.z as int))
        &&& fits_i32(self.move_z(p.x as int, p.y as int, p.z as int))
    }

    /// The image of `p`, meaningful where `maps_point` holds.
    pub open spec fn point_image(self, p: Point) -> Point {
        Point {
            x: self.move_x(p.x as int, p.y as int, p.z as int) as i32,
            y: self.move_y(p.x as int, p.y as int, p.z as int) as i32,
            z: self.move_z(p.x as int, p.y as int, p.z as int) as i32,
        }
    }

    /// Whether the image of the displacement `v` can be stored.
    pub open spec fn maps_vector(self, v: Vector) -> bool {
        &&& fits_i32(self.turn_x(v.x as int, v.y as int, v.z as int))
        &&& fits_i32(self.turn_y(v.x as int, v.y as int, v.z as int))
        &&& fits_i32(self.turn_z(v.x as int, v.y as int, v.z as int))
    }

    /// The image of the displacement `v`, meaningful where `maps_vector` holds.
    pub open spec fn vector_image(self, v: Vector) -> Vector {
        Vector {
            x: self.turn_x(v.x as int, v.y as int, v.z as int) as i32,
            y: self.turn_y(v.x as int, v.y as int, v.z as int) as i32,
            z: self.turn_z(v.x as int, v.y as int, v.z as int) as i32,
        }
    }

    /// The transform that leaves everything where it is.
    pub fn identity() -> (r: Transform)
        ensures
            r == (Transform {
                order: AxisOrder::Xyz,
                flip_x: false,
                flip_y: false,
                flip_z: false,
                offset: Vector { x: 0, y: 0, z: 0 },
            }),
    {
        Transform {
            order: AxisOrder::Xyz,
            flip_x: false,
            flip_y: false,
            flip_z: false,
            offset: Vector { x: 0, y: 0, z: 0 },
        }
    }

    /// The transform that displaces everything by `offset`.
    pub fn translation(offset: Vector) -> (r: Transform)
        ensures
            r == (Transform {
                order: AxisOrder::Xyz,
                flip_x: false,
                flip_y: false,
                flip_z: false,
                offset,
            }),
    {
        Transform { order: AxisOrder::Xyz, flip_x: false, flip_y: false, flip_z: false, offset }
    }

    /// The quarter turn about the third axis that takes the first axis to the
    /// second: `(x, y, z)` goes to `(-y, x, z)`.
    pub fn quarter_turn_z() -> (r: Transform)
        ensures
            r == (Transform {
                order: AxisOrder::Yxz,
                flip_x: true,
                flip_y: false,
                flip_z: false,
                offset: Vector { x: 0, y: 0, z: 0 },
            }),
    {
        Transform {
            order: AxisOrder::Yxz,
            flip_x: true,
            flip_y: false,
            flip_z: false,
            offset: Vector { x: 0, y: 0, z: 0 },
        }
    }

    /// The image of `p`, or `None` where it has a coordinate outside the grid.
    pub fn try_point(&self, p: &Point) -> (r: Option<Point>)
        ensures
            r.is_some() == self.maps_point(*p),
            r.is_some() ==> r.unwrap() == self.point_image(*p),
    {
        let (a, b, c) = self.reorder(p.x, p.y, p.z);
        let x: i64 = mirrored(self.flip_x, a) + self.offset.x as i64;
        let y: i64 = mirrored(self.flip_y, b) + self.offset.y as i64;
        let z: i64 = mirrored(self.flip_z, c) + self.offset.z as i64;
        if in_grid(x) && in_grid(y) && in_grid(z) {
            Some(Point { x: x as i32, y: y as i32, z: z as i32 })
        } else {
            None
        }
    }

    /// The image of the displacement `v`, or `None` where it has a coordinate
    /// outside the grid.
    pub fn try_vector(&self, v: &Vector) -> (r: Option<Vector>)
        ensures
            r.is_some() == self.maps_vector(*v),
            r.is_some() ==> r.unwrap() == self.vector_image(*v),
    {
        let (a, b, c) = self.reorder(v.x, v.y, v.z);
        let x: i64 = mirrored(self.flip_x, a);
        let y: i64 = mirrored(self.flip_y, b);
        let z: i64 = mirrored(self.flip_z, c);
        if in_grid(x) && in_grid(y) && in_grid(z) {
            Some(Vector { x: x as i32, y: y as i32, z: z as i32 })
        } else {
            None
        }
    }

    /// The coordinates `(x, y, z)` in the order in which this transform reads them.
    fn reorder(&self, x: i32, y: i32, z: i32) -> (r: (i32, i32, i32))
        ensures
            r.0 == self.order.first(x as int, y as int, z as int),
            r.1 == self.order.second(x as int, y as int, z as int),
            r.2 == self.order.third(x as int, y as int, z as int),
    {
        match self.order {
            AxisOrder::Xyz => (x, y, z),
            AxisOrder::Xzy => (x, z, y),
            AxisOrder::Yxz => (y, x, z),
            AxisOrder::Yzx => (y, z, x),
            AxisOrder::Zxy => (z, x, y),
            AxisOrder::Zyx => (z, y, x),
        }
    }

    /// Whether an inverse of this transform can be stored: no coordinate of the
    /// displacement is the least `i32`.
    pub open spec fn invertible(self) -> bool {
        self.offset.x > i32::MIN && self.offset.y > i32::MIN && self.offset.z > i32::MIN
    }

    /// The transform that undoes this one.
    pub open spec fn spec_inverse(self) -> Transform {
        let back = self.order.spec_inverse();
        let fx = back.first(flag(self.flip_x), flag(self.flip_y), flag(self.flip_z)) == 1;
        let fy = back.second(flag(self.flip_x), flag(self.flip_y), flag(self.flip_z)) == 1;
        let fz = back.third(flag(self.flip_x), flag(self.flip_y), flag(self.flip_z)) == 1;
        let ox = back.first(self.offset.x as int, self.offset.y as int, self.offset.z as int);
        let oy = back.second(self.offset.x as int, self.offset.y as int, self.offset.z as int);
        let oz = back.third(self.offset.x as int, self.offset.y as int, self.offset.z as int);
        Transform {
            order: back,
            flip_x: fx,
            flip_y: fy,
            flip_z: fz,
            offset: Vector {
                x: (-signed(fx, ox)) as i32,
                y: (-signed(fy, oy)) as i32,
                z: (-signed(fz, oz)) as i32,
            },
        }
    }

    /// The transform that undoes this one, or `None` where it cannot be stored.
    pub fn inverse(&self) -> (r: Option<Transform>)
        ensures
            r.is_some() == self.invertible(),
            r.is_some() ==> r.unwrap() == self.spec_inverse(),
    {
        if self.offset.x == i32::MIN || self.offset.y == i32::MIN || self.offset.z == i32::MIN {
            return None;
        }
        let back = self.order.inverse();
        let (fx, fy, fz) = match back {
            AxisOrder::Xyz => (self.flip_x, self.flip_y, self.flip_z),
            AxisOrder::Xzy => (self.flip_x, self.flip_z, self.flip_y),
            AxisOrder::Yxz => (self.flip_y, self.flip_x, self.flip_z),
            AxisOrder::Yzx => (self.flip_y, self.flip_z, self.flip_x),
            AxisOrder::Zxy => (self.flip_z, self.flip_x, self.flip_y),
            AxisOrder::Zyx => (self.flip_z, self.flip_y, self.flip_x),
        };
        let (ox, oy, oz) = match back {
            AxisOrder::Xyz => (self.offset.x, self.offset.y, self.offset.z),
            AxisOrder::Xzy => (self.offset.x, self.offset.z, self.offset.y),
            AxisOrder::Yxz => (self.offset.y, self.offset.x, self.offset.z),
            AxisOrder::Yzx => (self.offset.y, self.offset.z, self.offset.x),
            AxisOrder::Zxy => (self.offset.z, self.offset.x, self.offset.y),
            AxisOrder::Zyx => (self.offset.z, self.offset.y, self.offset.x),
        };
        let x: i32 = if fx { ox } else { -ox };
        let y: i32 = if fy { oy } else { -oy };
        let z: i32 = if fz { oz } else { -oz };
        Some(Transform { order: back, flip_x: fx, flip_y: fy, flip_z: fz, offset: Vector { x, y, z } })
    }

    /// A transform keeps the distance between any two points.
    pub proof fn lemma_keeps_distance(self, a: Point, b: Point)
        requires
            self.maps_point(a),
            self.maps_point(b),
        ensures
            self.point_image(a).distance_squared(self.point_image(b)) == a.distance_squared(b),
            forall|eps: u32| self.point_image(a).near(self.point_image(b), eps) == a.near(b, eps),
    {
        let dx = a.x - b.x;
        let dy = a.y - b.y;
        let dz = a.z - b.z;
        assert(square(-dx) == square(dx)) by (nonlinear_arith);
        assert(square(-dy) == square(dy)) by (nonlinear_arith);
        assert(square(-dz) == square(dz)) by (nonlinear_arith);
    }

    /// The inverse of a transform takes the image of a point back to the point.
    pub proof fn lemma_inverse_restores_point(self, p: Point)
        requires
            self.invertible(),
            self.maps_point(p),
        ensures
            self.spec_inverse().maps_point(self.point_image(p)),
            self.spec_inverse().point_image(self.point_image(p)) == p,
    {
    }

    /// The inverse of a transform takes the image of a displacement back to it.
    pub proof fn lemma_inverse_restores_vector(self, v: Vector)
        requires
            self.maps_vector(v),
        ensures
            self.spec_inverse().maps_vector(self.vector_image(v)),
            self.spec_inverse().vector_image(self.vector_image(v)) == v,
    {
    }
}

/// 1 where `b` holds, else 0.
pub open spec fn flag(b: bool) -> int {
    if b {
        1
    } else {
        0
    }
}

/// `-v` where `flip` holds, else `v`, widened so that the result always fits.
fn mirrored(flip: bool, v: i32) -> (r: i64)
    ensures
        r == signed(flip, v as int),
{
    if flip {
        -(v as i64)
    } else {
        v as i64
    }
}

/// Whether `v` is the value of some `i32`.
fn in_grid(v: i64) -> (r: bool)
    ensures
        r == fits_i32(v as int),
{
    -0x8000_0000 <= v && v <= 0x7fff_ffff
}

/// The product of two mirrored values is the product, mirrored where one of
/// the two was.
pub proof fn lemma_signed_product(fa: bool, fb: bool, a: int, b: int)
    ensures
        signed(fa, a) * signed(fb, b) == signed(fa != fb, a * b),
{
    assert((-a) * (-b) == a * b) by (nonlinear_arith);
    assert((-a) * b == -(a * b)) by (nonlinear_arith);
    assert(a * (-b) == -(a * b)) by (nonlinear_arith);
}

/// Mirroring a value keeps its square.
pub proof fn lemma_signed_square(f: bool, v: int)
    ensures
        square(signed(f, v)) == square(v),
{
    assert((-v) * (-v) == v * v) by (nonlinear_arith);
}

/// Taking a difference the other way round keeps its square.
pub proof fn lemma_square_of_difference(a: int, b: int)
    ensures
        square(a - b) == square(b - a),
{
    assert((a - b) * (a - b) == (b - a) * (b - a)) by (nonlinear_arith);
}

impl Transform {
    /// A transform keeps the length of a displacement.
    pub proof fn lemma_keeps_norm(self, x: int, y: int, z: int)
        ensures
            norm_squared(self.turn_x(x, y, z), self.turn_y(x, y, z), self.turn_z(x, y, z))
                == norm_squared(x, y, z),
    {
        lemma_signed_square(self.flip_x, self.order.first(x, y, z));
        lemma_signed_square(self.flip_y, self.order.second(x, y, z));
        lemma_signed_square(self.flip_z, self.order.third(x, y, z));
    }

    /// A transform keeps the dot product of two displacements.
    pub proof fn lemma_keeps_dot(self, ax: int, ay: int, az: int, bx: int, by: int, bz: int)
        ensures
            dot(
                self.turn_x(ax, ay, az),
                self.turn_y(ax, ay, az),
                self.turn_z(ax, ay, az),
                self.turn_x(bx, by, bz),
                self.turn_y(bx, by, bz),
                self.turn_z(bx, by, bz),
            ) == dot(ax, ay, az, bx, by, bz),
    {
        lemma_signed_product(
            self.flip_x,
            self.flip_x,
            self.order.first(ax, ay, az),
            self.order.first(bx, by, bz),
        );
        lemma_signed_product(
            self.flip_y,
            self.flip_y,
            self.order.second(ax, ay, az),
            self.order.second(bx, by, bz),
        );
        lemma_signed_product(
            self.flip_z,
            self.flip_z,
            self.order.third(ax, ay, az),
            self.order.third(bx, by, bz),
        );
    }

    /// A transform keeps the length of the cross product of two displacements.
    pub proof fn lemma_keeps_cross(self, ax: int, ay: int, az: int, bx: int, by: int, bz: int)
        ensures
            cross_squared(
                self.turn_x(ax, ay, az),
                self.turn_y(ax, ay, az),
                self.turn_z(ax, ay, az),
                self.turn_x(bx, by, bz),
                self.turn_y(bx, by, bz),
                self.turn_z(bx, by, bz),
            ) == cross_squared(ax, ay, az, bx, by, bz),
    {
        let a1 = self.order.first(ax, ay, az);
        let a2 = self.order.second(ax, ay, az);
        let a3 = self.order.third(ax, ay, az);
        let b1 = self.order.first(bx, by, bz);
        let b2 = self.order.second(bx, by, bz);
        let b3 = self.order.third(bx, by, bz);
        let fx = self.flip_x;
        let fy = self.flip_y;
        let fz = self.flip_z;
        lemma_signed_product(fy, fz, a2, b3);
        lemma_signed_product(fz, fy, a3, b2);
        lemma_signed_product(fz, fx, a3, b1);
        lemma_signed_product(fx, fz, a1, b3);
        lemma_signed_product(fx, fy, a1, b2);
        lemma_signed_product(fy, fx, a2, b1);
        lemma_signed_square(fy != fz, a2 * b3 - a3 * b2);
        lemma_signed_square(fz != fx, a3 * b1 - a1 * b3);
        lemma_signed_square(fx != fy, a1 * b2 - a2 * b1);
        assert(cross_squared(
            self.turn_x(ax, ay, az),
            self.turn_y(ax, ay, az),
            self.turn_z(ax, ay, az),
            self.turn_x(bx, by, bz),
            self.turn_y(bx, by, bz),
            self.turn_z(bx, by, bz),
        ) == cross_squared(a1, a2, a3, b1, b2, b3));
        lemma_square_of_difference(ay * bz, az * by);
        lemma_square_of_difference(az * bx, ax * bz);
        lemma_square_of_difference(ax * by, ay * bx);
    }
}

impl Transform {
    /// A transform keeps the part of a displacement along an axis, up to its
    /// direction, and the length of the part beside it.
    pub proof fn lemma_keeps_axis(self, axis: Axis, x: int, y: int, z: int)
        ensures
            square(
                self.order.axis_image(axis).along(
                    self.turn_x(x, y, z),
                    self.turn_y(x, y, z),
                    self.turn_z(x, y, z),
                ),
            ) == square(axis.along(x, y, z)),
            self.order.axis_image(axis).beside_squared(
                self.turn_x(x, y, z),
                self.turn_y(x, y, z),
                self.turn_z(x, y, z),
            ) == axis.beside_squared(x, y, z),
    {
        lemma_signed_square(self.flip_x, self.order.first(x, y, z));
        lemma_signed_square(self.flip_y, self.order.second(x, y, z));
        lemma_signed_square(self.flip_z, self.order.third(x, y, z));
    }

    /// The inverse of a transform takes the image of an axis back to the axis.
    pub proof fn lemma_inverse_restores_axis(self, axis: Axis)
        ensures
            self.spec_inverse().order.axis_image(self.order.axis_image(axis)) == axis,
    {
    }
}

impl Transform {
    /// Whether this transform turns the axis `axis` round.
    pub open spec fn mirrors(self, axis: Axis) -> bool {
        match self.order.axis_image(axis) {
            Axis::X => self.flip_x,
            Axis::Y => self.flip_y,
            Axis::Z => self.flip_z,
        }
    }

    /// The image of the location that lies `r` along an axis from `(x, y, z)`
    /// lies `r` along the image of the axis from the image of `(x, y, z)`, on
    /// the other side where the transform turns the axis round.
    pub proof fn lemma_moves_along(self, axis: Axis, x: int, y: int, z: int, r: int)
        ensures
            ({
                let d = axis.times(r);
                let e = self.order.axis_image(axis).times(signed(self.mirrors(axis), r));
                &&& self.move_x(x + d.0, y + d.1, z + d.2) == self.move_x(x, y, z) + e.0
                &&& self.move_y(x + d.0, y + d.1, z + d.2) == self.move_y(x, y, z) + e.1
                &&& self.move_z(x + d.0, y + d.1, z + d.2) == self.move_z(x, y, z) + e.2
            }),
    {
    }
}

/// Scaling one of two displacements by `k` scales the squared length of their
/// cross product by `k^2`.
pub proof fn lemma_scaled_cross(k: int, ax: int, ay: int, az: int, bx: int, by: int, bz: int)
    ensures
        cross_squared(ax, ay, az, k * bx, k * by, k * bz) == (k * k) * cross_squared(
            ax,
            ay,
            az,
            bx,
            by,
            bz,
        ),
{
    let cx = ay * bz - az * by;
    let cy = az * bx - ax * bz;
    let cz = ax * by - ay * bx;
    lemma_factor_of_product(ay, k, bz);
    lemma_factor_of_product(az, k, by);
    lemma_factor_of_product(az, k, bx);
    lemma_factor_of_product(ax, k, bz);
    lemma_factor_of_product(ax, k, by);
    lemma_factor_of_product(ay, k, bx);
    assert(k * (ay * bz) - k * (az * by) == k * cx) by (nonlinear_arith)
        requires
            cx == ay * bz - az * by,
    ;
    assert(k * (az * bx) - k * (ax * bz) == k * cy) by (nonlinear_arith)
        requires
            cy == az * bx - ax * bz,
    ;
    assert(k * (ax * by) - k * (ay * bx) == k * cz) by (nonlinear_arith)
        requires
            cz == ax * by - ay * bx,
    ;
    lemma_scaled_norm(k, cx, cy, cz);
}

/// The square of a multiple is the multiple of the square by the square of the
/// factor.
pub proof fn lemma_scaled_square(k: int, x: int)
    ensures
        square(k * x) == (k * k) * square(x),
{
    assert((k * x) * (k * x) == (k * k) * (x * x)) by (nonlinear_arith);
}

/// A factor can be taken out of a sum of three.
pub proof fn lemma_factor_of_three(s: int, a: int, b: int, c: int)
    ensures
        s * a + s * b + s * c == s * (a + b + c),
{
    assert(s * a + s * b + s * c == s * (a + b + c)) by (nonlinear_arith);
}

/// A factor of one of two factors is a factor of the product.
pub proof fn lemma_factor_of_product(a: int, k: int, b: int)
    ensures
        a * (k * b) == k * (a * b),
{
    assert(a * (k * b) == k * (a * b)) by (nonlinear_arith);
}

/// Scaling a displacement by `k` scales its squared length by `k^2`.
pub proof fn lemma_scaled_norm(k: int, x: int, y: int, z: int)
    ensures
        norm_squared(k * x, k * y, k * z) == (k * k) * norm_squared(x, y, z),
{
    lemma_scaled_square(k, x);
    lemma_scaled_square(k, y);
    lemma_scaled_square(k, z);
    lemma_factor_of_three(k * k, square(x), square(y), square(z));
}

/// Scaling one of two displacements by `k` scales the square of their dot
/// product by `k^2`.
pub proof fn lemma_scaled_dot(k: int, ax: int, ay: int, az: int, bx: int, by: int, bz: int)
    ensures
        square(dot(ax, ay, az, k * bx, k * by, k * bz)) == (k * k) * square(
            dot(ax, ay, az, bx, by, bz),
        ),
{
    lemma_factor_of_product(ax, k, bx);
    lemma_factor_of_product(ay, k, by);
    lemma_factor_of_product(az, k, bz);
    lemma_factor_of_three(k, ax * bx, ay * by, az * bz);
    lemma_scaled_square(k, dot(ax, ay, az, bx, by, bz));
}

/// Scaling both sides of a comparison by the square of a number other than
/// zero does not change it.
pub proof fn lemma_scaled_comparison(k: int, a: int, b: int)
    requires
        k != 0,
    ensures
        ((k * k) * a < (k * k) * b) == (a < b),
{
    assert(k * k > 0) by (nonlinear_arith)
        requires
            k != 0,
    ;
    let s = k * k;
    assert((s * a < s * b) == (a < b)) by (nonlinear_arith)
        requires
            s > 0,
    ;
}

impl Vector {
    /// Of two parallel displacements each is a multiple of the other, up to a
    /// common factor: there are numbers `m` and `n`, neither of them zero, with
    /// `n` times the one equal to `m` times the other.
    pub proof fn lemma_parallel_multiples(self, other: Vector) -> (r: (int, int))
        requires
            self.parallel(other),
        ensures
            r.0 != 0,
            r.1 != 0,
            r.1 * self.x == r.0 * other.x,
            r.1 * self.y == r.0 * other.y,
            r.1 * self.z == r.0 * other.z,
    {
        let (m, n): (int, int) = if self.x != 0 {
            (self.x as int, other.x as int)
        } else if self.y != 0 {
            (self.y as int, other.y as int)
        } else {
            (self.z as int, other.z as int)
        };
        assert(n != 0) by {
            if n == 0 {
                assert(m * other.x == 0 && m * other.y == 0 && m * other.z == 0) by (nonlinear_arith)
                    requires
                        self.y * other.z - self.z * other.y == 0,
                        self.z * other.x - self.x * other.z == 0,
                        self.x * other.y - self.y * other.x == 0,
                        (m == self.x && other.x == 0) || (m == self.y && other.y == 0 && self.x
                            == 0) || (m == self.z && other.z == 0 && self.x == 0 && self.y == 0),
                ;
                assert(other.x == 0 && other.y == 0 && other.z == 0) by (nonlinear_arith)
                    requires
                        m != 0,
                        m * other.x == 0 && m * other.y == 0 && m * other.z == 0,
                ;
            }
        }
        assert(n * self.x == m * other.x && n * self.y == m * other.y && n * self.z == m * other.z)
            by (nonlinear_arith)
            requires
                self.y * other.z - self.z * other.y == 0,
                self.z * other.x - self.x * other.z == 0,
                self.x * other.y - self.y * other.x == 0,
                (m == self.x && n == other.x) || (m == self.y && n == other.y && self.x == 0) || (m
                    == self.z && n == other.z && self.x == 0 && self.y == 0),
        ;
        (m, n)
    }
}

} // verus!
