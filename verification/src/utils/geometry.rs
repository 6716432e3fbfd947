use vstd::prelude::*;
use crate::utils::number::{
    divide, fraction, integer_sqrt, is_root, lemma_quotient_bound, magnitude, multiply_divide,
    quotient, ratio, root, saturate, saturated, UNIT,
};

verus! {

/// Specifies an axis in the coordinate system.
#[derive(Clone, Copy, Debug, PartialEq, Eq, Structural)]
pub enum Axis {
    X,
    Y,
}

/// Specifies a point within the map. Each coordinate counts millionths of a
/// tile edge.
#[derive(Clone, Copy, Debug, PartialEq, Eq, Structural)]
pub struct Point {
    pub x: i64,
    pub y: i64,
}

/// Specifies an angle relative to the X axis. It is held as the point of the
/// unit circle that it marks, that is by its cosine and its sine, each in
/// millionths.
#[derive(Clone, Copy, Debug, PartialEq, Eq, Structural)]
pub struct Angle {
    cos: i64,
    sin: i64,
}

/// Specifies the direction of a line on a certain axis.
#[derive(Clone, Copy, Debug, PartialEq, Eq, Structural)]
pub enum Direction {
    Increasing,
    Decreasing,
}

/// Whether `position` is a whole number of tiles.
pub open spec fn on_grid_line(position: int) -> bool {
    position % (UNIT as int) == 0
}

/// How far `position` is from the nearest grid line.
pub open spec fn grid_line_distance(position: int) -> int {
    let part = position % UNIT as int;
    if part <= UNIT - part {
        part
    } else {
        UNIT - part
    }
}

/// Vectors with no component beyond this are stretched before their length
/// is taken.
pub const SHORT: i64 = 1_000_000_000_000;

/// The vector `(x, y)`, made `UNIT` times as long where it is short, so that
/// rounding its length changes little. Its direction stays.
pub open spec fn stretched(x: int, y: int) -> (int, int) {
    if magnitude(x) <= SHORT && magnitude(y) <= SHORT {
        (x * UNIT, y * UNIT)
    } else {
        (x, y)
    }
}

/// The length of the vector `(x, y)`, rounded down.
pub open spec fn norm(x: int, y: int) -> int {
    root(x * x + y * y)
}

impl Point {
    /// The point that lies `distance` away from this one in `direction`. A
    /// coordinate that leaves the range of `i64` stays at its end.
    pub open spec fn moved(self, distance: int, direction: Angle) -> Point {
        Point {
            x: saturated(self.x + ratio(distance, direction.cosine(), UNIT as int)) as i64,
            y: saturated(self.y + ratio(distance, direction.sine(), UNIT as int)) as i64,
        }
    }

    /// The axis on which this point is nearest to a grid line; `Y` where both
    /// are equally near.
    pub open spec fn closest_axis(self) -> Axis {
        if grid_line_distance(self.x as int) < grid_line_distance(self.y as int) {
            Axis::X
        } else {
            Axis::Y
        }
    }

    /// The coordinate of this point on `axis`.
    pub open spec fn coordinate(self, axis: Axis) -> i64 {
        match axis {
            Axis::X => self.x,
            Axis::Y => self.y,
        }
    }

    /// Moves a point by a distance in a direction.
    pub fn add(&self, distance: i64, direction: &Angle) -> (target: Point)
        ensures
            target == self.moved(distance as int, *direction),
    {
        proof {
            use_type_invariant(direction);
        }
        let step_x: i128 = multiply_divide(distance, direction.cos, UNIT);
        let step_y: i128 = multiply_divide(distance, direction.sin, UNIT);
        proof {
            lemma_quotient_bound(distance * direction.cos, UNIT as int);
            lemma_quotient_bound(distance * direction.sin, UNIT as int);
            assert(magnitude(distance * direction.cos) <= 0x8000_0000_0000_0000 * UNIT)
                by (nonlinear_arith)
                requires
                    -0x8000_0000_0000_0000 <= distance < 0x8000_0000_0000_0000,
                    -UNIT <= direction.cos <= UNIT,
            ;
            assert(magnitude(distance * direction.sin) <= 0x8000_0000_0000_0000 * UNIT)
                by (nonlinear_arith)
                requires
                    -0x8000_0000_0000_0000 <= distance < 0x8000_0000_0000_0000,
                    -UNIT <= direction.sin <= UNIT,
            ;
        }
        Point { x: saturate(self.x as i128 + step_x), y: saturate(self.y as i128 + step_y) }
    }

    /// Provides the component of a point for an axis.
    pub fn component(&self, axis: &Axis) -> (value: i64)
        ensures
            value == self.coordinate(*axis),
    {
        match *axis {
            Axis::X => self.x,
            Axis::Y => self.y,
        }
    }

    /// Determines the axis on which the point is nearest to a grid line.
    pub fn closest_grid_line_axis(&self) -> (axis: Axis)
        ensures
            axis == self.closest_axis(),
    {
        let part_x: i64 = fraction(self.x);
        let part_y: i64 = fraction(self.y);
        let near_x: i64 = if part_x <= UNIT - part_x { part_x } else { UNIT - part_x };
        let near_y: i64 = if part_y <= UNIT - part_y { part_y } else { UNIT - part_y };
        if near_x < near_y {
            Axis::X
        } else {
            Axis::Y
        }
    }
}

impl Angle {
    /// The cosine of the angle, in millionths.
    pub closed spec fn cosine(self) -> int {
        self.cos as int
    }

    /// The sine of the angle, in millionths.
    pub closed spec fn sine(self) -> int {
        self.sin as int
    }

    /// Cosine and sine lie between minus one and one, and are not both zero.
    /// This holds of every angle that exists.
    #[verifier::type_invariant]
    pub open spec fn wf(self) -> bool {
        &&& -UNIT <= self.cosine() <= UNIT
        &&& -UNIT <= self.sine() <= UNIT
        &&& (self.cosine() != 0 || self.sine() != 0)
    }

    /// The angle under which the vector `(x, y)` points.
    pub closed spec fn toward(x: int, y: int) -> Angle {
        let (long_x, long_y) = stretched(x, y);
        Angle {
            cos: ratio(long_x, UNIT as int, norm(long_x, long_y)) as i64,
            sin: ratio(long_y, UNIT as int, norm(long_x, long_y)) as i64,
        }
    }

    /// Whether this is the angle under which the vector `(x, y)` points: its
    /// cosine and its sine are the components of the vector, stretched where
    /// it is short and then brought to length one, each rounded toward zero.
    pub open spec fn points_along(self, x: int, y: int) -> bool {
        let (long_x, long_y) = stretched(x, y);
        &&& self.cosine() == ratio(long_x, UNIT as int, norm(long_x, long_y))
        &&& self.sine() == ratio(long_y, UNIT as int, norm(long_x, long_y))
    }

    /// The sum of two angles: the angle under which the product of their two
    /// points of the unit circle, taken as complex numbers, points.
    pub open spec fn sum(self, other: Angle) -> Angle {
        Angle::toward(
            self.cosine() * other.cosine() - self.sine() * other.sine(),
            self.sine() * other.cosine() + self.cosine() * other.sine(),
        )
    }

    /// The angle of the same size to the other side of the X axis.
    pub closed spec fn negated(self) -> Angle {
        Angle { cos: self.cos, sin: (-self.sin) as i64 }
    }

    /// The cosine of the angle, in millionths.
    pub fn cos(&self) -> (value: i64)
        ensures
            value == self.cosine(),
            self.wf(),
    {
        proof {
            use_type_invariant(self);
        }
        self.cos
    }

    /// The sine of the angle, in millionths.
    pub fn sin(&self) -> (value: i64)
        ensures
            value == self.sine(),
            self.wf(),
    {
        proof {
            use_type_invariant(self);
        }
        self.sin
    }

    /// The angle under which the vector `(x, y)` points; none for the zero
    /// vector, which points nowhere.
    pub fn from_vector(x: i64, y: i64) -> (angle: Option<Angle>)
        ensures
            angle is None <==> (x == 0 && y == 0),
            angle matches Some(a) ==> {
                &&& a.wf()
                &&& a == Angle::toward(x as int, y as int)
                &&& a.points_along(x as int, y as int)
            },
    {
        if x == 0 && y == 0 {
            return None;
        }
        // A short vector is stretched: the shorter the vector, the more is lost by rounding
        // its length.
        let short: bool = -SHORT <= x && x <= SHORT && -SHORT <= y && y <= SHORT;
        let long_x: i64 = if short { x * UNIT } else { x };
        let long_y: i64 = if short { y * UNIT } else { y };
        proof {
            lemma_squares_fit(long_x as int, long_y as int);
        }
        let wide_x: u128 = if long_x < 0 { (-(long_x as i128)) as u128 } else { long_x as u128 };
        let wide_y: u128 = if long_y < 0 { (-(long_y as i128)) as u128 } else { long_y as u128 };
        let length: u64 = integer_sqrt(wide_x * wide_x + wide_y * wide_y);
        proof {
            lemma_unit_vector(long_x as int, long_y as int, length as int);
        }
        let cos: i128 = divide((long_x as i128) * (UNIT as i128), length as i128);
        let sin: i128 = divide((long_y as i128) * (UNIT as i128), length as i128);
        Some(Angle { cos: cos as i64, sin: sin as i64 })
    }

    /// Adds two angles.
    pub fn plus(&self, other: &Angle) -> (sum: Angle)
        ensures
            sum.wf(),
            sum == self.sum(*other),
            sum.points_along(
                self.cosine() * other.cosine() - self.sine() * other.sine(),
                self.sine() * other.cosine() + self.cosine() * other.sine(),
            ),
    {
        proof {
            use_type_invariant(self);
            use_type_invariant(other);
            lemma_product_is_not_zero(
                self.cos as int,
                self.sin as int,
                other.cos as int,
                other.sin as int,
            );
        }
        let x: i64 = self.cos * other.cos - self.sin * other.sin;
        let y: i64 = self.sin * other.cos + self.cos * other.sin;
        match Angle::from_vector(x, y) {
            Some(sum) => sum,
            None => *self,
        }
    }

    /// The angle of the same size to the other side of the X axis.
    pub fn negate(&self) -> (mirrored: Angle)
        ensures
            mirrored.wf(),
            mirrored == self.negated(),
            mirrored.cosine() == self.cosine(),
            mirrored.sine() == -self.sine(),
    {
        proof {
            use_type_invariant(self);
        }
        Angle { cos: self.cos, sin: -self.sin }
    }
}

/// What `toward` gives: the cosine and the sine of the angle under which a
/// vector points are its components, scaled to a vector of length one. The
/// angle is well formed unless the vector is zero.
pub proof fn lemma_toward(x: int, y: int)
    ensures
        (x != 0 || y != 0) ==> Angle::toward(x, y).wf(),
        Angle::toward(x, y).points_along(x, y),
{
    let (long_x, long_y) = stretched(x, y);
    if x != 0 || y != 0 {
        assert(long_x * long_x + long_y * long_y >= 1) by (nonlinear_arith)
            requires
                long_x != 0 || long_y != 0,
        ;
        crate::utils::number::lemma_root_exists(long_x * long_x + long_y * long_y);
        lemma_unit_vector(long_x, long_y, norm(long_x, long_y));
    } else {
        assert(long_x * UNIT == 0 && long_y * UNIT == 0);
    }
}

/// The point by which an angle is held lies on the unit circle, as nearly as
/// rounding lets it: the squares of the cosine and the sine of the angle
/// under which a vector points add up to one, within five millionths.
pub proof fn lemma_unit_length(x: int, y: int)
    requires
        x != 0 || y != 0,
    ensures
        UNIT * UNIT - 5 * UNIT <= Angle::toward(x, y).cosine() * Angle::toward(x, y).cosine()
            + Angle::toward(x, y).sine() * Angle::toward(x, y).sine() <= UNIT * UNIT + 2 * UNIT,
{
    lemma_toward(x, y);
    let (long_x, long_y) = stretched(x, y);
    let a = magnitude(long_x);
    let b = magnitude(long_y);
    let n = norm(long_x, long_y);
    let cos = Angle::toward(x, y).cosine();
    let sin = Angle::toward(x, y).sine();
    let c = magnitude(cos);
    let d = magnitude(sin);
    assert(a * a + b * b >= UNIT * UNIT && a * a == long_x * long_x && b * b == long_y * long_y)
        by (nonlinear_arith)
        requires
            a == magnitude(long_x),
            b == magnitude(long_y),
            a >= UNIT || b >= UNIT,
            UNIT == 1_000_000,
    ;
    crate::utils::number::lemma_root_exists(long_x * long_x + long_y * long_y);
    assert(is_root(UNIT * UNIT, UNIT as int)) by (nonlinear_arith)
        requires
            UNIT == 1_000_000,
    ;
    crate::utils::number::lemma_root_monotonic(
        UNIT * UNIT,
        UNIT as int,
        long_x * long_x + long_y * long_y,
        n,
    );
    assert(magnitude(long_x * UNIT) == a * UNIT && magnitude(long_y * UNIT) == b * UNIT)
        by (nonlinear_arith)
        requires
            a == magnitude(long_x),
            b == magnitude(long_y),
            UNIT == 1_000_000,
    ;
    assert(c == (a * UNIT) / n);
    assert(d == (b * UNIT) / n);
    lemma_floor_bounds(a * UNIT, n, c);
    lemma_floor_bounds(b * UNIT, n, d);
    lemma_squares_on_the_circle(a, b, n, c, d);
    assert(c * c == cos * cos && d * d == sin * sin) by (nonlinear_arith)
        requires
            c == magnitude(cos),
            d == magnitude(sin),
    ;
}

/// A quotient, rounded down, times the divisor is at most what was divided,
/// and the next number times the divisor is more.
proof fn lemma_floor_bounds(value: int, divisor: int, floor: int)
    by (nonlinear_arith)
    requires
        0 <= value,
        0 < divisor,
        floor == value / divisor,
    ensures
        0 <= floor,
        floor * divisor <= value,
        value < (floor + 1) * divisor,
{
}

/// The components of a vector, each divided by the rounded length `n` of the
/// vector and rounded down to `c` and `d` millionths, have squares that add
/// up to one, within five millionths.
proof fn lemma_squares_on_the_circle(a: int, b: int, n: int, c: int, d: int)
    requires
        0 <= a,
        0 <= b,
        UNIT <= n,
        n * n <= a * a + b * b,
        a * a + b * b < (n + 1) * (n + 1),
        0 <= c,
        0 <= d,
        c * n <= a * UNIT,
        a * UNIT < (c + 1) * n,
        d * n <= b * UNIT,
        b * UNIT < (d + 1) * n,
    ensures
        UNIT * UNIT - 5 * UNIT <= c * c + d * d <= UNIT * UNIT + 2 * UNIT,
{
    let u = UNIT as int;
    let s = a * a + b * b;
    // each rounded component is at most one
    assert(a <= n && b <= n) by (nonlinear_arith)
        requires
            0 <= a,
            0 <= b,
            0 < n,
            a * a + b * b < (n + 1) * (n + 1),
    ;
    assert(c <= u) by (nonlinear_arith)
        requires
            0 <= a <= n,
            0 < n,
            c * n <= a * u,
            u == 1_000_000,
    ;
    assert(d <= u) by (nonlinear_arith)
        requires
            0 <= b <= n,
            0 < n,
            d * n <= b * u,
            u == 1_000_000,
    ;
    assert(0 < n * n) by (nonlinear_arith)
        requires
            0 < n,
    ;
    // from above: (c * n)^2 + (d * n)^2 <= u^2 * s < (u * (n + 1))^2
    assert((c * n) * (c * n) <= (a * u) * (a * u)) by (nonlinear_arith)
        requires
            0 <= c * n <= a * u,
    ;
    assert((d * n) * (d * n) <= (b * u) * (b * u)) by (nonlinear_arith)
        requires
            0 <= d * n <= b * u,
    ;
    assert(0 <= c * n && 0 <= d * n) by (nonlinear_arith)
        requires
            0 <= c,
            0 <= d,
            0 < n,
    ;
    assert((c * c + d * d) * (n * n) == (c * n) * (c * n) + (d * n) * (d * n))
        by (nonlinear_arith);
    assert((a * u) * (a * u) + (b * u) * (b * u) == (u * u) * s) by (nonlinear_arith)
        requires
            s == a * a + b * b,
    ;
    assert((u * u) * s < (u * u) * ((n + 1) * (n + 1))) by (nonlinear_arith)
        requires
            s < (n + 1) * (n + 1),
            u == 1_000_000,
    ;
    if c * c + d * d >= (u + 1) * (u + 1) {
        assert(((u + 1) * (u + 1)) * (n * n) <= (c * c + d * d) * (n * n)) by (nonlinear_arith)
            requires
                (u + 1) * (u + 1) <= c * c + d * d,
                0 <= n * n,
        ;
        assert(((u + 1) * n) * ((u + 1) * n) < (u * (n + 1)) * (u * (n + 1)))
            by (nonlinear_arith)
            requires
                ((u + 1) * (u + 1)) * (n * n) < (u * u) * ((n + 1) * (n + 1)),
        ;
        assert((u + 1) * n < u * (n + 1)) by (nonlinear_arith)
            requires
                ((u + 1) * n) * ((u + 1) * n) < (u * (n + 1)) * (u * (n + 1)),
                0 <= (u + 1) * n,
                0 <= u * (n + 1),
        ;
        assert(false) by (nonlinear_arith)
            requires
                (u + 1) * n < u * (n + 1),
                u <= n,
        ;
    }
    assert((u + 1) * (u + 1) == u * u + 2 * u + 1) by (nonlinear_arith);
    // from below: ((c + 1) * n)^2 + ((d + 1) * n)^2 > u^2 * s >= (u * n)^2
    assert(((c + 1) * n) * ((c + 1) * n) > (a * u) * (a * u) || a == 0) by (nonlinear_arith)
        requires
            0 <= a * u < (c + 1) * n,
    ;
    assert(((d + 1) * n) * ((d + 1) * n) > (b * u) * (b * u) || b == 0) by (nonlinear_arith)
        requires
            0 <= b * u < (d + 1) * n,
    ;
    assert(((c + 1) * n) * ((c + 1) * n) >= (a * u) * (a * u)) by (nonlinear_arith)
        requires
            0 <= a * u < (c + 1) * n,
    ;
    assert(((d + 1) * n) * ((d + 1) * n) >= (b * u) * (b * u)) by (nonlinear_arith)
        requires
            0 <= b * u < (d + 1) * n,
    ;
    assert(0 <= a * u && 0 <= b * u) by (nonlinear_arith)
        requires
            0 <= a,
            0 <= b,
            u == 1_000_000,
    ;
    assert(((c + 1) * (c + 1) + (d + 1) * (d + 1)) * (n * n) == ((c + 1) * n) * ((c + 1) * n) + (
    (d + 1) * n) * ((d + 1) * n)) by (nonlinear_arith);
    assert((u * u) * s >= (u * u) * (n * n)) by (nonlinear_arith)
        requires
            s >= n * n,
            u == 1_000_000,
    ;
    assert((c + 1) * (c + 1) + (d + 1) * (d + 1) >= u * u) by (nonlinear_arith)
        requires
            ((c + 1) * (c + 1) + (d + 1) * (d + 1)) * (n * n) >= (u * u) * (n * n),
            0 < n * n,
    ;
    assert((c + 1) * (c + 1) + (d + 1) * (d + 1) == c * c + d * d + 2 * c + 2 * d + 2)
        by (nonlinear_arith);
}

/// What `negated` gives: the same cosine, and the sine with the other sign.
pub proof fn lemma_negated(angle: Angle)
    requires
        angle.wf(),
    ensures
        angle.negated().wf(),
        angle.negated().cosine() == angle.cosine(),
        angle.negated().sine() == -angle.sine(),
{
}

/// An angle is known by its cosine and its sine.
pub proof fn lemma_angle_is_its_point(a: Angle, b: Angle)
    requires
        a.cosine() == b.cosine(),
        a.sine() == b.sine(),
    ensures
        a == b,
{
}

/// The squares of two coordinates add up to less than `u128` holds.
proof fn lemma_squares_fit(x: int, y: int)
    by (nonlinear_arith)
    requires
        -0x8000_0000_0000_0000 <= x < 0x8000_0000_0000_0000,
        -0x8000_0000_0000_0000 <= y < 0x8000_0000_0000_0000,
    ensures
        0 <= x * x <= 0x4000_0000_0000_0000_0000_0000_0000_0000,
        0 <= y * y <= 0x4000_0000_0000_0000_0000_0000_0000_0000,
        (x != 0 || y != 0) ==> x * x + y * y >= 1,
        magnitude(x) * magnitude(x) == x * x,
        magnitude(y) * magnitude(y) == y * y,
{
}

/// A vector divided by its rounded length has components between minus one
/// and one, of which the larger is not zero.
proof fn lemma_unit_vector(x: int, y: int, length: int)
    requires
        x != 0 || y != 0,
        is_root(x * x + y * y, length),
    ensures
        length >= 1,
        -UNIT <= ratio(x, UNIT as int, length) <= UNIT,
        -UNIT <= ratio(y, UNIT as int, length) <= UNIT,
        ratio(x, UNIT as int, length) != 0 || ratio(y, UNIT as int, length) != 0,
        norm(x, y) == length,
{
    crate::utils::number::lemma_root_is(x * x + y * y, length);
    let mx = magnitude(x);
    let my = magnitude(y);
    assert(mx * mx == x * x && my * my == y * y && x * x + y * y >= 1) by (nonlinear_arith)
        requires
            mx == magnitude(x),
            my == magnitude(y),
            x != 0 || y != 0,
    ;
    assert(length >= 1 && mx <= length && my <= length && (mx * UNIT >= length || my * UNIT
        >= length)) by (nonlinear_arith)
        requires
            mx * mx + my * my >= 1,
            0 <= length,
            length * length <= mx * mx + my * my,
            mx * mx + my * my < (length + 1) * (length + 1),
            mx >= 0,
            my >= 0,
            UNIT == 1_000_000,
    ;
    lemma_scaled_component(mx, length);
    lemma_scaled_component(my, length);
    assert(magnitude(x * UNIT) == mx * UNIT) by (nonlinear_arith)
        requires
            mx == magnitude(x),
            UNIT == 1_000_000,
    ;
    assert(magnitude(y * UNIT) == my * UNIT) by (nonlinear_arith)
        requires
            my == magnitude(y),
            UNIT == 1_000_000,
    ;
}

/// A component no longer than the vector, scaled up and divided by the
/// length, is at most one, and at least a millionth where the scaled
/// component reaches the length.
proof fn lemma_scaled_component(m: int, length: int)
    by (nonlinear_arith)
    requires
        0 <= m <= length,
        length >= 1,
    ensures
        0 <= (m * UNIT) / length <= UNIT,
        m * UNIT >= length ==> (m * UNIT) / length >= 1,
{
}

/// The product of two complex numbers is zero only where one of them is, and
/// each of its parts is bounded by the bounds of theirs.
proof fn lemma_product_is_not_zero(a: int, b: int, c: int, d: int)
    by (nonlinear_arith)
    requires
        a != 0 || b != 0,
        c != 0 || d != 0,
        -UNIT <= a <= UNIT,
        -UNIT <= b <= UNIT,
        -UNIT <= c <= UNIT,
        -UNIT <= d <= UNIT,
    ensures
        a * c - b * d != 0 || b * c + a * d != 0,
        -UNIT * UNIT <= a * c <= UNIT * UNIT,
        -UNIT * UNIT <= b * d <= UNIT * UNIT,
        -UNIT * UNIT <= b * c <= UNIT * UNIT,
        -UNIT * UNIT <= a * d <= UNIT * UNIT,
{
}

impl Direction {
    /// The direction in which a line under `angle` runs on `axis`: increasing
    /// where the cosine (for X) or the sine (for Y) is above zero.
    pub open spec fn along(angle: Angle, axis: Axis) -> Direction {
        match axis {
            Axis::X => if angle.cosine() > 0 {
                Direction::Increasing
            } else {
                Direction::Decreasing
            },
            Axis::Y => if angle.sine() > 0 {
                Direction::Increasing
            } else {
                Direction::Decreasing
            },
        }
    }

    /// Determines whether a line with a certain angle will result in
    /// decreasing or increasing values on a given axis.
    pub fn from_angle(angle: &Angle, axis: &Axis) -> (direction: Direction)
        ensures
            direction == Direction::along(*angle, *axis),
    {
        match *axis {
            Axis::X => if angle.cos > 0 {
                Direction::Increasing
            } else {
                Direction::Decreasing
            },
            Axis::Y => if angle.sin > 0 {
                Direction::Increasing
            } else {
                Direction::Decreasing
            },
        }
    }
}

} // verus!
