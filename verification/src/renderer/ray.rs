use vstd::prelude::*;
use crate::utils::geometry::{on_grid_line, Angle, Axis, Direction, Point};
use crate::utils::number::{
    fraction, integer_sqrt, is_root, lemma_quotient_bound, lemma_root_monotonic, magnitude,
    multiply_divide, ratio, root, UNIT,
};

verus! {

/// How far the end of a ray may lie from its start on either axis, in
/// millionths of a tile.
pub const REACH: i64 = 4_000_000_000_000_000_000;

/// Describes a ray that moves through a map
#[derive(Clone, Copy, Debug, PartialEq, Eq, Structural)]
pub struct Ray {
    /// The starting point of the ray
    pub start: Point,
    /// The ending point of the ray
    pub end: Point,
    /// The angle of the ray
    pub angle: Angle,
    /// The length of the ray, rounded down to a millionth
    pub length: i64,
}

/// Whether an offset `delta` on one axis lies on the side to which a line
/// runs whose cosine (or sine) is `trend`.
pub open spec fn follows(delta: int, trend: int) -> bool {
    if trend > 0 {
        delta >= 0
    } else if trend < 0 {
        delta <= 0
    } else {
        delta == 0
    }
}

/// The way from `position` to the next grid line in `direction`: to the next
/// whole number above for an increasing line, to the next one below for a
/// decreasing line. From a grid line it is a whole tile.
pub open spec fn next_line_step(position: int, direction: Direction) -> int {
    let part = position % (UNIT as int);
    match direction {
        Direction::Increasing => UNIT - part,
        Direction::Decreasing => if part == 0 {
            -UNIT
        } else {
            -part
        },
    }
}

/// The square of the length of the vector `(x, y)`.
pub open spec fn squared(x: int, y: int) -> int {
    x * x + y * y
}

// Methods related to ray casting
impl Ray {
    /// The way from the start to the end along the X axis.
    pub open spec fn delta_x(self) -> int {
        self.end.x - self.start.x
    }

    /// The way from the start to the end along the Y axis.
    pub open spec fn delta_y(self) -> int {
        self.end.y - self.start.y
    }

    /// The square of the distance between start and end. Unlike `length` it
    /// is exact.
    pub open spec fn squared_length(self) -> int {
        squared(self.delta_x(), self.delta_y())
    }

    /// The end lies within reach of the start, on the side to which the angle
    /// points, and `length` is the distance between the two, rounded down.
    pub open spec fn wf(self) -> bool {
        &&& self.angle.wf()
        &&& -REACH <= self.delta_x() <= REACH
        &&& -REACH <= self.delta_y() <= REACH
        &&& follows(self.delta_x(), self.angle.cosine())
        &&& follows(self.delta_y(), self.angle.sine())
        &&& is_root(self.squared_length(), self.length as int)
    }

    /// The way from the end to where the ray next crosses a grid line of the
    /// X axis. The way along Y follows from the slope of the ray.
    pub open spec fn step_on_x(self) -> (int, int) {
        let step = next_line_step(self.end.x as int, Direction::along(self.angle, Axis::X));
        (step, ratio(step, self.angle.sine(), self.angle.cosine()))
    }

    /// The way from the end to where the ray next crosses a grid line of the
    /// Y axis. The way along X follows from the slope of the ray.
    pub open spec fn step_on_y(self) -> (int, int) {
        let step = next_line_step(self.end.y as int, Direction::along(self.angle, Axis::Y));
        (ratio(step, self.angle.cosine(), self.angle.sine()), step)
    }

    /// The square of the distance between the start and the end moved by `step`.
    pub open spec fn squared_length_after(self, step: (int, int)) -> int {
        squared(self.delta_x() + step.0, self.delta_y() + step.1)
    }

    /// Whether the ray crosses a grid line of the X axis next. A ray along the
    /// Y axis never crosses one, a ray along the X axis crosses no other; any
    /// other ray crosses next the line that is nearer to its start.
    pub open spec fn crosses_x_next(self) -> bool {
        &&& self.angle.cosine() != 0
        &&& (self.angle.sine() == 0 || self.squared_length_after(self.step_on_x())
            < self.squared_length_after(self.step_on_y()))
    }

    /// The way from the end to the next crossing of a grid line.
    pub open spec fn step(self) -> (int, int) {
        if self.crosses_x_next() {
            self.step_on_x()
        } else {
            self.step_on_y()
        }
    }

    /// Whether the end, moved by `step`, is still within reach of the start
    /// and has coordinates that an `i64` holds.
    pub open spec fn reaches(self, step: (int, int)) -> bool {
        &&& -REACH <= self.delta_x() + step.0 <= REACH
        &&& -REACH <= self.delta_y() + step.1 <= REACH
        &&& i64::MIN <= self.end.x + step.0 <= i64::MAX
        &&& i64::MIN <= self.end.y + step.1 <= i64::MAX
    }

    /// The ray with its end moved by `step`.
    pub open spec fn moved(self, step: (int, int)) -> Ray {
        Ray {
            start: self.start,
            end: Point { x: (self.end.x + step.0) as i64, y: (self.end.y + step.1) as i64 },
            angle: self.angle,
            length: root(self.squared_length_after(step)) as i64,
        }
    }

    /// The ray with its end on the next crossing of a grid line; none where
    /// that crossing is out of reach.
    pub open spec fn grown(self) -> Option<Ray> {
        if self.reaches(self.step()) {
            Some(self.moved(self.step()))
        } else {
            None
        }
    }

    /// Initializes a ray with a starting point and an angle. The ray's end will be set to
    /// its start.
    pub fn new(start: Point, angle: Angle) -> (ray: Ray)
        ensures
            ray == (Ray { start, end: start, angle, length: 0 }),
            ray.wf(),
    {
        proof {
            use_type_invariant(&angle);
        }
        let ray = Ray::new_with_end(start, start, angle);
        assert(ray.length == 0) by (nonlinear_arith)
            requires
                0 <= ray.length,
                ray.length * ray.length <= 0,
        ;
        ray
    }

    /// Creates a new ray where the end point moved one step to the next grid line, of the X
    /// axis or of the Y axis, whichever the ray crosses first. There is none where that
    /// crossing lies out of reach of the start.
    pub fn grow(&self) -> (grown: Option<Ray>)
        requires
            self.wf(),
        ensures
            grown == self.grown(),
            grown matches Some(ray) ==> {
                &&& ray.wf()
                &&& ray.start == self.start
                &&& ray.angle == self.angle
                &&& ray.squared_length() > self.squared_length()
                &&& ray.length >= self.length
                &&& (on_grid_line(ray.end.x as int) || on_grid_line(ray.end.y as int))
            },
    {
        let delta_x: i128 = self.end.x as i128 - self.start.x as i128;
        let delta_y: i128 = self.end.y as i128 - self.start.y as i128;
        // A ray along an axis crosses the grid lines of that axis only.
        let step: (i64, i64) = if self.angle.cos() == 0 {
            self.step_to_next_y_line()
        } else if self.angle.sin() == 0 {
            self.step_to_next_x_line()
        } else {
            // Simulate the ray hitting the next grid line of the X axis and of the Y axis
            let step_on_x = self.step_to_next_x_line();
            let step_on_y = self.step_to_next_y_line();
            // Choose the candidate with the shorter distance to the start.
            if square_sum(delta_x + step_on_x.0 as i128, delta_y + step_on_x.1 as i128)
                < square_sum(delta_x + step_on_y.0 as i128, delta_y + step_on_y.1 as i128) {
                step_on_x
            } else {
                step_on_y
            }
        };
        assert((step.0 as int, step.1 as int) == self.step());
        self.grow_with_delta(step.0, step.1)
    }

    /// The way to the next grid line of the X axis, and the way along Y that the slope of
    /// the ray gives for it.
    fn step_to_next_x_line(&self) -> (step: (i64, i64))
        requires
            self.angle.cosine() != 0,
        ensures
            (step.0 as int, step.1 as int) == self.step_on_x(),
            -UNIT <= step.0 <= UNIT,
            -UNIT * UNIT <= step.1 <= UNIT * UNIT,
    {
        let delta_x: i64 = self.distance_to_next_grid_line(Axis::X);
        proof {
            use_type_invariant(&self.angle);
            lemma_slope_step(delta_x as int, self.angle.sine(), self.angle.cosine());
        }
        let delta_y: i128 = multiply_divide(delta_x, self.angle.sin(), self.angle.cos());
        (delta_x, delta_y as i64)
    }

    /// The way to the next grid line of the Y axis, and the way along X that the slope of
    /// the ray gives for it.
    fn step_to_next_y_line(&self) -> (step: (i64, i64))
        requires
            self.angle.sine() != 0,
        ensures
            (step.0 as int, step.1 as int) == self.step_on_y(),
            -UNIT * UNIT <= step.0 <= UNIT * UNIT,
            -UNIT <= step.1 <= UNIT,
    {
        let delta_y: i64 = self.distance_to_next_grid_line(Axis::Y);
        proof {
            use_type_invariant(&self.angle);
            lemma_slope_step(delta_y as int, self.angle.cosine(), self.angle.sine());
        }
        let delta_x: i128 = multiply_divide(delta_y, self.angle.cos(), self.angle.sin());
        (delta_x as i64, delta_y)
    }

    /// Moves the end point of the ray by the given delta, if that leaves it within reach.
    fn grow_with_delta(&self, delta_x: i64, delta_y: i64) -> (grown: Option<Ray>)
        requires
            self.wf(),
            (delta_x as int, delta_y as int) == self.step(),
        ensures
            grown == self.grown(),
            grown matches Some(ray) ==> {
                &&& ray.wf()
                &&& ray.start == self.start
                &&& ray.angle == self.angle
                &&& ray.squared_length() > self.squared_length()
                &&& ray.length >= self.length
                &&& (on_grid_line(ray.end.x as int) || on_grid_line(ray.end.y as int))
            },
    {
        let reach_x: i128 = self.end.x as i128 - self.start.x as i128 + delta_x as i128;
        let reach_y: i128 = self.end.y as i128 - self.start.y as i128 + delta_y as i128;
        let end_x: i128 = self.end.x as i128 + delta_x as i128;
        let end_y: i128 = self.end.y as i128 + delta_y as i128;
        if reach_x < -(REACH as i128) || reach_x > REACH as i128 || reach_y < -(REACH as i128)
            || reach_y > REACH as i128 || end_x < i64::MIN as i128 || end_x > i64::MAX as i128
            || end_y < i64::MIN as i128 || end_y > i64::MAX as i128 {
            return None;
        }
        let ray = Ray::new_with_end(
            self.start,
            Point { x: end_x as i64, y: end_y as i64 },
            self.angle,
        );
        proof {
            lemma_grown(*self);
        }
        Some(ray)
    }

    /// Determines the way from the ray's end to the next grid line of the given axis in the
    /// ray's direction.
    ///
    /// # Parameters:
    ///    - axis: The axis whose next grid line is looked for
    fn distance_to_next_grid_line(&self, axis: Axis) -> (step: i64)
        ensures
            step == next_line_step(
                self.end.coordinate(axis) as int,
                Direction::along(self.angle, axis),
            ),
            step != 0,
            -UNIT <= step <= UNIT,
            step > 0 <==> Direction::along(self.angle, axis) == Direction::Increasing,
    {
        let part: i64 = fraction(self.end.component(&axis));
        match Direction::from_angle(&self.angle, &axis) {
            Direction::Increasing => UNIT - part,
            Direction::Decreasing => if part == 0 {
                -UNIT
            } else {
                -part
            },
        }
    }

    /// Initializes a ray with a start position, an end position and an angle.
    fn new_with_end(start: Point, end: Point, angle: Angle) -> (ray: Ray)
        requires
            -REACH <= end.x - start.x <= REACH,
            -REACH <= end.y - start.y <= REACH,
        ensures
            ray.start == start,
            ray.end == end,
            ray.angle == angle,
            is_root(ray.squared_length(), ray.length as int),
            ray.length as int == root(ray.squared_length()),
    {
        let delta_x: i128 = end.x as i128 - start.x as i128;
        let delta_y: i128 = end.y as i128 - start.y as i128;
        let square: u128 = square_sum(delta_x, delta_y);
        let length: u64 = integer_sqrt(square);
        proof {
            lemma_root_monotonic(
                square as int,
                length as int,
                0x4000_0000_0000_0000_0000_0000_0000_0000,
                0x8000_0000_0000_0000,
            );
        }
        Ray { start, end, angle, length: length as i64 }
    }
}

/// A step to the next grid line is not zero and at most one tile long, runs
/// in the direction asked for, and ends on a grid line.
pub proof fn lemma_next_line_step(position: int, direction: Direction)
    ensures
        next_line_step(position, direction) != 0,
        -UNIT <= next_line_step(position, direction) <= UNIT,
        next_line_step(position, direction) > 0 <==> direction == Direction::Increasing,
        on_grid_line(position + next_line_step(position, direction)),
{
}

/// The way across that the slope of a line gives for a step along it lies on
/// the side to which the line runs across.
pub proof fn lemma_slope_step(step: int, across: int, along: int)
    requires
        step != 0,
        along != 0,
        (step > 0) == (along > 0),
        -UNIT <= step <= UNIT,
        -UNIT <= across <= UNIT,
    ensures
        follows(ratio(step, across, along), across),
        -UNIT * UNIT <= ratio(step, across, along) <= UNIT * UNIT,
{
    let product = step * across;
    lemma_quotient_bound(product, along);
    assert(magnitude(product) <= UNIT * UNIT && (across == 0 ==> product == 0) && (across > 0
        ==> ((product > 0) == (step > 0) && product != 0)) && (across < 0 ==> ((product < 0) == (
    step > 0) && product != 0))) by (nonlinear_arith)
        requires
            product == step * across,
            step != 0,
            -UNIT <= step <= UNIT,
            -UNIT <= across <= UNIT,
            UNIT == 1_000_000,
    ;
}

/// An end that moves on, on each axis to the side on which it already lies,
/// gets further from the start.
pub proof fn lemma_further(dx: int, dy: int, sx: int, sy: int)
    by (nonlinear_arith)
    requires
        (dx >= 0 && sx >= 0) || (dx <= 0 && sx <= 0),
        (dy >= 0 && sy >= 0) || (dy <= 0 && sy <= 0),
        sx != 0 || sy != 0,
    ensures
        squared(dx + sx, dy + sy) > squared(dx, dy),
{
}

/// Within reach no square of a distance is beyond what `u128` holds, and no
/// distance beyond what `i64` holds.
pub proof fn lemma_length_fits(x: int, y: int)
    requires
        -REACH <= x <= REACH,
        -REACH <= y <= REACH,
    ensures
        0 <= squared(x, y),
        is_root(squared(x, y), root(squared(x, y))),
        0 <= root(squared(x, y)) <= 6_000_000_000_000_000_000,
{
    assert(0 <= squared(x, y) <= 6_000_000_000_000_000_000int * 6_000_000_000_000_000_000int)
        by (nonlinear_arith)
        requires
            -4_000_000_000_000_000_000 <= x <= 4_000_000_000_000_000_000,
            -4_000_000_000_000_000_000 <= y <= 4_000_000_000_000_000_000,
            squared(x, y) == x * x + y * y,
    ;
    crate::utils::number::lemma_root_exists(squared(x, y));
    assert(is_root(
        6_000_000_000_000_000_000int * 6_000_000_000_000_000_000int,
        6_000_000_000_000_000_000,
    )) by (nonlinear_arith);
    lemma_root_monotonic(
        squared(x, y),
        root(squared(x, y)),
        6_000_000_000_000_000_000int * 6_000_000_000_000_000_000int,
        6_000_000_000_000_000_000,
    );
}

/// Growing a ray keeps it well formed, moves its end onto a grid line of at
/// least one axis and strictly further from its start, and never makes its
/// rounded length smaller.
pub proof fn lemma_grown(ray: Ray)
    requires
        ray.wf(),
        ray.grown() is Some,
    ensures
        ray.grown()->0.wf(),
        ray.grown()->0.start == ray.start,
        ray.grown()->0.angle == ray.angle,
        ray.grown()->0.squared_length() > ray.squared_length(),
        ray.grown()->0.length >= ray.length,
        on_grid_line(ray.grown()->0.end.x as int) || on_grid_line(ray.grown()->0.end.y as int),
{
    let step = ray.step();
    let next = ray.grown()->0;
    let cos = ray.angle.cosine();
    let sin = ray.angle.sine();
    lemma_next_line_step(ray.end.x as int, Direction::along(ray.angle, Axis::X));
    lemma_next_line_step(ray.end.y as int, Direction::along(ray.angle, Axis::Y));
    if ray.crosses_x_next() {
        lemma_slope_step(step.0, sin, cos);
    } else {
        lemma_slope_step(step.1, cos, sin);
    }
    lemma_further(ray.delta_x(), ray.delta_y(), step.0, step.1);
    lemma_length_fits(ray.delta_x() + step.0, ray.delta_y() + step.1);
    assert(next.delta_x() == ray.delta_x() + step.0);
    assert(next.delta_y() == ray.delta_y() + step.1);
    lemma_root_monotonic(
        ray.squared_length(),
        ray.length as int,
        next.squared_length(),
        next.length as int,
    );
}

/// The square of the length of a ray is bounded by its reach.
pub proof fn lemma_squared_length_bound(ray: Ray)
    requires
        ray.wf(),
    ensures
        0 <= ray.squared_length() <= 2 * REACH * REACH,
{
    let x = ray.delta_x();
    let y = ray.delta_y();
    assert(0 <= x * x + y * y <= 2 * REACH * REACH) by (nonlinear_arith)
        requires
            -REACH <= x <= REACH,
            -REACH <= y <= REACH,
    ;
}

/// The ray after it has grown the given number of times; none once a crossing
/// was out of reach.
pub open spec fn grown_times(ray: Ray, times: nat) -> Option<Ray>
    decreases times,
{
    if times == 0 {
        Some(ray)
    } else {
        match grown_times(ray, (times - 1) as nat) {
            None => None,
            Some(before) => before.grown(),
        }
    }
}

/// To grow once and then some times more is to grow once more often.
pub proof fn lemma_grown_times_shift(ray: Ray, next: Ray, times: nat)
    requires
        ray.grown() == Some(next),
    ensures
        grown_times(ray, times + 1) == grown_times(next, times),
    decreases times,
{
    if times > 0 {
        lemma_grown_times_shift(ray, next, (times - 1) as nat);
    } else {
        assert(grown_times(ray, 0) == Some(ray));
    }
}

/// A ray that grows stays well formed, keeps its start and its angle, and
/// never gets shorter: with each step its end lies strictly further from its
/// start, and its rounded length is never less than before.
pub proof fn lemma_grown_times(ray: Ray, earlier: nat, later: nat)
    requires
        ray.wf(),
        earlier <= later,
        grown_times(ray, later) is Some,
    ensures
        grown_times(ray, earlier) is Some,
        grown_times(ray, later)->0.wf(),
        grown_times(ray, later)->0.start == ray.start,
        grown_times(ray, later)->0.angle == ray.angle,
        grown_times(ray, earlier)->0.length <= grown_times(ray, later)->0.length,
        earlier < later ==> grown_times(ray, earlier)->0.squared_length() < grown_times(
            ray,
            later,
        )->0.squared_length(),
    decreases later,
{
    if later > 0 {
        let before = grown_times(ray, (later - 1) as nat)->0;
        lemma_grown_times(ray, 0, (later - 1) as nat);
        lemma_grown(before);
        if earlier < later {
            lemma_grown_times(ray, earlier, (later - 1) as nat);
        }
    }
}

/// The square of the length of the vector `(x, y)`.
fn square_sum(x: i128, y: i128) -> (sum: u128)
    requires
        -0x4000_0000_0000_0000 <= x <= 0x4000_0000_0000_0000,
        -0x4000_0000_0000_0000 <= y <= 0x4000_0000_0000_0000,
    ensures
        sum == squared(x as int, y as int),
        sum <= 0x2000_0000_0000_0000_0000_0000_0000_0000,
{
    assert(0 <= x * x <= 0x1000_0000_0000_0000_0000_0000_0000_0000) by (nonlinear_arith)
        requires
            -0x4000_0000_0000_0000 <= x <= 0x4000_0000_0000_0000,
    ;
    assert(0 <= y * y <= 0x1000_0000_0000_0000_0000_0000_0000_0000) by (nonlinear_arith)
        requires
            -0x4000_0000_0000_0000 <= y <= 0x4000_0000_0000_0000,
    ;
    (x * x + y * y) as u128
}

} // verus!
