//! The algebraic model of a polygon edge: the coordinate axes, integer
//! points, axis-aligned bounding intervals, and the function describing the
//! infinite line through two points.

use vstd::arithmetic::div_mod::lemma_div_nonincreasing;
use vstd::math::abs;
use vstd::prelude::*;

verus! {

/// The quotient of `a / b` as exact rational arithmetic followed by
/// truncation toward zero. This is the fixed policy for converting a
/// continuous intersection coordinate to a discrete one: the fractional part
/// is discarded, for negative values as well as positive ones.
pub open spec fn trunc_div(a: int, b: int) -> int {
    if (a >= 0) == (b >= 0) {
        (abs(a) / abs(b)) as int
    } else {
        -((abs(a) / abs(b)) as int)
    }
}

/// Saturation of an unbounded integer into the `i32` range.
pub open spec fn clamp_i32(v: int) -> int {
    if v < i32::MIN as int {
        i32::MIN as int
    } else if v > i32::MAX as int {
        i32::MAX as int
    } else {
        v
    }
}

/// Truncating (toward zero) division on machine integers.
fn trunc_div_i128(a: i128, b: i128) -> (r: i128)
    requires
        b != 0,
        i128::MIN < a,
        i128::MIN < b,
    ensures
        r as int == trunc_div(a as int, b as int),
{
    let ua: u128 = if a >= 0 {
        a as u128
    } else {
        (-a) as u128
    };
    let ub: u128 = if b >= 0 {
        b as u128
    } else {
        (-b) as u128
    };
    let q: u128 = ua / ub;
    proof {
        lemma_div_nonincreasing(ua as int, ub as int);
    }
    if (a >= 0) == (b >= 0) {
        q as i128
    } else {
        -(q as i128)
    }
}

/// Saturation of a wide intermediate result into the `i32` range.
fn clamp_to_i32(v: i128) -> (r: i32)
    ensures
        r as int == clamp_i32(v as int),
{
    if v < i32::MIN as i128 {
        i32::MIN
    } else if v > i32::MAX as i128 {
        i32::MAX
    } else {
        v as i32
    }
}

/// A point in the integer plane.
#[derive(Debug, Clone, Copy, PartialEq, Eq, Structural)]
pub struct Point {
    pub x: i32,
    pub y: i32,
}

impl Point {
    pub fn new(x: i32, y: i32) -> (r: Self)
        ensures
            r == (Point { x, y }),
    {
        Point { x, y }
    }
}

/// One of the two coordinate directions: `X` is horizontal, `Y` is vertical.
#[derive(Debug, PartialEq, Eq, Structural, Clone, Copy, Hash)]
pub enum Variable {
    X,
    Y,
}

impl Variable {
    pub fn is_x(&self) -> (r: bool)
        ensures
            r == (self is X),
    {
        matches!(self, Variable::X)
    }

    pub fn is_y(&self) -> (r: bool)
        ensures
            r == (self is Y),
    {
        matches!(self, Variable::Y)
    }

    /// The axis's lower-case name.
    pub fn to_string(&self) -> (r: String)
        ensures
            self is X ==> r@ == "x"@,
            self is Y ==> r@ == "y"@,
    {
        match self {
            Variable::X => "x",
            Variable::Y => "y",
        }.to_owned()
    }
}

/// An axis-aligned bounding box, normalized so that the minimum does not
/// exceed the maximum on either axis.
#[derive(Debug, Clone, Copy, PartialEq, Eq, Structural)]
pub struct Interval {
    pub x0: i32,
    pub x1: i32,
    pub y0: i32,
    pub y1: i32,
}

impl Interval {
    /// Normalization invariant: each range is stored low end first.
    pub open spec fn wf(self) -> bool {
        self.x0 <= self.x1 && self.y0 <= self.y1
    }

    /// Closed-box containment on both axes.
    pub open spec fn contains(self, point: Point) -> bool {
        self.x0 <= point.x <= self.x1 && self.y0 <= point.y <= self.y1
    }

    /// Build an interval from two arbitrary (possibly swapped) endpoint
    /// pairs, one per axis; always succeeds and normalizes each range.
    pub fn new(x: (i32, i32), y: (i32, i32)) -> (r: Self)
        ensures
            r.wf(),
            r.x0 == if x.0 <= x.1 { x.0 } else { x.1 },
            r.x1 == if x.0 <= x.1 { x.1 } else { x.0 },
            r.y0 == if y.0 <= y.1 { y.0 } else { y.1 },
            r.y1 == if y.0 <= y.1 { y.1 } else { y.0 },
    {
        Self {
            x0: if x.0 > x.1 { x.1 } else { x.0 },
            x1: if x.0 > x.1 { x.0 } else { x.1 },
            y0: if y.0 > y.1 { y.1 } else { y.0 },
            y1: if y.0 > y.1 { y.0 } else { y.1 },
        }
    }

    /// Closed-box test: the point lies within both ranges inclusive.
    pub fn within(&self, point: Point) -> (r: bool)
        ensures
            r == self.contains(point),
    {
        let (x, y) = (point.x, point.y);
        (x >= self.x0 && x <= self.x1) && (y >= self.y0 && y <= self.y1)
    }
}

/// The algebraic description of the infinite line through two distinct
/// points.
///
/// - `Constant { var, val }`: every point on the line has coordinate `val`
///   on axis `var` (a vertical segment is `Constant` on `X`, a horizontal
///   one is `Constant` on `Y`).
/// - `Linear { dy, dx, c }`: the line `y * dx == dy * x + c`, kept as exact
///   integer rationals with `dx > 0`; the slope is `dy / dx` and the
///   intercept is `c / dx`. It is used only when the segment is neither
///   vertical nor horizontal, so `dy != 0` as well.
#[derive(Debug, Clone, Copy, PartialEq, Eq, Structural)]
pub enum FunctionType {
    Constant { var: Variable, val: i32 },
    Linear { dy: i128, dx: i128, c: i128 },
}

impl FunctionType {
    /// Ranges a `Linear` built from two `i32` points satisfies; they keep
    /// every intermediate product of `solve` within `i128`.
    pub open spec fn wf(self) -> bool {
        match self {
            FunctionType::Constant { .. } => true,
            FunctionType::Linear { dy, dx, c } => {
                &&& 0 < dx <= u32::MAX as i128
                &&& dy != 0
                &&& -(u32::MAX as i128) <= dy <= u32::MAX as i128
                &&& -0x1_0000_0000_0000_0000_i128 <= c <= 0x1_0000_0000_0000_0000_i128
            },
        }
    }

    /// What `solve` returns: the coordinate on the axis other than `v` of
    /// the line's point whose coordinate on `v` is `n`.
    ///
    /// A `Constant` function queried on its own axis has a solution only
    /// when `n` is the fixed coordinate itself (then every value solves it,
    /// and `n` is returned); queried on the other axis it always returns the
    /// fixed coordinate. A `Linear` function always has exactly one
    /// solution, truncated toward zero and saturated into `i32`.
    pub open spec fn spec_solve(self, v: Variable, n: int) -> Option<int> {
        match self {
            FunctionType::Constant { var, val } => {
                if var == v {
                    if n == val as int {
                        Some(n)
                    } else {
                        None
                    }
                } else {
                    Some(val as int)
                }
            },
            FunctionType::Linear { dy, dx, c } => match v {
                Variable::X => Some(clamp_i32(trunc_div(dy * n + c, dx as int))),
                Variable::Y => Some(clamp_i32(trunc_div(n * dx - c, dy as int))),
            },
        }
    }

    /// Whether `point` lies on the infinite line, under the same
    /// truncation policy as `spec_solve`.
    pub open spec fn spec_equal(self, point: Point) -> bool {
        match self {
            FunctionType::Constant { var, val } => match var {
                Variable::X => point.x == val,
                Variable::Y => point.y == val,
            },
            FunctionType::Linear { dy, dx, c } => point.y as int == clamp_i32(
                trunc_div(dy * point.x + c, dx as int),
            ),
        }
    }

    /// Evaluate the function at `n` on axis `v`, returning the coordinate
    /// on the other axis, or `None` when the line does not meet `v == n`.
    pub fn solve(&self, v: Variable, n: i32) -> (r: Option<i32>)
        requires
            self.wf(),
        ensures
            (r is Some) == (self.spec_solve(v, n as int) is Some),
            r is Some ==> r->0 as int == self.spec_solve(v, n as int)->0,
    {
        match self {
            FunctionType::Constant { var, val } => {
                if *var == v {
                    if *val == n {
                        Some(n)
                    } else {
                        None
                    }
                } else {
                    Some(*val)
                }
            },
            FunctionType::Linear { dy, dx, c } => {
                proof {
                    assert(-0x8000_0000_0000_0000 <= (*dy as int) * (n as int)
                        <= 0x8000_0000_0000_0000) by (nonlinear_arith)
                        requires
                            -0x1_0000_0000 <= *dy as int <= 0x1_0000_0000,
                            -0x8000_0000 <= n as int <= 0x8000_0000,
                    ;
                    assert(-0x8000_0000_0000_0000 <= (n as int) * (*dx as int)
                        <= 0x8000_0000_0000_0000) by (nonlinear_arith)
                        requires
                            0 < *dx as int <= 0x1_0000_0000,
                            -0x8000_0000 <= n as int <= 0x8000_0000,
                    ;
                }
                let (num, den): (i128, i128) = match v {
                    Variable::X => (*dy * (n as i128) + *c, *dx),
                    Variable::Y => ((n as i128) * *dx - *c, *dy),
                };
                Some(clamp_to_i32(trunc_div_i128(num, den)))
            },
        }
    }

    /// Exact test that `point` lies on the infinite line (not bounded by
    /// any interval).
    pub fn equal(&self, point: Point) -> (r: bool)
        requires
            self.wf(),
        ensures
            r == self.spec_equal(point),
    {
        match self {
            FunctionType::Constant { var, val } => match var {
                Variable::X => point.x == *val,
                Variable::Y => point.y == *val,
            },
            FunctionType::Linear { .. } => match self.solve(Variable::X, point.x) {
                Some(y) => point.y == y,
                None => false,
            },
        }
    }
}

/// The function describing the line through two points.
pub open spec fn line_through(p1: Point, p2: Point) -> FunctionType {
    if p1.x == p2.x {
        FunctionType::Constant { var: Variable::X, val: p1.x }
    } else if p1.y == p2.y {
        FunctionType::Constant { var: Variable::Y, val: p1.y }
    } else {
        let a = if p1.x < p2.x {
            p1
        } else {
            p2
        };
        let b = if p1.x < p2.x {
            p2
        } else {
            p1
        };
        FunctionType::Linear {
            dy: (b.y - a.y) as i128,
            dx: (b.x - a.x) as i128,
            c: (a.y * (b.x - a.x) - (b.y - a.y) * a.x) as i128,
        }
    }
}

/// The normalized bounding box of the segment between two points.
pub open spec fn interval_of(p1: Point, p2: Point) -> Interval {
    Interval {
        x0: if p1.x <= p2.x {
            p1.x
        } else {
            p2.x
        },
        x1: if p1.x <= p2.x {
            p2.x
        } else {
            p1.x
        },
        y0: if p1.y <= p2.y {
            p1.y
        } else {
            p2.y
        },
        y1: if p1.y <= p2.y {
            p2.y
        } else {
            p1.y
        },
    }
}

/// An edge of a polygon: the algebraic line through two consecutive
/// vertices together with the bounding interval that clips the infinite
/// line to the finite segment.
#[derive(Debug, Clone, Copy, PartialEq, Eq, Structural)]
pub struct Function {
    pub function: FunctionType,
    pub interval: Interval,
}

/// The edge derived from the segment between two points.
pub open spec fn function_of(p1: Point, p2: Point) -> Function {
    Function { function: line_through(p1, p2), interval: interval_of(p1, p2) }
}

impl Function {
    pub open spec fn wf(self) -> bool {
        self.function.wf() && self.interval.wf()
    }

    pub fn new(function: FunctionType, interval: Interval) -> (r: Self)
        ensures
            r == (Function { function, interval }),
    {
        Self { function, interval }
    }

    pub fn function(&self) -> (r: &FunctionType)
        ensures
            *r == self.function,
    {
        &self.function
    }

    pub fn interval(&self) -> (r: &Interval)
        ensures
            *r == self.interval,
    {
        &self.interval
    }

    /// Whether `point` lies within this edge's bounding interval.
    pub fn within(&self, point: Point) -> (r: bool)
        ensures
            r == self.interval.contains(point),
    {
        self.interval.within(point)
    }

    /// Evaluate the edge's function; see `FunctionType::spec_solve`.
    pub fn solve(&self, v: Variable, n: i32) -> (r: Option<i32>)
        requires
            self.wf(),
        ensures
            (r is Some) == (self.function.spec_solve(v, n as int) is Some),
            r is Some ==> r->0 as int == self.function.spec_solve(v, n as int)->0,
    {
        self.function.solve(v, n)
    }

    /// Exact test that `point` lies on the edge's infinite line.
    pub fn equal(&self, point: Point) -> (r: bool)
        requires
            self.wf(),
        ensures
            r == self.function.spec_equal(point),
    {
        self.function.equal(point)
    }
}

impl vstd::std_specs::convert::FromSpecImpl<(Point, Point)> for Function {
    open spec fn obeys_from_spec() -> bool {
        true
    }

    open spec fn from_spec(pair: (Point, Point)) -> Self {
        function_of(pair.0, pair.1)
    }
}

impl From<(Point, Point)> for Function {
    /// Derive the edge between two points: a `Constant` function when the
    /// segment is vertical or horizontal, otherwise the exact `Linear`
    /// function, together with the segment's bounding interval.
    fn from(pair: (Point, Point)) -> (r: Self)
        ensures
            r.wf(),
    {
        let (p1, p2) = pair;
        let function = if p1.x == p2.x {
            FunctionType::Constant { var: Variable::X, val: p1.x }
        } else if p1.y == p2.y {
            FunctionType::Constant { var: Variable::Y, val: p1.y }
        } else {
            let (a, b) = if p1.x < p2.x {
                (p1, p2)
            } else {
                (p2, p1)
            };
            let dx: i128 = b.x as i128 - a.x as i128;
            let dy: i128 = b.y as i128 - a.y as i128;
            proof {
                assert(-0x8000_0000_0000_0000 <= (a.y as int) * (dx as int)
                    <= 0x8000_0000_0000_0000) by (nonlinear_arith)
                    requires
                        -0x8000_0000 <= a.y as int <= 0x8000_0000,
                        0 <= dx as int <= 0x1_0000_0000,
                ;
                assert(-0x8000_0000_0000_0000 <= (dy as int) * (a.x as int)
                    <= 0x8000_0000_0000_0000) by (nonlinear_arith)
                    requires
                        -0x1_0000_0000 <= dy as int <= 0x1_0000_0000,
                        -0x8000_0000 <= a.x as int <= 0x8000_0000,
                ;
            }
            let c: i128 = (a.y as i128) * dx - dy * (a.x as i128);
            FunctionType::Linear { dy, dx, c }
        };
        Function { function, interval: Interval::new((p1.x, p2.x), (p1.y, p2.y)) }
    }
}

} // verus!
