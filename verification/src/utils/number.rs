use vstd::prelude::*;

verus! {

/// Lengths, coordinates and light intensities are whole numbers of millionths:
/// the value `UNIT` stands for one tile edge, or for full light.
pub const UNIT: i64 = 1_000_000;

/// The absolute value of an integer.
pub open spec fn magnitude(a: int) -> int {
    if a < 0 {
        -a
    } else {
        a
    }
}

/// The quotient of `a` by `b`, rounded toward zero; zero where `b` is zero.
pub open spec fn quotient(a: int, b: int) -> int {
    if b == 0 {
        0
    } else if a >= 0 && b > 0 {
        a / b
    } else if a >= 0 {
        -(a / (-b))
    } else if b > 0 {
        -((-a) / b)
    } else {
        (-a) / (-b)
    }
}

/// The product of `a` and `b` divided by `c`, rounded toward zero; zero where
/// `c` is zero.
pub open spec fn ratio(a: int, b: int, c: int) -> int {
    quotient(a * b, c)
}

/// `value` limited to the range from `low` to `high`; `high` wins where the
/// two bounds cross.
pub open spec fn clamped(value: int, low: int, high: int) -> int {
    if value > high || low > high {
        high
    } else if value < low {
        low
    } else {
        value
    }
}

/// `value` limited to what a coordinate can hold.
pub open spec fn saturated(value: int) -> int {
    clamped(value, i64::MIN as int, i64::MAX as int)
}

/// Whether `root` is the square root of `value`, rounded down.
pub open spec fn is_root(value: int, root: int) -> bool {
    &&& 0 <= root
    &&& root * root <= value
    &&& value < (root + 1) * (root + 1)
}

/// The square root of `value`, rounded down.
pub open spec fn root(value: int) -> int {
    choose|r: int| is_root(value, r)
}

/// A number has at most one rounded square root.
pub proof fn lemma_root_unique(value: int, a: int, b: int)
    requires
        is_root(value, a),
        is_root(value, b),
    ensures
        a == b,
{
    if a < b {
        assert((a + 1) * (a + 1) <= b * b) by (nonlinear_arith)
            requires
                0 <= a,
                a + 1 <= b,
        ;
    }
    if b < a {
        assert((b + 1) * (b + 1) <= a * a) by (nonlinear_arith)
            requires
                0 <= b,
                b + 1 <= a,
        ;
    }
}

/// Whatever passes for the rounded square root of `value` is `root(value)`.
pub proof fn lemma_root_is(value: int, r: int)
    requires
        is_root(value, r),
    ensures
        root(value) == r,
{
    lemma_root_unique(value, r, root(value));
}

/// Every number from zero on has a rounded square root.
pub proof fn lemma_root_exists(value: int)
    requires
        0 <= value,
    ensures
        is_root(value, root(value)),
    decreases value,
{
    if value == 0 {
        assert(is_root(0, 0));
    } else {
        lemma_root_exists(value - 1);
        let below = root(value - 1);
        if (below + 1) * (below + 1) <= value {
            assert((below + 2) * (below + 2) > value) by (nonlinear_arith)
                requires
                    0 <= below,
                    value - 1 < (below + 1) * (below + 1),
            ;
            assert(is_root(value, below + 1));
        } else {
            assert(is_root(value, below));
        }
    }
}

/// A larger number has no smaller rounded square root.
pub proof fn lemma_root_monotonic(a: int, ra: int, b: int, rb: int)
    requires
        is_root(a, ra),
        is_root(b, rb),
        a <= b,
    ensures
        ra <= rb,
{
    if rb < ra {
        assert((rb + 1) * (rb + 1) <= ra * ra) by (nonlinear_arith)
            requires
                0 <= rb,
                rb + 1 <= ra,
        ;
    }
}

/// The square root of `value`, rounded down.
pub fn integer_sqrt(value: u128) -> (r: u64)
    ensures
        is_root(value as int, r as int),
        r as int == root(value as int),
{
    let mut low: u128 = 0;
    let mut high: u128 = 0x1_0000_0000_0000_0000;
    assert(0x1_0000_0000_0000_0000int * 0x1_0000_0000_0000_0000int
        == 0x1_0000_0000_0000_0000_0000_0000_0000_0000int) by (nonlinear_arith);
    while high - low > 1
        invariant
            low < high <= 0x1_0000_0000_0000_0000,
            low * low <= value,
            value < high * high,
        decreases high - low,
    {
        let middle: u128 = low + (high - low) / 2;
        assert(middle * middle < 0x1_0000_0000_0000_0000_0000_0000_0000_0000) by (nonlinear_arith)
            requires
                0 <= middle < 0x1_0000_0000_0000_0000,
        ;
        if middle * middle <= value {
            low = middle;
        } else {
            high = middle;
        }
    }
    proof {
        lemma_root_is(value as int, low as int);
    }
    low as u64
}

/// The quotient of `a` by `b`, rounded toward zero; zero where `b` is zero.
pub(crate) fn divide(a: i128, b: i128) -> (q: i128)
    requires
        a > i128::MIN,
    ensures
        q == quotient(a as int, b as int),
        magnitude(q as int) <= magnitude(a as int),
{
    proof {
        lemma_quotient_bound(a as int, b as int);
    }
    if b > 0 {
        a / b
    } else if b == i128::MIN || b == 0 {
        0
    } else {
        let flipped: i128 = -a;
        let divisor: i128 = -b;
        flipped / divisor
    }
}

/// `value` limited to what a coordinate can hold.
pub fn saturate(value: i128) -> (limited: i64)
    ensures
        limited == saturated(value as int),
{
    if value > i64::MAX as i128 {
        i64::MAX
    } else if value < i64::MIN as i128 {
        i64::MIN
    } else {
        value as i64
    }
}

/// How far `value` lies above the last whole number of tiles that is not
/// above it.
pub fn fraction(value: i64) -> (part: i64)
    ensures
        part == value as int % UNIT as int,
        0 <= part < UNIT,
{
    let rest: i64 = value % UNIT;
    if rest < 0 {
        rest + UNIT
    } else {
        rest
    }
}

/// The product of `a` and `b` divided by `c`, rounded toward zero; zero where
/// `c` is zero.
pub fn multiply_divide(a: i64, b: i64, c: i64) -> (q: i128)
    ensures
        q == ratio(a as int, b as int, c as int),
{
    assert(-0x4000_0000_0000_0000_0000_0000_0000_0000 <= a * b
        <= 0x4000_0000_0000_0000_0000_0000_0000_0000) by (nonlinear_arith)
        requires
            -0x8000_0000_0000_0000 <= a < 0x8000_0000_0000_0000,
            -0x8000_0000_0000_0000 <= b < 0x8000_0000_0000_0000,
    ;
    let product: i128 = (a as i128) * (b as i128);
    divide(product, c as i128)
}

/// A quotient is no larger than what was divided, and has the sign that the
/// two signs give.
pub proof fn lemma_quotient_bound(a: int, b: int)
    ensures
        magnitude(quotient(a, b)) <= magnitude(a),
        quotient(a, b) != 0 ==> ((quotient(a, b) > 0) <==> ((a < 0) == (b < 0))),
        magnitude(b) > magnitude(a) ==> quotient(a, b) == 0,
{
    if b != 0 {
        let m = magnitude(a);
        let d = magnitude(b);
        assert(0 <= m / d <= m) by (nonlinear_arith)
            requires
                m >= 0,
                d >= 1,
        ;
        if d > m {
            assert(m / d == 0) by (nonlinear_arith)
                requires
                    0 <= m < d,
            ;
        }
    }
}

} // verus!
