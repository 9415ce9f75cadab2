use vstd::prelude::*;
use crate::trig::{cos_deg, cos_micro, sin_deg, sin_micro, TRIG_ONE};

verus! {

/// Largest magnitude of a coordinate that the geometry keeps exact (in hundredths).
pub const COORD_BOUND: i32 = 1000000000;

/// A point of the plane in fixed point: each coordinate counts hundredths of a pixel.
///
/// Positions that denote the same lattice site compare equal because they are exact
/// on this grid, so no rounding is needed when sites are deduplicated.
#[derive(Clone, Copy, Debug, PartialEq, Eq, Structural, Hash)]
pub struct Pos(pub i32, pub i32);

/// Absolute value of an integer.
pub open spec fn abs_int(x: int) -> int {
    if x >= 0 {
        x
    } else {
        -x
    }
}

/// A coordinate that the geometry keeps exact.
pub open spec fn coord_ok(c: int) -> bool {
    -COORD_BOUND <= c <= COORD_BOUND
}

/// Both coordinates of a point are in bounds.
pub open spec fn bounded(p: Pos) -> bool {
    coord_ok(p.0 as int) && coord_ok(p.1 as int)
}

pub open spec fn add_spec(a: Pos, b: Pos) -> Pos {
    Pos((a.0 + b.0) as i32, (a.1 + b.1) as i32)
}

pub open spec fn sub_spec(a: Pos, b: Pos) -> Pos {
    Pos((a.0 - b.0) as i32, (a.1 - b.1) as i32)
}

/// Exact dot product of two vectors.
pub open spec fn dot_spec(a: Pos, b: Pos) -> int {
    a.0 * b.0 + a.1 * b.1
}

/// Dot product of `p - o` and `q - o`, computed without rounding.
pub open spec fn dot_from(o: Pos, p: Pos, q: Pos) -> int {
    (p.0 - o.0) * (q.0 - o.0) + (p.1 - o.1) * (q.1 - o.1)
}

/// Squared distance between two points.
pub open spec fn dist2(a: Pos, b: Pos) -> int {
    dot_from(b, a, a)
}

/// Orientation of the triangle `p, a, b`: positive when counter-clockwise.
pub open spec fn cross_spec(p: Pos, a: Pos, b: Pos) -> int {
    (p.0 - b.0) * (a.1 - b.1) - (a.0 - b.0) * (p.1 - b.1)
}

/// Division that rounds toward zero.
pub open spec fn trunc_div(n: int, d: int) -> int {
    if n >= 0 {
        n / d
    } else {
        -((-n) / d)
    }
}

/// A length scaled by a trigonometric ratio in millionths, rounded toward zero.
pub open spec fn scale_micro(r: int, s: int) -> int {
    trunc_div(r * s, TRIG_ONE as int)
}

/// The point at distance `r` from the origin in the direction of `a` degrees.
pub open spec fn polar_spec(a: int, r: int) -> Pos {
    Pos(scale_micro(r, cos_deg(a)) as i32, scale_micro(r, sin_deg(a)) as i32)
}

/// The point `p` with both coordinates multiplied by `num / den`, rounded toward zero.
pub open spec fn scale_spec(p: Pos, num: int, den: int) -> Pos {
    Pos(trunc_div(p.0 * num, den) as i32, trunc_div(p.1 * num, den) as i32)
}

/// A bound on the magnitude of a product.
pub proof fn lemma_mul_magnitude(a: int, b: int, ma: int, mb: int)
    requires
        -ma <= a <= ma,
        -mb <= b <= mb,
    ensures
        -(ma * mb) <= a * b <= ma * mb,
{
    assert(-(ma * mb) <= a * b <= ma * mb) by (nonlinear_arith)
        requires
            -ma <= a <= ma,
            -mb <= b <= mb,
    ;
}

proof fn lemma_scale_micro_bound(r: int, s: int)
    requires
        -(TRIG_ONE as int) <= s <= TRIG_ONE as int,
    ensures
        -abs_int(r) <= scale_micro(r, s) <= abs_int(r),
{
    let n = r * s;
    assert(-(abs_int(r) * TRIG_ONE) <= n <= abs_int(r) * TRIG_ONE) by (nonlinear_arith)
        requires
            -(TRIG_ONE as int) <= s <= TRIG_ONE as int,
            n == r * s,
            abs_int(r) >= 0,
            abs_int(r) == r || abs_int(r) == -r,
    ;
    if n >= 0 {
        vstd::arithmetic::div_mod::lemma_div_is_ordered(n, abs_int(r) * TRIG_ONE, TRIG_ONE as int);
        vstd::arithmetic::div_mod::lemma_div_multiples_vanish(abs_int(r), TRIG_ONE as int);
    } else {
        vstd::arithmetic::div_mod::lemma_div_is_ordered(-n, abs_int(r) * TRIG_ONE, TRIG_ONE as int);
        vstd::arithmetic::div_mod::lemma_div_multiples_vanish(abs_int(r), TRIG_ONE as int);
    }
}

/// `n / d` rounded toward zero, for a positive `d`.
fn div_toward_zero(n: i64, d: i64) -> (r: i64)
    requires
        d > 0,
        n > i64::MIN,
    ensures
        r == trunc_div(n as int, d as int),
{
    if n >= 0 {
        n / d
    } else {
        -((-n) / d)
    }
}

impl Pos {
    /// The origin.
    pub fn zero() -> (r: Pos)
        ensures
            r == Pos(0, 0),
    {
        Pos(0, 0)
    }

    /// The two coordinates, in hundredths.
    pub fn into_tuple(self) -> (r: (i32, i32))
        ensures
            r == (self.0, self.1),
    {
        (self.0, self.1)
    }

    /// The coordinates in hundredths, on which positions compare equal.
    pub fn round(self) -> (r: (i32, i32))
        ensures
            r == (self.0, self.1),
    {
        (self.0, self.1)
    }

    /// The sum of two points.
    pub fn add(self, o: Pos) -> (r: Pos)
        requires
            i32::MIN <= self.0 + o.0 <= i32::MAX,
            i32::MIN <= self.1 + o.1 <= i32::MAX,
        ensures
            r == add_spec(self, o),
            r.0 == self.0 + o.0,
            r.1 == self.1 + o.1,
    {
        Pos(self.0 + o.0, self.1 + o.1)
    }

    /// The difference of two points.
    pub fn sub(self, o: Pos) -> (r: Pos)
        requires
            i32::MIN <= self.0 - o.0 <= i32::MAX,
            i32::MIN <= self.1 - o.1 <= i32::MAX,
        ensures
            r == sub_spec(self, o),
            r.0 == self.0 - o.0,
            r.1 == self.1 - o.1,
    {
        Pos(self.0 - o.0, self.1 - o.1)
    }

    /// The vector multiplied by an integer.
    pub fn mul(self, k: i32) -> (r: Pos)
        requires
            i32::MIN <= self.0 * k <= i32::MAX,
            i32::MIN <= self.1 * k <= i32::MAX,
        ensures
            r.0 == self.0 * k,
            r.1 == self.1 * k,
    {
        Pos(self.0 * k, self.1 * k)
    }

    /// The vector multiplied by `num / den`, each coordinate rounded toward zero.
    pub fn scale(self, num: i32, den: i32) -> (r: Pos)
        requires
            0 < den,
            0 <= num <= den,
        ensures
            r == scale_spec(self, num as int, den as int),
    {
        proof {
            lemma_mul_magnitude(self.0 as int, num as int, 2147483648, den as int);
            lemma_mul_magnitude(self.1 as int, num as int, 2147483648, den as int);
            lemma_mul_magnitude(2147483648, den as int, 2147483648, 2147483648);
        }
        let x = self.0 as i64 * num as i64;
        let y = self.1 as i64 * num as i64;
        proof {
            lemma_scaled_in_range(self.0 as int, num as int, den as int);
            lemma_scaled_in_range(self.1 as int, num as int, den as int);
        }
        let qx = div_toward_zero(x, den as i64);
        let qy = div_toward_zero(y, den as i64);
        proof {
            lemma_trunc_div_range(x as int, den as int);
            lemma_trunc_div_range(y as int, den as int);
        }
        Pos(qx as i32, qy as i32)
    }

    /// Exact dot product of two vectors.
    pub fn dot(self, o: Pos) -> (r: i128)
        ensures
            r == dot_spec(self, o),
    {
        proof {
            lemma_mul_magnitude(self.0 as int, o.0 as int, 2147483648, 2147483648);
            lemma_mul_magnitude(self.1 as int, o.1 as int, 2147483648, 2147483648);
        }
        self.0 as i128 * o.0 as i128 + self.1 as i128 * o.1 as i128
    }

    /// Exact dot product of the vector with itself.
    pub fn dot_self(self) -> (r: i128)
        ensures
            r == dot_spec(self, self),
    {
        self.dot(self)
    }

    /// The point at distance `r` from the origin in the direction of `a` degrees.
    pub fn polar(a: i32, r: i32) -> (p: Pos)
        ensures
            p == polar_spec(a as int, r as int),
            -abs_int(r as int) <= p.0 <= abs_int(r as int),
            -abs_int(r as int) <= p.1 <= abs_int(r as int),
    {
        polar(a, r)
    }
}

proof fn lemma_scaled_in_range(c: int, num: int, den: int)
    requires
        i32::MIN <= c <= i32::MAX,
        0 <= num <= den,
    ensures
        i32::MIN * den <= c * num <= i32::MAX * den,
{
    assert(i32::MIN * num <= c * num <= i32::MAX * num) by (nonlinear_arith)
        requires i32::MIN <= c <= i32::MAX, 0 <= num;
    assert(i32::MIN * den <= i32::MIN * num) by (nonlinear_arith)
        requires num <= den;
    assert(i32::MAX * num <= i32::MAX * den) by (nonlinear_arith)
        requires num <= den;
}

/// `trunc_div(n, d)` lies between `i32::MIN` and `i32::MAX` when `n` lies between those
/// bounds times `d`.
proof fn lemma_trunc_div_range(n: int, d: int)
    requires
        d > 0,
        i32::MIN * d <= n <= i32::MAX * d,
    ensures
        i32::MIN <= trunc_div(n, d) <= i32::MAX,
{
    if n >= 0 {
        vstd::arithmetic::div_mod::lemma_div_is_ordered(n, i32::MAX * d, d);
        vstd::arithmetic::div_mod::lemma_div_multiples_vanish(i32::MAX as int, d);
        vstd::arithmetic::div_mod::lemma_div_pos_is_pos(n, d);
    } else {
        vstd::arithmetic::div_mod::lemma_div_is_ordered(-n, -(i32::MIN * d), d);
        vstd::arithmetic::div_mod::lemma_div_multiples_vanish(-(i32::MIN as int), d);
        vstd::arithmetic::div_mod::lemma_div_pos_is_pos(-n, d);
    }
}

/// The point at distance `r` from the origin in the direction of `a` degrees, with the
/// sine and cosine taken from the table in millionths.
pub fn polar(a: i32, r: i32) -> (p: Pos)
    ensures
        p == polar_spec(a as int, r as int),
        -abs_int(r as int) <= p.0 <= abs_int(r as int),
        -abs_int(r as int) <= p.1 <= abs_int(r as int),
{
    let c = cos_micro(a as i64);
    let s = sin_micro(a as i64);
    proof {
        lemma_mul_magnitude(r as int, c as int, 2147483648, 1000000);
        lemma_mul_magnitude(r as int, s as int, 2147483648, 1000000);
    }
    let x = div_toward_zero(r as i64 * c, TRIG_ONE);
    let y = div_toward_zero(r as i64 * s, TRIG_ONE);
    proof {
        lemma_scale_micro_bound(r as int, c as int);
        lemma_scale_micro_bound(r as int, s as int);
    }
    Pos(x as i32, y as i32)
}

/// Twice the signed area of the triangle `p, a, b`: positive when it turns
/// counter-clockwise, negative when clockwise, zero when the points are collinear.
pub fn orientation(p: Pos, a: Pos, b: Pos) -> (r: i128)
    ensures
        r == cross_spec(p, a, b),
{
    let px = p.0 as i128 - b.0 as i128;
    let py = p.1 as i128 - b.1 as i128;
    let ax = a.0 as i128 - b.0 as i128;
    let ay = a.1 as i128 - b.1 as i128;
    proof {
        lemma_mul_magnitude(px as int, ay as int, 4294967296, 4294967296);
        lemma_mul_magnitude(ax as int, py as int, 4294967296, 4294967296);
    }
    px * ay - ax * py
}

/// Whether the triangle `p, a, b` turns counter-clockwise (strictly).
pub fn crossprod_sign(p: Pos, a: Pos, b: Pos) -> (r: bool)
    ensures
        r == (cross_spec(p, a, b) > 0),
{
    orientation(p, a, b) > 0
}

} // verus!
