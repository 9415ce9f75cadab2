use vstd::prelude::*;
use crate::chance::draw_range;
use crate::color::{is_sample, Color, ColorItem};
use crate::frame::{inside_spec, Frame};
use crate::pos::{cross_spec, dist2, dot_from, polar, polar_spec, add_spec, orientation, Pos};
use crate::shape::within;

verus! {

/// Exact dot product of `p - o` and `q - o`.
pub fn dot_from_exec(o: Pos, p: Pos, q: Pos) -> (r: i128)
    ensures
        r == dot_from(o, p, q),
{
    let a = p.0 as i64 - o.0 as i64;
    let b = q.0 as i64 - o.0 as i64;
    let c = p.1 as i64 - o.1 as i64;
    let d = q.1 as i64 - o.1 as i64;
    proof {
        crate::pos::lemma_mul_magnitude(a as int, b as int, 4294967296, 4294967296);
        crate::pos::lemma_mul_magnitude(c as int, d as int, 4294967296, 4294967296);
    }
    a as i128 * b as i128 + c as i128 * d as i128
}

impl Pos {
    /// A point drawn uniformly on the hundredth grid of the frame, borders included.
    pub fn random(f: &Frame, rng: &mut rand::rngs::ThreadRng) -> (r: Pos)
        requires
            f.wf(),
        ensures
            inside_spec(*f, r),
    {
        let x = draw_range(rng, 0, 100 * f.w + 1);
        let y = draw_range(rng, 0, 100 * f.h + 1);
        Pos(x, y)
    }
}

/// A point test with a color: the capability that every paint region offers.
pub trait Contains {
    /// Whether the region holds `p`.
    spec fn covers(&self, p: Pos) -> bool;

    /// The colors that the region paints with.
    spec fn palette(&self) -> ColorItem;

    /// A fresh sample of the region's colors when it holds `p`, `None` otherwise.
    fn contains(&self, p: Pos, rng: &mut rand::rngs::ThreadRng) -> (r: Option<Color>)
        requires
            self.palette().wf(),
        ensures
            r is Some <==> self.covers(p),
            r matches Some(c) ==> is_sample(self.palette(), c),
    ;
}

/// A disc, open: its boundary circle is outside.
#[derive(Clone, Copy, Debug, PartialEq, Eq, Structural)]
pub struct Disc {
    pub center: Pos,
    pub radius: i32,
    pub color: ColorItem,
}

/// The half-plane of the points on the far side of `limit` from `reference`.
#[derive(Clone, Copy, Debug, PartialEq, Eq, Structural)]
pub struct HalfPlane {
    pub limit: Pos,
    pub reference: Pos,
    pub color: ColorItem,
}

/// A closed triangle: its edges and vertices count as inside, whatever the winding, and
/// a degenerate triangle holds the segment that its vertices span.
#[derive(Clone, Copy, Debug, PartialEq, Eq, Structural)]
pub struct Triangle {
    pub a: Pos,
    pub b: Pos,
    pub c: Pos,
    pub color: ColorItem,
}

/// The open band between the lines through `limit` and `reference` perpendicular to
/// the segment that joins them.
#[derive(Clone, Copy, Debug, PartialEq, Eq, Structural)]
pub struct Stripe {
    pub limit: Pos,
    pub reference: Pos,
    pub color: ColorItem,
}

pub open spec fn disc_covers(d: Disc, p: Pos) -> bool {
    dist2(p, d.center) < d.radius * d.radius
}

pub open spec fn half_plane_covers(h: HalfPlane, p: Pos) -> bool {
    dot_from(h.limit, p, h.reference) < 0
}

pub open spec fn triangle_covers(t: Triangle, p: Pos) -> bool {
    let d1 = cross_spec(p, t.a, t.b);
    let d2 = cross_spec(p, t.b, t.c);
    let d3 = cross_spec(p, t.c, t.a);
    let has_pos = d1 > 0 || d2 > 0 || d3 > 0;
    let has_neg = d1 < 0 || d2 < 0 || d3 < 0;
    !(has_pos && has_neg)
}

pub open spec fn stripe_covers(s: Stripe, p: Pos) -> bool {
    dot_from(s.limit, p, s.reference) > 0 && dot_from(s.reference, p, s.limit) > 0
}

impl Contains for Disc {
    open spec fn covers(&self, p: Pos) -> bool {
        disc_covers(*self, p)
    }

    open spec fn palette(&self) -> ColorItem {
        self.color
    }

    fn contains(&self, p: Pos, rng: &mut rand::rngs::ThreadRng) -> (r: Option<Color>) {
        let d = dot_from_exec(self.center, p, p);
        let r = self.radius as i128;
        proof {
            crate::pos::lemma_mul_magnitude(r as int, r as int, 2147483648, 2147483648);
        }
        if d < r * r {
            Some(self.color.sample(rng))
        } else {
            None
        }
    }
}

impl Contains for HalfPlane {
    open spec fn covers(&self, p: Pos) -> bool {
        half_plane_covers(*self, p)
    }

    open spec fn palette(&self) -> ColorItem {
        self.color
    }

    fn contains(&self, p: Pos, rng: &mut rand::rngs::ThreadRng) -> (r: Option<Color>) {
        if dot_from_exec(self.limit, p, self.reference) < 0 {
            Some(self.color.sample(rng))
        } else {
            None
        }
    }
}

impl Contains for Triangle {
    open spec fn covers(&self, p: Pos) -> bool {
        triangle_covers(*self, p)
    }

    open spec fn palette(&self) -> ColorItem {
        self.color
    }

    fn contains(&self, p: Pos, rng: &mut rand::rngs::ThreadRng) -> (r: Option<Color>) {
        let d1 = orientation(p, self.a, self.b);
        let d2 = orientation(p, self.b, self.c);
        let d3 = orientation(p, self.c, self.a);
        let has_pos = d1 > 0 || d2 > 0 || d3 > 0;
        let has_neg = d1 < 0 || d2 < 0 || d3 < 0;
        if !(has_neg && has_pos) {
            Some(self.color.sample(rng))
        } else {
            None
        }
    }
}

impl Contains for Stripe {
    open spec fn covers(&self, p: Pos) -> bool {
        stripe_covers(*self, p)
    }

    open spec fn palette(&self) -> ColorItem {
        self.color
    }

    fn contains(&self, p: Pos, rng: &mut rand::rngs::ThreadRng) -> (r: Option<Color>) {
        let dotprod1 = dot_from_exec(self.limit, p, self.reference);
        let dotprod2 = dot_from_exec(self.reference, p, self.limit);
        if dotprod1 > 0 && dotprod2 > 0 {
            Some(self.color.sample(rng))
        } else {
            None
        }
    }
}

/// An arithmetic spiral around `center` whose arms are `width` apart: the points at
/// an even number of half-turns of unwinding.
#[derive(Clone, Copy, Debug, PartialEq, Eq, Structural)]
pub struct Spiral {
    pub center: Pos,
    pub width: i32,
    pub color: ColorItem,
}

/// `r` is the integer square root of `n`.
pub open spec fn is_isqrt(n: int, r: int) -> bool {
    0 <= r && r * r <= n < (r + 1) * (r + 1)
}

/// The integer square root of a non-negative `n`.
pub open spec fn isqrt_spec(n: int) -> int {
    choose|r: int| is_isqrt(n, r)
}

/// How far the direction of `d` degrees goes along the vector `(x, y)`, in millionths.
pub open spec fn angle_score(x: int, y: int, d: int) -> int {
    crate::trig::cos_deg(d) * x + crate::trig::sin_deg(d) * y
}

/// `d` is the first whole degree in `-179..=180` whose direction is closest to `(x, y)`.
pub open spec fn is_nearest_angle(x: int, y: int, d: int) -> bool {
    &&& -179 <= d <= 180
    &&& forall|e: int| -179 <= e <= 180 ==> #[trigger] angle_score(x, y, e) <= angle_score(x, y, d)
    &&& forall|e: int| -179 <= e < d ==> #[trigger] angle_score(x, y, e) < angle_score(x, y, d)
}

/// The whole degree closest to the direction of the vector `(x, y)`.
pub open spec fn angle_spec(x: int, y: int) -> int {
    choose|d: int| is_nearest_angle(x, y, d)
}

/// Floor division by a positive divisor.
pub open spec fn floor_div(n: int, m: int) -> int {
    n / m
}

/// How many half-turns of the spiral lie between its center and `p`, as a real number
/// `radius / width + angle / 180` scaled by `180 * width`.
pub open spec fn spiral_phase(s: Spiral, p: Pos) -> int {
    let di = s.center.0 - p.0;
    let dj = s.center.1 - p.1;
    180 * isqrt_spec(di * di + dj * dj) + angle_spec(dj, di) * s.width
}

pub open spec fn spiral_covers(s: Spiral, p: Pos) -> bool {
    floor_div(spiral_phase(s, p), 180 * s.width) % 2 == 0
}

proof fn lemma_isqrt_unique(n: int, r: int)
    requires
        is_isqrt(n, r),
    ensures
        isqrt_spec(n) == r,
{
    let q = isqrt_spec(n);
    assert(is_isqrt(n, q));
    if q < r {
        assert((q + 1) * (q + 1) <= r * r) by (nonlinear_arith)
            requires 0 <= q, q + 1 <= r;
    } else if r < q {
        assert((r + 1) * (r + 1) <= q * q) by (nonlinear_arith)
            requires 0 <= r, r + 1 <= q;
    }
}

proof fn lemma_angle_unique(x: int, y: int, d: int)
    requires
        is_nearest_angle(x, y, d),
    ensures
        angle_spec(x, y) == d,
{
    let e = angle_spec(x, y);
    assert(is_nearest_angle(x, y, e));
    if e < d {
        assert(angle_score(x, y, e) < angle_score(x, y, d));
        assert(angle_score(x, y, d) <= angle_score(x, y, e));
    } else if d < e {
        assert(angle_score(x, y, d) < angle_score(x, y, e));
        assert(angle_score(x, y, e) <= angle_score(x, y, d));
    }
}

/// The integer square root of `n`, by bisection.
pub fn isqrt(n: u128) -> (r: u128)
    requires
        n < 73786976294838206464,
    ensures
        is_isqrt(n as int, r as int),
        r as int == isqrt_spec(n as int),
{
    let mut lo: u128 = 0;
    let mut hi: u128 = 8589934592;
    while hi - lo > 1
        invariant
            lo < hi <= 8589934592,
            lo * lo <= n,
            n < hi * hi,
        decreases hi - lo,
    {
        let mid = lo + (hi - lo) / 2;
        proof {
            assert(mid * mid <= 8589934592 * 8589934592) by (nonlinear_arith)
                requires mid < 8589934592;
        }
        if mid * mid <= n {
            lo = mid;
        } else {
            hi = mid;
        }
    }
    proof {
        assert(hi == lo + 1);
        lemma_isqrt_unique(n as int, lo as int);
    }
    lo
}

fn angle_score_exec(x: i64, y: i64, d: i64) -> (r: i64)
    requires
        -4294967296 <= x <= 4294967296,
        -4294967296 <= y <= 4294967296,
        -180 <= d <= 180,
    ensures
        r == angle_score(x as int, y as int, d as int),
{
    let c = crate::trig::cos_micro(d);
    let s = crate::trig::sin_micro(d);
    proof {
        crate::pos::lemma_mul_magnitude(c as int, x as int, 1000000, 4294967296);
        crate::pos::lemma_mul_magnitude(s as int, y as int, 1000000, 4294967296);
    }
    c * x + s * y
}

/// The whole degree in `-179..=180` closest to the direction of `(x, y)`.
pub fn nearest_angle(x: i64, y: i64) -> (d: i64)
    requires
        -4294967296 <= x <= 4294967296,
        -4294967296 <= y <= 4294967296,
    ensures
        is_nearest_angle(x as int, y as int, d as int),
        d == angle_spec(x as int, y as int),
{
    let mut best: i64 = -179;
    let mut best_score = angle_score_exec(x, y, -179);
    let mut d: i64 = -178;
    while d <= 180
        invariant
            -4294967296 <= x <= 4294967296,
            -4294967296 <= y <= 4294967296,
            -178 <= d <= 181,
            -179 <= best < d,
            best_score == angle_score(x as int, y as int, best as int),
            forall|e: int| -179 <= e < d ==> #[trigger] angle_score(x as int, y as int, e) <= best_score,
            forall|e: int| -179 <= e < best ==> #[trigger] angle_score(x as int, y as int, e) < best_score,
        decreases 181 - d,
    {
        let s = angle_score_exec(x, y, d);
        if s > best_score {
            best = d;
            best_score = s;
        }
        d += 1;
    }
    proof {
        lemma_angle_unique(x as int, y as int, best as int);
    }
    best
}

impl Contains for Spiral {
    open spec fn covers(&self, p: Pos) -> bool {
        self.width > 0 && spiral_covers(*self, p)
    }

    open spec fn palette(&self) -> ColorItem {
        self.color
    }

    fn contains(&self, p: Pos, rng: &mut rand::rngs::ThreadRng) -> (r: Option<Color>) {
        if self.width <= 0 {
            return None;
        }
        let di = self.center.0 as i64 - p.0 as i64;
        let dj = self.center.1 as i64 - p.1 as i64;
        proof {
            crate::pos::lemma_mul_magnitude(di as int, di as int, 4294967296, 4294967296);
            crate::pos::lemma_mul_magnitude(dj as int, dj as int, 4294967296, 4294967296);
        }
        let n2: i128 = di as i128 * di as i128 + dj as i128 * dj as i128;
        proof {
            assert(0 <= di * di) by (nonlinear_arith);
            assert(0 <= dj * dj) by (nonlinear_arith);
            assert(n2 <= 36893488147419103232);
        }
        let n = n2 as u128;
        let radius = isqrt(n);
        let theta = nearest_angle(dj, di);
        proof {
            assert(radius * radius <= n);
            assert(radius <= 8589934592) by (nonlinear_arith)
                requires radius * radius <= n, n <= 36893488147419103232u128, radius >= 0;
        }
        proof {
            crate::pos::lemma_mul_magnitude(theta as int, self.width as int, 180, 2147483648);
        }
        let phase: i128 = 180 * radius as i128 + theta as i128 * self.width as i128;
        let m: i128 = 180 * self.width as i128;
        let q: i128 = if phase >= 0 { phase / m } else { -((-phase + m - 1) / m) };
        proof {
            assert(phase == spiral_phase(*self, p));
            if phase < 0 {
                lemma_floor_of_negative(phase as int, m as int);
            }
        }
        let a: i128 = if q < 0 { -q } else { q };
        if a % 2 == 0 {
            Some(self.color.sample(rng))
        } else {
            None
        }
    }
}

proof fn lemma_floor_of_negative(n: int, m: int)
    requires
        n < 0,
        m > 0,
    ensures
        -((-n + m - 1) / m) == n / m,
{
    vstd::arithmetic::div_mod::lemma_fundamental_div_mod(n, m);
    vstd::arithmetic::div_mod::lemma_fundamental_div_mod(-n + m - 1, m);
    let q = n / m;
    let r = n % m;
    let q2 = (-n + m - 1) / m;
    let r2 = (-n + m - 1) % m;
    assert(0 <= r < m);
    assert(0 <= r2 < m);
    assert(q + q2 == 0) by (nonlinear_arith)
        requires
            n == m * q + r,
            -n + m - 1 == m * q2 + r2,
            0 <= r < m,
            0 <= r2 < m,
            m > 0,
    ;
}

/// A paint region of any kind.
#[derive(Clone, Copy, Debug, PartialEq, Eq, Structural)]
pub enum Region {
    Disc(Disc),
    HalfPlane(HalfPlane),
    Triangle(Triangle),
    Spiral(Spiral),
    Stripe(Stripe),
}

impl Contains for Region {
    open spec fn covers(&self, p: Pos) -> bool {
        match *self {
            Region::Disc(d) => d.covers(p),
            Region::HalfPlane(h) => h.covers(p),
            Region::Triangle(t) => t.covers(p),
            Region::Spiral(s) => s.covers(p),
            Region::Stripe(s) => s.covers(p),
        }
    }

    open spec fn palette(&self) -> ColorItem {
        match *self {
            Region::Disc(d) => d.color,
            Region::HalfPlane(h) => h.color,
            Region::Triangle(t) => t.color,
            Region::Spiral(s) => s.color,
            Region::Stripe(s) => s.color,
        }
    }

    fn contains(&self, p: Pos, rng: &mut rand::rngs::ThreadRng) -> (r: Option<Color>) {
        match self {
            Region::Disc(d) => d.contains(p, rng),
            Region::HalfPlane(h) => h.contains(p, rng),
            Region::Triangle(t) => t.contains(p, rng),
            Region::Spiral(s) => s.contains(p, rng),
            Region::Stripe(s) => s.contains(p, rng),
        }
    }
}

/// The index of the first region of `items` that holds `p`, if any.
pub open spec fn first_cover(items: Seq<Region>, p: Pos) -> Option<int>
    decreases items.len(),
{
    if items.len() == 0 {
        None
    } else {
        match first_cover(items.drop_last(), p) {
            Some(k) => Some(k),
            None => if items.last().covers(p) {
                Some(items.len() - 1)
            } else {
                None
            },
        }
    }
}

proof fn lemma_first_cover_prefix(items: Seq<Region>, p: Pos, i: int)
    requires
        0 <= i < items.len(),
        first_cover(items.take(i), p) is None,
        !items[i].covers(p),
    ensures
        first_cover(items.take(i + 1), p) is None,
{
    assert(items.take(i + 1).drop_last() == items.take(i));
}

proof fn lemma_first_cover_found(items: Seq<Region>, p: Pos, i: int)
    requires
        0 <= i < items.len(),
        first_cover(items.take(i), p) is None,
        items[i].covers(p),
    ensures
        first_cover(items, p) == Some(i),
    decreases items.len(),
{
    if i == items.len() - 1 {
        assert(items.drop_last() == items.take(i));
    } else {
        assert(items.drop_last().take(i) == items.take(i));
        lemma_first_cover_found(items.drop_last(), p, i);
    }
}

/// The paint regions over a background, in priority order: where regions overlap, the
/// earliest one paints.
#[derive(Clone, Debug)]
pub struct Scene {
    pub bg: ColorItem,
    pub items: Vec<Region>,
}

impl Scene {
    /// Every color source has a valid deviation and weight.
    pub open spec fn wf(&self) -> bool {
        &&& self.bg.wf()
        &&& forall|i: int| 0 <= i < self.items@.len() ==> (#[trigger] self.items@[i]).palette().wf()
    }

    /// The color of `p`: a fresh sample of the first region that holds it, or of the
    /// background when none does.
    pub fn color(&self, p: Pos, rng: &mut rand::rngs::ThreadRng) -> (r: Color)
        requires
            self.wf(),
        ensures
            match first_cover(self.items@, p) {
                Some(k) => is_sample(self.items@[k].palette(), r),
                None => is_sample(self.bg, r),
            },
    {
        let mut i: usize = 0;
        while i < self.items.len()
            invariant
                self.wf(),
                i <= self.items@.len(),
                first_cover(self.items@.take(i as int), p) is None,
            decreases self.items@.len() - i,
        {
            let item = &self.items[i];
            assert(item.palette().wf());
            match item.contains(p, rng) {
                Some(c) => {
                    proof {
                        lemma_first_cover_found(self.items@, p, i as int);
                    }
                    return c;
                }
                None => {
                    proof {
                        lemma_first_cover_prefix(self.items@, p, i as int);
                    }
                }
            }
            i += 1;
        }
        assert(self.items@.take(i as int) == self.items@);
        self.bg.sample(rng)
    }
}

impl Disc {
    /// A disc centered at a random point of the frame, with radius
    /// `(u * size_hint / 100 + 1/10)` times the shorter side for a uniform `u` in `[0, 1)`
    /// (drawn in thousandths; `size_hint` is a percentage).
    pub fn random(rng: &mut rand::rngs::ThreadRng, f: &Frame, color: ColorItem, size_hint: i32) -> (r: Disc)
        requires
            f.wf(),
            0 <= size_hint <= 100,
        ensures
            inside_spec(*f, r.center),
            r.color == color,
            exists|u: int| 0 <= u < 1000 && r.radius == #[trigger] disc_radius(*f, u, size_hint as int),
    {
        let center = Pos::random(f, rng);
        let u = draw_range(rng, 0, 1000);
        let m: i64 = if f.h < f.w { f.h as i64 } else { f.w as i64 };
        proof {
            assert(0 <= u * size_hint <= 1000 * 100) by (nonlinear_arith)
                requires 0 <= u < 1000, 0 <= size_hint <= 100;
            assert(m * (u * size_hint + 10000) <= 1000000 * 110000) by (nonlinear_arith)
                requires 0 < m <= 1000000, 0 <= u * size_hint + 10000 <= 110000;
            assert(0 <= m * (u * size_hint + 10000)) by (nonlinear_arith)
                requires 0 < m, 0 <= u * size_hint + 10000;
        }
        let radius = (m * (u as i64 * size_hint as i64 + 10000) / 1000) as i32;
        assert(radius == disc_radius(*f, u as int, size_hint as int));
        Disc { center, radius, color }
    }
}

/// The radius (hundredths) of a random disc for the draw `u` in thousandths.
pub open spec fn disc_radius(f: Frame, u: int, size_hint: int) -> int {
    min_side(f) * (u * size_hint + 10000) / 1000
}

/// The shorter side of the frame, in pixels.
pub open spec fn min_side(f: Frame) -> int {
    if f.h < f.w {
        f.h as int
    } else {
        f.w as int
    }
}

impl HalfPlane {
    /// The half-plane bounded at `limit` whose reference point lies 100 pixels from
    /// `limit` in a direction drawn in `[indic - var, indic + var)` degrees.
    pub fn random(rng: &mut rand::rngs::ThreadRng, limit: Pos, indic: i32, var: i32, color: ColorItem) -> (r: HalfPlane)
        requires
            within(limit, 9 * crate::shape::SPAN),
            0 < var,
            i32::MIN <= indic - var,
            indic + var <= i32::MAX,
        ensures
            r.limit == limit,
            r.color == color,
            exists|a: int|
                indic - var <= a < indic + var && r.reference == add_spec(limit, #[trigger] polar_spec(a, 10000)),
    {
        let a = draw_range(rng, indic - var, indic + var);
        HalfPlane { limit, reference: limit.add(polar(a, 10000)), color }
    }
}

/// The vertices of the triangle inscribed in `circ` at angle `t0`, then `t1` and `t2`
/// degrees further on.
pub open spec fn inscribed(circ: Disc, t0: int, t1: int, t2: int) -> (Pos, Pos, Pos) {
    (
        add_spec(circ.center, polar_spec(t0, circ.radius as int)),
        add_spec(circ.center, polar_spec(t0 + t1, circ.radius as int)),
        add_spec(circ.center, polar_spec(t0 + t1 + t2, circ.radius as int)),
    )
}

impl Triangle {
    /// A triangle inscribed in the circle of `circ`: the first vertex at a random angle,
    /// each next one between 80 and 150 degrees further on.
    pub fn random(rng: &mut rand::rngs::ThreadRng, circ: Disc) -> (r: Triangle)
        requires
            within(circ.center, 8 * crate::shape::SPAN),
            0 <= circ.radius <= crate::shape::SPAN,
        ensures
            r.color == circ.color,
            exists|t0: int, t1: int, t2: int|
                0 <= t0 < 360 && 80 <= t1 < 150 && 80 <= t2 < 150 && (r.a, r.b, r.c)
                    == #[trigger] inscribed(circ, t0, t1, t2),
    {
        let theta0 = draw_range(rng, 0, 360);
        let theta1 = draw_range(rng, 80, 150);
        let theta2 = draw_range(rng, 80, 150);
        let r = Triangle {
            a: circ.center.add(polar(theta0, circ.radius)),
            b: circ.center.add(polar(theta0 + theta1, circ.radius)),
            c: circ.center.add(polar(theta0 + theta1 + theta2, circ.radius)),
            color: circ.color,
        };
        assert((r.a, r.b, r.c) == inscribed(circ, theta0 as int, theta1 as int, theta2 as int));
        r
    }
}

impl Spiral {
    /// A spiral of arm spacing `width` centered at a random point of the frame.
    pub fn random(rng: &mut rand::rngs::ThreadRng, f: &Frame, color: ColorItem, width: i32) -> (r: Spiral)
        requires
            f.wf(),
        ensures
            inside_spec(*f, r.center),
            r.width == width,
            r.color == color,
    {
        Spiral { center: Pos::random(f, rng), width, color }
    }
}

impl Stripe {
    /// A stripe of width `width` from a random point of the frame, in a random direction
    /// (whole degrees).
    pub fn random(rng: &mut rand::rngs::ThreadRng, f: &Frame, color: ColorItem, width: i32) -> (r: Stripe)
        requires
            f.wf(),
            0 <= width <= crate::shape::SPAN,
        ensures
            inside_spec(*f, r.limit),
            r.color == color,
            exists|a: int| 0 <= a < 360 && r.reference == add_spec(r.limit, #[trigger] polar_spec(a, width as int)),
    {
        let limit = Pos::random(f, rng);
        let a = draw_range(rng, 0, 360);
        let reference = limit.add(polar(a, width));
        Stripe { limit, reference, color }
    }
}

} // verus!
