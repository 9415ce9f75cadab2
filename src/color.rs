use vstd::prelude::*;
use crate::chance::draw_range;

verus! {

/// A color as three 8-bit channels: red, green, blue.
#[derive(Clone, Copy, Debug, PartialEq, Eq, Structural, Hash)]
pub struct Color(pub u8, pub u8, pub u8);

/// A channel value pushed back into `0..=255`.
pub open spec fn clamp_channel(c: int) -> int {
    if c < 0 {
        0
    } else if c > 255 {
        255
    } else {
        c
    }
}

/// One channel of `c` moved toward `t` with weight `w`: `(c + w * t) / (w + 1)`.
pub open spec fn blend_channel(c: int, t: int, w: int) -> int {
    (c + w * t) / (w + 1)
}

/// The color `c` with each channel moved by the given amount and clamped.
pub open spec fn shift_spec(c: Color, dr: int, dg: int, db: int) -> Color {
    Color(
        clamp_channel(c.0 + dr) as u8,
        clamp_channel(c.1 + dg) as u8,
        clamp_channel(c.2 + db) as u8,
    )
}

/// The weighted mean point of `c` and the theme `t`: `t` counts `w` times, `c` once.
pub open spec fn meanpoint_spec(c: Color, t: Color, w: int) -> Color {
    Color(
        blend_channel(c.0 as int, t.0 as int, w) as u8,
        blend_channel(c.1 as int, t.1 as int, w) as u8,
        blend_channel(c.2 as int, t.2 as int, w) as u8,
    )
}

/// Absolute difference of two channels.
pub open spec fn channel_gap(a: int, b: int) -> int {
    if a >= b {
        a - b
    } else {
        b - a
    }
}

fn clamp_sum(c: u8, d: i32) -> (r: u8)
    requires
        -255 <= d <= 255,
    ensures
        r == clamp_channel(c + d),
{
    let s: i32 = c as i32 + d;
    if s < 0 {
        0
    } else if s > 255 {
        255
    } else {
        s as u8
    }
}

proof fn lemma_blend_in_range(c: int, t: int, w: int)
    requires
        0 <= c <= 255,
        0 <= t <= 255,
        0 <= w,
    ensures
        0 <= blend_channel(c, t, w) <= 255,
{
    assert(0 <= c + w * t <= 255 * (w + 1)) by (nonlinear_arith)
        requires 0 <= c <= 255, 0 <= t <= 255, 0 <= w;
    vstd::arithmetic::div_mod::lemma_div_is_ordered(c + w * t, 255 * (w + 1), w + 1);
    vstd::arithmetic::div_mod::lemma_div_multiples_vanish(255, w + 1);
    vstd::arithmetic::div_mod::lemma_div_pos_is_pos(c + w * t, w + 1);
}

fn blend(c: u8, t: u8, w: i32) -> (r: u8)
    requires
        0 <= w < i32::MAX,
    ensures
        r == blend_channel(c as int, t as int, w as int),
{
    proof {
        lemma_blend_in_range(c as int, t as int, w as int);
        assert(0 <= w as int * t as int <= 255 * (w as int)) by (nonlinear_arith)
            requires 0 <= w, t <= 255;
    }
    let n: i64 = c as i64 + w as i64 * t as i64;
    (n / (w as i64 + 1)) as u8
}

impl Color {
    /// A color with every channel drawn uniformly.
    pub fn random(rng: &mut rand::rngs::ThreadRng) -> (r: Color) {
        let r = draw_range(rng, 0, 256);
        let g = draw_range(rng, 0, 256);
        let b = draw_range(rng, 0, 256);
        Color(r as u8, g as u8, b as u8)
    }

    /// Each channel moved by the given amount, clamped to `0..=255`.
    pub fn shift(self, dr: i32, dg: i32, db: i32) -> (r: Color)
        requires
            -255 <= dr <= 255,
            -255 <= dg <= 255,
            -255 <= db <= 255,
        ensures
            r == shift_spec(self, dr as int, dg as int, db as int),
    {
        Color(clamp_sum(self.0, dr), clamp_sum(self.1, dg), clamp_sum(self.2, db))
    }

    /// Each channel moved by a uniform draw in `-deviation..=deviation`, clamped.
    pub fn variate(self, rng: &mut rand::rngs::ThreadRng, deviation: i32) -> (r: Color)
        requires
            0 <= deviation <= 255,
        ensures
            exists|dr: int, dg: int, db: int|
                -deviation <= dr <= deviation && -deviation <= dg <= deviation && -deviation
                    <= db <= deviation && r == shift_spec(self, dr, dg, db),
    {
        let dr = draw_range(rng, -deviation, deviation + 1);
        let dg = draw_range(rng, -deviation, deviation + 1);
        let db = draw_range(rng, -deviation, deviation + 1);
        self.shift(dr, dg, db)
    }

    /// The weighted mean point with the theme `t`, which counts `weight` times.
    pub fn meanpoint(self, t: Color, weight: i32) -> (r: Color)
        requires
            0 <= weight < i32::MAX,
        ensures
            r == meanpoint_spec(self, t, weight as int),
    {
        Color(blend(self.0, t.0, weight), blend(self.1, t.1, weight), blend(self.2, t.2, weight))
    }
}

/// A stochastic fill: a base shade, perturbed by up to `deviation` on each channel and
/// then pulled toward `theme` with weight `weight`.
#[derive(Clone, Copy, Debug, PartialEq, Eq, Structural)]
pub struct ColorItem {
    pub shade: Color,
    pub deviation: i32,
    pub theme: Color,
    pub weight: i32,
}

/// The color that a `ColorItem` gives for the three channel perturbations.
pub open spec fn sample_spec(item: ColorItem, dr: int, dg: int, db: int) -> Color {
    meanpoint_spec(shift_spec(item.shade, dr, dg, db), item.theme, item.weight as int)
}

/// `c` is one of the colors that sampling `item` can give.
pub open spec fn is_sample(item: ColorItem, c: Color) -> bool {
    exists|dr: int, dg: int, db: int|
        -item.deviation <= dr <= item.deviation && -item.deviation <= dg <= item.deviation
            && -item.deviation <= db <= item.deviation && c == #[trigger] sample_spec(
            item,
            dr,
            dg,
            db,
        )
}

impl ColorItem {
    /// The deviation is a channel distance and the weight leaves room for one more.
    pub open spec fn wf(&self) -> bool {
        0 <= self.deviation <= 255 && 0 <= self.weight < i32::MAX
    }

    /// The color for the given channel perturbations.
    pub fn sample_with(&self, dr: i32, dg: i32, db: i32) -> (r: Color)
        requires
            self.wf(),
            -self.deviation <= dr <= self.deviation,
            -self.deviation <= dg <= self.deviation,
            -self.deviation <= db <= self.deviation,
        ensures
            r == sample_spec(*self, dr as int, dg as int, db as int),
    {
        self.shade.shift(dr, dg, db).meanpoint(self.theme, self.weight)
    }

    /// A fresh random sample: the shade perturbed, then blended toward the theme.
    pub fn sample(&self, rng: &mut rand::rngs::ThreadRng) -> (r: Color)
        requires
            self.wf(),
        ensures
            is_sample(*self, r),
            self.deviation == 0 && self.weight == 0 ==> r == self.shade,
    {
        let v = self.shade.variate(rng, self.deviation);
        let r = v.meanpoint(self.theme, self.weight);
        proof {
            let (dr, dg, db) = choose|dr: int, dg: int, db: int|
                -self.deviation <= dr <= self.deviation && -self.deviation <= dg
                    <= self.deviation && -self.deviation <= db <= self.deviation && v
                    == shift_spec(self.shade, dr, dg, db);
            assert(r == sample_spec(*self, dr, dg, db));
            if self.deviation == 0 && self.weight == 0 {
                lemma_sample_plain(*self, r);
            }
        }
        r
    }
}

/// With no deviation and no theme weight, every sample is exactly the base shade.
pub proof fn lemma_sample_plain(item: ColorItem, c: Color)
    requires
        item.wf(),
        item.deviation == 0,
        item.weight == 0,
        is_sample(item, c),
    ensures
        c == item.shade,
{
    let (dr, dg, db) = choose|dr: int, dg: int, db: int|
        -item.deviation <= dr <= item.deviation && -item.deviation <= dg <= item.deviation
            && -item.deviation <= db <= item.deviation && c == #[trigger] sample_spec(
            item,
            dr,
            dg,
            db,
        );
    assert(dr == 0 && dg == 0 && db == 0);
}

/// Blending toward the theme with weight `w` leaves each channel within
/// `(255 + w) / (w + 1)` of the theme: at most one step away once `w >= 255`.
pub proof fn lemma_meanpoint_near_theme(c: Color, t: Color, w: int)
    requires
        0 <= w,
    ensures
        (w + 1) * channel_gap(meanpoint_spec(c, t, w).0 as int, t.0 as int) <= 255 + w,
        (w + 1) * channel_gap(meanpoint_spec(c, t, w).1 as int, t.1 as int) <= 255 + w,
        (w + 1) * channel_gap(meanpoint_spec(c, t, w).2 as int, t.2 as int) <= 255 + w,
{
    lemma_blend_near(c.0 as int, t.0 as int, w);
    lemma_blend_near(c.1 as int, t.1 as int, w);
    lemma_blend_near(c.2 as int, t.2 as int, w);
}

proof fn lemma_blend_near(c: int, t: int, w: int)
    requires
        0 <= c <= 255,
        0 <= t <= 255,
        0 <= w,
    ensures
        (w + 1) * channel_gap(blend_channel(c, t, w) as u8 as int, t) <= 255 + w,
{
    lemma_blend_in_range(c, t, w);
    let n = c + w * t;
    let q = n / (w + 1);
    let r = n % (w + 1);
    vstd::arithmetic::div_mod::lemma_fundamental_div_mod(n, w + 1);
    vstd::arithmetic::div_mod::lemma_mod_bound(n, w + 1);
    assert((q - t) * (w + 1) == c - t - r) by (nonlinear_arith)
        requires n == (w + 1) * q + r, n == c + w * t;
    if q >= t {
        assert((w + 1) * (q - t) <= 255 + w);
    } else {
        assert((w + 1) * (t - q) == t + r - c) by (nonlinear_arith)
            requires (q - t) * (w + 1) == c - t - r;
    }
}

} // verus!
