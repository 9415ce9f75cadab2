use vstd::prelude::*;
use crate::chance::{choose_from, draw_range};
use crate::color::{Color, ColorItem};
use crate::delaunay::{delaunay_made, random_delaunay};
use crate::frame::Frame;
use crate::pos::{polar, Pos};
use crate::scene::{Contains, Disc, HalfPlane, Region, Scene, Spiral, Stripe, Triangle, min_side};
use crate::shape::{within, SPAN};
use crate::pos::{add_spec, polar_spec};
use crate::tesselate::{
    hex_pitch, hexagon_rules, hybrid_rules, sq_reach, sq_rules, tile_hexagons,
    tile_hybrid_hexagons_triangles, tile_hybrid_squares_triangles, tile_triangles, tiling_outcome,
    triangle_rules, CELL_MAX,
};

verus! {

/// Largest number of paint regions of a scene.
pub const PATTERN_MAX: i32 = 10000;

/// How the paint regions of a scene are laid out.
#[derive(Debug, Clone, Copy, PartialEq, Eq, Structural)]
pub enum Pattern {
    FreeCircles,
    FreeTriangles,
    FreeStripes,
    FreeSpirals,
    ConcentricCircles,
    ParallelStripes,
    CrossedStripes,
    ParallelWaves,
}

/// How the frame is cut into cells.
#[derive(Debug, Clone, Copy, PartialEq, Eq, Structural)]
pub enum Tiling {
    Hexagons,
    Triangles,
    HexagonsAndTriangles,
    SquaresAndTriangles,
    Delaunay,
}

impl Pattern {
    /// One of the patterns, drawn uniformly.
    pub fn pick(rng: &mut rand::rngs::ThreadRng) -> (r: Pattern) {
        let all = vec![
            Pattern::FreeCircles,
            Pattern::FreeTriangles,
            Pattern::FreeStripes,
            Pattern::FreeSpirals,
            Pattern::ConcentricCircles,
            Pattern::ParallelStripes,
            Pattern::CrossedStripes,
            Pattern::ParallelWaves,
        ];
        match choose_from(&all, rng) {
            Some(p) => p,
            None => Pattern::FreeCircles,
        }
    }
}

impl Tiling {
    /// One of the tilings, drawn uniformly.
    pub fn pick(rng: &mut rand::rngs::ThreadRng) -> (r: Tiling) {
        let all = vec![
            Tiling::Hexagons,
            Tiling::Triangles,
            Tiling::HexagonsAndTriangles,
            Tiling::SquaresAndTriangles,
            Tiling::Delaunay,
        ];
        match choose_from(&all, rng) {
            Some(t) => t,
            None => Tiling::Hexagons,
        }
    }
}

/// The settings of one image: colors, frame, pattern and tiling with their sizes.
///
/// `size_tiling` counts hundredths of a pixel, `width_pattern` is a percentage of the
/// shorter side of the frame, `var_stripes` a spread in degrees.
#[derive(Clone, Debug)]
pub struct SceneCfg {
    pub theme: Vec<Color>,
    pub weight: i32,
    pub deviation: i32,
    pub frame: Frame,
    pub pattern: Pattern,
    pub tiling: Tiling,
    pub nb_pattern: i32,
    pub var_stripes: i32,
    pub size_tiling: i32,
    pub nb_delaunay: i32,
    pub width_pattern: i32,
}

/// The kind of region that each pattern is made of.
pub open spec fn pattern_kind(p: Pattern, r: Region) -> bool {
    match p {
        Pattern::FreeCircles | Pattern::ConcentricCircles => r is Disc,
        Pattern::FreeTriangles => r is Triangle,
        Pattern::FreeStripes => r is Stripe,
        Pattern::FreeSpirals => r is Spiral,
        Pattern::ParallelStripes | Pattern::CrossedStripes | Pattern::ParallelWaves => r is HalfPlane,
    }
}

/// The width (hundredths) that a pattern spreads its regions over.
pub open spec fn pattern_width(cfg: SceneCfg) -> int {
    min_side(cfg.frame) * cfg.width_pattern
}

/// Which step of the pattern the region at index `i` belongs to.
pub open spec fn step_of(p: Pattern, i: int) -> int {
    match p {
        Pattern::CrossedStripes => i / 2,
        _ => i,
    }
}

/// `d` is a disc that `Disc::random` can draw in the frame with size hint `hint`.
pub open spec fn random_disc(f: Frame, hint: int, d: Disc) -> bool {
    crate::frame::inside_spec(f, d.center) && exists|u: int|
        0 <= u < 1000 && d.radius == #[trigger] crate::scene::disc_radius(f, u, hint)
}

/// The direction (degrees) around which the half-plane at index `i` is drawn: `dir`, or a
/// quarter turn further for every second region of crossed stripes.
pub open spec fn stripe_dir(p: Pattern, dir: int, i: int) -> int {
    if p is CrossedStripes && i % 2 == 1 {
        dir + 90
    } else {
        dir
    }
}

/// How far (degrees) a half-plane of the pattern may turn from its direction.
pub open spec fn stripe_var(cfg: SceneCfg) -> int {
    if cfg.pattern is ParallelWaves {
        cfg.var_stripes as int
    } else {
        1
    }
}

/// How the region `r` at index `i` sits in the pattern around `center` along `dir`
/// degrees. Free regions are drawn in the frame as their constructors draw them;
/// concentric discs share `center` and grow by equal steps; stripes move along `dir` by
/// equal steps and face `dir` (crossed stripes: `dir` and a quarter turn further), within
/// the pattern's spread.
pub open spec fn laid_out(cfg: SceneCfg, center: Pos, dir: int, i: int, r: Region) -> bool {
    let n = cfg.nb_pattern as int;
    let w = pattern_width(cfg);
    let k = step_of(cfg.pattern, i);
    let hint = cfg.width_pattern as int;
    match (cfg.pattern, r) {
        (Pattern::FreeCircles, Region::Disc(d)) => random_disc(cfg.frame, hint, d),
        (Pattern::FreeTriangles, Region::Triangle(t)) => exists|d: Disc, t0: int, t1: int, t2: int|
            random_disc(cfg.frame, hint, d) && d.color == t.color && 0 <= t0 < 360 && 80 <= t1 < 150
                && 80 <= t2 < 150 && (t.a, t.b, t.c) == #[trigger] crate::scene::inscribed(d, t0, t1, t2),
        (Pattern::FreeStripes, Region::Stripe(s)) => crate::frame::inside_spec(cfg.frame, s.limit) && exists|a: int|
            0 <= a < 360 && s.reference == add_spec(s.limit, #[trigger] polar_spec(a, w)),
        (Pattern::FreeSpirals, Region::Spiral(s)) => crate::frame::inside_spec(cfg.frame, s.center) && s.width == w,
        (Pattern::ConcentricCircles, Region::Disc(d)) => d.center == center && d.radius == (k + 1) * ring_step(n, w),
        (Pattern::ParallelStripes, Region::HalfPlane(h)) | (Pattern::ParallelWaves, Region::HalfPlane(h)) | (
            Pattern::CrossedStripes,
            Region::HalfPlane(h),
        ) => h.limit == add_spec(center, polar_spec(dir, spread_spec(k, n, w))) && exists|a: int|
            stripe_dir(cfg.pattern, dir, i) - stripe_var(cfg) <= a < stripe_dir(cfg.pattern, dir, i) + stripe_var(cfg)
                && h.reference == add_spec(h.limit, #[trigger] polar_spec(a, 10000)),
        _ => false,
    }
}

/// Every region of `items` sits in the pattern around `center` along `dir` degrees.
pub open spec fn pattern_laid_out(cfg: SceneCfg, center: Pos, dir: int, items: Seq<Region>) -> bool {
    0 <= dir < 360 && forall|i: int|
        0 <= i < items.len() ==> #[trigger] laid_out(cfg, center, dir, i, items[i])
}

/// How many regions a pattern with `n` requested makes.
pub open spec fn pattern_count(p: Pattern, n: int) -> int {
    match p {
        Pattern::CrossedStripes => 2 * n,
        _ => n,
    }
}

impl SceneCfg {
    /// Every setting is in the range that the geometry keeps exact.
    pub open spec fn wf(&self) -> bool {
        &&& self.frame.wf()
        &&& 0 <= self.deviation <= 255
        &&& 0 <= self.weight < i32::MAX
        &&& 0 <= self.nb_pattern <= PATTERN_MAX
        &&& 0 < self.var_stripes <= 360
        &&& 0 < self.size_tiling <= CELL_MAX
        &&& 0 <= self.nb_delaunay
        &&& 0 <= self.width_pattern <= 90
    }

    /// A color source with a random shade, the configured deviation and weight, and a theme
    /// drawn from the configured ones (black when there is none).
    pub fn choose_color(&self, rng: &mut rand::rngs::ThreadRng) -> (r: ColorItem)
        requires
            self.wf(),
        ensures
            r.wf(),
            r.deviation == self.deviation,
            r.weight == self.weight,
            self.theme@.len() == 0 ==> r.theme == Color(0, 0, 0),
            self.theme@.len() > 0 ==> self.theme@.contains(r.theme),
    {
        let shade = Color::random(rng);
        let theme = match choose_from(&self.theme, rng) {
            Some(c) => c,
            None => Color(0, 0, 0),
        };
        ColorItem { shade, deviation: self.deviation, weight: self.weight, theme }
    }

    /// The paint regions of the configured pattern, in priority order.
    pub fn create_items(&self, rng: &mut rand::rngs::ThreadRng) -> (r: Vec<Region>)
        requires
            self.wf(),
        ensures
            r@.len() == pattern_count(self.pattern, self.nb_pattern as int),
            forall|i: int| 0 <= i < r@.len() ==> (#[trigger] r@[i]).palette().wf() && pattern_kind(self.pattern, r@[i]),
            exists|center: Pos, dir: int| #[trigger] pattern_laid_out(*self, center, dir, r@),
    {
        let f = self.frame;
        let n = self.nb_pattern;
        let side: i32 = if f.h < f.w { f.h } else { f.w };
        proof {
            assert(side as int * self.width_pattern as int <= 100000000) by (nonlinear_arith)
                requires 0 < side <= 1000000, 0 <= self.width_pattern <= 90;
            assert(0 <= side as int * self.width_pattern as int) by (nonlinear_arith)
                requires 0 < side, 0 <= self.width_pattern;
        }
        let width: i32 = side * self.width_pattern;
        assert(width == pattern_width(*self));
        let mut items: Vec<Region> = Vec::new();
        let center = Pos::random(&f, rng);
        let dir = draw_range(rng, 0, 360);
        let mut k: i32 = 0;
        while k < n
            invariant
                self.wf(),
                f == self.frame,
                n == self.nb_pattern,
                0 <= k <= n,
                0 <= width <= SPAN,
                0 <= dir < 360,
                crate::frame::inside_spec(f, center),
                items@.len() == pattern_count(self.pattern, k as int),
                forall|i: int| 0 <= i < items@.len() ==> (#[trigger] items@[i]).palette().wf() && pattern_kind(self.pattern, items@[i]),
                width == pattern_width(*self),
                forall|i: int|
                    0 <= i < items@.len() ==> #[trigger] laid_out(*self, center, dir as int, i, items@[i]),
            decreases n - k,
        {
            let color = self.choose_color(rng);
            let ghost before = items@;
            match self.pattern {
                Pattern::FreeCircles => {
                    items.push(Region::Disc(Disc::random(rng, &f, color, self.width_pattern)));
                }
                Pattern::FreeTriangles => {
                    let circ = Disc::random(rng, &f, color, self.width_pattern);
                    proof {
                        lemma_disc_radius_bound(f, circ.radius as int, self.width_pattern as int);
                    }
                    items.push(Region::Triangle(Triangle::random(rng, circ)));
                }
                Pattern::FreeStripes => {
                    items.push(Region::Stripe(Stripe::random(rng, &f, color, width)));
                }
                Pattern::FreeSpirals => {
                    items.push(Region::Spiral(Spiral::random(rng, &f, color, width)));
                }
                Pattern::ConcentricCircles => {
                    let radius = ring_radius(k, n, width);
                    items.push(Region::Disc(Disc { center, radius, color }));
                }
                Pattern::ParallelStripes | Pattern::ParallelWaves | Pattern::CrossedStripes => {
                    let shift = polar(dir, spread(k, n, width));
                    let limit = center.add(shift);
                    let var = if self.pattern == Pattern::ParallelWaves { self.var_stripes } else { 1 };
                    items.push(Region::HalfPlane(HalfPlane::random(rng, limit, dir, var, color)));
                    if self.pattern == Pattern::CrossedStripes {
                        let color2 = self.choose_color(rng);
                        items.push(Region::HalfPlane(HalfPlane::random(rng, limit, dir + 90, var, color2)));
                    }
                }
            }
            proof {
                assert forall|i: int| 0 <= i < items@.len() implies (#[trigger] items@[i]).palette().wf() && pattern_kind(self.pattern, items@[i]) by {
                    if i < before.len() {
                        assert(items@[i] == before[i]);
                    }
                }
                assert forall|i: int| 0 <= i < items@.len() implies #[trigger] laid_out(*self, center, dir as int, i, items@[i]) by {
                    if i < before.len() {
                        assert(items@[i] == before[i]);
                    } else if self.pattern is CrossedStripes {
                        assert(before.len() == 2 * k);
                        assert(step_of(self.pattern, i) == k);
                        if i == 2 * k {
                            assert(i % 2 == 0);
                        } else {
                            assert(i % 2 == 1);
                        }
                    }
                }
            }
            k += 1;
        }
        assert(pattern_laid_out(*self, center, dir as int, items@));
        items
    }

    /// The configured tiling of the frame, turned by a random whole number of degrees;
    /// `None` when the tiling has no cell (a degenerate Delaunay point set or lattice basis).
    pub fn make_tiling(&self, rng: &mut rand::rngs::ThreadRng) -> (r: Option<Vec<(Pos, Vec<Pos>)>>)
        requires
            self.wf(),
        ensures
            self.tiling is Delaunay ==> delaunay_made(self.frame, self.nb_delaunay as int, r),
            !(self.tiling is Delaunay) ==> exists|rot: int| 0 <= rot < 360 && #[trigger] made_by(*self, rot, r),
    {
        let rot = draw_range(rng, 0, 360);
        let r = match self.tiling {
            Tiling::Hexagons => tile_hexagons(&self.frame, self.size_tiling, rot),
            Tiling::Triangles => tile_triangles(&self.frame, self.size_tiling, rot),
            Tiling::HexagonsAndTriangles => tile_hybrid_hexagons_triangles(&self.frame, self.size_tiling, rot),
            Tiling::SquaresAndTriangles => tile_hybrid_squares_triangles(&self.frame, self.size_tiling, rot),
            Tiling::Delaunay => random_delaunay(&self.frame, rng, self.nb_delaunay as usize),
        };
        proof {
            if !(self.tiling is Delaunay) {
                assert(made_by(*self, rot as int, r));
            }
        }
        r
    }
}

/// The `k`-th of `n` equal steps across `width`.
pub open spec fn spread_spec(k: int, n: int, width: int) -> int {
    k * width / n
}

fn spread(k: i32, n: i32, width: i32) -> (r: i32)
    requires
        0 <= k <= n,
        0 < n,
        0 <= width <= SPAN,
    ensures
        r == spread_spec(k as int, n as int, width as int),
        0 <= r <= width,
{
    proof {
        assert(0 <= (k as int) * (width as int) <= (n as int) * (width as int)) by (nonlinear_arith)
            requires 0 <= k <= n, 0 <= width;
        vstd::arithmetic::div_mod::lemma_div_is_ordered((k as int) * (width as int), (n as int) * (width as int), n as int);
        vstd::arithmetic::div_mod::lemma_div_multiples_vanish(width as int, n as int);
        vstd::arithmetic::div_mod::lemma_div_pos_is_pos((k as int) * (width as int), n as int);
        crate::pos::lemma_mul_magnitude(k as int, width as int, 2147483648, 2147483648);
    }
    (k as i64 * width as i64 / n as i64) as i32
}

/// Concentric discs grow: in a concentric pattern, a later disc has a larger radius.
pub proof fn lemma_rings_grow(cfg: SceneCfg, center: Pos, dir: int, items: Seq<Region>, i: int, j: int)
    requires
        cfg.wf(),
        cfg.pattern is ConcentricCircles,
        pattern_laid_out(cfg, center, dir, items),
        0 <= i < j < items.len(),
    ensures
        items[i] is Disc && items[j] is Disc,
        items[i]->Disc_0.radius < items[j]->Disc_0.radius,
{
    assert(laid_out(cfg, center, dir, i, items[i]));
    assert(laid_out(cfg, center, dir, j, items[j]));
    let st = ring_step(cfg.nb_pattern as int, pattern_width(cfg));
    assert(st >= 1);
    assert((i + 1) * st < (j + 1) * st) by (nonlinear_arith)
        requires st >= 1, i < j;
}

/// The gap between two concentric discs: `width / n`, and at least one so that the
/// radii strictly increase.
pub open spec fn ring_step(n: int, width: int) -> int {
    if width / n >= 1 {
        width / n
    } else {
        1
    }
}

fn ring_radius(k: i32, n: i32, width: i32) -> (r: i32)
    requires
        0 <= k < n,
        n <= PATTERN_MAX,
        0 <= width <= SPAN,
    ensures
        r == (k + 1) * ring_step(n as int, width as int),
        0 < r <= SPAN,
{
    let q = width / n;
    let step = if q >= 1 { q } else { 1 };
    proof {
        vstd::arithmetic::div_mod::lemma_fundamental_div_mod(width as int, n as int);
        vstd::arithmetic::div_mod::lemma_mod_bound(width as int, n as int);
        assert(n * q <= width);
        if q >= 1 {
            assert((k + 1) * q <= n * q) by (nonlinear_arith)
                requires 0 <= k < n, q >= 1;
        }
        assert(0 < (k + 1) * step) by (nonlinear_arith)
            requires 0 <= k, step >= 1;
    }
    (k + 1) * step
}

/// `r` is the configured periodic tiling of the frame turned by `rot` degrees.
pub open spec fn made_by(cfg: SceneCfg, rot: int, r: Option<Vec<(Pos, Vec<Pos>)>>) -> bool {
    let f = cfg.frame;
    let s = cfg.size_tiling as int;
    match cfg.tiling {
        Tiling::Hexagons => tiling_outcome(
            f,
            polar_spec(rot - 30, hex_pitch(s)),
            polar_spec(rot + 30, hex_pitch(s)),
            hexagon_rules(s, rot),
            r,
        ),
        Tiling::Triangles => tiling_outcome(
            f,
            polar_spec(rot - 30, hex_pitch(s)),
            polar_spec(rot + 30, hex_pitch(s)),
            triangle_rules(s, rot),
            r,
        ),
        Tiling::HexagonsAndTriangles => tiling_outcome(
            f,
            polar_spec(rot, 2 * s),
            polar_spec(rot + 60, 2 * s),
            hybrid_rules(s, rot),
            r,
        ),
        Tiling::SquaresAndTriangles => tiling_outcome(
            f,
            add_spec(polar_spec(rot, sq_reach(s)), polar_spec(rot + 60, sq_reach(s))),
            add_spec(polar_spec(rot, sq_reach(s)), polar_spec(rot - 60, sq_reach(s))),
            sq_rules(s, rot),
            r,
        ),
        Tiling::Delaunay => false,
    }
}

proof fn lemma_disc_radius_bound(f: Frame, radius: int, hint: int)
    requires
        f.wf(),
        0 <= hint <= 90,
        exists|u: int| 0 <= u < 1000 && radius == #[trigger] crate::scene::disc_radius(f, u, hint),
    ensures
        0 <= radius <= SPAN,
{
    let u = choose|u: int| 0 <= u < 1000 && radius == #[trigger] crate::scene::disc_radius(f, u, hint);
    let m = min_side(f);
    assert(0 <= u * hint <= 89910) by (nonlinear_arith)
        requires 0 <= u < 1000, 0 <= hint <= 90;
    assert(0 <= m * (u * hint + 10000) <= 99910000000int) by (nonlinear_arith)
        requires 0 < m <= 1000000, 0 <= u * hint <= 89910;
    vstd::arithmetic::div_mod::lemma_div_is_ordered(m * (u * hint + 10000), 99910000000int, 1000);
    vstd::arithmetic::div_mod::lemma_div_pos_is_pos(m * (u * hint + 10000), 1000);
}

impl Scene {
    /// A scene with a random background and the configured pattern of regions.
    pub fn new(cfg: &SceneCfg, rng: &mut rand::rngs::ThreadRng) -> (r: Scene)
        requires
            cfg.wf(),
        ensures
            r.wf(),
            r.bg.deviation == cfg.deviation,
            r.bg.weight == cfg.weight,
            cfg.theme@.len() == 0 ==> r.bg.theme == Color(0, 0, 0),
            cfg.theme@.len() > 0 ==> cfg.theme@.contains(r.bg.theme),
            r.items@.len() == pattern_count(cfg.pattern, cfg.nb_pattern as int),
            forall|i: int| 0 <= i < r.items@.len() ==> pattern_kind(cfg.pattern, #[trigger] r.items@[i]),
            exists|center: Pos, dir: int| #[trigger] pattern_laid_out(*cfg, center, dir, r.items@),
    {
        let bg = cfg.choose_color(rng);
        let items = cfg.create_items(rng);
        Scene { bg, items }
    }
}

} // verus!
