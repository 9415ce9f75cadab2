use vstd::prelude::*;
use crate::frame::Frame;
use crate::lattice::{lattice_cover, lattice_sites};
use crate::pos::{add_spec, polar, polar_spec, Pos};
use crate::shape::{placed, regular_offsets, within, Movable, SPAN};
use crate::pos::{scale_spec, sub_spec};

verus! {

/// Largest characteristic size of a tiling cell, in hundredths.
pub const CELL_MAX: i32 = 5000000;

/// A tile as the contracts see it: its representative point and its path.
pub open spec fn tile_view(t: (Pos, Vec<Pos>)) -> (Pos, Seq<Pos>) {
    (t.0, t.1@)
}

/// The tiles of a list, as the contracts see them.
pub open spec fn tiles_view(ts: Seq<(Pos, Vec<Pos>)>) -> Seq<(Pos, Seq<Pos>)> {
    ts.map_values(|t: (Pos, Vec<Pos>)| tile_view(t))
}

/// A placement rule as the contracts see it: the template's offsets and where it goes
/// relative to the lattice site.
pub open spec fn placements_view(gen: Seq<(Movable, Pos)>) -> Seq<(Seq<Pos>, Pos)> {
    gen.map_values(|g: (Movable, Pos)| (g.0.0@, g.1))
}

/// The tiles that the placement rules emit at the site `p`, in rule order.
pub open spec fn site_tiles(gen: Seq<(Seq<Pos>, Pos)>, p: Pos) -> Seq<(Pos, Seq<Pos>)> {
    gen.map_values(|g: (Seq<Pos>, Pos)| (add_spec(p, g.1), placed(g.0, add_spec(p, g.1))))
}

/// The tiles emitted for each site of `sites` in turn.
pub open spec fn tiles_of(gen: Seq<(Seq<Pos>, Pos)>, sites: Seq<Pos>) -> Seq<(Pos, Seq<Pos>)>
    decreases sites.len(),
{
    if sites.len() == 0 {
        seq![]
    } else {
        tiles_of(gen, sites.drop_last()) + site_tiles(gen, sites.last())
    }
}

/// Every template of the rules is in bounds and every placement offset within `SPAN`.
pub open spec fn placements_ok(gen: Seq<(Movable, Pos)>) -> bool {
    forall|i: int| 0 <= i < gen.len() ==> (#[trigger] gen[i]).0.wf() && within(gen[i].1, SPAN as int)
}

fn emit_site(gen: &Vec<(Movable, Pos)>, p: Pos, items: &mut Vec<(Pos, Vec<Pos>)>)
    requires
        placements_ok(gen@),
        within(p, SPAN as int),
    ensures
        tiles_view(final(items)@) == tiles_view(old(items)@) + site_tiles(placements_view(gen@), p),
{
    let ghost start = tiles_view(items@);
    let mut i: usize = 0;
    while i < gen.len()
        invariant
            placements_ok(gen@),
            within(p, SPAN as int),
            i <= gen@.len(),
            tiles_view(items@) == start + site_tiles(placements_view(gen@), p).take(i as int),
        decreases gen@.len() - i,
    {
        let g = &gen[i];
        assert(g.0.wf() && within(g.1, SPAN as int));
        let q = p.add(g.1);
        let t = g.0.render(q);
        let ghost before = items@;
        items.push(t);
        proof {
            assert(items@ == before.push(t));
            assert(tiles_view(items@) == tiles_view(before).push(tile_view(t)));
            assert(site_tiles(placements_view(gen@), p).take(i as int + 1) == site_tiles(placements_view(gen@), p).take(i as int).push(tile_view(t)));
        }
        i += 1;
    }
    assert(site_tiles(placements_view(gen@), p).take(i as int) == site_tiles(placements_view(gen@), p));
}

/// The two vectors span the plane: neither is zero and they are not parallel.
pub open spec fn independent(u: Pos, v: Pos) -> bool {
    u.0 * v.1 - u.1 * v.0 != 0
}

/// `r` is `None` for a degenerate basis, else what the lattice spanned by `u` and `v`
/// yields in the frame under `rules`.
pub open spec fn tiling_outcome(
    f: Frame,
    u: Pos,
    v: Pos,
    rules: Seq<(Seq<Pos>, Pos)>,
    r: Option<Vec<(Pos, Vec<Pos>)>>,
) -> bool {
    match r {
        None => !independent(u, v),
        Some(t) => independent(u, v) && tiled_by(f, u, v, rules, t@),
    }
}

/// Tiles the frame with a pattern that maps onto a two-dimensional lattice: every site of
/// the lattice spanned by `idir` and `jdir` that the flood fill from the center reaches
/// gets each placement rule rendered at its offset from the site. A degenerate basis
/// (a zero or two parallel vectors) spans no lattice and gives `None`.
pub fn periodic_grid_tiling(f: &Frame, gen: &Vec<(Movable, Pos)>, idir: Pos, jdir: Pos) -> (r: Option<Vec<(Pos, Vec<Pos>)>>)
    requires
        f.wf(),
        within(idir, SPAN as int),
        within(jdir, SPAN as int),
        placements_ok(gen@),
    ensures
        tiling_outcome(*f, idir, jdir, placements_view(gen@), r),
{
    proof {
        crate::pos::lemma_mul_magnitude(idir.0 as int, jdir.1 as int, SPAN as int, SPAN as int);
        crate::pos::lemma_mul_magnitude(idir.1 as int, jdir.0 as int, SPAN as int, SPAN as int);
    }
    let det: i128 = idir.0 as i128 * jdir.1 as i128 - idir.1 as i128 * jdir.0 as i128;
    if det == 0 {
        return None;
    }
    let sites = lattice_sites(f, idir, jdir);
    let mut items: Vec<(Pos, Vec<Pos>)> = Vec::new();
    let mut k: usize = 0;
    while k < sites.len()
        invariant
            placements_ok(gen@),
            lattice_cover(*f, idir, jdir, sites@),
            f.wf(),
            k <= sites@.len(),
            tiles_view(items@) == tiles_of(placements_view(gen@), sites@.take(k as int)),
        decreases sites@.len() - k,
    {
        let p = sites[k];
        assert(crate::frame::inside_spec(*f, sites@[k as int]));
        emit_site(gen, p, &mut items);
        assert(sites@.take(k as int + 1).drop_last() == sites@.take(k as int));
        k += 1;
    }
    assert(sites@.take(k as int) == sites@);
    Some(items)
}

/// `r` is what the lattice spanned by `u` and `v` yields in the frame under `rules`.
pub open spec fn tiled_by(f: Frame, u: Pos, v: Pos, rules: Seq<(Seq<Pos>, Pos)>, r: Seq<(Pos, Vec<Pos>)>) -> bool {
    exists|sites: Seq<Pos>| lattice_cover(f, u, v, sites) && tiles_view(r) == tiles_of(rules, sites)
}

/// Distance between the centers of two hexagons of circumradius `size` that share an edge.
pub open spec fn hex_pitch(size: int) -> int {
    polar_spec(30, 2 * size).0 as int
}

/// The rules of the hexagon tiling: one hexagon per site.
pub open spec fn hexagon_rules(size: int, rot: int) -> Seq<(Seq<Pos>, Pos)> {
    seq![(regular_offsets(6, size, rot), Pos(0, 0))]
}

/// Where the second triangle of a site of the triangle tiling goes.
pub open spec fn triangle_adjust(size: int, rot: int) -> Pos {
    add_spec(polar_spec(rot + 60, polar_spec(30, size).1 as int), scale_spec(polar_spec(rot - 30, hex_pitch(size)), 1, 2))
}

/// The rules of the triangle tiling: two opposite triangles per site.
pub open spec fn triangle_rules(size: int, rot: int) -> Seq<(Seq<Pos>, Pos)> {
    seq![
        (regular_offsets(3, size, rot + 60), Pos(0, 0)),
        (regular_offsets(3, size, rot), triangle_adjust(size, rot)),
    ]
}

/// Where the triangles of a site of the hexagon-and-triangle tiling go.
pub open spec fn hybrid_adjust(size: int, rot: int) -> Pos {
    polar_spec(rot + 30, crate::pos::trunc_div(size * 1000000, crate::trig::cos_deg(30)))
}

/// The rules of the hexagon-and-triangle tiling: a hexagon and two triangles per site.
pub open spec fn hybrid_rules(size: int, rot: int) -> Seq<(Seq<Pos>, Pos)> {
    let small = polar_spec(30, size).1 as int;
    seq![
        (regular_offsets(6, size, rot), Pos(0, 0)),
        (regular_offsets(3, small, rot + 30), hybrid_adjust(size, rot)),
        (regular_offsets(3, small, rot + 90), sub_spec(Pos(0, 0), hybrid_adjust(size, rot))),
    ]
}

/// The rhombus with half-diagonals `ldiag` and `sdiag` turned by `rot` degrees.
pub open spec fn rhombus_offsets(ldiag: int, sdiag: int, rot: int) -> Seq<Pos> {
    seq![
        polar_spec(rot, ldiag),
        polar_spec(rot + 90, sdiag),
        polar_spec(rot + 180, ldiag),
        polar_spec(rot + 270, sdiag),
    ]
}

fn single_rule(m: Movable) -> (r: Vec<(Movable, Pos)>)
    requires
        m.wf(),
    ensures
        placements_ok(r@),
        placements_view(r@) == seq![(m.0@, Pos(0, 0))],
{
    let r = vec![(m, Pos(0, 0))];
    assert(placements_view(r@) =~= seq![(m.0@, Pos(0, 0))]);
    r
}

/// Tiles the frame with regular hexagons of circumradius `size`, turned by `rot` degrees.
pub fn tile_hexagons(f: &Frame, size: i32, rot: i32) -> (r: Option<Vec<(Pos, Vec<Pos>)>>)
    requires
        f.wf(),
        0 < size <= CELL_MAX,
        -360 <= rot <= 360,
    ensures
        tiling_outcome(
            *f,
            polar_spec(rot - 30, hex_pitch(size as int)),
            polar_spec(rot + 30, hex_pitch(size as int)),
            hexagon_rules(size as int, rot as int),
            r,
        ),
{
    let pitch = polar(30, 2 * size).0;
    let idir = polar(rot - 30, pitch);
    let jdir = polar(rot + 30, pitch);
    let m = Movable::hexagon(size, rot);
    let gen = single_rule(m);
    periodic_grid_tiling(f, &gen, idir, jdir)
}

/// Tiles the frame with equilateral triangles of circumradius `size`, turned by `rot`
/// degrees: two opposite triangles per lattice site.
pub fn tile_triangles(f: &Frame, size: i32, rot: i32) -> (r: Option<Vec<(Pos, Vec<Pos>)>>)
    requires
        f.wf(),
        0 < size <= CELL_MAX,
        -360 <= rot <= 360,
    ensures
        tiling_outcome(
            *f,
            polar_spec(rot - 30, hex_pitch(size as int)),
            polar_spec(rot + 30, hex_pitch(size as int)),
            triangle_rules(size as int, rot as int),
            r,
        ),
{
    let pitch = polar(30, 2 * size).0;
    let idir = polar(rot - 30, pitch);
    let jdir = polar(rot + 30, pitch);
    let half = polar(30, size).1;
    let adjust = polar(rot + 60, half).add(idir.scale(1, 2));
    let m1 = Movable::triangle(size, rot + 60);
    let m2 = Movable::triangle(size, rot);
    let ghost v1 = m1.0@;
    let ghost v2 = m2.0@;
    let gen = vec![(m1, Pos(0, 0)), (m2, adjust)];
    assert(placements_view(gen@) =~= triangle_rules(size as int, rot as int));
    periodic_grid_tiling(f, &gen, idir, jdir)
}

/// Tiles the frame with hexagons of circumradius `size` and the triangles between them,
/// turned by `rot` degrees.
pub fn tile_hybrid_hexagons_triangles(f: &Frame, size: i32, rot: i32) -> (r: Option<Vec<(Pos, Vec<Pos>)>>)
    requires
        f.wf(),
        0 < size <= CELL_MAX,
        -360 <= rot <= 360,
    ensures
        tiling_outcome(
            *f,
            polar_spec(rot as int, 2 * size),
            polar_spec(rot + 60, 2 * size),
            hybrid_rules(size as int, rot as int),
            r,
        ),
{
    let idir = polar(rot, 2 * size);
    let jdir = polar(rot + 60, 2 * size);
    let c30 = crate::trig::cos_micro(30);
    proof {
        lemma_table_values();
        assert((size as int) * 1000000 / (c30 as int) <= 2 * size) by (nonlinear_arith)
            requires c30 == 866025, 0 < size;
    }
    let reach = (size as i64 * 1000000 / c30) as i32;
    let adjust = polar(rot + 30, reach);
    let small = polar(30, size).1;
    proof {
        vstd::arithmetic::div_mod::lemma_div_pos_is_pos((size as int) * 500000, 1000000);
    }
    let m0 = Movable::hexagon(size, rot);
    let m1 = Movable::triangle(small, rot + 30);
    let m2 = Movable::triangle(small, rot + 90);
    let gen = vec![(m0, Pos(0, 0)), (m1, adjust), (m2, Pos(0, 0).sub(adjust))];
    assert(placements_view(gen@) =~= hybrid_rules(size as int, rot as int));
    periodic_grid_tiling(f, &gen, idir, jdir)
}

/// Tiles the frame with rhombi of half-diagonals `ldiag` (along `rot` degrees) and
/// `sdiag` (across).
pub fn tile_rhombus(f: &Frame, ldiag: i32, sdiag: i32, rot: i32) -> (r: Option<Vec<(Pos, Vec<Pos>)>>)
    requires
        f.wf(),
        0 < ldiag <= CELL_MAX,
        0 < sdiag <= CELL_MAX,
        -360 <= rot <= 360,
    ensures
        tiling_outcome(
            *f,
            add_spec(polar_spec(rot as int, ldiag as int), polar_spec(rot + 90, sdiag as int)),
            add_spec(polar_spec(rot as int, -ldiag), polar_spec(rot + 90, sdiag as int)),
            seq![(rhombus_offsets(ldiag as int, sdiag as int, rot as int), Pos(0, 0))],
            r,
        ),
{
    let idir = polar(rot, ldiag).add(polar(rot + 90, sdiag));
    let jdir = polar(rot, -ldiag).add(polar(rot + 90, sdiag));
    let m = Movable::rhombus(ldiag, sdiag, rot);
    let gen = single_rule(m);
    periodic_grid_tiling(f, &gen, idir, jdir)
}

/// `x * num / den` rounded toward zero.
pub open spec fn ratio(x: int, num: int, den: int) -> int {
    crate::pos::trunc_div(x * num, den)
}

/// Half the side of a square of circumradius `size`.
pub open spec fn sq_a(size: int) -> int {
    ratio(size, crate::trig::sin_deg(45), 1000000)
}

/// Half the side times the tangent of thirty degrees.
pub open spec fn sq_b(size: int) -> int {
    ratio(sq_a(size), crate::trig::sin_deg(30), crate::trig::cos_deg(30))
}

/// Circumradius of the triangles between the squares.
pub open spec fn sq_c(size: int) -> int {
    ratio(sq_a(size), 1000000, crate::trig::cos_deg(30))
}

/// Distance from a site to the farthest triangles along the lattice direction.
pub open spec fn sq_reach(size: int) -> int {
    sq_c(size) + 2 * sq_a(size) + 2 * sq_b(size)
}

/// The seven templates of the square-and-triangle tiling.
pub open spec fn sq_shape(size: int, rot: int, k: int) -> Seq<Pos> {
    if k == 0 {
        regular_offsets(4, size, rot)
    } else if k == 1 {
        regular_offsets(4, size, rot + 60)
    } else if k == 2 {
        regular_offsets(4, size, rot - 60)
    } else if k == 3 {
        regular_offsets(3, sq_c(size), rot + 60)
    } else if k == 4 {
        regular_offsets(3, sq_c(size), rot)
    } else if k == 5 {
        regular_offsets(3, sq_c(size), rot + 90)
    } else {
        regular_offsets(3, sq_c(size), rot + 30)
    }
}

/// Rule `kind` of the ring around a site at `i` sixths of a turn.
pub open spec fn sq_ring_rule(size: int, rot: int, i: int, kind: int) -> (Seq<Pos>, Pos) {
    if kind == 0 {
        (sq_shape(size, rot, 3 + i % 2), polar_spec(rot + i * 60, sq_c(size)))
    } else if kind == 1 {
        (sq_shape(size, rot, i % 3), polar_spec(rot + i * 60, sq_c(size) + sq_b(size) + sq_a(size)))
    } else {
        (sq_shape(size, rot, 5 + i % 2), polar_spec(rot + i * 60 + 30, 2 * sq_a(size) + sq_c(size)))
    }
}

/// The rules of the square-and-triangle tiling: two triangles along the lattice direction,
/// then three shapes for each sixth of a turn.
pub open spec fn sq_rules(size: int, rot: int) -> Seq<(Seq<Pos>, Pos)> {
    let far = polar_spec(rot, sq_reach(size));
    seq![(sq_shape(size, rot, 4), far), (sq_shape(size, rot, 3), sub_spec(Pos(0, 0), far))]
        + Seq::new(18, |k: int| sq_ring_rule(size, rot, k / 3, k % 3))
}

proof fn lemma_table_values()
    ensures
        crate::trig::cos_deg(30) == 866025,
        crate::trig::sin_deg(30) == 500000,
        crate::trig::sin_deg(45) == 707107,
{
    reveal(crate::trig::sine_quadrant);
}

fn ratio_exec(x: i32, num: i64, den: i64) -> (r: i32)
    requires
        0 <= x <= CELL_MAX,
        0 <= num <= den,
        0 < den <= 1000000,
    ensures
        r == ratio(x as int, num as int, den as int),
        0 <= r <= x,
{
    proof {
        assert(0 <= (x as int) * num <= (x as int) * den) by (nonlinear_arith)
            requires 0 <= x, 0 <= num <= den;
        assert((x as int) * den <= 5000000 * 1000000) by (nonlinear_arith)
            requires 0 <= x <= 5000000, 0 < den <= 1000000;
        vstd::arithmetic::div_mod::lemma_div_is_ordered((x as int) * num, (x as int) * den, den as int);
        vstd::arithmetic::div_mod::lemma_div_multiples_vanish(x as int, den as int);
        assert((den as int) * (x as int) == (x as int) * (den as int)) by (nonlinear_arith);
        vstd::arithmetic::div_mod::lemma_div_pos_is_pos((x as int) * num, den as int);
    }
    let prod: i64 = x as i64 * num;
    assert(prod == (x as int) * num);
    let q: i64 = prod / den;
    assert(q == ratio(x as int, num as int, den as int));
    assert(0 <= q <= x);
    q as i32
}

fn sq_shape_exec(size: i32, rot: i32, c: i32, k: usize) -> (r: Movable)
    requires
        0 < size <= CELL_MAX,
        -360 <= rot <= 360,
        c == sq_c(size as int),
        0 <= c <= 2 * CELL_MAX,
        k < 7,
    ensures
        r.wf(),
        r.0@ == sq_shape(size as int, rot as int, k as int),
{
    if k == 0 {
        Movable::square(size, rot)
    } else if k == 1 {
        Movable::square(size, rot + 60)
    } else if k == 2 {
        Movable::square(size, rot - 60)
    } else if k == 3 {
        Movable::triangle(c, rot + 60)
    } else if k == 4 {
        Movable::triangle(c, rot)
    } else if k == 5 {
        Movable::triangle(c, rot + 90)
    } else {
        Movable::triangle(c, rot + 30)
    }
}

fn sq_lengths(size: i32) -> (r: (i32, i32, i32))
    requires
        0 < size <= CELL_MAX,
    ensures
        r.0 == sq_a(size as int),
        r.1 == sq_b(size as int),
        r.2 == sq_c(size as int),
        0 <= r.0 <= CELL_MAX,
        0 <= r.1 <= CELL_MAX,
        0 <= r.2 <= 2 * CELL_MAX,
{
    proof {
        lemma_table_values();
    }
    let s45 = crate::trig::sin_micro(45);
    let s30 = crate::trig::sin_micro(30);
    let c30 = crate::trig::cos_micro(30);
    let a = ratio_exec(size, s45, 1000000);
    let b = ratio_exec(a, s30, c30);
    proof {
        assert((a as int) * 1000000 / 866025 <= 2 * a) by (nonlinear_arith)
            requires 0 <= a;
        vstd::arithmetic::div_mod::lemma_div_pos_is_pos((a as int) * 1000000, 866025);
    }
    let c: i32 = (a as i64 * 1000000 / c30) as i32;
    (a, b, c)
}

proof fn lemma_sq_rules_head(size: int, rot: int, head: Seq<(Seq<Pos>, Pos)>)
    requires
        head == seq![
            (sq_shape(size, rot, 4), polar_spec(rot, sq_reach(size))),
            (sq_shape(size, rot, 3), sub_spec(Pos(0, 0), polar_spec(rot, sq_reach(size)))),
        ],
    ensures
        head == sq_rules(size, rot).take(2),
{
    assert(head =~= sq_rules(size, rot).take(2));
}

/// The three ring rules at `i` sixths of a turn.
pub open spec fn sq_ring(size: int, rot: int, i: int) -> Seq<(Seq<Pos>, Pos)> {
    seq![sq_ring_rule(size, rot, i, 0), sq_ring_rule(size, rot, i, 1), sq_ring_rule(size, rot, i, 2)]
}

proof fn lemma_sq_rules_step(size: int, rot: int, i: int)
    requires
        0 <= i < 6,
    ensures
        sq_rules(size, rot).take(2 + 3 * (i + 1)) == sq_rules(size, rot).take(2 + 3 * i) + sq_ring(size, rot, i),
{
    let rules = sq_rules(size, rot);
    assert(rules.len() == 20);
    assert(rules[2 + 3 * i] == sq_ring_rule(size, rot, (3 * i) / 3, (3 * i) % 3));
    assert(rules[2 + 3 * i + 1] == sq_ring_rule(size, rot, (3 * i + 1) / 3, (3 * i + 1) % 3));
    assert(rules[2 + 3 * i + 2] == sq_ring_rule(size, rot, (3 * i + 2) / 3, (3 * i + 2) % 3));
    assert((3 * i) / 3 == i && (3 * i) % 3 == 0);
    assert((3 * i + 1) / 3 == i && (3 * i + 1) % 3 == 1);
    assert((3 * i + 2) / 3 == i && (3 * i + 2) % 3 == 2);
    assert(rules.take(2 + 3 * (i + 1)) =~= rules.take(2 + 3 * i) + sq_ring(size, rot, i));
}

fn push_ring(gen: &mut Vec<(Movable, Pos)>, size: i32, rot: i32, a: i32, b: i32, c: i32, i: i32)
    requires
        0 <= i < 6,
        0 < size <= CELL_MAX,
        -360 <= rot <= 360,
        c == sq_c(size as int),
        0 <= c <= 2 * CELL_MAX,
        a == sq_a(size as int),
        b == sq_b(size as int),
        0 <= a <= CELL_MAX,
        0 <= b <= CELL_MAX,
        placements_ok(old(gen)@),
    ensures
        placements_ok(final(gen)@),
        placements_view(final(gen)@) == placements_view(old(gen)@) + sq_ring(size as int, rot as int, i as int),
{
    let ghost before = gen@;
    let m0 = sq_shape_exec(size, rot, c, 3 + (i as usize % 2));
    gen.push((m0, polar(rot + i * 60, c)));
    let m1 = sq_shape_exec(size, rot, c, i as usize % 3);
    gen.push((m1, polar(rot + i * 60, c + b + a)));
    let m2 = sq_shape_exec(size, rot, c, 5 + (i as usize % 2));
    gen.push((m2, polar(rot + i * 60 + 30, 2 * a + c)));
    proof {
        assert(placements_view(gen@) =~= placements_view(before) + sq_ring(size as int, rot as int, i as int));
    }
}

/// Tiles the frame with squares of circumradius `size` and the triangles between them,
/// turned by `rot` degrees.
pub fn tile_hybrid_squares_triangles(f: &Frame, size: i32, rot: i32) -> (r: Option<Vec<(Pos, Vec<Pos>)>>)
    requires
        f.wf(),
        0 < size <= CELL_MAX,
        -360 <= rot <= 360,
    ensures
        tiling_outcome(
            *f,
            add_spec(polar_spec(rot as int, sq_reach(size as int)), polar_spec(rot + 60, sq_reach(size as int))),
            add_spec(polar_spec(rot as int, sq_reach(size as int)), polar_spec(rot - 60, sq_reach(size as int))),
            sq_rules(size as int, rot as int),
            r,
        ),
{
    let (a, b, c) = sq_lengths(size);
    let reach = c + 2 * a + 2 * b;
    let idir = polar(rot, reach).add(polar(rot + 60, reach));
    let jdir = polar(rot, reach).add(polar(rot - 60, reach));
    let far = polar(rot, reach);
    let mut gen: Vec<(Movable, Pos)> = Vec::new();
    gen.push((sq_shape_exec(size, rot, c, 4), far));
    gen.push((sq_shape_exec(size, rot, c, 3), Pos(0, 0).sub(far)));
    assert(placements_view(gen@) =~= seq![
        (sq_shape(size as int, rot as int, 4), polar_spec(rot as int, sq_reach(size as int))),
        (sq_shape(size as int, rot as int, 3), sub_spec(Pos(0, 0), polar_spec(rot as int, sq_reach(size as int)))),
    ]);
    let ghost rules = sq_rules(size as int, rot as int);
    proof {
        lemma_sq_rules_head(size as int, rot as int, placements_view(gen@));
    }
    let mut i: i32 = 0;
    while i < 6
        invariant
            0 <= i <= 6,
            0 < size <= CELL_MAX,
            -360 <= rot <= 360,
            c == sq_c(size as int),
            0 <= c <= 2 * CELL_MAX,
            a == sq_a(size as int),
            b == sq_b(size as int),
            0 <= a <= CELL_MAX,
            0 <= b <= CELL_MAX,
            rules == sq_rules(size as int, rot as int),
            placements_ok(gen@),
            placements_view(gen@) == rules.take(2 + 3 * i),
        decreases 6 - i,
    {
        push_ring(&mut gen, size, rot, a, b, c, i);
        proof {
            lemma_sq_rules_step(size as int, rot as int, i as int);
        }
        i += 1;
    }
    proof {
        assert(rules.len() == 20);
        assert(rules.take(20) =~= rules);
    }
    periodic_grid_tiling(f, &gen, idir, jdir)
}

/// `n / d` rounded toward zero, for a divisor of either sign.
pub open spec fn quot(n: int, d: int) -> int {
    if d > 0 {
        crate::pos::trunc_div(n, d)
    } else {
        crate::pos::trunc_div(-n, -d)
    }
}

/// Where the line through `p` in the direction of `a` degrees meets the line through `q`
/// in the direction of `b` degrees, as exact coordinates; `None` for parallel lines.
pub open spec fn meet_spec(p: Pos, a: int, q: Pos, b: int) -> Option<(int, int)> {
    let ux = crate::trig::cos_deg(a);
    let uy = crate::trig::sin_deg(a);
    let vx = crate::trig::cos_deg(b);
    let vy = crate::trig::sin_deg(b);
    let den = ux * vy - uy * vx;
    let num = (q.0 - p.0) * vy - (q.1 - p.1) * vx;
    if den == 0 {
        None
    } else {
        Some((p.0 + quot(ux * num, den), p.1 + quot(uy * num, den)))
    }
}

/// The meeting point of the two lines, when they meet within `SPAN` of the origin.
pub open spec fn intersect_spec(p: Pos, a: int, q: Pos, b: int) -> Option<Pos> {
    match meet_spec(p, a, q, b) {
        Some((x, y)) => if -SPAN <= x <= SPAN && -SPAN <= y <= SPAN {
            Some(Pos(x as i32, y as i32))
        } else {
            None
        },
        None => None,
    }
}

fn quot_exec(n: i128, d: i128) -> (r: i128)
    requires
        d != 0,
        -1000000000000000000000000000 <= n <= 1000000000000000000000000000,
        -1000000000000000000000000000 <= d <= 1000000000000000000000000000,
    ensures
        r == quot(n as int, d as int),
{
    let (m, e) = if d > 0 { (n, d) } else { (-n, -d) };
    if m >= 0 {
        m / e
    } else {
        -((-m) / e)
    }
}

impl Pos {
    /// Where the line through `l1.0` in the direction of `l1.1` degrees meets the line
    /// through `l2.0` in the direction of `l2.1` degrees; `None` when they are parallel
    /// or meet farther than `SPAN` from the origin.
    pub fn intersect(l1: (Pos, i32), l2: (Pos, i32)) -> (r: Option<Pos>)
        requires
            within(l1.0, SPAN as int),
            within(l2.0, SPAN as int),
        ensures
            r == intersect_spec(l1.0, l1.1 as int, l2.0, l2.1 as int),
    {
        let (p, a) = l1;
        let (q, b) = l2;
        let ux = crate::trig::cos_micro(a as i64) as i128;
        let uy = crate::trig::sin_micro(a as i64) as i128;
        let vx = crate::trig::cos_micro(b as i64) as i128;
        let vy = crate::trig::sin_micro(b as i64) as i128;
        proof {
            crate::pos::lemma_mul_magnitude(ux as int, vy as int, 1000000, 1000000);
            crate::pos::lemma_mul_magnitude(uy as int, vx as int, 1000000, 1000000);
        }
        let den = ux * vy - uy * vx;
        let dx = q.0 as i128 - p.0 as i128;
        let dy = q.1 as i128 - p.1 as i128;
        proof {
            crate::pos::lemma_mul_magnitude(dx as int, vy as int, 200000000, 1000000);
            crate::pos::lemma_mul_magnitude(dy as int, vx as int, 200000000, 1000000);
        }
        let num = dx * vy - dy * vx;
        if den == 0 {
            return None;
        }
        proof {
            crate::pos::lemma_mul_magnitude(ux as int, num as int, 1000000, 400000000000000);
            crate::pos::lemma_mul_magnitude(uy as int, num as int, 1000000, 400000000000000);
        }
        let x = p.0 as i128 + quot_exec(ux * num, den);
        let y = p.1 as i128 + quot_exec(uy * num, den);
        proof {
            assert(meet_spec(p, a as int, q, b as int) == Some((x as int, y as int)));
        }
        if -(SPAN as i128) <= x && x <= SPAN as i128 && -(SPAN as i128) <= y && y <= SPAN as i128 {
            Some(Pos(x as i32, y as i32))
        } else {
            None
        }
    }
}

/// A pentagon given by three side lengths and five turning angles (degrees), with its
/// first side along `rot` degrees; the fourth vertex closes it where two sides meet.
pub struct Pentagon {
    pub rot: i32,
    pub sizes: [i32; 3],
    pub angles: [i32; 5],
}

/// The five vertices of the pentagon before centering: the fourth one is where the side
/// from the fifth vertex meets the side from the third; `None` when they do not meet
/// within `SPAN`.
pub open spec fn pentagon_corners(p: Pentagon) -> Option<Seq<Pos>> {
    let s = p.sizes@;
    let g = p.angles@;
    let a = Pos(0, 0);
    let b = add_spec(a, polar_spec(p.rot as int, s[1] as int));
    let c = add_spec(b, polar_spec(p.rot + g[1], s[2] as int));
    let e = add_spec(a, polar_spec(p.rot - g[0], s[0] as int));
    match intersect_spec(e, p.rot - g[0] - g[4], c, p.rot + g[1] + g[2]) {
        Some(d) => Some(seq![a, b, c, d, e]),
        None => None,
    }
}

/// The mean of five points, each coordinate rounded toward zero.
pub open spec fn mean5(v: Seq<Pos>) -> Pos {
    Pos(
        crate::pos::trunc_div(v[0].0 + v[1].0 + v[2].0 + v[3].0 + v[4].0, 5) as i32,
        crate::pos::trunc_div(v[0].1 + v[1].1 + v[2].1 + v[3].1 + v[4].1, 5) as i32,
    )
}

/// Five points less their mean, when the differences stay within `SPAN`.
pub open spec fn centered(v: Seq<Pos>) -> Option<Seq<Pos>> {
    let offs = v.map_values(|q: Pos| sub_spec(q, mean5(v)));
    if forall|i: int| 0 <= i < 5 ==> within(#[trigger] offs[i], SPAN as int) {
        Some(offs)
    } else {
        None
    }
}

/// The pentagon template: its vertices less their mean, when they stay within `SPAN`.
pub open spec fn pentagon_offsets(p: Pentagon) -> Option<Seq<Pos>> {
    match pentagon_corners(p) {
        Some(v) => centered(v),
        None => None,
    }
}

fn center_five(corners: &Vec<Pos>) -> (r: Option<Movable>)
    requires
        corners@.len() == 5,
        forall|j: int| 0 <= j < 5 ==> within(#[trigger] corners@[j], SPAN as int),
    ensures
        match r {
            Some(m) => centered(corners@) == Some(m.0@) && m.wf(),
            None => centered(corners@) is None,
        },
{
    let mid = mean5_exec(corners);
    let ghost offs = corners@.map_values(|q: Pos| sub_spec(q, mean5(corners@)));
    let mut v: Vec<Pos> = Vec::new();
    let mut i: usize = 0;
    while i < 5
        invariant
            corners@.len() == 5,
            mid == mean5(corners@),
            within(mid, SPAN as int),
            forall|j: int| 0 <= j < 5 ==> within(#[trigger] corners@[j], SPAN as int),
            offs == corners@.map_values(|q: Pos| sub_spec(q, mean5(corners@))),
            i <= 5,
            v@ == offs.take(i as int),
            forall|j: int| 0 <= j < i ==> within(#[trigger] offs[j], SPAN as int),
        decreases 5 - i,
    {
        assert(within(corners@[i as int], SPAN as int));
        let o = corners[i].sub(mid);
        assert(o == offs[i as int]);
        if !(-SPAN <= o.0 && o.0 <= SPAN && -SPAN <= o.1 && o.1 <= SPAN) {
            assert(!within(offs[i as int], SPAN as int));
            return None;
        }
        v.push(o);
        assert(offs.take(i as int + 1) == offs.take(i as int).push(o));
        i += 1;
    }
    assert(offs.take(5) == offs);
    Some(Movable(v))
}

fn mean5_exec(v: &Vec<Pos>) -> (r: Pos)
    requires
        v@.len() == 5,
        forall|i: int| 0 <= i < 5 ==> within(#[trigger] v@[i], SPAN as int),
    ensures
        r == mean5(v@),
        within(r, SPAN as int),
{
    let sx: i64 = v[0].0 as i64 + v[1].0 as i64 + v[2].0 as i64 + v[3].0 as i64 + v[4].0 as i64;
    let sy: i64 = v[0].1 as i64 + v[1].1 as i64 + v[2].1 as i64 + v[3].1 as i64 + v[4].1 as i64;
    let x = if sx >= 0 { sx / 5 } else { -((-sx) / 5) };
    let y = if sy >= 0 { sy / 5 } else { -((-sy) / 5) };
    Pos(x as i32, y as i32)
}

impl Pentagon {
    /// The sides are at most twice `CELL_MAX` and the angles at most a full turn.
    pub open spec fn wf(&self) -> bool {
        &&& -360 <= self.rot <= 360
        &&& forall|i: int| 0 <= i < 3 ==> 0 <= #[trigger] self.sizes@[i] <= 2 * CELL_MAX
        &&& forall|i: int| 0 <= i < 5 ==> 0 <= #[trigger] self.angles@[i] <= 360
    }

    /// The pentagon as a template centered on the mean of its vertices.
    pub fn to_movable(&self) -> (r: Option<Movable>)
        requires
            self.wf(),
        ensures
            match r {
                Some(m) => pentagon_offsets(*self) == Some(m.0@) && m.wf(),
                None => pentagon_offsets(*self) is None,
            },
    {
        let s0 = self.sizes[0];
        let s1 = self.sizes[1];
        let s2 = self.sizes[2];
        let g0 = self.angles[0];
        let g1 = self.angles[1];
        let g2 = self.angles[2];
        let g4 = self.angles[4];
        let a = Pos::zero();
        let b = a.add(polar(self.rot, s1));
        let c = b.add(polar(self.rot + g1, s2));
        let e = a.add(polar(self.rot - g0, s0));
        let d = match Pos::intersect((e, self.rot - g0 - g4), (c, self.rot + g1 + g2)) {
            Some(d) => d,
            None => {
                return None;
            },
        };
        let corners = vec![a, b, c, d, e];
        assert(corners@ == pentagon_corners(*self)->Some_0);
        center_five(&corners)
    }
}

/// The pentagon of the type-one tiling for cell size `size` turned by `rot` degrees.
pub open spec fn type1_pentagon(size: int, rot: int) -> Pentagon {
    Pentagon { rot: rot as i32, sizes: [size as i32, (size / 5) as i32, (size * 11 / 10) as i32], angles: [130, 110, 70, 110, 120] }
}

/// Tiles the frame with convex pentagons of the first type (two per lattice site, half a
/// turn apart, on a lattice spanned along `rot` and a quarter turn further), turned by
/// `rot` degrees; `None` when the pentagon does not close within bounds or the basis is
/// degenerate.
pub fn pentagons_type1(f: &Frame, size: i32, rot: i32) -> (r: Option<Vec<(Pos, Vec<Pos>)>>)
    requires
        f.wf(),
        0 < size <= CELL_MAX,
        -360 <= rot <= 360,
    ensures
        match pentagon_offsets(type1_pentagon(size as int, rot as int)) {
            None => r is None,
            Some(offs) => tiling_outcome(
                *f,
                polar_spec(rot as int, size as int),
                polar_spec(rot + 90, size as int),
                seq![(offs, polar_spec(rot as int, size as int)), (offs, polar_spec(rot + 180, size as int))],
                r,
            ),
        },
{
    let beta: i32 = 110;
    let gamma: i32 = 180 - beta;
    let alpha: i32 = 130;
    let delta: i32 = 110;
    let epsilon: i32 = 360 - alpha - delta;
    let sizes = [size, size / 5, size * 11 / 10];
    let angles = [alpha, beta, gamma, delta, epsilon];
    let pent = Pentagon { sizes, rot, angles };
    assert(pent == type1_pentagon(size as int, rot as int));
    let mv = match pent.to_movable() {
        Some(m) => m,
        None => {
            return None;
        },
    };
    let idir = polar(rot, size);
    let jdir = polar(rot + 90, size);
    let m2 = mv.duplicate();
    let ghost offs = mv.0@;
    let gen = vec![(mv, polar(rot, size)), (m2, polar(rot + 180, size))];
    assert(placements_view(gen@) =~= seq![(offs, polar_spec(rot as int, size as int)), (offs, polar_spec(rot + 180, size as int))]);
    periodic_grid_tiling(f, &gen, idir, jdir)
}

} // verus!
