use vstd::prelude::*;
use std::collections::HashSet;
use crate::frame::{center_spec, inside_spec, Frame};
use crate::pos::{add_spec, sub_spec, Pos};
use crate::shape::{within, SPAN};

verus! {

broadcast use vstd::std_specs::hash::group_hash_axioms;

/// Multiplier that packs the two coordinates of a site into one key.
pub const KEY_SHIFT: i64 = 4294967296;

/// Bound on the keys of the sites that the flood fill ever marks.
pub const KEY_BOUND: i64 = 900000000000000000;

/// The key under which a site is marked as visited.
pub open spec fn site_key(p: Pos) -> int {
    p.0 * KEY_SHIFT + p.1
}

/// The point `c + i * u + j * v`, as a pair of coordinates.
pub open spec fn lattice_at(c: Pos, u: Pos, v: Pos, i: int, j: int) -> (int, int) {
    (c.0 + i * u.0 + j * v.0, c.1 + i * u.1 + j * v.1)
}

/// `p` is a site of the lattice spanned by `u` and `v` around `c`.
pub open spec fn on_lattice(p: Pos, c: Pos, u: Pos, v: Pos) -> bool {
    exists|i: int, j: int| #[trigger] lattice_at(c, u, v, i, j) == (p.0 as int, p.1 as int)
}

/// The four lattice neighbours of `p`, in the order the flood fill visits them:
/// one step along `v` either way, then one step along `u` either way.
pub open spec fn neighbour(p: Pos, u: Pos, v: Pos, d: int) -> Pos {
    if d == 0 {
        add_spec(p, v)
    } else if d == 1 {
        sub_spec(p, v)
    } else if d == 2 {
        add_spec(p, u)
    } else {
        sub_spec(p, u)
    }
}

/// `sites` holds, once each, the lattice sites in the frame that the center reaches by
/// single lattice steps through sites in the frame.
pub open spec fn lattice_cover(f: Frame, u: Pos, v: Pos, sites: Seq<Pos>) -> bool {
    &&& sites.no_duplicates()
    &&& sites.contains(center_spec(f))
    &&& forall|k: int|
        0 <= k < sites.len() ==> inside_spec(f, #[trigger] sites[k]) && on_lattice(
            sites[k],
            center_spec(f),
            u,
            v,
        )
    &&& forall|k: int, d: int|
        0 <= k < sites.len() && 0 <= d < 4 && inside_spec(f, #[trigger] neighbour(sites[k], u, v, d))
            ==> sites.contains(neighbour(sites[k], u, v, d))
    &&& forall|k: int| 0 <= k < sites.len() ==> reached(f, u, v, #[trigger] sites[k])
}

/// `steps` is a walk of single lattice steps from the center whose points before the last
/// all lie in the frame.
pub open spec fn walk_through(f: Frame, u: Pos, v: Pos, steps: Seq<int>) -> bool {
    &&& forall|i: int| 0 <= i < steps.len() ==> 0 <= #[trigger] steps[i] < 4
    &&& forall|k: int| 0 <= k < steps.len() ==> inside_spec(f, #[trigger] walk(center_spec(f), u, v, steps.take(k)))
}

/// Some walk of single lattice steps through the frame leads from the center to `p`.
pub open spec fn reached(f: Frame, u: Pos, v: Pos, p: Pos) -> bool {
    exists|steps: Seq<int>| #[trigger] walk_through(f, u, v, steps) && walk(center_spec(f), u, v, steps) == p
}

proof fn lemma_reached_center(f: Frame, u: Pos, v: Pos)
    ensures
        reached(f, u, v, center_spec(f)),
{
    let steps = Seq::<int>::empty();
    assert(walk_through(f, u, v, steps));
    assert(walk(center_spec(f), u, v, steps) == center_spec(f));
}

proof fn lemma_reached_step(f: Frame, u: Pos, v: Pos, p: Pos, d: int)
    requires
        reached(f, u, v, p),
        inside_spec(f, p),
        0 <= d < 4,
    ensures
        reached(f, u, v, neighbour(p, u, v, d)),
{
    let c = center_spec(f);
    let steps = choose|steps: Seq<int>| #[trigger] walk_through(f, u, v, steps) && walk(c, u, v, steps) == p;
    let s2 = steps.push(d);
    assert(s2.drop_last() == steps);
    assert(walk(c, u, v, s2) == neighbour(p, u, v, d));
    assert forall|i: int| 0 <= i < s2.len() implies 0 <= #[trigger] s2[i] < 4 by {
        if i < steps.len() {
            assert(s2[i] == steps[i]);
        }
    }
    assert forall|k: int| 0 <= k < s2.len() implies inside_spec(f, #[trigger] walk(c, u, v, s2.take(k))) by {
        if k < steps.len() {
            assert(s2.take(k) == steps.take(k));
        } else {
            assert(s2.take(k) == steps);
        }
    }
    assert(walk_through(f, u, v, s2));
}

proof fn lemma_key_injective(p: Pos, q: Pos)
    requires
        site_key(p) == site_key(q),
    ensures
        p == q,
{
    assert(p.0 == q.0) by (nonlinear_arith)
        requires
            p.0 * 4294967296 + p.1 == q.0 * 4294967296 + q.1,
            -2147483648 <= p.1 <= 2147483647,
            -2147483648 <= q.1 <= 2147483647,
    ;
}

proof fn lemma_key_range(p: Pos)
    requires
        within(p, 2 * SPAN),
    ensures
        -KEY_BOUND <= site_key(p) <= KEY_BOUND,
{
    assert(-KEY_BOUND <= site_key(p) <= KEY_BOUND) by (nonlinear_arith)
        requires
            -200000000 <= p.0 <= 200000000,
            -200000000 <= p.1 <= 200000000,
    ;
}

proof fn lemma_bounded_keys(s: Set<i64>)
    requires
        s.finite(),
        forall|k: i64| s.contains(k) ==> -KEY_BOUND <= k <= KEY_BOUND,
    ensures
        s.len() <= 2 * KEY_BOUND + 1,
{
    let f = |k: i64| k as int;
    let img = s.map(f);
    assert(vstd::relations::injective_on(f, s));
    vstd::set_lib::lemma_map_size(s, img, f);
    vstd::set_lib::lemma_int_range(-KEY_BOUND as int, KEY_BOUND + 1);
    assert(img.subset_of(vstd::set_lib::set_int_range(-KEY_BOUND as int, KEY_BOUND + 1)));
    vstd::set_lib::lemma_len_subset(img, vstd::set_lib::set_int_range(-KEY_BOUND as int, KEY_BOUND + 1));
}

proof fn lemma_step_on_lattice(p: Pos, c: Pos, u: Pos, v: Pos, d: int)
    requires
        on_lattice(p, c, u, v),
        0 <= d < 4,
        within(p, SPAN as int),
        within(u, SPAN as int),
        within(v, SPAN as int),
    ensures
        on_lattice(neighbour(p, u, v, d), c, u, v),
{
    let (i, j) = choose|i: int, j: int| #[trigger] lattice_at(c, u, v, i, j) == (p.0 as int, p.1 as int);
    let n = neighbour(p, u, v, d);
    if d == 0 {
        assert(lattice_at(c, u, v, i, j + 1) == (n.0 as int, n.1 as int)) by (nonlinear_arith)
            requires lattice_at(c, u, v, i, j) == (p.0 as int, p.1 as int), n.0 == p.0 + v.0, n.1 == p.1 + v.1;
    } else if d == 1 {
        assert(lattice_at(c, u, v, i, j - 1) == (n.0 as int, n.1 as int)) by (nonlinear_arith)
            requires lattice_at(c, u, v, i, j) == (p.0 as int, p.1 as int), n.0 == p.0 - v.0, n.1 == p.1 - v.1;
    } else if d == 2 {
        assert(lattice_at(c, u, v, i + 1, j) == (n.0 as int, n.1 as int)) by (nonlinear_arith)
            requires lattice_at(c, u, v, i, j) == (p.0 as int, p.1 as int), n.0 == p.0 + u.0, n.1 == p.1 + u.1;
    } else {
        assert(lattice_at(c, u, v, i - 1, j) == (n.0 as int, n.1 as int)) by (nonlinear_arith)
            requires lattice_at(c, u, v, i, j) == (p.0 as int, p.1 as int), n.0 == p.0 - u.0, n.1 == p.1 - u.1;
    }
}

fn neighbour_exec(p: Pos, u: Pos, v: Pos, d: usize) -> (n: Pos)
    requires
        within(p, SPAN as int),
        within(u, SPAN as int),
        within(v, SPAN as int),
        d < 4,
    ensures
        n == neighbour(p, u, v, d as int),
        within(n, 2 * SPAN),
{
    if d == 0 {
        p.add(v)
    } else if d == 1 {
        p.sub(v)
    } else if d == 2 {
        p.add(u)
    } else {
        p.sub(u)
    }
}

fn key_exec(p: Pos) -> (k: i64)
    requires
        within(p, 2 * SPAN),
    ensures
        k == site_key(p),
{
    proof {
        lemma_key_range(p);
    }
    p.0 as i64 * KEY_SHIFT + p.1 as i64
}

/// The bookkeeping of the flood fill: the visited set and its keys, the stack, and the
/// sites emitted so far.
pub open spec fn fill_state(
    f: Frame,
    u: Pos,
    v: Pos,
    seen: Set<i64>,
    visited: Set<Pos>,
    stk: Seq<Pos>,
    out: Seq<Pos>,
) -> bool {
    &&& seen.finite()
    &&& forall|k: i64| seen.contains(k) ==> -KEY_BOUND <= k <= KEY_BOUND
    &&& forall|p: Pos| within(p, 2 * SPAN) ==> (#[trigger] visited.contains(p) <==> seen.contains(site_key(p) as i64))
    &&& forall|p: Pos| #[trigger] visited.contains(p) ==> within(p, 2 * SPAN)
    &&& visited.contains(center_spec(f))
    &&& out.no_duplicates()
    &&& stk.no_duplicates()
    &&& forall|a: int, b: int| 0 <= a < out.len() && 0 <= b < stk.len() ==> out[a] != stk[b]
    &&& forall|k: int|
        0 <= k < out.len() ==> inside_spec(f, #[trigger] out[k]) && on_lattice(out[k], center_spec(f), u, v) && visited.contains(out[k])
    &&& forall|k: int|
        0 <= k < stk.len() ==> visited.contains(#[trigger] stk[k]) && on_lattice(stk[k], center_spec(f), u, v)
    &&& forall|p: Pos| #[trigger] visited.contains(p) ==> out.contains(p) || stk.contains(p) || !inside_spec(f, p)
}

/// Every site of `out[..upto]` has its four neighbours visited.
pub open spec fn expanded(u: Pos, v: Pos, visited: Set<Pos>, out: Seq<Pos>, upto: int) -> bool {
    forall|k: int, d: int|
        0 <= k < upto && 0 <= d < 4 ==> visited.contains(#[trigger] neighbour(out[k], u, v, d))
}

/// Flood fill of the lattice spanned by `idir` and `jdir` from the frame's center: the
/// sites in the frame that single lattice steps through the frame reach, each once.
pub fn lattice_sites(f: &Frame, idir: Pos, jdir: Pos) -> (r: Vec<Pos>)
    requires
        f.wf(),
        within(idir, SPAN as int),
        within(jdir, SPAN as int),
    ensures
        lattice_cover(*f, idir, jdir, r@),
{
    let center = f.center();
    let mut seen: HashSet<i64> = HashSet::new();
    let mut stk: Vec<Pos> = Vec::new();
    let mut out: Vec<Pos> = Vec::new();
    let ghost mut visited: Set<Pos> = Set::empty();
    proof {
        assert(lattice_at(center, idir, jdir, 0, 0) == (center.0 as int, center.1 as int));
    }
    let ck = key_exec(center);
    seen.insert(ck);
    stk.push(center);
    proof {
        visited = visited.insert(center);
        assert forall|p: Pos| within(p, 2 * SPAN) implies (#[trigger] visited.contains(p) <==> seen@.contains(site_key(p) as i64)) by {
            if seen@.contains(site_key(p) as i64) {
                lemma_key_injective(p, center);
            }
        }
        assert(stk@[0] == center);
        lemma_reached_center(*f, idir, jdir);
    }
    while stk.len() > 0
        invariant
            f.wf(),
            within(idir, SPAN as int),
            within(jdir, SPAN as int),
            center == center_spec(*f),
            fill_state(*f, idir, jdir, seen@, visited, stk@, out@),
            expanded(idir, jdir, visited, out@, out@.len() as int),
            seen@.len() <= 2 * KEY_BOUND + 1,
            forall|k: int| 0 <= k < stk@.len() ==> reached(*f, idir, jdir, #[trigger] stk@[k]),
            forall|k: int| 0 <= k < out@.len() ==> reached(*f, idir, jdir, #[trigger] out@[k]),
        decreases 2 * (2 * (KEY_BOUND as int) + 1 - seen@.len()) + stk@.len(),
    {
        let ghost seen0 = seen@.len();
        let ghost stk0 = stk@.len();
        let ghost stk_old = stk@;
        let pos = stk.pop().unwrap();
        proof {
            assert(stk_old == stk@.push(pos));
            assert(stk@.len() + 1 == stk0);
            assert(stk_old[stk_old.len() - 1] == pos);
            assert(visited.contains(pos));
            assert(reached(*f, idir, jdir, pos));
            assert forall|k: int| 0 <= k < stk@.len() implies reached(*f, idir, jdir, #[trigger] stk@[k]) by {
                assert(stk_old[k] == stk@[k]);
            }
            assert forall|p: Pos| #[trigger] visited.contains(p) implies out@.contains(p) || stk@.contains(p) || p == pos || !inside_spec(*f, p) by {
                if stk_old.contains(p) {
                    let i = choose|i: int| 0 <= i < stk_old.len() && stk_old[i] == p;
                    if i < stk@.len() {
                        assert(stk@[i] == p);
                    }
                }
            }
            assert forall|k: int| 0 <= k < stk@.len() implies stk@[k] != pos by {
                assert(stk_old[k] == stk@[k]);
            }
        }
        if f.is_inside(pos) {
            let ghost out_old = out@;
            out.push(pos);
            proof {
                assert(out@ == out_old.push(pos));
                assert forall|k: int| 0 <= k < out@.len() implies reached(*f, idir, jdir, #[trigger] out@[k]) by {
                    if k < out_old.len() {
                        assert(out_old[k] == out@[k]);
                    }
                }
                assert forall|a: int| 0 <= a < out_old.len() implies out_old[a] != pos by {
                    assert(stk_old[stk_old.len() - 1] == pos);
                }
                assert forall|a: int, b: int| 0 <= a < out@.len() && 0 <= b < out@.len() && a != b implies out@[a] != out@[b] by {
                    if a < out_old.len() && b < out_old.len() {
                        assert(out_old[a] != out_old[b]);
                    }
                }
                assert forall|a: int, b: int| 0 <= a < out@.len() && 0 <= b < stk@.len() implies out@[a] != stk@[b] by {
                    if a < out_old.len() {
                        assert(stk_old[b] == stk@[b]);
                    }
                }
                assert forall|k: int| 0 <= k < out@.len() implies inside_spec(*f, #[trigger] out@[k]) && on_lattice(out@[k], center_spec(*f), idir, jdir) && visited.contains(out@[k]) by {
                    if k == out_old.len() {
                        assert(stk_old[stk_old.len() - 1] == pos);
                    } else {
                        assert(out_old[k] == out@[k]);
                    }
                }
                assert forall|p: Pos| #[trigger] visited.contains(p) implies out@.contains(p) || stk@.contains(p) || !inside_spec(*f, p) by {
                    if p == pos {
                        assert(out@[out_old.len() as int] == pos);
                    } else if out_old.contains(p) {
                        let i = choose|i: int| 0 <= i < out_old.len() && out_old[i] == p;
                        assert(out@[i] == p);
                    }
                }
                assert forall|k: int, d: int| 0 <= k < out@.len() - 1 && 0 <= d < 4 implies visited.contains(#[trigger] neighbour(out@[k], idir, jdir, d)) by {
                    assert(out_old[k] == out@[k]);
                }
                assert(fill_state(*f, idir, jdir, seen@, visited, stk@, out@));
            }
            let mut d: usize = 0;
            while d < 4
                invariant
                    f.wf(),
                    within(idir, SPAN as int),
                    within(jdir, SPAN as int),
                    center == center_spec(*f),
                    inside_spec(*f, pos),
                    out@.len() > 0,
                    out@.last() == pos,
                    d <= 4,
                    fill_state(*f, idir, jdir, seen@, visited, stk@, out@),
                    expanded(idir, jdir, visited, out@, out@.len() - 1),
                    forall|e: int| 0 <= e < d ==> visited.contains(#[trigger] neighbour(pos, idir, jdir, e)),
                    seen@.len() <= 2 * KEY_BOUND + 1,
                    seen@.len() - seen0 == stk@.len() + 1 - stk0,
                    reached(*f, idir, jdir, pos),
                    forall|k: int| 0 <= k < stk@.len() ==> reached(*f, idir, jdir, #[trigger] stk@[k]),
                    forall|k: int| 0 <= k < out@.len() ==> reached(*f, idir, jdir, #[trigger] out@[k]),
                    seen@.len() >= seen0,
                decreases 4 - d,
            {
                let n = neighbour_exec(pos, idir, jdir, d);
                let k = key_exec(n);
                proof {
                    lemma_step_on_lattice(pos, center, idir, jdir, d as int);
                    lemma_reached_step(*f, idir, jdir, pos, d as int);
                }
                let ghost seen_before = seen@;
                let ghost stk_before = stk@;
                proof {
                    assert(visited.contains(n) <==> seen@.contains(k));
                }
                if seen.insert(k) {
                    stk.push(n);
                    proof {
                        assert(!visited.contains(n));
                        assert(stk@ == stk_before.push(n));
                        assert forall|i: int| 0 <= i < stk@.len() implies reached(*f, idir, jdir, #[trigger] stk@[i]) by {
                            if i < stk_before.len() {
                                assert(stk_before[i] == stk@[i]);
                            }
                        }
                        assert forall|a: int| 0 <= a < stk_before.len() implies stk_before[a] != n by {
                            assert(visited.contains(stk_before[a]));
                        }
                        assert forall|a: int| 0 <= a < out@.len() implies out@[a] != n by {
                            assert(visited.contains(out@[a]));
                        }
                        let old_visited = visited;
                        visited = visited.insert(n);
                        lemma_key_range(n);
                        assert forall|p: Pos| within(p, 2 * SPAN) implies (#[trigger] visited.contains(p) <==> seen@.contains(site_key(p) as i64)) by {
                            if seen@.contains(site_key(p) as i64) && p != n {
                                if site_key(p) == site_key(n) {
                                    lemma_key_injective(p, n);
                                }
                            }
                        }
                        assert forall|i: int| 0 <= i < stk@.len() implies visited.contains(#[trigger] stk@[i]) && on_lattice(stk@[i], center_spec(*f), idir, jdir) by {
                            if i < stk_before.len() {
                                assert(stk_before[i] == stk@[i]);
                            }
                        }
                        assert forall|a: int, b: int| 0 <= a < stk@.len() && 0 <= b < stk@.len() && a != b implies stk@[a] != stk@[b] by {
                            if a < stk_before.len() && b < stk_before.len() {
                                assert(stk_before[a] != stk_before[b]);
                            }
                        }
                        assert forall|a: int, b: int| 0 <= a < out@.len() && 0 <= b < stk@.len() implies out@[a] != stk@[b] by {
                            if b < stk_before.len() {
                                assert(stk_before[b] == stk@[b]);
                            }
                        }
                        assert forall|p: Pos| #[trigger] visited.contains(p) implies out@.contains(p) || stk@.contains(p) || !inside_spec(*f, p) by {
                            if p == n {
                                assert(stk@[stk_before.len() as int] == n);
                            } else if stk_before.contains(p) {
                                let i = choose|i: int| 0 <= i < stk_before.len() && stk_before[i] == p;
                                assert(stk@[i] == p);
                            }
                        }
                        assert forall|q: i64| seen@.contains(q) implies -KEY_BOUND <= q <= KEY_BOUND by {
                            if q != k {
                                assert(seen_before.contains(q));
                            }
                        }
                        lemma_bounded_keys(seen@);
                        assert(fill_state(*f, idir, jdir, seen@, visited, stk@, out@));
                    }
                }
                d += 1;
            }
            proof {
                assert forall|k: int, e: int| 0 <= k < out@.len() && 0 <= e < 4 implies visited.contains(#[trigger] neighbour(out@[k], idir, jdir, e)) by {
                    if k == out@.len() - 1 {
                        assert(out@[k] == pos);
                    }
                }
            }
        } else {
            proof {
                assert forall|k: int| 0 <= k < stk@.len() implies visited.contains(#[trigger] stk@[k]) && on_lattice(stk@[k], center_spec(*f), idir, jdir) by {
                    assert(stk_old[k] == stk@[k]);
                }
                assert forall|a: int, b: int| 0 <= a < out@.len() && 0 <= b < stk@.len() implies out@[a] != stk@[b] by {
                    assert(stk_old[b] == stk@[b]);
                }
                assert(fill_state(*f, idir, jdir, seen@, visited, stk@, out@));
            }
        }
        assert(seen@.len() >= seen0);
        assert(2 * (2 * (KEY_BOUND as int) + 1 - seen@.len()) + stk@.len() < 2 * (2 * (KEY_BOUND as int) + 1 - seen0) + stk0);
    }
    proof {
        assert forall|k: int, d: int|
            0 <= k < out@.len() && 0 <= d < 4 && inside_spec(*f, #[trigger] neighbour(out@[k], idir, jdir, d))
            implies out@.contains(neighbour(out@[k], idir, jdir, d)) by {
            assert(visited.contains(neighbour(out@[k], idir, jdir, d)));
        }
        assert(inside_spec(*f, center));
    }
    out
}

/// Where single lattice steps (`0..4`, as in `neighbour`) lead from `c`.
pub open spec fn walk(c: Pos, u: Pos, v: Pos, steps: Seq<int>) -> Pos
    decreases steps.len(),
{
    if steps.len() == 0 {
        c
    } else {
        neighbour(walk(c, u, v, steps.drop_last()), u, v, steps.last())
    }
}

/// Coverage: every lattice site that a finite walk of single steps reaches from the
/// center, without leaving the frame, is one of the emitted sites.
pub proof fn lemma_reachable_emitted(f: Frame, u: Pos, v: Pos, sites: Seq<Pos>, steps: Seq<int>)
    requires
        lattice_cover(f, u, v, sites),
        forall|i: int| 0 <= i < steps.len() ==> 0 <= #[trigger] steps[i] < 4,
        forall|k: int| 0 <= k <= steps.len() ==> inside_spec(f, #[trigger] walk(center_spec(f), u, v, steps.take(k))),
    ensures
        sites.contains(walk(center_spec(f), u, v, steps)),
    decreases steps.len(),
{
    let c = center_spec(f);
    if steps.len() == 0 {
        assert(steps.take(0) == steps);
    } else {
        let pre = steps.drop_last();
        assert forall|k: int| 0 <= k <= pre.len() implies inside_spec(f, #[trigger] walk(c, u, v, pre.take(k))) by {
            assert(pre.take(k) == steps.take(k));
        }
        assert forall|i: int| 0 <= i < pre.len() implies 0 <= #[trigger] pre[i] < 4 by {
            assert(pre[i] == steps[i]);
        }
        lemma_reachable_emitted(f, u, v, sites, pre);
        let w = walk(c, u, v, pre);
        let k = choose|k: int| 0 <= k < sites.len() && sites[k] == w;
        let d = steps.last();
        assert(steps.take(steps.len() as int) == steps);
        assert(inside_spec(f, walk(c, u, v, steps)));
        assert(walk(c, u, v, steps) == neighbour(sites[k], u, v, d));
    }
}

/// The index of a point of the frame on the hundredth grid, row by row.
pub open spec fn grid_index(f: Frame, p: Pos) -> int {
    p.0 * (100 * f.h + 1) + p.1
}

/// Bound on the work: the tiler emits each site once and only sites in the frame, so it
/// calls the placement rules at most once per point of the frame's hundredth grid.
pub proof fn lemma_site_count(f: Frame, u: Pos, v: Pos, sites: Seq<Pos>)
    requires
        f.wf(),
        lattice_cover(f, u, v, sites),
    ensures
        sites.len() <= (100 * f.w + 1) * (100 * f.h + 1),
{
    let s = sites.to_set();
    sites.unique_seq_to_set();
    let g = |p: Pos| grid_index(f, p);
    let img = s.map(g);
    let hh = 100 * f.h + 1;
    assert forall|p: Pos, q: Pos| s.contains(p) && s.contains(q) && #[trigger] g(p) == #[trigger] g(q) implies p == q by {
        assert(inside_spec(f, p) && inside_spec(f, q)) by {
            let i = choose|i: int| 0 <= i < sites.len() && sites[i] == p;
            let j = choose|j: int| 0 <= j < sites.len() && sites[j] == q;
        }
        assert(p.0 == q.0) by (nonlinear_arith)
            requires
                p.0 * hh + p.1 == q.0 * hh + q.1,
                0 <= p.1 < hh,
                0 <= q.1 < hh,
        ;
    }
    assert(vstd::relations::injective_on(g, s));
    vstd::set_lib::lemma_map_size(s, img, g);
    let top = (100 * f.w + 1) * hh;
    vstd::set_lib::lemma_int_range(0, top);
    assert forall|x: int| img.contains(x) implies vstd::set_lib::set_int_range(0, top).contains(x) by {
        let p = choose|p: Pos| s.contains(p) && g(p) == x;
        let i = choose|i: int| 0 <= i < sites.len() && sites[i] == p;
        assert(inside_spec(f, p));
        assert(0 <= p.0 * hh + p.1 < (100 * f.w + 1) * hh) by (nonlinear_arith)
            requires
                0 <= p.0 <= 100 * f.w,
                0 <= p.1 < hh,
        ;
    }
    vstd::set_lib::lemma_len_subset(img, vstd::set_lib::set_int_range(0, top));
}

/// Net number of steps along `u` in a walk (step 2 is `+u`, step 3 is `-u`).
pub open spec fn net_u(steps: Seq<int>) -> int
    decreases steps.len(),
{
    if steps.len() == 0 {
        0
    } else {
        net_u(steps.drop_last()) + if steps.last() == 2 {
            1int
        } else if steps.last() == 3 {
            -1int
        } else {
            0int
        }
    }
}

/// Net number of steps along `v` in a walk (step 0 is `+v`, step 1 is `-v`).
pub open spec fn net_v(steps: Seq<int>) -> int
    decreases steps.len(),
{
    if steps.len() == 0 {
        0
    } else {
        net_v(steps.drop_last()) + if steps.last() == 0 {
            1int
        } else if steps.last() == 1 {
            -1int
        } else {
            0int
        }
    }
}

/// A walk that stays within `SPAN` ends at the lattice point of its net step counts,
/// whatever the order of its steps.
pub proof fn lemma_walk_position(c: Pos, u: Pos, v: Pos, steps: Seq<int>)
    requires
        within(u, SPAN as int),
        within(v, SPAN as int),
        forall|i: int| 0 <= i < steps.len() ==> 0 <= #[trigger] steps[i] < 4,
        forall|k: int| 0 <= k <= steps.len() ==> within(#[trigger] walk(c, u, v, steps.take(k)), SPAN as int),
    ensures
        (walk(c, u, v, steps).0 as int, walk(c, u, v, steps).1 as int) == lattice_at(c, u, v, net_u(steps), net_v(steps)),
    decreases steps.len(),
{
    if steps.len() == 0 {
        assert(steps.take(0) == steps);
    } else {
        let pre = steps.drop_last();
        assert forall|k: int| 0 <= k <= pre.len() implies within(#[trigger] walk(c, u, v, pre.take(k)), SPAN as int) by {
            assert(pre.take(k) == steps.take(k));
        }
        assert forall|i: int| 0 <= i < pre.len() implies 0 <= #[trigger] pre[i] < 4 by {
            assert(pre[i] == steps[i]);
        }
        lemma_walk_position(c, u, v, pre);
        let p = walk(c, u, v, pre);
        assert(pre.take(pre.len() as int) == pre);
        let i = net_u(pre);
        let j = net_v(pre);
        let n = walk(c, u, v, steps);
        let d = steps.last();
        if d == 0 {
            assert(lattice_at(c, u, v, i, j + 1) == (n.0 as int, n.1 as int)) by (nonlinear_arith)
                requires lattice_at(c, u, v, i, j) == (p.0 as int, p.1 as int), n.0 == p.0 + v.0, n.1 == p.1 + v.1;
        } else if d == 1 {
            assert(lattice_at(c, u, v, i, j - 1) == (n.0 as int, n.1 as int)) by (nonlinear_arith)
                requires lattice_at(c, u, v, i, j) == (p.0 as int, p.1 as int), n.0 == p.0 - v.0, n.1 == p.1 - v.1;
        } else if d == 2 {
            assert(lattice_at(c, u, v, i + 1, j) == (n.0 as int, n.1 as int)) by (nonlinear_arith)
                requires lattice_at(c, u, v, i, j) == (p.0 as int, p.1 as int), n.0 == p.0 + u.0, n.1 == p.1 + u.1;
        } else {
            assert(lattice_at(c, u, v, i - 1, j) == (n.0 as int, n.1 as int)) by (nonlinear_arith)
                requires lattice_at(c, u, v, i, j) == (p.0 as int, p.1 as int), n.0 == p.0 - u.0, n.1 == p.1 - u.1;
        }
    }
}

/// Dedup: two walks from the center through the frame with the same net lattice
/// coordinates end at the same site, and the tiler lists that site exactly once.
pub proof fn lemma_lattice_dedup(f: Frame, u: Pos, v: Pos, sites: Seq<Pos>, s1: Seq<int>, s2: Seq<int>)
    requires
        f.wf(),
        within(u, SPAN as int),
        within(v, SPAN as int),
        lattice_cover(f, u, v, sites),
        forall|i: int| 0 <= i < s1.len() ==> 0 <= #[trigger] s1[i] < 4,
        forall|i: int| 0 <= i < s2.len() ==> 0 <= #[trigger] s2[i] < 4,
        forall|k: int| 0 <= k <= s1.len() ==> inside_spec(f, #[trigger] walk(center_spec(f), u, v, s1.take(k))),
        forall|k: int| 0 <= k <= s2.len() ==> inside_spec(f, #[trigger] walk(center_spec(f), u, v, s2.take(k))),
        net_u(s1) == net_u(s2),
        net_v(s1) == net_v(s2),
    ensures
        walk(center_spec(f), u, v, s1) == walk(center_spec(f), u, v, s2),
        exists|k: int|
            0 <= k < sites.len() && sites[k] == walk(center_spec(f), u, v, s1) && forall|k2: int|
                0 <= k2 < sites.len() && #[trigger] sites[k2] == walk(center_spec(f), u, v, s1) ==> k2 == k,
{
    let c = center_spec(f);
    assert forall|k: int| 0 <= k <= s1.len() implies within(#[trigger] walk(c, u, v, s1.take(k)), SPAN as int) by {
        assert(inside_spec(f, walk(c, u, v, s1.take(k))));
    }
    assert forall|k: int| 0 <= k <= s2.len() implies within(#[trigger] walk(c, u, v, s2.take(k)), SPAN as int) by {
        assert(inside_spec(f, walk(c, u, v, s2.take(k))));
    }
    lemma_walk_position(c, u, v, s1);
    lemma_walk_position(c, u, v, s2);
    let w = walk(c, u, v, s1);
    lemma_reachable_emitted(f, u, v, sites, s1);
    let k = choose|k: int| 0 <= k < sites.len() && sites[k] == w;
    assert forall|k2: int| 0 <= k2 < sites.len() && #[trigger] sites[k2] == w implies k2 == k by {
        if k2 != k {
            assert(sites[k2] != sites[k]);
        }
    }
}

/// The step that does along `(v, u)` what `d` does along `(u, v)`.
pub open spec fn swap_step(d: int) -> int {
    if d == 0 {
        2
    } else if d == 1 {
        3
    } else if d == 2 {
        0
    } else {
        1
    }
}

/// A walk with every step exchanged between the two basis vectors.
pub open spec fn swap_steps(steps: Seq<int>) -> Seq<int> {
    steps.map_values(|d: int| swap_step(d))
}

proof fn lemma_swapped_walk(c: Pos, u: Pos, v: Pos, steps: Seq<int>)
    requires
        forall|i: int| 0 <= i < steps.len() ==> 0 <= #[trigger] steps[i] < 4,
    ensures
        walk(c, v, u, swap_steps(steps)) == walk(c, u, v, steps),
    decreases steps.len(),
{
    if steps.len() > 0 {
        let pre = steps.drop_last();
        assert forall|i: int| 0 <= i < pre.len() implies 0 <= #[trigger] pre[i] < 4 by {
            assert(pre[i] == steps[i]);
        }
        lemma_swapped_walk(c, u, v, pre);
        assert(swap_steps(steps).drop_last() == swap_steps(pre));
        assert(swap_steps(steps).last() == swap_step(steps.last()));
    }
}

proof fn lemma_cover_within_swap(f: Frame, u: Pos, v: Pos, a: Seq<Pos>, b: Seq<Pos>, p: Pos)
    requires
        lattice_cover(f, u, v, a),
        lattice_cover(f, v, u, b),
        a.contains(p),
    ensures
        b.contains(p),
{
    let c = center_spec(f);
    let k = choose|k: int| 0 <= k < a.len() && a[k] == p;
    assert(reached(f, u, v, a[k]));
    let s = choose|s: Seq<int>| #[trigger] walk_through(f, u, v, s) && walk(c, u, v, s) == p;
    let t = swap_steps(s);
    assert forall|i: int| 0 <= i < t.len() implies 0 <= #[trigger] t[i] < 4 by {
        assert(0 <= s[i] < 4);
    }
    assert forall|j: int| 0 <= j <= t.len() implies inside_spec(f, #[trigger] walk(c, v, u, t.take(j))) by {
        assert(t.take(j) == swap_steps(s.take(j)));
        assert forall|i: int| 0 <= i < s.take(j).len() implies 0 <= #[trigger] s.take(j)[i] < 4 by {
            assert(s.take(j)[i] == s[i]);
        }
        lemma_swapped_walk(c, u, v, s.take(j));
        if j == s.len() {
            assert(s.take(j) == s);
            assert(inside_spec(f, a[k]));
        }
    }
    lemma_reachable_emitted(f, v, u, b, t);
    lemma_swapped_walk(c, u, v, s);
}

/// The tiled sites depend on the lattice, not on the order of its basis: the flood fill
/// along `(u, v)` and along `(v, u)` emits the same sites (possibly in another order).
pub proof fn lemma_basis_order(f: Frame, u: Pos, v: Pos, a: Seq<Pos>, b: Seq<Pos>)
    requires
        lattice_cover(f, u, v, a),
        lattice_cover(f, v, u, b),
    ensures
        forall|p: Pos| a.contains(p) <==> b.contains(p),
{
    assert forall|p: Pos| a.contains(p) <==> b.contains(p) by {
        if a.contains(p) {
            lemma_cover_within_swap(f, u, v, a, b, p);
        }
        if b.contains(p) {
            lemma_cover_within_swap(f, v, u, b, a, p);
        }
    }
}

} // verus!
