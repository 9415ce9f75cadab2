use vstd::prelude::*;
use crate::frame::{inside_spec, Frame};
use crate::pos::{trunc_div, Pos};

verus! {

/// The triangle list that `delaunator` computes for a point set: triples of indices into it.
pub uninterp spec fn delaunay_of(pts: Seq<Pos>) -> Seq<usize>;

/// Relies on `delaunator::triangulate`: its `triangles` field is a function of the input
/// points alone, lists each triangle as three consecutive indices into them, and is empty
/// for fewer than three points (no seed triangle is found).
#[verifier::external_body]
fn triangulate_indices(pts: &Vec<Pos>) -> (r: Vec<usize>)
    ensures
        r@ == delaunay_of(pts@),
        pts@.len() < 3 ==> r@.len() == 0,
        r@.len() % 3 == 0,
        forall|i: int| 0 <= i < r@.len() ==> r@[i] < pts@.len(),
{
    let points: Vec<delaunator::Point> = pts.iter().map(|p| delaunator::Point { x: p.0.into(), y: p.1.into() }).collect();
    delaunator::triangulate(&points).triangles
}

/// Triangle `k` of the index list `idx` over `pts`.
pub open spec fn triangle_at(pts: Seq<Pos>, idx: Seq<usize>, k: int) -> (Pos, Pos, Pos) {
    (pts[idx[3 * k] as int], pts[idx[3 * k + 1] as int], pts[idx[3 * k + 2] as int])
}

/// The triangles that the index list `idx` picks out of `pts`, in list order.
pub open spec fn triangles_spec(pts: Seq<Pos>, idx: Seq<usize>) -> Seq<(Pos, Pos, Pos)> {
    Seq::new((idx.len() / 3) as nat, |k: int| triangle_at(pts, idx, k))
}

/// `idx` holds whole triangles of valid indices into `pts`.
pub open spec fn valid_indices(pts: Seq<Pos>, idx: Seq<usize>) -> bool {
    idx.len() % 3 == 0 && forall|i: int| 0 <= i < idx.len() ==> idx[i] < pts.len()
}

/// The exact centroid of a triangle, each coordinate rounded toward zero.
pub open spec fn centroid_spec(a: Pos, b: Pos, c: Pos) -> Pos {
    Pos(trunc_div(a.0 + b.0 + c.0, 3) as i32, trunc_div(a.1 + b.1 + c.1, 3) as i32)
}

/// The tile of a triangle: its centroid and the path through its three vertices.
pub open spec fn delaunay_tile(t: (Pos, Pos, Pos)) -> (Pos, Seq<Pos>) {
    (centroid_spec(t.0, t.1, t.2), seq![t.0, t.1, t.2])
}

/// The centroid of the triangle `a, b, c`: the mean of its vertices, rounded toward zero.
pub fn centroid(a: Pos, b: Pos, c: Pos) -> (r: Pos)
    ensures
        r == centroid_spec(a, b, c),
{
    let sx: i64 = a.0 as i64 + b.0 as i64 + c.0 as i64;
    let sy: i64 = a.1 as i64 + b.1 as i64 + c.1 as i64;
    let x = if sx >= 0 { sx / 3 } else { -((-sx) / 3) };
    let y = if sy >= 0 { sy / 3 } else { -((-sy) / 3) };
    Pos(x as i32, y as i32)
}

/// The triangles that the index list `idx` picks out of `pts`.
pub fn triangles_from(pts: &Vec<Pos>, idx: &Vec<usize>) -> (r: Vec<(Pos, Pos, Pos)>)
    requires
        valid_indices(pts@, idx@),
    ensures
        r@ == triangles_spec(pts@, idx@),
{
    let mut v: Vec<(Pos, Pos, Pos)> = Vec::new();
    let n = idx.len() / 3;
    let mut k: usize = 0;
    while k < n
        invariant
            valid_indices(pts@, idx@),
            n == idx@.len() / 3,
            k <= n,
            v@ == triangles_spec(pts@, idx@).take(k as int),
        decreases n - k,
    {
        assert(3 * k + 2 < idx@.len()) by (nonlinear_arith)
            requires k < n, n == idx@.len() / 3, idx@.len() % 3 == 0;
        let len = idx.len();
        assert(3 * k + 2 < len);
        let b: usize = 3 * k;
        let t = (pts[idx[b]], pts[idx[b + 1]], pts[idx[b + 2]]);
        v.push(t);
        assert(triangles_spec(pts@, idx@).take(k as int + 1) == triangles_spec(pts@, idx@).take(k as int).push(t));
        k += 1;
    }
    assert(triangles_spec(pts@, idx@).take(k as int) == triangles_spec(pts@, idx@));
    v
}

/// The Delaunay triangles of `pts`, or `None` when the triangulation has no triangle
/// (fewer than three points, or all of them collinear).
pub fn fast_triangulate(pts: &Vec<Pos>) -> (r: Option<Vec<(Pos, Pos, Pos)>>)
    ensures
        valid_indices(pts@, delaunay_of(pts@)),
        pts@.len() < 3 ==> r is None,
        r is None <==> delaunay_of(pts@).len() == 0,
        r matches Some(t) ==> t@ == triangles_spec(pts@, delaunay_of(pts@)),
{
    let idx = triangulate_indices(pts);
    if idx.len() == 0 {
        None
    } else {
        Some(triangles_from(pts, &idx))
    }
}

/// The tiles of a list of triangles: for each, its centroid and its path.
pub fn delaunay_tiles(tris: &Vec<(Pos, Pos, Pos)>) -> (r: Vec<(Pos, Vec<Pos>)>)
    ensures
        crate::tesselate::tiles_view(r@) == tris@.map_values(|t: (Pos, Pos, Pos)| delaunay_tile(t)),
{
    let mut v: Vec<(Pos, Vec<Pos>)> = Vec::new();
    let mut k: usize = 0;
    while k < tris.len()
        invariant
            k <= tris@.len(),
            crate::tesselate::tiles_view(v@) == tris@.map_values(|t: (Pos, Pos, Pos)| delaunay_tile(t)).take(k as int),
        decreases tris@.len() - k,
    {
        let (a, b, c) = tris[k];
        let path = vec![a, b, c];
        let ghost before = v@;
        v.push((centroid(a, b, c), path));
        proof {
            assert(v@ == before.push((centroid_spec(a, b, c), path)));
            assert(crate::tesselate::tiles_view(v@) == crate::tesselate::tiles_view(before).push(crate::tesselate::tile_view((centroid_spec(a, b, c), path))));
            assert(tris@.map_values(|t: (Pos, Pos, Pos)| delaunay_tile(t)).take(k as int + 1) == tris@.map_values(|t: (Pos, Pos, Pos)| delaunay_tile(t)).take(k as int).push(delaunay_tile(tris@[k as int])));
        }
        k += 1;
    }
    assert(tris@.map_values(|t: (Pos, Pos, Pos)| delaunay_tile(t)).take(k as int) == tris@.map_values(|t: (Pos, Pos, Pos)| delaunay_tile(t)));
    v
}

/// `r` is the Delaunay tiling of some `n` points of the frame: `None` when they have no
/// triangle, else a tile per triangle.
pub open spec fn delaunay_made(f: Frame, n: int, r: Option<Vec<(Pos, Vec<Pos>)>>) -> bool {
    exists|pts: Seq<Pos>|
        #![trigger delaunay_of(pts)]
        pts.len() == n && (forall|i: int| 0 <= i < n ==> inside_spec(f, #[trigger] pts[i]))
            && valid_indices(pts, delaunay_of(pts)) && match r {
            None => delaunay_of(pts).len() == 0,
            Some(t) => crate::tesselate::tiles_view(t@) == triangles_spec(pts, delaunay_of(pts)).map_values(
                |t: (Pos, Pos, Pos)| delaunay_tile(t),
            ),
        }
}

/// Scatters `n` random points over the frame and tiles it with their Delaunay triangles,
/// or gives `None` when those points have no triangle.
pub fn random_delaunay(f: &Frame, rng: &mut rand::rngs::ThreadRng, n: usize) -> (r: Option<Vec<(Pos, Vec<Pos>)>>)
    requires
        f.wf(),
    ensures
        delaunay_made(*f, n as int, r),
{
    let mut pts: Vec<Pos> = Vec::new();
    let mut i: usize = 0;
    while i < n
        invariant
            f.wf(),
            i <= n,
            pts@.len() == i,
            forall|j: int| 0 <= j < i ==> inside_spec(*f, #[trigger] pts@[j]),
        decreases n - i,
    {
        pts.push(Pos::random(f, rng));
        i += 1;
    }
    match fast_triangulate(&pts) {
        None => None,
        Some(tris) => Some(delaunay_tiles(&tris)),
    }
}

} // verus!
