use vstd::prelude::*;
use crate::pos::{add_spec, polar, polar_spec, Pos};

verus! {

/// Largest magnitude of a shape offset or of a lattice vector, in hundredths.
pub const SPAN: i32 = 100000000;

/// Both coordinates of `p` have magnitude at most `b`.
pub open spec fn within(p: Pos, b: int) -> bool {
    -b <= p.0 <= b && -b <= p.1 <= b
}

/// The path of a template placed at `p`: every offset moved by `p`, in template order.
pub open spec fn placed(offsets: Seq<Pos>, p: Pos) -> Seq<Pos> {
    offsets.map_values(|o: Pos| add_spec(p, o))
}

/// A polygon template: the offsets of its vertices from a local origin, in tracing order.
#[derive(Clone, Debug)]
pub struct Movable(pub Vec<Pos>);

/// Vertex `k` of the regular `n`-gon of circumradius `size` turned by `rot` degrees.
pub open spec fn regular_vertex(n: int, size: int, rot: int, k: int) -> Pos {
    polar_spec(rot + k * (360int / n), size)
}

/// The offsets of the regular `n`-gon of circumradius `size` turned by `rot` degrees.
pub open spec fn regular_offsets(n: int, size: int, rot: int) -> Seq<Pos> {
    Seq::new(n as nat, |k: int| regular_vertex(n, size, rot, k))
}

impl Movable {
    /// Every offset stays within `SPAN`.
    pub open spec fn wf(&self) -> bool {
        forall|i: int| 0 <= i < self.0@.len() ==> within(#[trigger] self.0@[i], SPAN as int)
    }

    /// A template from its vertex offsets.
    pub fn from(offsets: Vec<Pos>) -> (r: Movable)
        ensures
            r.0@ == offsets@,
    {
        Movable(offsets)
    }

    /// A copy of the template.
    pub fn duplicate(&self) -> (r: Movable)
        ensures
            r.0@ == self.0@,
    {
        let mut v: Vec<Pos> = Vec::new();
        let mut i: usize = 0;
        while i < self.0.len()
            invariant
                i <= self.0@.len(),
                v@ == self.0@.take(i as int),
            decreases self.0@.len() - i,
        {
            v.push(self.0[i]);
            assert(self.0@.take(i as int + 1) == self.0@.take(i as int).push(self.0@[i as int]));
            i += 1;
        }
        assert(self.0@.take(i as int) == self.0@);
        Movable(v)
    }

    /// The template placed at `p`: `p` itself and the closed path through `p + o` for
    /// every offset `o`, in template order.
    pub fn render(&self, p: Pos) -> (r: (Pos, Vec<Pos>))
        requires
            self.wf(),
            within(p, 9 * SPAN),
        ensures
            r.0 == p,
            r.1@ == placed(self.0@, p),
    {
        let mut path: Vec<Pos> = Vec::new();
        let mut i: usize = 0;
        while i < self.0.len()
            invariant
                self.wf(),
                within(p, 9 * SPAN),
                i <= self.0@.len(),
                path@ == placed(self.0@.take(i as int), p),
            decreases self.0@.len() - i,
        {
            let o = self.0[i];
            assert(within(self.0@[i as int], SPAN as int));
            path.push(p.add(o));
            assert(self.0@.take(i as int + 1) == self.0@.take(i as int).push(o));
            i += 1;
        }
        assert(self.0@.take(i as int) == self.0@);
        (p, path)
    }

    /// The regular `n`-gon of circumradius `size` (hundredths), turned by `rot` degrees.
    pub fn regular(n: i32, size: i32, rot: i32) -> (r: Movable)
        requires
            3 <= n <= 360,
            0 <= size <= SPAN,
            -720 <= rot <= 720,
        ensures
            r.wf(),
            r.0@ == regular_offsets(n as int, size as int, rot as int),
    {
        let step: i32 = 360 / n;
        let mut v: Vec<Pos> = Vec::new();
        let mut k: i32 = 0;
        while k < n
            invariant
                3 <= n <= 360,
                0 <= size <= SPAN,
                -720 <= rot <= 720,
                step == 360int / (n as int),
                0 <= k <= n,
                v@.len() == k,
                forall|j: int| 0 <= j < k ==> #[trigger] v@[j] == regular_vertex(n as int, size as int, rot as int, j),
                forall|j: int| 0 <= j < k ==> within(#[trigger] v@[j], SPAN as int),
            decreases n - k,
        {
            assert(0 <= k * step <= 360 * 360) by (nonlinear_arith)
                requires 0 <= k <= 360, 0 <= step <= 360;
            let p = polar(rot + k * step, size);
            v.push(p);
            k += 1;
        }
        assert(v@ == regular_offsets(n as int, size as int, rot as int));
        Movable(v)
    }

    /// A regular hexagon of circumradius `size`, turned by `rot` degrees.
    pub fn hexagon(size: i32, rot: i32) -> (r: Movable)
        requires
            0 <= size <= SPAN,
            -720 <= rot <= 720,
        ensures
            r.wf(),
            r.0@ == regular_offsets(6, size as int, rot as int),
    {
        Movable::regular(6, size, rot)
    }

    /// An equilateral triangle of circumradius `size`, turned by `rot` degrees.
    pub fn triangle(size: i32, rot: i32) -> (r: Movable)
        requires
            0 <= size <= SPAN,
            -720 <= rot <= 720,
        ensures
            r.wf(),
            r.0@ == regular_offsets(3, size as int, rot as int),
    {
        Movable::regular(3, size, rot)
    }

    /// A square of circumradius `size`, turned by `rot` degrees.
    pub fn square(size: i32, rot: i32) -> (r: Movable)
        requires
            0 <= size <= SPAN,
            -720 <= rot <= 720,
        ensures
            r.wf(),
            r.0@ == regular_offsets(4, size as int, rot as int),
    {
        Movable::regular(4, size, rot)
    }

    /// A rhombus with half-diagonals `ldiag` (along `rot` degrees) and `sdiag` (across).
    pub fn rhombus(ldiag: i32, sdiag: i32, rot: i32) -> (r: Movable)
        requires
            0 <= ldiag <= SPAN,
            0 <= sdiag <= SPAN,
            -720 <= rot <= 720,
        ensures
            r.wf(),
            r.0@ == seq![
                polar_spec(rot as int, ldiag as int),
                polar_spec(rot + 90, sdiag as int),
                polar_spec(rot + 180, ldiag as int),
                polar_spec(rot + 270, sdiag as int),
            ],
    {
        let v = vec![
            polar(rot, ldiag),
            polar(rot + 90, sdiag),
            polar(rot + 180, ldiag),
            polar(rot + 270, sdiag),
        ];
        Movable(v)
    }
}

} // verus!
