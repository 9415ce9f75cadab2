use vstd::prelude::*;
use crate::color::{Color, ColorItem};
use crate::frame::Frame;
use crate::pos::Pos;
use crate::scene::{Disc, HalfPlane, Region, Spiral, Stripe, Triangle};

verus! {

/// The integers that record a color source: shade, deviation, theme, weight.
pub open spec fn enc_color(c: ColorItem) -> Seq<i64> {
    seq![
        c.shade.0 as i64, c.shade.1 as i64, c.shade.2 as i64, c.deviation as i64,
        c.theme.0 as i64, c.theme.1 as i64, c.theme.2 as i64, c.weight as i64,
    ]
}

pub open spec fn enc_pos(p: Pos) -> Seq<i64> {
    seq![p.0 as i64, p.1 as i64]
}

/// The integers that record a region: a tag for its kind, its points and sizes, then its
/// color source.
pub open spec fn enc_region(r: Region) -> Seq<i64> {
    match r {
        Region::Disc(d) => seq![0i64] + enc_pos(d.center) + seq![d.radius as i64] + enc_color(d.color),
        Region::HalfPlane(h) => seq![1i64] + enc_pos(h.limit) + enc_pos(h.reference) + enc_color(h.color),
        Region::Triangle(t) => seq![2i64] + enc_pos(t.a) + enc_pos(t.b) + enc_pos(t.c) + enc_color(t.color),
        Region::Spiral(s) => seq![3i64] + enc_pos(s.center) + seq![s.width as i64] + enc_color(s.color),
        Region::Stripe(s) => seq![4i64] + enc_pos(s.limit) + enc_pos(s.reference) + enc_color(s.color),
    }
}

/// The records of the regions one after the other.
pub open spec fn enc_regions(rs: Seq<Region>) -> Seq<i64>
    decreases rs.len(),
{
    if rs.len() == 0 {
        seq![]
    } else {
        enc_region(rs[0]) + enc_regions(rs.drop_first())
    }
}

/// The record of a saved scene: frame, background, number of regions, regions.
pub open spec fn encode_spec(f: Frame, bg: ColorItem, rs: Seq<Region>) -> Seq<i64> {
    seq![f.w as i64, f.h as i64] + enc_color(bg) + seq![rs.len() as i64] + enc_regions(rs)
}

pub open spec fn fits_i32(v: i64) -> bool {
    i32::MIN <= v <= i32::MAX
}

pub open spec fn fits_u8(v: i64) -> bool {
    0 <= v <= 255
}

pub open spec fn dec_pos(s: Seq<i64>, i: int) -> Option<Pos> {
    if 0 <= i && i + 2 <= s.len() && fits_i32(s[i]) && fits_i32(s[i + 1]) {
        Some(Pos(s[i] as i32, s[i + 1] as i32))
    } else {
        None
    }
}

pub open spec fn dec_color(s: Seq<i64>, i: int) -> Option<ColorItem> {
    if 0 <= i && i + 8 <= s.len() && fits_u8(s[i]) && fits_u8(s[i + 1]) && fits_u8(s[i + 2])
        && fits_i32(s[i + 3]) && fits_u8(s[i + 4]) && fits_u8(s[i + 5]) && fits_u8(s[i + 6])
        && fits_i32(s[i + 7]) {
        Some(ColorItem {
            shade: Color(s[i] as u8, s[i + 1] as u8, s[i + 2] as u8),
            deviation: s[i + 3] as i32,
            theme: Color(s[i + 4] as u8, s[i + 5] as u8, s[i + 6] as u8),
            weight: s[i + 7] as i32,
        })
    } else {
        None
    }
}

/// The region recorded at `i`, and where its record ends.
pub open spec fn dec_region(s: Seq<i64>, i: int) -> Option<(Region, int)> {
    if !(0 <= i < s.len()) {
        None
    } else if s[i] == 0 || s[i] == 3 {
        match (dec_pos(s, i + 1), dec_color(s, i + 4)) {
            (Some(c), Some(col)) => if i + 4 <= s.len() && fits_i32(s[i + 3]) {
                if s[i] == 0 {
                    Some((Region::Disc(Disc { center: c, radius: s[i + 3] as i32, color: col }), i + 12))
                } else {
                    Some((Region::Spiral(Spiral { center: c, width: s[i + 3] as i32, color: col }), i + 12))
                }
            } else {
                None
            },
            _ => None,
        }
    } else if s[i] == 1 || s[i] == 4 {
        match (dec_pos(s, i + 1), dec_pos(s, i + 3), dec_color(s, i + 5)) {
            (Some(l), Some(r), Some(col)) => if s[i] == 1 {
                Some((Region::HalfPlane(HalfPlane { limit: l, reference: r, color: col }), i + 13))
            } else {
                Some((Region::Stripe(Stripe { limit: l, reference: r, color: col }), i + 13))
            },
            _ => None,
        }
    } else if s[i] == 2 {
        match (dec_pos(s, i + 1), dec_pos(s, i + 3), dec_pos(s, i + 5), dec_color(s, i + 7)) {
            (Some(a), Some(b), Some(c), Some(col)) => Some(
                (Region::Triangle(Triangle { a, b, c, color: col }), i + 15),
            ),
            _ => None,
        }
    } else {
        None
    }
}

/// `n` regions recorded one after the other from `i`, and where the last record ends.
pub open spec fn dec_regions(s: Seq<i64>, i: int, n: nat) -> Option<(Seq<Region>, int)>
    decreases n,
{
    if n == 0 {
        Some((seq![], i))
    } else {
        match dec_region(s, i) {
            Some((r, j)) => match dec_regions(s, j, (n - 1) as nat) {
                Some((rest, k)) => Some((seq![r] + rest, k)),
                None => None,
            },
            None => None,
        }
    }
}

/// The saved scene that a record holds, when it is well formed and nothing trails it.
pub open spec fn decode_spec(s: Seq<i64>) -> Option<(Frame, ColorItem, Seq<Region>)> {
    if s.len() < 11 || !fits_i32(s[0]) || !fits_i32(s[1]) || s[10] < 0 {
        None
    } else {
        match (dec_color(s, 2), dec_regions(s, 11, s[10] as nat)) {
            (Some(bg), Some((rs, k))) => if k == s.len() {
                Some((Frame { w: s[0] as i32, h: s[1] as i32 }, bg, rs))
            } else {
                None
            },
            _ => None,
        }
    }
}

/// `s` holds `part` from index `i` on.
pub open spec fn holds_at(s: Seq<i64>, i: int, part: Seq<i64>) -> bool {
    0 <= i && i + part.len() <= s.len() && forall|k: int| 0 <= k < part.len() ==> s[i + k] == #[trigger] part[k]
}

proof fn lemma_dec_region_of(s: Seq<i64>, i: int, r: Region)
    requires
        holds_at(s, i, enc_region(r)),
    ensures
        dec_region(s, i) == Some((r, i + enc_region(r).len())),
{
    let e = enc_region(r);
    assert forall|k: int| 0 <= k < e.len() implies s[i + k] == e[k] by {
        assert(s[i + k] == e[k]);
    }
    match r {
        Region::Disc(d) => {
            assert(s[i] == e[0]);
            assert(s[i + 1] == e[1] && s[i + 2] == e[2] && s[i + 3] == e[3]);
            assert(s[i + 4] == e[4] && s[i + 5] == e[5] && s[i + 6] == e[6] && s[i + 7] == e[7]);
            assert(s[i + 8] == e[8] && s[i + 9] == e[9] && s[i + 10] == e[10] && s[i + 11] == e[11]);
        },
        Region::Spiral(d) => {
            assert(s[i] == e[0]);
            assert(s[i + 1] == e[1] && s[i + 2] == e[2] && s[i + 3] == e[3]);
            assert(s[i + 4] == e[4] && s[i + 5] == e[5] && s[i + 6] == e[6] && s[i + 7] == e[7]);
            assert(s[i + 8] == e[8] && s[i + 9] == e[9] && s[i + 10] == e[10] && s[i + 11] == e[11]);
        },
        Region::HalfPlane(h) => {
            assert(s[i] == e[0]);
            assert(s[i + 1] == e[1] && s[i + 2] == e[2] && s[i + 3] == e[3] && s[i + 4] == e[4]);
            assert(s[i + 5] == e[5] && s[i + 6] == e[6] && s[i + 7] == e[7] && s[i + 8] == e[8]);
            assert(s[i + 9] == e[9] && s[i + 10] == e[10] && s[i + 11] == e[11] && s[i + 12] == e[12]);
        },
        Region::Stripe(h) => {
            assert(s[i] == e[0]);
            assert(s[i + 1] == e[1] && s[i + 2] == e[2] && s[i + 3] == e[3] && s[i + 4] == e[4]);
            assert(s[i + 5] == e[5] && s[i + 6] == e[6] && s[i + 7] == e[7] && s[i + 8] == e[8]);
            assert(s[i + 9] == e[9] && s[i + 10] == e[10] && s[i + 11] == e[11] && s[i + 12] == e[12]);
        },
        Region::Triangle(t) => {
            assert(s[i] == e[0]);
            assert(s[i + 1] == e[1] && s[i + 2] == e[2] && s[i + 3] == e[3] && s[i + 4] == e[4]);
            assert(s[i + 5] == e[5] && s[i + 6] == e[6] && s[i + 7] == e[7] && s[i + 8] == e[8]);
            assert(s[i + 9] == e[9] && s[i + 10] == e[10] && s[i + 11] == e[11] && s[i + 12] == e[12]);
            assert(s[i + 13] == e[13] && s[i + 14] == e[14]);
        },
    }
}

proof fn lemma_dec_regions_of(s: Seq<i64>, i: int, rs: Seq<Region>)
    requires
        holds_at(s, i, enc_regions(rs)),
    ensures
        dec_regions(s, i, rs.len()) == Some((rs, i + enc_regions(rs).len())),
    decreases rs.len(),
{
    if rs.len() > 0 {
        let head = enc_region(rs[0]);
        let tail = enc_regions(rs.drop_first());
        assert(enc_regions(rs) == head + tail);
        assert forall|k: int| 0 <= k < head.len() implies s[i + k] == #[trigger] head[k] by {
            assert(enc_regions(rs)[k] == head[k]);
        }
        lemma_dec_region_of(s, i, rs[0]);
        let j = i + head.len();
        assert forall|k: int| 0 <= k < tail.len() implies s[j + k] == #[trigger] tail[k] by {
            assert(enc_regions(rs)[head.len() + k] == tail[k]);
        }
        lemma_dec_regions_of(s, j, rs.drop_first());
        assert(seq![rs[0]] + rs.drop_first() == rs);
        assert((rs.len() - 1) as nat == rs.drop_first().len());
    }
}

/// A saved scene comes back whole from its record: the same frame, background and
/// regions in the same order, so every point falls in the same regions as before.
pub proof fn lemma_record_round_trip(f: Frame, bg: ColorItem, rs: Seq<Region>)
    requires
        rs.len() <= i64::MAX,
    ensures
        decode_spec(encode_spec(f, bg, rs)) == Some((f, bg, rs)),
{
    let s = encode_spec(f, bg, rs);
    let pre = seq![f.w as i64, f.h as i64] + enc_color(bg) + seq![rs.len() as i64];
    assert(s == pre + enc_regions(rs));
    assert(pre.len() == 11);
    assert(s[0] == f.w as i64 && s[1] == f.h as i64 && s[10] == rs.len() as i64);
    assert(s[2] == bg.shade.0 as i64 && s[3] == bg.shade.1 as i64 && s[4] == bg.shade.2 as i64);
    assert(s[5] == bg.deviation as i64 && s[6] == bg.theme.0 as i64 && s[7] == bg.theme.1 as i64);
    assert(s[8] == bg.theme.2 as i64 && s[9] == bg.weight as i64);
    assert forall|k: int| 0 <= k < enc_regions(rs).len() implies s[11 + k] == #[trigger] enc_regions(rs)[k] by {
        assert(s[11 + k] == enc_regions(rs)[k]);
    }
    lemma_dec_regions_of(s, 11, rs);
    assert(s[10] as nat == rs.len());
}

fn push_pos(v: &mut Vec<i64>, p: Pos)
    ensures
        final(v)@ == old(v)@ + enc_pos(p),
{
    v.push(p.0 as i64);
    v.push(p.1 as i64);
    assert(final(v)@ =~= old(v)@ + enc_pos(p));
}

fn push_color(v: &mut Vec<i64>, c: ColorItem)
    ensures
        final(v)@ == old(v)@ + enc_color(c),
{
    v.push(c.shade.0 as i64);
    v.push(c.shade.1 as i64);
    v.push(c.shade.2 as i64);
    v.push(c.deviation as i64);
    v.push(c.theme.0 as i64);
    v.push(c.theme.1 as i64);
    v.push(c.theme.2 as i64);
    v.push(c.weight as i64);
    assert(final(v)@ =~= old(v)@ + enc_color(c));
}

fn push_region(v: &mut Vec<i64>, r: Region)
    ensures
        final(v)@ == old(v)@ + enc_region(r),
{
    let ghost start = v@;
    match r {
        Region::Disc(d) => {
            v.push(0);
            push_pos(v, d.center);
            v.push(d.radius as i64);
            push_color(v, d.color);
        },
        Region::HalfPlane(h) => {
            v.push(1);
            push_pos(v, h.limit);
            push_pos(v, h.reference);
            push_color(v, h.color);
        },
        Region::Triangle(t) => {
            v.push(2);
            push_pos(v, t.a);
            push_pos(v, t.b);
            push_pos(v, t.c);
            push_color(v, t.color);
        },
        Region::Spiral(sp) => {
            v.push(3);
            push_pos(v, sp.center);
            v.push(sp.width as i64);
            push_color(v, sp.color);
        },
        Region::Stripe(st) => {
            v.push(4);
            push_pos(v, st.limit);
            push_pos(v, st.reference);
            push_color(v, st.color);
        },
    }
    assert(v@ =~= start + enc_region(r));
}

fn read_pos(s: &Vec<i64>, i: usize) -> (r: Option<Pos>)
    ensures
        r == dec_pos(s@, i as int),
{
    if i < s.len() && s.len() - i >= 2 {
        let x = s[i];
        let y = s[i + 1];
        if i32::MIN as i64 <= x && x <= i32::MAX as i64 && i32::MIN as i64 <= y && y <= i32::MAX as i64 {
            return Some(Pos(x as i32, y as i32));
        }
    }
    None
}

fn u8_at(s: &Vec<i64>, i: usize) -> (r: bool)
    requires
        i < s@.len(),
    ensures
        r == fits_u8(s@[i as int]),
{
    0 <= s[i] && s[i] <= 255
}

fn i32_at(s: &Vec<i64>, i: usize) -> (r: bool)
    requires
        i < s@.len(),
    ensures
        r == fits_i32(s@[i as int]),
{
    i32::MIN as i64 <= s[i] && s[i] <= i32::MAX as i64
}

fn read_color(s: &Vec<i64>, i: usize) -> (r: Option<ColorItem>)
    ensures
        r == dec_color(s@, i as int),
{
    if i < s.len() && s.len() - i >= 8 {
        if u8_at(s, i) && u8_at(s, i + 1) && u8_at(s, i + 2) && i32_at(s, i + 3) && u8_at(s, i + 4)
            && u8_at(s, i + 5) && u8_at(s, i + 6) && i32_at(s, i + 7) {
            return Some(ColorItem {
                shade: Color(s[i] as u8, s[i + 1] as u8, s[i + 2] as u8),
                deviation: s[i + 3] as i32,
                theme: Color(s[i + 4] as u8, s[i + 5] as u8, s[i + 6] as u8),
                weight: s[i + 7] as i32,
            });
        }
    }
    None
}

fn read_region(s: &Vec<i64>, i: usize) -> (r: Option<(Region, usize)>)
    requires
        s@.len() < usize::MAX - 16,
    ensures
        match r {
            Some((reg, j)) => dec_region(s@, i as int) == Some((reg, j as int)),
            None => dec_region(s@, i as int) is None,
        },
{
    if i >= s.len() {
        return None;
    }
    let t = s[i];
    if t == 0 || t == 3 {
        match (read_pos(s, i + 1), read_color(s, i + 4)) {
            (Some(c), Some(col)) => {
                if s.len() - i >= 4 && i32_at(s, i + 3) {
                    let w = s[i + 3] as i32;
                    if t == 0 {
                        Some((Region::Disc(Disc { center: c, radius: w, color: col }), i + 12))
                    } else {
                        Some((Region::Spiral(Spiral { center: c, width: w, color: col }), i + 12))
                    }
                } else {
                    None
                }
            },
            _ => None,
        }
    } else if t == 1 || t == 4 {
        match (read_pos(s, i + 1), read_pos(s, i + 3), read_color(s, i + 5)) {
            (Some(l), Some(rf), Some(col)) => if t == 1 {
                Some((Region::HalfPlane(HalfPlane { limit: l, reference: rf, color: col }), i + 13))
            } else {
                Some((Region::Stripe(Stripe { limit: l, reference: rf, color: col }), i + 13))
            },
            _ => None,
        }
    } else if t == 2 {
        match (read_pos(s, i + 1), read_pos(s, i + 3), read_pos(s, i + 5), read_color(s, i + 7)) {
            (Some(a), Some(b), Some(c), Some(col)) => Some(
                (Region::Triangle(Triangle { a, b, c, color: col }), i + 15),
            ),
            _ => None,
        }
    } else {
        None
    }
}

/// A scene as it is saved: its background, its regions in priority order, and the frame.
#[derive(Clone, Debug)]
pub struct Logger {
    pub bg: ColorItem,
    pub objects: Vec<Region>,
    pub frame: Frame,
}

impl Logger {
    /// The record of the saved scene, as integers.
    pub fn to_record(&self) -> (r: Vec<i64>)
        ensures
            r@ == encode_spec(self.frame, self.bg, self.objects@),
    {
        let mut v: Vec<i64> = Vec::new();
        v.push(self.frame.w as i64);
        v.push(self.frame.h as i64);
        push_color(&mut v, self.bg);
        v.push(self.objects.len() as i64);
        let ghost pre = v@;
        let mut k: usize = 0;
        while k < self.objects.len()
            invariant
                k <= self.objects@.len(),
                v@ == pre + enc_regions(self.objects@.take(k as int)),
            decreases self.objects@.len() - k,
        {
            push_region(&mut v, self.objects[k]);
            proof {
                lemma_enc_regions_push(self.objects@.take(k as int), self.objects@[k as int]);
                assert(self.objects@.take(k as int + 1) == self.objects@.take(k as int).push(self.objects@[k as int]));
            }
            k += 1;
        }
        assert(self.objects@.take(k as int) == self.objects@);
        assert(v@ =~= encode_spec(self.frame, self.bg, self.objects@));
        v
    }

    /// The saved scene that a record holds; `None` when the record is malformed or has
    /// trailing integers.
    pub fn from_record(s: &Vec<i64>) -> (r: Option<Logger>)
        requires
            s@.len() < usize::MAX - 16,
        ensures
            match r {
                Some(l) => decode_spec(s@) == Some((l.frame, l.bg, l.objects@)),
                None => decode_spec(s@) is None,
            },
    {
        if s.len() < 11 {
            return None;
        }
        if !(i32_at(s, 0) && i32_at(s, 1)) || s[10] < 0 {
            return None;
        }
        let bg = match read_color(s, 2) {
            Some(c) => c,
            None => {
                return None;
            },
        };
        let n = s[10];
        let mut objects: Vec<Region> = Vec::new();
        let mut pos: usize = 11;
        let mut k: i64 = 0;
        while k < n
            invariant
                s@.len() < usize::MAX - 16,
                0 <= k <= n,
                n == s@[10],
                dec_regions(s@, 11, n as nat) == match dec_regions(s@, pos as int, (n - k) as nat) {
                    Some((rest, e)) => Some((objects@ + rest, e)),
                    None => None,
                },
            decreases n - k,
        {
            match read_region(s, pos) {
                Some((reg, j)) => {
                    proof {
                        assert(seq![reg] + objects@.push(reg).skip(objects@.len() as int + 1) == seq![reg]);
                        match dec_regions(s@, j as int, (n - k - 1) as nat) {
                            Some((rest, e)) => {
                                assert(objects@ + (seq![reg] + rest) == objects@.push(reg) + rest);
                            },
                            None => {},
                        }
                    }
                    objects.push(reg);
                    pos = j;
                },
                None => {
                    return None;
                },
            }
            k += 1;
        }
        proof {
            assert(objects@ + seq![] == objects@);
        }
        if pos != s.len() {
            return None;
        }
        Some(Logger { bg, objects, frame: Frame { w: s[0] as i32, h: s[1] as i32 } })
    }
}

proof fn lemma_enc_regions_push(rs: Seq<Region>, r: Region)
    ensures
        enc_regions(rs.push(r)) == enc_regions(rs) + enc_region(r),
    decreases rs.len(),
{
    if rs.len() == 0 {
        assert(rs.push(r).drop_first() == Seq::<Region>::empty());
        assert(rs.push(r)[0] == r);
        assert(enc_regions(rs.push(r)) == enc_region(r) + enc_regions(Seq::<Region>::empty()));
        assert(enc_regions(rs.push(r)) =~= enc_regions(rs) + enc_region(r));
    } else {
        assert(rs.push(r).drop_first() == rs.drop_first().push(r));
        lemma_enc_regions_push(rs.drop_first(), r);
        assert(rs.push(r)[0] == rs[0]);
        assert(enc_regions(rs.push(r)) == enc_region(rs[0]) + enc_regions(rs.drop_first().push(r)));
        assert(enc_regions(rs) == enc_region(rs[0]) + enc_regions(rs.drop_first()));
        assert(enc_region(rs[0]) + (enc_regions(rs.drop_first()) + enc_region(r)) =~= (enc_region(rs[0]) + enc_regions(rs.drop_first())) + enc_region(r));
    }
}

} // verus!
