use wallrnd::color::{Color, ColorItem};
use wallrnd::delaunay::{centroid, fast_triangulate, random_delaunay, triangles_from};
use wallrnd::frame::Frame;
use wallrnd::lattice::lattice_sites;
use wallrnd::pos::{crossprod_sign, polar, Pos};
use wallrnd::scene::{isqrt, nearest_angle, Contains, Disc, HalfPlane, Spiral, Stripe, Triangle};
use wallrnd::shape::Movable;
use wallrnd::tesselate::{
    pentagons_type1, periodic_grid_tiling, tile_hexagons, tile_hybrid_hexagons_triangles, tile_hybrid_squares_triangles,
    tile_rhombus, tile_triangles,
};
use wallrnd::trig::{cos_micro, sin_micro};

fn plain() -> ColorItem {
    ColorItem { shade: Color(10, 20, 30), deviation: 0, theme: Color(0, 0, 0), weight: 0 }
}

#[test]
fn trig_table_values() {
    assert_eq!(sin_micro(30), 500000);
    assert_eq!(cos_micro(60), 500000);
    assert_eq!(sin_micro(-90), -1000000);
    assert_eq!(cos_micro(180), -1000000);
    assert_eq!(sin_micro(390), 500000);
}

#[test]
fn polar_points() {
    assert_eq!(polar(0, 1000), Pos(1000, 0));
    assert_eq!(polar(90, 1000), Pos(0, 1000));
    assert_eq!(polar(180, 1000), Pos(-1000, 0));
    assert_eq!(polar(30, 1000), Pos(866, 500));
    assert_eq!(Pos::polar(-90, 200), Pos(0, -200));
}

#[test]
fn vector_arithmetic() {
    let a = Pos(100, -50);
    let b = Pos(25, 75);
    assert_eq!(a.add(b), Pos(125, 25));
    assert_eq!(a.sub(b), Pos(75, -125));
    assert_eq!(a.mul(-3), Pos(-300, 150));
    assert_eq!(a.scale(1, 2), Pos(50, -25));
    assert_eq!(Pos(-7, 7).scale(1, 2), Pos(-3, 3));
    assert_eq!(a.dot(b), 2500 - 3750);
    assert_eq!(b.dot_self(), 625 + 5625);
    assert_eq!(a.round(), (100, -50));
    assert_eq!(a.into_tuple(), (100, -50));
}

#[test]
fn frame_bounds() {
    assert!(Frame::new(0, 10).is_none());
    assert!(Frame::new(10, -1).is_none());
    assert!(Frame::new(1000001, 10).is_none());
    let f = Frame::new(20, 10).unwrap();
    assert_eq!(f.center(), Pos(1000, 500));
    assert!(f.is_inside(Pos(0, 0)));
    assert!(f.is_inside(Pos(2000, 1000)));
    assert!(!f.is_inside(Pos(2001, 500)));
    assert!(!f.is_inside(Pos(-1, 500)));
}

#[test]
fn disc_boundary_excluded() {
    let mut rng = rand::thread_rng();
    let d = Disc { center: Pos(0, 0), radius: 500, color: plain() };
    assert_eq!(d.contains(Pos(300, 400), &mut rng), None);
    assert_eq!(d.contains(Pos(300, 390), &mut rng), Some(Color(10, 20, 30)));
}

#[test]
fn triangle_containment() {
    let mut rng = rand::thread_rng();
    let t = Triangle { a: Pos(0, 0), b: Pos(1000, 0), c: Pos(0, 1000), color: plain() };
    assert!(t.contains(Pos(300, 300), &mut rng).is_some());
    assert!(t.contains(Pos(800, 800), &mut rng).is_none());
    // Edges and vertices count as inside, whatever the winding.
    let cw = Triangle { a: Pos(0, 0), b: Pos(0, 1000), c: Pos(1000, 0), color: plain() };
    for p in [Pos(500, 0), Pos(0, 500), Pos(500, 500), Pos(0, 0), Pos(1000, 0)] {
        assert!(t.contains(p, &mut rng).is_some());
        assert!(cw.contains(p, &mut rng).is_some());
    }
    assert!(t.contains(Pos(501, 500), &mut rng).is_none());
    assert!(cw.contains(Pos(-1, 500), &mut rng).is_none());
    // A degenerate triangle holds the segment that its vertices span.
    let flat = Triangle { a: Pos(0, 0), b: Pos(500, 0), c: Pos(1000, 0), color: plain() };
    assert!(flat.contains(Pos(700, 0), &mut rng).is_some());
    assert!(flat.contains(Pos(700, 1), &mut rng).is_none());
    assert!(crossprod_sign(Pos(0, 0), Pos(10, 0), Pos(0, 10)));
    assert!(!crossprod_sign(Pos(0, 0), Pos(0, 10), Pos(10, 0)));
}

#[test]
fn half_plane_and_stripe() {
    let mut rng = rand::thread_rng();
    let h = HalfPlane { limit: Pos(0, 0), reference: Pos(100, 0), color: plain() };
    assert!(h.contains(Pos(-1, 50), &mut rng).is_some());
    assert!(h.contains(Pos(1, 50), &mut rng).is_none());
    assert!(h.contains(Pos(0, 50), &mut rng).is_none());
    let s = Stripe { limit: Pos(0, 0), reference: Pos(100, 0), color: plain() };
    assert!(s.contains(Pos(50, 900), &mut rng).is_some());
    assert!(s.contains(Pos(150, 0), &mut rng).is_none());
    assert!(s.contains(Pos(-10, 0), &mut rng).is_none());
    assert!(s.contains(Pos(100, 0), &mut rng).is_none());
}

#[test]
fn integer_square_root_and_angle() {
    assert_eq!(isqrt(0), 0);
    assert_eq!(isqrt(24), 4);
    assert_eq!(isqrt(25), 5);
    assert_eq!(isqrt(1 << 64), 1 << 32);
    assert_eq!(nearest_angle(10, 0), 0);
    assert_eq!(nearest_angle(0, 10), 90);
    assert_eq!(nearest_angle(-10, 0), 180);
    assert_eq!(nearest_angle(0, -10), -90);
    assert_eq!(nearest_angle(100, 100), 45);
}

#[test]
fn spiral_arms_alternate() {
    let mut rng = rand::thread_rng();
    let s = Spiral { center: Pos(0, 0), width: 1000, color: plain() };
    // Straight below the center (angle 0 from the center's side): the phase is the radius.
    assert!(s.contains(Pos(0, -500), &mut rng).is_some());
    assert!(s.contains(Pos(0, -1500), &mut rng).is_none());
    assert!(s.contains(Pos(0, -2500), &mut rng).is_some());
    let flat = Spiral { center: Pos(0, 0), width: 0, color: plain() };
    assert!(flat.contains(Pos(10, 10), &mut rng).is_none());
}

#[test]
fn centroid_of_right_triangle() {
    assert_eq!(centroid(Pos(0, 0), Pos(600, 0), Pos(0, 600)), Pos(200, 200));
    assert_eq!(centroid(Pos(0, 0), Pos(-600, 0), Pos(0, -601)), Pos(-200, -200));
}

#[test]
fn triangulation_of_a_square() {
    let pts = vec![Pos(0, 0), Pos(1000, 0), Pos(1000, 1000), Pos(0, 1000)];
    let tris = fast_triangulate(&pts).unwrap();
    assert_eq!(tris.len(), 2);
    for (a, b, c) in &tris {
        assert!(pts.contains(a) && pts.contains(b) && pts.contains(c));
        assert!(a != b && b != c && a != c);
    }
}

#[test]
fn triangulation_of_collinear_points() {
    let pts = vec![Pos(0, 0), Pos(100, 100), Pos(200, 200)];
    assert!(fast_triangulate(&pts).is_none());
    assert!(fast_triangulate(&vec![Pos(0, 0)]).is_none());
}

#[test]
fn triangles_from_indices() {
    let pts = vec![Pos(0, 0), Pos(10, 0), Pos(0, 10), Pos(10, 10)];
    let tris = triangles_from(&pts, &vec![0, 1, 2, 3, 2, 1]);
    assert_eq!(tris, vec![(Pos(0, 0), Pos(10, 0), Pos(0, 10)), (Pos(10, 10), Pos(0, 10), Pos(10, 0))]);
}

#[test]
fn random_delaunay_tiles_are_triangles() {
    let mut rng = rand::thread_rng();
    let f = Frame::new(200, 100).unwrap();
    let tiles = random_delaunay(&f, &mut rng, 30).unwrap();
    assert!(!tiles.is_empty());
    for (c, path) in &tiles {
        assert_eq!(path.len(), 3);
        assert_eq!(*c, centroid(path[0], path[1], path[2]));
        assert!(path.iter().all(|p| f.is_inside(*p)));
    }
}

#[test]
fn lattice_sites_unique_and_closed() {
    let f = Frame::new(100, 60).unwrap();
    let idir = Pos(1000, 0);
    let jdir = Pos(0, 1000);
    let sites = lattice_sites(&f, idir, jdir);
    // Columns 0..=10 at x = 5000 +- k*1000 inside [0, 10000], rows at y = 3000 +- k*1000.
    assert_eq!(sites.len(), 11 * 7);
    for (i, p) in sites.iter().enumerate() {
        assert!(f.is_inside(*p));
        assert!(!sites[i + 1..].contains(p));
        assert_eq!((p.0 - 5000) % 1000, 0);
        assert_eq!((p.1 - 3000) % 1000, 0);
    }
    assert!(sites.contains(&f.center()));
}

#[test]
fn lattice_with_parallel_basis_stays_on_a_line() {
    let f = Frame::new(100, 60).unwrap();
    let sites = lattice_sites(&f, Pos(1000, 0), Pos(-1000, 0));
    assert_eq!(sites.len(), 11);
    assert!(sites.iter().all(|p| p.1 == 3000));
}

#[test]
fn lattice_site_count_stays_under_grid_bound() {
    let f = Frame::new(3, 2).unwrap();
    let sites = lattice_sites(&f, Pos(1, 0), Pos(0, 1));
    assert_eq!(sites.len(), 301 * 201);
}

#[test]
fn movable_render_keeps_order() {
    let m = Movable::from(vec![Pos(1, 0), Pos(0, 1), Pos(-1, -1)]);
    let (p, path) = m.render(Pos(100, 200));
    assert_eq!(p, Pos(100, 200));
    assert_eq!(path, vec![Pos(101, 200), Pos(100, 201), Pos(99, 199)]);
    let h = Movable::hexagon(1000, 0);
    assert_eq!(h.0.len(), 6);
    assert_eq!(h.0[0], Pos(1000, 0));
    assert_eq!(h.0[3], Pos(-1000, 0));
    let r = Movable::rhombus(300, 100, 0);
    assert_eq!(r.0, vec![Pos(300, 0), Pos(0, 100), Pos(-300, 0), Pos(0, -100)]);
}

#[test]
fn hexagon_tiling_covers_frame() {
    let f = Frame::new(200, 100).unwrap();
    let tiles = tile_hexagons(&f, 1000, 0).unwrap();
    assert!(!tiles.is_empty());
    assert!(tiles.iter().all(|(c, path)| f.is_inside(*c) && path.len() == 6));
    assert!(tiles.iter().any(|(c, _)| *c == f.center()));
    for (i, (c, _)) in tiles.iter().enumerate() {
        assert!(!tiles[i + 1..].iter().any(|(d, _)| d == c));
    }
}

#[test]
fn other_tilings_emit_their_shapes() {
    let f = Frame::new(200, 100).unwrap();
    let t = tile_triangles(&f, 1000, 15).unwrap();
    assert!(!t.is_empty() && t.len() % 2 == 0 && t.iter().all(|(_, p)| p.len() == 3));
    let h = tile_hybrid_hexagons_triangles(&f, 1000, 0).unwrap();
    assert!(!h.is_empty() && h.len() % 3 == 0);
    assert_eq!(h[0].1.len(), 6);
    assert_eq!(h[1].1.len(), 3);
    let s = tile_hybrid_squares_triangles(&f, 1000, 0).unwrap();
    assert!(!s.is_empty() && s.len() % 20 == 0);
    let r = tile_rhombus(&f, 1000, 500, 0).unwrap();
    assert!(!r.is_empty() && r.iter().all(|(_, p)| p.len() == 4));
    let p = pentagons_type1(&f, 1000, 0).unwrap();
    assert!(!p.is_empty() && p.len() % 2 == 0 && p.iter().all(|(_, q)| q.len() == 5));
}

#[test]
fn degenerate_basis_is_rejected() {
    let f = Frame::new(100, 60).unwrap();
    let gen = vec![(Movable::from(vec![Pos(0, 0), Pos(10, 0), Pos(0, 10)]), Pos(0, 0))];
    assert!(periodic_grid_tiling(&f, &gen, Pos(1000, 0), Pos(-1000, 0)).is_none());
    assert!(periodic_grid_tiling(&f, &gen, Pos(0, 0), Pos(0, 1000)).is_none());
    assert!(periodic_grid_tiling(&f, &gen, Pos(300, 600), Pos(100, 200)).is_none());
    let tiles = periodic_grid_tiling(&f, &gen, Pos(1000, 0), Pos(0, 1000)).unwrap();
    assert_eq!(tiles.len(), 11 * 7);
}

#[test]
fn pentagon_sites_span_the_frame() {
    let f = Frame::new(200, 100).unwrap();
    let p = pentagons_type1(&f, 1000, 0).unwrap();
    // Sites off the line through the center along the first direction are reached.
    assert!(p.iter().any(|(c, _)| (c.1 - 5000).abs() > 2000));
    assert!(p.iter().any(|(c, _)| (c.0 - 10000).abs() > 2000));
}

#[test]
fn line_intersection() {
    assert_eq!(Pos::intersect((Pos(0, 0), 0), (Pos(500, -500), 90)), Some(Pos(500, 0)));
    assert_eq!(Pos::intersect((Pos(0, 0), 0), (Pos(0, 100), 180)), None);
}

#[test]
fn basis_order_does_not_change_sites() {
    let f = Frame::new(120, 80).unwrap();
    let a = Pos(866, 500);
    let b = Pos(-866, 500);
    let mut s1 = lattice_sites(&f, a, b);
    let mut s2 = lattice_sites(&f, b, a);
    let mut s3 = lattice_sites(&f, a.mul(-1), b);
    s1.sort_by_key(|p| (p.0, p.1));
    s2.sort_by_key(|p| (p.0, p.1));
    s3.sort_by_key(|p| (p.0, p.1));
    assert_eq!(s1, s2);
    assert_eq!(s1, s3);
}
