use wallrnd::cfg::{Pattern, SceneCfg, Tiling};
use wallrnd::color::{Color, ColorItem};
use wallrnd::frame::Frame;
use wallrnd::pos::Pos;
use wallrnd::record::Logger;
use wallrnd::scene::{Contains, Disc, HalfPlane, Region, Scene, Spiral, Stripe, Triangle};

fn item(shade: Color, deviation: i32, theme: Color, weight: i32) -> ColorItem {
    ColorItem { shade, deviation, theme, weight }
}

#[test]
fn plain_sample_is_the_shade() {
    let mut rng = rand::thread_rng();
    let c = item(Color(12, 200, 99), 0, Color(255, 0, 0), 0);
    for _ in 0..100 {
        assert_eq!(c.sample(&mut rng), Color(12, 200, 99));
    }
}

#[test]
fn heavy_weight_pulls_to_theme() {
    let mut rng = rand::thread_rng();
    let c = item(Color(0, 255, 0), 30, Color(200, 100, 50), 100000);
    for _ in 0..100 {
        let s = c.sample(&mut rng);
        assert!((s.0 as i32 - 200).abs() <= 1);
        assert!((s.1 as i32 - 100).abs() <= 1);
        assert!((s.2 as i32 - 50).abs() <= 1);
    }
}

#[test]
fn meanpoint_formula() {
    assert_eq!(Color(0, 90, 255).meanpoint(Color(30, 0, 0), 2), Color(20, 30, 85));
    assert_eq!(Color(7, 8, 9).meanpoint(Color(200, 200, 200), 0), Color(7, 8, 9));
}

#[test]
fn shift_clamps() {
    assert_eq!(Color(250, 5, 100).shift(10, -10, 0), Color(255, 0, 100));
    assert_eq!(Color(0, 0, 0).shift(255, 1, -1), Color(255, 1, 0));
}

#[test]
fn sample_with_draws() {
    let c = item(Color(100, 100, 100), 20, Color(0, 0, 0), 1);
    assert_eq!(c.sample_with(20, -20, 0), Color(60, 40, 50));
}

#[test]
fn variate_stays_within_deviation() {
    let mut rng = rand::thread_rng();
    for _ in 0..100 {
        let v = Color(100, 0, 255).variate(&mut rng, 7);
        assert!((93..=107).contains(&v.0));
        assert!(v.1 <= 7);
        assert!(v.2 >= 248);
    }
}

#[test]
fn first_region_wins() {
    let mut rng = rand::thread_rng();
    let red = item(Color(255, 0, 0), 0, Color(0, 0, 0), 0);
    let blue = item(Color(0, 0, 255), 0, Color(0, 0, 0), 0);
    let grey = item(Color(9, 9, 9), 0, Color(0, 0, 0), 0);
    let scene = Scene {
        bg: grey,
        items: vec![
            Region::Disc(Disc { center: Pos(0, 0), radius: 1000, color: red }),
            Region::Disc(Disc { center: Pos(0, 0), radius: 2000, color: blue }),
        ],
    };
    assert_eq!(scene.color(Pos(100, 100), &mut rng), Color(255, 0, 0));
    assert_eq!(scene.color(Pos(1500, 0), &mut rng), Color(0, 0, 255));
    assert_eq!(scene.color(Pos(5000, 0), &mut rng), Color(9, 9, 9));
}

fn sample_regions() -> Vec<Region> {
    let c = item(Color(1, 2, 3), 4, Color(5, 6, 7), 8);
    vec![
        Region::Disc(Disc { center: Pos(500, -20), radius: 300, color: c }),
        Region::HalfPlane(HalfPlane { limit: Pos(1, 2), reference: Pos(3, 4), color: c }),
        Region::Triangle(Triangle { a: Pos(0, 0), b: Pos(1000, 0), c: Pos(0, 1000), color: c }),
        Region::Spiral(Spiral { center: Pos(7, 8), width: 250, color: c }),
        Region::Stripe(Stripe { limit: Pos(-5, -5), reference: Pos(400, 0), color: c }),
    ]
}

#[test]
fn record_round_trip() {
    let mut rng = rand::thread_rng();
    let log = Logger {
        bg: item(Color(9, 8, 7), 0, Color(1, 1, 1), 3),
        objects: sample_regions(),
        frame: Frame::new(640, 480).unwrap(),
    };
    let rec = log.to_record();
    assert_eq!(rec.len(), 11 + 12 + 13 + 15 + 12 + 13);
    let back = Logger::from_record(&rec).unwrap();
    assert_eq!(back.frame, log.frame);
    assert_eq!(back.bg, log.bg);
    assert_eq!(back.objects, log.objects);
    for x in (-1000..1000).step_by(97) {
        for y in (-1000..1000).step_by(89) {
            for (a, b) in log.objects.iter().zip(back.objects.iter()) {
                let p = Pos(x, y);
                assert_eq!(a.contains(p, &mut rng).is_some(), b.contains(p, &mut rng).is_some());
            }
        }
    }
}

#[test]
fn malformed_records_are_refused() {
    assert!(Logger::from_record(&vec![1, 2, 3]).is_none());
    let log = Logger { bg: item(Color(0, 0, 0), 0, Color(0, 0, 0), 0), objects: sample_regions(), frame: Frame::new(10, 10).unwrap() };
    let mut rec = log.to_record();
    rec.push(0);
    assert!(Logger::from_record(&rec).is_none());
    let mut bad_tag = log.to_record();
    bad_tag[11] = 9;
    assert!(Logger::from_record(&bad_tag).is_none());
    let mut bad_channel = log.to_record();
    bad_channel[2] = 256;
    assert!(Logger::from_record(&bad_channel).is_none());
}

fn config(pattern: Pattern, tiling: Tiling) -> SceneCfg {
    SceneCfg {
        theme: vec![Color(10, 20, 30), Color(40, 50, 60)],
        weight: 2,
        deviation: 10,
        frame: Frame::new(300, 200).unwrap(),
        pattern,
        tiling,
        nb_pattern: 6,
        var_stripes: 15,
        size_tiling: 2000,
        nb_delaunay: 40,
        width_pattern: 20,
    }
}

#[test]
fn choose_color_uses_theme() {
    let mut rng = rand::thread_rng();
    let cfg = config(Pattern::FreeCircles, Tiling::Hexagons);
    let c = cfg.choose_color(&mut rng);
    assert!(cfg.theme.contains(&c.theme));
    assert_eq!(c.deviation, 10);
    assert_eq!(c.weight, 2);
    let mut bare = config(Pattern::FreeCircles, Tiling::Hexagons);
    bare.theme = vec![];
    assert_eq!(bare.choose_color(&mut rng).theme, Color(0, 0, 0));
}

#[test]
fn patterns_make_their_regions() {
    let mut rng = rand::thread_rng();
    let all = [
        Pattern::FreeCircles,
        Pattern::FreeTriangles,
        Pattern::FreeStripes,
        Pattern::FreeSpirals,
        Pattern::ConcentricCircles,
        Pattern::ParallelStripes,
        Pattern::CrossedStripes,
        Pattern::ParallelWaves,
    ];
    for p in all {
        let cfg = config(p, Tiling::Hexagons);
        let items = cfg.create_items(&mut rng);
        let expected = if p == Pattern::CrossedStripes { 12 } else { 6 };
        assert_eq!(items.len(), expected);
        for r in &items {
            let ok = match p {
                Pattern::FreeCircles | Pattern::ConcentricCircles => matches!(r, Region::Disc(_)),
                Pattern::FreeTriangles => matches!(r, Region::Triangle(_)),
                Pattern::FreeStripes => matches!(r, Region::Stripe(_)),
                Pattern::FreeSpirals => matches!(r, Region::Spiral(_)),
                _ => matches!(r, Region::HalfPlane(_)),
            };
            assert!(ok);
        }
    }
}

#[test]
fn tilings_from_config() {
    let mut rng = rand::thread_rng();
    for t in [Tiling::Hexagons, Tiling::Triangles, Tiling::HexagonsAndTriangles, Tiling::SquaresAndTriangles, Tiling::Delaunay] {
        let cfg = config(Pattern::FreeCircles, t);
        let tiles = cfg.make_tiling(&mut rng).unwrap();
        assert!(!tiles.is_empty());
    }
}

#[test]
fn scene_colors_every_tile() {
    let mut rng = rand::thread_rng();
    let cfg = config(Pattern::FreeSpirals, Tiling::Hexagons);
    let scene = Scene::new(&cfg, &mut rng);
    assert_eq!(scene.items.len(), 6);
    let tiles = cfg.make_tiling(&mut rng).unwrap();
    for (p, _) in tiles.iter().take(50) {
        let _ = scene.color(*p, &mut rng);
    }
    let _ = Pattern::pick(&mut rng);
    let _ = Tiling::pick(&mut rng);
}

#[test]
fn random_draws_vary() {
    let mut rng = rand::thread_rng();
    let f = Frame::new(500, 500).unwrap();
    let first = Pos::random(&f, &mut rng);
    let mut moved = false;
    for _ in 0..50 {
        let p = Pos::random(&f, &mut rng);
        assert!(f.is_inside(p));
        moved |= p != first;
    }
    assert!(moved);
    let first = Pattern::pick(&mut rng);
    assert!((0..200).any(|_| Pattern::pick(&mut rng) != first));
    let first = Tiling::pick(&mut rng);
    assert!((0..200).any(|_| Tiling::pick(&mut rng) != first));
    let first = Color::random(&mut rng);
    assert!((0..50).any(|_| Color::random(&mut rng) != first));
}

#[test]
fn random_regions_follow_their_recipes() {
    let mut rng = rand::thread_rng();
    let f = Frame::new(400, 300).unwrap();
    let c = item(Color(1, 2, 3), 0, Color(0, 0, 0), 0);
    for _ in 0..20 {
        let d = Disc::random(&mut rng, &f, c, 50);
        assert!(f.is_inside(d.center));
        assert!(d.radius >= 300 * 10 && d.radius <= 300 * 60);
        let t = Triangle::random(&mut rng, d);
        for v in [t.a, t.b, t.c] {
            let dx = (v.0 - d.center.0) as i64;
            let dy = (v.1 - d.center.1) as i64;
            let r = d.radius as i64;
            assert!((dx * dx + dy * dy - r * r).abs() <= 4 * r + 4);
        }
        let h = HalfPlane::random(&mut rng, Pos(1000, 1000), 90, 10, c);
        assert!(h.reference.1 - 1000 > 9000);
        let s = Stripe::random(&mut rng, &f, c, 2000);
        let dx = (s.reference.0 - s.limit.0) as i64;
        let dy = (s.reference.1 - s.limit.1) as i64;
        assert!((dx * dx + dy * dy - 4000000).abs() <= 8004);
        let sp = Spiral::random(&mut rng, &f, c, 700);
        assert!(f.is_inside(sp.center) && sp.width == 700);
    }
}

#[test]
fn concentric_radii_increase_even_without_width() {
    let mut rng = rand::thread_rng();
    let mut cfg = config(Pattern::ConcentricCircles, Tiling::Hexagons);
    for wp in [0, 20] {
        cfg.width_pattern = wp;
        let items = cfg.create_items(&mut rng);
        let radii: Vec<i32> = items
            .iter()
            .map(|r| match r {
                Region::Disc(d) => d.radius,
                _ => panic!("not a disc"),
            })
            .collect();
        assert!(radii.windows(2).all(|w| w[0] < w[1]));
        assert!(radii[0] > 0);
    }
}
