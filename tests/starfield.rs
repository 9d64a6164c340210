use rand::rngs::StdRng;
use rand::{Rng, RngCore, SeedableRng};
use safespace::catalog::lookup;
use safespace::generator::DEFAULT_PROB;
use safespace::rng::StarRng;
use safespace::shapes::{draw_line, fill_disc};
use safespace::{Canvas, Generator, Rgba};

const FULL_CHANCE: u64 = 1 << 53;

fn quiet(width: usize, height: usize) -> Generator {
    Generator::new()
        .width(width)
        .height(height)
        .prob(0)
        .red_max(0)
        .blue_max(0)
        .seed(7)
}

fn colored(c: &Canvas, color: Rgba) -> Vec<(usize, usize)> {
    let mut out = Vec::new();
    for y in 0..c.height() {
        for x in 0..c.width() {
            if c.get(x, y) == Some(color) {
                out.push((x, y));
            }
        }
    }
    out
}

#[test]
fn defaults() {
    let g = Generator::new();
    assert_eq!(g.width, 1000);
    assert_eq!(g.height, 500);
    assert_eq!(g.prob, DEFAULT_PROB);
    assert_eq!(g.radius, 2);
    assert_eq!(g.white_radius, 1);
    assert_eq!(g.red_max, 10);
    assert_eq!(g.blue_max, 10);
    assert_eq!(g.constellation, "");
    assert_eq!(g.constellation_size, 4);
    assert_eq!(g.constellation_width, 2);
    // one in a hundred, rounded up to whole 2^-53 units
    assert_eq!(DEFAULT_PROB, (0.01f64 * FULL_CHANCE as f64).ceil() as u64);
}

#[test]
fn setters_change_one_field() {
    let g = Generator::new().seed(5).white_radius(3).constellation("big-dipper".to_string());
    assert_eq!(g.seed, 5);
    assert_eq!(g.white_radius, 3);
    assert_eq!(g.constellation, "big-dipper");
    assert_eq!(g.width, 1000);
    let g = g.constellation_size(9).constellation_width(5).radius(4);
    assert_eq!((g.constellation_size, g.constellation_width, g.radius), (9, 5, 4));
}

#[test]
fn same_seed_same_image() {
    let g = Generator::new().width(120).height(80).prob(DEFAULT_PROB * 5).seed(1234);
    let a = g.generate();
    let b = g.generate();
    assert_eq!(a.to_rgba_bytes(), b.to_rgba_bytes());
}

#[test]
fn other_seed_other_image() {
    let g = Generator::new().width(120).height(80).prob(DEFAULT_PROB * 5);
    let a = g.seed(1).generate();
    let b = Generator::new().width(120).height(80).prob(DEFAULT_PROB * 5).seed(2).generate();
    assert_ne!(a.to_rgba_bytes(), b.to_rgba_bytes());
}

#[test]
fn scenario_one_red_star() {
    let img = Generator::new()
        .width(10)
        .height(10)
        .prob(0)
        .radius(1)
        .red_max(1)
        .blue_max(0)
        .seed(42)
        .generate();
    let mut rng = StdRng::seed_from_u64(42);
    for _ in 0..100 {
        let _: f64 = rng.gen();
    }
    let sx: usize = rng.gen_range(0..10);
    let sy: usize = rng.gen_range(0..10);
    for y in 0..10usize {
        for x in 0..10usize {
            let dx = x as i64 - sx as i64;
            let dy = y as i64 - sy as i64;
            let want = if dx * dx + dy * dy <= 1 { Rgba::red() } else { Rgba::black() };
            assert_eq!(img.get(x, y), Some(want), "pixel ({}, {})", x, y);
        }
    }
    assert!(!colored(&img, Rgba::red()).is_empty());
}

#[test]
fn blue_hides_red() {
    // on a single pixel both stars must land at (0, 0)
    let img = quiet(1, 1).red_max(1).blue_max(1).seed(99).generate();
    assert_eq!(img.get(0, 0), Some(Rgba::blue()));
}

#[test]
fn unknown_constellation_draws_nothing() {
    let a = Generator::new().width(200).height(100).seed(3).generate();
    let plain = Generator::new().width(200).height(100).seed(3).constellation(String::new()).generate();
    let odd = Generator::new().width(200).height(100).seed(3).constellation("xyz".to_string()).generate();
    assert_eq!(plain.to_rgba_bytes(), odd.to_rgba_bytes());
    assert_eq!(a.to_rgba_bytes(), plain.to_rgba_bytes());
}

#[test]
fn big_dipper_nodes_and_edges() {
    let img = quiet(1000, 500).constellation("big-dipper".to_string()).generate();
    let nodes = [(150, 130), (200, 100), (237, 110), (287, 120), (420, 90), (425, 170), (325, 190)];
    for (x, y) in nodes {
        assert_eq!(img.get(x, y), Some(Rgba::green()), "node ({}, {})", x, y);
        // node discs have radius 4
        assert_eq!(img.get(x + 4, y), Some(Rgba::green()));
        assert_eq!(img.get(x, y + 4), Some(Rgba::green()));
    }
    let edges = [(0, 1), (1, 2), (2, 3), (3, 4), (4, 5), (6, 5), (3, 6)];
    for (a, b) in edges {
        let (ax, ay) = nodes[a];
        let (bx, by) = nodes[b];
        let mid = ((ax + bx) / 2, (ay + by) / 2);
        let near = (mid.0.saturating_sub(1)..=mid.0 + 1)
            .flat_map(|x| (mid.1.saturating_sub(1)..=mid.1 + 1).map(move |y| (x, y)))
            .any(|(x, y)| img.get(x, y) == Some(Rgba::green()));
        assert!(near, "edge {}-{}", a, b);
    }
    let green = colored(&img, Rgba::green()).len();
    let black = colored(&img, Rgba::black()).len();
    assert!(green > 7 * 49);
    assert_eq!(green + black, 1000 * 500);
}

#[test]
fn empty_canvas() {
    let a = Generator::new().width(0).height(20).seed(1).generate();
    assert_eq!(a.len(), 0);
    let b = Generator::new().width(20).height(0).seed(1).generate();
    assert_eq!(b.len(), 0);
    let c = Generator::new().width(0).height(0).constellation("big-dipper".to_string()).generate();
    assert_eq!(c.len(), 0);
    assert!(c.to_rgba_bytes().is_empty());
}

#[test]
fn full_chance_paints_every_pixel_white() {
    let img = quiet(6, 4).prob(FULL_CHANCE).white_radius(0).generate();
    assert_eq!(colored(&img, Rgba::white()).len(), 24);
}

#[test]
fn zero_chance_leaves_black() {
    let img = quiet(30, 20).generate();
    assert_eq!(colored(&img, Rgba::black()).len(), 600);
}

#[test]
fn small_stars_follow_the_stream() {
    let p = 0.2f64;
    let chance = (p * FULL_CHANCE as f64).ceil() as u64;
    let img = quiet(16, 8).prob(chance).white_radius(0).seed(11).generate();
    let mut rng = StdRng::seed_from_u64(11);
    for y in 0..8 {
        for x in 0..16 {
            let f: f64 = rng.gen();
            let want = if f < p { Rgba::white() } else { Rgba::black() };
            assert_eq!(img.get(x, y), Some(want));
        }
    }
}

#[test]
fn disc_is_clipped_at_edges() {
    let mut c = Canvas::new(4, 4, Rgba::black());
    fill_disc(&mut c, 0, 0, 1, Rgba::red());
    assert_eq!(colored(&c, Rgba::red()), vec![(0, 0), (1, 0), (0, 1)]);
    fill_disc(&mut c, 100, 100, 3, Rgba::blue());
    assert!(colored(&c, Rgba::blue()).is_empty());
    assert_eq!(c.len(), 16);
}

#[test]
fn disc_of_radius_two() {
    let mut c = Canvas::new(5, 5, Rgba::black());
    fill_disc(&mut c, 2, 2, 2, Rgba::white());
    // the four corners lie at distance sqrt(8) > 2
    assert_eq!(colored(&c, Rgba::white()).len(), 13);
    assert_eq!(c.get(0, 0), Some(Rgba::black()));
    assert_eq!(c.get(2, 0), Some(Rgba::white()));
}

#[test]
fn thin_line() {
    let mut c = Canvas::new(8, 8, Rgba::black());
    draw_line(&mut c, 5, 2, 1, 2, 1, Rgba::green());
    assert_eq!(colored(&c, Rgba::green()), vec![(1, 2), (2, 2), (3, 2), (4, 2), (5, 2)]);
}

#[test]
fn diagonal_line_steps() {
    let mut c = Canvas::new(8, 8, Rgba::black());
    draw_line(&mut c, 0, 0, 6, 3, 1, Rgba::green());
    // seven steps, y rounded toward the start
    assert_eq!(
        colored(&c, Rgba::green()),
        vec![(0, 0), (1, 0), (2, 1), (3, 1), (4, 2), (5, 2), (6, 3)]
    );
}

#[test]
fn wide_line() {
    let mut c = Canvas::new(8, 8, Rgba::black());
    draw_line(&mut c, 2, 4, 2, 4, 2, Rgba::green());
    assert_eq!(colored(&c, Rgba::green()), vec![(2, 3), (1, 4), (2, 4), (3, 4), (2, 5)]);
}

#[test]
fn set_ignores_off_canvas() {
    let mut c = Canvas::new(3, 2, Rgba::black());
    c.set(3, 0, Rgba::red());
    c.set(0, 2, Rgba::red());
    assert!(colored(&c, Rgba::red()).is_empty());
    c.set(2, 1, Rgba::red());
    assert_eq!(colored(&c, Rgba::red()), vec![(2, 1)]);
    assert_eq!(c.get(3, 1), None);
}

#[test]
fn rgba_bytes_row_major() {
    let mut c = Canvas::new(2, 2, Rgba::black());
    c.set(1, 0, Rgba::new(1, 2, 3, 4));
    assert_eq!(c.to_rgba_bytes(), vec![0, 0, 0, 255, 1, 2, 3, 4, 0, 0, 0, 255, 0, 0, 0, 255]);
}

#[test]
fn colours() {
    assert_eq!(Rgba::red(), Rgba::new(255, 112, 3, 255));
    assert_eq!(Rgba::blue(), Rgba::new(0, 112, 255, 255));
    assert_eq!(Rgba::green(), Rgba::new(0, 255, 0, 255));
    assert_eq!(Rgba::white(), Rgba::new(255, 255, 255, 255));
    assert_eq!(Rgba::black(), Rgba::new(0, 0, 0, 255));
}

#[test]
fn catalog_lookup() {
    let d = lookup(&"big-dipper".to_string()).expect("known");
    assert_eq!(d.node_count(), 7);
    assert_eq!(d.edge_count(), 7);
    assert_eq!(d.node_pos(0), (150, 130));
    assert_eq!(d.node_pos(2), (237, 110));
    assert_eq!(d.edge(5), (6, 5));
    assert!(lookup(&String::new()).is_none());
    assert!(lookup(&"xyz".to_string()).is_none());
    assert!(lookup(&"Big-Dipper".to_string()).is_none());
}

#[test]
fn stream_matches_std_rng() {
    let mut ours = StarRng::from_seed(42);
    let mut theirs = StdRng::seed_from_u64(42);
    assert_eq!(ours.next_word(), theirs.next_u64());
    let v = ours.below(1000);
    assert_eq!(v, theirs.gen_range(0..1000usize));
    assert!(v < 1000);
    assert_ne!(ours.next_word(), 42);
}

#[test]
fn default_matches_new() {
    let d = Generator::default();
    let n = Generator::new();
    assert_eq!((d.width, d.height, d.prob, d.radius), (n.width, n.height, n.prob, n.radius));
    assert_eq!((d.red_max, d.blue_max, d.white_radius), (10, 10, 1));
}
