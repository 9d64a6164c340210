//! Configuration of a starfield and the painting of one.

use crate::canvas::{black, blue, green, red, white, Canvas, Rgba, lemma_pixel_index};
use crate::catalog::{dipper_name, figure_named, lemma_catalog_wf, lookup, Constellation, Figure};
use crate::rng::{index_after, word_after, StarRng};
use crate::shapes::{draw_line, fill_disc, in_disc, line_steps, step_coord, under_step, under_steps};
use vstd::arithmetic::div_mod::{lemma_fundamental_div_mod, lemma_mod_pos_bound};
use vstd::prelude::*;

verus! {

/// Default chance of a small star per pixel: one in a hundred, as a count of
/// 2^-53 units rounded up (see `Generator::prob`).
pub const DEFAULT_PROB: u64 = 90071992547410;

/// Everything that decides a starfield.
pub struct Generator {
    pub width: usize,
    pub height: usize,
    /// Radius of the small white stars.
    pub white_radius: usize,
    /// Chance that a pixel gets a small star, in units of 2^-53: a pixel's
    /// trial succeeds when the top 53 bits of its 64-bit draw, read as an
    /// integer, are below this value. A uniform float in [0, 1) is below `p`
    /// exactly when those bits are below `ceil(p * 2^53)`.
    pub prob: u64,
    /// Radius of the large red and blue stars.
    pub radius: usize,
    /// Number of red stars; a negative count draws none.
    pub red_max: i32,
    /// Number of blue stars; a negative count draws none.
    pub blue_max: i32,
    pub seed: u64,
    /// Name of the constellation to overlay; unknown names draw nothing.
    pub constellation: String,
    /// Radius of the overlay's node discs.
    pub constellation_size: usize,
    /// Width of the overlay's lines.
    pub constellation_width: usize,
}

/// A star count, negative ones read as zero.
pub open spec fn count(n: i32) -> int {
    if n < 0 {
        0
    } else {
        n as int
    }
}

/// The calls on the stream before the trial of the `k`-th pixel in row-major
/// order: one raw word per earlier pixel.
pub open spec fn trial_calls(k: int) -> Seq<Option<usize>> {
    Seq::new(k as nat, |i: int| None)
}

/// Relies on std's `SystemTime::elapsed` from the Unix epoch: whole seconds
/// since then, or zero when the clock reads earlier. Nothing is promised of
/// the value.
#[verifier::external_body]
fn clock_seed() -> (s: u64) {
    match std::time::UNIX_EPOCH.elapsed() {
        Ok(d) => d.as_secs(),
        Err(_) => 0,
    }
}

impl Default for Generator {
    /// Same as `Generator::new`.
    fn default() -> (g: Generator)
        ensures
            g.width == 1000,
            g.height == 500,
            g.prob == DEFAULT_PROB,
            g.radius == 2,
            g.white_radius == 1,
            g.red_max == 10,
            g.blue_max == 10,
            g.constellation@ == Seq::<char>::empty(),
            g.constellation_size == 4,
            g.constellation_width == 2,
    {
        Generator::new()
    }
}

impl Generator {
    /// The calls on the stream after every pixel trial and `j` coordinate
    /// draws of large stars (x, y, x, y, ...).
    pub open spec fn big_calls(&self, j: int) -> Seq<Option<usize>> {
        trial_calls(self.width * self.height) + Seq::new(
            j as nat,
            |i: int|
                if i % 2 == 0 {
                    Some(self.width)
                } else {
                    Some(self.height)
                },
        )
    }

    /// The trial of pixel `(col, row)` spawns a small star there.
    pub open spec fn has_small_star(&self, col: int, row: int) -> bool {
        &&& 0 <= col < self.width
        &&& 0 <= row < self.height
        &&& (word_after(self.seed, trial_calls(row * self.width + col)) >> 11u64) < self.prob
    }

    /// `(x, y)` lies under the small star of pixel `(col, row)`.
    pub open spec fn small_hit(&self, col: int, row: int, x: int, y: int) -> bool {
        self.has_small_star(col, row) && in_disc(col, row, self.white_radius as int, x, y)
    }

    /// `(x, y)` lies under a small star of one of the first `k` pixels.
    pub open spec fn small_upto(&self, k: int, x: int, y: int) -> bool {
        exists|col: int, row: int|
            row * self.width + col < k && #[trigger] self.small_hit(col, row, x, y)
    }

    pub open spec fn small_at(&self, x: int, y: int) -> bool {
        self.small_upto(self.width * self.height, x, y)
    }

    /// Position of large star `s`: red ones first, then blue.
    pub open spec fn star_pos(&self, s: int) -> (int, int) {
        (
            index_after(self.seed, self.big_calls(2 * s), self.width) as int,
            index_after(self.seed, self.big_calls(2 * s + 1), self.height) as int,
        )
    }

    pub open spec fn big_hit(&self, s: int, x: int, y: int) -> bool {
        in_disc(self.star_pos(s).0, self.star_pos(s).1, self.radius as int, x, y)
    }

    /// `(x, y)` lies under one of the large stars `lo .. hi`.
    pub open spec fn big_between(&self, lo: int, hi: int, x: int, y: int) -> bool {
        exists|s: int| lo <= s < hi && #[trigger] self.big_hit(s, x, y)
    }

    /// Large stars are drawn only on a canvas with room for them.
    pub open spec fn has_room(&self) -> bool {
        self.width > 0 && self.height > 0
    }

    pub open spec fn red_at(&self, x: int, y: int) -> bool {
        self.has_room() && self.big_between(0, count(self.red_max), x, y)
    }

    pub open spec fn blue_at(&self, x: int, y: int) -> bool {
        self.has_room() && self.big_between(
            count(self.red_max),
            count(self.red_max) + count(self.blue_max),
            x,
            y,
        )
    }

    pub open spec fn overlay_at(&self, x: int, y: int) -> bool {
        match figure_named(self.constellation@) {
            Some(f) => f.covers(
                self.constellation_size as int,
                self.constellation_width as int,
                x,
                y,
            ),
            None => false,
        }
    }

    /// The colour of pixel `(x, y)` of the starfield: each layer hides those
    /// drawn before it.
    pub open spec fn pixel(&self, x: int, y: int) -> Rgba {
        if self.overlay_at(x, y) {
            green()
        } else if self.blue_at(x, y) {
            blue()
        } else if self.red_at(x, y) {
            red()
        } else if self.small_at(x, y) {
            white()
        } else {
            black()
        }
    }

    /// `c` is the starfield of this configuration.
    pub open spec fn renders(&self, c: Canvas) -> bool {
        &&& c.wf()
        &&& c.width_spec() == self.width
        &&& c.height_spec() == self.height
        &&& forall|x: int, y: int| c.in_bounds(x, y) ==> #[trigger] c.at(x, y) == self.pixel(x, y)
    }
}

impl Generator {
    /// One trial per pixel in row-major order, each taking one word from the
    /// stream; a success paints a white disc about that pixel.
    fn paint_small_stars(&self, canvas: &mut Canvas, rng: &mut StarRng)
        requires
            old(canvas).wf(),
            old(canvas).width_spec() == self.width,
            old(canvas).height_spec() == self.height,
            forall|x: int, y: int| old(canvas).in_bounds(x, y) ==> #[trigger] old(canvas).at(x, y) == black(),
            old(rng).seed() == self.seed,
            old(rng).calls() == trial_calls(0),
        ensures
            final(canvas).wf(),
            final(canvas).width_spec() == self.width,
            final(canvas).height_spec() == self.height,
            forall|x: int, y: int|
                final(canvas).in_bounds(x, y) ==> #[trigger] final(canvas).at(x, y) == if self.small_at(x, y) {
                    white()
                } else {
                    black()
                },
            final(rng).seed() == self.seed,
            final(rng).calls() == trial_calls(self.width * self.height),
    {
        let w = self.width;
        let h = self.height;
        let n: usize = w * h;
        let mut k: usize = 0;
        let mut col: usize = 0;
        let mut row: usize = 0;
        while k < n
            invariant
                canvas.wf(),
                canvas.width_spec() == w,
                canvas.height_spec() == h,
                w == self.width,
                h == self.height,
                n == w * h,
                k <= n,
                k == row * w + col,
                w > 0 ==> col < w,
                rng.seed() == self.seed,
                rng.calls() == trial_calls(k as int),
                forall|x: int, y: int|
                    canvas.in_bounds(x, y) ==> #[trigger] canvas.at(x, y) == if self.small_upto(k as int, x, y) {
                        white()
                    } else {
                        black()
                    },
            decreases n - k,
        {
            proof {
                assert(w > 0) by (nonlinear_arith)
                    requires
                        k < n,
                        n == w * h,
                ;
                assert(row < h) by (nonlinear_arith)
                    requires
                        k < n,
                        n == w * h,
                        k == row * w + col,
                        0 <= col,
                ;
                lemma_pixel_index(w as int, h as int, col as int, row as int);
            }
            let word = rng.next_word();
            let ghost prev = *canvas;
            let star = (word >> 11u64) < self.prob;
            if star {
                fill_disc(canvas, col, row, self.white_radius, Rgba::white());
            }
            proof {
                assert(trial_calls(k as int).push(None) =~= trial_calls(k + 1));
                assert(star == self.has_small_star(col as int, row as int));
                assert forall|x: int, y: int| canvas.in_bounds(x, y) implies #[trigger] canvas.at(x, y)
                    == if self.small_upto(k + 1, x, y) {
                    white()
                } else {
                    black()
                } by {
                    if self.small_hit(col as int, row as int, x, y) {
                        assert(self.small_upto(k + 1, x, y));
                    } else if self.small_upto(k + 1, x, y) {
                        let (c, r) = choose|c: int, r: int|
                            r * self.width + c < k + 1 && #[trigger] self.small_hit(c, r, x, y);
                        assert(r * w + c != k);
                        assert(self.small_upto(k as int, x, y));
                    }
                    assert(prev.at(x, y) == if self.small_upto(k as int, x, y) {
                        white()
                    } else {
                        black()
                    });
                }
            }
            proof {
                assert((row + 1) * w == row * w + w) by (nonlinear_arith);
            }
            k = k + 1;
            col = col + 1;
            if col == w {
                col = 0;
                row = row + 1;
            }
        }
    }
}

impl Generator {
    /// Large stars `first .. first + n`: each draws x in `0..width`, then y in
    /// `0..height`, and paints a disc of radius `radius` in `color` there.
    fn paint_big_stars(&self, canvas: &mut Canvas, rng: &mut StarRng, first: usize, n: usize, color: Rgba)
        requires
            old(canvas).wf(),
            old(canvas).width_spec() == self.width,
            old(canvas).height_spec() == self.height,
            self.has_room(),
            first + n <= usize::MAX,
            old(rng).seed() == self.seed,
            old(rng).calls() == self.big_calls(2 * first),
        ensures
            final(canvas).wf(),
            final(canvas).width_spec() == self.width,
            final(canvas).height_spec() == self.height,
            forall|x: int, y: int|
                final(canvas).in_bounds(x, y) ==> #[trigger] final(canvas).at(x, y) == if self.big_between(
                    first as int,
                    first + n,
                    x,
                    y,
                ) {
                    color
                } else {
                    old(canvas).at(x, y)
                },
            final(rng).seed() == self.seed,
            final(rng).calls() == self.big_calls(2 * (first + n)),
    {
        let ghost before = *canvas;
        let mut i: usize = 0;
        while i < n
            invariant
                canvas.wf(),
                canvas.width_spec() == self.width,
                canvas.height_spec() == self.height,
                self.has_room(),
                first + n <= usize::MAX,
                i <= n,
                rng.seed() == self.seed,
                rng.calls() == self.big_calls(2 * (first + i)),
                forall|x: int, y: int|
                    canvas.in_bounds(x, y) ==> #[trigger] canvas.at(x, y) == if self.big_between(
                        first as int,
                        first + i,
                        x,
                        y,
                    ) {
                        color
                    } else {
                        before.at(x, y)
                    },
            decreases n - i,
        {
            let ghost s = first + i;
            let ghost c0 = rng.calls();
            let x = rng.below(self.width);
            proof {
                assert(c0.push(Some(self.width)) =~= self.big_calls(2 * s + 1));
            }
            let y = rng.below(self.height);
            proof {
                assert(rng.calls() =~= self.big_calls(2 * (s + 1)));
            }
            let ghost prev = *canvas;
            fill_disc(canvas, x, y, self.radius, color);
            proof {
                assert forall|px: int, py: int| canvas.in_bounds(px, py) implies #[trigger] canvas.at(px, py)
                    == if self.big_between(first as int, s + 1, px, py) {
                    color
                } else {
                    before.at(px, py)
                } by {
                    assert(self.big_hit(s, px, py) == in_disc(x as int, y as int, self.radius as int, px, py));
                    if self.big_hit(s, px, py) {
                        assert(self.big_between(first as int, s + 1, px, py));
                    } else if self.big_between(first as int, s + 1, px, py) {
                        let t = choose|t: int| first <= t < s + 1 && #[trigger] self.big_hit(t, px, py);
                        assert(self.big_between(first as int, s, px, py));
                    }
                    assert(prev.at(px, py) == if self.big_between(first as int, s, px, py) {
                        color
                    } else {
                        before.at(px, py)
                    });
                }
            }
            i = i + 1;
        }
    }

    /// Paints the figure `con` in green: a disc for each node, then a line for
    /// each edge between its nodes' placed positions.
    fn paint_overlay(&self, canvas: &mut Canvas, con: &Constellation)
        requires
            old(canvas).wf(),
            con@.wf(),
        ensures
            final(canvas).wf(),
            final(canvas).width_spec() == old(canvas).width_spec(),
            final(canvas).height_spec() == old(canvas).height_spec(),
            forall|x: int, y: int|
                final(canvas).in_bounds(x, y) ==> #[trigger] final(canvas).at(x, y) == if con@.covers(
                    self.constellation_size as int,
                    self.constellation_width as int,
                    x,
                    y,
                ) {
                    green()
                } else {
                    old(canvas).at(x, y)
                },
    {
        let ghost before = *canvas;
        let ghost f = con@;
        let size = self.constellation_size;
        let lw = self.constellation_width;
        let paint = Rgba::green();
        let nn = con.node_count();
        let mut i: usize = 0;
        while i < nn
            invariant
                canvas.wf(),
                canvas.width_spec() == before.width_spec(),
                canvas.height_spec() == before.height_spec(),
                f == con@,
                nn == f.nodes.len(),
                size == self.constellation_size,
                paint == green(),
                i <= nn,
                forall|x: int, y: int|
                    canvas.in_bounds(x, y) ==> #[trigger] canvas.at(x, y) == if f.nodes_upto(
                        size as int,
                        i as int,
                        x,
                        y,
                    ) {
                        paint
                    } else {
                        before.at(x, y)
                    },
            decreases nn - i,
        {
            let (px, py) = con.node_pos(i);
            let ghost prev = *canvas;
            fill_disc(canvas, px, py, size, paint);
            proof {
                assert forall|x: int, y: int| canvas.in_bounds(x, y) implies #[trigger] canvas.at(x, y)
                    == if f.nodes_upto(size as int, i + 1, x, y) {
                    paint
                } else {
                    before.at(x, y)
                } by {
                    if f.node_hit(size as int, i as int, x, y) {
                        assert(f.nodes_upto(size as int, i + 1, x, y));
                    } else if f.nodes_upto(size as int, i + 1, x, y) {
                        let t = choose|t: int| 0 <= t < i + 1 && #[trigger] f.node_hit(size as int, t, x, y);
                        assert(f.nodes_upto(size as int, i as int, x, y));
                    }
                    assert(prev.at(x, y) == if f.nodes_upto(size as int, i as int, x, y) {
                        paint
                    } else {
                        before.at(x, y)
                    });
                }
            }
            i = i + 1;
        }
        let ne = con.edge_count();
        let mut j: usize = 0;
        while j < ne
            invariant
                canvas.wf(),
                canvas.width_spec() == before.width_spec(),
                canvas.height_spec() == before.height_spec(),
                f == con@,
                f.wf(),
                nn == f.nodes.len(),
                ne == f.edges.len(),
                size == self.constellation_size,
                lw == self.constellation_width,
                paint == green(),
                j <= ne,
                forall|x: int, y: int|
                    canvas.in_bounds(x, y) ==> #[trigger] canvas.at(x, y) == if f.nodes_upto(
                        size as int,
                        nn as int,
                        x,
                        y,
                    ) || f.edges_upto(lw as int, j as int, x, y) {
                        paint
                    } else {
                        before.at(x, y)
                    },
            decreases ne - j,
        {
            let (a, b) = con.edge(j);
            assert(a < f.nodes.len() && b < f.nodes.len()) by {
                assert(f.edges[j as int].0 < f.nodes.len());
            }
            let (ax, ay) = con.node_pos(a);
            let (bx, by) = con.node_pos(b);
            let ghost prev = *canvas;
            draw_line(canvas, ax, ay, bx, by, lw, paint);
            proof {
                assert forall|x: int, y: int| canvas.in_bounds(x, y) implies #[trigger] canvas.at(x, y)
                    == if f.nodes_upto(size as int, nn as int, x, y) || f.edges_upto(lw as int, j + 1, x, y) {
                    paint
                } else {
                    before.at(x, y)
                } by {
                    if f.edge_hit(lw as int, j as int, x, y) {
                        assert(f.edges_upto(lw as int, j + 1, x, y));
                    } else if f.edges_upto(lw as int, j + 1, x, y) {
                        let t = choose|t: int| 0 <= t < j + 1 && #[trigger] f.edge_hit(lw as int, t, x, y);
                        assert(f.edges_upto(lw as int, j as int, x, y));
                    }
                    assert(prev.at(x, y) == if f.nodes_upto(size as int, nn as int, x, y) || f.edges_upto(
                        lw as int,
                        j as int,
                        x,
                        y,
                    ) {
                        paint
                    } else {
                        before.at(x, y)
                    });
                }
            }
            j = j + 1;
        }
    }
}

impl Generator {
    /// The default configuration: a 1000 by 500 canvas, a one-in-a-hundred
    /// chance of a small star of radius 1, ten red and ten blue stars of
    /// radius 2, no constellation (nodes of radius 4, lines of width 2), and a
    /// seed taken from the clock.
    pub fn new() -> (g: Generator)
        ensures
            g.width == 1000,
            g.height == 500,
            g.prob == DEFAULT_PROB,
            g.radius == 2,
            g.white_radius == 1,
            g.red_max == 10,
            g.blue_max == 10,
            g.constellation@ == Seq::<char>::empty(),
            g.constellation_size == 4,
            g.constellation_width == 2,
    {
        Generator {
            width: 1000,
            height: 500,
            prob: DEFAULT_PROB,
            radius: 2,
            white_radius: 1,
            red_max: 10,
            blue_max: 10,
            seed: clock_seed(),
            constellation: String::new(),
            constellation_size: 4,
            constellation_width: 2,
        }
    }

    pub fn width(self, val: usize) -> (g: Generator)
        ensures
            g == (Generator { width: val, ..self }),
    {
        Generator { width: val, ..self }
    }

    pub fn height(self, val: usize) -> (g: Generator)
        ensures
            g == (Generator { height: val, ..self }),
    {
        Generator { height: val, ..self }
    }

    pub fn white_radius(self, val: usize) -> (g: Generator)
        ensures
            g == (Generator { white_radius: val, ..self }),
    {
        Generator { white_radius: val, ..self }
    }

    pub fn prob(self, val: u64) -> (g: Generator)
        ensures
            g == (Generator { prob: val, ..self }),
    {
        Generator { prob: val, ..self }
    }

    pub fn radius(self, val: usize) -> (g: Generator)
        ensures
            g == (Generator { radius: val, ..self }),
    {
        Generator { radius: val, ..self }
    }

    pub fn red_max(self, val: i32) -> (g: Generator)
        ensures
            g == (Generator { red_max: val, ..self }),
    {
        Generator { red_max: val, ..self }
    }

    pub fn blue_max(self, val: i32) -> (g: Generator)
        ensures
            g == (Generator { blue_max: val, ..self }),
    {
        Generator { blue_max: val, ..self }
    }

    pub fn seed(self, val: u64) -> (g: Generator)
        ensures
            g == (Generator { seed: val, ..self }),
    {
        Generator { seed: val, ..self }
    }

    pub fn constellation(self, val: String) -> (g: Generator)
        ensures
            g == (Generator { constellation: val, ..self }),
    {
        Generator { constellation: val, ..self }
    }

    pub fn constellation_size(self, val: usize) -> (g: Generator)
        ensures
            g == (Generator { constellation_size: val, ..self }),
    {
        Generator { constellation_size: val, ..self }
    }

    pub fn constellation_width(self, val: usize) -> (g: Generator)
        ensures
            g == (Generator { constellation_width: val, ..self }),
    {
        Generator { constellation_width: val, ..self }
    }

    /// Paints the starfield: a black canvas; the small star trials; the red,
    /// then the blue large stars (none on an empty canvas); then the named
    /// constellation, if the catalog has it. All randomness comes, in that
    /// order, from one stream seeded with `seed`.
    pub fn generate(&self) -> (img: Canvas)
        requires
            self.width * self.height <= usize::MAX,
        ensures
            self.renders(img),
            img.pixels_spec().len() == self.width * self.height,
            self.width == 0 || self.height == 0 ==> img.pixels_spec().len() == 0,
    {
        let mut canvas = Canvas::new(self.width, self.height, Rgba::black());
        let mut rng = StarRng::from_seed(self.seed);
        proof {
            assert(rng.calls() =~= trial_calls(0));
        }
        self.paint_small_stars(&mut canvas, &mut rng);
        let ghost small = canvas;
        let reds: usize = if self.red_max < 0 {
            0
        } else {
            self.red_max as usize
        };
        let blues: usize = if self.blue_max < 0 {
            0
        } else {
            self.blue_max as usize
        };
        if self.width > 0 && self.height > 0 {
            proof {
                assert(rng.calls() =~= self.big_calls(0));
            }
            self.paint_big_stars(&mut canvas, &mut rng, 0, reds, Rgba::red());
            self.paint_big_stars(&mut canvas, &mut rng, reds, blues, Rgba::blue());
        }
        let ghost stars = canvas;
        match lookup(&self.constellation) {
            Some(con) => {
                proof {
                    lemma_catalog_wf(self.constellation@);
                }
                self.paint_overlay(&mut canvas, &con);
            },
            None => {},
        }
        proof {
            if self.width == 0 || self.height == 0 {
                assert(self.width * self.height == 0) by (nonlinear_arith)
                    requires
                        self.width == 0 || self.height == 0,
                ;
            }
            assert forall|x: int, y: int| canvas.in_bounds(x, y) implies #[trigger] canvas.at(x, y)
                == self.pixel(x, y) by {
                assert(stars.in_bounds(x, y));
                assert(small.in_bounds(x, y));
            }
        }
        canvas
    }
}

/// Two canvases that both render one configuration are the same canvas: the
/// starfield is a function of the configuration, seed included.
pub proof fn lemma_generate_deterministic(g: Generator, a: Canvas, b: Canvas)
    requires
        g.renders(a),
        g.renders(b),
    ensures
        a.width_spec() == b.width_spec(),
        a.height_spec() == b.height_spec(),
        a.pixels_spec() == b.pixels_spec(),
{
    let w = g.width as int;
    let h = g.height as int;
    assert forall|i: int| 0 <= i < a.pixels_spec().len() implies a.pixels_spec()[i] == b.pixels_spec()[i] by {
        assert(w > 0) by (nonlinear_arith)
            requires
                0 <= i < w * h,
                h >= 0,
        ;
        let x = i % w;
        let y = i / w;
        lemma_fundamental_div_mod(i, w);
        lemma_mod_pos_bound(i, w);
        assert(y < h) by (nonlinear_arith)
            requires
                i == w * y + x,
                0 <= x,
                i < w * h,
                w > 0,
        ;
        assert(0 <= y) by (nonlinear_arith)
            requires
                i == w * y + x,
                x < w,
                0 <= i,
                w > 0,
        ;
        assert(a.in_bounds(x, y));
        assert(a.at(x, y) == b.at(x, y));
        assert(y * w + x == i) by (nonlinear_arith)
            requires
                i == w * y + x,
        ;
    }
    assert(a.pixels_spec() =~= b.pixels_spec());
}

/// Where a blue star lands on a red one, the blue star shows: at their common
/// centre the pixel is blue, unless the overlay paints it.
pub proof fn lemma_blue_over_red(g: Generator, r: int, b: int)
    requires
        g.has_room(),
        0 <= r < count(g.red_max),
        count(g.red_max) <= b < count(g.red_max) + count(g.blue_max),
        g.star_pos(r) == g.star_pos(b),
        !g.overlay_at(g.star_pos(b).0, g.star_pos(b).1),
    ensures
        g.pixel(g.star_pos(b).0, g.star_pos(b).1) == blue(),
{
    let (x, y) = g.star_pos(b);
    let rad = g.radius as int;
    assert(0 <= rad * rad) by (nonlinear_arith);
    assert(g.big_hit(b, x, y));
    assert(g.big_hit(r, x, y));
    assert(g.blue_at(x, y));
}

/// A constellation name that the catalog lacks changes nothing: the picture is
/// the one drawn with no constellation at all.
pub proof fn lemma_unknown_constellation(g: Generator, h: Generator)
    requires
        figure_named(g.constellation@) is None,
        h.constellation@ == Seq::<char>::empty(),
        h.width == g.width,
        h.height == g.height,
        h.white_radius == g.white_radius,
        h.prob == g.prob,
        h.radius == g.radius,
        h.red_max == g.red_max,
        h.blue_max == g.blue_max,
        h.seed == g.seed,
        h.constellation_size == g.constellation_size,
        h.constellation_width == g.constellation_width,
    ensures
        forall|x: int, y: int| #[trigger] g.pixel(x, y) == h.pixel(x, y),
        forall|c: Canvas| #[trigger] g.renders(c) <==> h.renders(c),
{
    assert(figure_named(h.constellation@) is None) by {
        assert(dipper_name().len() == 10);
    }
    assert forall|x: int, y: int| #[trigger] g.pixel(x, y) == h.pixel(x, y) by {
        assert forall|col: int, row: int| #[trigger] g.small_hit(col, row, x, y) == h.small_hit(col, row, x, y) by {
            assert(g.big_calls(0) == h.big_calls(0));
        }
        assert forall|s: int| #[trigger] g.big_hit(s, x, y) == h.big_hit(s, x, y) by {
            assert(g.big_calls(2 * s) =~= h.big_calls(2 * s));
            assert(g.big_calls(2 * s + 1) =~= h.big_calls(2 * s + 1));
        }
        let k = g.width * g.height;
        if g.small_at(x, y) {
            let (c, r) = choose|c: int, r: int| r * g.width + c < k && #[trigger] g.small_hit(c, r, x, y);
            assert(h.small_hit(c, r, x, y));
        }
        if h.small_at(x, y) {
            let (c, r) = choose|c: int, r: int| r * h.width + c < k && #[trigger] h.small_hit(c, r, x, y);
            assert(g.small_hit(c, r, x, y));
        }
        let nr = count(g.red_max);
        if g.big_between(0, nr, x, y) {
            let s = choose|s: int| 0 <= s < nr && #[trigger] g.big_hit(s, x, y);
            assert(h.big_hit(s, x, y));
        }
        if h.big_between(0, nr, x, y) {
            let s = choose|s: int| 0 <= s < nr && #[trigger] h.big_hit(s, x, y);
            assert(g.big_hit(s, x, y));
        }
        let nb = nr + count(g.blue_max);
        if g.big_between(nr, nb, x, y) {
            let s = choose|s: int| nr <= s < nb && #[trigger] g.big_hit(s, x, y);
            assert(h.big_hit(s, x, y));
        }
        if h.big_between(nr, nb, x, y) {
            let s = choose|s: int| nr <= s < nb && #[trigger] h.big_hit(s, x, y);
            assert(g.big_hit(s, x, y));
        }
    }
}

/// A constellation that the catalog has is drawn: the centre of every node,
/// and every point that the brush is centred on along every edge, is green
/// wherever it falls on the canvas.
pub proof fn lemma_known_constellation(g: Generator, i: int, j: int, t: int)
    requires
        figure_named(g.constellation@) is Some,
        0 <= i < figure_named(g.constellation@)->0.nodes.len(),
        0 <= j < figure_named(g.constellation@)->0.edges.len(),
        0 <= t <= edge_steps(figure_named(g.constellation@)->0, j),
    ensures
        ({
            let f = figure_named(g.constellation@)->0;
            g.pixel(f.node_pos(i).0, f.node_pos(i).1) == green()
        }),
        ({
            let f = figure_named(g.constellation@)->0;
            let p = edge_point(f, j, t);
            g.pixel(p.0, p.1) == green()
        }),
{
    let f = figure_named(g.constellation@)->0;
    let size = g.constellation_size as int;
    let lw = g.constellation_width as int;
    assert(0 <= size * size) by (nonlinear_arith);
    assert(0 <= (lw / 2) * (lw / 2)) by (nonlinear_arith);
    let (nx, ny) = f.node_pos(i);
    assert(f.node_hit(size, i, nx, ny));
    assert(f.nodes_upto(size, f.nodes.len() as int, nx, ny));
    let p = edge_point(f, j, t);
    let a = f.node_pos(f.edges[j].0 as int);
    let b = f.node_pos(f.edges[j].1 as int);
    assert(under_step(a.0, a.1, b.0, b.1, lw, t, p.0, p.1));
    assert(under_steps(a.0, a.1, b.0, b.1, lw, line_steps(a.0, a.1, b.0, b.1) + 1, p.0, p.1));
    assert(f.edge_hit(lw, j, p.0, p.1));
    assert(f.edges_upto(lw, f.edges.len() as int, p.0, p.1));
}

/// Number of brush steps along edge `j` of `f`.
pub open spec fn edge_steps(f: Figure, j: int) -> int {
    let a = f.node_pos(f.edges[j].0 as int);
    let b = f.node_pos(f.edges[j].1 as int);
    line_steps(a.0, a.1, b.0, b.1)
}

/// Centre of the brush at step `t` along edge `j` of `f`.
pub open spec fn edge_point(f: Figure, j: int, t: int) -> (int, int) {
    let a = f.node_pos(f.edges[j].0 as int);
    let b = f.node_pos(f.edges[j].1 as int);
    let n = line_steps(a.0, a.1, b.0, b.1);
    (step_coord(a.0, b.0, t, n), step_coord(a.1, b.1, t, n))
}

} // verus!
