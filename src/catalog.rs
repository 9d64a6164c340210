//! The built-in constellations and where their stars land on a canvas.

use crate::shapes::{in_disc, on_line};
use vstd::prelude::*;

verus! {

/// Overlay centre along x: node offsets are taken from here.
pub const CENTER_X: i64 = 500;

/// Overlay centre along y.
pub const CENTER_Y: i64 = 250;

/// Canvas coordinate of a node offset `v` about centre `c`: the sum halved,
/// with a negative sum taken as zero.
pub open spec fn place(v: int, c: int) -> int {
    if v + c < 0 {
        0
    } else {
        (v + c) / 2
    }
}

/// A constellation as a graph: node offsets from the overlay centre, and the
/// pairs of nodes joined by a line.
pub struct Figure {
    pub nodes: Seq<(i32, i32)>,
    pub edges: Seq<(usize, usize)>,
}

impl Figure {
    /// Every edge joins two existing nodes.
    pub open spec fn wf(&self) -> bool {
        forall|j: int|
            0 <= j < self.edges.len() ==> #[trigger] self.edges[j].0 < self.nodes.len()
                && self.edges[j].1 < self.nodes.len()
    }

    /// Canvas position of node `i`.
    pub open spec fn node_pos(&self, i: int) -> (int, int) {
        (
            place(self.nodes[i].0 as int, CENTER_X as int),
            place(self.nodes[i].1 as int, CENTER_Y as int),
        )
    }

    /// `(x, y)` lies in the disc of radius `size` drawn for node `i`.
    pub open spec fn node_hit(&self, size: int, i: int, x: int, y: int) -> bool {
        &&& 0 <= i < self.nodes.len()
        &&& in_disc(self.node_pos(i).0, self.node_pos(i).1, size, x, y)
    }

    /// `(x, y)` lies on the line of width `w` drawn for edge `j`, between the
    /// placed positions of its two nodes.
    pub open spec fn edge_hit(&self, w: int, j: int, x: int, y: int) -> bool {
        &&& 0 <= j < self.edges.len()
        &&& on_line(
            self.node_pos(self.edges[j].0 as int).0,
            self.node_pos(self.edges[j].0 as int).1,
            self.node_pos(self.edges[j].1 as int).0,
            self.node_pos(self.edges[j].1 as int).1,
            w,
            x,
            y,
        )
    }

    pub open spec fn nodes_upto(&self, size: int, k: int, x: int, y: int) -> bool {
        exists|i: int| 0 <= i < k && #[trigger] self.node_hit(size, i, x, y)
    }

    pub open spec fn edges_upto(&self, w: int, k: int, x: int, y: int) -> bool {
        exists|j: int| 0 <= j < k && #[trigger] self.edge_hit(w, j, x, y)
    }

    /// `(x, y)` is painted by the overlay: by a node disc or by an edge line.
    pub open spec fn covers(&self, size: int, w: int, x: int, y: int) -> bool {
        self.nodes_upto(size, self.nodes.len() as int, x, y) || self.edges_upto(
            w,
            self.edges.len() as int,
            x,
            y,
        )
    }
}

pub open spec fn dipper_name() -> Seq<char> {
    seq!['b', 'i', 'g', '-', 'd', 'i', 'p', 'p', 'e', 'r']
}

pub open spec fn big_dipper() -> Figure {
    Figure {
        nodes: seq![(-200i32, 10i32), (-100i32, -50i32), (-25i32, -30i32), (75i32, -10i32), (340i32, -70i32), (350i32, 90i32), (150i32, 130i32)],
        edges: seq![(0usize, 1usize), (1usize, 2usize), (2usize, 3usize), (3usize, 4usize), (4usize, 5usize), (6usize, 5usize), (3usize, 6usize)],
    }
}

/// The catalog: the figure registered under `name`, if any.
pub open spec fn figure_named(name: Seq<char>) -> Option<Figure> {
    if name == dipper_name() {
        Some(big_dipper())
    } else {
        None
    }
}

/// A catalog entry.
pub struct Constellation {
    nodes: Vec<(i32, i32)>,
    edges: Vec<(usize, usize)>,
}

impl View for Constellation {
    type V = Figure;

    closed spec fn view(&self) -> Figure {
        Figure { nodes: self.nodes@, edges: self.edges@ }
    }
}

impl Constellation {
    /// Canvas position of node `i`.
    pub fn node_pos(&self, i: usize) -> (p: (usize, usize))
        requires
            i < self@.nodes.len(),
        ensures
            p.0 == self@.node_pos(i as int).0,
            p.1 == self@.node_pos(i as int).1,
    {
        let (x, y) = self.nodes[i];
        (place_coord(x, CENTER_X), place_coord(y, CENTER_Y))
    }

    pub fn node_count(&self) -> (n: usize)
        ensures
            n == self@.nodes.len(),
    {
        self.nodes.len()
    }

    pub fn edge_count(&self) -> (n: usize)
        ensures
            n == self@.edges.len(),
    {
        self.edges.len()
    }

    pub fn edge(&self, j: usize) -> (e: (usize, usize))
        requires
            j < self@.edges.len(),
        ensures
            e == self@.edges[j as int],
    {
        self.edges[j]
    }
}

fn place_coord(v: i32, c: i64) -> (p: usize)
    requires
        c == CENTER_X || c == CENTER_Y,
    ensures
        p == place(v as int, c as int),
{
    let s: i64 = v as i64 + c;
    if s < 0 {
        0
    } else {
        (s / 2) as usize
    }
}

fn build_big_dipper() -> (c: Constellation)
    ensures
        c@ == big_dipper(),
{
    let nodes: Vec<(i32, i32)> = vec![
        (-200, 10),
        (-100, -50),
        (-25, -30),
        (75, -10),
        (340, -70),
        (350, 90),
        (150, 130),
    ];
    let edges: Vec<(usize, usize)> = vec![(0, 1), (1, 2), (2, 3), (3, 4), (4, 5), (6, 5), (3, 6)];
    let c = Constellation { nodes, edges };
    assert(c@.nodes =~= big_dipper().nodes);
    assert(c@.edges =~= big_dipper().edges);
    c
}

/// Looks `name` up in the catalog by exact match; an unknown name, the empty
/// one included, gives `None`.
pub fn lookup(name: &String) -> (r: Option<Constellation>)
    ensures
        figure_named(name@) is None ==> r is None,
        figure_named(name@) is Some ==> r is Some && r->0@ == figure_named(name@)->0,
{
    let key: String = "big-dipper".to_owned();
    proof {
        reveal_strlit("big-dipper");
        assert(key@ =~= dipper_name());
    }
    if *name == key {
        Some(build_big_dipper())
    } else {
        None
    }
}

/// The entries of the catalog are well formed.
pub proof fn lemma_catalog_wf(name: Seq<char>)
    requires
        figure_named(name) is Some,
    ensures
        figure_named(name)->0.wf(),
{
    let f = big_dipper();
    assert forall|j: int| 0 <= j < f.edges.len() implies #[trigger] f.edges[j].0 < f.nodes.len()
        && f.edges[j].1 < f.nodes.len() by {
        assert(f.edges.len() == 7);
        assert(f.nodes.len() == 7);
    }
}

} // verus!
