//! The fixed layout of the standard board: which vertices surround each tile,
//! which vertices each edge joins, where the harbors lie, and the per-vertex
//! lists derived from these.

use vstd::prelude::*;

verus! {

pub const NUM_TILES: usize = 19;

pub const NUM_VERTICES: usize = 54;

pub const NUM_EDGES: usize = 72;

pub const NUM_PORTS: usize = 9;

/// The six corner vertices of each tile, clockwise from the top.
pub const TILE_VERTICES: [[u8; 6]; 19] = [
    [0, 1, 2, 3, 4, 5], [6, 7, 8, 9, 2, 1], [10, 11, 12, 13, 8, 7],
    [4, 3, 14, 15, 16, 17], [2, 9, 18, 19, 14, 3], [8, 13, 20, 21, 18, 9],
    [12, 22, 23, 24, 20, 13], [16, 15, 25, 26, 27, 28], [14, 19, 29, 30, 25, 15],
    [18, 21, 31, 32, 29, 19], [20, 24, 33, 34, 31, 21], [23, 35, 36, 37, 33, 24],
    [25, 30, 38, 39, 40, 26], [29, 32, 41, 42, 38, 30], [31, 34, 43, 44, 41, 32],
    [33, 37, 45, 46, 43, 34], [38, 42, 47, 48, 49, 39], [41, 44, 50, 51, 47, 42],
    [43, 46, 52, 53, 50, 44],
];

/// The two end vertices of each edge, smaller id first.
pub const EDGE_VERTICES: [[u8; 2]; 72] = [
    [0, 1], [1, 2], [2, 3], [3, 4], [4, 5], [0, 5], [6, 7], [7, 8],
    [8, 9], [2, 9], [1, 6], [10, 11], [11, 12], [12, 13], [8, 13], [7, 10],
    [3, 14], [14, 15], [15, 16], [16, 17], [4, 17], [9, 18], [18, 19], [14, 19],
    [13, 20], [20, 21], [18, 21], [12, 22], [22, 23], [23, 24], [20, 24], [15, 25],
    [25, 26], [26, 27], [27, 28], [16, 28], [19, 29], [29, 30], [25, 30], [21, 31],
    [31, 32], [29, 32], [24, 33], [33, 34], [31, 34], [23, 35], [35, 36], [36, 37],
    [33, 37], [30, 38], [38, 39], [39, 40], [26, 40], [32, 41], [41, 42], [38, 42],
    [34, 43], [43, 44], [41, 44], [37, 45], [45, 46], [43, 46], [42, 47], [47, 48],
    [48, 49], [39, 49], [44, 50], [50, 51], [47, 51], [46, 52], [52, 53], [50, 53],
];

/// The two vertices of each harbor slot.
pub const PORT_VERTICES: [[u8; 2]; 9] = [
    [47, 51], [39, 49], [27, 28], [4, 17], [1, 6], [10, 11], [22, 23], [36, 37], [52, 53],
];

/// Layout-plane coordinates `(vx, vy)` of each vertex.
pub const VERTEX_POS: [(i8, i8); 54] = [
    (-2, -8), (-1, -7), (-1, -5), (-2, -4), (-3, -5), (-3, -7), (0, -8), (1, -7), (1, -5),
    (0, -4), (2, -8), (3, -7), (3, -5), (2, -4), (-2, -2), (-3, -1), (-4, -2), (-4, -4),
    (0, -2), (-1, -1), (2, -2), (1, -1), (4, -4), (4, -2), (3, -1), (-3, 1), (-4, 2),
    (-5, 1), (-5, -1), (-1, 1), (-2, 2), (1, 1), (0, 2), (3, 1), (2, 2), (5, -1),
    (5, 1), (4, 2), (-2, 4), (-3, 5), (-4, 4), (0, 4), (-1, 5), (2, 4), (1, 5),
    (4, 4), (3, 5), (-1, 7), (-2, 8), (-3, 7), (1, 7), (0, 8), (3, 7), (2, 8),
];

/// Edge `e` has `v` as one of its ends.
pub open spec fn edge_touches(e: int, v: int) -> bool {
    EDGE_VERTICES[e][0] == v || EDGE_VERTICES[e][1] == v
}

/// The end of edge `e` that is not `v`.
pub open spec fn other_end(e: int, v: int) -> int {
    if EDGE_VERTICES[e][0] == v {
        EDGE_VERTICES[e][1] as int
    } else {
        EDGE_VERTICES[e][0] as int
    }
}

/// Some edge joins `u` and `v`.
pub open spec fn adjacent(u: int, v: int) -> bool {
    exists|e: int|
        0 <= e < 72 && #[trigger] edge_touches(e, u) && edge_touches(e, v) && u != v
}

/// Vertex `v` is a corner of tile `t`.
pub open spec fn tile_touches(t: int, v: int) -> bool {
    exists|c: int| 0 <= c < 6 && #[trigger] TILE_VERTICES[t][c] == v
}

/// The edges among `0..n` that touch `v`, in increasing order.
pub open spec fn edges_at(v: int, n: int) -> Seq<u8>
    decreases n,
{
    if n <= 0 {
        Seq::empty()
    } else if edge_touches(n - 1, v) {
        edges_at(v, n - 1).push((n - 1) as u8)
    } else {
        edges_at(v, n - 1)
    }
}

/// The far ends of the edges of `edges_at(v, n)`, in the same order.
pub open spec fn neighbors_at(v: int, n: int) -> Seq<u8>
    decreases n,
{
    if n <= 0 {
        Seq::empty()
    } else if edge_touches(n - 1, v) {
        neighbors_at(v, n - 1).push(other_end(n - 1, v) as u8)
    } else {
        neighbors_at(v, n - 1)
    }
}

/// The tiles among `0..n` that have `v` as a corner, in increasing order.
pub open spec fn tiles_at(v: int, n: int) -> Seq<u8>
    decreases n,
{
    if n <= 0 {
        Seq::empty()
    } else if tile_touches(n - 1, v) {
        tiles_at(v, n - 1).push((n - 1) as u8)
    } else {
        tiles_at(v, n - 1)
    }
}

/// The last harbor slot among `0..n` that includes `v`.
pub open spec fn port_slot(v: int, n: int) -> Option<u8>
    decreases n,
{
    if n <= 0 {
        None
    } else if PORT_VERTICES[n - 1][0] == v || PORT_VERTICES[n - 1][1] == v {
        Some((n - 1) as u8)
    } else {
        port_slot(v, n - 1)
    }
}

/// Facts about the fixed tables that the rest of the library relies on.
pub proof fn lemma_tables()
    ensures
        forall|t: int, c: int|
            0 <= t < 19 && 0 <= c < 6 ==> #[trigger] TILE_VERTICES[t][c] < 54,
        forall|e: int|
            0 <= e < 72 ==> #[trigger] EDGE_VERTICES[e][0] < EDGE_VERTICES[e][1] < 54,
        forall|s: int, k: int| 0 <= s < 9 && 0 <= k < 2 ==> #[trigger] PORT_VERTICES[s][k] < 54,
{
}

/// The edge list of `v` among the first `n` edges: increasing, touching `v`, and complete, with the far ends alongside.
pub proof fn lemma_edges_at(v: int, n: int)
    requires
        0 <= n <= 72,
    ensures
        edges_at(v, n).len() == neighbors_at(v, n).len(),
        forall|i: int|
            0 <= i < edges_at(v, n).len() ==> {
                &&& (#[trigger] edges_at(v, n)[i]) < n
                &&& edge_touches(edges_at(v, n)[i] as int, v)
                &&& neighbors_at(v, n)[i] == other_end(edges_at(v, n)[i] as int, v)
                &&& neighbors_at(v, n)[i] < 54
            },
        forall|i: int, j: int|
            0 <= i < j < edges_at(v, n).len() ==> edges_at(v, n)[i] < edges_at(v, n)[j],
        forall|e: int| 0 <= e < n && edge_touches(e, v) ==> edges_at(v, n).contains(e as u8),
    decreases n,
{
    lemma_tables();
    if n > 0 {
        lemma_edges_at(v, n - 1);
        if edge_touches(n - 1, v) {
            assert(edges_at(v, n)[edges_at(v, n).len() - 1] == (n - 1) as u8);
        }
        assert forall|e: int| 0 <= e < n && edge_touches(e, v) implies edges_at(v, n).contains(
            e as u8,
        ) by {
            if e < n - 1 {
                let i = choose|i: int|
                    0 <= i < edges_at(v, n - 1).len() && #[trigger] edges_at(v, n - 1)[i] == e as u8;
                assert(edges_at(v, n)[i] == e as u8);
            } else {
                assert(edges_at(v, n)[edges_at(v, n).len() - 1] == e as u8);
            }
        }
    }
}

/// The neighbor list of `v` holds exactly the vertices adjacent to `v`.
pub proof fn lemma_neighbors(v: int)
    requires
        0 <= v < 54,
    ensures
        forall|u: int|
            0 <= u < 54 ==> (neighbors_at(v, 72).contains(u as u8) <==> #[trigger] adjacent(u, v)),
        forall|i: int|
            0 <= i < neighbors_at(v, 72).len() ==> #[trigger] neighbors_at(v, 72)[i] < 54 && adjacent(
                neighbors_at(v, 72)[i] as int,
                v,
            ),
{
    lemma_tables();
    lemma_edges_at(v, 72);
    assert forall|i: int| 0 <= i < neighbors_at(v, 72).len() implies #[trigger] neighbors_at(
        v,
        72,
    )[i] < 54 && adjacent(neighbors_at(v, 72)[i] as int, v) by {
        let e = edges_at(v, 72)[i] as int;
        assert(e < 72);
        assert(edge_touches(e, neighbors_at(v, 72)[i] as int));
    }
    assert forall|u: int| 0 <= u < 54 implies (neighbors_at(v, 72).contains(u as u8)
        <==> #[trigger] adjacent(u, v)) by {
        if neighbors_at(v, 72).contains(u as u8) {
            let i = choose|i: int|
                0 <= i < neighbors_at(v, 72).len() && #[trigger] neighbors_at(v, 72)[i] == u as u8;
            let e = edges_at(v, 72)[i] as int;
            assert(edge_touches(e, u) && edge_touches(e, v) && u != v);
        }
        if adjacent(u, v) {
            let e = choose|e: int|
                0 <= e < 72 && #[trigger] edge_touches(e, u) && edge_touches(e, v) && u != v;
            assert(edges_at(v, 72).contains(e as u8));
            let i = choose|i: int| 0 <= i < edges_at(v, 72).len() && #[trigger] edges_at(v, 72)[i] == e as u8;
            assert(neighbors_at(v, 72)[i] == u as u8);
        }
    }
}

/// The edge list of `v` holds exactly the edges touching `v`.
pub proof fn lemma_edge_list(v: int)
    requires
        0 <= v < 54,
    ensures
        forall|e: int|
            0 <= e < 72 ==> (edges_at(v, 72).contains(e as u8) <==> #[trigger] edge_touches(e, v)),
        forall|i: int|
            0 <= i < edges_at(v, 72).len() ==> #[trigger] edges_at(v, 72)[i] < 72 && edge_touches(
                edges_at(v, 72)[i] as int,
                v,
            ),
{
    lemma_edges_at(v, 72);
    assert forall|e: int| 0 <= e < 72 implies (edges_at(v, 72).contains(e as u8)
        <==> #[trigger] edge_touches(e, v)) by {
        if edges_at(v, 72).contains(e as u8) {
            let i = choose|i: int| 0 <= i < edges_at(v, 72).len() && #[trigger] edges_at(v, 72)[i] == e as u8;
            assert(edge_touches(edges_at(v, 72)[i] as int, v));
        }
    }
}

/// The tile list of `v` among the first `n` tiles: increasing, having `v` as a corner, and complete.
pub proof fn lemma_tiles_at(v: int, n: int)
    requires
        0 <= n <= 19,
    ensures
        forall|i: int|
            0 <= i < tiles_at(v, n).len() ==> (#[trigger] tiles_at(v, n)[i]) < n && tile_touches(
                tiles_at(v, n)[i] as int,
                v,
            ),
        forall|t: int| 0 <= t < n && tile_touches(t, v) ==> tiles_at(v, n).contains(t as u8),
    decreases n,
{
    if n > 0 {
        lemma_tiles_at(v, n - 1);
        if tile_touches(n - 1, v) {
            assert(tiles_at(v, n)[tiles_at(v, n).len() - 1] == (n - 1) as u8);
        }
        assert forall|i: int| 0 <= i < tiles_at(v, n).len() implies (#[trigger] tiles_at(v, n)[i])
            < n && tile_touches(tiles_at(v, n)[i] as int, v) by {
            if i < tiles_at(v, n - 1).len() {
                assert(tiles_at(v, n)[i] == tiles_at(v, n - 1)[i]);
            } else {
                assert(tiles_at(v, n)[i] as int == n - 1);
            }
        }
        assert forall|t: int| 0 <= t < n && tile_touches(t, v) implies tiles_at(v, n).contains(
            t as u8,
        ) by {
            if t < n - 1 {
                let i = choose|i: int|
                    0 <= i < tiles_at(v, n - 1).len() && #[trigger] tiles_at(v, n - 1)[i] == t as u8;
                assert(tiles_at(v, n)[i] == t as u8);
            } else {
                assert(tiles_at(v, n)[tiles_at(v, n).len() - 1] == t as u8);
            }
        }
    }
}

/// The harbor slot of a vertex is one of the slots searched.
pub proof fn lemma_port_slot(v: int, n: int)
    requires
        0 <= n <= 9,
    ensures
        port_slot(v, n) matches Some(s) ==> s < n,
    decreases n,
{
    if n > 0 {
        lemma_port_slot(v, n - 1);
    }
}

/// The board layout together with per-vertex lookup lists.
#[derive(Clone, Debug)]
pub struct Topology {
    pub tile_vertices: [[u8; 6]; 19],
    pub edge_vertices: [[u8; 2]; 72],
    pub port_vertices: [[u8; 2]; 9],
    /// Layout-plane coordinates `(vx, vy)` of each vertex.
    pub vertex_pos: [(i8, i8); 54],
    /// Per vertex, the tiles it is a corner of.
    pub vertex_tiles: Vec<Vec<u8>>,
    /// Per vertex, the vertices one edge away.
    pub vertex_adjacent: Vec<Vec<u8>>,
    /// Per vertex, the edges touching it.
    pub vertex_edges: Vec<Vec<u8>>,
    /// Per vertex, the harbor slot it belongs to.
    pub vertex_port: [Option<u8>; 54],
}

impl Topology {
    /// The tables are the standard ones and the lists are derived from them.
    pub closed spec fn wf(self) -> bool {
        &&& self.tile_vertices == TILE_VERTICES
        &&& self.edge_vertices == EDGE_VERTICES
        &&& self.port_vertices == PORT_VERTICES
        &&& self.vertex_pos == VERTEX_POS
        &&& self.vertex_tiles@.len() == 54
        &&& self.vertex_adjacent@.len() == 54
        &&& self.vertex_edges@.len() == 54
        &&& forall|v: int| 0 <= v < 54 ==> (#[trigger] self.vertex_tiles@[v])@ == tiles_at(v, 19)
        &&& forall|v: int| 0 <= v < 54 ==> (#[trigger] self.vertex_edges@[v])@ == edges_at(v, 72)
        &&& forall|v: int|
            0 <= v < 54 ==> (#[trigger] self.vertex_adjacent@[v])@ == neighbors_at(v, 72)
        &&& forall|v: int| 0 <= v < 54 ==> #[trigger] self.vertex_port[v] == port_slot(v, 9)
    }

    /// The standard tables of a well-formed layout.
    pub proof fn lemma_wf(self)
        requires
            self.wf(),
        ensures
            self.tile_vertices == TILE_VERTICES,
            self.edge_vertices == EDGE_VERTICES,
            self.port_vertices == PORT_VERTICES,
            self.vertex_pos == VERTEX_POS,
    {
    }

    /// Builds the standard layout.
    pub fn standard() -> (t: Topology)
        ensures
            t.wf(),
    {
        let tile_vertices = TILE_VERTICES;
        let edge_vertices = EDGE_VERTICES;
        let port_vertices = PORT_VERTICES;
        let mut vertex_tiles: Vec<Vec<u8>> = Vec::new();
        let mut vertex_adjacent: Vec<Vec<u8>> = Vec::new();
        let mut vertex_edges: Vec<Vec<u8>> = Vec::new();
        let mut vertex_port: [Option<u8>; 54] = [None; 54];
        let mut v: usize = 0;
        while v < 54
            invariant
                v <= 54,
                tile_vertices == TILE_VERTICES,
                edge_vertices == EDGE_VERTICES,
                port_vertices == PORT_VERTICES,
                vertex_tiles@.len() == v,
                vertex_adjacent@.len() == v,
                vertex_edges@.len() == v,
                forall|u: int| 0 <= u < v ==> (#[trigger] vertex_tiles@[u])@ == tiles_at(u, 19),
                forall|u: int| 0 <= u < v ==> (#[trigger] vertex_edges@[u])@ == edges_at(u, 72),
                forall|u: int|
                    0 <= u < v ==> (#[trigger] vertex_adjacent@[u])@ == neighbors_at(u, 72),
                forall|u: int| 0 <= u < v ==> #[trigger] vertex_port[u] == port_slot(u, 9),
            decreases 54 - v,
        {
            let vb = v as u8;
            let mut tiles: Vec<u8> = Vec::new();
            let mut t: usize = 0;
            while t < 19
                invariant
                    t <= 19,
                    v < 54,
                    vb == v,
                    tile_vertices == TILE_VERTICES,
                    tiles@ == tiles_at(v as int, t as int),
                decreases 19 - t,
            {
                let mut found = false;
                let mut c: usize = 0;
                while c < 6
                    invariant
                        c <= 6,
                        t < 19,
                        vb == v,
                        tile_vertices == TILE_VERTICES,
                        found == exists|k: int| 0 <= k < c && TILE_VERTICES[t as int][k] == v,
                    decreases 6 - c,
                {
                    if tile_vertices[t][c] == vb {
                        found = true;
                    }
                    c = c + 1;
                }
                if found {
                    tiles.push(t as u8);
                }
                t = t + 1;
            }
            let mut edges: Vec<u8> = Vec::new();
            let mut adj: Vec<u8> = Vec::new();
            let mut e: usize = 0;
            while e < 72
                invariant
                    e <= 72,
                    v < 54,
                    vb == v,
                    edge_vertices == EDGE_VERTICES,
                    edges@ == edges_at(v as int, e as int),
                    adj@ == neighbors_at(v as int, e as int),
                decreases 72 - e,
            {
                let a = edge_vertices[e][0];
                let b = edge_vertices[e][1];
                if a == vb {
                    edges.push(e as u8);
                    adj.push(b);
                } else if b == vb {
                    edges.push(e as u8);
                    adj.push(a);
                }
                e = e + 1;
            }
            let mut slot: Option<u8> = None;
            let mut s: usize = 0;
            while s < 9
                invariant
                    s <= 9,
                    vb == v,
                    port_vertices == PORT_VERTICES,
                    slot == port_slot(v as int, s as int),
                decreases 9 - s,
            {
                if port_vertices[s][0] == vb || port_vertices[s][1] == vb {
                    slot = Some(s as u8);
                }
                s = s + 1;
            }
            vertex_tiles.push(tiles);
            vertex_edges.push(edges);
            vertex_adjacent.push(adj);
            vertex_port[v] = slot;
            v = v + 1;
        }
        Topology {
            tile_vertices,
            edge_vertices,
            port_vertices,
            vertex_pos: VERTEX_POS,
            vertex_tiles,
            vertex_adjacent,
            vertex_edges,
            vertex_port,
        }
    }

    /// The tiles with `v` as a corner, in increasing order.
    pub fn vertex_tiles(&self, v: usize) -> (s: &[u8])
        requires
            self.wf(),
            v < 54,
        ensures
            s@ == tiles_at(v as int, 19),
    {
        self.vertex_tiles[v].as_slice()
    }

    /// The vertices joined to `v` by an edge, ordered by edge id.
    pub fn vertex_neighbors(&self, v: usize) -> (s: &[u8])
        requires
            self.wf(),
            v < 54,
        ensures
            s@ == neighbors_at(v as int, 72),
    {
        self.vertex_adjacent[v].as_slice()
    }

    /// The edges touching `v`, in increasing order.
    pub fn vertex_edge_list(&self, v: usize) -> (s: &[u8])
        requires
            self.wf(),
            v < 54,
        ensures
            s@ == edges_at(v as int, 72),
    {
        self.vertex_edges[v].as_slice()
    }

    /// The harbor at `vertex`, looked up in the board's harbor assignment.
    pub fn port_type<T: Copy>(&self, vertex: usize, harbors: &[T; 9]) -> (p: Option<T>)
        requires
            self.wf(),
            vertex < 54,
        ensures
            p == match port_slot(vertex as int, 9) {
                Some(s) => Some(harbors[s as int]),
                None => None::<T>,
            },
    {
        proof {
            lemma_port_slot(vertex as int, 9);
        }
        match self.vertex_port[vertex] {
            Some(slot) => Some(harbors[slot as usize]),
            None => None,
        }
    }
}

/// No vertex is the end of four edges.
proof fn lemma_at_most_three_edges()
    ensures
        forall|v: int, a: int, b: int, c: int, d: int|
            0 <= a < b && b < c && c < d && d < 72 && #[trigger] edge_touches(a, v) && #[trigger] edge_touches(b, v)
                && #[trigger] edge_touches(c, v) && #[trigger] edge_touches(d, v) ==> false,
{
}

/// Every vertex is the end of two edges at least.
proof fn lemma_two_edges(v: int)
    requires
        0 <= v < 54,
    ensures
        exists|a: int, b: int| 0 <= a < b < 72 && #[trigger] edge_touches(a, v) && #[trigger] edge_touches(b, v),
{
    assert(exists|a: int, b: int|
        0 <= a < b < 72 && (#[trigger] EDGE_VERTICES[a][0] == v || EDGE_VERTICES[a][1] == v) && (
        #[trigger] EDGE_VERTICES[b][0] == v || EDGE_VERTICES[b][1] == v));
    let (a, b) = choose|a: int, b: int|
        0 <= a < b < 72 && (#[trigger] EDGE_VERTICES[a][0] == v || EDGE_VERTICES[a][1] == v) && (
        #[trigger] EDGE_VERTICES[b][0] == v || EDGE_VERTICES[b][1] == v);
    assert(edge_touches(a, v) && edge_touches(b, v));
}

/// Every vertex is the end of two or three edges, each listed once, in
/// increasing order.
#[verifier::spinoff_prover]
pub proof fn lemma_vertex_edges(v: int)
    requires
        0 <= v < 54,
    ensures
        2 <= edges_at(v, 72).len() <= 3,
        neighbors_at(v, 72).len() == edges_at(v, 72).len(),
        forall|i: int, j: int|
            0 <= i < j < edges_at(v, 72).len() ==> #[trigger] edges_at(v, 72)[i] < #[trigger] edges_at(v, 72)[j],
        forall|i: int|
            0 <= i < edges_at(v, 72).len() ==> #[trigger] edges_at(v, 72)[i] < 72 && edge_touches(
                edges_at(v, 72)[i] as int,
                v,
            ),
{
    lemma_edges_at(v, 72);
    let es = edges_at(v, 72);
    lemma_two_edges(v);
    let (a, b) = choose|a: int, b: int| 0 <= a < b < 72 && #[trigger] edge_touches(a, v) && #[trigger] edge_touches(b, v);
    assert(es.contains(a as u8) && es.contains(b as u8));
    let ia = choose|i: int| 0 <= i < es.len() && es[i] == a as u8;
    let ib = choose|i: int| 0 <= i < es.len() && es[i] == b as u8;
    assert(ia != ib);
    if es.len() > 3 {
        assert(es[0] < es[1] && es[1] < es[2] && es[2] < es[3]);
        let (e0, e1, e2, e3) = (es[0] as int, es[1] as int, es[2] as int, es[3] as int);
        assert(edge_touches(e0, v) && edge_touches(e1, v) && edge_touches(e2, v) && edge_touches(e3, v));
        lemma_at_most_three_edges();
        assert(false);
    }
}

/// Each neighbor of a vertex is another vertex, has it as its own neighbor,
/// and is joined to it by an edge.
#[verifier::spinoff_prover]
pub proof fn lemma_neighbor_symmetry(v: int)
    requires
        0 <= v < 54,
    ensures
        forall|i: int|
            0 <= i < neighbors_at(v, 72).len() ==> {
                let u = #[trigger] neighbors_at(v, 72)[i] as int;
                &&& 0 <= u < 54
                &&& u != v
                &&& neighbors_at(u, 72).contains(v as u8)
                &&& exists|e: int|
                    0 <= e < 72 && EDGE_VERTICES[e][0] == (if u < v { u } else { v }) && #[trigger] EDGE_VERTICES[e][1]
                        == (if u < v { v } else { u })
            },
{
    lemma_neighbors(v);
    assert forall|i: int| 0 <= i < neighbors_at(v, 72).len() implies {
        let u = #[trigger] neighbors_at(v, 72)[i] as int;
        &&& 0 <= u < 54
        &&& u != v
        &&& neighbors_at(u, 72).contains(v as u8)
        &&& exists|e: int|
            0 <= e < 72 && EDGE_VERTICES[e][0] == (if u < v { u } else { v }) && #[trigger] EDGE_VERTICES[e][1]
                == (if u < v { v } else { u })
    } by {
        let u = neighbors_at(v, 72)[i] as int;
        assert(adjacent(u, v));
        let e = choose|e: int| 0 <= e < 72 && #[trigger] edge_touches(e, u) && edge_touches(e, v) && u != v;
        assert(edge_touches(e, v) && edge_touches(e, u) && v != u);
        assert(adjacent(v, u));
        lemma_neighbors(u);
        lemma_tables();
        assert(EDGE_VERTICES[e][0] < EDGE_VERTICES[e][1]);
    }
}

} // verus!
