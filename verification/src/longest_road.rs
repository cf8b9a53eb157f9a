//! Longest-road computation: a depth-first search over each player's roads
//! that may pass through empty vertices and the player's own buildings but
//! not through an opponent's building.

use vstd::prelude::*;
use crate::board::{Board, Edge, Vertex};
use crate::game::Game;
use crate::topology::{edges_at, lemma_edge_list, lemma_edges_at, lemma_tables, other_end, EDGE_VERTICES};
use crate::types::PlayerId;

verus! {

broadcast use {
    vstd::array::axiom_spec_array_update,
    vstd::array::axiom_array_ext_equal,
    vstd::array::array_len_matches_n,
};

/// The number of `false` entries among the first `n` of `s`.
pub open spec fn unvisited(s: Seq<bool>, n: int) -> nat
    decreases n,
{
    if n <= 0 {
        0
    } else {
        unvisited(s, n - 1) + if s[n - 1] { 0nat } else { 1nat }
    }
}

/// Marking an unmarked road leaves one fewer unmarked.
pub proof fn lemma_unvisited_update(s: Seq<bool>, e: int, n: int)
    requires
        0 <= e < n <= s.len(),
        !s[e],
    ensures
        unvisited(s.update(e, true), n) + 1 == unvisited(s, n),
    decreases n,
{
    if n - 1 > e {
        lemma_unvisited_update(s, e, n - 1);
    } else {
        lemma_unvisited_same(s, s.update(e, true), n - 1);
    }
}

/// Marks that agree on a prefix count alike there.
pub proof fn lemma_unvisited_same(s: Seq<bool>, t: Seq<bool>, n: int)
    requires
        0 <= n <= s.len(),
        n <= t.len(),
        forall|i: int| 0 <= i < n ==> s[i] == t[i],
    ensures
        unvisited(s, n) == unvisited(t, n),
    decreases n,
{
    if n > 0 {
        lemma_unvisited_same(s, t, n - 1);
    }
}

proof fn lemma_unvisited_bound(s: Seq<bool>, n: int)
    requires
        0 <= n,
    ensures
        unvisited(s, n) <= n,
    decreases n,
{
    if n > 0 {
        lemma_unvisited_bound(s, n - 1);
    }
}

/// A road walk may not continue through `v` when an opponent of `p` has a
/// building there.
pub open spec fn blocked(b: Board, p: PlayerId, v: int) -> bool {
    match b.vertices[v] {
        Vertex::Settlement(o) => o != p,
        Vertex::City(o) => o != p,
        Vertex::Empty => false,
    }
}

pub open spec fn max_int(a: int, b: int) -> int {
    if a >= b {
        a
    } else {
        b
    }
}

/// The greatest depth reached by the search that arrives at `vertex` having
/// walked `depth` roads, the roads marked in `visited` being used up.
pub open spec fn dfs(b: Board, p: PlayerId, vertex: int, depth: int, visited: Seq<bool>) -> int
    decreases unvisited(visited, 72), 1int, 0int,
{
    if blocked(b, p, vertex) {
        depth
    } else {
        max_int(depth, dfs_edges(b, p, vertex, depth, visited, 0))
    }
}

/// The greatest depth reached by continuing from `vertex` along the entries
/// `i..` of its edge list.
pub open spec fn dfs_edges(
    b: Board,
    p: PlayerId,
    vertex: int,
    depth: int,
    visited: Seq<bool>,
    i: int,
) -> int
    decreases unvisited(visited, 72), 0int, edges_at(vertex, 72).len() - i,
{
    if i < 0 || i >= edges_at(vertex, 72).len() {
        depth
    } else {
        let e = edges_at(vertex, 72)[i] as int;
        let rest = dfs_edges(b, p, vertex, depth, visited, i + 1);
        if 0 <= e < 72 && visited.len() == 72 && !visited[e] && b.edges[e] == Edge::Road(p) {
            proof {
                lemma_unvisited_update(visited, e, 72);
            }
            max_int(rest, dfs(b, p, other_end(e, vertex), depth + 1, visited.update(e, true)))
        } else {
            rest
        }
    }
}

/// The depth reached by continuing from `vertex` along entry `j` of its edge
/// list (just `depth` when that road cannot be taken).
pub open spec fn dfs_child(b: Board, p: PlayerId, vertex: int, depth: int, visited: Seq<bool>, j: int) -> int {
    let e = edges_at(vertex, 72)[j] as int;
    if 0 <= e < 72 && visited.len() == 72 && !visited[e] && b.edges[e] == Edge::Road(p) {
        dfs(b, p, other_end(e, vertex), depth + 1, visited.update(e, true))
    } else {
        depth
    }
}

/// The greatest depth reached along the first `k` entries of the edge list of
/// `vertex`.
pub open spec fn dfs_prefix(b: Board, p: PlayerId, vertex: int, depth: int, visited: Seq<bool>, k: int) -> int
    decreases k,
{
    if k <= 0 {
        depth
    } else {
        max_int(dfs_prefix(b, p, vertex, depth, visited, k - 1), dfs_child(b, p, vertex, depth, visited, k - 1))
    }
}

proof fn lemma_dfs_prefix_ge(b: Board, p: PlayerId, vertex: int, depth: int, visited: Seq<bool>, k: int)
    ensures
        dfs_prefix(b, p, vertex, depth, visited, k) >= depth,
    decreases k,
{
    if k > 0 {
        lemma_dfs_prefix_ge(b, p, vertex, depth, visited, k - 1);
    }
}

/// Continuing along the edge list never reaches less than the depth so far.
pub proof fn lemma_dfs_edges_ge(b: Board, p: PlayerId, vertex: int, depth: int, visited: Seq<bool>, i: int)
    ensures
        dfs_edges(b, p, vertex, depth, visited, i) >= depth,
    decreases edges_at(vertex, 72).len() - i,
{
    if 0 <= i < edges_at(vertex, 72).len() {
        lemma_dfs_edges_ge(b, p, vertex, depth, visited, i + 1);
    }
}

proof fn lemma_dfs_split(b: Board, p: PlayerId, vertex: int, depth: int, visited: Seq<bool>, i: int)
    requires
        0 <= i <= edges_at(vertex, 72).len(),
    ensures
        max_int(dfs_prefix(b, p, vertex, depth, visited, i), dfs_edges(b, p, vertex, depth, visited, i))
            == dfs_prefix(b, p, vertex, depth, visited, edges_at(vertex, 72).len() as int),
    decreases edges_at(vertex, 72).len() - i,
{
    let n = edges_at(vertex, 72).len() as int;
    lemma_dfs_prefix_ge(b, p, vertex, depth, visited, n);
    lemma_dfs_prefix_ge(b, p, vertex, depth, visited, i);
    if i < n {
        lemma_dfs_split(b, p, vertex, depth, visited, i + 1);
        lemma_dfs_edges_ge(b, p, vertex, depth, visited, i + 1);
    }
}

/// With the whole edge list folded, the search from `vertex` reaches
/// `dfs_prefix` over the full list.
pub proof fn lemma_dfs_prefix_full(b: Board, p: PlayerId, vertex: int, depth: int, visited: Seq<bool>)
    requires
        !blocked(b, p, vertex),
    ensures
        dfs(b, p, vertex, depth, visited) == dfs_prefix(
            b,
            p,
            vertex,
            depth,
            visited,
            edges_at(vertex, 72).len() as int,
        ),
{
    lemma_dfs_split(b, p, vertex, depth, visited, 0);
}

/// The longest road of `p` among walks whose first road is one of `0..n`.
pub open spec fn longest_from(b: Board, p: PlayerId, n: int) -> int
    decreases n,
{
    if n <= 0 {
        0
    } else {
        let prev = longest_from(b, p, n - 1);
        let s = n - 1;
        if b.edges[s] == Edge::Road(p) {
            let vis = Seq::new(72, |i: int| i == s);
            max_int(
                prev,
                max_int(
                    dfs(b, p, EDGE_VERTICES[s][0] as int, 1, vis),
                    dfs(b, p, EDGE_VERTICES[s][1] as int, 1, vis),
                ),
            )
        } else {
            prev
        }
    }
}

/// The length of the longest road of `p`.
pub open spec fn longest_road(b: Board, p: PlayerId) -> int {
    longest_from(b, p, 72)
}

/// The search reaches at least the depth so far and at most the number of edges.
pub proof fn lemma_dfs_bounds(b: Board, p: PlayerId, vertex: int, depth: int, visited: Seq<bool>)
    requires
        visited.len() == 72,
        depth + unvisited(visited, 72) <= 72,
    ensures
        depth <= dfs(b, p, vertex, depth, visited) <= 72,
    decreases unvisited(visited, 72), 1int, 0int,
{
    lemma_unvisited_bound(visited, 72);
    lemma_dfs_edges_bounds(b, p, vertex, depth, visited, 0);
}

/// The same bounds for the search along the rest of an edge list.
pub proof fn lemma_dfs_edges_bounds(
    b: Board,
    p: PlayerId,
    vertex: int,
    depth: int,
    visited: Seq<bool>,
    i: int,
)
    requires
        visited.len() == 72,
        depth + unvisited(visited, 72) <= 72,
    ensures
        depth <= dfs_edges(b, p, vertex, depth, visited, i) <= 72,
    decreases unvisited(visited, 72), 0int, edges_at(vertex, 72).len() - i,
{
    lemma_unvisited_bound(visited, 72);
    if 0 <= i < edges_at(vertex, 72).len() {
        let e = edges_at(vertex, 72)[i] as int;
        lemma_dfs_edges_bounds(b, p, vertex, depth, visited, i + 1);
        if 0 <= e < 72 && !visited[e] && b.edges[e] == Edge::Road(p) {
            lemma_unvisited_update(visited, e, 72);
            lemma_dfs_bounds(b, p, other_end(e, vertex), depth + 1, visited.update(e, true));
        }
    }
}

/// A longest road is between zero and the number of edges.
pub proof fn lemma_longest_bounds(b: Board, p: PlayerId, n: int)
    requires
        0 <= n <= 72,
    ensures
        0 <= longest_from(b, p, n) <= 72,
    decreases n,
{
    if n > 0 {
        lemma_longest_bounds(b, p, n - 1);
        let s = n - 1;
        let vis = Seq::new(72, |i: int| i == s);
        if b.edges[s] == Edge::Road(p) {
            assert(unvisited(vis, 72) == 71) by {
                let none = Seq::new(72, |i: int| false);
                lemma_unvisited_all(none, 72);
                assert(vis =~= none.update(s, true));
                lemma_unvisited_update(none, s, 72);
            }
            lemma_dfs_bounds(b, p, EDGE_VERTICES[s][0] as int, 1, vis);
            lemma_dfs_bounds(b, p, EDGE_VERTICES[s][1] as int, 1, vis);
        }
    }
}

/// With nothing marked, every road is unmarked.
pub proof fn lemma_unvisited_all(s: Seq<bool>, n: int)
    requires
        0 <= n <= s.len(),
        forall|i: int| 0 <= i < n ==> !s[i],
    ensures
        unvisited(s, n) == n,
    decreases n,
{
    if n > 0 {
        lemma_unvisited_all(s, n - 1);
    }
}

fn dfs_road(
    board: &Board,
    player: PlayerId,
    vertex: usize,
    depth: u8,
    visited: &mut [bool; 72],
    best: &mut u8,
)
    requires
        board.wf(),
        vertex < 54,
        1 <= depth,
        depth + unvisited(old(visited)@, 72) <= 72,
        *old(best) <= 72,
    ensures
        final(visited)@ == old(visited)@,
        *final(best) == max_int(*old(best) as int, dfs(*board, player, vertex as int, depth as int, old(visited)@)),
    decreases unvisited(old(visited)@, 72),
{
    proof {
        lemma_dfs_bounds(*board, player, vertex as int, depth as int, visited@);
        lemma_unvisited_bound(visited@, 72);
    }
    if depth > *best {
        *best = depth;
    }
    match board.vertices[vertex] {
        Vertex::Settlement(p) => {
            if p != player {
                return;
            }
        },
        Vertex::City(p) => {
            if p != player {
                return;
            }
        },
        Vertex::Empty => {},
    }
    let list = board.topo.vertex_edge_list(vertex);
    proof {
        lemma_edge_list(vertex as int);
        lemma_tables();
        board.topo.lemma_wf();
    }
    let ghost vis0 = visited@;
    let ghost best0 = *best;
    let mut k: usize = 0;
    while k < list.len()
        invariant
            board.wf(),
            vertex < 54,
            list@ == edges_at(vertex as int, 72),
            forall|j: int| 0 <= j < list@.len() ==> #[trigger] list@[j] < 72,
            k <= list.len(),
            visited@ == vis0,
            1 <= depth,
            depth + unvisited(vis0, 72) <= 72,
            best0 <= 72,
            best0 >= depth,
            *best <= 72,
            vis0 == old(visited)@,
            !blocked(*board, player, vertex as int),
            *best == max_int(best0 as int, dfs_prefix(*board, player, vertex as int, depth as int, vis0, k as int)),
        decreases list.len() - k,
    {
        proof {
            board.topo.lemma_wf();
            lemma_tables();
        }
        let e = list[k] as usize;
        let skip = visited[e] || match board.edges[e] {
            Edge::Road(p) => p != player,
            Edge::Empty => true,
        };
        if !skip {
            let v1 = board.topo.edge_vertices[e][0];
            let v2 = board.topo.edge_vertices[e][1];
            let next = if v1 as usize == vertex {
                v2 as usize
            } else {
                v1 as usize
            };
            proof {
                lemma_unvisited_update(visited@, e as int, 72);
                lemma_dfs_bounds(*board, player, next as int, depth + 1, visited@.update(e as int, true));
            }
            visited[e] = true;
            dfs_road(board, player, next, depth + 1, visited, best);
            visited[e] = false;
            assert(visited@ =~= vis0);
        }
        proof {
            lemma_dfs_bounds(*board, player, vertex as int, depth as int, vis0);
        }
        k = k + 1;
    }
    proof {
        lemma_dfs_prefix_full(*board, player, vertex as int, depth as int, vis0);
    }
}

} // verus!

verus! {

/// The game with every player's longest road recomputed from the board.
#[verifier::opaque]
pub open spec fn with_longest_roads(g: Game) -> Game {
    Game {
        longest_road_len: [
            longest_road(g.board, PlayerId(0)) as u8,
            longest_road(g.board, PlayerId(1)) as u8,
            longest_road(g.board, PlayerId(2)) as u8,
            longest_road(g.board, PlayerId(3)) as u8,
        ],
        ..g
    }
}

/// Recomputing the longest roads changes nothing but their lengths.
pub proof fn lemma_longest_roads_frame(g: Game)
    ensures
        with_longest_roads(g) == (Game { longest_road_len: with_longest_roads(g).longest_road_len, ..g }),
{
    reveal(with_longest_roads);
}

fn longest_road_of(board: &Board, player: PlayerId) -> (len: u8)
    requires
        board.wf(),
    ensures
        len == longest_road(*board, player),
{
    proof {
        lemma_tables();
    }
    let mut best: u8 = 0;
    let mut visited = [false; 72];
    let mut start: usize = 0;
    while start < 72
        invariant
            start <= 72,
            board.wf(),
            forall|i: int| 0 <= i < 72 ==> !#[trigger] visited[i],
            best == longest_from(*board, player, start as int),
        decreases 72 - start,
    {
        proof {
            lemma_longest_bounds(*board, player, start as int);
            lemma_tables();
            board.topo.lemma_wf();
        }
        let owned = match board.edges[start] {
            Edge::Road(p) => p == player,
            Edge::Empty => false,
        };
        if owned {
            let ghost none = visited@;
            visited[start] = true;
            let ghost vis = visited@;
            proof {
                assert(vis =~= Seq::new(72, |i: int| i == start));
                lemma_unvisited_all(none, 72);
                lemma_unvisited_update(none, start as int, 72);
            }
            let v1 = board.topo.edge_vertices[start][0];
            let v2 = board.topo.edge_vertices[start][1];
            dfs_road(board, player, v1 as usize, 1, &mut visited, &mut best);
            proof {
                lemma_dfs_bounds(*board, player, v1 as int, 1, vis);
            }
            dfs_road(board, player, v2 as usize, 1, &mut visited, &mut best);
            visited[start] = false;
            proof {
                assert(visited@ =~= none);
            }
        }
        start = start + 1;
    }
    best
}

impl Game {
    /// Recomputes every player's longest road.
    pub fn compute_longest_road(&mut self)
        requires
            old(self).board.wf(),
        ensures
            *final(self) == with_longest_roads(*old(self)),
    {
        let mut i: usize = 0;
        while i < 4
            invariant
                i <= 4,
                self.board == old(self).board,
                self.board.wf(),
                *self == (Game { longest_road_len: self.longest_road_len, ..*old(self) }),
                forall|j: int| 0 <= j < i ==> #[trigger] self.longest_road_len[j] == longest_road(
                    self.board,
                    PlayerId(j as u8),
                ),
            decreases 4 - i,
        {
            let len = longest_road_of(&self.board, PlayerId(i as u8));
            self.longest_road_len[i] = len;
            i = i + 1;
        }
        reveal(with_longest_roads);
        assert(self.longest_road_len =~= with_longest_roads(*old(self)).longest_road_len);
    }
}

} // verus!
