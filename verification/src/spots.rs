//! Room to build during setup: with at most seven settlements on the board
//! some vertex still satisfies the distance rule, and a fresh settlement
//! always has an empty edge for its road.

use vstd::prelude::*;
use vstd::set_lib::lemma_len_subset;
use crate::board::{placement_valid, Board, Vertex};
use crate::game::{cities_on, settlements_on, Game, Phase};
use crate::state::owners_valid;
use crate::topology::{adjacent, edge_touches, lemma_tables};
use crate::types::PlayerId;

verus! {

/// The vertices among the first `n` that hold a building.
pub open spec fn built_on(vs: Seq<Vertex>, n: int) -> nat
    decreases n,
{
    if n <= 0 {
        0
    } else {
        built_on(vs, n - 1) + if vs[n - 1] is Empty { 0nat } else { 1nat }
    }
}

/// The same vertices, as a set.
pub open spec fn built_set(vs: Seq<Vertex>, n: int) -> Set<int> {
    Set::new(|v: int| 0 <= v < n && !(vs[v] is Empty))
}

proof fn lemma_built_set(vs: Seq<Vertex>, n: int)
    requires
        0 <= n,
    ensures
        built_set(vs, n).finite(),
        built_set(vs, n).len() == built_on(vs, n),
    decreases n,
{
    if n == 0 {
        assert(built_set(vs, 0) =~= Set::empty());
    } else {
        lemma_built_set(vs, n - 1);
        if vs[n - 1] is Empty {
            assert(built_set(vs, n) =~= built_set(vs, n - 1));
        } else {
            assert(built_set(vs, n) =~= built_set(vs, n - 1).insert(n - 1));
        }
    }
}

/// With every building owned by one of the four seats, the buildings are
/// the settlements and cities of the four seats together.
proof fn lemma_built_on_owners(vs: Seq<Vertex>, n: int)
    requires
        0 <= n <= vs.len(),
        forall|v: int|
            0 <= v < n ==> match #[trigger] vs[v] {
                Vertex::Settlement(p) => p.0 < 4,
                Vertex::City(p) => p.0 < 4,
                Vertex::Empty => true,
            },
    ensures
        built_on(vs, n) == settlements_on(vs, PlayerId(0), n) + cities_on(vs, PlayerId(0), n)
            + settlements_on(vs, PlayerId(1), n) + cities_on(vs, PlayerId(1), n) + settlements_on(
            vs,
            PlayerId(2),
            n,
        ) + cities_on(vs, PlayerId(2), n) + settlements_on(vs, PlayerId(3), n) + cities_on(
            vs,
            PlayerId(3),
            n,
        ),
    decreases n,
{
    if n > 0 {
        lemma_built_on_owners(vs, n - 1);
        match vs[n - 1] {
            Vertex::Settlement(p) => {
                assert(p == PlayerId(0) || p == PlayerId(1) || p == PlayerId(2) || p == PlayerId(3));
            },
            Vertex::City(p) => {
                assert(p == PlayerId(0) || p == PlayerId(1) || p == PlayerId(2) || p == PlayerId(3));
            },
            Vertex::Empty => {},
        }
    }
}

/// `u` is `c` or adjacent to it.
pub open spec fn near(u: int, c: int) -> bool {
    u == c || adjacent(u, c)
}

/// Eight vertices no two of which are near a common vertex.
pub open spec fn spread(k: int) -> int {
    if k == 0 {
        0
    } else if k == 1 {
        9
    } else if k == 2 {
        10
    } else if k == 3 {
        14
    } else if k == 4 {
        17
    } else if k == 5 {
        20
    } else if k == 6 {
        22
    } else {
        27
    }
}

/// The vertices near each of the spread vertices.
proof fn lemma_near_spread(u: int)
    requires
        0 <= u < 54,
    ensures
        near(u, 0) ==> u == 0 || u == 1 || u == 5,
        near(u, 9) ==> u == 9 || u == 2 || u == 8 || u == 18,
        near(u, 10) ==> u == 10 || u == 7 || u == 11,
        near(u, 14) ==> u == 14 || u == 3 || u == 15 || u == 19,
        near(u, 17) ==> u == 17 || u == 4 || u == 16,
        near(u, 20) ==> u == 20 || u == 13 || u == 21 || u == 24,
        near(u, 22) ==> u == 22 || u == 12 || u == 23,
        near(u, 27) ==> u == 27 || u == 26 || u == 28,
{
    lemma_tables();
    assert forall|e: int, c: int| 0 <= e < 72 && #[trigger] edge_touches(e, c) && edge_touches(e, u) && u != c && (c == 0
        || c == 9 || c == 10 || c == 14 || c == 17 || c == 20 || c == 22 || c == 27) implies {
        &&& c == 0 ==> u == 1 || u == 5
        &&& c == 9 ==> u == 2 || u == 8 || u == 18
        &&& c == 10 ==> u == 7 || u == 11
        &&& c == 14 ==> u == 3 || u == 15 || u == 19
        &&& c == 17 ==> u == 4 || u == 16
        &&& c == 20 ==> u == 13 || u == 21 || u == 24
        &&& c == 22 ==> u == 12 || u == 23
        &&& c == 27 ==> u == 26 || u == 28
    } by {
    }
}

/// A vertex that keeps `c` from being built on: `c` itself or a neighbor,
/// whichever holds a building.
pub open spec fn blocker(b: Board, c: int) -> int {
    if !(b.vertices[c] is Empty) {
        c
    } else {
        choose|u: int| 0 <= u < 54 && adjacent(u, c) && !(b.vertices[u] is Empty)
    }
}

proof fn lemma_blocker(b: Board, c: int)
    requires
        0 <= c < 54,
        !placement_valid(b, c),
    ensures
        0 <= blocker(b, c) < 54,
        near(blocker(b, c), c),
        !(b.vertices[blocker(b, c)] is Empty),
{
}

/// Blockers of two different spread vertices are different vertices.
proof fn lemma_spread_apart(u: int, v: int, j: int, k: int)
    requires
        0 <= u < 54,
        0 <= v < 54,
        0 <= j < 8,
        0 <= k < 8,
        j != k,
        near(u, spread(j)),
        near(v, spread(k)),
    ensures
        u != v,
{
    lemma_near_spread(u);
    lemma_near_spread(v);
}

/// On a board with at most seven buildings some vertex satisfies the
/// distance rule.
pub proof fn lemma_room_to_settle(b: Board)
    requires
        built_on(b.vertices@, 54) <= 7,
    ensures
        exists|v: int| 0 <= v < 54 && #[trigger] placement_valid(b, v),
{
    if forall|k: int| 0 <= k < 8 ==> !placement_valid(b, #[trigger] spread(k)) {
        let us = Seq::new(8, |k: int| blocker(b, spread(k)));
        assert forall|k: int| 0 <= k < 8 implies {
            &&& 0 <= #[trigger] us[k] < 54
            &&& near(us[k], spread(k))
            &&& !(b.vertices[us[k]] is Empty)
        } by {
            assert(!placement_valid(b, spread(k)));
            lemma_blocker(b, spread(k));
        }
        assert forall|j: int, k: int| 0 <= j < us.len() && 0 <= k < us.len() && j != k implies us[j]
            != us[k] by {
            lemma_spread_apart(us[j], us[k], j, k);
        }
        assert(us.no_duplicates());
        us.unique_seq_to_set();
        let built = built_set(b.vertices@, 54);
        assert forall|x: int| us.to_set().contains(x) implies built.contains(x) by {
            let k = choose|k: int| 0 <= k < us.len() && us[k] == x;
            assert(0 <= us[k] < 54);
        }
        lemma_built_set(b.vertices@, 54);
        lemma_len_subset(us.to_set(), built);
        assert(false);
    } else {
        let k = choose|k: int| 0 <= k < 8 && placement_valid(b, #[trigger] spread(k));
        assert(placement_valid(b, spread(k)));
    }
}

/// During setup at most seven settlements stand, so there is always a
/// vertex left that satisfies the distance rule.
pub proof fn lemma_setup_room(g: Game)
    requires
        g.inv(),
        g.phase is SetupSettlement,
    ensures
        exists|v: int| 0 <= v < 54 && #[trigger] placement_valid(g.board, v),
{
    let vs = g.board.vertices@;
    lemma_built_on_owners(vs, 54);
    assert(g.players[0].cities_left == 4);
    assert(g.players[1].cities_left == 4);
    assert(g.players[2].cities_left == 4);
    assert(g.players[3].cities_left == 4);
    assert(g.players[0].settlements_left >= 3);
    assert(g.players[1].settlements_left >= 3);
    assert(g.players[2].settlements_left >= 3);
    assert(g.players[3].settlements_left >= 3);
    assert(settlements_on(vs, PlayerId(0), 54) + g.players[0].settlements_left == 5);
    assert(settlements_on(vs, PlayerId(1), 54) + g.players[1].settlements_left == 5);
    assert(settlements_on(vs, PlayerId(2), 54) + g.players[2].settlements_left == 5);
    assert(settlements_on(vs, PlayerId(3), 54) + g.players[3].settlements_left == 5);
    assert(cities_on(vs, PlayerId(0), 54) + g.players[0].cities_left == 4);
    assert(cities_on(vs, PlayerId(1), 54) + g.players[1].cities_left == 4);
    assert(cities_on(vs, PlayerId(2), 54) + g.players[2].cities_left == 4);
    assert(cities_on(vs, PlayerId(3), 54) + g.players[3].cities_left == 4);
    lemma_room_to_settle(g.board);
}

/// For each vertex, an edge that touches it.
pub open spec fn edge_of_vertex() -> [u8; 54] {
    [
        0, 0, 1, 2, 3, 4, 6, 6, 7, 8, 11, 11, 12, 13, 16, 17, 18, 19, 21, 22, 24, 25, 27, 28, 29,
        31, 32, 33, 34, 36, 37, 39, 40, 42, 43, 45, 46, 47, 49, 50, 51, 53, 54, 56, 57, 59, 60, 62,
        63, 64, 66, 67, 69, 70,
    ]
}

/// Every vertex has an edge.
pub proof fn lemma_vertex_has_edge(v: int)
    requires
        0 <= v < 54,
    ensures
        edge_of_vertex()[v] < 72,
        edge_touches(edge_of_vertex()[v] as int, v),
{
}

} // verus!
