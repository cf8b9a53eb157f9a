//! What the longest-road search computes: the length of the longest trail of
//! a player's roads, a trail taking no road twice and passing no vertex where
//! an opponent has built.

use vstd::prelude::*;
use crate::board::{Board, Edge};
use crate::longest_road::{
    blocked, dfs, dfs_edges, lemma_dfs_edges_ge, lemma_unvisited_update, longest_from, longest_road,
};
use crate::topology::{edge_touches, edges_at, lemma_edge_list, lemma_tables, other_end, EDGE_VERTICES};
use crate::types::PlayerId;

verus! {

/// Edge `e` runs between `u` and `w`.
pub open spec fn joins(e: int, u: int, w: int) -> bool {
    ||| EDGE_VERTICES[e][0] == u && EDGE_VERTICES[e][1] == w
    ||| EDGE_VERTICES[e][1] == u && EDGE_VERTICES[e][0] == w
}

/// A trail of `p`'s roads: at least one road, `es[i]` running from `vs[i]`
/// to `vs[i + 1]`, no road taken twice, and no opponent's building where two
/// consecutive roads meet.
pub open spec fn is_trail(b: Board, p: PlayerId, vs: Seq<int>, es: Seq<int>) -> bool {
    &&& es.len() >= 1
    &&& vs.len() == es.len() + 1
    &&& es.no_duplicates()
    &&& forall|i: int|
        0 <= i < es.len() ==> {
            &&& 0 <= #[trigger] es[i] < 72
            &&& b.edges[es[i]] == Edge::Road(p)
            &&& joins(es[i], vs[i], vs[i + 1])
        }
    &&& forall|i: int| 1 <= i < es.len() ==> !blocked(b, p, #[trigger] vs[i])
}

/// A walk from `vs[0]` along roads of `p` outside `used`, taking no road twice
/// and leaving only vertices where no opponent has built.
pub open spec fn is_walk(b: Board, p: PlayerId, used: Seq<bool>, vs: Seq<int>, es: Seq<int>) -> bool {
    &&& vs.len() == es.len() + 1
    &&& es.no_duplicates()
    &&& forall|i: int|
        0 <= i < es.len() ==> {
            &&& 0 <= #[trigger] es[i] < 72
            &&& !used[es[i]]
            &&& b.edges[es[i]] == Edge::Road(p)
            &&& joins(es[i], vs[i], vs[i + 1])
            &&& !blocked(b, p, vs[i])
        }
}

proof fn lemma_joins_other_end(e: int, v: int, w: int)
    requires
        0 <= e < 72,
        joins(e, v, w),
    ensures
        other_end(e, v) == w,
        0 <= v < 54,
        0 <= w < 54,
{
    lemma_tables();
}

proof fn lemma_other_end_joins(e: int, v: int)
    requires
        0 <= e < 72,
        EDGE_VERTICES[e][0] == v || EDGE_VERTICES[e][1] == v,
    ensures
        joins(e, v, other_end(e, v)),
        0 <= other_end(e, v) < 54,
{
    lemma_tables();
}

/// Continuing along entries `i..` of the edge list reaches at least as far as
/// taking entry `j` among them.
proof fn lemma_edges_reach(b: Board, p: PlayerId, v: int, d: int, used: Seq<bool>, i: int, j: int)
    requires
        0 <= i <= j < edges_at(v, 72).len(),
        used.len() == 72,
        0 <= edges_at(v, 72)[j] < 72,
        !used[edges_at(v, 72)[j] as int],
        b.edges[edges_at(v, 72)[j] as int] == Edge::Road(p),
    ensures
        dfs_edges(b, p, v, d, used, i) >= dfs(
            b,
            p,
            other_end(edges_at(v, 72)[j] as int, v),
            d + 1,
            used.update(edges_at(v, 72)[j] as int, true),
        ),
    decreases j - i,
{
    if i < j {
        lemma_edges_reach(b, p, v, d, used, i + 1, j);
    }
}

/// The search from `v` reaches at least as deep as any walk from `v` that
/// avoids the used roads.
proof fn lemma_dfs_complete(b: Board, p: PlayerId, v: int, d: int, used: Seq<bool>, vs: Seq<int>, es: Seq<int>)
    requires
        used.len() == 72,
        is_walk(b, p, used, vs, es),
        vs[0] == v,
    ensures
        dfs(b, p, v, d, used) >= d + es.len(),
    decreases es.len(),
{
    if es.len() > 0 {
        let e = es[0];
        assert(0 <= e < 72 && !used[e] && b.edges[e] == Edge::Road(p) && joins(e, vs[0], vs[1]) && !blocked(b, p, v));
        lemma_joins_other_end(e, v, vs[1]);
        lemma_edge_list(v);
        assert(edge_touches(e, v));
        assert(edges_at(v, 72).contains(e as u8));
        let j = choose|j: int| 0 <= j < edges_at(v, 72).len() && edges_at(v, 72)[j] == e as u8;
        lemma_edges_reach(b, p, v, d, used, 0, j);
        let used2 = used.update(e, true);
        let vs2 = vs.drop_first();
        let es2 = es.drop_first();
        assert forall|i: int| 0 <= i < es2.len() implies {
            &&& 0 <= #[trigger] es2[i] < 72
            &&& !used2[es2[i]]
            &&& b.edges[es2[i]] == Edge::Road(p)
            &&& joins(es2[i], vs2[i], vs2[i + 1])
            &&& !blocked(b, p, vs2[i])
        } by {
            assert(es2[i] == es[i + 1]);
            assert(es[i + 1] != es[0]);
        }
        assert(es2.no_duplicates()) by {
            assert forall|a: int, c: int| 0 <= a < es2.len() && 0 <= c < es2.len() && a != c implies es2[a]
                != es2[c] by {
                assert(es[a + 1] != es[c + 1]);
            }
        }
        lemma_dfs_complete(b, p, vs[1], d + 1, used2, vs2, es2);
    }
}

/// A walk that reaches exactly as deep as the search from `v`.
proof fn lemma_dfs_sound(b: Board, p: PlayerId, v: int, d: int, used: Seq<bool>) -> (w: (Seq<int>, Seq<int>))
    requires
        used.len() == 72,
        0 <= v < 54,
    ensures
        is_walk(b, p, used, w.0, w.1),
        w.0[0] == v,
        dfs(b, p, v, d, used) == d + w.1.len(),
    decreases crate::longest_road::unvisited(used, 72), 1int, 0int,
{
    if blocked(b, p, v) {
        (seq![v], Seq::empty())
    } else {
        lemma_dfs_edges_ge(b, p, v, d, used, 0);
        lemma_dfs_edges_sound(b, p, v, d, used, 0)
    }
}

/// A walk that reaches exactly as deep as the search along entries `i..` of
/// the edge list of `v`.
proof fn lemma_dfs_edges_sound(b: Board, p: PlayerId, v: int, d: int, used: Seq<bool>, i: int) -> (w: (
    Seq<int>,
    Seq<int>,
))
    requires
        used.len() == 72,
        0 <= v < 54,
        0 <= i,
        !blocked(b, p, v),
    ensures
        is_walk(b, p, used, w.0, w.1),
        w.0[0] == v,
        dfs_edges(b, p, v, d, used, i) == d + w.1.len(),
    decreases crate::longest_road::unvisited(used, 72), 0int, edges_at(v, 72).len() - i,
{
    if i >= edges_at(v, 72).len() {
        (seq![v], Seq::empty())
    } else {
        let e = edges_at(v, 72)[i] as int;
        let rest = lemma_dfs_edges_sound(b, p, v, d, used, i + 1);
        if 0 <= e < 72 && !used[e] && b.edges[e] == Edge::Road(p) {
            lemma_unvisited_update(used, e, 72);
            lemma_edge_list(v);
            assert(EDGE_VERTICES[e][0] == v || EDGE_VERTICES[e][1] == v);
            lemma_other_end_joins(e, v);
            let used2 = used.update(e, true);
            let nx = other_end(e, v);
            let sub = lemma_dfs_sound(b, p, nx, d + 1, used2);
            if dfs(b, p, nx, d + 1, used2) >= dfs_edges(b, p, v, d, used, i + 1) {
                let vs = seq![v] + sub.0;
                let es = seq![e] + sub.1;
                assert forall|k: int| 0 <= k < es.len() implies {
                    &&& 0 <= #[trigger] es[k] < 72
                    &&& !used[es[k]]
                    &&& b.edges[es[k]] == Edge::Road(p)
                    &&& joins(es[k], vs[k], vs[k + 1])
                    &&& !blocked(b, p, vs[k])
                } by {
                    if k > 0 {
                        assert(es[k] == sub.1[k - 1]);
                        assert(vs[k] == sub.0[k - 1]);
                        assert(vs[k + 1] == sub.0[k]);
                        assert(!used2[sub.1[k - 1]]);
                    }
                }
                assert(es.no_duplicates()) by {
                    assert forall|a: int, c: int| 0 <= a < es.len() && 0 <= c < es.len() && a != c implies es[a]
                        != es[c] by {
                        if a > 0 {
                            assert(!used2[sub.1[a - 1]]);
                        }
                        if c > 0 {
                            assert(!used2[sub.1[c - 1]]);
                        }
                    }
                }
                (vs, es)
            } else {
                rest
            }
        } else {
            rest
        }
    }
}

/// Every trail that starts with one of the roads `0..n` is at most as long as
/// the search over those starting roads.
proof fn lemma_longest_from_complete(b: Board, p: PlayerId, n: int, vs: Seq<int>, es: Seq<int>)
    requires
        0 < n <= 72,
        is_trail(b, p, vs, es),
        es[0] < n,
    ensures
        es.len() <= longest_from(b, p, n),
    decreases n,
{
    let s = n - 1;
    if es[0] < s {
        lemma_longest_from_complete(b, p, n - 1, vs, es);
    } else {
        let vis = Seq::new(72, |i: int| i == s);
        let vs2 = vs.drop_first();
        let es2 = es.drop_first();
        assert(0 <= es[0] < 72 && b.edges[es[0]] == Edge::Road(p) && joins(es[0], vs[0], vs[1]));
        lemma_joins_other_end(es[0], vs[0], vs[1]);
        assert forall|i: int| 0 <= i < es2.len() implies {
            &&& 0 <= #[trigger] es2[i] < 72
            &&& !vis[es2[i]]
            &&& b.edges[es2[i]] == Edge::Road(p)
            &&& joins(es2[i], vs2[i], vs2[i + 1])
            &&& !blocked(b, p, vs2[i])
        } by {
            assert(es2[i] == es[i + 1]);
            assert(es[i + 1] != es[0]);
            assert(vs2[i] == vs[i + 1]);
        }
        assert(es2.no_duplicates()) by {
            assert forall|a: int, c: int| 0 <= a < es2.len() && 0 <= c < es2.len() && a != c implies es2[a]
                != es2[c] by {
                assert(es[a + 1] != es[c + 1]);
            }
        }
        lemma_dfs_complete(b, p, vs[1], 1, vis, vs2, es2);
    }
}

/// Unless it is zero, the search over the starting roads `0..n` is the length
/// of some trail.
proof fn lemma_longest_from_sound(b: Board, p: PlayerId, n: int) -> (w: (Seq<int>, Seq<int>))
    requires
        0 <= n <= 72,
    ensures
        longest_from(b, p, n) == 0 || (is_trail(b, p, w.0, w.1) && w.1.len() == longest_from(b, p, n)),
    decreases n,
{
    if n == 0 {
        (Seq::empty(), Seq::empty())
    } else {
        let prev = lemma_longest_from_sound(b, p, n - 1);
        let s = n - 1;
        if b.edges[s] == Edge::Road(p) && longest_from(b, p, n) != longest_from(b, p, n - 1) {
            lemma_tables();
            let vis = Seq::new(72, |i: int| i == s);
            let a = EDGE_VERTICES[s][0] as int;
            let c = EDGE_VERTICES[s][1] as int;
            let (start, far) = if longest_from(b, p, n) == dfs(b, p, a, 1, vis) {
                (c, a)
            } else {
                (a, c)
            };
            let sub = lemma_dfs_sound(b, p, far, 1, vis);
            let vs = seq![start] + sub.0;
            let es = seq![s] + sub.1;
            assert(joins(s, start, far));
            assert forall|k: int| 0 <= k < es.len() implies {
                &&& 0 <= #[trigger] es[k] < 72
                &&& b.edges[es[k]] == Edge::Road(p)
                &&& joins(es[k], vs[k], vs[k + 1])
            } by {
                if k > 0 {
                    assert(es[k] == sub.1[k - 1]);
                    assert(vs[k] == sub.0[k - 1]);
                    assert(vs[k + 1] == sub.0[k]);
                }
            }
            assert forall|k: int| 1 <= k < es.len() implies !blocked(b, p, #[trigger] vs[k]) by {
                let i = k - 1;
                assert(0 <= i < sub.1.len());
                assert(0 <= sub.1[i] < 72);
                assert(!blocked(b, p, sub.0[i]));
                assert(vs[k] == sub.0[i]);
            }
            assert(es.no_duplicates()) by {
                assert forall|x: int, y: int| 0 <= x < es.len() && 0 <= y < es.len() && x != y implies es[x]
                    != es[y] by {
                    if x > 0 {
                        assert(!vis[sub.1[x - 1]]);
                    }
                    if y > 0 {
                        assert(!vis[sub.1[y - 1]]);
                    }
                }
            }
            (vs, es)
        } else {
            prev
        }
    }
}

/// Without a road of `p` among `0..n` the search over them finds nothing.
proof fn lemma_longest_from_none(b: Board, p: PlayerId, n: int)
    requires
        0 <= n <= 72,
        forall|e: int| 0 <= e < n ==> b.edges[e] != Edge::Road(p),
    ensures
        longest_from(b, p, n) == 0,
    decreases n,
{
    if n > 0 {
        lemma_longest_from_none(b, p, n - 1);
    }
}

/// A player's longest road is the length of the longest trail of the
/// player's roads that takes no road twice and passes no opponent's
/// building: no such trail is longer, one is exactly that long, and it is
/// zero exactly when the player has no road.
pub proof fn lemma_longest_road_is_longest_trail(b: Board, p: PlayerId)
    ensures
        forall|vs: Seq<int>, es: Seq<int>|
            #[trigger] is_trail(b, p, vs, es) ==> es.len() <= longest_road(b, p),
        longest_road(b, p) == 0 || exists|vs: Seq<int>, es: Seq<int>|
            #[trigger] is_trail(b, p, vs, es) && es.len() == longest_road(b, p),
        longest_road(b, p) == 0 <==> forall|e: int| 0 <= e < 72 ==> b.edges[e] != Edge::Road(p),
{
    assert forall|vs: Seq<int>, es: Seq<int>| #[trigger] is_trail(b, p, vs, es) implies es.len()
        <= longest_road(b, p) by {
        assert(0 <= es[0] < 72);
        lemma_longest_from_complete(b, p, 72, vs, es);
    }
    let w = lemma_longest_from_sound(b, p, 72);
    if forall|e: int| 0 <= e < 72 ==> b.edges[e] != Edge::Road(p) {
        lemma_longest_from_none(b, p, 72);
    } else {
        let e = choose|e: int| 0 <= e < 72 && b.edges[e] == Edge::Road(p);
        lemma_tables();
        let vs = seq![EDGE_VERTICES[e][0] as int, EDGE_VERTICES[e][1] as int];
        let es = seq![e];
        assert(es[0] == e);
        assert(is_trail(b, p, vs, es));
    }
}

} // verus!

verus! {

/// A player's longest road on `b2` is at least that on `b1` when every trail
/// of the player on `b1` is one on `b2`.
pub proof fn lemma_longest_le(b1: Board, b2: Board, p: PlayerId)
    requires
        forall|vs: Seq<int>, es: Seq<int>| #[trigger] is_trail(b1, p, vs, es) ==> is_trail(b2, p, vs, es),
    ensures
        longest_road(b1, p) <= longest_road(b2, p),
{
    lemma_longest_road_is_longest_trail(b1, p);
    lemma_longest_road_is_longest_trail(b2, p);
    crate::longest_road::lemma_longest_bounds(b2, p, 72);
    if longest_road(b1, p) != 0 {
        let (vs, es) = choose|vs: Seq<int>, es: Seq<int>| #[trigger] is_trail(b1, p, vs, es) && es.len() == longest_road(b1, p);
        assert(is_trail(b2, p, vs, es));
    }
}

/// The longest roads depend on the roads and the buildings alone.
pub proof fn lemma_longest_frame(b1: Board, b2: Board, p: PlayerId)
    requires
        b1.edges == b2.edges,
        b1.vertices == b2.vertices,
    ensures
        longest_road(b1, p) == longest_road(b2, p),
{
    lemma_longest_le(b1, b2, p);
    lemma_longest_le(b2, b1, p);
}

/// A new settlement of `p` on an empty vertex leaves `p`'s longest road as
/// it was and can only cut the others'.
pub proof fn lemma_settlement_roads(b1: Board, b2: Board, p: PlayerId, v: int)
    requires
        0 <= v < 54,
        b1.vertices[v] is Empty,
        b2.vertices@ == b1.vertices@.update(v, crate::board::Vertex::Settlement(p)),
        b2.edges == b1.edges,
    ensures
        longest_road(b2, p) == longest_road(b1, p),
        forall|q: PlayerId| longest_road(b2, q) <= #[trigger] longest_road(b1, q),
{
    assert forall|q: PlayerId| longest_road(b2, q) <= #[trigger] longest_road(b1, q) by {
        assert forall|vs: Seq<int>, es: Seq<int>| #[trigger] is_trail(b2, q, vs, es) implies is_trail(b1, q, vs, es) by {
            assert forall|i: int| 1 <= i < es.len() implies !blocked(b1, q, #[trigger] vs[i]) by {
                assert(!blocked(b2, q, vs[i]));
                assert(0 <= es[i] < 72 && joins(es[i], vs[i], vs[i + 1]));
                lemma_joins_other_end(es[i], vs[i], vs[i + 1]);
                if vs[i] != v {
                    assert(b2.vertices@[vs[i]] == b1.vertices@[vs[i]]);
                }
            }
        }
        lemma_longest_le(b2, b1, q);
    }
    assert forall|vs: Seq<int>, es: Seq<int>| #[trigger] is_trail(b1, p, vs, es) implies is_trail(b2, p, vs, es) by {
        assert forall|i: int| 1 <= i < es.len() implies !blocked(b2, p, #[trigger] vs[i]) by {
            assert(!blocked(b1, p, vs[i]));
            assert(0 <= es[i] < 72 && joins(es[i], vs[i], vs[i + 1]));
            lemma_joins_other_end(es[i], vs[i], vs[i + 1]);
            if vs[i] != v {
                assert(b2.vertices@[vs[i]] == b1.vertices@[vs[i]]);
            } else {
                assert(b2.vertices@[v] == crate::board::Vertex::Settlement(p));
            }
        }
    }
    lemma_longest_le(b1, b2, p);
}

/// A new road of `p` on an empty edge can only lengthen `p`'s longest road
/// and leaves the others' as they were.
pub proof fn lemma_road_roads(b1: Board, b2: Board, p: PlayerId, e: int)
    requires
        0 <= e < 72,
        b1.edges[e] is Empty,
        b2.edges@ == b1.edges@.update(e, Edge::Road(p)),
        b2.vertices == b1.vertices,
    ensures
        longest_road(b1, p) <= longest_road(b2, p),
        forall|q: PlayerId| q != p ==> longest_road(b2, q) == #[trigger] longest_road(b1, q),
{
    assert forall|vs: Seq<int>, es: Seq<int>| #[trigger] is_trail(b1, p, vs, es) implies is_trail(b2, p, vs, es) by {
        assert forall|i: int| 0 <= i < es.len() implies b2.edges[#[trigger] es[i]] == Edge::Road(p) by {
            assert(b1.edges[es[i]] == Edge::Road(p));
            assert(b1.edges@[es[i]] == b1.edges[es[i]]);
            assert(es[i] != e);
            assert(b2.edges@[es[i]] == b1.edges@[es[i]]);
        }
    }
    lemma_longest_le(b1, b2, p);
    assert forall|q: PlayerId| q != p implies longest_road(b2, q) == #[trigger] longest_road(b1, q) by {
        assert forall|vs: Seq<int>, es: Seq<int>| #[trigger] is_trail(b1, q, vs, es) implies is_trail(b2, q, vs, es) by {
            assert forall|i: int| 0 <= i < es.len() implies b2.edges[#[trigger] es[i]] == Edge::Road(q) by {
                assert(b1.edges[es[i]] == Edge::Road(q));
                assert(b1.edges@[es[i]] == b1.edges[es[i]]);
                assert(es[i] != e);
                assert(b2.edges@[es[i]] == b1.edges@[es[i]]);
            }
        }
        assert forall|vs: Seq<int>, es: Seq<int>| #[trigger] is_trail(b2, q, vs, es) implies is_trail(b1, q, vs, es) by {
            assert forall|i: int| 0 <= i < es.len() implies b1.edges[#[trigger] es[i]] == Edge::Road(q) by {
                assert(b2.edges[es[i]] == Edge::Road(q));
                assert(b2.edges@[es[i]] == b2.edges[es[i]]);
                assert(es[i] != e);
                assert(b2.edges@[es[i]] == b1.edges@[es[i]]);
            }
        }
        lemma_longest_le(b1, b2, q);
        lemma_longest_le(b2, b1, q);
    }
}

} // verus!
