//! What single moves do, stated from the state they start in: the price of a
//! bank trade, the cards a second setup settlement brings, the free roads of
//! a road-building card, and who can be robbed after the robber moves.

use vstd::prelude::*;
use crate::action::Action;
use crate::game::{acting, knights_played, la_owner, lr_owner, Game, Phase};
use crate::observation::{obs_other, other_seat, seen_by, Observation};
use crate::scores::lemma_award_holder;
use crate::moves::{apply_spec, owns_corner, put_settlement, settle_mid};
use crate::board::Board;
use crate::longest_road::{lemma_longest_roads_frame, with_longest_roads};
use crate::player::{trade_rate_of, Player};
use crate::resource::{bank_total, Resource};
use crate::rules::{has_road_spot, legal};
use crate::state::card_count;
use crate::topology::{lemma_tables, tile_touches, tiles_at, TILE_VERTICES};
use crate::transition::{
    check_victory_spec, grant_tiles, lemma_bank_to_player_frame, lemma_card_count_bounds, lemma_check_victory_frame,
    lemma_grant_tiles_frame, lemma_put_settlement_frame, min_int,
};
use crate::types::{PlayerId, TileId, VertexId};

verus! {

broadcast use {
    vstd::array::axiom_spec_array_update,
    vstd::array::axiom_array_ext_equal,
    vstd::array::array_len_matches_n,
};

/// A player trades two for one at a harbor for that resource, else three
/// for one at a generic harbor, else four for one.
pub proof fn lemma_trade_rate(p: Player, r: Resource)
    ensures
        p.two_to_one_ports[r.spec_idx()] ==> trade_rate_of(p, r) == 2,
        !p.two_to_one_ports[r.spec_idx()] && p.has_three_to_one_port ==> trade_rate_of(p, r) == 3,
        !p.two_to_one_ports[r.spec_idx()] && !p.has_three_to_one_port ==> trade_rate_of(p, r) == 4,
{
}

/// A bank trade takes from the trader two cards of the given resource when
/// they have a harbor for it, three at a generic harbor, four without a
/// harbor; the bank takes them and gives one card of the resource asked for.
/// Nothing else in the hand or the bank changes.
pub proof fn lemma_bank_trade_price(g: Game, give: Resource, receive: Resource)
    requires
        legal(g, Action::BankTrade { give, receive }),
        g.current_player.0 < 4,
        card_count(g) <= 255,
    ensures
        ({
            let p = g.current_player.0 as int;
            let before = g.players[p];
            let after = apply_spec(g, Action::BankTrade { give, receive }, 0).players[p];
            let bank = apply_spec(g, Action::BankTrade { give, receive }, 0).board.bank;
            let gi = give.spec_idx();
            let ri = receive.spec_idx();
            let price: int = if before.two_to_one_ports[gi] {
                2
            } else if before.has_three_to_one_port {
                3
            } else {
                4
            };
            &&& after.resources.0[gi] == before.resources.0[gi] - price
            &&& after.resources.0[ri] == before.resources.0[ri] + 1
            &&& bank.0[gi] == g.board.bank.0[gi] + price
            &&& bank.0[ri] == g.board.bank.0[ri] - 1
            &&& forall|s: int|
                0 <= s < 5 && s != gi && s != ri ==> #[trigger] after.resources.0[s] == before.resources.0[s]
                    && bank.0[s] == g.board.bank.0[s]
        }),
{
    let p = g.current_player.0 as int;
    lemma_card_count_bounds(g);
    lemma_trade_rate(g.players[p], give);
    crate::resource::lemma_resource_idx_roundtrip(give);
    crate::resource::lemma_resource_idx_roundtrip(receive);
    assert(give.spec_idx() != receive.spec_idx()) by {
        if give.spec_idx() == receive.spec_idx() {
            assert(give == Resource::from_spec_idx(give.spec_idx()));
        }
    }
}

/// Playing a road-building card with somewhere to build opens two free
/// roads when the player has at least two in supply, one when they have one;
/// with nowhere to build the phase stays as it was.
pub proof fn lemma_road_building_card(g: Game)
    requires
        legal(g, Action::PlayRoadBuilding),
        g.current_player.0 < 4,
    ensures
        ({
            let f = apply_spec(g, Action::PlayRoadBuilding, 0);
            let left = g.players[g.current_player.0 as int].roads_left;
            let spot = has_road_spot(g.board, g.current_player);
            &&& spot && left >= 2 ==> f.phase == (Phase::RoadBuilding { roads_left: 2 })
            &&& spot && left == 1 ==> f.phase == (Phase::RoadBuilding { roads_left: 1 })
            &&& !spot ==> f.phase == g.phase
            &&& left >= 1
        }),
{
}

/// After the robber moves to tile `t`, exactly the seats other than the
/// mover that hold a card and have a building on a corner of `t` can be
/// robbed.
pub proof fn lemma_robber_candidates(g: Game, t: TileId)
    requires
        legal(g, Action::MoveRobber(t)),
    ensures
        apply_spec(g, Action::MoveRobber(t), 0).phase matches Phase::Steal { candidates } && forall|i: int|
            0 <= i < 4 ==> (#[trigger] candidates[i] <==> {
                &&& i != acting(g).0
                &&& bank_total(g.players[i].resources) > 0
                &&& exists|v: int|
                    0 <= v < 54 && tile_touches(t.0 as int, v) && #[trigger] g.board.vertices[v].spec_owner()
                        == Some(PlayerId(i as u8))
            }),
{
    lemma_tables();
    let f = apply_spec(g, Action::MoveRobber(t), 0);
    let ti = t.0 as int;
    assert forall|i: int| 0 <= i < 4 implies owns_corner(g, ti, i, 6) <==> exists|v: int|
        0 <= v < 54 && tile_touches(ti, v) && #[trigger] g.board.vertices[v].spec_owner() == Some(PlayerId(i as u8)) by {
        if owns_corner(g, ti, i, 6) {
            let c = choose|c: int|
                0 <= c < 6 && (#[trigger] g.board.vertices[TILE_VERTICES[ti][c] as int]).spec_owner() == Some(
                    PlayerId(i as u8),
                );
            let v = TILE_VERTICES[ti][c] as int;
            assert(tile_touches(ti, v));
            assert(g.board.vertices[v].spec_owner() == Some(PlayerId(i as u8)));
        }
        if exists|v: int|
            0 <= v < 54 && tile_touches(ti, v) && #[trigger] g.board.vertices[v].spec_owner() == Some(PlayerId(i as u8)) {
            let v = choose|v: int|
                0 <= v < 54 && tile_touches(ti, v) && #[trigger] g.board.vertices[v].spec_owner() == Some(PlayerId(i as u8));
            let c = choose|c: int| 0 <= c < 6 && #[trigger] TILE_VERTICES[ti][c] == v;
            assert(g.board.vertices[TILE_VERTICES[ti][c] as int].spec_owner() == Some(PlayerId(i as u8)));
        }
    }
}

/// Seat `s` holds the largest army: at least three knights played, more than
/// every seat before it and no fewer than any seat after it.
pub open spec fn leads_army(g: Game, s: int) -> bool {
    &&& g.players[s].played_knights >= 3
    &&& forall|j: int| 0 <= j < s ==> #[trigger] g.players[j].played_knights < g.players[s].played_knights
    &&& forall|j: int| s < j < 4 ==> #[trigger] g.players[j].played_knights <= g.players[s].played_knights
}

/// Seat `s` holds the longest road: at least five segments, longer than
/// every seat before it and no shorter than any seat after it.
pub open spec fn leads_roads(g: Game, s: int) -> bool {
    &&& g.longest_road_len[s] >= 5
    &&& forall|j: int| 0 <= j < s ==> #[trigger] g.longest_road_len[j] < g.longest_road_len[s]
    &&& forall|j: int| s < j < 4 ==> #[trigger] g.longest_road_len[j] <= g.longest_road_len[s]
}

proof fn lemma_award_owners(g: Game, s: int)
    requires
        0 <= s < 4,
    ensures
        (la_owner(g) == Some(PlayerId(s as u8))) == leads_army(g, s),
        (lr_owner(g) == Some(PlayerId(s as u8))) == leads_roads(g, s),
{
    let k = knights_played(g);
    lemma_award_holder(k, 2, s);
    lemma_award_holder(g.longest_road_len@, 4, s);
    assert forall|j: int| 0 <= j < 4 implies k[j] == (#[trigger] g.players[j]).played_knights by {}
}

/// A seat sees, of itself and of every other seat, whether it holds the
/// largest army and the longest road, as the awards are won: by knights
/// played and by road length.
pub proof fn lemma_observed_awards(g: Game, p: PlayerId, o: Observation)
    requires
        p.0 < 4,
        seen_by(g, p, o),
    ensures
        o.self_player.has_largest_army == leads_army(g, p.0 as int),
        o.self_player.has_longest_road == leads_roads(g, p.0 as int),
        forall|i: int|
            0 <= i < 3 ==> (#[trigger] o.other_players[i]).has_largest_army == leads_army(g, (p.0 + 1 + i) % 4)
                && o.other_players[i].has_longest_road == leads_roads(g, (p.0 + 1 + i) % 4),
{
    lemma_award_owners(g, p.0 as int);
    assert(PlayerId(p.0 as int as u8) == p);
    assert forall|i: int| 0 <= i < 3 implies (#[trigger] o.other_players[i]).has_largest_army == leads_army(
        g,
        (p.0 + 1 + i) % 4,
    ) && o.other_players[i].has_longest_road == leads_roads(g, (p.0 + 1 + i) % 4) by {
        let s = (p.0 + 1 + i) % 4;
        lemma_award_owners(g, s);
        assert(o.other_players[i] == obs_other(g, other_seat(p, i)));
        assert(other_seat(p, i) == PlayerId(s as u8));
    }
}

/// The tiles among `tiles[0..k]` whose terrain produces resource `r`.
pub open spec fn producers_in(b: Board, tiles: Seq<u8>, k: int, r: int) -> nat
    decreases k,
{
    if k <= 0 {
        0
    } else {
        producers_in(b, tiles, k - 1, r) + if produces(b, tiles[k - 1] as int, r) {
            1nat
        } else {
            0nat
        }
    }
}

/// Tile `t` of `b` produces resource `r`.
pub open spec fn produces(b: Board, t: int, r: int) -> bool {
    b.tiles[t].terrain.spec_resource() matches Some(x) && x.spec_idx() == r
}

/// The tiles among `0..n` that have `v` as a corner and produce resource
/// `r`.
pub open spec fn producers_around(b: Board, v: int, r: int, n: int) -> nat
    decreases n,
{
    if n <= 0 {
        0
    } else {
        producers_around(b, v, r, n - 1) + if tile_touches(n - 1, v) && produces(b, n - 1, r) {
            1nat
        } else {
            0nat
        }
    }
}

proof fn lemma_producers_prefix(b: Board, s1: Seq<u8>, s2: Seq<u8>, k: int, r: int)
    requires
        0 <= k <= s1.len(),
        k <= s2.len(),
        forall|i: int| 0 <= i < k ==> s1[i] == s2[i],
    ensures
        producers_in(b, s1, k, r) == producers_in(b, s2, k, r),
    decreases k,
{
    if k > 0 {
        lemma_producers_prefix(b, s1, s2, k - 1, r);
    }
}

proof fn lemma_producers_around(b: Board, v: int, r: int, n: int)
    requires
        0 <= n <= 19,
    ensures
        producers_in(b, tiles_at(v, n), tiles_at(v, n).len() as int, r) == producers_around(b, v, r, n),
    decreases n,
{
    if n > 0 {
        lemma_producers_around(b, v, r, n - 1);
        let prev = tiles_at(v, n - 1);
        if tile_touches(n - 1, v) {
            let cur = prev.push((n - 1) as u8);
            assert(tiles_at(v, n) == cur);
            lemma_producers_prefix(b, prev, cur, prev.len() as int, r);
        }
    }
}

/// Collecting from the tiles `tiles[0..k]` gives player `p`, of each
/// resource, one card per producing tile as far as the bank holds them.
proof fn lemma_grant_counts(g: Game, p: int, tiles: Seq<u8>, k: int)
    requires
        0 <= p < 4,
        0 <= k <= tiles.len(),
        forall|r: int| 0 <= r < 5 ==> g.players[p].resources.0[r] + g.board.bank.0[r] <= 255,
    ensures
        forall|r: int|
            0 <= r < 5 ==> #[trigger] grant_tiles(g, p, tiles, k).players[p].resources.0[r] == g.players[p].resources.0[r]
                + min_int(g.board.bank.0[r] as int, producers_in(g.board, tiles, k, r) as int),
    decreases k,
{
    if k > 0 {
        lemma_grant_counts(g, p, tiles, k - 1);
        lemma_grant_tiles_frame(g, p, tiles, k - 1);
        let g0 = grant_tiles(g, p, tiles, k - 1);
        assert(g0.board.tiles == g.board.tiles);
        let t = tiles[k - 1] as int;
        match g0.board.tiles[t].terrain.spec_resource() {
            Some(x) => {
                let xi = x.spec_idx();
                assert(0 <= xi < 5);
                if g0.board.bank.0[xi] > 0 {
                    lemma_bank_to_player_frame(g0, p, xi, 1);
                }
                assert forall|r: int| 0 <= r < 5 implies #[trigger] grant_tiles(g, p, tiles, k).players[p].resources.0[r]
                    == g.players[p].resources.0[r] + min_int(
                    g.board.bank.0[r] as int,
                    producers_in(g.board, tiles, k, r) as int,
                ) by {
                    assert(g0.players[p].resources.0[r] + g0.board.bank.0[r] == g.players[p].resources.0[r]
                        + g.board.bank.0[r]);
                }
            },
            None => {},
        }
    }
}

/// A second setup settlement on `v` brings its owner, of each resource, one
/// card for every tile around `v` that produces it, as far as the bank holds
/// them; the first setup settlement brings nothing.
pub proof fn lemma_setup_settlement_cards(g: Game, v: VertexId)
    requires
        g.bounded(),
        legal(g, Action::PlaceSettlement(v)),
        g.phase is SetupSettlement,
    ensures
        ({
            let p = acting(g).0 as int;
            let after = apply_spec(g, Action::PlaceSettlement(v), 0).players[p];
            forall|r: int|
                0 <= r < 5 ==> #[trigger] after.resources.0[r] == g.players[p].resources.0[r] + if g.phase->SetupSettlement_round
                    == 2 {
                    min_int(g.board.bank.0[r] as int, producers_around(g.board, v.0 as int, r, 19) as int)
                } else {
                    0
                }
        }),
{
    let pid = acting(g);
    let p = pid.0 as int;
    let vi = v.0 as int;
    let g1 = put_settlement(g, pid, vi);
    lemma_put_settlement_frame(g, pid, vi);
    lemma_card_count_bounds(g);
    let tiles = tiles_at(vi, 19);
    crate::topology::lemma_tiles_at(vi, 19);
    let mid = settle_mid(g, vi);
    let x = with_longest_roads(mid);
    lemma_longest_roads_frame(mid);
    lemma_check_victory_frame(x);
    assert(apply_spec(g, Action::PlaceSettlement(v), 0) == check_victory_spec(x));
    if g.phase->SetupSettlement_round == 2 {
        assert(forall|r: int| 0 <= r < 5 ==> g1.players[p].resources.0[r] + g1.board.bank.0[r] <= 255) by {
            assert forall|r: int| 0 <= r < 5 implies g1.players[p].resources.0[r] + g1.board.bank.0[r] <= 255 by {
                assert(g1.players[p].resources == g.players[p].resources);
            }
        }
        lemma_grant_counts(g1, p, tiles, tiles.len() as int);
        assert forall|r: int| 0 <= r < 5 implies producers_in(g1.board, tiles, tiles.len() as int, r)
            == producers_around(g.board, vi, r, 19) by {
            lemma_producers_around(g.board, vi, r, 19);
            lemma_producers_prefix(g1.board, tiles, tiles, tiles.len() as int, r);
            assert(producers_in(g1.board, tiles, tiles.len() as int, r) == producers_in(g.board, tiles, tiles.len() as int, r)) by {
                lemma_producers_same_tiles(g1.board, g.board, tiles, tiles.len() as int, r);
            }
        }
    }
}

proof fn lemma_producers_same_tiles(b1: Board, b2: Board, tiles: Seq<u8>, k: int, r: int)
    requires
        b1.tiles == b2.tiles,
    ensures
        producers_in(b1, tiles, k, r) == producers_in(b2, tiles, k, r),
    decreases k,
{
    if k > 0 {
        lemma_producers_same_tiles(b1, b2, tiles, k - 1, r);
    }
}

} // verus!
