//! Scores and the end of the game: a finished game's winner has at least ten
//! victory points, kept by every move from the first setup placement on.

use vstd::prelude::*;
use crate::action::{action_index, action_wf, lemma_index_roundtrip, Action};
use crate::board::{Edge, Vertex};
use crate::player::Player;
use crate::resource::DevelopmentCard;
use crate::game::{acting, fresh_game, TurnFlags, award_scan, knights_played, la_owner, lr_owner, victory_points_of, Game, Phase};
use crate::laws::{lemma_building_count_update, lemma_produce_conserves, lemma_victory_check};
use crate::longest_road::{lemma_longest_roads_frame, longest_road, with_longest_roads};
use crate::moves::{accepts, apply_spec, build_road_mid, draw_card, fresh_flags, play_card, put_city, put_road, put_settlement, settle_mid};
use crate::rules::{has_road_spot, legal, CITY_COST, DEV_CARD_COST, ROAD_COST, SETTLEMENT_COST};
use crate::state::{set_phase, set_player};
use crate::trail::{lemma_longest_frame, lemma_longest_road_is_longest_trail, lemma_road_roads, lemma_settlement_roads};
use crate::transition::{lemma_accepts, pay_spec, pick_range, produce, resolve_spec};
use crate::types::{EdgeId, VertexId};
use crate::transition::check_victory_spec;
use crate::types::PlayerId;

verus! {

broadcast use {
    vstd::array::axiom_spec_array_update,
    vstd::array::axiom_array_ext_equal,
    vstd::array::array_len_matches_n,
};

/// Every seat's longest road is up to date with the board.
pub open spec fn roads_current(g: Game) -> bool {
    forall|i: int| 0 <= i < 4 ==> #[trigger] g.longest_road_len[i] == longest_road(g.board, PlayerId(i as u8))
}

/// The scores agree with how the game stands: the winner of a finished
/// game has at least ten victory points, and in a running game past setup
/// no seat but the one whose turn it is has ten.
pub open spec fn scores_consistent(g: Game) -> bool {
    match g.phase {
        Phase::GameOver { winner } => victory_points_of(g, winner) >= 10,
        Phase::SetupSettlement { .. } => true,
        Phase::SetupRoad { .. } => true,
        _ => forall|i: int|
            0 <= i < 4 && i != g.current_player.0 ==> #[trigger] victory_points_of(g, PlayerId(i as u8)) < 10,
    }
}

/// Two games with the same buildings, road lengths, knights and
/// victory-point cards score every seat alike.
proof fn lemma_same_scores(g1: Game, g2: Game)
    requires
        g1.board.vertices == g2.board.vertices,
        g1.longest_road_len == g2.longest_road_len,
        forall|i: int|
            0 <= i < 4 ==> (#[trigger] g1.players[i]).played_knights == g2.players[i].played_knights
                && g1.players[i].dev_cards.0[1] == g2.players[i].dev_cards.0[1],
    ensures
        forall|p: PlayerId| p.0 < 4 ==> #[trigger] victory_points_of(g1, p) == victory_points_of(g2, p),
{
    assert(knights_played(g1) =~= knights_played(g2));
    assert(g1.longest_road_len@ =~= g2.longest_road_len@);
}

/// After a running game is checked for a winner, either the winner has ten
/// points or no seat has, and only the phase may have changed.
proof fn lemma_checked(x: Game)
    requires
        !(x.phase is GameOver),
    ensures
        check_victory_spec(x) == (Game { phase: check_victory_spec(x).phase, ..x }),
        check_victory_spec(x).phase matches Phase::GameOver { winner } ==> winner.0 < 4
            && victory_points_of(check_victory_spec(x), winner) >= 10 && victory_points_of(x, winner) >= 10,
        !(check_victory_spec(x).phase is GameOver) ==> check_victory_spec(x) == x && forall|i: int|
            0 <= i < 4 ==> #[trigger] victory_points_of(x, PlayerId(i as u8)) < 10,
        scores_consistent(check_victory_spec(x)),
{
    lemma_victory_check(x);
    let y = check_victory_spec(x);
    lemma_same_scores(x, y);
}

/// The award goes to seat `k` exactly when its value beats the floor and
/// every earlier seat's, and no later seat's is larger.
pub proof fn lemma_award_holder(vals: Seq<u8>, floor: int, k: int)
    requires
        vals.len() == 4,
        0 <= k < 4,
    ensures
        (award_scan(vals, floor, 4).1 == Some(PlayerId(k as u8))) <==> {
            &&& vals[k] > floor
            &&& forall|j: int| 0 <= j < k ==> #[trigger] vals[j] < vals[k]
            &&& forall|j: int| k < j < 4 ==> #[trigger] vals[j] <= vals[k]
        },
{
    reveal_with_fuel(award_scan, 5);
}

/// An award held by `p` stays with `p` when `p`'s value does not fall and no
/// other seat's rises.
proof fn lemma_award_kept(v1: Seq<u8>, v2: Seq<u8>, floor: int, p: int)
    requires
        v1.len() == 4,
        v2.len() == 4,
        0 <= p < 4,
        award_scan(v1, floor, 4).1 == Some(PlayerId(p as u8)),
        v2[p] >= v1[p],
        forall|i: int| 0 <= i < 4 && i != p ==> v2[i] <= v1[i],
    ensures
        award_scan(v2, floor, 4).1 == Some(PlayerId(p as u8)),
{
    lemma_award_holder(v1, floor, p);
    lemma_award_holder(v2, floor, p);
}

/// When only seat `p`'s value rises, no other seat gains the award.
proof fn lemma_award_not_gained(v1: Seq<u8>, v2: Seq<u8>, floor: int, p: int, q: int)
    requires
        v1.len() == 4,
        v2.len() == 4,
        0 <= p < 4,
        0 <= q < 4,
        q != p,
        v2[p] >= v1[p],
        forall|i: int| 0 <= i < 4 && i != p ==> v2[i] == v1[i],
        award_scan(v2, floor, 4).1 == Some(PlayerId(q as u8)),
    ensures
        award_scan(v1, floor, 4).1 == Some(PlayerId(q as u8)),
{
    lemma_award_holder(v1, floor, q);
    lemma_award_holder(v2, floor, q);
}

/// Recounting the roads of a finished game keeps it finished; when `p`'s
/// road does not get shorter and no other seat's gets longer, `p`'s score
/// does not fall.
proof fn lemma_recount_keeps_score(c: Game, p: PlayerId)
    requires
        c.phase is GameOver,
        p.0 < 4,
        longest_road(c.board, p) >= c.longest_road_len[p.0 as int],
        forall|q: int|
            0 <= q < 4 && q != p.0 ==> #[trigger] longest_road(c.board, PlayerId(q as u8)) <= c.longest_road_len[q],
    ensures
        check_victory_spec(with_longest_roads(c)) == with_longest_roads(c),
        with_longest_roads(c).phase == c.phase,
        victory_points_of(with_longest_roads(c), p) >= victory_points_of(c, p),
        roads_current(with_longest_roads(c)),
{
    let f = with_longest_roads(c);
    reveal(with_longest_roads);
    reveal(check_victory_spec);
    assert forall|i: int| 0 <= i < 4 implies #[trigger] f.longest_road_len[i] == longest_road(c.board, PlayerId(i as u8)) by {
        crate::longest_road::lemma_longest_bounds(c.board, PlayerId(i as u8), 72);
    }
    assert(knights_played(f) =~= knights_played(c));
    if lr_owner(c) == Some(p) {
        assert(p == PlayerId(p.0 as int as u8));
        assert forall|i: int| 0 <= i < 4 && i != p.0 implies f.longest_road_len@[i] <= c.longest_road_len@[i] by {
            assert(longest_road(c.board, PlayerId(i as u8)) <= c.longest_road_len[i]);
        }
        lemma_award_kept(c.longest_road_len@, f.longest_road_len@, 4, p.0 as int);
    }
}

/// A build by the seat whose turn it is, checked for a winner before and
/// again after the roads are recounted: if the first check already ends the
/// game, it ends it in favor of that seat, whose score the recount does not
/// lower.
proof fn lemma_early_win(g: Game, m: Game)
    requires
        roads_current(g),
        scores_consistent(g),
        g.phase is Main || g.phase is RoadBuilding,
        g.current_player.0 < 4,
        !(m.phase is GameOver),
        m.longest_road_len == g.longest_road_len,
        forall|q: PlayerId|
            q.0 < 4 && q != g.current_player ==> #[trigger] victory_points_of(m, q) == victory_points_of(g, q),
        longest_road(m.board, g.current_player) >= longest_road(g.board, g.current_player),
        forall|q: PlayerId|
            q.0 < 4 && q != g.current_player ==> #[trigger] longest_road(m.board, q) <= longest_road(g.board, q),
        check_victory_spec(m).phase is GameOver,
    ensures
        scores_consistent(check_victory_spec(with_longest_roads(check_victory_spec(m)))),
        roads_current(check_victory_spec(with_longest_roads(check_victory_spec(m)))),
{
    let p = g.current_player;
    lemma_checked(m);
    let c = check_victory_spec(m);
    let w = c.phase->winner;
    if w != p {
        let wi = w.0 as int;
        assert(PlayerId(wi as u8) == w);
        assert(wi != g.current_player.0);
        assert(victory_points_of(g, PlayerId(wi as u8)) < 10);
        assert(victory_points_of(m, w) == victory_points_of(g, w));
    }
    assert(w == p);
    assert(c.longest_road_len == g.longest_road_len);
    assert(p == PlayerId(p.0 as int as u8));
    assert forall|q: int| 0 <= q < 4 && q != p.0 implies #[trigger] longest_road(c.board, PlayerId(q as u8)) <= c.longest_road_len[q] by {
        assert(PlayerId(q as u8) != p);
        assert(longest_road(m.board, PlayerId(q as u8)) <= longest_road(g.board, PlayerId(q as u8)));
    }
    lemma_recount_keeps_score(c, p);
}

/// A move that changes no score keeps a running game consistent.
proof fn lemma_scores_carry(g: Game, g2: Game)
    requires
        roads_current(g),
        scores_consistent(g),
        !(g.phase is GameOver),
        !(g.phase is SetupSettlement),
        !(g.phase is SetupRoad),
        !(g2.phase is GameOver),
        !(g2.phase is SetupSettlement),
        !(g2.phase is SetupRoad),
        g2.current_player == g.current_player,
        g2.board.vertices == g.board.vertices,
        g2.board.edges == g.board.edges,
        g2.longest_road_len == g.longest_road_len,
        forall|i: int|
            0 <= i < 4 ==> (#[trigger] g2.players[i]).played_knights == g.players[i].played_knights
                && g2.players[i].dev_cards.0[1] == g.players[i].dev_cards.0[1],
    ensures
        roads_current(g2),
        scores_consistent(g2),
{
    lemma_same_scores(g, g2);
    assert forall|i: int| 0 <= i < 4 implies #[trigger] g2.longest_road_len[i] == longest_road(
        g2.board,
        PlayerId(i as u8),
    ) by {
        lemma_longest_frame(g.board, g2.board, PlayerId(i as u8));
    }
    assert forall|i: int| 0 <= i < 4 && i != g2.current_player.0 implies #[trigger] victory_points_of(
        g2,
        PlayerId(i as u8),
    ) < 10 by {
        assert(victory_points_of(g, PlayerId(i as u8)) < 10);
    }
}

/// A running game checked for a winner has consistent scores.
proof fn lemma_scores_after_check(x: Game)
    requires
        !(x.phase is GameOver),
        roads_current(x),
    ensures
        roads_current(check_victory_spec(x)),
        scores_consistent(check_victory_spec(x)),
{
    lemma_checked(x);
}

/// Recounting the roads after a build, then checking for a winner.
proof fn lemma_scores_after_recount(x: Game)
    requires
        !(x.phase is GameOver),
    ensures
        roads_current(check_victory_spec(with_longest_roads(x))),
        scores_consistent(check_victory_spec(with_longest_roads(x))),
{
    let f = with_longest_roads(x);
    lemma_longest_roads_frame(x);
    reveal(with_longest_roads);
    assert forall|i: int| 0 <= i < 4 implies #[trigger] f.longest_road_len[i] == longest_road(f.board, PlayerId(i as u8)) by {
        crate::longest_road::lemma_longest_bounds(x.board, PlayerId(i as u8), 72);
    }
    lemma_scores_after_check(f);
}

#[verifier::rlimit(40)]
#[verifier::spinoff_prover]
proof fn lemma_settle_scores(g: Game, v: VertexId)
    requires
        g.inv(),
        roads_current(g),
        scores_consistent(g),
        legal(g, Action::PlaceSettlement(v)),
    ensures
        roads_current(apply_spec(g, Action::PlaceSettlement(v), 0)),
        scores_consistent(apply_spec(g, Action::PlaceSettlement(v), 0)),
{
    let vi = v.0 as int;
    let p = acting(g);
    match g.phase {
        Phase::SetupSettlement { .. } => {
            lemma_scores_after_recount(settle_mid(g, vi));
        },
        _ => {
            let m = pay_spec(put_settlement(g, p, vi), p.0 as int, SETTLEMENT_COST);
            lemma_checked(m);
            if check_victory_spec(m).phase is GameOver {
                assert(m.board.vertices@ == g.board.vertices@.update(vi, Vertex::Settlement(p)));
                assert(g.board.vertices[vi] is Empty);
                lemma_settlement_roads(g.board, m.board, p, vi);
                assert(knights_played(m) =~= knights_played(g));
                assert(m.longest_road_len@ =~= g.longest_road_len@);
                assert forall|q: PlayerId| q.0 < 4 && q != g.current_player implies #[trigger] victory_points_of(m, q)
                    == victory_points_of(g, q) by {
                    lemma_building_count_update(g.board.vertices@, vi, Vertex::Settlement(p), q, 54);
                }
                lemma_early_win(g, m);
            } else {
                lemma_scores_after_recount(m);
            }
        },
    }
}

#[verifier::rlimit(40)]
#[verifier::spinoff_prover]
proof fn lemma_road_scores(g: Game, e: EdgeId)
    requires
        g.inv(),
        roads_current(g),
        scores_consistent(g),
        legal(g, Action::PlaceRoad(e)),
    ensures
        roads_current(apply_spec(g, Action::PlaceRoad(e), 0)),
        scores_consistent(apply_spec(g, Action::PlaceRoad(e), 0)),
{
    let ei = e.0 as int;
    let p = acting(g);
    let g1 = put_road(g, p, ei);
    match g.phase {
        Phase::SetupRoad { player, round, .. } => {
            lemma_scores_after_recount(build_road_mid(g, ei));
        },
        _ => {
            let m = match g.phase {
                Phase::RoadBuilding { roads_left } => set_phase(
                    g1,
                    if roads_left <= 1 || !has_road_spot(g1.board, p) {
                        Phase::Main
                    } else {
                        Phase::RoadBuilding { roads_left: (roads_left - 1) as u8 }
                    },
                ),
                _ => pay_spec(g1, p.0 as int, ROAD_COST),
            };
            assert(build_road_mid(g, ei) == check_victory_spec(m));
            lemma_checked(m);
            if check_victory_spec(m).phase is GameOver {
                assert(m.board.edges@ == g.board.edges@.update(ei, Edge::Road(p)));
                assert(g.board.edges[ei] is Empty);
                lemma_road_roads(g.board, m.board, p, ei);
                lemma_same_scores(m, g);
                lemma_early_win(g, m);
            } else {
                lemma_scores_after_recount(m);
            }
        },
    }
}

proof fn lemma_city_scores(g: Game, v: VertexId)
    requires
        g.inv(),
        legal(g, Action::BuildCity(v)),
    ensures
        roads_current(apply_spec(g, Action::BuildCity(v), 0)),
        scores_consistent(apply_spec(g, Action::BuildCity(v), 0)),
{
    let p = acting(g);
    lemma_scores_after_recount(put_city(pay_spec(g, p.0 as int, CITY_COST), p, v.0 as int));
}

proof fn lemma_buy_scores(g: Game)
    requires
        g.inv(),
        roads_current(g),
        legal(g, Action::BuyDevelopmentCard),
    ensures
        roads_current(apply_spec(g, Action::BuyDevelopmentCard, 0)),
        scores_consistent(apply_spec(g, Action::BuyDevelopmentCard, 0)),
{
    let x = draw_card(pay_spec(g, acting(g).0 as int, DEV_CARD_COST), acting(g).0 as int);
    assert forall|i: int| 0 <= i < 4 implies #[trigger] x.longest_road_len[i] == longest_road(x.board, PlayerId(i as u8)) by {
        lemma_longest_frame(g.board, x.board, PlayerId(i as u8));
    }
    lemma_scores_after_check(x);
}

proof fn lemma_end_turn_scores(g: Game)
    requires
        g.inv(),
        roads_current(g),
        legal(g, Action::EndTurn),
    ensures
        roads_current(apply_spec(g, Action::EndTurn, 0)),
        scores_consistent(apply_spec(g, Action::EndTurn, 0)),
{
    let x = Game {
        current_player: PlayerId(((g.current_player.0 + 1) % 4) as u8),
        turn_number: (g.turn_number + 1) as u16,
        turn_flags: fresh_flags(),
        phase: Phase::PreRoll,
        ..g
    };
    lemma_scores_after_check(x);
}

/// A knight can move the largest army to the seat that plays it, and takes
/// nothing from anyone's score but the army it takes away.
#[verifier::rlimit(40)]
proof fn lemma_knight_scores(g: Game)
    requires
        g.inv(),
        roads_current(g),
        scores_consistent(g),
        legal(g, Action::PlayKnight),
    ensures
        roads_current(apply_spec(g, Action::PlayKnight, 0)),
        scores_consistent(apply_spec(g, Action::PlayKnight, 0)),
{
    let p = acting(g);
    let pi = p.0 as int;
    let g1 = play_card(g, pi, DevelopmentCard::Knight);
    let pl = g1.players[pi];
    let g2 = set_player(g1, pi, Player { played_knights: (pl.played_knights + 1) as u8, ..pl });
    let f = apply_spec(g, Action::PlayKnight, 0);
    lemma_checked(g2);
    assert(f == (Game { phase: Phase::MoveRobber, ..check_victory_spec(g2) }));
    lemma_same_scores(f, g2);
    assert forall|i: int| 0 <= i < 4 implies #[trigger] f.longest_road_len[i] == longest_road(f.board, PlayerId(i as u8)) by {
        assert(f.board == g.board);
    }
    let k1 = knights_played(g);
    let k2 = knights_played(g2);
    assert forall|i: int| 0 <= i < 4 && i != g.current_player.0 implies #[trigger] victory_points_of(f, PlayerId(i as u8)) < 10 by {
        assert(victory_points_of(g, PlayerId(i as u8)) < 10);
        assert(g2.board.vertices == g.board.vertices);
        assert(g2.longest_road_len@ =~= g.longest_road_len@);
        if la_owner(g2) == Some(PlayerId(i as u8)) {
            assert forall|j: int| 0 <= j < 4 && j != pi implies k2[j] == k1[j] by {}
            lemma_award_not_gained(k1, k2, 2, pi, i);
        }
    }
}

/// Moves that only trade cards or move the robber change no score.
#[verifier::rlimit(40)]
#[verifier::spinoff_prover]
proof fn lemma_card_move_scores(g: Game, a: Action, pick: int)
    requires
        g.inv(),
        roads_current(g),
        scores_consistent(g),
        legal(g, a),
        a is PlayRoadBuilding || a is PlayYearOfPlenty || a is PlayMonopoly || a is RollDice
            || a is MoveRobber || a is StealFrom || a is StealFromNone || a is DiscardResource
            || a is BankTrade,
    ensures
        roads_current(apply_spec(g, a, pick)),
        scores_consistent(apply_spec(g, a, pick)),
{
    lemma_scores_carry(g, apply_spec(g, a, pick));
}

/// Every move the rules accept keeps the longest roads up to date and the
/// scores consistent: in particular a move that ends the game ends it in
/// favor of a seat with at least ten victory points.
pub proof fn lemma_apply_keeps_scores(g: Game, a: Action, pick: int)
    requires
        g.inv(),
        roads_current(g),
        scores_consistent(g),
        action_wf(a),
        accepts(g, a),
        pick_range(g, a, pick),
    ensures
        roads_current(apply_spec(g, a, pick)),
        scores_consistent(apply_spec(g, a, pick)),
{
    match a {
        Action::PlayYearOfPlenty(r1, r2) => {
            let i = action_index(a);
            lemma_index_roundtrip(i);
            assert(g.phase is Main);
            lemma_scores_carry(g, apply_spec(g, a, pick));
        },
        _ => {
            lemma_accepts(g, a);
            match a {
                Action::PlaceSettlement(v) => lemma_settle_scores(g, v),
                Action::PlaceRoad(e) => lemma_road_scores(g, e),
                Action::BuildCity(v) => lemma_city_scores(g, v),
                Action::BuyDevelopmentCard => lemma_buy_scores(g),
                Action::PlayKnight => lemma_knight_scores(g),
                Action::EndTurn => lemma_end_turn_scores(g),
                _ => lemma_card_move_scores(g, a, pick),
            }
        },
    }
}

/// The dice change no score: after a roll a running game stays consistent.
pub proof fn lemma_resolve_keeps_scores(g: Game, roll: u8)
    requires
        g.inv(),
        roads_current(g),
        scores_consistent(g),
        g.phase is ChanceRoll,
    ensures
        roads_current(resolve_spec(g, roll)),
        scores_consistent(resolve_spec(g, roll)),
{
    let g1 = Game { turn_flags: TurnFlags { has_rolled: true, ..g.turn_flags }, ..g };
    if roll != 7 {
        lemma_produce_conserves(g1, roll, 114);
        let x = produce(g1, roll, 114);
        assert forall|i: int| 0 <= i < 4 implies (#[trigger] x.players[i]).played_knights == g.players[i].played_knights
            && x.players[i].dev_cards.0[1] == g.players[i].dev_cards.0[1] by {
            assert(x.players[i] == (Player { resources: x.players[i].resources, ..g1.players[i] }));
        }
    }
    lemma_scores_carry(g, resolve_spec(g, roll));
}

/// A new game has no roads and no scores to speak of.
pub proof fn lemma_fresh_scores(g: Game)
    requires
        fresh_game(g),
    ensures
        roads_current(g),
        scores_consistent(g),
{
    assert forall|i: int| 0 <= i < 4 implies #[trigger] g.longest_road_len[i] == longest_road(g.board, PlayerId(i as u8)) by {
        lemma_longest_road_is_longest_trail(g.board, PlayerId(i as u8));
    }
}

} // verus!
