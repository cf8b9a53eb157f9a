//! Properties of the rules that hold across moves: the invariant every
//! reachable state keeps, and what single moves promise.

use vstd::prelude::*;
use crate::action::{action_at, action_wf, Action};
use crate::board::{Board, Edge, Vertex};
use crate::game::{
    acting, award_scan, cities_on, knights_played, la_owner, lr_owner, roads_on, settlements_on,
    victory_points_of, Game, Phase, TurnFlags,
};
use crate::moves::{accepts, after_robber, apply_spec, fresh_flags, monopoly, play_card, player_to_bank, stolen_resource};
use crate::rules::{can_play, has_road_spot, road_legal, stealable};
use crate::longest_road::longest_road;
use crate::resource::DevelopmentCard;
use crate::transition::{min_int, pay_spec};
use crate::rules::{CITY_COST, DEV_CARD_COST, ROAD_COST, SETTLEMENT_COST};
use crate::moves::{build_road, build_road_mid, draw_card, put_city, put_road, put_settlement, settle, settle_mid, setup_after_road};
use crate::transition::{first_set, grant_tiles, produce, produce_step, seven_phase};
use crate::topology::TILE_VERTICES;
use crate::topology::tiles_at;
use crate::topology::{adjacent, edge_touches, port_slot, EDGE_VERTICES};
use crate::board::placement_valid;
use crate::types::{EdgeId, VertexId};
use crate::spots::{edge_of_vertex, lemma_setup_room, lemma_vertex_has_edge};
use crate::player::trade_rate_of;
use crate::resource::Resource;
use crate::player::Player;
use crate::resource::{bank_total, hand_total, ResourceBank};
use crate::rules::{legal, phase_wf};
use crate::state::{
    card_count, dev_cards_bounded, dev_count, discard_progress, distance_rule, owners_valid,
    pieces_accounted, resources_conserved, road_building_ok, roads_at_buildings, setup_progress,
    setup_supply,
};
use crate::transition::{check_victory_spec, first_winner, resolve_spec};
use crate::longest_road::{lemma_longest_roads_frame, with_longest_roads};
use crate::types::{PlayerId, TileId};
use crate::transition::pick_range;
use crate::state::{bank_to_player, set_player, set_player_res};

verus! {

broadcast use {
    vstd::array::axiom_spec_array_update,
    vstd::array::axiom_array_ext_equal,
    vstd::array::array_len_matches_n,
};

/// Every state that keeps the invariant can take any move without a counter
/// leaving its range.
pub proof fn lemma_inv_bounded(g: Game)
    requires
        g.inv(),
    ensures
        g.bounded(),
{
    assert(card_count(g) == 95) by {
        assert(resources_conserved(g));
        assert(g.board.bank.0[0] + g.players[0].resources.0[0] + g.players[1].resources.0[0]
            + g.players[2].resources.0[0] + g.players[3].resources.0[0] == 19);
        assert(g.board.bank.0[1] + g.players[0].resources.0[1] + g.players[1].resources.0[1]
            + g.players[2].resources.0[1] + g.players[3].resources.0[1] == 19);
        assert(g.board.bank.0[2] + g.players[0].resources.0[2] + g.players[1].resources.0[2]
            + g.players[2].resources.0[2] + g.players[3].resources.0[2] == 19);
        assert(g.board.bank.0[3] + g.players[0].resources.0[3] + g.players[1].resources.0[3]
            + g.players[2].resources.0[3] + g.players[3].resources.0[3] == 19);
        assert(g.board.bank.0[4] + g.players[0].resources.0[4] + g.players[1].resources.0[4]
            + g.players[2].resources.0[4] + g.players[3].resources.0[4] == 19);
    }
    let cp = g.current_player.0 as int;
    assert(hand_total(g.turn_flags.dev_cards_bought) <= hand_total(g.players[cp].dev_cards)) by {
        assert(g.turn_flags.dev_cards_bought.0[0] <= g.players[cp].dev_cards.0[0]);
        assert(g.turn_flags.dev_cards_bought.0[1] <= g.players[cp].dev_cards.0[1]);
        assert(g.turn_flags.dev_cards_bought.0[2] <= g.players[cp].dev_cards.0[2]);
        assert(g.turn_flags.dev_cards_bought.0[3] <= g.players[cp].dev_cards.0[3]);
        assert(g.turn_flags.dev_cards_bought.0[4] <= g.players[cp].dev_cards.0[4]);
    }
    assert forall|p: int| 0 <= p < 4 implies (#[trigger] g.players[p]).settlements_left < 255 by {
        assert(pieces_accounted(g));
        assert(settlements_on(g.board.vertices@, PlayerId(p as u8), 54) + g.players[p].settlements_left == 5);
    }
    match g.phase {
        Phase::SetupSettlement { player, round } => {
            assert(g.players[player.0 as int].settlements_left > 0);
        },
        Phase::SetupRoad { player, round, .. } => {
            assert(g.players[player.0 as int].roads_left > 0);
        },
        _ => {},
    }
}


proof fn lemma_no_buildings(vs: Seq<Vertex>, p: PlayerId, n: int)
    requires
        forall|v: int| 0 <= v < n ==> vs[v] == Vertex::Empty,
    ensures
        settlements_on(vs, p, n) == 0,
        cities_on(vs, p, n) == 0,
    decreases n,
{
    if n > 0 {
        lemma_no_buildings(vs, p, n - 1);
    }
}

proof fn lemma_no_roads(es: Seq<Edge>, p: PlayerId, n: int)
    requires
        forall|e: int| 0 <= e < n ==> es[e] == Edge::Empty,
    ensures
        roads_on(es, p, n) == 0,
    decreases n,
{
    if n > 0 {
        lemma_no_roads(es, p, n - 1);
    }
}

/// A new game keeps the invariant.
pub proof fn lemma_fresh_inv(g: Game)
    requires
        g.board.wf(),
        g.phase == (Phase::SetupSettlement { player: PlayerId(0), round: 1 }),
        g.current_player == PlayerId(0),
        forall|i: int| 0 <= i < 5 ==> #[trigger] g.turn_flags.dev_cards_bought.0[i] == 0,
        forall|i: int|
            0 <= i < 4 ==> #[trigger] g.players[i] == (Player { id: PlayerId(i as u8), ..g.players[0] }),
        g.players[0].played_knights == 0,
        g.players[0].settlements_left == 5,
        g.players[0].cities_left == 4,
        g.players[0].roads_left == 15,
        forall|r: int| 0 <= r < 5 ==> #[trigger] g.players[0].resources.0[r] == 0,
        forall|r: int| 0 <= r < 5 ==> #[trigger] g.players[0].dev_cards.0[r] == 0,
        forall|v: int| 0 <= v < 54 ==> #[trigger] g.board.vertices[v] == Vertex::Empty,
        forall|e: int| 0 <= e < 72 ==> #[trigger] g.board.edges[e] == Edge::Empty,
        forall|r: int| 0 <= r < 5 ==> #[trigger] g.board.bank.0[r] == 19,
    ensures
        g.inv(),
{
    crate::resource::lemma_deck_len(g.board.dev_card_deck);
    assert forall|p: int| 0 <= p < 4 implies {
        &&& settlements_on(g.board.vertices@, PlayerId(p as u8), 54) + (#[trigger] g.players[p]).settlements_left == 5
        &&& cities_on(g.board.vertices@, PlayerId(p as u8), 54) + g.players[p].cities_left == 4
        &&& roads_on(g.board.edges@, PlayerId(p as u8), 72) + g.players[p].roads_left == 15
    } by {
        lemma_no_buildings(g.board.vertices@, PlayerId(p as u8), 54);
        lemma_no_roads(g.board.edges@, PlayerId(p as u8), 72);
        assert(g.players[p] == (Player { id: PlayerId(p as u8), ..g.players[0] }));
    }
    assert(pieces_accounted(g));
    assert forall|q: int| 0 <= q < 4 implies (#[trigger] g.players[q]).settlements_left == 5
        && g.players[q].roads_left == 15 && bank_total(g.players[q].resources) == 0
        && hand_total(g.players[q].dev_cards) == 0 && g.players[q].played_knights == 0 by {
        assert(g.players[q] == (Player { id: PlayerId(q as u8), ..g.players[0] }));
    }
    assert(setup_progress(g));
    assert(resources_conserved(g));
    assert(dev_cards_bounded(g));
}


// ---------------------------------------------------------------------------
// Building blocks
// ---------------------------------------------------------------------------

/// With the resources conserved, every hand holds at most 95 cards.
proof fn lemma_conserved_hands(g: Game)
    requires
        resources_conserved(g),
    ensures
        forall|p: int| 0 <= p < 4 ==> bank_total(#[trigger] g.players[p].resources) <= 95,
{
    assert forall|p: int| 0 <= p < 4 implies bank_total(#[trigger] g.players[p].resources) <= 95 by {
        assert(g.board.bank.0[0] + g.players[0].resources.0[0] + g.players[1].resources.0[0]
            + g.players[2].resources.0[0] + g.players[3].resources.0[0] == 19);
        assert(g.board.bank.0[1] + g.players[0].resources.0[1] + g.players[1].resources.0[1]
            + g.players[2].resources.0[1] + g.players[3].resources.0[1] == 19);
        assert(g.board.bank.0[2] + g.players[0].resources.0[2] + g.players[1].resources.0[2]
            + g.players[2].resources.0[2] + g.players[3].resources.0[2] == 19);
        assert(g.board.bank.0[3] + g.players[0].resources.0[3] + g.players[1].resources.0[3]
            + g.players[2].resources.0[3] + g.players[3].resources.0[3] == 19);
        assert(g.board.bank.0[4] + g.players[0].resources.0[4] + g.players[1].resources.0[4]
            + g.players[2].resources.0[4] + g.players[3].resources.0[4] == 19);
    }
}

proof fn lemma_first_winner_seat(g: Game, n: int)
    requires
        n <= 4,
    ensures
        first_winner(g, n) matches Some(w) ==> w.0 < 4,
    decreases n,
{
    if n > 0 {
        lemma_first_winner_seat(g, n - 1);
    }
}

/// Looking for a winner keeps the invariant.
pub proof fn lemma_inv_check_victory(g: Game)
    requires
        g.inv(),
    ensures
        check_victory_spec(g).inv(),
{
    reveal(check_victory_spec);
    lemma_first_winner_seat(g, 4);
}

/// Recomputing the longest roads keeps the invariant.
pub proof fn lemma_inv_longest(g: Game)
    requires
        g.inv(),
    ensures
        with_longest_roads(g).inv(),
{
    lemma_longest_roads_frame(g);
}

/// A move that only changes hands, the bank and the phase, and keeps every
/// resource's total, keeps the invariant when the new phase is well formed
/// and keeps the setup and discard bookkeeping.
#[verifier::spinoff_prover]
#[verifier::rlimit(40)]
pub proof fn lemma_inv_cards_phase(g: Game, g2: Game)
    requires
        g.inv(),
        g2 == (Game {
            players: g2.players,
            board: Board { bank: g2.board.bank, ..g.board },
            phase: g2.phase,
            ..g
        }),
        forall|q: int|
            0 <= q < 4 ==> (#[trigger] g2.players[q]) == (Player { resources: g2.players[q].resources, ..g.players[q] }),
        resources_conserved(g2),
        phase_wf(g2.phase),
        setup_progress(g2),
        discard_progress(g2),
        road_building_ok(g2),
    ensures
        g2.inv(),
{
    lemma_conserved_hands(g2);
    assert(pieces_accounted(g2)) by {
        assert forall|p: int| 0 <= p < 4 implies {
            &&& settlements_on(g2.board.vertices@, PlayerId(p as u8), 54) + (#[trigger] g2.players[p]).settlements_left == 5
            &&& cities_on(g2.board.vertices@, PlayerId(p as u8), 54) + g2.players[p].cities_left == 4
            &&& roads_on(g2.board.edges@, PlayerId(p as u8), 72) + g2.players[p].roads_left == 15
        } by {
            assert(g.players[p].settlements_left == g2.players[p].settlements_left);
        }
    }
    assert(dev_cards_bounded(g2)) by {
        assert(g2.players[0].dev_cards == g.players[0].dev_cards);
        assert(g2.players[1].dev_cards == g.players[1].dev_cards);
        assert(g2.players[2].dev_cards == g.players[2].dev_cards);
        assert(g2.players[3].dev_cards == g.players[3].dev_cards);
        assert(g2.players[0].played_knights == g.players[0].played_knights);
        assert(g2.players[1].played_knights == g.players[1].played_knights);
        assert(g2.players[2].played_knights == g.players[2].played_knights);
        assert(g2.players[3].played_knights == g.players[3].played_knights);
        assert(g2.players[g.current_player.0 as int].dev_cards == g.players[g.current_player.0 as int].dev_cards);
    }
}

/// A move that only changes hands and the bank, and keeps every resource's
/// total, keeps the invariant.
#[verifier::spinoff_prover]
#[verifier::rlimit(40)]
pub proof fn lemma_inv_cards_only(g: Game, g2: Game)
    requires
        g.inv(),
        g2 == (Game { players: g2.players, board: Board { bank: g2.board.bank, ..g.board }, ..g }),
        forall|q: int|
            0 <= q < 4 ==> (#[trigger] g2.players[q]) == (Player { resources: g2.players[q].resources, ..g.players[q] }),
        resources_conserved(g2),
        discard_progress(g2),
    ensures
        g2.inv(),
{
    assert(setup_progress(g2)) by {
        match g.phase {
            Phase::SetupSettlement { player, round } => {
                assert forall|q: int| 0 <= q < 4 implies (#[trigger] g2.players[q]).settlements_left == g.players[q].settlements_left
                    && g2.players[q].roads_left == g.players[q].roads_left by {}
            },
            Phase::SetupRoad { player, round, .. } => {
                assert forall|q: int| 0 <= q < 4 implies (#[trigger] g2.players[q]).settlements_left == g.players[q].settlements_left
                    && g2.players[q].roads_left == g.players[q].roads_left by {}
            },
            _ => {},
        }
    }
    assert(road_building_ok(g2)) by {
        crate::rules::lemma_road_spot_same(g.board, g2.board, g.current_player);
    }
    lemma_inv_cards_phase(g, g2);
}

/// A move that only changes the phase keeps the invariant when the new phase
/// is well formed and keeps the setup and discard bookkeeping.
pub proof fn lemma_inv_phase_only(g: Game, ph: Phase)
    requires
        g.inv(),
        phase_wf(ph),
        setup_progress(Game { phase: ph, ..g }),
        discard_progress(Game { phase: ph, ..g }),
        road_building_ok(Game { phase: ph, ..g }),
    ensures
        (Game { phase: ph, ..g }).inv(),
{
}


// ---------------------------------------------------------------------------
// Moves that keep the board
// ---------------------------------------------------------------------------

#[verifier::rlimit(40)]
#[verifier::spinoff_prover]
proof fn lemma_end_turn_inv(g: Game)
    requires
        g.inv(),
    ensures
        apply_spec(g, Action::EndTurn, 0).inv(),
{
    let g1 = Game {
        current_player: PlayerId(((g.current_player.0 + 1) % 4) as u8),
        turn_number: (g.turn_number + 1) as u16,
        turn_flags: fresh_flags(),
        phase: Phase::PreRoll,
        ..g
    };
    assert(g1.inv());
    lemma_inv_check_victory(g1);
}

proof fn lemma_move_robber_inv(g: Game, t: TileId)
    requires
        g.inv(),
        t.0 < 19,
    ensures
        apply_spec(g, Action::MoveRobber(t), 0).inv(),
{
    let g1 = apply_spec(g, Action::MoveRobber(t), 0);
    assert(g1.board.topo == g.board.topo);
}

/// One card of resource `r` goes from seat `from` to seat `to`.
pub open spec fn hand_over(g: Game, from: int, to: int, r: int) -> Game {
    let g0 = set_player_res(g, from, r, g.players[from].resources.0[r] - 1);
    set_player_res(g0, to, r, g0.players[to].resources.0[r] + 1)
}

proof fn lemma_hand_over_conserves(g: Game, from: int, to: int, r: int)
    requires
        resources_conserved(g),
        0 <= from < 4,
        0 <= to < 4,
        0 <= r < 5,
        g.players[from].resources.0[r] > 0,
    ensures
        resources_conserved(hand_over(g, from, to, r)),
        hand_over(g, from, to, r) == (Game { players: hand_over(g, from, to, r).players, ..g }),
        forall|q: int|
            0 <= q < 4 ==> (#[trigger] hand_over(g, from, to, r).players[q]) == (Player {
                resources: hand_over(g, from, to, r).players[q].resources,
                ..g.players[q]
            }),
{
    let g2 = hand_over(g, from, to, r);
    assert(g.players[0].resources.0[r] + g.players[1].resources.0[r] + g.players[2].resources.0[r]
        + g.players[3].resources.0[r] + g.board.bank.0[r] == 19);
    assert(g.players[to].resources.0[r] < 19 || from == to);
    assert forall|s: int| 0 <= s < 5 implies g2.players[0].resources.0[s] + g2.players[1].resources.0[s]
        + g2.players[2].resources.0[s] + g2.players[3].resources.0[s] + #[trigger] g2.board.bank.0[s] == 19 by {
        assert(g.players[0].resources.0[s] + g.players[1].resources.0[s] + g.players[2].resources.0[s]
            + g.players[3].resources.0[s] + g.board.bank.0[s] == 19);
    }
}

#[verifier::spinoff_prover]
#[verifier::rlimit(40)]
proof fn lemma_steal_inv(g: Game, t: PlayerId, pick: int)
    requires
        g.inv(),
        legal(g, Action::StealFrom(t)),
        pick_range(g, Action::StealFrom(t), pick),
    ensures
        apply_spec(g, Action::StealFrom(t), pick).inv(),
{
    let p = acting(g);
    let ti = t.0 as int;
    let hand = g.players[ti].resources;
    let r = stolen_resource(hand, pick);
    lemma_stolen_held(hand, pick);
    let g1 = hand_over(g, ti, p.0 as int, r);
    lemma_hand_over_conserves(g, ti, p.0 as int, r);
    assert(g1 == (Game { players: g1.players, board: Board { bank: g1.board.bank, ..g.board }, ..g }));
    lemma_inv_cards_only(g, g1);
    lemma_inv_phase_only(g1, after_robber(g));
}

/// The stolen card is one the hand holds.
pub proof fn lemma_stolen_held(hand: ResourceBank, pick: int)
    requires
        0 <= pick < bank_total(hand),
    ensures
        0 <= stolen_resource(hand, pick) < 5,
        hand.0[stolen_resource(hand, pick)] > 0,
{
}


/// Moving `n` cards of resource `r` between the bank and seat `p` keeps
/// every resource's total.
proof fn lemma_bank_moves_conserve(g: Game, p: int, r: int, n: int)
    requires
        resources_conserved(g),
        0 <= p < 4,
        0 <= r < 5,
        0 <= n <= g.board.bank.0[r],
    ensures
        resources_conserved(bank_to_player(g, p, r, n)),
        bank_to_player(g, p, r, n) == (Game {
            players: bank_to_player(g, p, r, n).players,
            board: Board { bank: bank_to_player(g, p, r, n).board.bank, ..g.board },
            ..g
        }),
        forall|q: int|
            0 <= q < 4 ==> (#[trigger] bank_to_player(g, p, r, n).players[q]) == (Player {
                resources: bank_to_player(g, p, r, n).players[q].resources,
                ..g.players[q]
            }),
        forall|q: int| 0 <= q < 4 && q != p ==> (#[trigger] bank_to_player(g, p, r, n).players[q]) == g.players[q],
        forall|s: int|
            0 <= s < 5 && s != r ==> #[trigger] bank_to_player(g, p, r, n).players[p].resources.0[s]
                == g.players[p].resources.0[s],
        bank_to_player(g, p, r, n).players[p].resources.0[r] == g.players[p].resources.0[r] + n,
{
    let g2 = bank_to_player(g, p, r, n);
    assert(g.players[0].resources.0[r] + g.players[1].resources.0[r] + g.players[2].resources.0[r]
        + g.players[3].resources.0[r] + g.board.bank.0[r] == 19);
    assert forall|s: int| 0 <= s < 5 implies g2.players[0].resources.0[s] + g2.players[1].resources.0[s]
        + g2.players[2].resources.0[s] + g2.players[3].resources.0[s] + #[trigger] g2.board.bank.0[s] == 19 by {
        assert(g.players[0].resources.0[s] + g.players[1].resources.0[s] + g.players[2].resources.0[s]
            + g.players[3].resources.0[s] + g.board.bank.0[s] == 19);
    }
}

/// Moving `n` cards of resource `r` from seat `p` to the bank keeps every
/// resource's total.
proof fn lemma_to_bank_conserves(g: Game, p: int, r: int, n: int)
    requires
        resources_conserved(g),
        0 <= p < 4,
        0 <= r < 5,
        0 <= n <= g.players[p].resources.0[r],
    ensures
        resources_conserved(player_to_bank(g, p, r, n)),
        player_to_bank(g, p, r, n) == (Game {
            players: player_to_bank(g, p, r, n).players,
            board: Board { bank: player_to_bank(g, p, r, n).board.bank, ..g.board },
            ..g
        }),
        forall|q: int|
            0 <= q < 4 ==> (#[trigger] player_to_bank(g, p, r, n).players[q]) == (Player {
                resources: player_to_bank(g, p, r, n).players[q].resources,
                ..g.players[q]
            }),
        forall|q: int| 0 <= q < 4 && q != p ==> (#[trigger] player_to_bank(g, p, r, n).players[q]) == g.players[q],
        forall|s: int|
            0 <= s < 5 && s != r ==> #[trigger] player_to_bank(g, p, r, n).players[p].resources.0[s]
                == g.players[p].resources.0[s] && player_to_bank(g, p, r, n).board.bank.0[s] == g.board.bank.0[s],
        player_to_bank(g, p, r, n).players[p].resources.0[r] == g.players[p].resources.0[r] - n,
        player_to_bank(g, p, r, n).board.bank.0[r] == g.board.bank.0[r] + n,
{
    let g2 = player_to_bank(g, p, r, n);
    assert(g.players[0].resources.0[r] + g.players[1].resources.0[r] + g.players[2].resources.0[r]
        + g.players[3].resources.0[r] + g.board.bank.0[r] == 19);
    assert forall|s: int| 0 <= s < 5 implies g2.players[0].resources.0[s] + g2.players[1].resources.0[s]
        + g2.players[2].resources.0[s] + g2.players[3].resources.0[s] + #[trigger] g2.board.bank.0[s] == 19 by {
        assert(g.players[0].resources.0[s] + g.players[1].resources.0[s] + g.players[2].resources.0[s]
            + g.players[3].resources.0[s] + g.board.bank.0[s] == 19);
    }
}

#[verifier::spinoff_prover]
#[verifier::rlimit(40)]
proof fn lemma_discard_inv(g: Game, res: Resource)
    requires
        g.inv(),
        legal(g, Action::DiscardResource(res)),
    ensures
        apply_spec(g, Action::DiscardResource(res), 0).inv(),
{
    let r = res.spec_idx();
    match g.phase {
        Phase::Discard { remaining, targets, active } => {
            let ai = active.0 as int;
            let g1 = player_to_bank(g, ai, r, 1);
            lemma_to_bank_conserves(g, ai, r, 1);
            assert(bank_total(g1.players[ai].resources) == bank_total(g.players[ai].resources) - 1);
            let g2 = apply_spec(g, Action::DiscardResource(res), 0);
            assert(discard_progress(g2));
            lemma_inv_cards_phase(g, g2);
        },
        _ => {},
    }
}

#[verifier::spinoff_prover]
#[verifier::rlimit(40)]
proof fn lemma_trade_inv(g: Game, give: Resource, receive: Resource)
    requires
        g.inv(),
        legal(g, Action::BankTrade { give, receive }),
    ensures
        apply_spec(g, Action::BankTrade { give, receive }, 0).inv(),
{
    let pi = g.current_player.0 as int;
    let rate = trade_rate_of(g.players[pi], give);
    let g1 = player_to_bank(g, pi, give.spec_idx(), rate as int);
    lemma_to_bank_conserves(g, pi, give.spec_idx(), rate as int);
    lemma_inv_cards_only(g, g1);
    lemma_bank_moves_conserve(g1, pi, receive.spec_idx(), 1);
    lemma_inv_cards_only(g1, bank_to_player(g1, pi, receive.spec_idx(), 1));
}


// ---------------------------------------------------------------------------
// Development cards
// ---------------------------------------------------------------------------

/// Playing a card the current player may play keeps the invariant.
#[verifier::spinoff_prover]
#[verifier::rlimit(40)]
proof fn lemma_play_card_inv(g: Game, c: DevelopmentCard)
    requires
        g.inv(),
        can_play(g, c),
    ensures
        play_card(g, g.current_player.0 as int, c).inv(),
        hand_total(play_card(g, g.current_player.0 as int, c).players[g.current_player.0 as int].dev_cards)
            == hand_total(g.players[g.current_player.0 as int].dev_cards) - 1,
{
    let pi = g.current_player.0 as int;
    let g1 = play_card(g, pi, c);
    assert(g1.players[pi].dev_cards.0[c.spec_idx()] == g.players[pi].dev_cards.0[c.spec_idx()] - 1);
    assert(hand_total(g1.players[pi].dev_cards) == hand_total(g.players[pi].dev_cards) - 1);
    assert(dev_cards_bounded(g1));
    assert(pieces_accounted(g1)) by {
        assert forall|p: int| 0 <= p < 4 implies {
            &&& settlements_on(g1.board.vertices@, PlayerId(p as u8), 54) + (#[trigger] g1.players[p]).settlements_left == 5
            &&& cities_on(g1.board.vertices@, PlayerId(p as u8), 54) + g1.players[p].cities_left == 4
            &&& roads_on(g1.board.edges@, PlayerId(p as u8), 72) + g1.players[p].roads_left == 15
        } by {
            assert(g.players[p].settlements_left == g1.players[p].settlements_left);
        }
    }
    assert(resources_conserved(g1)) by {
        assert forall|r: int| 0 <= r < 5 implies g1.players[0].resources.0[r] + g1.players[1].resources.0[r]
            + g1.players[2].resources.0[r] + g1.players[3].resources.0[r] + #[trigger] g1.board.bank.0[r] == 19 by {
            assert(g.players[0].resources.0[r] + g.players[1].resources.0[r] + g.players[2].resources.0[r]
                + g.players[3].resources.0[r] + g.board.bank.0[r] == 19);
        }
    }
    assert(setup_progress(g1)) by {
        match g.phase {
            Phase::SetupSettlement { player, round } => {
                assert forall|q: int| 0 <= q < 4 implies (#[trigger] g1.players[q]).settlements_left == g.players[q].settlements_left
                    && g1.players[q].roads_left == g.players[q].roads_left by {}
            },
            Phase::SetupRoad { player, round, .. } => {
                assert forall|q: int| 0 <= q < 4 implies (#[trigger] g1.players[q]).settlements_left == g.players[q].settlements_left
                    && g1.players[q].roads_left == g.players[q].roads_left by {}
            },
            _ => {},
        }
    }
    assert(discard_progress(g1)) by {
        match g.phase {
            Phase::Discard { remaining, targets, active } => {
                assert forall|i: int| 0 <= i < 4 && #[trigger] remaining[i] implies bank_total(g1.players[i].resources) > targets[i] by {
                    assert(g1.players[i].resources == g.players[i].resources);
                }
            },
            _ => {},
        }
    }
    lemma_conserved_hands(g1);
}

#[verifier::rlimit(40)]
#[verifier::spinoff_prover]
proof fn lemma_year_of_plenty_inv(g: Game, r1: Resource, r2: Resource)
    requires
        g.inv(),
        can_play(g, DevelopmentCard::YearOfPlenty),
        g.phase is Main,
    ensures
        apply_spec(g, Action::PlayYearOfPlenty(r1, r2), 0).inv(),
{
    let pi = g.current_player.0 as int;
    let g1 = play_card(g, pi, DevelopmentCard::YearOfPlenty);
    lemma_play_card_inv(g, DevelopmentCard::YearOfPlenty);
    let n1 = min_int(1, g1.board.bank.0[r1.spec_idx()] as int);
    lemma_bank_moves_conserve(g1, pi, r1.spec_idx(), n1);
    let g2 = bank_to_player(g1, pi, r1.spec_idx(), n1);
    lemma_inv_cards_only(g1, g2);
    let n2 = min_int(1, g2.board.bank.0[r2.spec_idx()] as int);
    lemma_bank_moves_conserve(g2, pi, r2.spec_idx(), n2);
    lemma_inv_cards_only(g2, bank_to_player(g2, pi, r2.spec_idx(), n2));
}

/// A monopoly keeps every resource's total.
proof fn lemma_monopoly_conserves(g1: Game, pi: int, r: int)
    requires
        resources_conserved(g1),
        0 <= pi < 4,
        0 <= r < 5,
    ensures
        resources_conserved(monopoly(g1, pi, r)),
{
    let g2 = monopoly(g1, pi, r);
    assert forall|s: int| 0 <= s < 5 implies g2.players[0].resources.0[s] + g2.players[1].resources.0[s]
        + g2.players[2].resources.0[s] + g2.players[3].resources.0[s] + #[trigger] g2.board.bank.0[s] == 19 by {
        assert(g1.players[0].resources.0[s] + g1.players[1].resources.0[s] + g1.players[2].resources.0[s]
            + g1.players[3].resources.0[s] + g1.board.bank.0[s] == 19);
        if s != r {
            assert(g2.players[0].resources.0[s] == g1.players[0].resources.0[s]);
            assert(g2.players[1].resources.0[s] == g1.players[1].resources.0[s]);
            assert(g2.players[2].resources.0[s] == g1.players[2].resources.0[s]);
            assert(g2.players[3].resources.0[s] == g1.players[3].resources.0[s]);
        }
    }
}

#[verifier::spinoff_prover]
#[verifier::rlimit(40)]
proof fn lemma_monopoly_inv(g: Game, res: Resource)
    requires
        g.inv(),
        can_play(g, DevelopmentCard::Monopoly),
        g.phase is Main,
    ensures
        monopoly(play_card(g, g.current_player.0 as int, DevelopmentCard::Monopoly), g.current_player.0 as int, res.spec_idx()).inv(),
{
    let pi = g.current_player.0 as int;
    let r = res.spec_idx();
    let g1 = play_card(g, pi, DevelopmentCard::Monopoly);
    lemma_play_card_inv(g, DevelopmentCard::Monopoly);
    let g2 = monopoly(g1, pi, r);
    lemma_monopoly_conserves(g1, pi, r);
    lemma_inv_cards_only(g1, g2);
}

#[verifier::spinoff_prover]
#[verifier::rlimit(40)]
proof fn lemma_knight_inv(g: Game)
    requires
        g.inv(),
        can_play(g, DevelopmentCard::Knight),
        g.phase is Main || g.phase is PreRoll,
    ensures
        apply_spec(g, Action::PlayKnight, 0).inv(),
{
    let pi = g.current_player.0 as int;
    let g1 = play_card(g, pi, DevelopmentCard::Knight);
    lemma_play_card_inv(g, DevelopmentCard::Knight);
    let pl = g1.players[pi];
    let g2 = set_player(g1, pi, Player { played_knights: (pl.played_knights + 1) as u8, ..pl });
    assert(g2.inv()) by {
        assert(pieces_accounted(g2)) by {
            assert forall|p: int| 0 <= p < 4 implies {
                &&& settlements_on(g2.board.vertices@, PlayerId(p as u8), 54) + (#[trigger] g2.players[p]).settlements_left == 5
                &&& cities_on(g2.board.vertices@, PlayerId(p as u8), 54) + g2.players[p].cities_left == 4
                &&& roads_on(g2.board.edges@, PlayerId(p as u8), 72) + g2.players[p].roads_left == 15
            } by {
                assert(g1.players[p].settlements_left == g2.players[p].settlements_left);
            }
        }
        assert(resources_conserved(g2)) by {
            assert forall|r: int| 0 <= r < 5 implies g2.players[0].resources.0[r] + g2.players[1].resources.0[r]
                + g2.players[2].resources.0[r] + g2.players[3].resources.0[r] + #[trigger] g2.board.bank.0[r] == 19 by {
                assert(g1.players[0].resources.0[r] + g1.players[1].resources.0[r] + g1.players[2].resources.0[r]
                    + g1.players[3].resources.0[r] + g1.board.bank.0[r] == 19);
            }
        }
        lemma_conserved_hands(g2);
    }
    lemma_inv_check_victory(g2);
    lemma_inv_phase_only(check_victory_spec(g2), Phase::MoveRobber);
}

proof fn lemma_road_building_card_inv(g: Game)
    requires
        g.inv(),
        can_play(g, DevelopmentCard::RoadBuilding),
        g.phase is Main,
    ensures
        apply_spec(g, Action::PlayRoadBuilding, 0).inv(),
{
    let pi = g.current_player.0 as int;
    lemma_play_card_inv(g, DevelopmentCard::RoadBuilding);
}


// ---------------------------------------------------------------------------
// Paying and building
// ---------------------------------------------------------------------------

/// Paying what a hand covers keeps every resource's total.
proof fn lemma_pay_conserves(g: Game, p: int, cost: [u8; 5])
    requires
        resources_conserved(g),
        0 <= p < 4,
        forall|i: int| 0 <= i < 5 ==> g.players[p].resources.0[i] >= cost[i],
    ensures
        resources_conserved(pay_spec(g, p, cost)),
        pay_spec(g, p, cost) == (Game {
            players: pay_spec(g, p, cost).players,
            board: Board { bank: pay_spec(g, p, cost).board.bank, ..g.board },
            ..g
        }),
        forall|q: int|
            0 <= q < 4 ==> (#[trigger] pay_spec(g, p, cost).players[q]) == (Player {
                resources: pay_spec(g, p, cost).players[q].resources,
                ..g.players[q]
            }),
{
    let g2 = pay_spec(g, p, cost);
    assert forall|s: int| 0 <= s < 5 implies g2.players[0].resources.0[s] + g2.players[1].resources.0[s]
        + g2.players[2].resources.0[s] + g2.players[3].resources.0[s] + #[trigger] g2.board.bank.0[s] == 19 by {
        assert(g.players[0].resources.0[s] + g.players[1].resources.0[s] + g.players[2].resources.0[s]
            + g.players[3].resources.0[s] + g.board.bank.0[s] == 19);
    }
}

/// Paying in a main phase keeps the invariant.
proof fn lemma_pay_inv(g: Game, p: int, cost: [u8; 5])
    requires
        g.inv(),
        g.phase is Main,
        0 <= p < 4,
        forall|i: int| 0 <= i < 5 ==> g.players[p].resources.0[i] >= cost[i],
    ensures
        pay_spec(g, p, cost).inv(),
{
    lemma_pay_conserves(g, p, cost);
    lemma_inv_cards_only(g, pay_spec(g, p, cost));
}

#[verifier::spinoff_prover]
#[verifier::rlimit(40)]
proof fn lemma_buy_inv(g: Game)
    requires
        g.inv(),
        legal(g, Action::BuyDevelopmentCard),
    ensures
        check_victory_spec(draw_card(pay_spec(g, g.current_player.0 as int, DEV_CARD_COST), g.current_player.0 as int)).inv(),
{
    let pi = g.current_player.0 as int;
    let g1 = pay_spec(g, pi, DEV_CARD_COST);
    lemma_pay_inv(g, pi, DEV_CARD_COST);
    let g2 = draw_card(g1, pi);
    let c = g1.board.dev_card_deck.cards().last();
    g1.board.dev_card_deck.lemma_drawn();
    assert(g2.board.dev_card_deck.cards().len() == g1.board.dev_card_deck.cards().len() - 1);
    assert(hand_total(g2.players[pi].dev_cards) == hand_total(g1.players[pi].dev_cards) + 1);
    assert(g2.inv()) by {
        assert(pieces_accounted(g2)) by {
            assert forall|p: int| 0 <= p < 4 implies {
                &&& settlements_on(g2.board.vertices@, PlayerId(p as u8), 54) + (#[trigger] g2.players[p]).settlements_left == 5
                &&& cities_on(g2.board.vertices@, PlayerId(p as u8), 54) + g2.players[p].cities_left == 4
                &&& roads_on(g2.board.edges@, PlayerId(p as u8), 72) + g2.players[p].roads_left == 15
            } by {
                assert(g1.players[p].settlements_left == g2.players[p].settlements_left);
            }
        }
        assert(resources_conserved(g2)) by {
            assert forall|r: int| 0 <= r < 5 implies g2.players[0].resources.0[r] + g2.players[1].resources.0[r]
                + g2.players[2].resources.0[r] + g2.players[3].resources.0[r] + #[trigger] g2.board.bank.0[r] == 19 by {
                assert(g1.players[0].resources.0[r] + g1.players[1].resources.0[r] + g1.players[2].resources.0[r]
                    + g1.players[3].resources.0[r] + g1.board.bank.0[r] == 19);
            }
        }
        lemma_conserved_hands(g2);
        assert(dev_cards_bounded(g2));
    }
    lemma_inv_check_victory(g2);
}

/// How the building counts change when vertex `v` becomes `x`.
pub proof fn lemma_building_count_update(vs: Seq<Vertex>, v: int, x: Vertex, p: PlayerId, n: int)
    requires
        0 <= v < vs.len(),
        0 <= n <= vs.len(),
    ensures
        settlements_on(vs.update(v, x), p, n) + (if v < n && vs[v] == Vertex::Settlement(p) { 1int } else { 0int })
            == settlements_on(vs, p, n) + (if v < n && x == Vertex::Settlement(p) { 1int } else { 0int }),
        cities_on(vs.update(v, x), p, n) + (if v < n && vs[v] == Vertex::City(p) { 1int } else { 0int })
            == cities_on(vs, p, n) + (if v < n && x == Vertex::City(p) { 1int } else { 0int }),
    decreases n,
{
    if n > 0 {
        lemma_building_count_update(vs, v, x, p, n - 1);
    }
}

/// How the road counts change when edge `e` becomes `x`.
proof fn lemma_road_count_update(es: Seq<Edge>, e: int, x: Edge, p: PlayerId, n: int)
    requires
        0 <= e < es.len(),
        0 <= n <= es.len(),
    ensures
        roads_on(es.update(e, x), p, n) + (if e < n && es[e] == Edge::Road(p) { 1int } else { 0int })
            == roads_on(es, p, n) + (if e < n && x == Edge::Road(p) { 1int } else { 0int }),
    decreases n,
{
    if n > 0 {
        lemma_road_count_update(es, e, x, p, n - 1);
    }
}

#[verifier::spinoff_prover]
#[verifier::rlimit(40)]
proof fn lemma_city_inv(g: Game, v: VertexId)
    requires
        g.inv(),
        legal(g, Action::BuildCity(v)),
    ensures
        check_victory_spec(with_longest_roads(put_city(pay_spec(g, g.current_player.0 as int, CITY_COST), g.current_player, v.0 as int))).inv(),
{
    let p = g.current_player;
    let pi = p.0 as int;
    let g1 = pay_spec(g, pi, CITY_COST);
    lemma_pay_inv(g, pi, CITY_COST);
    let g2 = put_city(g1, p, v.0 as int);
    assert(g2.inv()) by {
        assert(g2.board.vertices@ == g1.board.vertices@.update(v.0 as int, Vertex::City(p)));
        assert(pieces_accounted(g2)) by {
            assert forall|q: int| 0 <= q < 4 implies {
                &&& settlements_on(g2.board.vertices@, PlayerId(q as u8), 54) + (#[trigger] g2.players[q]).settlements_left == 5
                &&& cities_on(g2.board.vertices@, PlayerId(q as u8), 54) + g2.players[q].cities_left == 4
                &&& roads_on(g2.board.edges@, PlayerId(q as u8), 72) + g2.players[q].roads_left == 15
            } by {
                lemma_building_count_update(g1.board.vertices@, v.0 as int, Vertex::City(p), PlayerId(q as u8), 54);
            }
        }
        assert(resources_conserved(g2)) by {
            assert forall|r: int| 0 <= r < 5 implies g2.players[0].resources.0[r] + g2.players[1].resources.0[r]
                + g2.players[2].resources.0[r] + g2.players[3].resources.0[r] + #[trigger] g2.board.bank.0[r] == 19 by {
                assert(g1.players[0].resources.0[r] + g1.players[1].resources.0[r] + g1.players[2].resources.0[r]
                    + g1.players[3].resources.0[r] + g1.board.bank.0[r] == 19);
            }
        }
        lemma_conserved_hands(g2);
        assert(dev_cards_bounded(g2)) by {
            assert(g2.players[0].dev_cards == g1.players[0].dev_cards);
            assert(g2.players[1].dev_cards == g1.players[1].dev_cards);
            assert(g2.players[2].dev_cards == g1.players[2].dev_cards);
            assert(g2.players[3].dev_cards == g1.players[3].dev_cards);
        }
        assert(distance_rule(g2)) by {
            assert forall|a: int, b: int|
                0 <= a < 54 && 0 <= b < 54 && !(g2.board.vertices[a] is Empty) && #[trigger] adjacent(a, b)
                    implies g2.board.vertices[b] is Empty by {
                assert(!(g1.board.vertices[a] is Empty));
            }
        }
    }
    lemma_inv_longest(g2);
    lemma_inv_check_victory(with_longest_roads(g2));
}


/// Adjacency goes both ways.
pub proof fn lemma_adjacent_symmetric(u: int, v: int)
    requires
        adjacent(u, v),
    ensures
        adjacent(v, u),
{
    let e = choose|e: int| 0 <= e < 72 && #[trigger] edge_touches(e, u) && edge_touches(e, v) && u != v;
    assert(edge_touches(e, v) && edge_touches(e, u) && v != u);
}

/// The parts of the invariant that do not depend on the phase.
pub open spec fn inv_board(g: Game) -> bool {
    &&& g.board.wf()
    &&& g.current_player.0 < 4
    &&& forall|p: int| 0 <= p < 4 ==> bank_total(#[trigger] g.players[p].resources) <= 255
    &&& owners_valid(g)
    &&& resources_conserved(g)
    &&& pieces_accounted(g)
    &&& dev_cards_bounded(g)
    &&& distance_rule(g)
}

/// The invariant is its phase-free part plus the phase bookkeeping.
proof fn lemma_inv_split(g: Game)
    ensures
        g.inv() == (inv_board(g) && phase_wf(g.phase) && setup_progress(g) && discard_progress(g)
            && road_building_ok(g)),
{
}

/// A settlement of `p` on a valid spot keeps the phase-free invariant, with
/// one settlement fewer in `p`'s supply.
#[verifier::rlimit(40)]
proof fn lemma_put_settlement_parts(g: Game, p: PlayerId, v: int)
    requires
        inv_board(g),
        p.0 < 4,
        0 <= v < 54,
        placement_valid(g.board, v),
        g.players[p.0 as int].settlements_left > 0,
    ensures
        inv_board(put_settlement(g, p, v)),
        put_settlement(g, p, v).phase == g.phase,
        put_settlement(g, p, v).current_player == g.current_player,
        put_settlement(g, p, v).turn_flags == g.turn_flags,
        forall|q: int|
            0 <= q < 4 ==> (#[trigger] put_settlement(g, p, v).players[q]).settlements_left == g.players[q].settlements_left
                - (if q == p.0 { 1int } else { 0int }) && put_settlement(g, p, v).players[q].roads_left
                == g.players[q].roads_left && put_settlement(g, p, v).players[q].resources == g.players[q].resources
                && put_settlement(g, p, v).players[q].cities_left == g.players[q].cities_left,
        put_settlement(g, p, v).board.edges == g.board.edges,
        put_settlement(g, p, v).board.vertices@ == g.board.vertices@.update(v, Vertex::Settlement(p)),
{
    let g1 = put_settlement(g, p, v);
    crate::transition::lemma_put_settlement_frame(g, p, v);
    assert(g1.board.vertices@ == g.board.vertices@.update(v, Vertex::Settlement(p)));
    assert forall|q: int|
        0 <= q < 4 implies (#[trigger] g1.players[q]).settlements_left == g.players[q].settlements_left - (if q
            == p.0 { 1int } else { 0int }) && g1.players[q].roads_left == g.players[q].roads_left
            && g1.players[q].cities_left == g.players[q].cities_left && g1.players[q].resources
            == g.players[q].resources && g1.players[q].dev_cards == g.players[q].dev_cards
            && g1.players[q].played_knights == g.players[q].played_knights by {
        if q == p.0 {
            match port_slot(v, 9) {
                Some(s) => {
                    match g.board.harbors[s as int] {
                        _ => {},
                    }
                },
                None => {},
            }
        }
    }
    assert(pieces_accounted(g1)) by {
        assert forall|q: int| 0 <= q < 4 implies {
            &&& settlements_on(g1.board.vertices@, PlayerId(q as u8), 54) + (#[trigger] g1.players[q]).settlements_left == 5
            &&& cities_on(g1.board.vertices@, PlayerId(q as u8), 54) + g1.players[q].cities_left == 4
            &&& roads_on(g1.board.edges@, PlayerId(q as u8), 72) + g1.players[q].roads_left == 15
        } by {
            lemma_building_count_update(g.board.vertices@, v, Vertex::Settlement(p), PlayerId(q as u8), 54);
        }
    }
    assert(resources_conserved(g1)) by {
        assert forall|r: int| 0 <= r < 5 implies g1.players[0].resources.0[r] + g1.players[1].resources.0[r]
            + g1.players[2].resources.0[r] + g1.players[3].resources.0[r] + #[trigger] g1.board.bank.0[r] == 19 by {
            assert(g.players[0].resources.0[r] + g.players[1].resources.0[r] + g.players[2].resources.0[r]
                + g.players[3].resources.0[r] + g.board.bank.0[r] == 19);
        }
    }
    assert(dev_cards_bounded(g1)) by {
        assert(g1.players[0].dev_cards == g.players[0].dev_cards);
        assert(g1.players[1].dev_cards == g.players[1].dev_cards);
        assert(g1.players[2].dev_cards == g.players[2].dev_cards);
        assert(g1.players[3].dev_cards == g.players[3].dev_cards);
        assert(g1.players[0].played_knights == g.players[0].played_knights);
        assert(g1.players[1].played_knights == g.players[1].played_knights);
        assert(g1.players[2].played_knights == g.players[2].played_knights);
        assert(g1.players[3].played_knights == g.players[3].played_knights);
    }
    assert(distance_rule(g1)) by {
        assert forall|a: int, b: int|
            0 <= a < 54 && 0 <= b < 54 && !(g1.board.vertices[a] is Empty) && #[trigger] adjacent(a, b)
                implies g1.board.vertices[b] is Empty by {
            lemma_adjacent_symmetric(a, b);
            if a == v {
                assert(g.board.vertices[b] is Empty);
            } else {
                assert(!(g.board.vertices[a] is Empty));
                assert(g.board.vertices[b] is Empty);
            }
        }
    }
    assert(owners_valid(g1));
}


/// Collecting from tiles keeps every resource's total.
proof fn lemma_grant_tiles_conserves(g: Game, p: int, tiles: Seq<u8>, k: int)
    requires
        resources_conserved(g),
        0 <= p < 4,
    ensures
        resources_conserved(grant_tiles(g, p, tiles, k)),
    decreases k,
{
    if k > 0 {
        lemma_grant_tiles_conserves(g, p, tiles, k - 1);
        let g0 = grant_tiles(g, p, tiles, k - 1);
        match g0.board.tiles[tiles[k - 1] as int].terrain.spec_resource() {
            Some(r) => {
                if g0.board.bank.0[r.spec_idx()] > 0 {
                    lemma_bank_moves_conserve(g0, p, r.spec_idx(), 1);
                }
            },
            None => {},
        }
    }
}

/// Each hand holds at most what is left of every resource beside the bank.
proof fn lemma_conserved_fits(g: Game)
    requires
        resources_conserved(g),
    ensures
        forall|p: int, r: int|
            0 <= p < 4 && 0 <= r < 5 ==> #[trigger] g.players[p].resources.0[r] + g.board.bank.0[r] <= 19,
{
    assert forall|p: int, r: int| 0 <= p < 4 && 0 <= r < 5 implies #[trigger] g.players[p].resources.0[r]
        + g.board.bank.0[r] <= 19 by {
        assert(g.players[0].resources.0[r] + g.players[1].resources.0[r] + g.players[2].resources.0[r]
            + g.players[3].resources.0[r] + g.board.bank.0[r] == 19);
    }
}


/// A settlement placed by the distance rule during setup has no road at it
/// yet, since every road touches a building.
proof fn lemma_fresh_settlement_has_no_road(g: Game, v: int)
    requires
        0 <= v < 54,
        roads_at_buildings(g),
        placement_valid(g.board, v),
    ensures
        forall|e: int| 0 <= e < 72 && #[trigger] edge_touches(e, v) ==> g.board.edges[e] is Empty,
{
    crate::topology::lemma_tables();
    assert forall|e: int| 0 <= e < 72 && #[trigger] edge_touches(e, v) implies g.board.edges[e] is Empty by {
        if g.board.edges[e] is Road {
            let a = EDGE_VERTICES[e][0] as int;
            let b = EDGE_VERTICES[e][1] as int;
            let u = if a == v { b } else { a };
            assert(edge_touches(e, u) && edge_touches(e, v) && u != v);
            assert(adjacent(u, v));
            assert(g.board.vertices[u] is Empty);
        }
    }
}

#[verifier::rlimit(40)]
#[verifier::spinoff_prover]
proof fn lemma_settle_inv(g: Game, v: VertexId)
    requires
        g.inv(),
        legal(g, Action::PlaceSettlement(v)),
    ensures
        settle(g, v.0 as int).inv(),
{
    let p = acting(g);
    let pi = p.0 as int;
    let vi = v.0 as int;
    let g1 = put_settlement(g, p, vi);
    lemma_put_settlement_parts(g, p, vi);
    let mid = settle_mid(g, vi);
    match g.phase {
        Phase::SetupSettlement { player, round } => {
            let ph = Phase::SetupRoad { player, round, settlement_vertex: v.0 };
            let g1p = Game { phase: ph, ..g1 };
            lemma_fresh_settlement_has_no_road(g, vi);
            assert(roads_at_buildings(g1p)) by {
                assert forall|e: int| 0 <= e < 72 && (#[trigger] g1p.board.edges[e]) is Road implies !(
                g1p.board.vertices[EDGE_VERTICES[e][0] as int] is Empty) || !(
                g1p.board.vertices[EDGE_VERTICES[e][1] as int] is Empty) by {
                    assert(g.board.edges[e] is Road);
                    crate::topology::lemma_tables();
                }
            }
            assert(setup_progress(g1p));
            assert(g1p.inv());
            if round == 2 {
                let tiles = tiles_at(vi, 19);
                let gt = grant_tiles(g1, pi, tiles, tiles.len() as int);
                lemma_conserved_fits(g1);
                crate::transition::lemma_grant_tiles_frame(g1, pi, tiles, tiles.len() as int);
                lemma_grant_tiles_conserves(g1, pi, tiles, tiles.len() as int);
                let x = Game { phase: ph, ..gt };
                assert(setup_progress(x)) by {
                    assert forall|q: int| 0 <= q < 4 implies (#[trigger] x.players[q]).settlements_left
                        == g1p.players[q].settlements_left && x.players[q].roads_left == g1p.players[q].roads_left by {}
                }
                lemma_inv_cards_phase(g1p, x);
                assert(mid == x);
            } else {
                assert(mid == g1p);
            }
        },
        _ => {
            assert(g1.inv());
            lemma_pay_inv(g1, pi, SETTLEMENT_COST);
            lemma_inv_check_victory(pay_spec(g1, pi, SETTLEMENT_COST));
        },
    }
    lemma_inv_longest(mid);
    lemma_inv_check_victory(with_longest_roads(mid));
}


/// A road of `p` on an empty edge keeps the phase-free invariant, with one
/// road fewer in `p`'s supply.
proof fn lemma_put_road_parts(g: Game, p: PlayerId, e: int)
    requires
        inv_board(g),
        p.0 < 4,
        0 <= e < 72,
        g.board.edges[e] is Empty,
        g.players[p.0 as int].roads_left > 0,
    ensures
        inv_board(put_road(g, p, e)),
        put_road(g, p, e).phase == g.phase,
        put_road(g, p, e).current_player == g.current_player,
        put_road(g, p, e).turn_flags == g.turn_flags,
        forall|q: int|
            0 <= q < 4 ==> (#[trigger] put_road(g, p, e).players[q]).roads_left == g.players[q].roads_left - (if q
                == p.0 { 1int } else { 0int }) && put_road(g, p, e).players[q].settlements_left
                == g.players[q].settlements_left && put_road(g, p, e).players[q].resources == g.players[q].resources,
{
    let g1 = put_road(g, p, e);
    assert(g1.board.edges@ == g.board.edges@.update(e, Edge::Road(p)));
    assert(g1.board.vertices == g.board.vertices);
    assert(pieces_accounted(g1)) by {
        assert forall|q: int| 0 <= q < 4 implies {
            &&& settlements_on(g1.board.vertices@, PlayerId(q as u8), 54) + (#[trigger] g1.players[q]).settlements_left == 5
            &&& cities_on(g1.board.vertices@, PlayerId(q as u8), 54) + g1.players[q].cities_left == 4
            &&& roads_on(g1.board.edges@, PlayerId(q as u8), 72) + g1.players[q].roads_left == 15
        } by {
            lemma_road_count_update(g.board.edges@, e, Edge::Road(p), PlayerId(q as u8), 72);
        }
    }
    assert(resources_conserved(g1)) by {
        assert forall|r: int| 0 <= r < 5 implies g1.players[0].resources.0[r] + g1.players[1].resources.0[r]
            + g1.players[2].resources.0[r] + g1.players[3].resources.0[r] + #[trigger] g1.board.bank.0[r] == 19 by {
            assert(g.players[0].resources.0[r] + g.players[1].resources.0[r] + g.players[2].resources.0[r]
                + g.players[3].resources.0[r] + g.board.bank.0[r] == 19);
        }
    }
    assert(dev_cards_bounded(g1)) by {
        assert(g1.players[0].dev_cards == g.players[0].dev_cards);
        assert(g1.players[1].dev_cards == g.players[1].dev_cards);
        assert(g1.players[2].dev_cards == g.players[2].dev_cards);
        assert(g1.players[3].dev_cards == g.players[3].dev_cards);
        assert(g1.players[0].played_knights == g.players[0].played_knights);
        assert(g1.players[1].played_knights == g.players[1].played_knights);
        assert(g1.players[2].played_knights == g.players[2].played_knights);
        assert(g1.players[3].played_knights == g.players[3].played_knights);
    }
}

#[verifier::spinoff_prover]
#[verifier::rlimit(40)]
proof fn lemma_road_inv(g: Game, e: EdgeId)
    requires
        g.inv(),
        legal(g, Action::PlaceRoad(e)),
    ensures
        build_road(g, e.0 as int).inv(),
{
    let p = acting(g);
    let pi = p.0 as int;
    let ei = e.0 as int;
    let g1 = put_road(g, p, ei);
    lemma_put_road_parts(g, p, ei);
    let mid = build_road_mid(g, ei);
    match g.phase {
        Phase::SetupRoad { player, round, .. } => {
            assert(mid == setup_after_road(g1, player, round));
            assert(setup_progress(mid));
            assert(inv_board(mid));
            assert(phase_wf(mid.phase));
            assert(discard_progress(mid));
            lemma_inv_split(mid);
        },
        Phase::RoadBuilding { roads_left } => {
            let ph = if roads_left <= 1 || !has_road_spot(g1.board, p) {
                Phase::Main
            } else {
                Phase::RoadBuilding { roads_left: (roads_left - 1) as u8 }
            };
            let g2 = Game { phase: ph, ..g1 };
            assert(g2.inv());
            lemma_inv_check_victory(g2);
        },
        _ => {
            assert(g1.inv());
            lemma_pay_inv(g1, pi, ROAD_COST);
            lemma_inv_check_victory(pay_spec(g1, pi, ROAD_COST));
        },
    }
    lemma_inv_longest(mid);
    lemma_inv_check_victory(with_longest_roads(mid));
}


// ---------------------------------------------------------------------------
// Dice
// ---------------------------------------------------------------------------

/// Production moves cards from the bank to builders and keeps every
/// resource's total.
pub proof fn lemma_produce_conserves(g: Game, roll: u8, n: int)
    requires
        resources_conserved(g),
        owners_valid(g),
        0 <= n <= 114,
    ensures
        resources_conserved(produce(g, roll, n)),
        produce(g, roll, n) == (Game {
            players: produce(g, roll, n).players,
            board: Board { bank: produce(g, roll, n).board.bank, ..g.board },
            ..g
        }),
        forall|q: int|
            0 <= q < 4 ==> (#[trigger] produce(g, roll, n).players[q]) == (Player {
                resources: produce(g, roll, n).players[q].resources,
                ..g.players[q]
            }),
    decreases n,
{
    if n > 0 {
        lemma_produce_conserves(g, roll, n - 1);
        let g0 = produce(g, roll, n - 1);
        let t = (n - 1) / 6;
        let c = (n - 1) % 6;
        crate::topology::lemma_tables();
        assert(owners_valid(g0));
        let tile = g0.board.tiles[t];
        if tile.number == roll && g0.board.robber != TileId(t as u8) {
            match tile.terrain.spec_resource() {
                Some(r) => {
                    let ri = r.spec_idx();
                    match g0.board.vertices[TILE_VERTICES[t][c] as int] {
                        Vertex::Settlement(p) => {
                            lemma_bank_moves_conserve(g0, p.0 as int, ri, min_int(1, g0.board.bank.0[ri] as int));
                        },
                        Vertex::City(p) => {
                            lemma_bank_moves_conserve(g0, p.0 as int, ri, min_int(2, g0.board.bank.0[ri] as int));
                        },
                        Vertex::Empty => {},
                    }
                },
                None => {},
            }
        }
    }
}

/// How many cards of resource `r` there are in all: in the four hands and
/// in the bank.
pub open spec fn resource_total(g: Game, r: int) -> int {
    g.players[0].resources.0[r] + g.players[1].resources.0[r] + g.players[2].resources.0[r]
        + g.players[3].resources.0[r] + g.board.bank.0[r]
}

/// The total count of cards is the sum of the per-resource totals.
proof fn lemma_card_count_totals(g: Game)
    ensures
        card_count(g) == resource_total(g, 0) + resource_total(g, 1) + resource_total(g, 2) + resource_total(g, 3)
            + resource_total(g, 4),
{
}

/// Moving `n` cards of resource `r` from the bank to seat `p` keeps how
/// many cards of each resource there are, as long as the seat's count stays
/// within a byte.
proof fn lemma_bank_moves_keep_totals(g: Game, p: int, r: int, n: int)
    requires
        0 <= p < 4,
        0 <= r < 5,
        0 <= n <= g.board.bank.0[r],
        g.players[p].resources.0[r] + n <= 255,
    ensures
        forall|s: int| 0 <= s < 5 ==> #[trigger] resource_total(bank_to_player(g, p, r, n), s) == resource_total(g, s),
        bank_to_player(g, p, r, n) == (Game {
            players: bank_to_player(g, p, r, n).players,
            board: Board { bank: bank_to_player(g, p, r, n).board.bank, ..g.board },
            ..g
        }),
{
    let g2 = bank_to_player(g, p, r, n);
    assert forall|s: int| 0 <= s < 5 implies #[trigger] resource_total(g2, s) == resource_total(g, s) by {
        assert forall|q: int| 0 <= q < 4 implies (#[trigger] g2.players[q]).resources.0[s] == g.players[q].resources.0[s]
            + (if q == p && s == r { n } else { 0 }) by {}
    }
}

/// One corner's production keeps how many cards of each resource there are.
#[verifier::spinoff_prover]
#[verifier::rlimit(40)]
proof fn lemma_produce_step_keeps_totals(g: Game, roll: u8, k: int)
    requires
        owners_valid(g),
        forall|s: int| 0 <= s < 5 ==> #[trigger] resource_total(g, s) <= 255,
        0 <= k < 114,
    ensures
        forall|s: int| 0 <= s < 5 ==> #[trigger] resource_total(produce_step(g, roll, k), s) == resource_total(g, s),
        produce_step(g, roll, k) == (Game {
            players: produce_step(g, roll, k).players,
            board: Board { bank: produce_step(g, roll, k).board.bank, ..g.board },
            ..g
        }),
{
    let t = k / 6;
    let c = k % 6;
    crate::topology::lemma_tables();
    let tile = g.board.tiles[t];
    if tile.number == roll && g.board.robber != TileId(t as u8) {
        match tile.terrain.spec_resource() {
            Some(r) => {
                let ri = r.spec_idx();
                match g.board.vertices[TILE_VERTICES[t][c] as int] {
                    Vertex::Settlement(p) => {
                        assert(resource_total(g, ri) <= 255);
                        lemma_bank_moves_keep_totals(g, p.0 as int, ri, min_int(1, g.board.bank.0[ri] as int));
                    },
                    Vertex::City(p) => {
                        assert(resource_total(g, ri) <= 255);
                        lemma_bank_moves_keep_totals(g, p.0 as int, ri, min_int(2, g.board.bank.0[ri] as int));
                    },
                    Vertex::Empty => {},
                }
            },
            None => {},
        }
    }
}

/// Production moves cards from the bank to the builders and keeps how many
/// cards of each resource there are, whatever that number is.
pub proof fn lemma_produce_keeps_totals(g: Game, roll: u8, n: int)
    requires
        owners_valid(g),
        forall|s: int| 0 <= s < 5 ==> #[trigger] resource_total(g, s) <= 255,
        0 <= n <= 114,
    ensures
        forall|s: int| 0 <= s < 5 ==> #[trigger] resource_total(produce(g, roll, n), s) == resource_total(g, s),
        produce(g, roll, n) == (Game {
            players: produce(g, roll, n).players,
            board: Board { bank: produce(g, roll, n).board.bank, ..g.board },
            ..g
        }),
    decreases n,
{
    if n > 0 {
        lemma_produce_keeps_totals(g, roll, n - 1);
        let g0 = produce(g, roll, n - 1);
        assert(owners_valid(g0));
        lemma_produce_step_keeps_totals(g0, roll, n - 1);
    }
}

/// Rolling the dice keeps how many cards of each resource there are, in any
/// state whose cards fit in a byte.
pub proof fn lemma_resolve_keeps_totals(g: Game, roll: u8)
    requires
        owners_valid(g),
        card_count(g) <= 255,
    ensures
        forall|s: int| 0 <= s < 5 ==> #[trigger] resource_total(resolve_spec(g, roll), s) == resource_total(g, s),
{
    let g1 = Game { turn_flags: TurnFlags { has_rolled: true, ..g.turn_flags }, ..g };
    let f = resolve_spec(g, roll);
    lemma_card_count_totals(g);
    if roll != 7 {
        lemma_produce_keeps_totals(g1, roll, 114);
        let x = produce(g1, roll, 114);
        assert forall|s: int| 0 <= s < 5 implies #[trigger] resource_total(f, s) == resource_total(g, s) by {
            assert(f.players == x.players && f.board == x.board);
            assert(resource_total(x, s) == resource_total(g1, s));
        }
    } else {
        assert forall|s: int| 0 <= s < 5 implies #[trigger] resource_total(f, s) == resource_total(g, s) by {
            assert(f.players == g.players && f.board == g.board);
        }
    }
}

/// Resolving the dice keeps the invariant.
#[verifier::spinoff_prover]
#[verifier::rlimit(40)]
pub proof fn lemma_resolve_keeps_inv(g: Game, roll: u8)
    requires
        g.inv(),
    ensures
        resolve_spec(g, roll).inv(),
{
    let g1 = Game { turn_flags: TurnFlags { has_rolled: true, ..g.turn_flags }, ..g };
    assert(inv_board(g1));
    if roll == 7 {
        let x = Game { phase: seven_phase(g1), ..g1 };
        assert(inv_board(x));
        assert(discard_progress(x));
        lemma_inv_split(x);
    } else {
        let gp = produce(g1, roll, 114);
        lemma_produce_conserves(g1, roll, 114);
        let x = Game { phase: Phase::Main, ..gp };
        assert(x == (Game {
            players: x.players,
            board: Board { bank: x.board.bank, ..g.board },
            phase: x.phase,
            turn_flags: x.turn_flags,
            ..g
        }));
        lemma_conserved_hands(x);
        assert(pieces_accounted(x)) by {
            assert forall|p: int| 0 <= p < 4 implies {
                &&& settlements_on(x.board.vertices@, PlayerId(p as u8), 54) + (#[trigger] x.players[p]).settlements_left == 5
                &&& cities_on(x.board.vertices@, PlayerId(p as u8), 54) + x.players[p].cities_left == 4
                &&& roads_on(x.board.edges@, PlayerId(p as u8), 72) + x.players[p].roads_left == 15
            } by {
                assert(g1.players[p].settlements_left == x.players[p].settlements_left);
            }
        }
        assert(dev_cards_bounded(x)) by {
            assert(x.players[0].dev_cards == g.players[0].dev_cards);
            assert(x.players[1].dev_cards == g.players[1].dev_cards);
            assert(x.players[2].dev_cards == g.players[2].dev_cards);
            assert(x.players[3].dev_cards == g.players[3].dev_cards);
            assert(x.players[0].played_knights == g.players[0].played_knights);
            assert(x.players[1].played_knights == g.players[1].played_knights);
            assert(x.players[2].played_knights == g.players[2].played_knights);
            assert(x.players[3].played_knights == g.players[3].played_knights);
            assert(x.players[g.current_player.0 as int].dev_cards == g.players[g.current_player.0 as int].dev_cards);
        }
        assert(inv_board(x));
        lemma_inv_split(x);
    }
}

// ---------------------------------------------------------------------------
// The invariant
// ---------------------------------------------------------------------------

/// Every move the rules accept keeps the invariant: resources are conserved,
/// the pieces on the board and in supply add up, no two buildings are
/// adjacent, and so on (see `Game::inv`).
pub proof fn lemma_apply_keeps_inv(g: Game, a: Action, pick: int)
    requires
        g.inv(),
        action_wf(a),
        accepts(g, a),
        pick_range(g, a, pick),
    ensures
        apply_spec(g, a, pick).inv(),
{
    match a {
        Action::PlayYearOfPlenty(r1, r2) => {
            crate::action::lemma_index_roundtrip(crate::action::action_index(a));
            lemma_year_of_plenty_inv(g, r1, r2);
        },
        _ => {
            crate::transition::lemma_accepts(g, a);
            match a {
                Action::PlaceSettlement(v) => lemma_settle_inv(g, v),
                Action::PlaceRoad(e) => lemma_road_inv(g, e),
                Action::BuildCity(v) => lemma_city_inv(g, v),
                Action::BuyDevelopmentCard => lemma_buy_inv(g),
                Action::PlayKnight => lemma_knight_inv(g),
                Action::PlayRoadBuilding => lemma_road_building_card_inv(g),
                Action::PlayMonopoly(r) => lemma_monopoly_inv(g, r),
                Action::RollDice => lemma_inv_phase_only(g, Phase::ChanceRoll),
                Action::MoveRobber(t) => lemma_move_robber_inv(g, t),
                Action::StealFrom(t) => lemma_steal_inv(g, t, pick),
                Action::StealFromNone => lemma_inv_phase_only(g, after_robber(g)),
                Action::DiscardResource(r) => lemma_discard_inv(g, r),
                Action::BankTrade { give, receive } => lemma_trade_inv(g, give, receive),
                Action::EndTurn => lemma_end_turn_inv(g),
                _ => {},
            }
        },
    }
}


// ---------------------------------------------------------------------------
// Awards and victory
// ---------------------------------------------------------------------------

/// The award goes to a seat whose value beats the floor and every earlier
/// seat's, and that no later seat exceeds.
pub proof fn lemma_award_scan(vals: Seq<u8>, floor: int, n: int)
    requires
        0 <= n <= vals.len(),
        n <= 255,
    ensures
        award_scan(vals, floor, n).0 >= floor,
        forall|i: int| 0 <= i < n ==> vals[i] <= #[trigger] award_scan(vals, floor, n).0,
        award_scan(vals, floor, n).1 matches Some(w) ==> {
            &&& 0 <= w.0 < n
            &&& vals[w.0 as int] == award_scan(vals, floor, n).0
            &&& vals[w.0 as int] > floor
            &&& forall|i: int| 0 <= i < w.0 ==> #[trigger] vals[i] < vals[w.0 as int]
        },
        award_scan(vals, floor, n).1 is None ==> award_scan(vals, floor, n).0 == floor,
    decreases n,
{
    if n > 0 {
        lemma_award_scan(vals, floor, n - 1);
    }
}

/// The longest road belongs to a seat with a road of at least five
/// segments, at least as long as every other seat's and longer than those
/// of the seats before it; with no road of five or more nobody holds it.
pub proof fn lemma_longest_road_award(g: Game)
    ensures
        lr_owner(g) matches Some(w) ==> {
            &&& w.0 < 4
            &&& g.longest_road_len[w.0 as int] >= 5
            &&& forall|i: int| 0 <= i < 4 ==> #[trigger] g.longest_road_len[i] <= g.longest_road_len[w.0 as int]
            &&& forall|i: int| 0 <= i < w.0 ==> #[trigger] g.longest_road_len[i] < g.longest_road_len[w.0 as int]
        },
        (forall|i: int| 0 <= i < 4 ==> #[trigger] g.longest_road_len[i] < 5) ==> lr_owner(g) is None,
{
    lemma_award_scan(g.longest_road_len@, 4, 4);
    if lr_owner(g) is Some {
        let w = lr_owner(g)->0;
        assert forall|i: int| 0 <= i < 4 implies #[trigger] g.longest_road_len[i] <= g.longest_road_len[w.0 as int] by {
            assert(g.longest_road_len@[i] <= award_scan(g.longest_road_len@, 4, 4).0);
        }
    }
}

/// The largest army belongs to a seat with at least three knights played,
/// at least as many as every other seat and more than the seats before it;
/// with no seat at three or more nobody holds it.
pub proof fn lemma_largest_army_award(g: Game)
    ensures
        la_owner(g) matches Some(w) ==> {
            &&& w.0 < 4
            &&& g.players[w.0 as int].played_knights >= 3
            &&& forall|i: int| 0 <= i < 4 ==> (#[trigger] g.players[i]).played_knights <= g.players[w.0 as int].played_knights
            &&& forall|i: int| 0 <= i < w.0 ==> (#[trigger] g.players[i]).played_knights < g.players[w.0 as int].played_knights
        },
        (forall|i: int| 0 <= i < 4 ==> (#[trigger] g.players[i]).played_knights < 3) ==> la_owner(g) is None,
{
    let k = knights_played(g);
    lemma_award_scan(k, 2, 4);
    assert forall|i: int| 0 <= i < 4 implies k[i] == (#[trigger] g.players[i]).played_knights by {}
    if la_owner(g) is Some {
        let w = la_owner(g)->0;
        assert forall|i: int| 0 <= i < 4 implies (#[trigger] g.players[i]).played_knights <= g.players[w.0 as int].played_knights by {
            assert(k[i] <= award_scan(k, 2, 4).0);
        }
    }
}

proof fn lemma_first_winner_spec(g: Game, n: int)
    requires
        0 <= n <= 4,
    ensures
        first_winner(g, n) matches Some(w) ==> w.0 < n && victory_points_of(g, w) >= 10 && forall|i: int|
            0 <= i < w.0 ==> #[trigger] victory_points_of(g, PlayerId(i as u8)) < 10,
        first_winner(g, n) is None ==> forall|i: int|
            0 <= i < n ==> #[trigger] victory_points_of(g, PlayerId(i as u8)) < 10,
    decreases n,
{
    if n > 0 {
        lemma_first_winner_spec(g, n - 1);
    }
}

/// Looking for a winner ends a running game exactly when some seat has ten
/// victory points, in favor of the first such seat, and changes nothing
/// else.
pub proof fn lemma_victory_check(g: Game)
    requires
        !(g.phase is GameOver),
    ensures
        check_victory_spec(g) == (Game { phase: check_victory_spec(g).phase, ..g }),
        (check_victory_spec(g).phase is GameOver) <==> exists|i: int|
            0 <= i < 4 && #[trigger] victory_points_of(g, PlayerId(i as u8)) >= 10,
        check_victory_spec(g).phase matches Phase::GameOver { winner } ==> {
            &&& winner.0 < 4
            &&& victory_points_of(g, winner) >= 10
            &&& forall|i: int| 0 <= i < winner.0 ==> #[trigger] victory_points_of(g, PlayerId(i as u8)) < 10
        },
        !(check_victory_spec(g).phase is GameOver) ==> check_victory_spec(g) == g,
{
    reveal(check_victory_spec);
    lemma_first_winner_spec(g, 4);
    if first_winner(g, 4) is Some {
        let w = first_winner(g, 4)->0;
        assert(victory_points_of(g, PlayerId(w.0 as u8)) >= 10);
    }
}

// ---------------------------------------------------------------------------
// Single moves
// ---------------------------------------------------------------------------

/// Every action the mask lists is well formed and accepted.
pub proof fn lemma_listed_accepted(g: Game, i: int)
    requires
        0 <= i < 254,
        legal(g, action_at(i)),
    ensures
        action_wf(action_at(i)),
        accepts(g, action_at(i)),
{
    crate::action::lemma_index_roundtrip(i);
}

/// Handing one card from one seat to another changes those two counts and
/// nothing else.
proof fn lemma_hand_over_counts(g: Game, from: int, to: int, r: int)
    requires
        0 <= from < 4,
        0 <= to < 4,
        from != to,
        0 <= r < 5,
        g.players[from].resources.0[r] > 0,
        g.players[to].resources.0[r] < 255,
    ensures
        ({
            let g2 = hand_over(g, from, to, r);
            &&& bank_total(g2.players[from].resources) == bank_total(g.players[from].resources) - 1
            &&& bank_total(g2.players[to].resources) == bank_total(g.players[to].resources) + 1
            &&& g2.players[from].resources.0[r] == g.players[from].resources.0[r] - 1
            &&& g2.players[to].resources.0[r] == g.players[to].resources.0[r] + 1
            &&& g2.board == g.board
            &&& forall|q: int| 0 <= q < 4 && q != from && q != to ==> #[trigger] g2.players[q] == g.players[q]
        }),
{
}

/// A steal from another seat moves exactly one card, of a kind the target
/// holds, from the target to the thief; nothing else changes but the phase.
pub proof fn lemma_steal_moves_one(g: Game, t: PlayerId, pick: int)
    requires
        g.inv(),
        legal(g, Action::StealFrom(t)),
        acting(g) != t,
        pick_range(g, Action::StealFrom(t), pick),
    ensures
        ({
            let g2 = apply_spec(g, Action::StealFrom(t), pick);
            let p = acting(g).0 as int;
            let ti = t.0 as int;
            let r = stolen_resource(g.players[ti].resources, pick);
            &&& 0 <= r < 5
            &&& g.players[ti].resources.0[r] > 0
            &&& bank_total(g2.players[ti].resources) == bank_total(g.players[ti].resources) - 1
            &&& bank_total(g2.players[p].resources) == bank_total(g.players[p].resources) + 1
            &&& g2.players[ti].resources.0[r] == g.players[ti].resources.0[r] - 1
            &&& g2.players[p].resources.0[r] == g.players[p].resources.0[r] + 1
            &&& g2.board == g.board
            &&& forall|q: int| 0 <= q < 4 && q != p && q != ti ==> #[trigger] g2.players[q] == g.players[q]
        }),
{
    let p = acting(g).0 as int;
    let ti = t.0 as int;
    let hand = g.players[ti].resources;
    lemma_stolen_held(hand, pick);
    let r = stolen_resource(hand, pick);
    lemma_conserved_fits(g);
    assert(g.players[p].resources.0[r] + g.board.bank.0[r] <= 19);
    lemma_hand_over_counts(g, ti, p, r);
    let g1 = hand_over(g, ti, p, r);
    assert(apply_spec(g, Action::StealFrom(t), pick) == (Game { phase: after_robber(g), ..g1 }));
}

/// A player stops discarding exactly at their target: while they are still
/// the one to discard they hold more than it, and when their turn to discard
/// ends they hold exactly it.
pub proof fn lemma_discard_stops_at_target(g: Game, res: Resource)
    requires
        g.inv(),
        legal(g, Action::DiscardResource(res)),
    ensures
        g.phase matches Phase::Discard { remaining, targets, active } ==> {
            let g2 = apply_spec(g, Action::DiscardResource(res), 0);
            let ai = active.0 as int;
            &&& bank_total(g2.players[ai].resources) == bank_total(g.players[ai].resources) - 1
            &&& bank_total(g2.players[ai].resources) >= targets[ai]
            &&& (g2.phase == g.phase) == (bank_total(g2.players[ai].resources) > targets[ai])
        },
{
    match g.phase {
        Phase::Discard { remaining, targets, active } => {
            let ai = active.0 as int;
            let g1 = player_to_bank(g, ai, res.spec_idx(), 1);
            lemma_to_bank_conserves(g, ai, res.spec_idx(), 1);
            assert(bank_total(g1.players[ai].resources) == bank_total(g.players[ai].resources) - 1);
            let g2 = apply_spec(g, Action::DiscardResource(res), 0);
            if bank_total(g1.players[ai].resources) <= targets[ai] {
                let rem = vstd::array::spec_array_update(remaining, ai, false);
                assert(!rem[ai]);
                match first_set(rem) {
                    Some(n) => {
                        assert(rem[n as int]);
                    },
                    None => {},
                }
            }
        },
        _ => {},
    }
}


/// After every road, settlement or city the longest roads are those of the
/// new board.
pub proof fn lemma_builds_recompute_roads(g: Game, a: Action, pick: int)
    requires
        a is PlaceRoad || a is PlaceSettlement || a is BuildCity,
    ensures
        forall|i: int|
            0 <= i < 4 ==> #[trigger] apply_spec(g, a, pick).longest_road_len[i] == longest_road(
                apply_spec(g, a, pick).board,
                PlayerId(i as u8),
            ),
{
    let mid = match a {
        Action::PlaceSettlement(v) => settle_mid(g, v.0 as int),
        Action::PlaceRoad(e) => build_road_mid(g, e.0 as int),
        Action::BuildCity(v) => put_city(pay_spec(g, acting(g).0 as int, CITY_COST), acting(g), v.0 as int),
        _ => g,
    };
    let w = with_longest_roads(mid);
    lemma_longest_roads_frame(mid);
    crate::transition::lemma_check_victory_frame(w);
    reveal(with_longest_roads);
    assert forall|i: int| 0 <= i < 4 implies #[trigger] w.longest_road_len[i] == longest_road(w.board, PlayerId(i as u8)) by {
        crate::longest_road::lemma_longest_bounds(mid.board, PlayerId(i as u8), 72);
    }
}

/// A running game that waits for a player always offers at least one legal
/// action, setup included.
pub proof fn lemma_some_action_legal(g: Game)
    requires
        g.inv(),
        !(g.phase is GameOver),
        !(g.phase is ChanceRoll),
    ensures
        exists|i: int| 0 <= i < 254 && #[trigger] legal(g, action_at(i)),
{
    match g.phase {
        Phase::SetupSettlement { .. } => {
            lemma_setup_room(g);
            let v = choose|v: int| 0 <= v < 54 && #[trigger] placement_valid(g.board, v);
            assert(legal(g, action_at(v)));
        },
        Phase::SetupRoad { settlement_vertex, .. } => {
            let sv = settlement_vertex as int;
            lemma_vertex_has_edge(sv);
            let e = edge_of_vertex()[sv] as int;
            assert(legal(g, action_at(54 + e)));
        },
        Phase::PreRoll => {
            assert(legal(g, action_at(203)));
        },
        Phase::Main => {
            assert(legal(g, action_at(253)));
        },
        Phase::Discard { remaining, targets, active } => {
            let hand = g.players[active.0 as int].resources;
            assert(bank_total(hand) > 0);
            let r: int = if hand.0[0] > 0 {
                0
            } else if hand.0[1] > 0 {
                1
            } else if hand.0[2] > 0 {
                2
            } else if hand.0[3] > 0 {
                3
            } else {
                4
            };
            assert(action_at(228 + r) == Action::DiscardResource(Resource::from_spec_idx(r)));
            assert(legal(g, action_at(228 + r)));
        },
        Phase::MoveRobber => {
            let t: int = if g.board.robber.0 == 0 { 1 } else { 0 };
            assert(legal(g, action_at(204 + t)));
        },
        Phase::Steal { candidates } => {
            if exists|j: int| 0 <= j < 4 && #[trigger] stealable(g, candidates, j) {
                let j = choose|j: int| 0 <= j < 4 && #[trigger] stealable(g, candidates, j);
                assert(legal(g, action_at(223 + j)));
            } else {
                assert(legal(g, action_at(227)));
            }
        },
        Phase::RoadBuilding { roads_left } => {
            reveal(has_road_spot);
            let e = choose|e: int| 0 <= e < 72 && #[trigger] road_legal(g.board, g.current_player, e);
            assert(legal(g, action_at(54 + e)));
        },
        _ => {},
    }
}


/// The dice never leave the game waiting for them: a roll opens the main
/// phase, the discards or the robber.
pub proof fn lemma_resolve_leaves_chance(g: Game, roll: u8)
    ensures
        !(resolve_spec(g, roll).phase is ChanceRoll),
{
    let g1 = Game { turn_flags: TurnFlags { has_rolled: true, ..g.turn_flags }, ..g };
    match first_set(
        [
            bank_total(g1.players[0].resources) > 7,
            bank_total(g1.players[1].resources) > 7,
            bank_total(g1.players[2].resources) > 7,
            bank_total(g1.players[3].resources) > 7,
        ],
    ) {
        _ => {},
    }
}


/// Roads placed with a road-building card are free: no hand and not the
/// bank changes.
pub proof fn lemma_free_roads(g: Game, e: EdgeId, pick: int)
    requires
        g.phase is RoadBuilding,
        g.current_player.0 < 4,
    ensures
        forall|i: int|
            0 <= i < 4 ==> (#[trigger] apply_spec(g, Action::PlaceRoad(e), pick).players[i]).resources
                == g.players[i].resources,
        apply_spec(g, Action::PlaceRoad(e), pick).board.bank == g.board.bank,
{
    let p = acting(g);
    let g1 = put_road(g, p, e.0 as int);
    assert forall|i: int| 0 <= i < 4 implies (#[trigger] g1.players[i]).resources == g.players[i].resources by {}
    let roads_left = g.phase->RoadBuilding_roads_left;
    let ph = if roads_left <= 1 || !has_road_spot(g1.board, p) {
        Phase::Main
    } else {
        Phase::RoadBuilding { roads_left: (roads_left - 1) as u8 }
    };
    let g2 = Game { phase: ph, ..g1 };
    crate::transition::lemma_check_victory_frame(g2);
    let mid = build_road_mid(g, e.0 as int);
    assert(mid == check_victory_spec(g2));
    lemma_longest_roads_frame(mid);
    crate::transition::lemma_check_victory_frame(with_longest_roads(mid));
}

/// Once a development card is played, no other card can be played in the
/// same turn.
pub proof fn lemma_one_card_per_turn(g: Game, a: Action, pick: int)
    requires
        a is PlayKnight || a is PlayRoadBuilding || a is PlayYearOfPlenty || a is PlayMonopoly,
    ensures
        forall|c: DevelopmentCard| !#[trigger] can_play(apply_spec(g, a, pick), c),
{
    let pi = acting(g).0 as int;
    match a {
        Action::PlayKnight => {
            let g1 = play_card(g, pi, DevelopmentCard::Knight);
            let pl = g1.players[pi];
            let g2 = set_player(g1, pi, Player { played_knights: (pl.played_knights + 1) as u8, ..pl });
            crate::transition::lemma_check_victory_frame(g2);
        },
        Action::PlayYearOfPlenty(r1, r2) => {
            let g1 = play_card(g, pi, DevelopmentCard::YearOfPlenty);
            let n1 = min_int(1, g1.board.bank.0[r1.spec_idx()] as int);
            let g2 = bank_to_player(g1, pi, r1.spec_idx(), n1);
            let n2 = min_int(1, g2.board.bank.0[r2.spec_idx()] as int);
            assert(bank_to_player(g2, pi, r2.spec_idx(), n2).turn_flags == g1.turn_flags);
        },
        _ => {},
    }
}

/// Buying a card does not change which cards can be played this turn: the
/// new card counts as bought and stays unplayable until a later turn.
#[verifier::spinoff_prover]
pub proof fn lemma_bought_card_waits(g: Game)
    requires
        g.inv(),
        g.phase is Main,
    ensures
        forall|c: DevelopmentCard|
            #[trigger] can_play(apply_spec(g, Action::BuyDevelopmentCard, 0), c) == can_play(g, c),
{
    let pi = g.current_player.0 as int;
    let g3 = check_victory_spec(draw_card(pay_spec(g, pi, DEV_CARD_COST), pi));
    lemma_buy_keeps_playable(g);
    assert(apply_spec(g, Action::BuyDevelopmentCard, 0) == g3);
}

#[verifier::spinoff_prover]
proof fn lemma_buy_keeps_playable(g: Game)
    requires
        g.inv(),
    ensures
        forall|c: DevelopmentCard|
            #[trigger] can_play(
                check_victory_spec(draw_card(pay_spec(g, g.current_player.0 as int, DEV_CARD_COST), g.current_player.0 as int)),
                c,
            ) == can_play(g, c),
{
    let pi = g.current_player.0 as int;
    let g1 = pay_spec(g, pi, DEV_CARD_COST);
    assert(g1.players[pi].dev_cards == g.players[pi].dev_cards);
    assert(g1.turn_flags == g.turn_flags && g1.current_player == g.current_player);
    let g2 = draw_card(g1, pi);
    let g3 = check_victory_spec(g2);
    crate::transition::lemma_check_victory_frame(g2);
    let d = g1.board.dev_card_deck.cards().last();
    lemma_inv_bounded(g);
    crate::transition::lemma_dev_count_bounds(g);
    assert(hand_total(g.turn_flags.dev_cards_bought) <= 100);
    assert forall|c: DevelopmentCard| #[trigger] can_play(g3, c) == can_play(g, c) by {
        let k = c.spec_idx();
        assert(g.players[pi].dev_cards.0[k] <= 100);
        assert(g.turn_flags.dev_cards_bought.0[k] <= 100);
        assert(g3.players[pi].dev_cards == g2.players[pi].dev_cards);
        assert(g3.turn_flags == g2.turn_flags);
        if k == d.spec_idx() {
            assert(g2.players[pi].dev_cards.0[k] == g.players[pi].dev_cards.0[k] + 1);
            assert(g2.turn_flags.dev_cards_bought.0[k] == g.turn_flags.dev_cards_bought.0[k] + 1);
        } else {
            assert(g2.players[pi].dev_cards.0[k] == g.players[pi].dev_cards.0[k]);
            assert(g2.turn_flags.dev_cards_bought.0[k] == g.turn_flags.dev_cards_bought.0[k]);
        }
    }
}

/// Ending a turn passes play clockwise, counts the turn, clears the turn's
/// flags and waits for the next roll, unless the game ends.
pub proof fn lemma_end_turn(g: Game)
    ensures
        ({
            let g2 = apply_spec(g, Action::EndTurn, 0);
            &&& g2.current_player.0 == (g.current_player.0 + 1) % 4
            &&& g2.turn_number == (g.turn_number + 1) as u16
            &&& !g2.turn_flags.dev_card_played
            &&& !g2.turn_flags.has_rolled
            &&& forall|c: int| 0 <= c < 5 ==> #[trigger] g2.turn_flags.dev_cards_bought.0[c] == 0
            &&& g2.phase is PreRoll || g2.phase is GameOver
            &&& g2.players == g.players
            &&& g2.board == g.board
        }),
{
    let g1 = Game {
        current_player: PlayerId(((g.current_player.0 + 1) % 4) as u8),
        turn_number: (g.turn_number + 1) as u16,
        turn_flags: fresh_flags(),
        phase: Phase::PreRoll,
        ..g
    };
    crate::transition::lemma_check_victory_frame(g1);
}

} // verus!
