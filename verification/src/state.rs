//! Functional updates of the game state used to state what each move does,
//! and the invariant every reachable state keeps.

use vstd::prelude::*;
use crate::board::{Board, Edge, Vertex};
use crate::game::{cities_on, roads_on, settlements_on, victory_points_of, Game, Phase};
use crate::player::Player;
use crate::resource::{bank_total, hand_total, ResourceBank};
use crate::rules::{has_road_spot, phase_wf};
use crate::topology::{adjacent, edge_touches, EDGE_VERTICES};
use crate::types::PlayerId;

verus! {

broadcast use {
    vstd::array::axiom_spec_array_update,
    vstd::array::axiom_array_ext_equal,
    vstd::array::array_len_matches_n,
};

pub open spec fn set_player(g: Game, i: int, p: Player) -> Game {
    Game { players: vstd::array::spec_array_update(g.players, i, p), ..g }
}

pub open spec fn set_board(g: Game, b: Board) -> Game {
    Game { board: b, ..g }
}

pub open spec fn set_bank(g: Game, bank: ResourceBank) -> Game {
    set_board(g, Board { bank, ..g.board })
}

pub open spec fn set_phase(g: Game, phase: Phase) -> Game {
    Game { phase, ..g }
}

pub open spec fn set_vertex(g: Game, v: int, x: Vertex) -> Game {
    set_board(g, Board { vertices: vstd::array::spec_array_update(g.board.vertices, v, x), ..g.board })
}

pub open spec fn set_edge(g: Game, e: int, x: Edge) -> Game {
    set_board(g, Board { edges: vstd::array::spec_array_update(g.board.edges, e, x), ..g.board })
}

/// `b` with count `i` set to `n`.
pub open spec fn set_count(b: ResourceBank, i: int, n: int) -> ResourceBank {
    ResourceBank(vstd::array::spec_array_update(b.0, i, n as u8))
}

/// Player `p` with their count of resource `r` set to `n`.
pub open spec fn set_player_res(g: Game, p: int, r: int, n: int) -> Game {
    set_player(g, p, Player { resources: set_count(g.players[p].resources, r, n), ..g.players[p] })
}

/// `n` of resource `r` move from the bank to player `p`.
pub open spec fn bank_to_player(g: Game, p: int, r: int, n: int) -> Game {
    let g1 = set_player_res(g, p, r, g.players[p].resources.0[r] + n);
    set_bank(g1, set_count(g1.board.bank, r, g1.board.bank.0[r] - n))
}

/// Every resource is either in a hand or in the bank, nineteen of each.
pub open spec fn resources_conserved(g: Game) -> bool {
    forall|r: int|
        0 <= r < 5 ==> g.players[0].resources.0[r] + g.players[1].resources.0[r]
            + g.players[2].resources.0[r] + g.players[3].resources.0[r] + #[trigger] g.board.bank.0[r]
            == 19
}

/// Each player's pieces are either on the board or in supply: five
/// settlements, four cities and fifteen roads.
pub open spec fn pieces_accounted(g: Game) -> bool {
    forall|p: int|
        0 <= p < 4 ==> {
            &&& settlements_on(g.board.vertices@, PlayerId(p as u8), 54) + (
            #[trigger] g.players[p]).settlements_left == 5
            &&& cities_on(g.board.vertices@, PlayerId(p as u8), 54) + g.players[p].cities_left == 4
            &&& roads_on(g.board.edges@, PlayerId(p as u8), 72) + g.players[p].roads_left == 15
        }
}

/// During setup every road touches a building.
pub open spec fn roads_at_buildings(g: Game) -> bool {
    forall|e: int|
        0 <= e < 72 && (#[trigger] g.board.edges[e]) is Road ==> !(g.board.vertices[EDGE_VERTICES[e][0] as int] is Empty)
            || !(g.board.vertices[EDGE_VERTICES[e][1] as int] is Empty)
}

/// During setup the pieces in supply follow the placement order P0..P3 in
/// round one and P3..P0 in round two, no city is built, no card has been
/// bought, and every road touches a building. While a player places the
/// road of a setup round, their new settlement stands with no road yet at
/// it.
pub open spec fn setup_progress(g: Game) -> bool {
    match g.phase {
        Phase::SetupSettlement { player, round } => {
            &&& forall|q: int|
                0 <= q < 4 ==> if round == 1 {
                    &&& (#[trigger] g.players[q]).settlements_left == if q < player.0 { 4u8 } else { 5u8 }
                    &&& g.players[q].roads_left == if q < player.0 { 14u8 } else { 15u8 }
                    &&& g.players[q].cities_left == 4
                } else {
                    &&& (#[trigger] g.players[q]).settlements_left == if q > player.0 { 3u8 } else { 4u8 }
                    &&& g.players[q].roads_left == if q > player.0 { 13u8 } else { 14u8 }
                    &&& g.players[q].cities_left == 4
                }
            &&& forall|c: int| 0 <= c < 5 ==> #[trigger] g.turn_flags.dev_cards_bought.0[c] == 0
            &&& roads_at_buildings(g)
        },
        Phase::SetupRoad { player, round, settlement_vertex } => {
            &&& forall|q: int|
                0 <= q < 4 ==> if round == 1 {
                    &&& (#[trigger] g.players[q]).settlements_left == if q <= player.0 { 4u8 } else { 5u8 }
                    &&& g.players[q].roads_left == if q < player.0 { 14u8 } else { 15u8 }
                    &&& g.players[q].cities_left == 4
                } else {
                    &&& (#[trigger] g.players[q]).settlements_left == if q >= player.0 { 3u8 } else { 4u8 }
                    &&& g.players[q].roads_left == if q > player.0 { 13u8 } else { 14u8 }
                    &&& g.players[q].cities_left == 4
                }
            &&& forall|c: int| 0 <= c < 5 ==> #[trigger] g.turn_flags.dev_cards_bought.0[c] == 0
            &&& roads_at_buildings(g)
            &&& g.board.vertices[settlement_vertex as int] == Vertex::Settlement(player)
            &&& forall|e: int| 0 <= e < 72 && #[trigger] edge_touches(e, settlement_vertex as int) ==> g.board.edges[e] is Empty
        },
        _ => true,
    }
}

/// The development cards in the deck, in hands and played as knights number
/// at most 25, and the current player holds every card bought this turn.
pub open spec fn dev_cards_bounded(g: Game) -> bool {
    &&& g.board.dev_card_deck.cards().len() + hand_total(g.players[0].dev_cards) + hand_total(
        g.players[1].dev_cards,
    ) + hand_total(g.players[2].dev_cards) + hand_total(g.players[3].dev_cards)
        + g.players[0].played_knights + g.players[1].played_knights + g.players[2].played_knights
        + g.players[3].played_knights <= 25
    &&& forall|c: int|
        0 <= c < 5 ==> #[trigger] g.turn_flags.dev_cards_bought.0[c] <= g.players[g.current_player.0 as int].dev_cards.0[c]
}

/// No two buildings stand on adjacent vertices.
pub open spec fn distance_rule(g: Game) -> bool {
    forall|u: int, v: int|
        0 <= u < 54 && 0 <= v < 54 && !(g.board.vertices[u] is Empty) && #[trigger] adjacent(u, v)
            ==> g.board.vertices[v] is Empty
}

/// While discarding, the active player still has to discard and every player
/// still to discard holds more than their target.
pub open spec fn discard_progress(g: Game) -> bool {
    match g.phase {
        Phase::Discard { remaining, targets, active } => {
            &&& remaining[active.0 as int]
            &&& forall|i: int|
                0 <= i < 4 && #[trigger] remaining[i] ==> bank_total(g.players[i].resources) > targets[i]
        },
        _ => true,
    }
}

/// Every building and every road belongs to one of the four seats.
pub open spec fn owners_valid(g: Game) -> bool {
    &&& forall|v: int|
        0 <= v < 54 ==> match #[trigger] g.board.vertices[v] {
            Vertex::Settlement(p) => p.0 < 4,
            Vertex::City(p) => p.0 < 4,
            Vertex::Empty => true,
        }
    &&& forall|e: int|
        0 <= e < 72 ==> match #[trigger] g.board.edges[e] {
            Edge::Road(p) => p.0 < 4,
            Edge::Empty => true,
        }
}

/// The resource cards in all hands and in the bank.
pub open spec fn card_count(g: Game) -> int {
    bank_total(g.players[0].resources) + bank_total(g.players[1].resources) + bank_total(
        g.players[2].resources,
    ) + bank_total(g.players[3].resources) + bank_total(g.board.bank)
}

/// The development cards in the deck, in hands and played as knights.
pub open spec fn dev_count(g: Game) -> int {
    g.board.dev_card_deck.cards().len() + hand_total(g.players[0].dev_cards) + hand_total(
        g.players[1].dev_cards,
    ) + hand_total(g.players[2].dev_cards) + hand_total(g.players[3].dev_cards)
        + g.players[0].played_knights + g.players[1].played_knights + g.players[2].played_knights
        + g.players[3].played_knights
}

/// The acting player of a setup phase still has the piece to place.
pub open spec fn setup_supply(g: Game) -> bool {
    match g.phase {
        Phase::SetupSettlement { player, .. } => g.players[player.0 as int].settlements_left > 0,
        Phase::SetupRoad { player, .. } => g.players[player.0 as int].roads_left > 0,
        _ => true,
    }
}

/// While the free roads of a road-building card are placed, the current
/// player has as many roads in supply as are still to place, and somewhere
/// legal to put the next one.
pub open spec fn road_building_ok(g: Game) -> bool {
    match g.phase {
        Phase::RoadBuilding { roads_left } => {
            &&& 1 <= roads_left <= g.players[g.current_player.0 as int].roads_left
            &&& has_road_spot(g.board, g.current_player)
        },
        _ => true,
    }
}

impl Game {
    /// The state is one the moves can be applied to without leaving the
    /// ranges of their byte counters. Every state reachable from a new game
    /// meets it, with 95 resource cards and 25 development cards in all
    /// (`lemma_inv_bounded`). Each bound is there for a count some move
    /// keeps in a byte:
    /// - ids in range, so that every lookup stays inside its table;
    /// - all resource cards together at most 255, so that a hand's total, a
    ///   monopoly gathering one resource from every hand, and any card moved
    ///   from the bank to a hand or from hand to hand stay within a byte;
    /// - at most 100 development cards, and at most 100 bought this turn, so
    ///   that drawing a card keeps both its hand count and its bought count
    ///   within a byte, and a score counting victory-point cards fits one;
    /// - fewer than 255 settlements in supply, so that a city can return one;
    /// - the acting player of a setup phase holding the piece to place.
    pub open spec fn bounded(self) -> bool {
        &&& self.basic_wf()
        &&& owners_valid(self)
        &&& card_count(self) <= 255
        &&& dev_count(self) <= 100
        &&& hand_total(self.turn_flags.dev_cards_bought) <= 100
        &&& forall|p: int| 0 <= p < 4 ==> (#[trigger] self.players[p]).settlements_left < 255
        &&& setup_supply(self)
    }

    /// The invariant of every state reachable from a new game.
    pub open spec fn inv(self) -> bool {
        &&& self.basic_wf()
        &&& owners_valid(self)
        &&& resources_conserved(self)
        &&& pieces_accounted(self)
        &&& setup_progress(self)
        &&& dev_cards_bounded(self)
        &&& distance_rule(self)
        &&& discard_progress(self)
        &&& road_building_ok(self)
    }
}

} // verus!
