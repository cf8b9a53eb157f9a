//! What each move does to the game, stated as functions from state to state.

use vstd::prelude::*;
use crate::action::{action_at, action_index, Action};
use crate::board::{Board, Edge, Vertex};
use crate::game::{acting, Game, Phase, TurnFlags};
use crate::longest_road::with_longest_roads;
use crate::player::{trade_rate_of, with_port, Player};
use crate::resource::{bank_total, DevCardHand, DevelopmentCard, Resource, ResourceBank};
use crate::rules::{has_road_spot, legal, CITY_COST, DEV_CARD_COST, ROAD_COST, SETTLEMENT_COST};
use crate::state::{bank_to_player, set_bank, set_board, set_count, set_phase, set_player, set_player_res, set_vertex, set_edge};
use crate::topology::{port_slot, tiles_at, TILE_VERTICES};
use crate::transition::{check_victory_spec, first_set, grant_tiles, min_int, pay_spec};
use crate::types::{PlayerId, TileId};

verus! {

/// The mask bit that `a` is checked against: the action listed at `a`'s
/// index (for a year of plenty naming the larger resource first, the same
/// pair in listed order).
pub open spec fn accepts(g: Game, a: Action) -> bool {
    legal(g, action_at(action_index(a)))
}

/// `p` puts a settlement on `v` from their supply and opens any harbor there.
pub open spec fn put_settlement(g: Game, p: PlayerId, v: int) -> Game {
    let g1 = set_vertex(g, v, Vertex::Settlement(p));
    let pl = g1.players[p.0 as int];
    let pl1 = Player { settlements_left: (pl.settlements_left - 1) as u8, ..pl };
    let pl2 = match port_slot(v, 9) {
        Some(s) => with_port(pl1, g.board.harbors[s as int]),
        None => pl1,
    };
    set_player(g1, p.0 as int, pl2)
}

/// `p` puts a road on `e` from their supply.
pub open spec fn put_road(g: Game, p: PlayerId, e: int) -> Game {
    let g1 = set_edge(g, e, Edge::Road(p));
    let pl = g1.players[p.0 as int];
    set_player(g1, p.0 as int, Player { roads_left: (pl.roads_left - 1) as u8, ..pl })
}

/// `p` turns their settlement on `v` into a city; the settlement goes back to
/// their supply.
pub open spec fn put_city(g: Game, p: PlayerId, v: int) -> Game {
    let g1 = set_vertex(g, v, Vertex::City(p));
    let pl = g1.players[p.0 as int];
    set_player(
        g1,
        p.0 as int,
        Player {
            cities_left: (pl.cities_left - 1) as u8,
            settlements_left: (pl.settlements_left + 1) as u8,
            ..pl
        },
    )
}

/// The setup phase after a road of `player` in `round`: round one runs
/// P0..P3, round two P3..P0.
pub open spec fn setup_after_road(g: Game, player: PlayerId, round: u8) -> Game {
    if round == 1 {
        if player.0 < 3 {
            set_phase(g, Phase::SetupSettlement { player: PlayerId((player.0 + 1) as u8), round: 1 })
        } else {
            set_phase(g, Phase::SetupSettlement { player, round: 2 })
        }
    } else if player.0 > 0 {
        set_phase(g, Phase::SetupSettlement { player: PlayerId((player.0 - 1) as u8), round: 2 })
    } else {
        Game { current_player: PlayerId(0), phase: Phase::PreRoll, ..g }
    }
}

/// `h` with one more card of kind `c`.
pub open spec fn hand_plus(h: DevCardHand, c: DevelopmentCard) -> DevCardHand {
    DevCardHand(vstd::array::spec_array_update(h.0, c.spec_idx(), (h.0[c.spec_idx()] + 1) as u8))
}

/// `h` with one card of kind `c` fewer, if it holds one.
pub open spec fn hand_minus(h: DevCardHand, c: DevelopmentCard) -> DevCardHand {
    if h.0[c.spec_idx()] > 0 {
        DevCardHand(vstd::array::spec_array_update(h.0, c.spec_idx(), (h.0[c.spec_idx()] - 1) as u8))
    } else {
        h
    }
}

/// Player `p` plays a card of kind `c`: it leaves their hand and no other
/// card may be played this turn.
pub open spec fn play_card(g: Game, p: int, c: DevelopmentCard) -> Game {
    let pl = g.players[p];
    let g1 = set_player(g, p, Player { dev_cards: hand_minus(pl.dev_cards, c), ..pl });
    Game { turn_flags: TurnFlags { dev_card_played: true, ..g1.turn_flags }, ..g1 }
}

/// Player `p` buys the top card of the deck (after paying for it).
pub open spec fn draw_card(g: Game, p: int) -> Game {
    let c = g.board.dev_card_deck.cards().last();
    let g1 = set_board(g, Board { dev_card_deck: g.board.dev_card_deck.drawn(), ..g.board });
    let pl = g1.players[p];
    let g2 = set_player(g1, p, Player { dev_cards: hand_plus(pl.dev_cards, c), ..pl });
    Game {
        turn_flags: TurnFlags {
            dev_cards_bought: hand_plus(g2.turn_flags.dev_cards_bought, c),
            ..g2.turn_flags
        },
        ..g2
    }
}

/// How many of resource `r` the players other than `p` hold.
pub open spec fn others_hold(g: Game, p: int, r: int) -> int {
    (if p == 0 { 0 } else { g.players[0].resources.0[r] as int })
        + (if p == 1 { 0 } else { g.players[1].resources.0[r] as int })
        + (if p == 2 { 0 } else { g.players[2].resources.0[r] as int })
        + (if p == 3 { 0 } else { g.players[3].resources.0[r] as int })
}

/// Seat `i`'s hand after `p` plays a monopoly on `r`.
pub open spec fn monopoly_hand(g: Game, p: int, r: int, i: int) -> Player {
    let pl = g.players[i];
    let n = if i == p { pl.resources.0[r] + others_hold(g, p, r) } else { 0 };
    Player { resources: set_count(pl.resources, r, n), ..pl }
}

/// Player `p` takes every card of resource `r` from the others.
pub open spec fn monopoly(g: Game, p: int, r: int) -> Game {
    Game {
        players: [
            monopoly_hand(g, p, r, 0),
            monopoly_hand(g, p, r, 1),
            monopoly_hand(g, p, r, 2),
            monopoly_hand(g, p, r, 3),
        ],
        ..g
    }
}

/// Seat `i` owns a building on one of the first `n` corners of tile `t`.
pub open spec fn owns_corner(g: Game, t: int, i: int, n: int) -> bool {
    exists|c: int|
        0 <= c < n && (#[trigger] g.board.vertices[TILE_VERTICES[t][c] as int]).spec_owner() == Some(
            PlayerId(i as u8),
        )
}

/// Seat `i` is a steal candidate when the robber comes to tile `t`: not the
/// mover `p`, holding cards, and owning a building at a corner of `t`.
pub open spec fn steal_candidate(g: Game, p: PlayerId, t: int, i: int) -> bool {
    &&& i != p.0
    &&& bank_total(g.players[i].resources) > 0
    &&& owns_corner(g, t, i, 6)
}

pub open spec fn steal_candidates(g: Game, p: PlayerId, t: int) -> [bool; 4] {
    [
        steal_candidate(g, p, t, 0),
        steal_candidate(g, p, t, 1),
        steal_candidate(g, p, t, 2),
        steal_candidate(g, p, t, 3),
    ]
}

/// The resource a steal takes from `hand` when the drawn position among its
/// cards, counted in resource order, is `pick`.
pub open spec fn stolen_resource(hand: ResourceBank, pick: int) -> int {
    if pick < hand.0[0] {
        0
    } else if pick < hand.0[0] + hand.0[1] {
        1
    } else if pick < hand.0[0] + hand.0[1] + hand.0[2] {
        2
    } else if pick < hand.0[0] + hand.0[1] + hand.0[2] + hand.0[3] {
        3
    } else {
        4
    }
}

/// Where play continues after the robber: the main phase if the dice were
/// rolled, else back before the roll.
pub open spec fn after_robber(g: Game) -> Phase {
    if g.turn_flags.has_rolled {
        Phase::Main
    } else {
        Phase::PreRoll
    }
}

/// One card of resource `r` goes from player `p` to the bank.
pub open spec fn player_to_bank(g: Game, p: int, r: int, n: int) -> Game {
    let g1 = set_player_res(g, p, r, g.players[p].resources.0[r] - n);
    set_bank(g1, set_count(g1.board.bank, r, g1.board.bank.0[r] + n))
}

/// Player `a` discards one card of resource `r`; once they are down to
/// their target the next player still to discard follows, then the robber.
pub open spec fn discard(g: Game, r: int) -> Game {
    match g.phase {
        Phase::Discard { remaining, targets, active } => {
            let ai = active.0 as int;
            let g1 = player_to_bank(g, ai, r, 1);
            if bank_total(g1.players[ai].resources) <= targets[ai] {
                let rem = vstd::array::spec_array_update(remaining, ai, false);
                set_phase(
                    g1,
                    match first_set(rem) {
                        None => Phase::MoveRobber,
                        Some(n) => Phase::Discard { remaining: rem, targets, active: PlayerId(n) },
                    },
                )
            } else {
                g1
            }
        },
        _ => g,
    }
}

/// Player `p` plays year of plenty: one card of `r1`, then one of `r2`,
/// each as far as the bank has it.
pub open spec fn yop_spec(g: Game, p: int, r1: Resource, r2: Resource) -> Game {
    let g1 = play_card(g, p, DevelopmentCard::YearOfPlenty);
    let g2 = bank_to_player(g1, p, r1.spec_idx(), min_int(1, g1.board.bank.0[r1.spec_idx()] as int));
    bank_to_player(g2, p, r2.spec_idx(), min_int(1, g2.board.bank.0[r2.spec_idx()] as int))
}

/// The turn flags at the start of a turn.
pub open spec fn fresh_flags() -> TurnFlags {
    TurnFlags { dev_card_played: false, has_rolled: false, dev_cards_bought: DevCardHand([0u8, 0u8, 0u8, 0u8, 0u8]) }
}

/// A settlement of the acting player on `v`, before the roads and the
/// victory are looked at again.
pub open spec fn settle_mid(g: Game, v: int) -> Game {
    let p = acting(g);
    let g1 = put_settlement(g, p, v);
    match g.phase {
        Phase::SetupSettlement { player, round } => set_phase(
            if round == 2 {
                grant_tiles(g1, p.0 as int, tiles_at(v, 19), tiles_at(v, 19).len() as int)
            } else {
                g1
            },
            Phase::SetupRoad { player, round, settlement_vertex: v as u8 },
        ),
        _ => check_victory_spec(pay_spec(g1, p.0 as int, SETTLEMENT_COST)),
    }
}

/// The outcome of a settlement of the acting player on `v`.
pub open spec fn settle(g: Game, v: int) -> Game {
    check_victory_spec(with_longest_roads(settle_mid(g, v)))
}

/// A road of the acting player on `e`, before the roads and the victory are
/// looked at again.
pub open spec fn build_road_mid(g: Game, e: int) -> Game {
    let p = acting(g);
    let g1 = put_road(g, p, e);
    match g.phase {
        Phase::SetupRoad { player, round, .. } => setup_after_road(g1, player, round),
        Phase::RoadBuilding { roads_left } => check_victory_spec(
            set_phase(
                g1,
                if roads_left <= 1 || !has_road_spot(g1.board, p) {
                    Phase::Main
                } else {
                    Phase::RoadBuilding { roads_left: (roads_left - 1) as u8 }
                },
            ),
        ),
        _ => check_victory_spec(pay_spec(g1, p.0 as int, ROAD_COST)),
    }
}

/// The outcome of a road of the acting player on `e`.
pub open spec fn build_road(g: Game, e: int) -> Game {
    check_victory_spec(with_longest_roads(build_road_mid(g, e)))
}

/// What action `a` does to `g`; `pick` is the position of the card a steal
/// draws among the target's cards.
///
/// A knight checks for a winner and then always opens the robber phase, so
/// a win the knight completes (by the largest army) is not declared by the
/// knight itself but by the next check, at the latest when the turn ends.
pub open spec fn apply_spec(g: Game, a: Action, pick: int) -> Game {
    let p = acting(g);
    let pi = p.0 as int;
    match a {
        Action::PlaceSettlement(v) => settle(g, v.0 as int),
        Action::PlaceRoad(e) => build_road(g, e.0 as int),
        Action::BuildCity(v) => check_victory_spec(
            with_longest_roads(put_city(pay_spec(g, pi, CITY_COST), p, v.0 as int)),
        ),
        Action::BuyDevelopmentCard => check_victory_spec(draw_card(pay_spec(g, pi, DEV_CARD_COST), pi)),
        Action::PlayKnight => {
            let g1 = play_card(g, pi, DevelopmentCard::Knight);
            let pl = g1.players[pi];
            let g2 = set_player(g1, pi, Player { played_knights: (pl.played_knights + 1) as u8, ..pl });
            set_phase(check_victory_spec(g2), Phase::MoveRobber)
        },
        Action::PlayRoadBuilding => {
            let g1 = play_card(g, pi, DevelopmentCard::RoadBuilding);
            let n = min_int(g1.players[pi].roads_left as int, 2);
            if n > 0 && has_road_spot(g1.board, p) {
                set_phase(g1, Phase::RoadBuilding { roads_left: n as u8 })
            } else {
                g1
            }
        },
        Action::PlayYearOfPlenty(r1, r2) => yop_spec(g, pi, r1, r2),
        Action::PlayMonopoly(r) => monopoly(play_card(g, pi, DevelopmentCard::Monopoly), pi, r.spec_idx()),
        Action::RollDice => set_phase(g, Phase::ChanceRoll),
        Action::MoveRobber(t) => Game {
            board: Board { robber: t, ..g.board },
            phase: Phase::Steal { candidates: steal_candidates(g, p, t.0 as int) },
            ..g
        },
        Action::StealFrom(target) => {
            let ti = target.0 as int;
            let hand = g.players[ti].resources;
            let g1 = if bank_total(hand) > 0 {
                let r = stolen_resource(hand, pick);
                let g0 = set_player_res(g, ti, r, hand.0[r] - 1);
                set_player_res(g0, pi, r, g0.players[pi].resources.0[r] + 1)
            } else {
                g
            };
            set_phase(g1, after_robber(g))
        },
        Action::StealFromNone => set_phase(g, after_robber(g)),
        Action::DiscardResource(r) => discard(g, r.spec_idx()),
        Action::BankTrade { give, receive } => {
            let rate = trade_rate_of(g.players[pi], give);
            let g1 = player_to_bank(g, pi, give.spec_idx(), rate as int);
            bank_to_player(g1, pi, receive.spec_idx(), 1)
        },
        Action::EndTurn => check_victory_spec(
            Game {
                current_player: PlayerId(((g.current_player.0 + 1) % 4) as u8),
                turn_number: (g.turn_number + 1) as u16,
                turn_flags: fresh_flags(),
                phase: Phase::PreRoll,
                ..g
            },
        ),
    }
}

} // verus!
