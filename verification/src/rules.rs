//! Which actions are legal in which state, and the legal-action mask.

use vstd::prelude::*;
use crate::action::{action_at, action_index, action_wf, lemma_index_roundtrip, Action, ActionMask};
use crate::board::{has_friendly_road, placement_valid, road_accessible, Board, Edge, Vertex};
use crate::game::{Game, Phase};
use crate::player::trade_rate_of;
use crate::resource::{bank_covers, bank_total, DevelopmentCard, Resource, ResourceBank};
use crate::topology::{edge_touches, lemma_tables, EDGE_VERTICES};
use crate::types::{EdgeId, PlayerId, TileId, VertexId};

verus! {

pub const SETTLEMENT_COST: [u8; 5] = [1, 1, 0, 1, 1];

pub const CITY_COST: [u8; 5] = [0, 0, 3, 2, 0];

pub const ROAD_COST: [u8; 5] = [1, 1, 0, 0, 0];

pub const DEV_CARD_COST: [u8; 5] = [0, 0, 1, 1, 1];

/// Seat numbers, vertex ids and the like held by a phase are in range.
pub open spec fn phase_wf(p: Phase) -> bool {
    match p {
        Phase::SetupSettlement { player, .. } => player.0 < 4,
        Phase::SetupRoad { player, settlement_vertex, .. } => player.0 < 4 && settlement_vertex < 54,
        Phase::Discard { active, .. } => active.0 < 4,
        Phase::GameOver { winner } => winner.0 < 4,
        _ => true,
    }
}

impl Game {
    /// What the legality checks need: a standard board with the robber on a
    /// tile, seats in range, and hands small enough to count in a byte.
    pub open spec fn basic_wf(self) -> bool {
        &&& self.board.wf()
        &&& self.current_player.0 < 4
        &&& phase_wf(self.phase)
        &&& forall|p: int| 0 <= p < 4 ==> bank_total(#[trigger] self.players[p].resources) <= 255
    }
}

/// The current player may play `card`: it is not a victory-point card, no
/// card was played this turn, and they hold one not bought this turn.
pub open spec fn can_play(g: Game, card: DevelopmentCard) -> bool {
    &&& card != DevelopmentCard::VictoryPoint
    &&& !g.turn_flags.dev_card_played
    &&& g.players[g.current_player.0 as int].dev_cards.0[card.spec_idx()]
        > g.turn_flags.dev_cards_bought.0[card.spec_idx()]
}

/// `p` may build a road on edge `e`: it is empty and one of its ends is
/// road-accessible to `p`.
pub open spec fn road_legal(b: Board, p: PlayerId, e: int) -> bool {
    &&& b.edges[e] is Empty
    &&& (road_accessible(b, EDGE_VERTICES[e][0] as int, p) || road_accessible(
        b,
        EDGE_VERTICES[e][1] as int,
        p,
    ))
}

/// Some edge is a legal road for `p`.
#[verifier::opaque]
pub open spec fn has_road_spot(b: Board, p: PlayerId) -> bool {
    exists|e: int| 0 <= e < 72 && #[trigger] road_legal(b, p, e)
}

/// Seat `i` is a steal candidate holding at least one card.
pub open spec fn stealable(g: Game, candidates: [bool; 4], i: int) -> bool {
    candidates[i] && bank_total(g.players[i].resources) > 0
}

/// The legal moves of the main phase of the current player's turn.
pub open spec fn main_legal(g: Game, a: Action) -> bool {
    let p = g.current_player;
    let pl = g.players[p.0 as int];
    match a {
        Action::PlaceSettlement(v) => {
            &&& pl.settlements_left > 0
            &&& bank_covers(pl.resources, ResourceBank(SETTLEMENT_COST))
            &&& v.0 < 54
            &&& placement_valid(g.board, v.0 as int)
            &&& has_friendly_road(g.board, v.0 as int, p)
        },
        Action::PlaceRoad(e) => {
            &&& pl.roads_left > 0
            &&& bank_covers(pl.resources, ResourceBank(ROAD_COST))
            &&& e.0 < 72
            &&& road_legal(g.board, p, e.0 as int)
        },
        Action::BuildCity(v) => {
            &&& pl.cities_left > 0
            &&& bank_covers(pl.resources, ResourceBank(CITY_COST))
            &&& v.0 < 54
            &&& g.board.vertices[v.0 as int] == Vertex::Settlement(p)
        },
        Action::BuyDevelopmentCard => {
            &&& bank_covers(pl.resources, ResourceBank(DEV_CARD_COST))
            &&& g.board.dev_card_deck.cards().len() > 0
        },
        Action::PlayKnight => can_play(g, DevelopmentCard::Knight),
        Action::PlayRoadBuilding => can_play(g, DevelopmentCard::RoadBuilding) && pl.roads_left > 0,
        Action::PlayMonopoly(_) => can_play(g, DevelopmentCard::Monopoly),
        Action::PlayYearOfPlenty(r1, r2) => {
            &&& can_play(g, DevelopmentCard::YearOfPlenty)
            &&& r1.spec_idx() <= r2.spec_idx()
            &&& g.board.bank.0[r1.spec_idx()] >= if r1 == r2 { 2u8 } else { 1u8 }
            &&& g.board.bank.0[r2.spec_idx()] >= 1
        },
        Action::BankTrade { give, receive } => {
            &&& pl.resources.0[give.spec_idx()] >= trade_rate_of(pl, give)
            &&& receive != give
            &&& g.board.bank.0[receive.spec_idx()] > 0
        },
        Action::EndTurn => true,
        _ => false,
    }
}

/// The rules: which actions the acting player may take.
pub open spec fn legal(g: Game, a: Action) -> bool {
    match g.phase {
        Phase::GameOver { .. } => false,
        Phase::ChanceRoll => false,
        Phase::SetupSettlement { .. } => match a {
            Action::PlaceSettlement(v) => v.0 < 54 && placement_valid(g.board, v.0 as int),
            _ => false,
        },
        Phase::SetupRoad { settlement_vertex, .. } => match a {
            Action::PlaceRoad(e) => e.0 < 72 && edge_touches(e.0 as int, settlement_vertex as int)
                && g.board.edges[e.0 as int] is Empty,
            _ => false,
        },
        Phase::PreRoll => match a {
            Action::RollDice => true,
            Action::PlayKnight => can_play(g, DevelopmentCard::Knight),
            _ => false,
        },
        Phase::Discard { active, .. } => match a {
            Action::DiscardResource(r) => g.players[active.0 as int].resources.0[r.spec_idx()] > 0,
            _ => false,
        },
        Phase::MoveRobber => match a {
            Action::MoveRobber(t) => t.0 < 19 && t != g.board.robber,
            _ => false,
        },
        Phase::Steal { candidates } => match a {
            Action::StealFrom(p) => p.0 < 4 && stealable(g, candidates, p.0 as int),
            Action::StealFromNone => forall|i: int| 0 <= i < 4 ==> !stealable(g, candidates, i),
            _ => false,
        },
        Phase::Main => main_legal(g, a),
        Phase::RoadBuilding { .. } => match a {
            Action::PlaceRoad(e) => {
                &&& e.0 < 72
                &&& g.players[g.current_player.0 as int].roads_left > 0
                &&& road_legal(g.board, g.current_player, e.0 as int)
            },
            _ => false,
        },
    }
}

/// Whether some edge is a legal road depends only on the edges and the
/// buildings.
pub proof fn lemma_road_spot_same(b1: Board, b2: Board, p: PlayerId)
    requires
        b1.edges == b2.edges,
        b1.vertices == b2.vertices,
    ensures
        has_road_spot(b1, p) == has_road_spot(b2, p),
{
    reveal(has_road_spot);
    assert forall|e: int| 0 <= e < 72 implies road_legal(b1, p, e) == road_legal(b2, p, e) by {
        assert(road_accessible(b1, EDGE_VERTICES[e][0] as int, p) == road_accessible(b2, EDGE_VERTICES[e][0] as int, p));
        assert(road_accessible(b1, EDGE_VERTICES[e][1] as int, p) == road_accessible(b2, EDGE_VERTICES[e][1] as int, p));
    }
    if has_road_spot(b1, p) {
        let e = choose|e: int| 0 <= e < 72 && #[trigger] road_legal(b1, p, e);
        assert(road_legal(b2, p, e));
    }
    if has_road_spot(b2, p) {
        let e = choose|e: int| 0 <= e < 72 && #[trigger] road_legal(b2, p, e);
        assert(road_legal(b1, p, e));
    }
}

/// The legal actions among the first `n` indices, in index order.
pub open spec fn legal_below(g: Game, n: int) -> Seq<Action>
    decreases n,
{
    if n <= 0 {
        Seq::empty()
    } else if legal(g, action_at(n - 1)) {
        legal_below(g, n - 1).push(action_at(n - 1))
    } else {
        legal_below(g, n - 1)
    }
}

/// The legal actions of `g`, in index order.
pub open spec fn legal_actions(g: Game) -> Seq<Action> {
    legal_below(g, 254)
}

proof fn lemma_listed_legal(m: ActionMask, g: Game, n: int)
    requires
        forall|i: int| #[trigger] m.has(i) == (0 <= i < 254 && legal(g, action_at(i))),
        0 <= n <= 254,
    ensures
        crate::action::mask_actions_below(m, n) == legal_below(g, n),
    decreases n,
{
    if n > 0 {
        lemma_listed_legal(m, g, n - 1);
        assert(m.has(n - 1) == legal(g, action_at(n - 1)));
    }
}

impl Game {
    pub fn can_play_dev_card(&self, card: DevelopmentCard) -> (b: bool)
        requires
            self.current_player.0 < 4,
        ensures
            b == can_play(*self, card),
    {
        if card == DevelopmentCard::VictoryPoint || self.turn_flags.dev_card_played {
            return false;
        }
        self.players[self.current_player.idx()].dev_cards.get(card)
            > self.turn_flags.dev_cards_bought.get(card)
    }

    fn road_ok(&self, player: PlayerId, e: usize) -> (b: bool)
        requires
            self.board.wf(),
            e < 72,
        ensures
            b == road_legal(self.board, player, e as int),
    {
        proof {
            lemma_tables();
            self.board.topo.lemma_wf();
        }
        if !self.board.edges[e].is_empty() {
            return false;
        }
        let v1 = self.board.topo.edge_vertices[e][0];
        let v2 = self.board.topo.edge_vertices[e][1];
        self.board.vertex_road_accessible(v1 as usize, player) || self.board.vertex_road_accessible(
            v2 as usize,
            player,
        )
    }

    /// Whether `player` has somewhere to build a road.
    pub fn has_legal_road(&self, player: PlayerId) -> (b: bool)
        requires
            self.board.wf(),
        ensures
            b == has_road_spot(self.board, player),
    {
        let mut e: usize = 0;
        while e < 72
            invariant
                e <= 72,
                self.board.wf(),
                forall|k: int| 0 <= k < e ==> !road_legal(self.board, player, k),
            decreases 72 - e,
        {
            if self.road_ok(player, e) {
                proof {
                    reveal(has_road_spot);
                }
                return true;
            }
            e = e + 1;
        }
        proof {
            reveal(has_road_spot);
        }
        false
    }


    /// Whether `a` is legal for the acting player.
    pub fn is_legal(&self, a: Action) -> (b: bool)
        requires
            self.basic_wf(),
            action_wf(a),
        ensures
            b == legal(*self, a),
    {
        proof {
            self.board.topo.lemma_wf();
        }
        match self.phase {
            Phase::GameOver { .. } => false,
            Phase::ChanceRoll => false,
            Phase::SetupSettlement { .. } => match a {
                Action::PlaceSettlement(v) => self.board.vertex_placement_valid(v.idx()),
                _ => false,
            },
            Phase::SetupRoad { settlement_vertex, .. } => match a {
                Action::PlaceRoad(e) => {
                    let ends = self.board.topo.edge_vertices[e.idx()];
                    (ends[0] == settlement_vertex || ends[1] == settlement_vertex)
                        && self.board.edges[e.idx()].is_empty()
                },
                _ => false,
            },
            Phase::PreRoll => match a {
                Action::RollDice => true,
                Action::PlayKnight => self.can_play_dev_card(DevelopmentCard::Knight),
                _ => false,
            },
            Phase::Discard { active, .. } => match a {
                Action::DiscardResource(r) => self.players[active.idx()].resources.get(r) > 0,
                _ => false,
            },
            Phase::MoveRobber => match a {
                Action::MoveRobber(t) => t != self.board.robber,
                _ => false,
            },
            Phase::Steal { candidates } => match a {
                Action::StealFrom(p) => candidates[p.idx()] && self.players[p.idx()].resources.total()
                    > 0,
                Action::StealFromNone => {
                    let mut i: usize = 0;
                    while i < 4
                        invariant
                            i <= 4,
                            self.basic_wf(),
                            self.phase == (Phase::Steal { candidates }),
                            a == Action::StealFromNone,
                            forall|j: int| 0 <= j < i ==> !stealable(*self, candidates, j),
                        decreases 4 - i,
                    {
                        if candidates[i] && self.players[i].resources.total() > 0 {
                            assert(stealable(*self, self.phase->Steal_candidates, i as int));
                            return false;
                        }
                        i = i + 1;
                    }
                    true
                },
                _ => false,
            },
            Phase::Main => self.main_is_legal(a),
            Phase::RoadBuilding { .. } => match a {
                Action::PlaceRoad(e) => self.players[self.current_player.idx()].roads_left > 0
                    && self.road_ok(self.current_player, e.idx()),
                _ => false,
            },
        }
    }

    fn main_is_legal(&self, a: Action) -> (b: bool)
        requires
            self.basic_wf(),
            action_wf(a),
        ensures
            b == main_legal(*self, a),
    {
        let pid = self.current_player;
        let player = &self.players[pid.idx()];
        match a {
            Action::PlaceSettlement(v) => player.settlements_left > 0
                && player.resources.can_afford(ResourceBank(SETTLEMENT_COST))
                && self.board.vertex_placement_valid(v.idx())
                && self.board.vertex_has_friendly_road(v.idx(), pid),
            Action::PlaceRoad(e) => player.roads_left > 0 && player.resources.can_afford(
                ResourceBank(ROAD_COST),
            ) && self.road_ok(pid, e.idx()),
            Action::BuildCity(v) => {
                player.cities_left > 0 && player.resources.can_afford(ResourceBank(CITY_COST))
                    && match self.board.vertices[v.idx()] {
                    Vertex::Settlement(p) => p == pid,
                    _ => false,
                }
            },
            Action::BuyDevelopmentCard => player.resources.can_afford(ResourceBank(DEV_CARD_COST))
                && self.board.dev_card_deck.remaining() > 0,
            Action::PlayKnight => self.can_play_dev_card(DevelopmentCard::Knight),
            Action::PlayRoadBuilding => self.can_play_dev_card(DevelopmentCard::RoadBuilding)
                && player.roads_left > 0,
            Action::PlayMonopoly(_) => self.can_play_dev_card(DevelopmentCard::Monopoly),
            Action::PlayYearOfPlenty(r1, r2) => {
                let needed: u8 = if r1 == r2 {
                    2
                } else {
                    1
                };
                self.can_play_dev_card(DevelopmentCard::YearOfPlenty) && r1.idx() <= r2.idx()
                    && self.board.bank.get(r1) >= needed && self.board.bank.get(r2) >= 1
            },
            Action::BankTrade { give, receive } => {
                let rate = player.trade_rate(give);
                player.resources.get(give) >= rate && receive != give && self.board.bank.get(
                    receive,
                ) > 0
            },
            Action::EndTurn => true,
            _ => false,
        }
    }

    /// The legal actions of the current state, by flat index.
    pub fn action_mask(&self) -> (mask: ActionMask)
        requires
            self.basic_wf(),
        ensures
            forall|i: int| #[trigger] mask.has(i) == (0 <= i < 254 && legal(*self, action_at(i))),
            mask.listed() == legal_actions(*self),
    {
        let mut mask = ActionMask::empty();
        let mut i: usize = 0;
        while i < 254
            invariant
                i <= 254,
                self.basic_wf(),
                forall|j: int|
                    #[trigger] mask.has(j) == (0 <= j < i && legal(*self, action_at(j))),
            decreases 254 - i,
        {
            let a = Action::from_index(i);
            proof {
                lemma_index_roundtrip(i as int);
            }
            if self.is_legal(a) {
                mask.set(i);
            }
            i = i + 1;
        }
        proof {
            lemma_listed_legal(mask, *self, 254);
        }
        mask
    }
}

} // verus!
