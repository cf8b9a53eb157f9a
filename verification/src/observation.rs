//! What one seat sees of the game: the board with owners given relative to
//! the observer, its own hand in full, and only counts of the others' hands.

use vstd::prelude::*;
use crate::board::{Edge, Port, Terrain, Vertex};
use crate::game::{knights_played, la_owner, lr_owner, Game};
use crate::player::Player;
use crate::resource::{bank_total, hand_total};
use crate::state::owners_valid;
use crate::types::{PlayerId, TileId};

verus! {

broadcast use {
    vstd::array::axiom_spec_array_update,
    vstd::array::axiom_array_ext_equal,
    vstd::array::array_len_matches_n,
};

/// Another seat as seen from the observer: itself, or one to three places
/// clockwise.
#[derive(Clone, Copy, Debug, PartialEq, Eq, Structural)]
pub enum PlayerRelation {
    Self_,
    Clockwise1,
    Clockwise2,
    Clockwise3,
}

/// `other` as seen from `observer`.
pub open spec fn relation_of(observer: PlayerId, other: PlayerId) -> PlayerRelation {
    let d = (other.0 + 4 - observer.0) % 4;
    if d == 0 {
        PlayerRelation::Self_
    } else if d == 1 {
        PlayerRelation::Clockwise1
    } else if d == 2 {
        PlayerRelation::Clockwise2
    } else {
        PlayerRelation::Clockwise3
    }
}

pub fn player_relative(observer: PlayerId, other: PlayerId) -> (r: PlayerRelation)
    requires
        observer.0 < 4,
        other.0 < 4,
    ensures
        r == relation_of(observer, other),
{
    let d = (other.0 + 4 - observer.0) % 4;
    if d == 0 {
        PlayerRelation::Self_
    } else if d == 1 {
        PlayerRelation::Clockwise1
    } else if d == 2 {
        PlayerRelation::Clockwise2
    } else {
        PlayerRelation::Clockwise3
    }
}

#[derive(Clone, Copy, Debug, PartialEq, Eq, Structural)]
pub enum ObsVertex {
    Empty,
    Settlement(PlayerRelation),
    City(PlayerRelation),
}

#[derive(Clone, Copy, Debug, PartialEq, Eq, Structural)]
pub enum ObsEdge {
    Empty,
    Road(PlayerRelation),
}

#[derive(Clone, Copy, Debug, PartialEq, Eq, Structural)]
pub struct ObsTile {
    pub terrain: Terrain,
    pub number: u8,
    pub has_robber: bool,
}

/// The observer's own state, in full.
#[derive(Clone, Copy, Debug, PartialEq, Eq)]
pub struct ObsSelf {
    pub resources: [u8; 5],
    pub dev_cards: [u8; 5],
    pub played_knights: u8,
    pub has_longest_road: bool,
    pub longest_road_length: u8,
    pub has_largest_army: bool,
    pub has_three_to_one_port: bool,
    pub two_to_one_ports: [bool; 5],
}

/// What the observer sees of another seat: counts only.
#[derive(Clone, Copy, Debug, PartialEq, Eq, Structural)]
pub struct ObsOther {
    pub total_resource_cards: u8,
    pub total_dev_cards: u8,
    pub played_knights: u8,
    pub has_longest_road: bool,
    pub has_largest_army: bool,
}

#[derive(Clone, Copy, Debug, PartialEq, Eq)]
pub struct ObsMeta {
    pub turn_number: u16,
    pub dev_cards_remaining: u8,
    pub resource_bank: [u8; 5],
}

#[derive(Clone, Copy, Debug)]
pub struct Observation {
    pub tiles: [ObsTile; 19],
    pub vertices: [ObsVertex; 54],
    pub edges: [ObsEdge; 72],
    pub harbors: [Port; 9],
    pub self_player: ObsSelf,
    pub other_players: [ObsOther; 3],
    pub meta: ObsMeta,
}

pub open spec fn obs_tile(g: Game, t: int) -> ObsTile {
    ObsTile {
        terrain: g.board.tiles[t].terrain,
        number: g.board.tiles[t].number,
        has_robber: g.board.robber == TileId(t as u8),
    }
}

pub open spec fn obs_vertex(g: Game, observer: PlayerId, v: int) -> ObsVertex {
    match g.board.vertices[v] {
        Vertex::Empty => ObsVertex::Empty,
        Vertex::Settlement(p) => ObsVertex::Settlement(relation_of(observer, p)),
        Vertex::City(p) => ObsVertex::City(relation_of(observer, p)),
    }
}

pub open spec fn obs_edge(g: Game, observer: PlayerId, e: int) -> ObsEdge {
    match g.board.edges[e] {
        Edge::Empty => ObsEdge::Empty,
        Edge::Road(p) => ObsEdge::Road(relation_of(observer, p)),
    }
}

/// The seat `i + 1` places clockwise of `observer`.
pub open spec fn other_seat(observer: PlayerId, i: int) -> PlayerId {
    PlayerId(((observer.0 + 1 + i) % 4) as u8)
}

pub open spec fn obs_other(g: Game, p: PlayerId) -> ObsOther {
    ObsOther {
        total_resource_cards: bank_total(g.players[p.0 as int].resources) as u8,
        total_dev_cards: hand_total(g.players[p.0 as int].dev_cards) as u8,
        played_knights: g.players[p.0 as int].played_knights,
        has_longest_road: lr_owner(g) == Some(p),
        has_largest_army: la_owner(g) == Some(p),
    }
}

/// `o` is what seat `perspective` sees of `g`: the board with owners
/// relative to the seat, the seat's own state in full, the other seats
/// clockwise as counts, and the turn, the deck and the bank.
pub open spec fn seen_by(g: Game, perspective: PlayerId, o: Observation) -> bool {
    let me = g.players[perspective.0 as int];
    &&& forall|t: int| 0 <= t < 19 ==> #[trigger] o.tiles[t] == obs_tile(g, t)
    &&& forall|v: int| 0 <= v < 54 ==> #[trigger] o.vertices[v] == obs_vertex(g, perspective, v)
    &&& forall|e: int| 0 <= e < 72 ==> #[trigger] o.edges[e] == obs_edge(g, perspective, e)
    &&& o.harbors == g.board.harbors
    &&& o.self_player == (ObsSelf {
        resources: me.resources.0,
        dev_cards: me.dev_cards.0,
        played_knights: me.played_knights,
        has_longest_road: lr_owner(g) == Some(perspective),
        longest_road_length: g.longest_road_len[perspective.0 as int],
        has_largest_army: la_owner(g) == Some(perspective),
        has_three_to_one_port: me.has_three_to_one_port,
        two_to_one_ports: me.two_to_one_ports,
    })
    &&& forall|i: int| 0 <= i < 3 ==> #[trigger] o.other_players[i] == obs_other(g, other_seat(perspective, i))
    &&& o.meta == (ObsMeta {
        turn_number: g.turn_number,
        dev_cards_remaining: g.board.dev_card_deck.cards().len() as u8,
        resource_bank: g.board.bank.0,
    })
}

fn observe_vertex(game: &Game, perspective: PlayerId, v: usize) -> (o: ObsVertex)
    requires
        perspective.0 < 4,
        v < 54,
        owners_valid(*game),
    ensures
        o == obs_vertex(*game, perspective, v as int),
{
    match game.board.vertices[v] {
        Vertex::Empty => ObsVertex::Empty,
        Vertex::Settlement(p) => ObsVertex::Settlement(player_relative(perspective, p)),
        Vertex::City(p) => ObsVertex::City(player_relative(perspective, p)),
    }
}

impl Game {
    /// The game as seen from seat `perspective`.
    pub fn observe(&self, perspective: PlayerId) -> (o: Observation)
        requires
            perspective.0 < 4,
            owners_valid(*self),
            forall|p: int| 0 <= p < 4 ==> bank_total(#[trigger] self.players[p].resources) <= 255,
            forall|p: int| 0 <= p < 4 ==> hand_total(#[trigger] self.players[p].dev_cards) <= 255,
        ensures
            seen_by(*self, perspective, o),
    {
        let mut tiles = [ObsTile { terrain: Terrain::Desert, number: 0, has_robber: false }; 19];
        let mut t: usize = 0;
        while t < 19
            invariant
                t <= 19,
                forall|j: int| 0 <= j < t ==> #[trigger] tiles[j] == obs_tile(*self, j),
            decreases 19 - t,
        {
            let tile = self.board.tiles[t];
            tiles[t] = ObsTile {
                terrain: tile.terrain,
                number: tile.number,
                has_robber: self.board.robber == TileId(t as u8),
            };
            t = t + 1;
        }
        let mut vertices = [ObsVertex::Empty; 54];
        let mut v: usize = 0;
        while v < 54
            invariant
                v <= 54,
                perspective.0 < 4,
                owners_valid(*self),
                forall|j: int| 0 <= j < v ==> #[trigger] vertices[j] == obs_vertex(*self, perspective, j),
            decreases 54 - v,
        {
            vertices[v] = observe_vertex(self, perspective, v);
            v = v + 1;
        }
        let mut edges = [ObsEdge::Empty; 72];
        let mut e: usize = 0;
        while e < 72
            invariant
                e <= 72,
                perspective.0 < 4,
                owners_valid(*self),
                forall|j: int| 0 <= j < e ==> #[trigger] edges[j] == obs_edge(*self, perspective, j),
            decreases 72 - e,
        {
            edges[e] = match self.board.edges[e] {
                Edge::Empty => ObsEdge::Empty,
                Edge::Road(p) => ObsEdge::Road(player_relative(perspective, p)),
            };
            e = e + 1;
        }
        let lr = self.longest_road_owner();
        let la = self.largest_army_owner();
        let pl = self.players[perspective.idx()];
        let self_player = ObsSelf {
            resources: pl.resources.0,
            dev_cards: pl.dev_cards.0,
            played_knights: pl.played_knights,
            has_longest_road: lr == Some(perspective),
            longest_road_length: self.longest_road_len[perspective.idx()],
            has_largest_army: la == Some(perspective),
            has_three_to_one_port: pl.has_three_to_one_port,
            two_to_one_ports: pl.two_to_one_ports,
        };
        let mut other_players = [ObsOther {
            total_resource_cards: 0,
            total_dev_cards: 0,
            played_knights: 0,
            has_longest_road: false,
            has_largest_army: false,
        }; 3];
        let mut i: usize = 0;
        while i < 3
            invariant
                i <= 3,
                perspective.0 < 4,
                lr == lr_owner(*self),
                la == la_owner(*self),
                forall|p: int| 0 <= p < 4 ==> bank_total(#[trigger] self.players[p].resources) <= 255,
                forall|p: int| 0 <= p < 4 ==> hand_total(#[trigger] self.players[p].dev_cards) <= 255,
                forall|j: int| 0 <= j < i ==> #[trigger] other_players[j] == obs_other(*self, other_seat(perspective, j)),
            decreases 3 - i,
        {
            let pid = PlayerId(((perspective.0 as usize + 1 + i) % 4) as u8);
            let op = self.players[pid.idx()];
            other_players[i] = ObsOther {
                total_resource_cards: op.resources.total(),
                total_dev_cards: op.dev_cards.total(),
                played_knights: op.played_knights,
                has_longest_road: lr == Some(pid),
                has_largest_army: la == Some(pid),
            };
            i = i + 1;
        }
        let meta = ObsMeta {
            turn_number: self.turn_number,
            dev_cards_remaining: self.board.dev_card_deck.remaining(),
            resource_bank: self.board.bank.0,
        };
        Observation {
            tiles,
            vertices,
            edges,
            harbors: self.board.harbors,
            self_player,
            other_players,
            meta,
        }
    }
}

/// Every seat sees the same tiles, harbors, turn, deck and bank.
pub proof fn lemma_shared_view(g: Game, p: PlayerId, q: PlayerId, o1: Observation, o2: Observation)
    requires
        seen_by(g, p, o1),
        seen_by(g, q, o2),
    ensures
        o1.tiles == o2.tiles,
        o1.harbors == o2.harbors,
        o1.meta == o2.meta,
{
    assert(o1.tiles =~= o2.tiles) by {
        assert forall|t: int| 0 <= t < 19 implies o1.tiles[t] == o2.tiles[t] by {
            assert(o1.tiles[t] == obs_tile(g, t));
            assert(o2.tiles[t] == obs_tile(g, t));
        }
    }
}

/// A seat sees only how many cards another seat holds: two games that differ
/// only in how seat `q`'s cards split among the resources look the same to
/// every other seat.
pub proof fn lemma_hidden_hands(g1: Game, g2: Game, q: int, p: PlayerId, o1: Observation, o2: Observation)
    requires
        0 <= q < 4,
        p.0 < 4,
        q != p.0,
        g2 == (Game { players: g2.players, ..g1 }),
        forall|i: int| 0 <= i < 4 && i != q ==> #[trigger] g2.players[i] == g1.players[i],
        g2.players[q] == (Player { resources: g2.players[q].resources, ..g1.players[q] }),
        bank_total(g2.players[q].resources) == bank_total(g1.players[q].resources),
        seen_by(g1, p, o1),
        seen_by(g2, p, o2),
    ensures
        o1 == o2,
{
    assert(knights_played(g1) =~= knights_played(g2)) by {
        assert forall|i: int| 0 <= i < 4 implies knights_played(g1)[i] == knights_played(g2)[i] by {
            if i != q {
                assert(g2.players[i] == g1.players[i]);
            }
        }
    }
    assert(o1.tiles =~= o2.tiles) by {
        assert forall|t: int| 0 <= t < 19 implies o1.tiles[t] == o2.tiles[t] by {
            assert(o1.tiles[t] == obs_tile(g1, t));
            assert(o2.tiles[t] == obs_tile(g2, t));
        }
    }
    assert(o1.vertices =~= o2.vertices) by {
        assert forall|v: int| 0 <= v < 54 implies o1.vertices[v] == o2.vertices[v] by {
            assert(o1.vertices[v] == obs_vertex(g1, p, v));
            assert(o2.vertices[v] == obs_vertex(g2, p, v));
        }
    }
    assert(o1.edges =~= o2.edges) by {
        assert forall|e: int| 0 <= e < 72 implies o1.edges[e] == o2.edges[e] by {
            assert(o1.edges[e] == obs_edge(g1, p, e));
            assert(o2.edges[e] == obs_edge(g2, p, e));
        }
    }
    assert(g2.players[p.0 as int] == g1.players[p.0 as int]);
    assert(o1.other_players =~= o2.other_players) by {
        assert forall|i: int| 0 <= i < 3 implies o1.other_players[i] == o2.other_players[i] by {
            let s = other_seat(p, i);
            assert(o1.other_players[i] == obs_other(g1, s));
            assert(o2.other_players[i] == obs_other(g2, s));
            if s.0 as int != q {
                assert(g2.players[s.0 as int] == g1.players[s.0 as int]);
            }
        }
    }
}

} // verus!
