//! Tiles, harbors, buildings, and the board state with its placement rules.

use vstd::prelude::*;
use crate::resource::{DevCardDeck, DevelopmentCard, Resource, ResourceBank};
use crate::rng::GameRng;
use crate::topology::{
    adjacent, edge_touches, edges_at, lemma_edge_list, lemma_neighbors, neighbors_at, port_slot,
    Topology,
};
use crate::types::{PlayerId, TileId};

verus! {

broadcast use vstd::seq_lib::group_to_multiset_ensures;

/// Tile terrains, numbered 0..6 in this order.
#[derive(Clone, Copy, Debug, PartialEq, Eq, Structural)]
pub enum Terrain {
    Desert,
    Hills,
    Forest,
    Mountains,
    Fields,
    Pasture,
}

impl Terrain {
    /// The resource the terrain produces, if any.
    pub open spec fn spec_resource(self) -> Option<Resource> {
        match self {
            Terrain::Desert => None,
            Terrain::Hills => Some(Resource::Brick),
            Terrain::Forest => Some(Resource::Lumber),
            Terrain::Mountains => Some(Resource::Ore),
            Terrain::Fields => Some(Resource::Grain),
            Terrain::Pasture => Some(Resource::Wool),
        }
    }

    pub fn resource(self) -> (r: Option<Resource>)
        ensures
            r == self.spec_resource(),
    {
        match self {
            Terrain::Desert => None,
            Terrain::Hills => Some(Resource::Brick),
            Terrain::Forest => Some(Resource::Lumber),
            Terrain::Mountains => Some(Resource::Ore),
            Terrain::Fields => Some(Resource::Grain),
            Terrain::Pasture => Some(Resource::Wool),
        }
    }

    pub open spec fn spec_idx(self) -> int {
        match self {
            Terrain::Desert => 0,
            Terrain::Hills => 1,
            Terrain::Forest => 2,
            Terrain::Mountains => 3,
            Terrain::Fields => 4,
            Terrain::Pasture => 5,
        }
    }

    pub fn idx(self) -> (i: usize)
        ensures
            i == self.spec_idx(),
    {
        match self {
            Terrain::Desert => 0,
            Terrain::Hills => 1,
            Terrain::Forest => 2,
            Terrain::Mountains => 3,
            Terrain::Fields => 4,
            Terrain::Pasture => 5,
        }
    }
}

#[derive(Clone, Copy, Debug, PartialEq, Eq, Structural)]
pub struct Tile {
    pub terrain: Terrain,
    /// The number token; 0 on the desert.
    pub number: u8,
}

#[derive(Clone, Copy, Debug, PartialEq, Eq, Structural)]
pub enum Port {
    ThreeToOne,
    TwoToOne(Resource),
}

#[derive(Clone, Copy, Debug, PartialEq, Eq, Structural)]
pub enum Vertex {
    Empty,
    Settlement(PlayerId),
    City(PlayerId),
}

impl Vertex {
    pub open spec fn spec_owner(self) -> Option<PlayerId> {
        match self {
            Vertex::Empty => None,
            Vertex::Settlement(p) => Some(p),
            Vertex::City(p) => Some(p),
        }
    }

    pub fn owner(self) -> (o: Option<PlayerId>)
        ensures
            o == self.spec_owner(),
    {
        match self {
            Vertex::Empty => None,
            Vertex::Settlement(p) => Some(p),
            Vertex::City(p) => Some(p),
        }
    }

    pub fn is_empty(self) -> (b: bool)
        ensures
            b == (self is Empty),
    {
        match self {
            Vertex::Empty => true,
            _ => false,
        }
    }
}

#[derive(Clone, Copy, Debug, PartialEq, Eq, Structural)]
pub enum Edge {
    Empty,
    Road(PlayerId),
}

impl Edge {
    pub open spec fn spec_owner(self) -> Option<PlayerId> {
        match self {
            Edge::Empty => None,
            Edge::Road(p) => Some(p),
        }
    }

    pub fn owner(self) -> (o: Option<PlayerId>)
        ensures
            o == self.spec_owner(),
    {
        match self {
            Edge::Empty => None,
            Edge::Road(p) => Some(p),
        }
    }

    pub fn is_empty(self) -> (b: bool)
        ensures
            b == (self is Empty),
    {
        match self {
            Edge::Empty => true,
            _ => false,
        }
    }
}

/// The eighteen non-desert terrains of the standard set.
pub open spec fn standard_terrains() -> [Terrain; 18] {
    [
        Terrain::Hills,
        Terrain::Hills,
        Terrain::Hills,
        Terrain::Mountains,
        Terrain::Mountains,
        Terrain::Mountains,
        Terrain::Forest,
        Terrain::Forest,
        Terrain::Forest,
        Terrain::Forest,
        Terrain::Fields,
        Terrain::Fields,
        Terrain::Fields,
        Terrain::Fields,
        Terrain::Pasture,
        Terrain::Pasture,
        Terrain::Pasture,
        Terrain::Pasture,
    ]
}

/// The eighteen number tokens of the standard set.
pub const STANDARD_NON_ZERO_NUMBERS: [u8; 18] = [
    2, 3, 3, 4, 4, 5, 5, 6, 6, 8, 8, 9, 9, 10, 10, 11, 11, 12,
];

/// The nine harbors of the standard set.
pub open spec fn standard_ports() -> [Port; 9] {
    [
        Port::ThreeToOne,
        Port::ThreeToOne,
        Port::ThreeToOne,
        Port::ThreeToOne,
        Port::TwoToOne(Resource::Brick),
        Port::TwoToOne(Resource::Lumber),
        Port::TwoToOne(Resource::Ore),
        Port::TwoToOne(Resource::Grain),
        Port::TwoToOne(Resource::Wool),
    ]
}

/// The twenty-five development cards: 14 knights, 5 victory points, and two
/// each of road building, year of plenty and monopoly.
pub open spec fn standard_dev_cards() -> [DevelopmentCard; 25] {
    [
        DevelopmentCard::Knight,
        DevelopmentCard::Knight,
        DevelopmentCard::Knight,
        DevelopmentCard::Knight,
        DevelopmentCard::Knight,
        DevelopmentCard::Knight,
        DevelopmentCard::Knight,
        DevelopmentCard::Knight,
        DevelopmentCard::Knight,
        DevelopmentCard::Knight,
        DevelopmentCard::Knight,
        DevelopmentCard::Knight,
        DevelopmentCard::Knight,
        DevelopmentCard::Knight,
        DevelopmentCard::VictoryPoint,
        DevelopmentCard::VictoryPoint,
        DevelopmentCard::VictoryPoint,
        DevelopmentCard::VictoryPoint,
        DevelopmentCard::VictoryPoint,
        DevelopmentCard::RoadBuilding,
        DevelopmentCard::RoadBuilding,
        DevelopmentCard::YearOfPlenty,
        DevelopmentCard::YearOfPlenty,
        DevelopmentCard::Monopoly,
        DevelopmentCard::Monopoly,
    ]
}

fn standard_terrains_exec() -> (a: [Terrain; 18])
    ensures
        a == standard_terrains(),
{
    [
        Terrain::Hills,
        Terrain::Hills,
        Terrain::Hills,
        Terrain::Mountains,
        Terrain::Mountains,
        Terrain::Mountains,
        Terrain::Forest,
        Terrain::Forest,
        Terrain::Forest,
        Terrain::Forest,
        Terrain::Fields,
        Terrain::Fields,
        Terrain::Fields,
        Terrain::Fields,
        Terrain::Pasture,
        Terrain::Pasture,
        Terrain::Pasture,
        Terrain::Pasture,
    ]
}

fn standard_ports_exec() -> (a: [Port; 9])
    ensures
        a == standard_ports(),
{
    [
        Port::ThreeToOne,
        Port::ThreeToOne,
        Port::ThreeToOne,
        Port::ThreeToOne,
        Port::TwoToOne(Resource::Brick),
        Port::TwoToOne(Resource::Lumber),
        Port::TwoToOne(Resource::Ore),
        Port::TwoToOne(Resource::Grain),
        Port::TwoToOne(Resource::Wool),
    ]
}

fn standard_dev_cards_exec() -> (a: [DevelopmentCard; 25])
    ensures
        a == standard_dev_cards(),
{
    [
        DevelopmentCard::Knight,
        DevelopmentCard::Knight,
        DevelopmentCard::Knight,
        DevelopmentCard::Knight,
        DevelopmentCard::Knight,
        DevelopmentCard::Knight,
        DevelopmentCard::Knight,
        DevelopmentCard::Knight,
        DevelopmentCard::Knight,
        DevelopmentCard::Knight,
        DevelopmentCard::Knight,
        DevelopmentCard::Knight,
        DevelopmentCard::Knight,
        DevelopmentCard::Knight,
        DevelopmentCard::VictoryPoint,
        DevelopmentCard::VictoryPoint,
        DevelopmentCard::VictoryPoint,
        DevelopmentCard::VictoryPoint,
        DevelopmentCard::VictoryPoint,
        DevelopmentCard::RoadBuilding,
        DevelopmentCard::RoadBuilding,
        DevelopmentCard::YearOfPlenty,
        DevelopmentCard::YearOfPlenty,
        DevelopmentCard::Monopoly,
        DevelopmentCard::Monopoly,
    ]
}

/// The deck holds the standard cards in some order.
pub open spec fn deck_is_standard(d: DevCardDeck) -> bool {
    d.cards().to_multiset() == standard_dev_cards()@.to_multiset()
}

/// The tiles before they are shuffled: the desert first, then the standard
/// terrains paired in order with `numbers`.
pub open spec fn tiles_before_shuffle(numbers: Seq<u8>) -> Seq<Tile> {
    Seq::new(
        19,
        |i: int|
            if i == 0 {
                Tile { terrain: Terrain::Desert, number: 0 }
            } else {
                Tile { terrain: standard_terrains()[i - 1], number: numbers[i - 1] }
            },
    )
}

#[derive(Clone, Debug)]
pub struct Board {
    pub tiles: [Tile; 19],
    pub vertices: [Vertex; 54],
    pub edges: [Edge; 72],
    pub robber: TileId,
    pub harbors: [Port; 9],
    pub bank: ResourceBank,
    pub dev_card_deck: DevCardDeck,
    /// The fixed layout the ids above refer to.
    pub topo: Topology,
}

/// Vertex `v` is empty and so is every vertex adjacent to it.
pub open spec fn placement_valid(b: Board, v: int) -> bool {
    &&& b.vertices[v] is Empty
    &&& forall|u: int| 0 <= u < 54 && #[trigger] adjacent(u, v) ==> b.vertices[u] is Empty
}

/// Some road of `p` ends at `v`.
pub open spec fn has_friendly_road(b: Board, v: int, p: PlayerId) -> bool {
    exists|e: int| 0 <= e < 72 && #[trigger] edge_touches(e, v) && b.edges[e] == Edge::Road(p)
}

/// `p` may extend a road from `v`: it holds a building there, or `v` is empty
/// and one of its roads ends there.
pub open spec fn road_accessible(b: Board, v: int, p: PlayerId) -> bool {
    match b.vertices[v].spec_owner() {
        Some(o) => o == p,
        None => has_friendly_road(b, v, p),
    }
}

impl Board {
    pub open spec fn wf(self) -> bool {
        &&& self.topo.wf()
        &&& self.robber.0 < 19
    }

    /// The harbor at vertex `v`, if any.
    pub fn port_at(&self, v: usize) -> (p: Option<Port>)
        requires
            self.wf(),
            v < 54,
        ensures
            p == match port_slot(v as int, 9) {
                Some(s) => Some(self.harbors[s as int]),
                None => None::<Port>,
            },
    {
        self.topo.port_type(v, &self.harbors)
    }

    /// The distance rule: `v` and all its neighbors are empty.
    pub fn vertex_placement_valid(&self, v: usize) -> (b: bool)
        requires
            self.wf(),
            v < 54,
        ensures
            b == placement_valid(*self, v as int),
    {
        if !self.vertices[v].is_empty() {
            return false;
        }
        let nb = self.topo.vertex_neighbors(v);
        proof {
            lemma_neighbors(v as int);
        }
        let mut i: usize = 0;
        while i < nb.len()
            invariant
                v < 54,
                nb@ == neighbors_at(v as int, 72),
                i <= nb.len(),
                forall|k: int| 0 <= k < i ==> self.vertices[nb@[k] as int] is Empty,
                forall|k: int| 0 <= k < nb@.len() ==> #[trigger] nb@[k] < 54,
            decreases nb.len() - i,
        {
            proof {
                lemma_neighbors(v as int);
            }
            if !self.vertices[nb[i] as usize].is_empty() {
                assert(adjacent(nb@[i as int] as int, v as int));
                return false;
            }
            i = i + 1;
        }
        assert forall|u: int| 0 <= u < 54 && #[trigger] adjacent(u, v as int) implies self.vertices[u] is Empty by {
            assert(nb@.contains(u as u8));
        }
        true
    }

    /// Whether a road of `player` ends at `v`.
    pub fn vertex_has_friendly_road(&self, v: usize, player: PlayerId) -> (b: bool)
        requires
            self.wf(),
            v < 54,
        ensures
            b == has_friendly_road(*self, v as int, player),
    {
        let es = self.topo.vertex_edge_list(v);
        proof {
            lemma_edge_list(v as int);
        }
        let mut i: usize = 0;
        while i < es.len()
            invariant
                v < 54,
                es@ == edges_at(v as int, 72),
                i <= es.len(),
                forall|k: int| 0 <= k < i ==> self.edges[es@[k] as int] != Edge::Road(player),
                forall|k: int| 0 <= k < es@.len() ==> #[trigger] es@[k] < 72,
            decreases es.len() - i,
        {
            let e = es[i] as usize;
            proof {
                lemma_edge_list(v as int);
            }
            match self.edges[e] {
                Edge::Road(p) => {
                    if p == player {
                        assert(edge_touches(e as int, v as int));
                        return true;
                    }
                },
                Edge::Empty => {},
            }
            i = i + 1;
        }
        assert forall|e: int| 0 <= e < 72 && #[trigger] edge_touches(e, v as int) implies self.edges[e] != Edge::Road(player) by {
            assert(es@.contains(e as u8));
        }
        false
    }

    /// Whether `player` can extend a road to vertex `v`: they own a building
    /// there, or it is empty and they have a road to it.
    pub fn vertex_road_accessible(&self, v: usize, player: PlayerId) -> (b: bool)
        requires
            self.wf(),
            v < 54,
        ensures
            b == road_accessible(*self, v as int, player),
    {
        match self.vertices[v].owner() {
            Some(owner) => owner == player,
            None => self.vertex_has_friendly_road(v, player),
        }
    }

    /// A fresh board: shuffled number tokens, tiles and harbors, a shuffled
    /// development deck, the robber on the desert, 19 of each resource in the
    /// bank and nothing built.
    pub fn generate<R: GameRng>(rng: &mut R) -> (b: Board)
        ensures
            b.wf(),
            exists|numbers: Seq<u8>|
                numbers.to_multiset() == STANDARD_NON_ZERO_NUMBERS@.to_multiset()
                    && #[trigger] b.tiles@.to_multiset() == tiles_before_shuffle(numbers).to_multiset(),
            b.tiles[b.robber.0 as int].terrain == Terrain::Desert,
            b.harbors@.to_multiset() == standard_ports()@.to_multiset(),
            deck_is_standard(b.dev_card_deck),
            forall|v: int| 0 <= v < 54 ==> #[trigger] b.vertices[v] == Vertex::Empty,
            forall|e: int| 0 <= e < 72 ==> #[trigger] b.edges[e] == Edge::Empty,
            forall|r: int| 0 <= r < 5 ==> #[trigger] b.bank.0[r] == 19,
    {
        let mut numbers = STANDARD_NON_ZERO_NUMBERS;
        rng.shuffle(&mut numbers);
        let terrains = standard_terrains_exec();
        let mut tiles = [Tile { terrain: Terrain::Desert, number: 0 }; 19];
        let mut i: usize = 1;
        while i < 19
            invariant
                1 <= i <= 19,
                terrains == standard_terrains(),
                tiles[0] == (Tile { terrain: Terrain::Desert, number: 0 }),
                forall|j: int| 1 <= j < i ==> tiles[j] == tiles_before_shuffle(numbers@)[j],
            decreases 19 - i,
        {
            tiles[i] = Tile { terrain: terrains[i - 1], number: numbers[i - 1] };
            i = i + 1;
        }
        assert(tiles@ =~= tiles_before_shuffle(numbers@));
        let ghost before = tiles@;
        rng.shuffle(&mut tiles);
        assert(before.contains(Tile { terrain: Terrain::Desert, number: 0 })) by {
            assert(before[0] == Tile { terrain: Terrain::Desert, number: 0 });
        }
        assert(tiles@.contains(Tile { terrain: Terrain::Desert, number: 0 })) by {
            assert(tiles@.to_multiset().count(Tile { terrain: Terrain::Desert, number: 0 }) > 0);
        }
        let mut robber: usize = 0;
        while robber < 19 && tiles[robber].terrain != Terrain::Desert
            invariant
                robber <= 19,
                tiles@.contains(Tile { terrain: Terrain::Desert, number: 0 }),
                forall|j: int| 0 <= j < robber ==> tiles[j].terrain != Terrain::Desert,
            decreases 19 - robber,
        {
            robber = robber + 1;
        }
        proof {
            if robber == 19 {
                let k = choose|k: int|
                    0 <= k < tiles@.len() && tiles@[k] == (Tile { terrain: Terrain::Desert, number: 0 });
                assert(tiles[k].terrain == Terrain::Desert);
            }
        }
        let mut harbors = standard_ports_exec();
        rng.shuffle(&mut harbors);
        let mut cards = standard_dev_cards_exec();
        rng.shuffle(&mut cards);
        let dev_card_deck = DevCardDeck::full(cards);
        let board = Board {
            tiles,
            vertices: [Vertex::Empty; 54],
            edges: [Edge::Empty; 72],
            robber: TileId(robber as u8),
            harbors,
            bank: ResourceBank([19u8; 5]),
            dev_card_deck,
            topo: Topology::standard(),
        };
        board
    }
}

} // verus!
