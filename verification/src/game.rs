//! The game state, its phases, and the scoring rules.

use vstd::prelude::*;
use crate::board::{Board, Edge, Vertex};
use crate::player::Player;
use crate::resource::{DevCardHand, DevelopmentCard};
use crate::rng::GameRng;
use crate::types::PlayerId;

verus! {

broadcast use {
    vstd::array::axiom_spec_array_update,
    vstd::array::axiom_array_ext_equal,
    vstd::array::array_len_matches_n,
};

#[derive(Clone, Copy, Debug, PartialEq, Eq)]
pub enum Phase {
    SetupSettlement { player: PlayerId, round: u8 },
    SetupRoad { player: PlayerId, round: u8, settlement_vertex: u8 },
    PreRoll,
    ChanceRoll,
    /// Players holding more than seven cards after a seven discard one at a
    /// time until they hold their target.
    Discard { remaining: [bool; 4], targets: [u8; 4], active: PlayerId },
    MoveRobber,
    Steal { candidates: [bool; 4] },
    Main,
    RoadBuilding { roads_left: u8 },
    GameOver { winner: PlayerId },
}

/// What the current player has done this turn.
#[derive(Clone, Copy, Debug, PartialEq, Eq)]
pub struct TurnFlags {
    pub dev_card_played: bool,
    pub has_rolled: bool,
    /// Cards bought this turn, which may not be played until a later turn.
    pub dev_cards_bought: DevCardHand,
}

impl Default for TurnFlags {
    fn default() -> (f: TurnFlags)
        ensures
            !f.dev_card_played,
            !f.has_rolled,
            forall|i: int| 0 <= i < 5 ==> #[trigger] f.dev_cards_bought.0[i] == 0,
    {
        TurnFlags { dev_card_played: false, has_rolled: false, dev_cards_bought: DevCardHand::empty() }
    }
}

#[derive(Clone, Debug)]
pub struct Game {
    pub board: Board,
    pub players: [Player; 4],
    pub phase: Phase,
    pub current_player: PlayerId,
    pub turn_number: u16,
    pub turn_flags: TurnFlags,
    /// The longest road of each player, recomputed after every build.
    pub longest_road_len: [u8; 4],
}

/// The player whose decision the game waits for.
pub open spec fn acting(g: Game) -> PlayerId {
    match g.phase {
        Phase::SetupSettlement { player, .. } => player,
        Phase::SetupRoad { player, .. } => player,
        Phase::Discard { active, .. } => active,
        _ => g.current_player,
    }
}

/// The settlements of `p` among the first `n` vertices.
pub open spec fn settlements_on(vs: Seq<Vertex>, p: PlayerId, n: int) -> nat
    decreases n,
{
    if n <= 0 {
        0
    } else {
        settlements_on(vs, p, n - 1) + if vs[n - 1] == Vertex::Settlement(p) { 1nat } else { 0nat }
    }
}

/// The cities of `p` among the first `n` vertices.
pub open spec fn cities_on(vs: Seq<Vertex>, p: PlayerId, n: int) -> nat
    decreases n,
{
    if n <= 0 {
        0
    } else {
        cities_on(vs, p, n - 1) + if vs[n - 1] == Vertex::City(p) { 1nat } else { 0nat }
    }
}

/// The roads of `p` among the first `n` edges.
pub open spec fn roads_on(es: Seq<Edge>, p: PlayerId, n: int) -> nat
    decreases n,
{
    if n <= 0 {
        0
    } else {
        roads_on(es, p, n - 1) + if es[n - 1] == Edge::Road(p) { 1nat } else { 0nat }
    }
}

/// Scans `vals[0..n]` from a starting best of `floor`; a seat takes the
/// award when its value beats the best so far. Returns the final best and
/// holder.
pub open spec fn award_scan(vals: Seq<u8>, floor: int, n: int) -> (int, Option<PlayerId>)
    decreases n,
{
    if n <= 0 {
        (floor, None)
    } else {
        let (b, o) = award_scan(vals, floor, n - 1);
        if vals[n - 1] > b {
            (vals[n - 1] as int, Some(PlayerId((n - 1) as u8)))
        } else {
            (b, o)
        }
    }
}

/// The holder of the longest road: the first seat with the longest road,
/// if that road has at least five segments.
pub open spec fn lr_owner(g: Game) -> Option<PlayerId> {
    award_scan(g.longest_road_len@, 4, 4).1
}

pub open spec fn knights_played(g: Game) -> Seq<u8> {
    Seq::new(4, |i: int| g.players[i].played_knights)
}

/// The holder of the largest army: the first seat with the most knights
/// played, if at least three.
pub open spec fn la_owner(g: Game) -> Option<PlayerId> {
    award_scan(knights_played(g), 2, 4).1
}

/// Victory points of `p`: one per settlement, two per city, two each for the
/// longest road and the largest army, one per victory-point card.
pub open spec fn victory_points_of(g: Game, p: PlayerId) -> int {
    settlements_on(g.board.vertices@, p, 54) + 2 * cities_on(g.board.vertices@, p, 54) + (if lr_owner(
        g,
    ) == Some(p) {
        2int
    } else {
        0int
    }) + (if la_owner(g) == Some(p) {
        2int
    } else {
        0int
    }) + g.players[p.0 as int].dev_cards.0[1]
}

/// A seat has at most one building per vertex.
pub proof fn lemma_building_count_bound(vs: Seq<Vertex>, p: PlayerId, n: int)
    requires
        0 <= n,
    ensures
        settlements_on(vs, p, n) + 2 * cities_on(vs, p, n) <= 2 * n,
        settlements_on(vs, p, n) <= n,
        cities_on(vs, p, n) <= n,
    decreases n,
{
    if n > 0 {
        lemma_building_count_bound(vs, p, n - 1);
    }
}

/// The building score of a prefix of the vertices is at most that of a
/// longer prefix.
pub proof fn lemma_building_count_mono(vs: Seq<Vertex>, p: PlayerId, n: int, m: int)
    requires
        0 <= n <= m,
    ensures
        settlements_on(vs, p, n) + 2 * cities_on(vs, p, n) <= settlements_on(vs, p, m) + 2 * cities_on(vs, p, m),
    decreases m - n,
{
    if n < m {
        lemma_building_count_mono(vs, p, n, m - 1);
    }
}

/// With at most 100 victory-point cards a seat's score fits in a byte.
pub proof fn lemma_score_fits(g: Game, p: PlayerId)
    requires
        g.players[p.0 as int].dev_cards.0[1] <= 100,
    ensures
        victory_points_of(g, p) <= 255,
{
    lemma_building_count_bound(g.board.vertices@, p, 54);
}

/// A seat has at most one road per edge.
pub proof fn lemma_road_count_bound(es: Seq<Edge>, p: PlayerId, n: int)
    requires
        0 <= n,
    ensures
        roads_on(es, p, n) <= n,
    decreases n,
{
    if n > 0 {
        lemma_road_count_bound(es, p, n - 1);
    }
}

/// A game as it starts: P0 to place the first settlement, an empty board
/// on a standard layout with the robber on the desert, 19 of each resource
/// in the bank, a standard deck, and every player with an empty hand and
/// a full supply of pieces.
pub open spec fn fresh_game(g: Game) -> bool {
    &&& g.board.wf()
    &&& g.phase == (Phase::SetupSettlement { player: PlayerId(0), round: 1 })
    &&& g.current_player == PlayerId(0)
    &&& g.turn_number == 0
    &&& !g.turn_flags.dev_card_played
    &&& !g.turn_flags.has_rolled
    &&& forall|i: int| 0 <= i < 5 ==> #[trigger] g.turn_flags.dev_cards_bought.0[i] == 0
    &&& forall|i: int| 0 <= i < 4 ==> #[trigger] g.longest_road_len[i] == 0
    &&& forall|i: int| 0 <= i < 4 ==> (#[trigger] g.players[i]).id == PlayerId(i as u8)
    &&& forall|i: int|
        0 <= i < 4 ==> #[trigger] g.players[i] == (Player { id: PlayerId(i as u8), ..g.players[0] })
    &&& g.players[0].played_knights == 0
    &&& g.players[0].settlements_left == 5
    &&& g.players[0].cities_left == 4
    &&& g.players[0].roads_left == 15
    &&& !g.players[0].has_three_to_one_port
    &&& forall|r: int| 0 <= r < 5 ==> #[trigger] g.players[0].resources.0[r] == 0
    &&& forall|r: int| 0 <= r < 5 ==> #[trigger] g.players[0].dev_cards.0[r] == 0
    &&& forall|r: int| 0 <= r < 5 ==> !#[trigger] g.players[0].two_to_one_ports[r]
    &&& forall|v: int| 0 <= v < 54 ==> #[trigger] g.board.vertices[v] == Vertex::Empty
    &&& forall|e: int| 0 <= e < 72 ==> #[trigger] g.board.edges[e] == Edge::Empty
    &&& forall|r: int| 0 <= r < 5 ==> #[trigger] g.board.bank.0[r] == 19
    &&& g.board.tiles[g.board.robber.0 as int].terrain == crate::board::Terrain::Desert
    &&& crate::board::deck_is_standard(g.board.dev_card_deck)
}

impl Game {
    /// A new game on a freshly generated board, P0 to place the first
    /// settlement.
    pub fn new<R: GameRng>(rng: &mut R) -> (g: Game)
        ensures
            fresh_game(g),
            g.inv(),
    {
        let board = Board::generate(rng);
        let players = [
            Player::new(PlayerId(0)),
            Player::new(PlayerId(1)),
            Player::new(PlayerId(2)),
            Player::new(PlayerId(3)),
        ];
        let g = Game {
            board,
            players,
            phase: Phase::SetupSettlement { player: PlayerId(0), round: 1 },
            current_player: PlayerId(0),
            turn_number: 0,
            turn_flags: TurnFlags::default(),
            longest_road_len: [0u8; 4],
        };
        assert(g.players[1].resources.0 =~= g.players[0].resources.0);
        assert(g.players[2].resources.0 =~= g.players[0].resources.0);
        assert(g.players[3].resources.0 =~= g.players[0].resources.0);
        assert(g.players[1].dev_cards.0 =~= g.players[0].dev_cards.0);
        assert(g.players[2].dev_cards.0 =~= g.players[0].dev_cards.0);
        assert(g.players[3].dev_cards.0 =~= g.players[0].dev_cards.0);
        assert(g.players[1].two_to_one_ports =~= g.players[0].two_to_one_ports);
        assert(g.players[2].two_to_one_ports =~= g.players[0].two_to_one_ports);
        assert(g.players[3].two_to_one_ports =~= g.players[0].two_to_one_ports);
        proof {
            crate::laws::lemma_fresh_inv(g);
        }
        g
    }

    pub fn acting_player(&self) -> (p: PlayerId)
        ensures
            p == acting(*self),
    {
        match &self.phase {
            Phase::SetupSettlement { player, .. } => *player,
            Phase::SetupRoad { player, .. } => *player,
            Phase::Discard { active, .. } => *active,
            _ => self.current_player,
        }
    }

    pub fn is_terminal(&self) -> (b: bool)
        ensures
            b == (self.phase is GameOver),
    {
        match self.phase {
            Phase::GameOver { .. } => true,
            _ => false,
        }
    }

    pub fn winner(&self) -> (w: Option<PlayerId>)
        ensures
            w == match self.phase {
                Phase::GameOver { winner } => Some(winner),
                _ => None::<PlayerId>,
            },
    {
        match self.phase {
            Phase::GameOver { winner } => Some(winner),
            _ => None,
        }
    }

    pub fn is_chance_node(&self) -> (b: bool)
        ensures
            b == (self.phase is ChanceRoll),
    {
        match self.phase {
            Phase::ChanceRoll => true,
            _ => false,
        }
    }

    /// The first seat with the longest road, if it has at least five
    /// segments.
    pub fn longest_road_owner(&self) -> (o: Option<PlayerId>)
        ensures
            o == lr_owner(*self),
    {
        let mut best_len: u8 = 0;
        let mut best_pid: Option<PlayerId> = None;
        let mut i: usize = 0;
        while i < 4
            invariant
                i <= 4,
                best_pid == award_scan(self.longest_road_len@, 4, i as int).1,
                best_pid is None ==> best_len == 0 && award_scan(self.longest_road_len@, 4, i as int).0
                    == 4,
                best_pid is Some ==> best_len == award_scan(self.longest_road_len@, 4, i as int).0
                    && best_len >= 5,
            decreases 4 - i,
        {
            let len = self.longest_road_len[i];
            if len >= 5 && len > best_len {
                best_len = len;
                best_pid = Some(PlayerId(i as u8));
            }
            i = i + 1;
        }
        best_pid
    }

    /// The first seat with the most knights played, if at least three.
    pub fn largest_army_owner(&self) -> (o: Option<PlayerId>)
        ensures
            o == la_owner(*self),
    {
        let mut best_k: u8 = 2;
        let mut best_pid: Option<PlayerId> = None;
        let mut i: u8 = 0;
        while i < 4
            invariant
                i <= 4,
                best_pid == award_scan(knights_played(*self), 2, i as int).1,
                best_k == award_scan(knights_played(*self), 2, i as int).0,
            decreases 4 - i,
        {
            let k = self.players[i as usize].played_knights;
            if k > best_k {
                best_k = k;
                best_pid = Some(PlayerId(i));
            }
            i = i + 1;
        }
        best_pid
    }

    pub fn victory_points(&self, player: PlayerId) -> (vp: u8)
        requires
            player.0 < 4,
            victory_points_of(*self, player) <= 255,
        ensures
            vp == victory_points_of(*self, player),
    {
        let mut vp: u8 = 0;
        let mut i: usize = 0;
        while i < 54
            invariant
                i <= 54,
                victory_points_of(*self, player) <= 255,
                vp == settlements_on(self.board.vertices@, player, i as int) + 2 * cities_on(
                    self.board.vertices@,
                    player,
                    i as int,
                ),
            decreases 54 - i,
        {
            proof {
                lemma_building_count_bound(self.board.vertices@, player, i as int);
                lemma_building_count_mono(self.board.vertices@, player, i as int + 1, 54);
            }
            match self.board.vertices[i] {
                Vertex::Settlement(p) => {
                    if p == player {
                        vp = vp + 1;
                    }
                },
                Vertex::City(p) => {
                    if p == player {
                        vp = vp + 2;
                    }
                },
                Vertex::Empty => {},
            }
            i = i + 1;
        }
        proof {
            lemma_building_count_bound(self.board.vertices@, player, 54);
        }
        match self.longest_road_owner() {
            Some(p) => {
                if p == player {
                    vp = vp + 2;
                }
            },
            None => {},
        }
        match self.largest_army_owner() {
            Some(p) => {
                if p == player {
                    vp = vp + 2;
                }
            },
            None => {},
        }
        vp = vp + self.players[player.idx()].dev_cards.get(DevelopmentCard::VictoryPoint);
        vp
    }
}

} // verus!
