//! What each move does to the game, and the dice.

use vstd::prelude::*;
use crate::action::{action_at, action_canonical, action_index, action_wf, Action, ActionMask};
use crate::board::{Board, Edge, Port, Vertex};
use crate::game::{acting, victory_points_of, Game, Phase, TurnFlags};
use crate::longest_road::{lemma_longest_roads_frame, with_longest_roads};
use crate::player::{trade_rate_of, with_port, Player};
use crate::resource::{bank_total, DevelopmentCard, Resource, ResourceBank};
use crate::rng::GameRng;
use crate::rules::{has_road_spot, legal, CITY_COST, DEV_CARD_COST, ROAD_COST, SETTLEMENT_COST};
use crate::state::{
    bank_to_player, set_bank, set_board, set_count, set_edge, set_phase, set_player, set_player_res,
    set_vertex,
};
use crate::topology::{lemma_tables, port_slot, tiles_at, EDGE_VERTICES, TILE_VERTICES};
use crate::types::{EdgeId, PlayerId, TileId, VertexId};
use crate::moves::{
    accepts, apply_spec, yop_spec, build_road, build_road_mid, discard, draw_card, fresh_flags, monopoly, others_hold,
    owns_corner, play_card, player_to_bank, put_city, put_road, put_settlement, settle, settle_mid,
    steal_candidates, stolen_resource,
};
use crate::state::{card_count, dev_count, owners_valid};
use crate::resource::hand_total;

use crate::scores::{lemma_apply_keeps_scores, lemma_resolve_keeps_scores, roads_current, scores_consistent};
use crate::laws::resource_total;
verus! {

broadcast use {
    vstd::array::axiom_spec_array_update,
    vstd::array::axiom_array_ext_equal,
    vstd::array::array_len_matches_n,
};

// ---------------------------------------------------------------------------
// Spec of the building blocks
// ---------------------------------------------------------------------------

/// Player `p` pays `cost` to the bank.
pub open spec fn pay_spec(g: Game, p: int, cost: [u8; 5]) -> Game {
    let pl = g.players[p];
    let res = ResourceBank(
        [
            (pl.resources.0[0] - cost[0]) as u8,
            (pl.resources.0[1] - cost[1]) as u8,
            (pl.resources.0[2] - cost[2]) as u8,
            (pl.resources.0[3] - cost[3]) as u8,
            (pl.resources.0[4] - cost[4]) as u8,
        ],
    );
    let bank = ResourceBank(
        [
            (g.board.bank.0[0] + cost[0]) as u8,
            (g.board.bank.0[1] + cost[1]) as u8,
            (g.board.bank.0[2] + cost[2]) as u8,
            (g.board.bank.0[3] + cost[3]) as u8,
            (g.board.bank.0[4] + cost[4]) as u8,
        ],
    );
    set_bank(set_player(g, p, Player { resources: res, ..pl }), bank)
}

/// The first seat among `0..n` with at least ten victory points.
pub open spec fn first_winner(g: Game, n: int) -> Option<PlayerId>
    decreases n,
{
    if n <= 0 {
        None
    } else {
        match first_winner(g, n - 1) {
            Some(w) => Some(w),
            None => if victory_points_of(g, PlayerId((n - 1) as u8)) >= 10 {
                Some(PlayerId((n - 1) as u8))
            } else {
                None
            },
        }
    }
}

proof fn lemma_first_winner_stays(g: Game, n: int, m: int)
    requires
        0 <= n <= m,
        first_winner(g, n) is Some,
    ensures
        first_winner(g, m) == first_winner(g, n),
    decreases m - n,
{
    if n < m {
        lemma_first_winner_stays(g, n, m - 1);
    }
}

/// The game ends with the first seat that has ten points, unless it is over
/// already.
#[verifier::opaque]
pub open spec fn check_victory_spec(g: Game) -> Game {
    if g.phase is GameOver {
        g
    } else {
        match first_winner(g, 4) {
            Some(w) => set_phase(g, Phase::GameOver { winner: w }),
            None => g,
        }
    }
}

/// Player `p` collects one card from each tile among the first `k` of `tiles`
/// that produces something the bank still has.
pub open spec fn grant_tiles(g: Game, p: int, tiles: Seq<u8>, k: int) -> Game
    decreases k,
{
    if k <= 0 {
        g
    } else {
        let g0 = grant_tiles(g, p, tiles, k - 1);
        match g0.board.tiles[tiles[k - 1] as int].terrain.spec_resource() {
            Some(r) => if g0.board.bank.0[r.spec_idx()] > 0 {
                bank_to_player(g0, p, r.spec_idx(), 1)
            } else {
                g0
            },
            None => g0,
        }
    }
}

pub open spec fn min_int(a: int, b: int) -> int {
    if a <= b {
        a
    } else {
        b
    }
}

/// The production of corner `n` (tile `n / 6`, corner `n % 6`) for `roll`:
/// a settlement takes one card, a city two, as far as the bank has them.
pub open spec fn produce_step(g: Game, roll: u8, n: int) -> Game {
    let t = n / 6;
    let c = n % 6;
    let tile = g.board.tiles[t];
    if tile.number != roll || g.board.robber == TileId(t as u8) {
        g
    } else {
        match tile.terrain.spec_resource() {
            None => g,
            Some(r) => match g.board.vertices[TILE_VERTICES[t][c] as int] {
                Vertex::Settlement(p) => bank_to_player(
                    g,
                    p.0 as int,
                    r.spec_idx(),
                    min_int(1, g.board.bank.0[r.spec_idx()] as int),
                ),
                Vertex::City(p) => bank_to_player(
                    g,
                    p.0 as int,
                    r.spec_idx(),
                    min_int(2, g.board.bank.0[r.spec_idx()] as int),
                ),
                Vertex::Empty => g,
            },
        }
    }
}

/// Production of the first `n` corners, in tile order.
pub open spec fn produce(g: Game, roll: u8, n: int) -> Game
    decreases n,
{
    if n <= 0 {
        g
    } else {
        produce_step(produce(g, roll, n - 1), roll, n - 1)
    }
}

/// The first seat `i` with `flags[i]` set.
pub open spec fn first_set(flags: [bool; 4]) -> Option<u8> {
    if flags[0] {
        Some(0u8)
    } else if flags[1] {
        Some(1u8)
    } else if flags[2] {
        Some(2u8)
    } else if flags[3] {
        Some(3u8)
    } else {
        None
    }
}

/// The discard phase that starts after a seven: players holding more than
/// seven cards keep half, rounded up.
pub open spec fn seven_phase(g: Game) -> Phase {
    let remaining = [
        bank_total(g.players[0].resources) > 7,
        bank_total(g.players[1].resources) > 7,
        bank_total(g.players[2].resources) > 7,
        bank_total(g.players[3].resources) > 7,
    ];
    let targets = [
        ((bank_total(g.players[0].resources) + 1) / 2) as u8,
        ((bank_total(g.players[1].resources) + 1) / 2) as u8,
        ((bank_total(g.players[2].resources) + 1) / 2) as u8,
        ((bank_total(g.players[3].resources) + 1) / 2) as u8,
    ];
    match first_set(remaining) {
        None => Phase::MoveRobber,
        Some(first) => Phase::Discard { remaining, targets, active: PlayerId(first) },
    }
}

/// The total of two dice.
pub open spec fn dice_total(d1: int, d2: int) -> u8 {
    (d1 + d2) as u8
}

/// The outcome of the dice showing `roll`.
pub open spec fn resolve_spec(g: Game, roll: u8) -> Game {
    let g1 = Game { turn_flags: TurnFlags { has_rolled: true, ..g.turn_flags }, ..g };
    if roll == 7 {
        set_phase(g1, seven_phase(g1))
    } else {
        set_phase(produce(g1, roll, 114), Phase::Main)
    }
}

// ---------------------------------------------------------------------------
// Exec building blocks
// ---------------------------------------------------------------------------

impl Game {
    fn add_player_res(&mut self, p: usize, r: usize, n: u8)
        requires
            p < 4,
            r < 5,
            old(self).players[p as int].resources.0[r as int] + n <= 255,
        ensures
            *final(self) == set_player_res(
                *old(self),
                p as int,
                r as int,
                old(self).players[p as int].resources.0[r as int] + n,
            ),
    {
        self.players[p].resources.0[r] = self.players[p].resources.0[r] + n;
        proof {
            let e = set_player_res(
                *old(self),
                p as int,
                r as int,
                old(self).players[p as int].resources.0[r as int] + n,
            );
            assert(self.players[p as int].resources.0 =~= e.players[p as int].resources.0);
            assert(self.players =~= e.players);
        }
    }

    fn sub_player_res(&mut self, p: usize, r: usize, n: u8)
        requires
            p < 4,
            r < 5,
            old(self).players[p as int].resources.0[r as int] >= n,
        ensures
            *final(self) == set_player_res(
                *old(self),
                p as int,
                r as int,
                old(self).players[p as int].resources.0[r as int] - n,
            ),
    {
        self.players[p].resources.0[r] = self.players[p].resources.0[r] - n;
        proof {
            let e = set_player_res(
                *old(self),
                p as int,
                r as int,
                old(self).players[p as int].resources.0[r as int] - n,
            );
            assert(self.players[p as int].resources.0 =~= e.players[p as int].resources.0);
            assert(self.players =~= e.players);
        }
    }

    fn set_bank_count(&mut self, r: usize, n: u8)
        requires
            r < 5,
        ensures
            *final(self) == set_bank(*old(self), set_count(old(self).board.bank, r as int, n as int)),
    {
        self.board.bank.0[r] = n;
        proof {
            assert(self.board.bank.0 =~= set_count(old(self).board.bank, r as int, n as int).0);
        }
    }

    /// `n` of resource `r` go from the bank to player `p`.
    fn bank_to_player(&mut self, p: usize, r: usize, n: u8)
        requires
            p < 4,
            r < 5,
            old(self).players[p as int].resources.0[r as int] + n <= 255,
            old(self).board.bank.0[r as int] >= n,
        ensures
            *final(self) == bank_to_player(*old(self), p as int, r as int, n as int),
    {
        self.add_player_res(p, r, n);
        let b = self.board.bank.0[r] - n;
        self.set_bank_count(r, b);
    }

    /// Player `player` pays `cost` to the bank.
    pub fn pay(&mut self, player: PlayerId, cost: [u8; 5])
        requires
            player.0 < 4,
            forall|i: int| 0 <= i < 5 ==> old(self).players[player.0 as int].resources.0[i] >= cost[i],
            forall|i: int| 0 <= i < 5 ==> old(self).board.bank.0[i] + cost[i] <= 255,
        ensures
            *final(self) == pay_spec(*old(self), player.0 as int, cost),
    {
        let p = player.idx();
        let mut i: usize = 0;
        while i < 5
            invariant
                i <= 5,
                p == player.0,
                p < 4,
                forall|j: int| 0 <= j < 5 ==> old(self).players[p as int].resources.0[j] >= cost[j],
                forall|j: int| 0 <= j < 5 ==> old(self).board.bank.0[j] + cost[j] <= 255,
                forall|j: int|
                    0 <= j < i ==> self.players[p as int].resources.0[j]
                        == old(self).players[p as int].resources.0[j] - cost[j],
                forall|j: int|
                    i <= j < 5 ==> self.players[p as int].resources.0[j]
                        == old(self).players[p as int].resources.0[j],
                forall|j: int| 0 <= j < i ==> self.board.bank.0[j] == old(self).board.bank.0[j] + cost[j],
                forall|j: int| i <= j < 5 ==> self.board.bank.0[j] == old(self).board.bank.0[j],
                *self == (Game {
                    players: self.players,
                    board: Board { bank: self.board.bank, ..old(self).board },
                    ..*old(self)
                }),
                forall|q: int| 0 <= q < 4 && q != p ==> self.players[q] == old(self).players[q],
                self.players[p as int] == (Player {
                    resources: self.players[p as int].resources,
                    ..old(self).players[p as int]
                }),
            decreases 5 - i,
        {
            self.players[p].resources.0[i] = self.players[p].resources.0[i] - cost[i];
            self.board.bank.0[i] = self.board.bank.0[i] + cost[i];
            i = i + 1;
        }
        proof {
            let e = pay_spec(*old(self), p as int, cost);
            assert(self.players[p as int].resources.0 =~= e.players[p as int].resources.0);
            assert(self.players =~= e.players);
            assert(self.board.bank.0 =~= e.board.bank.0);
        }
    }

    /// Ends the game in favor of the first seat with ten victory points.
    pub fn check_victory(&mut self)
        requires
            forall|p: int| 0 <= p < 4 ==> (#[trigger] old(self).players[p]).dev_cards.0[1] <= 100,
        ensures
            *final(self) == check_victory_spec(*old(self)),
    {
        reveal(check_victory_spec);
        if self.is_terminal() {
            return;
        }
        let mut i: u8 = 0;
        while i < 4
            invariant
                i <= 4,
                *self == *old(self),
                !(self.phase is GameOver),
                forall|p: int| 0 <= p < 4 ==> (#[trigger] self.players[p]).dev_cards.0[1] <= 100,
                first_winner(*self, i as int) is None,
            decreases 4 - i,
        {
            let pid = PlayerId(i);
            proof {
                crate::game::lemma_score_fits(*self, pid);
            }
            if self.victory_points(pid) >= 10 {
                proof {
                    lemma_first_winner_stays(*self, i as int + 1, 4);
                    reveal(check_victory_spec);
                }
                self.phase = Phase::GameOver { winner: pid };
                return;
            }
            i = i + 1;
        }
    }

    /// Player `p` collects from the tiles around `v` (the second setup
    /// settlement).
    #[verifier::spinoff_prover]
    fn grant_setup_resources(&mut self, p: usize, v: usize)
        requires
            p < 4,
            v < 54,
            old(self).board.wf(),
            forall|r: int| 0 <= r < 5 ==> old(self).players[p as int].resources.0[r] + old(self).board.bank.0[r] <= 255,
        ensures
            *final(self) == grant_tiles(*old(self), p as int, tiles_at(v as int, 19), tiles_at(v as int, 19).len() as int),
    {
        let tiles = vstd::slice::slice_to_vec(self.board.topo.vertex_tiles(v));
        let ghost ts = tiles@;
        proof {
            crate::topology::lemma_tiles_at(v as int, 19);
        }
        let mut k: usize = 0;
        while k < tiles.len()
            invariant
                p < 4,
                tiles@ == ts,
                ts == tiles_at(v as int, 19),
                forall|j: int| 0 <= j < ts.len() ==> #[trigger] ts[j] < 19,
                k <= tiles.len(),
                *self == grant_tiles(*old(self), p as int, ts, k as int),
                forall|r: int| 0 <= r < 5 ==> self.players[p as int].resources.0[r] + self.board.bank.0[r] <= 255,
                self.board.tiles == old(self).board.tiles,
            decreases tiles.len() - k,
        {
            let t = tiles[k] as usize;
            match self.board.tiles[t].terrain.resource() {
                Some(r) => {
                    let ri = r.idx();
                    if self.board.bank.0[ri] > 0 {
                        self.bank_to_player(p, ri, 1);
                    }
                },
                None => {},
            }
            k = k + 1;
        }
    }
}


/// A card count within a byte bounds every single count and every hand.
pub proof fn lemma_card_count_bounds(g: Game)
    requires
        card_count(g) <= 255,
    ensures
        forall|p: int, r: int|
            0 <= p < 4 && 0 <= r < 5 ==> #[trigger] g.players[p].resources.0[r] + g.board.bank.0[r]
                <= 255,
        forall|p: int| 0 <= p < 4 ==> bank_total(#[trigger] g.players[p].resources) <= 255,
        forall|r: int| 0 <= r < 5 ==> g.board.bank.0[r] + #[trigger] g.board.bank.0[r] <= 510,
{
    assert forall|p: int, r: int|
        0 <= p < 4 && 0 <= r < 5 implies #[trigger] g.players[p].resources.0[r] + g.board.bank.0[r]
            <= 255 by {
        assert(g.players[p].resources.0[r] <= bank_total(g.players[p].resources));
        assert(g.board.bank.0[r] <= bank_total(g.board.bank));
    }
}

/// Two different hands hold at most a byte's worth of any one resource.
proof fn lemma_two_hands(g: Game, p: int, q: int, r: int)
    requires
        card_count(g) <= 255,
        0 <= p < 4,
        0 <= q < 4,
        p != q,
        0 <= r < 5,
    ensures
        g.players[p].resources.0[r] + g.players[q].resources.0[r] <= 255,
{
    assert(g.players[p].resources.0[r] <= bank_total(g.players[p].resources));
    assert(g.players[q].resources.0[r] <= bank_total(g.players[q].resources));
}

/// All the cards of one resource fit in a byte.
proof fn lemma_monopoly_fits(g: Game, r: int)
    requires
        card_count(g) <= 255,
        0 <= r < 5,
    ensures
        g.players[0].resources.0[r] + g.players[1].resources.0[r] + g.players[2].resources.0[r]
            + g.players[3].resources.0[r] <= 255,
{
    assert(g.players[0].resources.0[r] <= bank_total(g.players[0].resources));
    assert(g.players[1].resources.0[r] <= bank_total(g.players[1].resources));
    assert(g.players[2].resources.0[r] <= bank_total(g.players[2].resources));
    assert(g.players[3].resources.0[r] <= bank_total(g.players[3].resources));
}

/// Few development cards bound every count of them.
pub proof fn lemma_dev_count_bounds(g: Game)
    requires
        dev_count(g) <= 100,
    ensures
        forall|p: int| 0 <= p < 4 ==> (#[trigger] g.players[p]).dev_cards.0[1] <= 100,
        forall|p: int, c: int| 0 <= p < 4 && 0 <= c < 5 ==> (#[trigger] g.players[p].dev_cards.0[c]) <= 100,
        forall|p: int| 0 <= p < 4 ==> (#[trigger] g.players[p]).played_knights <= 100,
{
    assert forall|p: int, c: int| 0 <= p < 4 && 0 <= c < 5 implies (#[trigger] g.players[p].dev_cards.0[c]) <= 100 by {
        assert(g.players[p].dev_cards.0[c] <= hand_total(g.players[p].dev_cards));
    }
    assert forall|p: int| 0 <= p < 4 implies (#[trigger] g.players[p]).dev_cards.0[1] <= 100 by {
        assert(g.players[p].dev_cards.0[1] <= hand_total(g.players[p].dev_cards));
    }
}

/// Checking for a winner changes at most the phase.
pub proof fn lemma_check_victory_frame(g: Game)
    ensures
        check_victory_spec(g) == (Game { phase: check_victory_spec(g).phase, ..g }),
        check_victory_spec(g).phase == g.phase || check_victory_spec(g).phase is GameOver,
{
    reveal(check_victory_spec);
}

/// Collecting from tiles moves cards from the bank to player `p` and changes
/// nothing else.
pub proof fn lemma_grant_tiles_frame(g: Game, p: int, tiles: Seq<u8>, k: int)
    requires
        0 <= p < 4,
        forall|r: int| 0 <= r < 5 ==> g.players[p].resources.0[r] + g.board.bank.0[r] <= 255,
    ensures
        grant_tiles(g, p, tiles, k) == (Game {
            players: grant_tiles(g, p, tiles, k).players,
            board: Board { bank: grant_tiles(g, p, tiles, k).board.bank, ..g.board },
            ..g
        }),
        forall|q: int|
            0 <= q < 4 ==> (#[trigger] grant_tiles(g, p, tiles, k).players[q]) == (Player {
                resources: grant_tiles(g, p, tiles, k).players[q].resources,
                ..g.players[q]
            }),
        forall|q: int| 0 <= q < 4 && q != p ==> (#[trigger] grant_tiles(g, p, tiles, k).players[q]) == g.players[q],
        forall|r: int|
            0 <= r < 5 ==> grant_tiles(g, p, tiles, k).players[p].resources.0[r] + #[trigger] grant_tiles(
                g,
                p,
                tiles,
                k,
            ).board.bank.0[r] == g.players[p].resources.0[r] + g.board.bank.0[r],
        card_count(grant_tiles(g, p, tiles, k)) == card_count(g),
    decreases k,
{
    if k > 0 {
        lemma_grant_tiles_frame(g, p, tiles, k - 1);
        let g0 = grant_tiles(g, p, tiles, k - 1);
        match g0.board.tiles[tiles[k - 1] as int].terrain.spec_resource() {
            Some(r) => {
                if g0.board.bank.0[r.spec_idx()] > 0 {
                    assert(0 <= r.spec_idx() < 5);
                    lemma_bank_to_player_frame(g0, p, r.spec_idx(), 1);
                }
            },
            None => {},
        }
    }
}

/// Moving `n` cards of resource `r` from the bank to player `p` changes only
/// those two counts.
pub proof fn lemma_bank_to_player_frame(g: Game, p: int, r: int, n: int)
    requires
        0 <= p < 4,
        0 <= r < 5,
        0 <= n <= g.board.bank.0[r],
        g.players[p].resources.0[r] + n <= 255,
    ensures
        bank_to_player(g, p, r, n) == (Game {
            players: bank_to_player(g, p, r, n).players,
            board: Board { bank: bank_to_player(g, p, r, n).board.bank, ..g.board },
            ..g
        }),
        forall|q: int|
            0 <= q < 4 ==> (#[trigger] bank_to_player(g, p, r, n).players[q]) == (Player {
                resources: bank_to_player(g, p, r, n).players[q].resources,
                ..g.players[q]
            }),
        forall|q: int| 0 <= q < 4 && q != p ==> (#[trigger] bank_to_player(g, p, r, n).players[q]) == g.players[q],
        forall|s: int|
            0 <= s < 5 && s != r ==> (#[trigger] bank_to_player(g, p, r, n).players[p].resources.0[s])
                == g.players[p].resources.0[s] && bank_to_player(g, p, r, n).board.bank.0[s]
                == g.board.bank.0[s],
        bank_to_player(g, p, r, n).players[p].resources.0[r] == g.players[p].resources.0[r] + n,
        bank_to_player(g, p, r, n).board.bank.0[r] == g.board.bank.0[r] - n,
        card_count(bank_to_player(g, p, r, n)) == card_count(g),
{
    let g1 = bank_to_player(g, p, r, n);
    assert(bank_total(g1.players[p].resources) == bank_total(g.players[p].resources) + n);
    assert(bank_total(g1.board.bank) == bank_total(g.board.bank) - n);
}

/// Placing a settlement keeps the cards, the phase and the board's layout.
pub proof fn lemma_put_settlement_frame(g: Game, p: PlayerId, v: int)
    requires
        p.0 < 4,
    ensures
        card_count(put_settlement(g, p, v)) == card_count(g),
        dev_count(put_settlement(g, p, v)) == dev_count(g),
        put_settlement(g, p, v).phase == g.phase,
        put_settlement(g, p, v).board.topo == g.board.topo,
        put_settlement(g, p, v).board.robber == g.board.robber,
        put_settlement(g, p, v).board.tiles == g.board.tiles,
        put_settlement(g, p, v).current_player == g.current_player,
        put_settlement(g, p, v).turn_flags == g.turn_flags,
        forall|q: int| 0 <= q < 4 ==> (#[trigger] put_settlement(g, p, v).players[q]).resources == g.players[q].resources,
        forall|q: int| 0 <= q < 4 ==> (#[trigger] put_settlement(g, p, v).players[q]).dev_cards == g.players[q].dev_cards,
{
    let g1 = put_settlement(g, p, v);
    assert forall|q: int| 0 <= q < 4 implies (#[trigger] g1.players[q]).resources == g.players[q].resources
        && g1.players[q].dev_cards == g.players[q].dev_cards && g1.players[q].played_knights == g.players[q].played_knights by {
        if q == p.0 {
            match port_slot(v, 9) {
                Some(s) => {
                    match g.board.harbors[s as int] {
                        _ => {},
                    }
                },
                None => {},
            }
        }
    }
}

/// Paying moves cards between a hand and the bank and changes nothing else.
pub proof fn lemma_pay_frame(g: Game, p: int, cost: [u8; 5])
    requires
        0 <= p < 4,
        forall|i: int| 0 <= i < 5 ==> g.players[p].resources.0[i] >= cost[i],
        forall|i: int| 0 <= i < 5 ==> g.board.bank.0[i] + cost[i] <= 255,
    ensures
        card_count(pay_spec(g, p, cost)) == card_count(g),
        dev_count(pay_spec(g, p, cost)) == dev_count(g),
        pay_spec(g, p, cost).phase == g.phase,
        pay_spec(g, p, cost).board.topo == g.board.topo,
        pay_spec(g, p, cost).board.robber == g.board.robber,
        pay_spec(g, p, cost).board.tiles == g.board.tiles,
        pay_spec(g, p, cost).current_player == g.current_player,
        forall|q: int| 0 <= q < 4 ==> (#[trigger] pay_spec(g, p, cost).players[q]).dev_cards == g.players[q].dev_cards,
{
}

impl Game {
    fn place_settlement(&mut self, p: PlayerId, v: usize)
        requires
            old(self).board.wf(),
            p.0 < 4,
            v < 54,
            old(self).players[p.0 as int].settlements_left > 0,
        ensures
            *final(self) == put_settlement(*old(self), p, v as int),
    {
        let pi = p.idx();
        self.board.vertices[v] = Vertex::Settlement(p);
        let mut pl = self.players[pi];
        pl.settlements_left = pl.settlements_left - 1;
        match self.board.port_at(v) {
            Some(pt) => pl.update_ports(pt),
            None => {},
        }
        self.players[pi] = pl;
        proof {
            let e = put_settlement(*old(self), p, v as int);
            assert(self.board.vertices =~= e.board.vertices);
            assert(self.players =~= e.players);
        }
    }

    #[verifier::spinoff_prover]
    fn settle_first(&mut self, v: usize)
        requires
            old(self).bounded(),
            v < 54,
            legal(*old(self), Action::PlaceSettlement(VertexId(v as u8))),
        ensures
            *final(self) == settle_mid(*old(self), v as int),
            final(self).board.wf(),
            dev_count(*final(self)) == dev_count(*old(self)),
    {
        let pid = self.acting_player();
        let pi = pid.idx();
        let ghost g0 = *self;
        proof {
            lemma_card_count_bounds(*self);
        }
        self.place_settlement(pid, v);
        let ghost g1 = *self;
        proof {
            lemma_put_settlement_frame(g0, pid, v as int);
            lemma_card_count_bounds(g1);
            lemma_dev_count_bounds(g1);
        }
        match self.phase {
            Phase::SetupSettlement { player, round } => {
                if round == 2 {
                    self.grant_setup_resources(pi, v);
                    proof {
                        lemma_grant_tiles_frame(g1, pi as int, tiles_at(v as int, 19), tiles_at(v as int, 19).len() as int);
                    }
                }
                self.phase = Phase::SetupRoad { player, round, settlement_vertex: v as u8 };
            },
            _ => {
                self.pay(pid, SETTLEMENT_COST);
                proof {
                    lemma_pay_frame(g1, pi as int, SETTLEMENT_COST);
                }
                let ghost g2 = *self;
                self.check_victory();
                proof {
                    lemma_check_victory_frame(g2);
                }
            },
        }
    }

    #[verifier::spinoff_prover]
    fn do_settle(&mut self, v: usize)
        requires
            old(self).bounded(),
            v < 54,
            legal(*old(self), Action::PlaceSettlement(VertexId(v as u8))),
        ensures
            *final(self) == settle(*old(self), v as int),
    {
        self.settle_first(v);
        let ghost g1 = *self;
        self.compute_longest_road();
        proof {
            lemma_longest_roads_frame(g1);
            lemma_dev_count_bounds(*self);
        }
        self.check_victory();
    }
}

/// Placing a road keeps the cards, the phase and the board's layout.
pub proof fn lemma_put_road_frame(g: Game, p: PlayerId, e: int)
    requires
        p.0 < 4,
    ensures
        card_count(put_road(g, p, e)) == card_count(g),
        dev_count(put_road(g, p, e)) == dev_count(g),
        put_road(g, p, e).phase == g.phase,
        put_road(g, p, e).board.topo == g.board.topo,
        put_road(g, p, e).board.robber == g.board.robber,
        put_road(g, p, e).current_player == g.current_player,
        forall|q: int| 0 <= q < 4 ==> (#[trigger] put_road(g, p, e).players[q]).resources == g.players[q].resources,
        forall|q: int| 0 <= q < 4 ==> (#[trigger] put_road(g, p, e).players[q]).dev_cards == g.players[q].dev_cards,
{
}

impl Game {
    fn place_road(&mut self, p: PlayerId, e: usize)
        requires
            p.0 < 4,
            e < 72,
            old(self).players[p.0 as int].roads_left > 0,
        ensures
            *final(self) == put_road(*old(self), p, e as int),
    {
        let pi = p.idx();
        self.board.edges[e] = Edge::Road(p);
        self.players[pi].roads_left = self.players[pi].roads_left - 1;
        proof {
            let x = put_road(*old(self), p, e as int);
            assert(self.board.edges =~= x.board.edges);
            assert(self.players =~= x.players);
        }
    }

    #[verifier::spinoff_prover]
    fn road_first(&mut self, e: usize)
        requires
            old(self).bounded(),
            e < 72,
            legal(*old(self), Action::PlaceRoad(EdgeId(e as u8))),
        ensures
            *final(self) == build_road_mid(*old(self), e as int),
            final(self).board.wf(),
            dev_count(*final(self)) == dev_count(*old(self)),
    {
        let pid = self.acting_player();
        let pi = pid.idx();
        let ghost g0 = *self;
        proof {
            lemma_card_count_bounds(*self);
        }
        self.place_road(pid, e);
        let ghost g1 = *self;
        proof {
            lemma_put_road_frame(g0, pid, e as int);
            lemma_card_count_bounds(g1);
            lemma_dev_count_bounds(g1);
        }
        match self.phase {
            Phase::SetupRoad { player, round, .. } => {
                if round == 1 {
                    if player.0 < 3 {
                        self.phase = Phase::SetupSettlement { player: player.next(), round: 1 };
                    } else {
                        self.phase = Phase::SetupSettlement { player, round: 2 };
                    }
                } else if player.0 > 0 {
                    self.phase = Phase::SetupSettlement { player: player.prev(), round: 2 };
                } else {
                    self.current_player = PlayerId(0);
                    self.phase = Phase::PreRoll;
                }
            },
            Phase::RoadBuilding { roads_left } => {
                if roads_left <= 1 || !self.has_legal_road(pid) {
                    self.phase = Phase::Main;
                } else {
                    self.phase = Phase::RoadBuilding { roads_left: roads_left - 1 };
                }
                let ghost g2 = *self;
                self.check_victory();
                proof {
                    lemma_check_victory_frame(g2);
                }
            },
            _ => {
                self.pay(pid, ROAD_COST);
                proof {
                    lemma_pay_frame(g1, pi as int, ROAD_COST);
                }
                let ghost g2 = *self;
                self.check_victory();
                proof {
                    lemma_check_victory_frame(g2);
                }
            },
        }
    }

    #[verifier::spinoff_prover]
    fn do_road(&mut self, e: usize)
        requires
            old(self).bounded(),
            e < 72,
            legal(*old(self), Action::PlaceRoad(EdgeId(e as u8))),
        ensures
            *final(self) == build_road(*old(self), e as int),
    {
        self.road_first(e);
        let ghost g1 = *self;
        self.compute_longest_road();
        proof {
            lemma_longest_roads_frame(g1);
            lemma_dev_count_bounds(*self);
        }
        self.check_victory();
    }

    #[verifier::spinoff_prover]
    fn do_city(&mut self, v: usize)
        requires
            old(self).bounded(),
            v < 54,
            legal(*old(self), Action::BuildCity(VertexId(v as u8))),
        ensures
            *final(self) == check_victory_spec(
                with_longest_roads(put_city(pay_spec(*old(self), acting(*old(self)).0 as int, CITY_COST), acting(*old(self)), v as int)),
            ),
    {
        let pid = self.current_player;
        let pi = pid.idx();
        let ghost g0 = *self;
        proof {
            lemma_card_count_bounds(*self);
            lemma_dev_count_bounds(*self);
        }
        self.pay(pid, CITY_COST);
        proof {
            lemma_pay_frame(g0, pi as int, CITY_COST);
        }
        let ghost g1 = *self;
        self.board.vertices[v] = Vertex::City(pid);
        self.players[pi].cities_left = self.players[pi].cities_left - 1;
        self.players[pi].settlements_left = self.players[pi].settlements_left + 1;
        proof {
            let x = put_city(g1, pid, v as int);
            assert(self.board.vertices =~= x.board.vertices);
            assert(self.players =~= x.players);
        }
        let ghost g2 = *self;
        self.compute_longest_road();
        proof {
            lemma_longest_roads_frame(g2);
            lemma_dev_count_bounds(*self);
        }
        self.check_victory();
    }
}


/// Playing a card changes only the player's hand and the played flag.
pub proof fn lemma_play_card_frame(g: Game, p: int, c: DevelopmentCard)
    requires
        0 <= p < 4,
    ensures
        card_count(play_card(g, p, c)) == card_count(g),
        dev_count(play_card(g, p, c)) <= dev_count(g),
        play_card(g, p, c).phase == g.phase,
        play_card(g, p, c).board == g.board,
        play_card(g, p, c).current_player == g.current_player,
        forall|q: int| 0 <= q < 4 ==> (#[trigger] play_card(g, p, c).players[q]).resources == g.players[q].resources,
        forall|q: int| 0 <= q < 4 ==> (#[trigger] play_card(g, p, c).players[q]).roads_left == g.players[q].roads_left,
        forall|q: int| 0 <= q < 4 && q != p ==> (#[trigger] play_card(g, p, c).players[q]) == g.players[q],
{
    let g1 = play_card(g, p, c);
    assert(hand_total(g1.players[p].dev_cards) <= hand_total(g.players[p].dev_cards));
}

impl Game {
    /// The acting player plays a card of kind `c`.
    fn use_card(&mut self, p: usize, c: DevelopmentCard)
        requires
            p < 4,
        ensures
            *final(self) == play_card(*old(self), p as int, c),
    {
        let mut pl = self.players[p];
        pl.dev_cards.checked_sub_assign(c);
        self.players[p] = pl;
        self.turn_flags.dev_card_played = true;
        proof {
            let x = play_card(*old(self), p as int, c);
            assert(pl.dev_cards.0 =~= x.players[p as int].dev_cards.0);
            assert(self.players =~= x.players);
        }
    }

    #[verifier::spinoff_prover]
    #[verifier::rlimit(30)]
    fn do_buy(&mut self)
        requires
            old(self).bounded(),
            legal(*old(self), Action::BuyDevelopmentCard),
        ensures
            *final(self) == check_victory_spec(draw_card(pay_spec(*old(self), acting(*old(self)).0 as int, DEV_CARD_COST), acting(*old(self)).0 as int)),
    {
        let pid = self.current_player;
        let pi = pid.idx();
        let ghost g0 = *self;
        proof {
            lemma_card_count_bounds(*self);
            lemma_dev_count_bounds(*self);
        }
        self.pay(pid, DEV_CARD_COST);
        proof {
            lemma_pay_frame(g0, pi as int, DEV_CARD_COST);
            self.board.dev_card_deck.lemma_drawn();
        }
        let ghost g1 = *self;
        let card = self.board.dev_card_deck.draw();
        match card {
            Some(c) => {
                let mut pl = self.players[pi];
                pl.dev_cards.add(c);
                self.players[pi] = pl;
                self.turn_flags.dev_cards_bought.add(c);
                proof {
                    let x = draw_card(g1, pi as int);
                    assert(pl.dev_cards.0 =~= x.players[pi as int].dev_cards.0);
                    assert(self.players =~= x.players);
                    assert(self.turn_flags.dev_cards_bought.0 =~= x.turn_flags.dev_cards_bought.0);
                    assert(hand_total(self.players[pi as int].dev_cards) == hand_total(g1.players[pi as int].dev_cards) + 1);
                    assert(dev_count(*self) == dev_count(g1));
                    lemma_dev_count_bounds(*self);
                }
            },
            None => {},
        }
        self.check_victory();
    }

    #[verifier::spinoff_prover]
    fn do_knight(&mut self)
        requires
            old(self).bounded(),
            legal(*old(self), Action::PlayKnight),
        ensures
            *final(self) == apply_spec(*old(self), Action::PlayKnight, 0),
    {
        let pi = self.current_player.idx();
        proof {
            lemma_dev_count_bounds(*self);
        }
        let ghost g0 = *self;
        self.use_card(pi, DevelopmentCard::Knight);
        proof {
            lemma_play_card_frame(g0, pi as int, DevelopmentCard::Knight);
        }
        self.players[pi].played_knights = self.players[pi].played_knights + 1;
        proof {
            let g1 = play_card(g0, pi as int, DevelopmentCard::Knight);
            let pl = g1.players[pi as int];
            let x = set_player(g1, pi as int, Player { played_knights: (pl.played_knights + 1) as u8, ..pl });
            assert(self.players =~= x.players);
            assert(forall|q: int| 0 <= q < 4 ==> (#[trigger] self.players[q]).dev_cards.0[1] <= g0.players[q].dev_cards.0[1]);
        }
        self.check_victory();
        self.phase = Phase::MoveRobber;
        proof {
            reveal(check_victory_spec);
        }
    }

    #[verifier::spinoff_prover]
    fn do_road_building(&mut self)
        requires
            old(self).bounded(),
            legal(*old(self), Action::PlayRoadBuilding),
        ensures
            *final(self) == apply_spec(*old(self), Action::PlayRoadBuilding, 0),
    {
        let pid = self.current_player;
        let pi = pid.idx();
        let ghost g0 = *self;
        self.use_card(pi, DevelopmentCard::RoadBuilding);
        proof {
            lemma_play_card_frame(g0, pi as int, DevelopmentCard::RoadBuilding);
        }
        let left = self.players[pi].roads_left;
        let n: u8 = if left < 2 { left } else { 2 };
        if n > 0 && self.has_legal_road(pid) {
            self.phase = Phase::RoadBuilding { roads_left: n };
        }
    }

    #[verifier::spinoff_prover]
    fn do_year_of_plenty(&mut self, r1: Resource, r2: Resource)
        requires
            old(self).current_player.0 < 4,
            card_count(*old(self)) <= 255,
        ensures
            *final(self) == yop_spec(*old(self), old(self).current_player.0 as int, r1, r2),
    {
        let pi = self.current_player.idx();
        let ghost g0 = *self;
        proof {
            lemma_card_count_bounds(*self);
        }
        self.use_card(pi, DevelopmentCard::YearOfPlenty);
        let ghost g1 = *self;
        proof {
            lemma_play_card_frame(g0, pi as int, DevelopmentCard::YearOfPlenty);
            lemma_card_count_bounds(g1);
        }
        let i1 = r1.idx();
        let n1: u8 = if self.board.bank.0[i1] < 1 { self.board.bank.0[i1] } else { 1 };
        self.bank_to_player(pi, i1, n1);
        let ghost g2 = *self;
        proof {
            lemma_bank_to_player_frame(g1, pi as int, i1 as int, n1 as int);
            lemma_card_count_bounds(g2);
        }
        let i2 = r2.idx();
        let n2: u8 = if self.board.bank.0[i2] < 1 { self.board.bank.0[i2] } else { 1 };
        self.bank_to_player(pi, i2, n2);
    }

    /// Sets player `p`'s count of resource `r` to zero and returns what it was.
    fn take_all(&mut self, p: usize, r: usize) -> (n: u8)
        requires
            p < 4,
            r < 5,
        ensures
            n == old(self).players[p as int].resources.0[r as int],
            *final(self) == set_player_res(*old(self), p as int, r as int, 0),
    {
        let n = self.players[p].resources.0[r];
        self.players[p].resources.0[r] = 0;
        proof {
            let x = set_player_res(*old(self), p as int, r as int, 0);
            assert(self.players[p as int].resources.0 =~= x.players[p as int].resources.0);
            assert(self.players =~= x.players);
        }
        n
    }

    #[verifier::rlimit(40)]
    #[verifier::spinoff_prover]
    fn do_monopoly(&mut self, res: Resource)
        requires
            old(self).bounded(),
        ensures
            *final(self) == monopoly(play_card(*old(self), old(self).current_player.0 as int, DevelopmentCard::Monopoly), old(self).current_player.0 as int, res.spec_idx()),
    {
        let pi = self.current_player.idx();
        let r = res.idx();
        let ghost g0 = *self;
        self.use_card(pi, DevelopmentCard::Monopoly);
        let ghost g1 = *self;
        proof {
            lemma_play_card_frame(g0, pi as int, DevelopmentCard::Monopoly);
            lemma_monopoly_fits(g1, r as int);
        }
        let h0 = self.players[0].resources.0[r];
        let h1 = self.players[1].resources.0[r];
        let h2 = self.players[2].resources.0[r];
        let h3 = self.players[3].resources.0[r];
        let total: u8 = (if pi != 0 { h0 } else { 0 }) + (if pi != 1 { h1 } else { 0 }) + (if pi != 2 { h2 } else { 0 }) + (if pi != 3 { h3 } else { 0 });
        let own: u8 = if pi == 0 { h0 } else if pi == 1 { h1 } else if pi == 2 { h2 } else { h3 };
        proof {
            assert(total == others_hold(g1, pi as int, r as int));
        }
        let n0: u8 = if pi == 0 { own + total } else { 0 };
        let n1: u8 = if pi == 1 { own + total } else { 0 };
        let n2: u8 = if pi == 2 { own + total } else { 0 };
        let n3: u8 = if pi == 3 { own + total } else { 0 };
        let mut ps = self.players;
        let mut c0 = ps[0].resources;
        c0.0[r] = n0;
        let mut c1 = ps[1].resources;
        c1.0[r] = n1;
        let mut c2 = ps[2].resources;
        c2.0[r] = n2;
        let mut c3 = ps[3].resources;
        c3.0[r] = n3;
        ps[0].resources = c0;
        ps[1].resources = c1;
        ps[2].resources = c2;
        ps[3].resources = c3;
        self.players = ps;
        proof {
            let x = monopoly(g1, pi as int, r as int);
            assert(self.players[0].resources.0 =~= x.players[0].resources.0);
            assert(self.players[1].resources.0 =~= x.players[1].resources.0);
            assert(self.players[2].resources.0 =~= x.players[2].resources.0);
            assert(self.players[3].resources.0 =~= x.players[3].resources.0);
            assert(self.players =~= x.players);
        }
    }
}


proof fn lemma_owns_corner_step(g: Game, t: int, i: int, n: int)
    requires
        0 <= n,
    ensures
        owns_corner(g, t, i, n + 1) == (owns_corner(g, t, i, n)
            || g.board.vertices[TILE_VERTICES[t][n] as int].spec_owner() == Some(PlayerId(i as u8))),
{
    if g.board.vertices[TILE_VERTICES[t][n] as int].spec_owner() == Some(PlayerId(i as u8)) {
        assert(owns_corner(g, t, i, n + 1));
    }
    if owns_corner(g, t, i, n + 1) && !owns_corner(g, t, i, n) {
        let c = choose|c: int|
            0 <= c < n + 1 && (#[trigger] g.board.vertices[TILE_VERTICES[t][c] as int]).spec_owner() == Some(
                PlayerId(i as u8),
            );
        assert(c == n);
    }
}

/// The first seat with its flag set.
fn first_set_exec(flags: [bool; 4]) -> (o: Option<u8>)
    ensures
        o == first_set(flags),
{
    if flags[0] {
        Some(0)
    } else if flags[1] {
        Some(1)
    } else if flags[2] {
        Some(2)
    } else if flags[3] {
        Some(3)
    } else {
        None
    }
}

/// The resource at position `pick` among the cards of `hand`, counted in
/// resource order.
fn stolen_index(hand: ResourceBank, pick: u8) -> (r: usize)
    requires
        pick < bank_total(hand),
    ensures
        r == stolen_resource(hand, pick as int),
        r < 5,
        hand.0[r as int] > 0,
{
    let p = pick as u16;
    let c0 = hand.0[0] as u16;
    let c1 = c0 + hand.0[1] as u16;
    let c2 = c1 + hand.0[2] as u16;
    let c3 = c2 + hand.0[3] as u16;
    if p < c0 {
        0
    } else if p < c1 {
        1
    } else if p < c2 {
        2
    } else if p < c3 {
        3
    } else {
        4
    }
}

impl Game {
    #[verifier::spinoff_prover]
    fn do_move_robber(&mut self, tile: TileId)
        requires
            old(self).bounded(),
            tile.0 < 19,
        ensures
            *final(self) == (Game {
                board: Board { robber: tile, ..old(self).board },
                phase: Phase::Steal { candidates: steal_candidates(*old(self), acting(*old(self)), tile.0 as int) },
                ..*old(self)
            }),
    {
        let pid = self.acting_player();
        let t = tile.idx();
        let mut candidates = [false; 4];
        let mut c: usize = 0;
        while c < 6
            invariant
                c <= 6,
                t < 19,
                t == tile.0,
                *self == *old(self),
                self.bounded(),
                pid == acting(*old(self)),
                forall|i: int|
                    0 <= i < 4 ==> #[trigger] candidates[i] == (i != pid.0 && bank_total(self.players[i].resources) > 0
                        && owns_corner(*self, t as int, i, c as int)),
            decreases 6 - c,
        {
            proof {
                lemma_tables();
                self.board.topo.lemma_wf();
            }
            let v = self.board.topo.tile_vertices[t][c] as usize;
            let ghost cands0 = candidates;
            match self.board.vertices[v].owner() {
                Some(o) => {
                    if o != pid && self.players[o.idx()].resources.total() > 0 {
                        candidates[o.idx()] = true;
                    }
                },
                None => {},
            }
            proof {
                assert forall|i: int| 0 <= i < 4 implies #[trigger] candidates[i] == (i != pid.0 && bank_total(
                    self.players[i].resources,
                ) > 0 && owns_corner(*self, t as int, i, c as int + 1)) by {
                    lemma_owns_corner_step(*self, t as int, i, c as int);
                }
            }
            c = c + 1;
        }
        self.board.robber = tile;
        self.phase = Phase::Steal { candidates };
        proof {
            assert(candidates =~= steal_candidates(*old(self), acting(*old(self)), tile.0 as int));
        }
    }

    #[verifier::spinoff_prover]
    fn do_steal(&mut self, target: PlayerId, pick: u8)
        requires
            old(self).bounded(),
            target.0 < 4,
            bank_total(old(self).players[target.0 as int].resources) > 0 ==> pick < bank_total(
                old(self).players[target.0 as int].resources,
            ),
        ensures
            *final(self) == apply_spec(*old(self), Action::StealFrom(target), pick as int),
    {
        let pid = self.acting_player();
        let pi = pid.idx();
        let ti = target.idx();
        proof {
            lemma_card_count_bounds(*self);
        }
        let total = self.players[ti].resources.total();
        if total > 0 {
            let r = stolen_index(self.players[ti].resources, pick);
            let ghost g0 = *self;
            self.sub_player_res(ti, r, 1);
            proof {
                if pi != ti {
                    lemma_two_hands(g0, pi as int, ti as int, r as int);
                }
            }
            self.add_player_res(pi, r, 1);
        }
        self.phase = if self.turn_flags.has_rolled {
            Phase::Main
        } else {
            Phase::PreRoll
        };
    }

    fn player_to_bank(&mut self, p: usize, r: usize, n: u8)
        requires
            p < 4,
            r < 5,
            old(self).players[p as int].resources.0[r as int] >= n,
            old(self).board.bank.0[r as int] + n <= 255,
        ensures
            *final(self) == player_to_bank(*old(self), p as int, r as int, n as int),
    {
        self.sub_player_res(p, r, n);
        let b = self.board.bank.0[r] + n;
        self.set_bank_count(r, b);
    }

    #[verifier::spinoff_prover]
    fn do_discard(&mut self, res: Resource)
        requires
            old(self).bounded(),
            legal(*old(self), Action::DiscardResource(res)),
        ensures
            *final(self) == discard(*old(self), res.spec_idx()),
    {
        let r = res.idx();
        proof {
            lemma_card_count_bounds(*self);
        }
        match self.phase {
            Phase::Discard { remaining, targets, active } => {
                let ai = active.idx();
                let ghost g0 = *self;
                self.player_to_bank(ai, r, 1);
                proof {
                    let g1 = player_to_bank(g0, ai as int, r as int, 1);
                    assert(bank_total(g1.players[ai as int].resources) == bank_total(g0.players[ai as int].resources) - 1);
                }
                if self.players[ai].resources.total() <= targets[ai] {
                    let mut rem = remaining;
                    rem[ai] = false;
                    self.phase = match first_set_exec(rem) {
                        None => Phase::MoveRobber,
                        Some(n) => Phase::Discard { remaining: rem, targets, active: PlayerId(n) },
                    };
                    proof {
                        assert(rem =~= vstd::array::spec_array_update(remaining, ai as int, false));
                    }
                }
            },
            _ => {},
        }
    }

    #[verifier::spinoff_prover]
    fn do_trade(&mut self, give: Resource, receive: Resource)
        requires
            old(self).bounded(),
            legal(*old(self), Action::BankTrade { give, receive }),
        ensures
            *final(self) == apply_spec(*old(self), Action::BankTrade { give, receive }, 0),
    {
        let pi = self.current_player.idx();
        let gi = give.idx();
        let ri = receive.idx();
        proof {
            lemma_card_count_bounds(*self);
        }
        let rate = self.players[pi].trade_rate(give);
        let ghost g0 = *self;
        self.player_to_bank(pi, gi, rate);
        proof {
            let g1 = player_to_bank(g0, pi as int, gi as int, rate as int);
            assert(g1.players[pi as int].resources.0[ri as int] == g0.players[pi as int].resources.0[ri as int]);
            assert(g1.board.bank.0[ri as int] == g0.board.bank.0[ri as int]);
        }
        self.bank_to_player(pi, ri, 1);
    }

    #[verifier::spinoff_prover]
    fn do_end_turn(&mut self)
        requires
            old(self).bounded(),
            old(self).turn_number < 65535,
        ensures
            *final(self) == apply_spec(*old(self), Action::EndTurn, 0),
    {
        proof {
            lemma_dev_count_bounds(*self);
        }
        self.current_player = self.current_player.next();
        self.turn_number = self.turn_number + 1;
        self.turn_flags = TurnFlags::default();
        self.phase = Phase::PreRoll;
        proof {
            assert(self.turn_flags.dev_cards_bought.0 =~= fresh_flags().dev_cards_bought.0);
        }
        self.check_victory();
    }
}


/// For a well-formed action in listed form, the mask bit checked is the
/// action's own.
pub proof fn lemma_accepts(g: Game, a: Action)
    requires
        action_wf(a),
        action_canonical(a),
    ensures
        accepts(g, a) == legal(g, a),
{
    crate::action::lemma_action_roundtrip(a);
}

impl Game {
    /// Who collects from a roll of `roll`: corner by corner in tile order,
    /// a settlement takes one card and a city two, as far as the bank has
    /// them; the robber's tile produces nothing.
    fn produce_exec(&mut self, roll: u8)
        requires
            old(self).board.wf(),
            owners_valid(*old(self)),
            card_count(*old(self)) <= 255,
        ensures
            *final(self) == produce(*old(self), roll, 114),
    {
        let mut n: usize = 0;
        while n < 114
            invariant
                n <= 114,
                *self == produce(*old(self), roll, n as int),
                self.board.wf(),
                self.board.vertices == old(self).board.vertices,
                self.board.tiles == old(self).board.tiles,
                self.board.robber == old(self).board.robber,
                owners_valid(*self),
                card_count(*self) <= 255,
            decreases 114 - n,
        {
            let ghost g0 = *self;
            proof {
                lemma_tables();
                self.board.topo.lemma_wf();
                lemma_card_count_bounds(*self);
            }
            let t = n / 6;
            let c = n % 6;
            let tile = self.board.tiles[t];
            if tile.number == roll && self.board.robber != TileId(t as u8) {
                match tile.terrain.resource() {
                    Some(res) => {
                        let ri = res.idx();
                        let v = self.board.topo.tile_vertices[t][c] as usize;
                        match self.board.vertices[v] {
                            Vertex::Settlement(p) => {
                                let b = self.board.bank.0[ri];
                                let give: u8 = if b < 1 { b } else { 1 };
                                self.bank_to_player(p.idx(), ri, give);
                                proof {
                                    lemma_bank_to_player_frame(g0, p.0 as int, ri as int, give as int);
                                }
                            },
                            Vertex::City(p) => {
                                let b = self.board.bank.0[ri];
                                let give: u8 = if b < 2 { b } else { 2 };
                                self.bank_to_player(p.idx(), ri, give);
                                proof {
                                    lemma_bank_to_player_frame(g0, p.0 as int, ri as int, give as int);
                                }
                            },
                            Vertex::Empty => {},
                        }
                    },
                    None => {},
                }
            }
            n = n + 1;
        }
    }

    /// The discard phase after a seven, or the robber if nobody holds more
    /// than seven cards.
    fn seven_phase_exec(&self) -> (ph: Phase)
        requires
            self.basic_wf(),
        ensures
            ph == seven_phase(*self),
    {
        let t0 = self.players[0].resources.total();
        let t1 = self.players[1].resources.total();
        let t2 = self.players[2].resources.total();
        let t3 = self.players[3].resources.total();
        let remaining = [t0 > 7, t1 > 7, t2 > 7, t3 > 7];
        let targets = [t0 / 2 + t0 % 2, t1 / 2 + t1 % 2, t2 / 2 + t2 % 2, t3 / 2 + t3 % 2];
        proof {
            let s = seven_phase(*self);
            assert(remaining =~= [
                bank_total(self.players[0].resources) > 7,
                bank_total(self.players[1].resources) > 7,
                bank_total(self.players[2].resources) > 7,
                bank_total(self.players[3].resources) > 7,
            ]);
            assert(targets =~= [
                ((bank_total(self.players[0].resources) + 1) / 2) as u8,
                ((bank_total(self.players[1].resources) + 1) / 2) as u8,
                ((bank_total(self.players[2].resources) + 1) / 2) as u8,
                ((bank_total(self.players[3].resources) + 1) / 2) as u8,
            ]);
        }
        match first_set_exec(remaining) {
            None => Phase::MoveRobber,
            Some(first) => Phase::Discard { remaining, targets, active: PlayerId(first) },
        }
    }

    /// Resolves the dice showing `roll`: a seven starts the discards (or
    /// moves the robber), any other total pays out and opens the main phase.
    pub fn resolve_roll(&mut self, roll: u8)
        requires
            old(self).bounded(),
            2 <= roll <= 12,
        ensures
            *final(self) == resolve_spec(*old(self), roll),
    {
        self.turn_flags.has_rolled = true;
        if roll == 7 {
            let ph = self.seven_phase_exec();
            self.phase = ph;
        } else {
            self.produce_exec(roll);
            self.phase = Phase::Main;
        }
    }

    /// Applies `action` for the acting player; `pick` is the position, among
    /// the target's cards in resource order, of the card a steal takes.
    #[verifier::spinoff_prover]
    pub fn play(&mut self, action: Action, pick: u8)
        requires
            old(self).bounded(),
            action_wf(action),
            accepts(*old(self), action),
            action is EndTurn ==> old(self).turn_number < 65535,
            action matches Action::StealFrom(t) ==> (bank_total(old(self).players[t.0 as int].resources) > 0
                ==> pick < bank_total(old(self).players[t.0 as int].resources)),
        ensures
            *final(self) == apply_spec(*old(self), action, pick as int),
    {
        proof {
            if !(action is PlayYearOfPlenty) {
                lemma_accepts(*self, action);
            }
        }
        match action {
            Action::PlaceSettlement(v) => self.do_settle(v.idx()),
            Action::PlaceRoad(e) => self.do_road(e.idx()),
            Action::BuildCity(v) => self.do_city(v.idx()),
            Action::BuyDevelopmentCard => self.do_buy(),
            Action::PlayKnight => self.do_knight(),
            Action::PlayRoadBuilding => self.do_road_building(),
            Action::PlayYearOfPlenty(r1, r2) => {
                proof {
                    crate::action::lemma_index_roundtrip(action_index(action));
                }
                self.do_year_of_plenty(r1, r2);
            },
            Action::PlayMonopoly(r) => self.do_monopoly(r),
            Action::RollDice => {
                self.phase = Phase::ChanceRoll;
            },
            Action::MoveRobber(t) => self.do_move_robber(t),
            Action::StealFrom(t) => self.do_steal(t, pick),
            Action::StealFromNone => {
                self.phase = if self.turn_flags.has_rolled {
                    Phase::Main
                } else {
                    Phase::PreRoll
                };
            },
            Action::DiscardResource(r) => self.do_discard(r),
            Action::BankTrade { give, receive } => self.do_trade(give, receive),
            Action::EndTurn => self.do_end_turn(),
        }
    }
}


/// An action the acting player may not take now.
#[derive(Clone, Copy, Debug, PartialEq, Eq)]
pub struct InvalidAction {
    pub action: Action,
    pub reason: &'static str,
}

/// Whose move it is: a player's, the dice's, or nobody's because the game
/// is over.
pub enum Turn<'a> {
    Player(PlayerTurn<'a>),
    Chance(ChanceTurn<'a>),
    Terminal,
}

/// A decision of the acting player, with the mask of legal actions.
pub struct PlayerTurn<'a> {
    pub game: &'a mut Game,
    pub mask: ActionMask,
}

/// A roll of the dice.
pub struct ChanceTurn<'a> {
    pub game: &'a mut Game,
}

/// `mask` holds exactly the legal actions of `g`.
pub open spec fn mask_of(mask: ActionMask, g: Game) -> bool {
    forall|i: int| #[trigger] mask.has(i) == (0 <= i < 254 && legal(g, action_at(i)))
}

/// The values `pick` may take when `a` is applied: the position of the
/// stolen card among the target's cards, or 0 when nothing is drawn.
pub open spec fn pick_range(g: Game, a: Action, pick: int) -> bool {
    match a {
        Action::StealFrom(t) => if bank_total(g.players[t.0 as int].resources) > 0 {
            0 <= pick < bank_total(g.players[t.0 as int].resources)
        } else {
            pick == 0
        },
        _ => pick == 0,
    }
}

impl Game {
    /// Whose move it is, with the legal actions when it is a player's.
    pub fn turn(&mut self) -> (t: Turn<'_>)
        requires
            old(self).basic_wf(),
        ensures
            match t {
                Turn::Terminal => old(self).phase is GameOver && *final(self) == *old(self),
                Turn::Chance(c) => old(self).phase is ChanceRoll && *c.game == *old(self)
                    && *final(c.game) == *final(self),
                Turn::Player(p) => !(old(self).phase is GameOver) && !(old(self).phase is ChanceRoll)
                    && *p.game == *old(self) && *final(p.game) == *final(self) && mask_of(p.mask, *old(self)),
            },
    {
        match self.phase {
            Phase::GameOver { .. } => Turn::Terminal,
            Phase::ChanceRoll => Turn::Chance(ChanceTurn { game: self }),
            _ => {
                let mask = self.action_mask();
                Turn::Player(PlayerTurn { game: self, mask })
            },
        }
    }
}

impl<'a> PlayerTurn<'a> {
    /// Takes `action` if the mask allows it; a steal draws the card taken
    /// with `rng`. An action that names no real vertex, edge, tile or seat,
    /// or trades a resource for itself, is refused like any other action the
    /// mask does not allow.
    #[verifier::spinoff_prover]
    pub fn apply<R: GameRng>(self, action: Action, rng: &mut R) -> (r: Result<(), InvalidAction>)
        requires
            self.game.bounded(),
            mask_of(self.mask, *self.game),
            action is EndTurn ==> self.game.turn_number < 65535,
        ensures
            r is Err <==> !(action_wf(action) && accepts(*old(self.game), action)),
            r matches Err(e) ==> e.action == action && e.reason@ == "action not legal in current state"@
                && *final(self.game) == *old(self.game),
            r is Ok ==> exists|pick: int|
                pick_range(*old(self.game), action, pick) && *final(self.game) == apply_spec(*old(self.game), action, pick),
            old(self.game).inv() ==> final(self.game).inv(),
            old(self.game).inv() && roads_current(*old(self.game)) && scores_consistent(*old(self.game)) ==> roads_current(
                *final(self.game),
            ) && scores_consistent(*final(self.game)),
    {
        if !action.is_well_formed() {
            return Err(InvalidAction { action, reason: "action not legal in current state" });
        }
        proof {
            crate::action::lemma_index_roundtrip(action_index(action));
        }
        if !self.mask.get(action.to_index()) {
            return Err(InvalidAction { action, reason: "action not legal in current state" });
        }
        let game = self.game;
        let mut pick: u8 = 0;
        match action {
            Action::StealFrom(t) => {
                proof {
                    lemma_card_count_bounds(*game);
                }
                let total = game.players[t.idx()].resources.total();
                if total > 0 {
                    pick = rng.below(total);
                }
            },
            _ => {},
        }
        let ghost g0 = *game;
        game.play(action, pick);
        proof {
            if g0.inv() {
                crate::laws::lemma_apply_keeps_inv(g0, action, pick as int);
                if roads_current(g0) && scores_consistent(g0) {
                    lemma_apply_keeps_scores(g0, action, pick as int);
                }
            }
        }
        Ok(())
    }
}

impl<'a> ChanceTurn<'a> {
    /// Resolves the dice showing `roll`.
    pub fn resolve(self, roll: u8)
        requires
            self.game.bounded(),
            2 <= roll <= 12,
        ensures
            *final(self.game) == resolve_spec(*old(self.game), roll),
            forall|r: int| 0 <= r < 5 ==> #[trigger] resource_total(*final(self.game), r) == resource_total(*old(self.game), r),
            old(self.game).inv() ==> final(self.game).inv(),
            old(self.game).inv() && old(self.game).phase is ChanceRoll && roads_current(*old(self.game))
                && scores_consistent(*old(self.game)) ==> roads_current(*final(self.game)) && scores_consistent(
                *final(self.game),
            ),
    {
        proof {
            crate::laws::lemma_resolve_keeps_totals(*self.game, roll);
            if self.game.inv() {
                crate::laws::lemma_resolve_keeps_inv(*self.game, roll);
                if self.game.phase is ChanceRoll && roads_current(*self.game) && scores_consistent(*self.game) {
                    lemma_resolve_keeps_scores(*self.game, roll);
                }
            }
        }
        self.game.resolve_roll(roll);
    }

    /// Rolls two dice with `rng` and resolves their sum.
    pub fn resolve_random<R: GameRng>(self, rng: &mut R)
        requires
            self.game.bounded(),
        ensures
            exists|d1: int, d2: int|
                1 <= d1 <= 6 && 1 <= d2 <= 6 && *final(self.game) == resolve_spec(
                    *old(self.game),
                    #[trigger] dice_total(d1, d2),
                ),
            forall|r: int| 0 <= r < 5 ==> #[trigger] resource_total(*final(self.game), r) == resource_total(*old(self.game), r),
            old(self.game).inv() ==> final(self.game).inv(),
            old(self.game).inv() && old(self.game).phase is ChanceRoll && roads_current(*old(self.game))
                && scores_consistent(*old(self.game)) ==> roads_current(*final(self.game)) && scores_consistent(
                *final(self.game),
            ),
    {
        let d1 = rng.die();
        let d2 = rng.die();
        self.resolve(d1 + d2);
        assert(dice_total(d1 as int, d2 as int) == d1 + d2);
    }
}

} // verus!
