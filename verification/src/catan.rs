//! The game as a search environment: chance resolved automatically with a
//! generator of its own, a flat action space, and coarse buckets of phases
//! and actions for logging.

use rand::SeedableRng;
use vstd::prelude::*;
use crate::action::{action_at, Action, ActionMask};
use crate::game::{acting, fresh_game, Game, Phase};
use crate::moves::accepts;
use crate::rules::{legal, legal_actions};
use crate::transition::{dice_total, lemma_accepts, pick_range, resolve_spec, Turn};
use crate::moves::apply_spec;
use crate::types::PlayerId;
use crate::observation::{seen_by, Observation};
use crate::features::features;
use crate::game::victory_points_of;
use crate::scores::{lemma_apply_keeps_scores, lemma_fresh_scores, lemma_resolve_keeps_scores, roads_current, scores_consistent};

verus! {

/// Size of the action space.
pub const ACT: usize = 254;

/// Number of seats.
pub const PLAYERS: usize = 4;

/// Coarse action families for logging.
pub const ACTION_LOG_BUCKETS: usize = 11;

/// Short labels of the action families, by bucket.
pub const ACTION_BUCKET_LABELS: [&'static str; 11] = [
    "end",
    "bank",
    "settle",
    "road",
    "city",
    "bdev",
    "knight",
    "odev",
    "roll",
    "rob",
    "disc",
];

/// The stage of the turn a phase belongs to.
pub open spec fn phase_bucket(p: Phase) -> u8 {
    match p {
        Phase::SetupSettlement { .. } => 0,
        Phase::SetupRoad { .. } => 0,
        Phase::PreRoll => 1,
        Phase::ChanceRoll => 1,
        Phase::Discard { .. } => 2,
        Phase::MoveRobber => 3,
        Phase::Steal { .. } => 3,
        Phase::Main => 4,
        Phase::RoadBuilding { .. } => 5,
        Phase::GameOver { .. } => 6,
    }
}

pub fn catan_phase_bucket(phase: &Phase) -> (b: u8)
    ensures
        b == phase_bucket(*phase),
{
    match phase {
        Phase::SetupSettlement { .. } | Phase::SetupRoad { .. } => 0,
        Phase::PreRoll | Phase::ChanceRoll => 1,
        Phase::Discard { .. } => 2,
        Phase::MoveRobber | Phase::Steal { .. } => 3,
        Phase::Main => 4,
        Phase::RoadBuilding { .. } => 5,
        Phase::GameOver { .. } => 6,
    }
}

/// The family of an action.
pub open spec fn action_bucket(a: Action) -> usize {
    match a {
        Action::EndTurn => 0,
        Action::BankTrade { .. } => 1,
        Action::PlaceSettlement(_) => 2,
        Action::PlaceRoad(_) => 3,
        Action::BuildCity(_) => 4,
        Action::BuyDevelopmentCard => 5,
        Action::PlayKnight => 6,
        Action::PlayRoadBuilding => 7,
        Action::PlayYearOfPlenty(_, _) => 7,
        Action::PlayMonopoly(_) => 7,
        Action::RollDice => 8,
        Action::MoveRobber(_) => 9,
        Action::StealFrom(_) => 9,
        Action::StealFromNone => 9,
        Action::DiscardResource(_) => 10,
    }
}

pub fn action_log_bucket(a: Action) -> (b: usize)
    ensures
        b == action_bucket(a),
        b < ACTION_LOG_BUCKETS,
{
    match a {
        Action::EndTurn => 0,
        Action::BankTrade { .. } => 1,
        Action::PlaceSettlement(_) => 2,
        Action::PlaceRoad(_) => 3,
        Action::BuildCity(_) => 4,
        Action::BuyDevelopmentCard => 5,
        Action::PlayKnight => 6,
        Action::PlayRoadBuilding | Action::PlayYearOfPlenty(_, _) | Action::PlayMonopoly(_) => 7,
        Action::RollDice => 8,
        Action::MoveRobber(_) | Action::StealFrom(_) | Action::StealFromNone => 9,
        Action::DiscardResource(_) => 10,
    }
}

/// Calls `SeedableRng::from_rng` with `rng`: a new generator seeded from the
/// next bytes of `rng`. Nothing is stated of either generator's state.
#[verifier::external_body]
fn chacha_fork(rng: &mut rand_chacha::ChaCha8Rng) -> rand_chacha::ChaCha8Rng {
    rand_chacha::ChaCha8Rng::from_rng(rng)
}

/// The derived `Clone` of `ChaCha8Rng`, which copies the generator's state;
/// nothing is stated of the copy.
pub assume_specification[ <rand_chacha::ChaCha8Rng as Clone>::clone ](
    rng: &rand_chacha::ChaCha8Rng,
) -> rand_chacha::ChaCha8Rng;

/// `after` is `before` with the dice rolled if `before` waits for them.
pub open spec fn after_chance(before: Game, after: Game) -> bool {
    if before.phase is ChanceRoll {
        exists|d1: int, d2: int|
            1 <= d1 <= 6 && 1 <= d2 <= 6 && after == resolve_spec(before, #[trigger] dice_total(d1, d2))
    } else {
        after == before
    }
}

/// A game whose dice are rolled automatically with a generator of its own,
/// so that every state it shows waits for a player or is over.
#[derive(Clone)]
pub struct CatanGame {
    inner: Game,
    rng: rand_chacha::ChaCha8Rng,
}

impl CatanGame {
    /// The simulator state.
    pub closed spec fn sim(&self) -> Game {
        self.inner
    }

    /// The state keeps the game's invariant, its longest roads are up to
    /// date, its scores are consistent, and it does not wait for the dice.
    pub closed spec fn wf(&self) -> bool {
        &&& self.inner.inv()
        &&& roads_current(self.inner)
        &&& scores_consistent(self.inner)
        &&& !(self.inner.phase is ChanceRoll)
    }

    pub fn as_sim(&self) -> (g: &Game)
        ensures
            *g == self.sim(),
    {
        &self.inner
    }

    /// A new game whose board is generated with `rng`, with its own generator
    /// seeded from `rng`.
    pub fn new_with_rng(rng: &mut rand_chacha::ChaCha8Rng) -> (g: CatanGame)
        ensures
            g.wf(),
            fresh_game(g.sim()),
    {
        let inner = Game::new(rng);
        proof {
            lemma_fresh_scores(inner);
        }
        let own = chacha_fork(rng);
        let mut game = CatanGame { inner, rng: own };
        game.resolve_chance();
        game
    }

    /// Rolls the dice while the game waits for them.
    fn resolve_chance(&mut self)
        requires
            old(self).inner.inv(),
            roads_current(old(self).inner),
            scores_consistent(old(self).inner),
        ensures
            final(self).wf(),
            !(old(self).inner.phase is ChanceRoll) ==> final(self).inner == old(self).inner,
            old(self).inner.phase is ChanceRoll ==> exists|d1: int, d2: int|
                1 <= d1 <= 6 && 1 <= d2 <= 6 && final(self).inner == resolve_spec(
                    old(self).inner,
                    #[trigger] dice_total(d1, d2),
                ),
    {
        while self.inner.is_chance_node()
            invariant
                self.inner.inv(),
                roads_current(self.inner),
                scores_consistent(self.inner),
                !(old(self).inner.phase is ChanceRoll) ==> self.inner == old(self).inner,
                old(self).inner.phase is ChanceRoll ==> self.inner == old(self).inner || exists|d1: int, d2: int|
                    1 <= d1 <= 6 && 1 <= d2 <= 6 && self.inner == resolve_spec(
                        old(self).inner,
                        #[trigger] dice_total(d1, d2),
                    ),
                self.inner != old(self).inner ==> !(self.inner.phase is ChanceRoll),
            decreases (if self.inner.phase is ChanceRoll { 1int } else { 0int }),
        {
            proof {
                crate::laws::lemma_inv_bounded(self.inner);
            }
            let ghost before = self.inner;
            match self.inner.turn() {
                Turn::Chance(ct) => ct.resolve_random(&mut self.rng),
                _ => {},
            }
            proof {
                if self.inner != before {
                    let (d1, d2) = choose|d1: int, d2: int|
                        1 <= d1 <= 6 && 1 <= d2 <= 6 && self.inner == resolve_spec(before, #[trigger] dice_total(d1, d2));
                    crate::laws::lemma_resolve_leaves_chance(before, dice_total(d1, d2));
                    lemma_resolve_keeps_scores(before, dice_total(d1, d2));
                }
            }
        }
    }

    /// The legal actions, in index order.
    pub fn legal_actions(&self) -> (v: Vec<Action>)
        requires
            self.wf(),
        ensures
            v@ == legal_actions(self.sim()),
    {
        proof {
            crate::laws::lemma_inv_bounded(self.inner);
        }
        let mask = self.inner.action_mask();
        mask.to_vec()
    }

    /// Takes `action` for the acting player and then rolls the dice if the
    /// game waits for them.
    pub fn apply(&mut self, action: Action)
        requires
            old(self).wf(),
            crate::action::action_wf(action),
            crate::action::action_canonical(action),
            legal(old(self).sim(), action),
            action is EndTurn ==> old(self).sim().turn_number < 65535,
        ensures
            final(self).wf(),
            exists|pick: int|
                pick_range(old(self).sim(), action, pick) && #[trigger] after_chance(
                    apply_spec(old(self).sim(), action, pick),
                    final(self).sim(),
                ),
    {
        proof {
            crate::laws::lemma_inv_bounded(self.inner);
            lemma_accepts(self.inner, action);
        }
        let ghost g0 = self.inner;
        match self.inner.turn() {
            Turn::Player(pt) => {
                let r = pt.apply(action, &mut self.rng);
                match r {
                    Ok(()) => {},
                    Err(_) => {},
                }
            },
            _ => {},
        }
        let ghost g1 = self.inner;
        let ghost pick = choose|pick: int| pick_range(g0, action, pick) && g1 == apply_spec(g0, action, pick);
        proof {
            lemma_apply_keeps_scores(g0, action, pick);
        }
        self.resolve_chance();
        proof {
            assert(after_chance(apply_spec(g0, action, pick), self.inner));
        }
    }

    /// What the acting seat sees of the game.
    pub fn observation(&self) -> (o: Observation)
        requires
            self.wf(),
        ensures
            seen_by(self.sim(), acting(self.sim()), o),
    {
        proof {
            crate::laws::lemma_inv_bounded(self.inner);
        }
        let p = self.inner.acting_player();
        self.inner.observe(p)
    }

    /// The acting seat's observation as the network's input.
    pub fn features(&self) -> (v: Vec<(u16, u16)>)
        requires
            self.wf(),
        ensures
            v.len() == 626,
            exists|o: Observation| seen_by(self.sim(), acting(self.sim()), o) && v@ == features(o),
    {
        let o = self.observation();
        o.features()
    }

    pub fn is_terminal(&self) -> (b: bool)
        ensures
            b == (self.sim().phase is GameOver),
    {
        self.inner.is_terminal()
    }

    pub fn current_player(&self) -> (p: PlayerId)
        ensures
            p == acting(self.sim()),
    {
        self.inner.acting_player()
    }

    /// Whether the game is over and `player` won it; a winner has at least
    /// ten victory points.
    pub fn is_winner(&self, player: PlayerId) -> (b: bool)
        requires
            self.wf(),
        ensures
            b == (self.sim().phase == (Phase::GameOver { winner: player })),
            b ==> victory_points_of(self.sim(), player) >= 10,
    {
        match self.inner.winner() {
            Some(w) => w == player,
            None => false,
        }
    }
}

} // verus!
