//! Integer parts of the search and network setup: visit counts at the root,
//! the network configurations, and the layout of the encoded observation.

use vstd::prelude::*;

verus! {

/// Entries per region of the encoded observation: tiles, vertices, edges,
/// harbors, the observer, the other seats, and the game's counters.
pub const OBS_TILES: usize = 19 * (6 + 2);

pub const OBS_VERTICES: usize = 54 * 3;

pub const OBS_EDGES: usize = 72 * 3;

pub const OBS_HARBORS: usize = 9 * 6;

pub const OBS_SELF_PLAYER: usize = 5 + 5 + 1 + 1 + 1 + 1 + 1 + 5;

pub const OBS_OTHER_PLAYERS: usize = 3 * 5;

pub const OBS_META: usize = 1 + 1 + 5;

/// Length of the encoded observation.
pub const OBS: usize = OBS_TILES + OBS_VERTICES + OBS_EDGES + OBS_HARBORS + OBS_SELF_PLAYER
    + OBS_OTHER_PLAYERS + OBS_META;

/// Visit counts of the root's children, by action index.
pub struct ActionDistribution<const ACT: usize> {
    pub visits: [u32; ACT],
}

impl<const ACT: usize> ActionDistribution<ACT> {
    /// The most visited action among those visited at all, the last one
    /// among equals; `None` when nothing was visited.
    pub fn most_visited(&self) -> (r: Option<usize>)
        ensures
            r is None <==> forall|i: int| 0 <= i < ACT ==> #[trigger] self.visits[i] == 0,
            r matches Some(b) ==> b < ACT && self.visits[b as int] > 0 && (forall|j: int|
                0 <= j < ACT ==> #[trigger] self.visits[j] <= self.visits[b as int]) && (forall|j: int|
                b < j < ACT ==> #[trigger] self.visits[j] < self.visits[b as int]),
    {
        let mut best: Option<usize> = None;
        let mut i: usize = 0;
        while i < ACT
            invariant
                i <= ACT,
                best is None <==> forall|j: int| 0 <= j < i ==> #[trigger] self.visits[j] == 0,
                best matches Some(b) ==> b < i && self.visits[b as int] > 0 && (forall|j: int|
                    0 <= j < i ==> #[trigger] self.visits[j] <= self.visits[b as int]) && (forall|j: int|
                    b < j < i ==> #[trigger] self.visits[j] < self.visits[b as int]),
            decreases ACT - i,
        {
            let n = self.visits[i];
            if n > 0 {
                match best {
                    None => {
                        best = Some(i);
                    },
                    Some(b) => {
                        if n >= self.visits[b] {
                            best = Some(i);
                        }
                    },
                }
            }
            i = i + 1;
        }
        best
    }
}

/// Shape of the generic residual policy-value network.
#[derive(Clone, Copy, Debug, PartialEq, Eq)]
pub struct ResNetConfig {
    pub obs_size: usize,
    pub act_size: usize,
    pub num_players: usize,
    pub num_blocks: usize,
    pub hidden_dim: usize,
}

impl Default for ResNetConfig {
    fn default() -> (c: ResNetConfig)
        ensures
            c.obs_size == 64,
            c.act_size == 9,
            c.num_players == 2,
            c.num_blocks == 4,
            c.hidden_dim == 128,
    {
        ResNetConfig { obs_size: 64, act_size: 9, num_players: 2, num_blocks: 4, hidden_dim: 128 }
    }
}

/// Shape of the network specialised to the game.
#[derive(Clone, Copy, Debug, PartialEq, Eq)]
pub struct CatanNetConfig {
    pub act_size: usize,
    pub num_players: usize,
    pub branch_dim: usize,
    pub trunk_hidden: usize,
    pub num_blocks: usize,
}

} // verus!
