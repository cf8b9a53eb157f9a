//! A verified simulator for four-player Catan: board topology, resources,
//! the flat action space, legal-action masks, turn transitions, dice and
//! chance resolution, and per-player observations.

pub mod types;
pub mod resource;
pub mod topology;
pub mod layout;
pub mod rng;
pub mod board;
pub mod action;
pub mod player;
pub mod game;
pub mod rules;
pub mod longest_road;
pub mod trail;
pub mod state;
pub mod transition;
pub mod moves;
pub mod spots;
pub mod laws;
pub mod scores;
pub mod effects;
pub mod observation;
pub mod features;
pub mod catan;
pub mod search;
pub mod display;
pub mod text;

pub use types::{EdgeId, PlayerId, PlayerMask, TileId, VertexId};
pub use resource::{DevCardDeck, DevCardHand, DevelopmentCard, Resource, ResourceBank};
pub use topology::Topology;
pub use rng::GameRng;
pub use board::{Board, Edge, Port, Terrain, Tile, Vertex};
pub use action::{Action, ActionMask, ActionMaskIter, ACTION_SPACE_SIZE};
pub use player::Player;
pub use game::{Game, Phase, TurnFlags};
pub use transition::{ChanceTurn, InvalidAction, PlayerTurn, Turn};
pub use observation::{ObsEdge, ObsMeta, ObsOther, ObsSelf, ObsTile, ObsVertex, Observation, PlayerRelation};
pub use catan::{CatanGame, ACT, ACTION_BUCKET_LABELS, ACTION_LOG_BUCKETS, PLAYERS};
pub use search::{ActionDistribution, CatanNetConfig, ResNetConfig, OBS};
