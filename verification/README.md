# catan

A four-player Catan simulator whose rules are verified with Verus: board
topology, resources and development cards, a flat action space of 254
actions with bit masks over it, the legal-action rules, every move as a
function from state to state, dice and production, observations from one
seat's point of view, and the integer parts of a search environment.

## Layout

- `src/` — the verified library.
  - `types.rs`, `resource.rs`, `topology.rs`, `board.rs`, `player.rs` — ids,
    hands, the fixed layout of tiles, vertices, edges and harbors, the board;
    `layout.rs` — that layout checked against the hex grid it comes from.
  - `action.rs` — actions, their flat numbering and masks.
  - `game.rs`, `rules.rs` — the state, scoring, and which actions are legal
    (`legal`), with the executable mask.
  - `moves.rs` — what every move does (`apply_spec`); `transition.rs` —
    the executable moves, dice, and the `Turn` interface.
  - `longest_road.rs`, `trail.rs` — longest-road search, and the proof that
    it finds the longest trail of a player's roads.
  - `state.rs`, `laws.rs`, `spots.rs` — the invariant of reachable states
    and the properties proved of the rules (resources conserved, pieces
    accounted, distance rule, no dead ends, awards, steals, discards…).
  - `scores.rs` — longest roads kept up to date and scores consistent with
    the phase: a finished game's winner has at least ten points.
  - `observation.rs`, `features.rs` — what a seat sees, and the same as the
    network's input, entry by entry as fractions.
  - `text.rs`, `display.rs` — the text of numbers, names, actions, phases,
    players and the whole board.
  - `catan.rs`, `search.rs` — the search environment and its buckets, visit
    counts and network shapes.
  - `rng.rs` — the random choices, with implementations for `rand`'s
    `StdRng` and `rand_chacha`'s `ChaCha8Rng`.
- `tests/` — scenario tests of the rules and of the library.
- `app/` — a command-line program that plays random or searched games and
  prints the board, with the floating-point side of the observation and the
  tree search.

## Not included

The crate holds the game and a search over it, not a learning system: there
is no neural network, no training loop and no tournament between trained
players. Those need floating-point tensors, threads, checkpoint files and a
GPU library, which lie outside what this crate verifies; the search in `app/` uses
uniform priors instead of a network.
