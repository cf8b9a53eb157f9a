use std::time::Instant;

use rand::rngs::StdRng;
use rand::{RngExt, SeedableRng};

use catan::topology::{Topology, NUM_EDGES, NUM_PORTS, NUM_TILES, NUM_VERTICES};
use catan::{Action, Edge, Game, Phase, PlayerId, Resource, ResourceBank, Turn, Vertex};

fn take_first_action(game: &mut Game, rng: &mut StdRng) {
    match game.turn() {
        Turn::Player(turn) => {
            let actions = turn.mask.to_vec();
            assert!(!actions.is_empty());
            turn.apply(actions[0], rng).unwrap();
        }
        _ => panic!("expected a player decision"),
    }
}

/// How many tiles have each edge on their border.
fn edge_tile_counts(topo: &Topology) -> [u8; NUM_EDGES] {
    let mut counts = [0u8; NUM_EDGES];
    for tv in &topo.tile_vertices {
        for c in 0..6 {
            let (a, b) = (tv[c].min(tv[(c + 1) % 6]), tv[c].max(tv[(c + 1) % 6]));
            let e = (0..NUM_EDGES).find(|&e| topo.edge_vertices[e] == [a, b]).expect("tile side is an edge");
            counts[e] += 1;
        }
    }
    counts
}

/// Vertices on a side of the board that only one tile borders.
fn coastal_vertices(topo: &Topology) -> [bool; NUM_VERTICES] {
    let counts = edge_tile_counts(topo);
    let mut coastal = [false; NUM_VERTICES];
    for e in 0..NUM_EDGES {
        if counts[e] == 1 {
            let [v1, v2] = topo.edge_vertices[e];
            coastal[v1 as usize] = true;
            coastal[v2 as usize] = true;
        }
    }
    coastal
}

#[test]
fn integration_topology_vertex_count() {
    let topo = Topology::standard();
    for t in 0..NUM_TILES {
        for &v in &topo.tile_vertices[t] {
            assert!((v as usize) < NUM_VERTICES, "tile {t} has invalid vertex {v}");
        }
    }
}

#[test]
fn topology_vertex_symmetry() {
    let topo = Topology::standard();
    for v in 0..NUM_VERTICES {
        for &adj in topo.vertex_neighbors(v) {
            let adj = adj as usize;
            let found = topo.vertex_neighbors(adj).contains(&(v as u8));
            assert!(found, "vertex {v} has neighbor {adj}, but not vice versa");
        }
    }
}

#[test]
fn integration_topology_edge_vertex_consistency() {
    let topo = Topology::standard();
    for e in 0..NUM_EDGES {
        let [v1, v2] = topo.edge_vertices[e];
        assert!(topo.vertex_edge_list(v1 as usize).contains(&(e as u8)));
        assert!(topo.vertex_edge_list(v2 as usize).contains(&(e as u8)));
    }
}

#[test]
fn topology_coastal_edges() {
    let topo = Topology::standard();
    let coastal = edge_tile_counts(&topo).iter().filter(|&&c| c == 1).count();
    assert_eq!(coastal, 30, "expected 30 coastal edges");
}

#[test]
fn topology_coastal_vertices() {
    let topo = Topology::standard();
    let coastal_count = coastal_vertices(&topo).iter().filter(|&&c| c).count();
    assert!(coastal_count > 0, "should have coastal vertices");
    let interior = (0..NUM_VERTICES).filter(|&v| topo.vertex_tiles(v).len() == 3).count();
    assert_eq!(interior + coastal_count, NUM_VERTICES);
}

#[test]
fn topology_port_vertices_are_coastal() {
    let topo = Topology::standard();
    let coastal = coastal_vertices(&topo);
    for i in 0..NUM_PORTS {
        let [v1, v2] = topo.port_vertices[i];
        assert!(coastal[v1 as usize], "port {i} vertex {v1} should be coastal");
        assert!(coastal[v2 as usize], "port {i} vertex {v2} should be coastal");
    }
}

#[test]
fn setup_phase_sequence() {
    let mut rng = StdRng::seed_from_u64(123);
    let mut game = Game::new(&mut rng);

    for player_idx in 0..4 {
        assert!(matches!(game.phase, Phase::SetupSettlement { player, round: 1 } if player.0 == player_idx));
        take_first_action(&mut game, &mut rng);
        assert!(matches!(game.phase, Phase::SetupRoad { player, round: 1, .. } if player.0 == player_idx));
        take_first_action(&mut game, &mut rng);
    }
    for player_idx in (0..4).rev() {
        assert!(matches!(game.phase, Phase::SetupSettlement { player, round: 2 } if player.0 == player_idx));
        take_first_action(&mut game, &mut rng);
        assert!(matches!(game.phase, Phase::SetupRoad { player, round: 2, .. } if player.0 == player_idx));
        take_first_action(&mut game, &mut rng);
    }
    assert!(matches!(game.phase, Phase::PreRoll));
    assert_eq!(game.current_player, PlayerId(0));
}

#[test]
fn setup_gives_resources_round2() {
    let mut rng = StdRng::seed_from_u64(999);
    let mut game = Game::new(&mut rng);
    while matches!(game.phase, Phase::SetupSettlement { .. } | Phase::SetupRoad { .. }) {
        take_first_action(&mut game, &mut rng);
    }
    let total_resources: u8 = game.players.iter().map(|p| p.resources.total()).sum();
    assert!(total_resources > 0, "players should receive resources in round 2 setup");
}

#[test]
fn dice_chance_node_flow() {
    let mut rng = StdRng::seed_from_u64(42);
    let mut game = Game::new(&mut rng);
    while !matches!(game.phase, Phase::PreRoll) {
        take_first_action(&mut game, &mut rng);
    }
    match game.turn() {
        Turn::Player(turn) => {
            assert!(turn.mask.to_vec().contains(&Action::RollDice));
            turn.apply(Action::RollDice, &mut rng).unwrap();
        }
        _ => panic!("expected a player decision"),
    }
    assert!(game.is_chance_node());
    match game.turn() {
        Turn::Chance(c) => c.resolve(6),
        _ => panic!("expected the dice"),
    }
    assert!(!game.is_chance_node());
}

#[test]
fn random_game_completes() {
    for seed in 0..20 {
        let mut rng = StdRng::seed_from_u64(seed);
        let mut game = Game::new(&mut rng);
        let mut steps = 0u32;
        let max_steps = 10_000;
        while steps < max_steps {
            match game.turn() {
                Turn::Terminal => break,
                Turn::Chance(c) => c.resolve_random(&mut rng),
                Turn::Player(turn) => {
                    let actions = turn.mask.to_vec();
                    assert!(!actions.is_empty(), "seed={seed} step={steps}: no legal actions");
                    let idx = rng.random_range(0..actions.len());
                    turn.apply(actions[idx], &mut rng).unwrap();
                    steps += 1;
                }
            }
        }
    }
}

#[test]
fn integration_action_mask_matches_legal_actions() {
    let mut rng = StdRng::seed_from_u64(77);
    let mut game = Game::new(&mut rng);
    let mut steps = 0;
    while steps < 500 {
        match game.turn() {
            Turn::Terminal => break,
            Turn::Chance(c) => c.resolve_random(&mut rng),
            Turn::Player(turn) => {
                let mask = turn.mask;
                let actions = mask.to_vec();
                for &a in &actions {
                    assert!(mask.get(a.to_index()), "action {a:?} in legal_actions but not in mask");
                }
                assert_eq!(mask.count() as usize, actions.len());
                let idx = rng.random_range(0..actions.len());
                turn.apply(actions[idx], &mut rng).unwrap();
                steps += 1;
            }
        }
    }
}

#[test]
fn observation_hides_other_player_resources() {
    let mut rng = StdRng::seed_from_u64(42);
    let mut game = Game::new(&mut rng);
    game.players[1].resources = ResourceBank([2, 3, 0, 0, 0]);
    let obs = game.observe(PlayerId(0));
    assert_eq!(obs.self_player.resources, game.players[0].resources.0);
    let p1_obs = &obs.other_players[0];
    assert_eq!(p1_obs.total_resource_cards, 5);
}

#[test]
fn longest_road_calculation() {
    let mut rng = StdRng::seed_from_u64(42);
    let mut game = Game::new(&mut rng);
    let topo = Topology::standard();
    let start_vertex = 0;
    let pid = PlayerId(0);
    game.board.vertices[start_vertex] = Vertex::Settlement(pid);

    let mut current_vertex = start_vertex;
    let mut road_count = 0;
    for _ in 0..5 {
        let mut placed = false;
        for &e in topo.vertex_edge_list(current_vertex) {
            let ei = e as usize;
            if !game.board.edges[ei].is_empty() {
                continue;
            }
            let [v1, v2] = topo.edge_vertices[ei];
            let next = if v1 as usize == current_vertex { v2 as usize } else { v1 as usize };
            if !game.board.vertices[next].is_empty() && game.board.vertices[next].owner() != Some(pid) {
                continue;
            }
            game.board.edges[ei] = Edge::Road(pid);
            current_vertex = next;
            road_count += 1;
            placed = true;
            break;
        }
        if !placed {
            break;
        }
    }
    game.compute_longest_road();
    assert_eq!(game.longest_road_len[0] as usize, road_count, "longest road should match number of roads placed in a chain");
}

#[test]
fn bank_trade_4_to_1() {
    let mut rng = StdRng::seed_from_u64(42);
    let mut game = Game::new(&mut rng);
    while !matches!(game.phase, Phase::PreRoll) {
        take_first_action(&mut game, &mut rng);
    }
    game.current_player = PlayerId(0);
    game.players[0].resources = ResourceBank([4, 0, 0, 0, 0]);
    // The trade is four for one: the seat trades without a harbor.
    game.players[0].has_three_to_one_port = false;
    game.players[0].two_to_one_ports = [false; 5];
    game.phase = Phase::Main;

    let actions = match game.turn() {
        Turn::Player(turn) => turn.mask.to_vec(),
        _ => panic!("expected a player decision"),
    };
    let trade_actions: Vec<_> = actions
        .iter()
        .filter(|a| matches!(a, Action::BankTrade { give: Resource::Brick, .. }))
        .collect();
    assert_eq!(trade_actions.len(), 4, "should be able to trade brick for 4 other resources");
    match game.turn() {
        Turn::Player(turn) => turn
            .apply(Action::BankTrade { give: Resource::Brick, receive: Resource::Ore }, &mut rng)
            .unwrap(),
        _ => panic!("expected a player decision"),
    }
    assert_eq!(game.players[0].resources.get(Resource::Brick), 0);
    assert_eq!(game.players[0].resources.get(Resource::Ore), 1);
}

#[test]
fn playout_performance() {
    let num_games = 100;
    let mut rng = StdRng::seed_from_u64(12345);
    let start = Instant::now();
    let mut total_actions = 0u64;
    for _ in 0..num_games {
        let mut game = Game::new(&mut rng);
        let mut steps = 0u32;
        while steps < 5000 {
            match game.turn() {
                Turn::Terminal => break,
                Turn::Chance(c) => c.resolve_random(&mut rng),
                Turn::Player(turn) => {
                    let actions = turn.mask.to_vec();
                    if actions.is_empty() {
                        break;
                    }
                    let idx = rng.random_range(0..actions.len());
                    turn.apply(actions[idx], &mut rng).unwrap();
                    steps += 1;
                }
            }
        }
        total_actions += steps as u64;
    }
    let elapsed = start.elapsed();
    println!(
        "{num_games} games in {elapsed:.2?}, {:.0} avg actions/game",
        total_actions as f64 / num_games as f64,
    );
    assert!(elapsed.as_secs() < 30, "playouts took too long");
}

#[test]
fn vertex_degrees_are_two_or_three() {
    let topo = Topology::standard();
    for v in 0..NUM_VERTICES {
        let edges = topo.vertex_edge_list(v);
        let neighbors = topo.vertex_neighbors(v);
        assert!(edges.len() >= 2 && edges.len() <= 3, "vertex {v}");
        assert_eq!(neighbors.len(), edges.len());
        for w in edges.windows(2) {
            assert!(w[0] < w[1]);
        }
        for &u in neighbors {
            assert_ne!(u as usize, v);
            assert!(topo.vertex_neighbors(u as usize).contains(&(v as u8)));
            let pair = [(u as usize).min(v) as u8, (u as usize).max(v) as u8];
            assert!(topo.edge_vertices.contains(&pair));
        }
    }
}
