use rand::rngs::StdRng;
use rand::{RngExt, SeedableRng};
use rand_chacha::ChaCha8Rng;

use catan::board::STANDARD_NON_ZERO_NUMBERS;
use catan::catan::{action_log_bucket, catan_phase_bucket};
use catan::display::{board_terrain_word, hex_row_starts, hex_tile_stride, tile_face_text};
use catan::observation::{player_relative, PlayerRelation};
use catan::{
    Action, ActionDistribution, CatanGame, DevelopmentCard, Game, GameRng, Phase, PlayerId,
    Resource, ResourceBank, ResNetConfig, Terrain, Tile, TileId, Turn, Vertex, VertexId, OBS,
};

fn play_setup(game: &mut Game, rng: &mut StdRng) {
    while matches!(game.phase, Phase::SetupSettlement { .. } | Phase::SetupRoad { .. }) {
        match game.turn() {
            Turn::Player(turn) => {
                let actions = turn.mask.to_vec();
                turn.apply(actions[rng.random_range(0..actions.len())], rng).unwrap();
            }
            _ => panic!("unexpected phase during setup"),
        }
    }
}

fn roll(game: &mut Game, value: u8, rng: &mut StdRng) {
    match game.turn() {
        Turn::Player(turn) => turn.apply(Action::RollDice, rng).unwrap(),
        _ => panic!("expected a player decision"),
    }
    match game.turn() {
        Turn::Chance(c) => c.resolve(value),
        _ => panic!("expected the dice"),
    }
}

fn totals_by_resource(game: &Game) -> [u32; 5] {
    let mut out = [0u32; 5];
    for r in 0..5 {
        out[r] = game.board.bank.0[r] as u32 + game.players.iter().map(|p| p.resources.0[r] as u32).sum::<u32>();
    }
    out
}

#[test]
fn fresh_game_state() {
    let mut rng = StdRng::seed_from_u64(7);
    let game = Game::new(&mut rng);
    assert_eq!(game.phase, Phase::SetupSettlement { player: PlayerId(0), round: 1 });
    assert_eq!(totals_by_resource(&game), [19; 5]);
    assert_eq!(game.board.bank, ResourceBank([19; 5]));
    assert_eq!(game.board.dev_card_deck.remaining(), 25);
    for p in &game.players {
        assert_eq!(p.settlements_left, 5);
        assert_eq!(p.cities_left, 4);
        assert_eq!(p.roads_left, 15);
        assert_eq!(p.resources.total(), 0);
    }
    assert_eq!(game.board.tiles[game.board.robber.idx()].terrain, Terrain::Desert);
}

#[test]
fn board_generation_shuffles() {
    let mut rng = StdRng::seed_from_u64(11);
    let game = Game::new(&mut rng);
    let mut numbers: Vec<u8> = game
        .board
        .tiles
        .iter()
        .filter(|t| t.terrain != Terrain::Desert)
        .map(|t| t.number)
        .collect();
    let in_order = numbers == STANDARD_NON_ZERO_NUMBERS.to_vec();
    let desert_first = game.board.tiles[0].terrain == Terrain::Desert;
    assert!(!(in_order && desert_first), "tiles left in their unshuffled order");
    numbers.sort();
    assert_eq!(numbers, STANDARD_NON_ZERO_NUMBERS.to_vec());
}

#[test]
fn generator_draws_in_range() {
    let mut rng = StdRng::seed_from_u64(3);
    let mut seen = [false; 6];
    for _ in 0..200 {
        let d = rng.die();
        assert!((1..=6).contains(&d));
        seen[(d - 1) as usize] = true;
        let b = rng.below(5);
        assert!(b < 5);
    }
    assert!(seen.iter().all(|&s| s), "a die should show every face in 200 rolls");
    let mut items = [1u8, 2, 3, 4, 5, 6, 7, 8];
    rng.shuffle(&mut items);
    let mut sorted = items;
    sorted.sort();
    assert_eq!(sorted, [1, 2, 3, 4, 5, 6, 7, 8]);
}

#[test]
fn illegal_action_is_refused_without_change() {
    let mut rng = StdRng::seed_from_u64(5);
    let mut game = Game::new(&mut rng);
    let before = game.clone();
    match game.turn() {
        Turn::Player(turn) => {
            let err = turn.apply(Action::EndTurn, &mut rng).unwrap_err();
            assert_eq!(err.action, Action::EndTurn);
            assert_eq!(err.reason, "action not legal in current state");
        }
        _ => panic!("expected a player decision"),
    }
    assert_eq!(game.phase, before.phase);
    assert_eq!(game.board.vertices, before.board.vertices);
    assert_eq!(game.players[0].settlements_left, before.players[0].settlements_left);
}

#[test]
fn setup_leaves_two_of_each_on_board() {
    let mut rng = StdRng::seed_from_u64(21);
    let mut game = Game::new(&mut rng);
    play_setup(&mut game, &mut rng);
    assert_eq!(game.phase, Phase::PreRoll);
    assert_eq!(game.current_player, PlayerId(0));
    for i in 0..4u8 {
        assert_eq!(game.pieces_on_board(PlayerId(i)), (2, 0, 2));
        let p = &game.players[i as usize];
        assert_eq!(p.settlements_left, 3);
        assert_eq!(p.roads_left, 13);
    }
    assert_eq!(totals_by_resource(&game), [19; 5]);
}

#[test]
fn seven_with_no_large_hand_moves_robber() {
    let mut rng = StdRng::seed_from_u64(8);
    let mut game = Game::new(&mut rng);
    play_setup(&mut game, &mut rng);
    for p in &mut game.players {
        p.resources = ResourceBank([1, 1, 1, 1, 1]);
    }
    roll(&mut game, 7, &mut rng);
    assert_eq!(game.phase, Phase::MoveRobber);
    assert!(game.turn_flags.has_rolled);
}

#[test]
fn discard_nine_keeps_five() {
    let mut rng = StdRng::seed_from_u64(8);
    let mut game = Game::new(&mut rng);
    play_setup(&mut game, &mut rng);
    game.players[2].resources = ResourceBank([2, 2, 2, 2, 1]);
    roll(&mut game, 7, &mut rng);
    match game.phase {
        Phase::Discard { remaining, targets, active } => {
            assert_eq!(remaining, [false, false, true, false]);
            assert_eq!(targets[2], 5);
            assert_eq!(active, PlayerId(2));
        }
        ref other => panic!("expected discards, got {other:?}"),
    }
    while matches!(game.phase, Phase::Discard { .. }) {
        match game.turn() {
            Turn::Player(turn) => {
                let a = turn.mask.to_vec()[0];
                turn.apply(a, &mut rng).unwrap();
            }
            _ => panic!(),
        }
    }
    assert_eq!(game.players[2].resources.total(), 5);
    assert_eq!(game.phase, Phase::MoveRobber);
}

#[test]
fn settlement_and_city_production() {
    let mut rng = StdRng::seed_from_u64(2);
    let mut game = Game::new(&mut rng);
    for v in 0..54 {
        game.board.vertices[v] = Vertex::Empty;
    }
    // Tile 9 is the centre; find a productive tile that is not the robber's.
    let t = (0..19)
        .find(|&t| game.board.tiles[t].terrain != Terrain::Desert && game.board.robber != TileId(t as u8))
        .unwrap();
    let number = game.board.tiles[t].number;
    let resource = game.board.tiles[t].terrain.resource().unwrap();
    let corners = game.board.topo.tile_vertices[t];
    game.board.vertices[corners[0] as usize] = Vertex::Settlement(PlayerId(1));
    game.board.vertices[corners[3] as usize] = Vertex::City(PlayerId(2));
    game.phase = Phase::PreRoll;
    let before1 = game.players[1].resources.get(resource);
    let before2 = game.players[2].resources.get(resource);
    let others: u32 = (0..19)
        .filter(|&u| u != t && game.board.tiles[u].number == number)
        .count() as u32;
    roll(&mut game, number, &mut rng);
    if others == 0 {
        assert_eq!(game.players[1].resources.get(resource), before1 + 1);
        assert_eq!(game.players[2].resources.get(resource), before2 + 2);
    } else {
        assert!(game.players[1].resources.get(resource) >= before1 + 1);
        assert!(game.players[2].resources.get(resource) >= before2 + 2);
    }
    assert_eq!(game.phase, Phase::Main);
    assert_eq!(totals_by_resource(&game), [19; 5]);
}

#[test]
fn robber_tile_produces_nothing() {
    let mut rng = StdRng::seed_from_u64(2);
    let mut game = Game::new(&mut rng);
    let t = (0..19).find(|&t| game.board.tiles[t].terrain != Terrain::Desert).unwrap();
    let number = game.board.tiles[t].number;
    let corners = game.board.topo.tile_vertices[t];
    game.board.vertices[corners[0] as usize] = Vertex::City(PlayerId(3));
    game.board.robber = TileId(t as u8);
    // No other tile shares the number's production for this corner.
    game.phase = Phase::PreRoll;
    let before = game.players[3].resources;
    let shared = game.board.topo.vertex_tiles(corners[0] as usize).to_vec();
    roll(&mut game, number, &mut rng);
    let gained_elsewhere = shared
        .iter()
        .any(|&u| u as usize != t && game.board.tiles[u as usize].number == number);
    if !gained_elsewhere {
        assert_eq!(game.players[3].resources, before);
    }
}

#[test]
fn reaching_ten_points_ends_the_game() {
    let mut rng = StdRng::seed_from_u64(13);
    let mut game = Game::new(&mut rng);
    play_setup(&mut game, &mut rng);
    roll(&mut game, 3, &mut rng);
    while game.phase != Phase::Main {
        match game.turn() {
            Turn::Player(turn) => {
                let a = turn.mask.to_vec()[0];
                turn.apply(a, &mut rng).unwrap();
            }
            Turn::Chance(c) => c.resolve(3),
            Turn::Terminal => panic!(),
        }
    }
    // Two settlements and eight victory-point cards.
    for _ in 0..8 {
        game.players[1].dev_cards.add(DevelopmentCard::VictoryPoint);
    }
    assert_eq!(game.victory_points(PlayerId(1)), 10);
    match game.turn() {
        Turn::Player(turn) => turn.apply(Action::EndTurn, &mut rng).unwrap(),
        _ => panic!(),
    }
    assert_eq!(game.phase, Phase::GameOver { winner: PlayerId(1) });
    assert_eq!(game.winner(), Some(PlayerId(1)));
    assert!(game.is_terminal());
    assert!(matches!(game.turn(), Turn::Terminal));
}

#[test]
fn largest_army_goes_to_first_with_most() {
    let mut rng = StdRng::seed_from_u64(13);
    let mut game = Game::new(&mut rng);
    game.players[1].played_knights = 3;
    game.players[2].played_knights = 3;
    assert_eq!(game.largest_army_owner(), Some(PlayerId(1)));
    game.players[3].played_knights = 4;
    assert_eq!(game.largest_army_owner(), Some(PlayerId(3)));
}

#[test]
fn longest_road_goes_to_first_with_longest() {
    let mut rng = StdRng::seed_from_u64(13);
    let mut game = Game::new(&mut rng);
    game.longest_road_len = [4, 6, 6, 5];
    assert_eq!(game.longest_road_owner(), Some(PlayerId(1)));
    game.longest_road_len = [4, 4, 3, 4];
    assert_eq!(game.longest_road_owner(), None);
}

#[test]
fn longest_road_is_the_longest_trail() {
    let mut rng = StdRng::seed_from_u64(21);
    let mut game = Game::new(&mut rng);
    let own = catan::Edge::Road(PlayerId(0));
    // A path 0-1-2-3-4 with a spur from vertex 2 to vertex 9.
    for e in [0usize, 1, 2, 3, 9] {
        game.board.edges[e] = own;
    }
    game.compute_longest_road();
    assert_eq!(game.longest_road_len, [4, 0, 0, 0]);
    // The player's own settlement at the fork does not cut the road.
    game.board.vertices[2] = Vertex::Settlement(PlayerId(0));
    game.compute_longest_road();
    assert_eq!(game.longest_road_len[0], 4);
    // An opponent's settlement there does.
    game.board.vertices[2] = Vertex::Settlement(PlayerId(1));
    game.compute_longest_road();
    assert_eq!(game.longest_road_len[0], 2);
    // Closing the hexagon 0-1-2-3-4-5 gives a loop of six roads.
    game.board.vertices[2] = Vertex::Empty;
    game.board.edges[9] = catan::Edge::Empty;
    game.board.edges[4] = own;
    game.board.edges[5] = own;
    game.compute_longest_road();
    assert_eq!(game.longest_road_len[0], 6);
}

#[test]
fn relative_seats() {
    assert_eq!(player_relative(PlayerId(0), PlayerId(0)), PlayerRelation::Self_);
    assert_eq!(player_relative(PlayerId(0), PlayerId(1)), PlayerRelation::Clockwise1);
    assert_eq!(player_relative(PlayerId(1), PlayerId(0)), PlayerRelation::Clockwise3);
    assert_eq!(player_relative(PlayerId(3), PlayerId(1)), PlayerRelation::Clockwise2);
}

#[test]
fn observation_of_a_fresh_game() {
    let mut rng = StdRng::seed_from_u64(17);
    let mut game = Game::new(&mut rng);
    game.players[2].resources = ResourceBank([1, 0, 2, 0, 0]);
    let obs = game.observe(PlayerId(1));
    assert_eq!(obs.other_players[0].total_resource_cards, 3);
    assert_eq!(obs.other_players[1].total_resource_cards, 0);
    assert_eq!(obs.meta.dev_cards_remaining, 25);
    assert_eq!(obs.meta.resource_bank, [19; 5]);
    let robber = game.board.robber.idx();
    assert!(obs.tiles[robber].has_robber);
    assert_eq!(obs.tiles.iter().filter(|t| t.has_robber).count(), 1);
}

#[test]
fn buckets() {
    assert_eq!(catan_phase_bucket(&Phase::Main), 4);
    assert_eq!(catan_phase_bucket(&Phase::ChanceRoll), 1);
    assert_eq!(catan_phase_bucket(&Phase::GameOver { winner: PlayerId(2) }), 6);
    assert_eq!(action_log_bucket(Action::EndTurn), 0);
    assert_eq!(action_log_bucket(Action::PlayMonopoly(Resource::Ore)), 7);
    assert_eq!(action_log_bucket(Action::StealFromNone), 9);
    assert_eq!(action_log_bucket(Action::DiscardResource(Resource::Wool)), 10);
}

#[test]
fn most_visited_picks_last_maximum() {
    let d = ActionDistribution::<5> { visits: [0, 3, 5, 5, 1] };
    assert_eq!(d.most_visited(), Some(3));
    let e = ActionDistribution::<3> { visits: [0, 0, 0] };
    assert_eq!(e.most_visited(), None);
}

#[test]
fn network_configuration_defaults() {
    let c = ResNetConfig::default();
    assert_eq!((c.obs_size, c.act_size, c.num_players, c.num_blocks, c.hidden_dim), (64, 9, 2, 4, 128));
    assert_eq!(OBS, 626);
}

#[test]
fn board_text() {
    assert_eq!(board_terrain_word(Terrain::Mountains), "Mtns");
    assert_eq!(hex_tile_stride(), 16);
    assert_eq!(hex_row_starts(16), [16, 8, 0, 8, 16]);
    let desert = Tile { terrain: Terrain::Desert, number: 0 };
    assert_eq!(tile_face_text(&desert, true), "Desert ●");
    assert_eq!(tile_face_text(&desert, false), "Desert");
    let hills = Tile { terrain: Terrain::Hills, number: 5 };
    assert_eq!(tile_face_text(&hills, false), "Hills 05");
    let fields = Tile { terrain: Terrain::Fields, number: 12 };
    assert_eq!(tile_face_text(&fields, true), "Fields 12●");
}

#[test]
fn search_environment_rolls_its_own_dice() {
    let mut rng = ChaCha8Rng::seed_from_u64(4);
    let mut game = CatanGame::new_with_rng(&mut rng);
    assert_eq!(game.current_player(), PlayerId(0));
    let mut plies = 0;
    while !game.is_terminal() && plies < 400 {
        let actions = game.legal_actions();
        assert!(!actions.is_empty());
        assert!(!game.as_sim().is_chance_node());
        let a = actions[rng.random_range(0..actions.len())];
        game.apply(a);
        plies += 1;
    }
    for i in 0..4u8 {
        assert_eq!(game.is_winner(PlayerId(i)), game.as_sim().winner() == Some(PlayerId(i)));
    }
}

#[test]
fn finished_games_are_won_with_ten_points() {
    let mut finished = 0;
    for seed in 0..6u64 {
        let mut rng = ChaCha8Rng::seed_from_u64(seed);
        let mut game = CatanGame::new_with_rng(&mut rng);
        let mut plies = 0;
        while !game.is_terminal() && plies < 20_000 {
            let actions = game.legal_actions();
            let a = actions[rng.random_range(0..actions.len())];
            game.apply(a);
            plies += 1;
        }
        if let Some(w) = game.as_sim().winner() {
            finished += 1;
            assert!(game.is_winner(w));
            assert!(game.as_sim().victory_points(w) >= 10);
            for i in 0..4u8 {
                let sim = game.as_sim();
                assert_eq!(sim.longest_road_len[i as usize], {
                    let mut copy = sim.clone();
                    copy.compute_longest_road();
                    copy.longest_road_len[i as usize]
                });
            }
        }
    }
    assert!(finished > 0);
}

#[test]
fn city_needs_own_settlement() {
    let mut rng = StdRng::seed_from_u64(31);
    let mut game = Game::new(&mut rng);
    play_setup(&mut game, &mut rng);
    roll(&mut game, 3, &mut rng);
    while game.phase != Phase::Main {
        match game.turn() {
            Turn::Player(turn) => {
                let a = turn.mask.to_vec()[0];
                turn.apply(a, &mut rng).unwrap();
            }
            Turn::Chance(c) => c.resolve(3),
            Turn::Terminal => panic!(),
        }
    }
    let me = game.current_player;
    game.players[me.idx()].resources = ResourceBank([0, 0, 3, 2, 0]);
    let other = (0..54)
        .find(|&v| matches!(game.board.vertices[v], Vertex::Settlement(p) if p != me))
        .unwrap();
    match game.turn() {
        Turn::Player(turn) => {
            assert!(!turn.mask.get(Action::BuildCity(VertexId(other as u8)).to_index()));
        }
        _ => panic!(),
    }
}

#[test]
fn new_search_game_is_fresh() {
    let mut rng = ChaCha8Rng::seed_from_u64(17);
    let game = CatanGame::new_with_rng(&mut rng);
    assert!(!game.is_terminal());
    assert_eq!(game.current_player(), PlayerId(0));
    assert_eq!(game.legal_actions().len(), 54);
}

#[test]
fn malformed_actions_are_refused() {
    let mut rng = StdRng::seed_from_u64(8);
    let mut game = Game::new(&mut rng);
    play_setup(&mut game, &mut rng);
    let before = format!("{:?}", game);
    match game.turn() {
        Turn::Player(turn) => {
            let err = turn.apply(Action::PlaceSettlement(VertexId(60)), &mut rng).unwrap_err();
            assert_eq!(err.action, Action::PlaceSettlement(VertexId(60)));
            assert_eq!(err.reason, "action not legal in current state");
        }
        _ => panic!("expected a player decision"),
    }
    assert_eq!(format!("{:?}", game), before);
    roll(&mut game, 8, &mut rng);
    while game.phase != Phase::Main {
        match game.turn() {
            Turn::Player(turn) => {
                let actions = turn.mask.to_vec();
                turn.apply(actions[0], &mut rng).unwrap();
            }
            _ => panic!("expected a player decision"),
        }
    }
    let p = game.current_player.0 as usize;
    game.players[p].resources = ResourceBank([0, 0, 0, 0, 4]);
    let before = format!("{:?}", game);
    match game.turn() {
        Turn::Player(turn) => {
            let trade = Action::BankTrade { give: Resource::Wool, receive: Resource::Wool };
            let err = turn.apply(trade, &mut rng).unwrap_err();
            assert_eq!(err.reason, "action not legal in current state");
        }
        _ => panic!("expected a player decision"),
    }
    assert_eq!(format!("{:?}", game), before);
}
