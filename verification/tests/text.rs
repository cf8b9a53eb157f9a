use rand::rngs::StdRng;
use rand::SeedableRng;

use catan::{
    Action, DevCardHand, EdgeId, Game, Phase, PlayerId, Port, Resource, ResourceBank, Terrain,
};

#[test]
fn words_of_values() {
    assert_eq!(PlayerId(2).text(), "P2");
    assert_eq!(Terrain::Mountains.text(), "Mtns");
    assert_eq!(Resource::Ore.text(), "Ore");
    assert_eq!(Port::ThreeToOne.text(), "3:1");
    assert_eq!(Port::TwoToOne(Resource::Wool).text(), "2:1 Wool");
    assert_eq!(ResourceBank([1, 0, 12, 3, 104]).text(), "[B:1 L:0 O:12 G:3 W:104]");
    assert_eq!(DevCardHand([2, 0, 0, 0, 1]).text(), "2xKn 1xMo");
    assert_eq!(DevCardHand([0, 11, 0, 0, 0]).text(), "11xVP");
    assert_eq!(DevCardHand([0; 5]).text(), "(none)");
}

#[test]
fn words_of_actions_and_phases() {
    assert_eq!(Action::PlaceRoad(EdgeId(12)).text(), "Road@e12");
    assert_eq!(Action::BankTrade { give: Resource::Ore, receive: Resource::Wool }.text(), "Trade(Ore->Wool)");
    assert_eq!(Action::StealFrom(PlayerId(3)).text(), "Steal(P3)");
    assert_eq!(Action::PlayYearOfPlenty(Resource::Brick, Resource::Grain).text(), "YoP(Brick,Grain)");
    assert_eq!(Action::EndTurn.text(), "EndTurn");
    assert_eq!(
        Phase::SetupRoad { player: PlayerId(1), round: 2, settlement_vertex: 5 }.text(),
        "Setup R2: P1 place road"
    );
    assert_eq!(Phase::RoadBuilding { roads_left: 2 }.text(), "RoadBuilding(2 left)");
    assert_eq!(Phase::GameOver { winner: PlayerId(0) }.text(), "Game Over: P0 wins");
}

#[test]
fn player_summary_line() {
    let mut rng = StdRng::seed_from_u64(5);
    let mut game = Game::new(&mut rng);
    game.players[1].resources = ResourceBank([0, 2, 0, 1, 0]);
    game.players[1].dev_cards = DevCardHand([1, 0, 0, 0, 0]);
    game.players[1].played_knights = 3;
    assert_eq!(
        game.players[1].text(),
        "P1  [B:0 L:2 O:0 G:1 W:0]  ·  dev [1xKn]  ·  3 knights played"
    );
}

#[test]
fn game_text_layout() {
    let mut rng = StdRng::seed_from_u64(5);
    let game = Game::new(&mut rng);
    let text = game.text();
    let lines: Vec<&str> = text.lines().collect();
    assert_eq!(lines.len(), 34);
    assert_eq!(lines[0], format!("╭{}╮", "─".repeat(94)));
    assert_eq!(lines[1], format!("│{:^94}│", "Turn   0  ·  P0  ·  Setup R1: P0 place settlement"));
    assert_eq!(lines[2], format!("╰{}╯", "─".repeat(94)));
    assert_eq!(lines[3], "");
    assert_eq!(lines[4], "  Board");
    assert_eq!(lines[6], format!("{}{}", " ".repeat(26), ["┌────────────┐"; 3].join("  ")));
    assert_eq!(lines[16], format!("{}{}", " ".repeat(10), ["└────────────┘"; 5].join("  ")));
    assert_eq!(lines[26], "  Players");
    assert_eq!(
        lines[28],
        format!("    {:>3}   {:>2} vp   {:<22}  [B:0 L:0 O:0 G:0 W:0]  ·  [(none)]  ·  on[S:0 C:0 R:0] sup[S:5 C:4 R:15]", "P0", 0, "—")
    );
    assert_eq!(lines[33], "  Bank [B:19 L:19 O:19 G:19 W:19]  ·  development deck: 25 cards");
    assert!(text.ends_with("cards\n"));
}
