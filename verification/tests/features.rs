use rand::rngs::StdRng;
use rand::SeedableRng;
use rand_chacha::ChaCha8Rng;

use catan::{CatanGame, Edge, Game, PlayerId, Vertex};

#[test]
fn features_of_a_fresh_game() {
    let mut rng = ChaCha8Rng::seed_from_u64(3);
    let game = CatanGame::new_with_rng(&mut rng);
    let f = game.features();
    assert_eq!(f.len(), 626);
    let sim = game.as_sim();
    let t0 = sim.board.tiles[0];
    for k in 0..6 {
        let want = if k == t0.terrain as usize { (1, 1) } else { (0, 1) };
        assert_eq!(f[k], want);
    }
    assert_eq!(f[6], (t0.number as u16, 12));
    assert_eq!(f[7], (if sim.board.robber.0 == 0 { 1 } else { 0 }, 1));
    for i in 152..530 {
        assert_eq!(f[i], (0, 1));
    }
    for h in 0..9 {
        let block = &f[530 + 6 * h..536 + 6 * h];
        assert_eq!(block.iter().filter(|x| **x == (1, 1)).count(), 1);
    }
    assert_eq!(&f[584..589], &[(0, 19); 5]);
    assert_eq!(&f[589..594], &[(0, 5); 5]);
    assert_eq!(&f[594..597], &[(0, 14), (0, 1), (0, 15)]);
    assert_eq!(&f[604..609], &[(0, 19), (0, 25), (0, 14), (0, 1), (0, 1)]);
    assert_eq!(&f[619..626], &[(0, 500), (25, 25), (19, 19), (19, 19), (19, 19), (19, 19), (19, 19)]);
}

#[test]
fn features_give_owners_relative_to_the_observer() {
    let mut rng = StdRng::seed_from_u64(4);
    let mut game = Game::new(&mut rng);
    game.board.vertices[0] = Vertex::Settlement(PlayerId(1));
    game.board.vertices[1] = Vertex::City(PlayerId(0));
    game.board.edges[0] = Edge::Road(PlayerId(3));
    let f = game.observe(PlayerId(0)).features();
    assert_eq!(&f[152..155], &[(1, 2), (0, 1), (1, 3)]);
    assert_eq!(&f[155..158], &[(1, 1), (1, 1), (0, 1)]);
    assert_eq!(&f[314..317], &[(1, 1), (0, 1), (3, 3)]);
    let g = game.observe(PlayerId(1)).features();
    assert_eq!(&g[152..155], &[(1, 2), (1, 1), (0, 1)]);
    assert_eq!(&g[155..158], &[(1, 1), (0, 1), (3, 3)]);
}
