use tiny_games::tictactoe::{Game, Player, Status, Tile};

#[test]
fn o_moves_first_and_turns_alternate() {
    let mut g = Game::new();
    assert_eq!(g.status, Status::Move(Player::O));
    assert_eq!(g.put(1, 1), Ok(()));
    assert_eq!(g.tile_at(1, 1), Some(Tile::Piece(Player::O)));
    assert_eq!(g.status, Status::Move(Player::X));
    assert_eq!(g.put(0, 0), Ok(()));
    assert_eq!(g.tile_at(0, 0), Some(Tile::Piece(Player::X)));
    assert_eq!(g.status, Status::Move(Player::O));
}

#[test]
fn put_errors() {
    let mut g = Game::new();
    assert_eq!(g.put(3, 1), Err("Invalid position"));
    assert_eq!(g.put(-1, 0), Err("Invalid position"));
    g.put(0, 0).unwrap();
    assert_eq!(g.put(0, 0), Err("Non-empty position"));
}

#[test]
fn row_wins_and_game_ends() {
    let mut g = Game::new();
    // O: 0,1,2 (x = 0); X: 3,4
    g.put(0, 0).unwrap();
    g.put(1, 0).unwrap();
    g.put(0, 1).unwrap();
    g.put(1, 1).unwrap();
    g.put(0, 2).unwrap();
    assert_eq!(g.status, Status::Win(Player::O));
    assert_eq!(g.put(2, 2), Err("The game is alreadly ended"));
}

#[test]
fn full_board_without_line_is_a_draw() {
    let mut g = Game::new();
    // O X O / O X X / X O O, by cell index 0..9
    for &(x, y) in &[(0, 0), (0, 1), (0, 2), (1, 1), (1, 0), (1, 2), (2, 1), (2, 0), (2, 2)] {
        g.put(x, y).unwrap();
    }
    assert_eq!(g.status, Status::Draw);
}

#[test]
fn tile_at_outside_board() {
    let g = Game::new();
    assert_eq!(g.tile_at(0, 0), Some(Tile::Empty));
    assert_eq!(g.tile_at(4, 0), None);
    assert_eq!(g.tile_at(0, -1), None);
}

#[test]
fn player_names() {
    assert_eq!(Player::X.to_string(), "X");
    assert_eq!(Player::O.to_string(), "O");
}
