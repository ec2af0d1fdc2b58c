use tiny_games::minesweeper::{is_adjacent, Game, Marker, Status, Tile};
use tiny_games::tui::App;

#[test]
fn board_without_mines_opens_at_once() {
    let mut g = Game::new(4, 3, 0);
    assert_eq!(g.status(), Status::Remaining(12));
    g.reveal_cell((0, 0));
    for x in 0..4 {
        for y in 0..3 {
            assert_eq!(g.at((x, y)), Tile::Revealed(0));
        }
    }
    assert_eq!(g.status(), Status::Remaining(0));
}

#[test]
fn board_full_of_mines() {
    let mut g = Game::new(2, 2, 4);
    assert_eq!(g.status(), Status::Remaining(0));
    g.reveal_cell((1, 1));
    assert_eq!(g.at((1, 1)), Tile::Mine);
    assert_eq!(g.status(), Status::Lose);
    g.reveal_all();
    assert_eq!(g.at((0, 0)), Tile::Mine);
}

#[test]
fn single_safe_cell_counts_its_neighbours() {
    // Three mines on a 2x2 board: the one safe cell touches all three.
    let mut g = Game::new(2, 2, 3);
    g.reveal_all();
    let mut safe = 0;
    for x in 0..2 {
        for y in 0..2 {
            match g.at((x, y)) {
                Tile::Revealed(n) => {
                    assert_eq!(n, 3);
                    safe += 1;
                }
                Tile::Mine => {}
                Tile::Unknown => panic!("cell left covered"),
            }
        }
    }
    assert_eq!(safe, 1);
    assert_eq!(g.status(), Status::Lose);
}

#[test]
fn markers_only_on_covered_cells() {
    let mut g = Game::new(3, 3, 0);
    g.mark((1, 1), Marker::Unsure);
    assert_eq!(g.marker_at((1, 1)), Marker::Unsure);
    g.mark((1, 1), Marker::Mine);
    assert_eq!(g.marker_at((1, 1)), Marker::Mine);
    g.reveal_cell((0, 0));
    g.mark((0, 0), Marker::Mine);
    assert_eq!(g.marker_at((0, 0)), Marker::Clear);
    // Revealing clears the marker.
    assert_eq!(g.marker_at((1, 1)), Marker::Clear);
}

#[test]
fn adjacency() {
    assert!(is_adjacent((1, 1), (0, 0)));
    assert!(is_adjacent((1, 1), (2, 1)));
    assert!(!is_adjacent((1, 1), (1, 1)));
    assert!(!is_adjacent((0, 0), (2, 0)));
}

#[test]
fn app_cursor_stays_on_board() {
    let mut app = App::new();
    assert!(!app.move_cursor(-1, 0));
    assert!(app.move_cursor(1, 0));
    assert!(app.move_cursor(0, 1));
    assert_eq!(app.cursor(), (1, 1));
    assert_eq!(app.game_position(), (1, 1));
    assert_eq!(app.cell_char(1, 1), '.');
}

#[test]
fn app_marked_cell_is_not_uncovered() {
    let mut app = App::new();
    assert!(app.mark(Marker::Unsure));
    assert_eq!(app.cell_char(0, 0), '?');
    assert!(!app.place());
    assert_eq!(app.game().at((0, 0)), Tile::Unknown);
    assert!(app.mark(Marker::Clear));
    assert!(app.place());
    assert!(app.game().at((0, 0)) != Tile::Unknown);
    assert!(app.cell_char(0, 0) != '.');
}
