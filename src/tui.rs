//! The state behind the minesweeper screen: the game and the cursor, the
//! moves that keys make, and the character each cell is drawn with. Drawing
//! itself is left to the caller.
use vstd::prelude::*;
use crate::minesweeper::{count_tile, Game, Marker, Point, Status, Tile};

verus! {

/// Board columns.
pub const WIDTH: usize = 16;

/// Board rows.
pub const HEIGHT: usize = 16;

/// Mines on a new board.
pub const MINE_COUNT: usize = 20;

/// The character drawn for a cell with this marker and tile.
pub open spec fn cell_glyph(marker: Marker, tile: Tile) -> char {
    match marker {
        Marker::Mine => 'x',
        Marker::Unsure => '?',
        Marker::Clear => match tile {
            Tile::Revealed(n) => if n == 0 {
                ' '
            } else {
                (('0' as u32) + n) as char
            },
            Tile::Mine => '*',
            Tile::Unknown => '.',
        },
    }
}

pub struct App {
    game: Game,
    cursor: (u16, u16),
}

impl App {
    pub closed spec fn board(&self) -> Game {
        self.game
    }

    /// The cursor: column, then row.
    pub closed spec fn at_cursor(&self) -> (u16, u16) {
        self.cursor
    }

    /// The cell under the cursor.
    pub open spec fn spot(&self) -> Point {
        (self.at_cursor().0 as usize, self.at_cursor().1 as usize)
    }

    pub open spec fn wf(&self) -> bool {
        &&& self.board().wf()
        &&& self.board().w() == WIDTH
        &&& self.board().h() == HEIGHT
        &&& self.board().in_board(self.spot())
    }

    /// A new board with the cursor in the top left corner.
    pub fn new() -> (r: App)
        ensures
            r.wf(),
            r.at_cursor() == (0u16, 0u16),
            r.board().mines_made() == MINE_COUNT,
            forall|i: int| 0 <= i < r.board().tiles().len() ==> r.board().tiles()[i] == Tile::Unknown,
    {
        App { game: Game::new(WIDTH, HEIGHT, MINE_COUNT), cursor: (0, 0) }
    }

    /// Starts over on a new board, the cursor staying where it is.
    pub fn reset(&mut self)
        requires
            old(self).wf(),
        ensures
            final(self).wf(),
            final(self).at_cursor() == old(self).at_cursor(),
            final(self).board().mines_made() == MINE_COUNT,
            forall|i: int| 0 <= i < final(self).board().tiles().len() ==> final(self).board().tiles()[i]
                == Tile::Unknown,
    {
        self.game = Game::new(WIDTH, HEIGHT, MINE_COUNT);
    }

    /// The game being played.
    pub fn game(&self) -> (r: &Game)
        ensures
            *r == self.board(),
    {
        &self.game
    }

    /// The cursor: column, then row.
    pub fn cursor(&self) -> (r: (u16, u16))
        ensures
            r == self.at_cursor(),
    {
        self.cursor
    }

    /// Moves the cursor by `(x, y)` if it stays on the board; says whether it
    /// moved.
    pub fn move_cursor(&mut self, x: i32, y: i32) -> (moved: bool)
        requires
            old(self).wf(),
            -1 <= x <= 1 && -1 <= y <= 1,
        ensures
            final(self).wf(),
            final(self).board() == old(self).board(),
            moved == (0 <= old(self).at_cursor().0 + x < WIDTH && 0 <= old(self).at_cursor().1 + y < HEIGHT),
            moved ==> final(self).at_cursor().0 == old(self).at_cursor().0 + x && final(self).at_cursor().1 == old(self).at_cursor().1 + y,
            !moved ==> final(self).at_cursor() == old(self).at_cursor(),
    {
        let nx: i32 = self.cursor.0 as i32 + x;
        let ny: i32 = self.cursor.1 as i32 + y;
        if 0 <= nx && nx < self.game.width() as i32 && 0 <= ny && ny < self.game.height() as i32 {
            self.cursor = (nx as u16, ny as u16);
            true
        } else {
            false
        }
    }

    /// The state of the game, as `Game::status` gives it.
    pub fn status(&mut self) -> (r: Status)
        requires
            old(self).wf(),
        ensures
            *final(self) == *old(self),
            r == if count_tile(old(self).board().tiles(), Tile::Mine) > 0 {
                Status::Lose
            } else {
                Status::Remaining(
                    (count_tile(old(self).board().tiles(), Tile::Unknown) - old(self).board().mines_made()) as usize,
                )
            },
    {
        self.game.status()
    }

    /// The cell under the cursor.
    pub fn game_position(&self) -> (r: Point)
        ensures
            r == self.spot(),
    {
        (self.cursor.0 as usize, self.cursor.1 as usize)
    }

    /// Uncovers the cell under the cursor unless it carries a marker; if that
    /// loses the game, the whole board is uncovered. Says whether anything
    /// was done.
    pub fn place(&mut self) -> (done: bool)
        requires
            old(self).wf(),
        ensures
            final(self).wf(),
            final(self).at_cursor() == old(self).at_cursor(),
            done == (old(self).board().markers()[old(self).board().idx(old(self).spot())] == Marker::Clear),
            !done ==> final(self).board() == old(self).board(),
            done ==> final(self).board().tiles()[final(self).board().idx(final(self).spot())]
                != Tile::Unknown,
            done && count_tile(final(self).board().tiles(), Tile::Mine) > 0 ==> forall|p: Point|
                #[trigger] final(self).board().in_board(p) ==> final(self).board().tiles()[final(self).board().idx(p)] == final(self).board().uncovered(p),
    {
        let p = self.game_position();
        if self.game.marker_at(p) != Marker::Clear {
            return false;
        }
        self.game.reveal_cell(p);
        if self.game.status() == Status::Lose {
            self.game.reveal_all();
        }
        true
    }

    /// Sets `marker` on the cell under the cursor, unless the game is won.
    /// Says whether the game was still open.
    pub fn mark(&mut self, marker: Marker) -> (open: bool)
        requires
            old(self).wf(),
        ensures
            final(self).wf(),
            final(self).at_cursor() == old(self).at_cursor(),
            open == (count_tile(old(self).board().tiles(), Tile::Mine) > 0 || count_tile(
                old(self).board().tiles(),
                Tile::Unknown,
            ) != old(self).board().mines_made()),
            final(self).board().tiles() == old(self).board().tiles(),
            final(self).board().markers() == if open && old(self).board().tiles()[old(self).board().idx(
                old(self).spot(),
            )] == Tile::Unknown {
                old(self).board().markers().update(old(self).board().idx(old(self).spot()), marker)
            } else {
                old(self).board().markers()
            },
    {
        let p = self.game_position();
        if self.game.status() != Status::Remaining(0) {
            self.game.mark(p, marker);
            true
        } else {
            false
        }
    }

    /// The character drawn at column `i`, row `j`.
    pub fn cell_char(&self, i: usize, j: usize) -> (c: char)
        requires
            self.wf(),
            i < WIDTH && j < HEIGHT,
        ensures
            c == cell_glyph(self.board().markers()[self.board().idx((i, j))], self.board().tiles()[self.board().idx((i, j))]),
    {
        match self.game.marker_at((i, j)) {
            Marker::Mine => 'x',
            Marker::Unsure => '?',
            Marker::Clear => match self.game.at((i, j)) {
                Tile::Revealed(n) => {
                    if n == 0 {
                        ' '
                    } else {
                        proof {
                            self.game.lemma_revealed_at_most_eight((i, j));
                        }
                        let d: u32 = ('0' as u32) + n as u32;
                        assert(d <= 0x7f);
                        char_of_digit(d)
                    }
                },
                Tile::Mine => '*',
                Tile::Unknown => '.',
            },
        }
    }
}

/// The digit character with code `d`.
fn char_of_digit(d: u32) -> (c: char)
    requires
        '1' as u32 <= d <= '8' as u32,
    ensures
        c == d as char,
{
    if d == '1' as u32 {
        '1'
    } else if d == '2' as u32 {
        '2'
    } else if d == '3' as u32 {
        '3'
    } else if d == '4' as u32 {
        '4'
    } else if d == '5' as u32 {
        '5'
    } else if d == '6' as u32 {
        '6'
    } else if d == '7' as u32 {
        '7'
    } else {
        '8'
    }
}

} // verus!
