//! Tic-tac-toe on a three-by-three board, O moving first.
use vstd::prelude::*;

verus! {

#[derive(Debug, Clone, Copy, PartialEq, Eq, Structural)]
pub enum Player {
    X,
    O,
}

#[derive(Debug, Clone, Copy, PartialEq, Eq, Structural)]
pub enum Tile {
    Piece(Player),
    Empty,
}

#[derive(Debug, Clone, Copy, PartialEq, Eq, Structural)]
pub enum Status {
    Move(Player),
    Win(Player),
    Draw,
}

impl Player {
    /// The player's mark as it is printed.
    pub fn to_string(self) -> (r: &'static str)
        ensures
            r@ == (match self {
                Player::X => "X"@,
                Player::O => "O"@,
            }),
    {
        match self {
            Player::X => "X",
            Player::O => "O",
        }
    }
}

/// The three cells of the `k`-th line: rows, then columns, then diagonals.
pub open spec fn line(k: int) -> Seq<int> {
    if k == 0 {
        seq![0, 1, 2]
    } else if k == 1 {
        seq![3, 4, 5]
    } else if k == 2 {
        seq![6, 7, 8]
    } else if k == 3 {
        seq![0, 3, 6]
    } else if k == 4 {
        seq![1, 4, 7]
    } else if k == 5 {
        seq![2, 5, 8]
    } else if k == 6 {
        seq![0, 4, 8]
    } else {
        seq![2, 4, 6]
    }
}

/// Whether `p` holds all three cells `a`, `b`, `c`.
pub open spec fn holds_line(g: Seq<Tile>, a: int, b: int, c: int, p: Player) -> bool {
    g[a] == Tile::Piece(p) && g[b] == Tile::Piece(p) && g[c] == Tile::Piece(p)
}

/// The owner of cells `a`, `b`, `c`: a player holding all three, O looked at
/// first, or `Empty`.
pub open spec fn line_owner(g: Seq<Tile>, a: int, b: int, c: int) -> Tile {
    if holds_line(g, a, b, c, Player::O) {
        Tile::Piece(Player::O)
    } else if holds_line(g, a, b, c, Player::X) {
        Tile::Piece(Player::X)
    } else {
        Tile::Empty
    }
}

/// The owner of the first line, from the `k`-th on, that someone holds.
pub open spec fn first_winner(g: Seq<Tile>, k: int) -> Option<Player>
    decreases 8 - k,
{
    if k >= 8 {
        None
    } else {
        match line_owner(g, line(k)[0], line(k)[1], line(k)[2]) {
            Tile::Piece(p) => Some(p),
            Tile::Empty => first_winner(g, k + 1),
        }
    }
}

/// Every cell holds a piece.
pub open spec fn board_full(g: Seq<Tile>) -> bool {
    forall|i: int| 0 <= i < g.len() ==> g[i] != Tile::Empty
}

/// What follows a move that left the board `g`: a win, a draw, or the other
/// player's turn.
pub open spec fn status_after(g: Seq<Tile>, s: Status) -> Status {
    match first_winner(g, 0) {
        Some(p) => Status::Win(p),
        None => if board_full(g) {
            Status::Draw
        } else {
            match s {
                Status::Move(Player::O) => Status::Move(Player::X),
                Status::Move(Player::X) => Status::Move(Player::O),
                _ => s,
            }
        },
    }
}

/// The board index of column `x`, row `y`.
pub open spec fn cell(x: i32, y: i32) -> int {
    x * 3 + y
}

#[derive(Debug)]
pub struct Game {
    pub status: Status,
    grid: [Tile; 9],
}

impl Game {
    /// The cells in board order.
    pub closed spec fn board(&self) -> Seq<Tile> {
        self.grid@
    }

    /// The status field.
    pub closed spec fn state(&self) -> Status {
        self.status
    }

    /// An empty board with O to move.
    pub fn new() -> (r: Game)
        ensures
            r.state() == Status::Move(Player::O),
            r.board().len() == 9,
            forall|i: int| 0 <= i < 9 ==> r.board()[i] == Tile::Empty,
    {
        Game { grid: [Tile::Empty;9], status: Status::Move(Player::O) }
    }

    /// The tile at column `x`, row `y`, or `None` outside the board.
    pub fn tile_at(&self, x: i32, y: i32) -> (r: Option<Tile>)
        requires
            i32::MIN <= x * 3 <= i32::MAX,
            i32::MIN <= cell(x, y) <= i32::MAX,
            cell(x, y) != 9,
        ensures
            r == (if 0 <= cell(x, y) < 9 {
                Some(self.board()[cell(x, y)])
            } else {
                None::<Tile>
            }),
    {
        let q: i32 = x * 3 + y;
        if q < 0 || q > 9 {
            return None;
        }
        let p = q as usize;
        Some(self.grid[p])
    }

    /// Puts the mover's piece at column `x`, row `y` and passes the turn, or
    /// says why it cannot.
    pub fn put(&mut self, x: i32, y: i32) -> (r: Result<(), &'static str>)
        requires
            i32::MIN <= x * 3 <= i32::MAX,
            i32::MIN <= cell(x, y) <= i32::MAX,
            cell(x, y) != 9,
        ensures
            !(0 <= cell(x, y) < 9) ==> (r matches Err(e) && e@ == "Invalid position"@),
            0 <= cell(x, y) < 9 && !(old(self).state() is Move) ==> (r matches Err(e)
                && e@ == "The game is alreadly ended"@),
            0 <= cell(x, y) < 9 && old(self).state() is Move && old(self).board()[cell(x, y)]
                != Tile::Empty ==> (r matches Err(e) && e@ == "Non-empty position"@),
            r is Err ==> *final(self) == *old(self),
            0 <= cell(x, y) < 9 && old(self).state() is Move && old(self).board()[cell(x, y)]
                == Tile::Empty ==> {
                &&& r is Ok
                &&& final(self).board() == old(self).board().update(
                    cell(x, y),
                    Tile::Piece(old(self).state()->Move_0),
                )
                &&& final(self).state() == status_after(final(self).board(), old(self).state())
            },
    {
        match self.tile_at(x, y) {
            Some(tile) => match self.status {
                Status::Move(player) => match tile {
                    Tile::Empty => {
                        let p = (x * 3 + y) as usize;
                        self.grid[p] = Tile::Piece(player);
                        self.status = self.next_status();
                        Ok(())
                    },
                    _ => Err("Non-empty position"),
                },
                _ => Err("The game is alreadly ended"),
            },
            None => Err("Invalid position"),
        }
    }

    /// The status that follows the last move, while a game is under way.
    pub fn next_status(&self) -> (r: Status)
        requires
            self.state() is Move,
        ensures
            r == status_after(self.board(), self.state()),
    {
        let patterns: [[usize; 3]; 8] = [
            [0, 1, 2],
            [3, 4, 5],
            [6, 7, 8],
            [0, 3, 6],
            [1, 4, 7],
            [2, 5, 8],
            [0, 4, 8],
            [2, 4, 6],
        ];
        let mut k: usize = 0;
        while k < 8
            invariant
                k <= 8,
                first_winner(self.board(), 0) == first_winner(self.board(), k as int),
                forall|j: int, c: int| 0 <= j < 8 && 0 <= c < 3 ==> patterns@[j]@[c] == line(j)[c],
            decreases 8 - k,
        {
            let pattern = patterns[k];
            assert(pattern@[0] == line(k as int)[0] && pattern@[1] == line(k as int)[1]
                && pattern@[2] == line(k as int)[2]);
            if let Tile::Piece(player) = self.match_tiles(pattern) {
                return Status::Win(player);
            }
            k = k + 1;
        }
        if self.is_full() {
            return Status::Draw;
        }
        match self.status {
            Status::Move(Player::O) => Status::Move(Player::X),
            Status::Move(Player::X) => Status::Move(Player::O),
            _ => self.status,
        }
    }

    /// The player holding all three cells of `pattern`, O looked at first.
    fn match_tiles(&self, pattern: [usize; 3]) -> (r: Tile)
        requires
            pattern@[0] < 9 && pattern@[1] < 9 && pattern@[2] < 9,
        ensures
            r == line_owner(
                self.board(),
                pattern@[0] as int,
                pattern@[1] as int,
                pattern@[2] as int,
            ),
    {
        let a = self.grid[pattern[0]];
        let b = self.grid[pattern[1]];
        let c = self.grid[pattern[2]];
        let o = Tile::Piece(Player::O);
        if a == o && b == o && c == o {
            return o;
        }
        let x = Tile::Piece(Player::X);
        if a == x && b == x && c == x {
            return x;
        }
        Tile::Empty
    }

    /// Whether every cell holds a piece.
    fn is_full(&self) -> (r: bool)
        ensures
            r == board_full(self.board()),
    {
        let mut i: usize = 0;
        while i < 9
            invariant
                i <= 9,
                forall|j: int| 0 <= j < i ==> self.grid@[j] != Tile::Empty,
            decreases 9 - i,
        {
            if self.grid[i] == Tile::Empty {
                return false;
            }
            i = i + 1;
        }
        true
    }
}

} // verus!
