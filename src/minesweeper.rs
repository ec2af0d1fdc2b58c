//! Minesweeper: a rectangular board with hidden mines, markers the player
//! sets on hidden cells, and revealing that floods through empty areas.
use vstd::prelude::*;
use crate::random::random_below;

verus! {

/// A cell of the board: column, then row.
pub type Point = (usize, usize);

#[derive(Debug, Clone, Copy, PartialEq, Eq, Structural)]
pub enum Tile {
    /// Uncovered, with the number of mines around it.
    Revealed(usize),
    /// An uncovered mine.
    Mine,
    /// Still covered.
    Unknown,
}

#[derive(Debug, Clone, Copy, PartialEq, Eq, Structural)]
pub enum Status {
    /// Covered cells beyond the mines.
    Remaining(usize),
    Lose,
}

#[derive(Debug, Clone, Copy, PartialEq, Eq, Structural)]
pub enum Marker {
    Mine,
    Unsure,
    /// No marker.
    Clear,
}

/// How many entries of `s` are set.
pub open spec fn count_true(s: Seq<bool>) -> nat
    decreases s.len(),
{
    if s.len() == 0 {
        0
    } else {
        count_true(s.drop_last()) + if s.last() { 1nat } else { 0nat }
    }
}

/// How many entries of `s` are `t`.
pub open spec fn count_tile(s: Seq<Tile>, t: Tile) -> nat
    decreases s.len(),
{
    if s.len() == 0 {
        0
    } else {
        count_tile(s.drop_last(), t) + if s.last() == t { 1nat } else { 0nat }
    }
}

proof fn lemma_count_true_bounded(s: Seq<bool>)
    ensures
        count_true(s) <= s.len(),
    decreases s.len(),
{
    if s.len() > 0 {
        lemma_count_true_bounded(s.drop_last());
    }
}

proof fn lemma_count_tile_bounded(s: Seq<Tile>, t: Tile)
    ensures
        count_tile(s, t) <= s.len(),
    decreases s.len(),
{
    if s.len() > 0 {
        lemma_count_tile_bounded(s.drop_last(), t);
    }
}

proof fn lemma_count_true_set(s: Seq<bool>, k: int)
    requires
        0 <= k < s.len(),
        !s[k],
    ensures
        count_true(s.update(k, true)) == count_true(s) + 1,
    decreases s.len(),
{
    let u = s.update(k, true);
    if k < s.len() - 1 {
        assert(u.drop_last() =~= s.drop_last().update(k, true));
        lemma_count_true_set(s.drop_last(), k);
    } else {
        assert(u.drop_last() =~= s.drop_last());
    }
}

proof fn lemma_count_tile_update(s: Seq<Tile>, k: int, v: Tile, t: Tile)
    requires
        0 <= k < s.len(),
    ensures
        count_tile(s.update(k, v), t) + (if s[k] == t { 1int } else { 0int }) == count_tile(s, t)
            + (if v == t { 1int } else { 0int }),
    decreases s.len(),
{
    let u = s.update(k, v);
    if k < s.len() - 1 {
        assert(u.drop_last() =~= s.drop_last().update(k, v));
        lemma_count_tile_update(s.drop_last(), k, v, t);
    } else {
        assert(u.drop_last() =~= s.drop_last());
    }
}

proof fn lemma_count_prefix(s: Seq<bool>, i: int)
    requires
        0 <= i < s.len(),
    ensures
        count_true(s.subrange(0, i + 1)) == count_true(s.subrange(0, i)) + if s[i] {
            1nat
        } else {
            0nat
        },
{
    assert(s.subrange(0, i + 1).drop_last() =~= s.subrange(0, i));
}

proof fn lemma_mines_hidden(mines: Seq<bool>, tiles: Seq<Tile>)
    requires
        mines.len() == tiles.len(),
        forall|i: int| 0 <= i < mines.len() && #[trigger] mines[i] ==> tiles[i] == Tile::Unknown,
    ensures
        count_true(mines) <= count_tile(tiles, Tile::Unknown),
    decreases mines.len(),
{
    if mines.len() > 0 {
        let (m, t) = (mines.drop_last(), tiles.drop_last());
        assert forall|i: int| 0 <= i < m.len() && #[trigger] m[i] implies t[i] == Tile::Unknown by {
            assert(mines[i]);
        }
        lemma_mines_hidden(m, t);
    }
}

proof fn lemma_index_bound(x: int, y: int, w: int, h: int)
    requires
        0 <= x < w,
        0 <= y < h,
    ensures
        0 <= x * h + y < w * h,
{
    assert(x * h + y < w * h) by (nonlinear_arith)
        requires
            0 <= x < w,
            0 <= y < h,
    ;
    assert(0 <= x * h) by (nonlinear_arith)
        requires
            0 <= x,
            0 <= y < h,
    ;
}

/// Whether `a` and `b` are distinct and touch, diagonals included.
pub open spec fn touches(a: Point, b: Point) -> bool {
    let dx = a.0 - b.0;
    let dy = a.1 - b.1;
    -1 <= dx <= 1 && -1 <= dy <= 1 && (dx != 0 || dy != 0)
}

/// Whether `a` and `b` are distinct and touch, diagonals included.
pub fn is_adjacent(a: Point, b: Point) -> (r: bool)
    ensures
        r == touches(a, b),
{
    let diff_x = if a.0 >= b.0 { a.0 - b.0 } else { b.0 - a.0 };
    let diff_y = if a.1 >= b.1 { a.1 - b.1 } else { b.1 - a.1 };
    diff_x <= 1 && diff_y <= 1 && diff_x + diff_y > 0
}

/// Whether `mines`, laid out column after column with `h` rows, has a mine
/// at column `x`, row `y`; a cell off the board has none.
pub open spec fn mine_near(mines: Seq<bool>, w: nat, h: nat, x: int, y: int) -> nat {
    if 0 <= x < w && 0 <= y < h && mines[x * h + y] {
        1
    } else {
        0
    }
}

/// The number of mines touching `p`.
#[verifier::opaque]
pub open spec fn mines_around(mines: Seq<bool>, w: nat, h: nat, p: Point) -> nat {
    let (x, y) = (p.0 as int, p.1 as int);
    mine_near(mines, w, h, x - 1, y - 1) + mine_near(mines, w, h, x - 1, y) + mine_near(
        mines,
        w,
        h,
        x - 1,
        y + 1,
    ) + mine_near(mines, w, h, x, y - 1) + mine_near(mines, w, h, x, y + 1) + mine_near(
        mines,
        w,
        h,
        x + 1,
        y - 1,
    ) + mine_near(mines, w, h, x + 1, y) + mine_near(mines, w, h, x + 1, y + 1)
}

/// The tile that `p` shows once it is uncovered: the mine, or how many
/// mines touch it.
#[verifier::opaque]
pub open spec fn uncovered(mines: Seq<bool>, w: nat, h: nat, p: Point) -> Tile {
    if mines[p.0 * h + p.1] {
        Tile::Mine
    } else {
        Tile::Revealed(mines_around(mines, w, h, p) as usize)
    }
}

pub struct Game {
    pub width: usize,
    pub height: usize,
    pub mine_count: usize,
    tiles: Vec<Tile>,
    markers: Vec<Marker>,
    mines: Vec<bool>,
}

impl Game {
    pub closed spec fn w(&self) -> nat {
        self.width as nat
    }

    pub closed spec fn h(&self) -> nat {
        self.height as nat
    }

    /// The number of mines the board was made with.
    pub closed spec fn mines_made(&self) -> nat {
        self.mine_count as nat
    }

    /// What the player sees of each cell, column after column.
    pub closed spec fn tiles(&self) -> Seq<Tile> {
        self.tiles@
    }

    /// The player's markers, laid out as `tiles`.
    pub closed spec fn markers(&self) -> Seq<Marker> {
        self.markers@
    }

    /// Where the mines are, laid out as `tiles`.
    pub closed spec fn mines(&self) -> Seq<bool> {
        self.mines@
    }

    /// The position of cell `p` in `tiles`, `markers` and `mines`.
    pub open spec fn idx(&self, p: Point) -> int {
        p.0 * self.h() + p.1
    }

    pub open spec fn in_board(&self, p: Point) -> bool {
        p.0 < self.w() && p.1 < self.h()
    }

    /// Whether there is a mine at column `x`, row `y`, which may lie off the board.
    pub open spec fn mine_near(&self, x: int, y: int) -> nat {
        mine_near(self.mines(), self.w(), self.h(), x, y)
    }

    /// The number of mines touching `p`.
    pub open spec fn mines_around(&self, p: Point) -> nat {
        mines_around(self.mines(), self.w(), self.h(), p)
    }

    /// The tile at `p` once it is uncovered.
    pub open spec fn uncovered(&self, p: Point) -> Tile {
        uncovered(self.mines(), self.w(), self.h(), p)
    }

    pub open spec fn wf(&self) -> bool {
        &&& self.w() * self.h() <= usize::MAX
        &&& self.tiles().len() == self.w() * self.h()
        &&& self.markers().len() == self.w() * self.h()
        &&& self.mines().len() == self.w() * self.h()
        &&& count_true(self.mines()) == self.mines_made()
        &&& forall|i: int| 0 <= i < self.tiles().len() ==> (#[trigger] self.tiles()[i] == Tile::Mine
            ==> self.mines()[i])
        &&& forall|i: int| 0 <= i < self.tiles().len() && #[trigger] self.mines()[i] ==> (
        self.tiles()[i] == Tile::Unknown || self.tiles()[i] == Tile::Mine)
        &&& forall|p: Point| #[trigger] self.in_board(p) ==> {
            let t = self.tiles()[self.idx(p)];
            t == Tile::Unknown || t == self.uncovered(p)
        }
    }

    /// A covered board of `width` columns and `height` rows with
    /// `mine_count` mines placed at random.
    pub fn new(width: usize, height: usize, mine_count: usize) -> (r: Game)
        requires
            width * height <= usize::MAX,
            mine_count <= width * height,
        ensures
            r.wf(),
            r.w() == width && r.h() == height && r.mines_made() == mine_count,
            forall|i: int| 0 <= i < r.tiles().len() ==> r.tiles()[i] == Tile::Unknown,
            forall|i: int| 0 <= i < r.markers().len() ==> r.markers()[i] == Marker::Clear,
    {
        let n: usize = width * height;
        let mut game = Game {
            width: width,
            height: height,
            mine_count: mine_count,
            tiles: vec![Tile::Unknown; n],
            markers: vec![Marker::Clear; n],
            mines: vec![false; n],
        };
        proof {
            assert(game.mines@ =~= Seq::new(n as nat, |i: int| false));
            lemma_no_mines(game.mines@);
        }
        game.generate_mines();
        game
    }

    /// Places `mine_count` mines on distinct cells chosen at random.
    fn generate_mines(&mut self)
        requires
            old(self).w() * old(self).h() <= usize::MAX,
            old(self).tiles().len() == old(self).w() * old(self).h(),
            old(self).markers().len() == old(self).w() * old(self).h(),
            old(self).mines().len() == old(self).w() * old(self).h(),
            count_true(old(self).mines()) == 0,
            old(self).mines_made() <= old(self).w() * old(self).h(),
            forall|i: int| 0 <= i < old(self).tiles().len() ==> old(self).tiles()[i] == Tile::Unknown,
        ensures
            final(self).wf(),
            final(self).w() == old(self).w() && final(self).h() == old(self).h(),
            final(self).mines_made() == old(self).mines_made(),
            final(self).tiles() == old(self).tiles(),
            final(self).markers() == old(self).markers(),
    {
        let mut count: usize = self.mine_count;
        let n: usize = self.mines.len();
        while count > 0
            invariant
                n == self.mines@.len(),
                self.w() == old(self).w() && self.h() == old(self).h(),
                self.mines_made() == old(self).mines_made(),
                self.tiles() == old(self).tiles(),
                self.markers() == old(self).markers(),
                count_true(self.mines@) + count == self.mine_count,
                self.mine_count <= n,
            decreases count,
        {
            proof {
                lemma_count_true_bounded(self.mines@);
            }
            let free: usize = n - (self.mine_count - count);
            let r = random_below(free);
            let k = self.nth_free_cell(r);
            proof {
                lemma_count_true_set(self.mines@, k as int);
            }
            self.mines.set(k, true);
            count = count - 1;
        }
        proof {
            assert forall|p: Point| #[trigger] self.in_board(p) implies {
                let t = self.tiles()[self.idx(p)];
                t == Tile::Unknown || t == self.uncovered(p)
            } by {
                lemma_index_bound(p.0 as int, p.1 as int, self.w() as int, self.h() as int);
            }
        }
    }

    /// Board columns.
    pub fn width(&self) -> (r: usize)
        ensures
            r == self.w(),
    {
        self.width
    }

    /// Board rows.
    pub fn height(&self) -> (r: usize)
        ensures
            r == self.h(),
    {
        self.height
    }

    /// Where cell `pos` lies in the board vectors.
    fn index_of(&self, pos: Point) -> (r: usize)
        requires
            self.wf(),
            self.in_board(pos),
        ensures
            r == self.idx(pos),
            r < self.tiles().len(),
    {
        proof {
            lemma_index_bound(pos.0 as int, pos.1 as int, self.w() as int, self.h() as int);
        }
        pos.0 * self.height + pos.1
    }

    /// What the player sees at `pos`.
    pub fn at(&self, pos: Point) -> (r: Tile)
        requires
            self.wf(),
            self.in_board(pos),
        ensures
            r == self.tiles()[self.idx(pos)],
    {
        let i = self.index_of(pos);
        self.tiles[i]
    }

    /// The player's marker at `pos`.
    pub fn marker_at(&self, pos: Point) -> (r: Marker)
        requires
            self.wf(),
            self.in_board(pos),
        ensures
            r == self.markers()[self.idx(pos)],
    {
        let i = self.index_of(pos);
        self.markers[i]
    }

    fn has_mine(&self, pos: Point) -> (r: bool)
        requires
            self.wf(),
            self.in_board(pos),
        ensures
            r == self.mines()[self.idx(pos)],
    {
        let i = self.index_of(pos);
        self.mines[i]
    }

    fn is_unknown(&self, pos: Point) -> (r: bool)
        requires
            self.wf(),
            self.in_board(pos),
        ensures
            r == (self.tiles()[self.idx(pos)] == Tile::Unknown),
    {
        self.at(pos) == Tile::Unknown
    }

    /// Sets the marker at `pos`, if that cell is still covered.
    pub fn mark(&mut self, pos: Point, marker: Marker)
        requires
            old(self).wf(),
            old(self).in_board(pos),
        ensures
            final(self).wf(),
            final(self).w() == old(self).w() && final(self).h() == old(self).h(),
            final(self).mines_made() == old(self).mines_made(),
            final(self).tiles() == old(self).tiles(),
            final(self).mines() == old(self).mines(),
            final(self).markers() == if old(self).tiles()[old(self).idx(pos)] == Tile::Unknown {
                old(self).markers().update(old(self).idx(pos), marker)
            } else {
                old(self).markers()
            },
    {
        if self.is_unknown(pos) {
            let i = self.index_of(pos);
            self.markers.set(i, marker);
            proof {
                assert forall|p: Point| #[trigger] self.in_board(p) implies {
                    let t = self.tiles()[self.idx(p)];
                    t == Tile::Unknown || t == self.uncovered(p)
                } by {
                    assert(old(self).in_board(p));
                }
            }
        }
    }

    /// Whether there is a mine at column `x + dx - 1`, row `y + dy - 1`.
    fn mine_at_offset(&self, x: usize, y: usize, dx: usize, dy: usize) -> (r: usize)
        requires
            self.wf(),
            x < self.w() && y < self.h(),
            dx < 3 && dy < 3,
        ensures
            r == self.mine_near(x + dx - 1, y + dy - 1),
    {
        if (dx == 0 && x == 0) || (dy == 0 && y == 0) {
            return 0;
        }
        if (dx == 2 && x + 1 >= self.width) || (dy == 2 && y + 1 >= self.height) {
            return 0;
        }
        let p: Point = (x + dx - 1, y + dy - 1);
        if self.has_mine(p) {
            1
        } else {
            0
        }
    }

    /// The number of mines touching `pos`.
    fn adjacent_mine_count(&self, pos: Point) -> (r: usize)
        requires
            self.wf(),
            self.in_board(pos),
        ensures
            r == self.mines_around(pos),
    {
        reveal(mines_around);
        let (x, y) = pos;
        self.mine_at_offset(x, y, 0, 0) + self.mine_at_offset(x, y, 0, 1) + self.mine_at_offset(
            x,
            y,
            0,
            2,
        ) + self.mine_at_offset(x, y, 1, 0) + self.mine_at_offset(x, y, 1, 2)
            + self.mine_at_offset(x, y, 2, 0) + self.mine_at_offset(x, y, 2, 1)
            + self.mine_at_offset(x, y, 2, 2)
    }

    /// Uncovers `pos` alone, if it is covered, and clears its marker.
    fn reveal_single(&mut self, pos: Point)
        requires
            old(self).wf(),
            old(self).in_board(pos),
        ensures
            final(self).wf(),
            final(self).w() == old(self).w() && final(self).h() == old(self).h(),
            final(self).mines_made() == old(self).mines_made(),
            final(self).mines() == old(self).mines(),
            final(self).tiles() == if old(self).tiles()[old(self).idx(pos)] == Tile::Unknown {
                old(self).tiles().update(old(self).idx(pos), old(self).uncovered(pos))
            } else {
                old(self).tiles()
            },
    {
        if self.is_unknown(pos) {
            self.mark(pos, Marker::Clear);
            let tile = if self.has_mine(pos) {
                Tile::Mine
            } else {
                Tile::Revealed(self.adjacent_mine_count(pos))
            };
            proof {
                reveal(uncovered);
            }
            assert(tile == self.uncovered(pos));
            let i = self.index_of(pos);
            let ghost before = *self;
            self.tiles.set(i, tile);
            proof {
                assert forall|p: Point| #[trigger] self.in_board(p) implies {
                    let t = self.tiles()[self.idx(p)];
                    t == Tile::Unknown || t == self.uncovered(p)
                } by {
                    reveal(uncovered);
                    assert(before.in_board(p));
                    lemma_index_bound(p.0 as int, p.1 as int, self.w() as int, self.h() as int);
                    if p != pos {
                        lemma_index_distinct(p, pos, self.w() as int, self.h() as int);
                    }
                }
            }
        }
    }

    /// How many cells show `t`.
    fn count_tiles(&self, t: Tile) -> (r: usize)
        requires
            self.wf(),
        ensures
            r == count_tile(self.tiles(), t),
    {
        let n = self.tiles.len();
        let mut c: usize = 0;
        let mut i: usize = 0;
        while i < n
            invariant
                n == self.tiles@.len(),
                i <= n,
                c == count_tile(self.tiles@.subrange(0, i as int), t),
                c <= i,
            decreases n - i,
        {
            proof {
                assert(self.tiles@.subrange(0, i + 1).drop_last() =~= self.tiles@.subrange(0, i as int));
            }
            if self.tiles[i] == t {
                c = c + 1;
            }
            i = i + 1;
        }
        assert(self.tiles@.subrange(0, n as int) =~= self.tiles@);
        c
    }

    /// `Lose` once a mine is uncovered; otherwise how many covered cells
    /// remain beyond the mines (none left means the game is won).
    pub fn status(&mut self) -> (r: Status)
        requires
            old(self).wf(),
        ensures
            *final(self) == *old(self),
            count_tile(old(self).tiles(), Tile::Unknown) <= old(self).tiles().len(),
            count_tile(old(self).tiles(), Tile::Mine) == 0 ==> old(self).mines_made() <= count_tile(
                old(self).tiles(),
                Tile::Unknown,
            ),
            r == if count_tile(old(self).tiles(), Tile::Mine) > 0 {
                Status::Lose
            } else {
                Status::Remaining(
                    (count_tile(old(self).tiles(), Tile::Unknown) - old(self).mines_made()) as usize,
                )
            },
    {
        proof {
            lemma_count_tile_bounded(self.tiles(), Tile::Unknown);
        }
        let mines_count = self.count_tiles(Tile::Mine);
        if mines_count > 0 {
            Status::Lose
        } else {
            let unknown_count = self.count_tiles(Tile::Unknown);
            proof {
                lemma_count_tile_zero(self.tiles(), Tile::Mine);
                assert forall|i: int| 0 <= i < self.mines().len() && #[trigger] self.mines()[i]
                    implies self.tiles()[i] == Tile::Unknown by {
                    assert(self.tiles()[i] != Tile::Mine);
                }
                lemma_mines_hidden(self.mines(), self.tiles());
            }
            Status::Remaining(unknown_count - self.mine_count)
        }
    }

    /// A cell shows at most eight mines around it.
    pub proof fn lemma_revealed_at_most_eight(&self, p: Point)
        requires
            self.wf(),
            self.in_board(p),
        ensures
            self.tiles()[self.idx(p)] matches Tile::Revealed(n) ==> n <= 8,
    {
        reveal(uncovered);
        reveal(mines_around);
    }

    /// The measure that each reveal makes smaller: covered cells count twice,
    /// and one more when `pos` is already uncovered.
    pub open spec fn reveal_measure(&self, pos: Point) -> nat {
        2 * count_tile(self.tiles(), Tile::Unknown) + if self.tiles()[self.idx(pos)]
            == Tile::Unknown {
            0nat
        } else {
            1nat
        }
    }

    /// Uncovers `pos`; from a cell with no mine around it, every covered
    /// neighbour is revealed in turn.
    pub fn reveal_cell(&mut self, pos: Point)
        requires
            old(self).wf(),
            old(self).in_board(pos),
        ensures
            final(self).wf(),
            final(self).w() == old(self).w() && final(self).h() == old(self).h(),
            final(self).mines_made() == old(self).mines_made(),
            final(self).mines() == old(self).mines(),
            final(self).tiles()[final(self).idx(pos)] != Tile::Unknown,
            forall|i: int| 0 <= i < old(self).tiles().len() && old(self).tiles()[i] != Tile::Unknown
                ==> #[trigger] final(self).tiles()[i] == old(self).tiles()[i],
            count_tile(final(self).tiles(), Tile::Unknown) + (if old(self).tiles()[old(self).idx(pos)]
                == Tile::Unknown { 1int } else { 0int }) <= count_tile(old(self).tiles(), Tile::Unknown),
            final(self).tiles()[final(self).idx(pos)] == Tile::Revealed(0) ==> forall|q: Point|
                final(self).in_board(q) && touches(q, pos) ==> final(self).tiles()[final(self).idx(q)]
                    != Tile::Unknown,
        decreases old(self).reveal_measure(pos),
    {
        let ghost entry = *self;
        proof {
            reveal(uncovered);
            lemma_index_bound(pos.0 as int, pos.1 as int, self.w() as int, self.h() as int);
        }
        let ghost was_unknown = self.tiles()[self.idx(pos)] == Tile::Unknown;
        self.reveal_single(pos);
        proof {
            assert forall|i: int| 0 <= i < entry.tiles().len() && entry.tiles()[i] != Tile::Unknown
                implies #[trigger] self.tiles()[i] == entry.tiles()[i] by {
                if was_unknown && i == entry.idx(pos) {
                }
            }
            if was_unknown {
                lemma_count_tile_update(entry.tiles(), entry.idx(pos), entry.uncovered(pos), Tile::Unknown);
            }
        }
        if self.at(pos) == Tile::Revealed(0) {
            let mut k: usize = 0;
            while k < 9
                invariant
                    entry == *old(self),
                    entry.idx(pos) < entry.tiles().len(),
                    self.wf(),
                    self.in_board(pos),
                    self.w() == entry.w() && self.h() == entry.h(),
                    self.mines_made() == entry.mines_made(),
                    self.mines() == entry.mines(),
                    self.tiles().len() == entry.tiles().len(),
                    self.tiles()[self.idx(pos)] == Tile::Revealed(0),
                    forall|i: int| 0 <= i < entry.tiles().len() && entry.tiles()[i] != Tile::Unknown
                        ==> #[trigger] self.tiles()[i] == entry.tiles()[i],
                    count_tile(self.tiles(), Tile::Unknown) + (if was_unknown { 1int } else { 0int })
                        <= count_tile(entry.tiles(), Tile::Unknown),
                    was_unknown == (entry.tiles()[entry.idx(pos)] == Tile::Unknown),
                    k <= 9,
                    forall|q: Point| #[trigger] self.in_board(q) && touches(q, pos)
                        && (q.0 - pos.0 + 1) * 3 + (q.1 - pos.1 + 1) < k ==> self.tiles()[self.idx(q)]
                        != Tile::Unknown,
                decreases 9 - k,
            {
                let dx = k / 3;
                let dy = k % 3;
                let inside = k != 4 && !(dx == 0 && pos.0 == 0) && !(dy == 0 && pos.1 == 0) && !(dx
                    == 2 && pos.0 + 1 >= self.width) && !(dy == 2 && pos.1 + 1 >= self.height);
                let ghost before = *self;
                if inside {
                    let next: Point = (pos.0 + dx - 1, pos.1 + dy - 1);
                    if self.is_unknown(next) {
                        proof {
                            lemma_index_bound(next.0 as int, next.1 as int, self.w() as int, self.h() as int);
                            assert(self.reveal_measure(next) < entry.reveal_measure(pos));

                        }
                        self.reveal_cell(next);
                        proof {
                            assert(before.tiles()[before.idx(pos)] != Tile::Unknown);
                            assert(self.tiles()[before.idx(pos)] == before.tiles()[before.idx(pos)]);
                            assert forall|i: int| 0 <= i < entry.tiles().len() && entry.tiles()[i]
                                != Tile::Unknown implies #[trigger] self.tiles()[i] == entry.tiles()[i] by {
                                assert(before.tiles()[i] == entry.tiles()[i]);
                            }
                            assert forall|q: Point| #[trigger] self.in_board(q) && touches(q, pos)
                                && (q.0 - pos.0 + 1) * 3 + (q.1 - pos.1 + 1) < k + 1 implies
                                self.tiles()[self.idx(q)] != Tile::Unknown by {
                                assert(before.in_board(q));
                                lemma_index_bound(q.0 as int, q.1 as int, self.w() as int, self.h() as int);
                            }
                        }
                    }
                }
                proof {
                    assert forall|q: Point| #[trigger] self.in_board(q) && touches(q, pos)
                        && (q.0 - pos.0 + 1) * 3 + (q.1 - pos.1 + 1) < k + 1 implies
                        self.tiles()[self.idx(q)] != Tile::Unknown by {
                        assert(before.in_board(q));
                        lemma_index_bound(q.0 as int, q.1 as int, self.w() as int, self.h() as int);
                        if (q.0 - pos.0 + 1) * 3 + (q.1 - pos.1 + 1) == k {
                            assert(q.0 == pos.0 + dx - 1 && q.1 == pos.1 + dy - 1);
                        }
                    }
                }
                k = k + 1;
            }
        }
    }

    /// Uncovers every cell of the board.
    pub fn reveal_all(&mut self)
        requires
            old(self).wf(),
        ensures
            final(self).wf(),
            final(self).w() == old(self).w() && final(self).h() == old(self).h(),
            final(self).mines_made() == old(self).mines_made(),
            final(self).mines() == old(self).mines(),
            forall|p: Point| #[trigger] final(self).in_board(p) ==> final(self).tiles()[final(self).idx(p)]
                == final(self).uncovered(p) && final(self).tiles()[final(self).idx(p)] != Tile::Unknown,
    {
        let mut x: usize = 0;
        while x < self.width
            invariant
                self.wf(),
                self.w() == old(self).w() && self.h() == old(self).h(),
                self.mines_made() == old(self).mines_made(),
                self.mines() == old(self).mines(),
                x <= self.w(),
                forall|p: Point| #[trigger] self.in_board(p) && p.0 < x ==> self.tiles()[self.idx(p)]
                    != Tile::Unknown,
            decreases self.w() - x,
        {
            let mut y: usize = 0;
            while y < self.height
                invariant
                    self.wf(),
                    self.w() == old(self).w() && self.h() == old(self).h(),
                    self.mines_made() == old(self).mines_made(),
                    self.mines() == old(self).mines(),
                    x < self.w(),
                    y <= self.h(),
                    forall|p: Point| #[trigger] self.in_board(p) && (p.0 < x || (p.0 == x && p.1 < y))
                        ==> self.tiles()[self.idx(p)] != Tile::Unknown,
                decreases self.h() - y,
            {
                let ghost before = *self;
                self.reveal_cell((x, y));
                proof {
                    assert forall|p: Point| #[trigger] self.in_board(p) && (p.0 < x || (p.0 == x && p.1
                        < y + 1)) implies self.tiles()[self.idx(p)] != Tile::Unknown by {
                        assert(before.in_board(p));
                        lemma_index_bound(p.0 as int, p.1 as int, self.w() as int, self.h() as int);
                    }
                }
                y = y + 1;
            }
            x = x + 1;
        }
    }

    /// The index of the `r`-th cell, counting from zero, that holds no mine.
    fn nth_free_cell(&self, r: usize) -> (k: usize)
        requires
            r + count_true(self.mines@) < self.mines@.len(),
        ensures
            k < self.mines@.len(),
            !self.mines@[k as int],
    {
        let n = self.mines.len();
        let mut seen: usize = 0;
        let mut i: usize = 0;
        while i < n
            invariant
                n == self.mines@.len(),
                i <= n,
                seen <= r,
                seen + count_true(self.mines@.subrange(0, i as int)) == i,
                r + count_true(self.mines@) < n,
            decreases n - i,
        {
            proof {
                lemma_count_prefix(self.mines@, i as int);
            }
            if !self.mines[i] {
                if seen == r {
                    return i;
                }
                seen = seen + 1;
            }
            i = i + 1;
        }
        proof {
            assert(self.mines@.subrange(0, n as int) =~= self.mines@);
        }
        0
    }
}

proof fn lemma_index_distinct(p: Point, q: Point, w: int, h: int)
    requires
        p.0 < w && p.1 < h && q.0 < w && q.1 < h,
        p != q,
    ensures
        p.0 * h + p.1 != q.0 * h + q.1,
{
    if p.0 * h + p.1 == q.0 * h + q.1 {
        vstd::arithmetic::div_mod::lemma_fundamental_div_mod_converse(
            p.0 * h + p.1,
            h,
            p.0 as int,
            p.1 as int,
        );
        vstd::arithmetic::div_mod::lemma_fundamental_div_mod_converse(
            q.0 * h + q.1,
            h,
            q.0 as int,
            q.1 as int,
        );
    }
}

proof fn lemma_count_tile_zero(s: Seq<Tile>, t: Tile)
    requires
        count_tile(s, t) == 0,
    ensures
        forall|i: int| 0 <= i < s.len() ==> s[i] != t,
    decreases s.len(),
{
    if s.len() > 0 {
        lemma_count_tile_zero(s.drop_last(), t);
        assert forall|i: int| 0 <= i < s.len() implies s[i] != t by {
            if i < s.len() - 1 {
                assert(s.drop_last()[i] == s[i]);
            }
        }
    }
}

proof fn lemma_no_mines(s: Seq<bool>)
    requires
        forall|i: int| 0 <= i < s.len() ==> !s[i],
    ensures
        count_true(s) == 0,
    decreases s.len(),
{
    if s.len() > 0 {
        lemma_no_mines(s.drop_last());
    }
}

} // verus!
