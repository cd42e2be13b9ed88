use vstd::prelude::*;

use crate::player::{in_bounds, Player, Point};
use nalgebra::DMatrix;

verus! {

/// A `width` x `height` grid of tiles stored in an nalgebra matrix, one row
/// per board row. Verus refuses a declaration of nalgebra's matrix type (its
/// storage is bounded by an outside trait), so the matrix is held here and
/// reached only through the wrappers below.
#[verifier::external_body]
pub struct TileMatrix {
    inner: DMatrix<Tile>,
}

/// The state of one board cell.
#[derive(Copy, Clone, Debug, PartialEq, Eq, Structural)]
pub enum Tile {
    Empty,
    /// Marked by the agent with this id.
    Occupied(usize),
}

/// The largest number of cells a board may have, so that its storage can
/// always be allocated.
pub const MAX_CELLS: usize = usize::MAX / 32;

/// The entries of a matrix of tiles, row by row: `matrix_tiles(m)[r][c]` is the entry at row `r`, column `c`.
pub uninterp spec fn matrix_tiles(m: TileMatrix) -> Seq<Seq<Tile>>;

/// `rows` rows of `cols` copies of `t`.
pub open spec fn filled(rows: nat, cols: nat, t: Tile) -> Seq<Seq<Tile>> {
    Seq::new(rows, |r: int| Seq::new(cols, |c: int| t))
}

/// Relies on nalgebra's `DMatrix::from_element`: an `nrows` x `ncols` matrix
/// whose entries are all `elem`.
#[verifier::external_body]
fn matrix_from_element(nrows: usize, ncols: usize, elem: Tile) -> (m: TileMatrix)
    requires
        nrows * ncols <= MAX_CELLS,
    ensures
        matrix_tiles(m) == filled(nrows as nat, ncols as nat, elem),
{
    TileMatrix { inner: DMatrix::from_element(nrows, ncols, elem) }
}

/// Relies on nalgebra's `Index<(usize, usize)>` for matrices: the entry at row `r`, column `c`.
#[verifier::external_body]
fn matrix_get(m: &TileMatrix, r: usize, c: usize) -> (t: Tile)
    requires
        r < matrix_tiles(*m).len(),
        c < matrix_tiles(*m)[r as int].len(),
    ensures
        t == matrix_tiles(*m)[r as int][c as int],
{
    m.inner[(r, c)]
}

/// Relies on nalgebra's `IndexMut<(usize, usize)>` for matrices: overwrites
/// the entry at row `r`, column `c` and nothing else.
#[verifier::external_body]
fn matrix_set(m: &mut TileMatrix, r: usize, c: usize, t: Tile)
    requires
        r < matrix_tiles(*old(m)).len(),
        c < matrix_tiles(*old(m))[r as int].len(),
    ensures
        matrix_tiles(*final(m)) == matrix_tiles(*old(m)).update(
            r as int,
            matrix_tiles(*old(m))[r as int].update(c as int, t),
        ),
{
    m.inner[(r, c)] = t;
}

/// `cells` with the cell at `p` marked by agent `id`.
pub open spec fn mark(cells: Seq<Seq<Tile>>, p: Point, id: usize) -> Seq<Seq<Tile>> {
    cells.update(p.y as int, cells[p.y as int].update(p.x as int, Tile::Occupied(id)))
}

/// `cells` with the position of each of `players` marked, in order, so a
/// later agent overwrites an earlier one on a shared cell.
pub open spec fn mark_all(cells: Seq<Seq<Tile>>, players: Seq<Player>) -> Seq<Seq<Tile>>
    decreases players.len(),
{
    if players.len() == 0 {
        cells
    } else {
        let last = players.last();
        mark(mark_all(cells, players.drop_last()), last.pos, last.id)
    }
}

pub open spec fn is_occupied(t: Tile) -> bool {
    t is Occupied
}

/// Whether `cells` is a `width` x `height` grid.
pub open spec fn has_shape(cells: Seq<Seq<Tile>>, width: nat, height: nat) -> bool {
    &&& cells.len() == height
    &&& forall|r: int| 0 <= r < cells.len() ==> #[trigger] cells[r].len() == width
}

/// Whether every agent of `players` stands on a `width` x `height` board.
pub open spec fn all_inside(players: Seq<Player>, width: nat, height: nat) -> bool {
    forall|i: int| 0 <= i < players.len() ==> in_bounds(#[trigger] players[i].pos, width, height)
}

/// Whether `i` is the first agent of `players` that stands off the board.
pub open spec fn first_outside(players: Seq<Player>, width: nat, height: nat, i: int) -> bool {
    &&& 0 <= i < players.len()
    &&& !in_bounds(players[i].pos, width, height)
    &&& all_inside(players.take(i), width, height)
}

/// The error, if any, of building a `width` x `height` board for `players`:
/// an empty board first, then one too large, then the first agent off the board.
pub open spec fn board_error(width: nat, height: nat, players: Seq<Player>) -> Option<BoardError> {
    if width == 0 || height == 0 {
        Some(BoardError::EmptyBoard)
    } else if width * height > MAX_CELLS {
        Some(BoardError::TooLarge)
    } else if !all_inside(players, width, height) {
        Some(BoardError::PlayerOutside((choose|i: int| first_outside(players, width, height, i)) as usize))
    } else {
        None
    }
}

/// Why a board cannot be built.
#[derive(Copy, Clone, Debug, PartialEq, Eq, Structural)]
pub enum BoardError {
    /// The width or the height is zero.
    EmptyBoard,
    /// The board would have more than `MAX_CELLS` cells.
    TooLarge,
    /// The agent at this index starts outside the board.
    PlayerOutside(usize),
}

/// The grid of cells, owned by the simulation. `(x, y)` is stored at row `y`, column `x`.
pub struct Board {
    tiles: TileMatrix,
    width: usize,
    height: usize,
}

impl View for Board {
    type V = Seq<Seq<Tile>>;

    /// The cells, row by row.
    closed spec fn view(&self) -> Seq<Seq<Tile>> {
        matrix_tiles(self.tiles)
    }
}

impl Board {
    pub closed spec fn spec_width(&self) -> nat {
        self.width as nat
    }

    pub closed spec fn spec_height(&self) -> nat {
        self.height as nat
    }

    pub open spec fn wf(&self) -> bool {
        &&& 0 < self.spec_width()
        &&& 0 < self.spec_height()
        &&& self.spec_width() * self.spec_height() <= MAX_CELLS
        &&& self.spec_width() <= usize::MAX
        &&& self.spec_height() <= usize::MAX
        &&& has_shape(self@, self.spec_width(), self.spec_height())
    }

    /// The cell at `p`.
    pub open spec fn tile(&self, p: Point) -> Tile {
        self@[p.y as int][p.x as int]
    }

    /// A `width` x `height` board, empty but for the starting cell of each agent.
    pub fn new(width: usize, height: usize, players: &Vec<Player>) -> (r: Result<Board, BoardError>)
        ensures
            match board_error(width as nat, height as nat, players@) {
                Some(e) => r == Err::<Board, BoardError>(e),
                None => r is Ok,
            },
            r is Ok ==> {
                &&& r->Ok_0.wf()
                &&& r->Ok_0.spec_width() == width
                &&& r->Ok_0.spec_height() == height
                &&& r->Ok_0@ == mark_all(filled(height as nat, width as nat, Tile::Empty), players@)
            },
    {
        if width == 0 || height == 0 {
            return Err(BoardError::EmptyBoard);
        }
        match width.checked_mul(height) {
            None => {
                return Err(BoardError::TooLarge);
            },
            Some(n) => {
                if n > MAX_CELLS {
                    return Err(BoardError::TooLarge);
                }
            },
        }
        let mut i: usize = 0;
        while i < players.len()
            invariant
                0 < width,
                0 < height,
                width * height <= MAX_CELLS,
                i <= players@.len(),
                forall|j: int| 0 <= j < i ==> in_bounds(#[trigger] players@[j].pos, width as nat, height as nat),
            decreases players@.len() - i,
        {
            let pos = players[i].pos;
            if pos.x >= width || pos.y >= height {
                proof {
                    let (w, h) = (width as nat, height as nat);
                    assert(all_inside(players@.take(i as int), w, h)) by {
                        assert forall|j: int| 0 <= j < i implies in_bounds(
                            #[trigger] players@.take(i as int)[j].pos,
                            w,
                            h,
                        ) by {
                            assert(players@.take(i as int)[j] == players@[j]);
                        }
                    }
                    assert(first_outside(players@, w, h, i as int));
                    let c = choose|c: int| first_outside(players@, w, h, c);
                    if c < i {
                        assert(players@.take(i as int)[c] == players@[c]);
                    } else if c > i {
                        assert(players@.take(c)[i as int] == players@[i as int]);
                    }
                    assert(c == i);
                }
                return Err(BoardError::PlayerOutside(i));
            }
            i += 1;
        }
        let mut board = Board {
            tiles: matrix_from_element(height, width, Tile::Empty),
            width,
            height,
        };
        proof {
            assert(has_shape(board@, width as nat, height as nat));
            assert(players@.take(0) =~= Seq::<Player>::empty());
        }
        let mut k: usize = 0;
        while k < players.len()
            invariant
                k <= players@.len(),
                forall|j: int| 0 <= j < players@.len() ==> in_bounds(#[trigger] players@[j].pos, width as nat, height as nat),
                board.wf(),
                board.spec_width() == width,
                board.spec_height() == height,
                board@ == mark_all(filled(height as nat, width as nat, Tile::Empty), players@.take(k as int)),
            decreases players@.len() - k,
        {
            board.set_occupied(players[k].pos, players[k].id);
            proof {
                assert(players@.take(k as int + 1).drop_last() =~= players@.take(k as int));
            }
            k += 1;
        }
        proof {
            assert(players@.take(k as int) =~= players@);
        }
        Ok(board)
    }

    pub fn width(&self) -> (r: usize)
        ensures
            r == self.spec_width(),
    {
        self.width
    }

    pub fn height(&self) -> (r: usize)
        ensures
            r == self.spec_height(),
    {
        self.height
    }

    /// The cell at `pos`.
    pub fn get(&self, pos: Point) -> (t: Tile)
        requires
            self.wf(),
            in_bounds(pos, self.spec_width(), self.spec_height()),
        ensures
            t == self.tile(pos),
    {
        matrix_get(&self.tiles, pos.y, pos.x)
    }

    /// Marks the cell at `pos` as occupied by agent `id`, replacing any earlier owner.
    pub fn set_occupied(&mut self, pos: Point, id: usize)
        requires
            old(self).wf(),
            in_bounds(pos, old(self).spec_width(), old(self).spec_height()),
        ensures
            final(self).wf(),
            final(self).spec_width() == old(self).spec_width(),
            final(self).spec_height() == old(self).spec_height(),
            final(self)@ == mark(old(self)@, pos, id),
    {
        matrix_set(&mut self.tiles, pos.y, pos.x, Tile::Occupied(id));
        proof {
            lemma_mark_shape(old(self)@, pos, id, self.spec_width(), self.spec_height());
        }
    }
}

/// Marking an in-bounds cell keeps the grid's shape.
pub proof fn lemma_mark_shape(cells: Seq<Seq<Tile>>, p: Point, id: usize, width: nat, height: nat)
    requires
        has_shape(cells, width, height),
        in_bounds(p, width, height),
    ensures
        has_shape(mark(cells, p, id), width, height),
{
    let m = mark(cells, p, id);
    assert forall|r: int| 0 <= r < m.len() implies #[trigger] m[r].len() == width by {
        if r != p.y as int {
            assert(m[r] == cells[r]);
        }
    }
}

/// Marking every in-bounds position of `players` keeps the grid's shape.
pub proof fn lemma_mark_all_shape(
    cells: Seq<Seq<Tile>>,
    players: Seq<Player>,
    width: nat,
    height: nat,
)
    requires
        has_shape(cells, width, height),
        forall|i: int| 0 <= i < players.len() ==> in_bounds(#[trigger] players[i].pos, width, height),
    ensures
        has_shape(mark_all(cells, players), width, height),
    decreases players.len(),
{
    if players.len() > 0 {
        let rest = players.drop_last();
        assert forall|i: int| 0 <= i < rest.len() implies in_bounds(#[trigger] rest[i].pos, width, height) by {
            assert(rest[i] == players[i]);
        }
        lemma_mark_all_shape(cells, rest, width, height);
        let last = players.last();
        assert(in_bounds(players[players.len() - 1].pos, width, height));
        lemma_mark_shape(mark_all(cells, rest), last.pos, last.id, width, height);
    }
}

/// Trails are permanent: marking never turns an occupied cell back to empty.
pub proof fn lemma_mark_all_keeps_occupied(
    cells: Seq<Seq<Tile>>,
    players: Seq<Player>,
    width: nat,
    height: nat,
    q: Point,
)
    requires
        has_shape(cells, width, height),
        forall|i: int| 0 <= i < players.len() ==> in_bounds(#[trigger] players[i].pos, width, height),
        in_bounds(q, width, height),
        is_occupied(cells[q.y as int][q.x as int]),
    ensures
        is_occupied(mark_all(cells, players)[q.y as int][q.x as int]),
    decreases players.len(),
{
    if players.len() > 0 {
        let rest = players.drop_last();
        assert forall|i: int| 0 <= i < rest.len() implies in_bounds(#[trigger] rest[i].pos, width, height) by {
            assert(rest[i] == players[i]);
        }
        lemma_mark_all_keeps_occupied(cells, rest, width, height, q);
        lemma_mark_all_shape(cells, rest, width, height);
    }
}

} // verus!
