//! The board: the settled cells, the falling piece and the one after it,
//! and the countdown that makes the piece fall.

use vstd::prelude::*;
use vstd::arithmetic::div_mod::{
    lemma_add_mod_noop,
    lemma_mod_add_multiples_vanish,
    lemma_mod_multiples_basic,
    lemma_mod_sub_multiples_vanish,
    lemma_small_mod,
    lemma_sub_mod_noop,
};
use std::time::Duration;
use rusty_time::Timer;
use crate::block::{
    build_block_scaled,
    canonical_block,
    canonical_cells,
    kind_drawn,
    kind_for_draw,
    lemma_rows_within_width,
    lemma_scaled_row_len,
    lemma_width_is_attained,
    randomize_block_scaled,
    scaled_shape,
    shape_width,
    shapes_of,
    width_of,
    Block,
    BlockType,
    BlockView,
};
use crate::cells::{
    cell_start,
    grid_in_cells,
    law_canonical_in_cells,
    law_clearing_keeps_cells,
    law_freezing_keeps_cells,
    lemma_cell_start,
    lemma_empty_grid_in_cells,
    markers_in_cells,
    piece_in_cells,
    row_in_cells,
    shape_in_cells,
};
use crate::frame::{matrix, O, PIXEL_SIZE, X};
use crate::timer::{duration_nanos, nanos_of_millis, timer_copy, timer_is_ready, timer_left, timer_ready};

verus! {

/// Number of rows of the grid.
pub const BOARD_NUM_ROWS: usize = 20;

/// Number of display columns of the grid.
pub const BOARD_NUM_COLS: usize = 20;

/// Milliseconds between two falls when a game starts.
pub const START_SPEED: u64 = 500;

/// Milliseconds that each speed-up takes off the time between two falls.
pub const SPEED_DELTA: u64 = 50;

/// Milliseconds between two falls below which no speed-up goes.
pub const FASTEST_SPEED: u64 = 200;

/// The ways a piece can be pushed.
#[derive(Clone, Copy, Debug, PartialEq, Eq)]
pub enum Direction {
    Down,
    Left,
    Right,
}

/// The board of one game.
pub struct Board {
    grid: Vec<Vec<bool>>,
    current_block: Block,
    next_block: Block,
    move_timer: Timer,
    top_x: usize,
    top_y: usize,
    current_speed: u64,
    debug_mode: bool,
    cell_width: usize,
}

/// What a board is: which cells are settled, row by row; the falling
/// piece and the one that follows it; the nanoseconds left until the
/// piece falls on its own, and whether that countdown has run out; where
/// on the canvas the board is shown; the milliseconds between two falls;
/// whether the grid is shown a second time beside the board; and the
/// number of display columns that one logical cell takes.
pub ghost struct BoardView {
    pub grid: Seq<Seq<bool>>,
    pub current: BlockView,
    pub next: BlockView,
    pub time_left: nat,
    pub timer_ready: bool,
    pub top_x: nat,
    pub top_y: nat,
    pub interval: nat,
    pub debug: bool,
    pub cell_width: nat,
}

/// Whether a marker stands for a filled display column.
pub open spec fn filled(marker: char) -> bool {
    marker != O
}

/// Whether a grid has the dimensions of the board.
pub open spec fn grid_ok(grid: Seq<Seq<bool>>) -> bool {
    &&& grid.len() == BOARD_NUM_ROWS
    &&& forall|row: int| 0 <= row < grid.len() ==> (#[trigger] grid[row]).len() == BOARD_NUM_COLS
}

/// Whether the grid has a settled cell at a position. Outside the grid
/// nothing is settled.
pub open spec fn settled(grid: Seq<Seq<bool>>, row: int, col: int) -> bool {
    0 <= row < grid.len() && 0 <= col < grid[row].len() && grid[row][col]
}

/// Whether the marker at row `sy` and column `sx` of a shape is filled
/// and, with the shape's corner at (`x`, `y`), lies on a settled cell.
pub open spec fn hits(grid: Seq<Seq<bool>>, shape: Seq<Seq<char>>, x: int, y: int, sy: int, sx: int) -> bool {
    &&& 0 <= sy < shape.len()
    &&& 0 <= sx < shape[sy].len()
    &&& filled(shape[sy][sx])
    &&& settled(grid, y + sy, x + sx)
}

/// Whether a shape with its corner at (`x`, `y`) has a filled marker on
/// a settled cell.
pub open spec fn overlaps(grid: Seq<Seq<bool>>, shape: Seq<Seq<char>>, x: int, y: int) -> bool {
    exists|sy: int, sx: int| hits(grid, shape, x, y, sy, sx)
}

/// Whether the marker at row `sy` and column `sx` of a shape is `X`,
/// the first column of a filled cell, and, with the shape's corner at
/// (`x`, `y`), lies on a settled cell.
pub open spec fn touches(grid: Seq<Seq<bool>>, shape: Seq<Seq<char>>, x: int, y: int, sy: int, sx: int) -> bool {
    &&& 0 <= sy < shape.len()
    &&& 0 <= sx < shape[sy].len()
    &&& shape[sy][sx] == X
    &&& settled(grid, y + sy, x + sx)
}

/// Whether a shape with its corner at (`x`, `y`) has the first column of
/// a filled cell on a settled cell.
pub open spec fn starts_touch(grid: Seq<Seq<bool>>, shape: Seq<Seq<char>>, x: int, y: int) -> bool {
    exists|sy: int, sx: int| touches(grid, shape, x, y, sy, sx)
}

/// Whether a shape with its corner at (`x`, `y`) has a filled marker at
/// the grid position (`row`, `col`).
pub open spec fn covers(shape: Seq<Seq<char>>, x: int, y: int, row: int, col: int) -> bool {
    &&& 0 <= row - y < shape.len()
    &&& 0 <= col - x < shape[row - y].len()
    &&& filled(shape[row - y][col - x])
}

/// The grid after a shape with its corner at (`x`, `y`) has settled: a
/// cell is settled if it was, or if a filled marker of the shape lies on
/// it.
pub open spec fn frozen(grid: Seq<Seq<bool>>, shape: Seq<Seq<char>>, x: int, y: int) -> Seq<Seq<bool>> {
    Seq::new(
        grid.len(),
        |row: int| Seq::new(grid[row].len(), |col: int| grid[row][col] || covers(shape, x, y, row, col)),
    )
}

/// Whether every cell of a row is settled.
pub open spec fn row_full(row: Seq<bool>) -> bool {
    forall|col: int| 0 <= col < row.len() ==> row[col]
}

/// The rows of a grid that are not full, in their order.
pub open spec fn kept_rows(grid: Seq<Seq<bool>>) -> Seq<Seq<bool>>
    decreases grid.len(),
{
    if grid.len() == 0 {
        Seq::empty()
    } else if row_full(grid.last()) {
        kept_rows(grid.drop_last())
    } else {
        kept_rows(grid.drop_last()).push(grid.last())
    }
}

/// Number of full rows of a grid.
pub open spec fn full_rows(grid: Seq<Seq<bool>>) -> nat {
    (grid.len() - kept_rows(grid).len()) as nat
}

/// A row of the board without a settled cell.
pub open spec fn empty_row() -> Seq<bool> {
    Seq::new(BOARD_NUM_COLS as nat, |col: int| false)
}

/// The grid after its full rows were taken out: as many empty rows on
/// top as there were full ones, and below them the other rows in their
/// order.
pub open spec fn cleared(grid: Seq<Seq<bool>>) -> Seq<Seq<bool>> {
    Seq::new(full_rows(grid), |row: int| empty_row()) + kept_rows(grid)
}

/// Whether all four shapes of a piece lie within the grid when put in
/// its corner and are made of whole cells, and the piece steps by the
/// given cell width.
pub open spec fn suits(piece: BlockView, cell_width: nat) -> bool {
    &&& piece.wf()
    &&& piece.cell_width == cell_width
    &&& piece_in_cells(piece, cell_width)
    &&& forall|rotation: int|
        0 <= rotation < 4 ==> {
            &&& (#[trigger] piece.shapes[rotation]).len() <= BOARD_NUM_ROWS
            &&& shape_width(piece.shapes[rotation]) <= BOARD_NUM_COLS
            &&& shape_width(piece.shapes[rotation]) % cell_width == 0
        }
}

/// Whether a piece stands on a whole cell and its current shape lies
/// within the grid.
pub open spec fn placed(piece: BlockView) -> bool {
    &&& piece.x % piece.cell_width == 0
    &&& piece.x + piece.width() <= BOARD_NUM_COLS
    &&& piece.y + piece.height() <= BOARD_NUM_ROWS
}

/// The column that a piece of the given width ends up in when it is
/// shifted left, one cell at a time, for as long as it reaches beyond the
/// right edge of the grid.
pub open spec fn kicked_x(x: nat, width: nat, cell_width: nat) -> nat
    decreases x,
{
    if x + width > BOARD_NUM_COLS && 0 < cell_width <= x {
        kicked_x((x - cell_width) as nat, width, cell_width)
    } else {
        x
    }
}

impl BoardView {
    /// The grid has its dimensions and is made of whole cells, both
    /// pieces suit it, the falling piece stands on a whole cell between
    /// the walls and starts within the grid, the next piece lies within
    /// the grid, the cell width divides the width of the grid and leaves
    /// room for the widest piece, the countdown has not run out, and the
    /// board is shown in the corner of the canvas, so that the offsets of
    /// the board are the edges of the grid.
    pub open spec fn wf(self) -> bool {
        &&& grid_ok(self.grid)
        &&& grid_in_cells(self.grid, self.cell_width)
        &&& cell_width_ok(self.cell_width)
        &&& suits(self.current, self.cell_width)
        &&& suits(self.next, self.cell_width)
        &&& self.current.x % self.cell_width == 0
        &&& self.current.x + self.current.width() <= BOARD_NUM_COLS
        &&& self.current.y <= BOARD_NUM_ROWS
        &&& placed(self.next)
        &&& !self.timer_ready
        &&& self.top_x == 0
        &&& self.top_y == 0
    }

    /// Whether the falling piece ends above the floor. A turn can take
    /// it below; nothing else can.
    pub open spec fn piece_in_grid(self) -> bool {
        self.current.y + self.current.height() <= BOARD_NUM_ROWS
    }

    /// Whether the falling piece cannot be pushed one step. Down: it
    /// stands on the floor, or a filled marker has a settled cell below
    /// it. Left: it stands at the left wall, or the first column of a
    /// filled cell has a settled cell to its left. Right: it stands at
    /// the right wall, or a filled cell has a settled cell to the right
    /// of its last column.
    pub open spec fn collides(self, direction: Direction) -> bool {
        let piece = self.current;
        match direction {
            Direction::Down => piece.y + piece.height() == BOARD_NUM_ROWS || overlaps(
                self.grid,
                piece.shape(),
                piece.x as int,
                (piece.y + 1) as int,
            ),
            Direction::Left => piece.x == 0 || starts_touch(self.grid, piece.shape(), piece.x - 1, piece.y as int),
            Direction::Right => piece.x + piece.width() == BOARD_NUM_COLS || starts_touch(
                self.grid,
                piece.shape(),
                (piece.x + piece.cell_width) as int,
                piece.y as int,
            ),
        }
    }

    /// The falling piece pushed one step: a row down, or a cell sideways.
    pub open spec fn pushed(self, direction: Direction) -> BoardView {
        let piece = self.current;
        BoardView {
            current: match direction {
                Direction::Down => piece.at(piece.x, piece.y + 1),
                Direction::Left => piece.at((piece.x - piece.cell_width) as nat, piece.y),
                Direction::Right => piece.at(piece.x + piece.cell_width, piece.y),
            },
            ..self
        }
    }

    /// The board after a push was tried: the piece has moved unless it
    /// collided.
    pub open spec fn after_push(self, direction: Direction) -> BoardView {
        if self.collides(direction) {
            self
        } else {
            self.pushed(direction)
        }
    }

    /// The falling piece settled where it stands.
    pub open spec fn with_piece_frozen(self) -> BoardView {
        BoardView {
            grid: frozen(self.grid, self.current.shape(), self.current.x as int, self.current.y as int),
            ..self
        }
    }

    /// The falling piece settled, the piece after it falling in its
    /// place, and a fresh piece waiting.
    pub open spec fn landed(self, fresh: BlockView) -> BoardView {
        BoardView { current: self.next, next: fresh, ..self.with_piece_frozen() }
    }

    /// The countdown set to the whole time between two falls.
    pub open spec fn rearmed(self) -> BoardView {
        BoardView { time_left: nanos_of_millis(self.interval), ..self }
    }

    /// Whether the piece falls on its own when `elapsed` nanoseconds
    /// pass: more time passes than the countdown has left.
    pub open spec fn due(self, elapsed: nat) -> bool {
        elapsed > self.time_left
    }

    /// Whether `elapsed` nanoseconds can pass: where the piece falls on
    /// its own, it lies within the grid.
    pub open spec fn can_pass(self, elapsed: nat) -> bool {
        self.due(elapsed) ==> self.piece_in_grid()
    }

    /// Whether the piece lands when `elapsed` nanoseconds pass.
    pub open spec fn lands(self, elapsed: nat) -> bool {
        self.due(elapsed) && self.collides(Direction::Down)
    }

    /// The board after `elapsed` nanoseconds have passed, where `fresh`
    /// is the piece that comes in if the falling one lands.
    pub open spec fn after_update(self, elapsed: nat, fresh: BlockView) -> BoardView {
        if !self.due(elapsed) {
            BoardView { time_left: (self.time_left - elapsed) as nat, ..self }
        } else if !self.collides(Direction::Down) {
            self.rearmed().pushed(Direction::Down)
        } else {
            self.rearmed().landed(fresh)
        }
    }

    /// Whether the falling piece, turned, ends above the floor.
    pub open spec fn can_turn(self) -> bool {
        self.current.y + self.current.rotated().height() <= BOARD_NUM_ROWS
    }

    /// The board after the falling piece was turned and then shifted
    /// left, cell by cell, until it no longer reaches beyond the right
    /// edge. Settled cells, the left wall and the floor play no part.
    pub open spec fn turned(self) -> BoardView {
        let piece = self.current.rotated();
        BoardView { current: piece.at(kicked_x(piece.x, piece.width(), piece.cell_width), piece.y), ..self }
    }

    /// The board with its full rows cleared.
    pub open spec fn with_lines_cleared(self) -> BoardView {
        BoardView { grid: cleared(self.grid), ..self }
    }

    /// The board a speed-up leaves: the time between two falls cut by
    /// the delta and the countdown set to it, unless the time is at its
    /// floor already.
    pub open spec fn sped_up(self) -> BoardView {
        if self.interval > FASTEST_SPEED {
            BoardView { interval: (self.interval - SPEED_DELTA) as nat, ..self }.rearmed()
        } else {
            self
        }
    }

    /// Whether the game is lost: the falling piece still stands in the
    /// top row and cannot move down.
    pub open spec fn is_full(self) -> bool {
        self.current.y == 0 && self.collides(Direction::Down)
    }
}

/// A board for a new game around two pieces.
pub open spec fn opening(debug: bool, cell_width: nat, current: BlockView, next: BlockView) -> BoardView {
    BoardView {
        grid: Seq::new(BOARD_NUM_ROWS as nat, |row: int| empty_row()),
        current,
        next,
        time_left: nanos_of_millis(START_SPEED as nat),
        timer_ready: false,
        top_x: 0,
        top_y: 0,
        interval: START_SPEED as nat,
        debug,
        cell_width,
    }
}

/// Whether a cell width is one that a board can have: it divides the
/// width of the grid, and four cells, the widest piece, fit in a row.
pub open spec fn cell_width_ok(cell_width: nat) -> bool {
    &&& 1 <= cell_width
    &&& 4 * cell_width <= BOARD_NUM_COLS
    &&& BOARD_NUM_COLS as nat % cell_width == 0
}

/// Whether a grid and two pieces can make up a board: the cell width of
/// the first piece is one that a board can have, the grid has its
/// dimensions and is made of whole cells of that width, and both pieces
/// suit the grid at that width and lie within it.
pub open spec fn playable(grid: Seq<Seq<bool>>, current: BlockView, next: BlockView) -> bool {
    &&& grid_ok(grid)
    &&& cell_width_ok(current.cell_width)
    &&& grid_in_cells(grid, current.cell_width)
    &&& suits(current, current.cell_width)
    &&& suits(next, current.cell_width)
    &&& placed(current)
    &&& placed(next)
}

impl View for Board {
    type V = BoardView;

    closed spec fn view(&self) -> BoardView {
        BoardView {
            grid: matrix(self.grid),
            current: self.current_block@,
            next: self.next_block@,
            time_left: timer_left(self.move_timer),
            timer_ready: timer_ready(self.move_timer),
            top_x: self.top_x as nat,
            top_y: self.top_y as nat,
            interval: self.current_speed as nat,
            debug: self.debug_mode,
            cell_width: self.cell_width as nat,
        }
    }
}

/// A position on a whole cell that is not the first column lies at least
/// a cell from it, and the positions a cell to either side are on whole
/// cells too.
pub proof fn lemma_cell_steps(x: nat, cell_width: nat)
    requires
        cell_width >= 1,
        x % cell_width == 0,
    ensures
        x > 0 ==> x >= cell_width,
        (x + cell_width) % cell_width == 0,
        x >= cell_width ==> ((x - cell_width) as nat) % cell_width == 0,
{
    if x < cell_width {
        lemma_small_mod(x, cell_width);
    }
    lemma_mod_add_multiples_vanish(x as int, cell_width as int);
    lemma_mod_sub_multiples_vanish(x as int, cell_width as int);
}

/// Two whole numbers of cells that end before a third leave room for a
/// whole cell.
pub proof fn lemma_room_for_a_cell(x: nat, width: nat, limit: nat, cell_width: nat)
    requires
        cell_width >= 1,
        x % cell_width == 0,
        width % cell_width == 0,
        limit % cell_width == 0,
        x + width < limit,
    ensures
        x + width + cell_width <= limit,
{
    let m = cell_width as int;
    let gap = limit - (x + width);
    lemma_small_mod(0, cell_width);
    lemma_add_mod_noop(x as int, width as int, m);
    assert(((x + width) as int) % m == 0);
    lemma_sub_mod_noop(limit as int, (x + width) as int, m);
    assert(gap % m == 0);
    if gap < m {
        lemma_small_mod(gap as nat, cell_width);
    }
}

/// The rows that are kept are no more than there were, and as long as
/// they were.
pub proof fn lemma_kept_rows_dimensions(grid: Seq<Seq<bool>>, columns: nat)
    requires
        forall|row: int| 0 <= row < grid.len() ==> (#[trigger] grid[row]).len() == columns,
    ensures
        kept_rows(grid).len() <= grid.len(),
        forall|row: int| 0 <= row < kept_rows(grid).len() ==> (#[trigger] kept_rows(grid)[row]).len() == columns,
    decreases grid.len(),
{
    if grid.len() > 0 {
        lemma_kept_rows_dimensions(grid.drop_last(), columns);
    }
}

/// Clearing the full rows leaves a grid of the same dimensions.
pub proof fn lemma_cleared_dimensions(grid: Seq<Seq<bool>>)
    requires
        grid_ok(grid),
    ensures
        grid_ok(cleared(grid)),
{
    lemma_kept_rows_dimensions(grid, BOARD_NUM_COLS as nat);
}

/// A piece at the left offset of the board is blocked to the left, and
/// a push to the left leaves the board as it is.
pub proof fn law_left_wall_blocks(board: BoardView)
    requires
        board.wf(),
        board.current.x == board.top_x,
    ensures
        board.collides(Direction::Left),
        board.after_push(Direction::Left) == board,
{
}

/// A piece that ends at the right offset of the board is blocked to the
/// right, and a push to the right leaves the board as it is.
pub proof fn law_right_wall_blocks(board: BoardView)
    requires
        board.wf(),
        board.current.x + board.current.width() == board.top_x + BOARD_NUM_COLS,
    ensures
        board.collides(Direction::Right),
        board.after_push(Direction::Right) == board,
{
}

/// A piece in the row of the upper offset of the board that is blocked
/// downward has lost the game; a piece in any other row has not.
pub proof fn law_blocked_in_top_row_is_lost(board: BoardView)
    requires
        board.wf(),
    ensures
        board.current.y == board.top_y && board.collides(Direction::Down) ==> board.is_full(),
        board.current.y != board.top_y ==> !board.is_full(),
{
}

/// The falling piece cannot be pushed down exactly when, a row further
/// down, it would reach below the floor or lie on a settled cell.
pub proof fn law_down_collision(board: BoardView)
    requires
        board.wf(),
        board.piece_in_grid(),
    ensures
        board.collides(Direction::Down) <==> (board.current.y + 1 + board.current.height() > BOARD_NUM_ROWS
            || overlaps(board.grid, board.current.shape(), board.current.x as int, (board.current.y + 1) as int)),
{
}

/// A piece that was free to fall lies, after the fall, within the grid
/// and on no settled cell, over settled cells that have not changed.
pub proof fn law_free_fall(board: BoardView)
    requires
        board.wf(),
        board.piece_in_grid(),
        !board.collides(Direction::Down),
    ensures
        board.after_push(Direction::Down).wf(),
        board.after_push(Direction::Down).piece_in_grid(),
        board.after_push(Direction::Down).grid == board.grid,
        board.after_push(Direction::Down).current.y == board.current.y + 1,
        !overlaps(
            board.grid,
            board.after_push(Direction::Down).current.shape(),
            board.after_push(Direction::Down).current.x as int,
            board.after_push(Direction::Down).current.y as int,
        ),
{
}

/// Settling a shape unsettles no cell, and settling it a second time
/// changes nothing.
pub proof fn law_freeze_keeps_settled(grid: Seq<Seq<bool>>, shape: Seq<Seq<char>>, x: int, y: int)
    ensures
        forall|row: int, col: int| #[trigger]
            settled(grid, row, col) ==> settled(frozen(grid, shape, x, y), row, col),
        frozen(frozen(grid, shape, x, y), shape, x, y) == frozen(grid, shape, x, y),
{
    assert(frozen(frozen(grid, shape, x, y), shape, x, y) =~~= frozen(grid, shape, x, y));
}

/// A grid of full rows has all of them cleared, and as many empty rows
/// are left.
pub proof fn law_full_grid_clears(grid: Seq<Seq<bool>>)
    requires
        forall|row: int| 0 <= row < grid.len() ==> row_full(#[trigger] grid[row]),
    ensures
        full_rows(grid) == grid.len(),
        cleared(grid) == Seq::new(grid.len(), |row: int| empty_row()),
    decreases grid.len(),
{
    if grid.len() > 0 {
        law_full_grid_clears(grid.drop_last());
    }
    assert(kept_rows(grid).len() == 0);
    assert(cleared(grid) =~= Seq::new(grid.len(), |row: int| empty_row()));
}

/// A grid without a full row has none cleared and stays as it is.
pub proof fn law_no_full_row_no_change(grid: Seq<Seq<bool>>)
    requires
        forall|row: int| 0 <= row < grid.len() ==> !row_full(#[trigger] grid[row]),
    ensures
        full_rows(grid) == 0,
        cleared(grid) == grid,
    decreases grid.len(),
{
    if grid.len() > 0 {
        law_no_full_row_no_change(grid.drop_last());
        assert(cleared(grid.drop_last()) =~= kept_rows(grid.drop_last()));
        assert(grid.drop_last().push(grid.last()) =~= grid);
    }
    assert(kept_rows(grid) =~= grid);
    assert(cleared(grid) =~= grid);
}

/// None of the rows that are kept is full.
pub proof fn lemma_kept_rows_are_not_full(grid: Seq<Seq<bool>>)
    ensures
        forall|row: int| 0 <= row < kept_rows(grid).len() ==> !row_full(#[trigger] kept_rows(grid)[row]),
    decreases grid.len(),
{
    if grid.len() > 0 {
        let rest = kept_rows(grid.drop_last());
        lemma_kept_rows_are_not_full(grid.drop_last());
        assert forall|row: int| 0 <= row < kept_rows(grid).len() implies !row_full(
            #[trigger] kept_rows(grid)[row],
        ) by {
            if row < rest.len() {
                assert(kept_rows(grid)[row] == rest[row]);
            }
        }
    }
}

/// No full row outlasts a clearing: the grid that is left has none, so
/// that clearing it again takes nothing out and changes nothing.
pub proof fn law_cleared_has_no_full_row(grid: Seq<Seq<bool>>)
    ensures
        forall|row: int| 0 <= row < cleared(grid).len() ==> !row_full(#[trigger] cleared(grid)[row]),
        full_rows(cleared(grid)) == 0,
        cleared(cleared(grid)) == cleared(grid),
{
    lemma_kept_rows_are_not_full(grid);
    assert(!empty_row()[0]);
    assert forall|row: int| 0 <= row < cleared(grid).len() implies !row_full(#[trigger] cleared(grid)[row]) by {
        if row >= full_rows(grid) {
            assert(cleared(grid)[row] == kept_rows(grid)[row - full_rows(grid)]);
        }
    }
    law_no_full_row_no_change(cleared(grid));
}

/// A piece on a whole cell that is no wider than the grid ends up within
/// the grid, on a whole cell and no further left than it must: where it
/// was within the grid it stays, and where it was shifted, one cell less
/// would not have been enough.
pub proof fn law_kick_ends_within(x: nat, width: nat, cell_width: nat)
    requires
        cell_width >= 1,
        x % cell_width == 0,
        width <= BOARD_NUM_COLS,
    ensures
        kicked_x(x, width, cell_width) <= x,
        kicked_x(x, width, cell_width) % cell_width == 0,
        kicked_x(x, width, cell_width) + width <= BOARD_NUM_COLS,
        x + width <= BOARD_NUM_COLS ==> kicked_x(x, width, cell_width) == x,
        kicked_x(x, width, cell_width) < x ==> kicked_x(x, width, cell_width) + cell_width + width
            > BOARD_NUM_COLS,
    decreases x,
{
    if x + width > BOARD_NUM_COLS {
        lemma_cell_steps(x, cell_width);
        law_kick_ends_within((x - cell_width) as nat, width, cell_width);
    }
}

/// Every kind of piece, built for a cell width that the board accepts,
/// suits the board and lies within it.
pub proof fn lemma_canonical_suits(kind: BlockType, cell_width: nat)
    requires
        1 <= cell_width,
        4 * cell_width <= BOARD_NUM_COLS,
    ensures
        suits(canonical_block(kind, cell_width), cell_width),
        placed(canonical_block(kind, cell_width)),
{
    let piece = canonical_block(kind, cell_width);
    law_canonical_in_cells(kind, cell_width);
    assert forall|rotation: int| 0 <= rotation < 4 implies {
        &&& (#[trigger] piece.shapes[rotation]).len() <= BOARD_NUM_ROWS
        &&& shape_width(piece.shapes[rotation]) <= BOARD_NUM_COLS
        &&& shape_width(piece.shapes[rotation]) % cell_width == 0
    } by {
        let cells = canonical_cells(kind, rotation);
        let shape = scaled_shape(cells, cell_width);
        assert(piece.shapes[rotation] == shape);
        assert(1 <= cells.len() <= 4);
        assert(forall|row: int| 0 <= row < cells.len() ==> (#[trigger] cells[row]).len() <= 4);
        lemma_width_is_attained(shape);
        let row = choose|row: int| 0 <= row < shape.len() && #[trigger] shape[row].len() == shape_width(shape);
        lemma_scaled_row_len(cells[row], cell_width);
        let n = cells[row].len();
        assert(n <= 4);
        assert(n * cell_width <= 4 * cell_width) by (nonlinear_arith)
            requires
                n <= 4,
        ;
        lemma_mod_multiples_basic(n as int, cell_width as int);
    }
    lemma_small_mod(0, cell_width);
}

fn empty_grid_row() -> (row: Vec<bool>)
    ensures
        row@ == empty_row(),
{
    let mut row: Vec<bool> = Vec::new();
    let mut col: usize = 0;
    while col < BOARD_NUM_COLS
        invariant
            col <= BOARD_NUM_COLS,
            row@.len() == col,
            forall|c: int| 0 <= c < col ==> !row@[c],
        decreases BOARD_NUM_COLS - col,
    {
        row.push(false);
        col += 1;
    }
    assert(row@ =~= empty_row());
    row
}

fn empty_grid() -> (grid: Vec<Vec<bool>>)
    ensures
        matrix(grid) == Seq::new(BOARD_NUM_ROWS as nat, |row: int| empty_row()),
{
    let mut grid: Vec<Vec<bool>> = Vec::new();
    let mut row: usize = 0;
    while row < BOARD_NUM_ROWS
        invariant
            row <= BOARD_NUM_ROWS,
            grid@.len() == row,
            forall|r: int| 0 <= r < row ==> (#[trigger] grid@[r])@ == empty_row(),
        decreases BOARD_NUM_ROWS - row,
    {
        grid.push(empty_grid_row());
        row += 1;
    }
    assert(matrix(grid) =~= Seq::new(BOARD_NUM_ROWS as nat, |row: int| empty_row()));
    grid
}

/// Whether a grid has the dimensions of the board.
fn grid_fits(grid: &Vec<Vec<bool>>) -> (ok: bool)
    ensures
        ok == grid_ok(matrix(*grid)),
{
    if grid.len() != BOARD_NUM_ROWS {
        return false;
    }
    let mut row: usize = 0;
    while row < grid.len()
        invariant
            row <= grid@.len(),
            grid@.len() == BOARD_NUM_ROWS,
            forall|r: int| 0 <= r < row ==> (#[trigger] matrix(*grid)[r]).len() == BOARD_NUM_COLS,
        decreases grid@.len() - row,
    {
        if grid[row].len() != BOARD_NUM_COLS {
            assert(matrix(*grid)[row as int].len() != BOARD_NUM_COLS);
            return false;
        }
        row += 1;
    }
    true
}

/// Whether the columns of every logical cell of a row agree.
fn row_is_in_cells(row: &Vec<bool>, cell_width: usize) -> (ok: bool)
    requires
        cell_width >= 1,
    ensures
        ok == row_in_cells(row@, cell_width as nat),
{
    let mut col: usize = 0;
    while col < row.len()
        invariant
            col <= row.len(),
            cell_width >= 1,
            forall|c: int| 0 <= c < col ==> #[trigger] row@[c] == row@[cell_start(c, cell_width as nat)],
        decreases row.len() - col,
    {
        proof {
            lemma_cell_start(col as int, cell_width as nat);
        }
        if row[col] != row[col - col % cell_width] {
            assert(row@[col as int] != row@[cell_start(col as int, cell_width as nat)]);
            return false;
        }
        col += 1;
    }
    true
}

/// Whether a grid is made of whole cells.
fn grid_is_in_cells(grid: &Vec<Vec<bool>>, cell_width: usize) -> (ok: bool)
    requires
        cell_width >= 1,
    ensures
        ok == grid_in_cells(matrix(*grid), cell_width as nat),
{
    let mut row: usize = 0;
    while row < grid.len()
        invariant
            row <= grid@.len(),
            cell_width >= 1,
            forall|r: int| 0 <= r < row ==> row_in_cells(#[trigger] matrix(*grid)[r], cell_width as nat),
        decreases grid@.len() - row,
    {
        assert(matrix(*grid)[row as int] == grid@[row as int]@);
        if !row_is_in_cells(&grid[row], cell_width) {
            return false;
        }
        row += 1;
    }
    true
}

/// Whether a row of markers is made of whole cells, each filled cell
/// with `X` in its first column and nowhere else.
fn markers_are_in_cells(row: &Vec<char>, cell_width: usize) -> (ok: bool)
    requires
        cell_width >= 1,
    ensures
        ok == markers_in_cells(row@, cell_width as nat),
{
    if row.len() % cell_width != 0 {
        return false;
    }
    let mut sx: usize = 0;
    while sx < row.len()
        invariant
            sx <= row.len(),
            cell_width >= 1,
            row@.len() % (cell_width as nat) == 0,
            forall|i: int|
                0 <= i < sx ==> {
                    &&& filled(#[trigger] row@[i]) == filled(row@[cell_start(i, cell_width as nat)])
                    &&& row@[i] == X <==> filled(row@[i]) && i % (cell_width as int) == 0
                },
        decreases row.len() - sx,
    {
        proof {
            lemma_cell_start(sx as int, cell_width as nat);
        }
        let here = row[sx] != O;
        let start = row[sx - sx % cell_width] != O;
        let first = sx % cell_width == 0;
        if here != start || (row[sx] == X) != (here && first) {
            assert(!{
                &&& filled(row@[sx as int]) == filled(row@[cell_start(sx as int, cell_width as nat)])
                &&& row@[sx as int] == X <==> filled(row@[sx as int]) && sx as int % (cell_width as int) == 0
            });
            return false;
        }
        sx += 1;
    }
    true
}

/// Whether a shape is made of whole cells.
fn shape_is_in_cells(shape: &Vec<Vec<char>>, cell_width: usize) -> (ok: bool)
    requires
        cell_width >= 1,
    ensures
        ok == shape_in_cells(matrix(*shape), cell_width as nat),
{
    let mut sy: usize = 0;
    while sy < shape.len()
        invariant
            sy <= shape@.len(),
            cell_width >= 1,
            forall|r: int| 0 <= r < sy ==> markers_in_cells(#[trigger] matrix(*shape)[r], cell_width as nat),
        decreases shape@.len() - sy,
    {
        assert(matrix(*shape)[sy as int] == shape@[sy as int]@);
        if !markers_are_in_cells(&shape[sy], cell_width) {
            return false;
        }
        sy += 1;
    }
    true
}

/// Whether a cell width is one that a board can have.
fn cell_width_fits(cell_width: usize) -> (ok: bool)
    ensures
        ok == cell_width_ok(cell_width as nat),
{
    1 <= cell_width && cell_width <= BOARD_NUM_COLS / 4 && BOARD_NUM_COLS % cell_width == 0
}

/// Whether a piece suits the grid at a cell width and lies within it.
fn piece_fits(piece: &Block, cell_width: usize) -> (ok: bool)
    requires
        cell_width >= 1,
    ensures
        ok == (suits(piece@, cell_width as nat) && placed(piece@)),
{
    let frames = piece.get_all_frames();
    if frames.len() != 4 || piece.rotation() >= 4 || piece.cell_width() != cell_width {
        return false;
    }
    let mut rotation: usize = 0;
    while rotation < 4
        invariant
            rotation <= 4,
            cell_width >= 1,
            frames@.len() == 4,
            shapes_of(*frames) == piece@.shapes,
            forall|r: int|
                0 <= r < rotation ==> {
                    &&& (#[trigger] piece@.shapes[r]).len() <= BOARD_NUM_ROWS
                    &&& shape_width(piece@.shapes[r]) <= BOARD_NUM_COLS
                    &&& shape_width(piece@.shapes[r]) % (cell_width as nat) == 0
                    &&& shape_in_cells(piece@.shapes[r], cell_width as nat)
                },
        decreases 4 - rotation,
    {
        let shape = &frames[rotation];
        assert(matrix(*shape) == piece@.shapes[rotation as int]);
        let width = width_of(shape);
        if shape.len() > BOARD_NUM_ROWS || width > BOARD_NUM_COLS || width % cell_width != 0 {
            return false;
        }
        if !shape_is_in_cells(shape, cell_width) {
            return false;
        }
        rotation += 1;
    }
    let x = piece.current_x();
    let y = piece.current_y();
    let width = piece.get_width();
    let height = piece.get_current_frame().len();
    x % cell_width == 0 && x <= BOARD_NUM_COLS && width <= BOARD_NUM_COLS - x && y <= BOARD_NUM_ROWS && height
        <= BOARD_NUM_ROWS - y
}

/// Whether a shape with its corner at (`x`, `y`) has a filled marker on
/// a settled cell of the grid.
fn shape_overlaps(grid: &Vec<Vec<bool>>, shape: &Vec<Vec<char>>, x: usize, y: usize) -> (hit: bool)
    requires
        grid_ok(matrix(*grid)),
        x + shape_width(matrix(*shape)) <= BOARD_NUM_COLS,
        y + shape@.len() <= BOARD_NUM_ROWS,
    ensures
        hit == overlaps(matrix(*grid), matrix(*shape), x as int, y as int),
{
    let ghost cells = matrix(*grid);
    let ghost markers = matrix(*shape);
    let mut sy: usize = 0;
    while sy < shape.len()
        invariant
            sy <= shape.len(),
            cells == matrix(*grid),
            markers == matrix(*shape),
            grid_ok(cells),
            x + shape_width(markers) <= BOARD_NUM_COLS,
            y + shape@.len() <= BOARD_NUM_ROWS,
            forall|ry: int, rx: int| 0 <= ry < sy ==> !hits(cells, markers, x as int, y as int, ry, rx),
        decreases shape.len() - sy,
    {
        let row = &shape[sy];
        proof {
            lemma_rows_within_width(markers, sy as int);
        }
        let mut sx: usize = 0;
        while sx < row.len()
            invariant
                sy < shape.len(),
                sx <= row.len(),
                row@ == markers[sy as int],
                cells == matrix(*grid),
                markers == matrix(*shape),
                grid_ok(cells),
                x + row@.len() <= BOARD_NUM_COLS,
                y + shape@.len() <= BOARD_NUM_ROWS,
                forall|ry: int, rx: int| 0 <= ry < sy ==> !hits(cells, markers, x as int, y as int, ry, rx),
                forall|rx: int| 0 <= rx < sx ==> !hits(cells, markers, x as int, y as int, sy as int, rx),
            decreases row.len() - sx,
        {
            assert(cells[y + sy] == grid@[y + sy]@);
            if row[sx] != O && grid[y + sy][x + sx] {
                assert(hits(cells, markers, x as int, y as int, sy as int, sx as int));
                return true;
            }
            sx += 1;
        }
        sy += 1;
    }
    false
}

/// Whether a shape with its corner at (`x`, `y`) has the first column of
/// a filled cell on a settled cell of the grid.
fn shape_starts_touch(grid: &Vec<Vec<bool>>, shape: &Vec<Vec<char>>, x: usize, y: usize) -> (hit: bool)
    requires
        grid_ok(matrix(*grid)),
        x + shape_width(matrix(*shape)) <= BOARD_NUM_COLS,
        y + shape@.len() <= BOARD_NUM_ROWS,
    ensures
        hit == starts_touch(matrix(*grid), matrix(*shape), x as int, y as int),
{
    let ghost cells = matrix(*grid);
    let ghost markers = matrix(*shape);
    let mut sy: usize = 0;
    while sy < shape.len()
        invariant
            sy <= shape.len(),
            cells == matrix(*grid),
            markers == matrix(*shape),
            grid_ok(cells),
            x + shape_width(markers) <= BOARD_NUM_COLS,
            y + shape@.len() <= BOARD_NUM_ROWS,
            forall|ry: int, rx: int| 0 <= ry < sy ==> !touches(cells, markers, x as int, y as int, ry, rx),
        decreases shape.len() - sy,
    {
        let row = &shape[sy];
        proof {
            lemma_rows_within_width(markers, sy as int);
        }
        let mut sx: usize = 0;
        while sx < row.len()
            invariant
                sy < shape.len(),
                sx <= row.len(),
                row@ == markers[sy as int],
                cells == matrix(*grid),
                markers == matrix(*shape),
                grid_ok(cells),
                x + row@.len() <= BOARD_NUM_COLS,
                y + shape@.len() <= BOARD_NUM_ROWS,
                forall|ry: int, rx: int| 0 <= ry < sy ==> !touches(cells, markers, x as int, y as int, ry, rx),
                forall|rx: int| 0 <= rx < sx ==> !touches(cells, markers, x as int, y as int, sy as int, rx),
            decreases row.len() - sx,
        {
            assert(cells[y + sy] == grid@[y + sy]@);
            if row[sx] == X && grid[y + sy][x + sx] {
                assert(touches(cells, markers, x as int, y as int, sy as int, sx as int));
                return true;
            }
            sx += 1;
        }
        sy += 1;
    }
    false
}

/// Marks one cell of the grid as settled.
fn settle_cell(grid: &mut Vec<Vec<bool>>, row: usize, col: usize)
    requires
        row < old(grid)@.len(),
        col < old(grid)@[row as int]@.len(),
    ensures
        matrix(*final(grid)) == matrix(*old(grid)).update(
            row as int,
            matrix(*old(grid))[row as int].update(col as int, true),
        ),
{
    grid[row][col] = true;
    assert(matrix(*grid) =~~= matrix(*old(grid)).update(
        row as int,
        matrix(*old(grid))[row as int].update(col as int, true),
    ));
}

/// Settles a shape with its corner at (`x`, `y`) into the grid.
fn settle_shape(grid: &mut Vec<Vec<bool>>, shape: &Vec<Vec<char>>, x: usize, y: usize)
    requires
        grid_ok(matrix(*old(grid))),
        x + shape_width(matrix(*shape)) <= BOARD_NUM_COLS,
        y + shape@.len() <= BOARD_NUM_ROWS,
    ensures
        matrix(*final(grid)) == frozen(matrix(*old(grid)), matrix(*shape), x as int, y as int),
{
    let ghost before = matrix(*grid);
    let ghost markers = matrix(*shape);
    let mut sy: usize = 0;
    while sy < shape.len()
        invariant
            sy <= shape.len(),
            markers == matrix(*shape),
            grid_ok(before),
            grid_ok(matrix(*grid)),
            x + shape_width(markers) <= BOARD_NUM_COLS,
            y + shape@.len() <= BOARD_NUM_ROWS,
            forall|row: int, col: int|
                0 <= row < BOARD_NUM_ROWS && 0 <= col < BOARD_NUM_COLS ==> #[trigger] matrix(*grid)[row][col] == (
                before[row][col] || (row - y < sy && covers(markers, x as int, y as int, row, col))),
        decreases shape.len() - sy,
    {
        let row = &shape[sy];
        proof {
            lemma_rows_within_width(markers, sy as int);
        }
        let mut sx: usize = 0;
        while sx < row.len()
            invariant
                sy < shape.len(),
                sx <= row.len(),
                row@ == markers[sy as int],
                markers == matrix(*shape),
                grid_ok(before),
                grid_ok(matrix(*grid)),
                x + row@.len() <= BOARD_NUM_COLS,
                y + shape@.len() <= BOARD_NUM_ROWS,
                forall|row: int, col: int|
                    0 <= row < BOARD_NUM_ROWS && 0 <= col < BOARD_NUM_COLS ==> #[trigger] matrix(
                        *grid,
                    )[row][col] == (before[row][col] || ((row - y < sy || (row - y == sy && col - x < sx))
                        && covers(markers, x as int, y as int, row, col))),
            decreases row.len() - sx,
        {
            if row[sx] != O {
                assert(matrix(*grid)[y + sy] == grid@[y + sy]@);
                settle_cell(grid, y + sy, x + sx);
            }
            sx += 1;
        }
        sy += 1;
    }
    assert(matrix(*grid) =~~= frozen(before, markers, x as int, y as int));
}

/// Whether every cell of a row is settled.
fn row_is_full(row: &Vec<bool>) -> (full: bool)
    ensures
        full == row_full(row@),
{
    let mut col: usize = 0;
    while col < row.len()
        invariant
            col <= row.len(),
            forall|c: int| 0 <= c < col ==> row@[c],
        decreases row.len() - col,
    {
        if !row[col] {
            return false;
        }
        col += 1;
    }
    true
}

/// Takes the full rows out of the grid and puts as many empty rows on
/// top. Returns how many there were.
fn clear_full_rows(grid: &mut Vec<Vec<bool>>) -> (count: usize)
    requires
        grid_ok(matrix(*old(grid))),
    ensures
        matrix(*final(grid)) == cleared(matrix(*old(grid))),
        count == full_rows(matrix(*old(grid))),
{
    let ghost before = matrix(*grid);
    let mut count: usize = 0;
    let mut index: usize = 0;
    while index < grid.len()
        invariant
            index <= grid@.len(),
            grid@.len() == before.len(),
            count <= index,
            count + kept_rows(before.take(index as int)).len() == index,
            matrix(*grid) == Seq::new(count as nat, |row: int| empty_row()) + kept_rows(
                before.take(index as int),
            ) + before.skip(index as int),
        decreases grid@.len() - index,
    {
        let ghost rows = matrix(*grid);
        let ghost kept = kept_rows(before.take(index as int));
        assert(before.take(index + 1).drop_last() =~= before.take(index as int));
        assert(before.take(index + 1).last() == before[index as int]);
        assert(rows[index as int] == before[index as int]);
        assert(rows[index as int] == grid@[index as int]@);
        if row_is_full(&grid[index]) {
            grid.remove(index);
            grid.insert(0, empty_grid_row());
            count += 1;
            let ghost target = Seq::new(count as nat, |row: int| empty_row()) + kept + before.skip(index + 1);
            assert forall|i: int| 0 <= i < target.len() implies matrix(*grid)[i] == target[i] by {
                if i >= 1 {
                    assert(matrix(*grid)[i] == rows[if i <= index {
                        i - 1
                    } else {
                        i
                    }]);
                }
            }
            assert(matrix(*grid) =~= target);
        } else {
            assert(rows =~= Seq::new(count as nat, |row: int| empty_row()) + kept.push(before[index as int])
                + before.skip(index + 1));
        }
        index += 1;
    }
    assert(before.take(index as int) =~= before);
    assert(matrix(*grid) =~= cleared(before));
    count
}

impl Board {
    /// Whether the board is in a state that a game can be in.
    pub open spec fn wf(&self) -> bool {
        self@.wf()
    }

    /// A board for a new game with cells of the default width, around
    /// two pieces of randomly drawn kinds. With `debug_mode` the grid is
    /// shown a second time beside the board.
    pub fn new(debug_mode: bool) -> (board: Self)
        ensures
            board.wf(),
            board@.piece_in_grid(),
            exists|first: u32, second: u32|
                board@ == opening(
                    debug_mode,
                    PIXEL_SIZE as nat,
                    canonical_block(kind_drawn(first), PIXEL_SIZE as nat),
                    canonical_block(kind_drawn(second), PIXEL_SIZE as nat),
                ),
    {
        let current_block = randomize_block_scaled(PIXEL_SIZE);
        let next_block = randomize_block_scaled(PIXEL_SIZE);
        proof {
            let first = choose|draw: u32| current_block@ == canonical_block(kind_drawn(draw), PIXEL_SIZE as nat);
            let second = choose|draw: u32| next_block@ == canonical_block(kind_drawn(draw), PIXEL_SIZE as nat);
            lemma_canonical_suits(kind_drawn(first), PIXEL_SIZE as nat);
            lemma_canonical_suits(kind_drawn(second), PIXEL_SIZE as nat);
            lemma_empty_grid_in_cells(BOARD_NUM_ROWS as nat, PIXEL_SIZE as nat);
        }
        let ghost first = current_block@;
        let ghost second = next_block@;
        let board = Self {
            grid: empty_grid(),
            current_block,
            next_block,
            move_timer: Timer::from_millis(START_SPEED),
            top_x: 0,
            top_y: 0,
            current_speed: START_SPEED,
            debug_mode,
            cell_width: PIXEL_SIZE,
        };
        assert(board@ == opening(debug_mode, PIXEL_SIZE as nat, first, second));
        board
    }

    /// A board for a new game with cells of the given width, around two
    /// pieces of randomly drawn kinds; none where a board cannot have
    /// that cell width.
    pub fn with_cell_width(debug_mode: bool, cell_width: usize) -> (made: Option<Self>)
        ensures
            made.is_some() == cell_width_ok(cell_width as nat),
            made matches Some(board) ==> board.wf() && board@.piece_in_grid() && exists|first: u32, second: u32|
                board@ == opening(
                    debug_mode,
                    cell_width as nat,
                    canonical_block(kind_drawn(first), cell_width as nat),
                    canonical_block(kind_drawn(second), cell_width as nat),
                ),
    {
        if !cell_width_fits(cell_width) {
            return None;
        }
        let current_block = randomize_block_scaled(cell_width);
        let next_block = randomize_block_scaled(cell_width);
        proof {
            let first = choose|draw: u32| current_block@ == canonical_block(kind_drawn(draw), cell_width as nat);
            let second = choose|draw: u32| next_block@ == canonical_block(kind_drawn(draw), cell_width as nat);
            lemma_canonical_suits(kind_drawn(first), cell_width as nat);
            lemma_canonical_suits(kind_drawn(second), cell_width as nat);
            lemma_empty_grid_in_cells(BOARD_NUM_ROWS as nat, cell_width as nat);
        }
        let ghost first = current_block@;
        let ghost second = next_block@;
        let board = Self {
            grid: empty_grid(),
            current_block,
            next_block,
            move_timer: Timer::from_millis(START_SPEED),
            top_x: 0,
            top_y: 0,
            current_speed: START_SPEED,
            debug_mode,
            cell_width,
        };
        assert(board@ == opening(debug_mode, cell_width as nat, first, second));
        Some(board)
    }

    /// A board at the start of its countdown around the given settled
    /// cells and pieces; none where those cannot make up a board.
    pub fn from_parts(debug_mode: bool, grid: Vec<Vec<bool>>, current_block: Block, next_block: Block) -> (made:
        Option<Self>)
        ensures
            made.is_some() == playable(matrix(grid), current_block@, next_block@),
            made matches Some(board) ==> board.wf() && board@.piece_in_grid() && board@ == (BoardView {
                grid: matrix(grid),
                ..opening(debug_mode, current_block@.cell_width, current_block@, next_block@)
            }),
    {
        let cell_width = current_block.cell_width();
        if !grid_fits(&grid) || !cell_width_fits(cell_width) {
            return None;
        }
        if !grid_is_in_cells(&grid, cell_width) {
            return None;
        }
        if !piece_fits(&current_block, cell_width) || !piece_fits(&next_block, cell_width) {
            return None;
        }
        Some(
            Self {
                grid,
                current_block,
                next_block,
                move_timer: Timer::from_millis(START_SPEED),
                top_x: 0,
                top_y: 0,
                current_speed: START_SPEED,
                debug_mode,
                cell_width,
            },
        )
    }

    /// Lets the countdown run out with the next lapse of time, however
    /// short, so that the piece falls then.
    pub fn speed_up(&mut self)
        requires
            old(self).wf(),
        ensures
            final(self).wf(),
            final(self)@ == (BoardView { time_left: 0, ..old(self)@ }),
    {
        self.move_timer = Timer::from_millis(0);
    }

    /// Cuts the time between two falls by the delta and sets the
    /// countdown to it, unless the time is at its floor already.
    pub fn increase_speed(&mut self)
        requires
            old(self).wf(),
        ensures
            final(self).wf(),
            final(self)@ == old(self)@.sped_up(),
    {
        if self.current_speed > FASTEST_SPEED {
            self.current_speed -= SPEED_DELTA;
            self.move_timer = Timer::from_millis(self.current_speed);
        }
    }

    /// Lets time pass on the countdown. Where it runs out it is set
    /// again to the time between two falls.
    fn tick(&mut self, delta: Duration) -> (due: bool)
        requires
            old(self).wf(),
        ensures
            final(self).wf(),
            due == old(self)@.due(duration_nanos(delta)),
            due ==> final(self)@ == old(self)@.rearmed(),
            !due ==> final(self)@ == (BoardView {
                time_left: (old(self)@.time_left - duration_nanos(delta)) as nat,
                ..old(self)@
            }),
    {
        self.move_timer.update(delta);
        if timer_is_ready(&self.move_timer) {
            self.move_timer = Timer::from_millis(self.current_speed);
            true
        } else {
            false
        }
    }

    /// Settles the falling piece, lets the piece after it fall in its
    /// place, and takes `fresh` as the piece after that.
    fn land(&mut self, fresh: Block)
        requires
            old(self).wf(),
            old(self)@.piece_in_grid(),
            suits(fresh@, old(self)@.cell_width),
            placed(fresh@),
        ensures
            final(self).wf(),
            final(self)@.piece_in_grid(),
            final(self)@ == old(self)@.landed(fresh@),
    {
        self.freeze_block();
        std::mem::swap(&mut self.current_block, &mut self.next_block);
        self.next_block = fresh;
    }

    /// Whether `delta` can pass: where the countdown runs out with it,
    /// the piece lies within the grid.
    pub fn can_update(&self, delta: Duration) -> (ok: bool)
        requires
            self.wf(),
        ensures
            ok == self@.can_pass(duration_nanos(delta)),
    {
        let mut probe = timer_copy(&self.move_timer);
        probe.update(delta);
        !timer_is_ready(&probe) || self.piece_in_grid()
    }

    /// Lets `delta` pass. When the countdown runs out, it is set again
    /// and the piece falls by a row; where it cannot, it settles, the
    /// piece after it takes its place and a piece of a randomly drawn
    /// kind comes after that. Returns whether the piece has landed.
    pub fn update(&mut self, delta: Duration) -> (landed: bool)
        requires
            old(self).wf(),
            old(self)@.can_pass(duration_nanos(delta)),
        ensures
            final(self).wf(),
            final(self)@.piece_in_grid() == (old(self)@.due(duration_nanos(delta)) || old(
                self,
            )@.piece_in_grid()),
            landed == old(self)@.lands(duration_nanos(delta)),
            exists|draw: u32|
                final(self)@ == old(self)@.after_update(
                    duration_nanos(delta),
                    canonical_block(kind_drawn(draw), old(self)@.cell_width),
                ),
    {
        if self.tick(delta) {
            if !self.move_block_down() {
                let fresh = randomize_block_scaled(self.cell_width);
                proof {
                    let draw = choose|draw: u32|
                        fresh@ == canonical_block(kind_drawn(draw), self@.cell_width);
                    lemma_canonical_suits(kind_drawn(draw), self@.cell_width);
                }
                self.land(fresh);
                return true;
            }
        }
        assert(final(self)@ == old(self)@.after_update(
            duration_nanos(delta),
            canonical_block(kind_drawn(0), old(self)@.cell_width),
        ));
        false
    }

    /// As `update`, with the number that picks the kind of the fresh
    /// piece given instead of drawn.
    pub fn update_with(&mut self, delta: Duration, draw: u32) -> (landed: bool)
        requires
            old(self).wf(),
            old(self)@.can_pass(duration_nanos(delta)),
        ensures
            final(self).wf(),
            final(self)@.piece_in_grid() == (old(self)@.due(duration_nanos(delta)) || old(
                self,
            )@.piece_in_grid()),
            landed == old(self)@.lands(duration_nanos(delta)),
            final(self)@ == old(self)@.after_update(
                duration_nanos(delta),
                canonical_block(kind_drawn(draw), old(self)@.cell_width),
            ),
    {
        if self.tick(delta) {
            if !self.move_block_down() {
                proof {
                    lemma_canonical_suits(kind_drawn(draw), self@.cell_width);
                }
                self.land(build_block_scaled(kind_for_draw(draw), self.cell_width));
                return true;
            }
        }
        false
    }

    /// Settles the falling piece where it stands: every cell under one
    /// of its filled markers becomes settled, and no cell is unsettled.
    pub fn freeze_block(&mut self)
        requires
            old(self).wf(),
            old(self)@.piece_in_grid(),
        ensures
            final(self).wf(),
            final(self)@ == old(self)@.with_piece_frozen(),
    {
        let x = self.current_block.current_x();
        let y = self.current_block.current_y();
        proof {
            let piece = self@.current;
            assert(shape_in_cells(piece.shapes[piece.rotation as int], self@.cell_width));
            law_freezing_keeps_cells(self@.grid, piece.shape(), piece.x, piece.y, self@.cell_width);
        }
        settle_shape(&mut self.grid, self.current_block.get_current_frame(), x, y);
    }

    /// Whether the falling piece cannot be pushed one step in the given
    /// direction. The edge of the grid is looked at first, the settled
    /// cells after it.
    pub fn detect_collision(&mut self, direction: Direction) -> (blocked: bool)
        requires
            old(self).wf(),
            old(self)@.piece_in_grid(),
        ensures
            *final(self) == *old(self),
            blocked == old(self)@.collides(direction),
    {
        let x = self.current_block.current_x();
        let y = self.current_block.current_y();
        let width = self.current_block.get_width();
        let row_index = self.current_block.lower_y() + self.get_upper_offset();
        match direction {
            Direction::Down => {
                if row_index == self.get_bottom_offset() {
                    return true;
                }
                shape_overlaps(&self.grid, self.current_block.get_current_frame(), x, y + 1)
            },
            Direction::Left => {
                if x + self.top_x == self.get_left_offset() {
                    return true;
                }
                shape_starts_touch(&self.grid, self.current_block.get_current_frame(), x - 1, y)
            },
            Direction::Right => {
                if x + width + self.top_x == self.get_right_offset() {
                    return true;
                }
                proof {
                    let piece = self@.current;
                    lemma_room_for_a_cell(piece.x, piece.width(), BOARD_NUM_COLS as nat, piece.cell_width);
                }
                shape_starts_touch(&self.grid, self.current_block.get_current_frame(), x + self.cell_width, y)
            },
        }
    }

    /// Whether the game is lost: the falling piece still stands in the
    /// top row and cannot move down.
    pub fn board_is_full(&mut self) -> (full: bool)
        requires
            old(self).wf(),
        ensures
            *final(self) == *old(self),
            full == old(self)@.is_full(),
    {
        if self.current_block.current_y() != 0 {
            return false;
        }
        proof {
            let piece = self@.current;
            assert(piece.shapes[piece.rotation as int].len() <= BOARD_NUM_ROWS);
        }
        self.detect_collision(Direction::Down)
    }

    /// Canvas column of the left edge of the board.
    pub fn get_left_offset(&self) -> (column: usize)
        ensures
            column == self@.top_x,
    {
        self.top_x
    }

    /// Canvas column just right of the grid.
    pub fn get_right_offset(&self) -> (column: usize)
        requires
            self@.top_x + BOARD_NUM_COLS <= usize::MAX,
        ensures
            column == self@.top_x + BOARD_NUM_COLS,
    {
        self.get_left_offset() + BOARD_NUM_COLS
    }

    /// Canvas row just below the grid.
    pub fn get_bottom_offset(&self) -> (row: usize)
        requires
            self@.top_y + BOARD_NUM_ROWS <= usize::MAX,
        ensures
            row == self@.top_y + BOARD_NUM_ROWS,
    {
        self.get_upper_offset() + BOARD_NUM_ROWS
    }

    /// Canvas row of the top edge of the board.
    pub fn get_upper_offset(&self) -> (row: usize)
        ensures
            row == self@.top_y,
    {
        self.top_y
    }

    /// Pushes the falling piece a row down unless it collides. Returns
    /// whether it has moved.
    pub fn move_block_down(&mut self) -> (moved: bool)
        requires
            old(self).wf(),
            old(self)@.piece_in_grid(),
        ensures
            final(self).wf(),
            final(self)@.piece_in_grid(),
            moved == !old(self)@.collides(Direction::Down),
            final(self)@ == old(self)@.after_push(Direction::Down),
    {
        if !self.detect_collision(Direction::Down) {
            self.current_block.move_down();
            return true;
        }
        false
    }

    /// Pushes the falling piece a cell to the right unless it collides.
    /// Returns whether it has moved.
    pub fn move_block_right(&mut self) -> (moved: bool)
        requires
            old(self).wf(),
            old(self)@.piece_in_grid(),
        ensures
            final(self).wf(),
            final(self)@.piece_in_grid(),
            moved == !old(self)@.collides(Direction::Right),
            final(self)@ == old(self)@.after_push(Direction::Right),
    {
        if !self.detect_collision(Direction::Right) {
            proof {
                let piece = self@.current;
                lemma_cell_steps(piece.x, piece.cell_width);
                lemma_room_for_a_cell(piece.x, piece.width(), BOARD_NUM_COLS as nat, piece.cell_width);
            }
            self.current_block.move_right();
            return true;
        }
        false
    }

    /// Pushes the falling piece a cell to the left unless it collides.
    /// Returns whether it has moved.
    pub fn move_block_left(&mut self) -> (moved: bool)
        requires
            old(self).wf(),
            old(self)@.piece_in_grid(),
        ensures
            final(self).wf(),
            final(self)@.piece_in_grid(),
            moved == !old(self)@.collides(Direction::Left),
            final(self)@ == old(self)@.after_push(Direction::Left),
    {
        if !self.detect_collision(Direction::Left) {
            proof {
                lemma_cell_steps(self@.current.x, self@.current.cell_width);
            }
            self.current_block.move_left();
            return true;
        }
        false
    }

    /// Turns the falling piece on to its next shape, whatever cells are
    /// settled around it, and then shifts it left, cell by cell, for as
    /// long as it reaches beyond the right edge of the grid. The turn is
    /// always made. It can take the piece below the floor: then the
    /// piece is no longer within the grid.
    pub fn rotate(&mut self) -> (turned: bool)
        requires
            old(self).wf(),
        ensures
            turned,
            final(self).wf(),
            final(self)@ == old(self)@.turned(),
            final(self)@.piece_in_grid() == old(self)@.can_turn(),
    {
        self.current_block.rotate();
        let ghost piece = self.current_block@;
        let left = self.get_left_offset();
        let right = self.get_right_offset();
        while self.current_block.current_x() + self.current_block.get_width() + left > right
            invariant
                left == old(self)@.top_x,
                right == left + BOARD_NUM_COLS,
                self.current_block@ == piece.at(self.current_block@.x, piece.y),
                self.current_block@.x % piece.cell_width == 0,
                self.current_block@.x <= piece.x,
                kicked_x(self.current_block@.x, piece.width(), piece.cell_width) == kicked_x(
                    piece.x,
                    piece.width(),
                    piece.cell_width,
                ),
                piece == old(self)@.current.rotated(),
                suits(piece, old(self)@.cell_width),
                old(self).wf(),
                piece.x + piece.width() <= usize::MAX,
                *self == (Board { current_block: self.current_block, ..*old(self) }),
            decreases self.current_block@.x,
        {
            proof {
                lemma_cell_steps(self.current_block@.x, piece.cell_width);
            }
            self.current_block.move_left();
        }
        true
    }

    /// Whether the falling piece ends above the floor.
    pub fn piece_in_grid(&self) -> (inside: bool)
        requires
            self.wf(),
        ensures
            inside == self@.piece_in_grid(),
    {
        proof {
            let piece = self@.current;
            assert(piece.shapes[piece.rotation as int].len() <= BOARD_NUM_ROWS);
        }
        self.current_block.current_y() + self.current_block.get_current_frame().len() <= BOARD_NUM_ROWS
    }

    /// Takes every full row out of the grid and puts an empty row on top
    /// for each, so that the rows above a full one come down by one.
    /// Returns the number of rows taken out.
    pub fn check_completed_lines(&mut self) -> (count: usize)
        requires
            old(self).wf(),
        ensures
            final(self).wf(),
            count == full_rows(old(self)@.grid),
            final(self)@ == old(self)@.with_lines_cleared(),
    {
        proof {
            lemma_cleared_dimensions(self@.grid);
            law_clearing_keeps_cells(self@.grid, self@.cell_width);
        }
        clear_full_rows(&mut self.grid)
    }

    /// The settled cells, row by row.
    pub fn grid(&self) -> (grid: &Vec<Vec<bool>>)
        ensures
            matrix(*grid) == self@.grid,
    {
        &self.grid
    }

    /// The falling piece.
    pub fn current_block(&self) -> (piece: &Block)
        ensures
            piece@ == self@.current,
    {
        &self.current_block
    }

    /// The piece that falls next.
    pub fn next_block(&self) -> (piece: &Block)
        ensures
            piece@ == self@.next,
    {
        &self.next_block
    }

    /// Whether the grid is shown a second time beside the board.
    pub fn debug_mode(&self) -> (debug: bool)
        ensures
            debug == self@.debug,
    {
        self.debug_mode
    }

    /// Milliseconds between two falls.
    pub fn current_speed(&self) -> (ms: u64)
        ensures
            ms == self@.interval,
    {
        self.current_speed
    }

    /// Number of display columns that one logical cell takes.
    pub fn cell_width(&self) -> (width: usize)
        ensures
            width == self@.cell_width,
    {
        self.cell_width
    }
}

} // verus!
