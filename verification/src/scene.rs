//! How the board is painted onto the canvas.

use vstd::prelude::*;
use vstd::string::*;
use crate::board::{grid_ok, Board, BOARD_NUM_COLS, BOARD_NUM_ROWS};
use crate::frame::{
    canvas,
    draw_sprite,
    draw_text,
    is_canvas,
    matrix,
    painted_sprite,
    painted_text,
    put,
    sprite_fits,
    sprite_within,
    Drawable,
    Frame,
    BORDER,
    O,
    SCREEN_NUM_COLS,
    SCREEN_NUM_ROWS,
    X,
    Y,
};

verus! {

/// Number of canvas columns that a wall takes.
pub const BORDER_SIZE: usize = 1;

/// Canvas columns between the right wall and what is shown beside the
/// board.
pub const SIDE_GAP: usize = 5;

/// Canvas columns between the left edge of the board and the second
/// showing of the grid: the number of rows of the grid, and ten more.
pub const MAP_GAP: usize = 30;

/// The words above the piece that falls next.
pub open spec fn next_label() -> Seq<char> {
    seq!['N', 'e', 'x', 't', ' ', 'b', 'l', 'o', 'c', 'k', ':']
}

/// Whether a wall or the floor of a board shown at (`x`, `y`) passes
/// through the canvas position (`cx`, `cy`).
pub open spec fn on_border(x: int, y: int, cx: int, cy: int) -> bool {
    ||| (y <= cy < y + BOARD_NUM_ROWS && (cx == x || cx == x + BOARD_NUM_COLS + 1))
    ||| (cy == y + BOARD_NUM_ROWS && x <= cx < x + BOARD_NUM_COLS + 2)
}

/// The canvas after the walls and the floor of a board shown at
/// (`x`, `y`) were drawn.
pub open spec fn painted_borders(before: Seq<Seq<char>>, x: int, y: int) -> Seq<Seq<char>> {
    Seq::new(
        before.len(),
        |cx: int|
            Seq::new(
                before[cx].len(),
                |cy: int|
                    if on_border(x, y, cx, cy) {
                        BORDER
                    } else {
                        before[cx][cy]
                    },
            ),
    )
}

/// The character that a cell of the grid is shown as: `O` where nothing
/// is settled, else `X` in the first display column of a logical cell
/// and `Y` in its other columns.
pub open spec fn cell_glyph(settled: bool, col: int, cell_width: nat) -> char {
    if !settled {
        O
    } else if col % (cell_width as int) == 0 {
        X
    } else {
        Y
    }
}

/// The canvas after a grid was drawn with its corner at (`x`, `y`).
pub open spec fn painted_grid(before: Seq<Seq<char>>, grid: Seq<Seq<bool>>, x: int, y: int, cell_width: nat) -> Seq<
    Seq<char>,
> {
    Seq::new(
        before.len(),
        |cx: int|
            Seq::new(
                before[cx].len(),
                |cy: int|
                    if 0 <= cy - y < grid.len() && 0 <= cx - x < grid[cy - y].len() {
                        cell_glyph(grid[cy - y][cx - x], cx - x, cell_width)
                    } else {
                        before[cx][cy]
                    },
            ),
    )
}

/// Draws the walls and the floor of a board shown at (`x`, `y`).
pub fn draw_borders(frame: &mut Frame, x: usize, y: usize)
    requires
        x + BOARD_NUM_COLS + 2 <= SCREEN_NUM_COLS,
        y + BOARD_NUM_ROWS < SCREEN_NUM_ROWS,
    ensures
        canvas(*final(frame)) == painted_borders(canvas(*old(frame)), x as int, y as int),
{
    let ghost before = canvas(*frame);
    let mut i: usize = 0;
    while i < BOARD_NUM_ROWS
        invariant
            i <= BOARD_NUM_ROWS,
            x + BOARD_NUM_COLS + 2 <= SCREEN_NUM_COLS,
            y + BOARD_NUM_ROWS < SCREEN_NUM_ROWS,
            is_canvas(before),
            forall|cx: int, cy: int|
                0 <= cx < SCREEN_NUM_COLS && 0 <= cy < SCREEN_NUM_ROWS ==> #[trigger] canvas(*frame)[cx][cy]
                    == if y <= cy < y + i && (cx == x || cx == x + BOARD_NUM_COLS + 1) {
                    BORDER
                } else {
                    before[cx][cy]
                },
        decreases BOARD_NUM_ROWS - i,
    {
        put(frame, x, i + y, BORDER);
        put(frame, x + BOARD_NUM_COLS + 1, i + y, BORDER);
        i += 1;
    }
    let mut i: usize = 0;
    while i < BOARD_NUM_COLS + 2
        invariant
            i <= BOARD_NUM_COLS + 2,
            x + BOARD_NUM_COLS + 2 <= SCREEN_NUM_COLS,
            y + BOARD_NUM_ROWS < SCREEN_NUM_ROWS,
            is_canvas(before),
            forall|cx: int, cy: int|
                0 <= cx < SCREEN_NUM_COLS && 0 <= cy < SCREEN_NUM_ROWS ==> #[trigger] canvas(*frame)[cx][cy]
                    == if (y <= cy < y + BOARD_NUM_ROWS && (cx == x || cx == x + BOARD_NUM_COLS + 1)) || (cy
                    == y + BOARD_NUM_ROWS && x <= cx < x + i) {
                    BORDER
                } else {
                    before[cx][cy]
                },
        decreases BOARD_NUM_COLS + 2 - i,
    {
        put(frame, i + x, y + BOARD_NUM_ROWS, BORDER);
        i += 1;
    }
    assert(canvas(*frame) =~~= painted_borders(before, x as int, y as int));
}

/// Draws a grid with its corner at (`x`, `y`).
pub fn draw_grid(frame: &mut Frame, grid: &Vec<Vec<bool>>, x: usize, y: usize, cell_width: usize)
    requires
        grid_ok(matrix(*grid)),
        cell_width >= 1,
        x + BOARD_NUM_COLS <= SCREEN_NUM_COLS,
        y + BOARD_NUM_ROWS <= SCREEN_NUM_ROWS,
    ensures
        canvas(*final(frame)) == painted_grid(
            canvas(*old(frame)),
            matrix(*grid),
            x as int,
            y as int,
            cell_width as nat,
        ),
{
    let ghost before = canvas(*frame);
    let ghost cells = matrix(*grid);
    let mut gy: usize = 0;
    while gy < grid.len()
        invariant
            gy <= grid@.len(),
            cells == matrix(*grid),
            grid_ok(cells),
            cell_width >= 1,
            x + BOARD_NUM_COLS <= SCREEN_NUM_COLS,
            y + BOARD_NUM_ROWS <= SCREEN_NUM_ROWS,
            is_canvas(before),
            forall|cx: int, cy: int|
                0 <= cx < SCREEN_NUM_COLS && 0 <= cy < SCREEN_NUM_ROWS ==> #[trigger] canvas(*frame)[cx][cy]
                    == if cy - y < gy {
                    painted_grid(before, cells, x as int, y as int, cell_width as nat)[cx][cy]
                } else {
                    before[cx][cy]
                },
        decreases grid@.len() - gy,
    {
        let row = &grid[gy];
        assert(row@ == cells[gy as int]);
        let mut gx: usize = 0;
        while gx < row.len()
            invariant
                gy < grid@.len(),
                gx <= row@.len(),
                row@ == cells[gy as int],
                cells == matrix(*grid),
                grid_ok(cells),
                cell_width >= 1,
                x + BOARD_NUM_COLS <= SCREEN_NUM_COLS,
                y + BOARD_NUM_ROWS <= SCREEN_NUM_ROWS,
                is_canvas(before),
                forall|cx: int, cy: int|
                    0 <= cx < SCREEN_NUM_COLS && 0 <= cy < SCREEN_NUM_ROWS ==> #[trigger] canvas(
                        *frame,
                    )[cx][cy] == if cy - y < gy || (cy - y == gy && cx - x < gx) {
                        painted_grid(before, cells, x as int, y as int, cell_width as nat)[cx][cy]
                    } else {
                        before[cx][cy]
                    },
            decreases row@.len() - gx,
        {
            let glyph = if !row[gx] {
                O
            } else if gx % cell_width == 0 {
                X
            } else {
                Y
            };
            put(frame, gx + x, gy + y, glyph);
            gx += 1;
        }
        gy += 1;
    }
    assert(canvas(*frame) =~~= painted_grid(before, cells, x as int, y as int, cell_width as nat));
}

impl Board {
    /// Whether all that is drawn of the board lies within the canvas.
    pub fn can_draw(&self) -> (ok: bool)
        requires
            self.wf(),
        ensures
            ok == self.fits_canvas(),
    {
        proof {
            reveal_strlit("Next block:");
            assert("Next block:"@ =~= next_label());
        }
        let x = self.get_left_offset();
        let y = self.get_upper_offset();
        let side = BORDER_SIZE + BOARD_NUM_COLS + SIDE_GAP;
        let piece = self.current_block();
        let next = self.next_block();
        x <= SCREEN_NUM_COLS - side - "Next block:".unicode_len() && (!self.debug_mode() || x <= SCREEN_NUM_COLS
            - MAP_GAP - BOARD_NUM_COLS) && y < SCREEN_NUM_ROWS - BOARD_NUM_ROWS && sprite_within(
            piece.get_current_frame(),
            piece.current_x() + x + BORDER_SIZE,
            piece.current_y() + y,
        ) && sprite_within(next.get_current_frame(), x + side, y + 2)
    }
}

impl Drawable for Board {
    /// The walls and the floor, the words beside the board, every
    /// character of the two pieces, and with the debug mode the second
    /// showing of the grid, all lie within the canvas.
    open spec fn fits_canvas(&self) -> bool {
        let board = self@;
        let side = board.top_x + BORDER_SIZE + BOARD_NUM_COLS + SIDE_GAP;
        &&& board.wf()
        &&& side + next_label().len() <= SCREEN_NUM_COLS
        &&& board.debug ==> board.top_x + MAP_GAP + BOARD_NUM_COLS <= SCREEN_NUM_COLS
        &&& board.top_y + BOARD_NUM_ROWS < SCREEN_NUM_ROWS
        &&& sprite_fits(
            board.current.shape(),
            board.current.x + board.top_x + BORDER_SIZE,
            (board.current.y + board.top_y) as int,
        )
        &&& sprite_fits(board.next.shape(), side as int, (board.top_y + 2) as int)
    }

    /// The walls and the floor first; with the debug mode the grid a
    /// second time, beside the board, in `X` and `O` alone; then the grid
    /// within the walls; over it the falling piece; and beside the board
    /// the words "Next block:" with the next piece two rows below them.
    open spec fn painted(&self, before: Seq<Seq<char>>) -> Seq<Seq<char>> {
        let board = self@;
        let x = board.top_x as int;
        let y = board.top_y as int;
        let side = x + BORDER_SIZE + BOARD_NUM_COLS + SIDE_GAP;
        let bordered = painted_borders(before, x, y);
        let mapped = if board.debug {
            painted_grid(bordered, board.grid, x + MAP_GAP, y, 1)
        } else {
            bordered
        };
        let gridded = painted_grid(mapped, board.grid, x + BORDER_SIZE, y, board.cell_width);
        let with_piece = painted_sprite(
            gridded,
            board.current.shape(),
            board.current.x + x + BORDER_SIZE,
            board.current.y + y,
        );
        let labelled = painted_text(with_piece, next_label(), side, y);
        painted_sprite(labelled, board.next.shape(), side, y + 2)
    }

    fn draw(&self, frame: &mut Frame) {
        let x = self.get_left_offset();
        let y = self.get_upper_offset();
        let side = x + BORDER_SIZE + BOARD_NUM_COLS + SIDE_GAP;
        draw_borders(frame, x, y);
        if self.debug_mode() {
            draw_grid(frame, self.grid(), x + MAP_GAP, y, 1);
        }
        draw_grid(frame, self.grid(), x + BORDER_SIZE, y, self.cell_width());
        let piece = self.current_block();
        let next = self.next_block();
        proof {
            reveal_strlit("Next block:");
            assert("Next block:"@ =~= next_label());
        }
        draw_sprite(
            frame,
            piece.get_current_frame(),
            piece.current_x() + x + BORDER_SIZE,
            piece.current_y() + y,
        );
        draw_text(frame, "Next block:", side, y);
        draw_sprite(frame, next.get_current_frame(), side, y + 2);
    }
}

} // verus!
