//! Grids and shapes made of whole cells.
//!
//! A logical cell takes several display columns. A grid or a shape is
//! made of whole cells when the columns of each cell agree. A board is
//! always so; the laws below show that settling and clearing keep it
//! so, and that a push which finds no collision moves the piece onto
//! free cells only.

use vstd::prelude::*;
use vstd::arithmetic::div_mod::{
    lemma_fundamental_div_mod,
    lemma_fundamental_div_mod_converse,
    lemma_mod_bound,
    lemma_mod_multiples_basic,
    lemma_mod_multiples_vanish,
    lemma_small_mod,
};
use crate::block::{
    canonical_block,
    canonical_cells,
    cell_markers,
    lemma_rows_within_width,
    lemma_scaled_row_len,
    scaled_row,
    scaled_shape,
    shape_width,
    BlockType,
    BlockView,
};
use crate::frame::{O, X, Y};
use crate::board::{
    cleared,
    starts_touch,
    touches,
    covers,
    empty_row,
    filled,
    frozen,
    full_rows,
    grid_ok,
    hits,
    kept_rows,
    lemma_cell_steps,
    lemma_room_for_a_cell,
    overlaps,
    BoardView,
    Direction,
    BOARD_NUM_COLS,
};

verus! {

/// The first display column of the logical cell that a column lies in.
pub open spec fn cell_start(col: int, cell_width: nat) -> int {
    col - col % (cell_width as int)
}

/// Whether the columns of every logical cell of a row agree.
pub open spec fn row_in_cells(row: Seq<bool>, cell_width: nat) -> bool {
    forall|col: int| 0 <= col < row.len() ==> #[trigger] row[col] == row[cell_start(col, cell_width)]
}

/// Whether a grid is made of whole cells.
pub open spec fn grid_in_cells(grid: Seq<Seq<bool>>, cell_width: nat) -> bool {
    forall|row: int| 0 <= row < grid.len() ==> row_in_cells(#[trigger] grid[row], cell_width)
}

/// Whether a row of markers is a whole number of cells long, the
/// markers of every cell are all filled or all empty, and `X` stands in
/// the first column of every filled cell and nowhere else.
pub open spec fn markers_in_cells(row: Seq<char>, cell_width: nat) -> bool {
    &&& row.len() % cell_width == 0
    &&& forall|sx: int|
        0 <= sx < row.len() ==> {
            &&& filled(#[trigger] row[sx]) == filled(row[cell_start(sx, cell_width)])
            &&& row[sx] == X <==> filled(row[sx]) && sx % (cell_width as int) == 0
        }
}

/// Whether a shape is made of whole cells.
pub open spec fn shape_in_cells(shape: Seq<Seq<char>>, cell_width: nat) -> bool {
    forall|sy: int| 0 <= sy < shape.len() ==> markers_in_cells(#[trigger] shape[sy], cell_width)
}

/// Whether all four shapes of a piece are made of whole cells.
pub open spec fn piece_in_cells(piece: BlockView, cell_width: nat) -> bool {
    forall|rotation: int| 0 <= rotation < 4 ==> shape_in_cells(#[trigger] piece.shapes[rotation], cell_width)
}

/// The start of a cell is a whole number of cells from the first column,
/// at most a column's own place and less than a cell before it.
pub proof fn lemma_cell_start(col: int, cell_width: nat)
    requires
        cell_width >= 1,
        col >= 0,
    ensures
        0 <= cell_start(col, cell_width) <= col,
        col - cell_start(col, cell_width) < cell_width,
        cell_start(col, cell_width) % (cell_width as int) == 0,
{
    let w = cell_width as int;
    lemma_mod_bound(col, w);
    lemma_fundamental_div_mod(col, w);
    assert(cell_start(col, cell_width) == w * (col / w));
    lemma_mod_multiples_basic(col / w, w);
    assert(w * (col / w) == (col / w) * w) by (nonlinear_arith);
    if col / w < 0 {
        assert(w * (col / w) < 0) by (nonlinear_arith)
            requires
                w >= 1,
                col / w < 0,
        ;
    }
}

/// Cells counted from a column that starts a cell start where the cells
/// counted from the first column do, shifted.
pub proof fn lemma_cell_start_shifted(base: int, col: int, cell_width: nat)
    requires
        cell_width >= 1,
        base % (cell_width as int) == 0,
    ensures
        cell_start(base + col, cell_width) == base + cell_start(col, cell_width),
{
    let w = cell_width as int;
    lemma_fundamental_div_mod(base, w);
    lemma_mod_multiples_vanish(base / w, col, w);
}

/// The last column of a cell lies in that cell.
pub proof fn lemma_cell_end(start: int, cell_width: nat)
    requires
        cell_width >= 1,
        start % (cell_width as int) == 0,
    ensures
        cell_start(start + cell_width - 1, cell_width) == start,
{
    lemma_cell_start_shifted(start, cell_width - 1, cell_width);
    lemma_small_mod((cell_width - 1) as nat, cell_width);
}

/// A whole number of cells that ends at or before a column ends at or
/// before the cell of that column.
pub proof fn lemma_cells_before(limit: int, col: int, cell_width: nat)
    requires
        cell_width >= 1,
        limit % (cell_width as int) == 0,
        0 <= limit <= col,
    ensures
        limit <= cell_start(col, cell_width),
{
    lemma_cell_start_shifted(limit, col - limit, cell_width);
    lemma_cell_start(col - limit, cell_width);
}

/// In a row of cells written out in markers, a marker is `O` where its
/// cell is empty, `X` in the first column of a filled cell and `Y` in
/// its other columns.
pub proof fn lemma_scaled_row_markers(cells: Seq<bool>, cell_width: nat, sx: int)
    requires
        cell_width >= 1,
        0 <= sx < scaled_row(cells, cell_width).len(),
    ensures
        0 <= sx / (cell_width as int) < cells.len(),
        scaled_row(cells, cell_width)[sx] == if !cells[sx / (cell_width as int)] {
            O
        } else if sx % (cell_width as int) == 0 {
            X
        } else {
            Y
        },
    decreases cells.len(),
{
    let w = cell_width as int;
    lemma_scaled_row_len(cells, cell_width);
    if cells.len() > 0 {
        let rest = cells.drop_last();
        lemma_scaled_row_len(rest, cell_width);
        if sx < scaled_row(rest, cell_width).len() {
            lemma_scaled_row_markers(rest, cell_width, sx);
        } else {
            let k = sx - rest.len() * cell_width;
            assert(rest.len() * cell_width + cell_width == cells.len() * cell_width) by (nonlinear_arith)
                requires
                    rest.len() + 1 == cells.len(),
            ;
            lemma_fundamental_div_mod_converse(sx, w, rest.len() as int, k);
            assert(scaled_row(cells, cell_width)[sx] == cell_markers(cells.last(), cell_width)[k]);
        }
    }
}

/// A row of cells written out in markers is made of whole cells.
pub proof fn lemma_scaled_row_in_cells(cells: Seq<bool>, cell_width: nat)
    requires
        cell_width >= 1,
    ensures
        markers_in_cells(scaled_row(cells, cell_width), cell_width),
{
    let w = cell_width as int;
    let row = scaled_row(cells, cell_width);
    lemma_scaled_row_len(cells, cell_width);
    lemma_mod_multiples_basic(cells.len() as int, w);
    assert forall|sx: int| 0 <= sx < row.len() implies {
        &&& filled(#[trigger] row[sx]) == filled(row[cell_start(sx, cell_width)])
        &&& row[sx] == X <==> filled(row[sx]) && sx % w == 0
    } by {
        let start = cell_start(sx, cell_width);
        lemma_cell_start(sx, cell_width);
        lemma_scaled_row_markers(cells, cell_width, sx);
        lemma_scaled_row_markers(cells, cell_width, start);
        lemma_fundamental_div_mod(sx, w);
        lemma_fundamental_div_mod_converse(start, w, sx / w, 0);
    }
}

/// Logical cells written out in markers make a shape of whole cells.
pub proof fn law_scaled_shapes_in_cells(cells: Seq<Seq<bool>>, cell_width: nat)
    requires
        cell_width >= 1,
    ensures
        shape_in_cells(scaled_shape(cells, cell_width), cell_width),
{
    let shape = scaled_shape(cells, cell_width);
    assert forall|sy: int| 0 <= sy < shape.len() implies markers_in_cells(#[trigger] shape[sy], cell_width) by {
        lemma_scaled_row_in_cells(cells[sy], cell_width);
    }
}

/// A row without a settled cell is made of whole cells.
pub proof fn lemma_empty_row_in_cells(cell_width: nat)
    requires
        cell_width >= 1,
    ensures
        row_in_cells(empty_row(), cell_width),
{
    assert forall|col: int| 0 <= col < empty_row().len() implies #[trigger] empty_row()[col] == empty_row()[cell_start(
        col,
        cell_width,
    )] by {
        lemma_cell_start(col, cell_width);
    }
}

/// A grid without a settled cell is made of whole cells.
pub proof fn lemma_empty_grid_in_cells(rows: nat, cell_width: nat)
    requires
        cell_width >= 1,
    ensures
        grid_in_cells(Seq::new(rows, |row: int| empty_row()), cell_width),
{
    let grid = Seq::new(rows, |row: int| empty_row());
    lemma_empty_row_in_cells(cell_width);
    assert forall|row: int| 0 <= row < grid.len() implies row_in_cells(#[trigger] grid[row], cell_width) by {
        assert(grid[row] == empty_row());
    }
}

/// The rows that are kept of a grid of whole cells are made of whole
/// cells.
pub proof fn lemma_kept_rows_in_cells(grid: Seq<Seq<bool>>, cell_width: nat)
    requires
        grid_in_cells(grid, cell_width),
    ensures
        grid_in_cells(kept_rows(grid), cell_width),
    decreases grid.len(),
{
    if grid.len() > 0 {
        let rest = kept_rows(grid.drop_last());
        assert forall|row: int| 0 <= row < grid.drop_last().len() implies row_in_cells(
            #[trigger] grid.drop_last()[row],
            cell_width,
        ) by {
            assert(grid.drop_last()[row] == grid[row]);
        }
        lemma_kept_rows_in_cells(grid.drop_last(), cell_width);
        assert(row_in_cells(grid[grid.len() - 1], cell_width));
        assert forall|row: int| 0 <= row < kept_rows(grid).len() implies row_in_cells(
            #[trigger] kept_rows(grid)[row],
            cell_width,
        ) by {
            if row < rest.len() {
                assert(kept_rows(grid)[row] == rest[row]);
            }
        }
    }
}

/// Clearing the full rows of a grid of whole cells leaves a grid of
/// whole cells.
pub proof fn law_clearing_keeps_cells(grid: Seq<Seq<bool>>, cell_width: nat)
    requires
        cell_width >= 1,
        grid_in_cells(grid, cell_width),
    ensures
        grid_in_cells(cleared(grid), cell_width),
{
    lemma_kept_rows_in_cells(grid, cell_width);
    lemma_empty_row_in_cells(cell_width);
    assert forall|row: int| 0 <= row < cleared(grid).len() implies row_in_cells(
        #[trigger] cleared(grid)[row],
        cell_width,
    ) by {
        if row >= full_rows(grid) {
            assert(cleared(grid)[row] == kept_rows(grid)[row - full_rows(grid)]);
        }
    }
}

/// A shape of whole cells that settles on a whole cell leaves a grid of
/// whole cells.
pub proof fn law_freezing_keeps_cells(grid: Seq<Seq<bool>>, shape: Seq<Seq<char>>, x: nat, y: nat, cell_width: nat)
    requires
        cell_width >= 1,
        x % cell_width == 0,
        grid_in_cells(grid, cell_width),
        shape_in_cells(shape, cell_width),
    ensures
        grid_in_cells(frozen(grid, shape, x as int, y as int), cell_width),
{
    let after = frozen(grid, shape, x as int, y as int);
    assert forall|row: int| 0 <= row < after.len() implies row_in_cells(#[trigger] after[row], cell_width) by {
        assert(row_in_cells(grid[row], cell_width));
        assert forall|col: int| 0 <= col < after[row].len() implies #[trigger] after[row][col] == after[row][cell_start(
            col,
            cell_width,
        )] by {
            let start = cell_start(col, cell_width);
            lemma_cell_start(col, cell_width);
            assert(grid[row][col] == grid[row][start]);
            if 0 <= row - y < shape.len() {
                let markers = shape[row - y];
                assert(markers_in_cells(markers, cell_width));
                if col >= x {
                    lemma_cell_start_shifted(x as int, col - x, cell_width);
                    lemma_cell_start(col - x, cell_width);
                    if col - x < markers.len() {
                        assert(filled(markers[col - x]) == filled(markers[cell_start(col - x, cell_width)]));
                    } else {
                        lemma_cells_before(markers.len() as int, col - x, cell_width);
                    }
                }
            }
            assert(covers(shape, x as int, y as int, row, col) == covers(shape, x as int, y as int, row, start));
        }
    }
}

/// Where grid and shape are made of whole cells, a filled cell has a
/// settled cell to its left exactly when the shape, one cell further
/// left, lies on a settled cell.
pub proof fn law_left_touch_is_overlap(grid: Seq<Seq<bool>>, shape: Seq<Seq<char>>, x: nat, y: nat, cell_width: nat)
    requires
        cell_width >= 1,
        x % cell_width == 0,
        x >= cell_width,
        grid_ok(grid),
        x + shape_width(shape) <= BOARD_NUM_COLS,
        grid_in_cells(grid, cell_width),
        shape_in_cells(shape, cell_width),
    ensures
        starts_touch(grid, shape, x - 1, y as int) <==> overlaps(grid, shape, x - cell_width, y as int),
{
    let w = cell_width as int;
    let left = x - w;
    let beside = x - 1;
    let top = y as int;
    lemma_mod_multiples_vanish(-1, x as int, w);
    assert(left % w == 0);
    assert forall|sy: int, sx: int| #[trigger] hits(grid, shape, left, top, sy, sx) implies starts_touch(
        grid,
        shape,
        beside,
        top,
    ) by {
        let markers = shape[sy];
        let cells = grid[y + sy];
        let start = cell_start(sx, cell_width);
        lemma_rows_within_width(shape, sy);
        assert(markers_in_cells(markers, cell_width));
        assert(row_in_cells(cells, cell_width));
        lemma_cell_start(sx, cell_width);
        assert(filled(markers[start]));
        lemma_cell_start_shifted(left, sx, cell_width);
        assert(cells[left + sx] == cells[left + start]);
        lemma_cell_start_shifted(left, start, cell_width);
        assert((left + start) % w == 0);
        lemma_cell_end(left + start, cell_width);
        assert(cells[x + start - 1] == cells[cell_start(x + start - 1, cell_width)]);
        assert(touches(grid, shape, beside, top, sy, start));
    }
    assert forall|sy: int, sx: int| #[trigger] touches(grid, shape, beside, top, sy, sx) implies overlaps(
        grid,
        shape,
        left,
        top,
    ) by {
        let markers = shape[sy];
        let cells = grid[y + sy];
        assert(markers_in_cells(markers, cell_width));
        assert(row_in_cells(cells, cell_width));
        assert(filled(markers[sx]) && sx % w == 0);
        lemma_cell_start_shifted(left, sx, cell_width);
        lemma_cell_start(sx, cell_width);
        assert((left + sx) % w == 0);
        lemma_cell_end(left + sx, cell_width);
        assert(cells[x + sx - 1] == cells[cell_start(x + sx - 1, cell_width)]);
        assert(hits(grid, shape, left, top, sy, sx));
    }
}

/// Where grid and shape are made of whole cells, a filled cell has a
/// settled cell to its right exactly when the shape, one cell further
/// right, lies on a settled cell.
pub proof fn law_right_touch_is_overlap(grid: Seq<Seq<bool>>, shape: Seq<Seq<char>>, x: nat, y: nat, cell_width: nat)
    requires
        cell_width >= 1,
        x % cell_width == 0,
        grid_ok(grid),
        grid_in_cells(grid, cell_width),
        shape_in_cells(shape, cell_width),
    ensures
        starts_touch(grid, shape, (x + cell_width) as int, y as int) <==> overlaps(
            grid,
            shape,
            (x + cell_width) as int,
            y as int,
        ),
{
    let w = cell_width as int;
    let right = x + w;
    let top = y as int;
    lemma_mod_multiples_vanish(1, x as int, w);
    assert(right % w == 0);
    assert forall|sy: int, sx: int| #[trigger] hits(grid, shape, right, top, sy, sx) implies starts_touch(
        grid,
        shape,
        right,
        top,
    ) by {
        let markers = shape[sy];
        let cells = grid[y + sy];
        let start = cell_start(sx, cell_width);
        assert(markers_in_cells(markers, cell_width));
        assert(row_in_cells(cells, cell_width));
        lemma_cell_start(sx, cell_width);
        assert(filled(markers[start]));
        lemma_cell_start_shifted(right, sx, cell_width);
        assert(cells[right + sx] == cells[right + start]);
        assert(touches(grid, shape, right, top, sy, start));
    }
    assert forall|sy: int, sx: int| #[trigger] touches(grid, shape, right, top, sy, sx) implies overlaps(
        grid,
        shape,
        right,
        top,
    ) by {
        assert(markers_in_cells(shape[sy], cell_width));
        assert(hits(grid, shape, right, top, sy, sx));
    }
}

/// Whether the falling piece lies on no settled cell.
pub open spec fn clear(board: BoardView) -> bool {
    !overlaps(board.grid, board.current.shape(), board.current.x as int, board.current.y as int)
}

/// Every kind of piece is made of whole cells.
pub proof fn law_canonical_in_cells(kind: BlockType, cell_width: nat)
    requires
        cell_width >= 1,
    ensures
        piece_in_cells(canonical_block(kind, cell_width), cell_width),
{
    let piece = canonical_block(kind, cell_width);
    assert forall|rotation: int| 0 <= rotation < 4 implies shape_in_cells(
        #[trigger] piece.shapes[rotation],
        cell_width,
    ) by {
        law_scaled_shapes_in_cells(canonical_cells(kind, rotation), cell_width);
    }
}

/// The falling piece cannot be pushed sideways exactly when it stands at
/// the edge of the grid on that side or would, one cell further to that
/// side, lie on a settled cell.
pub proof fn law_side_collision(board: BoardView)
    requires
        board.wf(),
        board.piece_in_grid(),
    ensures
        board.collides(Direction::Left) <==> (board.current.x == 0 || overlaps(
            board.grid,
            board.current.shape(),
            board.current.x - board.cell_width,
            board.current.y as int,
        )),
        board.collides(Direction::Right) <==> (board.current.x + board.current.width() == BOARD_NUM_COLS
            || overlaps(
            board.grid,
            board.current.shape(),
            (board.current.x + board.cell_width) as int,
            board.current.y as int,
        )),
{
    let piece = board.current;
    assert(shape_in_cells(piece.shapes[piece.rotation as int], board.cell_width));
    lemma_cell_steps(piece.x, piece.cell_width);
    if piece.x > 0 {
        law_left_touch_is_overlap(board.grid, piece.shape(), piece.x, piece.y, board.cell_width);
    }
    law_right_touch_is_overlap(board.grid, piece.shape(), piece.x, piece.y, board.cell_width);
}

/// A piece that lies on no settled cell does not come to lie on one by
/// a push, whether the push is made or not.
pub proof fn law_push_keeps_clear(board: BoardView, direction: Direction)
    requires
        board.wf(),
        board.piece_in_grid(),
        clear(board),
    ensures
        board.after_push(direction).wf(),
        board.after_push(direction).piece_in_grid(),
        clear(board.after_push(direction)),
{
    let piece = board.current;
    law_side_collision(board);
    if !board.collides(direction) {
        lemma_cell_steps(piece.x, piece.cell_width);
        if direction == Direction::Right {
            lemma_room_for_a_cell(piece.x, piece.width(), BOARD_NUM_COLS as nat, piece.cell_width);
        }
    }
}

} // verus!
