//! The falling piece: four rotation states of one shape, and a position.

use vstd::prelude::*;
use rand::rngs::OsRng;
use rand::RngCore;
use crate::frame::{matrix, O, PIXEL_SIZE, X, Y};

verus! {

/// A piece. Its shapes are fixed when it is made; only the position and
/// the rotation change afterwards.
#[derive(Clone, Debug)]
pub struct Block {
    frames: Vec<Vec<Vec<char>>>,
    x: usize,
    y: usize,
    current_frame: usize,
    cell_width: usize,
}

/// What a piece is: its four shapes, each a sequence of rows of markers,
/// the position of the upper left corner of the current shape, the index
/// of the current shape, and the number of display columns that a
/// sideways step covers.
pub ghost struct BlockView {
    pub shapes: Seq<Seq<Seq<char>>>,
    pub x: nat,
    pub y: nat,
    pub rotation: nat,
    pub cell_width: nat,
}

/// Length of the longest row of a shape; 0 for a shape without rows.
pub open spec fn shape_width(shape: Seq<Seq<char>>) -> nat
    decreases shape.len(),
{
    if shape.len() == 0 {
        0
    } else {
        let rest = shape_width(shape.drop_last());
        if shape.last().len() > rest {
            shape.last().len()
        } else {
            rest
        }
    }
}

/// No row of a shape is longer than the shape's width.
pub proof fn lemma_rows_within_width(shape: Seq<Seq<char>>, row: int)
    requires
        0 <= row < shape.len(),
    ensures
        shape[row].len() <= shape_width(shape),
    decreases shape.len(),
{
    if row < shape.len() - 1 {
        lemma_rows_within_width(shape.drop_last(), row);
    }
}

/// The width of a shape with rows is the length of one of them.
pub proof fn lemma_width_is_attained(shape: Seq<Seq<char>>)
    requires
        shape.len() > 0,
    ensures
        exists|row: int| 0 <= row < shape.len() && #[trigger] shape[row].len() == shape_width(shape),
    decreases shape.len(),
{
    let rest = shape.drop_last();
    if shape.last().len() > shape_width(rest) || rest.len() == 0 {
        assert(shape[shape.len() - 1].len() == shape_width(shape));
    } else {
        lemma_width_is_attained(rest);
        let row = choose|row: int| 0 <= row < rest.len() && #[trigger] rest[row].len() == shape_width(rest);
        assert(shape[row].len() == shape_width(shape));
    }
}

/// Length of the longest row of a shape; 0 for a shape without rows.
pub fn width_of(shape: &Vec<Vec<char>>) -> (width: usize)
    ensures
        width == shape_width(matrix(*shape)),
{
    let mut width: usize = 0;
    let mut row: usize = 0;
    while row < shape.len()
        invariant
            row <= shape.len(),
            width == shape_width(matrix(*shape).take(row as int)),
        decreases shape.len() - row,
    {
        assert(matrix(*shape).take(row + 1).drop_last() =~= matrix(*shape).take(row as int));
        if shape[row].len() > width {
            width = shape[row].len();
        }
        row += 1;
    }
    assert(matrix(*shape).take(row as int) =~= matrix(*shape));
    width
}

/// The four shapes of a piece as sequences.
pub open spec fn shapes_of(frames: Vec<Vec<Vec<char>>>) -> Seq<Seq<Seq<char>>> {
    Seq::new(frames@.len(), |i: int| matrix(frames@[i]))
}

impl BlockView {
    /// A piece has exactly four shapes, and one of them is current.
    pub open spec fn wf(self) -> bool {
        &&& self.shapes.len() == 4
        &&& self.rotation < 4
    }

    /// The shape of the current rotation.
    pub open spec fn shape(self) -> Seq<Seq<char>> {
        self.shapes[self.rotation as int]
    }

    /// Number of rows of the current shape.
    pub open spec fn height(self) -> nat {
        self.shape().len()
    }

    /// Length of the longest row of the current shape.
    pub open spec fn width(self) -> nat {
        shape_width(self.shape())
    }

    /// The piece turned on to its next shape; the fourth is followed by
    /// the first.
    pub open spec fn rotated(self) -> BlockView {
        BlockView { rotation: (self.rotation + 1) % 4, ..self }
    }

    /// The piece at another position.
    pub open spec fn at(self, x: nat, y: nat) -> BlockView {
        BlockView { x, y, ..self }
    }
}

impl View for Block {
    type V = BlockView;

    closed spec fn view(&self) -> BlockView {
        BlockView {
            shapes: shapes_of(self.frames),
            x: self.x as nat,
            y: self.y as nat,
            rotation: self.current_frame as nat,
            cell_width: self.cell_width as nat,
        }
    }
}

impl Block {
    /// Whether the piece has its four shapes and a current one among them.
    pub open spec fn wf(&self) -> bool {
        self@.wf()
    }

    /// A piece of the given four shapes at the origin, in its first
    /// rotation, that steps sideways by the default cell width.
    pub fn new(frames: Vec<Vec<Vec<char>>>) -> (block: Self)
        requires
            frames@.len() == 4,
        ensures
            block.wf(),
            block@ == (BlockView {
                shapes: shapes_of(frames),
                x: 0,
                y: 0,
                rotation: 0,
                cell_width: PIXEL_SIZE as nat,
            }),
    {
        Self { frames, x: 0, y: 0, current_frame: 0, cell_width: PIXEL_SIZE }
    }

    /// As `new`, for a piece that steps sideways by `cell_width` columns.
    pub fn with_cell_width(frames: Vec<Vec<Vec<char>>>, cell_width: usize) -> (block: Self)
        requires
            frames@.len() == 4,
        ensures
            block.wf(),
            block@ == (BlockView {
                shapes: shapes_of(frames),
                x: 0,
                y: 0,
                rotation: 0,
                cell_width: cell_width as nat,
            }),
    {
        Self { frames, x: 0, y: 0, current_frame: 0, cell_width }
    }

    /// Turns the piece on to its next shape. Nothing is checked against
    /// any board.
    pub fn rotate(&mut self)
        requires
            old(self).wf(),
        ensures
            final(self).wf(),
            final(self)@ == old(self)@.rotated(),
    {
        self.current_frame += 1;
        if self.current_frame > 3 {
            self.current_frame = 0;
        }
    }

    /// The row just below the piece.
    pub fn lower_y(&mut self) -> (row: usize)
        requires
            old(self).wf(),
            old(self)@.y + old(self)@.height() <= usize::MAX,
        ensures
            *final(self) == *old(self),
            row == old(self)@.y + old(self)@.height(),
    {
        self.y + self.get_height()
    }

    /// One row down.
    pub fn move_down(&mut self)
        requires
            old(self)@.y < usize::MAX,
        ensures
            final(self)@ == old(self)@.at(old(self)@.x, old(self)@.y + 1),
    {
        self.y += 1;
    }

    /// One cell to the right.
    pub fn move_right(&mut self)
        requires
            old(self)@.x + old(self)@.cell_width <= usize::MAX,
        ensures
            final(self)@ == old(self)@.at(old(self)@.x + old(self)@.cell_width, old(self)@.y),
    {
        self.x += self.cell_width;
    }

    /// One cell to the left.
    pub fn move_left(&mut self)
        requires
            old(self)@.x >= old(self)@.cell_width,
        ensures
            final(self)@ == old(self)@.at((old(self)@.x - old(self)@.cell_width) as nat, old(self)@.y),
    {
        self.x -= self.cell_width;
    }

    /// Puts the piece at a position.
    pub fn move_to(&mut self, x: usize, y: usize)
        ensures
            final(self)@ == old(self)@.at(x as nat, y as nat),
    {
        self.x = x;
        self.y = y;
    }

    /// Column of the upper left corner.
    pub fn current_x(&self) -> (x: usize)
        ensures
            x == self@.x,
    {
        self.x
    }

    /// Row of the upper left corner.
    pub fn current_y(&self) -> (y: usize)
        ensures
            y == self@.y,
    {
        self.y
    }

    /// Number of display columns that a sideways step covers.
    pub fn cell_width(&self) -> (width: usize)
        ensures
            width == self@.cell_width,
    {
        self.cell_width
    }

    /// Index of the current shape.
    pub fn rotation(&self) -> (rotation: usize)
        ensures
            rotation == self@.rotation,
    {
        self.current_frame
    }

    /// Number of rows of the current shape.
    pub fn get_height(&mut self) -> (height: usize)
        requires
            old(self).wf(),
        ensures
            *final(self) == *old(self),
            height == old(self)@.height(),
    {
        self.frames[self.current_frame].len()
    }

    /// Length of the longest row of the current shape.
    pub fn get_width(&self) -> (width: usize)
        requires
            self.wf(),
        ensures
            width == self@.width(),
    {
        width_of(&self.frames[self.current_frame])
    }

    /// All four shapes.
    pub fn get_all_frames(&self) -> (frames: &Vec<Vec<Vec<char>>>)
        ensures
            shapes_of(*frames) == self@.shapes,
    {
        &self.frames
    }

    /// The shape of the current rotation.
    pub fn get_current_frame(&self) -> (shape: &Vec<Vec<char>>)
        requires
            self.wf(),
        ensures
            matrix(*shape) == self@.shape(),
    {
        &self.frames[self.current_frame]
    }
}

/// The seven kinds of piece.
#[derive(Clone, Copy, Debug, PartialEq, Eq)]
pub enum BlockType {
    Line,
    Square,
    LeftS,
    RightS,
    T,
    RightL,
    LeftL,
}

/// The markers of one logical cell that is `width` display columns wide:
/// `X` and then `Y` throughout where it is filled, `O` throughout where it
/// is not.
pub open spec fn cell_markers(filled: bool, width: nat) -> Seq<char> {
    Seq::new(
        width,
        |k: int|
            if !filled {
                O
            } else if k == 0 {
                X
            } else {
                Y
            },
    )
}

/// A row of logical cells written out in markers, cell after cell.
pub open spec fn scaled_row(cells: Seq<bool>, width: nat) -> Seq<char>
    decreases cells.len(),
{
    if cells.len() == 0 {
        Seq::empty()
    } else {
        scaled_row(cells.drop_last(), width) + cell_markers(cells.last(), width)
    }
}

/// A shape of logical cells written out in markers, row by row.
pub open spec fn scaled_shape(cells: Seq<Seq<bool>>, width: nat) -> Seq<Seq<char>> {
    Seq::new(cells.len(), |row: int| scaled_row(cells[row], width))
}

/// The logical cells of a kind of piece in one of its four rotations.
pub open spec fn canonical_cells(kind: BlockType, rotation: int) -> Seq<Seq<bool>> {
    match kind {
        BlockType::Line => if rotation % 2 == 0 {
            seq![seq![true, true, true, true]]
        } else {
            seq![seq![true], seq![true], seq![true], seq![true]]
        },
        BlockType::Square => seq![seq![true, true], seq![true, true]],
        BlockType::LeftS => if rotation % 2 == 0 {
            seq![seq![true, true, false], seq![false, true, true]]
        } else {
            seq![seq![false, true], seq![true, true], seq![true, false]]
        },
        BlockType::RightS => if rotation % 2 == 0 {
            seq![seq![false, true, true], seq![true, true, false]]
        } else {
            seq![seq![true, false], seq![true, true], seq![false, true]]
        },
        BlockType::T => if rotation == 0 {
            seq![seq![false, true, false], seq![true, true, true]]
        } else if rotation == 1 {
            seq![seq![true, false], seq![true, true], seq![true, false]]
        } else if rotation == 2 {
            seq![seq![true, true, true], seq![false, true, false]]
        } else {
            seq![seq![false, true], seq![true, true], seq![false, true]]
        },
        BlockType::RightL => if rotation == 0 {
            seq![seq![false, false, true], seq![true, true, true]]
        } else if rotation == 1 {
            seq![seq![true, false], seq![true, false], seq![true, true]]
        } else if rotation == 2 {
            seq![seq![true, true, true], seq![true, false, false]]
        } else {
            seq![seq![true, true], seq![false, true], seq![false, true]]
        },
        BlockType::LeftL => if rotation == 0 {
            seq![seq![true, false, false], seq![true, true, true]]
        } else if rotation == 1 {
            seq![seq![true, true], seq![true, false], seq![true, false]]
        } else if rotation == 2 {
            seq![seq![true, true, true], seq![false, false, true]]
        } else {
            seq![seq![false, true], seq![false, true], seq![true, true]]
        },
    }
}

/// The four shapes of a kind of piece for a given cell width.
pub open spec fn canonical_shapes(kind: BlockType, width: nat) -> Seq<Seq<Seq<char>>> {
    Seq::new(4, |rotation: int| scaled_shape(canonical_cells(kind, rotation), width))
}

/// A freshly built piece of a kind: at the origin, in its first rotation.
pub open spec fn canonical_block(kind: BlockType, width: nat) -> BlockView {
    BlockView { shapes: canonical_shapes(kind, width), x: 0, y: 0, rotation: 0, cell_width: width }
}

/// The kind that a drawn number stands for: its remainder by seven picks
/// one of the seven kinds.
pub open spec fn kind_drawn(draw: u32) -> BlockType {
    let pick = draw % 7;
    if pick == 0 {
        BlockType::LeftS
    } else if pick == 1 {
        BlockType::RightS
    } else if pick == 2 {
        BlockType::Square
    } else if pick == 3 {
        BlockType::LeftL
    } else if pick == 4 {
        BlockType::RightL
    } else if pick == 5 {
        BlockType::Line
    } else {
        BlockType::T
    }
}

/// A scaled row has as many markers as it has cells, times the width.
pub proof fn lemma_scaled_row_len(cells: Seq<bool>, width: nat)
    ensures
        scaled_row(cells, width).len() == cells.len() * width,
    decreases cells.len(),
{
    if cells.len() > 0 {
        lemma_scaled_row_len(cells.drop_last(), width);
        assert((cells.len() - 1) * width + width == cells.len() * width) by (nonlinear_arith);
    }
}

fn cells_of(kind: BlockType, rotation: usize) -> (cells: Vec<Vec<bool>>)
    requires
        rotation < 4,
    ensures
        matrix(cells) == canonical_cells(kind, rotation as int),
{
    let cells = match kind {
        BlockType::Line => if rotation % 2 == 0 {
            vec![vec![true, true, true, true]]
        } else {
            vec![vec![true], vec![true], vec![true], vec![true]]
        },
        BlockType::Square => vec![vec![true, true], vec![true, true]],
        BlockType::LeftS => if rotation % 2 == 0 {
            vec![vec![true, true, false], vec![false, true, true]]
        } else {
            vec![vec![false, true], vec![true, true], vec![true, false]]
        },
        BlockType::RightS => if rotation % 2 == 0 {
            vec![vec![false, true, true], vec![true, true, false]]
        } else {
            vec![vec![true, false], vec![true, true], vec![false, true]]
        },
        BlockType::T => if rotation == 0 {
            vec![vec![false, true, false], vec![true, true, true]]
        } else if rotation == 1 {
            vec![vec![true, false], vec![true, true], vec![true, false]]
        } else if rotation == 2 {
            vec![vec![true, true, true], vec![false, true, false]]
        } else {
            vec![vec![false, true], vec![true, true], vec![false, true]]
        },
        BlockType::RightL => if rotation == 0 {
            vec![vec![false, false, true], vec![true, true, true]]
        } else if rotation == 1 {
            vec![vec![true, false], vec![true, false], vec![true, true]]
        } else if rotation == 2 {
            vec![vec![true, true, true], vec![true, false, false]]
        } else {
            vec![vec![true, true], vec![false, true], vec![false, true]]
        },
        BlockType::LeftL => if rotation == 0 {
            vec![vec![true, false, false], vec![true, true, true]]
        } else if rotation == 1 {
            vec![vec![true, true], vec![true, false], vec![true, false]]
        } else if rotation == 2 {
            vec![vec![true, true, true], vec![false, false, true]]
        } else {
            vec![vec![false, true], vec![false, true], vec![true, true]]
        },
    };
    assert(matrix(cells) =~~= canonical_cells(kind, rotation as int));
    cells
}

fn scale_row(cells: &Vec<bool>, width: usize) -> (row: Vec<char>)
    ensures
        row@ == scaled_row(cells@, width as nat),
{
    let mut row: Vec<char> = Vec::new();
    let mut i: usize = 0;
    while i < cells.len()
        invariant
            i <= cells.len(),
            row@ == scaled_row(cells@.take(i as int), width as nat),
        decreases cells.len() - i,
    {
        let filled = cells[i];
        let ghost done = row@;
        let mut k: usize = 0;
        while k < width
            invariant
                k <= width,
                row@ == done + cell_markers(filled, width as nat).take(k as int),
            decreases width - k,
        {
            let marker = if !filled {
                O
            } else if k == 0 {
                X
            } else {
                Y
            };
            row.push(marker);
            assert(row@ =~= done + cell_markers(filled, width as nat).take(k + 1));
            k += 1;
        }
        assert(cell_markers(filled, width as nat).take(width as int) =~= cell_markers(filled, width as nat));
        assert(cells@.take(i + 1).drop_last() =~= cells@.take(i as int));
        i += 1;
    }
    assert(cells@.take(i as int) =~= cells@);
    row
}

fn scale_shape(cells: &Vec<Vec<bool>>, width: usize) -> (shape: Vec<Vec<char>>)
    ensures
        matrix(shape) == scaled_shape(matrix(*cells), width as nat),
{
    let mut shape: Vec<Vec<char>> = Vec::new();
    let mut i: usize = 0;
    while i < cells.len()
        invariant
            i <= cells.len(),
            shape@.len() == i,
            forall|row: int| 0 <= row < i ==> (#[trigger] shape@[row])@ == scaled_row(cells@[row]@, width as nat),
        decreases cells.len() - i,
    {
        shape.push(scale_row(&cells[i], width));
        i += 1;
    }
    assert(matrix(shape) =~~= scaled_shape(matrix(*cells), width as nat));
    shape
}

/// Builds a piece of the given kind whose logical cells are `width`
/// display columns wide.
pub fn build_block_scaled(block_type: BlockType, width: usize) -> (block: Block)
    ensures
        block.wf(),
        block@ == canonical_block(block_type, width as nat),
{
    let mut frames: Vec<Vec<Vec<char>>> = Vec::new();
    let mut rotation: usize = 0;
    while rotation < 4
        invariant
            rotation <= 4,
            frames@.len() == rotation,
            forall|r: int|
                0 <= r < rotation ==> matrix(#[trigger] frames@[r]) == scaled_shape(
                    canonical_cells(block_type, r),
                    width as nat,
                ),
        decreases 4 - rotation,
    {
        let cells = cells_of(block_type, rotation);
        frames.push(scale_shape(&cells, width));
        rotation += 1;
    }
    assert(shapes_of(frames) =~= canonical_shapes(block_type, width as nat));
    Block::with_cell_width(frames, width)
}

/// Builds a piece of the given kind with cells of the default width.
pub fn build_block(block_type: BlockType) -> (block: Block)
    ensures
        block.wf(),
        block@ == canonical_block(block_type, PIXEL_SIZE as nat),
{
    build_block_scaled(block_type, PIXEL_SIZE)
}

/// Picks the kind of piece that a drawn number stands for.
pub fn kind_for_draw(draw: u32) -> (kind: BlockType)
    ensures
        kind == kind_drawn(draw),
{
    let pick: u32 = draw % 7;
    if pick == 0 {
        BlockType::LeftS
    } else if pick == 1 {
        BlockType::RightS
    } else if pick == 2 {
        BlockType::Square
    } else if pick == 3 {
        BlockType::LeftL
    } else if pick == 4 {
        BlockType::RightL
    } else if pick == 5 {
        BlockType::Line
    } else {
        BlockType::T
    }
}

/// Draws a number from the operating system's random source, by
/// `rand::rngs::OsRng` and its `RngCore::next_u32`. Nothing is claimed of
/// the number. The call does not return where the system has no
/// randomness to give.
#[verifier::external_body]
fn draw_number() -> (draw: u32) {
    OsRng.next_u32()
}

/// A piece of a randomly drawn kind, with cells `width` columns wide.
pub fn randomize_block_scaled(width: usize) -> (block: Block)
    ensures
        block.wf(),
        exists|draw: u32| block@ == canonical_block(kind_drawn(draw), width as nat),
{
    let draw = draw_number();
    build_block_scaled(kind_for_draw(draw), width)
}

/// A piece of a randomly drawn kind, with cells of the default width.
pub fn randomize_block() -> (block: Block)
    ensures
        block.wf(),
        exists|draw: u32| block@ == canonical_block(kind_drawn(draw), PIXEL_SIZE as nat),
{
    randomize_block_scaled(PIXEL_SIZE)
}

} // verus!
