//! The character canvas and the primitives that paint onto it.

use vstd::prelude::*;
use vstd::string::*;

verus! {

/// Height of the canvas in rows.
pub const SCREEN_NUM_ROWS: usize = 42;

/// Width of the canvas in columns.
pub const SCREEN_NUM_COLS: usize = 60;

/// Default number of display columns that one logical cell takes.
pub const PIXEL_SIZE: usize = 2;

/// Marker of the first display column of a filled cell.
pub const X: char = '⎕';

/// Marker of the further display columns of a filled cell.
pub const Y: char = '▯';

/// Marker of an empty display column.
pub const O: char = ' ';

/// The mark of the border: what the walls and the floor of the board are
/// drawn in, and what no sprite is painted over.
pub const BORDER: char = '🀫';

/// The canvas: addressed column first, then row.
pub type Frame = [[char; SCREEN_NUM_ROWS]; SCREEN_NUM_COLS];

/// The canvas as a sequence of columns, each a sequence of characters.
pub open spec fn canvas(frame: Frame) -> Seq<Seq<char>> {
    Seq::new(SCREEN_NUM_COLS as nat, |x: int| frame@[x]@)
}

/// A vector of rows as a sequence of sequences.
pub open spec fn matrix<T>(rows: Vec<Vec<T>>) -> Seq<Seq<T>> {
    Seq::new(rows@.len(), |i: int| rows@[i]@)
}

/// Whether a canvas has the fixed dimensions of a `Frame`.
pub open spec fn is_canvas(c: Seq<Seq<char>>) -> bool {
    &&& c.len() == SCREEN_NUM_COLS
    &&& forall|x: int| 0 <= x < c.len() ==> (#[trigger] c[x]).len() == SCREEN_NUM_ROWS
}

/// Whether the sprite, with its upper left corner at column `x` and row
/// `y`, covers the canvas position (`cx`, `cy`).
pub open spec fn sprite_covers(sprite: Seq<Seq<char>>, x: int, y: int, cx: int, cy: int) -> bool {
    &&& 0 <= cy - y < sprite.len()
    &&& 0 <= cx - x < sprite[cy - y].len()
}

/// Whether every character of the sprite at (`x`, `y`) lies within the
/// canvas. Rows without a character may lie anywhere.
pub open spec fn sprite_fits(sprite: Seq<Seq<char>>, x: int, y: int) -> bool {
    forall|sy: int|
        0 <= sy < sprite.len() && (#[trigger] sprite[sy]).len() > 0 ==> y + sy < SCREEN_NUM_ROWS && x
            + sprite[sy].len() <= SCREEN_NUM_COLS
}

/// Whether every character of a text written into row `y` from column
/// `x` on lies within the canvas. A text without a character may be
/// written anywhere.
pub open spec fn text_fits(text: Seq<char>, x: int, y: int) -> bool {
    text.len() > 0 ==> y < SCREEN_NUM_ROWS && x + text.len() <= SCREEN_NUM_COLS
}

/// The canvas after a sprite was painted at (`x`, `y`): every covered
/// position takes the sprite's character, unless the canvas already shows
/// the mark of the border there.
pub open spec fn painted_sprite(before: Seq<Seq<char>>, sprite: Seq<Seq<char>>, x: int, y: int) -> Seq<
    Seq<char>,
> {
    Seq::new(
        before.len(),
        |cx: int|
            Seq::new(
                before[cx].len(),
                |cy: int|
                    if sprite_covers(sprite, x, y, cx, cy) && before[cx][cy] != BORDER {
                        sprite[cy - y][cx - x]
                    } else {
                        before[cx][cy]
                    },
            ),
    )
}

/// The canvas after a text was written into row `y` from column `x` on.
pub open spec fn painted_text(before: Seq<Seq<char>>, text: Seq<char>, x: int, y: int) -> Seq<Seq<char>> {
    Seq::new(
        before.len(),
        |cx: int|
            Seq::new(
                before[cx].len(),
                |cy: int|
                    if cy == y && 0 <= cx - x < text.len() {
                        text[cx - x]
                    } else {
                        before[cx][cy]
                    },
            ),
    )
}

/// The canvas with one position overwritten.
pub open spec fn with_char(before: Seq<Seq<char>>, x: int, y: int, c: char) -> Seq<Seq<char>> {
    before.update(x, before[x].update(y, c))
}

/// Something that can paint itself onto a canvas.
pub trait Drawable {
    /// Whether all that `draw` paints lies within the canvas.
    spec fn fits_canvas(&self) -> bool;

    /// The canvas that `draw` leaves, given the canvas it found.
    spec fn painted(&self, before: Seq<Seq<char>>) -> Seq<Seq<char>>;

    fn draw(&self, frame: &mut Frame)
        requires
            self.fits_canvas(),
        ensures
            canvas(*final(frame)) == self.painted(canvas(*old(frame))),
    ;
}

/// A blank canvas.
pub fn new_frame() -> (frame: Frame)
    ensures
        canvas(frame) == Seq::new(
            SCREEN_NUM_COLS as nat,
            |x: int| Seq::new(SCREEN_NUM_ROWS as nat, |y: int| O),
        ),
{
    let frame = [[O; SCREEN_NUM_ROWS]; SCREEN_NUM_COLS];
    assert(canvas(frame) =~~= Seq::new(
        SCREEN_NUM_COLS as nat,
        |x: int| Seq::new(SCREEN_NUM_ROWS as nat, |y: int| O),
    ));
    frame
}

/// Writes one character.
pub fn put(frame: &mut Frame, x: usize, y: usize, c: char)
    requires
        x < SCREEN_NUM_COLS,
        y < SCREEN_NUM_ROWS,
    ensures
        canvas(*final(frame)) == with_char(canvas(*old(frame)), x as int, y as int, c),
{
    frame[x][y] = c;
    assert(canvas(*frame) =~~= with_char(canvas(*old(frame)), x as int, y as int, c));
}

/// Whether every character of the sprite at (`x`, `y`) lies within the
/// canvas.
pub fn sprite_within(sprite: &Vec<Vec<char>>, x: usize, y: usize) -> (ok: bool)
    ensures
        ok == sprite_fits(matrix(*sprite), x as int, y as int),
{
    let mut sy: usize = 0;
    while sy < sprite.len()
        invariant
            sy <= sprite.len(),
            forall|ry: int|
                0 <= ry < sy && (#[trigger] matrix(*sprite)[ry]).len() > 0 ==> y + ry < SCREEN_NUM_ROWS && x
                    + matrix(*sprite)[ry].len() <= SCREEN_NUM_COLS,
        decreases sprite.len() - sy,
    {
        let len = sprite[sy].len();
        assert(matrix(*sprite)[sy as int].len() == len);
        if len > 0 && !(sy < SCREEN_NUM_ROWS && y < SCREEN_NUM_ROWS - sy && len <= SCREEN_NUM_COLS && x
            <= SCREEN_NUM_COLS - len) {
            return false;
        }
        sy += 1;
    }
    true
}

/// Paints a sprite with its upper left corner at column `x` and row `y`.
/// A position that already shows the mark of the border is left as it
/// is.
pub fn draw_sprite(frame: &mut Frame, sprite: &Vec<Vec<char>>, x: usize, y: usize)
    requires
        sprite_fits(matrix(*sprite), x as int, y as int),
    ensures
        canvas(*final(frame)) == painted_sprite(canvas(*old(frame)), matrix(*sprite), x as int, y as int),
{
    let ghost before = canvas(*frame);
    let ghost shape = matrix(*sprite);
    let mut sy: usize = 0;
    while sy < sprite.len()
        invariant
            sy <= sprite.len(),
            shape == matrix(*sprite),
            sprite_fits(shape, x as int, y as int),
            is_canvas(before),
            forall|cx: int, cy: int|
                0 <= cx < SCREEN_NUM_COLS && 0 <= cy < SCREEN_NUM_ROWS ==> #[trigger] canvas(*frame)[cx][cy]
                    == if cy - y < sy {
                    painted_sprite(before, shape, x as int, y as int)[cx][cy]
                } else {
                    before[cx][cy]
                },
        decreases sprite.len() - sy,
    {
        let row = &sprite[sy];
        assert(row@ == shape[sy as int]);
        let mut sx: usize = 0;
        while sx < row.len()
            invariant
                sy < sprite.len(),
                sx <= row.len(),
                row@ == shape[sy as int],
                shape == matrix(*sprite),
                sprite_fits(shape, x as int, y as int),
                is_canvas(before),
                forall|cx: int, cy: int|
                    0 <= cx < SCREEN_NUM_COLS && 0 <= cy < SCREEN_NUM_ROWS ==> #[trigger] canvas(
                        *frame,
                    )[cx][cy] == if cy - y < sy || (cy - y == sy && cx - x < sx) {
                        painted_sprite(before, shape, x as int, y as int)[cx][cy]
                    } else {
                        before[cx][cy]
                    },
            decreases row.len() - sx,
        {
            let ghost prev = canvas(*frame);
            assert(prev[sx + x][sy + y] == frame@[sx + x]@[sy + y]);
            if frame[sx + x][sy + y] != BORDER {
                put(frame, sx + x, sy + y, row[sx]);
            }
            sx += 1;
        }
        sy += 1;
    }
    assert(canvas(*frame) =~~= painted_sprite(before, shape, x as int, y as int));
}

/// Writes a text into row `y`, one character per column from column `x` on.
pub fn draw_text(frame: &mut Frame, text: &str, x: usize, y: usize)
    requires
        text_fits(text@, x as int, y as int),
    ensures
        canvas(*final(frame)) == painted_text(canvas(*old(frame)), text@, x as int, y as int),
{
    let ghost before = canvas(*frame);
    let n = text.unicode_len();
    let mut i: usize = 0;
    while i < n
        invariant
            i <= n,
            n == text@.len(),
            text_fits(text@, x as int, y as int),
            is_canvas(before),
            forall|cx: int, cy: int|
                0 <= cx < SCREEN_NUM_COLS && 0 <= cy < SCREEN_NUM_ROWS ==> #[trigger] canvas(*frame)[cx][cy]
                    == if cy == y && 0 <= cx - x < i {
                    text@[cx - x]
                } else {
                    before[cx][cy]
                },
        decreases n - i,
    {
        let c = text.get_char(i);
        put(frame, x + i, y, c);
        i += 1;
    }
    assert(canvas(*frame) =~~= painted_text(before, text@, x as int, y as int));
}

} // verus!
