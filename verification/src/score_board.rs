//! Score, level and the count of cleared lines.

use vstd::prelude::*;
use vstd::string::*;
use crate::frame::{draw_text, painted_text, Drawable, Frame, SCREEN_NUM_COLS, SCREEN_NUM_ROWS};

verus! {

/// Keeps the score of a game and says where on the canvas it is shown.
pub struct ScoreBoard {
    top_x: usize,
    top_y: usize,
    score: u64,
    level: u32,
    total_lines: u32,
}

/// What a score board holds.
pub ghost struct ScoreBoardView {
    pub top_x: nat,
    pub top_y: nat,
    pub score: nat,
    pub level: nat,
    pub total_lines: nat,
}

/// Points that come on top of the hundred per line when several lines
/// are cleared at once.
pub open spec fn bonus(lines: nat) -> nat {
    if lines <= 1 {
        0
    } else if lines == 2 {
        50
    } else if lines == 3 {
        150
    } else if lines == 4 {
        300
    } else {
        100
    }
}

/// The character of a decimal digit.
pub open spec fn digit(d: nat) -> char {
    if d == 0 {
        '0'
    } else if d == 1 {
        '1'
    } else if d == 2 {
        '2'
    } else if d == 3 {
        '3'
    } else if d == 4 {
        '4'
    } else if d == 5 {
        '5'
    } else if d == 6 {
        '6'
    } else if d == 7 {
        '7'
    } else if d == 8 {
        '8'
    } else {
        '9'
    }
}

/// A number written in decimal digits, without leading zeros.
pub open spec fn decimal(n: nat) -> Seq<char>
    decreases n,
{
    if n < 10 {
        seq![digit(n)]
    } else {
        decimal(n / 10).push(digit(n % 10))
    }
}

/// The text in front of the score.
pub open spec fn score_label() -> Seq<char> {
    seq!['S', 'c', 'o', 'r', 'e', ':', ' ']
}

/// The text in front of the level.
pub open spec fn level_label() -> Seq<char> {
    seq!['L', 'e', 'v', 'e', 'l', ':', ' ']
}

impl ScoreBoardView {
    /// The level never runs ahead of the lines cleared, and no line was
    /// ever worth more than 175 points.
    pub open spec fn wf(self) -> bool {
        &&& self.level >= 1
        &&& self.level - 1 <= self.total_lines / 10
        &&& self.score <= 175 * self.total_lines
    }

    /// Whether clearing `lines` lines now reaches the next level: some
    /// line was cleared and the total becomes a multiple of ten.
    pub open spec fn levels_up(self, lines: nat) -> bool {
        lines > 0 && (self.total_lines + lines) % 10 == 0
    }

    /// The board after `lines` lines were cleared at once.
    pub open spec fn updated(self, lines: nat) -> ScoreBoardView {
        ScoreBoardView {
            score: self.score + 100 * lines + bonus(lines),
            level: if self.levels_up(lines) {
                self.level + 1
            } else {
                self.level
            },
            total_lines: self.total_lines + lines,
            ..self
        }
    }

    /// The line of text that shows the score.
    pub open spec fn score_text(self) -> Seq<char> {
        score_label() + decimal(self.score)
    }

    /// The line of text that shows the level.
    pub open spec fn level_text(self) -> Seq<char> {
        level_label() + decimal(self.level)
    }
}

/// Clearing no line changes nothing and reaches no level.
pub proof fn law_no_lines_no_change(board: ScoreBoardView)
    ensures
        board.updated(0) == board,
        !board.levels_up(0),
{
}

/// One update raises the level by one where it reaches a level, and
/// leaves it where it does not: never by two.
pub proof fn law_one_level_at_a_time(board: ScoreBoardView, lines: nat)
    ensures
        board.levels_up(lines) ==> board.updated(lines).level == board.level + 1,
        !board.levels_up(lines) ==> board.updated(lines).level == board.level,
{
}

/// No counter ever falls.
pub proof fn law_counters_never_fall(board: ScoreBoardView, lines: nat)
    ensures
        board.updated(lines).score >= board.score,
        board.updated(lines).level >= board.level,
        board.updated(lines).total_lines >= board.total_lines,
{
}

/// The level never runs ahead of the lines: after any update there are
/// at least ten lines cleared for every level above the first.
pub proof fn law_level_follows_lines(board: ScoreBoardView, lines: nat)
    requires
        board.wf(),
    ensures
        board.updated(lines).wf(),
{
}

/// Where lines are cleared one at a time, the level goes up with every
/// tenth line: a level that is one more than the tens of lines stays so.
pub proof fn law_single_lines_level_by_tens(board: ScoreBoardView)
    requires
        board.level == 1 + board.total_lines / 10,
    ensures
        board.updated(1).level == 1 + (board.total_lines + 1) / 10,
{
}

impl View for ScoreBoard {
    type V = ScoreBoardView;

    closed spec fn view(&self) -> ScoreBoardView {
        ScoreBoardView {
            top_x: self.top_x as nat,
            top_y: self.top_y as nat,
            score: self.score as nat,
            level: self.level as nat,
            total_lines: self.total_lines as nat,
        }
    }
}

/// A decimal digit as a text of one character.
fn digit_text(d: u64) -> (text: &'static str)
    requires
        d < 10,
    ensures
        text@ == seq![digit(d as nat)],
{
    proof {
        reveal_strlit("0");
        reveal_strlit("1");
        reveal_strlit("2");
        reveal_strlit("3");
        reveal_strlit("4");
        reveal_strlit("5");
        reveal_strlit("6");
        reveal_strlit("7");
        reveal_strlit("8");
        reveal_strlit("9");
    }
    let text = if d == 0 {
        "0"
    } else if d == 1 {
        "1"
    } else if d == 2 {
        "2"
    } else if d == 3 {
        "3"
    } else if d == 4 {
        "4"
    } else if d == 5 {
        "5"
    } else if d == 6 {
        "6"
    } else if d == 7 {
        "7"
    } else if d == 8 {
        "8"
    } else {
        "9"
    };
    assert(text@ =~= seq![digit(d as nat)]);
    text
}

/// Writes a number in decimal digits, without leading zeros.
fn decimal_text(n: u64) -> (text: String)
    ensures
        text@ == decimal(n as nat),
{
    let mut text = String::from_str(digit_text(n % 10));
    let mut rest = n / 10;
    assert(n >= 10 ==> decimal(n as nat) =~= decimal(rest as nat) + text@);
    while rest > 0
        invariant
            rest > 0 ==> decimal(n as nat) == decimal(rest as nat) + text@,
            rest == 0 ==> decimal(n as nat) == text@,
        decreases rest,
    {
        let mut longer = String::from_str(digit_text(rest % 10));
        longer.append(text.as_str());
        proof {
            if rest >= 10 {
                assert(decimal(rest as nat) + text@ =~= decimal((rest / 10) as nat) + longer@);
            } else {
                assert(decimal(rest as nat) + text@ =~= longer@);
            }
        }
        text = longer;
        rest = rest / 10;
    }
    text
}

impl ScoreBoard {
    /// Whether the counters are consistent with each other.
    pub open spec fn wf(&self) -> bool {
        self@.wf()
    }

    /// A board for a new game, shown at column `top_x` and row `top_y`:
    /// no points, no lines, level one.
    pub fn new(top_x: usize, top_y: usize) -> (board: Self)
        ensures
            board.wf(),
            board@ == (ScoreBoardView {
                top_x: top_x as nat,
                top_y: top_y as nat,
                score: 0,
                level: 1,
                total_lines: 0,
            }),
    {
        Self { score: 0, level: 1, top_x, top_y, total_lines: 0 }
    }

    /// Books `lines` lines cleared at once: a hundred points for each,
    /// the bonus for several, and the next level where the total of lines
    /// becomes a multiple of ten. Returns whether the level went up.
    pub fn update(&mut self, lines: usize) -> (leveled: bool)
        requires
            old(self).wf(),
            old(self)@.total_lines + lines <= u32::MAX,
        ensures
            final(self).wf(),
            final(self)@ == old(self)@.updated(lines as nat),
            leveled == old(self)@.levels_up(lines as nat),
    {
        self.total_lines += lines as u32;
        self.score += (lines as u64) * 100;
        if lines > 1 {
            if lines == 2 {
                self.score += 50;
            } else if lines == 3 {
                self.score += 150;
            } else if lines == 4 {
                self.score += 300;
            } else {
                self.score += 100;
            }
        }
        if lines > 0 {
            if self.total_lines % 10 == 0 {
                self.inc_level();
                return true;
            }
        }
        false
    }

    fn inc_level(&mut self)
        requires
            old(self)@.level < u32::MAX,
        ensures
            final(self)@ == (ScoreBoardView { level: old(self)@.level + 1, ..old(self)@ }),
    {
        self.level += 1;
    }

    /// Whether both lines of text lie within the canvas.
    pub fn can_draw(&self) -> (ok: bool)
        ensures
            ok == self.fits_canvas(),
    {
        let score_digits = decimal_text(self.score).as_str().unicode_len();
        let level_digits = decimal_text(self.level as u64).as_str().unicode_len();
        self.top_y < SCREEN_NUM_ROWS - 2 && score_digits <= SCREEN_NUM_COLS - 7 && self.top_x <= SCREEN_NUM_COLS
            - 7 - score_digits && level_digits <= SCREEN_NUM_COLS - 7 && self.top_x <= SCREEN_NUM_COLS - 7
            - level_digits
    }

    /// The points so far.
    pub fn score(&self) -> (score: u64)
        ensures
            score == self@.score,
    {
        self.score
    }

    /// The level, from one on.
    pub fn level(&self) -> (level: u32)
        ensures
            level == self@.level,
    {
        self.level
    }

    /// The number of lines cleared so far.
    pub fn total_lines(&self) -> (lines: u32)
        ensures
            lines == self@.total_lines,
    {
        self.total_lines
    }
}

impl Drawable for ScoreBoard {
    open spec fn fits_canvas(&self) -> bool {
        &&& self@.top_y + 2 < SCREEN_NUM_ROWS
        &&& self@.top_x + self@.score_text().len() <= SCREEN_NUM_COLS
        &&& self@.top_x + self@.level_text().len() <= SCREEN_NUM_COLS
    }

    open spec fn painted(&self, before: Seq<Seq<char>>) -> Seq<Seq<char>> {
        painted_text(
            painted_text(before, self@.score_text(), self@.top_x as int, self@.top_y as int),
            self@.level_text(),
            self@.top_x as int,
            (self@.top_y + 2) as int,
        )
    }

    /// Writes the score, and two rows below it the level.
    fn draw(&self, frame: &mut Frame) {
        proof {
            reveal_strlit("Score: ");
            reveal_strlit("Level: ");
        }
        let mut score_line = String::from_str("Score: ");
        score_line.append(decimal_text(self.score).as_str());
        assert(score_line@ =~= self@.score_text());
        draw_text(frame, score_line.as_str(), self.top_x, self.top_y);
        let mut level_line = String::from_str("Level: ");
        level_line.append(decimal_text(self.level as u64).as_str());
        assert(level_line@ =~= self@.level_text());
        draw_text(frame, level_line.as_str(), self.top_x, self.top_y + 2);
    }
}

} // verus!
