//! One game: a board and its score, what the player's intents do to
//! them, what a lapse of time does, and the sounds that go with it.

use vstd::prelude::*;
use std::time::Duration;
use crate::block::{canonical_block, kind_drawn, BlockView};
use crate::board::{
    full_rows,
    lemma_kept_rows_dimensions,
    opening,
    Board,
    BoardView,
    Direction,
    BOARD_NUM_COLS,
    BOARD_NUM_ROWS,
};
use crate::frame::{Drawable, Frame, PIXEL_SIZE};
use crate::score_board::{ScoreBoard, ScoreBoardView};
use crate::timer::duration_nanos;

verus! {

/// Canvas columns between the board and the score.
pub const SCORE_GAP: usize = 5;

/// Canvas rows from the floor of the board up to the score.
pub const SCORE_RISE: usize = 2;

/// What the player can ask for.
#[derive(Clone, Copy, Debug, PartialEq, Eq)]
pub enum Intent {
    MoveLeft,
    MoveRight,
    Rotate,
    SoftDrop,
    Quit,
}

/// What the game answers to an intent.
#[derive(Clone, Copy, Debug, PartialEq, Eq)]
pub enum Reply {
    /// The game goes on, in silence.
    Nothing,
    /// The game goes on, and a turn is to be heard.
    Rotated,
    /// The game is to end.
    Quit,
}

/// The sounds of a game.
#[derive(Clone, Copy, Debug, PartialEq, Eq)]
pub enum Cue {
    Landed,
    LineCleared,
    LevelUp,
    GameOver,
    Rotated,
}

/// What a lapse of time has brought: whether the piece has landed, how
/// many lines were cleared, whether the next level was reached, and
/// whether the game is lost.
#[derive(Clone, Copy, Debug, PartialEq, Eq)]
pub struct Tick {
    pub landed: bool,
    pub lines: usize,
    pub level_up: bool,
    pub game_over: bool,
}

/// A board and the score that is kept for it.
pub struct Game {
    pub board: Board,
    pub score_board: ScoreBoard,
}

/// The board after an intent: a push sideways that is made unless the
/// piece collides, a turn, or a countdown set to run out at once.
pub open spec fn board_after_intent(board: BoardView, intent: Intent) -> BoardView {
    match intent {
        Intent::MoveLeft => board.after_push(Direction::Left),
        Intent::MoveRight => board.after_push(Direction::Right),
        Intent::Rotate => board.turned(),
        Intent::SoftDrop => BoardView { time_left: 0, ..board },
        Intent::Quit => board,
    }
}

/// Whether an intent pushes the piece, which must then lie within the
/// grid.
pub open spec fn pushes(intent: Intent) -> bool {
    intent == Intent::MoveLeft || intent == Intent::MoveRight
}

/// The answer to an intent. A turn is to be heard whether or not it was
/// made.
pub open spec fn reply_to(intent: Intent) -> Reply {
    match intent {
        Intent::Rotate => Reply::Rotated,
        Intent::Quit => Reply::Quit,
        _ => Reply::Nothing,
    }
}

/// Number of lines that are cleared after `elapsed` nanoseconds have
/// passed: the full rows that the board then has.
pub open spec fn lines_after(board: BoardView, elapsed: nat, fresh: BlockView) -> nat {
    full_rows(board.after_update(elapsed, fresh).grid)
}

/// The score after `elapsed` nanoseconds have passed.
pub open spec fn score_after_tick(board: BoardView, score: ScoreBoardView, elapsed: nat, fresh: BlockView) -> ScoreBoardView {
    score.updated(lines_after(board, elapsed, fresh))
}

/// The board after `elapsed` nanoseconds have passed: the piece has
/// fallen or landed where the countdown ran out, the full rows are
/// cleared, and where they brought the next level the board is faster.
pub open spec fn board_after_tick(board: BoardView, score: ScoreBoardView, elapsed: nat, fresh: BlockView) -> BoardView {
    let swept = board.after_update(elapsed, fresh).with_lines_cleared();
    if score.levels_up(lines_after(board, elapsed, fresh)) {
        swept.sped_up()
    } else {
        swept
    }
}

/// What is reported of a lapse of `elapsed` nanoseconds.
pub open spec fn report_of(board: BoardView, score: ScoreBoardView, elapsed: nat, fresh: BlockView) -> Tick {
    Tick {
        landed: board.lands(elapsed),
        lines: lines_after(board, elapsed, fresh) as usize,
        level_up: score.levels_up(lines_after(board, elapsed, fresh)),
        game_over: board_after_tick(board, score, elapsed, fresh).is_full(),
    }
}

/// Whether a lapse of `elapsed` nanoseconds, with `fresh` as the piece
/// that comes in if the falling one lands, leaves the given board and
/// score and is reported as given.
pub open spec fn tick_brings(
    board: BoardView,
    score: ScoreBoardView,
    elapsed: nat,
    fresh: BlockView,
    board_after: BoardView,
    score_after: ScoreBoardView,
    report: Tick,
) -> bool {
    &&& board_after == board_after_tick(board, score, elapsed, fresh)
    &&& score_after == score_after_tick(board, score, elapsed, fresh)
    &&& report == report_of(board, score, elapsed, fresh)
}

/// The sounds of a lapse of time, in their order: the landing, one for
/// every line, the new level, the lost game.
pub open spec fn cues_of(report: Tick) -> Seq<Cue> {
    (if report.landed {
        seq![Cue::Landed]
    } else {
        Seq::empty()
    }) + Seq::new(report.lines as nat, |i: int| Cue::LineCleared) + (if report.level_up {
        seq![Cue::LevelUp]
    } else {
        Seq::empty()
    }) + (if report.game_over {
        seq![Cue::GameOver]
    } else {
        Seq::empty()
    })
}

impl Cue {
    /// The name of the sound.
    pub fn name(&self) -> (name: &'static str)
        ensures
            name@ == match *self {
                Cue::Landed => "drop"@,
                Cue::LineCleared => "line"@,
                Cue::LevelUp => "level_up"@,
                Cue::GameOver => "lose"@,
                Cue::Rotated => "rotate"@,
            },
    {
        match self {
            Cue::Landed => "drop",
            Cue::LineCleared => "line",
            Cue::LevelUp => "level_up",
            Cue::GameOver => "lose",
            Cue::Rotated => "rotate",
        }
    }
}

impl Tick {
    /// The sounds that go with the report, in their order.
    pub fn cues(&self) -> (cues: Vec<Cue>)
        ensures
            cues@ == cues_of(*self),
    {
        let mut cues: Vec<Cue> = Vec::new();
        if self.landed {
            cues.push(Cue::Landed);
        }
        let ghost start = cues@;
        let mut line: usize = 0;
        while line < self.lines
            invariant
                line <= self.lines,
                cues@ == start + Seq::new(line as nat, |i: int| Cue::LineCleared),
            decreases self.lines - line,
        {
            cues.push(Cue::LineCleared);
            line += 1;
            assert(cues@ =~= start + Seq::new(line as nat, |i: int| Cue::LineCleared));
        }
        if self.level_up {
            cues.push(Cue::LevelUp);
        }
        if self.game_over {
            cues.push(Cue::GameOver);
        }
        assert(cues@ =~= cues_of(*self));
        cues
    }
}

impl Game {
    /// Whether board and score are in a state that a game can be in.
    pub open spec fn wf(&self) -> bool {
        self.board.wf() && self.score_board.wf()
    }

    /// Whether `elapsed` nanoseconds can pass: where the piece falls on
    /// its own it lies within the grid, and the count of lines has room
    /// for the lines of one more lapse of time.
    pub open spec fn ready_to_tick(&self, elapsed: nat) -> bool {
        &&& self.board@.can_pass(elapsed)
        &&& self.score_board@.total_lines + BOARD_NUM_ROWS <= u32::MAX
    }

    /// A new game with cells of the default width. The score is shown
    /// beside the board, above its floor.
    pub fn new(debug_mode: bool) -> (game: Self)
        ensures
            game.wf(),
            game.board@.piece_in_grid(),
            exists|first: u32, second: u32|
                game.board@ == opening(
                    debug_mode,
                    PIXEL_SIZE as nat,
                    canonical_block(kind_drawn(first), PIXEL_SIZE as nat),
                    canonical_block(kind_drawn(second), PIXEL_SIZE as nat),
                ),
            game.score_board@ == (ScoreBoardView {
                top_x: (BOARD_NUM_COLS + SCORE_GAP) as nat,
                top_y: (BOARD_NUM_ROWS - SCORE_RISE) as nat,
                score: 0,
                level: 1,
                total_lines: 0,
            }),
    {
        let board = Board::new(debug_mode);
        let score_board = ScoreBoard::new(
            board.get_right_offset() + SCORE_GAP,
            board.get_bottom_offset() - SCORE_RISE,
        );
        Self { board, score_board }
    }

    /// Does what the player asks for. Leaving the game changes nothing
    /// here: it is for the caller to end it.
    pub fn handle(&mut self, intent: Intent) -> (reply: Reply)
        requires
            old(self).wf(),
            pushes(intent) ==> old(self).board@.piece_in_grid(),
        ensures
            final(self).wf(),
            final(self).board@ == board_after_intent(old(self).board@, intent),
            final(self).score_board == old(self).score_board,
            reply == reply_to(intent),
    {
        match intent {
            Intent::MoveLeft => {
                self.board.move_block_left();
                Reply::Nothing
            },
            Intent::MoveRight => {
                self.board.move_block_right();
                Reply::Nothing
            },
            Intent::Rotate => {
                self.board.rotate();
                Reply::Rotated
            },
            Intent::SoftDrop => {
                self.board.speed_up();
                Reply::Nothing
            },
            Intent::Quit => Reply::Quit,
        }
    }

    /// Whether the intent can be handled: a push needs the piece within
    /// the grid.
    pub fn can_handle(&self, intent: Intent) -> (ok: bool)
        requires
            self.wf(),
        ensures
            ok == (pushes(intent) ==> self.board@.piece_in_grid()),
    {
        match intent {
            Intent::MoveLeft => self.board.piece_in_grid(),
            Intent::MoveRight => self.board.piece_in_grid(),
            _ => true,
        }
    }

    /// Whether `delta` can pass: where the piece falls on its own it
    /// lies within the grid, and the count of lines has room for the
    /// lines of one more lapse of time.
    pub fn can_tick(&self, delta: Duration) -> (ok: bool)
        requires
            self.wf(),
        ensures
            ok == self.ready_to_tick(duration_nanos(delta)),
    {
        self.board.can_update(delta) && self.score_board.total_lines() <= u32::MAX - 20
    }

    /// Whether board and score lie within the canvas.
    pub fn can_draw(&self) -> (ok: bool)
        requires
            self.wf(),
        ensures
            ok == self.fits_canvas(),
    {
        self.board.can_draw() && self.score_board.can_draw()
    }

    /// What follows a fall: the full rows are cleared and booked, and a
    /// new level makes the board faster.
    fn settle_up(&mut self, landed: bool) -> (report: Tick)
        requires
            old(self).wf(),
            old(self).score_board@.total_lines + BOARD_NUM_ROWS <= u32::MAX,
        ensures
            final(self).wf(),
            final(self).board@.piece_in_grid() == old(self).board@.piece_in_grid(),
            final(self).score_board@ == old(self).score_board@.updated(full_rows(old(self).board@.grid)),
            final(self).board@ == if old(self).score_board@.levels_up(full_rows(old(self).board@.grid)) {
                old(self).board@.with_lines_cleared().sped_up()
            } else {
                old(self).board@.with_lines_cleared()
            },
            report == (Tick {
                landed,
                lines: full_rows(old(self).board@.grid) as usize,
                level_up: old(self).score_board@.levels_up(full_rows(old(self).board@.grid)),
                game_over: final(self).board@.is_full(),
            }),
    {
        proof {
            lemma_kept_rows_dimensions(self.board@.grid, BOARD_NUM_COLS as nat);
        }
        let lines = self.board.check_completed_lines();
        let level_up = self.score_board.update(lines);
        if level_up {
            self.board.increase_speed();
        }
        let game_over = self.board.board_is_full();
        Tick { landed, lines, level_up, game_over }
    }

    /// Lets `delta` pass: the piece falls or lands where its countdown
    /// runs out, full rows are cleared and booked on the score, a new
    /// level makes the board faster, and the game is lost where the
    /// piece then stands blocked in the top row.
    pub fn tick(&mut self, delta: Duration) -> (report: Tick)
        requires
            old(self).wf(),
            old(self).ready_to_tick(duration_nanos(delta)),
        ensures
            final(self).wf(),
            final(self).board@.piece_in_grid() == (old(self).board@.due(duration_nanos(delta)) || old(
                self,
            ).board@.piece_in_grid()),
            exists|draw: u32|
                tick_brings(
                    old(self).board@,
                    old(self).score_board@,
                    duration_nanos(delta),
                    #[trigger] canonical_block(kind_drawn(draw), old(self).board@.cell_width),
                    final(self).board@,
                    final(self).score_board@,
                    report,
                ),
    {
        let landed = self.board.update(delta);
        let ghost fallen = self.board@;
        let report = self.settle_up(landed);
        proof {
            let draw = choose|draw: u32|
                fallen == old(self).board@.after_update(
                    duration_nanos(delta),
                    canonical_block(kind_drawn(draw), old(self).board@.cell_width),
                );
            let fresh = canonical_block(kind_drawn(draw), old(self).board@.cell_width);
            assert(tick_brings(
                old(self).board@,
                old(self).score_board@,
                duration_nanos(delta),
                fresh,
                self.board@,
                self.score_board@,
                report,
            ));
        }
        report
    }

    /// As `tick`, with the number that picks the kind of the fresh piece
    /// given instead of drawn.
    pub fn tick_with(&mut self, delta: Duration, draw: u32) -> (report: Tick)
        requires
            old(self).wf(),
            old(self).ready_to_tick(duration_nanos(delta)),
        ensures
            final(self).wf(),
            final(self).board@.piece_in_grid() == (old(self).board@.due(duration_nanos(delta)) || old(
                self,
            ).board@.piece_in_grid()),
            final(self).board@ == board_after_tick(
                old(self).board@,
                old(self).score_board@,
                duration_nanos(delta),
                canonical_block(kind_drawn(draw), old(self).board@.cell_width),
            ),
            final(self).score_board@ == score_after_tick(
                old(self).board@,
                old(self).score_board@,
                duration_nanos(delta),
                canonical_block(kind_drawn(draw), old(self).board@.cell_width),
            ),
            report == report_of(
                old(self).board@,
                old(self).score_board@,
                duration_nanos(delta),
                canonical_block(kind_drawn(draw), old(self).board@.cell_width),
            ),
    {
        let landed = self.board.update_with(delta, draw);
        self.settle_up(landed)
    }
}

impl Drawable for Game {
    open spec fn fits_canvas(&self) -> bool {
        self.board.fits_canvas() && self.score_board.fits_canvas()
    }

    open spec fn painted(&self, before: Seq<Seq<char>>) -> Seq<Seq<char>> {
        self.score_board.painted(self.board.painted(before))
    }

    /// Draws the board, and then the score.
    fn draw(&self, frame: &mut Frame) {
        self.board.draw(frame);
        self.score_board.draw(frame);
    }
}

} // verus!
