use std::time::Duration;

use blockfall::block::{build_block, Block, BlockType};
use blockfall::board::Board;
use blockfall::frame::{new_frame, Drawable, BORDER};
use blockfall::game::{Cue, Game, Intent, Reply, Tick};
use blockfall::score_board::ScoreBoard;

fn empty_cells() -> Vec<Vec<bool>> {
    vec![vec![false; 20]; 20]
}

fn piece_at(kind: BlockType, x: usize, y: usize) -> Block {
    let mut piece = build_block(kind);
    piece.move_to(x, y);
    piece
}

fn game_with(cells: Vec<Vec<bool>>, current: Block, lines_so_far: usize) -> Game {
    let board = Board::from_parts(false, cells, current, build_block(BlockType::T)).unwrap();
    let mut score_board = ScoreBoard::new(25, 18);
    for _ in 0..lines_so_far {
        score_board.update(1);
    }
    Game { board, score_board }
}

fn position(game: &Game) -> (usize, usize) {
    (
        game.board.current_block().current_x(),
        game.board.current_block().current_y(),
    )
}

/// Rows 18 and 19 settled but for the four columns on the left.
fn two_rows_with_a_gap() -> Vec<Vec<bool>> {
    let mut cells = empty_cells();
    for row in 18..20 {
        for column in 4..20 {
            cells[row][column] = true;
        }
    }
    cells
}

#[test]
fn new_game_starts_empty_at_level_one() {
    let game = Game::new(false);
    assert_eq!(game.board.grid(), &empty_cells());
    assert_eq!(game.score_board.score(), 0);
    assert_eq!(game.score_board.level(), 1);
    assert_eq!(game.score_board.total_lines(), 0);
    assert!(game.can_tick(Duration::from_secs(1)));
    assert!(game.can_draw());
    assert!(Game::new(true).can_draw());
}

#[test]
fn new_game_shows_the_score_beside_the_board() {
    let game = Game::new(false);
    let mut frame = new_frame();
    game.draw(&mut frame);
    let mut text = String::new();
    for column in 25..33 {
        text.push(frame[column][18]);
    }
    assert_eq!(text, "Score: 0");
    let mut text = String::new();
    for column in 25..33 {
        text.push(frame[column][20]);
    }
    assert_eq!(text, "Level: 1");
    assert_eq!(frame[0][0], BORDER);
    assert_eq!(frame[26][0], 'N');
}

#[test]
fn intents_move_the_piece() {
    let mut game = game_with(empty_cells(), piece_at(BlockType::Square, 4, 0), 0);
    assert_eq!(game.handle(Intent::MoveLeft), Reply::Nothing);
    assert_eq!(position(&game), (2, 0));
    assert_eq!(game.handle(Intent::MoveLeft), Reply::Nothing);
    assert_eq!(game.handle(Intent::MoveLeft), Reply::Nothing);
    assert_eq!(position(&game), (0, 0));
    assert_eq!(game.handle(Intent::MoveRight), Reply::Nothing);
    assert_eq!(position(&game), (2, 0));
}

#[test]
fn turn_is_made_and_heard() {
    let mut game = game_with(empty_cells(), piece_at(BlockType::Line, 0, 0), 0);
    assert_eq!(game.handle(Intent::Rotate), Reply::Rotated);
    assert_eq!(game.board.current_block().rotation(), 1);
    assert!(game.can_tick(Duration::from_secs(1)));
}

#[test]
fn turn_below_the_floor_leaves_a_game_that_goes_on_until_the_piece_is_to_fall() {
    let mut game = game_with(empty_cells(), piece_at(BlockType::Line, 0, 19), 0);
    assert!(game.can_tick(Duration::from_secs(1)));
    assert!(game.can_handle(Intent::MoveLeft));
    assert_eq!(game.handle(Intent::Rotate), Reply::Rotated);
    assert_eq!(game.board.current_block().rotation(), 1);
    assert!(!game.board.piece_in_grid());
    assert!(!game.can_handle(Intent::MoveLeft));
    assert!(!game.can_handle(Intent::MoveRight));
    assert!(game.can_handle(Intent::Rotate));
    assert!(game.can_handle(Intent::SoftDrop));
    assert!(game.can_handle(Intent::Quit));
    assert!(game.can_draw());
    // Time passes as long as the countdown does not run out.
    assert!(game.can_tick(Duration::from_millis(100)));
    let report = game.tick(Duration::from_millis(100));
    assert_eq!(
        report,
        Tick {
            landed: false,
            lines: 0,
            level_up: false,
            game_over: false
        }
    );
    assert!(game.can_tick(Duration::from_millis(400)));
    assert!(!game.can_tick(Duration::from_millis(401)));
    // One more turn brings the piece back within the grid.
    assert_eq!(game.handle(Intent::Rotate), Reply::Rotated);
    assert!(game.can_tick(Duration::from_millis(401)));
    assert!(game.can_handle(Intent::MoveLeft));
    let report = game.tick_with(Duration::from_millis(401), 2);
    assert!(report.landed);
}

#[test]
fn soft_drop_makes_the_piece_fall_with_the_next_tick() {
    let mut game = game_with(empty_cells(), piece_at(BlockType::Square, 0, 0), 0);
    assert_eq!(game.handle(Intent::SoftDrop), Reply::Nothing);
    assert_eq!(position(&game), (0, 0));
    let report = game.tick_with(Duration::from_millis(1), 0);
    assert_eq!(
        report,
        Tick {
            landed: false,
            lines: 0,
            level_up: false,
            game_over: false
        }
    );
    assert_eq!(position(&game), (0, 1));
}

#[test]
fn quit_changes_nothing() {
    let mut game = game_with(two_rows_with_a_gap(), piece_at(BlockType::Square, 2, 5), 3);
    assert_eq!(game.handle(Intent::Quit), Reply::Quit);
    assert_eq!(position(&game), (2, 5));
    assert_eq!(game.board.grid(), &two_rows_with_a_gap());
    assert_eq!(game.score_board.total_lines(), 3);
}

#[test]
fn tick_before_the_countdown_ends_brings_nothing() {
    let mut game = game_with(empty_cells(), piece_at(BlockType::Square, 0, 0), 0);
    let report = game.tick_with(Duration::from_millis(499), 0);
    assert_eq!(
        report,
        Tick {
            landed: false,
            lines: 0,
            level_up: false,
            game_over: false
        }
    );
    assert_eq!(position(&game), (0, 0));
    assert!(report.cues().is_empty());
}

#[test]
fn landing_in_the_gap_clears_two_lines() {
    let mut game = game_with(two_rows_with_a_gap(), piece_at(BlockType::Square, 0, 18), 0);
    let report = game.tick_with(Duration::from_secs(1), 2);
    assert_eq!(
        report,
        Tick {
            landed: true,
            lines: 2,
            level_up: false,
            game_over: false
        }
    );
    assert_eq!(game.board.grid(), &empty_cells());
    assert_eq!(game.score_board.score(), 250);
    assert_eq!(game.score_board.total_lines(), 2);
    assert_eq!(game.score_board.level(), 1);
    assert_eq!(game.board.current_speed(), 500);
    assert_eq!(
        report.cues(),
        vec![Cue::Landed, Cue::LineCleared, Cue::LineCleared]
    );
}

#[test]
fn tenth_line_brings_the_next_level_and_more_speed() {
    let mut game = game_with(two_rows_with_a_gap(), piece_at(BlockType::Square, 0, 18), 8);
    let report = game.tick_with(Duration::from_secs(1), 2);
    assert_eq!(
        report,
        Tick {
            landed: true,
            lines: 2,
            level_up: true,
            game_over: false
        }
    );
    assert_eq!(game.score_board.score(), 1050);
    assert_eq!(game.score_board.total_lines(), 10);
    assert_eq!(game.score_board.level(), 2);
    assert_eq!(game.board.current_speed(), 450);
    assert_eq!(
        report.cues(),
        vec![Cue::Landed, Cue::LineCleared, Cue::LineCleared, Cue::LevelUp]
    );
    // The countdown runs at the new period.
    let report = game.tick_with(Duration::from_millis(450), 2);
    assert!(!report.landed);
    assert_eq!(position(&game), (0, 0));
    game.tick_with(Duration::from_nanos(1), 2);
    assert_eq!(position(&game), (0, 1));
}

#[test]
fn lines_that_pass_a_multiple_of_ten_bring_no_level() {
    let mut game = game_with(two_rows_with_a_gap(), piece_at(BlockType::Square, 0, 18), 9);
    let report = game.tick_with(Duration::from_secs(1), 2);
    assert!(!report.level_up);
    assert_eq!(game.score_board.total_lines(), 11);
    assert_eq!(game.score_board.level(), 1);
    assert_eq!(game.board.current_speed(), 500);
}

#[test]
fn piece_blocked_in_the_top_row_ends_the_game() {
    let mut cells = empty_cells();
    for row in 2..20 {
        cells[row][0] = true;
        cells[row][1] = true;
    }
    let mut game = game_with(cells, piece_at(BlockType::Square, 0, 0), 0);
    let report = game.tick_with(Duration::from_secs(1), 2);
    assert_eq!(
        report,
        Tick {
            landed: true,
            lines: 0,
            level_up: false,
            game_over: true
        }
    );
    assert_eq!(report.cues(), vec![Cue::Landed, Cue::GameOver]);
}

#[test]
fn tick_with_a_drawn_piece_goes_as_one_with_a_given_piece() {
    let mut game = game_with(two_rows_with_a_gap(), piece_at(BlockType::Square, 0, 18), 0);
    let report = game.tick(Duration::from_secs(1));
    assert_eq!(
        report,
        Tick {
            landed: true,
            lines: 2,
            level_up: false,
            game_over: false
        }
    );
    assert_eq!(game.board.grid(), &empty_cells());
    assert_eq!(game.score_board.score(), 250);
}

#[test]
fn cues_come_in_their_order() {
    let report = Tick {
        landed: true,
        lines: 3,
        level_up: true,
        game_over: true,
    };
    assert_eq!(
        report.cues(),
        vec![
            Cue::Landed,
            Cue::LineCleared,
            Cue::LineCleared,
            Cue::LineCleared,
            Cue::LevelUp,
            Cue::GameOver
        ]
    );
    let report = Tick {
        landed: false,
        lines: 1,
        level_up: false,
        game_over: false,
    };
    assert_eq!(report.cues(), vec![Cue::LineCleared]);
}

#[test]
fn cues_have_their_names() {
    assert_eq!(Cue::Landed.name(), "drop");
    assert_eq!(Cue::LineCleared.name(), "line");
    assert_eq!(Cue::LevelUp.name(), "level_up");
    assert_eq!(Cue::GameOver.name(), "lose");
    assert_eq!(Cue::Rotated.name(), "rotate");
}

#[test]
fn score_board_far_right_cannot_be_drawn() {
    assert!(ScoreBoard::new(52, 39).can_draw());
    assert!(!ScoreBoard::new(53, 39).can_draw());
    assert!(!ScoreBoard::new(52, 40).can_draw());
    let mut board = ScoreBoard::new(50, 0);
    assert!(board.can_draw());
    for _ in 0..10 {
        board.update(1);
    }
    // "Score: 1000" takes eleven columns.
    assert!(!board.can_draw());
}
