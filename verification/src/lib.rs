//! A falling-block puzzle played on a fixed grid: pieces, the board that
//! they settle on, the score, and the character canvas that all of it is
//! painted onto.

pub mod block;
pub mod board;
pub mod cells;
pub mod frame;
pub mod game;
pub mod scene;
pub mod score_board;
pub mod timer;
