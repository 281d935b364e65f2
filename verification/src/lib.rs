//! Rules engine of a ball-sorting puzzle: a grid of fixed-capacity columns
//! holds coloured tokens, and the player moves the topmost token of one column
//! onto another until every column is monochromatic.
//!
//! - `slot`: a cell of the grid and the style in which it is drawn.
//! - `model`, `layout`, `laws`: the board as mathematics, the layout that
//!   boards are generated from, and what holds of every board.
//! - `board`: the board itself: generation, queries and the move.
//! - `scores`, `ledger`: the results achieved, by dimensions of the board.
//! - `lifecycle`, `session`: a game from start to win, with what is kept of
//!   it between runs.

pub mod board;
pub mod laws;
pub mod layout;
pub mod ledger;
pub mod lifecycle;
pub mod model;
pub mod scores;
pub mod session;
pub mod slot;
