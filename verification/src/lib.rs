//! A text-based minesweeper playfield: a rectangular grid hides a fixed
//! number of mines; the player opens or flags cells until every mine is
//! flagged (a win) or a mine is opened (a loss). The grid model, mine
//! placement, adjacency counting, flood reveal, and the win/loss state
//! machine live here, each with its contract.
pub mod counting;
pub mod game;
pub mod numerals;
