//! Word search on a torus: decides whether a word occurs as a straight
//! line of characters in a rectangular grid whose edges wrap around in
//! both axes.

pub mod directions;
pub mod grid;
pub mod laws;
pub mod matcher;
pub mod query;
pub mod search;

pub use query::Wordsearch;
pub use search::assess;
pub use search::start_letter;

pub use directions::offset_valid;
pub use grid::Grid;
pub use grid::SearchError;
