//! An opening book built from chess game records: records are deduplicated by
//! a content digest, scored move by move from the point of view of the side to
//! move, and aggregated per (variant, position, move).

pub mod text;
pub mod digest;
pub mod conv;
pub mod pgn;
pub mod bookmove;
pub mod pgnwithdigest;
pub mod engine;
pub mod query;
pub mod book;
