pub mod board;
pub mod piece;
pub mod prelude;
pub mod protocol;
