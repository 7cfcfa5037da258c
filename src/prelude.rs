pub use crate::board::{Board, Position};
pub use crate::piece::Color::{self, Blue, Green, Orange, Purple, Red, Yellow};
pub use crate::piece::Piece;
pub use crate::piece::Shape::{self, Circle, Clover, Diamond, Square, Star4, Star8};
pub use crate::protocol::{Command, ErrorKind, ParseError};
