pub mod ast;
pub mod errors;
pub mod eval;
pub mod laws;
pub mod parse;
pub mod render;

pub use ast::{Arithmetic, Bitwise, Color, Command, Comparison, Coordinates, Coords, StackOperation};
pub use errors::{FxytError, ParseError};
pub use parse::parse;
pub use render::{render, Frame};
