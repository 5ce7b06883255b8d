use vstd::prelude::*;

pub mod cell;
pub mod cursor;
pub mod field;
pub mod game;
pub mod term;
pub mod try_add;

pub use cell::Cell;
pub use cursor::Cursor;
pub use field::{Field, FieldError};
pub use term::Buffer;
pub use try_add::TryAdd;

verus! {

} // verus!
