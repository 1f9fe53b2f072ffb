//! Values read from the compiler's view of a parsed source file.

pub mod utils;
pub mod wrapper;

pub use utils::{format_cursor, DxcCursorNames};
pub use wrapper::{DxcCursor, DxcSourceOffsets};
