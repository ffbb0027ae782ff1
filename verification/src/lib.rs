//! An embeddable text-editing core: a UTF-8, grapheme-aware gap buffer,
//! a bounds-checked cursor, a reversible operation history with grouping
//! and a disk-sync mark, and a workspace that owns a set of buffers.

pub mod buffer;
pub mod cursor;
pub mod distance;
pub mod errors;
pub mod gap_buffer;
pub mod history;
pub mod laws;
pub mod line_range;
pub mod operations;
pub mod position;
pub mod range;
pub mod syntax;
pub mod text;
pub mod token;
pub mod type_detection;
pub mod workspace;

pub use crate::buffer::Buffer;
pub use crate::cursor::Cursor;
pub use crate::distance::Distance;
pub use crate::errors::Error;
pub use crate::gap_buffer::GapBuffer;
pub use crate::history::History;
pub use crate::line_range::LineRange;
pub use crate::operations::{Delete, Insert, Operation, OperationGroup, Replace};
pub use crate::position::Position;
pub use crate::range::Range;
pub use crate::token::{Lexeme, LineIterator, Token, TokenIterator, TokenSet};
pub use crate::workspace::Workspace;
