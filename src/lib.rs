//! Named, composable sets of media items: literal sets and set-algebra
//! expressions over other sets by name, a compact postfix text encoding for
//! them, and an evaluator that resolves any expression into a concrete set.

pub mod song;
pub mod format;
pub mod expr;
pub mod library;
pub mod eval;
pub mod parse;
pub mod laws;

pub use eval::RefError;
pub use expr::{SetOp, SongSet, SongTree, SongTreeNode};
pub use library::{Library, LoadError, LoadFailure, Playset, StoreError};
pub use parse::ParseError;
pub use song::Song;
