//! Named data hunks embedded in plain-text documents: a `[testmark]:# (name)`
//! marker line followed by a fenced code block. Documents are parsed into hunks
//! with their byte spans, hunks can be edited, and rendering splices the edited
//! hunks back into the untouched surrounding text.

pub mod format;
pub mod laws;
pub mod parser;
pub mod text;

pub use format::{Document, Hunk, HunkModel, HunkPos};
pub use parser::ParseError;
