//! Semantic highlighting of Rust source text.
//!
//! A tree walker (`walk`) tags the tokens of a parsed unit (`ast`); the tags
//! and the line comments (`comments`) go into an ordered span registry
//! (`registry`); names whose role syntax leaves open are resolved afterwards
//! from identifier memory and a fallback table (`memory`); the renderer
//! (`render`) inserts the markers into the text in one pass. `highlighter`
//! ties these together; `preprocessor` holds what a document preprocessor
//! decides for each annotated block.
pub mod ast;
pub mod comments;
pub mod error;
pub mod highlighter;
pub mod memory;
pub mod preprocessor;
pub mod registry;
pub mod render;
pub mod tokens;
pub mod walk;

pub use error::IdentificationError;
pub use highlighter::RustHighlighter;
pub use memory::FallbackTable;
pub use tokens::{SpannedToken, TokenTag};
