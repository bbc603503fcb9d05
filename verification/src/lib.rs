//! Completion engine for the Ghostty terminal configuration language: what
//! the cursor of a configuration line stands on, which keys and values are
//! offered there, the open documents' texts, and where the editor extension
//! finds the language server.

pub mod text;
pub mod context;
pub mod item;
pub mod schema;
pub mod values;
pub mod documents;
pub mod completion;
pub mod extension;
pub mod laws;
