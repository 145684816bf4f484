//! Diagram lifecycle core for documents with embedded mermaid fences:
//! scanning a document for diagram fences and rendered blocks, hashing
//! diagram source into cache keys, deriving safe cache paths, sanitizing
//! externally produced SVG, and building the text edits that swap a fence
//! for a rendered block and back.

pub mod text;
pub mod validator;
pub mod cache;
pub mod renderer;
pub mod scanner;
pub mod sanitizer;
pub mod edits;
