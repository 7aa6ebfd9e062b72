//! Executable-documentation pipeline: plans code blocks found in a Markdown
//! document, runs them through registered runners, caches results between
//! runs, and rewrites the document with captions and captured output.

pub mod config;
pub mod console;
pub mod content;
pub mod document;
pub mod executor;
pub mod formatter;
pub mod parser;
pub mod paths;
pub mod runner;
pub mod text;
pub mod yamlio;
