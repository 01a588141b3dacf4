//! Codex Atlas core: the symbol graph model, the Dumper-7 header lexer
//! and parser, the structural diff engine, ingest planning and export
//! view-models.
pub mod clock;
pub mod commands;
pub mod diff;
pub mod dumper7;
pub mod digest;
pub mod error;
pub mod export;
pub mod index;
pub mod lexer;
pub mod model;
pub mod parser;
pub mod reporter;
pub mod search;
pub mod settings;
pub mod storage;
pub mod text;
pub mod unity;
pub mod watcher;
