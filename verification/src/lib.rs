//! Plain-text flashcards: the deck parser, media path resolution and the
//! pure parts of the drill and browse front ends, with their contracts.

pub mod error;
pub mod text;
pub mod types;
pub mod cache;
pub mod db;
pub mod parser;
pub mod paths;
pub mod fsys;
pub mod toml_table;
pub mod media;
pub mod markdown;
pub mod cmd;
