pub mod entries;
pub mod index;
pub mod render;
pub mod server;
pub mod state;
pub mod templates;
pub mod url;
