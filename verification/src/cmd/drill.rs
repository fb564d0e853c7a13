pub mod katex;
pub mod post;
pub mod retention;
pub mod server;
pub mod tui;
