pub mod config;
pub mod git;
pub mod hedgedoc;
pub mod session;
pub mod state;
