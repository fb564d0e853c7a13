pub mod browse;
pub mod drill;
pub mod due;
pub mod serve;
