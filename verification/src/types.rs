pub mod card;
pub mod date;
pub mod performance;
pub mod augmented_card;
