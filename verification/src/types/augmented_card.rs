//! A card together with what the database knows of it.

use vstd::prelude::*;

use crate::types::card::Card;
use crate::types::date::Date;

verus! {

/// A card with its performance data.
pub struct AugmentedCard {
    /// The card's text data from the filesystem.
    pub card: Card,
    /// The card's performance data from the database.
    pub perf: CardPerformance,
}

/// The performance data of a reviewed card. The FSRS stability and
/// difficulty are carried as the bits of their `f64`.
#[derive(Clone, Copy, PartialEq, Eq, Structural, Debug)]
pub struct CardPerformance {
    pub stability: u64,
    pub difficulty: u64,
    pub due_date: Date,
    pub review_count: usize,
}

} // verus!
