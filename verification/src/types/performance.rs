//! What the scheduler knows of a card.

use vstd::prelude::*;

use crate::types::date::Date;
use crate::types::date::Timestamp;

verus! {

/// The scheduling state of a card that has been reviewed. The FSRS
/// stability and difficulty are carried as the bits of their `f64`
/// (`f64::to_bits`), so that they pass through unchanged.
#[derive(Clone, Copy, PartialEq, Eq, Structural, Debug)]
pub struct ReviewedPerformance {
    /// The timestamp when the card was last reviewed.
    pub last_reviewed_at: Timestamp,
    /// The card's stability (an FSRS parameter), as bits.
    pub stability: u64,
    /// The card's difficulty (an FSRS parameter), as bits.
    pub difficulty: u64,
    /// The interval until the next review, in days, as computed (bits of
    /// an `f64`).
    pub interval_raw: u64,
    /// The interval until the next review, in whole days.
    pub interval_days: usize,
    /// The card's next due date.
    pub due_date: Date,
    /// The number of times the card has been reviewed.
    pub review_count: usize,
}

/// Performance information for a card.
#[derive(Clone, Copy, PartialEq, Eq, Structural, Debug)]
pub enum Performance {
    /// The card is new, and has never been reviewed.
    New,
    /// The card has been reviewed at least once.
    Reviewed(ReviewedPerformance),
}

impl Performance {
    /// Has the card never been reviewed?
    pub fn is_new(&self) -> (r: bool)
        ensures
            r == (*self is New),
    {
        match self {
            Performance::New => true,
            Performance::Reviewed(_) => false,
        }
    }
}

} // verus!
