//! The rows kept in the database, as plain values, and the rules the
//! database layer applies to them.

use vstd::prelude::*;

use crate::types::card::CardHash;
use crate::types::card::Grade;
use crate::types::date::date_le;
use crate::types::date::Date;
use crate::types::date::Timestamp;

verus! {

/// One review of a card, as stored. The FSRS values are carried as the
/// bits of their `f64`.
#[derive(Clone, Copy, PartialEq, Eq, Structural, Debug)]
pub struct ReviewRecord {
    pub card_hash: CardHash,
    pub reviewed_at: Timestamp,
    pub grade: Grade,
    pub stability: u64,
    pub difficulty: u64,
    pub interval_raw: u64,
    pub interval_days: usize,
    pub due_date: Date,
}

/// Is a card with the stored due date `due_date` due on `today`? A card
/// never reviewed (no due date) is.
pub open spec fn due_on(due_date: Option<Date>, today: Date) -> bool {
    match due_date {
        None => true,
        Some(d) => date_le(d@, today@),
    }
}

/// Is a card with the stored due date `due_date` due on `today`?
pub fn is_due_on(due_date: Option<Date>, today: Date) -> (r: bool)
    ensures
        r == due_on(due_date, today),
{
    match due_date {
        None => true,
        Some(d) => d.le(&today),
    }
}

} // verus!
