//! The changes made to card performance during a drill session, kept in
//! memory so that they are written to the database only when the session
//! ends (which makes undo simple, and lets a session be abandoned).

use std::collections::HashMap;

use vstd::prelude::*;

use crate::error::ErrorReport;
use crate::error::Fallible;
use crate::types::card::CardHash;
use crate::types::date::Date;
use crate::types::date::Timestamp;
use crate::types::performance::Performance;
use crate::types::performance::ReviewedPerformance;

verus! {

broadcast use vstd::std_specs::hash::group_hash_axioms;

/// The performance after one more review.
pub open spec fn reviewed(
    p: Performance,
    last_reviewed_at: Timestamp,
    stability: u64,
    difficulty: u64,
    interval_raw: u64,
    interval_days: usize,
    due_date: Date,
) -> Performance {
    let count: int = match p {
        Performance::New => 0,
        Performance::Reviewed(rp) => rp.review_count as int,
    };
    Performance::Reviewed(
        ReviewedPerformance {
            last_reviewed_at,
            stability,
            difficulty,
            interval_raw,
            interval_days,
            due_date,
            review_count: (count + 1) as usize,
        },
    )
}

/// An in-memory cache of card performance changes, keyed by card hash.
pub struct Cache {
    changes: HashMap<u64, Performance>,
}

impl View for Cache {
    type V = Map<u64, Performance>;

    closed spec fn view(&self) -> Map<u64, Performance> {
        self.changes@
    }
}

impl Cache {
    /// Creates a new, empty cache.
    pub fn new() -> (r: Cache)
        ensures
            r@ == Map::<u64, Performance>::empty(),
    {
        Cache { changes: HashMap::new() }
    }

    /// Inserts a card's performance information. If the hash is already in
    /// the cache, returns an error and leaves the cache as it was.
    pub fn insert(&mut self, card_hash: CardHash, performance: Performance) -> (r: Fallible<()>)
        ensures
            old(self)@.contains_key(card_hash.value) ==> r is Err && final(self)@ == old(self)@,
            !old(self)@.contains_key(card_hash.value) ==> r is Ok && final(self)@ == old(self)@.insert(
                card_hash.value,
                performance,
            ),
    {
        if self.changes.contains_key(&card_hash.value) {
            return Err(ErrorReport::new("Card already in the cache."));
        }
        self.changes.insert(card_hash.value, performance);
        Ok(())
    }

    /// Retrieves a card's performance information. If the hash is not in
    /// the cache, returns an error.
    pub fn get(&self, card_hash: CardHash) -> (r: Fallible<&Performance>)
        ensures
            self@.contains_key(card_hash.value) ==> (r matches Ok(p) && *p == self@[card_hash.value]),
            !self@.contains_key(card_hash.value) ==> r is Err,
    {
        match self.changes.get(&card_hash.value) {
            Some(p) => Ok(p),
            None => Err(ErrorReport::new("Card not in the cache.")),
        }
    }

    /// Updates a card's performance information after a review: the card
    /// becomes reviewed at `last_reviewed_at`, with the new parameters,
    /// interval and due date, and one more review. If the hash is not in the cache,
    /// returns an error and leaves the cache as it was.
    pub fn update(
        &mut self,
        card_hash: CardHash,
        last_reviewed_at: Timestamp,
        stability: u64,
        difficulty: u64,
        interval_raw: u64,
        interval_days: usize,
        due_date: Date,
    ) -> (r: Fallible<()>)
        requires
            old(self)@.contains_key(card_hash.value) ==> match old(self)@[card_hash.value] {
                Performance::New => true,
                Performance::Reviewed(rp) => rp.review_count < usize::MAX,
            },
        ensures
            old(self)@.contains_key(card_hash.value) ==> r is Ok && final(self)@ == old(self)@.insert(
                card_hash.value,
                reviewed(
                    old(self)@[card_hash.value],
                    last_reviewed_at,
                    stability,
                    difficulty,
                    interval_raw,
                    interval_days,
                    due_date,
                ),
            ),
            !old(self)@.contains_key(card_hash.value) ==> r is Err && final(self)@ == old(self)@,
    {
        let count: usize = match self.changes.get(&card_hash.value) {
            None => {
                return Err(ErrorReport::new("Card not in the cache."));
            },
            Some(Performance::New) => 0,
            Some(Performance::Reviewed(rp)) => rp.review_count,
        };
        let p = Performance::Reviewed(
            ReviewedPerformance {
                last_reviewed_at,
                stability,
                difficulty,
                interval_raw,
                interval_days,
                due_date,
                review_count: count + 1,
            },
        );
        self.changes.insert(card_hash.value, p);
        Ok(())
    }

    /// Consumes the cache, returning the underlying map.
    pub fn into_inner(self) -> (r: HashMap<u64, Performance>)
        ensures
            r@ == self@,
    {
        self.changes
    }
}

/// After `insert` the card is in the cache (so `insert` refuses it a
/// second time) and `get` reads back what `insert` stored.
pub proof fn law_cache_insert_then_get(m: Map<u64, Performance>, h: u64, p: Performance)
    requires
        !m.contains_key(h),
    ensures
        m.insert(h, p).contains_key(h),
        m.insert(h, p)[h] == p,
{
}

/// After `update`, `get` gives the card as reviewed once more, with the
/// values given.
pub proof fn law_cache_update_then_get(
    m: Map<u64, Performance>,
    h: u64,
    at: Timestamp,
    stability: u64,
    difficulty: u64,
    interval_raw: u64,
    interval_days: usize,
    due: Date,
)
    requires
        m.contains_key(h),
        m[h] matches Performance::Reviewed(rp) ==> rp.review_count < usize::MAX,
    ensures
        ({
            let n = m.insert(h, reviewed(m[h], at, stability, difficulty, interval_raw, interval_days, due));
            let before: int = match m[h] {
                Performance::New => 0,
                Performance::Reviewed(rp) => rp.review_count as int,
            };
            &&& n.contains_key(h)
            &&& n[h] matches Performance::Reviewed(rp) && rp.last_reviewed_at == at && rp.stability
                == stability && rp.difficulty == difficulty && rp.interval_raw == interval_raw
                && rp.interval_days == interval_days && rp.due_date == due && rp.review_count == before + 1
        }),
{
}

} // verus!
