//! What the browse server knows of the collection.

use std::collections::HashMap;

use vstd::prelude::*;

use crate::db::ReviewRecord;
use crate::types::card::Card;
use crate::types::card::CardHash;
use crate::types::card::CardView;
use crate::types::card::card_views;
use crate::types::card::content_hash;
use crate::types::date::date_text;
use crate::text::chars_of;
use crate::text::append_chars;
use crate::text::string_from_chars;
use crate::types::date::date_le;
use crate::types::date::Date;
use crate::types::performance::Performance;

verus! {

broadcast use vstd::std_specs::hash::group_hash_axioms;

/// The performance of the card with hash `h`: new when absent.
pub open spec fn performance_in(m: Map<u64, Performance>, h: u64) -> Performance {
    if m.contains_key(h) {
        m[h]
    } else {
        Performance::New
    }
}

/// Is a card with this performance due on `today`? New cards always are.
pub open spec fn due_by(p: Performance, today: Date) -> bool {
    match p {
        Performance::New => true,
        Performance::Reviewed(rp) => date_le(rp.due_date@, today@),
    }
}

/// Is any of the cards new?
pub open spec fn any_new(m: Map<u64, Performance>, cs: Seq<CardView>) -> bool
    decreases cs.len(),
{
    cs.len() > 0 && (any_new(m, cs.drop_last()) || performance_in(
        m,
        content_hash(cs.last().content).value,
    ) is New)
}

/// The earliest due date of the reviewed cards among `cs`, comparing in
/// order and keeping the earlier one.
pub open spec fn earliest_due(m: Map<u64, Performance>, cs: Seq<CardView>) -> Option<Date>
    decreases cs.len(),
{
    if cs.len() == 0 {
        None
    } else {
        let prev = earliest_due(m, cs.drop_last());
        match performance_in(m, content_hash(cs.last().content).value) {
            Performance::New => prev,
            Performance::Reviewed(rp) => match prev {
                None => Some(rp.due_date),
                Some(e) => Some(
                    if date_le(e@, rp.due_date@) {
                        e
                    } else {
                        rp.due_date
                    },
                ),
            },
        }
    }
}

/// The schedule of a group of cards: `New` if any card has never been
/// reviewed (new cards are due at once) or there is none, else `Due` and
/// the earliest due date.
pub open spec fn schedule_text(m: Map<u64, Performance>, cs: Seq<CardView>) -> Seq<char> {
    if any_new(m, cs) {
        "New"@
    } else {
        match earliest_due(m, cs) {
            Some(d) => "Due "@ + date_text(d@.0, d@.1 as nat, d@.2 as nat),
            None => "New"@,
        }
    }
}

/// A new card among the first `n` is one among them all.
proof fn lemma_any_new_prefix(m: Map<u64, Performance>, cs: Seq<CardView>, n: int)
    requires
        0 <= n <= cs.len(),
        any_new(m, cs.take(n)),
    ensures
        any_new(m, cs),
    decreases cs.len(),
{
    if n == cs.len() {
        assert(cs.take(n) =~= cs);
    } else {
        assert(cs.drop_last().take(n) =~= cs.take(n));
        lemma_any_new_prefix(m, cs.drop_last(), n);
    }
}

/// Server state of the browser.
pub struct BrowseState {
    /// Server port.
    pub port: u16,
    /// Hostname to serve resources on.
    pub resource_hostname: String,
    /// The collection directory.
    pub directory: String,
    /// TeX macros.
    pub macros: Vec<(String, String)>,
    /// All the cards in the collection.
    pub cards: Vec<Card>,
    /// Cloze cards grouped by their family hash, sorted by deletion position.
    pub families: HashMap<u64, Vec<Card>>,
    /// Each card's performance data, as of server startup.
    pub performance: HashMap<u64, Performance>,
    /// Each card's review history, in chronological order, as of server
    /// startup.
    pub reviews: HashMap<u64, Vec<ReviewRecord>>,
    /// The date the server was started.
    pub today: Date,
}

impl BrowseState {
    /// The performance of the card with the given hash. Cards absent from
    /// the database are new.
    pub fn performance_of(&self, hash: CardHash) -> (r: Performance)
        ensures
            r == performance_in(self.performance@, hash.value),
    {
        match self.performance.get(&hash.value) {
            Some(p) => *p,
            None => Performance::New,
        }
    }

    /// Is the card due on or before today?
    pub fn is_due(&self, hash: CardHash) -> (r: bool)
        ensures
            r == due_by(performance_in(self.performance@, hash.value), self.today),
    {
        match self.performance_of(hash) {
            Performance::New => true,
            Performance::Reviewed(rp) => rp.due_date.le(&self.today),
        }
    }

    /// The review history of the card with the given hash, in chronological
    /// order; empty for a card never reviewed.
    pub fn reviews_of(&self, hash: CardHash) -> (r: &[ReviewRecord])
        ensures
            r@ == (if self.reviews@.contains_key(hash.value) {
                self.reviews@[hash.value]@
            } else {
                Seq::<ReviewRecord>::empty()
            }),
    {
        match self.reviews.get(&hash.value) {
            Some(v) => v.as_slice(),
            None => &[],
        }
    }

    /// Summarize the schedule of a group of cards: "New" if any card has
    /// never been reviewed (new cards are due immediately), otherwise the
    /// earliest due date.
    pub fn schedule_summary(&self, cards: &[Card]) -> (r: String)
        ensures
            r@ == schedule_text(self.performance@, card_views(cards@)),
    {
        let ghost cv = card_views(cards@);
        let ghost m = self.performance@;
        let mut earliest: Option<Date> = None;
        let mut i: usize = 0;
        assert(cv.take(0) =~= Seq::<CardView>::empty());
        while i < cards.len()
            invariant
                i <= cards@.len(),
                cv == card_views(cards@),
                m == self.performance@,
                !any_new(m, cv.take(i as int)),
                earliest == earliest_due(m, cv.take(i as int)),
            decreases cards.len() - i,
        {
            proof {
                assert(cv.take(i + 1).drop_last() =~= cv.take(i as int));
                assert(cv.take(i + 1).last() == cards@[i as int]@);
            }
            match self.performance_of(cards[i].hash()) {
                Performance::New => {
                    proof {
                        lemma_any_new_prefix(m, cv, i + 1);
                    }
                    proof {
                        reveal_strlit("New");
                    }
                    return "New".to_string();
                },
                Performance::Reviewed(rp) => {
                    earliest = match earliest {
                        Some(date) => Some(date.min(rp.due_date)),
                        None => Some(rp.due_date),
                    };
                },
            }
            i = i + 1;
        }
        assert(cv.take(cv.len() as int) =~= cv);
        match earliest {
            Some(date) => {
                let mut out = chars_of("Due ");
                let d = date.to_string();
                let dc = chars_of(d.as_str());
                append_chars(&mut out, dc.as_slice());
                string_from_chars(out.as_slice())
            },
            None => "New".to_string(),
        }
    }
}

/// A new card is always due; a reviewed card is due on its due date and
/// on every day after it, and on no day before it.
pub proof fn law_due_from_due_date(p: Performance, today: Date, later: Date)
    ensures
        p is New ==> due_by(p, today),
        p matches Performance::Reviewed(rp) ==> (rp.due_date@ == today@ ==> due_by(p, today)),
        p matches Performance::Reviewed(rp) ==> (due_by(p, today) <==> (rp.due_date@.0 < today@.0 || (
        rp.due_date@.0 == today@.0 && (rp.due_date@.1 < today@.1 || (rp.due_date@.1 == today@.1
            && rp.due_date@.2 <= today@.2))))),
        due_by(p, today) && date_le(today@, later@) ==> due_by(p, later),
{
}

} // verus!
