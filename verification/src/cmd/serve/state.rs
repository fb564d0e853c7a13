use vstd::prelude::*;

use crate::cache::Cache;
use crate::cmd::drill::post::DrillState;
use crate::cmd::drill::server::AnswerControls;
use crate::cmd::serve::config::ResolvedCollection;
use crate::types::card::Card;
use crate::types::date::Timestamp;

verus! {

/// What the landing page shows of a collection.
pub struct CollectionInfo {
    pub name: String,
    pub slug: String,
    pub total_cards: usize,
    pub due_today: usize,
}

/// A collection synced from a HedgeDoc note.
pub struct HedgedocSource {
    /// The URL of the note.
    pub url: String,
    /// Where the note's collection lives.
    pub collection: ResolvedCollection,
    /// The error of the last sync, if it failed.
    pub last_error: Option<String>,
}

/// A drill session of the server: where its cards come from, how it is
/// shown, and where it stands. The review database stays with the caller.
pub struct DrillSession {
    pub directory: String,
    pub macros: Vec<(String, String)>,
    pub total_cards: usize,
    pub session_started_at: Timestamp,
    pub answer_controls: AnswerControls,
    pub cache: Cache,
    pub state: DrillState,
}

impl DrillSession {
    /// A session over `cards`, answer hidden and nothing reviewed yet.
    pub fn new(
        directory: String,
        macros: Vec<(String, String)>,
        cards: Vec<Card>,
        cache: Cache,
        session_started_at: Timestamp,
        answer_controls: AnswerControls,
    ) -> (r: DrillSession)
        ensures
            r.directory@ == directory@,
            r.macros@ == macros@,
            r.total_cards == cards@.len(),
            r.session_started_at == session_started_at,
            r.answer_controls == answer_controls,
            r.cache@ == cache@,
            r.state@.cards == cards@.map_values(|c: Card| c@),
            r.state@.reviews.len() == 0,
            !r.state@.reveal,
            !r.state@.finished,
    {
        let total_cards = cards.len();
        DrillSession {
            directory,
            macros,
            total_cards,
            session_started_at,
            answer_controls,
            cache,
            state: DrillState::new(cards),
        }
    }
}

} // verus!
