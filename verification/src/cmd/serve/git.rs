use std::collections::HashSet;

use vstd::prelude::*;

use crate::cmd::serve::config::ResolvedCollection;
use crate::cmd::serve::state::CollectionInfo;
use crate::cmd::serve::session::due_among;
use crate::types::card::card_views;
use crate::types::card::content_hash;
use crate::types::card::Card;
use crate::types::card::CardView;

verus! {

broadcast use vstd::std_specs::hash::group_hash_axioms;

/// Does `info` show the collection `rc` with the given card counts (no
/// counts: zero cards)?
pub open spec fn shows(info: CollectionInfo, rc: ResolvedCollection, counts: Option<(usize, usize)>) -> bool {
    &&& info.name@ == rc.name@
    &&& info.slug@ == rc.slug@
    &&& match counts {
        Some((total, due)) => info.total_cards == total && info.due_today == due,
        None => info.total_cards == 0 && info.due_today == 0,
    }
}

/// The landing-page entry of a collection whose cards were counted as
/// `counts` (`None` where counting failed: zero cards are shown).
pub fn collection_info(rc: &ResolvedCollection, counts: Option<(usize, usize)>) -> (r: CollectionInfo)
    ensures
        shows(r, *rc, counts),
{
    let (total_cards, due_today) = match counts {
        Some(c) => c,
        None => (0, 0),
    };
    CollectionInfo { name: rc.name.clone(), slug: rc.slug.clone(), total_cards, due_today }
}

/// The landing-page entries of the collections, `counts[i]` being the card
/// counts of `collections[i]` (`None` where counting failed).
pub fn refresh_collection_info(
    collections: &[ResolvedCollection],
    counts: &[Option<(usize, usize)>],
) -> (r: Vec<CollectionInfo>)
    requires
        counts@.len() == collections@.len(),
    ensures
        r@.len() == collections@.len(),
        forall|i: int| 0 <= i < r@.len() ==> shows(#[trigger] r@[i], collections@[i], counts@[i]),
{
    let mut infos: Vec<CollectionInfo> = Vec::new();
    let mut i: usize = 0;
    while i < collections.len()
        invariant
            i <= collections@.len(),
            counts@.len() == collections@.len(),
            infos@.len() == i,
            forall|j: int| 0 <= j < i ==> shows(#[trigger] infos@[j], collections@[j], counts@[j]),
        decreases collections.len() - i,
    {
        infos.push(collection_info(&collections[i], counts[i]));
        i = i + 1;
    }
    infos
}

/// The hashes of the cards not among `known` (those the database has), in
/// order: the cards to add to the database.
pub open spec fn unknown_hashes(cs: Seq<CardView>, known: Set<u64>) -> Seq<u64>
    decreases cs.len(),
{
    if cs.len() == 0 {
        seq![]
    } else {
        let prev = unknown_hashes(cs.drop_last(), known);
        let h = content_hash(cs.last().content).value;
        if known.contains(h) {
            prev
        } else {
            prev.push(h)
        }
    }
}

/// The hashes of the cards the database does not know yet, in order.
pub fn unknown_card_hashes(cards: &[Card], known: &HashSet<u64>) -> (r: Vec<u64>)
    ensures
        r@ == unknown_hashes(card_views(cards@), known@),
{
    let ghost cv = card_views(cards@);
    let mut out: Vec<u64> = Vec::new();
    let mut i: usize = 0;
    assert(cv.take(0) =~= Seq::<CardView>::empty());
    while i < cards.len()
        invariant
            i <= cards@.len(),
            cv == card_views(cards@),
            out@ == unknown_hashes(cv.take(i as int), known@),
        decreases cards.len() - i,
    {
        proof {
            assert(cv.take(i + 1).drop_last() =~= cv.take(i as int));
            assert(cv.take(i + 1).last() == cards@[i as int]@);
        }
        let h = cards[i].hash().value;
        if !known.contains(&h) {
            out.push(h);
        }
        i = i + 1;
    }
    assert(cv.take(cv.len() as int) =~= cv);
    out
}

/// The counts shown for a collection: all its cards, and those due today
/// (whose hash is among `due`).
pub fn collection_counts(cards: &[Card], due: &HashSet<u64>) -> (r: (usize, usize))
    ensures
        r.0 == cards@.len(),
        r.1 == due_among(card_views(cards@), due@).len(),
{
    let ghost cv = card_views(cards@);
    let mut n: usize = 0;
    let mut i: usize = 0;
    assert(cv.take(0) =~= Seq::<CardView>::empty());
    while i < cards.len()
        invariant
            i <= cards@.len(),
            cv == card_views(cards@),
            n == due_among(cv.take(i as int), due@).len(),
            n <= i,
        decreases cards.len() - i,
    {
        proof {
            assert(cv.take(i + 1).drop_last() =~= cv.take(i as int));
            assert(cv.take(i + 1).last() == cards@[i as int]@);
        }
        if due.contains(&cards[i].hash().value) {
            n = n + 1;
        }
        i = i + 1;
    }
    assert(cv.take(cv.len() as int) =~= cv);
    (cards.len(), n)
}

} // verus!
