//! Which cards a drill session of the server asks about.

use std::collections::HashSet;

use vstd::prelude::*;

use crate::cmd::drill::server::bury_siblings;
use crate::cmd::serve::config::ResolvedCollection;
use crate::cmd::drill::server::buried;
use crate::text::chars_eq;
use crate::text::chars_of;
use crate::types::card::card_views;
use crate::types::card::content_hash;
use crate::types::card::Card;
use crate::types::card::CardView;

verus! {

broadcast use vstd::std_specs::hash::group_hash_axioms;

/// Form data for the start-drill endpoint: the decks selected, none
/// meaning all of them.
pub struct StartDrillForm {
    pub decks: Vec<String>,
}

/// The cards whose deck is among `decks`, in order.
pub open spec fn in_decks(cs: Seq<CardView>, decks: Seq<Seq<char>>) -> Seq<CardView>
    decreases cs.len(),
{
    if cs.len() == 0 {
        seq![]
    } else if decks.contains(cs.last().deck_name) {
        in_decks(cs.drop_last(), decks).push(cs.last())
    } else {
        in_decks(cs.drop_last(), decks)
    }
}

/// The cards whose hash is among `due`, in order.
pub open spec fn due_among(cs: Seq<CardView>, due: Set<u64>) -> Seq<CardView>
    decreases cs.len(),
{
    if cs.len() == 0 {
        seq![]
    } else if due.contains(content_hash(cs.last().content).value) {
        due_among(cs.drop_last(), due).push(cs.last())
    } else {
        due_among(cs.drop_last(), due)
    }
}

/// The cards of a session, before shuffling: those of the selected decks
/// (all when none is selected), due today, with siblings buried if asked.
pub open spec fn session_selection(cs: Seq<CardView>, decks: Seq<Seq<char>>, due: Set<u64>, bury: bool) -> Seq<CardView> {
    let picked = if decks.len() == 0 {
        cs
    } else {
        in_decks(cs, decks)
    };
    let d = due_among(picked, due);
    if bury {
        buried(d)
    } else {
        d
    }
}

fn names_contain(names: &Vec<String>, n: &String) -> (r: bool)
    ensures
        r == names@.map_values(|s: String| s@).contains(n@),
{
    let ghost nv = names@.map_values(|s: String| s@);
    let c = chars_of(n.as_str());
    let mut k: usize = 0;
    while k < names.len()
        invariant
            k <= names@.len(),
            nv == names@.map_values(|s: String| s@),
            c@ == n@,
            forall|m: int| 0 <= m < k ==> nv[m] != n@,
        decreases names.len() - k,
    {
        let d = chars_of(names[k].as_str());
        if chars_eq(d.as_slice(), c.as_slice()) {
            assert(nv[k as int] == n@);
            return true;
        }
        k = k + 1;
    }
    false
}

/// The cards of a session, before shuffling: the cards of the selected
/// decks (all when none is selected), due today (their hash among `due`),
/// with siblings buried when `bury` is set.
pub fn session_cards(cards: Vec<Card>, selected_decks: &Vec<String>, due: &HashSet<u64>, bury: bool) -> (r: Vec<Card>)
    ensures
        card_views(r@) == session_selection(
            card_views(cards@),
            selected_decks@.map_values(|s: String| s@),
            due@,
            bury,
        ),
{
    let ghost cv = card_views(cards@);
    let ghost decks = selected_decks@.map_values(|s: String| s@);
    let mut picked: Vec<Card> = Vec::new();
    let mut i: usize = 0;
    assert(cv.take(0) =~= Seq::<CardView>::empty());
    assert(card_views(picked@) =~= Seq::<CardView>::empty());
    while i < cards.len()
        invariant
            i <= cards@.len(),
            cv == card_views(cards@),
            decks == selected_decks@.map_values(|s: String| s@),
            card_views(picked@) == due_among(
                if decks.len() == 0 {
                    cv.take(i as int)
                } else {
                    in_decks(cv.take(i as int), decks)
                },
                due@,
            ),
        decreases cards.len() - i,
    {
        proof {
            assert(cv.take(i + 1).drop_last() =~= cv.take(i as int));
            assert(cv.take(i + 1).last() == cards@[i as int]@);
        }
        let in_selection = selected_decks.len() == 0 || names_contain(selected_decks, cards[i].deck_name());
        let is_due = due.contains(&cards[i].hash().value);
        let ghost before = card_views(picked@);
        proof {
            let pre = if decks.len() == 0 {
                cv.take(i as int)
            } else {
                in_decks(cv.take(i as int), decks)
            };
            let post = if decks.len() == 0 {
                cv.take(i + 1)
            } else {
                in_decks(cv.take(i + 1), decks)
            };
            if in_selection {
                assert(post == pre.push(cv[i as int]));
                assert(post.drop_last() =~= pre);
            } else {
                assert(post == pre);
            }
        }
        if in_selection && is_due {
            picked.push(cards[i].clone());
            assert(card_views(picked@) =~= before.push(cards@[i as int]@));
        }
        i = i + 1;
    }
    assert(cv.take(cv.len() as int) =~= cv);
    if bury {
        let r = bury_siblings(picked);
        r
    } else {
        picked
    }
}

/// The configured collection with the slug `slug`: the first one, or
/// `None` if no collection has it.
pub fn find_collection<'a>(collections: &'a Vec<ResolvedCollection>, slug: &str) -> (r: Option<
    &'a ResolvedCollection,
>)
    ensures
        match r {
            None => forall|i: int| 0 <= i < collections@.len() ==> #[trigger] collections@[i].slug@ != slug@,
            Some(c) => exists|i: int|
                0 <= i < collections@.len() && *c == collections@[i] && c.slug@ == slug@ && forall|j: int|
                    0 <= j < i ==> #[trigger] collections@[j].slug@ != slug@,
        },
{
    let s = chars_of(slug);
    let mut i: usize = 0;
    while i < collections.len()
        invariant
            i <= collections@.len(),
            s@ == slug@,
            forall|j: int| 0 <= j < i ==> #[trigger] collections@[j].slug@ != slug@,
        decreases collections.len() - i,
    {
        let c = &collections[i];
        let cs = chars_of(c.slug.as_str());
        if chars_eq(cs.as_slice(), s.as_slice()) {
            return Some(c);
        }
        i = i + 1;
    }
    None
}

/// The cards of the selected decks are exactly those, in order, whose deck
/// is any one of the selected decks.
pub proof fn law_in_decks_keeps_selected(cs: Seq<CardView>, decks: Seq<Seq<char>>)
    ensures
        in_decks(cs, decks) == cs.filter(|c: CardView| decks.contains(c.deck_name)),
    decreases cs.len(),
{
    reveal(Seq::filter);
    if cs.len() > 0 {
        law_in_decks_keeps_selected(cs.drop_last(), decks);
    }
}

/// The due cards are exactly those, in order, whose hash is among `due`.
pub proof fn law_due_among_keeps_due(cs: Seq<CardView>, due: Set<u64>)
    ensures
        due_among(cs, due) == cs.filter(|c: CardView| due.contains(content_hash(c.content).value)),
    decreases cs.len(),
{
    reveal(Seq::filter);
    if cs.len() > 0 {
        law_due_among_keeps_due(cs.drop_last(), due);
    }
}

/// Without burying, a session drills exactly the due cards of the selected
/// decks (of all decks when none is selected), in order.
pub proof fn law_session_selection(cs: Seq<CardView>, decks: Seq<Seq<char>>, due: Set<u64>)
    ensures
        session_selection(cs, decks, due, false) == cs.filter(
            |c: CardView| decks.len() == 0 || decks.contains(c.deck_name),
        ).filter(|c: CardView| due.contains(content_hash(c.content).value)),
{
    let p = |c: CardView| decks.len() == 0 || decks.contains(c.deck_name);
    let q = |c: CardView| due.contains(content_hash(c.content).value);
    if decks.len() == 0 {
        lemma_filter_true(cs, p);
    } else {
        law_in_decks_keeps_selected(cs, decks);
        assert(cs.filter(|c: CardView| decks.contains(c.deck_name)) =~= cs.filter(p)) by {
            lemma_filter_same(cs, |c: CardView| decks.contains(c.deck_name), p);
        }
    }
    law_due_among_keeps_due(cs.filter(p), due);
    assert(session_selection(cs, decks, due, false) == cs.filter(p).filter(q));
}

proof fn lemma_filter_true(cs: Seq<CardView>, p: spec_fn(CardView) -> bool)
    requires
        forall|c: CardView| #[trigger] p(c),
    ensures
        cs.filter(p) == cs,
    decreases cs.len(),
{
    reveal(Seq::filter);
    if cs.len() > 0 {
        lemma_filter_true(cs.drop_last(), p);
        assert(cs.drop_last().push(cs.last()) =~= cs);
    }
}

proof fn lemma_filter_same(cs: Seq<CardView>, p: spec_fn(CardView) -> bool, q: spec_fn(CardView) -> bool)
    requires
        forall|c: CardView| #[trigger] p(c) == q(c),
    ensures
        cs.filter(p) == cs.filter(q),
    decreases cs.len(),
{
    reveal(Seq::filter);
    if cs.len() > 0 {
        lemma_filter_same(cs.drop_last(), p, q);
    }
}

} // verus!
