use vstd::prelude::*;

use crate::error::Fallible;
use crate::types::card::Card;
use crate::types::card::CardContent;
use crate::types::card::CardView;
use crate::types::card::ContentView;

verus! {

/// The deletion ranges of the cloze cards among `cards`, in order.
pub open spec fn deletions_of(cards: Seq<CardView>) -> Seq<(usize, usize)>
    decreases cards.len(),
{
    if cards.len() == 0 {
        seq![]
    } else {
        let prev = deletions_of(cards.drop_last());
        match cards.last().content {
            ContentView::Cloze { start, end, .. } => prev.push((start, end)),
            ContentView::Basic { .. } => prev,
        }
    }
}

/// The text shared by the cards of a cloze family: that of its first card,
/// if it is a cloze card.
pub fn family_text(siblings: &[Card]) -> (r: Fallible<&str>)
    ensures
        siblings@.len() > 0 && siblings@[0]@.content is Cloze ==> (r matches Ok(t) && t@
            == siblings@[0]@.content->text),
        !(siblings@.len() > 0 && siblings@[0]@.content is Cloze) ==> (r matches Err(e)
            && e.message() == "cloze family has no cloze cards."@),
{
    if siblings.len() > 0 {
        if let CardContent::Cloze { text, .. } = siblings[0].content() {
            return Ok(text.as_str());
        }
    }
    crate::error::fail("cloze family has no cloze cards.".to_owned())
}

/// The deletion ranges of the cards of a cloze family.
pub fn family_deletions(siblings: &[Card]) -> (r: Vec<(usize, usize)>)
    ensures
        r@ == deletions_of(siblings@.map_values(|c: Card| c@)),
{
    let mut r: Vec<(usize, usize)> = Vec::new();
    let mut i: usize = 0;
    let ghost views = siblings@.map_values(|c: Card| c@);
    while i < siblings.len()
        invariant
            i <= siblings@.len(),
            views == siblings@.map_values(|c: Card| c@),
            r@ == deletions_of(views.take(i as int)),
        decreases siblings.len() - i,
    {
        assert(views.take(i + 1).drop_last() =~= views.take(i as int));
        assert(views.take(i + 1).last() == siblings@[i as int]@);
        match siblings[i].content() {
            CardContent::Cloze { start, end, .. } => {
                r.push((*start, *end));
            },
            CardContent::Basic { .. } => {},
        }
        i = i + 1;
    }
    assert(views.take(siblings@.len() as int) =~= views);
    r
}

} // verus!
