use std::collections::HashSet;

use vstd::prelude::*;

use crate::cmd::browse::url::basic_card_url;
use crate::cmd::browse::url::basic_card_url_of;
use crate::cmd::browse::url::cloze_family_url;
use crate::cmd::browse::url::cloze_family_url_of;
use crate::text::chars_of;
use crate::text::decimal;
use crate::text::decimal_chars;
use crate::text::append_chars;
use crate::text::string_from_chars;
use crate::types::card::content_hash;
use crate::types::card::Card;
use crate::types::card::CardContent;
use crate::types::card::CardHash;
use crate::types::card::ContentView;
use crate::types::card::CardView;
use crate::types::card::card_views;
use crate::cmd::browse::state::BrowseState;
use crate::cmd::browse::state::schedule_text;
use crate::cmd::drill::server::of_deck;
use crate::text::chars_eq;
use crate::text::lowercase;
use crate::text::str_lt;
use crate::text::str_lt_exec;
use crate::text::to_lowercase;
use crate::types::card::family_hash_of;

verus! {

broadcast use vstd::std_specs::hash::group_hash_axioms;

/// A card as written in a deck file: either a basic card, or a family of
/// cloze cards sharing the same text.
#[derive(Clone, Copy)]
pub enum DeckEntry<'a> {
    Basic(&'a Card),
    ClozeFamily(CardHash, &'a [Card]),
}

/// Identifies the entry selected in the card list.
#[derive(Clone, Copy, PartialEq, Eq, Structural, Debug)]
pub enum EntryKey {
    Basic(CardHash),
    Family(CardHash),
}

/// The text of a card's content: a basic card's question, or a cloze
/// card's text.
pub open spec fn content_label(c: ContentView) -> Seq<char> {
    match c {
        ContentView::Basic { question, .. } => question,
        ContentView::Cloze { text, .. } => text,
    }
}

/// The text identifying an entry in the card list.
pub open spec fn entry_label_of(entry: DeckEntry) -> Seq<char> {
    match entry {
        DeckEntry::Basic(card) => content_label(card@.content),
        DeckEntry::ClozeFamily(_, siblings) => if siblings@.len() > 0 {
            match siblings@[0]@.content {
                ContentView::Cloze { text, .. } => text,
                _ => seq![],
            }
        } else {
            seq![]
        },
    }
}

/// The text identifying an entry in the card list: the question of a basic
/// card, or the shared text of a cloze family.
pub fn entry_label<'a>(entry: &DeckEntry<'a>) -> (r: &'a str)
    ensures
        r@ == entry_label_of(*entry),
{
    match entry {
        DeckEntry::Basic(card) => match card.content() {
            CardContent::Basic { question, .. } => question.as_str(),
            CardContent::Cloze { text, .. } => text.as_str(),
        },
        DeckEntry::ClozeFamily(_, siblings) => {
            if siblings.len() > 0 {
                match siblings[0].content() {
                    CardContent::Cloze { text, .. } => text.as_str(),
                    _ => {
                        proof {
                            reveal_strlit("");
                        }
                        ""
                    },
                }
            } else {
                proof {
                    reveal_strlit("");
                }
                ""
            }
        },
    }
}

/// The URL of an entry's detail page.
pub open spec fn entry_url_of(entry: DeckEntry) -> Seq<char> {
    match entry {
        DeckEntry::Basic(card) => basic_card_url_of(content_hash(card@.content)),
        DeckEntry::ClozeFamily(family, _) => cloze_family_url_of(family),
    }
}

/// The URL of an entry's detail page.
pub fn entry_url(entry: &DeckEntry) -> (r: String)
    ensures
        r@ == entry_url_of(*entry),
{
    match entry {
        DeckEntry::Basic(card) => basic_card_url(card.hash()),
        DeckEntry::ClozeFamily(family, _) => cloze_family_url(*family),
    }
}

/// The key identifying an entry, for selection highlighting.
pub open spec fn entry_key_of(entry: DeckEntry) -> EntryKey {
    match entry {
        DeckEntry::Basic(card) => EntryKey::Basic(content_hash(card@.content)),
        DeckEntry::ClozeFamily(family, _) => EntryKey::Family(family),
    }
}

/// The key identifying an entry, for selection highlighting.
pub fn entry_key(entry: &DeckEntry) -> (r: EntryKey)
    ensures
        r == entry_key_of(*entry),
{
    match entry {
        DeckEntry::Basic(card) => EntryKey::Basic(card.hash()),
        DeckEntry::ClozeFamily(family, _) => EntryKey::Family(*family),
    }
}

/// The entry's type, as shown in the card list.
pub open spec fn entry_type_label_of(entry: DeckEntry) -> Seq<char> {
    match entry {
        DeckEntry::Basic(_) => "Basic"@,
        DeckEntry::ClozeFamily(_, siblings) => if siblings@.len() == 1 {
            "Cloze"@
        } else {
            "Cloze × "@ + decimal(siblings@.len())
        },
    }
}

/// The entry's type, as shown in the card list: "Basic", "Cloze", or
/// "Cloze × n".
pub fn entry_type_label(entry: &DeckEntry) -> (r: String)
    ensures
        r@ == entry_type_label_of(*entry),
{
    match entry {
        DeckEntry::Basic(_) => "Basic".to_owned(),
        DeckEntry::ClozeFamily(_, siblings) => {
            if siblings.len() == 1 {
                "Cloze".to_owned()
            } else {
                let mut out = chars_of("Cloze × ");
                let n = decimal_chars(siblings.len() as u64);
                append_chars(&mut out, n.as_slice());
                string_from_chars(out.as_slice())
            }
        },
    }
}

/// The cards of an entry.
pub open spec fn entry_cards(entry: DeckEntry) -> Seq<CardView> {
    match entry {
        DeckEntry::Basic(card) => seq![card@],
        DeckEntry::ClozeFamily(_, siblings) => card_views(siblings@),
    }
}

/// Summarize the schedule of an entry: "New" if any of its cards has never
/// been reviewed (new cards are due immediately), otherwise the earliest due
/// date.
pub fn entry_schedule(state: &BrowseState, entry: &DeckEntry) -> (r: String)
    ensures
        r@ == schedule_text(state.performance@, entry_cards(*entry)),
{
    match entry {
        DeckEntry::Basic(card) => {
            let one: Vec<Card> = vec![Card::clone(*card)];
            assert(card_views(one@) =~= seq![card@]);
            state.schedule_summary(one.as_slice())
        },
        DeckEntry::ClozeFamily(_, siblings) => state.schedule_summary(siblings),
    }
}

// ----------------------------------------------------------------------------
// The entries of a deck.
// ----------------------------------------------------------------------------

/// An entry of a deck, as values.
pub enum EntryView {
    Basic(CardView),
    Family(CardHash, Seq<CardView>),
}

/// The values of an entry.
pub open spec fn entry_view(e: DeckEntry) -> EntryView {
    match e {
        DeckEntry::Basic(card) => EntryView::Basic(card@),
        DeckEntry::ClozeFamily(f, siblings) => EntryView::Family(f, card_views(siblings@)),
    }
}

/// The label of an entry, as values.
pub open spec fn label_of_view(e: EntryView) -> Seq<char> {
    match e {
        EntryView::Basic(c) => content_label(c.content),
        EntryView::Family(_, siblings) => if siblings.len() > 0 {
            match siblings[0].content {
                ContentView::Cloze { text, .. } => text,
                _ => seq![],
            }
        } else {
            seq![]
        },
    }
}

/// Does card `a` come no later than card `b` in its deck file: by file
/// path, then by first line?
pub open spec fn source_le(a: CardView, b: CardView) -> bool {
    str_lt(a.file_path, b.file_path) || (a.file_path == b.file_path && a.range.0 <= b.range.0)
}

/// `x` put into `sorted` after every card that comes no later than it.
pub open spec fn insert_by_source(sorted: Seq<CardView>, x: CardView) -> Seq<CardView>
    decreases sorted.len(),
{
    if sorted.len() == 0 || source_le(sorted.last(), x) {
        sorted.push(x)
    } else {
        insert_by_source(sorted.drop_last(), x).push(sorted.last())
    }
}

/// The cards by source position, stably.
pub open spec fn sorted_by_source(cs: Seq<CardView>) -> Seq<CardView>
    decreases cs.len(),
{
    if cs.len() == 0 {
        seq![]
    } else {
        insert_by_source(sorted_by_source(cs.drop_last()), cs.last())
    }
}

/// Does a card before position `i` belong to the family `f`?
pub open spec fn family_before(cs: Seq<CardView>, i: int, f: CardHash) -> bool {
    exists|j: int| 0 <= j < i && #[trigger] family_hash_of(cs[j].content) == Some(f)
}

/// The entries of the cards, in order: one per basic card, one per cloze
/// family at its first card (when the family is known).
pub open spec fn grouped(cs: Seq<CardView>, fams: Map<u64, Seq<CardView>>) -> Seq<EntryView>
    decreases cs.len(),
{
    if cs.len() == 0 {
        seq![]
    } else {
        let prev = grouped(cs.drop_last(), fams);
        match family_hash_of(cs.last().content) {
            None => prev.push(EntryView::Basic(cs.last())),
            Some(f) => if family_before(cs, cs.len() - 1, f) {
                prev
            } else if fams.contains_key(f.value) {
                prev.push(EntryView::Family(f, fams[f.value]))
            } else {
                prev
            },
        }
    }
}

/// `x` put into `sorted` after every entry whose lowercased label is at
/// most its own.
pub open spec fn insert_by_label(sorted: Seq<EntryView>, x: EntryView) -> Seq<EntryView>
    decreases sorted.len(),
{
    if sorted.len() == 0 || !str_lt(lowercase(label_of_view(x)), lowercase(label_of_view(sorted.last()))) {
        sorted.push(x)
    } else {
        insert_by_label(sorted.drop_last(), x).push(sorted.last())
    }
}

/// The entries by lowercased label, stably.
pub open spec fn sorted_by_label(es: Seq<EntryView>) -> Seq<EntryView>
    decreases es.len(),
{
    if es.len() == 0 {
        seq![]
    } else {
        insert_by_label(sorted_by_label(es.drop_last()), es.last())
    }
}

/// The values of the families of the state.
pub open spec fn family_views(m: Map<u64, Vec<Card>>) -> Map<u64, Seq<CardView>> {
    m.map_values(|v: Vec<Card>| card_views(v@))
}

/// The entries of deck `deck`: its cards by source position, grouped
/// into entries, ordered by lowercased label.
pub open spec fn deck_entries_of(cards: Seq<CardView>, fams: Map<u64, Seq<CardView>>, deck: Seq<char>) -> Seq<EntryView> {
    sorted_by_label(grouped(sorted_by_source(of_deck(cards, deck)), fams))
}

/// The values of a sequence of card references.
pub open spec fn ref_views(v: Seq<&Card>) -> Seq<CardView> {
    v.map_values(|c: &Card| c@)
}

/// The values of a sequence of entries.
pub open spec fn entry_views(v: Seq<DeckEntry>) -> Seq<EntryView> {
    v.map_values(|e: DeckEntry| entry_view(e))
}

fn source_le_exec(a: &Card, b: &Card) -> (r: bool)
    ensures
        r == source_le(a@, b@),
{
    let fa = chars_of(a.file_path().as_str());
    let fb = chars_of(b.file_path().as_str());
    if str_lt_exec(fa.as_slice(), fb.as_slice()) {
        return true;
    }
    chars_eq(fa.as_slice(), fb.as_slice()) && a.range().0 <= b.range().0
}

fn insert_by_source_exec<'a>(v: &mut Vec<&'a Card>, x: &'a Card)
    ensures
        ref_views(final(v)@) == insert_by_source(ref_views(old(v)@), x@),
{
    let ghost s = ref_views(v@);
    let ghost xv = x@;
    let mut k: usize = v.len();
    assert(s.take(k as int) =~= s);
    assert(s.skip(k as int) =~= Seq::<CardView>::empty());
    assert(insert_by_source(s, xv) =~= insert_by_source(s.take(k as int), xv) + s.skip(k as int));
    while k > 0 && !source_le_exec(v[k - 1], x)
        invariant
            k <= v@.len(),
            ref_views(v@) == s,
            xv == x@,
            insert_by_source(s, xv) == insert_by_source(s.take(k as int), xv) + s.skip(k as int),
        decreases k,
    {
        proof {
            assert(s[k - 1] == v@[k - 1]@);
            assert(s.take(k as int).drop_last() =~= s.take(k - 1));
            assert(s.take(k as int).last() == s[k - 1]);
            assert(insert_by_source(s.take(k as int), xv) == insert_by_source(s.take(k - 1), xv).push(s[k - 1]));
            assert(insert_by_source(s.take(k - 1), xv).push(s[k - 1]) + s.skip(k as int) =~= insert_by_source(
                s.take(k - 1),
                xv,
            ) + s.skip(k - 1));
        }
        k = k - 1;
    }
    proof {
        if k > 0 {
            assert(s[k - 1] == v@[k - 1]@);
            assert(s.take(k as int).last() == s[k - 1]);
        }
        assert(insert_by_source(s.take(k as int), xv) =~= s.take(k as int).push(xv));
    }
    v.insert(k, x);
    assert(ref_views(v@) =~= s.take(k as int).push(xv) + s.skip(k as int));
}

fn entry_sort_key(e: &DeckEntry) -> (r: Vec<char>)
    ensures
        r@ == lowercase(label_of_view(entry_view(*e))),
{
    proof {
        match *e {
            DeckEntry::Basic(card) => {},
            DeckEntry::ClozeFamily(_, siblings) => {
                if siblings@.len() > 0 {
                    assert(card_views(siblings@)[0] == siblings@[0]@);
                }
            },
        }
    }
    let label = entry_label(e);
    let l = to_lowercase(label);
    chars_of(l.as_str())
}

fn insert_by_label_exec<'a>(v: &mut Vec<DeckEntry<'a>>, x: DeckEntry<'a>)
    ensures
        entry_views(final(v)@) == insert_by_label(entry_views(old(v)@), entry_view(x)),
{
    let ghost s = entry_views(v@);
    let ghost xv = entry_view(x);
    let xk = entry_sort_key(&x);
    let mut k: usize = v.len();
    assert(s.take(k as int) =~= s);
    assert(s.skip(k as int) =~= Seq::<EntryView>::empty());
    assert(insert_by_label(s, xv) =~= insert_by_label(s.take(k as int), xv) + s.skip(k as int));
    loop
        invariant
            k <= v@.len(),
            entry_views(v@) == s,
            xv == entry_view(x),
            xk@ == lowercase(label_of_view(xv)),
            insert_by_label(s, xv) == insert_by_label(s.take(k as int), xv) + s.skip(k as int),
        ensures
            k <= v@.len(),
            entry_views(v@) == s,
            insert_by_label(s, xv) == insert_by_label(s.take(k as int), xv) + s.skip(k as int),
            insert_by_label(s.take(k as int), xv) == s.take(k as int).push(xv),
        decreases k,
    {
        if k == 0 {
            assert(s.take(0) =~= Seq::<EntryView>::empty());
            assert(insert_by_label(s.take(0), xv) =~= s.take(0).push(xv));
            break;
        }
        let ek = entry_sort_key(&v[k - 1]);
        assert(s[k - 1] == entry_view(v@[k - 1]));
        if !str_lt_exec(xk.as_slice(), ek.as_slice()) {
            assert(s.take(k as int).last() == s[k - 1]);
            assert(insert_by_label(s.take(k as int), xv) == s.take(k as int).push(xv));
            break;
        }
        proof {
            assert(s.take(k as int).drop_last() =~= s.take(k - 1));
            assert(s.take(k as int).last() == s[k - 1]);
            assert(insert_by_label(s.take(k as int), xv) == insert_by_label(s.take(k - 1), xv).push(s[k - 1]));
            assert(insert_by_label(s.take(k - 1), xv).push(s[k - 1]) + s.skip(k as int) =~= insert_by_label(
                s.take(k - 1),
                xv,
            ) + s.skip(k - 1));
        }
        k = k - 1;
    }
    v.insert(k, x);
    assert(entry_views(v@) =~= s.take(k as int).push(xv) + s.skip(k as int));
}

/// The entries of a deck, in case-insensitive alphabetical order of their
/// text: the deck's cards in order of their source position, a basic card
/// one entry, a cloze family one entry at its first card.
pub fn deck_entries<'a>(state: &'a BrowseState, deck: &str) -> (r: Vec<DeckEntry<'a>>)
    ensures
        entry_views(r@) == deck_entries_of(card_views(state.cards@), family_views(state.families@), deck@),
{
    let ghost cv = card_views(state.cards@);
    let ghost fams = family_views(state.families@);
    let d = chars_of(deck);
    // The cards of the deck.
    let mut cards: Vec<&'a Card> = Vec::new();
    let mut i: usize = 0;
    assert(cv.take(0) =~= Seq::<CardView>::empty());
    assert(ref_views(cards@) =~= Seq::<CardView>::empty());
    while i < state.cards.len()
        invariant
            i <= state.cards@.len(),
            cv == card_views(state.cards@),
            d@ == deck@,
            ref_views(cards@) == of_deck(cv.take(i as int), deck@),
        decreases state.cards.len() - i,
    {
        proof {
            assert(cv.take(i + 1).drop_last() =~= cv.take(i as int));
            assert(cv.take(i + 1).last() == state.cards@[i as int]@);
        }
        let name = chars_of(state.cards[i].deck_name().as_str());
        if chars_eq(name.as_slice(), d.as_slice()) {
            let ghost before = ref_views(cards@);
            cards.push(&state.cards[i]);
            assert(ref_views(cards@) =~= before.push(state.cards@[i as int]@));
        }
        i = i + 1;
    }
    assert(cv.take(cv.len() as int) =~= cv);
    // By source position.
    let ghost dv = ref_views(cards@);
    let mut sorted: Vec<&'a Card> = Vec::new();
    let mut j: usize = 0;
    assert(dv.take(0) =~= Seq::<CardView>::empty());
    assert(ref_views(sorted@) =~= Seq::<CardView>::empty());
    while j < cards.len()
        invariant
            j <= cards@.len(),
            dv == ref_views(cards@),
            ref_views(sorted@) == sorted_by_source(dv.take(j as int)),
        decreases cards.len() - j,
    {
        proof {
            assert(dv.take(j + 1).drop_last() =~= dv.take(j as int));
            assert(dv.take(j + 1).last() == cards@[j as int]@);
        }
        insert_by_source_exec(&mut sorted, cards[j]);
        j = j + 1;
    }
    assert(dv.take(dv.len() as int) =~= dv);
    // One entry per basic card and per family.
    let ghost sv = ref_views(sorted@);
    let mut entries: Vec<DeckEntry<'a>> = Vec::new();
    let mut seen: HashSet<u64> = HashSet::new();
    let mut k: usize = 0;
    assert(sv.take(0) =~= Seq::<CardView>::empty());
    assert(entry_views(entries@) =~= Seq::<EntryView>::empty());
    while k < sorted.len()
        invariant
            k <= sorted@.len(),
            sv == ref_views(sorted@),
            fams == family_views(state.families@),
            entry_views(entries@) == grouped(sv.take(k as int), fams),
            forall|f: u64| #[trigger] seen@.contains(f) <==> family_before(sv, k as int, CardHash { value: f }),
        decreases sorted.len() - k,
    {
        let card: &'a Card = sorted[k];
        let ghost pre = sv.take(k as int);
        let ghost cur = sv.take(k + 1);
        proof {
            assert(cur.drop_last() =~= pre);
            assert(cur.last() == sv[k as int]);
            assert(sv[k as int] == card@);
        }
        let ghost before = entry_views(entries@);
        match card.family_hash() {
            None => {
                entries.push(DeckEntry::Basic(card));
                assert(entry_views(entries@) =~= before.push(EntryView::Basic(card@)));
            },
            Some(f) => {
                proof {
                    assert(family_before(cur, k as int, f) == family_before(sv, k as int, f)) by {
                        if family_before(cur, k as int, f) {
                            let m = choose|m: int| 0 <= m < k && #[trigger] family_hash_of(cur[m].content) == Some(f);
                            assert(cur[m] == sv[m]);
                        }
                        if family_before(sv, k as int, f) {
                            let m = choose|m: int| 0 <= m < k && #[trigger] family_hash_of(sv[m].content) == Some(f);
                            assert(cur[m] == sv[m]);
                        }
                    }
                    assert(f == CardHash { value: f.value });
                }
                let fresh = seen.insert(f.value);
                if fresh {
                    match state.families.get(&f.value) {
                        Some(siblings) => {
                            entries.push(DeckEntry::ClozeFamily(f, siblings.as_slice()));
                            assert(fams[f.value] == card_views(siblings@));
                            assert(entry_views(entries@) =~= before.push(
                                EntryView::Family(f, card_views(siblings@)),
                            ));
                        },
                        None => {},
                    }
                }
            },
        }
        proof {
            assert forall|g: u64| #[trigger] seen@.contains(g) <==> family_before(sv, k + 1, CardHash { value: g }) by {
                if family_before(sv, k + 1, CardHash { value: g }) {
                    let m = choose|m: int| 0 <= m < k + 1 && #[trigger] family_hash_of(sv[m].content) == Some(CardHash { value: g });
                    if m < k {
                        assert(family_before(sv, k as int, CardHash { value: g }));
                    }
                }
                if family_before(sv, k as int, CardHash { value: g }) {
                    let m = choose|m: int| 0 <= m < k && #[trigger] family_hash_of(sv[m].content) == Some(CardHash { value: g });
                    assert(0 <= m < k + 1);
                }
            }
        }
        k = k + 1;
    }
    assert(sv.take(sv.len() as int) =~= sv);
    // By label.
    let ghost ev = entry_views(entries@);
    let mut out: Vec<DeckEntry<'a>> = Vec::new();
    let mut m: usize = 0;
    assert(ev.take(0) =~= Seq::<EntryView>::empty());
    assert(entry_views(out@) =~= Seq::<EntryView>::empty());
    while m < entries.len()
        invariant
            m <= entries@.len(),
            ev == entry_views(entries@),
            entry_views(out@) == sorted_by_label(ev.take(m as int)),
        decreases entries.len() - m,
    {
        proof {
            assert(ev.take(m + 1).drop_last() =~= ev.take(m as int));
            assert(ev.take(m + 1).last() == entry_view(entries@[m as int]));
        }
        insert_by_label_exec(&mut out, entries[m]);
        m = m + 1;
    }
    assert(ev.take(ev.len() as int) =~= ev);
    out
}

} // verus!
