use vstd::prelude::*;

use crate::types::card::family_hash_of;
use crate::types::card::Card;
use crate::types::card::CardView;
use crate::types::card::card_views;
use crate::text::chars_eq;
use crate::text::chars_of;
use crate::text::append_chars;
use crate::text::string_from_chars;

verus! {

/// The answer buttons offered in a drill session.
#[derive(Clone, Copy, PartialEq, Eq, Structural, Debug)]
pub enum AnswerControls {
    /// Forgot, Hard, Good and Easy.
    Full,
    /// Forgot and Good.
    Binary,
}

/// Does a card before position `i` of `cs` belong to the family `f`?
pub open spec fn family_seen(cs: Seq<CardView>, i: int, f: u64) -> bool {
    exists|j: int| 0 <= j < i && #[trigger] family_hash_of(cs[j].content) == Some(crate::types::card::CardHash { value: f })
}

/// Is the card at position `i` kept when siblings are buried: a basic card,
/// or the first card of its family?
pub open spec fn kept(cs: Seq<CardView>, i: int) -> bool {
    match family_hash_of(cs[i].content) {
        None => true,
        Some(h) => !family_seen(cs, i, h.value),
    }
}

/// The cards of `cs` kept when siblings are buried, in order.
pub open spec fn buried(cs: Seq<CardView>) -> Seq<CardView>
    decreases cs.len(),
{
    if cs.len() == 0 {
        seq![]
    } else if kept(cs, cs.len() - 1) {
        buried(cs.drop_last()).push(cs.last())
    } else {
        buried(cs.drop_last())
    }
}

proof fn lemma_family_seen_prefix(cs: Seq<CardView>, k: int, i: int, f: u64)
    requires
        0 <= i <= k <= cs.len(),
    ensures
        family_seen(cs.take(k), i, f) == family_seen(cs, i, f),
{
    if family_seen(cs, i, f) {
        let j = choose|j: int| 0 <= j < i && #[trigger] family_hash_of(cs[j].content) == Some(crate::types::card::CardHash { value: f });
        assert(cs.take(k)[j] == cs[j]);
    }
    if family_seen(cs.take(k), i, f) {
        let j = choose|j: int| 0 <= j < i && #[trigger] family_hash_of(cs.take(k)[j].content) == Some(crate::types::card::CardHash { value: f });
        assert(cs.take(k)[j] == cs[j]);
    }
}

fn contains_u64(v: &Vec<u64>, x: u64) -> (r: bool)
    ensures
        r == v@.contains(x),
{
    let mut k: usize = 0;
    while k < v.len()
        invariant
            k <= v@.len(),
            forall|m: int| 0 <= m < k ==> v@[m] != x,
        decreases v.len() - k,
    {
        if v[k] == x {
            assert(v@[k as int] == x);
            return true;
        }
        k = k + 1;
    }
    false
}

/// Keep only the first card of each cloze family (basic cards are all
/// kept), in order.
pub fn bury_siblings(deck: Vec<Card>) -> (r: Vec<Card>)
    ensures
        r@.map_values(|c: Card| c@) == buried(deck@.map_values(|c: Card| c@)),
{
    let ghost views = deck@.map_values(|c: Card| c@);
    let mut seen: Vec<u64> = Vec::new();
    let mut result: Vec<Card> = Vec::new();
    let mut deck = deck;
    let n = deck.len();
    let mut i: usize = 0;
    // Take the cards from the front by reversing the vector once.
    let mut rev: Vec<Card> = Vec::new();
    while deck.len() > 0
        invariant
            deck@.len() + rev@.len() == n,
            forall|j: int| 0 <= j < rev@.len() ==> #[trigger] rev@[j]@ == views[n - 1 - j],
            forall|j: int| 0 <= j < deck@.len() ==> #[trigger] deck@[j]@ == views[j],
            views.len() == n,
        decreases deck.len(),
    {
        let c = deck.pop().unwrap();
        rev.push(c);
    }
    while i < n
        invariant
            i <= n,
            views.len() == n,
            rev@.len() == n - i,
            forall|j: int| 0 <= j < rev@.len() ==> #[trigger] rev@[j]@ == views[n - 1 - j],
            result@.map_values(|c: Card| c@) == buried(views.take(i as int)),
            forall|f: u64| #[trigger] seen@.contains(f) <==> family_seen(views, i as int, f),
        decreases n - i,
    {
        let card = rev.pop().unwrap();
        assert(card@ == views[i as int]);
        let ghost prefix = views.take(i + 1);
        assert(prefix.drop_last() =~= views.take(i as int));
        assert(prefix.last() == views[i as int]);
        let fam = card.family_hash();
        let ghost old_seen = seen@;
        let mut keep = true;
        match fam {
            Some(h) => {
                if contains_u64(&seen, h.value) {
                    keep = false;
                } else {
                    seen.push(h.value);
                }
            },
            None => {},
        }
        proof {
            assert(kept(prefix, i as int) == keep) by {
                assert(prefix[i as int] == views[i as int]);
                if let Some(h) = fam {
                    lemma_family_seen_prefix(views, i + 1, i as int, h.value);
                }
            }
            assert forall|f: u64| #[trigger] seen@.contains(f) <==> family_seen(views, i + 1, f) by {
                let here = family_hash_of(views[i as int].content) == Some(crate::types::card::CardHash { value: f });
                if family_seen(views, i + 1, f) {
                    let j = choose|j: int| 0 <= j < i + 1 && #[trigger] family_hash_of(views[j].content) == Some(crate::types::card::CardHash { value: f });
                    if j < i {
                        assert(family_seen(views, i as int, f));
                        assert(old_seen.contains(f));
                        if keep && fam is Some {
                            assert(seen@ == old_seen.push(fam->0.value));
                            assert(seen@[old_seen.index_of(f)] == f);
                        }
                    } else {
                        assert(here);
                        if keep {
                            assert(seen@ == old_seen.push(f));
                            assert(seen@[old_seen.len() as int] == f);
                        } else {
                            assert(old_seen.contains(f));
                        }
                    }
                }
                if seen@.contains(f) {
                    if old_seen.contains(f) {
                        let j = choose|j: int| 0 <= j < i && #[trigger] family_hash_of(views[j].content) == Some(crate::types::card::CardHash { value: f });
                        assert(family_hash_of(views[j].content) == Some(crate::types::card::CardHash { value: f }));
                    } else {
                        assert(keep && fam is Some);
                        let k = choose|k: int| 0 <= k < seen@.len() && seen@[k] == f;
                        assert(seen@ == old_seen.push(fam->0.value));
                        if k < old_seen.len() {
                            assert(old_seen[k] == f);
                        }
                        assert(f == fam->0.value);
                        assert(family_hash_of(views[i as int].content) == Some(crate::types::card::CardHash { value: f }));
                    }
                }
            }
        }
        let ghost before = result@.map_values(|c: Card| c@);
        if keep {
            result.push(card);
            assert(result@.map_values(|c: Card| c@) =~= before.push(views[i as int]));
        } else {
            assert(result@.map_values(|c: Card| c@) =~= before);
        }
        i = i + 1;
    }
    assert(views.take(n as int) =~= views);
    result
}

/// The cards of deck `d`, in order.
pub open spec fn of_deck(cs: Seq<CardView>, d: Seq<char>) -> Seq<CardView>
    decreases cs.len(),
{
    if cs.len() == 0 {
        seq![]
    } else if cs.last().deck_name == d {
        of_deck(cs.drop_last(), d).push(cs.last())
    } else {
        of_deck(cs.drop_last(), d)
    }
}

/// The cards of a drill: those of the deck `deck_filter` (all when none),
/// with siblings buried, the first `card_limit` of them (all when none).
pub open spec fn selected_cards(cs: Seq<CardView>, card_limit: Option<usize>, deck_filter: Option<Seq<char>>) -> Seq<CardView> {
    let f = match deck_filter {
        Some(d) => of_deck(cs, d),
        None => cs,
    };
    let b = buried(f);
    match card_limit {
        Some(l) => if l < b.len() {
            b.take(l as int)
        } else {
            b
        },
        None => b,
    }
}

/// The cards kept when at most `limit` new cards may be drilled, and how
/// many new cards are kept: a new card (flag set) is kept while fewer than
/// `limit` are; reviewed cards always are.
pub open spec fn limited(cs: Seq<CardView>, is_new: Seq<bool>, limit: nat) -> (Seq<CardView>, nat)
    decreases cs.len(),
{
    if cs.len() == 0 || is_new.len() == 0 {
        (seq![], 0)
    } else {
        let (prev, n) = limited(cs.drop_last(), is_new.drop_last(), limit);
        if is_new.last() {
            if n < limit {
                (prev.push(cs.last()), n + 1)
            } else {
                (prev, n)
            }
        } else {
            (prev.push(cs.last()), n)
        }
    }
}

/// The cards of `deck` that are in deck `name`, in order.
fn cards_of_deck(deck: &Vec<Card>, name: &String) -> (r: Vec<Card>)
    ensures
        card_views(r@) == of_deck(card_views(deck@), name@),
{
    let ghost cv = card_views(deck@);
    let n = chars_of(name.as_str());
    let mut out: Vec<Card> = Vec::new();
    let mut i: usize = 0;
    assert(cv.take(0) =~= Seq::<CardView>::empty());
    assert(card_views(out@) =~= Seq::<CardView>::empty());
    while i < deck.len()
        invariant
            i <= deck@.len(),
            cv == card_views(deck@),
            n@ == name@,
            card_views(out@) == of_deck(cv.take(i as int), name@),
        decreases deck.len() - i,
    {
        proof {
            assert(cv.take(i + 1).drop_last() =~= cv.take(i as int));
            assert(cv.take(i + 1).last() == deck@[i as int]@);
        }
        let d = chars_of(deck[i].deck_name().as_str());
        if chars_eq(d.as_slice(), n.as_slice()) {
            let ghost before = card_views(out@);
            out.push(deck[i].clone());
            assert(card_views(out@) =~= before.push(deck@[i as int]@));
        }
        i = i + 1;
    }
    assert(cv.take(cv.len() as int) =~= cv);
    out
}

/// Select the cards of a drill: the deck filter, then burying siblings,
/// then the card limit.
pub fn select_drill_cards(deck: Vec<Card>, card_limit: Option<usize>, deck_filter: Option<String>) -> (r: Vec<Card>)
    ensures
        card_limit matches Some(l) ==> r@.len() <= l,
        card_views(r@) == selected_cards(
            card_views(deck@),
            card_limit,
            match deck_filter {
                Some(d) => Some(d@),
                None => None,
            },
        ),
{
    let deck = match deck_filter {
        Some(filter) => cards_of_deck(&deck, &filter),
        None => deck,
    };
    let mut deck = bury_siblings(deck);
    match card_limit {
        Some(limit) => {
            if limit < deck.len() {
                let ghost before = card_views(deck@);
                deck.truncate(limit);
                assert(card_views(deck@) =~= before.take(limit as int));
            }
        },
        None => {},
    }
    deck
}

/// Keep at most `limit` new cards (those whose flag in `is_new` is set),
/// the first ones; reviewed cards are all kept, in order.
pub fn limit_new_cards(deck: Vec<Card>, is_new: &[bool], limit: usize) -> (r: Vec<Card>)
    requires
        is_new@.len() == deck@.len(),
    ensures
        card_views(r@) == limited(card_views(deck@), is_new@, limit as nat).0,
{
    let ghost cv = card_views(deck@);
    let mut new_count: usize = 0;
    let mut result: Vec<Card> = Vec::new();
    let mut i: usize = 0;
    assert(cv.take(0) =~= Seq::<CardView>::empty());
    assert(is_new@.take(0) =~= Seq::<bool>::empty());
    assert(card_views(result@) =~= Seq::<CardView>::empty());
    while i < deck.len()
        invariant
            i <= deck@.len(),
            is_new@.len() == deck@.len(),
            cv == card_views(deck@),
            (card_views(result@), new_count as nat) == limited(cv.take(i as int), is_new@.take(i as int), limit as nat),
            new_count <= limit,
        decreases deck.len() - i,
    {
        proof {
            assert(cv.take(i + 1).drop_last() =~= cv.take(i as int));
            assert(cv.take(i + 1).last() == deck@[i as int]@);
            assert(is_new@.take(i + 1).drop_last() =~= is_new@.take(i as int));
            assert(is_new@.take(i + 1).last() == is_new@[i as int]);
        }
        let ghost before = card_views(result@);
        if is_new[i] {
            if new_count < limit {
                result.push(deck[i].clone());
                new_count = new_count + 1;
                assert(card_views(result@) =~= before.push(deck@[i as int]@));
            }
        } else {
            result.push(deck[i].clone());
            assert(card_views(result@) =~= before.push(deck@[i as int]@));
        }
        i = i + 1;
    }
    assert(cv.take(cv.len() as int) =~= cv);
    assert(is_new@.take(is_new@.len() as int) =~= is_new@);
    result
}

/// Every card of `buried(cs)` is a card of `cs`, taken from a position
/// before `cs.len()`.
proof fn lemma_buried_members(cs: Seq<CardView>)
    ensures
        forall|k: int| 0 <= k < buried(cs).len() ==> exists|j: int| 0 <= j < cs.len() && cs[j] == #[trigger] buried(cs)[k],
    decreases cs.len(),
{
    if cs.len() > 0 {
        lemma_buried_members(cs.drop_last());
        let prev = buried(cs.drop_last());
        assert forall|k: int| 0 <= k < buried(cs).len() implies exists|j: int| 0 <= j < cs.len() && cs[j] == #[trigger] buried(cs)[k] by {
            if k < prev.len() {
                assert(buried(cs)[k] == prev[k]);
                let j = choose|j: int| 0 <= j < cs.drop_last().len() && cs.drop_last()[j] == prev[k];
                assert(cs[j] == cs.drop_last()[j]);
            } else {
                assert(buried(cs)[k] == cs[cs.len() - 1]);
            }
        }
    }
}

/// Burying siblings leaves at most one card of each cloze family.
pub proof fn law_buried_one_per_family(cs: Seq<CardView>)
    ensures
        forall|i: int, j: int|
            0 <= i < j < buried(cs).len() && #[trigger] family_hash_of(buried(cs)[i].content) is Some
                ==> family_hash_of(buried(cs)[i].content) != #[trigger] family_hash_of(buried(cs)[j].content),
    decreases cs.len(),
{
    if cs.len() > 0 {
        let prev = buried(cs.drop_last());
        law_buried_one_per_family(cs.drop_last());
        lemma_buried_members(cs.drop_last());
        let r = buried(cs);
        assert forall|i: int, j: int|
            0 <= i < j < r.len() && #[trigger] family_hash_of(r[i].content) is Some
                implies family_hash_of(r[i].content) != #[trigger] family_hash_of(r[j].content) by {
            if j < prev.len() {
                assert(r[i] == prev[i] && r[j] == prev[j]);
            } else {
                assert(kept(cs, cs.len() - 1));
                assert(r[j] == cs[cs.len() - 1]);
                assert(r[i] == prev[i]);
                let m = choose|m: int| 0 <= m < cs.drop_last().len() && cs.drop_last()[m] == prev[i];
                assert(cs[m] == prev[i]);
                if family_hash_of(r[i].content) == family_hash_of(r[j].content) {
                    let f = family_hash_of(r[j].content)->0;
                    assert(family_hash_of(cs[m].content) == Some(crate::types::card::CardHash { value: f.value }));
                    assert(family_seen(cs, cs.len() - 1, f.value));
                }
            }
        }
    }
}

/// The line that defines one TeX macro for KaTeX.
pub open spec fn macro_line(name: Seq<char>, definition: Seq<char>) -> Seq<char> {
    "MACROS[String.raw`"@ + name + "`] = String.raw`"@ + definition + "`;\n"@
}

/// The lines that define the macros, in order.
pub open spec fn macro_lines(ms: Seq<(Seq<char>, Seq<char>)>) -> Seq<char>
    decreases ms.len(),
{
    if ms.len() == 0 {
        seq![]
    } else {
        macro_lines(ms.drop_last()) + macro_line(ms.last().0, ms.last().1)
    }
}

/// The start of the drill page's script: the TeX macros of the collection,
/// then an empty line (the script itself follows).
pub fn macros_script(macros: &Vec<(String, String)>) -> (r: String)
    ensures
        r@ == "let MACROS = {};\n"@ + macro_lines(macros@.map_values(|m: (String, String)| (m.0@, m.1@)))
            + "\n"@,
{
    let ghost mv = macros@.map_values(|m: (String, String)| (m.0@, m.1@));
    let mut out = chars_of("let MACROS = {};\n");
    let ghost head = out@;
    let mut i: usize = 0;
    assert(mv.take(0) =~= Seq::<(Seq<char>, Seq<char>)>::empty());
    assert(out@ =~= head + macro_lines(mv.take(0)));
    while i < macros.len()
        invariant
            i <= macros@.len(),
            mv == macros@.map_values(|m: (String, String)| (m.0@, m.1@)),
            out@ == head + macro_lines(mv.take(i as int)),
        decreases macros.len() - i,
    {
        proof {
            assert(mv.take(i + 1).drop_last() =~= mv.take(i as int));
            assert(mv.take(i + 1).last() == (macros@[i as int].0@, macros@[i as int].1@));
        }
        let a = chars_of("MACROS[String.raw`");
        append_chars(&mut out, a.as_slice());
        let n = chars_of(macros[i].0.as_str());
        append_chars(&mut out, n.as_slice());
        let b = chars_of("`] = String.raw`");
        append_chars(&mut out, b.as_slice());
        let d = chars_of(macros[i].1.as_str());
        append_chars(&mut out, d.as_slice());
        let c = chars_of("`;\n");
        append_chars(&mut out, c.as_slice());
        i = i + 1;
        assert(out@ =~= head + macro_lines(mv.take(i as int)));
    }
    assert(mv.take(mv.len() as int) =~= mv);
    let e = chars_of("\n");
    append_chars(&mut out, e.as_slice());
    string_from_chars(out.as_slice())
}

/// At most `limit` new cards are kept.
pub proof fn law_limited_new_at_most(cs: Seq<CardView>, is_new: Seq<bool>, limit: nat)
    ensures
        limited(cs, is_new, limit).1 <= limit,
    decreases cs.len(),
{
    if cs.len() > 0 && is_new.len() > 0 {
        law_limited_new_at_most(cs.drop_last(), is_new.drop_last(), limit);
    }
}

/// How many of the flags are `v`.
pub open spec fn count_flags(bs: Seq<bool>, v: bool) -> nat
    decreases bs.len(),
{
    if bs.len() == 0 {
        0
    } else {
        count_flags(bs.drop_last(), v) + if bs.last() == v {
            1nat
        } else {
            0nat
        }
    }
}

/// Limiting new cards keeps every reviewed card and as many new cards as
/// the limit allows: the cards kept number the reviewed ones plus the
/// smaller of the limit and the number of new ones. Reviewed cards never
/// use up the limit.
pub proof fn law_limited_keeps_reviewed(cs: Seq<CardView>, is_new: Seq<bool>, limit: nat)
    requires
        is_new.len() == cs.len(),
    ensures
        limited(cs, is_new, limit).0.len() == count_flags(is_new, false) + if count_flags(is_new, true) < limit {
            count_flags(is_new, true)
        } else {
            limit
        },
{
    lemma_limited_count(cs, is_new, limit);
}

proof fn lemma_limited_count(cs: Seq<CardView>, is_new: Seq<bool>, limit: nat)
    requires
        is_new.len() == cs.len(),
    ensures
        limited(cs, is_new, limit).1 == (if count_flags(is_new, true) < limit {
            count_flags(is_new, true)
        } else {
            limit
        }),
        limited(cs, is_new, limit).0.len() == count_flags(is_new, false) + limited(cs, is_new, limit).1,
    decreases cs.len(),
{
    if cs.len() > 0 {
        lemma_limited_count(cs.drop_last(), is_new.drop_last(), limit);
    }
}

/// Burying siblings drops no family: every basic card is kept, and for
/// every cloze family among the cards some card of that family is kept.
pub proof fn law_buried_keeps_families(cs: Seq<CardView>)
    ensures
        forall|i: int|
            0 <= i < cs.len() && #[trigger] family_hash_of(cs[i].content) is None ==> buried(cs).contains(cs[i]),
        forall|i: int|
            #![trigger cs[i]]
            0 <= i < cs.len() ==> exists|j: int|
                0 <= j < buried(cs).len() && family_hash_of(#[trigger] buried(cs)[j].content) == family_hash_of(
                    cs[i].content,
                ),
    decreases cs.len(),
{
    if cs.len() > 0 {
        let d = cs.drop_last();
        let prev = buried(d);
        let r = buried(cs);
        law_buried_keeps_families(d);
        let n = cs.len() - 1;
        assert forall|k: int| 0 <= k < prev.len() implies r[k] == prev[k] && r.contains(prev[k]) by {
            if kept(cs, n) {
                assert(r == prev.push(cs[n]));
            } else {
                assert(r == prev);
            }
            assert(r[k] == prev[k]);
        }
        assert forall|i: int|
            0 <= i < cs.len() && #[trigger] family_hash_of(cs[i].content) is None implies r.contains(cs[i]) by {
            if i < n {
                assert(d[i] == cs[i]);
                assert(family_hash_of(d[i].content) is None);
                assert(prev.contains(d[i]));
                let k = choose|k: int| 0 <= k < prev.len() && prev[k] == d[i];
                assert(r[k] == prev[k]);
            } else {
                assert(kept(cs, n));
                assert(r == prev.push(cs[n]));
                assert(r[prev.len() as int] == cs[n]);
            }
        }
        assert forall|i: int| #![trigger cs[i]] 0 <= i < cs.len() implies exists|j: int|
            0 <= j < r.len() && family_hash_of(#[trigger] r[j].content) == family_hash_of(cs[i].content) by {
            if i < n {
                assert(d[i] == cs[i]);
                let j = choose|j: int|
                    0 <= j < prev.len() && family_hash_of(#[trigger] prev[j].content) == family_hash_of(d[i].content);
                assert(r[j] == prev[j]);
            } else if kept(cs, n) {
                assert(r == prev.push(cs[n]));
                assert(r[prev.len() as int] == cs[n]);
            } else {
                let f = family_hash_of(cs[n].content)->0.value;
                let m = choose|m: int|
                    0 <= m < n && #[trigger] family_hash_of(cs[m].content) == Some(
                        crate::types::card::CardHash { value: f },
                    );
                assert(d[m] == cs[m]);
                let j = choose|j: int|
                    0 <= j < prev.len() && family_hash_of(#[trigger] prev[j].content) == family_hash_of(d[m].content);
                assert(r[j] == prev[j]);
            }
        }
    }
}

} // verus!
