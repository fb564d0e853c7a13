//! The counts shown per deck: on the index page, and in the deck list.

use vstd::prelude::*;

use crate::cmd::browse::state::due_by;
use crate::cmd::browse::state::performance_in;
use crate::cmd::browse::state::BrowseState;
use crate::cmd::browse::templates::layout::first_letter;
use crate::cmd::browse::templates::layout::first_letter_of;
use crate::text::chars_eq;
use crate::text::chars_of;
use crate::text::lowercase;
use crate::text::str_lt;
use crate::text::str_lt_exec;
use crate::text::to_lowercase;
use crate::types::card::card_views;
use crate::types::card::content_hash;
use crate::types::card::CardView;
use crate::types::date::Date;
use crate::types::performance::Performance;

verus! {

/// Per-deck card counts shown on the index page.
#[derive(Clone, Copy, PartialEq, Eq, Structural, Debug)]
pub struct DeckStats {
    pub total: usize,
    pub new: usize,
    pub due: usize,
}

impl Default for DeckStats {
    fn default() -> (r: Self)
        ensures
            r == (DeckStats { total: 0, new: 0, due: 0 }),
    {
        DeckStats { total: 0, new: 0, due: 0 }
    }
}

/// The counts with one more card, new and due as flagged.
pub open spec fn bump(s: DeckStats, is_new: bool, is_due: bool) -> DeckStats {
    DeckStats {
        total: (s.total + 1) as usize,
        new: (s.new + if is_new {
            1int
        } else {
            0int
        }) as usize,
        due: (s.due + if is_due {
            1int
        } else {
            0int
        }) as usize,
    }
}

/// `t` with one more card of deck `n`: its counts go up, or the deck enters
/// before the first name it precedes.
pub open spec fn stats_add(t: Seq<(Seq<char>, DeckStats)>, n: Seq<char>, is_new: bool, is_due: bool) -> Seq<(Seq<char>, DeckStats)>
    decreases t.len(),
{
    let zero = DeckStats { total: 0, new: 0, due: 0 };
    if t.len() == 0 {
        seq![(n, bump(zero, is_new, is_due))]
    } else if t[0].0 == n {
        seq![(n, bump(t[0].1, is_new, is_due))] + t.drop_first()
    } else if str_lt(n, t[0].0) {
        seq![(n, bump(zero, is_new, is_due))] + t
    } else {
        seq![t[0]] + stats_add(t.drop_first(), n, is_new, is_due)
    }
}

/// The counts of each deck of the cards, by deck name: all cards, the new
/// ones and the due ones.
pub open spec fn deck_stats_of(m: Map<u64, Performance>, today: Date, cs: Seq<CardView>) -> Seq<(Seq<char>, DeckStats)>
    decreases cs.len(),
{
    if cs.len() == 0 {
        seq![]
    } else {
        let c = cs.last();
        let p = performance_in(m, content_hash(c.content).value);
        stats_add(deck_stats_of(m, today, cs.drop_last()), c.deck_name, p is New, due_by(p, today))
    }
}

/// The values of per-deck counts.
pub open spec fn stats_views(v: Seq<(String, DeckStats)>) -> Seq<(Seq<char>, DeckStats)> {
    v.map_values(|e: (String, DeckStats)| (e.0@, e.1))
}

fn stats_add_exec(v: &mut Vec<(String, DeckStats)>, name: &String, is_new: bool, is_due: bool, Ghost(bound): Ghost<nat>)
    requires
        forall|k: int| 0 <= k < old(v)@.len() ==> (#[trigger] old(v)@[k]).1.total <= bound && old(v)@[k].1.new
            <= old(v)@[k].1.total && old(v)@[k].1.due <= old(v)@[k].1.total,
        bound < usize::MAX,
    ensures
        stats_views(final(v)@) == stats_add(stats_views(old(v)@), name@, is_new, is_due),
        forall|k: int| 0 <= k < final(v)@.len() ==> (#[trigger] final(v)@[k]).1.total <= bound + 1 && final(v)@[k].1.new
            <= final(v)@[k].1.total && final(v)@[k].1.due <= final(v)@[k].1.total,
{
    let ghost s = stats_views(v@);
    let n = chars_of(name.as_str());
    let one = DeckStats { total: 1, new: if is_new { 1 } else { 0 }, due: if is_due { 1 } else { 0 } };
    let mut k: usize = 0;
    assert(s.skip(0) =~= s);
    assert(s.take(0) + stats_add(s.skip(0), name@, is_new, is_due) =~= stats_add(s, name@, is_new, is_due));
    loop
        invariant
            k <= v@.len(),
            s == stats_views(v@),
            s == stats_views(old(v)@),
            n@ == name@,
            one == bump(DeckStats { total: 0, new: 0, due: 0 }, is_new, is_due),
            forall|j: int| 0 <= j < v@.len() ==> (#[trigger] v@[j]).1.total <= bound && v@[j].1.new <= v@[j].1.total
                && v@[j].1.due <= v@[j].1.total,
            bound < usize::MAX,
            stats_add(s, name@, is_new, is_due) == s.take(k as int) + stats_add(s.skip(k as int), name@, is_new, is_due),
        decreases v@.len() - k,
    {
        if k == v.len() {
            assert(s.skip(k as int) =~= Seq::<(Seq<char>, DeckStats)>::empty());
            assert(stats_add(s.skip(k as int), name@, is_new, is_due) == seq![(name@, one)]);
            v.push((name.clone(), one));
            assert(stats_views(v@) =~= s.take(k as int) + seq![(name@, one)]);
            return;
        }
        let cur = chars_of(v[k].0.as_str());
        proof {
            assert(s.skip(k as int)[0] == s[k as int]);
            assert(s[k as int] == (v@[k as int].0@, v@[k as int].1));
            assert(s.skip(k as int).drop_first() =~= s.skip(k + 1));
        }
        if chars_eq(cur.as_slice(), n.as_slice()) {
            let old_stats = v[k].1;
            let new_stats = DeckStats {
                total: old_stats.total + 1,
                new: if is_new { old_stats.new + 1 } else { old_stats.new },
                due: if is_due { old_stats.due + 1 } else { old_stats.due },
            };
            assert(new_stats == bump(old_stats, is_new, is_due));
            assert(stats_add(s.skip(k as int), name@, is_new, is_due) == seq![(name@, new_stats)] + s.skip(k + 1));
            v.set(k, (name.clone(), new_stats));
            assert(stats_views(v@) =~= s.take(k as int) + (seq![(name@, new_stats)] + s.skip(k + 1)));
            return;
        }
        if str_lt_exec(n.as_slice(), cur.as_slice()) {
            assert(stats_add(s.skip(k as int), name@, is_new, is_due) == seq![(name@, one)] + s.skip(k as int));
            v.insert(k, (name.clone(), one));
            assert(stats_views(v@) =~= s.take(k as int) + (seq![(name@, one)] + s.skip(k as int)));
            return;
        }
        assert(s.take(k as int) + (seq![s[k as int]] + stats_add(s.skip(k + 1), name@, is_new, is_due)) =~= s.take(
            k + 1,
        ) + stats_add(s.skip(k + 1), name@, is_new, is_due));
        k = k + 1;
    }
}

impl BrowseState {
    /// The counts of each deck, by deck name: its cards, the new ones and
    /// the due ones.
    pub fn deck_stats(&self) -> (r: Vec<(String, DeckStats)>)
        ensures
            stats_views(r@) == deck_stats_of(self.performance@, self.today, card_views(self.cards@)),
            forall|k: int| 0 <= k < r@.len() ==> (#[trigger] r@[k]).1.new <= r@[k].1.total && r@[k].1.due
                <= r@[k].1.total,
    {
        let ghost cv = card_views(self.cards@);
        let mut stats: Vec<(String, DeckStats)> = Vec::new();
        let mut i: usize = 0;
        assert(cv.take(0) =~= Seq::<CardView>::empty());
        assert(stats_views(stats@) =~= Seq::<(Seq<char>, DeckStats)>::empty());
        while i < self.cards.len()
            invariant
                i <= self.cards@.len(),
                cv == card_views(self.cards@),
                stats_views(stats@) == deck_stats_of(self.performance@, self.today, cv.take(i as int)),
                forall|k: int| 0 <= k < stats@.len() ==> (#[trigger] stats@[k]).1.total <= i && stats@[k].1.new
                    <= stats@[k].1.total && stats@[k].1.due <= stats@[k].1.total,
            decreases self.cards.len() - i,
        {
            proof {
                assert(cv.take(i + 1).drop_last() =~= cv.take(i as int));
                assert(cv.take(i + 1).last() == self.cards@[i as int]@);
            }
            let h = self.cards[i].hash();
            let p = self.performance_of(h);
            let is_new = p.is_new();
            let is_due = self.is_due(h);
            stats_add_exec(&mut stats, self.cards[i].deck_name(), is_new, is_due, Ghost(i as nat));
            i = i + 1;
        }
        assert(cv.take(cv.len() as int) =~= cv);
        stats
    }
}

// ----------------------------------------------------------------------------
// The deck list, grouped by letter.
// ----------------------------------------------------------------------------

/// `x` put into `sorted` after every deck whose lowercased name is at most
/// its own.
pub open spec fn insert_by_lowercase(sorted: Seq<(Seq<char>, usize)>, x: (Seq<char>, usize)) -> Seq<(Seq<char>, usize)>
    decreases sorted.len(),
{
    if sorted.len() == 0 || !str_lt(lowercase(x.0), lowercase(sorted.last().0)) {
        sorted.push(x)
    } else {
        insert_by_lowercase(sorted.drop_last(), x).push(sorted.last())
    }
}

/// The decks by lowercased name, stably.
pub open spec fn sorted_by_lowercase(ds: Seq<(Seq<char>, usize)>) -> Seq<(Seq<char>, usize)>
    decreases ds.len(),
{
    if ds.len() == 0 {
        seq![]
    } else {
        insert_by_lowercase(sorted_by_lowercase(ds.drop_last()), ds.last())
    }
}

/// `g` with the deck `d` added under the letter `c`: at the end of its
/// group, or in a new group before the first letter it precedes.
pub open spec fn group_add(g: Seq<(char, Seq<(Seq<char>, usize)>)>, c: char, d: (Seq<char>, usize)) -> Seq<(char, Seq<(Seq<char>, usize)>)>
    decreases g.len(),
{
    if g.len() == 0 {
        seq![(c, seq![d])]
    } else if g[0].0 == c {
        seq![(c, g[0].1.push(d))] + g.drop_first()
    } else if (c as u32) < (g[0].0 as u32) {
        seq![(c, seq![d])] + g
    } else {
        seq![g[0]] + group_add(g.drop_first(), c, d)
    }
}

/// The decks grouped by the letter of their name, letters in order.
pub open spec fn letter_groups(ds: Seq<(Seq<char>, usize)>) -> Seq<(char, Seq<(Seq<char>, usize)>)>
    decreases ds.len(),
{
    if ds.len() == 0 {
        seq![]
    } else {
        group_add(letter_groups(ds.drop_last()), first_letter_of(ds.last().0), ds.last())
    }
}

/// The due counts of the decks, as the deck list shows them.
pub open spec fn due_of_stats(t: Seq<(Seq<char>, DeckStats)>) -> Seq<(Seq<char>, usize)> {
    t.map_values(|e: (Seq<char>, DeckStats)| (e.0, e.1.due))
}

/// The values of a deck list.
pub open spec fn deck_views(v: Seq<(String, usize)>) -> Seq<(Seq<char>, usize)> {
    v.map_values(|e: (String, usize)| (e.0@, e.1))
}

/// The values of letter groups.
pub open spec fn group_views(v: Seq<(char, Vec<(String, usize)>)>) -> Seq<(char, Seq<(Seq<char>, usize)>)> {
    v.map_values(|e: (char, Vec<(String, usize)>)| (e.0, deck_views(e.1@)))
}

fn lower_key(name: &String) -> (r: Vec<char>)
    ensures
        r@ == lowercase(name@),
{
    let l = to_lowercase(name.as_str());
    chars_of(l.as_str())
}

fn insert_by_lowercase_exec(v: &mut Vec<(String, usize)>, x: (String, usize))
    ensures
        deck_views(final(v)@) == insert_by_lowercase(deck_views(old(v)@), (x.0@, x.1)),
{
    let ghost s = deck_views(v@);
    let ghost xv = (x.0@, x.1);
    let xk = lower_key(&x.0);
    let mut k: usize = v.len();
    assert(s.take(k as int) =~= s);
    assert(s.skip(k as int) =~= Seq::<(Seq<char>, usize)>::empty());
    assert(insert_by_lowercase(s, xv) =~= insert_by_lowercase(s.take(k as int), xv) + s.skip(k as int));
    loop
        invariant
            k <= v@.len(),
            deck_views(v@) == s,
            xv == (x.0@, x.1),
            xk@ == lowercase(xv.0),
            insert_by_lowercase(s, xv) == insert_by_lowercase(s.take(k as int), xv) + s.skip(k as int),
        ensures
            k <= v@.len(),
            deck_views(v@) == s,
            insert_by_lowercase(s, xv) == insert_by_lowercase(s.take(k as int), xv) + s.skip(k as int),
            insert_by_lowercase(s.take(k as int), xv) == s.take(k as int).push(xv),
        decreases k,
    {
        if k == 0 {
            assert(s.take(0) =~= Seq::<(Seq<char>, usize)>::empty());
            assert(insert_by_lowercase(s.take(0), xv) =~= s.take(0).push(xv));
            break;
        }
        let ek = lower_key(&v[k - 1].0);
        assert(s[k - 1] == (v@[k - 1].0@, v@[k - 1].1));
        if !str_lt_exec(xk.as_slice(), ek.as_slice()) {
            assert(s.take(k as int).last() == s[k - 1]);
            assert(insert_by_lowercase(s.take(k as int), xv) == s.take(k as int).push(xv));
            break;
        }
        proof {
            assert(s.take(k as int).drop_last() =~= s.take(k - 1));
            assert(s.take(k as int).last() == s[k - 1]);
            assert(insert_by_lowercase(s.take(k as int), xv) == insert_by_lowercase(s.take(k - 1), xv).push(s[k - 1]));
            assert(insert_by_lowercase(s.take(k - 1), xv).push(s[k - 1]) + s.skip(k as int) =~= insert_by_lowercase(
                s.take(k - 1),
                xv,
            ) + s.skip(k - 1));
        }
        k = k - 1;
    }
    v.insert(k, x);
    assert(deck_views(v@) =~= s.take(k as int).push(xv) + s.skip(k as int));
}

fn group_add_exec(g: &mut Vec<(char, Vec<(String, usize)>)>, c: char, d: (String, usize))
    ensures
        group_views(final(g)@) == group_add(group_views(old(g)@), c, (d.0@, d.1)),
{
    let ghost s = group_views(g@);
    let ghost dv = (d.0@, d.1);
    let mut k: usize = 0;
    assert(s.skip(0) =~= s);
    assert(s.take(0) + group_add(s.skip(0), c, dv) =~= group_add(s, c, dv));
    loop
        invariant
            k <= g@.len(),
            s == group_views(g@),
            s == group_views(old(g)@),
            dv == (d.0@, d.1),
            group_add(s, c, dv) == s.take(k as int) + group_add(s.skip(k as int), c, dv),
        decreases g@.len() - k,
    {
        if k == g.len() {
            assert(s.skip(k as int) =~= Seq::<(char, Seq<(Seq<char>, usize)>)>::empty());
            assert(group_add(s.skip(k as int), c, dv) == seq![(c, seq![dv])]);
            let ghost dd = d;
            let mut inner: Vec<(String, usize)> = Vec::new();
            inner.push(d);
            assert(deck_views(inner@) =~= seq![dv]);
            g.push((c, inner));
            assert(group_views(g@) =~= s.take(k as int) + seq![(c, seq![dv])]);
            return;
        }
        proof {
            assert(s.skip(k as int)[0] == s[k as int]);
            assert(s[k as int] == (g@[k as int].0, deck_views(g@[k as int].1@)));
            assert(s.skip(k as int).drop_first() =~= s.skip(k + 1));
        }
        let letter = g[k].0;
        if letter == c {
            assert(group_add(s.skip(k as int), c, dv) == seq![(c, s[k as int].1.push(dv))] + s.skip(k + 1));
            let ghost g0 = g@;
            let mut entry = g.remove(k);
            assert(entry == g0[k as int]);
            let ghost before = entry.1@;
            entry.1.push(d);
            assert(deck_views(entry.1@) =~= deck_views(before).push(dv));
            let ghost e1 = entry;
            g.insert(k, entry);
            assert(g@ =~= g0.update(k as int, e1));
            assert(group_views(g@) =~= s.take(k as int) + (seq![(c, s[k as int].1.push(dv))] + s.skip(k + 1)));
            return;
        }
        if (c as u32) < (letter as u32) {
            assert(group_add(s.skip(k as int), c, dv) == seq![(c, seq![dv])] + s.skip(k as int));
            let mut inner: Vec<(String, usize)> = Vec::new();
            inner.push(d);
            assert(deck_views(inner@) =~= seq![dv]);
            g.insert(k, (c, inner));
            assert(group_views(g@) =~= s.take(k as int) + (seq![(c, seq![dv])] + s.skip(k as int)));
            return;
        }
        assert(s.take(k as int) + (seq![s[k as int]] + group_add(s.skip(k + 1), c, dv)) =~= s.take(k + 1)
            + group_add(s.skip(k + 1), c, dv));
        k = k + 1;
    }
}

/// The deck list: the decks with their due counts, in case-insensitive
/// alphabetical order, grouped by the letter of their name, letters in
/// order.
pub fn deck_groups(stats: &Vec<(String, DeckStats)>) -> (r: Vec<(char, Vec<(String, usize)>)>)
    ensures
        group_views(r@) == letter_groups(sorted_by_lowercase(due_of_stats(stats_views(stats@)))),
{
    let ghost dv = due_of_stats(stats_views(stats@));
    let mut sorted: Vec<(String, usize)> = Vec::new();
    let mut i: usize = 0;
    assert(dv.take(0) =~= Seq::<(Seq<char>, usize)>::empty());
    assert(deck_views(sorted@) =~= Seq::<(Seq<char>, usize)>::empty());
    while i < stats.len()
        invariant
            i <= stats@.len(),
            dv == due_of_stats(stats_views(stats@)),
            deck_views(sorted@) == sorted_by_lowercase(dv.take(i as int)),
        decreases stats.len() - i,
    {
        proof {
            assert(dv.take(i + 1).drop_last() =~= dv.take(i as int));
            assert(dv.take(i + 1).last() == (stats@[i as int].0@, stats@[i as int].1.due));
        }
        insert_by_lowercase_exec(&mut sorted, (stats[i].0.clone(), stats[i].1.due));
        i = i + 1;
    }
    assert(dv.take(dv.len() as int) =~= dv);
    let ghost sv = deck_views(sorted@);
    let mut groups: Vec<(char, Vec<(String, usize)>)> = Vec::new();
    let mut j: usize = 0;
    assert(sv.take(0) =~= Seq::<(Seq<char>, usize)>::empty());
    assert(group_views(groups@) =~= Seq::<(char, Seq<(Seq<char>, usize)>)>::empty());
    while j < sorted.len()
        invariant
            j <= sorted@.len(),
            sv == deck_views(sorted@),
            group_views(groups@) == letter_groups(sv.take(j as int)),
        decreases sorted.len() - j,
    {
        proof {
            assert(sv.take(j + 1).drop_last() =~= sv.take(j as int));
            assert(sv.take(j + 1).last() == (sorted@[j as int].0@, sorted@[j as int].1));
        }
        let letter = first_letter(sorted[j].0.as_str());
        group_add_exec(&mut groups, letter, (sorted[j].0.clone(), sorted[j].1));
        j = j + 1;
    }
    assert(sv.take(sv.len() as int) =~= sv);
    groups
}

} // verus!
