//! The `due` command: how many cards are due on a date, per deck.

use std::collections::HashSet;

use vstd::prelude::*;

use crate::error::ErrorReport;
use crate::error::Fallible;
use crate::text::append_chars;
use crate::text::chars_eq;
use crate::text::chars_of;
use crate::text::decimal;
use crate::text::decimal_chars;
use crate::text::str_lt;
use crate::text::str_lt_exec;
use crate::text::lemma_str_lt_total;
use crate::text::lemma_str_lt_transitive;
use crate::text::string_from_chars;
use crate::types::card::card_views;
use crate::types::card::content_hash;
use crate::types::card::Card;
use crate::types::card::CardView;
use crate::types::date::parsed_date;
use crate::types::date::Date;

verus! {

broadcast use vstd::std_specs::hash::group_hash_axioms;

/// The message for a date argument that is not one.
pub open spec fn invalid_date_message(s: Seq<char>) -> Seq<char> {
    "invalid date '"@ + s
        + "'. Valid values are `today`, `tomorrow`, or a date in `YYYY-MM-DD` format."@
}

/// Parse a date argument: "today", "tomorrow", or "YYYY-MM-DD". The
/// caller reads today's and tomorrow's dates from the clock.
pub fn parse_date_arg(s: &str, today: Date, tomorrow: Date) -> (r: Fallible<Date>)
    ensures
        s@ == "today"@ ==> r == Ok::<Date, ErrorReport>(today),
        s@ == "tomorrow"@ ==> r == Ok::<Date, ErrorReport>(tomorrow),
        s@ != "today"@ && s@ != "tomorrow"@ ==> match parsed_date(s@) {
            Some(t) => r matches Ok(d) && d@ == t,
            None => r matches Err(e) && e.message() == invalid_date_message(s@),
        },
{
    proof {
        reveal_strlit("today");
        reveal_strlit("tomorrow");
        assert("today"@ != "tomorrow"@) by {
            assert("today"@.len() != "tomorrow"@.len());
        }
    }
    let c = chars_of(s);
    let t = chars_of("today");
    let m = chars_of("tomorrow");
    if chars_eq(c.as_slice(), t.as_slice()) {
        return Ok(today);
    }
    if chars_eq(c.as_slice(), m.as_slice()) {
        return Ok(tomorrow);
    }
    match Date::parse(s) {
        Some(d) => Ok(d),
        None => {
            let mut msg = chars_of("invalid date '");
            append_chars(&mut msg, c.as_slice());
            let tail = chars_of(
                "'. Valid values are `today`, `tomorrow`, or a date in `YYYY-MM-DD` format.",
            );
            append_chars(&mut msg, tail.as_slice());
            let text = string_from_chars(msg.as_slice());
            Err(ErrorReport::new(text.as_str()))
        },
    }
}

/// The deck names of the due cards, in order.
pub open spec fn due_names(cs: Seq<CardView>, due: Set<u64>) -> Seq<Seq<char>>
    decreases cs.len(),
{
    if cs.len() == 0 {
        seq![]
    } else {
        let prev = due_names(cs.drop_last(), due);
        if due.contains(content_hash(cs.last().content).value) {
            prev.push(cs.last().deck_name)
        } else {
            prev
        }
    }
}

/// `t` with one more card of deck `n`: its count goes up, or it enters
/// before the first name it precedes.
pub open spec fn tally_add(t: Seq<(Seq<char>, nat)>, n: Seq<char>) -> Seq<(Seq<char>, nat)>
    decreases t.len(),
{
    if t.len() == 0 {
        seq![(n, 1nat)]
    } else if t[0].0 == n {
        seq![(n, t[0].1 + 1)] + t.drop_first()
    } else if str_lt(n, t[0].0) {
        seq![(n, 1nat)] + t
    } else {
        seq![t[0]] + tally_add(t.drop_first(), n)
    }
}

/// The names with the number of times each occurs, by name.
pub open spec fn tally(names: Seq<Seq<char>>) -> Seq<(Seq<char>, nat)>
    decreases names.len(),
{
    if names.len() == 0 {
        seq![]
    } else {
        tally_add(tally(names.drop_last()), names.last())
    }
}

/// The sum of the counts.
pub open spec fn count_sum(t: Seq<(Seq<char>, nat)>) -> nat
    decreases t.len(),
{
    if t.len() == 0 {
        0
    } else {
        t[0].1 + count_sum(t.drop_first())
    }
}

/// The lines that `due` prints: one per deck with due cards, by name, then
/// the total.
pub open spec fn due_lines(t: Seq<(Seq<char>, nat)>) -> Seq<char>
    decreases t.len(),
{
    if t.len() == 0 {
        seq![]
    } else {
        t[0].0 + ": "@ + decimal(t[0].1) + "\n"@ + due_lines(t.drop_first())
    }
}

/// The text `due` prints.
pub open spec fn due_text(t: Seq<(Seq<char>, nat)>) -> Seq<char> {
    due_lines(t) + "Total: "@ + decimal(count_sum(t)) + "\n"@
}

/// The values of a tally.
pub open spec fn tally_views(v: Seq<(String, usize)>) -> Seq<(Seq<char>, nat)> {
    v.map_values(|e: (String, usize)| (e.0@, e.1 as nat))
}

/// One more card counts one more in the total.
pub proof fn lemma_tally_add_sum(t: Seq<(Seq<char>, nat)>, n: Seq<char>)
    ensures
        count_sum(tally_add(t, n)) == count_sum(t) + 1,
    decreases t.len(),
{
    if t.len() == 0 {
        let r = seq![(n, 1nat)];
        assert(r.drop_first() =~= Seq::<(Seq<char>, nat)>::empty());
        assert(count_sum(r) == 1 + count_sum(r.drop_first()));
    } else if t[0].0 == n {
        let r = seq![(n, t[0].1 + 1)] + t.drop_first();
        assert(r[0] == (n, t[0].1 + 1));
        assert(r.drop_first() =~= t.drop_first());
    } else if str_lt(n, t[0].0) {
        let r = seq![(n, 1nat)] + t;
        assert(r[0] == (n, 1nat));
        assert(r.drop_first() =~= t);
    } else {
        lemma_tally_add_sum(t.drop_first(), n);
        let r = seq![t[0]] + tally_add(t.drop_first(), n);
        assert(r[0] == t[0]);
        assert(r.drop_first() =~= tally_add(t.drop_first(), n));
    }
}

/// The total of the tally is the number of names tallied.
pub proof fn lemma_tally_sum(names: Seq<Seq<char>>)
    ensures
        count_sum(tally(names)) == names.len(),
    decreases names.len(),
{
    if names.len() > 0 {
        lemma_tally_sum(names.drop_last());
        lemma_tally_add_sum(tally(names.drop_last()), names.last());
    }
}

/// Count one more card of deck `name`.
fn tally_add_exec(v: &mut Vec<(String, usize)>, name: &String, Ghost(bound): Ghost<nat>)
    requires
        forall|k: int| 0 <= k < old(v)@.len() ==> #[trigger] old(v)@[k].1 <= bound,
        bound < usize::MAX,
    ensures
        tally_views(final(v)@) == tally_add(tally_views(old(v)@), name@),
        forall|k: int| 0 <= k < final(v)@.len() ==> #[trigger] final(v)@[k].1 <= bound + 1,
{
    let ghost s = tally_views(v@);
    let n = chars_of(name.as_str());
    let mut k: usize = 0;
    assert(s.skip(0) =~= s);
    assert(s.take(0) + tally_add(s.skip(0), name@) =~= tally_add(s, name@));
    loop
        invariant
            k <= v@.len(),
            s == tally_views(v@),
            s == tally_views(old(v)@),
            n@ == name@,
            forall|j: int| 0 <= j < v@.len() ==> #[trigger] v@[j].1 <= bound,
            bound < usize::MAX,
            tally_add(s, name@) == s.take(k as int) + tally_add(s.skip(k as int), name@),
        decreases v@.len() - k,
    {
        if k == v.len() {
            assert(s.skip(k as int) =~= Seq::<(Seq<char>, nat)>::empty());
            assert(tally_add(s.skip(k as int), name@) == seq![(name@, 1nat)]);
            v.push((name.clone(), 1));
            assert(tally_views(v@) =~= s.take(k as int) + seq![(name@, 1nat)]);
            return;
        }
        let cur = chars_of(v[k].0.as_str());
        proof {
            assert(s.skip(k as int)[0] == s[k as int]);
            assert(s[k as int] == (v@[k as int].0@, v@[k as int].1 as nat));
            assert(s.skip(k as int).drop_first() =~= s.skip(k + 1));
        }
        if chars_eq(cur.as_slice(), n.as_slice()) {
            assert(tally_add(s.skip(k as int), name@) == seq![(name@, s[k as int].1 + 1)] + s.skip(
                k + 1,
            ));
            let c = v[k].1;
            v.set(k, (name.clone(), c + 1));
            assert(tally_views(v@) =~= s.take(k as int) + (seq![(name@, s[k as int].1 + 1)] + s.skip(
                k + 1,
            )));
            return;
        }
        if str_lt_exec(n.as_slice(), cur.as_slice()) {
            assert(tally_add(s.skip(k as int), name@) == seq![(name@, 1nat)] + s.skip(k as int));
            v.insert(k, (name.clone(), 1));
            assert(tally_views(v@) =~= s.take(k as int) + (seq![(name@, 1nat)] + s.skip(k as int)));
            return;
        }
        assert(s.take(k as int) + (seq![s[k as int]] + tally_add(s.skip(k + 1), name@)) =~= s.take(
            k + 1,
        ) + tally_add(s.skip(k + 1), name@));
        k = k + 1;
    }
}

/// The number of cards due per deck, by deck name: the cards whose hash
/// is among `due`.
pub fn due_counts(cards: &[Card], due: &HashSet<u64>) -> (r: Vec<(String, usize)>)
    ensures
        tally_views(r@) == tally(due_names(card_views(cards@), due@)),
{
    let ghost cv = card_views(cards@);
    let ghost names: Seq<Seq<char>> = seq![];
    let mut counts: Vec<(String, usize)> = Vec::new();
    let mut i: usize = 0;
    assert(cv.take(0) =~= Seq::<CardView>::empty());
    assert(tally_views(counts@) =~= Seq::<(Seq<char>, nat)>::empty());
    while i < cards.len()
        invariant
            i <= cards@.len(),
            cv == card_views(cards@),
            tally_views(counts@) == tally(due_names(cv.take(i as int), due@)),
            forall|k: int| 0 <= k < counts@.len() ==> #[trigger] counts@[k].1 <= i,
        decreases cards.len() - i,
    {
        proof {
            assert(cv.take(i + 1).drop_last() =~= cv.take(i as int));
            assert(cv.take(i + 1).last() == cards@[i as int]@);
        }
        let h = cards[i].hash();
        if due.contains(&h.value) {
            let ghost prev = due_names(cv.take(i as int), due@);
            tally_add_exec(&mut counts, cards[i].deck_name(), Ghost(i as nat));
            assert(due_names(cv.take(i + 1), due@) == prev.push(cards@[i as int]@.deck_name));
            assert(prev.push(cards@[i as int]@.deck_name).drop_last() =~= prev);
        }
        i = i + 1;
    }
    assert(cv.take(cv.len() as int) =~= cv);
    counts
}

/// The text the `due` command prints for the counts: `deck: n` per deck,
/// then `Total: n`.
pub fn due_report(counts: &Vec<(String, usize)>, Ghost(names): Ghost<Seq<Seq<char>>>) -> (r: String)
    requires
        tally_views(counts@) == tally(names),
        names.len() <= usize::MAX,
    ensures
        r@ == due_text(tally_views(counts@)),
{
    let ghost t = tally_views(counts@);
    proof {
        lemma_tally_sum(names);
        reveal_strlit("\n");
    }
    let mut out: Vec<char> = Vec::new();
    let mut total: usize = 0;
    let mut i: usize = 0;
    assert(t.skip(0) =~= t);
    while i < counts.len()
        invariant
            i <= counts@.len(),
            t == tally_views(counts@),
            count_sum(t) == names.len(),
            names.len() <= usize::MAX,
            total + count_sum(t.skip(i as int)) == count_sum(t),
            due_lines(t) == out@ + due_lines(t.skip(i as int)),
        decreases counts.len() - i,
    {
        proof {
            assert(t.skip(i as int)[0] == t[i as int]);
            assert(t[i as int] == (counts@[i as int].0@, counts@[i as int].1 as nat));
            assert(t.skip(i as int).drop_first() =~= t.skip(i + 1));
        }
        proof {
            reveal_strlit("\n");
        }
        let ghost before = out@;
        let name = chars_of(counts[i].0.as_str());
        append_chars(&mut out, name.as_slice());
        let sep = chars_of(": ");
        append_chars(&mut out, sep.as_slice());
        let n = decimal_chars(counts[i].1 as u64);
        append_chars(&mut out, n.as_slice());
        out.push('\n');
        total = total + counts[i].1;
        i = i + 1;
        assert(out@ =~= before + (t[i - 1].0 + ": "@ + decimal(t[i - 1].1) + "\n"@));
    }
    assert(t.skip(i as int) =~= Seq::<(Seq<char>, nat)>::empty());
    let ghost before = out@;
    let label = chars_of("Total: ");
    append_chars(&mut out, label.as_slice());
    let n = decimal_chars(total as u64);
    append_chars(&mut out, n.as_slice());
    out.push('\n');
    assert(out@ =~= due_text(t));
    string_from_chars(out.as_slice())
}

/// The text the `due` command prints for the cards whose hash is among
/// `due` (those due on the date asked for).
pub fn due_summary(cards: &[Card], due: &HashSet<u64>) -> (r: String)
    ensures
        r@ == due_text(tally(due_names(card_views(cards@), due@))),
{
    let counts = due_counts(cards, due);
    assert(cards@.len() == cards.len());
    proof {
        lemma_due_names_len(card_views(cards@), due@);
    }
    due_report(&counts, Ghost(due_names(card_views(cards@), due@)))
}

/// There are no more due names than cards.
proof fn lemma_due_names_len(cs: Seq<CardView>, due: Set<u64>)
    ensures
        due_names(cs, due).len() <= cs.len(),
    decreases cs.len(),
{
    if cs.len() > 0 {
        lemma_due_names_len(cs.drop_last(), due);
    }
}

/// Are the names of the tally in strictly increasing order?
pub open spec fn tally_sorted(t: Seq<(Seq<char>, nat)>) -> bool {
    forall|i: int, j: int| 0 <= i < j < t.len() ==> str_lt(#[trigger] t[i].0, #[trigger] t[j].0)
}

/// Does the name `x` occur in the tally?
pub open spec fn tally_has(t: Seq<(Seq<char>, nat)>, x: Seq<char>) -> bool {
    exists|j: int| 0 <= j < t.len() && #[trigger] t[j].0 == x
}

/// Adding a name keeps the tally sorted, and brings in no other name.
proof fn lemma_tally_add_sorted(t: Seq<(Seq<char>, nat)>, n: Seq<char>)
    ensures
        forall|k: int| 0 <= k < tally_add(t, n).len() ==> (#[trigger] tally_add(t, n)[k]).0 == n
            || tally_has(t, tally_add(t, n)[k].0),
        tally_sorted(t) ==> tally_sorted(tally_add(t, n)),
    decreases t.len(),
{
    let r = tally_add(t, n);
    if t.len() == 0 {
    } else if t[0].0 == n {
        assert forall|k: int| 0 <= k < r.len() implies (#[trigger] r[k]).0 == n || tally_has(t, r[k].0) by {
            if k > 0 {
                assert(r[k] == t[k]);
            }
        }
        if tally_sorted(t) {
            assert forall|i: int, j: int| 0 <= i < j < r.len() implies str_lt(#[trigger] r[i].0, #[trigger] r[j].0) by {
                assert(r[j] == t[j]);
                if i > 0 {
                    assert(r[i] == t[i]);
                }
            }
        }
    } else if str_lt(n, t[0].0) {
        assert forall|k: int| 0 <= k < r.len() implies (#[trigger] r[k]).0 == n || tally_has(t, r[k].0) by {
            if k > 0 {
                assert(r[k] == t[k - 1]);
            }
        }
        if tally_sorted(t) {
            assert forall|i: int, j: int| 0 <= i < j < r.len() implies str_lt(#[trigger] r[i].0, #[trigger] r[j].0) by {
                assert(r[j] == t[j - 1]);
                if i > 0 {
                    assert(r[i] == t[i - 1]);
                } else if j - 1 > 0 {
                    lemma_str_lt_transitive(n, t[0].0, t[j - 1].0);
                }
            }
        }
    } else {
        let rest = t.drop_first();
        let rr = tally_add(rest, n);
        lemma_tally_add_sorted(rest, n);
        assert(r == seq![t[0]] + rr);
        assert forall|k: int| 0 <= k < r.len() implies (#[trigger] r[k]).0 == n || tally_has(t, r[k].0) by {
            if k == 0 {
                assert(t[0].0 == r[0].0);
            } else {
                assert(r[k] == rr[k - 1]);
                if rr[k - 1].0 != n {
                    let j = choose|j: int| 0 <= j < rest.len() && #[trigger] rest[j].0 == rr[k - 1].0;
                    assert(t[j + 1] == rest[j]);
                }
            }
        }
        if tally_sorted(t) {
            assert(tally_sorted(rest)) by {
                assert forall|i: int, j: int| 0 <= i < j < rest.len() implies str_lt(#[trigger] rest[i].0, #[trigger] rest[j].0) by {
                    assert(rest[i] == t[i + 1]);
                    assert(rest[j] == t[j + 1]);
                }
            }
            lemma_str_lt_total(n, t[0].0);
            assert forall|i: int, j: int| 0 <= i < j < r.len() implies str_lt(#[trigger] r[i].0, #[trigger] r[j].0) by {
                assert(r[j] == rr[j - 1]);
                if i > 0 {
                    assert(r[i] == rr[i - 1]);
                } else {
                    if rr[j - 1].0 != n {
                        let m = choose|m: int| 0 <= m < rest.len() && #[trigger] rest[m].0 == rr[j - 1].0;
                        assert(t[m + 1] == rest[m]);
                    }
                }
            }
        }
    }
}

/// The `due` command lists the decks in alphabetical order, each once.
pub proof fn law_due_decks_sorted(names: Seq<Seq<char>>)
    ensures
        tally_sorted(tally(names)),
    decreases names.len(),
{
    if names.len() > 0 {
        law_due_decks_sorted(names.drop_last());
        lemma_tally_add_sorted(tally(names.drop_last()), names.last());
    }
}

/// The number of times `x` occurs among the names.
pub open spec fn count_in(names: Seq<Seq<char>>, x: Seq<char>) -> nat
    decreases names.len(),
{
    if names.len() == 0 {
        0
    } else {
        count_in(names.drop_last(), x) + if names.last() == x {
            1nat
        } else {
            0nat
        }
    }
}

/// The count the tally gives the name `x` (the sum over its entries, of
/// which there is at most one).
pub open spec fn tally_count(t: Seq<(Seq<char>, nat)>, x: Seq<char>) -> nat
    decreases t.len(),
{
    if t.len() == 0 {
        0
    } else {
        (if t[0].0 == x {
            t[0].1
        } else {
            0nat
        }) + tally_count(t.drop_first(), x)
    }
}

proof fn lemma_tally_add_count(t: Seq<(Seq<char>, nat)>, n: Seq<char>, x: Seq<char>)
    ensures
        tally_count(tally_add(t, n), x) == tally_count(t, x) + if x == n {
            1nat
        } else {
            0nat
        },
    decreases t.len(),
{
    let r = tally_add(t, n);
    if t.len() == 0 {
        assert(r == seq![(n, 1nat)]);
        assert(r[0] == (n, 1nat));
        assert(r.drop_first() =~= Seq::<(Seq<char>, nat)>::empty());
        assert(tally_count(r.drop_first(), x) == 0);
        assert(tally_count(t, x) == 0);
    } else if t[0].0 == n {
        assert(r[0] == (n, t[0].1 + 1));
        assert(r.drop_first() =~= t.drop_first());
    } else if str_lt(n, t[0].0) {
        assert(r[0] == (n, 1nat));
        assert(r.drop_first() =~= t);
    } else {
        lemma_tally_add_count(t.drop_first(), n, x);
        assert(r[0] == t[0]);
        assert(r.drop_first() =~= tally_add(t.drop_first(), n));
    }
}

/// The `due` command counts, for each deck, exactly its due cards.
pub proof fn law_due_counts_exact(names: Seq<Seq<char>>, x: Seq<char>)
    ensures
        tally_count(tally(names), x) == count_in(names, x),
    decreases names.len(),
{
    if names.len() > 0 {
        law_due_counts_exact(names.drop_last(), x);
        lemma_tally_add_count(tally(names.drop_last()), names.last(), x);
    }
}

} // verus!
