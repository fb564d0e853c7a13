use vstd::prelude::*;

use crate::error::ErrorReport;
use crate::error::Fallible;
use crate::paths::join_path;
use crate::paths::lexical_normal;
use crate::paths::components_text;
use crate::paths::fold_components;
use crate::paths::path_components;
use crate::paths::path_join;
use crate::paths::path_strip_prefix;
use crate::paths::strip_prefix;
use crate::text::append_chars;
use crate::text::sub_chars;
use crate::text::chars_eq;
use crate::text::find_chars_from;
use crate::text::lemma_find_from;
use crate::paths::parent_path;
use crate::paths::path_parent;
use crate::text::chars_of;
use crate::text::contains;
use crate::text::contains_scheme_sep;
use crate::text::has_prefix;
use crate::text::scheme_sep;
use crate::text::string_from_chars;
use crate::text::find_from;
use crate::text::replace_all;
use crate::text::replace_all_chars;
use crate::markdown::image_refs;
use crate::markdown::image_starts;
use crate::markdown::markdown_image_refs;
use crate::markdown::markdown_image_starts;
use crate::markdown::ImageRef;
use crate::markdown::ImageStart;
use crate::types::card::Card;
use crate::types::card::CardContent;
use crate::types::card::CardView;
use crate::types::card::card_views;
use crate::types::card::ContentView;

verus! {

/// The media canonicalizer processes cards and canonicalizes media paths in
/// their Markdown content.
pub struct MediaCanonicalizer {
    /// Path to the collection root directory.
    root: String,
}

/// The canonical form of a media path written in a deck file in
/// `deck_file_dir`: external URLs and `@/` paths unchanged, other paths
/// joined onto the deck directory, their `.` and `..` folded away, and made
/// `@/`-prefixed and collection-relative. `Err(full)` when the path lies
/// outside the collection, `full` being the joined path.
pub open spec fn canonical_path(root: Seq<char>, path: Seq<char>, deck_file_dir: Seq<char>) -> Result<Seq<char>, Seq<char>> {
    if contains(path, scheme_sep()) {
        Ok(path)
    } else if has_prefix(path, seq!['@', '/']) {
        Ok(path)
    } else {
        let full = join_path(deck_file_dir, path);
        match strip_prefix(lexical_normal(full), root) {
            Some(rel) => Ok(seq!['@', '/'] + rel),
            None => Err(full),
        }
    }
}

/// The message of the error for a path outside the collection.
pub open spec fn outside_message(full: Seq<char>) -> Seq<char> {
    "Path "@ + full + " is outside the collection directory"@
}

/// The text `](url)` that closes a Markdown image.
pub open spec fn image_tail(url: Seq<char>) -> Seq<char> {
    seq![']', '('] + url + seq![')']
}

/// The replacements to make for the image destinations `dests`: each
/// destination whose canonical form differs, with that form; `Err(full)` for
/// the first destination outside the collection.
pub open spec fn replacements(root: Seq<char>, dests: Seq<Seq<char>>, dir: Seq<char>) -> Result<Seq<(Seq<char>, Seq<char>)>, Seq<char>>
    decreases dests.len(),
{
    if dests.len() == 0 {
        Ok(seq![])
    } else {
        match replacements(root, dests.drop_last(), dir) {
            Err(full) => Err(full),
            Ok(reps) => match canonical_path(root, dests.last(), dir) {
                Err(full) => Err(full),
                Ok(c) => if c == dests.last() {
                    Ok(reps)
                } else {
                    Ok(reps.push((dests.last(), c)))
                },
            },
        }
    }
}

/// The text with every `](given)` replaced by `](canonical)`, one
/// replacement after the other.
pub open spec fn apply_replacements(md: Seq<char>, reps: Seq<(Seq<char>, Seq<char>)>) -> Seq<char>
    decreases reps.len(),
{
    if reps.len() == 0 {
        md
    } else {
        replace_all(
            apply_replacements(md, reps.drop_last()),
            image_tail(reps.last().0),
            image_tail(reps.last().1),
        )
    }
}

/// The Markdown with its media paths canonicalized.
pub open spec fn canonical_markdown(root: Seq<char>, md: Seq<char>, dir: Seq<char>) -> Result<Seq<char>, Seq<char>> {
    match replacements(root, image_refs(md).map_values(|i: (Seq<char>, Seq<char>)| i.0), dir) {
        Err(full) => Err(full),
        Ok(reps) => Ok(apply_replacements(md, reps)),
    }
}

/// A replacement at a position: where the URL starts, the URL, and its
/// canonical form.
pub type Located = (int, Seq<char>, Seq<char>);

/// The positioned replacements for the images `imgs` (start, destination):
/// each destination whose canonical form differs and whose `](url)` is found
/// from the image's start on.
pub open spec fn locate(root: Seq<char>, md: Seq<char>, imgs: Seq<(int, Seq<char>)>, dir: Seq<char>) -> Result<Seq<Located>, Seq<char>>
    decreases imgs.len(),
{
    if imgs.len() == 0 {
        Ok(seq![])
    } else {
        match locate(root, md, imgs.drop_last(), dir) {
            Err(full) => Err(full),
            Ok(reps) => {
                let (pos, o) = imgs.last();
                match canonical_path(root, o, dir) {
                    Err(full) => Err(full),
                    Ok(c) => if c == o {
                        Ok(reps)
                    } else {
                        match find_from(md, image_tail(o), pos) {
                            Some(p) => Ok(reps.push((p + 2, o, c))),
                            None => Ok(reps),
                        }
                    },
                }
            },
        }
    }
}

/// `x` inserted into `sorted` (by decreasing position) after every element
/// whose position is at least its own.
pub open spec fn insert_desc(sorted: Seq<Located>, x: Located) -> Seq<Located>
    decreases sorted.len(),
{
    if sorted.len() == 0 {
        seq![x]
    } else if sorted.last().0 >= x.0 {
        sorted.push(x)
    } else {
        insert_desc(sorted.drop_last(), x).push(sorted.last())
    }
}

/// The replacements by decreasing position, those at one position in their
/// input order (a stable sort).
pub open spec fn sort_desc(reps: Seq<Located>) -> Seq<Located>
    decreases reps.len(),
{
    if reps.len() == 0 {
        seq![]
    } else {
        insert_desc(sort_desc(reps.drop_last()), reps.last())
    }
}

/// Does `v` fit an `i64`?
pub open spec fn fits_i64(v: int) -> bool {
    i64::MIN <= v <= i64::MAX
}

/// The number of bytes of `c` in UTF-8.
pub open spec fn utf8_width(c: char) -> nat {
    if (c as u32) < 0x80 {
        1
    } else if (c as u32) < 0x800 {
        2
    } else if (c as u32) < 0x10000 {
        3
    } else {
        4
    }
}

/// The number of bytes of `s` in UTF-8.
pub open spec fn utf8_len(s: Seq<char>) -> nat
    decreases s.len(),
{
    if s.len() == 0 {
        0
    } else {
        utf8_len(s.drop_last()) + utf8_width(s.last())
    }
}

/// The text and cloze positions after the replacements `reps`, made in
/// order: each puts its canonical form in place of the URL and, the
/// deletion's `start` and `end` being byte positions, moves them by the
/// difference in UTF-8 length when the URL's byte position is at most the
/// `start` (both) or the `end` (the end alone) that the deletion began with.
/// `None` where a replacement falls outside the text or the signed
/// arithmetic overflows: the canonicalization is undefined there (it would
/// abort).
pub open spec fn apply_located(md: Seq<char>, start: usize, end: usize, reps: Seq<Located>) -> Option<(Seq<char>, usize, usize)>
    decreases reps.len(),
{
    if reps.len() == 0 {
        Some((md, start, end))
    } else {
        match apply_located(md, start, end, reps.drop_last()) {
            None => None,
            Some((text, s, e)) => {
                let (u, o, c) = reps.last();
                let url_end = u + o.len();
                let delta = utf8_len(c) - utf8_len(o);
                if !(0 <= u && url_end <= text.len() && fits_i64(delta)) {
                    None
                } else {
                    let new_text = text.take(u) + c + text.skip(url_end);
                    let ub = utf8_len(text.take(u));
                    if ub <= start {
                        if fits_i64((s as i64) + delta) && fits_i64((e as i64) + delta) {
                            Some((new_text, ((s as i64) + delta) as usize, ((e as i64) + delta) as usize))
                        } else {
                            None
                        }
                    } else if ub <= end {
                        if fits_i64((e as i64) + delta) {
                            Some((new_text, s, ((e as i64) + delta) as usize))
                        } else {
                            None
                        }
                    } else {
                        Some((new_text, s, e))
                    }
                }
            },
        }
    }
}

/// The text of a cloze card with its media paths canonicalized, and its
/// deletion positions moved along: `Err(Err(full))` for a path outside the
/// collection, `Err(Ok(()))` where the canonicalization is undefined.
pub open spec fn canonical_cloze(root: Seq<char>, md: Seq<char>, start: usize, end: usize, dir: Seq<char>) -> Result<(Seq<char>, usize, usize), Result<(), Seq<char>>> {
    match locate(root, md, image_starts(md), dir) {
        Err(full) => Err(Err(full)),
        Ok(reps) => match apply_located(md, start, end, sort_desc(reps)) {
            Some(r) => Ok(r),
            None => Err(Ok(())),
        },
    }
}

/// Is the outcome the undefined one (a computation that would abort)?
pub open spec fn is_panic<T>(o: Result<T, Result<(), Seq<char>>>) -> bool {
    match o {
        Err(Ok(())) => true,
        _ => false,
    }
}

/// The card with its media paths canonicalized in the directory of its
/// file: `Err(Err(full))` for a path outside the collection, `Err(Ok(()))`
/// where the canonicalization is undefined (a file path without a parent,
/// or a cloze replacement that cannot be made).
pub open spec fn card_outcome(root: Seq<char>, c: CardView) -> Result<CardView, Result<(), Seq<char>>> {
    match parent_path(c.file_path) {
        None => Err(Ok(())),
        Some(dir) => match c.content {
            ContentView::Basic { question, answer } => match canonical_markdown(root, question, dir) {
                Err(full) => Err(Err(full)),
                Ok(q) => match canonical_markdown(root, answer, dir) {
                    Err(full) => Err(Err(full)),
                    Ok(a) => Ok(
                        CardView {
                            deck_name: c.deck_name,
                            file_path: c.file_path,
                            range: c.range,
                            content: ContentView::Basic { question: q, answer: a },
                        },
                    ),
                },
            },
            ContentView::Cloze { text, start, end } => match canonical_cloze(root, text, start, end, dir) {
                Err(x) => Err(x),
                Ok((t, s, e)) => Ok(
                    CardView {
                        deck_name: c.deck_name,
                        file_path: c.file_path,
                        range: c.range,
                        content: ContentView::Cloze { text: t, start: s, end: e },
                    },
                ),
            },
        },
    }
}

/// The cards canonicalized one after the other, stopping at the first that
/// fails.
pub open spec fn cards_outcome(root: Seq<char>, cs: Seq<CardView>) -> Result<Seq<CardView>, Result<(), Seq<char>>>
    decreases cs.len(),
{
    if cs.len() == 0 {
        Ok(seq![])
    } else {
        match cards_outcome(root, cs.drop_last()) {
            Err(x) => Err(x),
            Ok(vs) => match card_outcome(root, cs.last()) {
                Err(x) => Err(x),
                Ok(v) => Ok(vs.push(v)),
            },
        }
    }
}

/// The values of replacement pairs.
pub open spec fn pair_views(v: Seq<(Vec<char>, Vec<char>)>) -> Seq<(Seq<char>, Seq<char>)> {
    v.map_values(|p: (Vec<char>, Vec<char>)| (p.0@, p.1@))
}

/// The values of positioned replacements.
pub open spec fn located_views(v: Seq<(usize, Vec<char>, Vec<char>)>) -> Seq<Located> {
    v.map_values(|t: (usize, Vec<char>, Vec<char>)| (t.0 as int, t.1@, t.2@))
}

/// An error among the first `n` destinations is the error of them all.
proof fn lemma_replacements_err(root: Seq<char>, dests: Seq<Seq<char>>, dir: Seq<char>, n: int)
    requires
        0 <= n <= dests.len(),
        replacements(root, dests.take(n), dir) is Err,
    ensures
        replacements(root, dests, dir) == replacements(root, dests.take(n), dir),
    decreases dests.len(),
{
    if n == dests.len() {
        assert(dests.take(n) =~= dests);
    } else {
        assert(dests.drop_last().take(n) =~= dests.take(n));
        lemma_replacements_err(root, dests.drop_last(), dir, n);
    }
}

/// An error among the first `n` images is the error of them all.
proof fn lemma_locate_err(root: Seq<char>, md: Seq<char>, imgs: Seq<(int, Seq<char>)>, dir: Seq<char>, n: int)
    requires
        0 <= n <= imgs.len(),
        locate(root, md, imgs.take(n), dir) is Err,
    ensures
        locate(root, md, imgs, dir) == locate(root, md, imgs.take(n), dir),
    decreases imgs.len(),
{
    if n == imgs.len() {
        assert(imgs.take(n) =~= imgs);
    } else {
        assert(imgs.drop_last().take(n) =~= imgs.take(n));
        lemma_locate_err(root, md, imgs.drop_last(), dir, n);
    }
}

/// A failure among the first `n` replacements fails them all.
proof fn lemma_apply_none(md: Seq<char>, start: usize, end: usize, reps: Seq<Located>, n: int)
    requires
        0 <= n <= reps.len(),
        apply_located(md, start, end, reps.take(n)) is None,
    ensures
        apply_located(md, start, end, reps) is None,
    decreases reps.len(),
{
    if n == reps.len() {
        assert(reps.take(n) =~= reps);
    } else {
        assert(reps.drop_last().take(n) =~= reps.take(n));
        lemma_apply_none(md, start, end, reps.drop_last(), n);
    }
}

/// A failure among the first `n` cards is the failure of them all.
proof fn lemma_cards_err(root: Seq<char>, cs: Seq<CardView>, n: int)
    requires
        0 <= n <= cs.len(),
        cards_outcome(root, cs.take(n)) is Err,
    ensures
        cards_outcome(root, cs) == cards_outcome(root, cs.take(n)),
    decreases cs.len(),
{
    if n == cs.len() {
        assert(cs.take(n) =~= cs);
    } else {
        assert(cs.drop_last().take(n) =~= cs.take(n));
        lemma_cards_err(root, cs.drop_last(), n);
    }
}

/// The replacements after moving `x` by `delta`, or `None` on overflow.
fn shift(x: usize, delta: i64) -> (r: Option<usize>)
    ensures
        match r {
            Some(v) => fits_i64((x as i64) + delta) && v == ((x as i64) + delta) as usize,
            None => !fits_i64((x as i64) + delta),
        },
{
    let x64 = x as i64;
    match x64.checked_add(delta) {
        Some(v) => Some(v as usize),
        None => None,
    }
}

fn char_width(c: char) -> (r: u128)
    ensures
        r == utf8_width(c),
{
    let v = c as u32;
    if v < 0x80 {
        1
    } else if v < 0x800 {
        2
    } else if v < 0x10000 {
        3
    } else {
        4
    }
}

/// The number of UTF-8 bytes of the first `to` characters of `s`.
fn utf8_prefix_len(s: &[char], to: usize) -> (r: u128)
    requires
        to <= s@.len(),
    ensures
        r == utf8_len(s@.take(to as int)),
{
    let mut acc: u128 = 0;
    let mut i: usize = 0;
    assert(s@.take(0) =~= Seq::<char>::empty());
    while i < to
        invariant
            i <= to <= s@.len(),
            acc == utf8_len(s@.take(i as int)),
            acc <= 4 * i,
        decreases to - i,
    {
        assert(s@.take(i + 1).drop_last() =~= s@.take(i as int));
        assert(s@.take(i + 1).last() == s@[i as int]);
        acc = acc + char_width(s[i]);
        i = i + 1;
    }
    acc
}

/// `a - b` as an `i64`, where it fits.
fn diff_i64(a: u128, b: u128) -> (r: Option<i64>)
    ensures
        match r {
            Some(d) => d == a - b,
            None => !fits_i64(a - b),
        },
{
    if a >= b {
        let d = a - b;
        if d <= 0x7fff_ffff_ffff_ffffu128 {
            Some(d as i64)
        } else {
            None
        }
    } else {
        let d = b - a;
        if d <= 0x8000_0000_0000_0000u128 {
            if d == 0x8000_0000_0000_0000u128 {
                Some(i64::MIN)
            } else {
                Some(-(d as i64))
            }
        } else {
            None
        }
    }
}

/// Make the replacements, in order, on `md`, moving the deletion at
/// `start..=end` along.
fn apply_located_exec(md: Vec<char>, start: usize, end: usize, reps: &Vec<(usize, Vec<char>, Vec<char>)>) -> (r: Option<(Vec<char>, usize, usize)>)
    ensures
        match apply_located(md@, start, end, located_views(reps@)) {
            Some((t, s, e)) => r matches Some(x) && x.0@ == t && x.1 == s && x.2 == e,
            None => r is None,
        },
{
    let ghost lv = located_views(reps@);
    let ghost md0 = md@;
    let mut text = md;
    let mut s = start;
    let mut e = end;
    let mut i: usize = 0;
    assert(lv.take(0) =~= Seq::<Located>::empty());
    while i < reps.len()
        invariant
            i <= reps@.len(),
            lv == located_views(reps@),
            md0 == md@,
            apply_located(md0, start, end, lv.take(i as int)) == Some((text@, s, e)),
        decreases reps.len() - i,
    {
        let u = reps[i].0;
        let o = &reps[i].1;
        let c = &reps[i].2;
        proof {
            assert(lv.take(i + 1).drop_last() =~= lv.take(i as int));
            assert(lv.take(i + 1).last() == lv[i as int]);
            assert(lv[i as int] == (u as int, o@, c@));
        }
        if u > text.len() || o.len() > text.len() - u {
            proof {
                lemma_apply_none(md0, start, end, lv, i + 1);
            }
            return None;
        }
        let url_end = u + o.len();
        let cb = utf8_prefix_len(c.as_slice(), c.len());
        let ob = utf8_prefix_len(o.as_slice(), o.len());
        assert(c@.take(c@.len() as int) =~= c@);
        assert(o@.take(o@.len() as int) =~= o@);
        let delta = match diff_i64(cb, ob) {
            Some(d) => d,
            None => {
                proof {
                    lemma_apply_none(md0, start, end, lv, i + 1);
                }
                return None;
            },
        };
        let mut nt = sub_chars(text.as_slice(), 0, u);
        append_chars(&mut nt, c.as_slice());
        let rest = sub_chars(text.as_slice(), url_end, text.len());
        append_chars(&mut nt, rest.as_slice());
        assert(nt@ =~= text@.take(u as int) + c@ + text@.skip(url_end as int));
        let ub = utf8_prefix_len(text.as_slice(), u);
        if ub <= start as u128 {
            match (shift(s, delta), shift(e, delta)) {
                (Some(ns), Some(ne)) => {
                    s = ns;
                    e = ne;
                },
                _ => {
                    proof {
                        lemma_apply_none(md0, start, end, lv, i + 1);
                    }
                    return None;
                },
            }
        } else if ub <= end as u128 {
            match shift(e, delta) {
                Some(ne) => {
                    e = ne;
                },
                None => {
                    proof {
                        lemma_apply_none(md0, start, end, lv, i + 1);
                    }
                    return None;
                },
            }
        }
        text = nt;
        i = i + 1;
    }
    assert(lv.take(lv.len() as int) =~= lv);
    Some((text, s, e))
}

/// The text `](url)`.
fn tail_chars(url: &[char]) -> (r: Vec<char>)
    ensures
        r@ == image_tail(url@),
{
    let mut r: Vec<char> = vec![']', '('];
    append_chars(&mut r, url);
    r.push(')');
    r
}

/// A copy of `s`.
fn copy_chars(s: &[char]) -> (r: Vec<char>)
    ensures
        r@ == s@,
{
    let r = sub_chars(s, 0, s.len());
    assert(s@.subrange(0, s@.len() as int) =~= s@);
    r
}

/// `x` inserted into `v` after every element whose position is at least
/// its own.
fn insert_desc_exec(v: &mut Vec<(usize, Vec<char>, Vec<char>)>, x: (usize, Vec<char>, Vec<char>))
    ensures
        located_views(final(v)@) == insert_desc(located_views(old(v)@), (x.0 as int, x.1@, x.2@)),
{
    let ghost s = located_views(v@);
    let ghost xv = (x.0 as int, x.1@, x.2@);
    let mut k: usize = v.len();
    assert(s.take(k as int) =~= s);
    assert(s.skip(k as int) =~= Seq::<Located>::empty());
    assert(insert_desc(s, xv) =~= insert_desc(s.take(k as int), xv) + s.skip(k as int));
    while k > 0 && v[k - 1].0 < x.0
        invariant
            k <= v@.len(),
            located_views(v@) == s,
            xv == (x.0 as int, x.1@, x.2@),
            insert_desc(s, xv) == insert_desc(s.take(k as int), xv) + s.skip(k as int),
        decreases k,
    {
        proof {
            assert(s[k - 1].0 == v@[k - 1].0 as int);
            assert(s.take(k as int).drop_last() =~= s.take(k - 1));
            assert(s.take(k as int).last() == s[k - 1]);
            assert(s.take(k as int).last().0 < xv.0);
            assert(insert_desc(s.take(k as int), xv) == insert_desc(s.take(k - 1), xv).push(s[k - 1]));
            assert(insert_desc(s.take(k - 1), xv).push(s[k - 1]) + s.skip(k as int) =~= insert_desc(
                s.take(k - 1),
                xv,
            ) + s.skip(k - 1));
        }
        k = k - 1;
    }
    proof {
        if k > 0 {
            assert(s[k - 1].0 == v@[k - 1].0 as int);
            assert(s.take(k as int).last() == s[k - 1]);
        } else {
            assert(s.take(0) =~= Seq::<Located>::empty());
        }
        assert(insert_desc(s.take(k as int), xv) =~= s.take(k as int).push(xv));
    }
    v.insert(k, x);
    assert(located_views(v@) =~= s.take(k as int).push(xv) + s.skip(k as int));
}

/// The replacements by decreasing position, stably.
fn sort_desc_exec(reps: &Vec<(usize, Vec<char>, Vec<char>)>) -> (r: Vec<(usize, Vec<char>, Vec<char>)>)
    ensures
        located_views(r@) == sort_desc(located_views(reps@)),
{
    let ghost lv = located_views(reps@);
    let mut sorted: Vec<(usize, Vec<char>, Vec<char>)> = Vec::new();
    let mut i: usize = 0;
    assert(lv.take(0) =~= Seq::<Located>::empty());
    while i < reps.len()
        invariant
            i <= reps@.len(),
            lv == located_views(reps@),
            located_views(sorted@) == sort_desc(lv.take(i as int)),
        decreases reps.len() - i,
    {
        let x = (reps[i].0, copy_chars(reps[i].1.as_slice()), copy_chars(reps[i].2.as_slice()));
        proof {
            assert(lv.take(i + 1).drop_last() =~= lv.take(i as int));
            assert(lv.take(i + 1).last() == lv[i as int]);
        }
        insert_desc_exec(&mut sorted, x);
        i = i + 1;
    }
    assert(lv.take(lv.len() as int) =~= lv);
    sorted
}

impl MediaCanonicalizer {
    /// The collection root.
    pub closed spec fn root(&self) -> Seq<char> {
        self.root@
    }

    /// Create a new media canonicalizer.
    pub fn new(root: String) -> (r: MediaCanonicalizer)
        ensures
            r.root() == root@,
    {
        MediaCanonicalizer { root }
    }

    /// Canonicalize a single media path.
    pub fn canonicalize_path(&self, path: &str, deck_file_dir: &str) -> (r: Fallible<String>)
        ensures
            match canonical_path(self.root(), path@, deck_file_dir@) {
                Ok(c) => r matches Ok(s) && s@ == c,
                Err(full) => r matches Err(e) && e.message() == outside_message(full),
            },
    {
        let p = chars_of(path);
        if contains_scheme_sep(p.as_slice()) {
            return Ok(path.to_owned());
        }
        if p.len() >= 2 && p[0] == '@' && p[1] == '/' {
            assert(p@.take(2) =~= seq!['@', '/']);
            return Ok(path.to_owned());
        }
        assert(!has_prefix(p@, seq!['@', '/'])) by {
            if has_prefix(p@, seq!['@', '/']) {
                assert(p@.take(2)[0] == '@' && p@.take(2)[1] == '/');
            }
        }
        let d = chars_of(deck_file_dir);
        let full = path_join(d.as_slice(), p.as_slice());
        let folded = fold_components(&path_components(full.as_slice()));
        let normal = components_text(&folded);
        let root = chars_of(self.root.as_str());
        match path_strip_prefix(normal.as_slice(), root.as_slice()) {
            Some(rel) => {
                let mut out: Vec<char> = vec!['@', '/'];
                append_chars(&mut out, rel.as_slice());
                Ok(string_from_chars(out.as_slice()))
            },
            None => {
                let mut msg = chars_of("Path ");
                append_chars(&mut msg, full.as_slice());
                let tail = chars_of(" is outside the collection directory");
                append_chars(&mut msg, tail.as_slice());
                let m = string_from_chars(msg.as_slice());
                Err(ErrorReport::new(m.as_str()))
            },
        }
    }

    /// Canonicalize the media paths in Markdown text: each image destination
    /// whose canonical form differs is replaced, as `](url)`, everywhere.
    pub fn canonicalize_markdown(&self, markdown: &str, deck_file_dir: &str) -> (r: Fallible<String>)
        ensures
            match canonical_markdown(self.root(), markdown@, deck_file_dir@) {
                Ok(t) => r matches Ok(s) && s@ == t,
                Err(full) => r matches Err(e) && e.message() == outside_message(full),
            },
    {
        let refs = markdown_image_refs(markdown);
        let ghost dests = image_refs(markdown@).map_values(|i: (Seq<char>, Seq<char>)| i.0);
        proof {
            assert(refs@.map_values(|i: ImageRef| (i.dest_url@, i.title@)).len() == refs@.len());
            assert forall|k: int| 0 <= k < refs@.len() implies #[trigger] dests[k] == refs@[k].dest_url@ by {
                assert(refs@.map_values(|i: ImageRef| (i.dest_url@, i.title@))[k] == (refs@[k].dest_url@, refs@[k].title@));
            }
        }
        let mut reps: Vec<(Vec<char>, Vec<char>)> = Vec::new();
        let mut i: usize = 0;
        assert(dests.take(0) =~= Seq::<Seq<char>>::empty());
        assert(pair_views(reps@) =~= Seq::<(Seq<char>, Seq<char>)>::empty());
        while i < refs.len()
            invariant
                i <= refs@.len(),
                dests == image_refs(markdown@).map_values(|i: (Seq<char>, Seq<char>)| i.0),
                dests.len() == refs@.len(),
                forall|k: int| 0 <= k < refs@.len() ==> #[trigger] dests[k] == refs@[k].dest_url@,
                replacements(self.root(), dests.take(i as int), deck_file_dir@) == Ok::<Seq<(Seq<char>, Seq<char>)>, Seq<char>>(pair_views(reps@)),
            decreases refs.len() - i,
        {
            proof {
                assert(dests.take(i + 1).drop_last() =~= dests.take(i as int));
                assert(dests.take(i + 1).last() == dests[i as int]);
            }
            let given = refs[i].dest_url.as_str();
            match self.canonicalize_path(given, deck_file_dir) {
                Err(e) => {
                    proof {
                        assert(given@ == dests[i as int]);
                        assert(canonical_path(self.root(), given@, deck_file_dir@) is Err);
                        let full = canonical_path(self.root(), given@, deck_file_dir@)->Err_0;
                        assert(replacements(self.root(), dests.take(i + 1), deck_file_dir@) == Err::<Seq<(Seq<char>, Seq<char>)>, Seq<char>>(full));
                        lemma_replacements_err(self.root(), dests, deck_file_dir@, i + 1);
                    }
                    return Err(e);
                },
                Ok(canonical) => {
                    let o = chars_of(given);
                    let c = chars_of(canonical.as_str());
                    if !chars_eq(o.as_slice(), c.as_slice()) {
                        let ghost before = reps@;
                        reps.push((o, c));
                        assert(pair_views(reps@) =~= pair_views(before).push((dests[i as int], canonical@)));
                    }
                },
            }
            i = i + 1;
        }
        assert(dests.take(dests.len() as int) =~= dests);
        let ghost pv = pair_views(reps@);
        let mut result = chars_of(markdown);
        let mut j: usize = 0;
        assert(pv.take(0) =~= Seq::<(Seq<char>, Seq<char>)>::empty());
        while j < reps.len()
            invariant
                j <= reps@.len(),
                pv == pair_views(reps@),
                result@ == apply_replacements(markdown@, pv.take(j as int)),
            decreases reps.len() - j,
        {
            let pat = tail_chars(reps[j].0.as_slice());
            let rep = tail_chars(reps[j].1.as_slice());
            result = replace_all_chars(result.as_slice(), pat.as_slice(), rep.as_slice());
            proof {
                assert(pv.take(j + 1).drop_last() =~= pv.take(j as int));
                assert(pv.take(j + 1).last() == pv[j as int]);
            }
            j = j + 1;
        }
        assert(pv.take(pv.len() as int) =~= pv);
        Ok(string_from_chars(result.as_slice()))
    }

    /// The positioned replacements for the images `imgs` of `md`: each
    /// destination whose canonical form differs, at the URL of the first
    /// `](url)` found from the image's start on.
    fn locate_replacements(&self, md: &[char], imgs: &Vec<ImageStart>, deck_file_dir: &str) -> (r: Fallible<Vec<(usize, Vec<char>, Vec<char>)>>)
        requires
            forall|k: int| 0 <= k < imgs@.len() ==> #[trigger] imgs@[k].start <= md@.len(),
        ensures
            match locate(self.root(), md@, imgs@.map_values(|i: ImageStart| (i.start as int, i.dest_url@)), deck_file_dir@) {
                Ok(reps) => r matches Ok(v) && located_views(v@) == reps,
                Err(full) => r matches Err(e) && e.message() == outside_message(full),
            },
    {
        let ghost iv = imgs@.map_values(|i: ImageStart| (i.start as int, i.dest_url@));
        let mut reps: Vec<(usize, Vec<char>, Vec<char>)> = Vec::new();
        let mut i: usize = 0;
        assert(iv.take(0) =~= Seq::<(int, Seq<char>)>::empty());
        assert(located_views(reps@) =~= Seq::<Located>::empty());
        while i < imgs.len()
            invariant
                i <= imgs@.len(),
                iv == imgs@.map_values(|i: ImageStart| (i.start as int, i.dest_url@)),
                forall|k: int| 0 <= k < imgs@.len() ==> #[trigger] imgs@[k].start <= md@.len(),
                locate(self.root(), md@, iv.take(i as int), deck_file_dir@) == Ok::<Seq<Located>, Seq<char>>(located_views(reps@)),
            decreases imgs.len() - i,
        {
            proof {
                assert(iv.take(i + 1).drop_last() =~= iv.take(i as int));
                assert(iv.take(i + 1).last() == iv[i as int]);
                assert(iv[i as int] == (imgs@[i as int].start as int, imgs@[i as int].dest_url@));
            }
            let given = imgs[i].dest_url.as_str();
            let pos = imgs[i].start;
            match self.canonicalize_path(given, deck_file_dir) {
                Err(e) => {
                    proof {
                        let full = canonical_path(self.root(), given@, deck_file_dir@)->Err_0;
                        assert(locate(self.root(), md@, iv.take(i + 1), deck_file_dir@) == Err::<Seq<Located>, Seq<char>>(full));
                        lemma_locate_err(self.root(), md@, iv, deck_file_dir@, i + 1);
                    }
                    return Err(e);
                },
                Ok(canonical) => {
                    let o = chars_of(given);
                    let c = chars_of(canonical.as_str());
                    let ghost prev = locate(self.root(), md@, iv.take(i as int), deck_file_dir@);
                    assert(canonical_path(self.root(), given@, deck_file_dir@) == Ok::<Seq<char>, Seq<char>>(canonical@));
                    if chars_eq(o.as_slice(), c.as_slice()) {
                        assert(locate(self.root(), md@, iv.take(i + 1), deck_file_dir@) == prev);
                    } else {
                        let pattern = tail_chars(o.as_slice());
                        let ml = md.len();
                        assert(md@.len() == ml);
                        match find_chars_from(md, pattern.as_slice(), pos) {
                            Some(p) => {
                                proof {
                                    lemma_find_from(md@, pattern@, pos as int);
                                }
                                let ghost before = reps@;
                                reps.push((p + 2, o, c));
                                assert(located_views(reps@) =~= located_views(before).push((p + 2, given@, canonical@)));
                            },
                            None => {},
                        }
                    }
                },
            }
            i = i + 1;
        }
        assert(iv.take(iv.len() as int) =~= iv);
        Ok(reps)
    }

    /// The cloze text with its media paths canonicalized and its deletion
    /// moved along, or the failure: `Err(Ok(()))` where it is undefined.
    fn cloze_outcome(&self, markdown: &str, start: usize, end: usize, deck_file_dir: &str) -> (r: Result<(String, usize, usize), Result<(), ErrorReport>>)
        ensures
            match canonical_cloze(self.root(), markdown@, start, end, deck_file_dir@) {
                Ok((t, s, e)) => r matches Ok(x) && x.0@ == t && x.1 == s && x.2 == e,
                Err(Err(full)) => r matches Err(Err(er)) && er.message() == outside_message(full),
                Err(Ok(())) => r matches Err(Ok(())),
            },
    {
        let imgs = markdown_image_starts(markdown);
        let md = chars_of(markdown);
        let reps = match self.locate_replacements(md.as_slice(), &imgs, deck_file_dir) {
            Ok(v) => v,
            Err(e) => {
                return Err(Err(e));
            },
        };
        let sorted = sort_desc_exec(&reps);
        match apply_located_exec(md, start, end, &sorted) {
            Some((text, s, e)) => Ok((string_from_chars(text.as_slice()), s, e)),
            None => Err(Ok(())),
        }
    }

    /// Canonicalize the media paths in the text of a cloze card and adjust
    /// its deletion's positions, taken as byte positions (see
    /// `apply_located`).
    fn canonicalize_markdown_with_positions(&self, markdown: &str, start: usize, end: usize, deck_file_dir: &str) -> (r: Fallible<(String, usize, usize)>)
        requires
            !is_panic(canonical_cloze(self.root(), markdown@, start, end, deck_file_dir@)),
        ensures
            match canonical_cloze(self.root(), markdown@, start, end, deck_file_dir@) {
                Ok((t, s, e)) => r matches Ok(x) && x.0@ == t && x.1 == s && x.2 == e,
                Err(Err(full)) => r matches Err(er) && er.message() == outside_message(full),
                Err(Ok(())) => false,
            },
    {
        match self.cloze_outcome(markdown, start, end, deck_file_dir) {
            Ok(x) => Ok(x),
            Err(Err(e)) => Err(e),
            Err(Ok(())) => {
                assert(false);
                Err(ErrorReport::new(""))
            },
        }
    }

    /// The card with its media paths canonicalized, or the failure:
    /// `Err(Ok(()))` where it is undefined.
    fn card_outcome_exec(&self, card: &Card) -> (r: Result<Card, Result<(), ErrorReport>>)
        ensures
            match card_outcome(self.root(), card@) {
                Ok(v) => r matches Ok(c) && c@ == v,
                Err(Err(full)) => r matches Err(Err(e)) && e.message() == outside_message(full),
                Err(Ok(())) => r matches Err(Ok(())),
            },
    {
        let fp = chars_of(card.file_path().as_str());
        let dir = match path_parent(fp.as_slice()) {
            Some(d) => string_from_chars(d.as_slice()),
            None => {
                return Err(Ok(()));
            },
        };
        let content = match card.content() {
            CardContent::Basic { question, answer } => {
                let q = match self.canonicalize_markdown(question.as_str(), dir.as_str()) {
                    Ok(q) => q,
                    Err(e) => {
                        return Err(Err(e));
                    },
                };
                let a = match self.canonicalize_markdown(answer.as_str(), dir.as_str()) {
                    Ok(a) => a,
                    Err(e) => {
                        return Err(Err(e));
                    },
                };
                CardContent::new_basic(q.as_str(), a.as_str())
            },
            CardContent::Cloze { text, start, end } => {
                match self.cloze_outcome(text.as_str(), *start, *end, dir.as_str()) {
                    Ok((t, s, e)) => CardContent::new_cloze(t.as_str(), s, e),
                    Err(x) => {
                        return Err(x);
                    },
                }
            },
        };
        Ok(Card::new(card.deck_name().clone(), card.file_path().clone(), card.range(), content))
    }

    /// Canonicalize the media paths in a single card, in the directory of
    /// its deck file.
    pub fn canonicalize_card(&self, card: Card) -> (r: Fallible<Card>)
        requires
            !is_panic(card_outcome(self.root(), card@)),
        ensures
            match card_outcome(self.root(), card@) {
                Ok(v) => r matches Ok(c) && c@ == v,
                Err(Err(full)) => r matches Err(e) && e.message() == outside_message(full),
                Err(Ok(())) => false,
            },
    {
        let fp = chars_of(card.file_path().as_str());
        let dir = match path_parent(fp.as_slice()) {
            Some(d) => string_from_chars(d.as_slice()),
            None => {
                assert(false);
                return Err(ErrorReport::new(""));
            },
        };
        let content = match card.content() {
            CardContent::Basic { question, answer } => {
                let q = self.canonicalize_markdown(question.as_str(), dir.as_str())?;
                let a = self.canonicalize_markdown(answer.as_str(), dir.as_str())?;
                CardContent::new_basic(q.as_str(), a.as_str())
            },
            CardContent::Cloze { text, start, end } => {
                let (t, s, e) = self.canonicalize_markdown_with_positions(
                    text.as_str(),
                    *start,
                    *end,
                    dir.as_str(),
                )?;
                CardContent::new_cloze(t.as_str(), s, e)
            },
        };
        Ok(Card::new(card.deck_name().clone(), card.file_path().clone(), card.range(), content))
    }

    /// Canonicalize the media paths in the cards, one after the other; the
    /// first failure is the result.
    pub fn canonicalize_cards(&self, cards: Vec<Card>) -> (r: Fallible<Vec<Card>>)
        requires
            !is_panic(cards_outcome(self.root(), card_views(cards@))),
        ensures
            match cards_outcome(self.root(), card_views(cards@)) {
                Ok(vs) => r matches Ok(v) && card_views(v@) == vs,
                Err(Err(full)) => r matches Err(e) && e.message() == outside_message(full),
                Err(Ok(())) => false,
            },
    {
        let ghost cv = card_views(cards@);
        let mut result: Vec<Card> = Vec::new();
        let mut i: usize = 0;
        assert(cv.take(0) =~= Seq::<CardView>::empty());
        assert(card_views(result@) =~= Seq::<CardView>::empty());
        while i < cards.len()
            invariant
                i <= cards@.len(),
                cv == card_views(cards@),
                !is_panic(cards_outcome(self.root(), cv)),
                cards_outcome(self.root(), cv.take(i as int)) == Ok::<Seq<CardView>, Result<(), Seq<char>>>(card_views(result@)),
            decreases cards.len() - i,
        {
            proof {
                assert(cv.take(i + 1).drop_last() =~= cv.take(i as int));
                assert(cv.take(i + 1).last() == cv[i as int]);
                assert(cv[i as int] == cards@[i as int]@);
                if is_panic(card_outcome(self.root(), cv[i as int])) {
                    lemma_cards_err(self.root(), cv, i + 1);
                }
            }
            let card = cards[i].clone();
            match self.canonicalize_card(card) {
                Ok(c) => {
                    let ghost before = result@;
                    result.push(c);
                    assert(card_views(result@) =~= card_views(before).push(c@));
                },
                Err(e) => {
                    proof {
                        lemma_cards_err(self.root(), cv, i + 1);
                    }
                    return Err(e);
                },
            }
            i = i + 1;
        }
        assert(cv.take(cv.len() as int) =~= cv);
        Ok(result)
    }

    /// Canonicalize the media paths in the cards where that is defined:
    /// `None` where it is not (a card file without a parent directory, or a
    /// cloze replacement that cannot be made).
    pub fn canonicalize_cards_checked(&self, cards: Vec<Card>) -> (r: Option<Fallible<Vec<Card>>>)
        ensures
            match cards_outcome(self.root(), card_views(cards@)) {
                Ok(vs) => r matches Some(Ok(v)) && card_views(v@) == vs,
                Err(Err(full)) => r matches Some(Err(e)) && e.message() == outside_message(full),
                Err(Ok(())) => r is None,
            },
    {
        let ghost cv = card_views(cards@);
        let mut i: usize = 0;
        let mut failed = false;
        assert(cv.take(0) =~= Seq::<CardView>::empty());
        while i < cards.len() && !failed
            invariant
                i <= cards@.len(),
                cv == card_views(cards@),
                !failed ==> cards_outcome(self.root(), cv.take(i as int)) is Ok,
                failed ==> !is_panic(cards_outcome(self.root(), cv)),
            decreases cards.len() - i,
        {
            proof {
                assert(cv.take(i + 1).drop_last() =~= cv.take(i as int));
                assert(cv.take(i + 1).last() == cv[i as int]);
                assert(cv[i as int] == cards@[i as int]@);
            }
            match self.card_outcome_exec(&cards[i]) {
                Ok(_) => {},
                Err(Ok(())) => {
                    proof {
                        lemma_cards_err(self.root(), cv, i + 1);
                    }
                    return None;
                },
                Err(Err(_)) => {
                    proof {
                        lemma_cards_err(self.root(), cv, i + 1);
                    }
                    failed = true;
                },
            }
            i = i + 1;
        }
        proof {
            if !failed {
                assert(cv.take(cv.len() as int) =~= cv);
            }
        }
        Some(self.canonicalize_cards(cards))
    }
}

/// A canonical path is its own canonical form: canonicalizing twice gives
/// what canonicalizing once gave.
pub proof fn law_canonical_path_idempotent(root: Seq<char>, path: Seq<char>, deck_file_dir: Seq<char>)
    ensures
        canonical_path(root, path, deck_file_dir) matches Ok(c) ==> canonical_path(root, c, deck_file_dir)
            == Ok::<Seq<char>, Seq<char>>(c),
{
    if let Ok(c) = canonical_path(root, path, deck_file_dir) {
        if !contains(path, scheme_sep()) && !has_prefix(path, seq!['@', '/']) {
            let rel = strip_prefix(lexical_normal(join_path(deck_file_dir, path)), root)->Some_0;
            assert(c == seq!['@', '/'] + rel);
            assert(c.take(2) =~= seq!['@', '/']);
        }
    }
}

} // verus!
