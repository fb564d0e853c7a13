pub mod canon;
pub mod load;
pub mod new_resolve;
pub mod resolve;

use vstd::prelude::*;

use crate::error::ErrorReport;
use crate::error::Fallible;
use crate::fsys::exists_answer;
use crate::fsys::path_exists;
use crate::markdown::image_refs;
use crate::markdown::markdown_image_refs;
use crate::markdown::ImageRef;
use crate::paths::comp_views;
use crate::paths::components;
use crate::paths::join_path;
use crate::paths::join_str;
use crate::paths::path_components;
use crate::paths::Comp;
use crate::paths::Component;
use crate::text::append_chars;
use crate::text::chars_of;
use crate::text::contains;
use crate::text::contains_scheme_sep;
use crate::text::decimal;
use crate::text::decimal_chars;
use crate::text::scheme_sep;
use crate::text::string_from_chars;
use crate::text::str_lt;
use crate::text::str_lt_exec;
use crate::text::lemma_str_lt_irreflexive;
use crate::text::lemma_str_lt_total;
use crate::text::lemma_str_lt_transitive;
use crate::text::lowercase;
use crate::text::to_lowercase;
use crate::parser::file_name;
use crate::parser::split_extension;
use crate::types::card::Card;
use crate::types::card::CardContent;
use crate::types::card::CardView;
use crate::types::card::card_views;
use crate::types::card::ContentView;

verus! {

/// A media file referenced by a card and missing on disk.
#[derive(Debug)]
pub struct MissingMedia {
    pub file_path: String,
    pub card_file: String,
    pub card_lines: (usize, usize),
}

/// A missing media reference, as values.
pub struct MissingView {
    pub file_path: Seq<char>,
    pub card_file: Seq<char>,
    pub card_lines: (usize, usize),
}

impl View for MissingMedia {
    type V = MissingView;

    open spec fn view(&self) -> MissingView {
        MissingView {
            file_path: self.file_path@,
            card_file: self.card_file@,
            card_lines: self.card_lines,
        }
    }
}

impl Clone for MissingMedia {
    fn clone(&self) -> (r: Self)
        ensures
            r@ == self@,
    {
        MissingMedia {
            file_path: self.file_path.clone(),
            card_file: self.card_file.clone(),
            card_lines: self.card_lines,
        }
    }
}

/// The values of a sequence of missing references.
pub open spec fn missing_views(v: Seq<MissingMedia>) -> Seq<MissingView> {
    v.map_values(|m: MissingMedia| m@)
}

/// The image destinations of a Markdown text, in order.
pub open spec fn image_paths(md: Seq<char>) -> Seq<Seq<char>> {
    image_refs(md).map_values(|i: (Seq<char>, Seq<char>)| i.0)
}

/// Extract all media file paths from Markdown text.
pub fn extract_media_paths(markdown: &str) -> (r: Vec<String>)
    ensures
        r@.map_values(|s: String| s@) == image_paths(markdown@),
{
    let refs = markdown_image_refs(markdown);
    let mut paths: Vec<String> = Vec::new();
    let mut i: usize = 0;
    while i < refs.len()
        invariant
            i <= refs@.len(),
            paths@.map_values(|s: String| s@) == refs@.take(i as int).map_values(|x: ImageRef| x.dest_url@),
        decreases refs.len() - i,
    {
        let ghost before = paths@;
        paths.push(refs[i].dest_url.clone());
        assert(refs@.take(i + 1).map_values(|x: ImageRef| x.dest_url@) =~= refs@.take(i as int).map_values(
            |x: ImageRef| x.dest_url@,
        ).push(refs@[i as int].dest_url@));
        assert(paths@.map_values(|s: String| s@) =~= before.map_values(|s: String| s@).push(refs@[i as int].dest_url@));
        i = i + 1;
    }
    proof {
        assert(refs@.take(refs@.len() as int) =~= refs@);
        let m = refs@.map_values(|x: ImageRef| (x.dest_url@, x.title@));
        assert(refs@.map_values(|x: ImageRef| x.dest_url@) =~= m.map_values(|i: (Seq<char>, Seq<char>)| i.0));
    }
    paths
}

/// The missing-media candidates of one text: its local image paths (no
/// `://`), each with the card's file and lines.
pub open spec fn path_candidates(paths: Seq<Seq<char>>, file: Seq<char>, lines: (usize, usize)) -> Seq<MissingView>
    decreases paths.len(),
{
    if paths.len() == 0 {
        seq![]
    } else {
        let prev = path_candidates(paths.drop_last(), file, lines);
        if contains(paths.last(), scheme_sep()) {
            prev
        } else {
            prev.push(MissingView { file_path: paths.last(), card_file: file, card_lines: lines })
        }
    }
}

/// The Markdown texts of a card's content.
pub open spec fn content_texts(c: ContentView) -> Seq<Seq<char>> {
    match c {
        ContentView::Basic { question, answer } => seq![question, answer],
        ContentView::Cloze { text, .. } => seq![text],
    }
}

/// The candidates of the texts of a card, in order.
pub open spec fn texts_candidates(texts: Seq<Seq<char>>, file: Seq<char>, lines: (usize, usize)) -> Seq<MissingView>
    decreases texts.len(),
{
    if texts.len() == 0 {
        seq![]
    } else {
        texts_candidates(texts.drop_last(), file, lines) + path_candidates(image_paths(texts.last()), file, lines)
    }
}

/// The media references of the cards that must exist on disk, in order.
pub open spec fn media_candidates(cs: Seq<CardView>) -> Seq<MissingView>
    decreases cs.len(),
{
    if cs.len() == 0 {
        seq![]
    } else {
        let c = cs.last();
        media_candidates(cs.drop_last()) + texts_candidates(content_texts(c.content), c.file_path, c.range)
    }
}

/// The candidates found missing: those whose flag in `present` is false.
pub open spec fn absent(cands: Seq<MissingView>, present: Seq<bool>) -> Seq<MissingView>
    decreases cands.len(),
{
    if cands.len() == 0 || present.len() == 0 {
        seq![]
    } else if present.last() {
        absent(cands.drop_last(), present.drop_last())
    } else {
        absent(cands.drop_last(), present.drop_last()).push(cands.last())
    }
}

// ----------------------------------------------------------------------------
// The order of the report.
// ----------------------------------------------------------------------------

/// The rank of a component's kind in `Path`'s order.
pub open spec fn comp_rank(c: Comp) -> int {
    match c {
        Comp::Root => 0,
        Comp::Cur => 1,
        Comp::Parent => 2,
        Comp::Normal(_) => 3,
    }
}

/// The order of path components.
pub open spec fn comp_lt(a: Comp, b: Comp) -> bool {
    match (a, b) {
        (Comp::Normal(x), Comp::Normal(y)) => str_lt(x, y),
        _ => comp_rank(a) < comp_rank(b),
    }
}

/// The order of paths: component by component.
pub open spec fn comps_lt(a: Seq<Comp>, b: Seq<Comp>) -> bool
    decreases a.len(),
{
    if a.len() == 0 {
        b.len() > 0
    } else if b.len() == 0 {
        false
    } else if a[0] != b[0] {
        comp_lt(a[0], b[0])
    } else {
        comps_lt(a.drop_first(), b.drop_first())
    }
}

/// Do the two references stand for the same missing file (the same path,
/// component by component, the same lines, the same file)?
pub open spec fn same_missing(a: MissingView, b: MissingView) -> bool {
    components(a.card_file) == components(b.card_file) && a.card_lines == b.card_lines && a.file_path
        == b.file_path
}

/// The order of the report: by card file, then lines, then media path.
pub open spec fn missing_lt(a: MissingView, b: MissingView) -> bool {
    let ca = components(a.card_file);
    let cb = components(b.card_file);
    ||| comps_lt(ca, cb)
    ||| ca == cb && a.card_lines.0 < b.card_lines.0
    ||| ca == cb && a.card_lines.0 == b.card_lines.0 && a.card_lines.1 < b.card_lines.1
    ||| ca == cb && a.card_lines == b.card_lines && str_lt(a.file_path, b.file_path)
}

/// `ms` with each reference after the first of its kind left out.
pub open spec fn dedup(ms: Seq<MissingView>) -> Seq<MissingView>
    decreases ms.len(),
{
    if ms.len() == 0 {
        seq![]
    } else {
        let prev = dedup(ms.drop_last());
        if exists|k: int| 0 <= k < prev.len() && same_missing(#[trigger] prev[k], ms.last()) {
            prev
        } else {
            prev.push(ms.last())
        }
    }
}

/// `x` put into `sorted` before the first element it precedes.
pub open spec fn insert_sorted(sorted: Seq<MissingView>, x: MissingView) -> Seq<MissingView>
    decreases sorted.len(),
{
    if sorted.len() == 0 {
        seq![x]
    } else if missing_lt(x, sorted[0]) {
        seq![x] + sorted
    } else {
        seq![sorted[0]] + insert_sorted(sorted.drop_first(), x)
    }
}

/// The references in report order.
pub open spec fn sort_missing(ms: Seq<MissingView>) -> Seq<MissingView>
    decreases ms.len(),
{
    if ms.len() == 0 {
        seq![]
    } else {
        insert_sorted(sort_missing(ms.drop_last()), ms.last())
    }
}

/// The line of the report for one reference.
pub open spec fn report_line(m: MissingView) -> Seq<char> {
    "  - "@ + m.file_path + " (referenced in "@ + m.card_file + ":"@ + decimal(m.card_lines.0 as nat)
        + ")\n"@
}

/// The lines of the report, in order.
pub open spec fn report_lines(ms: Seq<MissingView>) -> Seq<char>
    decreases ms.len(),
{
    if ms.len() == 0 {
        seq![]
    } else {
        report_lines(ms.drop_last()) + report_line(ms.last())
    }
}

/// The report on the missing references: `None` when there is none, else
/// the error message listing each once, in order.
pub open spec fn missing_report(ms: Seq<MissingView>) -> Option<Seq<char>> {
    if ms.len() == 0 {
        None
    } else {
        Some("Missing media files referenced in cards:\n"@ + report_lines(sort_missing(dedup(ms))))
    }
}

/// Is `r` the outcome of the report on `ms`?
pub open spec fn reports(ms: Seq<MissingView>, r: Fallible<()>) -> bool {
    match missing_report(ms) {
        None => r is Ok,
        Some(msg) => r matches Err(e) && e.message() == msg,
    }
}

/// Is `r` the outcome of validating the candidates `cands` when `present`
/// tells which of them exist?
pub open spec fn validates(cands: Seq<MissingView>, present: Seq<bool>, r: Fallible<()>) -> bool {
    present.len() == cands.len() && reports(absent(cands, present), r)
}

// ----------------------------------------------------------------------------
// Executable order and report.
// ----------------------------------------------------------------------------

fn comp_rank_exec(c: &Component) -> (r: u8)
    ensures
        r as int == comp_rank(c@),
{
    match c {
        Component::RootDir => 0,
        Component::CurDir => 1,
        Component::ParentDir => 2,
        Component::Normal(_) => 3,
    }
}

fn comp_lt_exec(a: &Component, b: &Component) -> (r: bool)
    ensures
        r == comp_lt(a@, b@),
{
    match (a, b) {
        (Component::Normal(x), Component::Normal(y)) => str_lt_exec(x.as_slice(), y.as_slice()),
        _ => comp_rank_exec(a) < comp_rank_exec(b),
    }
}

fn comps_lt_exec(a: &Vec<Component>, b: &Vec<Component>) -> (r: bool)
    ensures
        r == comps_lt(comp_views(a@), comp_views(b@)),
{
    let ghost av = comp_views(a@);
    let ghost bv = comp_views(b@);
    let mut i: usize = 0;
    assert(av.skip(0) =~= av);
    assert(bv.skip(0) =~= bv);
    while i < a.len() && i < b.len() && crate::paths::comp_eq(&a[i], &b[i])
        invariant
            av == comp_views(a@),
            bv == comp_views(b@),
            i <= a@.len(),
            i <= b@.len(),
            comps_lt(av, bv) == comps_lt(av.skip(i as int), bv.skip(i as int)),
        decreases a.len() - i,
    {
        assert(av.skip(i as int).drop_first() =~= av.skip(i + 1));
        assert(bv.skip(i as int).drop_first() =~= bv.skip(i + 1));
        assert(av.skip(i as int)[0] == bv.skip(i as int)[0]);
        i = i + 1;
    }
    if i == a.len() {
        i < b.len()
    } else if i == b.len() {
        false
    } else {
        assert(av.skip(i as int)[0] == av[i as int]);
        assert(bv.skip(i as int)[0] == bv[i as int]);
        comp_lt_exec(&a[i], &b[i])
    }
}

fn comps_same(a: &Vec<Component>, b: &Vec<Component>) -> (r: bool)
    ensures
        r == (comp_views(a@) == comp_views(b@)),
{
    if a.len() != b.len() {
        assert(comp_views(a@).len() != comp_views(b@).len());
        return false;
    }
    let r = crate::paths::comps_prefix(a, b);
    assert(comp_views(a@).take(comp_views(b@).len() as int) =~= comp_views(a@));
    r
}

fn card_file_comps(m: &MissingMedia) -> (r: Vec<Component>)
    ensures
        comp_views(r@) == components(m@.card_file),
{
    let f = chars_of(m.card_file.as_str());
    path_components(f.as_slice())
}

fn same_missing_exec(a: &MissingMedia, b: &MissingMedia) -> (r: bool)
    ensures
        r == same_missing(a@, b@),
{
    let ca = card_file_comps(a);
    let cb = card_file_comps(b);
    if !comps_same(&ca, &cb) || a.card_lines.0 != b.card_lines.0 || a.card_lines.1 != b.card_lines.1 {
        return false;
    }
    let fa = chars_of(a.file_path.as_str());
    let fb = chars_of(b.file_path.as_str());
    crate::text::chars_eq(fa.as_slice(), fb.as_slice())
}

fn missing_lt_exec(a: &MissingMedia, b: &MissingMedia) -> (r: bool)
    ensures
        r == missing_lt(a@, b@),
{
    let ca = card_file_comps(a);
    let cb = card_file_comps(b);
    if comps_lt_exec(&ca, &cb) {
        return true;
    }
    if !comps_same(&ca, &cb) {
        return false;
    }
    if a.card_lines.0 != b.card_lines.0 {
        return a.card_lines.0 < b.card_lines.0;
    }
    if a.card_lines.1 != b.card_lines.1 {
        return a.card_lines.1 < b.card_lines.1;
    }
    let fa = chars_of(a.file_path.as_str());
    let fb = chars_of(b.file_path.as_str());
    str_lt_exec(fa.as_slice(), fb.as_slice())
}

fn dedup_exec(ms: &Vec<MissingMedia>) -> (r: Vec<MissingMedia>)
    ensures
        missing_views(r@) == dedup(missing_views(ms@)),
{
    let ghost mv = missing_views(ms@);
    let mut out: Vec<MissingMedia> = Vec::new();
    let mut i: usize = 0;
    assert(mv.take(0) =~= Seq::<MissingView>::empty());
    assert(missing_views(out@) =~= Seq::<MissingView>::empty());
    while i < ms.len()
        invariant
            i <= ms@.len(),
            mv == missing_views(ms@),
            missing_views(out@) == dedup(mv.take(i as int)),
        decreases ms.len() - i,
    {
        let ghost prev = missing_views(out@);
        proof {
            assert(mv.take(i + 1).drop_last() =~= mv.take(i as int));
            assert(mv.take(i + 1).last() == ms@[i as int]@);
        }
        let mut found = false;
        let mut j: usize = 0;
        while j < out.len() && !found
            invariant
                j <= out@.len(),
                i < ms@.len(),
                prev == missing_views(out@),
                found ==> exists|k: int| 0 <= k < prev.len() && same_missing(#[trigger] prev[k], ms@[i as int]@),
                !found ==> forall|k: int| 0 <= k < j ==> !same_missing(#[trigger] prev[k], ms@[i as int]@),
            decreases out.len() - j,
        {
            if same_missing_exec(&out[j], &ms[i]) {
                assert(prev[j as int] == out@[j as int]@);
                found = true;
            } else {
                assert(prev[j as int] == out@[j as int]@);
            }
            j = j + 1;
        }
        if !found {
            out.push(ms[i].clone());
            assert(missing_views(out@) =~= prev.push(ms@[i as int]@));
        }
        i = i + 1;
    }
    assert(mv.take(mv.len() as int) =~= mv);
    out
}

fn insert_sorted_exec(v: &mut Vec<MissingMedia>, x: MissingMedia)
    ensures
        missing_views(final(v)@) == insert_sorted(missing_views(old(v)@), x@),
{
    let ghost s = missing_views(v@);
    let ghost xv = x@;
    let mut k: usize = 0;
    assert(s.skip(0) =~= s);
    assert(s.take(0) + insert_sorted(s.skip(0), xv) =~= insert_sorted(s, xv));
    while k < v.len() && !missing_lt_exec(&x, &v[k])
        invariant
            k <= v@.len(),
            s == missing_views(v@),
            xv == x@,
            insert_sorted(s, xv) == s.take(k as int) + insert_sorted(s.skip(k as int), xv),
        decreases v.len() - k,
    {
        proof {
            assert(s.skip(k as int)[0] == s[k as int]);
            assert(s[k as int] == v@[k as int]@);
            assert(s.skip(k as int).drop_first() =~= s.skip(k + 1));
            assert(s.take(k + 1) =~= s.take(k as int).push(s[k as int]));
            assert(s.take(k as int) + (seq![s[k as int]] + insert_sorted(s.skip(k + 1), xv)) =~= s.take(
                k + 1,
            ) + insert_sorted(s.skip(k + 1), xv));
        }
        k = k + 1;
    }
    proof {
        if k < v@.len() {
            assert(s.skip(k as int)[0] == s[k as int]);
            assert(s[k as int] == v@[k as int]@);
        } else {
            assert(s.skip(k as int) =~= Seq::<MissingView>::empty());
        }
        assert(insert_sorted(s.skip(k as int), xv) =~= seq![xv] + s.skip(k as int));
    }
    v.insert(k, x);
    assert(missing_views(v@) =~= s.take(k as int) + (seq![xv] + s.skip(k as int)));
}

fn sort_missing_exec(ms: &Vec<MissingMedia>) -> (r: Vec<MissingMedia>)
    ensures
        missing_views(r@) == sort_missing(missing_views(ms@)),
{
    let ghost mv = missing_views(ms@);
    let mut sorted: Vec<MissingMedia> = Vec::new();
    let mut i: usize = 0;
    assert(mv.take(0) =~= Seq::<MissingView>::empty());
    assert(missing_views(sorted@) =~= Seq::<MissingView>::empty());
    while i < ms.len()
        invariant
            i <= ms@.len(),
            mv == missing_views(ms@),
            missing_views(sorted@) == sort_missing(mv.take(i as int)),
        decreases ms.len() - i,
    {
        proof {
            assert(mv.take(i + 1).drop_last() =~= mv.take(i as int));
            assert(mv.take(i + 1).last() == ms@[i as int]@);
        }
        insert_sorted_exec(&mut sorted, ms[i].clone());
        i = i + 1;
    }
    assert(mv.take(mv.len() as int) =~= mv);
    sorted
}

fn report_line_chars(out: &mut Vec<char>, m: &MissingMedia)
    ensures
        final(out)@ == old(out)@ + report_line(m@),
{
    let a = chars_of("  - ");
    append_chars(out, a.as_slice());
    let f = chars_of(m.file_path.as_str());
    append_chars(out, f.as_slice());
    let b = chars_of(" (referenced in ");
    append_chars(out, b.as_slice());
    let c = chars_of(m.card_file.as_str());
    append_chars(out, c.as_slice());
    let d = chars_of(":");
    append_chars(out, d.as_slice());
    let n = decimal_chars(m.card_lines.0 as u64);
    append_chars(out, n.as_slice());
    let e = chars_of(")\n");
    append_chars(out, e.as_slice());
    assert(final(out)@ =~= old(out)@ + report_line(m@));
}

/// The report on the missing references `missing`: `Ok` when there is
/// none, else the error listing each once, by card file, lines and path.
pub fn report_missing(missing: &Vec<MissingMedia>) -> (r: Fallible<()>)
    ensures
        reports(missing_views(missing@), r),
{
    if missing.len() == 0 {
        return Ok(());
    }
    let unique = dedup_exec(missing);
    let sorted = sort_missing_exec(&unique);
    let ghost sv = missing_views(sorted@);
    let mut msg = chars_of("Missing media files referenced in cards:\n");
    let ghost head = msg@;
    let mut i: usize = 0;
    assert(sv.take(0) =~= Seq::<MissingView>::empty());
    assert(msg@ =~= head + report_lines(sv.take(0)));
    while i < sorted.len()
        invariant
            i <= sorted@.len(),
            sv == missing_views(sorted@),
            msg@ == head + report_lines(sv.take(i as int)),
        decreases sorted.len() - i,
    {
        proof {
            assert(sv.take(i + 1).drop_last() =~= sv.take(i as int));
            assert(sv.take(i + 1).last() == sorted@[i as int]@);
        }
        report_line_chars(&mut msg, &sorted[i]);
        i = i + 1;
        assert(msg@ =~= head + report_lines(sv.take(i as int)));
    }
    assert(sv.take(sv.len() as int) =~= sv);
    let m = string_from_chars(msg.as_slice());
    Err(ErrorReport::new(m.as_str()))
}

// ----------------------------------------------------------------------------
// Validation.
// ----------------------------------------------------------------------------

/// Push the candidates of the Markdown text `md` of a card onto `out`.
fn push_text_candidates(out: &mut Vec<MissingMedia>, md: &str, file: &String, lines: (usize, usize))
    ensures
        missing_views(final(out)@) == missing_views(old(out)@) + path_candidates(image_paths(md@), file@, lines),
{
    let paths = extract_media_paths(md);
    let ghost pv = paths@.map_values(|s: String| s@);
    let ghost start = missing_views(out@);
    let mut i: usize = 0;
    assert(pv.take(0) =~= Seq::<Seq<char>>::empty());
    assert(missing_views(out@) =~= start + path_candidates(pv.take(0), file@, lines));
    while i < paths.len()
        invariant
            i <= paths@.len(),
            pv == paths@.map_values(|s: String| s@),
            missing_views(out@) == start + path_candidates(pv.take(i as int), file@, lines),
        decreases paths.len() - i,
    {
        proof {
            assert(pv.take(i + 1).drop_last() =~= pv.take(i as int));
            assert(pv.take(i + 1).last() == paths@[i as int]@);
        }
        let p = chars_of(paths[i].as_str());
        if !contains_scheme_sep(p.as_slice()) {
            let ghost before = missing_views(out@);
            out.push(MissingMedia { file_path: paths[i].clone(), card_file: file.clone(), card_lines: lines });
            assert(missing_views(out@) =~= before.push(
                MissingView { file_path: paths@[i as int]@, card_file: file@, card_lines: lines },
            ));
        }
        i = i + 1;
    }
    assert(pv.take(pv.len() as int) =~= pv);
}

/// Push the candidates of a card onto `out`.
fn push_card_candidates(out: &mut Vec<MissingMedia>, card: &Card)
    ensures
        missing_views(final(out)@) == missing_views(old(out)@) + texts_candidates(
            content_texts(card@.content),
            card@.file_path,
            card@.range,
        ),
{
    let file = card.file_path();
    let lines = card.range();
    let ghost f = card@.file_path;
    match card.content() {
        CardContent::Basic { question, answer } => {
            let ghost t = seq![question@, answer@];
            assert(t.drop_last() =~= seq![question@]);
            assert(t.drop_last().drop_last() =~= Seq::<Seq<char>>::empty());
            push_text_candidates(out, question.as_str(), file, lines);
            push_text_candidates(out, answer.as_str(), file, lines);
            assert(texts_candidates(seq![question@], f, lines) =~= path_candidates(image_paths(question@), f, lines)) by {
                assert(seq![question@].drop_last() =~= Seq::<Seq<char>>::empty());
                assert(seq![question@].last() == question@);
                assert(texts_candidates(seq![question@].drop_last(), f, lines) =~= Seq::<MissingView>::empty());
            }
            assert(t.last() == answer@);
            assert(texts_candidates(t, f, lines) =~= path_candidates(image_paths(question@), f, lines)
                + path_candidates(image_paths(answer@), f, lines));
        },
        CardContent::Cloze { text, .. } => {
            let ghost t = seq![text@];
            assert(t.drop_last() =~= Seq::<Seq<char>>::empty());
            push_text_candidates(out, text.as_str(), file, lines);
            assert(t.last() == text@);
            assert(texts_candidates(t.drop_last(), f, lines) =~= Seq::<MissingView>::empty());
            assert(texts_candidates(t, f, lines) =~= path_candidates(image_paths(text@), f, lines));
        },
    }
}

/// The report on the candidates `cands` when `present` tells, for each,
/// whether its file exists: `Ok` when all do, else the report on those
/// that do not.
pub fn media_report(cands: &Vec<MissingMedia>, present: &Vec<bool>) -> (r: Fallible<()>)
    requires
        present@.len() == cands@.len(),
    ensures
        validates(missing_views(cands@), present@, r),
{
    let ghost all = missing_views(cands@);
    let mut missing: Vec<MissingMedia> = Vec::new();
    let mut j: usize = 0;
    assert(all.take(0) =~= Seq::<MissingView>::empty());
    assert(present@.take(0) =~= Seq::<bool>::empty());
    assert(missing_views(missing@) =~= Seq::<MissingView>::empty());
    while j < cands.len()
        invariant
            j <= cands@.len(),
            present@.len() == cands@.len(),
            all == missing_views(cands@),
            missing_views(missing@) == absent(all.take(j as int), present@.take(j as int)),
        decreases cands.len() - j,
    {
        proof {
            assert(all.take(j + 1).drop_last() =~= all.take(j as int));
            assert(all.take(j + 1).last() == cands@[j as int]@);
            assert(present@.take(j + 1).drop_last() =~= present@.take(j as int));
            assert(present@.take(j + 1).last() == present@[j as int]);
        }
        let ghost before = missing_views(missing@);
        if !present[j] {
            missing.push(cands[j].clone());
            assert(missing_views(missing@) =~= before.push(cands@[j as int]@));
        }
        j = j + 1;
    }
    assert(all.take(all.len() as int) =~= all);
    assert(present@.take(present@.len() as int) =~= present@);
    report_missing(&missing)
}

/// Validate that all media files referenced in cards exist under
/// `base_dir`. The disk is asked, for each local reference in order,
/// whether something is at the reference's path joined onto `base_dir`;
/// the result is `media_report` of its answers.
pub fn validate_media_files(cards: &[Card], base_dir: &str) -> (r: Fallible<()>)
    ensures
        exists|present: Seq<bool>|
            #[trigger] validates(media_candidates(card_views(cards@)), present, r) && forall|i: int|
                0 <= i < present.len() ==> exists_answer(
                    join_path(base_dir@, media_candidates(card_views(cards@))[i].file_path),
                    #[trigger] present[i],
                ),
{
    let ghost cv = card_views(cards@);
    let mut cands: Vec<MissingMedia> = Vec::new();
    let mut i: usize = 0;
    assert(cv.take(0) =~= Seq::<CardView>::empty());
    assert(missing_views(cands@) =~= Seq::<MissingView>::empty());
    while i < cards.len()
        invariant
            i <= cards@.len(),
            cv == card_views(cards@),
            missing_views(cands@) == media_candidates(cv.take(i as int)),
        decreases cards.len() - i,
    {
        proof {
            assert(cv.take(i + 1).drop_last() =~= cv.take(i as int));
            assert(cv.take(i + 1).last() == cards@[i as int]@);
        }
        push_card_candidates(&mut cands, &cards[i]);
        i = i + 1;
    }
    assert(cv.take(cv.len() as int) =~= cv);
    let ghost all = missing_views(cands@);
    let mut present: Vec<bool> = Vec::new();
    let mut j: usize = 0;
    while j < cands.len()
        invariant
            j <= cands@.len(),
            all == missing_views(cands@),
            present@.len() == j,
            forall|k: int|
                0 <= k < j ==> exists_answer(join_path(base_dir@, all[k].file_path), #[trigger] present@[k]),
        decreases cands.len() - j,
    {
        let full = join_str(base_dir, cands[j].file_path.as_str());
        let answer = path_exists(full.as_str());
        assert(all[j as int] == cands@[j as int]@);
        present.push(answer);
        j = j + 1;
    }
    let r = media_report(&cands, &present);
    assert(validates(all, present@, r));
    r
}

// ----------------------------------------------------------------------------
// Content types.
// ----------------------------------------------------------------------------

/// The content type served for a file with the lowercased extension `ext`.
pub open spec fn content_type_of(ext: Seq<char>) -> Seq<char> {
    if ext == "png"@ {
        "image/png"@
    } else if ext == "jpg"@ || ext == "jpeg"@ {
        "image/jpeg"@
    } else if ext == "gif"@ {
        "image/gif"@
    } else if ext == "svg"@ {
        "image/svg+xml"@
    } else if ext == "mp3"@ {
        "audio/mpeg"@
    } else if ext == "wav"@ {
        "audio/wav"@
    } else if ext == "ogg"@ {
        "audio/ogg"@
    } else if ext == "mp4"@ {
        "video/mp4"@
    } else if ext == "webm"@ {
        "video/webm"@
    } else {
        "application/octet-stream"@
    }
}

/// The extension of the file at `path` (empty when it has none).
pub open spec fn extension_of(path: Seq<char>) -> Seq<char> {
    match file_name(path) {
        None => seq![],
        Some(n) => match split_extension(n).1 {
            Some(e) => e,
            None => seq![],
        },
    }
}

fn is_ext(e: &[char], name: &str) -> (r: bool)
    ensures
        r == (e@ == name@),
{
    let n = chars_of(name);
    crate::text::chars_eq(e, n.as_slice())
}

/// The content type of a media file, by its extension, lowercased.
pub fn media_content_type(path: &str) -> (r: String)
    ensures
        r@ == content_type_of(lowercase(extension_of(path@))),
{
    let ext = file_extension(path);
    let lower = to_lowercase(ext.as_str());
    let e = chars_of(lower.as_str());
    let t: &str = if is_ext(e.as_slice(), "png") {
        "image/png"
    } else if is_ext(e.as_slice(), "jpg") || is_ext(e.as_slice(), "jpeg") {
        "image/jpeg"
    } else if is_ext(e.as_slice(), "gif") {
        "image/gif"
    } else if is_ext(e.as_slice(), "svg") {
        "image/svg+xml"
    } else if is_ext(e.as_slice(), "mp3") {
        "audio/mpeg"
    } else if is_ext(e.as_slice(), "wav") {
        "audio/wav"
    } else if is_ext(e.as_slice(), "ogg") {
        "audio/ogg"
    } else if is_ext(e.as_slice(), "mp4") {
        "video/mp4"
    } else if is_ext(e.as_slice(), "webm") {
        "video/webm"
    } else {
        "application/octet-stream"
    };
    t.to_string()
}

/// The extension of the file at `path`, as `Path::extension` gives it;
/// empty when there is none.
pub fn file_extension(path: &str) -> (r: String)
    ensures
        r@ == extension_of(path@),
{
    let p = chars_of(path);
    let cs = crate::paths::path_components(p.as_slice());
    if cs.len() == 0 {
        return String::new();
    }
    let name = match &cs[cs.len() - 1] {
        Component::Normal(n) => n,
        _ => {
            return String::new();
        },
    };
    assert(comp_views(cs@).last() == cs@[cs@.len() - 1]@);
    let mut j: usize = name.len();
    assert(name@.take(j as int) =~= name@);
    while j > 0 && name[j - 1] != '.'
        invariant
            j <= name@.len(),
            crate::parser::last_dot(name@) == crate::parser::last_dot(name@.take(j as int)),
        decreases j,
    {
        assert(name@.take(j as int).drop_last() =~= name@.take(j - 1));
        j = j - 1;
    }
    if j <= 1 {
        proof {
            if j == 1 {
                assert(name@.take(1).last() == name@[0]);
            } else {
                assert(name@.take(0) =~= Seq::<char>::empty());
            }
        }
        return String::new();
    }
    assert(name@.take(j as int).last() == name@[j - 1]);
    let ext = crate::text::sub_chars(name.as_slice(), j, name.len());
    assert(ext@ =~= name@.skip(j as int));
    string_from_chars(ext.as_slice())
}

// ----------------------------------------------------------------------------
// The order of the report is a strict total order.
// ----------------------------------------------------------------------------

proof fn lemma_comp_lt_order(a: Comp, b: Comp, c: Comp)
    ensures
        !comp_lt(a, a),
        a != b ==> comp_lt(a, b) || comp_lt(b, a),
        !(comp_lt(a, b) && comp_lt(b, a)),
        comp_lt(a, b) && comp_lt(b, c) ==> comp_lt(a, c),
{
    match a {
        Comp::Normal(x) => lemma_str_lt_irreflexive(x),
        _ => {},
    }
    match (a, b) {
        (Comp::Normal(x), Comp::Normal(y)) => lemma_str_lt_total(x, y),
        _ => {},
    }
    match (a, b, c) {
        (Comp::Normal(x), Comp::Normal(y), Comp::Normal(z)) => {
            if str_lt(x, y) && str_lt(y, z) {
                lemma_str_lt_transitive(x, y, z);
            }
        },
        _ => {},
    }
}

/// The order of paths is irreflexive, asymmetric and total on different
/// paths.
proof fn lemma_comps_lt_total(a: Seq<Comp>, b: Seq<Comp>)
    ensures
        !comps_lt(a, a),
        a != b ==> comps_lt(a, b) || comps_lt(b, a),
        !(comps_lt(a, b) && comps_lt(b, a)),
    decreases a.len(),
{
    if a.len() > 0 {
        lemma_comps_lt_total(a.drop_first(), a.drop_first());
        lemma_comp_lt_order(a[0], a[0], a[0]);
    }
    if a.len() > 0 && b.len() > 0 {
        lemma_comp_lt_order(a[0], b[0], a[0]);
        if a[0] == b[0] {
            lemma_comps_lt_total(a.drop_first(), b.drop_first());
            if a != b {
                assert(a.drop_first() != b.drop_first()) by {
                    if a.drop_first() == b.drop_first() {
                        assert(a =~= seq![a[0]] + a.drop_first());
                        assert(b =~= seq![b[0]] + b.drop_first());
                    }
                }
            }
        }
    } else if a.len() == 0 && b.len() == 0 {
        assert(a =~= b);
    }
}

/// The order of paths is transitive.
proof fn lemma_comps_lt_transitive(a: Seq<Comp>, b: Seq<Comp>, c: Seq<Comp>)
    requires
        comps_lt(a, b),
        comps_lt(b, c),
    ensures
        comps_lt(a, c),
    decreases a.len(),
{
    if a.len() > 0 && b.len() > 0 && c.len() > 0 {
        lemma_comp_lt_order(a[0], b[0], c[0]);
        lemma_comp_lt_order(a[0], c[0], b[0]);
        lemma_comp_lt_order(b[0], a[0], c[0]);
        if a[0] == b[0] && b[0] == c[0] {
            lemma_comps_lt_transitive(a.drop_first(), b.drop_first(), c.drop_first());
        }
    }
}

/// The order of the report is a strict total order on references that do
/// not stand for the same missing file.
proof fn lemma_missing_lt_order(a: MissingView, b: MissingView, c: MissingView)
    ensures
        !missing_lt(a, a),
        !same_missing(a, b) ==> missing_lt(a, b) || missing_lt(b, a),
        !(missing_lt(a, b) && missing_lt(b, a)),
        missing_lt(a, b) && missing_lt(b, c) ==> missing_lt(a, c),
{
    let (ca, cb, cc) = (components(a.card_file), components(b.card_file), components(c.card_file));
    lemma_comps_lt_total(ca, cb);
    lemma_comps_lt_total(ca, cc);
    lemma_comps_lt_total(cb, cc);
    lemma_str_lt_irreflexive(a.file_path);
    lemma_str_lt_total(a.file_path, b.file_path);
    if missing_lt(a, b) && missing_lt(b, c) {
        if comps_lt(ca, cb) && comps_lt(cb, cc) {
            lemma_comps_lt_transitive(ca, cb, cc);
        }
        if str_lt(a.file_path, b.file_path) && str_lt(b.file_path, c.file_path) {
            lemma_str_lt_transitive(a.file_path, b.file_path, c.file_path);
        }
    }
}

/// Are the references in strictly increasing report order?
pub open spec fn missing_sorted(ms: Seq<MissingView>) -> bool {
    forall|i: int, j: int| 0 <= i < j < ms.len() ==> missing_lt(#[trigger] ms[i], #[trigger] ms[j])
}

proof fn lemma_dedup_distinct(ms: Seq<MissingView>)
    ensures
        forall|i: int, j: int| 0 <= i < j < dedup(ms).len() ==> !same_missing(#[trigger] dedup(ms)[i], #[trigger] dedup(ms)[j]),
    decreases ms.len(),
{
    if ms.len() > 0 {
        lemma_dedup_distinct(ms.drop_last());
        let prev = dedup(ms.drop_last());
        let r = dedup(ms);
        assert forall|i: int, j: int| 0 <= i < j < r.len() implies !same_missing(#[trigger] r[i], #[trigger] r[j]) by {
            assert(r[i] == prev[i]);
            if j < prev.len() {
                assert(r[j] == prev[j]);
            }
        }
    }
}

proof fn lemma_insert_sorted(s: Seq<MissingView>, x: MissingView)
    requires
        missing_sorted(s),
        forall|k: int| 0 <= k < s.len() ==> !same_missing(#[trigger] s[k], x),
    ensures
        missing_sorted(insert_sorted(s, x)),
        forall|k: int| 0 <= k < insert_sorted(s, x).len() ==> (#[trigger] insert_sorted(s, x)[k] == x
            || exists|j: int| 0 <= j < s.len() && s[j] == insert_sorted(s, x)[k]),
    decreases s.len(),
{
    let r = insert_sorted(s, x);
    if s.len() == 0 {
    } else if missing_lt(x, s[0]) {
        assert forall|i: int, j: int| 0 <= i < j < r.len() implies missing_lt(#[trigger] r[i], #[trigger] r[j]) by {
            assert(r[j] == s[j - 1]);
            if i > 0 {
                assert(r[i] == s[i - 1]);
            } else if j > 1 {
                lemma_missing_lt_order(x, s[0], s[j - 1]);
            }
        }
        assert forall|k: int| 0 <= k < r.len() implies (#[trigger] r[k] == x || exists|j: int| 0 <= j < s.len() && s[j] == r[k]) by {
            if k > 0 {
                assert(r[k] == s[k - 1]);
            }
        }
    } else {
        let rest = s.drop_first();
        let rr = insert_sorted(rest, x);
        assert(missing_sorted(rest)) by {
            assert forall|i: int, j: int| 0 <= i < j < rest.len() implies missing_lt(#[trigger] rest[i], #[trigger] rest[j]) by {
                assert(rest[i] == s[i + 1] && rest[j] == s[j + 1]);
            }
        }
        assert forall|k: int| 0 <= k < rest.len() implies !same_missing(#[trigger] rest[k], x) by {
            assert(rest[k] == s[k + 1]);
        }
        lemma_insert_sorted(rest, x);
        assert(r == seq![s[0]] + rr);
        assert(!same_missing(s[0], x));
        lemma_missing_lt_order(x, s[0], x);
        assert(missing_lt(s[0], x)) by {
            if !missing_lt(s[0], x) {
                assert(!same_missing(x, s[0]));
            }
        }
        assert forall|i: int, j: int| 0 <= i < j < r.len() implies missing_lt(#[trigger] r[i], #[trigger] r[j]) by {
            assert(r[j] == rr[j - 1]);
            if i > 0 {
                assert(r[i] == rr[i - 1]);
            } else if rr[j - 1] != x {
                let m = choose|m: int| 0 <= m < rest.len() && rest[m] == rr[j - 1];
                assert(s[m + 1] == rest[m]);
            }
        }
        assert forall|k: int| 0 <= k < r.len() implies (#[trigger] r[k] == x || exists|j: int| 0 <= j < s.len() && s[j] == r[k]) by {
            if k == 0 {
                assert(s[0] == r[0]);
            } else {
                assert(r[k] == rr[k - 1]);
                if rr[k - 1] != x {
                    let m = choose|m: int| 0 <= m < rest.len() && rest[m] == rr[k - 1];
                    assert(s[m + 1] == rest[m]);
                }
            }
        }
    }
}

proof fn lemma_sort_missing(d: Seq<MissingView>)
    requires
        forall|i: int, j: int| 0 <= i < j < d.len() ==> !same_missing(#[trigger] d[i], #[trigger] d[j]),
    ensures
        missing_sorted(sort_missing(d)),
        forall|k: int| 0 <= k < sort_missing(d).len() ==> exists|j: int| 0 <= j < d.len() && d[j] == #[trigger] sort_missing(d)[k],
    decreases d.len(),
{
    if d.len() > 0 {
        let p = d.drop_last();
        assert forall|i: int, j: int| 0 <= i < j < p.len() implies !same_missing(#[trigger] p[i], #[trigger] p[j]) by {
            assert(p[i] == d[i] && p[j] == d[j]);
        }
        lemma_sort_missing(p);
        let sp = sort_missing(p);
        assert forall|k: int| 0 <= k < sp.len() implies !same_missing(#[trigger] sp[k], d.last()) by {
            let m = choose|m: int| 0 <= m < p.len() && p[m] == sp[k];
            assert(d[m] == p[m]);
            assert(!same_missing(d[m], d[d.len() - 1]));
        }
        lemma_insert_sorted(sp, d.last());
        let r = sort_missing(d);
        assert forall|k: int| 0 <= k < r.len() implies exists|j: int| 0 <= j < d.len() && d[j] == #[trigger] r[k] by {
            if r[k] == d.last() {
                assert(d[d.len() - 1] == r[k]);
            } else {
                let m = choose|m: int| 0 <= m < sp.len() && sp[m] == r[k];
                let n = choose|n: int| 0 <= n < p.len() && p[n] == sp[m];
                assert(d[n] == p[n]);
            }
        }
    }
}

/// The report lists the missing files in a consistent order: by card
/// file, then lines, then path, each file once.
pub proof fn law_missing_report_sorted(ms: Seq<MissingView>)
    ensures
        missing_sorted(sort_missing(dedup(ms))),
{
    lemma_dedup_distinct(ms);
    lemma_sort_missing(dedup(ms));
}

} // verus!
