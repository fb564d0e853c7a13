use vstd::prelude::*;

use crate::cmd::serve::config::slug_of;
use crate::cmd::serve::config::slugify;
use crate::cmd::serve::config::ResolvedCollection;
use crate::cmd::serve::git::collection_info;
use crate::cmd::serve::git::refresh_collection_info;
use crate::cmd::serve::git::shows;
use crate::cmd::serve::state::CollectionInfo;
use crate::cmd::serve::state::HedgedocSource;
use crate::error::ErrorReport;
use crate::error::Fallible;
use crate::paths::join_path;
use crate::toml_table::parse_toml_table;
use crate::toml_table::parsed_toml;
use crate::toml_table::render_toml;
use crate::toml_table::string_tables_text;
use crate::toml_table::table_remove;
use crate::toml_table::table_set_string_tables;
use crate::toml_table::toml_entries;
use crate::toml_table::toml_rendering;
use crate::paths::join_str;
use crate::text::char_vecs;
use crate::text::chars_of;
use crate::text::concat_str;
use crate::text::find_chars;
use crate::text::find_from;
use crate::text::has_prefix;
use crate::text::lines_of;
use crate::text::split_chars;
use crate::text::split_lines;
use crate::text::split_on;
use crate::text::starts_with_chars;
use crate::text::string_from_chars;
use crate::text::strip_trailing;
use crate::text::strip_trailing_chars;
use crate::text::sub_chars;
use crate::text::trim;
use crate::text::trim_chars;
use crate::text::trim_matches;
use crate::text::trim_matches_chars;
use crate::text::trim_start;
use crate::text::trim_start_chars;

verus! {

/// The note ID of a HedgeDoc URL: its last non-empty path segment.
pub open spec fn note_id_of(url: Seq<char>) -> Option<Seq<char>> {
    let last = split_on(strip_trailing(url, '/'), '/').last();
    if last.len() == 0 {
        None
    } else {
        Some(last)
    }
}

/// Extract the note ID (last non-empty path segment) from a HedgeDoc URL.
pub fn note_id_from_url(url: &str) -> (r: Option<String>)
    ensures
        match note_id_of(url@) {
            Some(id) => r matches Some(s) && s@ == id,
            None => r is None,
        },
{
    let u = chars_of(url);
    let t = strip_trailing_chars(u.as_slice(), '/');
    let pieces = split_chars(t.as_slice(), '/');
    let last = &pieces[pieces.len() - 1];
    assert(last@ == split_on(t@, '/').last());
    if last.len() == 0 {
        None
    } else {
        Some(string_from_chars(last.as_slice()))
    }
}

/// The collection slug of a HedgeDoc note.
pub open spec fn note_slug(note_id: Seq<char>) -> Seq<char> {
    "hedgedoc-"@ + slug_of(note_id)
}

/// Build the collection slug for a HedgeDoc source.
pub fn slug_for_note_id(note_id: &str) -> (r: String)
    ensures
        r@ == note_slug(note_id@),
{
    let s = slugify(note_id);
    concat_str("hedgedoc-", s.as_str())
}

/// The title a frontmatter line gives: after `title:`, trimmed of spaces
/// and of the quotes around it; `None` if the line sets no (non-empty)
/// title.
pub open spec fn title_field(line: Seq<char>) -> Option<Seq<char>> {
    let l = trim(line);
    if has_prefix(l, "title:"@) {
        let t = trim_matches(trim_matches(trim(l.skip(6)), '"'), '\'');
        if t.len() > 0 {
            Some(t)
        } else {
            None
        }
    } else {
        None
    }
}

/// The first title set by one of the lines.
pub open spec fn first_title_field(lines: Seq<Seq<char>>) -> Option<Seq<char>>
    decreases lines.len(),
{
    if lines.len() == 0 {
        None
    } else {
        match title_field(lines[0]) {
            Some(t) => Some(t),
            None => first_title_field(lines.drop_first()),
        }
    }
}

/// The `title:` of the YAML (`---`) frontmatter of a Markdown text.
pub open spec fn frontmatter_title_of(markdown: Seq<char>) -> Option<Seq<char>> {
    let content = trim_start(markdown);
    if !has_prefix(content, "---"@) {
        None
    } else {
        let after = content.skip(3);
        match find_from(after, "\n---"@, 0) {
            None => None,
            Some(end) => first_title_field(lines_of(after.take(end))),
        }
    }
}

/// The title a line gives as a level-one heading (`# title`).
pub open spec fn heading_title(line: Seq<char>) -> Option<Seq<char>> {
    let t = trim(line);
    if has_prefix(t, "# "@) {
        let rest = trim(t.skip(2));
        if rest.len() > 0 {
            Some(rest)
        } else {
            None
        }
    } else {
        None
    }
}

/// The first heading title among the lines.
pub open spec fn first_heading(lines: Seq<Seq<char>>) -> Option<Seq<char>>
    decreases lines.len(),
{
    if lines.len() == 0 {
        None
    } else {
        match heading_title(lines[0]) {
            Some(t) => Some(t),
            None => first_heading(lines.drop_first()),
        }
    }
}

/// The title of a Markdown text: its frontmatter `title:`, else its first
/// level-one heading, else `fallback`.
pub open spec fn title_of(markdown: Seq<char>, fallback: Seq<char>) -> Seq<char> {
    match frontmatter_title_of(markdown) {
        Some(t) => t,
        None => match first_heading(lines_of(markdown)) {
            Some(t) => t,
            None => fallback,
        },
    }
}

fn title_field_exec(line: &[char]) -> (r: Option<Vec<char>>)
    ensures
        match title_field(line@) {
            Some(t) => r matches Some(v) && v@ == t,
            None => r is None,
        },
{
    let l = trim_chars(line);
    let tag = chars_of("title:");
    proof {
        reveal_strlit("title:");
    }
    if !starts_with_chars(l.as_slice(), tag.as_slice()) {
        return None;
    }
    let rest = sub_chars(l.as_slice(), 6, l.len());
    assert(rest@ =~= l@.skip(6));
    let a = trim_chars(rest.as_slice());
    let b = trim_matches_chars(a.as_slice(), '"');
    let c = trim_matches_chars(b.as_slice(), '\'');
    if c.len() > 0 {
        Some(c)
    } else {
        None
    }
}

fn heading_title_exec(line: &[char]) -> (r: Option<Vec<char>>)
    ensures
        match heading_title(line@) {
            Some(t) => r matches Some(v) && v@ == t,
            None => r is None,
        },
{
    let t = trim_chars(line);
    let tag = chars_of("# ");
    proof {
        reveal_strlit("# ");
    }
    if !starts_with_chars(t.as_slice(), tag.as_slice()) {
        return None;
    }
    let rest = sub_chars(t.as_slice(), 2, t.len());
    assert(rest@ =~= t@.skip(2));
    let r = trim_chars(rest.as_slice());
    if r.len() > 0 {
        Some(r)
    } else {
        None
    }
}

fn first_title_field_exec(lines: &Vec<Vec<char>>) -> (r: Option<Vec<char>>)
    ensures
        match first_title_field(char_vecs(lines@)) {
            Some(t) => r matches Some(v) && v@ == t,
            None => r is None,
        },
{
    let ghost lv = char_vecs(lines@);
    let mut i: usize = 0;
    assert(lv.skip(0) =~= lv);
    while i < lines.len()
        invariant
            i <= lines@.len(),
            lv == char_vecs(lines@),
            first_title_field(lv) == first_title_field(lv.skip(i as int)),
        decreases lines.len() - i,
    {
        assert(lv.skip(i as int)[0] == lines@[i as int]@);
        assert(lv.skip(i as int).drop_first() =~= lv.skip(i + 1));
        let t = title_field_exec(lines[i].as_slice());
        if t.is_some() {
            return t;
        }
        i = i + 1;
    }
    assert(lv.skip(i as int) =~= Seq::<Seq<char>>::empty());
    None
}

fn first_heading_exec(lines: &Vec<Vec<char>>) -> (r: Option<Vec<char>>)
    ensures
        match first_heading(char_vecs(lines@)) {
            Some(t) => r matches Some(v) && v@ == t,
            None => r is None,
        },
{
    let ghost lv = char_vecs(lines@);
    let mut i: usize = 0;
    assert(lv.skip(0) =~= lv);
    while i < lines.len()
        invariant
            i <= lines@.len(),
            lv == char_vecs(lines@),
            first_heading(lv) == first_heading(lv.skip(i as int)),
        decreases lines.len() - i,
    {
        assert(lv.skip(i as int)[0] == lines@[i as int]@);
        assert(lv.skip(i as int).drop_first() =~= lv.skip(i + 1));
        let t = heading_title_exec(lines[i].as_slice());
        if t.is_some() {
            return t;
        }
        i = i + 1;
    }
    assert(lv.skip(i as int) =~= Seq::<Seq<char>>::empty());
    None
}

/// Parse the `title:` field from YAML (`---`) frontmatter.
pub fn frontmatter_title(markdown: &str) -> (r: Option<String>)
    ensures
        match frontmatter_title_of(markdown@) {
            Some(t) => r matches Some(s) && s@ == t,
            None => r is None,
        },
{
    let m = chars_of(markdown);
    let content = trim_start_chars(m.as_slice());
    let dashes = chars_of("---");
    proof {
        reveal_strlit("---");
    }
    if !starts_with_chars(content.as_slice(), dashes.as_slice()) {
        return None;
    }
    let after = sub_chars(content.as_slice(), 3, content.len());
    assert(after@ =~= content@.skip(3));
    let sep = chars_of("\n---");
    let end = match find_chars(after.as_slice(), sep.as_slice()) {
        Some(e) => e,
        None => return None,
    };
    proof {
        crate::text::lemma_find_from(after@, sep@, 0);
    }
    let front = sub_chars(after.as_slice(), 0, end);
    assert(front@ =~= after@.take(end as int));
    let lines = split_lines(front.as_slice());
    match first_title_field_exec(&lines) {
        Some(t) => Some(string_from_chars(t.as_slice())),
        None => None,
    }
}

/// Extract a human-readable title from Markdown content: the frontmatter
/// `title:`, else the first `# heading`, else `fallback`.
pub fn extract_title(markdown: &str, fallback: &str) -> (r: String)
    ensures
        r@ == title_of(markdown@, fallback@),
{
    if let Some(title) = frontmatter_title(markdown) {
        return title;
    }
    let m = chars_of(markdown);
    let lines = split_lines(m.as_slice());
    match first_heading_exec(&lines) {
        Some(t) => string_from_chars(t.as_slice()),
        None => fallback.to_owned(),
    }
}

/// The collection directory of a HedgeDoc note.
pub open spec fn note_dir(note_id: Seq<char>, data_dir: Seq<char>) -> Seq<char> {
    join_path(join_path(data_dir, "hedgedoc"@), note_id)
}

/// The database path of a HedgeDoc note.
pub open spec fn note_db(note_id: Seq<char>, data_dir: Seq<char>) -> Seq<char> {
    join_path(join_path(data_dir, "db"@), note_slug(note_id) + ".db"@)
}

/// Build a `ResolvedCollection` for a HedgeDoc source given its note ID and
/// the data directory.
pub fn resolved_collection(note_id: &str, name: &str, data_dir: &str) -> (r: ResolvedCollection)
    ensures
        r.name@ == name@,
        r.slug@ == note_slug(note_id@),
        r.coll_dir@ == note_dir(note_id@, data_dir@),
        r.db_path@ == note_db(note_id@, data_dir@),
{
    let slug = slug_for_note_id(note_id);
    let hedgedoc = join_str(data_dir, "hedgedoc");
    let coll_dir = join_str(hedgedoc.as_str(), note_id);
    let db = join_str(data_dir, "db");
    let file = concat_str(slug.as_str(), ".db");
    let db_path = join_str(db.as_str(), file.as_str());
    ResolvedCollection { name: name.to_owned(), slug, coll_dir, db_path }
}

/// The `CollectionInfo` of a HedgeDoc source whose cards were counted as
/// `counts` (`None` where counting failed).
pub fn collection_info_for_source(source: &HedgedocSource, counts: Option<(usize, usize)>) -> (r: CollectionInfo)
    ensures
        shows(r, source.collection, counts),
{
    collection_info(&source.collection, counts)
}

/// The `CollectionInfo` of the static collections followed by those of the
/// HedgeDoc sources, each with its counts.
pub fn build_combined_infos(
    static_collections: &[ResolvedCollection],
    static_counts: &[Option<(usize, usize)>],
    hedgedoc_sources: &[HedgedocSource],
    hedgedoc_counts: &[Option<(usize, usize)>],
) -> (r: Vec<CollectionInfo>)
    requires
        static_counts@.len() == static_collections@.len(),
        hedgedoc_counts@.len() == hedgedoc_sources@.len(),
    ensures
        r@.len() == static_collections@.len() + hedgedoc_sources@.len(),
        forall|i: int|
            0 <= i < static_collections@.len() ==> shows(
                #[trigger] r@[i],
                static_collections@[i],
                static_counts@[i],
            ),
        forall|i: int|
            0 <= i < hedgedoc_sources@.len() ==> shows(
                #[trigger] r@[static_collections@.len() + i],
                hedgedoc_sources@[i].collection,
                hedgedoc_counts@[i],
            ),
{
    let mut infos = refresh_collection_info(static_collections, static_counts);
    let n = static_collections.len();
    let mut i: usize = 0;
    while i < hedgedoc_sources.len()
        invariant
            i <= hedgedoc_sources@.len(),
            hedgedoc_counts@.len() == hedgedoc_sources@.len(),
            n == static_collections@.len(),
            infos@.len() == n + i,
            forall|j: int|
                0 <= j < n ==> shows(#[trigger] infos@[j], static_collections@[j], static_counts@[j]),
            forall|j: int|
                0 <= j < i ==> shows(
                    #[trigger] infos@[n + j],
                    hedgedoc_sources@[j].collection,
                    hedgedoc_counts@[j],
                ),
        decreases hedgedoc_sources.len() - i,
    {
        infos.push(collection_info_for_source(&hedgedoc_sources[i], hedgedoc_counts[i]));
        i = i + 1;
    }
    infos
}

/// The URL of a note's raw Markdown: the note URL without its trailing
/// slashes, then `/download`.
pub open spec fn download_url_of(url: Seq<char>) -> Seq<char> {
    strip_trailing(url, '/') + "/download"@
}

/// The URL to fetch a note's raw Markdown from.
pub fn download_url(url: &str) -> (r: String)
    ensures
        r@ == download_url_of(url@),
{
    let u = chars_of(url);
    let mut v = strip_trailing_chars(u.as_slice(), '/');
    let tail = chars_of("/download");
    crate::text::append_chars(&mut v, tail.as_slice());
    string_from_chars(v.as_slice())
}

/// The entries of a configuration table with its `[[hedgedoc]]` array
/// made of `urls`: removed when there are none, else one `{ url = .. }`
/// table per URL. Every other key keeps its value.
pub open spec fn with_hedgedoc(entries: Map<Seq<char>, Seq<char>>, urls: Seq<Seq<char>>) -> Map<Seq<char>, Seq<char>> {
    if urls.len() == 0 {
        entries.remove("hedgedoc"@)
    } else {
        entries.insert("hedgedoc"@, string_tables_text("url"@, urls))
    }
}

/// The configuration text `config_text` with its `[[hedgedoc]]` array
/// replaced by `urls`, everything else kept. Fails where the text is not
/// TOML, where it is not a table ("Config is not a TOML table"), and where
/// toml cannot write the result.
pub fn with_hedgedoc_entries(config_text: &str, urls: &Vec<String>) -> (r: Fallible<String>)
    ensures
        parsed_toml(config_text@) is None ==> r is Err,
        parsed_toml(config_text@) == Some(None::<Map<Seq<char>, Seq<char>>>) ==> (r matches Err(e)
            && e.message() == "Config is not a TOML table"@),
        parsed_toml(config_text@) matches Some(Some(m)) ==> exists|t: toml::map::Map<String, toml::Value>|
            #[trigger] toml_entries(t) == with_hedgedoc(m, urls@.map_values(|u: String| u@)) && match toml_rendering(t) {
                Some(s) => r matches Ok(o) && o@ == s,
                None => r is Err,
            },
{
    let table = match parse_toml_table(config_text) {
        Err(msg) => {
            return Err(ErrorReport::new(concat_str("TOML error: ", msg.as_str()).as_str()));
        },
        Ok(None) => {
            return Err(ErrorReport::new("Config is not a TOML table"));
        },
        Ok(Some(t)) => t,
    };
    let ghost m = toml_entries(table);
    let mut table = table;
    if urls.len() == 0 {
        table_remove(&mut table, "hedgedoc");
    } else {
        table_set_string_tables(&mut table, "hedgedoc", "url", urls);
    }
    let ghost t = table;
    assert(toml_entries(t) == with_hedgedoc(m, urls@.map_values(|u: String| u@)));
    match render_toml(table) {
        Ok(s) => Ok(s),
        Err(msg) => Err(ErrorReport::new(concat_str("TOML error: ", msg.as_str()).as_str())),
    }
}

/// A HedgeDoc source as values: its URL, its collection's name, slug,
/// directory and database, and the error of its last sync.
pub open spec fn source_view(s: HedgedocSource) -> (Seq<char>, Seq<char>, Seq<char>, Seq<char>, Seq<char>, Option<Seq<char>>) {
    (
        s.url@,
        s.collection.name@,
        s.collection.slug@,
        s.collection.coll_dir@,
        s.collection.db_path@,
        match s.last_error {
            Some(e) => Some(e@),
            None => None,
        },
    )
}

/// A source after a sync: on success it takes the document's title as its
/// name and forgets its last error; on failure it records the error.
pub open spec fn synced_view(
    v: (Seq<char>, Seq<char>, Seq<char>, Seq<char>, Seq<char>, Option<Seq<char>>),
    outcome: Result<Seq<char>, Seq<char>>,
) -> (Seq<char>, Seq<char>, Seq<char>, Seq<char>, Seq<char>, Option<Seq<char>>) {
    match outcome {
        Ok(title) => (v.0, title, v.2, v.3, v.4, None),
        Err(msg) => (v.0, v.1, v.2, v.3, v.4, Some(msg)),
    }
}

/// Is `j` the first source with the URL `url`?
pub open spec fn first_with_url(ss: Seq<HedgedocSource>, url: Seq<char>, j: int) -> bool {
    &&& 0 <= j < ss.len()
    &&& ss[j].url@ == url
    &&& forall|k: int| 0 <= k < j ==> #[trigger] ss[k].url@ != url
}

/// A sync's outcome as values: the title, or the error as shown.
pub open spec fn outcome_view(outcome: Fallible<String>) -> Result<Seq<char>, Seq<char>> {
    match outcome {
        Ok(t) => Ok(t@),
        Err(e) => Err("error: "@ + e.message()),
    }
}

/// Record the outcome of syncing the document at `url` on the first source
/// with that URL (nothing changes if there is none): the title becomes its
/// name and the last error is cleared, or the error is recorded.
pub fn record_sync(sources: &mut Vec<HedgedocSource>, url: &str, outcome: Fallible<String>)
    ensures
        final(sources)@.len() == old(sources)@.len(),
        forall|j: int|
            0 <= j < old(sources)@.len() ==> source_view(#[trigger] final(sources)@[j]) == if first_with_url(
                old(sources)@,
                url@,
                j,
            ) {
                synced_view(source_view(old(sources)@[j]), outcome_view(outcome))
            } else {
                source_view(old(sources)@[j])
            },
{
    let u = chars_of(url);
    let mut i: usize = 0;
    while i < sources.len()
        invariant
            i <= sources@.len(),
            u@ == url@,
            forall|k: int| 0 <= k < i ==> #[trigger] sources@[k].url@ != url@,
        ensures
            i <= sources@.len(),
            forall|k: int| 0 <= k < i ==> #[trigger] sources@[k].url@ != url@,
            i < sources@.len() ==> sources@[i as int].url@ == url@,
        decreases sources.len() - i,
    {
        let su = chars_of(sources[i].url.as_str());
        if crate::text::chars_eq(su.as_slice(), u.as_slice()) {
            break;
        }
        i = i + 1;
    }
    if i == sources.len() {
        assert forall|j: int| 0 <= j < sources@.len() implies !first_with_url(sources@, url@, j) by {}
        return;
    }
    let ghost before = sources@;
    assert(first_with_url(before, url@, i as int));
    let mut src = sources.remove(i);
    match outcome {
        Ok(title) => {
            src.collection.name = title;
            src.last_error = None;
        },
        Err(e) => {
            src.last_error = Some(e.to_string());
        },
    }
    sources.insert(i, src);
    assert forall|j: int| 0 <= j < before.len() && j != i implies !first_with_url(before, url@, j) by {
        if j > i {
            assert(before[i as int].url@ == url@);
        }
    }
}

} // verus!
