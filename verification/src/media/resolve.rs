use vstd::prelude::*;

use crate::fsys::canonical_answer;
use crate::fsys::symlink_answer;
use crate::paths::comp_views;
use crate::paths::components;
use crate::paths::names_proper;
use crate::paths::proper_name;
use crate::paths::lemma_components_proper;
use crate::paths::comps_prefix;
use crate::paths::comps_start_with;
use crate::paths::is_absolute;
use crate::paths::join_path;
use crate::paths::parent_comps;
use crate::paths::path_components;
use crate::paths::path_join;
use crate::paths::strip_leading;
use crate::paths::strip_leading_chars;
use crate::paths::Comp;
use crate::paths::Component;
use crate::text::char_vecs;
use crate::text::chars_of;
use crate::text::contains;
use crate::text::contains_chars;
use crate::text::contains_scheme_sep;
use crate::text::join_with;
use crate::text::scheme_sep;
use crate::text::string_from_chars;
use crate::text::trim;
use crate::text::trim_chars;

verus! {

/// Resolves media paths, as written in the Markdown of the cards, to
/// collection-relative paths and to files on disk.
pub struct MediaResolver {
    /// Path to the collection root directory.
    pub root: String,
}

/// Errors that can occur when resolving a file path.
#[derive(Debug, PartialEq, Eq, Structural, Clone, Copy)]
pub enum ResolveError {
    /// Path is the empty string.
    Empty,
    /// Path is an external URL.
    ExternalUrl,
    /// Path is a symbolic link.
    Symlink,
    /// Path contains invalid components (e.g., "..").
    InvalidPath,
    /// Path is absolute.
    AbsolutePath,
    /// File does not exist or cannot be accessed.
    NotFound,
    /// Path resolves outside the collection directory.
    OutsideDirectory,
}

/// The result of resolving `..` and `.` in a list of components.
pub enum Normalized {
    /// The names that remain.
    Names(Seq<Seq<char>>),
    /// A `..` would leave the top.
    Outside,
    /// A root component occurs.
    Invalid,
}

/// One component of normalization.
pub open spec fn normalize_step(acc: Normalized, c: Comp) -> Normalized {
    match acc {
        Normalized::Names(ns) => match c {
            Comp::Normal(x) => Normalized::Names(ns.push(x)),
            Comp::Parent => if ns.len() == 0 {
                Normalized::Outside
            } else {
                Normalized::Names(ns.drop_last())
            },
            Comp::Cur => Normalized::Names(ns),
            Comp::Root => Normalized::Invalid,
        },
        other => other,
    }
}

/// The normalization of the components `cs`, from the first to the last.
pub open spec fn normalize(cs: Seq<Comp>) -> Normalized
    decreases cs.len(),
{
    if cs.len() == 0 {
        Normalized::Names(seq![])
    } else {
        normalize_step(normalize(cs.drop_last()), cs.last())
    }
}

/// The components a media path stands for, before normalization: after `@`,
/// relative to the collection root; otherwise relative to the directory of
/// the deck file. `None` where the deck file has no parent directory.
pub open spec fn media_components(root: Seq<char>, path: Seq<char>, deck_path: Seq<char>) -> Option<Seq<Comp>> {
    if path.len() > 0 && path[0] == '@' {
        Some(components(strip_leading(strip_leading(path, '@'), '/')))
    } else {
        match parent_comps(components(deck_path)) {
            None => None,
            Some(dir) => {
                let rc = components(root);
                let rel = if comps_start_with(dir, rc) {
                    dir.skip(rc.len() as int)
                } else {
                    dir
                };
                Some(rel + components(path))
            },
        }
    }
}

/// The collection-relative form of a media path written in the deck file at
/// `deck_path`.
pub open spec fn normalize_path_spec(root: Seq<char>, path: Seq<char>, deck_path: Seq<char>) -> Result<Seq<char>, ResolveError> {
    if trim(path).len() == 0 {
        Err(ResolveError::Empty)
    } else if contains(path, scheme_sep()) {
        Err(ResolveError::ExternalUrl)
    } else if is_absolute(path) {
        Err(ResolveError::AbsolutePath)
    } else {
        match media_components(root, path, deck_path) {
            None => Err(ResolveError::InvalidPath),
            Some(cs) => match normalize(cs) {
                Normalized::Names(ns) => Ok(join_with(ns, '/')),
                Normalized::Outside => Err(ResolveError::OutsideDirectory),
                Normalized::Invalid => Err(ResolveError::InvalidPath),
            },
        }
    }
}

/// The checks `resolve` makes before it looks at the disk, and the path it
/// then looks at.
pub open spec fn resolve_precheck(root: Seq<char>, path: Seq<char>) -> Result<Seq<char>, ResolveError> {
    if trim(path).len() == 0 {
        Err(ResolveError::Empty)
    } else if contains(path, scheme_sep()) {
        Err(ResolveError::ExternalUrl)
    } else if contains(path, seq!['.', '.']) {
        Err(ResolveError::InvalidPath)
    } else if is_absolute(path) {
        Err(ResolveError::AbsolutePath)
    } else {
        Ok(join_path(root, path))
    }
}

impl MediaResolver {
    /// Normalize path components, resolving `..` while ensuring we don't
    /// escape the collection directory.
    fn normalize_path_components(&self, path: &Vec<Component>) -> (r: Result<Vec<Vec<char>>, ResolveError>)
        ensures
            match normalize(comp_views(path@)) {
                Normalized::Names(ns) => r matches Ok(v) && char_vecs(v@) == ns,
                Normalized::Outside => r == Err::<Vec<Vec<char>>, ResolveError>(ResolveError::OutsideDirectory),
                Normalized::Invalid => r == Err::<Vec<Vec<char>>, ResolveError>(ResolveError::InvalidPath),
            },
    {
        let mut components: Vec<Vec<char>> = Vec::new();
        let mut i: usize = 0;
        assert(comp_views(path@).take(0) =~= Seq::<Comp>::empty());
        assert(char_vecs(components@) =~= Seq::<Seq<char>>::empty());
        while i < path.len()
            invariant
                i <= path@.len(),
                normalize(comp_views(path@).take(i as int)) == Normalized::Names(char_vecs(components@)),
            decreases path.len() - i,
        {
            let ghost prefix = comp_views(path@).take(i + 1);
            assert(prefix.drop_last() =~= comp_views(path@).take(i as int));
            assert(prefix.last() == path@[i as int]@);
            let ghost before = char_vecs(components@);
            match &path[i] {
                Component::Normal(c) => {
                    let name = crate::text::sub_chars(c.as_slice(), 0, c.len());
                    assert(name@ =~= c@);
                    components.push(name);
                    assert(char_vecs(components@) =~= before.push(c@));
                },
                Component::ParentDir => {
                    if components.len() == 0 {
                        proof {
                            lemma_normalize_stuck(comp_views(path@), i + 1);
                        }
                        return Err(ResolveError::OutsideDirectory);
                    }
                    components.pop();
                    assert(char_vecs(components@) =~= before.drop_last());
                },
                Component::CurDir => {},
                Component::RootDir => {
                    proof {
                        lemma_normalize_stuck(comp_views(path@), i + 1);
                    }
                    return Err(ResolveError::InvalidPath);
                },
            }
            i = i + 1;
        }
        assert(comp_views(path@).take(path@.len() as int) =~= comp_views(path@));
        Ok(components)
    }

    /// Normalize a media path from Markdown to a collection-relative path.
    ///
    /// Paths starting with `@` are collection-relative (the `@` and the
    /// slashes after it are stripped); other paths are relative to the
    /// directory of the deck file at `deck_path`.
    pub fn normalize_path(&self, path: &str, deck_path: &str) -> (r: Result<String, ResolveError>)
        ensures
            match normalize_path_spec(self.root@, path@, deck_path@) {
                Ok(s) => r matches Ok(v) && v@ == s,
                Err(e) => r == Err::<String, ResolveError>(e),
            },
    {
        let p = chars_of(path);
        if trim_chars(p.as_slice()).len() == 0 {
            return Err(ResolveError::Empty);
        }
        if contains_scheme_sep(p.as_slice()) {
            return Err(ResolveError::ExternalUrl);
        }
        if p.len() > 0 && p[0] == '/' {
            return Err(ResolveError::AbsolutePath);
        }
        let comps: Vec<Component> = if p.len() > 0 && p[0] == '@' {
            let s1 = strip_leading_chars(p.as_slice(), '@');
            let s2 = strip_leading_chars(s1.as_slice(), '/');
            path_components(s2.as_slice())
        } else {
            let d = chars_of(deck_path);
            let mut dir = path_components(d.as_slice());
            if dir.len() == 0 {
                return Err(ResolveError::InvalidPath);
            }
            if let Component::RootDir = &dir[dir.len() - 1] {
                return Err(ResolveError::InvalidPath);
            }
            let ghost dv = comp_views(dir@);
            dir.pop();
            assert(comp_views(dir@) =~= dv.drop_last());
            let root = chars_of(self.root.as_str());
            let rc = path_components(root.as_slice());
            let mut rel: Vec<Component> = if comps_prefix(&dir, &rc) {
                let mut rest = dir;
                let ghost before = rest@;
                let tail = rest.split_off(rc.len());
                assert(comp_views(tail@) =~= comp_views(before).skip(rc@.len() as int));
                tail
            } else {
                dir
            };
            let mut pc = path_components(p.as_slice());
            let ghost relv = comp_views(rel@);
            let ghost pcv = comp_views(pc@);
            rel.append(&mut pc);
            assert(comp_views(rel@) =~= relv + pcv);
            rel
        };
        let names = self.normalize_path_components(&comps)?;
        let joined = crate::text::join_chars(&names, 0, names.len(), '/');
        assert(char_vecs(names@).subrange(0, names@.len() as int) =~= char_vecs(names@));
        Ok(string_from_chars(joined.as_slice()))
    }
}

/// An optional path taken as characters.
pub open spec fn opt_view(o: Option<String>) -> Option<Seq<char>> {
    match o {
        Some(s) => Some(s@),
        None => None,
    }
}

/// A result with its path taken as characters.
pub open spec fn view_resolution(r: Result<String, ResolveError>) -> Result<Seq<char>, ResolveError> {
    match r {
        Ok(s) => Ok(s@),
        Err(e) => Err(e),
    }
}

/// What `resolve` answers once the disk has said whether the path is a
/// symbolic link and given the canonical forms of the path and of the root
/// (`None` where canonicalizing failed or was not asked).
pub open spec fn disk_resolution(link: bool, full: Option<Seq<char>>, dir: Option<Seq<char>>) -> Result<
    Seq<char>,
    ResolveError,
> {
    if link {
        Err(ResolveError::Symlink)
    } else {
        match (full, dir) {
            (Some(f), Some(d)) => if comps_start_with(components(f), components(d)) {
                Ok(f)
            } else {
                Err(ResolveError::OutsideDirectory)
            },
            _ => Err(ResolveError::NotFound),
        }
    }
}

/// Is `r` what `resolve` answers for the joined path `p` under the root
/// `root`, for answers the disk gave: whether `p` is a symbolic link; if
/// not, the canonical form of `p`; if that exists, the canonical form of
/// `root`?
pub open spec fn resolved_on_disk(root: Seq<char>, p: Seq<char>, r: Result<String, ResolveError>) -> bool {
    exists|link: bool, full: Option<Seq<char>>, dir: Option<Seq<char>>|
        #[trigger] disk_resolution(link, full, dir) == view_resolution(r) && symlink_answer(p, link) && (!link
            ==> canonical_answer(p, full)) && (!link && full is Some ==> canonical_answer(root, dir)) && (
        full matches Some(f) ==> is_absolute(f))
}

/// `resolve`'s answer given the disk's (see `disk_resolution`).
pub fn resolution_outcome(link: bool, full: Option<String>, dir: Option<String>) -> (r: Result<String, ResolveError>)
    ensures
        view_resolution(r) == disk_resolution(link, opt_view(full), opt_view(dir)),
{
    if link {
        return Err(ResolveError::Symlink);
    }
    match (full, dir) {
        (Some(f), Some(d)) => check_within(f, d.as_str()),
        _ => Err(ResolveError::NotFound),
    }
}

/// Is the canonical path `full` inside the canonical directory `dir`?
/// `OutsideDirectory` if not.
pub fn check_within(full: String, dir: &str) -> (r: Result<String, ResolveError>)
    ensures
        comps_start_with(components(full@), components(dir@)) ==> r == Ok::<String, ResolveError>(full),
        !comps_start_with(components(full@), components(dir@)) ==> r == Err::<String, ResolveError>(
            ResolveError::OutsideDirectory,
        ),
{
    let f = chars_of(full.as_str());
    let d = chars_of(dir);
    let fc = path_components(f.as_slice());
    let dc = path_components(d.as_slice());
    if !comps_prefix(&fc, &dc) {
        return Err(ResolveError::OutsideDirectory);
    }
    Ok(full)
}

impl MediaResolver {
    /// The checks made before the disk is consulted: the path to look at.
    fn precheck(&self, path: &str) -> (r: Result<String, ResolveError>)
        ensures
            match resolve_precheck(self.root@, path@) {
                Ok(s) => r matches Ok(v) && v@ == s,
                Err(e) => r == Err::<String, ResolveError>(e),
            },
    {
        let p = chars_of(path);
        if trim_chars(p.as_slice()).len() == 0 {
            return Err(ResolveError::Empty);
        }
        if contains_scheme_sep(p.as_slice()) {
            return Err(ResolveError::ExternalUrl);
        }
        let dots: Vec<char> = vec!['.', '.'];
        assert(dots@ =~= seq!['.', '.']);
        if contains_chars(p.as_slice(), dots.as_slice()) {
            return Err(ResolveError::InvalidPath);
        }
        if p.len() > 0 && p[0] == '/' {
            return Err(ResolveError::AbsolutePath);
        }
        let root = chars_of(self.root.as_str());
        let full = path_join(root.as_slice(), p.as_slice());
        Ok(string_from_chars(full.as_slice()))
    }

    /// Resolve the given media path to an absolute file path on disk.
    ///
    /// Absolute paths, paths containing `..`, symbolic links, missing files
    /// and files outside the collection root are refused. The disk is asked
    /// whether the joined path is a symbolic link, then for its canonical
    /// form, then for that of the root; `disk_resolution` says what follows
    /// from its answers.
    pub fn resolve(&self, path: &str) -> (r: Result<String, ResolveError>)
        ensures
            resolve_precheck(self.root@, path@) matches Err(e) ==> r == Err::<String, ResolveError>(e),
            resolve_precheck(self.root@, path@) matches Ok(p) ==> resolved_on_disk(self.root@, p, r),
            r matches Ok(p) ==> is_absolute(p@),
    {
        let full_path = self.precheck(path)?;
        let link = crate::fsys::path_is_symlink(full_path.as_str());
        let canonical_full = if link {
            None
        } else {
            crate::fsys::canonicalize(full_path.as_str())
        };
        let canonical_dir = match &canonical_full {
            Some(_) => crate::fsys::canonicalize(self.root.as_str()),
            None => None,
        };
        let ghost fv = opt_view(canonical_full);
        let ghost dv = opt_view(canonical_dir);
        let r = resolution_outcome(link, canonical_full, canonical_dir);
        assert(disk_resolution(link, fv, dv) == view_resolution(r));
        assert(resolved_on_disk(self.root@, full_path@, r));
        r
    }

    /// Resolve a deck-relative path to an absolute file path on disk: first
    /// normalize it, then resolve the result.
    pub fn resolve_for_deck(&self, path: &str, deck_path: &str) -> (r: Result<String, ResolveError>)
        ensures
            normalize_path_spec(self.root@, path@, deck_path@) matches Err(e) ==> r == Err::<String, ResolveError>(e),
            normalize_path_spec(self.root@, path@, deck_path@) matches Ok(n) ==> {
                &&& resolve_precheck(self.root@, n) matches Err(e) ==> r == Err::<String, ResolveError>(e)
                &&& resolve_precheck(self.root@, n) matches Ok(p) ==> resolved_on_disk(self.root@, p, r)
                &&& r matches Ok(p) ==> resolve_precheck(self.root@, n) is Ok && is_absolute(p@)
            },
    {
        let normalized = self.normalize_path(path, deck_path)?;
        self.resolve(normalized.as_str())
    }
}

/// Once normalization has failed, the later components change nothing.
pub proof fn lemma_normalize_stuck(cs: Seq<Comp>, k: int)
    requires
        0 <= k <= cs.len(),
        !(normalize(cs.take(k)) is Names),
    ensures
        normalize(cs) == normalize(cs.take(k)),
    decreases cs.len(),
{
    if k < cs.len() {
        assert(cs.drop_last().take(k) =~= cs.take(k));
        lemma_normalize_stuck(cs.drop_last(), k);
    } else {
        assert(cs.take(k) =~= cs);
    }
}

/// Normalizing components whose names are proper leaves only proper names.
proof fn lemma_normalize_proper(cs: Seq<Comp>)
    requires
        names_proper(cs),
    ensures
        normalize(cs) matches Normalized::Names(ns) ==> forall|i: int| 0 <= i < ns.len() ==> proper_name(#[trigger] ns[i]),
    decreases cs.len(),
{
    if cs.len() > 0 {
        assert(names_proper(cs.drop_last())) by {
            assert forall|j: int| 0 <= j < cs.drop_last().len() implies (#[trigger] cs.drop_last()[j] matches Comp::Normal(x) ==> proper_name(x)) by {
                assert(cs.drop_last()[j] == cs[j]);
            }
        }
        lemma_normalize_proper(cs.drop_last());
        assert(cs.last() == cs[cs.len() - 1]);
    }
}

/// A normalized media path is a list of proper names joined by `/`: it
/// holds no empty, `.` or `..` component, so it cannot climb out of the
/// collection.
pub proof fn law_normalized_path_proper(root: Seq<char>, path: Seq<char>, deck_path: Seq<char>)
    ensures
        normalize_path_spec(root, path, deck_path) matches Ok(s) ==> exists|ns: Seq<Seq<char>>|
            s == join_with(ns, '/') && forall|i: int| 0 <= i < ns.len() ==> proper_name(#[trigger] ns[i]),
{
    if let Ok(s) = normalize_path_spec(root, path, deck_path) {
        let cs = media_components(root, path, deck_path)->Some_0;
        if path.len() > 0 && path[0] == '@' {
            lemma_components_proper(strip_leading(strip_leading(path, '@'), '/'));
        } else {
            let dir = parent_comps(components(deck_path))->Some_0;
            let rc = components(root);
            let rel = if comps_start_with(dir, rc) {
                dir.skip(rc.len() as int)
            } else {
                dir
            };
            lemma_components_proper(deck_path);
            lemma_components_proper(path);
            assert forall|j: int| 0 <= j < cs.len() implies (#[trigger] cs[j] matches Comp::Normal(x) ==> proper_name(x)) by {
                if j < rel.len() {
                    if comps_start_with(dir, rc) {
                        assert(cs[j] == components(deck_path)[j + rc.len()]);
                    } else {
                        assert(cs[j] == components(deck_path)[j]);
                    }
                } else {
                    assert(cs[j] == components(path)[j - rel.len()]);
                }
            }
        }
        lemma_normalize_proper(cs);
        let ns = normalize(cs)->Names_0;
        assert(s == join_with(ns, '/'));
    }
}

} // verus!
