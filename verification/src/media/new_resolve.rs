use vstd::prelude::*;

use crate::fsys::canonical_answer;
use crate::media::resolve::opt_view;
use crate::paths::is_absolute;
use crate::paths::parent_path;
use crate::paths::path_parent;
use crate::paths::join_path;
use crate::paths::path_join;
use crate::paths::path_strip_prefix;
use crate::paths::strip_prefix;
use crate::text::chars_of;
use crate::text::contains;
use crate::text::contains_scheme_sep;
use crate::text::has_prefix;
use crate::text::scheme_sep;
use crate::text::string_from_chars;
use crate::text::trim;
use crate::text::trim_chars;

verus! {

/// The media resolver takes media paths as entered in the Markdown text of
/// the flashcards, and resolves them to collection-relative paths.
pub struct MediaResolver {
    /// Absolute path to the collection root directory.
    collection_path: String,
    /// Collection-relative path to the deck.
    deck_path: String,
}

/// Builder to construct a [`MediaResolver`].
pub struct MediaResolverBuilder {
    collection_path: Option<String>,
    deck_path: Option<String>,
}

/// Errors that can occur when resolving a file path.
#[derive(Debug, PartialEq, Eq, Structural, Clone, Copy)]
pub enum ResolveError {
    /// Path is the empty string.
    Empty,
    /// Path is an external URL.
    ExternalUrl,
    /// Path is absolute.
    AbsolutePath,
    /// Path is invalid.
    InvalidPath,
    /// Path resolves outside the collection directory.
    OutsideDirectory,
}

/// What `resolve` decides without the disk: an error, a collection-relative
/// path (for `@/` paths), or `None` when the deck-relative path must be
/// canonicalized on disk.
pub open spec fn resolve_without_disk(path: Seq<char>) -> Option<Result<Seq<char>, ResolveError>> {
    let t = trim(path);
    if t.len() == 0 {
        Some(Err(ResolveError::Empty))
    } else if contains(t, scheme_sep()) {
        Some(Err(ResolveError::ExternalUrl))
    } else if has_prefix(t, seq!['@', '/']) {
        if is_absolute(t.skip(2)) {
            Some(Err(ResolveError::AbsolutePath))
        } else {
            Some(Ok(t.skip(2)))
        }
    } else {
        None
    }
}

/// The path the disk is asked to canonicalize for the deck-relative path
/// `t`: the directory of the deck file (the deck path taken under the
/// collection when it is relative), joined with `t`. `None` where the deck
/// path has no directory.
pub open spec fn deck_query(collection: Seq<char>, deck: Seq<char>, t: Seq<char>) -> Option<Seq<char>> {
    match parent_path(join_path(collection, deck)) {
        Some(dir) => Some(join_path(dir, t)),
        None => None,
    }
}

/// What `resolve` answers for a deck-relative path once the disk has given
/// the canonical form `c` of the path asked about (`None` for a failure):
/// that form relative to the collection, or `InvalidPath`.
pub open spec fn deck_outcome(collection: Seq<char>, c: Option<Seq<char>>) -> Result<Seq<char>, ResolveError> {
    match c {
        None => Err(ResolveError::InvalidPath),
        Some(x) => match strip_prefix(x, collection) {
            Some(v) => Ok(v),
            None => Err(ResolveError::InvalidPath),
        },
    }
}

/// Is `r` what `resolve` answers once the disk was asked for the
/// canonical form of `q` and gave an answer?
pub open spec fn deck_resolved(collection: Seq<char>, q: Seq<char>, r: Result<String, ResolveError>) -> bool {
    exists|c: Option<Seq<char>>|
        #[trigger] canonical_answer(q, c) && (c matches Some(x) ==> is_absolute(x)) && view_result(r)
            == deck_outcome(collection, c)
}

/// A result with its path taken as characters.
pub open spec fn view_result(r: Result<String, ResolveError>) -> Result<Seq<char>, ResolveError> {
    match r {
        Ok(s) => Ok(s@),
        Err(e) => Err(e),
    }
}

impl MediaResolver {
    /// The collection root.
    pub closed spec fn collection(&self) -> Seq<char> {
        self.collection_path@
    }

    /// The collection-relative path of the deck.
    pub closed spec fn deck(&self) -> Seq<char> {
        self.deck_path@
    }

    /// Resolve a path string to a collection-relative file path.
    ///
    /// A path starting with `@/` is collection-relative. Any other path is
    /// resolved on disk relative to the directory of the deck file (see
    /// `deck_query`), and made relative to the collection root.
    pub fn resolve(&self, path: &str) -> (r: Result<String, ResolveError>)
        ensures
            resolve_without_disk(path@) matches Some(d) ==> (match d {
                Ok(s) => r matches Ok(v) && v@ == s,
                Err(e) => r == Err::<String, ResolveError>(e),
            }),
            resolve_without_disk(path@) is None && deck_query(self.collection(), self.deck(), trim(path@)) is None
                ==> r == Err::<String, ResolveError>(ResolveError::InvalidPath),
            resolve_without_disk(path@) is None ==> (deck_query(self.collection(), self.deck(), trim(path@)) matches Some(q)
                ==> deck_resolved(self.collection(), q, r)),
    {
        let p = chars_of(path);
        let t = trim_chars(p.as_slice());
        if t.len() == 0 {
            return Err(ResolveError::Empty);
        }
        if contains_scheme_sep(t.as_slice()) {
            return Err(ResolveError::ExternalUrl);
        }
        if t.len() >= 2 && t[0] == '@' && t[1] == '/' {
            assert(has_prefix(t@, seq!['@', '/'])) by {
                assert(t@.take(2) =~= seq!['@', '/']);
            }
            let rest = crate::text::sub_chars(t.as_slice(), 2, t.len());
            assert(rest@ =~= t@.skip(2));
            if rest.len() > 0 && rest[0] == '/' {
                return Err(ResolveError::AbsolutePath);
            }
            return Ok(string_from_chars(rest.as_slice()));
        }
        assert(!has_prefix(t@, seq!['@', '/'])) by {
            if has_prefix(t@, seq!['@', '/']) {
                assert(t@.take(2)[0] == '@' && t@.take(2)[1] == '/');
            }
        }
        let coll = chars_of(self.collection_path.as_str());
        let d = chars_of(self.deck_path.as_str());
        let deck_file = path_join(coll.as_slice(), d.as_slice());
        let dir = match path_parent(deck_file.as_slice()) {
            Some(x) => x,
            None => {
                assert(deck_query(self.collection(), self.deck(), trim(path@)) is None);
                return Err(ResolveError::InvalidPath);
            },
        };
        let query = string_from_chars(path_join(dir.as_slice(), t.as_slice()).as_slice());
        let canonical = crate::fsys::canonicalize(query.as_str());
        let ghost c = opt_view(canonical);
        let r = match canonical {
            Some(x) => self.relative_to_collection(x.as_str()),
            None => Err(ResolveError::InvalidPath),
        };
        assert(view_result(r) == deck_outcome(self.collection(), c));
        assert(deck_file@ == join_path(self.collection(), self.deck()));
        assert(query@ == join_path(dir@, t@));
        assert(deck_query(self.collection(), self.deck(), trim(path@)) == Some(query@));
        assert(canonical_answer(query@, c));
        assert(c matches Some(x) ==> is_absolute(x));
        assert(deck_resolved(self.collection(), query@, r));
        r
    }

    /// The canonical path `canonical` (what the disk made of the deck path
    /// joined with a media path) relative to the collection root;
    /// `InvalidPath` where it lies outside the root.
    pub fn relative_to_collection(&self, canonical: &str) -> (r: Result<String, ResolveError>)
        ensures
            match strip_prefix(canonical@, self.collection()) {
                Some(v) => r matches Ok(s) && s@ == v,
                None => r == Err::<String, ResolveError>(ResolveError::InvalidPath),
            },
    {
        let c = chars_of(canonical);
        let base = chars_of(self.collection_path.as_str());
        match path_strip_prefix(c.as_slice(), base.as_slice()) {
            Some(rel) => Ok(string_from_chars(rel.as_slice())),
            None => Err(ResolveError::InvalidPath),
        }
    }
}

impl MediaResolverBuilder {
    /// The collection path set so far.
    pub closed spec fn collection(&self) -> Option<Seq<char>> {
        match self.collection_path {
            Some(p) => Some(p@),
            None => None,
        }
    }

    /// The deck path set so far.
    pub closed spec fn deck(&self) -> Option<Seq<char>> {
        match self.deck_path {
            Some(p) => Some(p@),
            None => None,
        }
    }

    /// Construct a new [`MediaResolverBuilder`] with nothing set.
    pub fn new() -> (r: MediaResolverBuilder)
        ensures
            r.collection() is None,
            r.deck() is None,
    {
        MediaResolverBuilder { collection_path: None, deck_path: None }
    }

    /// Set the collection path, which must be absolute. (That it names a
    /// directory is for the caller to check.)
    pub fn with_collection_path(self, collection_path: String) -> (r: MediaResolverBuilder)
        requires
            is_absolute(collection_path@),
        ensures
            r.collection() == Some(collection_path@),
            r.deck() == self.deck(),
    {
        MediaResolverBuilder { collection_path: Some(collection_path), deck_path: self.deck_path }
    }

    /// Set the deck path. (That it names a file is for the caller to
    /// check.)
    pub fn with_deck_path(self, deck_path: String) -> (r: MediaResolverBuilder)
        ensures
            r.collection() == self.collection(),
            r.deck() == Some(deck_path@),
    {
        MediaResolverBuilder { collection_path: self.collection_path, deck_path: Some(deck_path) }
    }

    /// Consume the builder and return a [`MediaResolver`]; both paths must
    /// be set.
    pub fn build(self) -> (r: MediaResolver)
        requires
            self.collection() is Some,
            self.deck() is Some,
        ensures
            r.collection() == self.collection()->0,
            r.deck() == self.deck()->0,
    {
        let collection_path = match self.collection_path {
            Some(c) => c,
            None => String::new(),
        };
        let deck_path = match self.deck_path {
            Some(d) => d,
            None => String::new(),
        };
        MediaResolver { collection_path, deck_path }
    }
}

} // verus!
