use vstd::prelude::*;

use crate::fsys::exists_answer;
use crate::fsys::file_answer;
use crate::fsys::symlink_answer;
use crate::paths::comp_views;
use crate::paths::components;
use crate::paths::comps_start_with;
use crate::paths::lemma_join_stays_below;
use crate::paths::is_absolute;
use crate::paths::join_path;
use crate::paths::path_components;
use crate::paths::path_join;
use crate::paths::Comp;
use crate::paths::Component;
use crate::text::chars_of;
use crate::text::string_from_chars;

verus! {

/// The media loader takes collection-relative file paths from the client
/// and returns the path of the file, if it exists. Directory traversals are
/// refused.
pub struct MediaLoader {
    /// Absolute path to the collection root directory.
    root: String,
}

/// Errors that can occur when loading a path.
#[derive(Debug, PartialEq, Eq, Structural, Clone, Copy)]
pub enum MediaLoaderError {
    /// Path is absolute.
    Absolute,
    /// Path does not exist.
    NotFound,
    /// Path is not a file.
    NotFile,
    /// Path points to a symbolic link.
    SymbolicLink,
    /// Path contains parent (`..`) components.
    ParentComponent,
}

/// Does the path have a `..` component?
pub open spec fn has_parent_comp(path: Seq<char>) -> bool {
    exists|i: int| 0 <= i < components(path).len() && components(path)[i] is Parent
}

/// The checks `validate` makes before it looks at the disk, and the path it
/// then looks at.
pub open spec fn loader_precheck(root: Seq<char>, path: Seq<char>) -> Result<Seq<char>, MediaLoaderError> {
    if has_parent_comp(path) {
        Err(MediaLoaderError::ParentComponent)
    } else if is_absolute(path) {
        Err(MediaLoaderError::Absolute)
    } else {
        Ok(join_path(root, path))
    }
}

/// Whatever path the client sends, the file the loader looks at lies
/// inside the collection: its components begin with those of the root and
/// go on with names and `.` only, never `..` or another root.
pub proof fn law_loaded_path_inside(root: Seq<char>, path: Seq<char>)
    requires
        is_absolute(root),
    ensures
        loader_precheck(root, path) matches Ok(full) ==> {
            let cf = components(full);
            let cr = components(root);
            &&& comps_start_with(cf, cr)
            &&& forall|i: int| cr.len() <= i < cf.len() ==> !(cf[i] is Parent) && !(cf[i] is Root)
        },
{
    lemma_join_stays_below(root, path);
}

/// What the loader answers for the path `full` once the disk has said
/// whether something is there, whether it is a regular file and whether it
/// is a symbolic link.
pub open spec fn disk_verdict(full: Seq<char>, present: bool, file: bool, link: bool) -> Result<
    Seq<char>,
    MediaLoaderError,
> {
    if !present {
        Err(MediaLoaderError::NotFound)
    } else if !file {
        Err(MediaLoaderError::NotFile)
    } else if link {
        Err(MediaLoaderError::SymbolicLink)
    } else {
        Ok(full)
    }
}

/// A result with its path taken as characters.
pub open spec fn view_result(r: Result<String, MediaLoaderError>) -> Result<Seq<char>, MediaLoaderError> {
    match r {
        Ok(s) => Ok(s@),
        Err(e) => Err(e),
    }
}

/// The loader's answer for `full` given what the disk said of it (see
/// `disk_verdict`).
pub fn disk_outcome(full: String, present: bool, file: bool, link: bool) -> (r: Result<String, MediaLoaderError>)
    ensures
        view_result(r) == disk_verdict(full@, present, file, link),
{
    if !present {
        Err(MediaLoaderError::NotFound)
    } else if !file {
        Err(MediaLoaderError::NotFile)
    } else if link {
        Err(MediaLoaderError::SymbolicLink)
    } else {
        Ok(full)
    }
}

fn any_parent(cs: &Vec<Component>) -> (r: bool)
    ensures
        r == exists|i: int| 0 <= i < comp_views(cs@).len() && comp_views(cs@)[i] is Parent,
{
    let mut i: usize = 0;
    while i < cs.len()
        invariant
            i <= cs@.len(),
            forall|j: int| 0 <= j < i ==> !(comp_views(cs@)[j] is Parent),
        decreases cs.len() - i,
    {
        if let Component::ParentDir = &cs[i] {
            assert(comp_views(cs@)[i as int] is Parent);
            return true;
        }
        i = i + 1;
    }
    false
}

impl MediaLoader {
    /// The collection root of this loader.
    pub closed spec fn root(&self) -> Seq<char> {
        self.root@
    }

    /// A loader for the collection at the absolute path `path`.
    pub fn new(path: String) -> (r: MediaLoader)
        requires
            is_absolute(path@),
        ensures
            r.root() == path@,
    {
        MediaLoader { root: path }
    }

    /// Given a path string from the client, check that a file exists at that
    /// location within the collection root directory. Symbolic links,
    /// absolute paths and paths with `..` components are rejected.
    pub fn validate(&self, path: &str) -> (r: Result<String, MediaLoaderError>)
        ensures
            loader_precheck(self.root(), path@) matches Err(e) ==> r == Err::<String, MediaLoaderError>(e),
            loader_precheck(self.root(), path@) matches Ok(full) ==> exists|present: bool, file: bool, link: bool|
                #[trigger] disk_verdict(full, present, file, link) == view_result(r) && exists_answer(full, present)
                    && file_answer(full, file) && symlink_answer(full, link),
    {
        let p = chars_of(path);
        let cs = path_components(p.as_slice());
        if any_parent(&cs) {
            return Err(MediaLoaderError::ParentComponent);
        }
        if p.len() > 0 && p[0] == '/' {
            return Err(MediaLoaderError::Absolute);
        }
        let root = chars_of(self.root.as_str());
        let full = string_from_chars(path_join(root.as_slice(), p.as_slice()).as_slice());
        let present = crate::fsys::path_exists(full.as_str());
        let file = crate::fsys::path_is_file(full.as_str());
        let link = crate::fsys::path_is_symlink(full.as_str());
        let r = disk_outcome(full, present, file, link);
        assert(disk_verdict(loader_precheck(self.root(), path@)->Ok_0, present, file, link) == view_result(r));
        r
    }
}

} // verus!
