use vstd::prelude::*;

use crate::cmd::drill::server::AnswerControls;
use crate::parser::file_name;
use crate::paths::join_path;
use crate::paths::join_str;
use crate::text::chars_of;
use crate::text::concat_str;
use crate::text::replace_char;
use crate::text::replace_char_str;

verus! {

/// The `serve` configuration file.
pub struct ServeConfig {
    pub server: ServerSection,
    pub git: Option<GitSection>,
    pub defaults: DefaultsSection,
    pub collections: Vec<CollectionEntry>,
}

/// The `[server]` section.
pub struct ServerSection {
    pub host: String,
    pub port: u16,
    pub data_dir: String,
}

/// The host the server binds to when none is configured.
pub fn default_host() -> (r: String)
    ensures
        r@ == "0.0.0.0"@,
{
    "0.0.0.0".to_owned()
}

/// The port the server listens on when none is configured.
pub fn default_port() -> (r: u16)
    ensures
        r == 8000,
{
    8000
}

/// The `[git]` section.
pub struct GitSection {
    pub repo_url: String,
    pub branch: String,
    pub poll_interval_minutes: u64,
}

/// The branch pulled when none is configured.
pub fn default_branch() -> (r: String)
    ensures
        r@ == "main"@,
{
    "main".to_owned()
}

/// The minutes between two syncs when none is configured.
pub fn default_poll_interval() -> (r: u64)
    ensures
        r == 30,
{
    30
}

/// The `[defaults]` section.
pub struct DefaultsSection {
    pub answer_controls: AnswerControlsConfig,
    pub bury_siblings: bool,
}

impl Default for DefaultsSection {
    fn default() -> (r: Self)
        ensures
            r.answer_controls == AnswerControlsConfig::Full,
            r.bury_siblings,
    {
        DefaultsSection { answer_controls: default_answer_controls(), bury_siblings: true }
    }
}

/// The answer buttons offered: all four grades, or only two.
#[derive(Clone, Copy, PartialEq, Eq, Structural, Debug)]
pub enum AnswerControlsConfig {
    Full,
    Binary,
}

/// The answer controls when none are configured.
pub fn default_answer_controls() -> (r: AnswerControlsConfig)
    ensures
        r == AnswerControlsConfig::Full,
{
    AnswerControlsConfig::Full
}

/// `true`, the default of flags that are on unless configured off.
pub fn default_true() -> (r: bool)
    ensures
        r,
{
    true
}

impl From<AnswerControlsConfig> for AnswerControls {
    fn from(config: AnswerControlsConfig) -> (r: Self) {
        match config {
            AnswerControlsConfig::Full => AnswerControls::Full,
            AnswerControlsConfig::Binary => AnswerControls::Binary,
        }
    }
}

impl vstd::std_specs::convert::FromSpecImpl<AnswerControlsConfig> for AnswerControls {
    open spec fn obeys_from_spec() -> bool {
        true
    }

    open spec fn from_spec(config: AnswerControlsConfig) -> AnswerControls {
        match config {
            AnswerControlsConfig::Full => AnswerControls::Full,
            AnswerControlsConfig::Binary => AnswerControls::Binary,
        }
    }
}

/// A `[[collection]]` entry.
pub struct CollectionEntry {
    pub name: String,
    pub path: String,
}

/// The slug of a path: its slashes made dashes.
pub open spec fn slug_of(path: Seq<char>) -> Seq<char> {
    replace_char(path, '/', '-')
}

/// A slug holds no slash, so it is one segment of a URL and one file name.
pub proof fn law_slug_has_no_slash(path: Seq<char>)
    ensures
        forall|i: int| 0 <= i < slug_of(path).len() ==> #[trigger] slug_of(path)[i] != '/',
{
}

impl CollectionEntry {
    /// The URL slug of the collection.
    pub fn slug(&self) -> (r: String)
        ensures
            r@ == slug_of(self.path@),
    {
        replace_char_str(self.path.as_str(), '/', '-')
    }
}

/// A name made fit for a URL: its slashes made dashes.
pub fn slugify(s: &str) -> (r: String)
    ensures
        r@ == slug_of(s@),
{
    replace_char_str(s, '/', '-')
}

/// The git settings, with the directories derived from the data directory.
pub struct ResolvedGit {
    pub repo_url: String,
    pub branch: String,
    pub poll_interval_minutes: u64,
    pub repo_dir: String,
    pub db_dir: String,
}

/// A collection, with its directories.
pub struct ResolvedCollection {
    pub name: String,
    pub slug: String,
    pub coll_dir: String,
    pub db_path: String,
}

/// The runtime configuration.
pub struct ResolvedServeConfig {
    pub host: String,
    pub port: u16,
    pub git: Option<ResolvedGit>,
    pub defaults: DefaultsSection,
    pub collections: Vec<ResolvedCollection>,
}

/// The repository directory under a data directory.
pub open spec fn repo_dir_of(data_dir: Seq<char>) -> Seq<char> {
    join_path(data_dir, "repo"@)
}

/// The database directory under a data directory.
pub open spec fn db_dir_of(data_dir: Seq<char>) -> Seq<char> {
    join_path(data_dir, "db"@)
}

/// Does `rc` describe the collection `entry` of a configuration whose data
/// directory is `data_dir`?
pub open spec fn resolves_entry(rc: ResolvedCollection, entry: CollectionEntry, data_dir: Seq<char>) -> bool {
    &&& rc.name@ == entry.name@
    &&& rc.slug@ == slug_of(entry.path@)
    &&& rc.coll_dir@ == join_path(repo_dir_of(data_dir), entry.path@)
    &&& rc.db_path@ == join_path(db_dir_of(data_dir), slug_of(entry.path@) + ".db"@)
}

fn resolve_entry(entry: &CollectionEntry, repo_dir: &str, db_dir: &str) -> (r: ResolvedCollection)
    ensures
        r.name@ == entry.name@,
        r.slug@ == slug_of(entry.path@),
        r.coll_dir@ == join_path(repo_dir@, entry.path@),
        r.db_path@ == join_path(db_dir@, slug_of(entry.path@) + ".db"@),
{
    let slug = entry.slug();
    let file = concat_str(slug.as_str(), ".db");
    ResolvedCollection {
        name: entry.name.clone(),
        coll_dir: join_str(repo_dir, entry.path.as_str()),
        db_path: join_str(db_dir, file.as_str()),
        slug,
    }
}

impl ResolvedServeConfig {
    /// The runtime configuration of a configuration file: the repository
    /// and databases live under the data directory.
    pub fn from_toml(config: ServeConfig) -> (r: Self)
        ensures
            r.host@ == config.server.host@,
            r.port == config.server.port,
            r.defaults == config.defaults,
            r.collections@.len() == config.collections@.len(),
            forall|i: int|
                0 <= i < r.collections@.len() ==> resolves_entry(
                    #[trigger] r.collections@[i],
                    config.collections@[i],
                    config.server.data_dir@,
                ),
            match config.git {
                None => r.git is None,
                Some(g) => r.git matches Some(rg) && rg.repo_url == g.repo_url && rg.branch == g.branch
                    && rg.poll_interval_minutes == g.poll_interval_minutes && rg.repo_dir@
                    == repo_dir_of(config.server.data_dir@) && rg.db_dir@ == db_dir_of(
                    config.server.data_dir@,
                ),
            },
    {
        let repo_dir = join_str(config.server.data_dir.as_str(), "repo");
        let db_dir = join_str(config.server.data_dir.as_str(), "db");
        let mut collections: Vec<ResolvedCollection> = Vec::new();
        let mut i: usize = 0;
        while i < config.collections.len()
            invariant
                i <= config.collections@.len(),
                collections@.len() == i,
                repo_dir@ == repo_dir_of(config.server.data_dir@),
                db_dir@ == db_dir_of(config.server.data_dir@),
                forall|j: int|
                    0 <= j < i ==> resolves_entry(
                        #[trigger] collections@[j],
                        config.collections@[j],
                        config.server.data_dir@,
                    ),
            decreases config.collections.len() - i,
        {
            let rc = resolve_entry(&config.collections[i], repo_dir.as_str(), db_dir.as_str());
            collections.push(rc);
            i = i + 1;
        }
        let git = match config.git {
            Some(g) => Some(
                ResolvedGit {
                    repo_url: g.repo_url,
                    branch: g.branch,
                    poll_interval_minutes: g.poll_interval_minutes,
                    repo_dir,
                    db_dir,
                },
            ),
            None => None,
        };
        ResolvedServeConfig {
            host: config.server.host,
            port: config.server.port,
            git,
            defaults: config.defaults,
            collections,
        }
    }
}

/// The name of a collection served from the directory `dir`: its last
/// component, or `dir_str` (as given) when it has none.
pub open spec fn directory_name(dir: Seq<char>, dir_str: Seq<char>) -> Seq<char> {
    match file_name(dir) {
        Some(n) => n,
        None => dir_str,
    }
}

/// The collection served from the directory `dir` (its canonical path),
/// given on the command line as `dir_str`: named after the directory, with
/// its database `hashcards.db` inside it.
pub fn collection_for_directory(dir: &str, dir_str: &str) -> (r: ResolvedCollection)
    ensures
        r.name@ == directory_name(dir@, dir_str@),
        r.slug@ == slug_of(directory_name(dir@, dir_str@)),
        r.coll_dir@ == dir@,
        r.db_path@ == join_path(dir@, "hashcards.db"@),
{
    let p = crate::text::chars_of(dir);
    let cs = crate::paths::path_components(p.as_slice());
    let name = if cs.len() == 0 {
        dir_str.to_string()
    } else {
        assert(crate::paths::comp_views(cs@).last() == cs@[cs@.len() - 1]@);
        match &cs[cs.len() - 1] {
            crate::paths::Component::Normal(n) => crate::text::string_from_chars(n.as_slice()),
            _ => dir_str.to_string(),
        }
    };
    let slug = slugify(name.as_str());
    ResolvedCollection {
        name,
        slug,
        coll_dir: dir.to_string(),
        db_path: join_str(dir, "hashcards.db"),
    }
}

impl ResolvedServeConfig {
    /// The runtime configuration for collections given as directories:
    /// no git, the default settings.
    pub fn from_collections(collections: Vec<ResolvedCollection>, host: String, port: u16) -> (r: Self)
        ensures
            r.host == host,
            r.port == port,
            r.git is None,
            r.defaults.answer_controls == AnswerControlsConfig::Full,
            r.defaults.bury_siblings,
            r.collections == collections,
    {
        ResolvedServeConfig { host, port, git: None, defaults: DefaultsSection::default(), collections }
    }
}

} // verus!
