//! Where configuration text comes from.
//!
//! The loader is a trait so that everything downstream of it can be tested
//! against string literals. [`MapLoader`] backs the tests; the program reads
//! real files through a loader of its own.

use vstd::prelude::*;

use crate::config::error::ConfigError;
use crate::config::paths::{file_key, path_key};
use crate::keyed::{insert_entry, lemma_insert_entry, lookup, sorted_keys, TextMap};

verus! {

/// One configuration file: where it came from, and what was in it.
///
/// The text is kept alongside the path because diagnostics need it to turn
/// byte offsets into line and column numbers.
#[derive(Debug)]
pub struct ConfigSource {
    /// Path the text was read from.
    pub path: String,
    /// Full contents of the file.
    pub text: String,
}

impl Clone for ConfigSource {
    fn clone(&self) -> (res: Self)
        ensures
            res.path@ == self.path@,
            res.text@ == self.text@,
    {
        ConfigSource { path: self.path.clone(), text: self.text.clone() }
    }
}

/// Finds and reads configuration files.
///
/// Each loader says, through [`SourceLoader::discovers`] and
/// [`SourceLoader::loads`], which results its methods may give.
pub trait SourceLoader {
    /// True if `res` is a result that [`SourceLoader::discover`] may give.
    /// A loader that says nothing of its results admits every one.
    open spec fn discovers(&self, res: Result<Option<String>, ConfigError>) -> bool {
        true
    }

    /// True if `res` is a result that [`SourceLoader::load`] may give for
    /// `path`. A loader that says nothing of its results admits every one.
    open spec fn loads(&self, path: Seq<char>, res: Result<ConfigSource, ConfigError>) -> bool {
        true
    }

    /// Locate the configuration file to use, if there is one.
    fn discover(&self) -> (res: Result<Option<String>, ConfigError>)
        ensures
            self.discovers(res),
    ;

    /// Read one configuration file.
    fn load(&self, path: &str) -> (res: Result<ConfigSource, ConfigError>)
        ensures
            self.loads(path@, res),
    ;
}

/// `std::io::Error` of kind `NotFound` carrying `message`.
#[verifier::external_body]
fn not_found_error(message: &str) -> std::io::Error {
    std::io::Error::new(std::io::ErrorKind::NotFound, message)
}

/// Reads configuration from an in-memory map, so that the whole pipeline can
/// be exercised from string literals.
///
/// Files are found by path, not by text: `a//b.toml` and `a/./b.toml` find
/// the file added as `a/b.toml`.
#[derive(Debug, Clone, Default)]
pub struct MapLoader {
    /// Every file this loader knows about, keyed by [`path_key`].
    files: TextMap<String, String>,
    /// The path [`SourceLoader::discover`] should return.
    entry: Option<String>,
}

impl MapLoader {
    /// Every file, keyed by the [`path_key`] of its path.
    pub closed spec fn files(&self) -> Seq<(Seq<char>, String)> {
        self.files@
    }

    /// The path that discovery returns.
    pub closed spec fn entry(&self) -> Option<Seq<char>> {
        self.entry.deep_view()
    }

    /// Create a loader with no files.
    pub fn new() -> (res: Self)
        ensures
            res.files() == Seq::<(Seq<char>, String)>::empty(),
            res.entry() is None,
            sorted_keys(res.files()),
    {
        MapLoader { files: TextMap::new(), entry: None }
    }

    /// Create a loader holding a single file, which discovery will return.
    pub fn single(path: &str, text: &str) -> (res: Self)
        ensures
            res.entry() == Some(path@),
            lookup(res.files(), path_key(path@)) matches Some(t) && t@ == text@,
            res.files().len() == 1,
            sorted_keys(res.files()),
    {
        let mut files: TextMap<String, String> = TextMap::new();
        let t = text.to_owned();
        let key = file_key(path);
        proof {
            lemma_insert_entry(files@, key@, t);
        }
        files.insert(key, t);
        MapLoader { files, entry: Some(path.to_owned()) }
    }

    /// Add a file without making it the discovery entry point.
    pub fn with(self, path: &str, text: &str) -> (res: Self)
        requires
            sorted_keys(self.files()),
        ensures
            res.entry() == self.entry(),
            exists|t: String| t@ == text@ && res.files() == insert_entry(self.files(), path_key(path@), t),
            sorted_keys(res.files()),
    {
        let MapLoader { mut files, entry } = self;
        let t = text.to_owned();
        let key = file_key(path);
        proof {
            lemma_insert_entry(files@, key@, t);
        }
        files.insert(key, t);
        MapLoader { files, entry }
    }
}

impl SourceLoader for MapLoader {
    /// Discovery gives the entry path, and never fails.
    open spec fn discovers(&self, res: Result<Option<String>, ConfigError>) -> bool {
        res matches Ok(p) && p.deep_view() == self.entry()
    }

    /// A path with the components of a known one gives that file, under the
    /// path as asked for; any other a read error naming it.
    open spec fn loads(&self, path: Seq<char>, res: Result<ConfigSource, ConfigError>) -> bool {
        match lookup(self.files(), path_key(path)) {
            Some(t) => res matches Ok(s) && s.path@ == path && s.text@ == t@,
            None => res matches Err(ConfigError::Io { path: p, .. }) && p@ == path,
        }
    }

    fn discover(&self) -> (res: Result<Option<String>, ConfigError>) {
        match &self.entry {
            Some(p) => Ok(Some(p.clone())),
            None => Ok(None),
        }
    }

    fn load(&self, path: &str) -> (res: Result<ConfigSource, ConfigError>) {
        let key = file_key(path);
        match self.files.get(key.as_str()) {
            Some(text) => Ok(ConfigSource { path: path.to_owned(), text: text.clone() }),
            None => Err(
                ConfigError::Io {
                    path: path.to_owned(),
                    source: not_found_error("no such file in MapLoader"),
                },
            ),
        }
    }
}

} // verus!
