//! Where the phonemizer's resource files come from and where they are kept.
//!
//! Fetching the files is I/O and happens outside this library; this type
//! holds the source URLs and the cache directory.
use vstd::prelude::*;
use std::path::PathBuf;
use crate::text::owned;

verus! {

#[verifier::external_type_specification]
#[verifier::external_body]
pub struct ExPathBuf(std::path::PathBuf);

/// Source of the English rules file.
pub open spec fn default_rules_url() -> Seq<char> {
    "https://raw.githubusercontent.com/espeak-ng/espeak-ng/59eb19938f12e30881c81d86ce4a7de25414c9f4/dictsource/en_rules"@
}

/// Source of the English word list.
pub open spec fn default_list_url() -> Seq<char> {
    "https://raw.githubusercontent.com/espeak-ng/espeak-ng/59eb19938f12e30881c81d86ce4a7de25414c9f4/dictsource/en_list"@
}

/// The path `Path::join` gives for the directory `dir` and the relative
/// name `name`.
pub uninterp spec fn joined_path(dir: PathBuf, name: Seq<char>) -> PathBuf;

/// `Path::join`: `dir` joined with the relative file name `name`. The
/// result depends on `dir`, `name` and the separator rules of the target
/// the crate is built for; the contract names it as `joined_path` of the
/// two arguments and does not spell out its components.
#[verifier::external_body]
fn path_in_dir(dir: &PathBuf, name: &str) -> (p: PathBuf)
    ensures
        p == joined_path(*dir, name@),
{
    dir.join(name)
}

/// Source URLs of the resource files and the directory they are cached in.
pub struct Downloader {
    rules_url: String,
    list_url: String,
    cache_dir: PathBuf,
}

impl Downloader {
    /// The URL the rules file is fetched from.
    pub closed spec fn rules_source(&self) -> Seq<char> {
        self.rules_url@
    }

    /// The URL the word list is fetched from.
    pub closed spec fn list_source(&self) -> Seq<char> {
        self.list_url@
    }

    /// The cache directory.
    pub closed spec fn cache(&self) -> PathBuf {
        self.cache_dir
    }

    /// A downloader for the standard English resources, caching into
    /// `cache_dir`.
    pub fn new(cache_dir: PathBuf) -> (d: Self)
        ensures
            d.rules_source() == default_rules_url(),
            d.list_source() == default_list_url(),
            d.cache() == cache_dir,
    {
        Self {
            rules_url: owned(
                "https://raw.githubusercontent.com/espeak-ng/espeak-ng/59eb19938f12e30881c81d86ce4a7de25414c9f4/dictsource/en_rules",
            ),
            list_url: owned(
                "https://raw.githubusercontent.com/espeak-ng/espeak-ng/59eb19938f12e30881c81d86ce4a7de25414c9f4/dictsource/en_list",
            ),
            cache_dir,
        }
    }

    /// A downloader with the given sources.
    pub fn with_custom_urls(cache_dir: PathBuf, rules_url: &str, list_url: &str) -> (d: Self)
        ensures
            d.rules_source() == rules_url@,
            d.list_source() == list_url@,
            d.cache() == cache_dir,
    {
        Self { rules_url: owned(rules_url), list_url: owned(list_url), cache_dir }
    }

    /// The URL the rules file is fetched from.
    pub fn rules_url(&self) -> (u: &str)
        ensures
            u@ == self.rules_source(),
    {
        self.rules_url.as_str()
    }

    /// The URL the word list is fetched from.
    pub fn list_url(&self) -> (u: &str)
        ensures
            u@ == self.list_source(),
    {
        self.list_url.as_str()
    }

    /// The cache directory.
    pub fn cache_dir(&self) -> (p: &PathBuf)
        ensures
            *p == self.cache(),
    {
        &self.cache_dir
    }

    /// Where the rules file is cached: `en_rules` in the cache directory.
    pub fn get_rules_path(&self) -> (p: PathBuf)
        ensures
            p == joined_path(self.cache(), "en_rules"@),
    {
        path_in_dir(&self.cache_dir, "en_rules")
    }

    /// Where the word list is cached: `en_list` in the cache directory.
    pub fn get_list_path(&self) -> (p: PathBuf)
        ensures
            p == joined_path(self.cache(), "en_list"@),
    {
        path_in_dir(&self.cache_dir, "en_list")
    }
}

} // verus!
