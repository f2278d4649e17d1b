//! The data model of dependency wraps: descriptors for subprojects fetched
//! from an archive or a version-control system. Paths are carried as plain
//! strings; the service's edges turn them into filesystem paths.

use vstd::prelude::*;

verus! {

/// How a wrapped subproject is built.
#[derive(Debug, Clone, Copy, PartialEq, Eq, Structural)]
pub enum Method {
    Meson,
    CMake,
    Cargo,
}

/// What every wrap offers: its identity, its patch set, and the actions the
/// service performs on it. The service's own wrap kinds implement this.
pub trait Wrap {
    fn name(self) -> String;

    fn patch_url(self) -> Option<String>;

    fn patch_fallback_url(self) -> Option<String>;

    fn patch_filename(self) -> Option<String>;

    fn patch_hash(self) -> Option<String>;

    fn patch_directory(self) -> Option<String>;

    fn diff_files(self) -> Vec<String>;

    fn method(self) -> Method;

    fn install(self);

    fn update(self);
}

/// The fields every wrap kind shares.
#[derive(Debug)]
pub struct CommonWrap {
    pub directory: String,
    pub wrap_file: String,
    pub name: String,
    pub patch_url: Option<String>,
    pub patch_fallback_url: Option<String>,
    pub patch_filename: Option<String>,
    pub patch_hash: Option<String>,
    pub patch_directory: Option<String>,
    pub diff_files: Vec<String>,
    pub method: Method,
}

/// A wrap fetched from a version-control system.
#[derive(Debug)]
pub struct CommonVcsWrap {
    pub common_wrap: CommonWrap,
    pub url: String,
    pub revision: String,
}

/// A wrap fetched as an archive file.
#[derive(Debug)]
pub struct FileWrap {
    pub common_wrap: CommonWrap,
    pub metadata: String,
    pub source_url: String,
    pub source_fallback_url: String,
    pub source_filename: String,
    pub source_hash: String,
    pub lead_directory_missing: bool,
}

/// A wrap cloned from a git repository.
#[derive(Debug)]
pub struct GitWrap {
    pub common_vcs_wrap: CommonVcsWrap,
    pub depth: Option<u64>,
    pub push_url: Option<String>,
    pub clone_recursive: bool,
}

/// A wrap checked out from subversion.
#[derive(Debug)]
pub struct SvnWrap {
    pub common_vcs_wrap: CommonVcsWrap,
}

/// A wrap pulled from mercurial.
#[derive(Debug)]
pub struct HgWrap {
    pub common_vcs_wrap: CommonVcsWrap,
}

} // verus!
