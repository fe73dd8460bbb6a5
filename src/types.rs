//! The data model: package descriptors, installed records and errors.

use vstd::prelude::*;

verus! {

/// Where a package's files go: the shared root, or a directory of its own.
#[derive(Debug, Clone, Copy, PartialEq, Eq, Structural)]
pub enum PackageType {
    System,
    App,
}

impl Default for PackageType {
    fn default() -> (r: Self)
        ensures
            r == PackageType::System,
    {
        PackageType::System
    }
}

/// Why a package was installed.
#[derive(Debug, Clone, Copy, PartialEq, Eq, Structural)]
pub enum InstallReason {
    Explicit,
    Dependency,
}

/// A catalog entry.
#[derive(Debug, Clone)]
pub struct PackageInfo {
    pub name: String,
    pub package_type: PackageType,
    pub version: String,
    pub url: String,
    pub checksum: String,
    pub dependencies: Option<Vec<String>>,
    pub description: String,
    pub icon_url: String,
    pub changelog_url: String,
    pub post_install: Option<String>,
}

impl PackageInfo {
    /// The names this package depends on (none when the list is absent).
    pub open spec fn dep_names(&self) -> Seq<Seq<char>> {
        match self.dependencies {
            Some(d) => d.deep_view(),
            None => Seq::empty(),
        }
    }
}

/// A record of the installed-state store.
#[derive(Debug, Clone)]
pub struct InstalledPackageInfo {
    pub name: String,
    pub version: String,
    pub package_type: PackageType,
    pub install_reason: InstallReason,
    pub files: Vec<String>,
}

/// The names of a sequence of installed records, in order.
pub open spec fn record_names(s: Seq<InstalledPackageInfo>) -> Seq<Seq<char>> {
    s.map_values(|r: InstalledPackageInfo| r.name@)
}

/// Installed-store invariant: names are unique.
pub open spec fn store_wf(s: Seq<InstalledPackageInfo>) -> bool {
    forall|i: int, j: int|
        0 <= i < s.len() && 0 <= j < s.len() && i != j ==> s[i].name@ != s[j].name@
}

/// The errors of the lifecycle engine.
#[derive(Debug, Clone)]
pub enum FluxError {
    PackageNotFound(String),
    ChecksumMismatch { package_name: String, expected: String, found: String },
    DependencyInUse { package_name: String, dependents: Vec<String> },
    Io(String),
    Network(String),
    YamlParse(String),
    JsonParse(String),
    Archive(String),
    PostInstallScriptFailed { package_name: String, message: String },
    HookFailed { package_name: String, hook_script: String, message: String },
    InvalidUrl(String),
    Config(String),
}

/// Copies a list of strings, keeping every element.
pub fn copy_strings(v: &Vec<String>) -> (r: Vec<String>)
    ensures
        r.deep_view() == v.deep_view(),
{
    let mut r: Vec<String> = Vec::new();
    let mut i: usize = 0;
    while i < v.len()
        invariant
            i <= v.len(),
            r.deep_view() == v.deep_view().subrange(0, i as int),
        decreases v.len() - i,
    {
        let ghost before = r.deep_view();
        r.push(v[i].clone());
        proof {
            assert(r.deep_view() =~= before.push(v.deep_view()[i as int]));
            assert(v.deep_view().subrange(0, i + 1) =~= v.deep_view().subrange(0, i as int).push(v.deep_view()[i as int]));
        }
        i = i + 1;
    }
    assert(v.deep_view().subrange(0, v.len() as int) =~= v.deep_view());
    r
}

} // verus!
