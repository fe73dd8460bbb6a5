//! Per-package decisions of the fetch, verify, extract and hook steps, and
//! the paths they work on.

use vstd::prelude::*;
use vstd::string::StrSliceExecFns;
use vstd::string::StringExecFns;
use crate::catalog::Catalog;
use crate::text::{concat3, has_prefix, join_path, joined, strip_stars, without_stars};
use crate::types::{FluxError, PackageInfo, PackageType};

verus! {

/// The lowercase hex SHA-256 digest of some bytes.
pub uninterp spec fn sha256_hex_of(data: Seq<u8>) -> Seq<char>;

/// The scheme of a text parsed as a URL, or `None` when it does not parse.
pub uninterp spec fn url_scheme_of(s: Seq<char>) -> Option<Seq<char>>;

/// Relies on `sha2::Sha256::digest` printed with `{:x}`: the lowercase hex
/// digest, a function of the bytes alone.
#[verifier::external_body]
fn sha256_hex(data: &[u8]) -> (r: String)
    ensures
        r@ == sha256_hex_of(data@),
{
    format!("{:x}", <sha2::Sha256 as sha2::Digest>::digest(data))
}

/// Relies on `url::Url::parse` and `Url::scheme`: whether a text parses, and
/// the scheme it then has, depend on the text alone.
#[verifier::external_body]
fn parse_scheme(s: &str) -> (r: Option<String>)
    ensures
        match r {
            Some(x) => url_scheme_of(s@) == Some(x@),
            None => url_scheme_of(s@).is_none(),
        },
{
    match url::Url::parse(s) {
        Ok(u) => Some(u.scheme().to_string()),
        Err(_) => None,
    }
}

/// `name-version`, the directory and archive stem of a package.
pub open spec fn stem(name: Seq<char>, version: Seq<char>) -> Seq<char> {
    name + seq!['-'] + version
}

/// A digest that marks a package with no artifact to fetch.
pub open spec fn is_placeholder_digest(d: Seq<char>) -> bool {
    (seq!['s', 'o', 'm', 'e', '_']).is_prefix_of(d) || (seq!['a', '_', 'r', 'e', 'a', 'l', '_']).is_prefix_of(d)
}

/// True when the digest is a placeholder: the package is recorded without
/// fetching, verifying or extracting anything.
pub fn is_placeholder(checksum: &str) -> (r: bool)
    ensures
        r == is_placeholder_digest(checksum@),
{
    proof {
        reveal_strlit("some_");
        reveal_strlit("a_real_");
        assert("some_"@ =~= seq!['s', 'o', 'm', 'e', '_']);
        assert("a_real_"@ =~= seq!['a', '_', 'r', 'e', 'a', 'l', '_']);
    }
    has_prefix(checksum, "some_") || has_prefix(checksum, "a_real_")
}

/// Compares a computed digest with the declared one.
pub fn check_digest(info: &PackageInfo, found: String) -> (r: Result<(), FluxError>)
    ensures
        r.is_ok() <==> found@ == info.checksum@,
        match r {
            Ok(_) => true,
            Err(FluxError::ChecksumMismatch { package_name, expected, found: f }) => {
                package_name@ == info.name@ && expected@ == info.checksum@ && f@ == found@
            },
            Err(_) => false,
        },
{
    if found == info.checksum {
        Ok(())
    } else {
        Err(FluxError::ChecksumMismatch {
            package_name: info.name.clone(),
            expected: info.checksum.clone(),
            found,
        })
    }
}

/// Verifies fetched artifact bytes against the declared digest.
pub fn verify_checksum(info: &PackageInfo, data: &Vec<u8>) -> (r: Result<(), FluxError>)
    ensures
        r.is_ok() <==> sha256_hex_of(data@) == info.checksum@,
        match r {
            Ok(_) => true,
            Err(FluxError::ChecksumMismatch { package_name, expected, found }) => {
                package_name@ == info.name@ && expected@ == info.checksum@ && found@ == sha256_hex_of(data@)
            },
            Err(_) => false,
        },
{
    let found = sha256_hex(data.as_slice());
    check_digest(info, found)
}

/// How an artifact is brought to the scratch path.
#[derive(Debug, Clone, Copy, PartialEq, Eq, Structural)]
pub enum FetchKind {
    LocalCopy,
    Network,
}

/// A `file` scheme is copied from disk; any other is fetched over the network.
pub fn fetch_kind_for_scheme(scheme: &str) -> (r: FetchKind)
    ensures
        r == (if scheme@ == seq!['f', 'i', 'l', 'e'] { FetchKind::LocalCopy } else { FetchKind::Network }),
{
    proof {
        reveal_strlit("file");
        assert("file"@ =~= seq!['f', 'i', 'l', 'e']);
    }
    let s = String::from_str(scheme);
    let f = String::from_str("file");
    if s == f {
        FetchKind::LocalCopy
    } else {
        FetchKind::Network
    }
}

/// How an artifact location is fetched; a location that is not a URL is an
/// `InvalidUrl` error.
pub fn fetch_kind(location: &String) -> (r: Result<FetchKind, FluxError>)
    ensures
        match url_scheme_of(location@) {
            None => r matches Err(FluxError::InvalidUrl(u)) && u@ == location@,
            Some(sc) => r == Ok::<FetchKind, FluxError>(
                if sc == seq!['f', 'i', 'l', 'e'] { FetchKind::LocalCopy } else { FetchKind::Network },
            ),
        },
{
    match parse_scheme(location.as_str()) {
        None => Err(FluxError::InvalidUrl(location.clone())),
        Some(sc) => Ok(fetch_kind_for_scheme(sc.as_str())),
    }
}

/// Where the catalog document is fetched from.
#[derive(Debug, Clone)]
pub enum RepoLocation {
    /// A path relative to the working directory.
    LocalRelative(String),
    /// A URL used as it stands.
    Remote(String),
}

/// Splits the configured repository location: `file://./rest` names `rest`
/// relative to the working directory; anything else is a URL.
pub fn repository_location(repo: &String) -> (r: RepoLocation)
    ensures
        match r {
            RepoLocation::LocalRelative(rest) => {
                &&& "file://./"@.is_prefix_of(repo@)
                &&& rest@ == repo@.subrange(9, repo@.len() as int)
            },
            RepoLocation::Remote(u) => !"file://./"@.is_prefix_of(repo@) && u@ == repo@,
        },
{
    proof {
        reveal_strlit("file://./");
    }
    if has_prefix(repo.as_str(), "file://./") {
        let n = repo.as_str().unicode_len();
        let rest = repo.as_str().substring_char(9, n);
        RepoLocation::LocalRelative(String::from_str(rest))
    } else {
        RepoLocation::Remote(repo.clone())
    }
}

/// True when a hook pattern applies to a package: the pattern with its `'*'`
/// taken out is a prefix of the name.
pub open spec fn hook_applies(pattern: Seq<char>, name: Seq<char>) -> bool {
    without_stars(pattern).is_prefix_of(name)
}

/// `s` without one leading `'/'`.
pub open spec fn relative_part(s: Seq<char>) -> Seq<char> {
    if s.len() > 0 && s[0] == '/' {
        s.subrange(1, s.len() as int)
    } else {
        s
    }
}

/// The hook scripts, as paths under `root`, that apply to `name`, in the
/// order of the configuration.
pub open spec fn hooks_for(root: Seq<char>, hooks: Seq<(String, String)>, name: Seq<char>) -> Seq<Seq<char>>
    decreases hooks.len(),
{
    if hooks.len() == 0 {
        Seq::empty()
    } else {
        let rest = hooks_for(root, hooks.drop_last(), name);
        let h = hooks.last();
        if hook_applies(h.0@, name) {
            rest.push(joined(root, relative_part(h.1@)))
        } else {
            rest
        }
    }
}

/// True when a hook pattern applies to a package name.
pub fn hook_matches(name: &str, pattern: &str) -> (r: bool)
    ensures
        r == hook_applies(pattern@, name@),
{
    let p = strip_stars(pattern);
    has_prefix(name, p.as_str())
}

/// Paths of the installation, computed from the target root and the user's
/// home directory, with the configuration and the catalog.
pub struct AppContext {
    pub host_cache_dir: String,
    pub host_cache_path: String,
    pub target_root: String,
    pub target_apps_root: String,
    pub target_db_path: String,
    pub repository_url: String,
    pub hooks: Vec<(String, String)>,
    pub package_index: Catalog,
}

impl AppContext {
    /// Lays out the paths under `root` and under `home_dir`.
    pub fn new(root: String, home_dir: &String, repository_url: String, hooks: Vec<(String, String)>, package_index: Catalog) -> (r: AppContext)
        ensures
            r.host_cache_dir@ == joined(home_dir@, ".cache/flux"@),
            r.host_cache_path@ == joined(r.host_cache_dir@, "repo.yaml"@),
            r.target_root@ == root@,
            r.target_apps_root@ == joined(root@, "flux/apps"@),
            r.target_db_path@ == joined(joined(root@, "var/lib/flux"@), "db.json"@),
            r.repository_url == repository_url,
            r.hooks == hooks,
            r.package_index == package_index,
    {
        let host_cache_dir = join_path(home_dir.as_str(), ".cache/flux");
        let host_cache_path = join_path(host_cache_dir.as_str(), "repo.yaml");
        let target_apps_root = join_path(root.as_str(), "flux/apps");
        let db_dir = join_path(root.as_str(), "var/lib/flux");
        let target_db_path = join_path(db_dir.as_str(), "db.json");
        AppContext {
            host_cache_dir,
            host_cache_path,
            target_root: root,
            target_apps_root,
            target_db_path,
            repository_url,
            hooks,
            package_index,
        }
    }

    pub open spec fn app_dir_spec(&self, name: Seq<char>, version: Seq<char>) -> Seq<char> {
        joined(self.target_apps_root@, stem(name, version))
    }

    /// The directory of one version of an `App` package.
    pub fn app_dir(&self, name: &String, version: &String) -> (r: String)
        ensures
            r@ == self.app_dir_spec(name@, version@),
    {
        proof {
            reveal_strlit("-");
        }
        let s = concat3(name.as_str(), "-", version.as_str());
        assert(s@ =~= stem(name@, version@));
        join_path(self.target_apps_root.as_str(), s.as_str())
    }

    /// Where a package's files go: the target root for `System`, its own
    /// versioned directory for `App`.
    pub fn get_install_path(&self, info: &PackageInfo) -> (r: String)
        ensures
            r@ == match info.package_type {
                PackageType::System => self.target_root@,
                PackageType::App => self.app_dir_spec(info.name@, info.version@),
            },
    {
        match info.package_type {
            PackageType::System => self.target_root.clone(),
            PackageType::App => self.app_dir(&info.name, &info.version),
        }
    }

    /// The scratch path the artifact is fetched to.
    pub fn archive_path(&self, info: &PackageInfo) -> (r: String)
        ensures
            r@ == joined(self.host_cache_dir@, stem(info.name@, info.version@) + ".tar.zst"@),
    {
        proof {
            reveal_strlit("-");
            reveal_strlit(".tar.zst");
        }
        let s = concat3(info.name.as_str(), "-", info.version.as_str());
        let mut a = s;
        a.append(".tar.zst");
        assert(a@ =~= stem(info.name@, info.version@) + ".tar.zst"@);
        join_path(self.host_cache_dir.as_str(), a.as_str())
    }

    /// The path of the package's own post-install script, if it names one.
    pub fn post_install_path(&self, info: &PackageInfo) -> (r: Option<String>)
        ensures
            match info.post_install {
                None => r.is_none(),
                Some(s) => r matches Some(p) && p@ == joined(
                    match info.package_type {
                        PackageType::System => self.target_root@,
                        PackageType::App => self.app_dir_spec(info.name@, info.version@),
                    },
                    s@,
                ),
            },
    {
        match &info.post_install {
            None => None,
            Some(s) => {
                let base = self.get_install_path(info);
                Some(join_path(base.as_str(), s.as_str()))
            },
        }
    }

    /// The hook scripts that apply to `name`, as paths under the target root,
    /// in the order of the configuration.
    pub fn matching_hooks(&self, name: &String) -> (r: Vec<String>)
        ensures
            r.deep_view() == hooks_for(self.target_root@, self.hooks@, name@),
    {
        let mut out: Vec<String> = Vec::new();
        let mut i: usize = 0;
        while i < self.hooks.len()
            invariant
                i <= self.hooks@.len(),
                out.deep_view() == hooks_for(self.target_root@, self.hooks@.subrange(0, i as int), name@),
            decreases self.hooks@.len() - i,
        {
            let ghost before = out.deep_view();
            assert(self.hooks@.subrange(0, i + 1).drop_last() =~= self.hooks@.subrange(0, i as int));
            let pattern = &self.hooks[i].0;
            let script = &self.hooks[i].1;
            if hook_matches(name.as_str(), pattern.as_str()) {
                let n = script.as_str().unicode_len();
                let rel = if n > 0 && script.as_str().get_char(0) == '/' {
                    script.as_str().substring_char(1, n)
                } else {
                    script.as_str()
                };
                assert(rel@ == relative_part(script@));
                let full = join_path(self.target_root.as_str(), rel);
                out.push(full);
                assert(out.deep_view() =~= before.push(full@));
            }
            i = i + 1;
        }
        assert(self.hooks@.subrange(0, self.hooks@.len() as int) =~= self.hooks@);
        out
    }
}

} // verus!
