//! Install, remove, upgrade and autoremove decisions over the catalog and
//! the installed-state store.

use vstd::prelude::*;
use crate::catalog::{depends_on, has_name, Catalog};
use crate::pipeline::AppContext;
use crate::resolve::{closure_resolvable, reachable, resolve_dependencies};
use crate::types::{copy_strings, record_names, store_wf, FluxError, InstallReason, InstalledPackageInfo, PackageType};

verus! {

proof fn lemma_push_contains(s: Seq<Seq<char>>, a: Seq<char>, x: Seq<char>)
    ensures
        s.push(a).contains(x) <==> (s.contains(x) || x == a),
{
    if s.contains(x) {
        let t = choose|t: int| 0 <= t < s.len() && s[t] == x;
        assert(s.push(a)[t] == x);
    }
    if x == a {
        assert(s.push(a)[s.len() as int] == x);
    }
    if s.push(a).contains(x) {
        let t = choose|t: int| 0 <= t < s.len() + 1 && s.push(a)[t] == x;
        if t < s.len() {
            assert(s[t] == x);
        }
    }
}

/// True when `v` holds `s`.
pub fn contains_string(v: &Vec<String>, s: &String) -> (r: bool)
    ensures
        r == v.deep_view().contains(s@),
{
    let mut i: usize = 0;
    while i < v.len()
        invariant
            i <= v@.len(),
            forall|j: int| 0 <= j < i ==> v.deep_view()[j] != s@,
        decreases v.len() - i,
    {
        if v[i] == *s {
            assert(v.deep_view()[i as int] == s@);
            return true;
        }
        i = i + 1;
    }
    false
}

/// True when some record of the store is named `name`.
pub fn is_installed(installed: &Vec<InstalledPackageInfo>, name: &String) -> (r: bool)
    ensures
        r == record_names(installed@).contains(name@),
{
    let mut i: usize = 0;
    while i < installed.len()
        invariant
            i <= installed@.len(),
            forall|j: int| 0 <= j < i ==> installed@[j].name@ != name@,
        decreases installed.len() - i,
    {
        if installed[i].name == *name {
            assert(record_names(installed@)[i as int] == name@);
            return true;
        }
        i = i + 1;
    }
    false
}

/// The first position of a record named `name`.
pub fn position_of(installed: &Vec<InstalledPackageInfo>, name: &String) -> (r: Option<usize>)
    ensures
        match r {
            Some(i) => i < installed@.len() && installed@[i as int].name@ == name@,
            None => forall|j: int| 0 <= j < installed@.len() ==> installed@[j].name@ != name@,
        },
{
    let mut i: usize = 0;
    while i < installed.len()
        invariant
            i <= installed@.len(),
            forall|j: int| 0 <= j < i ==> installed@[j].name@ != name@,
        decreases installed.len() - i,
    {
        if installed[i].name == *name {
            return Some(i);
        }
        i = i + 1;
    }
    None
}

/// True when the catalog entry named `a` lists `b` as a dependency.
pub fn entry_depends_on(catalog: &Catalog, a: &String, b: &String) -> (r: bool)
    requires
        catalog.wf(),
    ensures
        r == depends_on(catalog.packages@, a@, b@),
{
    match catalog.find(a) {
        None => false,
        Some(i) => match &catalog.packages[i].dependencies {
            None => {
                assert forall|j: int| 0 <= j < catalog.packages@.len() && catalog.packages@[j].name@ == a@
                    implies !catalog.packages@[j].dep_names().contains(b@) by {
                    assert(j == i);
                }
                false
            },
            Some(deps) => {
                let r = contains_string(deps, b);
                assert forall|j: int| 0 <= j < catalog.packages@.len() && catalog.packages@[j].name@ == a@
                    implies j == i by {}
                r
            },
        },
    }
}

/// The packages `Install(package_name)` has to process: the closure of the
/// name, less what is installed already.
pub fn plan_install(ctx: &AppContext, installed: &Vec<InstalledPackageInfo>, package_name: &String) -> (r: Result<Vec<String>, FluxError>)
    requires
        ctx.package_index.wf(),
    ensures
        r.is_ok() <==> closure_resolvable(ctx.package_index.packages@, package_name@),
        match r {
            Ok(v) => {
                &&& v.deep_view().no_duplicates()
                &&& forall|x: Seq<char>| v.deep_view().contains(x) <==> (reachable(ctx.package_index.packages@, package_name@, x)
                    && !record_names(installed@).contains(x))
            },
            Err(FluxError::PackageNotFound(m)) => {
                reachable(ctx.package_index.packages@, package_name@, m@) && !has_name(ctx.package_index.packages@, m@)
            },
            Err(_) => false,
        },
{
    let closure = match resolve_dependencies(package_name, &ctx.package_index) {
        Err(e) => return Err(e),
        Ok(v) => v,
    };
    let mut out: Vec<String> = Vec::new();
    let mut i: usize = 0;
    while i < closure.len()
        invariant
            i <= closure@.len(),
            closure.deep_view().no_duplicates(),
            out.deep_view().no_duplicates(),
            forall|x: Seq<char>| out.deep_view().contains(x) <==> (closure.deep_view().subrange(0, i as int).contains(x)
                && !record_names(installed@).contains(x)),
        decreases closure.len() - i,
    {
        let ghost before = out.deep_view();
        let ghost cv = closure.deep_view();
        assert(cv.subrange(0, i + 1) =~= cv.subrange(0, i as int).push(cv[i as int]));
        if !is_installed(installed, &closure[i]) {
            proof {
                if before.contains(cv[i as int]) {
                    let t = choose|t: int| 0 <= t < i && cv.subrange(0, i as int)[t] == cv[i as int];
                    assert(cv[t] == cv[i as int]);
                }
            }
            out.push(closure[i].clone());
            proof {
                assert(out.deep_view() =~= before.push(cv[i as int]));
            }
        }
        proof {
            assert forall|x: Seq<char>| out.deep_view().contains(x) <==> (cv.subrange(0, i + 1).contains(x)
                && !record_names(installed@).contains(x)) by {
                lemma_push_contains(cv.subrange(0, i as int), cv[i as int], x);
                lemma_push_contains(before, cv[i as int], x);
            }
        }
        i = i + 1;
    }
    assert(closure.deep_view().subrange(0, closure@.len() as int) =~= closure.deep_view());
    Ok(out)
}

/// `r` is the record that installing `name` writes.
pub open spec fn record_for(
    c: Seq<crate::types::PackageInfo>,
    name: Seq<char>,
    requested: Seq<char>,
    files: Seq<Seq<char>>,
    r: InstalledPackageInfo,
) -> bool {
    &&& r.name@ == name
    &&& r.install_reason == (if name == requested { InstallReason::Explicit } else { InstallReason::Dependency })
    &&& r.files.deep_view() == files
    &&& exists|i: int| 0 <= i < c.len() && c[i].name@ == name && r.version@ == c[i].version@
        && r.package_type == c[i].package_type
}

/// `after` is `before` followed by one record for each planned package, in
/// plan order.
pub open spec fn install_committed(
    c: Seq<crate::types::PackageInfo>,
    before: Seq<InstalledPackageInfo>,
    plan: Seq<Seq<char>>,
    requested: Seq<char>,
    files: Seq<Seq<Seq<char>>>,
    after: Seq<InstalledPackageInfo>,
) -> bool {
    &&& after.len() == before.len() + plan.len()
    &&& after.subrange(0, before.len() as int) == before
    &&& forall|k: int| 0 <= k < plan.len() ==> record_for(c, plan[k], requested, files[k], #[trigger] after[before.len() + k])
}

/// Appends the records of a finished install: one per planned package, with
/// its catalog version and class, the files its extraction created, and
/// reason `Explicit` only for the requested name.
pub fn commit_install(
    ctx: &AppContext,
    installed: &mut Vec<InstalledPackageInfo>,
    plan: &Vec<String>,
    requested: &String,
    files: &Vec<Vec<String>>,
)
    requires
        ctx.package_index.wf(),
        plan@.len() == files@.len(),
        forall|k: int| 0 <= k < plan@.len() ==> has_name(ctx.package_index.packages@, #[trigger] plan.deep_view()[k]),
    ensures
        install_committed(
            ctx.package_index.packages@,
            old(installed)@,
            plan.deep_view(),
            requested@,
            files.deep_view(),
            final(installed)@,
        ),
        store_wf(old(installed)@) && plan.deep_view().no_duplicates()
            && (forall|x: Seq<char>| plan.deep_view().contains(x) ==> !record_names(old(installed)@).contains(x))
            ==> store_wf(final(installed)@),
{
    let ghost c = ctx.package_index.packages@;
    let ghost before = installed@;
    let mut k: usize = 0;
    while k < plan.len()
        invariant
            ctx.package_index.wf(),
            c == ctx.package_index.packages@,
            plan@.len() == files@.len(),
            forall|kk: int| 0 <= kk < plan@.len() ==> has_name(c, #[trigger] plan.deep_view()[kk]),
            k <= plan@.len(),
            installed@.len() == before.len() + k,
            installed@.subrange(0, before.len() as int) == before,
            forall|kk: int| 0 <= kk < k ==> record_for(c, plan.deep_view()[kk], requested@, files.deep_view()[kk], #[trigger] installed@[before.len() + kk]),
        decreases plan@.len() - k,
    {
        assert(plan.deep_view()[k as int] == plan@[k as int]@);
        assert(has_name(c, plan.deep_view()[k as int]));
        let i = ctx.package_index.find(&plan[k]).unwrap();
        let info = &ctx.package_index.packages[i];
        let reason = if plan[k] == *requested {
            InstallReason::Explicit
        } else {
            InstallReason::Dependency
        };
        let rec = InstalledPackageInfo {
            name: plan[k].clone(),
            version: info.version.clone(),
            package_type: info.package_type,
            install_reason: reason,
            files: copy_strings(&files[k]),
        };
        assert(files.deep_view()[k as int] == files@[k as int].deep_view());
        assert(record_for(c, plan.deep_view()[k as int], requested@, files.deep_view()[k as int], rec));
        let ghost prev = installed@;
        installed.push(rec);
        proof {
            assert(installed@.subrange(0, before.len() as int) =~= prev.subrange(0, before.len() as int));
            assert forall|kk: int| 0 <= kk < k + 1 implies record_for(c, plan.deep_view()[kk], requested@, files.deep_view()[kk], #[trigger] installed@[before.len() + kk]) by {
                if kk < k {
                    assert(installed@[before.len() + kk] == prev[before.len() + kk]);
                }
            }
        }
        k = k + 1;
    }
    proof {
        let pv = plan.deep_view();
        let after = installed@;
        if store_wf(before) && pv.no_duplicates()
            && (forall|x: Seq<char>| pv.contains(x) ==> !record_names(before).contains(x)) {
            assert forall|a: int, b: int| 0 <= a < after.len() && 0 <= b < after.len() && a != b
                implies after[a].name@ != after[b].name@ by {
                let bl = before.len() as int;
                if a < bl {
                    assert(after[a] == after.subrange(0, bl)[a]);
                }
                if b < bl {
                    assert(after[b] == after.subrange(0, bl)[b]);
                }
                if a >= bl {
                    assert(record_for(c, pv[a - bl], requested@, files.deep_view()[a - bl], after[bl + (a - bl)]));
                }
                if b >= bl {
                    assert(record_for(c, pv[b - bl], requested@, files.deep_view()[b - bl], after[bl + (b - bl)]));
                }
                if a < bl && b >= bl {
                    assert(pv.contains(pv[b - bl]));
                    assert(record_names(before)[a] == before[a].name@);
                }
                if b < bl && a >= bl {
                    assert(pv.contains(pv[a - bl]));
                    assert(record_names(before)[b] == before[b].name@);
                }
            }
        }
    }
}

/// The names of the other installed packages whose catalog entry lists
/// `name` as a dependency, in store order.
pub open spec fn dependents_of(
    c: Seq<crate::types::PackageInfo>,
    s: Seq<InstalledPackageInfo>,
    name: Seq<char>,
) -> Seq<Seq<char>>
    decreases s.len(),
{
    if s.len() == 0 {
        Seq::empty()
    } else {
        let rest = dependents_of(c, s.drop_last(), name);
        if s.last().name@ != name && depends_on(c, s.last().name@, name) {
            rest.push(s.last().name@)
        } else {
            rest
        }
    }
}

/// What removing a package does on disk.
#[derive(Debug, Clone)]
pub enum RemovalPlan {
    /// Delete this directory and everything in it.
    RemoveDirectory(String),
    /// Visit these recorded entries, relative to the target root, in this
    /// order: delete each file, and each directory that is empty.
    RemoveEntries(Vec<String>),
}

/// The names of the other installed packages that depend on `name`.
pub fn find_dependents(ctx: &AppContext, installed: &Vec<InstalledPackageInfo>, name: &String) -> (r: Vec<String>)
    requires
        ctx.package_index.wf(),
    ensures
        r.deep_view() == dependents_of(ctx.package_index.packages@, installed@, name@),
{
    let mut out: Vec<String> = Vec::new();
    let mut i: usize = 0;
    while i < installed.len()
        invariant
            ctx.package_index.wf(),
            i <= installed@.len(),
            out.deep_view() == dependents_of(ctx.package_index.packages@, installed@.subrange(0, i as int), name@),
        decreases installed.len() - i,
    {
        let ghost before = out.deep_view();
        assert(installed@.subrange(0, i + 1).drop_last() =~= installed@.subrange(0, i as int));
        let pkg = &installed[i];
        if pkg.name != *name && entry_depends_on(&ctx.package_index, &pkg.name, name) {
            out.push(pkg.name.clone());
            assert(out.deep_view() =~= before.push(pkg.name@));
        }
        i = i + 1;
    }
    assert(installed@.subrange(0, installed@.len() as int) =~= installed@);
    out
}

/// Removes the record of `package_name` from the store and says what to
/// delete on disk. It fails, leaving the store as it was, with
/// `DependencyInUse` when another installed package depends on it, and with
/// `PackageNotFound` when it is not installed.
pub fn remove_package(ctx: &AppContext, installed: &mut Vec<InstalledPackageInfo>, package_name: &String) -> (r: Result<RemovalPlan, FluxError>)
    requires
        ctx.package_index.wf(),
    ensures
        ({
            let deps = dependents_of(ctx.package_index.packages@, old(installed)@, package_name@);
            &&& r.is_ok() <==> (deps.len() == 0 && record_names(old(installed)@).contains(package_name@))
            &&& r.is_err() ==> final(installed)@ == old(installed)@
            &&& store_wf(old(installed)@) ==> store_wf(final(installed)@)
            &&& match r {
                Err(FluxError::DependencyInUse { package_name: p, dependents }) => {
                    deps.len() > 0 && p@ == package_name@ && dependents.deep_view() == deps
                },
                Err(FluxError::PackageNotFound(p)) => {
                    deps.len() == 0 && !record_names(old(installed)@).contains(package_name@) && p@ == package_name@
                },
                Err(_) => false,
                Ok(plan) => exists|idx: int| {
                    &&& 0 <= idx < old(installed)@.len()
                    &&& #[trigger] old(installed)@[idx].name@ == package_name@
                    &&& final(installed)@ == old(installed)@.remove(idx)
                    &&& match plan {
                        RemovalPlan::RemoveDirectory(d) => {
                            old(installed)@[idx].package_type == PackageType::App
                            && d@ == ctx.app_dir_spec(old(installed)@[idx].name@, old(installed)@[idx].version@)
                        },
                        RemovalPlan::RemoveEntries(e) => {
                            old(installed)@[idx].package_type == PackageType::System
                            && e.deep_view() == old(installed)@[idx].files.deep_view().reverse()
                        },
                    }
                },
            }
        }),
{
    let dependents = find_dependents(ctx, installed, package_name);
    if dependents.len() > 0 {
        return Err(FluxError::DependencyInUse { package_name: package_name.clone(), dependents });
    }
    let i = match position_of(installed, package_name) {
        None => {
            proof {
                if record_names(installed@).contains(package_name@) {
                    let t = choose|t: int| 0 <= t < installed@.len() && record_names(installed@)[t] == package_name@;
                    assert(installed@[t].name@ == package_name@);
                }
            }
            return Err(FluxError::PackageNotFound(package_name.clone()));
        },
        Some(i) => i,
    };
    assert(record_names(installed@)[i as int] == package_name@);
    let ghost old_store = installed@;
    let rec = installed.remove(i);
    let plan = match rec.package_type {
        PackageType::App => RemovalPlan::RemoveDirectory(ctx.app_dir(&rec.name, &rec.version)),
        PackageType::System => {
            let mut entries: Vec<String> = Vec::new();
            let n = rec.files.len();
            let mut k: usize = 0;
            while k < n
                invariant
                    n == rec.files@.len(),
                    k <= n,
                    entries.deep_view() =~= rec.files.deep_view().reverse().subrange(0, k as int),
                decreases n - k,
            {
                let ghost before = entries.deep_view();
                entries.push(rec.files[n - 1 - k].clone());
                assert(entries.deep_view() =~= before.push(rec.files@[n - 1 - k]@));
                k = k + 1;
            }
            assert(rec.files.deep_view().reverse().subrange(0, n as int) =~= rec.files.deep_view().reverse());
            RemovalPlan::RemoveEntries(entries)
        },
    };
    assert(old_store[i as int].name@ == package_name@);
    proof {
        if store_wf(old_store) {
            assert forall|a: int, b: int| 0 <= a < installed@.len() && 0 <= b < installed@.len() && a != b
                implies installed@[a].name@ != installed@[b].name@ by {
                let oa = if a < i { a } else { a + 1 };
                let ob = if b < i { b } else { b + 1 };
                assert(installed@[a] == old_store[oa]);
                assert(installed@[b] == old_store[ob]);
            }
        }
    }
    Ok(plan)
}

/// What to do with one recorded entry during removal.
#[derive(Debug, Clone, Copy, PartialEq, Eq, Structural)]
pub enum EntryAction {
    Skip,
    RemoveFile,
    RemoveDir,
}

/// A missing entry is skipped; a file is deleted; a directory is deleted
/// only when it is empty, since other packages may share it.
pub fn entry_action(exists: bool, is_dir: bool, dir_is_empty: bool) -> (r: EntryAction)
    ensures
        r == (if !exists {
            EntryAction::Skip
        } else if !is_dir {
            EntryAction::RemoveFile
        } else if dir_is_empty {
            EntryAction::RemoveDir
        } else {
            EntryAction::Skip
        }),
{
    if !exists {
        EntryAction::Skip
    } else if !is_dir {
        EntryAction::RemoveFile
    } else if dir_is_empty {
        EntryAction::RemoveDir
    } else {
        EntryAction::Skip
    }
}

/// The installed names whose catalog entry has another version, in store
/// order.
pub open spec fn outdated(c: Seq<crate::types::PackageInfo>, s: Seq<InstalledPackageInfo>) -> Seq<Seq<char>>
    decreases s.len(),
{
    if s.len() == 0 {
        Seq::empty()
    } else {
        let rest = outdated(c, s.drop_last());
        if exists|i: int| 0 <= i < c.len() && c[i].name@ == s.last().name@ && c[i].version@ != s.last().version@ {
            rest.push(s.last().name@)
        } else {
            rest
        }
    }
}

/// The packages that `Upgrade` reinstalls: those whose catalog version
/// differs from the installed one. A package absent from the catalog is kept.
pub fn upgrade_candidates(ctx: &AppContext, installed: &Vec<InstalledPackageInfo>) -> (r: Vec<String>)
    requires
        ctx.package_index.wf(),
    ensures
        r.deep_view() == outdated(ctx.package_index.packages@, installed@),
{
    let ghost c = ctx.package_index.packages@;
    let mut out: Vec<String> = Vec::new();
    let mut i: usize = 0;
    while i < installed.len()
        invariant
            ctx.package_index.wf(),
            c == ctx.package_index.packages@,
            i <= installed@.len(),
            out.deep_view() == outdated(c, installed@.subrange(0, i as int)),
        decreases installed.len() - i,
    {
        let ghost before = out.deep_view();
        assert(installed@.subrange(0, i + 1).drop_last() =~= installed@.subrange(0, i as int));
        let pkg = &installed[i];
        match ctx.package_index.find(&pkg.name) {
            Some(j) => {
                if ctx.package_index.packages[j].version != pkg.version {
                    out.push(pkg.name.clone());
                    assert(out.deep_view() =~= before.push(pkg.name@));
                } else {
                    assert forall|t: int| 0 <= t < c.len() && c[t].name@ == pkg.name@ implies c[t].version@ == pkg.version@ by {
                        assert(t == j);
                    }
                }
            },
            None => {},
        }
        i = i + 1;
    }
    assert(installed@.subrange(0, installed@.len() as int) =~= installed@);
    out
}

/// Some installed package's catalog entry lists `x` as a dependency.
pub open spec fn is_required(c: Seq<crate::types::PackageInfo>, s: Seq<InstalledPackageInfo>, x: Seq<char>) -> bool {
    exists|k: int| 0 <= k < s.len() && #[trigger] depends_on(c, s[k].name@, x)
}

/// The names of the records of `part` installed as dependencies that no
/// package of `all` requires, in order.
pub open spec fn orphans_of(
    c: Seq<crate::types::PackageInfo>,
    all: Seq<InstalledPackageInfo>,
    part: Seq<InstalledPackageInfo>,
) -> Seq<Seq<char>>
    decreases part.len(),
{
    if part.len() == 0 {
        Seq::empty()
    } else {
        let rest = orphans_of(c, all, part.drop_last());
        if part.last().install_reason == InstallReason::Dependency && !is_required(c, all, part.last().name@) {
            rest.push(part.last().name@)
        } else {
            rest
        }
    }
}

/// True when some installed package requires `name`.
pub fn required_by_installed(ctx: &AppContext, installed: &Vec<InstalledPackageInfo>, name: &String) -> (r: bool)
    requires
        ctx.package_index.wf(),
    ensures
        r == is_required(ctx.package_index.packages@, installed@, name@),
{
    let mut k: usize = 0;
    while k < installed.len()
        invariant
            ctx.package_index.wf(),
            k <= installed@.len(),
            forall|j: int| 0 <= j < k ==> !depends_on(ctx.package_index.packages@, #[trigger] installed@[j].name@, name@),
        decreases installed.len() - k,
    {
        if entry_depends_on(&ctx.package_index, &installed[k].name, name) {
            return true;
        }
        k = k + 1;
    }
    false
}

/// The orphans `Autoremove` takes out: packages installed as dependencies
/// that no installed package's catalog entry requires, computed once from
/// the store as it is.
pub fn find_orphans(ctx: &AppContext, installed: &Vec<InstalledPackageInfo>) -> (r: Vec<String>)
    requires
        ctx.package_index.wf(),
    ensures
        r.deep_view() == orphans_of(ctx.package_index.packages@, installed@, installed@),
{
    let mut out: Vec<String> = Vec::new();
    let mut i: usize = 0;
    while i < installed.len()
        invariant
            ctx.package_index.wf(),
            i <= installed@.len(),
            out.deep_view() == orphans_of(ctx.package_index.packages@, installed@, installed@.subrange(0, i as int)),
        decreases installed.len() - i,
    {
        let ghost before = out.deep_view();
        assert(installed@.subrange(0, i + 1).drop_last() =~= installed@.subrange(0, i as int));
        let pkg = &installed[i];
        if pkg.install_reason == InstallReason::Dependency && !required_by_installed(ctx, installed, &pkg.name) {
            out.push(pkg.name.clone());
            assert(out.deep_view() =~= before.push(pkg.name@));
        }
        i = i + 1;
    }
    assert(installed@.subrange(0, installed@.len() as int) =~= installed@);
    out
}

} // verus!
