//! Properties that relate several operations of the lifecycle engine.

use vstd::prelude::*;
use crate::catalog::depends_on;
use crate::lifecycle::{dependents_of, install_committed, record_for};
use crate::resolve::reachable;
use crate::types::{record_names, InstallReason, InstalledPackageInfo, PackageInfo};

verus! {

/// Installing a package whose whole closure is installed already does
/// nothing: the plan is empty, and committing it leaves the store as it was.
pub proof fn lemma_install_idempotent(
    c: Seq<PackageInfo>,
    installed: Seq<InstalledPackageInfo>,
    requested: Seq<char>,
    plan: Seq<Seq<char>>,
    files: Seq<Seq<Seq<char>>>,
    after: Seq<InstalledPackageInfo>,
)
    requires
        forall|x: Seq<char>| plan.contains(x) <==> (reachable(c, requested, x) && !record_names(installed).contains(x)),
        forall|x: Seq<char>| reachable(c, requested, x) ==> record_names(installed).contains(x),
        install_committed(c, installed, plan, requested, files, after),
    ensures
        plan.len() == 0,
        after == installed,
{
    if plan.len() > 0 {
        assert(plan.contains(plan[0]));
    }
    assert(after =~= after.subrange(0, installed.len() as int));
}

/// After an install of `requested` commits, every package of its closure is
/// in the store, and each record it added is `Explicit` exactly when it is
/// the requested package and `Dependency` otherwise.
pub proof fn lemma_install_closure_complete(
    c: Seq<PackageInfo>,
    before: Seq<InstalledPackageInfo>,
    requested: Seq<char>,
    plan: Seq<Seq<char>>,
    files: Seq<Seq<Seq<char>>>,
    after: Seq<InstalledPackageInfo>,
)
    requires
        forall|x: Seq<char>| plan.contains(x) <==> (reachable(c, requested, x) && !record_names(before).contains(x)),
        install_committed(c, before, plan, requested, files, after),
    ensures
        forall|x: Seq<char>| reachable(c, requested, x) ==> record_names(after).contains(x),
        forall|k: int| before.len() <= k < after.len() ==>
            ((#[trigger] after[k]).install_reason == InstallReason::Explicit <==> after[k].name@ == requested),
{
    assert forall|x: Seq<char>| reachable(c, requested, x) implies record_names(after).contains(x) by {
        if record_names(before).contains(x) {
            let t = choose|t: int| 0 <= t < before.len() && record_names(before)[t] == x;
            assert(after.subrange(0, before.len() as int)[t] == before[t]);
            assert(record_names(after)[t] == x);
        } else {
            assert(plan.contains(x));
            let k = choose|k: int| 0 <= k < plan.len() && plan[k] == x;
            assert(record_for(c, plan[k], requested, files[k], after[before.len() + k]));
            assert(record_names(after)[before.len() + k] == x);
        }
    }
    assert forall|k: int| before.len() <= k < after.len() implies
        ((#[trigger] after[k]).install_reason == InstallReason::Explicit <==> after[k].name@ == requested) by {
        let kk = k - before.len();
        assert(record_for(c, plan[kk], requested, files[kk], after[before.len() + kk]));
    }
}

/// When an installed package depends on `a`, it is among the dependents
/// that make `Remove(a)` fail with `DependencyInUse`.
pub proof fn lemma_dependency_protection(
    c: Seq<PackageInfo>,
    installed: Seq<InstalledPackageInfo>,
    a: Seq<char>,
    b: int,
)
    requires
        0 <= b < installed.len(),
        installed[b].name@ != a,
        depends_on(c, installed[b].name@, a),
    ensures
        dependents_of(c, installed, a).contains(installed[b].name@),
        dependents_of(c, installed, a).len() > 0,
    decreases installed.len(),
{
    let d = dependents_of(c, installed, a);
    if b == installed.len() - 1 {
        assert(d.last() == installed[b].name@);
    } else {
        let rest = installed.drop_last();
        assert(rest[b] == installed[b]);
        lemma_dependency_protection(c, rest, a, b);
        let rd = dependents_of(c, rest, a);
        let t = choose|t: int| 0 <= t < rd.len() && rd[t] == installed[b].name@;
        if d != rd {
            assert(d[t] == rd[t]);
        }
    }
}

} // verus!
