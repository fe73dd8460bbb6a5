//! Dependency resolution: the closure of a package under "depends on".

use vstd::prelude::*;
use vstd::set_lib::{lemma_int_range, lemma_len_subset, set_int_range};
use crate::catalog::{depends_on, has_name, names_unique, Catalog};
use crate::types::{FluxError, PackageInfo};

verus! {

/// `p` is a chain of names, each depending on the next.
pub open spec fn is_dep_path(c: Seq<PackageInfo>, p: Seq<Seq<char>>) -> bool {
    &&& p.len() >= 1
    &&& forall|i: int| 0 <= i < p.len() - 1 ==> #[trigger] depends_on(c, p[i], p[i + 1])
}

/// `n` is `root` or one of its transitive dependencies.
pub open spec fn reachable(c: Seq<PackageInfo>, root: Seq<char>, n: Seq<char>) -> bool {
    exists|p: Seq<Seq<char>>| #[trigger] is_dep_path(c, p) && p[0] == root && p.last() == n
}

/// Every reachable name has a catalog entry.
pub open spec fn closure_resolvable(c: Seq<PackageInfo>, root: Seq<char>) -> bool {
    forall|n: Seq<char>| #[trigger] reachable(c, root, n) ==> has_name(c, n)
}

/// `s` holds every dependency of each of its members.
pub open spec fn closed_under_deps(c: Seq<PackageInfo>, s: Set<Seq<char>>) -> bool {
    forall|a: Seq<char>, b: Seq<char>| s.contains(a) && #[trigger] depends_on(c, a, b) ==> s.contains(b)
}

proof fn lemma_path_stays_in_closed(c: Seq<PackageInfo>, s: Set<Seq<char>>, p: Seq<Seq<char>>)
    requires
        closed_under_deps(c, s),
        is_dep_path(c, p),
        s.contains(p[0]),
    ensures
        s.contains(p.last()),
    decreases p.len(),
{
    if p.len() > 1 {
        let q = p.drop_last();
        assert forall|i: int| 0 <= i < q.len() - 1 implies #[trigger] depends_on(c, q[i], q[i + 1]) by {
            assert(depends_on(c, p[i], p[i + 1]));
        }
        lemma_path_stays_in_closed(c, s, q);
        let i = p.len() - 2;
        assert(depends_on(c, p[i], p[i + 1]));
        assert(q.last() == p[i]);
    }
}

proof fn lemma_extend_path(c: Seq<PackageInfo>, root: Seq<char>, a: Seq<char>, b: Seq<char>)
    requires
        reachable(c, root, a),
        depends_on(c, a, b),
    ensures
        reachable(c, root, b),
{
    let p = choose|p: Seq<Seq<char>>| #[trigger] is_dep_path(c, p) && p[0] == root && p.last() == a;
    let q = p.push(b);
    assert forall|i: int| 0 <= i < q.len() - 1 implies #[trigger] depends_on(c, q[i], q[i + 1]) by {
        if i < p.len() - 1 {
            assert(depends_on(c, p[i], p[i + 1]));
        }
    }
    assert(is_dep_path(c, q));
}

proof fn lemma_root_reachable(c: Seq<PackageInfo>, root: Seq<char>)
    ensures
        reachable(c, root, root),
{
    let p = seq![root];
    assert(is_dep_path(c, p));
}

/// Computes the dependency closure of `pkg_name`: the package itself and
/// every transitive dependency, each once. Cycles are allowed and end the
/// walk like any other already-seen name.
pub fn resolve_dependencies(pkg_name: &String, catalog: &Catalog) -> (r: Result<Vec<String>, FluxError>)
    requires
        catalog.wf(),
    ensures
        r.is_ok() <==> closure_resolvable(catalog.packages@, pkg_name@),
        match r {
            Ok(v) => {
                &&& v.deep_view().no_duplicates()
                &&& forall|n: Seq<char>| v.deep_view().contains(n) <==> reachable(catalog.packages@, pkg_name@, n)
            },
            Err(FluxError::PackageNotFound(m)) => {
                reachable(catalog.packages@, pkg_name@, m@) && !has_name(catalog.packages@, m@)
            },
            Err(_) => false,
        },
{
    let ghost c = catalog.packages@;
    let n = catalog.packages.len();
    proof {
        lemma_root_reachable(c, pkg_name@);
        lemma_int_range(0, n as int);
    }
    let root_idx = match catalog.find(pkg_name) {
        None => return Err(FluxError::PackageNotFound(pkg_name.clone())),
        Some(i) => i,
    };
    let mut marked: Vec<bool> = Vec::new();
    let mut z: usize = 0;
    while z < n
        invariant
            z <= n,
            marked@.len() == z,
            forall|j: int| 0 <= j < z ==> !marked@[j],
        decreases n - z,
    {
        marked.push(false);
        z = z + 1;
    }
    marked.set(root_idx, true);
    let mut work: Vec<usize> = Vec::new();
    work.push(root_idx);
    let ghost mut mset: Set<int> = set![root_idx as int];
    proof {
        assert(mset.subset_of(set_int_range(0, n as int)));
        lemma_len_subset(mset, set_int_range(0, n as int));
        assert(work@[0] == root_idx);
        assert forall|j: int| 0 <= j < n && marked@[j] implies j == root_idx by {}
    }
    while work.len() > 0
        invariant
            catalog.wf(),
            c == catalog.packages@,
            n == c.len(),
            root_idx < n,
            marked@[root_idx as int],
            c[root_idx as int].name@ == pkg_name@,
            marked@.len() == n,
            mset.finite(),
            mset.len() <= n,
            forall|j: int| 0 <= j < n ==> (marked@[j] <==> mset.contains(j)),
            forall|j: int| mset.contains(j) ==> 0 <= j < n,
            forall|k: int| 0 <= k < work@.len() ==> work@[k] < n && marked@[work@[k] as int],
            forall|j: int| 0 <= j < n && marked@[j] ==> reachable(c, pkg_name@, #[trigger] c[j].name@),
            forall|j: int, d: Seq<char>|
                0 <= j < n && marked@[j] && !work@.contains(j as usize) && #[trigger] c[j].dep_names().contains(d)
                ==> exists|m: int| 0 <= m < n && marked@[m] && c[m].name@ == d,
        decreases n - mset.len(), work@.len(),
    {
        let ghost mset0 = mset;
        let ghost work0 = work@;
        let i = work.pop().unwrap();
        assert(work0[work0.len() - 1] == i);
        assert(work0 == work@.push(i));
        assert forall|j: int| 0 <= j < n && j != i && !work@.contains(j as usize) implies !#[trigger] work0.contains(j as usize) by {
            if work0.contains(j as usize) {
                let t = choose|t: int| 0 <= t < work0.len() && work0[t] == j as usize;
                assert(t < work@.len());
                assert(work@[t] == j as usize);
            }
        }
        assert(reachable(c, pkg_name@, c[i as int].name@));
        match &catalog.packages[i].dependencies {
            None => {},
            Some(deps) => {
                let mut k: usize = 0;
                while k < deps.len()
                    invariant
                        catalog.wf(),
                        c == catalog.packages@,
                        n == c.len(),
                        root_idx < n,
                        marked@[root_idx as int],
                        c[root_idx as int].name@ == pkg_name@,
                        i < n,
                        marked@[i as int],
                        catalog.packages@[i as int].dependencies == Some(*deps),
                        k <= deps@.len(),
                        marked@.len() == n,
                        mset.finite(),
                        mset.len() <= n,
                        forall|j: int| 0 <= j < n ==> (marked@[j] <==> mset.contains(j)),
                        forall|j: int| mset.contains(j) ==> 0 <= j < n,
                        forall|kk: int| 0 <= kk < work@.len() ==> work@[kk] < n && marked@[work@[kk] as int],
                        forall|j: int| 0 <= j < n && marked@[j] ==> reachable(c, pkg_name@, #[trigger] c[j].name@),
                        forall|j: int, d: Seq<char>|
                            0 <= j < n && marked@[j] && j != i && !work@.contains(j as usize) && #[trigger] c[j].dep_names().contains(d)
                            ==> exists|m: int| 0 <= m < n && marked@[m] && c[m].name@ == d,
                        forall|kk: int| 0 <= kk < k ==> exists|m: int| 0 <= m < n && marked@[m] && c[m].name@ == #[trigger] deps@[kk]@,
                        mset0.subset_of(mset),
                        mset.len() > mset0.len() || (mset == mset0 && work@ == work0.drop_last()),
                    decreases deps@.len() - k,
                {
                    assert(c[i as int].dep_names()[k as int] == deps@[k as int]@);
                    assert(depends_on(c, c[i as int].name@, deps@[k as int]@));
                    proof {
                        lemma_extend_path(c, pkg_name@, c[i as int].name@, deps@[k as int]@);
                    }
                    let ghost marked_before = marked@;
                    let found = catalog.find(&deps[k]);
                    if found.is_none() {
                        return Err(FluxError::PackageNotFound(deps[k].clone()));
                    }
                    let m = found.unwrap();
                    {
                        {
                            if !marked[m] {
                                let ghost w1 = work@;
                                marked.set(m, true);
                                work.push(m);
                                proof {
                                    mset = mset.insert(m as int);
                                    assert(work@[work@.len() - 1] == m);
                                    lemma_int_range(0, n as int);
                                    assert(mset.subset_of(set_int_range(0, n as int)));
                                    lemma_len_subset(mset, set_int_range(0, n as int));
                                    assert forall|j: int, d: Seq<char>|
                                        0 <= j < n && marked@[j] && j != i && !work@.contains(j as usize) && #[trigger] c[j].dep_names().contains(d)
                                        implies exists|mm: int| 0 <= mm < n && marked@[mm] && c[mm].name@ == d by {
                                        assert(j != m);
                                        if w1.contains(j as usize) {
                                            let t = choose|t: int| 0 <= t < w1.len() && w1[t] == j as usize;
                                            assert(work@[t] == j as usize);
                                        }
                                        assert(marked_before[j]);
                                        let mm = choose|mm: int| 0 <= mm < n && marked_before[mm] && c[mm].name@ == d;
                                        assert(marked@[mm]);
                                    }
                                }
                            }
                        }
                    }
                    assert(marked@[m as int] && c[m as int].name@ == deps@[k as int]@);
                    proof {
                        assert forall|kk: int| 0 <= kk < k + 1 implies exists|mm: int| 0 <= mm < n && marked@[mm] && c[mm].name@ == #[trigger] deps@[kk]@ by {
                            if kk < k {
                                let mm = choose|mm: int| 0 <= mm < n && marked_before[mm] && c[mm].name@ == deps@[kk]@;
                                assert(marked@[mm]);
                            } else {
                                assert(marked@[m as int]);
                            }
                        }
                    }
                    k = k + 1;
                }
                proof {
                    assert forall|d: Seq<char>| #[trigger] c[i as int].dep_names().contains(d)
                        implies exists|mm: int| 0 <= mm < n && marked@[mm] && c[mm].name@ == d by {
                        let t = choose|t: int| 0 <= t < c[i as int].dep_names().len() && c[i as int].dep_names()[t] == d;
                        assert(c[i as int].dep_names() == deps.deep_view());
                        assert(deps.deep_view().len() == deps@.len());
                        assert(0 <= t < k);
                        assert(deps.deep_view()[t] == deps@[t]@);
                        assert(deps@[t]@ == d);
                        let w = deps@[t]@;
                        assert(exists|mm: int| 0 <= mm < n && marked@[mm] && c[mm].name@ == w);
                    }
                }
            },
        }
    }
    let ghost names = Set::new(|x: Seq<char>| exists|j: int| 0 <= j < n && marked@[j] && c[j].name@ == x);
    proof {
        assert forall|a: Seq<char>, b: Seq<char>| names.contains(a) && #[trigger] depends_on(c, a, b) implies names.contains(b) by {
            let j = choose|j: int| 0 <= j < n && marked@[j] && c[j].name@ == a;
            let i = choose|i: int| 0 <= i < c.len() && c[i].name@ == a && c[i].dep_names().contains(b);
            assert(i == j);
            assert(c[j].dep_names().contains(b));
        }
        assert(names.contains(pkg_name@)) by {
            assert(marked@[root_idx as int]);
        }
        assert forall|x: Seq<char>| #[trigger] reachable(c, pkg_name@, x) implies names.contains(x) by {
            let p = choose|p: Seq<Seq<char>>| #[trigger] is_dep_path(c, p) && p[0] == pkg_name@ && p.last() == x;
            lemma_path_stays_in_closed(c, names, p);
        }
    }
    let mut out: Vec<String> = Vec::new();
    let mut j: usize = 0;
    while j < n
        invariant
            j <= n,
            n == c.len(),
            c == catalog.packages@,
            catalog.wf(),
            marked@.len() == n,
            forall|x: Seq<char>| out.deep_view().contains(x) <==> exists|t: int| 0 <= t < j && marked@[t] && c[t].name@ == x,
            out.deep_view().no_duplicates(),
        decreases n - j,
    {
        if marked[j] {
            let ghost before = out.deep_view();
            proof {
                assert forall|t: int| 0 <= t < j && marked@[t] implies c[t].name@ != c[j as int].name@ by {
                    assert(t != j);
                }
            }
            proof {
                if before.contains(c[j as int].name@) {
                    let t = choose|t: int| 0 <= t < j && marked@[t] && c[t].name@ == c[j as int].name@;
                    assert(false);
                }
            }
            out.push(catalog.packages[j].name.clone());
            proof {
                assert(out.deep_view() =~= before.push(c[j as int].name@));
                assert forall|x: Seq<char>| out.deep_view().contains(x) <==> exists|t: int| 0 <= t < j + 1 && marked@[t] && c[t].name@ == x by {
                    if out.deep_view().contains(x) && x != c[j as int].name@ {
                        let q = choose|q: int| 0 <= q < out.deep_view().len() && out.deep_view()[q] == x;
                        assert(before[q] == x);
                        assert(before.contains(x));
                    }
                    if exists|t: int| 0 <= t < j + 1 && marked@[t] && c[t].name@ == x {
                        if x != c[j as int].name@ {
                            let t = choose|t: int| 0 <= t < j + 1 && marked@[t] && c[t].name@ == x;
                            assert(t < j);
                            assert(before.contains(x));
                            let q = choose|q: int| 0 <= q < before.len() && before[q] == x;
                            assert(out.deep_view()[q] == x);
                        } else {
                            assert(out.deep_view()[before.len() as int] == x);
                        }
                    }
                }
            }
        }
        j = j + 1;
    }
    proof {
        assert forall|x: Seq<char>| out.deep_view().contains(x) <==> reachable(c, pkg_name@, x) by {
            if out.deep_view().contains(x) {
                let t = choose|t: int| 0 <= t < n && marked@[t] && c[t].name@ == x;
                assert(reachable(c, pkg_name@, c[t].name@));
            }
            if reachable(c, pkg_name@, x) {
                assert(names.contains(x));
            }
        }
        assert forall|x: Seq<char>| #[trigger] reachable(c, pkg_name@, x) implies has_name(c, x) by {
            assert(names.contains(x));
        }
    }
    Ok(out)
}

} // verus!
