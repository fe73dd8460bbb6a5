//! The catalog: package descriptors indexed by name.

use vstd::prelude::*;
use crate::types::PackageInfo;

verus! {

/// True when some entry of `c` is named `n`.
pub open spec fn has_name(c: Seq<PackageInfo>, n: Seq<char>) -> bool {
    exists|i: int| 0 <= i < c.len() && c[i].name@ == n
}

/// Names are unique among the entries.
pub open spec fn names_unique(c: Seq<PackageInfo>) -> bool {
    forall|i: int, j: int|
        0 <= i < c.len() && 0 <= j < c.len() && i != j ==> c[i].name@ != c[j].name@
}

/// True when the entry of `c` named `a` lists `b` among its dependencies.
pub open spec fn depends_on(c: Seq<PackageInfo>, a: Seq<char>, b: Seq<char>) -> bool {
    exists|i: int| 0 <= i < c.len() && c[i].name@ == a && c[i].dep_names().contains(b)
}

/// `p` is the last entry of `s` that bears its name.
pub open spec fn is_last_of_name(s: Seq<PackageInfo>, p: PackageInfo) -> bool {
    exists|i: int|
        0 <= i < s.len() && s[i] == p && forall|k: int| i < k < s.len() ==> s[k].name@ != p.name@
}

/// Package descriptors by name; a later descriptor of the same name
/// replaces an earlier one.
pub struct Catalog {
    pub packages: Vec<PackageInfo>,
}

impl Catalog {
    pub open spec fn wf(&self) -> bool {
        names_unique(self.packages@)
    }

    pub open spec fn contains(&self, n: Seq<char>) -> bool {
        has_name(self.packages@, n)
    }

    /// An empty catalog.
    pub fn new() -> (r: Catalog)
        ensures
            r.wf(),
            r.packages@.len() == 0,
    {
        Catalog { packages: Vec::new() }
    }

    /// Builds a catalog from a descriptor list: every name of the list is in
    /// it once, with the last descriptor the list gives for it.
    pub fn from_packages(pkgs: Vec<PackageInfo>) -> (r: Catalog)
        ensures
            r.wf(),
            forall|n: Seq<char>| r.contains(n) <==> has_name(pkgs@, n),
            forall|j: int| 0 <= j < r.packages@.len() ==> is_last_of_name(pkgs@, #[trigger] r.packages@[j]),
    {
        let ghost orig = pkgs@;
        let mut rest = pkgs;
        let mut out: Vec<PackageInfo> = Vec::new();
        while rest.len() > 0
            invariant
                rest@.len() <= orig.len(),
                rest@ == orig.subrange(0, rest@.len() as int),
                names_unique(out@),
                forall|n: Seq<char>| has_name(out@, n) <==> has_name(orig.subrange(rest@.len() as int, orig.len() as int), n),
                forall|j: int| 0 <= j < out@.len() ==> is_last_of_name(orig, #[trigger] out@[j]),
            decreases rest@.len(),
        {
            let ghost before = rest@;
            let ghost k = before.len() - 1;
            let ghost tail = orig.subrange(k, orig.len() as int);
            let ghost old_tail = orig.subrange(k + 1, orig.len() as int);
            assert(old_tail == orig.subrange(rest@.len() as int, orig.len() as int));
            assert(forall|n: Seq<char>| has_name(out@, n) <==> has_name(old_tail, n));
            let p = rest.pop().unwrap();
            assert(before[k] == orig[k]);
            assert(orig[k] == p);
            let found = find_in(&out, &p.name);
            if found.is_none() {
                proof {
                    assert forall|kk: int| k < kk < orig.len() implies orig[kk].name@ != p.name@ by {
                        if orig[kk].name@ == p.name@ {
                            assert(old_tail[kk - k - 1] == orig[kk]);
                            assert(has_name(old_tail, p.name@));
                        }
                    }
                    assert(orig[k] == p && forall|kk: int| k < kk < orig.len() ==> orig[kk].name@ != p.name@);
                    assert(is_last_of_name(orig, p));
                }
                let ghost out_before = out@;
                out.push(p);
                proof {
                    assert(out@ == out_before.push(p));
                    assert forall|n: Seq<char>| has_name(out@, n) <==> has_name(tail, n) by {
                        if has_name(tail, n) {
                            let i = choose|i: int| 0 <= i < tail.len() && tail[i].name@ == n;
                            if i > 0 {
                                assert(old_tail[i - 1] == tail[i]);
                                assert(has_name(old_tail, n));
                                let j = choose|j: int| 0 <= j < out_before.len() && out_before[j].name@ == n;
                                assert(out@[j].name@ == n);
                            } else {
                                assert(out@[out@.len() - 1].name@ == n);
                            }
                        }
                        if has_name(out@, n) {
                            let j = choose|j: int| 0 <= j < out@.len() && out@[j].name@ == n;
                            if j < out@.len() - 1 {
                                assert(out_before[j].name@ == n);
                                assert(has_name(out_before, n));
                                assert(has_name(old_tail, n));
                                let i = choose|i: int| 0 <= i < old_tail.len() && old_tail[i].name@ == n;
                                assert(tail[i + 1] == old_tail[i]);
                            } else {
                                assert(tail[0] == p);
                            }
                        }
                    }
                }
            } else {
                proof {
                    assert forall|n: Seq<char>| has_name(out@, n) <==> has_name(tail, n) by {
                        if has_name(tail, n) {
                            let i = choose|i: int| 0 <= i < tail.len() && tail[i].name@ == n;
                            if i > 0 {
                                assert(old_tail[i - 1] == tail[i]);
                            }
                        }
                        if has_name(old_tail, n) {
                            let i = choose|i: int| 0 <= i < old_tail.len() && old_tail[i].name@ == n;
                            assert(tail[i + 1] == old_tail[i]);
                        }
                    }
                }
            }
        }
        assert(orig.subrange(0, orig.len() as int) =~= orig);
        Catalog { packages: out }
    }

    /// The position of the entry named `name`, if any.
    pub fn find(&self, name: &String) -> (r: Option<usize>)
        ensures
            match r {
                Some(i) => i < self.packages@.len() && self.packages@[i as int].name@ == name@,
                None => !self.contains(name@),
            },
    {
        find_in(&self.packages, name)
    }

    /// The entry named `name`, if any.
    pub fn get(&self, name: &String) -> (r: Option<&PackageInfo>)
        requires
            self.wf(),
        ensures
            match r {
                Some(p) => p.name@ == name@ && self.packages@.contains(*p),
                None => !self.contains(name@),
            },
    {
        match find_in(&self.packages, name) {
            Some(i) => Some(&self.packages[i]),
            None => None,
        }
    }
}

/// The first position in `v` of an entry named `name`.
pub fn find_in(v: &Vec<PackageInfo>, name: &String) -> (r: Option<usize>)
    ensures
        match r {
            Some(i) => i < v@.len() && v@[i as int].name@ == name@,
            None => !has_name(v@, name@),
        },
{
    let mut i: usize = 0;
    while i < v.len()
        invariant
            i <= v@.len(),
            forall|j: int| 0 <= j < i ==> v@[j].name@ != name@,
        decreases v.len() - i,
    {
        if v[i].name == *name {
            return Some(i);
        }
        i = i + 1;
    }
    None
}

} // verus!
