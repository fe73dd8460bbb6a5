//! Small string operations used by paths, hook patterns and digests.

use vstd::prelude::*;
use vstd::string::StrSliceExecFns;
use vstd::string::StringExecFns;

verus! {

/// `s` with every `'*'` taken out.
pub open spec fn without_stars(s: Seq<char>) -> Seq<char> {
    s.filter(|ch: char| ch != '*')
}

/// True when `p` is a prefix of `s`.
pub fn has_prefix(s: &str, p: &str) -> (r: bool)
    ensures
        r == p@.is_prefix_of(s@),
{
    let sl = s.unicode_len();
    let pl = p.unicode_len();
    if pl > sl {
        return false;
    }
    let mut i: usize = 0;
    while i < pl
        invariant
            pl == p@.len(),
            sl == s@.len(),
            pl <= sl,
            i <= pl,
            forall|j: int| 0 <= j < i ==> p@[j] == s@[j],
        decreases pl - i,
    {
        if p.get_char(i) != s.get_char(i) {
            return false;
        }
        i = i + 1;
    }
    assert(p@ =~= s@.subrange(0, p@.len() as int));
    true
}

/// Removes every `'*'` from `s`.
pub fn strip_stars(s: &str) -> (r: String)
    ensures
        r@ == without_stars(s@),
{
    let n = s.unicode_len();
    let mut out = String::new();
    let mut i: usize = 0;
    while i < n
        invariant
            n == s@.len(),
            i <= n,
            out@ == without_stars(s@.subrange(0, i as int)),
        decreases n - i,
    {
        let ch = s.get_char(i);
        proof {
            assert(s@.subrange(0, i + 1) =~= s@.subrange(0, i as int).push(ch));
            s@.subrange(0, i as int).lemma_filter_push(ch, |c: char| c != '*');
        }
        if ch != '*' {
            let piece = s.substring_char(i, i + 1);
            assert(piece@ =~= seq![ch]);
            out.append(piece);
        }
        i = i + 1;
    }
    assert(s@.subrange(0, n as int) =~= s@);
    out
}

/// Concatenates three strings.
pub fn concat3(a: &str, b: &str, c: &str) -> (r: String)
    ensures
        r@ == a@ + b@ + c@,
{
    let mut out = String::from_str(a);
    out.append(b);
    out.append(c);
    out
}

/// Joins a directory and a relative path with a single `'/'`.
pub open spec fn joined(base: Seq<char>, rel: Seq<char>) -> Seq<char> {
    if base.len() > 0 && base.last() == '/' {
        base + rel
    } else {
        base + seq!['/'] + rel
    }
}

/// Joins a directory and a relative path with a single `'/'`.
pub fn join_path(base: &str, rel: &str) -> (r: String)
    ensures
        r@ == joined(base@, rel@),
{
    let n = base.unicode_len();
    if n > 0 && base.get_char(n - 1) == '/' {
        let mut out = String::from_str(base);
        out.append(rel);
        out
    } else {
        proof {
            reveal_strlit("/");
        }
        let r = concat3(base, "/", rel);
        assert(r@ =~= base@ + seq!['/'] + rel@);
        r
    }
}

} // verus!
