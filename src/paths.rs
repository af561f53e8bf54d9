//! Paths as sequences of components, and their '/'-joined string form.

use vstd::prelude::*;

verus! {

/// The string form of a path: its components joined by '/'.
pub open spec fn join_spec(c: Seq<Seq<char>>) -> Seq<char>
    decreases c.len(),
{
    if c.len() == 0 {
        Seq::empty()
    } else if c.len() == 1 {
        c[0]
    } else {
        join_spec(c.drop_last()) + seq!['/'] + c.last()
    }
}

/// `a` is a proper ancestor of `b`: a strict prefix of its components.
pub open spec fn strict_ancestor(a: Seq<Seq<char>>, b: Seq<Seq<char>>) -> bool {
    a.len() < b.len() && b.take(a.len() as int) =~= a
}

/// `a` is `b` or one of its ancestors.
pub open spec fn ancestor_or_self(a: Seq<Seq<char>>, b: Seq<Seq<char>>) -> bool {
    a.len() <= b.len() && b.take(a.len() as int) =~= a
}

/// The '/'-joined form of the first `k` components of `parts`.
pub fn join_prefix(parts: &Vec<String>, k: usize) -> (r: String)
    requires
        k <= parts@.len(),
    ensures
        r@ == join_spec(parts.deep_view().take(k as int)),
{
    let mut acc = String::new();
    let mut i: usize = 0;
    while i < k
        invariant
            i <= k,
            k <= parts@.len(),
            acc@ == join_spec(parts.deep_view().take(i as int)),
        decreases k - i,
    {
        let ghost prev = parts.deep_view().take(i as int);
        let ghost next = parts.deep_view().take(i as int + 1);
        assert(next.drop_last() =~= prev);
        if i > 0 {
            proof {
                reveal_strlit("/");
            }
            acc.append("/");
        }
        acc.append(parts[i].as_str());
        proof {
            if i == 0 {
                assert(acc@ =~= next[0]);
            } else {
                assert(acc@ =~= join_spec(prev) + seq!['/'] + next.last());
            }
        }
        i = i + 1;
    }
    acc
}

/// The '/'-joined form of the whole path.
pub fn join(parts: &Vec<String>) -> (r: String)
    ensures
        r@ == join_spec(parts.deep_view()),
{
    let r = join_prefix(parts, parts.len());
    assert(parts.deep_view().take(parts@.len() as int) =~= parts.deep_view());
    r
}

/// Whether two paths have equal components at every position below `n`.
fn same_prefix(a: &Vec<String>, b: &Vec<String>, n: usize) -> (r: bool)
    requires
        n <= a@.len(),
        n <= b@.len(),
    ensures
        r == (a.deep_view().take(n as int) =~= b.deep_view().take(n as int)),
{
    let mut i: usize = 0;
    while i < n
        invariant
            i <= n,
            n <= a@.len(),
            n <= b@.len(),
            forall|j: int| 0 <= j < i ==> a.deep_view()[j] == b.deep_view()[j],
        decreases n - i,
    {
        if a[i] != b[i] {
            assert(a.deep_view().take(n as int)[i as int] != b.deep_view().take(n as int)[i as int]);
            return false;
        }
        i = i + 1;
    }
    true
}

/// Whether `a` is a proper ancestor of `b`.
pub fn is_strict_ancestor(a: &Vec<String>, b: &Vec<String>) -> (r: bool)
    ensures
        r == strict_ancestor(a.deep_view(), b.deep_view()),
{
    if a.len() >= b.len() {
        return false;
    }
    let r = same_prefix(a, b, a.len());
    assert(a.deep_view().take(a@.len() as int) =~= a.deep_view());
    r
}

/// The components of `base` followed by those of `rel`.
pub fn extend_path(base: &Vec<String>, rel: &Vec<String>) -> (r: Vec<String>)
    ensures
        r.deep_view() =~= base.deep_view() + rel.deep_view(),
{
    let mut r: Vec<String> = Vec::new();
    let mut i: usize = 0;
    while i < base.len()
        invariant
            i <= base@.len(),
            r.deep_view() =~= base.deep_view().take(i as int),
        decreases base@.len() - i,
    {
        let ghost before = r.deep_view();
        r.push(base[i].clone());
        assert(r.deep_view() =~= before.push(base.deep_view()[i as int]));
        i = i + 1;
    }
    let mut j: usize = 0;
    while j < rel.len()
        invariant
            i == base@.len(),
            j <= rel@.len(),
            r.deep_view() =~= base.deep_view() + rel.deep_view().take(j as int),
        decreases rel@.len() - j,
    {
        let ghost before = r.deep_view();
        r.push(rel[j].clone());
        assert(r.deep_view() =~= before.push(rel.deep_view()[j as int]));
        j = j + 1;
    }
    r
}

/// The path of `path` relative to `base`, when `base` is `path` or one of its ancestors.
pub fn strip_prefix(path: &Vec<String>, base: &Vec<String>) -> (r: Option<Vec<String>>)
    ensures
        r is Some <==> ancestor_or_self(base.deep_view(), path.deep_view()),
        r is Some ==> r->Some_0.deep_view() =~= path.deep_view().skip(base@.len() as int),
{
    if base.len() > path.len() {
        return None;
    }
    if !same_prefix(base, path, base.len()) {
        assert(!ancestor_or_self(base.deep_view(), path.deep_view())) by {
            assert(base.deep_view().take(base@.len() as int) =~= base.deep_view());
        }
        return None;
    }
    assert(base.deep_view().take(base@.len() as int) =~= base.deep_view());
    let mut r: Vec<String> = Vec::new();
    let mut i: usize = base.len();
    while i < path.len()
        invariant
            base@.len() <= i <= path@.len(),
            r.deep_view() =~= path.deep_view().subrange(base@.len() as int, i as int),
        decreases path@.len() - i,
    {
        let ghost before = r.deep_view();
        r.push(path[i].clone());
        assert(r.deep_view() =~= before.push(path.deep_view()[i as int]));
        i = i + 1;
    }
    Some(r)
}

} // verus!
