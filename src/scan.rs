//! Target selection over the entries of a walked tree, the clean summary, and
//! the partition of root entries among workers.

use vstd::prelude::*;
use crate::matcher::{PatternMatcher, clean_spec, protected_at, selected_spec};
use crate::pattern::set_finds;
use crate::paths::{ancestor_or_self, extend_path, is_strict_ancestor, join_spec, strict_ancestor};

verus! {

/// One visited entry of the tree, with its path relative to the scan root.
pub struct Entry {
    pub path: Vec<String>,
    pub is_directory: bool,
}

/// A path selected for cleanup, with where its backup copy goes.
pub struct CleanTarget {
    pub source_path: Vec<String>,
    pub backup_path: Vec<String>,
    pub is_directory: bool,
}

/// Whether entry `i` of `es` is selected by `m`.
/// With `honor_exceptions` off, only the target patterns decide.
pub open spec fn entry_selected(m: &PatternMatcher, es: Seq<Entry>, honor_exceptions: bool, i: int) -> bool {
    if honor_exceptions {
        selected_spec(m, es[i].path.deep_view(), es[i].is_directory)
    } else {
        clean_spec(m, es[i].path.deep_view(), es[i].is_directory)
    }
}

/// Entry `i` is claimed: it is selected, and no selected entry is a proper
/// ancestor of it (such an ancestor takes the whole subtree with it).
pub open spec fn claimed(m: &PatternMatcher, es: Seq<Entry>, honor_exceptions: bool, i: int) -> bool {
    &&& entry_selected(m, es, honor_exceptions, i)
    &&& forall|j: int| 0 <= j < es.len() && #[trigger] entry_selected(m, es, honor_exceptions, j)
            ==> !strict_ancestor(es[j].path.deep_view(), es[i].path.deep_view())
}

/// The target built for entry `e` under the given source and backup roots.
pub open spec fn target_for(t: CleanTarget, source_dir: Seq<Seq<char>>, backup_dir: Seq<Seq<char>>, e: Entry) -> bool {
    &&& t.source_path.deep_view() == source_dir + e.path.deep_view()
    &&& t.backup_path.deep_view() == backup_dir + e.path.deep_view()
    &&& t.is_directory == e.is_directory
}

/// `t` is the target of some claimed entry of `es`.
pub open spec fn from_claimed_entry(m: &PatternMatcher, es: Seq<Entry>, source_dir: Seq<Seq<char>>, backup_dir: Seq<Seq<char>>, t: CleanTarget) -> bool {
    exists|i: int| 0 <= i < es.len() && claimed(m, es, true, i) && target_for(t, source_dir, backup_dir, #[trigger] es[i])
}

/// The indices below `n` of the claimed entries, in increasing order.
pub open spec fn claimed_upto(m: &PatternMatcher, es: Seq<Entry>, honor_exceptions: bool, n: int) -> Seq<usize>
    decreases n,
{
    if n <= 0 {
        Seq::empty()
    } else {
        let prev = claimed_upto(m, es, honor_exceptions, n - 1);
        if claimed(m, es, honor_exceptions, n - 1) {
            prev.push((n - 1) as usize)
        } else {
            prev
        }
    }
}

/// The indices of the claimed entries, in increasing order.
pub fn claim_targets(m: &PatternMatcher, entries: &Vec<Entry>, honor_exceptions: bool) -> (r: Vec<usize>)
    ensures
        r@ == claimed_upto(m, entries@, honor_exceptions, entries@.len() as int),
        forall|k: int| 0 <= k < r@.len() ==> r@[k] < entries@.len() && claimed(m, entries@, honor_exceptions, #[trigger] r@[k] as int),
        forall|k1: int, k2: int| 0 <= k1 < k2 < r@.len() ==> r@[k1] < r@[k2],
        forall|i: int| 0 <= i < entries@.len() && claimed(m, entries@, honor_exceptions, i) ==> exists|k: int| 0 <= k < r@.len() && r@[k] == i,
{
    let n = entries.len();
    let mut sel: Vec<usize> = Vec::new();
    let mut flags: Vec<bool> = Vec::new();
    let mut i: usize = 0;
    while i < n
        invariant
            i <= n,
            n == entries@.len(),
            flags@.len() == i,
            forall|j: int| 0 <= j < i ==> flags@[j] == entry_selected(m, entries@, honor_exceptions, j),
            forall|k: int| 0 <= k < sel@.len() ==> sel@[k] < i && entry_selected(m, entries@, honor_exceptions, #[trigger] sel@[k] as int),
            forall|j: int| 0 <= j < i && entry_selected(m, entries@, honor_exceptions, j) ==> exists|k: int| 0 <= k < sel@.len() && sel@[k] == j,
        decreases n - i,
    {
        let picked = if honor_exceptions {
            m.is_selected(&entries[i].path, entries[i].is_directory)
        } else {
            m.should_clean(&entries[i].path, entries[i].is_directory)
        };
        flags.push(picked);
        if picked {
            let ghost before = sel@;
            sel.push(i);
            assert forall|j: int| 0 <= j < i + 1 && entry_selected(m, entries@, honor_exceptions, j) implies exists|k: int| 0 <= k < sel@.len() && sel@[k] == j by {
                if j == i {
                    assert(sel@[before.len() as int] == j);
                } else {
                    let k = choose|k: int| 0 <= k < before.len() && before[k] == j;
                    assert(sel@[k] == j);
                }
            }
        }
        i = i + 1;
    }
    let mut r: Vec<usize> = Vec::new();
    let mut i: usize = 0;
    while i < n
        invariant
            i <= n,
            n == entries@.len(),
            flags@.len() == n,
            forall|j: int| 0 <= j < n ==> flags@[j] == entry_selected(m, entries@, honor_exceptions, j),
            forall|k: int| 0 <= k < sel@.len() ==> sel@[k] < n && entry_selected(m, entries@, honor_exceptions, #[trigger] sel@[k] as int),
            forall|j: int| 0 <= j < n && entry_selected(m, entries@, honor_exceptions, j) ==> exists|k: int| 0 <= k < sel@.len() && sel@[k] == j,
            r@ == claimed_upto(m, entries@, honor_exceptions, i as int),
            forall|k: int| 0 <= k < r@.len() ==> r@[k] < i && claimed(m, entries@, honor_exceptions, #[trigger] r@[k] as int),
            forall|k1: int, k2: int| 0 <= k1 < k2 < r@.len() ==> r@[k1] < r@[k2],
            forall|j: int| 0 <= j < i && claimed(m, entries@, honor_exceptions, j) ==> exists|k: int| 0 <= k < r@.len() && r@[k] == j,
        decreases n - i,
    {
        let mut keep = false;
        if flags[i] {
            let mut covered = false;
            let mut b: usize = 0;
            while b < sel.len()
                invariant
                    b <= sel@.len(),
                    i < n,
                    n == entries@.len(),
                    forall|k: int| 0 <= k < sel@.len() ==> sel@[k] < n && entry_selected(m, entries@, honor_exceptions, #[trigger] sel@[k] as int),
                    covered ==> !claimed(m, entries@, honor_exceptions, i as int),
                    !covered ==> forall|c: int| 0 <= c < b ==> !strict_ancestor(entries@[#[trigger] sel@[c] as int].path.deep_view(), entries@[i as int].path.deep_view()),
                decreases sel@.len() - b,
            {
                let j = sel[b];
                if !covered && is_strict_ancestor(&entries[j].path, &entries[i].path) {
                    assert(entry_selected(m, entries@, honor_exceptions, j as int));
                    covered = true;
                }
                b = b + 1;
            }
            if !covered {
                assert(claimed(m, entries@, honor_exceptions, i as int)) by {
                    assert forall|j: int| 0 <= j < entries@.len() && #[trigger] entry_selected(m, entries@, honor_exceptions, j)
                        implies !strict_ancestor(entries@[j].path.deep_view(), entries@[i as int].path.deep_view()) by {
                        let c = choose|c: int| 0 <= c < sel@.len() && sel@[c] == j;
                        assert(entries@[sel@[c] as int] == entries@[j]);
                    }
                }
                keep = true;
            }
        }
        assert(keep == claimed(m, entries@, honor_exceptions, i as int));
        if keep {
            let ghost before = r@;
            r.push(i);
            assert forall|k1: int, k2: int| 0 <= k1 < k2 < r@.len() implies r@[k1] < r@[k2] by {
                if k2 == before.len() {
                    assert(r@[k1] == before[k1]);
                }
            }
            assert forall|j: int| 0 <= j < i + 1 && claimed(m, entries@, honor_exceptions, j) implies exists|k: int| 0 <= k < r@.len() && r@[k] == j by {
                if j == i {
                    assert(r@[before.len() as int] == j);
                } else {
                    let k = choose|k: int| 0 <= k < before.len() && before[k] == j;
                    assert(r@[k] == j);
                }
            }
        }
        i = i + 1;
    }
    r
}

/// A common prefix does not change whether one path is a proper ancestor of another.
pub proof fn lemma_strict_ancestor_under(base: Seq<Seq<char>>, a: Seq<Seq<char>>, b: Seq<Seq<char>>)
    ensures
        strict_ancestor(base + a, base + b) == strict_ancestor(a, b),
{
    if strict_ancestor(base + a, base + b) {
        assert forall|i: int| 0 <= i < a.len() implies b.take(a.len() as int)[i] == a[i] by {
            assert((base + b).take((base + a).len() as int)[base.len() + i] == (base + a)[base.len() + i]);
        }
        assert(b.take(a.len() as int) =~= a);
    }
    if strict_ancestor(a, b) {
        assert forall|i: int| 0 <= i < (base + a).len() implies (base + b).take((base + a).len() as int)[i] == (base + a)[i] by {
            if i >= base.len() {
                assert(b.take(a.len() as int)[i - base.len()] == a[i - base.len()]);
            }
        }
        assert((base + b).take((base + a).len() as int) =~= base + a);
    }
}

/// The clean targets of a walked tree: one per claimed entry, in walk order.
/// No target lies inside another.
pub fn collect_targets(
    m: &PatternMatcher,
    source_dir: &Vec<String>,
    backup_dir: &Vec<String>,
    entries: &Vec<Entry>,
) -> (r: Vec<CleanTarget>)
    ensures
        forall|k: int| 0 <= k < r@.len() ==> from_claimed_entry(m, entries@, source_dir.deep_view(), backup_dir.deep_view(), #[trigger] r@[k]),
        forall|i: int| 0 <= i < entries@.len() && claimed(m, entries@, true, i) ==> exists|k: int|
            0 <= k < r@.len() && target_for(#[trigger] r@[k], source_dir.deep_view(), backup_dir.deep_view(), entries@[i]),
        forall|a: int, b: int| 0 <= a < r@.len() && 0 <= b < r@.len() ==>
            !strict_ancestor(#[trigger] r@[a].source_path.deep_view(), #[trigger] r@[b].source_path.deep_view()),
        r@.len() == claimed_upto(m, entries@, true, entries@.len() as int).len(),
        forall|k: int| 0 <= k < r@.len() ==> target_for(#[trigger] r@[k], source_dir.deep_view(), backup_dir.deep_view(),
            entries@[claimed_upto(m, entries@, true, entries@.len() as int)[k] as int]),
        distinct_paths(entries@) ==> forall|a: int, b: int| 0 <= a < b < r@.len() ==>
            #[trigger] r@[a].source_path.deep_view() != #[trigger] r@[b].source_path.deep_view(),
{
    let idx = claim_targets(m, entries, true);
    let mut r: Vec<CleanTarget> = Vec::new();
    let mut k: usize = 0;
    while k < idx.len()
        invariant
            k <= idx@.len(),
            r@.len() == k,
            forall|c: int| 0 <= c < idx@.len() ==> idx@[c] < entries@.len() && claimed(m, entries@, true, #[trigger] idx@[c] as int),
            forall|c: int| 0 <= c < k ==> target_for(#[trigger] r@[c], source_dir.deep_view(), backup_dir.deep_view(), entries@[idx@[c] as int]),
        decreases idx@.len() - k,
    {
        let e = &entries[idx[k]];
        let t = CleanTarget {
            source_path: extend_path(source_dir, &e.path),
            backup_path: extend_path(backup_dir, &e.path),
            is_directory: e.is_directory,
        };
        r.push(t);
        k = k + 1;
    }
    assert forall|k: int| 0 <= k < r@.len() implies from_claimed_entry(m, entries@, source_dir.deep_view(), backup_dir.deep_view(), #[trigger] r@[k]) by {
        assert(claimed(m, entries@, true, idx@[k] as int));
        assert(target_for(r@[k], source_dir.deep_view(), backup_dir.deep_view(), entries@[idx@[k] as int]));
    }
    assert forall|i: int| 0 <= i < entries@.len() && claimed(m, entries@, true, i) implies exists|c: int|
        0 <= c < r@.len() && target_for(#[trigger] r@[c], source_dir.deep_view(), backup_dir.deep_view(), entries@[i]) by {
        let c = choose|c: int| 0 <= c < idx@.len() && idx@[c] == i;
        assert(target_for(r@[c], source_dir.deep_view(), backup_dir.deep_view(), entries@[i]));
    }
    assert forall|a: int, b: int| 0 <= a < r@.len() && 0 <= b < r@.len() implies
        !strict_ancestor(#[trigger] r@[a].source_path.deep_view(), #[trigger] r@[b].source_path.deep_view()) by {
        let ia = idx@[a] as int;
        let ib = idx@[b] as int;
        assert(claimed(m, entries@, true, ib));
        assert(entry_selected(m, entries@, true, ia));
        lemma_strict_ancestor_under(source_dir.deep_view(), entries@[ia].path.deep_view(), entries@[ib].path.deep_view());
    }
    proof {
        if distinct_paths(entries@) {
            assert forall|a: int, b: int| 0 <= a < b < r@.len() implies
                #[trigger] r@[a].source_path.deep_view() != #[trigger] r@[b].source_path.deep_view() by {
                let pa = entries@[idx@[a] as int].path.deep_view();
                let pb = entries@[idx@[b] as int].path.deep_view();
                assert(pa != pb);
                lemma_extension_injective(source_dir.deep_view(), pa, pb);
            }
        }
    }
    r
}

/// No two entries share a path.
pub open spec fn distinct_paths(es: Seq<Entry>) -> bool {
    forall|i: int, j: int| 0 <= i < j < es.len() ==> #[trigger] es[i].path.deep_view() != #[trigger] es[j].path.deep_view()
}

/// Extending a base path by different relative paths gives different paths.
pub proof fn lemma_extension_injective(base: Seq<Seq<char>>, a: Seq<Seq<char>>, b: Seq<Seq<char>>)
    ensures
        a != b ==> base + a != base + b,
{
    assert((base + a).skip(base.len() as int) =~= a);
    assert((base + b).skip(base.len() as int) =~= b);
}

/// The sum of a sequence of sizes.
pub open spec fn sum_sizes(s: Seq<u64>) -> int
    decreases s.len(),
{
    if s.len() == 0 {
        0
    } else {
        sum_sizes(s.drop_last()) + s.last()
    }
}

/// The outcome of a scan: the targets and the sizes that go with them.
pub struct CleanSummary {
    pub total_items: usize,
    pub total_size: u64,
    pub source_total_size: u64,
    pub items: Vec<CleanTarget>,
}

impl CleanSummary {
    /// Builds the summary of `items`, where `sizes[k]` is the size of `items[k]`
    /// (recursive for a directory). `None` when the two lists differ in length
    /// or the total does not fit in 64 bits.
    pub fn new(items: Vec<CleanTarget>, sizes: &Vec<u64>, source_total_size: u64) -> (r: Option<CleanSummary>)
        ensures
            r is Some <==> (sizes@.len() == items@.len() && sum_sizes(sizes@) <= u64::MAX),
            r is Some ==> r->Some_0.total_items == items@.len()
                && r->Some_0.total_size == sum_sizes(sizes@)
                && r->Some_0.source_total_size == source_total_size
                && r->Some_0.items@ == items@,
    {
        if sizes.len() != items.len() {
            return None;
        }
        let mut total: u64 = 0;
        let mut k: usize = 0;
        while k < sizes.len()
            invariant
                k <= sizes@.len(),
                total == sum_sizes(sizes@.take(k as int)),
            decreases sizes@.len() - k,
        {
            assert(sizes@.take(k as int + 1).drop_last() =~= sizes@.take(k as int));
            if total > u64::MAX - sizes[k] {
                proof {
                    lemma_sum_prefix_grows(sizes@, k as int + 1);
                }
                return None;
            }
            total = total + sizes[k];
            k = k + 1;
        }
        assert(sizes@.take(k as int) =~= sizes@);
        let total_items = items.len();
        Some(CleanSummary { total_items, total_size: total, source_total_size, items })
    }

    /// The size that remains of the source tree once the targets are gone.
    pub fn size_after_cleanup(&self) -> (r: u64)
        ensures
            r == if self.source_total_size >= self.total_size { self.source_total_size - self.total_size } else { 0 },
    {
        if self.source_total_size >= self.total_size {
            self.source_total_size - self.total_size
        } else {
            0
        }
    }
}

/// The total of a prefix is at most the total of the whole sequence.
proof fn lemma_sum_prefix_grows(s: Seq<u64>, k: int)
    requires
        0 <= k <= s.len(),
    ensures
        sum_sizes(s.take(k)) <= sum_sizes(s),
    decreases s.len(),
{
    if k < s.len() {
        assert(s.drop_last().take(k) =~= s.take(k));
        lemma_sum_prefix_grows(s.drop_last(), k);
    } else {
        assert(s.take(k) =~= s);
    }
}

/// Splits `n` root entries into consecutive ranges of `max(n / workers, 1)`
/// entries each (the last may be shorter), one range per worker task.
pub fn chunk_ranges(n: usize, workers: usize) -> (r: Vec<(usize, usize)>)
    requires
        workers >= 1,
    ensures
        r@.len() == 0 <==> n == 0,
        r@.len() > 0 ==> r@[0].0 == 0 && r@.last().1 == n,
        forall|k: int| 0 <= k < r@.len() - 1 ==> #[trigger] r@[k].1 == r@[k + 1].0,
        forall|k: int| 0 <= k < r@.len() ==> r@[k].0 < r@[k].1 && #[trigger] r@[k].1 - r@[k].0 <= chunk_len(n as int, workers as int),
        forall|k: int| 0 <= k < r@.len() - 1 ==> #[trigger] r@[k].1 - r@[k].0 == chunk_len(n as int, workers as int),
{
    let size: usize = if n / workers > 1 { n / workers } else { 1 };
    let mut r: Vec<(usize, usize)> = Vec::new();
    let mut start: usize = 0;
    while start < n
        invariant
            start <= n,
            size == chunk_len(n as int, workers as int),
            size >= 1,
            r@.len() == 0 <==> start == 0,
            r@.len() > 0 ==> r@[0].0 == 0 && r@.last().1 == start,
            forall|k: int| 0 <= k < r@.len() - 1 ==> #[trigger] r@[k].1 == r@[k + 1].0,
            forall|k: int| 0 <= k < r@.len() ==> r@[k].0 < r@[k].1 && #[trigger] r@[k].1 - r@[k].0 <= size,
            forall|k: int| 0 <= k < r@.len() - 1 ==> #[trigger] r@[k].1 - r@[k].0 == size,
            r@.len() > 0 && start < n ==> r@.last().1 - r@.last().0 == size,
        decreases n - start,
    {
        let end: usize = if n - start > size { start + size } else { n };
        let ghost before = r@;
        r.push((start, end));
        assert forall|k: int| 0 <= k < r@.len() - 1 implies #[trigger] r@[k].1 == r@[k + 1].0 by {
            if k + 1 < before.len() {
                assert(r@[k] == before[k] && r@[k + 1] == before[k + 1]);
            }
        }
        assert forall|k: int| 0 <= k < r@.len() - 1 implies #[trigger] r@[k].1 - r@[k].0 == size by {
            assert(r@[k] == before[k]);
        }
        start = end;
    }
    r
}

/// The number of entries given to each worker.
pub open spec fn chunk_len(n: int, workers: int) -> int {
    if n / workers > 1 { n / workers } else { 1 }
}

/// Relies on `num_cpus::get`: the number of CPUs available to the process,
/// documented to be at least one.
#[verifier::external_body]
fn available_cpus() -> (r: usize)
    ensures
        r >= 1,
{
    num_cpus::get()
}

/// Splits `n` root entries among workers, one worker per available CPU.
pub fn partition_root_entries(n: usize) -> (r: Vec<(usize, usize)>)
    ensures
        r@.len() == 0 <==> n == 0,
        r@.len() > 0 ==> r@[0].0 == 0 && r@.last().1 == n,
        forall|k: int| 0 <= k < r@.len() - 1 ==> #[trigger] r@[k].1 == r@[k + 1].0,
        forall|k: int| 0 <= k < r@.len() ==> r@[k].0 < #[trigger] r@[k].1,
        exists|w: int| w >= 1 && #[trigger] chunked_by(r@, n as int, w),
{
    let workers = available_cpus();
    let r = chunk_ranges(n, workers);
    assert(chunked_by(r@, n as int, workers as int));
    r
}

/// Every range of `r` holds `chunk_len(n, w)` entries, but the last, which may hold fewer.
pub open spec fn chunked_by(r: Seq<(usize, usize)>, n: int, w: int) -> bool {
    &&& forall|k: int| 0 <= k < r.len() ==> #[trigger] r[k].1 - r[k].0 <= chunk_len(n, w)
    &&& forall|k: int| 0 <= k < r.len() - 1 ==> #[trigger] r[k].1 - r[k].0 == chunk_len(n, w)
}

/// A protected directory shelters its whole subtree: when the ancestor made
/// of the first `k` components of `p` matches a directory exception, no entry
/// at `p` (as a directory) or below it is claimed as a target.
pub proof fn lemma_protected_subtree_never_claimed(m: &PatternMatcher, es: Seq<Entry>, p: Seq<Seq<char>>, k: int, i: int)
    requires
        0 <= k <= p.len(),
        protected_at(m, p, k),
        0 <= i < es.len(),
        ancestor_or_self(p, es[i].path.deep_view()),
        es[i].is_directory || p.len() < es[i].path.deep_view().len(),
    ensures
        !claimed(m, es, true, i),
{
    let q = es[i].path.deep_view();
    assert(q.take(k) =~= p.take(k)) by {
        assert forall|j: int| 0 <= j < k implies q.take(k)[j] == p.take(k)[j] by {
            assert(q.take(p.len() as int)[j] == p[j]);
        }
    }
    assert(protected_at(m, q, k));
}

/// A file that a file exception matches is never claimed as a target.
pub proof fn lemma_protected_file_never_claimed(m: &PatternMatcher, es: Seq<Entry>, i: int)
    requires
        0 <= i < es.len(),
        !es[i].is_directory,
        set_finds(m.file_exceptions@, join_spec(es[i].path.deep_view())),
    ensures
        !claimed(m, es, true, i),
{
}

/// The targets of the entries that `keep` marks, in order, under the given
/// source and backup roots.
pub fn targets_of_marked(
    entries: &Vec<Entry>,
    keep: &Vec<bool>,
    source_dir: &Vec<String>,
    backup_dir: &Vec<String>,
) -> (r: Vec<CleanTarget>)
    requires
        keep@.len() == entries@.len(),
    ensures
        forall|k: int| 0 <= k < r@.len() ==> from_marked(entries@, keep@, entries@.len() as int, source_dir.deep_view(), backup_dir.deep_view(), #[trigger] r@[k]),
        forall|i: int| 0 <= i < entries@.len() && keep@[i] ==> exists|k: int| 0 <= k < r@.len()
            && target_for(#[trigger] r@[k], source_dir.deep_view(), backup_dir.deep_view(), entries@[i]),
{
    let mut r: Vec<CleanTarget> = Vec::new();
    let mut i: usize = 0;
    while i < entries.len()
        invariant
            i <= entries@.len(),
            keep@.len() == entries@.len(),
            forall|k: int| 0 <= k < r@.len() ==> from_marked(entries@, keep@, i as int, source_dir.deep_view(), backup_dir.deep_view(), #[trigger] r@[k]),
            forall|j: int| 0 <= j < i && keep@[j] ==> exists|k: int| 0 <= k < r@.len()
                && target_for(#[trigger] r@[k], source_dir.deep_view(), backup_dir.deep_view(), entries@[j]),
        decreases entries@.len() - i,
    {
        if keep[i] {
            let e = &entries[i];
            let t = CleanTarget {
                source_path: extend_path(source_dir, &e.path),
                backup_path: extend_path(backup_dir, &e.path),
                is_directory: e.is_directory,
            };
            let ghost before = r@;
            r.push(t);
            assert forall|k: int| 0 <= k < r@.len() implies from_marked(entries@, keep@, i + 1, source_dir.deep_view(), backup_dir.deep_view(), #[trigger] r@[k]) by {
                if k < before.len() {
                    assert(r@[k] == before[k]);
                } else {
                    assert(target_for(r@[k], source_dir.deep_view(), backup_dir.deep_view(), entries@[i as int]));
                }
            }
            assert forall|j: int| 0 <= j < i + 1 && keep@[j] implies exists|k: int| 0 <= k < r@.len()
                && target_for(#[trigger] r@[k], source_dir.deep_view(), backup_dir.deep_view(), entries@[j]) by {
                if j == i {
                    assert(target_for(r@[before.len() as int], source_dir.deep_view(), backup_dir.deep_view(), entries@[j]));
                } else {
                    let k = choose|k: int| 0 <= k < before.len()
                        && target_for(#[trigger] before[k], source_dir.deep_view(), backup_dir.deep_view(), entries@[j]);
                    assert(r@[k] == before[k]);
                }
            }
        }
        else {
            assert forall|k: int| 0 <= k < r@.len() implies from_marked(entries@, keep@, i + 1, source_dir.deep_view(), backup_dir.deep_view(), #[trigger] r@[k]) by {
                assert(from_marked(entries@, keep@, i as int, source_dir.deep_view(), backup_dir.deep_view(), r@[k]));
            }
        }
        i = i + 1;
    }
    r
}

/// `t` is the target of an entry below position `bound` that `keep` marks.
pub open spec fn from_marked(es: Seq<Entry>, keep: Seq<bool>, bound: int, source_dir: Seq<Seq<char>>, backup_dir: Seq<Seq<char>>, t: CleanTarget) -> bool {
    exists|i: int| 0 <= i < bound && keep[i] && target_for(t, source_dir, backup_dir, #[trigger] es[i])
}

} // verus!
