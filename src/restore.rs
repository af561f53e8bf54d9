//! The restore side: which backup versions exist, which items a version
//! holds, and where they go back to.

use vstd::prelude::*;
use crate::backup::{BackupConfig, CleanupStats};
use crate::label::{lemma_seq_lt_asymmetric, seq_lt, str_lt};
use crate::matcher::{PatternMatcher, clean_spec, selected_spec};
use crate::paths::{extend_path, strict_ancestor};
use crate::scan::{Entry, claim_targets, claimed, claimed_upto, distinct_paths};

verus! {

/// Whether `name` reads as a timestamp in the `YYYYMMDD_HHMMSS` format.
pub uninterp spec fn parses_as_timestamp(name: Seq<char>) -> bool;

/// Relies on `chrono::NaiveDateTime::parse_from_str` with the format
/// `%Y%m%d_%H%M%S`: whether parsing succeeds depends on the text alone.
#[verifier::external_body]
fn is_timestamp_name(name: &str) -> (r: bool)
    ensures
        r == parses_as_timestamp(name@),
{
    chrono::NaiveDateTime::parse_from_str(name, "%Y%m%d_%H%M%S").is_ok()
}

/// One backup version: its label and the directory that holds it.
pub struct BackupVersion {
    pub label: String,
    pub path: Vec<String>,
}

/// The number of names in `s` that read as timestamps.
pub open spec fn count_timestamps(s: Seq<Seq<char>>) -> nat
    decreases s.len(),
{
    if s.len() == 0 {
        0
    } else {
        count_timestamps(s.drop_last()) + if parses_as_timestamp(s.last()) { 1nat } else { 0nat }
    }
}

/// Each label is not below the next one in string order.
pub open spec fn sorted_descending(vs: Seq<BackupVersion>) -> bool {
    forall|k: int| 0 <= k < vs.len() - 1 ==> !seq_lt(#[trigger] vs[k].label@, vs[k + 1].label@)
}

/// The version named `name` under `root`.
pub open spec fn version_at(v: BackupVersion, root: Seq<Seq<char>>, name: Seq<char>) -> bool {
    v.label@ == name && v.path.deep_view() == root.push(name)
}

/// The versions that a restore can choose from. None when backups are off or
/// the backup directory `root` does not exist. Without versioning, the one
/// version "current", which is `root` itself. With versioning, one version per
/// subdirectory of `root` (named in `subdirs`) whose name reads as a
/// timestamp, newest first.
pub fn list_versions(backup: &BackupConfig, root: &Vec<String>, root_exists: bool, subdirs: &Vec<String>) -> (r: Vec<BackupVersion>)
    ensures
        !backup.enabled || !root_exists ==> r@.len() == 0,
        backup.enabled && root_exists && !backup.versioning ==> r@.len() == 1
            && r@[0].label@ == "current"@ && r@[0].path.deep_view() == root.deep_view(),
        backup.enabled && root_exists && backup.versioning ==> {
            &&& r@.len() == count_timestamps(subdirs.deep_view())
            &&& sorted_descending(r@)
            &&& forall|k: int| 0 <= k < r@.len() ==> parses_as_timestamp(#[trigger] r@[k].label@)
                && exists|j: int| 0 <= j < subdirs@.len() && version_at(r@[k], root.deep_view(), #[trigger] subdirs@[j]@)
            &&& forall|j: int| 0 <= j < subdirs@.len() && parses_as_timestamp(#[trigger] subdirs@[j]@)
                ==> exists|k: int| 0 <= k < r@.len() && version_at(r@[k], root.deep_view(), subdirs@[j]@)
        },
{
    let mut out: Vec<BackupVersion> = Vec::new();
    if !backup.enabled || !root_exists {
        return out;
    }
    if !backup.versioning {
        let path = extend_path(&Vec::new(), root);
        assert(path.deep_view() =~= root.deep_view());
        out.push(BackupVersion { label: String::from_str("current"), path });
        return out;
    }
    let mut j: usize = 0;
    while j < subdirs.len()
        invariant
            j <= subdirs@.len(),
            out@.len() == count_timestamps(subdirs.deep_view().take(j as int)),
            sorted_descending(out@),
            forall|k: int| 0 <= k < out@.len() ==> parses_as_timestamp(#[trigger] out@[k].label@)
                && exists|i: int| 0 <= i < j && version_at(out@[k], root.deep_view(), #[trigger] subdirs@[i]@),
            forall|i: int| 0 <= i < j && parses_as_timestamp(#[trigger] subdirs@[i]@)
                ==> exists|k: int| 0 <= k < out@.len() && version_at(out@[k], root.deep_view(), subdirs@[i]@),
        decreases subdirs@.len() - j,
    {
        assert(subdirs.deep_view().take(j as int + 1).drop_last() =~= subdirs.deep_view().take(j as int));
        let name = &subdirs[j];
        if is_timestamp_name(name.as_str()) {
            let mut one: Vec<String> = Vec::new();
            one.push(name.clone());
            assert(one.deep_view() =~= seq![name@]);
            let path = extend_path(root, &one);
            assert(path.deep_view() =~= root.deep_view().push(name@));
            let v = BackupVersion { label: name.clone(), path };
            assert(version_at(v, root.deep_view(), subdirs@[j as int]@));
            let ghost before = out@;
            let p = insert_descending(&mut out, v);
            assert forall|k: int| 0 <= k < out@.len() implies parses_as_timestamp(#[trigger] out@[k].label@)
                && exists|i: int| 0 <= i < j + 1 && version_at(out@[k], root.deep_view(), #[trigger] subdirs@[i]@) by {
                if k < p {
                    assert(out@[k] == before[k]);
                } else if k == p {
                    assert(version_at(out@[k], root.deep_view(), subdirs@[j as int]@));
                } else {
                    assert(out@[k] == before[k - 1]);
                }
            }
            assert forall|i: int| 0 <= i < j + 1 && parses_as_timestamp(#[trigger] subdirs@[i]@)
                implies exists|k: int| 0 <= k < out@.len() && version_at(out@[k], root.deep_view(), subdirs@[i]@) by {
                if i == j {
                    assert(version_at(out@[p as int], root.deep_view(), subdirs@[i]@));
                } else {
                    let k = choose|k: int| 0 <= k < before.len() && version_at(before[k], root.deep_view(), subdirs@[i]@);
                    if k < p {
                        assert(out@[k] == before[k]);
                    } else {
                        assert(out@[k + 1] == before[k]);
                    }
                }
            }
        }
        j = j + 1;
    }
    assert(subdirs.deep_view().take(j as int) =~= subdirs.deep_view());
    out
}

/// Inserts `v` before the first version whose label is below its own,
/// keeping the list in descending label order; returns the position.
fn insert_descending(out: &mut Vec<BackupVersion>, v: BackupVersion) -> (p: usize)
    requires
        sorted_descending(old(out)@),
    ensures
        p <= old(out)@.len(),
        final(out)@ == old(out)@.insert(p as int, v),
        sorted_descending(final(out)@),
{
    let mut p: usize = 0;
    while p < out.len() && !str_lt(out[p].label.as_str(), v.label.as_str())
        invariant
            p <= out@.len(),
            forall|q: int| 0 <= q < p ==> !seq_lt(#[trigger] out@[q].label@, v.label@),
        decreases out@.len() - p,
    {
        p = p + 1;
    }
    let ghost before = out@;
    let ghost name = v.label@;
    out.insert(p, v);
    assert forall|k: int| 0 <= k < out@.len() - 1 implies !seq_lt(#[trigger] out@[k].label@, out@[k + 1].label@) by {
        if k + 1 < p {
            assert(out@[k] == before[k] && out@[k + 1] == before[k + 1]);
        } else if k + 1 == p {
            assert(out@[k] == before[k]);
        } else if k == p {
            assert(seq_lt(before[k].label@, name));
            lemma_seq_lt_asymmetric(before[k].label@, name);
        } else {
            assert(out@[k] == before[k - 1] && out@[k + 1] == before[k]);
        }
    }
    p
}

/// One item of a backup version and where it goes back to.
pub struct RestorableItem {
    pub relative_path: Vec<String>,
    pub target_path: Vec<String>,
}

/// `item` is entry `e` of a version, restored under `source_dir`.
pub open spec fn restores_entry(item: RestorableItem, source_dir: Seq<Seq<char>>, e: Entry) -> bool {
    &&& item.relative_path.deep_view() == e.path.deep_view()
    &&& item.target_path.deep_view() == source_dir + e.path.deep_view()
}

/// `item` restores some claimed entry of the version.
pub open spec fn from_version_entry(m: &PatternMatcher, es: Seq<Entry>, source_dir: Seq<Seq<char>>, item: RestorableItem) -> bool {
    exists|i: int| 0 <= i < es.len() && claimed(m, es, false, i) && restores_entry(item, source_dir, #[trigger] es[i])
}

/// The items of a version: the entries of its walked tree (paths relative to
/// the version root) that the target patterns match, without any inside
/// another one, each going back to the same place under `source_dir`.
pub fn resolve_items(m: &PatternMatcher, entries: &Vec<Entry>, source_dir: &Vec<String>) -> (r: Vec<RestorableItem>)
    ensures
        forall|k: int| 0 <= k < r@.len() ==> from_version_entry(m, entries@, source_dir.deep_view(), #[trigger] r@[k]),
        forall|i: int| 0 <= i < entries@.len() && claimed(m, entries@, false, i) ==> exists|k: int|
            0 <= k < r@.len() && restores_entry(#[trigger] r@[k], source_dir.deep_view(), entries@[i]),
        forall|a: int, b: int| 0 <= a < r@.len() && 0 <= b < r@.len() ==>
            !strict_ancestor(#[trigger] r@[a].relative_path.deep_view(), #[trigger] r@[b].relative_path.deep_view()),
        r@.len() == claimed_upto(m, entries@, false, entries@.len() as int).len(),
        forall|k: int| 0 <= k < r@.len() ==> restores_entry(#[trigger] r@[k], source_dir.deep_view(),
            entries@[claimed_upto(m, entries@, false, entries@.len() as int)[k] as int]),
        distinct_paths(entries@) ==> forall|a: int, b: int| 0 <= a < b < r@.len() ==>
            #[trigger] r@[a].relative_path.deep_view() != #[trigger] r@[b].relative_path.deep_view(),
{
    let idx = claim_targets(m, entries, false);
    let mut r: Vec<RestorableItem> = Vec::new();
    let mut k: usize = 0;
    while k < idx.len()
        invariant
            k <= idx@.len(),
            r@.len() == k,
            forall|c: int| 0 <= c < idx@.len() ==> idx@[c] < entries@.len() && claimed(m, entries@, false, #[trigger] idx@[c] as int),
            forall|c: int| 0 <= c < k ==> restores_entry(#[trigger] r@[c], source_dir.deep_view(), entries@[idx@[c] as int]),
        decreases idx@.len() - k,
    {
        let e = &entries[idx[k]];
        let relative_path = extend_path(&Vec::new(), &e.path);
        assert(relative_path.deep_view() =~= e.path.deep_view());
        let target_path = extend_path(source_dir, &e.path);
        r.push(RestorableItem { relative_path, target_path });
        k = k + 1;
    }
    assert forall|k: int| 0 <= k < r@.len() implies from_version_entry(m, entries@, source_dir.deep_view(), #[trigger] r@[k]) by {
        assert(claimed(m, entries@, false, idx@[k] as int));
        assert(restores_entry(r@[k], source_dir.deep_view(), entries@[idx@[k] as int]));
    }
    assert forall|i: int| 0 <= i < entries@.len() && claimed(m, entries@, false, i) implies exists|c: int|
        0 <= c < r@.len() && restores_entry(#[trigger] r@[c], source_dir.deep_view(), entries@[i]) by {
        let c = choose|c: int| 0 <= c < idx@.len() && idx@[c] == i;
        assert(restores_entry(r@[c], source_dir.deep_view(), entries@[i]));
    }
    assert forall|a: int, b: int| 0 <= a < r@.len() && 0 <= b < r@.len() implies
        !strict_ancestor(#[trigger] r@[a].relative_path.deep_view(), #[trigger] r@[b].relative_path.deep_view()) by {
        assert(claimed(m, entries@, false, idx@[b] as int));
    }
    proof {
        if distinct_paths(entries@) {
            assert forall|a: int, b: int| 0 <= a < b < r@.len() implies
                #[trigger] r@[a].relative_path.deep_view() != #[trigger] r@[b].relative_path.deep_view() by {
                assert(idx@[a] < idx@[b]);
            }
        }
    }
    r
}

/// Counts the copies of a restore that succeeded and those that failed.
pub fn tally_restore(copied: &Vec<bool>) -> (r: CleanupStats)
    ensures
        r.success_count + r.error_count == copied@.len(),
        r.success_count == count_true(copied@),
{
    let mut success_count: usize = 0;
    let mut error_count: usize = 0;
    let mut i: usize = 0;
    while i < copied.len()
        invariant
            i <= copied@.len(),
            success_count == count_true(copied@.take(i as int)),
            success_count + error_count == i,
        decreases copied@.len() - i,
    {
        assert(copied@.take(i as int + 1).drop_last() =~= copied@.take(i as int));
        if copied[i] {
            success_count = success_count + 1;
        } else {
            error_count = error_count + 1;
        }
        i = i + 1;
    }
    assert(copied@.take(i as int) =~= copied@);
    CleanupStats { success_count, error_count }
}

/// The number of `true` values.
pub open spec fn count_true(s: Seq<bool>) -> nat
    decreases s.len(),
{
    if s.len() == 0 {
        0
    } else {
        count_true(s.drop_last()) + if s.last() { 1nat } else { 0nat }
    }
}

/// A relocated target comes back where it was: a target at `source_dir + rel`
/// is backed up at `root + rel` (the destination that cleanup plans); read
/// back relative to the version root `root` that is `rel` again, restore
/// sends it to `source_dir + rel`, the target's own path, and the target
/// patterns that selected it select it again.
pub proof fn lemma_round_trip(m: &PatternMatcher, source_dir: Seq<Seq<char>>, root: Seq<Seq<char>>, rel: Seq<Seq<char>>, is_dir: bool)
    requires
        selected_spec(m, rel, is_dir),
    ensures
        ({
            let destination = root + (source_dir + rel).skip(source_dir.len() as int);
            let relative = destination.skip(root.len() as int);
            &&& relative == rel
            &&& source_dir + relative == source_dir + rel
            &&& clean_spec(m, relative, is_dir)
        }),
{
    assert((source_dir + rel).skip(source_dir.len() as int) =~= rel);
    assert((root + rel).skip(root.len() as int) =~= rel);
}

/// A cleaned target is found again when its version is resolved: if entry `i`
/// of a scan `es` was claimed, and the version's walk `vs` holds it at the
/// same relative path with the same kind (entry `v`), and each proper
/// ancestor of it in `vs` is a directory that the scan also walked as a
/// directory, then restore claims entry `v`, so it goes back to where it was.
pub proof fn lemma_cleaned_target_is_restored(m: &PatternMatcher, es: Seq<Entry>, i: int, vs: Seq<Entry>, v: int)
    requires
        0 <= i < es.len(),
        claimed(m, es, true, i),
        0 <= v < vs.len(),
        vs[v].path.deep_view() == es[i].path.deep_view(),
        vs[v].is_directory == es[i].is_directory,
        forall|j: int| 0 <= j < vs.len() && #[trigger] strict_ancestor(vs[j].path.deep_view(), vs[v].path.deep_view())
            ==> vs[j].is_directory && exists|e: int| 0 <= e < es.len() && es[e].is_directory
                && #[trigger] es[e].path.deep_view() == vs[j].path.deep_view(),
    ensures
        claimed(m, vs, false, v),
{
    let p = es[i].path.deep_view();
    assert forall|j: int| 0 <= j < vs.len() && #[trigger] crate::scan::entry_selected(m, vs, false, j)
        implies !strict_ancestor(vs[j].path.deep_view(), vs[v].path.deep_view()) by {
        if strict_ancestor(vs[j].path.deep_view(), vs[v].path.deep_view()) {
            let a = vs[j].path.deep_view();
            let e = choose|e: int| 0 <= e < es.len() && es[e].is_directory && #[trigger] es[e].path.deep_view() == a;
            assert(clean_spec(m, es[e].path.deep_view(), es[e].is_directory));
            assert(!crate::scan::entry_selected(m, es, true, e));
            assert(crate::matcher::exception_spec(m, a, true));
            let k = choose|k: int| 0 <= k <= a.len() && #[trigger] crate::matcher::protected_at(m, a, k);
            assert(p.take(k) =~= a.take(k)) by {
                assert forall|x: int| 0 <= x < k implies p.take(k)[x] == a.take(k)[x] by {
                    assert(p.take(a.len() as int)[x] == a[x]);
                }
            }
            assert(crate::matcher::protected_at(m, p, k));
            assert(crate::matcher::exception_spec(m, p, es[i].is_directory));
        }
    }
}

} // verus!
