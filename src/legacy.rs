//! The single-purpose cleaners: one for files, one for directories, each
//! walking the tree with its own pruning rule and backing up into a flat
//! backup directory.

use vstd::prelude::*;
use crate::backup::Config;
use crate::paths::{join, join_prefix, join_spec};
use crate::pattern::{InvalidPattern, PatternSet, regex_accepts, set_finds, subdir_source, subdir_source_spec};
use crate::scan::{CleanTarget, Entry, from_marked, target_for, targets_of_marked};

verus! {

/// Some ancestor of `parts` (the root, the path itself, or one between)
/// matches a pattern of `set`.
pub open spec fn ancestry_matches(set: Seq<Seq<char>>, parts: Seq<Seq<char>>) -> bool {
    exists|k: int| 0 <= k <= parts.len() && #[trigger] set_finds(set, join_spec(parts.take(k)))
}

/// Whether some ancestor of `path`, or `path` itself, matches a pattern of `set`.
fn ancestry_match(set: &PatternSet, path: &Vec<String>) -> (r: bool)
    ensures
        r == ancestry_matches(set@, path.deep_view()),
{
    let mut k: usize = 0;
    while k <= path.len()
        invariant
            k <= path@.len() + 1,
            forall|j: int| 0 <= j < k ==> !#[trigger] set_finds(set@, join_spec(path.deep_view().take(j))),
        decreases path@.len() + 1 - k,
    {
        let s = join_prefix(path, k);
        if set.any_match(s.as_str()) {
            return true;
        }
        if k == path.len() {
            return false;
        }
        k = k + 1;
    }
    false
}

/// Some proper ancestor of `parts` matches a pattern of `set`.
pub open spec fn proper_ancestry_matches(set: Seq<Seq<char>>, parts: Seq<Seq<char>>) -> bool {
    exists|k: int| 0 <= k < parts.len() && #[trigger] set_finds(set, join_spec(parts.take(k)))
}

fn proper_ancestry_match(set: &PatternSet, path: &Vec<String>) -> (r: bool)
    ensures
        r == proper_ancestry_matches(set@, path.deep_view()),
{
    let mut k: usize = 0;
    while k < path.len()
        invariant
            k <= path@.len(),
            forall|j: int| 0 <= j < k ==> !#[trigger] set_finds(set@, join_spec(path.deep_view().take(j))),
        decreases path@.len() - k,
    {
        let s = join_prefix(path, k);
        if set.any_match(s.as_str()) {
            return true;
        }
        k = k + 1;
    }
    false
}

/// The file cleaner: backs up and removes every file that a file pattern
/// matches, except files under an excepted directory and files whose path or
/// an ancestor of it matches a file exception.
pub struct File {
    pub dir: String,
    pub backup_dir: String,
    pub file_patterns: Vec<String>,
    pub exception_files: Vec<String>,
    pub exception_folders: Vec<String>,
}

/// The file cleaner takes file entry `e`.
#[verifier::opaque]
pub open spec fn file_chosen(targets: Seq<Seq<char>>, exc_files: Seq<Seq<char>>, exc_dirs: Seq<Seq<char>>, e: Entry) -> bool {
    &&& !e.is_directory
    &&& set_finds(targets, join_spec(e.path.deep_view()))
    &&& !proper_ancestry_matches(exc_dirs, e.path.deep_view())
    &&& !ancestry_matches(exc_files, e.path.deep_view())
}

/// Every text of `v` is an accepted regular expression.
pub open spec fn all_accepted(v: Seq<String>) -> bool {
    forall|i: int| 0 <= i < v.len() ==> regex_accepts(#[trigger] v[i]@)
}

/// `t` is the target of an entry that the file cleaner takes.
pub open spec fn from_chosen_file(f: &File, es: Seq<Entry>, t: CleanTarget) -> bool {
    exists|i: int| 0 <= i < es.len()
        && file_chosen(f.file_patterns.deep_view(), f.exception_files.deep_view(), f.exception_folders.deep_view(), es[i])
        && target_for(t, seq![f.dir@], seq![f.backup_dir@], #[trigger] es[i])
}

/// The "inside a matched directory" pattern texts of a list of directory patterns.
pub open spec fn subdir_sources(ps: Seq<Seq<char>>) -> Seq<Seq<char>> {
    ps.map_values(|p: Seq<char>| subdir_source_spec(p))
}

/// `t` is the target of an entry that the directory cleaner takes.
pub open spec fn from_chosen_folder(f: &Folder, es: Seq<Entry>, t: CleanTarget) -> bool {
    exists|i: int| 0 <= i < es.len()
        && folder_chosen(f.dir_patterns.deep_view(), subdir_sources(f.dir_patterns.deep_view()), f.exception_dirs.deep_view(), es[i])
        && target_for(t, seq![f.dir@], seq![f.backup_dir@], #[trigger] es[i])
}

impl File {
    pub fn new(config: Config) -> (r: File)
        ensures
            r.dir == config.dir,
            r.backup_dir == config.backup.dir,
            r.file_patterns == config.file_patterns,
            r.exception_files == config.exception_files,
            r.exception_folders == config.exception_dirs,
    {
        File {
            dir: config.dir,
            backup_dir: config.backup.dir,
            file_patterns: config.file_patterns,
            exception_files: config.exception_files,
            exception_folders: config.exception_dirs,
        }
    }

    /// Whether `path`, or one of its ancestors, matches a pattern of `set`.
    pub fn is_in_exception_dir(&self, path: &Vec<String>, set: &PatternSet) -> (r: bool)
        ensures
            r == ancestry_matches(set@, path.deep_view()),
    {
        ancestry_match(set, path)
    }

    fn build_targets(&self, targets: &PatternSet, exc_files: &PatternSet, exc_dirs: &PatternSet, entries: &Vec<Entry>) -> (r: Vec<CleanTarget>)
        requires
            targets@ == self.file_patterns.deep_view(),
            exc_files@ == self.exception_files.deep_view(),
            exc_dirs@ == self.exception_folders.deep_view(),
        ensures
            forall|k: int| 0 <= k < r@.len() ==> from_chosen_file(self, entries@, #[trigger] r@[k]),
            forall|i: int| 0 <= i < entries@.len()
                && file_chosen(self.file_patterns.deep_view(), self.exception_files.deep_view(), self.exception_folders.deep_view(), entries@[i])
                ==> has_target_for(r@, seq![self.dir@], seq![self.backup_dir@], #[trigger] entries@[i]),
    {
        let keep = file_marks(targets, exc_files, exc_dirs, entries);
        let (src, bk) = single_roots(&self.dir, &self.backup_dir);
        let r = targets_of_marked(entries, &keep, &src, &bk);
        assert forall|k: int| 0 <= k < r@.len() implies from_chosen_file(self, entries@, #[trigger] r@[k]) by {
            assert(from_marked(entries@, keep@, entries@.len() as int, src.deep_view(), bk.deep_view(), r@[k]));
            let i = choose|i: int| 0 <= i < entries@.len() && keep@[i] && target_for(r@[k], src.deep_view(), bk.deep_view(), #[trigger] entries@[i]);
            assert(file_chosen(targets@, exc_files@, exc_dirs@, entries@[i]));
        }
        assert forall|i: int| 0 <= i < entries@.len()
            && file_chosen(self.file_patterns.deep_view(), self.exception_files.deep_view(), self.exception_folders.deep_view(), entries@[i])
            implies has_target_for(r@, seq![self.dir@], seq![self.backup_dir@], #[trigger] entries@[i]) by {
            assert(keep@[i]);
        }
        r
    }

    /// The files of a walked tree that this cleaner backs up, in walk order,
    /// each under `dir` and `backup_dir`.
    pub fn targets(&self, entries: &Vec<Entry>) -> (r: Result<Vec<CleanTarget>, InvalidPattern>)
        ensures
            r is Ok <==> (all_accepted(self.file_patterns@) && all_accepted(self.exception_files@)
                && all_accepted(self.exception_folders@)),
            r is Ok ==> forall|k: int| 0 <= k < r->Ok_0@.len() ==> from_chosen_file(self, entries@, #[trigger] r->Ok_0@[k]),
            r is Ok ==> forall|i: int| 0 <= i < entries@.len()
                && file_chosen(self.file_patterns.deep_view(), self.exception_files.deep_view(), self.exception_folders.deep_view(), entries@[i])
                ==> has_target_for(r->Ok_0@, seq![self.dir@], seq![self.backup_dir@], #[trigger] entries@[i]),
    {
        let targets = PatternSet::compile(&self.file_patterns)?;
        let exc_files = PatternSet::compile(&self.exception_files)?;
        let exc_dirs = PatternSet::compile(&self.exception_folders)?;
        Ok(self.build_targets(&targets, &exc_files, &exc_dirs, entries))
    }
}

/// Some target of `ts` is the one built for entry `e`.
pub open spec fn has_target_for(ts: Seq<CleanTarget>, source_dir: Seq<Seq<char>>, backup_dir: Seq<Seq<char>>, e: Entry) -> bool {
    exists|k: int| 0 <= k < ts.len() && target_for(#[trigger] ts[k], source_dir, backup_dir, e)
}

/// Marks the entries that the file cleaner takes.
fn file_marks(targets: &PatternSet, exc_files: &PatternSet, exc_dirs: &PatternSet, entries: &Vec<Entry>) -> (keep: Vec<bool>)
    ensures
        keep@.len() == entries@.len(),
        forall|j: int| 0 <= j < entries@.len() ==> keep@[j] == file_chosen(targets@, exc_files@, exc_dirs@, #[trigger] entries@[j]),
{
    let mut keep: Vec<bool> = Vec::new();
    let mut i: usize = 0;
    while i < entries.len()
        invariant
            i <= entries@.len(),
            keep@.len() == i,
            forall|j: int| 0 <= j < i ==> keep@[j] == file_chosen(targets@, exc_files@, exc_dirs@, #[trigger] entries@[j]),
        decreases entries@.len() - i,
    {
        let e = &entries[i];
        let chosen = !e.is_directory && targets.any_match(join(&e.path).as_str())
            && !proper_ancestry_match(exc_dirs, &e.path) && !ancestry_match(exc_files, &e.path);
        proof {
            reveal(file_chosen);
            reveal(folder_chosen);
        }
        keep.push(chosen);
        i = i + 1;
    }
    keep
}

/// Marks the entries that the directory cleaner takes.
fn folder_marks(targets: &PatternSet, inner: &PatternSet, exc_dirs: &PatternSet, entries: &Vec<Entry>) -> (keep: Vec<bool>)
    ensures
        keep@.len() == entries@.len(),
        forall|j: int| 0 <= j < entries@.len() ==> keep@[j] == folder_chosen(targets@, inner@, exc_dirs@, #[trigger] entries@[j]),
{
    let mut keep: Vec<bool> = Vec::new();
    let mut i: usize = 0;
    while i < entries.len()
        invariant
            i <= entries@.len(),
            keep@.len() == i,
            forall|j: int| 0 <= j < i ==> keep@[j] == folder_chosen(targets@, inner@, exc_dirs@, #[trigger] entries@[j]),
        decreases entries@.len() - i,
    {
        let e = &entries[i];
        let chosen = e.is_directory && targets.any_match(join(&e.path).as_str())
            && !ancestry_match(exc_dirs, &e.path) && !ancestry_match(inner, &e.path);
        proof {
            reveal(file_chosen);
            reveal(folder_chosen);
        }
        keep.push(chosen);
        i = i + 1;
    }
    keep
}

/// The one-component roots made of the two directories.
fn single_roots(dir: &String, backup_dir: &String) -> (r: (Vec<String>, Vec<String>))
    ensures
        r.0.deep_view() == seq![dir@],
        r.1.deep_view() == seq![backup_dir@],
{
    let mut src: Vec<String> = Vec::new();
    src.push(dir.clone());
    let mut bk: Vec<String> = Vec::new();
    bk.push(backup_dir.clone());
    assert(src.deep_view() =~= seq![dir@]);
    assert(bk.deep_view() =~= seq![backup_dir@]);
    (src, bk)
}

/// The directory cleaner: backs up and removes every directory that a
/// directory pattern matches, without entering excepted directories or
/// directories inside a matched one.
pub struct Folder {
    pub dir: String,
    pub backup_dir: String,
    pub dir_patterns: Vec<String>,
    pub exception_dirs: Vec<String>,
}

/// The directory cleaner takes directory entry `e`: a directory pattern
/// matches it, no exception covers it, and no ancestor or itself has the
/// shape of a path inside a matched directory.
#[verifier::opaque]
pub open spec fn folder_chosen(targets: Seq<Seq<char>>, inner: Seq<Seq<char>>, exc_dirs: Seq<Seq<char>>, e: Entry) -> bool {
    &&& e.is_directory
    &&& set_finds(targets, join_spec(e.path.deep_view()))
    &&& !ancestry_matches(exc_dirs, e.path.deep_view())
    &&& !ancestry_matches(inner, e.path.deep_view())
}

impl Folder {
    pub fn new(config: Config) -> (r: Folder)
        ensures
            r.dir == config.dir,
            r.backup_dir == config.backup.dir,
            r.dir_patterns == config.dir_patterns,
            r.exception_dirs == config.exception_dirs,
    {
        Folder {
            dir: config.dir,
            backup_dir: config.backup.dir,
            dir_patterns: config.dir_patterns,
            exception_dirs: config.exception_dirs,
        }
    }

    /// Whether `path`, or one of its ancestors, matches a pattern of `set`.
    pub fn is_in_exception_dir(&self, path: &Vec<String>, set: &PatternSet) -> (r: bool)
        ensures
            r == ancestry_matches(set@, path.deep_view()),
    {
        ancestry_match(set, path)
    }

    /// The texts of the "inside a matched directory" patterns.
    pub fn subdir_patterns(&self) -> (r: Vec<String>)
        ensures
            r@.len() == self.dir_patterns@.len(),
            forall|k: int| 0 <= k < r@.len() ==> #[trigger] r@[k]@ == subdir_source_spec(self.dir_patterns@[k]@),
    {
        let mut r: Vec<String> = Vec::new();
        let mut k: usize = 0;
        while k < self.dir_patterns.len()
            invariant
                k <= self.dir_patterns@.len(),
                r@.len() == k,
                forall|j: int| 0 <= j < k ==> #[trigger] r@[j]@ == subdir_source_spec(self.dir_patterns@[j]@),
            decreases self.dir_patterns@.len() - k,
        {
            r.push(subdir_source(self.dir_patterns[k].as_str()));
            k = k + 1;
        }
        r
    }

    fn build_targets(&self, targets: &PatternSet, inner: &PatternSet, exc_dirs: &PatternSet, entries: &Vec<Entry>) -> (r: Vec<CleanTarget>)
        requires
            targets@ == self.dir_patterns.deep_view(),
            inner@ == subdir_sources(self.dir_patterns.deep_view()),
            exc_dirs@ == self.exception_dirs.deep_view(),
        ensures
            forall|k: int| 0 <= k < r@.len() ==> from_chosen_folder(self, entries@, #[trigger] r@[k]),
            forall|i: int| 0 <= i < entries@.len()
                && folder_chosen(self.dir_patterns.deep_view(), subdir_sources(self.dir_patterns.deep_view()), self.exception_dirs.deep_view(), entries@[i])
                ==> has_target_for(r@, seq![self.dir@], seq![self.backup_dir@], #[trigger] entries@[i]),
    {
        let keep = folder_marks(targets, inner, exc_dirs, entries);
        let (src, bk) = single_roots(&self.dir, &self.backup_dir);
        let r = targets_of_marked(entries, &keep, &src, &bk);
        assert forall|k: int| 0 <= k < r@.len() implies from_chosen_folder(self, entries@, #[trigger] r@[k]) by {
            assert(from_marked(entries@, keep@, entries@.len() as int, src.deep_view(), bk.deep_view(), r@[k]));
            let i = choose|i: int| 0 <= i < entries@.len() && keep@[i] && target_for(r@[k], src.deep_view(), bk.deep_view(), #[trigger] entries@[i]);
            assert(folder_chosen(targets@, inner@, exc_dirs@, entries@[i]));
        }
        assert forall|i: int| 0 <= i < entries@.len()
            && folder_chosen(self.dir_patterns.deep_view(), subdir_sources(self.dir_patterns.deep_view()), self.exception_dirs.deep_view(), entries@[i])
            implies has_target_for(r@, seq![self.dir@], seq![self.backup_dir@], #[trigger] entries@[i]) by {
            assert(keep@[i]);
        }
        r
    }

    /// The directories of a walked tree that this cleaner backs up, in walk
    /// order, each under `dir` and `backup_dir`.
    pub fn targets(&self, entries: &Vec<Entry>) -> (r: Result<Vec<CleanTarget>, InvalidPattern>)
        ensures
            r is Ok ==> forall|k: int| 0 <= k < r->Ok_0@.len() ==> from_chosen_folder(self, entries@, #[trigger] r->Ok_0@[k]),
            r is Ok ==> forall|i: int| 0 <= i < entries@.len()
                && folder_chosen(self.dir_patterns.deep_view(), subdir_sources(self.dir_patterns.deep_view()), self.exception_dirs.deep_view(), entries@[i])
                ==> has_target_for(r->Ok_0@, seq![self.dir@], seq![self.backup_dir@], #[trigger] entries@[i]),
            r is Ok <==> (all_accepted(self.dir_patterns@) && all_accepted(self.exception_dirs@)
                && forall|k: int| 0 <= k < self.dir_patterns@.len() ==> regex_accepts(#[trigger] subdir_source_spec(self.dir_patterns@[k]@))),
    {
        let targets = PatternSet::compile(&self.dir_patterns)?;
        let inner_sources = self.subdir_patterns();
        let inner = match PatternSet::compile(&inner_sources) {
            Ok(inner) => inner,
            Err(e) => {
                assert(!forall|k: int| 0 <= k < self.dir_patterns@.len() ==> regex_accepts(#[trigger] subdir_source_spec(self.dir_patterns@[k]@))) by {
                    let i = choose|i: int| 0 <= i < inner_sources@.len() && !regex_accepts(inner_sources@[i]@);
                    assert(inner_sources@[i]@ == subdir_source_spec(self.dir_patterns@[i]@));
                }
                return Err(e);
            },
        };
        assert forall|k: int| 0 <= k < self.dir_patterns@.len() implies regex_accepts(#[trigger] subdir_source_spec(self.dir_patterns@[k]@)) by {
            assert(inner_sources@[k]@ == subdir_source_spec(self.dir_patterns@[k]@));
            assert(regex_accepts(inner_sources@[k]@));
        }
        let exc_dirs = PatternSet::compile(&self.exception_dirs)?;
        assert(inner@ =~= subdir_sources(self.dir_patterns.deep_view())) by {
            assert forall|k: int| 0 <= k < inner@.len() implies #[trigger] inner@[k] == subdir_sources(self.dir_patterns.deep_view())[k] by {
                assert(inner@[k] == inner_sources@[k]@);
            }
        }
        Ok(self.build_targets(&targets, &inner, &exc_dirs, entries))
    }
}

} // verus!
