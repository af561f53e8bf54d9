//! The cleanup and restore drivers: each holds the configuration and answers
//! the questions that the surrounding program asks between file-system steps.

use vstd::prelude::*;
use crate::backup::{CleanupError, CleanupMode, Config, ItemPlan, cleanup_mode, clock_label, expand_home, home_expanded, plan_item};
use crate::matcher::{PatternMatcher, all_valid};
use crate::pattern::InvalidPattern;
use crate::restore::{BackupVersion, RestorableItem, list_versions, resolve_items};
use crate::scan::{CleanTarget, Entry, claimed_upto, collect_targets, distinct_paths};

verus! {

/// The one-component path made of `dir`.
fn root_of(dir: &String) -> (r: Vec<String>)
    ensures
        r.deep_view() == seq![dir@],
{
    let mut r: Vec<String> = Vec::new();
    r.push(dir.clone());
    assert(r.deep_view() =~= seq![dir@]);
    r
}

fn compile_config(config: &Config) -> (r: Result<PatternMatcher, InvalidPattern>)
    ensures
        r is Ok <==> (all_valid(&config.file_patterns) && all_valid(&config.dir_patterns)
            && all_valid(&config.exception_files) && all_valid(&config.exception_dirs)),
        r is Ok ==> r->Ok_0.file_targets@ == config.file_patterns.deep_view()
            && r->Ok_0.dir_targets@ == config.dir_patterns.deep_view()
            && r->Ok_0.file_exceptions@ == config.exception_files.deep_view()
            && r->Ok_0.dir_exceptions@ == config.exception_dirs.deep_view(),
{
    PatternMatcher::new(&config.file_patterns, &config.dir_patterns, &config.exception_files, &config.exception_dirs)
}

/// Drives a cleanup run.
pub struct Processor {
    pub config: Config,
}

impl Processor {
    pub fn new(config: Config) -> (r: Processor)
        ensures
            r.config == config,
    {
        Processor { config }
    }

    /// The compiled patterns of the configuration.
    pub fn matcher(&self) -> (r: Result<PatternMatcher, InvalidPattern>)
        ensures
            r is Ok <==> (all_valid(&self.config.file_patterns) && all_valid(&self.config.dir_patterns)
                && all_valid(&self.config.exception_files) && all_valid(&self.config.exception_dirs)),
            r is Ok ==> r->Ok_0.file_targets@ == self.config.file_patterns.deep_view()
                && r->Ok_0.dir_targets@ == self.config.dir_patterns.deep_view()
                && r->Ok_0.file_exceptions@ == self.config.exception_files.deep_view()
                && r->Ok_0.dir_exceptions@ == self.config.exception_dirs.deep_view(),
    {
        compile_config(&self.config)
    }

    /// The clean targets among the walked entries (paths relative to the
    /// source directory), under the source directory and the backup directory.
    pub fn targets(&self, m: &PatternMatcher, entries: &Vec<Entry>) -> (r: Vec<CleanTarget>)
        ensures
            forall|k: int| 0 <= k < r@.len() ==> crate::scan::from_claimed_entry(m, entries@,
                seq![self.config.dir@], seq![self.config.backup.dir@], #[trigger] r@[k]),
            forall|i: int| 0 <= i < entries@.len() && crate::scan::claimed(m, entries@, true, i) ==> exists|k: int|
                0 <= k < r@.len() && crate::scan::target_for(#[trigger] r@[k], seq![self.config.dir@], seq![self.config.backup.dir@], entries@[i]),
            forall|a: int, b: int| 0 <= a < r@.len() && 0 <= b < r@.len() ==>
                !crate::paths::strict_ancestor(#[trigger] r@[a].source_path.deep_view(), #[trigger] r@[b].source_path.deep_view()),
            r@.len() == claimed_upto(m, entries@, true, entries@.len() as int).len(),
            forall|k: int| 0 <= k < r@.len() ==> crate::scan::target_for(#[trigger] r@[k], seq![self.config.dir@],
                seq![self.config.backup.dir@], entries@[claimed_upto(m, entries@, true, entries@.len() as int)[k] as int]),
            distinct_paths(entries@) ==> forall|a: int, b: int| 0 <= a < b < r@.len() ==>
                #[trigger] r@[a].source_path.deep_view() != #[trigger] r@[b].source_path.deep_view(),
    {
        let src = root_of(&self.config.dir);
        let bk = root_of(&self.config.backup.dir);
        collect_targets(m, &src, &bk, entries)
    }

    /// The mode of a run that starts now.
    pub fn mode(&self) -> (r: Result<CleanupMode, CleanupError>)
        ensures
            !self.config.backup.enabled ==> r matches Ok(CleanupMode::Delete),
            self.config.backup.enabled ==> match r {
                Ok(CleanupMode::Relocate { root, replace_existing }) => replace_existing == !self.config.backup.versioning
                    && root.deep_view().len() == (if self.config.backup.versioning { 2int } else { 1int })
                    && home_expanded(self.config.backup.dir@, root.deep_view()[0])
                    && (self.config.backup.versioning ==> clock_label(root.deep_view()[1])),
                Ok(CleanupMode::Delete) => false,
                Err(e) => self.config.backup.versioning && e == CleanupError::TimestampOutOfRange,
            },
    {
        cleanup_mode(&self.config.backup)
    }

    /// The plan for one target of this run.
    pub fn plan(&self, mode: &CleanupMode, target: &CleanTarget) -> (r: Result<ItemPlan, CleanupError>)
        ensures
            r is Err <==> (mode is Relocate && !crate::paths::ancestor_or_self(seq![self.config.dir@], target.source_path.deep_view())),
            r is Ok ==> r->Ok_0.source.deep_view() == target.source_path.deep_view()
                && r->Ok_0.is_directory == target.is_directory,
            r is Err ==> r->Err_0 == CleanupError::OutsideSource,
            r is Ok ==> match mode {
                CleanupMode::Delete => r->Ok_0.destination is None && !r->Ok_0.replace_existing,
                CleanupMode::Relocate { root, replace_existing } => (r->Ok_0.destination matches Some(d)
                    && d.deep_view() == root.deep_view() + target.source_path.deep_view().skip(1))
                    && r->Ok_0.replace_existing == replace_existing,
            },
    {
        let src = root_of(&self.config.dir);
        plan_item(mode, &src, target)
    }
}

/// Drives a restore.
pub struct Restorer {
    pub config: Config,
}

impl Restorer {
    pub fn new(config: Config) -> (r: Restorer)
        ensures
            r.config == config,
    {
        Restorer { config }
    }

    /// The backup directory, with the home directory expanded.
    pub fn backup_root(&self) -> (r: Vec<String>)
        ensures
            r.deep_view().len() == 1,
            home_expanded(self.config.backup.dir@, r.deep_view()[0]),
    {
        let dir = expand_home(self.config.backup.dir.as_str());
        root_of(&dir)
    }

    /// The compiled patterns of the configuration.
    pub fn matcher(&self) -> (r: Result<PatternMatcher, InvalidPattern>)
        ensures
            r is Ok <==> (all_valid(&self.config.file_patterns) && all_valid(&self.config.dir_patterns)
                && all_valid(&self.config.exception_files) && all_valid(&self.config.exception_dirs)),
            r is Ok ==> r->Ok_0.file_targets@ == self.config.file_patterns.deep_view()
                && r->Ok_0.dir_targets@ == self.config.dir_patterns.deep_view()
                && r->Ok_0.file_exceptions@ == self.config.exception_files.deep_view()
                && r->Ok_0.dir_exceptions@ == self.config.exception_dirs.deep_view(),
    {
        compile_config(&self.config)
    }

    /// The versions to choose from, given whether `root` exists and the names
    /// of its subdirectories.
    pub fn versions(&self, root: &Vec<String>, root_exists: bool, subdirs: &Vec<String>) -> (r: Vec<BackupVersion>)
        ensures
            !self.config.backup.enabled || !root_exists ==> r@.len() == 0,
            self.config.backup.enabled && root_exists && !self.config.backup.versioning ==> r@.len() == 1
                && r@[0].label@ == "current"@ && r@[0].path.deep_view() == root.deep_view(),
            self.config.backup.enabled && root_exists && self.config.backup.versioning ==> {
                &&& r@.len() == crate::restore::count_timestamps(subdirs.deep_view())
                &&& crate::restore::sorted_descending(r@)
                &&& forall|k: int| 0 <= k < r@.len() ==> crate::restore::parses_as_timestamp(#[trigger] r@[k].label@)
                    && exists|j: int| 0 <= j < subdirs@.len() && crate::restore::version_at(r@[k], root.deep_view(), #[trigger] subdirs@[j]@)
                &&& forall|j: int| 0 <= j < subdirs@.len() && crate::restore::parses_as_timestamp(#[trigger] subdirs@[j]@)
                    ==> exists|k: int| 0 <= k < r@.len() && crate::restore::version_at(r@[k], root.deep_view(), subdirs@[j]@)
            },
    {
        list_versions(&self.config.backup, root, root_exists, subdirs)
    }

    /// The items of a version, from its walked entries (paths relative to the
    /// version root), each going back under the source directory.
    pub fn items(&self, m: &PatternMatcher, entries: &Vec<Entry>) -> (r: Vec<RestorableItem>)
        ensures
            forall|k: int| 0 <= k < r@.len() ==> crate::restore::from_version_entry(m, entries@, seq![self.config.dir@], #[trigger] r@[k]),
            forall|i: int| 0 <= i < entries@.len() && crate::scan::claimed(m, entries@, false, i) ==> exists|k: int|
                0 <= k < r@.len() && crate::restore::restores_entry(#[trigger] r@[k], seq![self.config.dir@], entries@[i]),
            forall|a: int, b: int| 0 <= a < r@.len() && 0 <= b < r@.len() ==>
                !crate::paths::strict_ancestor(#[trigger] r@[a].relative_path.deep_view(), #[trigger] r@[b].relative_path.deep_view()),
            r@.len() == claimed_upto(m, entries@, false, entries@.len() as int).len(),
            forall|k: int| 0 <= k < r@.len() ==> crate::restore::restores_entry(#[trigger] r@[k], seq![self.config.dir@],
                entries@[claimed_upto(m, entries@, false, entries@.len() as int)[k] as int]),
            distinct_paths(entries@) ==> forall|a: int, b: int| 0 <= a < b < r@.len() ==>
                #[trigger] r@[a].relative_path.deep_view() != #[trigger] r@[b].relative_path.deep_view(),
    {
        let src = root_of(&self.config.dir);
        resolve_items(m, entries, &src)
    }
}

} // verus!
