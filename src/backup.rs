//! The backup side of a cleanup: the configuration, where relocated items go,
//! the order of the steps for one item, and the counts of a run.

use vstd::prelude::*;
use crate::label::{Timestamp, fits_label, label_spec, version_label};
use crate::paths::{ancestor_or_self, extend_path, strip_prefix};
use crate::scan::CleanTarget;

verus! {

/// Backup settings: whether to back up at all, where, and whether each run
/// gets its own timestamped version.
pub struct BackupConfig {
    pub enabled: bool,
    pub dir: String,
    pub versioning: bool,
}

/// The whole configuration: the source directory, backup settings and the
/// four pattern lists.
pub struct Config {
    pub dir: String,
    pub backup: BackupConfig,
    pub file_patterns: Vec<String>,
    pub dir_patterns: Vec<String>,
    pub exception_files: Vec<String>,
    pub exception_dirs: Vec<String>,
}

/// Why a cleanup step could not be planned.
#[derive(PartialEq, Eq, Structural, Clone, Copy, Debug)]
pub enum CleanupError {
    /// The clock gave a date whose label would not be fixed-width.
    TimestampOutOfRange,
    /// A target does not lie under the source directory.
    OutsideSource,
}

/// What happens to each target of a run.
pub enum CleanupMode {
    /// Targets are deleted; nothing is backed up.
    Delete,
    /// Targets are copied under `root`, then deleted. With `replace_existing`
    /// a backup left by an earlier run at the same place is removed first.
    Relocate { root: Vec<String>, replace_existing: bool },
}

/// Relies on `chrono::Local::now` and chrono's `Datelike` / `Timelike`
/// accessors: the current local time as calendar fields, with month 1 to 12,
/// day 1 to 31, hour below 24 and minute and second below 60.
#[verifier::external_body]
fn local_now() -> (r: Timestamp)
    ensures
        1 <= r.month <= 12,
        1 <= r.day <= 31,
        r.hour < 24,
        r.minute < 60,
        r.second < 60,
{
    let now = chrono::Local::now();
    Timestamp {
        year: chrono::Datelike::year(&now),
        month: chrono::Datelike::month(&now),
        day: chrono::Datelike::day(&now),
        hour: chrono::Timelike::hour(&now),
        minute: chrono::Timelike::minute(&now),
        second: chrono::Timelike::second(&now),
    }
}

/// Relies on `shellexpand::tilde`: a text that does not start with '~' comes
/// back unchanged; one that does ends, after expansion, with what followed the '~'.
#[verifier::external_body]
pub(crate) fn expand_home(dir: &str) -> (r: String)
    ensures
        (dir@.len() == 0 || dir@[0] != '~') ==> r@ == dir@,
        (dir@.len() > 0 && dir@[0] == '~') ==> r@.len() >= dir@.len() - 1
            && r@.skip(r@.len() - (dir@.len() - 1)) == dir@.drop_first(),
{
    shellexpand::tilde(dir).into_owned()
}

/// The mode of a run, from the backup settings, the backup directory with the
/// home directory already expanded, and the time the run started.
pub fn plan_mode(backup: &BackupConfig, expanded_dir: &str, now: &Timestamp) -> (r: Result<CleanupMode, CleanupError>)
    ensures
        !backup.enabled ==> r matches Ok(CleanupMode::Delete),
        backup.enabled && !backup.versioning ==> (r matches Ok(CleanupMode::Relocate { root, replace_existing })
            && replace_existing && root.deep_view() == seq![expanded_dir@]),
        backup.enabled && backup.versioning && fits_label(*now) ==> (r matches Ok(CleanupMode::Relocate { root, replace_existing })
            && !replace_existing && root.deep_view() == seq![expanded_dir@, label_spec(*now)]),
        backup.enabled && backup.versioning && !fits_label(*now) ==> r == Err::<CleanupMode, CleanupError>(CleanupError::TimestampOutOfRange),
{
    if !backup.enabled {
        return Ok(CleanupMode::Delete);
    }
    let mut root: Vec<String> = Vec::new();
    root.push(expanded_dir.to_owned());
    if !backup.versioning {
        assert(root.deep_view() =~= seq![expanded_dir@]);
        return Ok(CleanupMode::Relocate { root, replace_existing: true });
    }
    match version_label(now) {
        Some(label) => {
            root.push(label);
            assert(root.deep_view() =~= seq![expanded_dir@, label_spec(*now)]);
            Ok(CleanupMode::Relocate { root, replace_existing: false })
        },
        None => Err(CleanupError::TimestampOutOfRange),
    }
}

/// The mode of a run that starts now: deletion when backups are off, else
/// relocation under the expanded backup directory, in a new timestamped
/// version when versioning is on.
pub fn cleanup_mode(backup: &BackupConfig) -> (r: Result<CleanupMode, CleanupError>)
    ensures
        !backup.enabled ==> r matches Ok(CleanupMode::Delete),
        backup.enabled ==> match r {
            Ok(CleanupMode::Relocate { root, replace_existing }) =>
                replace_existing == !backup.versioning
                && root.deep_view().len() == (if backup.versioning { 2int } else { 1int })
                && home_expanded(backup.dir@, root.deep_view()[0])
                && (backup.versioning ==> clock_label(root.deep_view()[1])),
            Ok(CleanupMode::Delete) => false,
            Err(e) => backup.versioning && e == CleanupError::TimestampOutOfRange,
        },
{
    if !backup.enabled {
        return Ok(CleanupMode::Delete);
    }
    let expanded = expand_home(backup.dir.as_str());
    let now = local_now();
    let r = plan_mode(backup, expanded.as_str(), &now);
    proof {
        if backup.versioning && fits_label(now) {
            assert(label_spec(now) == label_spec(now));
        }
    }
    r
}

/// `r` is what expanding a leading '~' of `dir` may give: `dir` itself when
/// it does not start with '~', else a text that ends with what followed the '~'.
pub open spec fn home_expanded(dir: Seq<char>, r: Seq<char>) -> bool {
    &&& (dir.len() == 0 || dir[0] != '~') ==> r == dir
    &&& (dir.len() > 0 && dir[0] == '~') ==> r.len() >= dir.len() - 1 && r.skip(r.len() - (dir.len() - 1)) == dir.drop_first()
}

/// `s` is the label of a time that a clock can show: month 1 to 12, day 1 to
/// 31, hour below 24, minute and second below 60, year of four digits.
pub open spec fn clock_label(s: Seq<char>) -> bool {
    exists|t: Timestamp| fits_label(t) && 1 <= t.month <= 12 && 1 <= t.day <= 31 && t.hour < 24
        && t.minute < 60 && t.second < 60 && s == #[trigger] label_spec(t)
}

/// What to do with one target.
pub struct ItemPlan {
    pub source: Vec<String>,
    /// Where the backup copy goes; `None` when nothing is backed up.
    pub destination: Option<Vec<String>>,
    /// Remove a backup already at `destination` before copying.
    pub replace_existing: bool,
    pub is_directory: bool,
}

/// The plan for one target: under relocation its destination is the active
/// root followed by the target's path relative to the source directory.
pub fn plan_item(mode: &CleanupMode, source_dir: &Vec<String>, target: &CleanTarget) -> (r: Result<ItemPlan, CleanupError>)
    ensures
        r is Err <==> (mode is Relocate && !ancestor_or_self(source_dir.deep_view(), target.source_path.deep_view())),
        r is Err ==> r->Err_0 == CleanupError::OutsideSource,
        r is Ok ==> r->Ok_0.source.deep_view() == target.source_path.deep_view()
            && r->Ok_0.is_directory == target.is_directory,
        r is Ok ==> match mode {
            CleanupMode::Delete => r->Ok_0.destination is None && !r->Ok_0.replace_existing,
            CleanupMode::Relocate { root, replace_existing } => (r->Ok_0.destination matches Some(d)
                && d.deep_view() == root.deep_view() + target.source_path.deep_view().skip(source_dir@.len() as int))
                && r->Ok_0.replace_existing == replace_existing,
        },
{
    let source = extend_path(&Vec::new(), &target.source_path);
    assert(source.deep_view() =~= target.source_path.deep_view());
    match mode {
        CleanupMode::Delete => Ok(ItemPlan { source, destination: None, replace_existing: false, is_directory: target.is_directory }),
        CleanupMode::Relocate { root, replace_existing } => {
            match strip_prefix(&target.source_path, source_dir) {
                Some(rel) => {
                    let destination = extend_path(root, &rel);
                    Ok(ItemPlan { source, destination: Some(destination), replace_existing: *replace_existing, is_directory: target.is_directory })
                },
                None => Err(CleanupError::OutsideSource),
            }
        },
    }
}

/// How the handling of one item ended.
#[derive(PartialEq, Eq, Structural, Clone, Copy, Debug)]
pub enum ItemOutcome {
    /// Copied to its backup place, then removed.
    Relocated,
    /// Removed without a backup.
    Deleted,
    /// The copy failed; the source item is untouched.
    CopyFailed,
    /// The source item could not be removed (after a successful copy, if any).
    RemoveFailed,
}

/// Whether an outcome counts as a success.
pub open spec fn is_success(o: ItemOutcome) -> bool {
    o == ItemOutcome::Relocated || o == ItemOutcome::Deleted
}

/// The steps of handling one item: copy first when backing up, and remove
/// the source item only after a successful copy.
#[derive(PartialEq, Eq, Structural, Clone, Copy, Debug)]
pub enum ItemStep {
    Copy,
    RemoveSource { backed_up: bool },
    Finished(ItemOutcome),
}

/// The first step for a plan.
pub fn first_step(plan: &ItemPlan) -> (r: ItemStep)
    ensures
        plan.destination is Some ==> r == ItemStep::Copy,
        plan.destination is None ==> r == (ItemStep::RemoveSource { backed_up: false }),
{
    if plan.destination.is_some() {
        ItemStep::Copy
    } else {
        ItemStep::RemoveSource { backed_up: false }
    }
}

/// The step after `step`, given whether its file-system work succeeded.
pub fn next_step(step: ItemStep, succeeded: bool) -> (r: ItemStep)
    ensures
        step == ItemStep::Copy ==> r == if succeeded {
            ItemStep::RemoveSource { backed_up: true }
        } else {
            ItemStep::Finished(ItemOutcome::CopyFailed)
        },
        step matches ItemStep::RemoveSource { backed_up } ==> r == if !succeeded {
            ItemStep::Finished(ItemOutcome::RemoveFailed)
        } else if backed_up {
            ItemStep::Finished(ItemOutcome::Relocated)
        } else {
            ItemStep::Finished(ItemOutcome::Deleted)
        },
        step is Finished ==> r == step,
{
    match step {
        ItemStep::Copy => if succeeded {
            ItemStep::RemoveSource { backed_up: true }
        } else {
            ItemStep::Finished(ItemOutcome::CopyFailed)
        },
        ItemStep::RemoveSource { backed_up } => if !succeeded {
            ItemStep::Finished(ItemOutcome::RemoveFailed)
        } else if backed_up {
            ItemStep::Finished(ItemOutcome::Relocated)
        } else {
            ItemStep::Finished(ItemOutcome::Deleted)
        },
        ItemStep::Finished(o) => ItemStep::Finished(o),
    }
}

/// The number of successful outcomes.
pub open spec fn count_success(s: Seq<ItemOutcome>) -> nat
    decreases s.len(),
{
    if s.len() == 0 {
        0
    } else {
        count_success(s.drop_last()) + if is_success(s.last()) { 1nat } else { 0nat }
    }
}

/// Success and failure counts of a batch.
#[derive(PartialEq, Eq, Structural, Clone, Copy, Debug)]
pub struct CleanupStats {
    pub success_count: usize,
    pub error_count: usize,
}

/// Counts the outcomes of a batch.
pub fn tally(outcomes: &Vec<ItemOutcome>) -> (r: CleanupStats)
    ensures
        r.success_count == count_success(outcomes@),
        r.error_count == outcomes@.len() - count_success(outcomes@),
{
    let mut success_count: usize = 0;
    let mut error_count: usize = 0;
    let mut i: usize = 0;
    while i < outcomes.len()
        invariant
            i <= outcomes@.len(),
            success_count == count_success(outcomes@.take(i as int)),
            success_count + error_count == i,
        decreases outcomes@.len() - i,
    {
        assert(outcomes@.take(i as int + 1).drop_last() =~= outcomes@.take(i as int));
        proof {
            lemma_count_success_le(outcomes@.take(i as int));
        }
        if outcomes[i] == ItemOutcome::Relocated || outcomes[i] == ItemOutcome::Deleted {
            success_count = success_count + 1;
        } else {
            error_count = error_count + 1;
        }
        i = i + 1;
    }
    assert(outcomes@.take(i as int) =~= outcomes@);
    CleanupStats { success_count, error_count }
}

proof fn lemma_count_success_le(s: Seq<ItemOutcome>)
    ensures
        count_success(s) <= s.len(),
    decreases s.len(),
{
    if s.len() > 0 {
        lemma_count_success_le(s.drop_last());
    }
}

} // verus!
