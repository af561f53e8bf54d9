use project_cleaner::backup::{
    cleanup_mode, first_step, next_step, plan_item, plan_mode, tally, BackupConfig, CleanupError,
    CleanupMode, ItemOutcome, ItemStep,
};
use project_cleaner::label::{str_lt, version_label, Timestamp};
use project_cleaner::matcher::PatternMatcher;
use project_cleaner::paths::{extend_path, is_strict_ancestor, join, strip_prefix};
use project_cleaner::pattern::{subdir_source, Pattern, PatternSet};
use project_cleaner::restore::{list_versions, resolve_items, tally_restore};
use project_cleaner::scan::{chunk_ranges, claim_targets, collect_targets, partition_root_entries, CleanSummary, CleanTarget, Entry};

fn strings(v: &[&str]) -> Vec<String> {
    v.iter().map(|s| s.to_string()).collect()
}

fn path(s: &str) -> Vec<String> {
    if s.is_empty() {
        Vec::new()
    } else {
        s.split('/').map(|c| c.to_string()).collect()
    }
}

fn entry(s: &str, is_directory: bool) -> Entry {
    Entry { path: path(s), is_directory }
}

fn matcher(files: &[&str], dirs: &[&str], exc_files: &[&str], exc_dirs: &[&str]) -> PatternMatcher {
    match PatternMatcher::new(&strings(files), &strings(dirs), &strings(exc_files), &strings(exc_dirs)) {
        Ok(m) => m,
        Err(e) => panic!("invalid pattern {}", e.pattern),
    }
}

fn sample_tree() -> Vec<Entry> {
    vec![
        entry("vendor", true),
        entry("vendor/app", true),
        entry("vendor/app/debug.log", false),
        entry("src", true),
        entry("src/app.log", false),
        entry("build", true),
        entry("build/output.bin", false),
    ]
}

#[test]
fn logs_and_build_dirs_except_vendor() {
    let m = matcher(&[r"\.log$"], &[r"(^|/)build$"], &[], &[r"^vendor$"]);
    let src = strings(&["/proj"]);
    let bk = strings(&["/backup"]);
    let targets = collect_targets(&m, &src, &bk, &sample_tree());
    let got: Vec<(Vec<String>, bool)> = targets.iter().map(|t| (t.source_path.clone(), t.is_directory)).collect();
    assert_eq!(
        got,
        vec![(strings(&["/proj", "src", "app.log"]), false), (strings(&["/proj", "build"]), true)]
    );
    assert_eq!(targets[1].backup_path, strings(&["/backup", "build"]));
}

#[test]
fn exception_covers_whole_subtree() {
    let m = matcher(&[r"\.log$"], &[r"app$"], &[], &[r"^vendor$"]);
    assert!(m.is_exception(&path("vendor"), true));
    assert!(m.is_exception(&path("vendor/app"), true));
    assert!(m.is_exception(&path("vendor/app/debug.log"), false));
    assert!(!m.is_exception(&path("src/app.log"), false));
    assert!(!m.is_selected(&path("vendor/app"), true));
    assert!(m.is_selected(&path("src/app.log"), false));
}

#[test]
fn file_exception_applies_to_leaf_only() {
    let m = matcher(&[r"\.log$"], &[], &[r"keep\.log$"], &[]);
    assert!(m.is_exception(&path("a/keep.log"), false));
    assert!(!m.is_exception(&path("keep.log/x"), true));
    assert!(!m.is_selected(&path("a/keep.log"), false));
    assert!(m.is_selected(&path("a/drop.log"), false));
}

#[test]
fn directory_exception_does_not_match_file_leaf() {
    let m = matcher(&[r"\.log$"], &[], &[], &[r"\.log$"]);
    assert!(!m.is_exception(&path("a/b.log"), false));
    assert!(m.is_exception(&path("x.log/b.log"), false));
}

#[test]
fn nested_targets_are_claimed_once() {
    let m = matcher(&[r"\.o$"], &[r"build$"], &[], &[]);
    let tree = vec![
        entry("build", true),
        entry("build/sub", true),
        entry("build/sub/build", true),
        entry("build/a.o", false),
        entry("lib/b.o", false),
    ];
    assert_eq!(claim_targets(&m, &tree, true), vec![0, 4]);
    let targets = collect_targets(&m, &strings(&["/p"]), &strings(&["/b"]), &tree);
    assert_eq!(targets.len(), 2);
    for a in &targets {
        for b in &targets {
            assert!(!is_strict_ancestor(&a.source_path, &b.source_path));
        }
    }
}

#[test]
fn descendant_listed_first_is_still_dropped() {
    let m = matcher(&[], &[r"build$"], &[], &[]);
    let tree = vec![entry("build/x/build", true), entry("build", true)];
    assert_eq!(claim_targets(&m, &tree, true), vec![1]);
}

#[test]
fn invalid_pattern_is_reported() {
    let r = PatternMatcher::new(&strings(&["ok"]), &strings(&["(unclosed"]), &strings(&[]), &strings(&[]));
    match r {
        Err(e) => assert_eq!(e.pattern, "(unclosed"),
        Ok(_) => panic!("expected an invalid pattern"),
    }
    assert!(Pattern::compile("[a-").is_none());
    assert!(PatternSet::compile(&strings(&["a", "b"])).is_ok());
}

#[test]
fn pattern_set_matches_any() {
    let set = match PatternSet::compile(&strings(&["^a", "z$"])) {
        Ok(s) => s,
        Err(_) => panic!("valid patterns"),
    };
    assert_eq!(set.len(), 2);
    assert!(set.any_match("abc"));
    assert!(set.any_match("xyz"));
    assert!(!set.any_match("bcd"));
    let p = Pattern::compile("b.d").unwrap();
    assert_eq!(p.source(), "b.d");
    assert!(p.is_match("xbcdx"));
    assert!(!p.is_match("bd"));
}

#[test]
fn subdir_pattern_replaces_end_anchor() {
    assert_eq!(subdir_source("(^|/)build$"), "(^|/)build/");
    assert_eq!(subdir_source("a$b$"), "a/b/");
    assert_eq!(subdir_source("plain"), "plain");
}

#[test]
fn paths_join_and_strip() {
    assert_eq!(join(&path("a/b/c")), "a/b/c");
    assert_eq!(join(&Vec::new()), "");
    assert_eq!(strip_prefix(&strings(&["/p", "a", "b"]), &strings(&["/p"])), Some(strings(&["a", "b"])));
    assert_eq!(strip_prefix(&strings(&["/q", "a"]), &strings(&["/p"])), None);
    assert_eq!(extend_path(&strings(&["r"]), &strings(&["a", "b"])), strings(&["r", "a", "b"]));
    assert!(is_strict_ancestor(&path("a"), &path("a/b")));
    assert!(!is_strict_ancestor(&path("a/b"), &path("a/b")));
    assert!(!is_strict_ancestor(&path("a/b"), &path("a/bc")));
}

fn target(src: &[&str], is_directory: bool) -> CleanTarget {
    CleanTarget { source_path: strings(src), backup_path: Vec::new(), is_directory }
}

#[test]
fn summary_total_is_sum_of_item_sizes() {
    let items = vec![target(&["/p", "a.log"], false), target(&["/p", "build"], true)];
    let s = CleanSummary::new(items, &vec![10, 4096], 10000).unwrap();
    assert_eq!(s.total_items, 2);
    assert_eq!(s.total_size, 4106);
    assert_eq!(s.source_total_size, 10000);
    assert_eq!(s.size_after_cleanup(), 5894);
}

#[test]
fn summary_rejects_overflow_and_mismatch() {
    let items = vec![target(&["/p", "a"], false), target(&["/p", "b"], false)];
    assert!(CleanSummary::new(items, &vec![u64::MAX, 1], 0).is_none());
    let items = vec![target(&["/p", "a"], false)];
    assert!(CleanSummary::new(items, &vec![1, 2], 0).is_none());
    let empty = CleanSummary::new(Vec::new(), &Vec::new(), 7).unwrap();
    assert_eq!(empty.total_items, 0);
    assert_eq!(empty.total_size, 0);
    assert_eq!(empty.size_after_cleanup(), 7);
}

#[test]
fn chunks_cover_root_entries() {
    assert_eq!(chunk_ranges(10, 4), vec![(0, 2), (2, 4), (4, 6), (6, 8), (8, 10)]);
    assert_eq!(chunk_ranges(3, 8), vec![(0, 1), (1, 2), (2, 3)]);
    assert_eq!(chunk_ranges(0, 2), vec![]);
    assert_eq!(chunk_ranges(7, 2), vec![(0, 3), (3, 6), (6, 7)]);
    let r = partition_root_entries(5);
    assert_eq!(r.first().unwrap().0, 0);
    assert_eq!(r.last().unwrap().1, 5);
}

fn ts(year: i32, month: u32, day: u32, hour: u32, minute: u32, second: u32) -> Timestamp {
    Timestamp { year, month, day, hour, minute, second }
}

#[test]
fn labels_are_fixed_width() {
    assert_eq!(version_label(&ts(2024, 3, 7, 9, 5, 1)).unwrap(), "20240307_090501");
    assert_eq!(version_label(&ts(999, 12, 31, 23, 59, 59)).unwrap(), "09991231_235959");
    assert!(version_label(&ts(10000, 1, 1, 0, 0, 0)).is_none());
    assert!(version_label(&ts(-1, 1, 1, 0, 0, 0)).is_none());
}

#[test]
fn label_order_follows_time_order() {
    let times = vec![
        ts(2023, 12, 31, 23, 59, 59),
        ts(2024, 1, 1, 0, 0, 0),
        ts(2024, 1, 1, 0, 0, 1),
        ts(2024, 1, 2, 0, 0, 0),
        ts(2024, 10, 1, 0, 0, 0),
    ];
    for i in 0..times.len() {
        for j in 0..times.len() {
            let a = version_label(&times[i]).unwrap();
            let b = version_label(&times[j]).unwrap();
            assert_eq!(str_lt(&a, &b), i < j);
        }
    }
    assert!(str_lt("abc", "abd"));
    assert!(str_lt("ab", "abc"));
    assert!(!str_lt("abc", "abc"));
}

fn backup(enabled: bool, versioning: bool) -> BackupConfig {
    BackupConfig { enabled, dir: "/backups".to_string(), versioning }
}

#[test]
fn flat_mode_replaces_previous_backup() {
    let mode = plan_mode(&backup(true, false), "/backups", &ts(2024, 1, 1, 0, 0, 0)).unwrap();
    let t = target(&["/p", "src", "app.log"], false);
    let first = plan_item(&mode, &strings(&["/p"]), &t).unwrap();
    let second = plan_item(&mode, &strings(&["/p"]), &t).unwrap();
    assert_eq!(first.destination, Some(strings(&["/backups", "src", "app.log"])));
    assert_eq!(first.destination, second.destination);
    assert!(first.replace_existing);
    assert!(second.replace_existing);
}

#[test]
fn versioned_mode_uses_timestamp_directory() {
    let mode = plan_mode(&backup(true, true), "/backups", &ts(2024, 5, 6, 7, 8, 9)).unwrap();
    let t = target(&["/p", "build"], true);
    let plan = plan_item(&mode, &strings(&["/p"]), &t).unwrap();
    assert_eq!(plan.destination, Some(strings(&["/backups", "20240506_070809", "build"])));
    assert!(!plan.replace_existing);
    assert!(plan.is_directory);
    assert!(matches!(plan_mode(&backup(true, true), "/b", &ts(12000, 1, 1, 0, 0, 0)), Err(CleanupError::TimestampOutOfRange)));
}

#[test]
fn target_outside_source_is_an_error() {
    let mode = plan_mode(&backup(true, false), "/backups", &ts(2024, 1, 1, 0, 0, 0)).unwrap();
    let t = target(&["/elsewhere", "a.log"], false);
    assert!(matches!(plan_item(&mode, &strings(&["/p"]), &t), Err(CleanupError::OutsideSource)));
}

#[test]
fn disabled_backup_deletes_and_finds_no_versions() {
    let mode = plan_mode(&backup(false, true), "/backups", &ts(2024, 1, 1, 0, 0, 0)).unwrap();
    assert!(matches!(mode, CleanupMode::Delete));
    let plan = plan_item(&mode, &strings(&["/p"]), &target(&["/p", "a.log"], false)).unwrap();
    assert_eq!(plan.destination, None);
    assert_eq!(first_step(&plan), ItemStep::RemoveSource { backed_up: false });
    let versions = list_versions(&backup(false, true), &strings(&["/backups"]), true, &strings(&["20240101_000000"]));
    assert!(versions.is_empty());
    assert!(matches!(cleanup_mode(&backup(false, false)), Ok(CleanupMode::Delete)));
}

#[test]
fn current_time_mode_shapes() {
    match cleanup_mode(&backup(true, true)) {
        Ok(CleanupMode::Relocate { root, replace_existing }) => {
            assert_eq!(root.len(), 2);
            assert_eq!(root[0], "/backups");
            assert_eq!(root[1].chars().count(), 15);
            assert!(!replace_existing);
        }
        _ => panic!("expected a versioned relocation"),
    }
    let home_relative = BackupConfig { enabled: true, dir: "~/bk".to_string(), versioning: false };
    match cleanup_mode(&home_relative) {
        Ok(CleanupMode::Relocate { root, replace_existing }) => {
            assert_eq!(root.len(), 1);
            assert!(root[0].ends_with("/bk"));
            assert!(replace_existing);
        }
        _ => panic!("expected a flat relocation"),
    }
}

#[test]
fn relocation_steps() {
    assert_eq!(next_step(ItemStep::Copy, true), ItemStep::RemoveSource { backed_up: true });
    assert_eq!(next_step(ItemStep::Copy, false), ItemStep::Finished(ItemOutcome::CopyFailed));
    assert_eq!(next_step(ItemStep::RemoveSource { backed_up: true }, true), ItemStep::Finished(ItemOutcome::Relocated));
    assert_eq!(next_step(ItemStep::RemoveSource { backed_up: false }, true), ItemStep::Finished(ItemOutcome::Deleted));
    assert_eq!(next_step(ItemStep::RemoveSource { backed_up: true }, false), ItemStep::Finished(ItemOutcome::RemoveFailed));
    let done = ItemStep::Finished(ItemOutcome::Deleted);
    assert_eq!(next_step(done, false), done);
}

#[test]
fn outcomes_are_counted() {
    let s = tally(&vec![ItemOutcome::Relocated, ItemOutcome::CopyFailed, ItemOutcome::Deleted, ItemOutcome::RemoveFailed, ItemOutcome::Relocated]);
    assert_eq!((s.success_count, s.error_count), (3, 2));
    let r = tally_restore(&vec![true, false, true]);
    assert_eq!((r.success_count, r.error_count), (2, 1));
}

#[test]
fn versions_newest_first() {
    let subdirs = strings(&["20230101_000000", "notes", "20240301_101010", "20231231_235959"]);
    let v = list_versions(&backup(true, true), &strings(&["/backups"]), true, &subdirs);
    let labels: Vec<String> = v.iter().map(|x| x.label.clone()).collect();
    assert_eq!(labels, strings(&["20240301_101010", "20231231_235959", "20230101_000000"]));
    assert_eq!(v[0].path, strings(&["/backups", "20240301_101010"]));
    let flat = list_versions(&backup(true, false), &strings(&["/backups"]), true, &subdirs);
    assert_eq!(flat.len(), 1);
    assert_eq!(flat[0].label, "current");
    assert_eq!(flat[0].path, strings(&["/backups"]));
    assert!(list_versions(&backup(true, true), &strings(&["/backups"]), false, &subdirs).is_empty());
}

#[test]
fn restore_brings_items_back_home() {
    let m = matcher(&[r"\.log$"], &[r"(^|/)build$"], &[], &[r"^vendor$"]);
    let src = strings(&["/proj"]);
    let targets = collect_targets(&m, &src, &strings(&["/bk"]), &sample_tree());
    let mode = plan_mode(&backup(true, true), "/bk", &ts(2024, 1, 1, 0, 0, 0)).unwrap();
    let root = match &mode {
        CleanupMode::Relocate { root, .. } => root.clone(),
        CleanupMode::Delete => panic!("expected relocation"),
    };
    let mut version_entries = Vec::new();
    for t in &targets {
        let plan = plan_item(&mode, &src, t).unwrap();
        let dest = plan.destination.unwrap();
        let rel = strip_prefix(&dest, &root).unwrap();
        for k in 1..rel.len() {
            version_entries.push(Entry { path: rel[..k].to_vec(), is_directory: true });
        }
        version_entries.push(Entry { path: rel, is_directory: t.is_directory });
    }
    let items = resolve_items(&m, &version_entries, &src);
    let back: Vec<Vec<String>> = items.iter().map(|i| i.target_path.clone()).collect();
    let orig: Vec<Vec<String>> = targets.iter().map(|t| t.source_path.clone()).collect();
    assert_eq!(back, orig);
    assert_eq!(items[0].relative_path, strings(&["src", "app.log"]));
}

#[test]
fn restore_ignores_exceptions_and_nests() {
    let m = matcher(&[r"\.log$"], &[r"build$"], &[r"\.log$"], &[r"^vendor$"]);
    let entries = vec![entry("", true), entry("vendor", true), entry("vendor/a.log", false), entry("build", true), entry("build/b.log", false)];
    let items = resolve_items(&m, &entries, &strings(&["/p"]));
    let rels: Vec<Vec<String>> = items.iter().map(|i| i.relative_path.clone()).collect();
    assert_eq!(rels, vec![strings(&["vendor", "a.log"]), strings(&["build"])]);
    assert_eq!(items[1].target_path, strings(&["/p", "build"]));
}
