use project_cleaner::backup::{BackupConfig, CleanupMode, Config};
use project_cleaner::legacy::{File, Folder};
use project_cleaner::pattern::PatternSet;
use project_cleaner::processor::{Processor, Restorer};
use project_cleaner::scan::Entry;

fn strings(v: &[&str]) -> Vec<String> {
    v.iter().map(|s| s.to_string()).collect()
}

fn entry(s: &str, is_directory: bool) -> Entry {
    let path = if s.is_empty() { Vec::new() } else { s.split('/').map(|c| c.to_string()).collect() };
    Entry { path, is_directory }
}

fn config(enabled: bool, versioning: bool) -> Config {
    Config {
        dir: "/proj".to_string(),
        backup: BackupConfig { enabled, dir: "/bk".to_string(), versioning },
        file_patterns: strings(&[r"\.log$"]),
        dir_patterns: strings(&[r"(^|/)build$"]),
        exception_files: strings(&[]),
        exception_dirs: strings(&[r"^vendor$"]),
    }
}

fn tree() -> Vec<Entry> {
    vec![
        entry("vendor", true),
        entry("vendor/app", true),
        entry("vendor/app/debug.log", false),
        entry("src", true),
        entry("src/app.log", false),
        entry("build", true),
        entry("build/output.bin", false),
        entry("build/inner", true),
        entry("build/inner/build", true),
    ]
}

#[test]
fn processor_targets_and_plans() {
    let p = Processor::new(config(true, false));
    let m = p.matcher().ok().unwrap();
    let targets = p.targets(&m, &tree());
    let sources: Vec<Vec<String>> = targets.iter().map(|t| t.source_path.clone()).collect();
    assert_eq!(sources, vec![strings(&["/proj", "src", "app.log"]), strings(&["/proj", "build"])]);
    let mode = p.mode().ok().unwrap();
    let plan = p.plan(&mode, &targets[1]).ok().unwrap();
    assert_eq!(plan.destination, Some(strings(&["/bk", "build"])));
    assert!(plan.replace_existing);
}

#[test]
fn processor_without_backup_deletes() {
    let p = Processor::new(config(false, true));
    assert!(matches!(p.mode(), Ok(CleanupMode::Delete)));
}

#[test]
fn processor_rejects_bad_pattern() {
    let mut c = config(true, true);
    c.exception_dirs = strings(&["(vendor"]);
    let p = Processor::new(c);
    assert_eq!(p.matcher().err().unwrap().pattern, "(vendor");
}

#[test]
fn restorer_versions_and_items() {
    let r = Restorer::new(config(true, true));
    assert_eq!(r.backup_root(), strings(&["/bk"]));
    let root = r.backup_root();
    let v = r.versions(&root, true, &strings(&["20240101_000000", "junk", "20240202_000000"]));
    assert_eq!(v.len(), 2);
    assert_eq!(v[0].label, "20240202_000000");
    let m = r.matcher().ok().unwrap();
    let version = vec![entry("", true), entry("src", true), entry("src/app.log", false), entry("build", true), entry("build/x.log", false)];
    let items = r.items(&m, &version);
    let targets: Vec<Vec<String>> = items.iter().map(|i| i.target_path.clone()).collect();
    assert_eq!(targets, vec![strings(&["/proj", "src", "app.log"]), strings(&["/proj", "build"])]);
    let off = Restorer::new(config(false, true));
    assert!(off.versions(&root, true, &strings(&["20240101_000000"])).is_empty());
}

#[test]
fn file_cleaner_targets() {
    let mut c = config(true, false);
    c.exception_files = strings(&[r"^src/keep"]);
    let f = File::new(c);
    assert_eq!(f.backup_dir, "/bk");
    let mut t = tree();
    t.push(entry("src/keep/a.log", false));
    let targets = f.targets(&t).ok().unwrap();
    let sources: Vec<Vec<String>> = targets.iter().map(|t| t.source_path.clone()).collect();
    assert_eq!(sources, vec![strings(&["/proj", "src", "app.log"])]);
    assert_eq!(targets[0].backup_path, strings(&["/bk", "src", "app.log"]));
    let set = PatternSet::compile(&strings(&["^vendor$"])).ok().unwrap();
    assert!(f.is_in_exception_dir(&strings(&["vendor", "app", "x"]), &set));
    assert!(!f.is_in_exception_dir(&strings(&["src", "vendor"]), &set));
}

#[test]
fn folder_cleaner_skips_inside_matched() {
    let f = Folder::new(config(true, false));
    assert_eq!(f.subdir_patterns(), strings(&["(^|/)build/"]));
    let targets = f.targets(&tree()).ok().unwrap();
    let sources: Vec<Vec<String>> = targets.iter().map(|t| t.source_path.clone()).collect();
    assert_eq!(sources, vec![strings(&["/proj", "build"])]);
    let set = PatternSet::compile(&strings(&["^vendor$"])).ok().unwrap();
    assert!(f.is_in_exception_dir(&strings(&["vendor"]), &set));
}

#[test]
fn processor_lists_each_target_once_in_walk_order() {
    let p = Processor::new(config(true, true));
    let m = p.matcher().ok().unwrap();
    let t = vec![entry("b.log", false), entry("build", true), entry("a.log", false), entry("build/c.log", false)];
    let targets = p.targets(&m, &t);
    let sources: Vec<Vec<String>> = targets.iter().map(|t| t.source_path.clone()).collect();
    assert_eq!(
        sources,
        vec![strings(&["/proj", "b.log"]), strings(&["/proj", "build"]), strings(&["/proj", "a.log"])]
    );
}

#[test]
fn restorer_ignores_exception_lists() {
    let mut c1 = config(true, true);
    c1.exception_dirs = strings(&["^src$"]);
    c1.exception_files = strings(&[r"\.log$"]);
    let r1 = Restorer::new(c1);
    let r2 = Restorer::new(config(true, true));
    let version = vec![entry("src", true), entry("src/app.log", false), entry("build", true)];
    let a: Vec<Vec<String>> = r1.items(&r1.matcher().ok().unwrap(), &version).iter().map(|i| i.relative_path.clone()).collect();
    let b: Vec<Vec<String>> = r2.items(&r2.matcher().ok().unwrap(), &version).iter().map(|i| i.relative_path.clone()).collect();
    assert_eq!(a, b);
    assert_eq!(a, vec![strings(&["src", "app.log"]), strings(&["build"])]);
}

#[test]
fn plan_keeps_source_and_kind() {
    let p = Processor::new(config(false, false));
    let mode = p.mode().ok().unwrap();
    let target = project_cleaner::scan::CleanTarget {
        source_path: strings(&["/proj", "build"]),
        backup_path: strings(&["/bk", "build"]),
        is_directory: true,
    };
    let plan = p.plan(&mode, &target).ok().unwrap();
    assert_eq!(plan.source, strings(&["/proj", "build"]));
    assert!(plan.is_directory);
    assert!(!plan.replace_existing);
    assert_eq!(plan.destination, None);
}
