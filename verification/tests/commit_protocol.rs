use typegen::collector::FileCollector;
use typegen::collector::FileMap;
use typegen::collector::LanguageProfile;
use typegen::commit::CommitError;
use typegen::commit::DeleteOutcome;
use typegen::commit::Disk;
use typegen::commit::try_delete_tmp_dir;
use typegen::commit::validate_destination;

const HEADER: &str = "# generated by typegen - do not edit";

fn collector_with(files: &[(&str, &str)]) -> FileCollector {
    let mut fc = FileCollector::new(LanguageProfile::new(HEADER));
    for (path, body) in files {
        fc.add_file(path, body);
    }
    fc
}

fn entries(m: &FileMap) -> Vec<(String, String)> {
    let mut out = Vec::new();
    let n = m.len();
    let mut i = 0;
    while i < n {
        let e = m.entry_at(i);
        out.push((e.0.clone(), e.1.clone()));
        i += 1;
    }
    out
}

fn clean_disk() -> Disk {
    Disk { dest: None, temp: None }
}

fn no_retries() -> Vec<DeleteOutcome> {
    vec![DeleteOutcome::Deleted, DeleteOutcome::Deleted, DeleteOutcome::Deleted]
}

#[test]
fn commit_to_clean_destination_returns_sorted_paths() {
    let fc = collector_with(&[("b.py", "beta"), ("a.py", "alpha"), ("sub/c.py", "gamma")]);
    let mut disk = clean_disk();
    let written = fc.commit(&mut disk, &no_retries()).unwrap();
    assert_eq!(written, vec!["a.py", "b.py", "sub/c.py"]);
    let dest = entries(disk.dest.as_ref().unwrap());
    assert_eq!(dest.len(), 3);
    assert_eq!(dest[0].0, "a.py");
    assert_eq!(dest[0].1, format!("{}\nalpha", HEADER));
    assert!(disk.temp.is_none());
}

#[test]
fn commit_is_idempotent_on_clean_destination() {
    let fc = collector_with(&[("a.py", "alpha"), ("b.py", "beta")]);
    let mut disk = clean_disk();
    let first = fc.commit(&mut disk, &no_retries()).unwrap();
    let after_first = entries(disk.dest.as_ref().unwrap());
    let second = fc.commit(&mut disk, &no_retries()).unwrap();
    let after_second = entries(disk.dest.as_ref().unwrap());
    assert_eq!(first, second);
    assert_eq!(after_first, after_second);
}

#[test]
fn commit_retried_after_interruption_matches_fresh_run() {
    let fc = collector_with(&[("a.py", "alpha"), ("b.py", "beta")]);

    let mut fresh = clean_disk();
    fc.commit(&mut fresh, &no_retries()).unwrap();

    // A run stopped after staging leaves the staged set under the temporary
    // path and the destination untouched.
    let mut interrupted = Disk { dest: None, temp: Some(fc.snapshot().duplicate()) };
    let written = fc.commit(&mut interrupted, &no_retries()).unwrap();
    assert_eq!(written, vec!["a.py", "b.py"]);
    assert_eq!(
        entries(interrupted.dest.as_ref().unwrap()),
        entries(fresh.dest.as_ref().unwrap())
    );
}

#[test]
fn commit_refuses_destination_with_unknown_file() {
    let fc = collector_with(&[("a.py", "alpha")]);
    let mut dest = FileMap::new();
    dest.insert("notes.txt", String::from("my own precious notes"));
    let mut disk = Disk { dest: Some(dest), temp: None };
    let err = fc.commit(&mut disk, &no_retries()).unwrap_err();
    match err {
        CommitError::UnsafeOverwrite { unknown, at_least } => {
            assert_eq!(unknown, vec!["notes.txt"]);
            assert!(!at_least);
        },
        CommitError::CleanupFailed { .. } => panic!("wrong error kind"),
    }
    let dest_after = entries(disk.dest.as_ref().unwrap());
    assert_eq!(dest_after.len(), 1);
    assert_eq!(dest_after[0], (String::from("notes.txt"), String::from("my own precious notes")));
}

#[test]
fn commit_accepts_destination_of_generated_files() {
    let fc = collector_with(&[("a.py", "new body")]);
    let mut dest = FileMap::new();
    dest.insert("old.py", format!("{}\nold body", HEADER));
    let mut disk = Disk { dest: Some(dest), temp: None };
    fc.commit(&mut disk, &no_retries()).unwrap();
    let dest_after = entries(disk.dest.as_ref().unwrap());
    assert_eq!(dest_after.len(), 1);
    assert_eq!(dest_after[0].0, "a.py");
}

#[test]
fn cleanup_retries_through_transient_locks() {
    let fc = collector_with(&[("a.py", "alpha")]);
    let mut disk = Disk { dest: None, temp: Some(FileMap::new()) };
    let outcomes = vec![DeleteOutcome::Busy, DeleteOutcome::Busy, DeleteOutcome::Deleted];
    fc.commit(&mut disk, &outcomes).unwrap();
    assert!(disk.dest.is_some());
}

#[test]
fn cleanup_exhausted_fails_commit_and_keeps_destination() {
    let fc = collector_with(&[("a.py", "alpha")]);
    let mut dest = FileMap::new();
    dest.insert("old.py", format!("{}\nold body", HEADER));
    let mut disk = Disk { dest: Some(dest), temp: Some(FileMap::new()) };
    let outcomes = vec![DeleteOutcome::Busy, DeleteOutcome::Busy, DeleteOutcome::Busy];
    let err = fc.commit(&mut disk, &outcomes).unwrap_err();
    match err {
        CommitError::CleanupFailed { attempts } => assert_eq!(attempts, 3),
        CommitError::UnsafeOverwrite { .. } => panic!("wrong error kind"),
    }
    let dest_after = entries(disk.dest.as_ref().unwrap());
    assert_eq!(dest_after[0].0, "old.py");
}

#[test]
fn cleanup_hard_failure_reports_attempt_number() {
    let mut temp = Some(FileMap::new());
    let outcomes = vec![DeleteOutcome::Busy, DeleteOutcome::Failed, DeleteOutcome::Deleted];
    let err = try_delete_tmp_dir(&mut temp, &outcomes).unwrap_err();
    match err {
        CommitError::CleanupFailed { attempts } => assert_eq!(attempts, 2),
        CommitError::UnsafeOverwrite { .. } => panic!("wrong error kind"),
    }
    assert!(temp.is_some());
}

#[test]
fn cleanup_skips_when_no_leftover_exists() {
    let mut temp: Option<FileMap> = None;
    let outcomes = vec![DeleteOutcome::Failed, DeleteOutcome::Failed, DeleteOutcome::Failed];
    assert!(try_delete_tmp_dir(&mut temp, &outcomes).is_ok());
}

#[test]
fn validate_lists_all_unknown_files_below_bound() {
    let mut dest = FileMap::new();
    dest.insert("a.txt", String::from("user file a"));
    dest.insert("b.py", format!("{}\ngenerated", HEADER));
    dest.insert("c.txt", String::from("user file c"));
    let err = validate_destination(&dest).unwrap_err();
    match err {
        CommitError::UnsafeOverwrite { unknown, at_least } => {
            assert_eq!(unknown, vec!["a.txt", "c.txt"]);
            assert!(!at_least);
        },
        CommitError::CleanupFailed { .. } => panic!("wrong error kind"),
    }
}

#[test]
fn validate_stops_early_past_the_bound() {
    let mut dest = FileMap::new();
    for name in ["u1", "u2", "u3", "u4", "u5", "u6", "u7"] {
        dest.insert(name, String::from("user file"));
    }
    let err = validate_destination(&dest).unwrap_err();
    match err {
        CommitError::UnsafeOverwrite { unknown, at_least } => {
            assert_eq!(unknown, vec!["u1", "u2", "u3", "u4", "u5"]);
            assert!(at_least);
        },
        CommitError::CleanupFailed { .. } => panic!("wrong error kind"),
    }
}

#[test]
fn validate_accepts_empty_directory() {
    let dest = FileMap::new();
    assert!(validate_destination(&dest).is_ok());
}
