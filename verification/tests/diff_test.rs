use relay::diff::{count_changes, diff_report, latest_handoff_time, DiffError};
use relay::handoff_file::DirEntryInfo;

fn entry(name: &str, modified: Option<i128>) -> DirEntryInfo {
    DirEntryInfo { name: name.to_string(), modified }
}

#[test]
fn no_relay_dir() {
    assert_eq!(latest_handoff_time(None), Err(DiffError::NoRelayDir));
    assert_eq!(
        DiffError::NoRelayDir.message(),
        "No .relay/ directory found. Run 'relay handoff' first."
    );
    assert_eq!(DiffError::NoHandoffFiles.message(), "No handoff files found.");
}

#[test]
fn latest_time_is_the_newest_handoff() {
    let listing = vec![
        entry("handoff_20260405_180000.md", Some(100)),
        entry("handoff_20260405_190000.md", Some(300)),
        entry("handoff_20260405_200000.md", Some(300)),
        entry("other.md", Some(900)),
    ];
    assert_eq!(latest_handoff_time(Some(&listing)), Ok("2026-04-05 19:00:00".to_string()));
}

#[test]
fn files_at_the_epoch_do_not_count() {
    let listing = vec![entry("handoff_20260405_180000.md", Some(0)), entry("handoff_x.md", None)];
    assert_eq!(latest_handoff_time(Some(&listing)), Err(DiffError::NoHandoffFiles));
    assert_eq!(latest_handoff_time(Some(&Vec::new())), Err(DiffError::NoHandoffFiles));
}

#[test]
fn empty_stamp_means_no_handoff() {
    let listing = vec![entry("handoff_abc.md", Some(5)), entry("handoff_.md", Some(8))];
    assert_eq!(latest_handoff_time(Some(&listing)), Err(DiffError::NoHandoffFiles));
    let listing = vec![entry("handoff_abc.md", Some(9)), entry("handoff_.md", Some(8))];
    assert_eq!(latest_handoff_time(Some(&listing)), Ok("abc".to_string()));
}

#[test]
fn status_letters_are_counted() {
    let changed: Vec<String> =
        vec![" M src/a.rs", "?? new.txt", "A  added.rs", " D gone.rs", "R  x -> y", "MM both.rs"]
            .into_iter()
            .map(String::from)
            .collect();
    assert_eq!(count_changes(&changed), (2, 3, 1));
}

#[test]
fn report_from_git_output() {
    let report = diff_report(
        "2026-04-05 19:00:00".to_string(),
        " M src/a.rs\n?? new.txt\n\n",
        "abc1234 Fix\ndef5678 Add\n",
        "  2 files changed, 3 insertions(+)\n\n",
    );
    assert_eq!(report.handoff_time, "2026-04-05 19:00:00");
    assert_eq!(report.changed_files, vec![" M src/a.rs".to_string(), "?? new.txt".to_string()]);
    assert_eq!(report.new_commits, vec!["abc1234 Fix".to_string(), "def5678 Add".to_string()]);
    assert_eq!(report.diff_stat, "2 files changed, 3 insertions(+)");
    assert_eq!((report.files_added, report.files_modified, report.files_deleted), (1, 1, 0));
}

#[test]
fn report_when_git_failed() {
    let report = diff_report("t".to_string(), "", "", "");
    assert!(report.changed_files.is_empty());
    assert!(report.new_commits.is_empty());
    assert_eq!(report.diff_stat, "");
    assert_eq!(report.files_added + report.files_modified + report.files_deleted, 0);
}
