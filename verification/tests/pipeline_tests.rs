use repocat::compose::{
    format_commits, format_file_listing, format_skipped_files, format_timestamp,
    get_recent_commits,
};
use repocat::pipeline::{finish_run_checked, plan_run, process_files};
use repocat::types::{CommitInfo, IndexEntry, ReadOutcome, SkipReason, SkippedFile, TrackedFile};

fn entry(path: &str, modified: i64) -> IndexEntry {
    IndexEntry { path: String::from(path), modified_secs: Some(modified) }
}

fn commit(message: &str, time_secs: i64) -> CommitInfo {
    CommitInfo { message: String::from(message), time_secs }
}

#[test]
fn timestamps_render_as_utc() {
    assert_eq!(format_timestamp(0).as_str(), "1970-01-01 00:00:00");
    assert_eq!(format_timestamp(1_700_000_000).as_str(), "2023-11-14 22:13:20");
}

#[test]
fn unrepresentable_timestamp_reads_unknown_time() {
    assert_eq!(format_timestamp(i64::MAX).as_str(), "Unknown time");
}

#[test]
fn commit_section_trims_messages() {
    let commits = vec![commit("  Fix the bug  \n", 0)];
    let text = format_commits(&commits);
    assert_eq!(
        text.as_str(),
        "\nRecent Commits:\n-------------\n1970-01-01 00:00:00: Fix the bug\n"
    );
}

#[test]
fn commit_count_is_min_of_available_and_requested() {
    let commits = vec![commit("a", 3), commit("b", 2), commit("c", 1)];
    let kept = get_recent_commits(commits, 2);
    assert_eq!(kept.len(), 2);
    assert_eq!(kept[0].message.as_str(), "a");
    assert_eq!(kept[1].message.as_str(), "b");

    let commits = vec![commit("a", 3), commit("b", 2), commit("c", 1)];
    let kept = get_recent_commits(commits, 10);
    assert_eq!(kept.len(), 3);
}

#[test]
fn empty_skip_report_is_a_fixed_sentence() {
    assert_eq!(
        format_skipped_files(&Vec::new()).as_str(),
        "\nNo files were skipped."
    );
}

#[test]
fn skip_report_names_each_reason() {
    let skipped = vec![
        SkippedFile {
            path: String::from("b.log"),
            reason: SkipReason::GlobExcluded(String::from("*.log")),
        },
        SkippedFile {
            path: String::from("img.bin"),
            reason: SkipReason::InvalidUtf8,
        },
        SkippedFile {
            path: String::from("gone.txt"),
            reason: SkipReason::ReadError(String::from("file not found")),
        },
    ];
    assert_eq!(
        format_skipped_files(&skipped).as_str(),
        "\nSkipped Files:\n-------------\nb.log: *.log\nimg.bin: Invalid UTF-8 encoding\ngone.txt: file not found\n"
    );
}

#[test]
fn listing_shows_paths_with_timestamps() {
    let listed = vec![TrackedFile { path: String::from("a.txt"), modified_secs: 0 }];
    assert_eq!(
        format_file_listing(&listed).as_str(),
        "Repository Files (sorted by last modified):\n----------------------------------------\na.txt (1970-01-01 00:00:00)\n"
    );
}

#[test]
fn every_tracked_path_lands_in_exactly_one_list() {
    let listed = vec![
        TrackedFile { path: String::from("a.txt"), modified_secs: 3 },
        TrackedFile { path: String::from("b.log"), modified_secs: 2 },
        TrackedFile { path: String::from("bad.bin"), modified_secs: 1 },
    ];
    let patterns = repocat::filter::default_patterns();
    let outcomes = vec![
        ReadOutcome::Bytes(b"hello\n".to_vec()),
        ReadOutcome::Bytes(vec![0xff]),
    ];
    let (formatted, skipped) = process_files(&listed, &patterns, outcomes);
    let mut seen: Vec<String> = Vec::new();
    for f in &formatted {
        seen.push(f.path.clone());
    }
    for s in &skipped {
        seen.push(s.path.clone());
    }
    seen.sort();
    assert_eq!(seen, vec!["a.txt", "b.log", "bad.bin"]);
    assert_eq!(formatted.len() + skipped.len(), listed.len());
}

fn scenario_entries() -> Vec<IndexEntry> {
    vec![
        entry("a.txt", 1_700_000_002),
        entry("b.log", 1_700_000_001),
        entry("secrets.csv", 1_700_000_000),
    ]
}

fn scenario_output() -> Option<String> {
    let (patterns, listed, admitted) =
        plan_run(scenario_entries(), &Vec::new(), &Vec::new()).expect("patterns compile");
    assert_eq!(admitted.len(), 1);
    assert_eq!(admitted[0].path.as_str(), "a.txt");
    let outcomes = vec![ReadOutcome::Bytes(b"alpha\nbeta\ngamma\n".to_vec())];
    let commits = vec![commit("Initial commit\n", 1_699_999_999)];
    finish_run_checked(&listed, &patterns, commits, 1, outcomes)
}

#[test]
fn scenario_three_files_one_commit() {
    let output = scenario_output().expect("run completes");
    let expected = "Repository Files (sorted by last modified):\n\
----------------------------------------\n\
a.txt (2023-11-14 22:13:22)\n\
b.log (2023-11-14 22:13:21)\n\
secrets.csv (2023-11-14 22:13:20)\n\
\nSkipped Files:\n\
-------------\n\
b.log: *.log\n\
secrets.csv: **/*.csv\n\
\nRecent Commits:\n\
-------------\n\
2023-11-14 22:13:19: Initial commit\n\
\nFile Contents:\n\
=============\n\
\n\
File: a.txt (Last modified: 2023-11-14 22:13:22)\n\
```\n\
1 │ alpha\n2 │ beta\n3 │ gamma\n\
```";
    assert_eq!(output.as_str(), expected);
}

#[test]
fn rerunning_on_unchanged_inputs_is_byte_identical() {
    let first = scenario_output().expect("run completes");
    let second = scenario_output().expect("run completes");
    assert_eq!(first, second);
}

#[test]
fn bad_user_pattern_aborts_the_run() {
    let user = vec![String::from("[")];
    let r = plan_run(scenario_entries(), &Vec::new(), &user);
    assert_eq!(r.err(), Some(4));
}

#[test]
fn outcome_count_mismatch_is_refused() {
    let (patterns, listed, _admitted) =
        plan_run(scenario_entries(), &Vec::new(), &Vec::new()).expect("patterns compile");
    let r = finish_run_checked(&listed, &patterns, Vec::new(), 1, Vec::new());
    assert!(r.is_none());
}
