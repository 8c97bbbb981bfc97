//! The output composer: timestamp text, the file listing, the skipped-files
//! report, the commit history section, and the assembled final document.

use vstd::prelude::*;
use vstd::string::StringExecFns;
use crate::types::{CommitInfo, FormattedFile, SkipReason, SkippedFile, TrackedFile};

verus! {

/// The "%Y-%m-%d %H:%M:%S" rendering of a UTC timestamp, as chrono computes
/// it; None exactly when the timestamp is out of chrono's range.
pub uninterp spec fn utc_text(secs: int) -> Option<Seq<char>>;

/// Relies on chrono::DateTime::from_timestamp and its "%Y-%m-%d %H:%M:%S"
/// format rendering: both are functions of the seconds alone (the time is
/// taken as UTC), and the parse returns None exactly on an out-of-range
/// number of seconds.
#[verifier::external_body]
fn utc_timestamp_text(secs: i64) -> (r: Option<String>)
    ensures
        (r is Some) == (utc_text(secs as int) is Some),
        r matches Some(s) ==> s@ == utc_text(secs as int)->0,
{
    chrono::DateTime::from_timestamp(secs, 0).map(
        |dt| dt.format("%Y-%m-%d %H:%M:%S").to_string(),
    )
}

/// Removal of leading and trailing whitespace, as str::trim computes it.
pub uninterp spec fn trim_of(s: Seq<char>) -> Seq<char>;

/// Relies on str::trim: the result depends on the characters alone.
#[verifier::external_body]
fn trim_str<'a>(s: &'a str) -> (r: &'a str)
    ensures
        r@ == trim_of(s@),
{
    s.trim()
}

/// The displayed form of a timestamp: its UTC rendering, or "Unknown time"
/// when it cannot be computed.
pub open spec fn spec_timestamp(secs: int) -> Seq<char> {
    match utc_text(secs) {
        Some(t) => t,
        None => "Unknown time"@,
    }
}

/// Renders a timestamp, substituting "Unknown time" when chrono cannot
/// represent it.
pub fn format_timestamp(secs: i64) -> (r: String)
    ensures
        r@ == spec_timestamp(secs as int),
{
    match utc_timestamp_text(secs) {
        Some(s) => s,
        None => String::from_str("Unknown time"),
    }
}

/// One line of the file listing.
pub open spec fn spec_listing_line(f: TrackedFile) -> Seq<char> {
    f.path@ + " ("@ + spec_timestamp(f.modified_secs as int) + ")\n"@
}

/// The file listing: its header, a divider, and one line per tracked file.
pub open spec fn spec_file_listing(files: Seq<TrackedFile>) -> Seq<char>
    decreases files.len(),
{
    if files.len() == 0 {
        "Repository Files (sorted by last modified):\n"@
            + "----------------------------------------\n"@
    } else {
        spec_file_listing(files.drop_last()) + spec_listing_line(files.last())
    }
}

/// Renders the header and one `<path> (<timestamp>)` line per tracked file,
/// in the given order.
pub fn format_file_listing(files: &Vec<TrackedFile>) -> (r: String)
    ensures
        r@ == spec_file_listing(files@),
{
    let mut out = String::from_str("Repository Files (sorted by last modified):\n");
    out.append("----------------------------------------\n");
    let mut i: usize = 0;
    while i < files.len()
        invariant
            0 <= i <= files@.len(),
            out@ == spec_file_listing(files@.take(i as int)),
        decreases files@.len() - i,
    {
        proof {
            assert(files@.take(i as int + 1).drop_last() =~= files@.take(i as int));
            assert(files@.take(i as int + 1).last() == files@[i as int]);
        }
        out.append(files[i].path.as_str());
        out.append(" (");
        let ts = format_timestamp(files[i].modified_secs);
        out.append(ts.as_str());
        out.append(")\n");
        proof {
            assert(out@ =~= spec_file_listing(files@.take(i as int + 1)));
        }
        i = i + 1;
    }
    proof {
        assert(files@.take(files@.len() as int) =~= files@);
    }
    out
}

/// One line of the commit section: timestamp, a colon, the trimmed message.
pub open spec fn spec_commit_line(c: CommitInfo) -> Seq<char> {
    spec_timestamp(c.time_secs as int) + ": "@ + trim_of(c.message@) + "\n"@
}

/// The commit section: its header, a divider, and one line per commit, in
/// the given order.
pub open spec fn spec_commits_text(commits: Seq<CommitInfo>) -> Seq<char>
    decreases commits.len(),
{
    if commits.len() == 0 {
        "\nRecent Commits:\n"@ + "-------------\n"@
    } else {
        spec_commits_text(commits.drop_last()) + spec_commit_line(commits.last())
    }
}

/// Renders the commit history section, one `<timestamp>: <trimmed message>`
/// line per commit, in the given order.
pub fn format_commits(commits: &Vec<CommitInfo>) -> (r: String)
    ensures
        r@ == spec_commits_text(commits@),
{
    let mut out = String::from_str("\nRecent Commits:\n");
    out.append("-------------\n");
    let mut i: usize = 0;
    while i < commits.len()
        invariant
            0 <= i <= commits@.len(),
            out@ == spec_commits_text(commits@.take(i as int)),
        decreases commits@.len() - i,
    {
        proof {
            assert(commits@.take(i as int + 1).drop_last() =~= commits@.take(i as int));
            assert(commits@.take(i as int + 1).last() == commits@[i as int]);
        }
        let ts = format_timestamp(commits[i].time_secs);
        out.append(ts.as_str());
        out.append(": ");
        out.append(trim_str(commits[i].message.as_str()));
        out.append("\n");
        proof {
            assert(out@ =~= spec_commits_text(commits@.take(i as int + 1)));
        }
        i = i + 1;
    }
    proof {
        assert(commits@.take(commits@.len() as int) =~= commits@);
    }
    out
}

/// The reported text for a skip reason: a fixed message for invalid text,
/// the responsible pattern, or the read error's description.
pub open spec fn spec_reason_text(r: SkipReason) -> Seq<char> {
    match r {
        SkipReason::InvalidUtf8 => "Invalid UTF-8 encoding"@,
        SkipReason::GlobExcluded(p) => p@,
        SkipReason::ReadError(e) => e@,
    }
}

/// One line of the skipped-files report.
pub open spec fn spec_skipped_line(s: SkippedFile) -> Seq<char> {
    s.path@ + ": "@ + spec_reason_text(s.reason) + "\n"@
}

/// The lines of the skipped-files report, in the given order.
pub open spec fn spec_skipped_lines(skipped: Seq<SkippedFile>) -> Seq<char>
    decreases skipped.len(),
{
    if skipped.len() == 0 {
        Seq::empty()
    } else {
        spec_skipped_lines(skipped.drop_last()) + spec_skipped_line(skipped.last())
    }
}

/// The skipped-files report: a fixed sentence when nothing was skipped, else
/// a header, a divider, and one line per skipped file.
pub open spec fn spec_skipped_text(skipped: Seq<SkippedFile>) -> Seq<char> {
    if skipped.len() == 0 {
        "\nNo files were skipped."@
    } else {
        "\nSkipped Files:\n"@ + "-------------\n"@ + spec_skipped_lines(skipped)
    }
}

/// Renders the skipped-files report: one `<path>: <reason>` line per skipped
/// file, or a fixed sentence when there is none.
pub fn format_skipped_files(skipped: &Vec<SkippedFile>) -> (r: String)
    ensures
        r@ == spec_skipped_text(skipped@),
{
    if skipped.len() == 0 {
        return String::from_str("\nNo files were skipped.");
    }
    let mut out = String::from_str("\nSkipped Files:\n");
    out.append("-------------\n");
    let ghost header = out@;
    let mut i: usize = 0;
    while i < skipped.len()
        invariant
            0 <= i <= skipped@.len(),
            header == "\nSkipped Files:\n"@ + "-------------\n"@,
            out@ == header + spec_skipped_lines(skipped@.take(i as int)),
        decreases skipped@.len() - i,
    {
        proof {
            assert(skipped@.take(i as int + 1).drop_last() =~= skipped@.take(i as int));
            assert(skipped@.take(i as int + 1).last() == skipped@[i as int]);
        }
        out.append(skipped[i].path.as_str());
        out.append(": ");
        let reason: &str = match &skipped[i].reason {
            SkipReason::InvalidUtf8 => "Invalid UTF-8 encoding",
            SkipReason::GlobExcluded(p) => p.as_str(),
            SkipReason::ReadError(e) => e.as_str(),
        };
        out.append(reason);
        out.append("\n");
        proof {
            assert(out@ =~= header + spec_skipped_lines(skipped@.take(i as int + 1)));
        }
        i = i + 1;
    }
    proof {
        assert(skipped@.take(skipped@.len() as int) =~= skipped@);
    }
    out
}

/// Keeps the most recent commits: the first `count` of the walked list, or
/// all of them when there are fewer.
pub fn get_recent_commits(commits: Vec<CommitInfo>, count: usize) -> (r: Vec<CommitInfo>)
    ensures
        count <= commits@.len() ==> r@ == commits@.take(count as int),
        count > commits@.len() ==> r@ == commits@,
        r@.len() == if count as int <= commits@.len() {
            count as int
        } else {
            commits@.len() as int
        },
{
    let mut r = commits;
    r.truncate(count);
    proof {
        if count <= r@.len() {
            assert(r@ =~= r@);
        }
    }
    r
}

/// One file's block in the contents section: its header line, then the
/// rendered body fenced between delimiter lines.
pub open spec fn spec_file_entry(f: FormattedFile) -> Seq<char> {
    "File: "@ + f.path@ + " (Last modified: "@ + spec_timestamp(f.modified_secs as int) + ")\n"@
        + "```\n"@ + f.content@ + "\n```"@
}

/// The file blocks joined by blank lines, in the given order.
pub open spec fn spec_files_joined(files: Seq<FormattedFile>) -> Seq<char>
    decreases files.len(),
{
    if files.len() == 0 {
        Seq::empty()
    } else {
        let pre = spec_files_joined(files.drop_last());
        let entry = spec_file_entry(files.last());
        if files.len() == 1 {
            entry
        } else {
            pre + "\n\n"@ + entry
        }
    }
}

/// The whole document: the listing, the skipped-files report, the commit
/// section, the contents header, and the file blocks, in that fixed order.
pub open spec fn spec_full_output(
    listing: Seq<char>,
    commits: Seq<CommitInfo>,
    skipped: Seq<SkippedFile>,
    files: Seq<FormattedFile>,
) -> Seq<char> {
    listing + spec_skipped_text(skipped) + spec_commits_text(commits)
        + "\nFile Contents:\n=============\n\n"@ + spec_files_joined(files)
}

/// Assembles the final document from its four parts, in fixed order.
pub fn format_full_output(
    files: Vec<FormattedFile>,
    file_listing: String,
    commits: &Vec<CommitInfo>,
    skipped_files: &Vec<SkippedFile>,
) -> (r: String)
    ensures
        r@ == spec_full_output(file_listing@, commits@, skipped_files@, files@),
{
    let mut out = file_listing;
    let skipped_text = format_skipped_files(skipped_files);
    out.append(skipped_text.as_str());
    let commits_text = format_commits(commits);
    out.append(commits_text.as_str());
    out.append("\nFile Contents:\n=============\n\n");
    let ghost head = out@;
    let mut i: usize = 0;
    while i < files.len()
        invariant
            0 <= i <= files@.len(),
            head == spec_full_output(
                file_listing@,
                commits@,
                skipped_files@,
                Seq::<FormattedFile>::empty(),
            ),
            out@ == head + spec_files_joined(files@.take(i as int)),
        decreases files@.len() - i,
    {
        proof {
            assert(files@.take(i as int + 1).drop_last() =~= files@.take(i as int));
            assert(files@.take(i as int + 1).last() == files@[i as int]);
        }
        if i > 0 {
            out.append("\n\n");
        }
        out.append("File: ");
        out.append(files[i].path.as_str());
        out.append(" (Last modified: ");
        let ts = format_timestamp(files[i].modified_secs);
        out.append(ts.as_str());
        out.append(")\n");
        out.append("```\n");
        out.append(files[i].content.as_str());
        out.append("\n```");
        proof {
            assert(out@ =~= head + spec_files_joined(files@.take(i as int + 1)));
        }
        i = i + 1;
    }
    proof {
        assert(files@.take(files@.len() as int) =~= files@);
        assert(out@ =~= spec_full_output(file_listing@, commits@, skipped_files@, files@));
    }
    out
}

} // verus!
