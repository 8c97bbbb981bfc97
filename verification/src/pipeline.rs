//! The run itself: partitioning the listed files into rendered and skipped
//! ones, and assembling the final document. Every listed path ends in
//! exactly one of the two lists, and the whole document is a function of
//! the inputs alone.

use vstd::prelude::*;
use crate::filter::{
    glob_ok, spec_all_ok, spec_first_match, classify, validate_patterns,
};
use crate::select::{spec_selected, spec_sort_desc, tracked_files_multiple};
use crate::render::{spec_lines_valid, spec_decoded_lines, spec_rendered, format_file};
use crate::compose::{
    spec_file_listing, spec_commits_text, spec_skipped_line, spec_skipped_lines,
    spec_skipped_text, spec_file_entry, spec_files_joined, spec_timestamp,
    format_file_listing, format_full_output, get_recent_commits,
};
use crate::types::{
    CommitInfo, FormattedFile, IndexEntry, ReadOutcome, SkipReason, SkippedFile, TrackedFile,
};

verus! {

/// Some pattern in the list matches the path.
pub open spec fn spec_pattern_excluded(pats: Seq<Seq<char>>, path: Seq<char>) -> bool {
    spec_first_match(pats, path) is Some
}

/// The listed files that no pattern excludes, in order.
pub open spec fn spec_admitted(listed: Seq<TrackedFile>, pats: Seq<Seq<char>>) -> Seq<
    TrackedFile,
>
    decreases listed.len(),
{
    if listed.len() == 0 {
        Seq::empty()
    } else {
        spec_admitted(listed.drop_last(), pats) + (if !spec_pattern_excluded(
            pats,
            listed.last().path@,
        ) {
            seq![listed.last()]
        } else {
            Seq::empty()
        })
    }
}

proof fn lemma_admitted_prefix_le(listed: Seq<TrackedFile>, pats: Seq<Seq<char>>, i: int)
    requires
        0 <= i <= listed.len(),
    ensures
        spec_admitted(listed.take(i), pats).len() <= spec_admitted(listed, pats).len(),
    decreases listed.len(),
{
    if i == listed.len() {
        assert(listed.take(i) =~= listed);
    } else {
        assert(listed.take(i) =~= listed.drop_last().take(i));
        lemma_admitted_prefix_le(listed.drop_last(), pats, i);
    }
}

/// A skip reason at the level of views: what the reason says, free of the
/// carrying String values.
pub enum SpecReason {
    InvalidText,
    Pattern(Seq<char>),
    Read(Seq<char>),
}

/// The view of a skip reason.
pub open spec fn spec_reason_of(r: SkipReason) -> SpecReason {
    match r {
        SkipReason::InvalidUtf8 => SpecReason::InvalidText,
        SkipReason::GlobExcluded(p) => SpecReason::Pattern(p@),
        SkipReason::ReadError(e) => SpecReason::Read(e@),
    }
}

/// The view of a skipped file: its path and its reason.
pub open spec fn spec_skipped_of(s: SkippedFile) -> (Seq<char>, SpecReason) {
    (s.path@, spec_reason_of(s.reason))
}

/// The view of a rendered file: its path, its content, its timestamp.
pub open spec fn spec_formatted_of(f: FormattedFile) -> (Seq<char>, Seq<char>, int) {
    (f.path@, f.content@, f.modified_secs as int)
}

/// The views of a list of rendered files.
pub open spec fn spec_formatted_views(fs: Seq<FormattedFile>) -> Seq<(Seq<char>, Seq<char>, int)> {
    fs.map_values(|f: FormattedFile| spec_formatted_of(f))
}

/// The views of a list of skipped files.
pub open spec fn spec_skipped_views(ss: Seq<SkippedFile>) -> Seq<(Seq<char>, SpecReason)> {
    ss.map_values(|s: SkippedFile| spec_skipped_of(s))
}

/// What one run makes of the listed files, at the level of views: the
/// rendered files and the skipped files, each in the order produced. The
/// outcome list holds one entry per admitted file, in admitted order.
pub open spec fn spec_process(
    listed: Seq<TrackedFile>,
    pats: Seq<Seq<char>>,
    outcomes: Seq<ReadOutcome>,
) -> (Seq<(Seq<char>, Seq<char>, int)>, Seq<(Seq<char>, SpecReason)>)
    decreases listed.len(),
{
    if listed.len() == 0 {
        (Seq::empty(), Seq::empty())
    } else {
        let rec = spec_process(listed.drop_last(), pats, outcomes);
        let t = listed.last();
        match spec_first_match(pats, t.path@) {
            Some(i) => (rec.0, rec.1.push((t.path@, SpecReason::Pattern(pats[i])))),
            None => {
                let k = spec_admitted(listed.drop_last(), pats).len();
                match outcomes[k as int] {
                    ReadOutcome::Failed(e) => (rec.0, rec.1.push((t.path@, SpecReason::Read(e@)))),
                    ReadOutcome::Bytes(b) => if spec_lines_valid(b@) {
                        (
                            rec.0.push(
                                (t.path@, spec_rendered(spec_decoded_lines(b@)), t.modified_secs
                                    as int),
                            ),
                            rec.1,
                        )
                    } else {
                        (rec.0, rec.1.push((t.path@, SpecReason::InvalidText)))
                    },
                }
            },
        }
    }
}

/// The admitted listed files: those that no exclusion pattern matches, in
/// the given order. These are the files whose bytes a run must read.
pub fn admitted_files(listed: &Vec<TrackedFile>, patterns: &Vec<String>) -> (r: Vec<TrackedFile>)
    requires
        spec_all_ok(patterns.deep_view()),
    ensures
        r@ == spec_admitted(listed@, patterns.deep_view()),
{
    let mut out: Vec<TrackedFile> = Vec::new();
    let mut i: usize = 0;
    while i < listed.len()
        invariant
            0 <= i <= listed@.len(),
            spec_all_ok(patterns.deep_view()),
            out@ == spec_admitted(listed@.take(i as int), patterns.deep_view()),
        decreases listed@.len() - i,
    {
        proof {
            assert(listed@.take(i as int + 1).drop_last() =~= listed@.take(i as int));
            assert(listed@.take(i as int + 1).last() == listed@[i as int]);
        }
        let c = classify(patterns, listed[i].path.as_str());
        if c.is_none() {
            let tf = TrackedFile {
                path: listed[i].path.clone(),
                modified_secs: listed[i].modified_secs,
            };
            proof {
                assert(tf == listed@[i as int]);
            }
            out.push(tf);
        }
        proof {
            assert(out@ =~= spec_admitted(listed@.take(i as int + 1), patterns.deep_view()));
        }
        i = i + 1;
    }
    proof {
        assert(listed@.take(listed@.len() as int) =~= listed@);
    }
    out
}

/// Walks the listed files in order and gives each its terminal
/// classification: pattern-excluded files and failed or non-text reads are
/// recorded as skipped, everything else is rendered. One read outcome is
/// consumed per admitted file, in order.
pub fn process_files(
    listed: &Vec<TrackedFile>,
    patterns: &Vec<String>,
    outcomes: Vec<ReadOutcome>,
) -> (r: (Vec<FormattedFile>, Vec<SkippedFile>))
    requires
        spec_all_ok(patterns.deep_view()),
        outcomes@.len() == spec_admitted(listed@, patterns.deep_view()).len(),
    ensures
        spec_formatted_views(r.0@) == spec_process(listed@, patterns.deep_view(), outcomes@).0,
        spec_skipped_views(r.1@) == spec_process(listed@, patterns.deep_view(), outcomes@).1,
        r.0@.len() + r.1@.len() == listed@.len(),
{
    let ghost all_outcomes = outcomes@;
    let ghost pats = patterns.deep_view();
    let mut rest = outcomes;
    let mut formatted: Vec<FormattedFile> = Vec::new();
    let mut skipped: Vec<SkippedFile> = Vec::new();
    let mut i: usize = 0;
    let mut k: usize = 0;
    while i < listed.len()
        invariant
            0 <= i <= listed@.len(),
            spec_all_ok(pats),
            pats == patterns.deep_view(),
            all_outcomes.len() == spec_admitted(listed@, pats).len(),
            k == spec_admitted(listed@.take(i as int), pats).len(),
            rest@ == all_outcomes.skip(k as int),
            k <= all_outcomes.len(),
            k <= i,
            spec_formatted_views(formatted@) == spec_process(
                listed@.take(i as int),
                pats,
                all_outcomes,
            ).0,
            spec_skipped_views(skipped@) == spec_process(
                listed@.take(i as int),
                pats,
                all_outcomes,
            ).1,
            formatted@.len() + skipped@.len() == i,
        decreases listed@.len() - i,
    {
        proof {
            assert(listed@.take(i as int + 1).drop_last() =~= listed@.take(i as int));
            assert(listed@.take(i as int + 1).last() == listed@[i as int]);
        }
        let ghost prev_f = spec_formatted_views(formatted@);
        let ghost prev_s = spec_skipped_views(skipped@);
        let c = classify(patterns, listed[i].path.as_str());
        match c {
            Some(pi) => {
                proof {
                    crate::filter::lemma_first_match_characterization(
                        pats,
                        listed@[i as int].path@,
                    );
                }
                let sf = SkippedFile {
                    path: listed[i].path.clone(),
                    reason: SkipReason::GlobExcluded(patterns[pi].clone()),
                };
                proof {
                    assert(patterns@[pi as int]@ == pats[pi as int]);
                    assert(spec_skipped_of(sf) == (listed@[i as int].path@, SpecReason::Pattern(
                        pats[pi as int],
                    )));
                }
                skipped.push(sf);
                proof {
                    assert(spec_skipped_views(skipped@) =~= prev_s.push((
                        listed@[i as int].path@,
                        SpecReason::Pattern(pats[pi as int]),
                    )));
                    assert(spec_admitted(listed@.take(i as int + 1), pats) =~= spec_admitted(
                        listed@.take(i as int),
                        pats,
                    ));
                }
            },
            None => {
                proof {
                    assert(spec_admitted(listed@.take(i as int + 1), pats) =~= spec_admitted(
                        listed@.take(i as int),
                        pats,
                    ).push(listed@[i as int]));
                    lemma_admitted_prefix_le(listed@, pats, i as int + 1);
                    assert(k < all_outcomes.len());
                }
                let oc = rest.remove(0);
                proof {
                    assert(oc == all_outcomes[k as int]);
                    assert(rest@ =~= all_outcomes.skip(k as int + 1));
                }
                let res = format_file(listed[i].path.as_str(), listed[i].modified_secs, oc);
                match res {
                    Ok(f) => {
                        formatted.push(f);
                        proof {
                            assert(spec_formatted_views(formatted@) =~= prev_f.push(spec_process(
                                listed@.take(i as int + 1),
                                pats,
                                all_outcomes,
                            ).0.last()));
                        }
                    },
                    Err(reason) => {
                        let sf = SkippedFile { path: listed[i].path.clone(), reason };
                        skipped.push(sf);
                        proof {
                            assert(spec_skipped_views(skipped@) =~= prev_s.push(spec_process(
                                listed@.take(i as int + 1),
                                pats,
                                all_outcomes,
                            ).1.last()));
                        }
                    },
                }
                k = k + 1;
            },
        }
        proof {
            let now = spec_process(listed@.take(i as int + 1), pats, all_outcomes);
            assert(spec_formatted_views(formatted@) =~= now.0);
            assert(spec_skipped_views(skipped@) =~= now.1);
        }
        i = i + 1;
    }
    proof {
        assert(listed@.take(listed@.len() as int) =~= listed@);
    }
    (formatted, skipped)
}

/// The paths of the tracked listing, in order.
pub open spec fn spec_listed_paths(listed: Seq<TrackedFile>) -> Seq<Seq<char>> {
    listed.map_values(|t: TrackedFile| t.path@)
}

/// The paths of the rendered files, in order.
pub open spec fn spec_rendered_paths(fs: Seq<(Seq<char>, Seq<char>, int)>) -> Seq<Seq<char>> {
    fs.map_values(|e: (Seq<char>, Seq<char>, int)| e.0)
}

/// The paths of the skipped files, in order.
pub open spec fn spec_skip_paths(ss: Seq<(Seq<char>, SpecReason)>) -> Seq<Seq<char>> {
    ss.map_values(|e: (Seq<char>, SpecReason)| e.0)
}

/// Law: after a run every tracked path stands in exactly one of the two
/// result lists. Taken together, the rendered files and the skipped files
/// hold each path exactly as often as the tracked listing does — never
/// both, never neither.
pub proof fn lemma_paths_partition(
    listed: Seq<TrackedFile>,
    pats: Seq<Seq<char>>,
    outcomes: Seq<ReadOutcome>,
)
    ensures
        ({
            let r = spec_process(listed, pats, outcomes);
            spec_rendered_paths(r.0).to_multiset().add(spec_skip_paths(r.1).to_multiset())
                == spec_listed_paths(listed).to_multiset()
        }),
    decreases listed.len(),
{
    broadcast use vstd::seq_lib::group_to_multiset_ensures;

    let r = spec_process(listed, pats, outcomes);
    if listed.len() == 0 {
        assert(spec_rendered_paths(r.0) =~= Seq::<Seq<char>>::empty());
        assert(spec_skip_paths(r.1) =~= Seq::<Seq<char>>::empty());
        assert(spec_listed_paths(listed) =~= Seq::<Seq<char>>::empty());
        assert(spec_rendered_paths(r.0).to_multiset().add(spec_skip_paths(r.1).to_multiset())
            =~= spec_listed_paths(listed).to_multiset());
    } else {
        lemma_paths_partition(listed.drop_last(), pats, outcomes);
        let rp = spec_process(listed.drop_last(), pats, outcomes);
        let p = listed.last().path@;
        assert(spec_listed_paths(listed) =~= spec_listed_paths(listed.drop_last()).push(p));
        if r.1.len() == rp.1.len() + 1 {
            assert(spec_skip_paths(r.1) =~= spec_skip_paths(rp.1).push(p));
            assert(spec_rendered_paths(r.0) =~= spec_rendered_paths(rp.0));
        } else {
            assert(spec_rendered_paths(r.0) =~= spec_rendered_paths(rp.0).push(p));
            assert(spec_skip_paths(r.1) =~= spec_skip_paths(rp.1));
        }
        assert(spec_rendered_paths(r.0).to_multiset().add(spec_skip_paths(r.1).to_multiset())
            =~= spec_listed_paths(listed).to_multiset());
    }
}

/// The reported text of a skip reason, at the level of views.
pub open spec fn spec_reason_text_v(r: SpecReason) -> Seq<char> {
    match r {
        SpecReason::InvalidText => "Invalid UTF-8 encoding"@,
        SpecReason::Pattern(p) => p,
        SpecReason::Read(e) => e,
    }
}

/// One line of the skipped-files report, at the level of views.
pub open spec fn spec_skipped_line_v(e: (Seq<char>, SpecReason)) -> Seq<char> {
    e.0 + ": "@ + spec_reason_text_v(e.1) + "\n"@
}

/// The lines of the skipped-files report, at the level of views.
pub open spec fn spec_skipped_lines_v(ss: Seq<(Seq<char>, SpecReason)>) -> Seq<char>
    decreases ss.len(),
{
    if ss.len() == 0 {
        Seq::empty()
    } else {
        spec_skipped_lines_v(ss.drop_last()) + spec_skipped_line_v(ss.last())
    }
}

/// The skipped-files report, at the level of views.
pub open spec fn spec_skipped_text_v(ss: Seq<(Seq<char>, SpecReason)>) -> Seq<char> {
    if ss.len() == 0 {
        "\nNo files were skipped."@
    } else {
        "\nSkipped Files:\n"@ + "-------------\n"@ + spec_skipped_lines_v(ss)
    }
}

proof fn lemma_skipped_lines_view(ss: Seq<SkippedFile>)
    ensures
        spec_skipped_lines(ss) == spec_skipped_lines_v(spec_skipped_views(ss)),
    decreases ss.len(),
{
    if ss.len() == 0 {
    } else {
        lemma_skipped_lines_view(ss.drop_last());
        assert(spec_skipped_views(ss).drop_last() =~= spec_skipped_views(ss.drop_last()));
        assert(spec_skipped_views(ss).last() == spec_skipped_of(ss.last()));
        assert(spec_skipped_line_v(spec_skipped_of(ss.last())) =~= spec_skipped_line(ss.last()));
    }
}

proof fn lemma_skipped_text_view(ss: Seq<SkippedFile>)
    ensures
        spec_skipped_text(ss) == spec_skipped_text_v(spec_skipped_views(ss)),
{
    lemma_skipped_lines_view(ss);
    assert(spec_skipped_views(ss).len() == ss.len());
}

/// One file block of the contents section, at the level of views.
pub open spec fn spec_file_entry_v(e: (Seq<char>, Seq<char>, int)) -> Seq<char> {
    "File: "@ + e.0 + " (Last modified: "@ + spec_timestamp(e.2) + ")\n"@ + "```\n"@ + e.1
        + "\n```"@
}

/// The file blocks joined by blank lines, at the level of views.
pub open spec fn spec_files_joined_v(fs: Seq<(Seq<char>, Seq<char>, int)>) -> Seq<char>
    decreases fs.len(),
{
    if fs.len() == 0 {
        Seq::empty()
    } else {
        let pre = spec_files_joined_v(fs.drop_last());
        let entry = spec_file_entry_v(fs.last());
        if fs.len() == 1 {
            entry
        } else {
            pre + "\n\n"@ + entry
        }
    }
}

proof fn lemma_files_joined_view(fs: Seq<FormattedFile>)
    ensures
        spec_files_joined(fs) == spec_files_joined_v(spec_formatted_views(fs)),
    decreases fs.len(),
{
    if fs.len() == 0 {
    } else {
        lemma_files_joined_view(fs.drop_last());
        assert(spec_formatted_views(fs).drop_last() =~= spec_formatted_views(fs.drop_last()));
        assert(spec_formatted_views(fs).last() == spec_formatted_of(fs.last()));
        assert(spec_file_entry_v(spec_formatted_of(fs.last())) =~= spec_file_entry(fs.last()));
    }
}

/// The whole document of one run, as a function of the run's inputs alone:
/// the ordered tracked listing, the effective patterns, the walked commits,
/// the requested commit count, and the read outcome of each admitted file.
pub open spec fn spec_run(
    listed: Seq<TrackedFile>,
    pats: Seq<Seq<char>>,
    commits: Seq<CommitInfo>,
    count: int,
    outcomes: Seq<ReadOutcome>,
) -> Seq<char> {
    let r = spec_process(listed, pats, outcomes);
    let kept = if count <= commits.len() {
        commits.take(count)
    } else {
        commits
    };
    spec_file_listing(listed) + spec_skipped_text_v(r.1) + spec_commits_text(kept)
        + "\nFile Contents:\n=============\n\n"@ + spec_files_joined_v(r.0)
}

/// Law: the document is a function of the run's inputs alone. Two runs over
/// the same listing, patterns, commits, requested count and read outcomes
/// produce byte-identical output.
pub proof fn lemma_run_deterministic(
    listed1: Seq<TrackedFile>,
    pats1: Seq<Seq<char>>,
    commits1: Seq<CommitInfo>,
    count1: int,
    outcomes1: Seq<ReadOutcome>,
    listed2: Seq<TrackedFile>,
    pats2: Seq<Seq<char>>,
    commits2: Seq<CommitInfo>,
    count2: int,
    outcomes2: Seq<ReadOutcome>,
)
    requires
        listed1 == listed2,
        pats1 == pats2,
        commits1 == commits2,
        count1 == count2,
        outcomes1 == outcomes2,
    ensures
        spec_run(listed1, pats1, commits1, count1, outcomes1) == spec_run(
            listed2,
            pats2,
            commits2,
            count2,
            outcomes2,
        ),
{
}

/// Classifies every tracked file, renders the admitted ones from their read
/// outcomes, and assembles the final document.
pub fn finish_run(
    listed: &Vec<TrackedFile>,
    patterns: &Vec<String>,
    commits: Vec<CommitInfo>,
    commit_count: usize,
    outcomes: Vec<ReadOutcome>,
) -> (r: String)
    requires
        spec_all_ok(patterns.deep_view()),
        outcomes@.len() == spec_admitted(listed@, patterns.deep_view()).len(),
    ensures
        r@ == spec_run(listed@, patterns.deep_view(), commits@, commit_count as int, outcomes@),
{
    let ghost ocs = outcomes@;
    let ghost cms = commits@;
    let pair = process_files(listed, patterns, outcomes);
    let formatted = pair.0;
    let skipped = pair.1;
    let ghost fseq = formatted@;
    let ghost sseq = skipped@;
    let listing = format_file_listing(listed);
    let kept = get_recent_commits(commits, commit_count);
    let out = format_full_output(formatted, listing, &kept, &skipped);
    proof {
        lemma_skipped_text_view(sseq);
        lemma_files_joined_view(fseq);
        assert(out@ =~= spec_run(
            listed@,
            patterns.deep_view(),
            cms,
            commit_count as int,
            ocs,
        ));
    }
    out
}

/// As finish_run, but checks its own preconditions: None when some pattern
/// does not compile or the outcome list does not hold exactly one entry per
/// admitted file.
pub fn finish_run_checked(
    listed: &Vec<TrackedFile>,
    patterns: &Vec<String>,
    commits: Vec<CommitInfo>,
    commit_count: usize,
    outcomes: Vec<ReadOutcome>,
) -> (r: Option<String>)
    ensures
        (r is Some) == (spec_all_ok(patterns.deep_view()) && outcomes@.len() == spec_admitted(
            listed@,
            patterns.deep_view(),
        ).len()),
        r matches Some(s) ==> s@ == spec_run(
            listed@,
            patterns.deep_view(),
            commits@,
            commit_count as int,
            outcomes@,
        ),
{
    match validate_patterns(patterns) {
        Some(_) => None,
        None => {
            let admitted = admitted_files(listed, patterns);
            if admitted.len() == outcomes.len() {
                Some(finish_run(listed, patterns, commits, commit_count, outcomes))
            } else {
                None
            }
        },
    }
}

/// Prepares a run: builds the effective pattern list (the built-in defaults
/// followed by the user patterns), refuses it when some pattern does not
/// compile, and otherwise selects and orders the tracked files. Returns the
/// pattern list, the listing, and the admitted files whose bytes the run
/// must read; or the index, in the effective list, of the first pattern
/// that does not parse or compile.
pub fn plan_run(
    entries: Vec<IndexEntry>,
    scopes: &Vec<String>,
    user_patterns: &Vec<String>,
) -> (r: Result<(Vec<String>, Vec<TrackedFile>, Vec<TrackedFile>), usize>)
    ensures
        match r {
            Ok(p) => {
                &&& p.0.deep_view() == crate::filter::spec_default_patterns()
                    + user_patterns.deep_view()
                &&& spec_all_ok(p.0.deep_view())
                &&& p.1@ == spec_sort_desc(spec_selected(entries@, scopes.deep_view()))
                &&& p.2@ == spec_admitted(p.1@, p.0.deep_view())
            },
            Err(i) => i < 4 + user_patterns@.len() && !glob_ok(
                (crate::filter::spec_default_patterns() + user_patterns.deep_view())[i as int],
            ) && (forall|j: int|
                0 <= j < i ==> glob_ok(
                    (crate::filter::spec_default_patterns() + user_patterns.deep_view())[j],
                )),
        },
{
    let patterns = crate::filter::build_patterns(user_patterns);
    match validate_patterns(&patterns) {
        Some(i) => {
            proof {
                assert(patterns.deep_view().len() == patterns@.len());
                assert(user_patterns.deep_view().len() == user_patterns@.len());
            }
            Err(i)
        },
        None => {
            let listed = tracked_files_multiple(entries, scopes);
            let admitted = admitted_files(&listed, &patterns);
            Ok((patterns, listed, admitted))
        },
    }
}

} // verus!
