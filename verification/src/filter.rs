//! The filter engine: an ordered list of glob exclusion patterns (built-in
//! defaults first, then user-supplied ones) and the first-match
//! classification of a path against them.

use vstd::prelude::*;
use vstd::string::StringExecFns;

verus! {

/// Whether the glob pattern parses and its matcher compiles, as globset
/// decides it.
pub uninterp spec fn glob_ok(pat: Seq<char>) -> bool;

/// Whether the glob pattern matches the path, as globset decides it. On
/// non-Unix targets globset rewrites `\` to `/` in the path before
/// matching, so a path holding backslashes can match differently there.
pub uninterp spec fn glob_matches(pat: Seq<char>, path: Seq<char>) -> bool;

/// Relies on globset::Glob::new and GlobSetBuilder::build: a pattern is
/// accepted exactly when it parses and its matcher compiles (build returns
/// Err, rather than panicking, when the compiled regex would exceed
/// globset's size limit); both depend on the pattern alone.
#[verifier::external_body]
fn glob_pattern_ok(pattern: &str) -> (r: bool)
    ensures
        r == glob_ok(pattern@),
{
    match globset::Glob::new(pattern) {
        Ok(g) => {
            let mut b = globset::GlobSetBuilder::new();
            b.add(g);
            b.build().is_ok()
        },
        Err(_) => false,
    }
}

/// Relies on globset::Glob::new, GlobSetBuilder::build and
/// GlobSet::is_match: the one-pattern set matches the path exactly when the
/// pattern does, and the result depends on the pattern and the path alone
/// (see `glob_matches` for the non-Unix path caveat). None comes exactly
/// when the pattern does not parse or its matcher does not compile.
#[verifier::external_body]
fn glob_match_path(pattern: &str, path: &str) -> (r: Option<bool>)
    ensures
        (r is Some) == glob_ok(pattern@),
        r matches Some(b) ==> b == glob_matches(pattern@, path@),
{
    match globset::Glob::new(pattern) {
        Ok(g) => {
            let mut b = globset::GlobSetBuilder::new();
            b.add(g);
            b.build().ok().map(|set| set.is_match(path))
        },
        Err(_) => None,
    }
}

/// The built-in exclusion patterns, in the order they are consulted.
pub open spec fn spec_default_patterns() -> Seq<Seq<char>> {
    seq!["*.lock"@, "*.log"@, "**/*.csv"@, "**/*.mat"@]
}

/// All patterns in the list parse and compile.
pub open spec fn spec_all_ok(pats: Seq<Seq<char>>) -> bool {
    forall|i: int| 0 <= i < pats.len() ==> glob_ok(pats[i])
}

/// The index of the first pattern in the list that matches the path, if any.
pub open spec fn spec_first_match(pats: Seq<Seq<char>>, path: Seq<char>) -> Option<int>
    decreases pats.len(),
{
    if pats.len() == 0 {
        None
    } else if glob_matches(pats[0], path) {
        Some(0int)
    } else {
        match spec_first_match(pats.drop_first(), path) {
            None => None,
            Some(i) => Some(i + 1),
        }
    }
}

/// The first match is a match, and nothing before it matches; absence of a
/// first match means nothing matches.
pub proof fn lemma_first_match_characterization(pats: Seq<Seq<char>>, path: Seq<char>)
    ensures
        match spec_first_match(pats, path) {
            None => forall|i: int| 0 <= i < pats.len() ==> !glob_matches(pats[i], path),
            Some(i) => 0 <= i < pats.len() && glob_matches(pats[i], path)
                && (forall|j: int| 0 <= j < i ==> !glob_matches(pats[j], path)),
        },
    decreases pats.len(),
{
    if pats.len() == 0 {
    } else if glob_matches(pats[0], path) {
    } else {
        lemma_first_match_characterization(pats.drop_first(), path);
        assert forall|i: int| 1 <= i < pats.len() implies pats.drop_first()[i - 1] == pats[i] by {}
    }
}

/// The built-in exclusion patterns: lock files, log files, and data files
/// (csv, mat) at any depth.
pub fn default_patterns() -> (r: Vec<String>)
    ensures
        r.deep_view() == spec_default_patterns(),
{
    let mut v: Vec<String> = Vec::new();
    v.push(String::from_str("*.lock"));
    v.push(String::from_str("*.log"));
    v.push(String::from_str("**/*.csv"));
    v.push(String::from_str("**/*.mat"));
    proof {
        assert(v.deep_view() =~~= spec_default_patterns());
    }
    v
}

/// The effective pattern list: the built-in defaults followed by the
/// user-supplied patterns, in that order.
pub fn build_patterns(user: &Vec<String>) -> (r: Vec<String>)
    ensures
        r.deep_view() == spec_default_patterns() + user.deep_view(),
{
    let mut v = default_patterns();
    let mut i: usize = 0;
    while i < user.len()
        invariant
            0 <= i <= user@.len(),
            v.deep_view() == spec_default_patterns() + user.deep_view().take(i as int),
        decreases user@.len() - i,
    {
        let ghost prev = v.deep_view();
        let s: String = user[i].clone();
        proof {
            assert(s == user@[i as int]);
        }
        v.push(s);
        proof {
            let dv = v.deep_view();
            let target = spec_default_patterns() + user.deep_view().take(i as int + 1);
            assert(dv.len() == v@.len());
            assert(v@.len() == prev.len() + 1);
            assert(prev.len() == 4 + i);
            assert(spec_default_patterns().len() == 4);
            assert(user.deep_view().take(i as int + 1).len() == i + 1);
            assert(dv.len() == target.len());
            assert forall|j: int| 0 <= j < dv.len() implies dv[j] == target[j] by {
                if j < prev.len() {
                    assert(dv[j] == prev[j]);
                    assert(prev[j] == target[j]);
                } else {
                    assert(dv[j] == user@[i as int].deep_view());
                    assert(target[j] == user.deep_view()[i as int]);
                }
            }
            assert(dv =~~= target);
        }
        i = i + 1;
    }
    proof {
        assert(user.deep_view().take(user@.len() as int) =~~= user.deep_view());
    }
    v
}

/// Checks that every pattern parses and compiles; returns the index of the
/// first pattern that does not, or None when all do.
pub fn validate_patterns(patterns: &Vec<String>) -> (r: Option<usize>)
    ensures
        match r {
            None => spec_all_ok(patterns.deep_view()),
            Some(i) => i < patterns@.len() && !glob_ok(patterns.deep_view()[i as int])
                && (forall|j: int| 0 <= j < i ==> glob_ok(patterns.deep_view()[j])),
        },
{
    let mut i: usize = 0;
    while i < patterns.len()
        invariant
            0 <= i <= patterns@.len(),
            forall|j: int| 0 <= j < i ==> glob_ok(patterns.deep_view()[j]),
        decreases patterns@.len() - i,
    {
        if !glob_pattern_ok(patterns[i].as_str()) {
            return Some(i);
        }
        i = i + 1;
    }
    None
}

/// Classifies a path against the ordered pattern list: the index of the
/// first matching pattern, or None when no pattern matches (the path is
/// admitted).
pub fn classify(patterns: &Vec<String>, path: &str) -> (r: Option<usize>)
    requires
        spec_all_ok(patterns.deep_view()),
    ensures
        (r is None) == (spec_first_match(patterns.deep_view(), path@) is None),
        r matches Some(i) ==> spec_first_match(patterns.deep_view(), path@) == Some(i as int),
{
    proof {
        lemma_first_match_characterization(patterns.deep_view(), path@);
    }
    let mut i: usize = 0;
    while i < patterns.len()
        invariant
            0 <= i <= patterns@.len(),
            spec_all_ok(patterns.deep_view()),
            forall|j: int| 0 <= j < i ==> !glob_matches(patterns.deep_view()[j], path@),
            match spec_first_match(patterns.deep_view(), path@) {
                None => forall|k: int| 0 <= k < patterns.deep_view().len()
                    ==> !glob_matches(patterns.deep_view()[k], path@),
                Some(k) => 0 <= k < patterns.deep_view().len()
                    && glob_matches(patterns.deep_view()[k], path@)
                    && (forall|j: int| 0 <= j < k
                        ==> !glob_matches(patterns.deep_view()[j], path@)),
            },
        decreases patterns@.len() - i,
    {
        proof {
            assert(patterns.deep_view()[i as int] == patterns@[i as int]@);
        }
        let m = glob_match_path(patterns[i].as_str(), path);
        match m {
            Some(true) => {
                return Some(i);
            },
            _ => {},
        }
        i = i + 1;
    }
    None
}

/// Law: a path that the built-in "*.log" pattern matches is, with no user
/// patterns given, excluded with "*.log" as the responsible pattern,
/// whatever the file's content. Since the first matching pattern is the one
/// reported, this asks that the earlier "*.lock" default not match the path
/// as well.
pub proof fn lemma_log_always_excluded(path: Seq<char>)
    requires
        glob_matches("*.log"@, path),
        !glob_matches("*.lock"@, path),
    ensures
        spec_first_match(spec_default_patterns(), path) == Some(1int),
        spec_default_patterns()[1] == "*.log"@,
{
    let pats = spec_default_patterns();
    let rest = pats.drop_first();
    assert(rest =~~= seq!["*.log"@, "**/*.csv"@, "**/*.mat"@]);
    assert(pats[0] == "*.lock"@);
    assert(rest[0] == "*.log"@);
    assert(spec_first_match(rest, path) == Some(0int));
    assert(spec_first_match(pats, path) == Some(1int));
}

} // verus!
