//! Selecting tracked files: scope filtering against the caller-given paths,
//! dropping index entries whose file is missing on disk, and sorting by
//! modification time, newest first, keeping index order among ties.

use vstd::prelude::*;
use vstd::string::StrSliceExecFns;
use crate::types::{IndexEntry, TrackedFile};

verus! {

/// Compares two strings character by character.
pub fn str_eq(a: &str, b: &str) -> (r: bool)
    ensures
        r == (a@ == b@),
{
    let alen = a.unicode_len();
    let blen = b.unicode_len();
    if alen != blen {
        return false;
    }
    let mut i: usize = 0;
    while i < alen
        invariant
            alen == a@.len(),
            blen == b@.len(),
            alen == blen,
            0 <= i <= alen,
            forall|j: int| 0 <= j < i ==> a@[j] == b@[j],
        decreases alen - i,
    {
        if a.get_char(i) != b.get_char(i) {
            return false;
        }
        i = i + 1;
    }
    proof {
        assert(a@ =~= b@);
    }
    true
}

/// `base` is a path prefix of `path`: they are equal, or `path` continues
/// `base` at a `/` boundary.
pub open spec fn spec_scope_prefix(path: Seq<char>, base: Seq<char>) -> bool {
    path == base || (path.len() > base.len() && path.take(base.len() as int) == base && path[
        base.len() as int
    ] == '/')
}

fn is_scope_prefix(path: &str, base: &str) -> (r: bool)
    ensures
        r == spec_scope_prefix(path@, base@),
{
    let plen = path.unicode_len();
    let blen = base.unicode_len();
    if plen < blen {
        proof {
            assert(path@ != base@);
            assert(!spec_scope_prefix(path@, base@));
        }
        return false;
    }
    if plen > blen {
        if path.get_char(blen) != '/' {
            proof {
                assert(path@ != base@);
            }
            return false;
        }
    }
    let mut i: usize = 0;
    while i < blen
        invariant
            plen == path@.len(),
            blen == base@.len(),
            plen >= blen,
            plen > blen ==> path@[blen as int] == '/',
            0 <= i <= blen,
            forall|j: int| 0 <= j < i ==> path@[j] == base@[j],
        decreases blen - i,
    {
        if path.get_char(i) != base.get_char(i) {
            proof {
                assert(path@ != base@);
                assert(path@.take(base@.len() as int)[i as int] != base@[i as int]);
            }
            return false;
        }
        i = i + 1;
    }
    proof {
        if plen == blen {
            assert(path@ =~= base@);
        } else {
            assert(path@.take(base@.len() as int) =~= base@);
        }
    }
    true
}

/// The index of the first occurrence of `c` in `s`, or `s.len()` when `c`
/// does not occur.
pub open spec fn spec_first_index(s: Seq<char>, c: char) -> int
    decreases s.len(),
{
    if s.len() == 0 {
        0
    } else if s[0] == c {
        0
    } else {
        1 + spec_first_index(s.drop_first(), c)
    }
}

/// The part of `s` after its last `/`; `s` itself when it has none.
pub open spec fn spec_basename(s: Seq<char>) -> Seq<char>
    decreases s.len(),
{
    let i = spec_first_index(s, '/');
    if 0 <= i < s.len() {
        spec_basename(s.skip(i + 1))
    } else {
        s
    }
}

proof fn lemma_first_index_bounds(s: Seq<char>, c: char)
    ensures
        0 <= spec_first_index(s, c) <= s.len(),
        spec_first_index(s, c) < s.len() ==> s[spec_first_index(s, c)] == c,
        forall|j: int| 0 <= j < spec_first_index(s, c) ==> s[j] != c,
    decreases s.len(),
{
    if s.len() == 0 {
    } else if s[0] == c {
    } else {
        lemma_first_index_bounds(s.drop_first(), c);
        assert forall|j: int| 1 <= j < spec_first_index(s, c) implies s[j] != c by {
            assert(s.drop_first()[j - 1] == s[j]);
        }
    }
}

fn first_index(s: &str, from: usize, c: char) -> (r: usize)
    requires
        from <= s@.len(),
    ensures
        from + spec_first_index(s@.skip(from as int), c) == r,
        from <= r <= s@.len(),
    decreases s@.len() - from,
{
    proof {
        lemma_first_index_bounds(s@.skip(from as int), c);
    }
    if from == s.unicode_len() {
        proof {
            assert(s@.skip(from as int) =~= Seq::<char>::empty());
        }
        return from;
    }
    if s.get_char(from) == c {
        proof {
            assert(s@.skip(from as int)[0] == s@[from as int]);
        }
        return from;
    }
    let r = first_index(s, from + 1, c);
    proof {
        assert(s@.skip(from as int).drop_first() =~= s@.skip(from as int + 1));
        assert(s@.skip(from as int)[0] == s@[from as int]);
    }
    r
}

/// The basename of `s`: everything after the last `/`.
fn basename<'a>(s: &'a str) -> (r: &'a str)
    ensures
        r@ == spec_basename(s@),
    decreases s@.len(),
{
    proof {
        assert(s@.skip(0) =~= s@);
    }
    let i = first_index(s, 0, '/');
    if i == s.unicode_len() {
        proof {
            lemma_first_index_bounds(s@, '/');
        }
        s
    } else {
        let rest = s.substring_char(i + 1, s.unicode_len());
        proof {
            assert(rest@ =~= s@.skip(i as int + 1));
        }
        let r = basename(rest);
        r
    }
}

/// The path lies under one of the bases: a base is a path prefix of it, or
/// the path equals a base's basename.
pub open spec fn spec_under_any(path: Seq<char>, bases: Seq<Seq<char>>) -> bool {
    exists|i: int|
        0 <= i < bases.len() && (spec_scope_prefix(path, bases[i]) || path == spec_basename(
            bases[i],
        ))
}

/// Whether `path` lies under any of the given base paths: a base is a path
/// prefix of it, or it equals a base's final component.
pub fn is_path_under_any(path: &str, bases: &Vec<String>) -> (r: bool)
    ensures
        r == spec_under_any(path@, bases.deep_view()),
{
    let mut i: usize = 0;
    while i < bases.len()
        invariant
            0 <= i <= bases@.len(),
            forall|j: int| 0 <= j < i
                ==> !(spec_scope_prefix(path@, bases.deep_view()[j]) || path@ == spec_basename(
                    bases.deep_view()[j],
                )),
        decreases bases@.len() - i,
    {
        proof {
            assert(bases.deep_view()[i as int] == bases@[i as int]@);
        }
        let base = bases[i].as_str();
        if is_scope_prefix(path, base) || str_eq(path, basename(base)) {
            return true;
        }
        i = i + 1;
    }
    false
}

/// Whether an index entry survives selection: it lies in scope (or no scope
/// was given) and its file is present on disk.
pub open spec fn spec_keep(e: IndexEntry, scopes: Seq<Seq<char>>) -> bool {
    (scopes.len() == 0 || spec_under_any(e.path@, scopes)) && e.modified_secs is Some
}

/// The tracked file made from a surviving index entry.
pub open spec fn spec_to_tracked(e: IndexEntry) -> TrackedFile {
    TrackedFile { path: e.path, modified_secs: e.modified_secs->0 }
}

/// The surviving entries, in index order, as tracked files.
pub open spec fn spec_selected(entries: Seq<IndexEntry>, scopes: Seq<Seq<char>>) -> Seq<
    TrackedFile,
>
    decreases entries.len(),
{
    if entries.len() == 0 {
        Seq::empty()
    } else {
        spec_selected(entries.drop_last(), scopes) + (if spec_keep(entries.last(), scopes) {
            seq![spec_to_tracked(entries.last())]
        } else {
            Seq::empty()
        })
    }
}

/// Inserts `x` into a list sorted by `modified_secs` descending, after every
/// element whose key is greater than or equal to `x`'s.
pub open spec fn spec_insert_desc(s: Seq<TrackedFile>, x: TrackedFile) -> Seq<TrackedFile>
    decreases s.len(),
{
    if s.len() == 0 {
        seq![x]
    } else if s[0].modified_secs >= x.modified_secs {
        seq![s[0]] + spec_insert_desc(s.drop_first(), x)
    } else {
        seq![x] + s
    }
}

/// Stable insertion sort by `modified_secs` descending.
pub open spec fn spec_sort_desc(s: Seq<TrackedFile>) -> Seq<TrackedFile>
    decreases s.len(),
{
    if s.len() == 0 {
        Seq::empty()
    } else {
        spec_insert_desc(spec_sort_desc(s.drop_last()), s.last())
    }
}

proof fn lemma_insert_desc_at(s: Seq<TrackedFile>, x: TrackedFile, j: int)
    requires
        0 <= j <= s.len(),
        forall|k: int| 0 <= k < j ==> s[k].modified_secs >= x.modified_secs,
        j < s.len() ==> s[j].modified_secs < x.modified_secs,
    ensures
        spec_insert_desc(s, x) == s.insert(j, x),
    decreases s.len(),
{
    if s.len() == 0 {
        assert(spec_insert_desc(s, x) =~= s.insert(j, x));
    } else if j == 0 {
        assert(s[0].modified_secs < x.modified_secs);
        assert(spec_insert_desc(s, x) =~= s.insert(0, x));
    } else {
        assert(s[0].modified_secs >= x.modified_secs);
        lemma_insert_desc_at(s.drop_first(), x, j - 1);
        assert(spec_insert_desc(s, x) == seq![s[0]] + s.drop_first().insert(j - 1, x));
        assert(seq![s[0]] + s.drop_first().insert(j - 1, x) =~= s.insert(j, x));
    }
}

fn insert_desc(v: &mut Vec<TrackedFile>, x: TrackedFile)
    ensures
        final(v)@ == spec_insert_desc(old(v)@, x),
{
    let mut j: usize = 0;
    while j < v.len() && v[j].modified_secs >= x.modified_secs
        invariant
            0 <= j <= v@.len(),
            v@ == old(v)@,
            forall|k: int| 0 <= k < j ==> v@[k].modified_secs >= x.modified_secs,
        decreases v@.len() - j,
    {
        j = j + 1;
    }
    proof {
        lemma_insert_desc_at(v@, x, j as int);
    }
    v.insert(j, x);
}

/// Filters the index entries to those in scope and present on disk, and
/// sorts the survivors by modification time descending; entries with equal
/// times keep their index order. An empty scope list admits every entry.
pub fn tracked_files_multiple(entries: Vec<IndexEntry>, scopes: &Vec<String>) -> (r: Vec<
    TrackedFile,
>)
    ensures
        r@ == spec_sort_desc(spec_selected(entries@, scopes.deep_view())),
{
    let mut out: Vec<TrackedFile> = Vec::new();
    let mut i: usize = 0;
    while i < entries.len()
        invariant
            0 <= i <= entries@.len(),
            out@ == spec_sort_desc(spec_selected(entries@.take(i as int), scopes.deep_view())),
        decreases entries@.len() - i,
    {
        let ghost all = entries@;
        proof {
            assert(all.take(i as int + 1).drop_last() =~= all.take(i as int));
            assert(all.take(i as int + 1).last() == all[i as int]);
        }
        let in_scope = if scopes.len() == 0 {
            true
        } else {
            is_path_under_any(entries[i].path.as_str(), scopes)
        };
        match entries[i].modified_secs {
            Some(secs) => {
                if in_scope {
                    proof {
                        assert(spec_keep(all[i as int], scopes.deep_view()));
                        assert(spec_selected(all.take(i as int + 1), scopes.deep_view())
                            =~= spec_selected(all.take(i as int), scopes.deep_view()).push(
                            spec_to_tracked(all[i as int]),
                        ));
                    }
                    let tf = TrackedFile {
                        path: entries[i].path.clone(),
                        modified_secs: secs,
                    };
                    proof {
                        assert(tf == spec_to_tracked(all[i as int]));
                    }
                    insert_desc(&mut out, tf);
                    proof {
                        let sel = spec_selected(all.take(i as int + 1), scopes.deep_view());
                        assert(sel.drop_last() =~= spec_selected(
                            all.take(i as int),
                            scopes.deep_view(),
                        ));
                        assert(sel.last() == spec_to_tracked(all[i as int]));
                    }
                } else {
                    proof {
                        assert(!spec_keep(all[i as int], scopes.deep_view()));
                        assert(spec_selected(all.take(i as int + 1), scopes.deep_view())
                            =~= spec_selected(all.take(i as int), scopes.deep_view()));
                    }
                }
            },
            None => {
                proof {
                    assert(!spec_keep(all[i as int], scopes.deep_view()));
                    assert(spec_selected(all.take(i as int + 1), scopes.deep_view())
                        =~= spec_selected(all.take(i as int), scopes.deep_view()));
                }
            },
        }
        i = i + 1;
    }
    proof {
        assert(entries@.take(entries@.len() as int) =~= entries@);
    }
    out
}

/// Sorted by modification time, newest first.
pub open spec fn spec_sorted_desc(s: Seq<TrackedFile>) -> bool {
    forall|i: int, j: int| 0 <= i < j < s.len() ==> s[i].modified_secs >= s[j].modified_secs
}

proof fn lemma_insert_desc_sorted(s: Seq<TrackedFile>, x: TrackedFile)
    requires
        spec_sorted_desc(s),
    ensures
        spec_sorted_desc(spec_insert_desc(s, x)),
        spec_insert_desc(s, x).to_multiset() == s.to_multiset().insert(x),
        spec_insert_desc(s, x).len() == s.len() + 1,
    decreases s.len(),
{
    broadcast use vstd::seq_lib::group_to_multiset_ensures;

    let r = spec_insert_desc(s, x);
    if s.len() == 0 {
        assert(r =~= Seq::empty().push(x));
        assert(r.to_multiset() =~= s.to_multiset().insert(x));
    } else if s[0].modified_secs >= x.modified_secs {
        assert(spec_sorted_desc(s.drop_first()));
        lemma_insert_desc_sorted(s.drop_first(), x);
        let tail = spec_insert_desc(s.drop_first(), x);
        assert(r == seq![s[0]] + tail);
        assert forall|k: int| 0 <= k < tail.len() implies s[0].modified_secs
            >= tail[k].modified_secs by {
            assert(tail.to_multiset().contains(tail[k]));
            if tail[k] == x {
            } else {
                assert(s.drop_first().to_multiset().contains(tail[k]));
                assert(s.drop_first().contains(tail[k]));
                let m = choose|m: int|
                    0 <= m < s.drop_first().len() && s.drop_first()[m] == tail[k];
                assert(s[m + 1] == tail[k]);
            }
        }
        assert forall|i: int, j: int| 0 <= i < j < r.len() implies r[i].modified_secs
            >= r[j].modified_secs by {
            if i > 0 {
                assert(r[i] == tail[i - 1]);
                assert(r[j] == tail[j - 1]);
            } else {
                assert(r[j] == tail[j - 1]);
            }
        }
        assert(seq![s[0]] =~= Seq::empty().push(s[0]));
        vstd::seq_lib::lemma_multiset_commutative::<TrackedFile>(seq![s[0]], tail);
        assert((seq![s[0]] + tail).to_multiset() =~= seq![s[0]].to_multiset().add(
            tail.to_multiset(),
        ));
        assert(s =~= Seq::empty().push(s[0]) + s.drop_first());
        vstd::seq_lib::lemma_multiset_commutative::<TrackedFile>(
            seq![s[0]],
            s.drop_first(),
        );
        assert(s.to_multiset() =~= seq![s[0]].to_multiset().add(s.drop_first().to_multiset()));
        assert(r.to_multiset() =~= s.to_multiset().insert(x));
    } else {
        assert(r == seq![x] + s);
        assert forall|i: int, j: int| 0 <= i < j < r.len() implies r[i].modified_secs
            >= r[j].modified_secs by {
            if i == 0 {
                assert(r[j] == s[j - 1]);
                assert(s[0].modified_secs >= s[j - 1].modified_secs);
            } else {
                assert(r[i] == s[i - 1]);
                assert(r[j] == s[j - 1]);
            }
        }
        assert(seq![x] =~= Seq::empty().push(x));
        vstd::seq_lib::lemma_multiset_commutative::<TrackedFile>(seq![x], s);
        assert((seq![x] + s).to_multiset() =~= seq![x].to_multiset().add(s.to_multiset()));
        assert(r.to_multiset() =~= s.to_multiset().insert(x));
    }
}

/// Law: the selection's ordering really is a sort. What `spec_sort_desc`
/// yields holds the very same files (as a multiset) as its input, ordered by
/// modification time, newest first.
pub proof fn lemma_sort_desc_is_sorted_permutation(s: Seq<TrackedFile>)
    ensures
        spec_sorted_desc(spec_sort_desc(s)),
        spec_sort_desc(s).to_multiset() == s.to_multiset(),
        spec_sort_desc(s).len() == s.len(),
    decreases s.len(),
{
    broadcast use vstd::seq_lib::group_to_multiset_ensures;

    if s.len() == 0 {
    } else {
        lemma_sort_desc_is_sorted_permutation(s.drop_last());
        lemma_insert_desc_sorted(spec_sort_desc(s.drop_last()), s.last());
        assert(s =~= s.drop_last().push(s.last()));
        assert(s.to_multiset() =~= s.drop_last().to_multiset().insert(s.last()));
    }
}

} // verus!
