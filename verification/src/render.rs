//! The file formatter: splitting a file's bytes into lines, validating that
//! each decodes as UTF-8 text, and rendering the lines with right-aligned
//! line numbers.

use vstd::prelude::*;
use vstd::string::{StrSliceExecFns, StringExecFns};
use vstd::slice::{slice_index_get, slice_subrange};
use vstd::utf8::{valid_utf8, decode_utf8};
use crate::numfmt::{spec_digits, spec_pad_left, usize_to_string, pad_left};
use crate::types::{FormattedFile, ReadOutcome, SkipReason};
use crate::{spec_delim, delim_str};

verus! {

/// Relies on core::str::from_utf8: it accepts exactly the valid UTF-8 byte
/// sequences, and decodes them per the UTF-8 definition.
#[verifier::external_body]
fn utf8_to_string(bytes: &[u8]) -> (r: Option<String>)
    ensures
        (r is Some) == valid_utf8(bytes@),
        r matches Some(s) ==> s@ == decode_utf8(bytes@),
{
    match core::str::from_utf8(bytes) {
        Ok(s) => Some(s.to_owned()),
        Err(_) => None,
    }
}

/// The index of the first newline byte in `bytes`, or `bytes.len()` when
/// there is none.
pub open spec fn spec_first_nl(bytes: Seq<u8>) -> int
    decreases bytes.len(),
{
    if bytes.len() == 0 {
        0
    } else if bytes[0] == 10u8 {
        0
    } else {
        1 + spec_first_nl(bytes.drop_first())
    }
}

proof fn lemma_first_nl_is(s: Seq<u8>, k: int)
    requires
        0 <= k <= s.len(),
        forall|j: int| 0 <= j < k ==> s[j] != 10u8,
        k < s.len() ==> s[k] == 10u8,
    ensures
        spec_first_nl(s) == k,
    decreases s.len(),
{
    if s.len() == 0 {
    } else if k == 0 {
    } else {
        lemma_first_nl_is(s.drop_first(), k - 1);
    }
}

/// A line as BufRead-style splitting leaves it: without its terminating
/// newline, and without a carriage return just before that newline.
pub open spec fn spec_strip_cr(line: Seq<u8>) -> Seq<u8> {
    if line.len() > 0 && line.last() == 13u8 {
        line.drop_last()
    } else {
        line
    }
}

/// The lines of `bytes`: split at newline bytes, each line stripped of its
/// terminator (and of a carriage return preceding it); a final fragment
/// without a newline is a line of its own, kept as it stands.
pub open spec fn spec_split_lines(bytes: Seq<u8>) -> Seq<Seq<u8>>
    decreases bytes.len(),
{
    if bytes.len() == 0 {
        Seq::empty()
    } else {
        let i = spec_first_nl(bytes);
        if 0 <= i < bytes.len() {
            seq![spec_strip_cr(bytes.take(i))] + spec_split_lines(bytes.skip(i + 1))
        } else {
            seq![bytes]
        }
    }
}

/// Every line of `bytes` is valid UTF-8 text.
pub open spec fn spec_lines_valid(bytes: Seq<u8>) -> bool {
    forall|i: int|
        0 <= i < spec_split_lines(bytes).len() ==> valid_utf8(
            #[trigger] spec_split_lines(bytes)[i],
        )
}

/// The lines of `bytes`, decoded as text.
pub open spec fn spec_decoded_lines(bytes: Seq<u8>) -> Seq<Seq<char>> {
    spec_split_lines(bytes).map_values(|l: Seq<u8>| decode_utf8(l))
}

fn find_nl(bytes: &Vec<u8>, from: usize) -> (r: usize)
    requires
        from <= bytes@.len(),
    ensures
        from + spec_first_nl(bytes@.skip(from as int)) == r,
        from <= r <= bytes@.len(),
        r < bytes@.len() ==> bytes@[r as int] == 10u8,
        forall|j: int| from <= j < r ==> bytes@[j] != 10u8,
{
    let mut pos: usize = from;
    while pos < bytes.len() && *slice_index_get(bytes.as_slice(), pos) != 10u8
        invariant
            from <= pos <= bytes@.len(),
            forall|j: int| from <= j < pos ==> bytes@[j] != 10u8,
        decreases bytes@.len() - pos,
    {
        pos = pos + 1;
    }
    proof {
        let rem = bytes@.skip(from as int);
        assert forall|j: int| 0 <= j < pos - from implies rem[j] != 10u8 by {
            assert(rem[j] == bytes@[from + j]);
        }
        if pos < bytes@.len() {
            assert(rem[pos - from] == bytes@[pos as int]);
        }
        lemma_first_nl_is(rem, pos - from);
    }
    pos
}

/// Splits the bytes into lines and decodes each as UTF-8 text; None when
/// any line is not valid text.
pub fn decode_lines(bytes: &Vec<u8>) -> (r: Option<Vec<String>>)
    ensures
        (r is Some) == spec_lines_valid(bytes@),
        r matches Some(ls) ==> ls.deep_view() == spec_decoded_lines(bytes@),
{
    let mut lines: Vec<String> = Vec::new();
    let ghost mut done: Seq<Seq<u8>> = Seq::empty();
    let mut pos: usize = 0;
    proof {
        assert(bytes@.skip(0) =~= bytes@);
        assert(spec_split_lines(bytes@) =~= Seq::empty() + spec_split_lines(bytes@));
    }
    while pos < bytes.len()
        invariant
            0 <= pos <= bytes@.len(),
            spec_split_lines(bytes@) == done + spec_split_lines(bytes@.skip(pos as int)),
            lines@.len() == done.len(),
            forall|i: int| 0 <= i < done.len() ==> valid_utf8(#[trigger] done[i]),
            forall|i: int|
                0 <= i < done.len() ==> lines.deep_view()[i] == decode_utf8(#[trigger] done[i]),
        decreases bytes@.len() - pos,
    {
        let ghost rem = bytes@.skip(pos as int);
        let e = find_nl(bytes, pos);
        let found = e < bytes.len();
        let mut chunk_end = e;
        if found && e > pos {
            if *slice_index_get(bytes.as_slice(), e - 1) == 13u8 {
                chunk_end = e - 1;
            }
        }
        let chunk = slice_subrange(bytes.as_slice(), pos, chunk_end);
        proof {
            assert(rem.len() > 0);
            assert(spec_first_nl(rem) == e - pos);
            if found {
                assert(rem.take(e - pos) =~= bytes@.subrange(pos as int, e as int));
                if e > pos && bytes@[e - 1] == 13u8 {
                    assert(rem.take(e - pos).len() > 0);
                    assert(rem.take(e - pos).last() == 13u8);
                    assert(spec_strip_cr(rem.take(e - pos)) =~= bytes@.subrange(
                        pos as int,
                        e as int - 1,
                    ));
                } else {
                    assert(spec_strip_cr(rem.take(e - pos)) =~= bytes@.subrange(
                        pos as int,
                        e as int,
                    ));
                }
                assert(chunk@ == spec_strip_cr(rem.take(e - pos)));
                assert(rem.skip(e - pos + 1) =~= bytes@.skip(e as int + 1));
                assert(spec_split_lines(rem) == seq![chunk@] + spec_split_lines(
                    bytes@.skip(e as int + 1),
                ));
            } else {
                assert(e == bytes@.len());
                assert(chunk@ =~= rem);
                assert(spec_split_lines(rem) == seq![chunk@]);
                assert(bytes@.skip(e as int) =~= rem.skip(e - pos));
            }
        }
        match utf8_to_string(chunk) {
            None => {
                proof {
                    let k = done.len() as int;
                    assert(spec_split_lines(rem)[0] == chunk@);
                    assert(spec_split_lines(bytes@)[k] == chunk@);
                    assert(!spec_lines_valid(bytes@));
                }
                return None;
            },
            Some(s) => {
                let ghost prev_lines = lines.deep_view();
                lines.push(s);
                proof {
                    assert(lines.deep_view() =~~= prev_lines.push(s.deep_view()));
                    done = done.push(chunk@);
                }
            },
        }
        let next = if found {
            e + 1
        } else {
            bytes.len()
        };
        proof {
            if found {
                assert(spec_split_lines(bytes@) =~= done + spec_split_lines(
                    bytes@.skip(next as int),
                ));
            } else {
                assert(spec_split_lines(bytes@.skip(next as int)) =~= Seq::<Seq<u8>>::empty());
                assert(spec_split_lines(bytes@) =~= done + spec_split_lines(
                    bytes@.skip(next as int),
                ));
            }
        }
        pos = next;
    }
    proof {
        assert(bytes@.skip(pos as int) =~= Seq::<u8>::empty());
        assert(spec_split_lines(bytes@) =~= done);
        assert(spec_lines_valid(bytes@));
        assert(lines.deep_view() =~~= spec_decoded_lines(bytes@));
    }
    Some(lines)
}

/// One rendered line: the line number right-aligned to the field width, the
/// delimiter glyph, then the line's text.
pub open spec fn spec_render_line(num: nat, w: int, line: Seq<char>) -> Seq<char> {
    spec_pad_left(spec_digits(num), w) + spec_delim() + line
}

/// The rendered lines joined with newlines, numbering from 1, each number
/// padded to width `w`.
pub open spec fn spec_content(lines: Seq<Seq<char>>, w: int) -> Seq<char>
    decreases lines.len(),
{
    if lines.len() == 0 {
        Seq::empty()
    } else {
        let pre = spec_content(lines.drop_last(), w);
        let ln = spec_render_line(lines.len(), w, lines.last());
        if lines.len() == 1 {
            ln
        } else {
            pre + seq!['\n'] + ln
        }
    }
}

/// The rendered body of a file: lines numbered from 1, the number field as
/// wide as the digit count of the total number of lines.
pub open spec fn spec_rendered(lines: Seq<Seq<char>>) -> Seq<char> {
    spec_content(lines, spec_digits(lines.len()).len() as int)
}

/// Renders the lines with right-aligned line numbers: the field width is the
/// number of digits of the line count, so a 0-line file renders empty, and a
/// 100-line file uses a 3-character field.
pub fn render_lines(lines: &Vec<String>) -> (r: String)
    ensures
        r@ == spec_rendered(lines.deep_view()),
{
    let count = lines.len();
    let num_str = usize_to_string(count);
    let width = num_str.as_str().unicode_len();
    let ghost w = width as int;
    let mut out = String::new();
    let mut i: usize = 0;
    while i < count
        invariant
            count == lines@.len(),
            w == spec_digits(count as nat).len(),
            width == w,
            0 <= i <= count,
            out@ == spec_content(lines.deep_view().take(i as int), w),
        decreases count - i,
    {
        proof {
            reveal_strlit("\n");
            assert(lines.deep_view()[i as int] == lines@[i as int]@);
            assert(lines.deep_view().take(i as int + 1).drop_last() =~~= lines.deep_view().take(
                i as int,
            ));
            assert(lines.deep_view().take(i as int + 1).last() == lines.deep_view()[i as int]);
        }
        if i > 0 {
            out.append("\n");
            proof {
                assert("\n"@ =~= seq!['\n']);
            }
        }
        let mut ln = pad_left(usize_to_string(i + 1), width);
        ln.append(delim_str());
        ln.append(lines[i].as_str());
        out.append(ln.as_str());
        proof {
            assert(out@ =~= spec_content(lines.deep_view().take(i as int + 1), w));
        }
        i = i + 1;
    }
    proof {
        assert(lines.deep_view().take(count as int) =~~= lines.deep_view());
    }
    out
}

/// Turns the outcome of reading an admitted file into its terminal
/// classification: a rendered file, or the reason it is skipped. A read
/// failure is recorded as such; a file any line of which is not valid text
/// is never rendered, not even in part.
pub fn format_file(path: &str, modified_secs: i64, read: ReadOutcome) -> (r: Result<
    FormattedFile,
    SkipReason,
>)
    ensures
        match read {
            ReadOutcome::Failed(e) => r matches Err(SkipReason::ReadError(m)) && m@ == e@,
            ReadOutcome::Bytes(b) => if spec_lines_valid(b@) {
                r matches Ok(f) && f.path@ == path@ && f.modified_secs == modified_secs
                    && f.content@ == spec_rendered(spec_decoded_lines(b@))
            } else {
                r matches Err(SkipReason::InvalidUtf8)
            },
        },
{
    match read {
        ReadOutcome::Failed(e) => Err(SkipReason::ReadError(e)),
        ReadOutcome::Bytes(b) => {
            match decode_lines(&b) {
                None => Err(SkipReason::InvalidUtf8),
                Some(ls) => Ok(
                    FormattedFile {
                        path: String::from_str(path),
                        content: render_lines(&ls),
                        modified_secs,
                    },
                ),
            }
        },
    }
}

} // verus!
