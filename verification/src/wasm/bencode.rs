use vstd::prelude::*;

use super::highlight::{Fragment, FragmentView, Highlight, Line};
use crate::lang::ast::string_bytes;

verus! {

/// The decimal digits of `n`, in ASCII.
pub open spec fn decimal(n: nat) -> Seq<u8>
    decreases n,
{
    if n < 10 {
        seq![(48 + n) as u8]
    } else {
        decimal(n / 10).push((48 + n % 10) as u8)
    }
}

/// A bencoded string: its length in decimal, a colon, and its bytes.
pub open spec fn bencoded_string(bytes: Seq<u8>) -> Seq<u8> {
    decimal(bytes.len()) + seq![58u8] + bytes
}

/// A fragment as a bencoded string whose bytes are its kind, its hint and its text.
pub open spec fn bencoded_fragment(f: FragmentView) -> Seq<u8> {
    bencoded_string(seq![f.kind, f.hint] + f.value)
}

/// The concatenation of the encodings of the first `n` fragments.
pub open spec fn bencoded_fragments(fs: Seq<FragmentView>, n: nat) -> Seq<u8>
    decreases n,
{
    if n == 0 || n > fs.len() {
        Seq::empty()
    } else {
        bencoded_fragments(fs, (n - 1) as nat) + bencoded_fragment(fs[n - 1])
    }
}

/// A line as a bencoded list of its fragments.
pub open spec fn bencoded_line(fs: Seq<FragmentView>) -> Seq<u8> {
    seq![108u8] + bencoded_fragments(fs, fs.len()) + seq![101u8]
}

pub open spec fn line_view(line: Line) -> Seq<FragmentView> {
    line@.map_values(|f: Fragment| f@)
}

/// The concatenation of the encodings of the first `n` lines.
pub open spec fn bencoded_lines(lines: Seq<Line>, n: nat) -> Seq<u8>
    decreases n,
{
    if n == 0 || n > lines.len() {
        Seq::empty()
    } else {
        bencoded_lines(lines, (n - 1) as nat) + bencoded_line(line_view(lines[n - 1]))
    }
}

/// The concatenation of the encodings of the first `n` strings.
pub open spec fn bencoded_strings(strings: Seq<String>, n: nat) -> Seq<u8>
    decreases n,
{
    if n == 0 || n > strings.len() {
        Seq::empty()
    } else {
        bencoded_strings(strings, (n - 1) as nat) + bencoded_string(string_bytes(strings[n - 1]))
    }
}

/// A highlight as a bencoded list of two lists: its lines and its hints.
pub open spec fn bencoded_highlight(h: Highlight) -> Seq<u8> {
    seq![108u8, 108u8] + bencoded_lines(h.lines@, h.lines@.len()) + seq![101u8, 108u8]
        + bencoded_strings(h.hints@, h.hints@.len()) + seq![101u8, 101u8]
}

/// The decimal digits of `n`, in ASCII.
fn decimal_digits(n: usize) -> (digits: Vec<u8>)
    ensures
        digits@ == decimal(n as nat),
    decreases n,
{
    if n < 10 {
        let mut digits = Vec::new();
        digits.push(48 + n as u8);
        assert(digits@ =~= decimal(n as nat));
        digits
    } else {
        let mut digits = decimal_digits(n / 10);
        digits.push(48 + (n % 10) as u8);
        digits
    }
}

/// The bytes of a string.
fn bytes_of(s: &String) -> (bytes: &[u8])
    ensures
        bytes@ == string_bytes(*s),
{
    s.as_str().as_bytes()
}

fn append_slice(out: &mut Vec<u8>, bytes: &[u8])
    ensures
        final(out)@ == old(out)@ + bytes@,
{
    let mut i: usize = 0;
    while i < bytes.len()
        invariant
            i <= bytes@.len(),
            out@ == old(out)@ + bytes@.subrange(0, i as int),
        decreases bytes@.len() - i,
    {
        out.push(bytes[i]);
        i = i + 1;
        assert(out@ =~= old(out)@ + bytes@.subrange(0, i as int));
    }
    assert(bytes@.subrange(0, bytes@.len() as int) =~= bytes@);
}

fn bencode_str(out: &mut Vec<u8>, bytes: &[u8])
    ensures
        final(out)@ == old(out)@ + bencoded_string(bytes@),
{
    let mut len = decimal_digits(bytes.len());

    out.append(&mut len);
    out.push(58);
    append_slice(out, bytes);
    assert(final(out)@ =~= old(out)@ + bencoded_string(bytes@));
}

fn bencode_fragment(out: &mut Vec<u8>, fragment: &Fragment)
    requires
        string_bytes(fragment.value).len() + 2 <= usize::MAX,
    ensures
        final(out)@ == old(out)@ + bencoded_fragment(fragment@),
{
    let buffer = bytes_of(&fragment.value);
    let mut len = decimal_digits(buffer.len() + 2);

    out.append(&mut len);
    out.push(58);
    out.push(fragment.kind);
    out.push(fragment.hint);
    append_slice(out, buffer);
    assert((seq![fragment.kind, fragment.hint] + buffer@).len() == buffer@.len() + 2);
    assert(final(out)@ =~= old(out)@ + bencoded_fragment(fragment@));
}

/// Every fragment's text is short enough that its length plus two fits a `usize`.
pub open spec fn fragments_fit(lines: Seq<Line>) -> bool {
    forall|i: int, j: int|
        0 <= i < lines.len() && 0 <= j < lines[i]@.len() ==> string_bytes(#[trigger] lines[i]@[j].value).len() + 2 <= usize::MAX
}

fn bencode_line(out: &mut Vec<u8>, line: &Line)
    requires
        forall|j: int| 0 <= j < line@.len() ==> string_bytes(#[trigger] line@[j].value).len() + 2 <= usize::MAX,
    ensures
        final(out)@ == old(out)@ + bencoded_line(line_view(*line)),
{
    out.push(108);

    let mut i: usize = 0;
    while i < line.len()
        invariant
            i <= line@.len(),
            forall|j: int| 0 <= j < line@.len() ==> string_bytes(#[trigger] line@[j].value).len() + 2 <= usize::MAX,
            out@ == old(out)@ + seq![108u8] + bencoded_fragments(line_view(*line), i as nat),
        decreases line@.len() - i,
    {
        bencode_fragment(out, &line[i]);
        i = i + 1;
        proof {
            assert(line_view(*line)[i - 1] == line@[i - 1]@);
            assert(out@ =~= old(out)@ + seq![108u8] + bencoded_fragments(line_view(*line), i as nat));
        }
    }

    out.push(101);
    assert(final(out)@ =~= old(out)@ + bencoded_line(line_view(*line)));
}

/// Appends the encoding of a highlight: a list of two lists, one of its lines
/// (each a list of fragments) and one of its hints.
pub fn benchode_highlight(out: &mut Vec<u8>, highlight: Highlight)
    requires
        fragments_fit(highlight.lines@),
    ensures
        final(out)@ == old(out)@ + bencoded_highlight(highlight),
{
    out.push(108);
    out.push(108);

    let mut i: usize = 0;
    while i < highlight.lines.len()
        invariant
            i <= highlight.lines@.len(),
            fragments_fit(highlight.lines@),
            out@ == old(out)@ + seq![108u8, 108u8] + bencoded_lines(highlight.lines@, i as nat),
        decreases highlight.lines@.len() - i,
    {
        let line = &highlight.lines[i];
        proof {
            assert forall|j: int| 0 <= j < line@.len() implies string_bytes(#[trigger] line@[j].value).len() + 2 <= usize::MAX by {
                assert(string_bytes(highlight.lines@[i as int]@[j].value).len() + 2 <= usize::MAX);
            }
        }
        bencode_line(out, line);
        i = i + 1;
        assert(out@ =~= old(out)@ + seq![108u8, 108u8] + bencoded_lines(highlight.lines@, i as nat));
    }

    out.push(101);
    out.push(108);

    let ghost middle = out@;
    let mut k: usize = 0;
    while k < highlight.hints.len()
        invariant
            k <= highlight.hints@.len(),
            out@ == middle + bencoded_strings(highlight.hints@, k as nat),
        decreases highlight.hints@.len() - k,
    {
        let hint = &highlight.hints[k];
        bencode_str(out, bytes_of(hint));
        k = k + 1;
        assert(out@ =~= middle + bencoded_strings(highlight.hints@, k as nat));
    }

    out.push(101);
    out.push(101);
    assert(final(out)@ =~= old(out)@ + bencoded_highlight(highlight));
}

} // verus!
