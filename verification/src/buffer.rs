//! Safe rendering of arbitrary byte buffers for diagnostics.
//!
//! A buffer is shown in its debug-quoted form with escaped newlines
//! restored.  Oversized content is truncated symmetrically: a buffer that
//! spans many lines keeps only its first and last lines, a long line-poor
//! buffer keeps only its first and last bytes, and each truncated form
//! carries a header with the total and a marker with the omitted count.

use vstd::prelude::*;
use vstd::utf8::{decode_utf8, valid_utf8};
use bstr::ByteSlice;

use crate::num::dec_str;
use crate::num::u64_to_string;
use crate::num::usize_to_string;
use crate::restore::restore_newlines;
use crate::restore::restored;
use crate::restore::lemma_restored_nonempty;
use crate::restore::lemma_restored_last;

verus! {

/// A rendering spanning at least this many lines is truncated to its
/// first and last lines.
pub const LINES_MIN_OVERFLOW: usize = 40;

/// How many leading lines a line-truncated rendering keeps.
pub const LINES_MAX_START: usize = 10;

/// How many trailing lines a line-truncated rendering keeps.
pub const LINES_MAX_END: usize = 10;

/// How many lines a line-truncated rendering keeps in all.
pub const LINES_MAX_PRINTED: usize = 20;

/// A buffer of at least this many bytes, when not truncated by lines, is
/// truncated to its first and last bytes.
pub const BYTES_MIN_OVERFLOW: usize = 8192;

/// How many leading bytes a byte-truncated rendering keeps.
pub const BYTES_MAX_START: usize = 2048;

/// How many trailing bytes a byte-truncated rendering keeps.
pub const BYTES_MAX_END: usize = 2048;

/// How many bytes a byte-truncated rendering keeps in all.
pub const BYTES_MAX_PRINTED: usize = 4096;

/// The always-printed spans stay strictly under the overflow thresholds,
/// so truncation fires only when it genuinely shortens the output.
pub proof fn lemma_truncation_reduces()
    ensures
        LINES_MAX_START + LINES_MAX_END == LINES_MAX_PRINTED < LINES_MIN_OVERFLOW,
        BYTES_MAX_START + BYTES_MAX_END == BYTES_MAX_PRINTED < BYTES_MIN_OVERFLOW,
{
}

/// The debug-quoted rendering of a byte buffer: a double quote, an escaped
/// form of each byte in order, a double quote.  The exact escape choices
/// are the byte-string renderer's own; only the named function below
/// produces this text.
pub uninterp spec fn escaped(data: Seq<u8>) -> Seq<char>;

/// Relies on the `Debug` rendering of `bstr::BStr` (through
/// `ByteSlice::as_bstr`): a deterministic function of the bytes alone that
/// writes an opening double quote, an escape of each byte, and a closing
/// double quote.
#[verifier::external_body]
fn debug_bstr(data: &[u8]) -> (r: String)
    ensures
        r@ == escaped(data@),
        r@.len() >= 2,
        r@[0] == '"',
        r@.last() == '"',
{
    format!("{:?}", data.as_bstr())
}

/// Relies on `str::from_utf8`: it succeeds exactly on valid UTF-8 and then
/// yields the decoded characters.
#[verifier::external_body]
pub(crate) fn decode_bytes(b: &[u8]) -> (r: Option<String>)
    ensures
        (r is Some) <==> valid_utf8(b@),
        r matches Some(s) ==> s@ == decode_utf8(b@),
{
    match core::str::from_utf8(b) {
        Ok(s) => Some(s.to_owned()),
        Err(_) => None,
    }
}

/// The lines of `s`, split at newline characters.  A trailing newline does
/// not open a final empty line, and an empty text has no lines.
pub open spec fn lines_of(s: Seq<char>) -> Seq<Seq<char>>
    decreases s.len(),
{
    if s.len() == 0 {
        Seq::<Seq<char>>::empty()
    } else if s[0] == '\n' {
        seq![Seq::<char>::empty()] + lines_of(s.skip(1))
    } else {
        let rest = lines_of(s.skip(1));
        if rest.len() == 0 {
            seq![seq![s[0]]]
        } else {
            seq![seq![s[0]] + rest[0]] + rest.skip(1)
        }
    }
}

/// The lines joined back with single newlines, with no trailing newline.
pub open spec fn joined(lines: Seq<Seq<char>>) -> Seq<char>
    decreases lines.len(),
{
    if lines.len() == 0 {
        Seq::<char>::empty()
    } else if lines.len() == 1 {
        lines[0]
    } else {
        lines[0] + seq!['\n'] + joined(lines.skip(1))
    }
}

proof fn lemma_lines_of_first_newline(t: Seq<char>, j: int)
    requires
        0 <= j < t.len(),
        t[j] == '\n',
        forall|k: int| 0 <= k < j ==> t[k] != '\n',
    ensures
        lines_of(t) == seq![t.take(j)] + lines_of(t.skip(j + 1)),
    decreases j,
{
    if j == 0 {
        assert(t.take(0) =~= Seq::<char>::empty());
        assert(lines_of(t) =~= seq![t.take(0)] + lines_of(t.skip(1)));
    } else {
        assert(t[0] != '\n');
        let u = t.skip(1);
        assert(u[j - 1] == '\n');
        assert(forall|k: int| 0 <= k < j - 1 ==> u[k] != '\n');
        lemma_lines_of_first_newline(u, j - 1);
        let rest = lines_of(u);
        assert(rest == seq![u.take(j - 1)] + lines_of(u.skip(j)));
        assert(rest.len() > 0);
        assert(rest[0] == u.take(j - 1));
        assert(seq![t[0]] + u.take(j - 1) =~= t.take(j));
        assert(rest.skip(1) =~= lines_of(u.skip(j)));
        assert(u.skip(j) =~= t.skip(j + 1));
        assert(lines_of(t) =~= seq![t.take(j)] + lines_of(t.skip(j + 1)));
    }
}

proof fn lemma_lines_of_no_newline(t: Seq<char>)
    requires
        t.len() > 0,
        forall|k: int| 0 <= k < t.len() ==> t[k] != '\n',
    ensures
        lines_of(t) == seq![t],
    decreases t.len(),
{
    if t.len() == 1 {
        assert(t.skip(1).len() == 0);
        assert(lines_of(t.skip(1)) =~= Seq::<Seq<char>>::empty());
        assert(seq![t[0]] =~= t);
        assert(lines_of(t) =~= seq![t]);
    } else {
        let u = t.skip(1);
        assert(forall|k: int| 0 <= k < u.len() ==> u[k] != '\n');
        lemma_lines_of_no_newline(u);
        assert(seq![t[0]] + u =~= t);
        assert(lines_of(u).skip(1) =~= Seq::<Seq<char>>::empty());
        assert(lines_of(t) =~= seq![t]);
    }
}

proof fn lemma_joined_push(lines: Seq<Seq<char>>, x: Seq<char>)
    requires
        lines.len() > 0,
    ensures
        joined(lines.push(x)) == joined(lines) + seq!['\n'] + x,
    decreases lines.len(),
{
    if lines.len() == 1 {
        assert(lines.push(x)[0] == lines[0]);
        assert(lines.push(x).skip(1) =~= seq![x]);
        assert(joined(seq![x]) == x);
        assert(joined(lines.push(x)) =~= joined(lines) + seq!['\n'] + x);
    } else {
        lemma_joined_push(lines.skip(1), x);
        assert(lines.push(x).skip(1) =~= lines.skip(1).push(x));
        assert(joined(lines.push(x)) =~= joined(lines) + seq!['\n'] + x);
    }
}

/// Splits `s` at newline characters.
fn split_lines(s: &str) -> (v: Vec<String>)
    ensures
        v.deep_view() == lines_of(s@),
{
    let n = s.unicode_len();
    let mut v: Vec<String> = Vec::new();
    let mut pos: usize = 0;
    let mut i: usize = 0;
    proof {
        assert(s@.skip(0) =~= s@);
    }
    while i < n
        invariant
            n == s@.len(),
            pos <= i <= n,
            forall|k: int| pos <= k < i ==> s@[k] != '\n',
            lines_of(s@) == v.deep_view() + lines_of(s@.skip(pos as int)),
        decreases n - i,
    {
        if s.get_char(i) == '\n' {
            let line = s.substring_char(pos, i);
            let ghost old_v = v.deep_view();
            v.push(String::from_str(line));
            proof {
                let t = s@.skip(pos as int);
                let j = i - pos;
                assert(t[j] == '\n');
                assert(forall|k: int| 0 <= k < j ==> t[k] == s@[pos + k] && t[k] != '\n');
                lemma_lines_of_first_newline(t, j);
                assert(t.take(j) =~= s@.subrange(pos as int, i as int));
                assert(t.skip(j + 1) =~= s@.skip(i + 1));
                assert(v.deep_view() =~= old_v.push(line@));
                assert(old_v.push(line@) + lines_of(s@.skip(i + 1)) =~= old_v + lines_of(
                    s@.skip(pos as int),
                ));
            }
            i = i + 1;
            pos = i;
        } else {
            i = i + 1;
        }
    }
    if pos < n {
        let line = s.substring_char(pos, n);
        let ghost old_v = v.deep_view();
        v.push(String::from_str(line));
        proof {
            let t = s@.skip(pos as int);
            assert(forall|k: int| 0 <= k < t.len() ==> t[k] == s@[pos + k] && t[k] != '\n');
            lemma_lines_of_no_newline(t);
            assert(t =~= s@.subrange(pos as int, n as int));
            assert(v.deep_view() =~= old_v.push(line@));
            assert(v.deep_view() =~= old_v + lines_of(t));
        }
    } else {
        proof {
            assert(s@.skip(pos as int).len() == 0);
            assert(lines_of(s@.skip(pos as int)) =~= Seq::<Seq<char>>::empty());
            assert(v.deep_view() + lines_of(s@.skip(pos as int)) =~= v.deep_view());
        }
    }
    v
}

/// Joins the lines with indices `from .. to` with single newlines.
fn join_range(v: &Vec<String>, from: usize, to: usize) -> (r: String)
    requires
        from <= to <= v@.len(),
    ensures
        r@ == joined(v.deep_view().subrange(from as int, to as int)),
{
    let mut r = String::new();
    let mut i: usize = from;
    proof {
        assert(v.deep_view().subrange(from as int, from as int) =~= Seq::<Seq<char>>::empty());
    }
    while i < to
        invariant
            from <= i <= to <= v@.len(),
            v.deep_view().len() == v@.len(),
            r@ == joined(v.deep_view().subrange(from as int, i as int)),
        decreases to - i,
    {
        let ghost prefix = v.deep_view().subrange(from as int, i as int);
        if i > from {
            proof {
                reveal_strlit("\n");
            }
            r.append("\n");
        }
        r.append(v[i].as_str());
        proof {
            assert(v.deep_view()[i as int] == v@[i as int]@);
            assert(v.deep_view().subrange(from as int, i + 1) =~= prefix.push(v@[i as int]@));
            if i > from {
                lemma_joined_push(prefix, v@[i as int]@);
            } else {
                assert(prefix.len() == 0);
                assert(joined(seq![v@[i as int]@]) == v@[i as int]@);
                assert(r@ =~= joined(prefix.push(v@[i as int]@)));
            }
        }
        i = i + 1;
    }
    r
}

/// The bytes of `data` with indices `from .. to`, as a fresh vector.
fn copy_range(data: &[u8], from: usize, to: usize) -> (v: Vec<u8>)
    requires
        from <= to <= data@.len(),
    ensures
        v@ == data@.subrange(from as int, to as int),
{
    let mut v: Vec<u8> = Vec::new();
    let mut i: usize = from;
    while i < to
        invariant
            from <= i <= to <= data@.len(),
            v@ == data@.subrange(from as int, i as int),
        decreases to - i,
    {
        let b = *vstd::slice::slice_index_get(data, i);
        v.push(b);
        proof {
            assert(v@ =~= data@.subrange(from as int, i + 1));
        }
        i = i + 1;
    }
    v
}

/// The full rendering of a buffer: its debug-quoted form with escaped
/// newlines restored.
pub open spec fn full_rendering(data: Seq<u8>) -> Seq<char> {
    restored(escaped(data))
}

/// The rendered lines between the two surrounding quotes of the full
/// rendering.
pub open spec fn rendered_lines(data: Seq<u8>) -> Seq<Seq<char>> {
    let full = full_rendering(data);
    lines_of(full.subrange(1, full.len() - 1))
}

/// The line-truncated rendering: a total-line-count header, the first
/// lines, a marker with the omitted count (the total less the kept
/// lines), and the last lines, each half independently quoted.
pub open spec fn line_truncated(data: Seq<u8>) -> Seq<char> {
    let lines = rendered_lines(data);
    "<"@ + dec_str(lines.len()) + " lines total>\""@ + joined(lines.take(LINES_MAX_START as int))
        + "\"\n<"@ + dec_str((lines.len() - LINES_MAX_PRINTED) as nat) + " lines omitted>\n\""@
        + joined(lines.skip(lines.len() - LINES_MAX_END)) + "\""@
}

/// The byte-truncated rendering: a total-byte-count header, the quoted
/// first bytes, a marker with the omitted count (the total less the kept
/// bytes), and the quoted last bytes, the whole passed once more through
/// newline restoration.
pub open spec fn byte_truncated(data: Seq<u8>) -> Seq<char> {
    restored(
        "<"@ + dec_str(data.len()) + " bytes total>"@ + escaped(data.take(BYTES_MAX_START as int))
            + "...<"@ + dec_str((data.len() - BYTES_MAX_PRINTED) as nat) + " bytes omitted>..."@
            + escaped(data.skip(data.len() - BYTES_MAX_END)),
    )
}

/// The guarded rendering of a byte buffer: whole when small, truncated to
/// first and last lines when it spans many lines, truncated to first and
/// last bytes when it is long but line-poor.
pub open spec fn formatted(data: Seq<u8>) -> Seq<char> {
    if rendered_lines(data).len() >= LINES_MIN_OVERFLOW {
        line_truncated(data)
    } else if data.len() >= BYTES_MIN_OVERFLOW {
        byte_truncated(data)
    } else {
        full_rendering(data)
    }
}

/// A buffer under both truncation thresholds is rendered whole: no
/// truncated branch applies, and the output is exactly the full
/// rendering, so every character of the content's escaped form is shown.
pub proof fn lemma_format_whole(data: Seq<u8>)
    requires
        data.len() < BYTES_MIN_OVERFLOW,
        rendered_lines(data).len() < LINES_MIN_OVERFLOW,
    ensures
        formatted(data) == full_rendering(data),
{
}

/// A rendering of at least the line threshold keeps exactly its first and
/// last lines, and the omitted count it reports is the total line count
/// less the kept lines.
pub proof fn lemma_format_line_overflow(data: Seq<u8>)
    requires
        rendered_lines(data).len() >= LINES_MIN_OVERFLOW,
    ensures
        formatted(data) == line_truncated(data),
{
}

/// A buffer of at least the byte threshold whose rendering stays under
/// the line threshold keeps exactly its first and last bytes, and the
/// omitted count it reports is the total byte count less the kept bytes.
pub proof fn lemma_format_byte_overflow(data: Seq<u8>)
    requires
        rendered_lines(data).len() < LINES_MIN_OVERFLOW,
        data.len() >= BYTES_MIN_OVERFLOW,
    ensures
        formatted(data) == byte_truncated(data),
{
}

/// Renders a byte buffer for display, truncating oversized content.
pub fn format_bytes(data: &[u8]) -> (r: String)
    ensures
        r@ == formatted(data@),
{
    let esc = debug_bstr(data);
    let full = restore_newlines(esc.as_str());
    proof {
        assert(esc@[0] == '"');
        assert(!(esc@.len() >= 2 && esc@[0] == '\\' && esc@[1] == 'n'));
        assert(restored(esc@) == seq![esc@[0]] + restored(esc@.skip(1)));
        lemma_restored_nonempty(esc@.skip(1));
        lemma_restored_last(esc@);
        assert(full@.len() >= 2);
        assert(full@[0] == '"' && full@.last() == '"');
    }
    let full_len = full.as_str().unicode_len();
    let inner = full.as_str().substring_char(1, full_len - 1);
    let lines = split_lines(inner);
    proof {
        assert(lines.deep_view() == rendered_lines(data@));
    }
    if lines.len() >= LINES_MIN_OVERFLOW {
        let total = usize_to_string(lines.len());
        let omitted = usize_to_string(lines.len() - LINES_MAX_PRINTED);
        let first = join_range(&lines, 0, LINES_MAX_START);
        let last = join_range(&lines, lines.len() - LINES_MAX_END, lines.len());
        let mut out = String::from_str("<");
        out.append(total.as_str());
        out.append(" lines total>\"");
        out.append(first.as_str());
        out.append("\"\n<");
        out.append(omitted.as_str());
        out.append(" lines omitted>\n\"");
        out.append(last.as_str());
        out.append("\"");
        proof {
            let ls = rendered_lines(data@);
            assert(ls.take(LINES_MAX_START as int) =~= lines.deep_view().subrange(
                0,
                LINES_MAX_START as int,
            ));
            assert(ls.skip(ls.len() - LINES_MAX_END) =~= lines.deep_view().subrange(
                lines@.len() - LINES_MAX_END,
                lines@.len() as int,
            ));
            assert(out@ =~= line_truncated(data@));
        }
        out
    } else if data.len() >= BYTES_MIN_OVERFLOW {
        let head = copy_range(data, 0, BYTES_MAX_START);
        let tail = copy_range(data, data.len() - BYTES_MAX_END, data.len());
        let head_esc = debug_bstr(head.as_slice());
        let tail_esc = debug_bstr(tail.as_slice());
        let total = usize_to_string(data.len());
        let omitted = usize_to_string(data.len() - BYTES_MAX_PRINTED);
        let mut cat = String::from_str("<");
        cat.append(total.as_str());
        cat.append(" bytes total>");
        cat.append(head_esc.as_str());
        cat.append("...<");
        cat.append(omitted.as_str());
        cat.append(" bytes omitted>...");
        cat.append(tail_esc.as_str());
        let r = restore_newlines(cat.as_str());
        proof {
            assert(head@ == data@.take(BYTES_MAX_START as int)) by {
                assert(head@ =~= data@.take(BYTES_MAX_START as int));
            }
            assert(tail@ == data@.skip(data@.len() - BYTES_MAX_END)) by {
                assert(tail@ =~= data@.skip(data@.len() - BYTES_MAX_END));
            }
            assert(cat@ =~= "<"@ + dec_str(data@.len()) + " bytes total>"@ + escaped(
                data@.take(BYTES_MAX_START as int),
            ) + "...<"@ + dec_str((data@.len() - BYTES_MAX_PRINTED) as nat) + " bytes omitted>..."@
                + escaped(data@.skip(data@.len() - BYTES_MAX_END)));
            assert(r@ == byte_truncated(data@));
        }
        r
    } else {
        full
    }
}

/// The decimal renderings of the bytes, separated by comma and space.
pub open spec fn comma_separated(b: Seq<u8>) -> Seq<char>
    decreases b.len(),
{
    if b.len() == 0 {
        Seq::<char>::empty()
    } else if b.len() == 1 {
        dec_str(b[0] as nat)
    } else {
        dec_str(b[0] as nat) + ", "@ + comma_separated(b.skip(1))
    }
}

/// The listed rendering of a byte slice: the decimal bytes, comma
/// separated, in square brackets.
pub open spec fn bytes_listed(b: Seq<u8>) -> Seq<char> {
    "["@ + comma_separated(b) + "]"@
}

/// How a buffer is dumped raw into a diagnostic: its decoded text when it
/// is valid UTF-8, else its listed bytes.
pub open spec fn dumped(b: Seq<u8>) -> Seq<char> {
    if valid_utf8(b) {
        decode_utf8(b)
    } else {
        bytes_listed(b)
    }
}

proof fn lemma_comma_separated_push(b: Seq<u8>, x: u8)
    ensures
        comma_separated(b.push(x)) == if b.len() == 0 {
            dec_str(x as nat)
        } else {
            comma_separated(b) + ", "@ + dec_str(x as nat)
        },
    decreases b.len(),
{
    if b.len() == 0 {
        assert(b.push(x).len() == 1 && b.push(x)[0] == x);
    } else if b.len() == 1 {
        assert(b.push(x)[0] == b[0]);
        assert(b.push(x).skip(1) =~= seq![x]);
        assert(comma_separated(seq![x]) == dec_str(x as nat));
        assert(comma_separated(b.push(x)) =~= comma_separated(b) + ", "@ + dec_str(x as nat));
    } else {
        lemma_comma_separated_push(b.skip(1), x);
        assert(b.push(x).skip(1) =~= b.skip(1).push(x));
        assert(comma_separated(b.push(x)) =~= comma_separated(b) + ", "@ + dec_str(x as nat));
    }
}

/// Appends the raw dump of `buffer` to `out`.
pub fn write_buffer(buffer: &[u8], out: &mut String)
    ensures
        final(out)@ == old(out)@ + dumped(buffer@),
{
    match decode_bytes(buffer) {
        Some(s) => {
            out.append(s.as_str());
        },
        None => {
            out.append("[");
            let n = buffer.len();
            let mut i: usize = 0;
            proof {
                assert(comma_separated(buffer@.take(0)) =~= Seq::<char>::empty());
                assert(out@ =~= old(out)@ + "["@ + comma_separated(buffer@.take(0)));
            }
            while i < n
                invariant
                    n == buffer@.len(),
                    i <= n,
                    out@ == old(out)@ + "["@ + comma_separated(buffer@.take(i as int)),
                decreases n - i,
            {
                if i > 0 {
                    out.append(", ");
                }
                let b = *vstd::slice::slice_index_get(buffer, i);
                let digits = u64_to_string(b as u64);
                out.append(digits.as_str());
                proof {
                    lemma_comma_separated_push(buffer@.take(i as int), buffer@[i as int]);
                    assert(buffer@.take(i + 1) =~= buffer@.take(i as int).push(buffer@[i as int]));
                    assert(out@ =~= old(out)@ + "["@ + comma_separated(buffer@.take(i + 1)));
                }
                i = i + 1;
            }
            out.append("]");
            proof {
                assert(buffer@.take(n as int) =~= buffer@);
                assert(out@ =~= old(out)@ + dumped(buffer@));
            }
        },
    }
}

/// The raw dump of `buffer` as a fresh string.
pub fn dump_buffer(buffer: &[u8]) -> (r: String)
    ensures
        r@ == dumped(buffer@),
{
    let mut r = String::new();
    write_buffer(buffer, &mut r);
    proof {
        assert(Seq::<char>::empty() + dumped(buffer@) =~= dumped(buffer@));
    }
    r
}

} // verus!
