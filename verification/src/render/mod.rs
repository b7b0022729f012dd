//! Text layout shared by the renderers.
pub mod text;
pub mod ansi;
pub mod compact;
pub mod strip;

use vstd::prelude::*;

use vstd::utf8::encode_utf8;

use crate::numfmt::{byte_hex_text, push_byte_hex};
use crate::sink::ByteSink;
use crate::types::{value_text, TermAnnotation, Value};
use crate::render::text::TextRenderError;

verus! {

/// Default number of spaces per indentation level.
pub const INDENT_WIDTH: usize = 4;

/// Maximum number of bytes shown in a raw hex dump before truncation.
pub const MAX_HEX_BYTES: usize = 128;

/// Number of bytes per hex dump line.
pub const HEX_BYTES_PER_LINE: usize = 16;

/// Column where the width number starts (the descriptor, for variable-length fields, starts at `DESCRIPTOR_COL`).
pub const WIDTH_COL: usize = 49;

/// Column where the descriptor starts.
pub const DESCRIPTOR_COL: usize = 58;

/// Column where `= value` starts.
pub const VALUE_COL: usize = 70;

/// `n` space characters.
pub open spec fn spaces(n: nat) -> Seq<char> {
    Seq::new(n, |i: int| ' ')
}

/// The indentation of a line at nesting depth `depth`.
pub open spec fn indent_text(depth: nat) -> Seq<char> {
    spaces(depth * 4)
}

/// `s` begins with `p`.
pub open spec fn starts_with(s: Seq<char>, p: Seq<char>) -> bool {
    p.len() <= s.len() && s.subrange(0, p.len() as int) == p
}

/// `s` ends with `t`.
pub open spec fn ends_with(s: Seq<char>, t: Seq<char>) -> bool {
    t.len() <= s.len() && s.subrange(s.len() - t.len(), s.len() as int) == t
}

/// A text begins with its first part and ends with its last part.
pub proof fn lemma_concat_ends(p: Seq<char>, q: Seq<char>)
    ensures
        starts_with(p + q, p),
        ends_with(p + q, q),
{
    assert((p + q).subrange(0, p.len() as int) =~= p);
    assert((p + q).subrange((p + q).len() - q.len(), (p + q).len() as int) =~= q);
}

/// Text that begins with `p` still does with more appended.
pub proof fn lemma_starts_extend(x: Seq<char>, y: Seq<char>, p: Seq<char>)
    requires
        starts_with(x, p),
    ensures
        starts_with(x + y, p),
{
    assert((x + y).subrange(0, p.len() as int) =~= x.subrange(0, p.len() as int));
}

/// Number of bytes in the UTF-8 encoding of `s` (what `str::len` counts).
pub open spec fn utf8_len(s: Seq<char>) -> nat {
    encode_utf8(s).len()
}

/// The padding that moves a cursor at `end` to column `col`, or one space
/// when the cursor is already at or past it.
pub open spec fn pad_to(col: int, end: int) -> nat {
    if end < col {
        (col - end) as nat
    } else {
        1
    }
}

/// `name: value` for one term annotation.
pub open spec fn term_text(t: TermAnnotation) -> Seq<char> {
    t.name@ + ": "@ + value_text(t.value)
}

/// The term annotations joined by `, `.
pub open spec fn terms_joined(terms: Seq<TermAnnotation>) -> Seq<char>
    decreases terms.len(),
{
    if terms.len() == 0 {
        Seq::empty()
    } else if terms.len() == 1 {
        term_text(terms[0])
    } else {
        terms_joined(terms.drop_last()) + ", "@ + term_text(terms.last())
    }
}

/// Term annotations as a trailing comment: `  /* name: value, ... */`, or
/// nothing when there are no terms.
pub open spec fn term_annotations_text(terms: Seq<TermAnnotation>) -> Seq<char> {
    if terms.len() == 0 {
        Seq::empty()
    } else {
        "  /* "@ + terms_joined(terms) + " */"@
    }
}

/// The separator written before the byte at position `i` of a hex dump line:
/// nothing before the first, two spaces before the ninth, one space otherwise.
pub open spec fn hex_separator(i: int) -> Seq<char> {
    if i == 0 {
        Seq::empty()
    } else if i == 8 {
        seq![' ', ' ']
    } else {
        seq![' ']
    }
}

/// One hex dump line: the bytes of `chunk` as lower-case hex pairs.
pub open spec fn hex_line_text(chunk: Seq<u8>) -> Seq<char>
    decreases chunk.len(),
{
    if chunk.len() == 0 {
        Seq::empty()
    } else {
        hex_line_text(chunk.drop_last()) + hex_separator(chunk.len() - 1) + byte_hex_text(
            chunk.last(),
        )
    }
}

/// Number of bytes a hex dump shows.
pub open spec fn hex_shown(len: nat) -> nat {
    if len > MAX_HEX_BYTES {
        MAX_HEX_BYTES as nat
    } else {
        len
    }
}

/// The first `k` lines of the hex dump of `data`.
pub open spec fn hex_chunk_lines(data: Seq<u8>, k: nat) -> Seq<Seq<char>>
    decreases k,
{
    if k == 0 {
        Seq::empty()
    } else {
        let start = (k - 1) * HEX_BYTES_PER_LINE;
        let end = if start + HEX_BYTES_PER_LINE < hex_shown(data.len()) {
            start + HEX_BYTES_PER_LINE
        } else {
            hex_shown(data.len()) as int
        };
        hex_chunk_lines(data, (k - 1) as nat).push(hex_line_text(data.subrange(start, end)))
    }
}

/// The first `k` hex dump lines are `k` lines.
pub proof fn lemma_hex_chunk_lines_len(data: Seq<u8>, k: nat)
    ensures
        hex_chunk_lines(data, k).len() == k,
    decreases k,
{
    if k > 0 {
        lemma_hex_chunk_lines_len(data, (k - 1) as nat);
    }
}

/// Line `k` of the hex dump shows bytes `16k` up to `16k + 16` (or up to
/// the last shown byte): between 1 and 16 bytes, in order.
pub proof fn lemma_hex_chunk_lines_shape(data: Seq<u8>, n: nat, k: int)
    requires
        0 <= k < n,
        n <= hex_line_count(hex_shown(data.len())),
    ensures
        hex_chunk_lines(data, n)[k] == hex_line_text(
            data.subrange(
                k * 16,
                if k * 16 + 16 < hex_shown(data.len()) {
                    k * 16 + 16
                } else {
                    hex_shown(data.len()) as int
                },
            ),
        ),
        k * 16 < hex_shown(data.len()),
    decreases n,
{
    lemma_hex_chunk_lines_len(data, (n - 1) as nat);
    if k < n - 1 {
        lemma_hex_chunk_lines_shape(data, (n - 1) as nat, k);
    }
    assert(k * 16 < hex_shown(data.len())) by (nonlinear_arith)
        requires
            k < n,
            n <= (hex_shown(data.len()) + 15) / 16,
    ;
}

/// The hex dump shows at most `MAX_HEX_BYTES` bytes, 16 per line, and ends
/// with `...` exactly when the data was longer.
pub proof fn lemma_hex_dump_shape(data: Seq<u8>)
    ensures
        hex_dump_lines(data).len() == hex_line_count(hex_shown(data.len())) + if data.len()
            > MAX_HEX_BYTES {
            1nat
        } else {
            0nat
        },
        data.len() > MAX_HEX_BYTES ==> hex_dump_lines(data).last() == "..."@,
        forall|k: int|
            0 <= k < hex_line_count(hex_shown(data.len())) ==> #[trigger] hex_dump_lines(data)[k]
                == hex_line_text(
                data.subrange(
                    k * 16,
                    if k * 16 + 16 < hex_shown(data.len()) {
                        k * 16 + 16
                    } else {
                        hex_shown(data.len()) as int
                    },
                ),
            ),
{
    let count = hex_line_count(hex_shown(data.len()));
    lemma_hex_chunk_lines_len(data, count);
    assert forall|k: int| 0 <= k < count implies #[trigger] hex_dump_lines(data)[k]
        == hex_line_text(
        data.subrange(
            k * 16,
            if k * 16 + 16 < hex_shown(data.len()) {
                k * 16 + 16
            } else {
                hex_shown(data.len()) as int
            },
        ),
    ) by {
        lemma_hex_chunk_lines_shape(data, count, k);
    }
}

/// A hex dump line of `m` bytes is `3m - 1` characters long, plus one for
/// the extra space after the eighth byte.
pub proof fn lemma_hex_line_len(chunk: Seq<u8>)
    requires
        chunk.len() > 0,
    ensures
        hex_line_text(chunk).len() == 3 * chunk.len() - 1 + if chunk.len() > 8 {
            1int
        } else {
            0int
        },
    decreases chunk.len(),
{
    if chunk.len() > 1 {
        lemma_hex_line_len(chunk.drop_last());
    } else {
        assert(hex_line_text(chunk.drop_last()) == Seq::<char>::empty());
    }
    assert(hex_separator(chunk.len() - 1).len() == if chunk.len() == 1 {
        0int
    } else if chunk.len() == 9 {
        2int
    } else {
        1int
    });
}

/// Number of lines needed for `n` bytes at 16 bytes per line.
pub open spec fn hex_line_count(n: nat) -> nat {
    (n + HEX_BYTES_PER_LINE - 1) as nat / (HEX_BYTES_PER_LINE as nat)
}

/// The hex dump of `data`: one line per 16 shown bytes, followed by `...`
/// when more than `MAX_HEX_BYTES` bytes were given.
pub open spec fn hex_dump_lines(data: Seq<u8>) -> Seq<Seq<char>> {
    let lines = hex_chunk_lines(data, hex_line_count(hex_shown(data.len())));
    if data.len() > MAX_HEX_BYTES {
        lines.push("..."@)
    } else {
        lines
    }
}

/// Lines each written at depth `depth` and ended with a newline.
pub open spec fn indented_lines(depth: nat, lines: Seq<Seq<char>>) -> Seq<char>
    decreases lines.len(),
{
    if lines.len() == 0 {
        Seq::empty()
    } else {
        indented_lines(depth, lines.drop_last()) + indent_text(depth) + lines.last() + "\n"@
    }
}

/// The padding from the end of `len` bytes written after the indentation of
/// depth `depth` to column `col`: `pad_to(col, depth * 4 + len)`, computed
/// without overflow.
pub fn pad_after_indent(col: usize, depth: usize, len: usize) -> (r: usize)
    requires
        col <= 100,
    ensures
        r == pad_to(col as int, depth * INDENT_WIDTH + len),
{
    if depth < col {
        let iw = depth * INDENT_WIDTH;
        if iw < col && len < col - iw {
            col - iw - len
        } else {
            1
        }
    } else {
        1
    }
}

/// `pad_to(col, start + len)`, computed without overflow.
pub fn pad_after(col: usize, start: usize, len: usize) -> (r: usize)
    ensures
        r == pad_to(col as int, start + len),
{
    if start < col && len < col - start {
        col - start - len
    } else {
        1
    }
}

/// The bytes of an optional string argument, as characters.
pub open spec fn opt_chars(s: Option<&str>) -> Option<Seq<char>> {
    match s {
        Some(t) => Some(t@),
        None => None,
    }
}

/// The rows of a table as value sequences.
pub open spec fn row_values(rows: Seq<&[Value]>) -> Seq<Seq<Value>> {
    rows.map_values(|r: &[Value]| r@)
}

/// An optional borrowed value, as a value.
pub open spec fn opt_value(v: Option<&Value>) -> Option<Value> {
    match v {
        Some(x) => Some(*x),
        None => None,
    }
}

/// The items joined with `sep` between neighbours.
pub open spec fn joined(items: Seq<Seq<char>>, sep: Seq<char>) -> Seq<char>
    decreases items.len(),
{
    if items.len() == 0 {
        Seq::empty()
    } else if items.len() == 1 {
        items[0]
    } else {
        joined(items.drop_last(), sep) + sep + items.last()
    }
}

/// Joining one more item adds the separator (unless it is the first) and the item.
pub proof fn lemma_joined_step(items: Seq<Seq<char>>, sep: Seq<char>, i: int)
    requires
        0 <= i < items.len(),
    ensures
        joined(items.take(i + 1), sep) == joined(items.take(i), sep) + (if i == 0 {
            Seq::<char>::empty()
        } else {
            sep
        }) + items[i],
{
    assert(items.take(i + 1).drop_last() =~= items.take(i));
    if i == 0 {
        assert(joined(items.take(0), sep) =~= Seq::<char>::empty());
        assert(joined(items.take(1), sep) == items[0]);
        assert(Seq::<char>::empty() + Seq::<char>::empty() + items[0] =~= items[0]);
    }
}

/// UTF-8 encoding distributes over concatenation.
pub broadcast proof fn lemma_encode_utf8_concat(a: Seq<char>, b: Seq<char>)
    ensures
        #[trigger] encode_utf8(a + b) == encode_utf8(a) + encode_utf8(b),
    decreases a.len(),
{
    if a.len() == 0 {
        assert(a + b =~= b);
    } else {
        assert((a + b).drop_first() =~= a.drop_first() + b);
        lemma_encode_utf8_concat(a.drop_first(), b);
    }
}

/// Every character of `s` is ASCII.
pub open spec fn is_ascii_text(s: Seq<char>) -> bool {
    forall|i: int| 0 <= i < s.len() ==> (#[trigger] s[i] as u32) < 128
}

/// An ASCII string takes one byte per character.
pub proof fn lemma_ascii_utf8_len(s: Seq<char>)
    requires
        is_ascii_text(s),
    ensures
        utf8_len(s) == s.len(),
    decreases s.len(),
{
    if s.len() > 0 {
        assert(s[0] as u32 == s[0] as u32);
        assert(is_ascii_text(s.drop_first())) by {
            assert forall|i: int| 0 <= i < s.drop_first().len() implies (#[trigger] s.drop_first()[i]
                as u32) < 128 by {
                assert(s.drop_first()[i] == s[i + 1]);
            }
        }
        lemma_ascii_utf8_len(s.drop_first());
    }
}

/// Spaces take one byte each.
pub proof fn lemma_spaces_utf8_len(n: nat)
    ensures
        utf8_len(spaces(n)) == n,
{
    assert(is_ascii_text(spaces(n)));
    lemma_ascii_utf8_len(spaces(n));
}

/// Appends `n` spaces.
pub fn push_spaces(s: &mut String, n: usize)
    ensures
        final(s)@ == old(s)@ + spaces(n as nat),
{
    let ghost start = s@;
    let mut i: usize = 0;
    while i < n
        invariant
            i <= n,
            s@ == start + spaces(i as nat),
        decreases n - i,
    {
        proof {
            reveal_strlit(" ");
        }
        s.append(" ");
        i = i + 1;
        assert(s@ =~= start + spaces(i as nat));
    }
}

/// Appends the indentation for depth `depth`.
pub fn push_indent(s: &mut String, depth: usize)
    ensures
        final(s)@ == old(s)@ + indent_text(depth as nat),
{
    let ghost start = s@;
    let mut i: usize = 0;
    while i < depth
        invariant
            i <= depth,
            s@ == start + indent_text(i as nat),
        decreases depth - i,
    {
        proof {
            reveal_strlit("    ");
        }
        s.append("    ");
        i = i + 1;
        assert(s@ =~= start + indent_text(i as nat));
    }
}

/// Writes a finished line (or several) to a sink.
pub fn emit<S: ByteSink>(w: &mut S, text: &String) -> (r: Result<(), TextRenderError>)
    ensures
        S::tracks_output() && r is Ok ==> final(w).written() == old(w).written() + encode_utf8(text@),
        S::never_fails() ==> r is Ok,
        old(w).answers(encode_utf8(text@), r),
{
    let s: &str = text.as_str();
    w.write_bytes(s.as_bytes())
}

/// Byte `b` repeated `n` times.
pub open spec fn repeated_byte(b: u8, n: nat) -> Seq<u8> {
    Seq::new(n, |i: int| b)
}

/// Write indentation spaces to the output: nothing at depth 0, otherwise one
/// write of four spaces per level, whose answer is returned as the sink gave it.
pub fn write_indent<S: ByteSink>(w: &mut S, depth: usize) -> (r: Result<(), TextRenderError>)
    requires
        depth * INDENT_WIDTH <= usize::MAX,
    ensures
        S::tracks_output() && r is Ok ==> final(w).written() == old(w).written() + repeated_byte(
            32u8,
            (depth * INDENT_WIDTH) as nat,
        ),
        S::never_fails() ==> r is Ok,
        depth == 0 ==> r is Ok && *final(w) == *old(w),
        depth > 0 ==> old(w).answers(repeated_byte(32u8, (depth * INDENT_WIDTH) as nat), r),
{
    let total = depth * INDENT_WIDTH;
    if total == 0 {
        return Ok(());
    }
    let mut buf: Vec<u8> = Vec::new();
    let mut i: usize = 0;
    while i < total
        invariant
            i <= total,
            buf@ == repeated_byte(32u8, i as nat),
        decreases total - i,
    {
        buf.push(32u8);
        i = i + 1;
        assert(buf@ =~= repeated_byte(32u8, i as nat));
    }
    w.write_bytes(buf.as_slice())
}

/// Format a value for display, returning the formatted string.
pub fn format_value(value: &Value) -> (r: String)
    ensures
        r@ == value_text(*value),
{
    value.to_text()
}

/// Appends `name: value, ...` for the given terms.
pub fn push_terms_joined(s: &mut String, terms: &[TermAnnotation<'_>])
    ensures
        final(s)@ == old(s)@ + terms_joined(terms@),
{
    let ghost start = s@;
    let n = terms.len();
    let mut i: usize = 0;
    while i < n
        invariant
            n == terms@.len(),
            i <= n,
            s@ == start + terms_joined(terms@.subrange(0, i as int)),
        decreases n - i,
    {
        let ghost before = s@;
        if i > 0 {
            s.append(", ");
        }
        s.append(terms[i].name);
        s.append(": ");
        terms[i].value.push_text(s);
        proof {
            let sub = terms@.subrange(0, i + 1);
            assert(sub.drop_last() =~= terms@.subrange(0, i as int));
            assert(sub.last() == terms@[i as int]);
        }
        i = i + 1;
        assert(s@ =~= start + terms_joined(terms@.subrange(0, i as int)));
    }
    assert(terms@.subrange(0, n as int) =~= terms@);
}

/// Format term annotations as a trailing comment: `  /* name: value */`
/// If multiple terms, they are comma-separated within a single comment.
pub fn format_term_annotations(terms: &[TermAnnotation<'_>]) -> (r: String)
    ensures
        r@ == term_annotations_text(terms@),
{
    let mut s = String::new();
    if terms.len() == 0 {
        return s;
    }
    s.append("  /* ");
    push_terms_joined(&mut s, terms);
    s.append(" */");
    s
}

/// Appends one hex dump line for `data[start..end]`.
fn push_hex_line(s: &mut String, data: &[u8], start: usize, end: usize)
    requires
        start <= end <= data@.len(),
    ensures
        final(s)@ == old(s)@ + hex_line_text(data@.subrange(start as int, end as int)),
{
    let ghost base = s@;
    let mut k: usize = start;
    while k < end
        invariant
            start <= k <= end,
            end <= data@.len(),
            s@ == base + hex_line_text(data@.subrange(start as int, k as int)),
        decreases end - k,
    {
        let i = k - start;
        if i > 0 {
            s.append(" ");
        }
        if i == 8 {
            s.append(" ");
        }
        push_byte_hex(s, data[k]);
        proof {
            reveal_strlit(" ");
            let chunk = data@.subrange(start as int, k + 1);
            assert(chunk.drop_last() =~= data@.subrange(start as int, k as int));
            assert(chunk.last() == data@[k as int]);
        }
        k = k + 1;
        assert(s@ =~= base + hex_line_text(data@.subrange(start as int, k as int)));
    }
}

/// Format raw bytes as hex dump lines. Returns a Vec of formatted lines.
/// Each line contains up to 16 bytes, with a space separator after the 8th byte.
/// If the data exceeds `MAX_HEX_BYTES`, the dump is truncated and ends with `...`.
pub fn format_hex_dump(data: &[u8]) -> (lines: Vec<String>)
    ensures
        lines@.len() == hex_dump_lines(data@).len(),
        forall|i: int| 0 <= i < lines@.len() ==> (#[trigger] lines@[i])@ == hex_dump_lines(data@)[i],
{
    let truncated = data.len() > MAX_HEX_BYTES;
    let show_bytes = if truncated {
        MAX_HEX_BYTES
    } else {
        data.len()
    };
    let mut lines: Vec<String> = Vec::new();
    let nlines = (show_bytes + HEX_BYTES_PER_LINE - 1) / HEX_BYTES_PER_LINE;
    let mut k: usize = 0;
    while k < nlines
        invariant
            show_bytes == hex_shown(data@.len()),
            show_bytes <= MAX_HEX_BYTES,
            nlines == hex_line_count(show_bytes as nat),
            k <= nlines,
            lines@.len() == k,
            hex_chunk_lines(data@, k as nat).len() == k,
            forall|i: int| 0 <= i < k ==> (#[trigger] lines@[i])@ == hex_chunk_lines(data@, k as nat)[i],
        decreases nlines - k,
    {
        proof {
            assert(k * 16 < show_bytes) by (nonlinear_arith)
                requires
                    k < nlines,
                    nlines == (show_bytes + 15) / 16,
            ;
        }
        let chunk_start = k * HEX_BYTES_PER_LINE;
        let chunk_end = if chunk_start + HEX_BYTES_PER_LINE < show_bytes {
            chunk_start + HEX_BYTES_PER_LINE
        } else {
            show_bytes
        };
        let mut line = String::new();
        push_hex_line(&mut line, data, chunk_start, chunk_end);
        let ghost prev = lines@;
        lines.push(line);
        k = k + 1;
        proof {
            lemma_hex_chunk_lines_len(data@, k as nat);
            assert(hex_chunk_lines(data@, k as nat) == hex_chunk_lines(data@, (k - 1) as nat).push(
                hex_line_text(data@.subrange(chunk_start as int, chunk_end as int)),
            ));
            assert forall|i: int| 0 <= i < k implies (#[trigger] lines@[i])@ == hex_chunk_lines(
                data@,
                k as nat,
            )[i] by {
                if i < k - 1 {
                    assert(lines@[i] == prev[i]);
                }
            }
        }
    }
    let ghost chunks = hex_chunk_lines(data@, nlines as nat);
    if truncated {
        let ghost prev = lines@;
        lines.push(String::from_str("..."));
        proof {
            assert forall|i: int| 0 <= i < lines@.len() implies (#[trigger] lines@[i])@
                == hex_dump_lines(data@)[i] by {
                if i < lines@.len() - 1 {
                    assert(lines@[i] == prev[i]);
                }
            }
        }
    }
    lines
}

} // verus!
