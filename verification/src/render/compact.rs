//! The compact text renderer: field values only, untaken branches left out.
use vstd::prelude::*;
use vstd::utf8::encode_utf8;

use crate::numfmt::{byte_hex_text, dec_text, push_byte_hex, push_decimal};
use crate::render::text::{hex_dump_text, TextRenderError};
use crate::render::{
    ends_with, lemma_concat_ends, starts_with, emit, hex_dump_lines, indent_text, indented_lines, joined, lemma_joined_step, opt_chars,
    opt_value, push_indent, push_spaces, row_values, spaces, utf8_len,
};
use crate::sink::ByteSink;
use crate::types::{
    value_text, BitPatternField, ColumnDef, FieldTable, FixedWidthField, TermAnnotation, Value,
    VariableLengthField,
};
use crate::write::{
    block_step, blocks_after, calls_fit, bit_pattern_event, fixed_event, opt_text, opt_val, table_events, term_pairs, top_is,
    variable_event, BlockTag, SyntaxEvent, SyntaxWrite,
};

verus! {

// ── Nesting and suppression ─────────────────────────────────

/// Whether a block of this kind indents its contents. Conditionals and
/// switches are transparent.
pub open spec fn adds_level(t: BlockTag) -> bool {
    t == BlockTag::Element || t == BlockTag::For || t == BlockTag::While || t == BlockTag::DoWhile
}

/// The indentation level that the open blocks amount to.
pub open spec fn level_count(blocks: Seq<BlockTag>) -> nat
    decreases blocks.len(),
{
    if blocks.len() == 0 {
        0
    } else {
        level_count(blocks.drop_last()) + if adds_level(blocks.last()) {
            1nat
        } else {
            0nat
        }
    }
}

/// There are never more levels than open blocks.
pub proof fn lemma_level_count_bounded(blocks: Seq<BlockTag>)
    ensures
        level_count(blocks) <= blocks.len(),
    decreases blocks.len(),
{
    if blocks.len() > 0 {
        lemma_level_count_bounded(blocks.drop_last());
    }
}

/// A suppressing position names an open conditional or case.
pub open spec fn suppressor_open(blocks: Seq<BlockTag>, s: Option<nat>) -> bool {
    match s {
        Some(p) => 1 <= p <= blocks.len() && (blocks[p - 1] == BlockTag::If || blocks[p - 1]
            == BlockTag::Case),
        None => true,
    }
}

/// The suppression after opening a conditional or case that becomes the
/// `pos`-th open block: an untaken one starts suppressing, unless output is
/// already suppressed.
pub open spec fn suppress_on_open(s: Option<nat>, pos: nat, taken: bool) -> Option<nat> {
    if !taken && s is None {
        Some(pos)
    } else {
        s
    }
}

/// The suppression after moving to another branch of the conditional that is
/// the `pos`-th open block: a taken branch ends the suppression that this
/// conditional started, an untaken one starts suppressing unless output is
/// already suppressed.
pub open spec fn suppress_on_branch(s: Option<nat>, pos: nat, taken: bool) -> Option<nat> {
    if taken {
        if s == Some(pos) {
            None
        } else {
            s
        }
    } else if s is None {
        Some(pos)
    } else {
        s
    }
}

/// The suppression after closing the conditional or case that is the
/// `pos`-th open block: it ends if that block started it.
pub open spec fn suppress_on_close(s: Option<nat>, pos: nat) -> Option<nat> {
    if s == Some(pos) {
        None
    } else {
        s
    }
}

/// What a line contributes to the output: its bytes, or nothing while
/// output is suppressed.
pub open spec fn shown(suppressed: Option<nat>, text: Seq<char>) -> Seq<u8> {
    if suppressed is None {
        encode_utf8(text)
    } else {
        Seq::empty()
    }
}

// ── The text of each line ───────────────────────────────────

/// `name:` or `name(params):`.
pub open spec fn element_line(depth: nat, name: Seq<char>, params: Option<Seq<char>>) -> Seq<char> {
    match params {
        Some(p) => indent_text(depth) + name + "("@ + p + "):\n"@,
        None => indent_text(depth) + name + ":\n"@,
    }
}

/// `name: value  // comment`, each part present when given.
pub open spec fn field_line(
    depth: nat,
    name: Seq<char>,
    value: Option<Value>,
    comment: Option<Seq<char>>,
) -> Seq<char> {
    indent_text(depth) + name + match value {
        Some(v) => ": "@ + value_text(v),
        None => Seq::empty(),
    } + match comment {
        Some(c) => "  // "@ + c,
        None => Seq::empty(),
    } + "\n"@
}

/// Raw bytes: up to 16 on one line separated by single spaces, more as a
/// hex dump.
pub open spec fn raw_bytes_text(depth: nat, data: Seq<u8>) -> Seq<char> {
    if data.len() <= 16 {
        indent_text(depth) + joined(Seq::new(data.len(), |i: int| byte_hex_text(data[i])), " "@)
            + "\n"@
    } else {
        indented_lines(depth, hex_dump_lines(data))
    }
}

/// `[index]:`.
pub open spec fn iteration_line(depth: nat, index: u64) -> Seq<char> {
    indent_text(depth) + "["@ + dec_text(index as nat) + "]:\n"@
}

/// `expression = value`, or the bare expression.
pub open spec fn assignment_line(depth: nat, expression: Seq<char>, value: Option<Value>) -> Seq<
    char,
> {
    match value {
        Some(v) => indent_text(depth) + expression + " = "@ + value_text(v) + "\n"@,
        None => indent_text(depth) + expression + "\n"@,
    }
}

/// `// text`.
pub open spec fn comment_line(depth: nat, text: Seq<char>) -> Seq<char> {
    indent_text(depth) + "// "@ + text + "\n"@
}

/// `...`.
pub open spec fn ellipsis_line(depth: nat) -> Seq<char> {
    indent_text(depth) + "...\n"@
}

// ── Field tables ────────────────────────────────────────────

/// The text of a row's first value, or nothing for an empty row.
pub open spec fn first_value_text(row: Seq<Value>) -> Seq<char> {
    if row.len() > 0 {
        value_text(row[0])
    } else {
        Seq::empty()
    }
}

/// A one-column table: `name: [v0, v1, ...]`.
pub open spec fn single_column_text(depth: nat, name: Seq<char>, rows: Seq<Seq<Value>>) -> Seq<
    char,
> {
    indent_text(depth) + name + ": ["@ + joined(
        Seq::new(rows.len(), |k: int| first_value_text(rows[k])),
        ", "@,
    ) + "]\n"@
}

/// The widest value in column `i` over `rows`, in bytes (0 when none).
pub open spec fn max_value_len(rows: Seq<Seq<Value>>, i: int) -> nat
    decreases rows.len(),
{
    if rows.len() == 0 {
        0
    } else {
        let prev = max_value_len(rows.drop_last(), i);
        let here = if 0 <= i < rows.last().len() {
            utf8_len(value_text(rows.last()[i]))
        } else {
            0
        };
        if here > prev {
            here
        } else {
            prev
        }
    }
}

/// The width of a column: its header or its widest value, whichever is wider.
pub open spec fn column_width(name: Seq<char>, rows: Seq<Seq<Value>>, i: int) -> nat {
    let m = max_value_len(rows, i);
    if m > utf8_len(name) {
        m
    } else {
        utf8_len(name)
    }
}

/// The widths of all columns.
pub open spec fn column_widths(columns: Seq<ColumnDef>, rows: Seq<Seq<Value>>) -> Seq<nat> {
    Seq::new(columns.len(), |i: int| column_width(columns[i].name@, rows, i))
}

/// `s` right-aligned in a field of `width` characters (`{:>width$}`).
pub open spec fn right_align(s: Seq<char>, width: nat) -> Seq<char> {
    if s.len() < width {
        spaces((width - s.len()) as nat) + s
    } else {
        s
    }
}

/// The header cells: column names aligned to their widths.
pub open spec fn header_cells(columns: Seq<ColumnDef>, widths: Seq<nat>) -> Seq<Seq<char>> {
    Seq::new(columns.len(), |i: int| right_align(columns[i].name@, widths[i]))
}

/// The cells of a row: values aligned to their column widths; values beyond
/// the last column are written as they are.
pub open spec fn row_cells(row: Seq<Value>, widths: Seq<nat>) -> Seq<Seq<char>> {
    Seq::new(
        row.len(),
        |i: int|
            if i < widths.len() {
                right_align(value_text(row[i]), widths[i])
            } else {
                value_text(row[i])
            },
    )
}

/// The table rows, one line each, cells separated by two spaces.
pub open spec fn rows_text(depth: nat, rows: Seq<Seq<Value>>, widths: Seq<nat>) -> Seq<char>
    decreases rows.len(),
{
    if rows.len() == 0 {
        Seq::empty()
    } else {
        rows_text(depth, rows.drop_last(), widths) + indent_text(depth) + joined(
            row_cells(rows.last(), widths),
            "  "@,
        ) + "\n"@
    }
}

/// A table of several columns: a header line, then one aligned line per row.
pub open spec fn multi_column_text(depth: nat, columns: Seq<ColumnDef>, rows: Seq<Seq<Value>>) -> Seq<
    char,
> {
    let widths = column_widths(columns, rows);
    indent_text(depth) + joined(header_cells(columns, widths), "  "@) + "\n"@ + rows_text(
        depth,
        rows,
        widths,
    )
}

/// A field table: nothing without rows, an inline list for one column, an
/// aligned table otherwise.
pub open spec fn field_table_text(depth: nat, columns: Seq<ColumnDef>, rows: Seq<Seq<Value>>) -> Seq<
    char,
> {
    if rows.len() == 0 {
        Seq::empty()
    } else if columns.len() == 1 {
        single_column_text(depth, columns[0].name@, rows)
    } else {
        multi_column_text(depth, columns, rows)
    }
}

// ── Laws ────────────────────────────────────────────────────

/// Once the untaken branch or case at position `p` suppresses output, it
/// stays suppressed through opening any block, switching branches of any
/// other conditional and closing any other block, including conditionals and
/// cases nested inside it at the same indentation; only closing that
/// conditional or case, or taking a later branch of that same conditional,
/// ends the suppression.
pub proof fn lemma_suppression_persists(p: nat, e: nat, taken: bool)
    ensures
        suppress_on_open(Some(p), e, taken) == Some(p),
        e != p ==> suppress_on_branch(Some(p), e, taken) == Some(p),
        e != p ==> suppress_on_close(Some(p), e) == Some(p),
        suppress_on_close(Some(p), p) == None::<nat>,
        suppress_on_branch(Some(p), p, true) == None::<nat>,
        suppress_on_branch(Some(p), p, false) == Some(p),
{
}

/// A taken branch changes nothing; an untaken one opened at position `p`
/// while output shows suppresses everything until its own conditional
/// closes or a later branch of it is taken.
pub proof fn lemma_untaken_branch_suppressed(s: Option<nat>, p: nat)
    ensures
        suppress_on_open(s, p, true) == s,
        s is None ==> suppress_on_open(s, p, false) == Some(p),
        s is None ==> suppress_on_close(suppress_on_open(s, p, false), p) == s,
        s is None ==> suppress_on_branch(suppress_on_open(s, p, false), p, true) == s,
        forall|t: Seq<char>| #[trigger] shown(Some(p), t) == Seq::<u8>::empty(),
{
}

/// The suppression after one call made with `blocks` open, as the compact
/// renderer's contracts give it.
pub open spec fn suppress_step(s: Option<nat>, blocks: Seq<BlockTag>, e: SyntaxEvent) -> Option<nat> {
    match e {
        SyntaxEvent::BeginIf { taken, .. } => suppress_on_open(s, blocks.len() + 1, taken),
        SyntaxEvent::BeginCase { taken, .. } => suppress_on_open(s, blocks.len() + 1, taken),
        SyntaxEvent::BeginElseIf { taken, .. } => suppress_on_branch(s, blocks.len(), taken),
        SyntaxEvent::BeginElse { taken } => suppress_on_branch(s, blocks.len(), taken),
        SyntaxEvent::EndIf => suppress_on_close(s, blocks.len()),
        SyntaxEvent::EndCase => suppress_on_close(s, blocks.len()),
        _ => s,
    }
}

/// The suppression after a sequence of calls made with `blocks` open.
pub open spec fn suppress_after(s: Option<nat>, blocks: Seq<BlockTag>, events: Seq<SyntaxEvent>) -> Option<
    nat,
>
    decreases events.len(),
{
    if events.len() == 0 {
        s
    } else {
        suppress_step(
            suppress_after(s, blocks, events.drop_last()),
            blocks_after(blocks, events.drop_last()),
            events.last(),
        )
    }
}

/// Whether a call made with `blocks` open closes the conditional or case at
/// position `p`, or takes a later branch of that conditional.
pub open spec fn ends_suppression(p: nat, blocks: Seq<BlockTag>, e: SyntaxEvent) -> bool {
    blocks.len() == p && match e {
        SyntaxEvent::EndIf => true,
        SyntaxEvent::EndCase => true,
        SyntaxEvent::BeginElseIf { taken, .. } => taken,
        SyntaxEvent::BeginElse { taken } => taken,
        _ => false,
    }
}

/// No call of the sequence, made with `blocks` open at its start, ends the
/// suppression by the block at position `p`.
pub open spec fn none_ends(p: nat, blocks: Seq<BlockTag>, events: Seq<SyntaxEvent>) -> bool
    decreases events.len(),
{
    if events.len() == 0 {
        true
    } else {
        none_ends(p, blocks, events.drop_last()) && !ends_suppression(
            p,
            blocks_after(blocks, events.drop_last()),
            events.last(),
        )
    }
}

/// Once an untaken branch or case at position `p` suppresses output, any
/// sequence of allowed calls that neither closes it nor takes a later branch
/// of its conditional leaves output suppressed by it, with that block still
/// open; while suppressed, every compact output call returns `Ok` and writes
/// nothing (see `shown`).
pub proof fn lemma_suppression_over_calls(p: nat, blocks: Seq<BlockTag>, events: Seq<SyntaxEvent>)
    requires
        suppressor_open(blocks, Some(p)),
        calls_fit(blocks, events),
        none_ends(p, blocks, events),
    ensures
        suppress_after(Some(p), blocks, events) == Some(p),
        suppressor_open(blocks_after(blocks, events), Some(p)),
    decreases events.len(),
{
    if events.len() > 0 {
        let init = events.drop_last();
        let e = events.last();
        lemma_suppression_over_calls(p, blocks, init);
        let b = blocks_after(blocks, init);
        assert(blocks_after(blocks, events) == block_step(b, e));
        if b.len() > 0 {
            assert(b.drop_last().len() == b.len() - 1);
            assert(p < b.len() ==> b.drop_last()[p - 1] == b[p - 1]);
        }
    }
}

/// Moving to an untaken branch while output shows starts suppression at that
/// conditional, and so does an untaken branch or case opened anywhere; a
/// taken branch of a conditional that suppresses nothing shows its output.
pub proof fn lemma_untaken_branch_starts_suppression(s: Option<nat>, p: nat)
    ensures
        suppress_on_branch(None, p, false) == Some(p),
        suppress_on_branch(None, p, true) == None::<nat>,
        suppress_on_branch(s, p, false) is Some,
        suppress_on_open(s, p, false) is Some,
{
}

/// After a taken `if` and an untaken `else` (or `else if`), made while output
/// shows, output is suppressed by that conditional until it closes.
#[verifier::spinoff_prover]
pub proof fn lemma_untaken_else_after_taken_if(
    blocks: Seq<BlockTag>,
    condition: Seq<char>,
    terms: Seq<(Seq<char>, Value)>,
    later: SyntaxEvent,
)
    requires
        later == (SyntaxEvent::BeginElse { taken: false }) || later matches SyntaxEvent::BeginElseIf {
            taken: false,
            ..
        },
    ensures
        ({
            let events = seq![SyntaxEvent::BeginIf { condition, terms, taken: true }, later];
            &&& suppress_after(None, blocks, events) == Some(blocks.len() + 1)
            &&& suppress_after(None, blocks, events.push(SyntaxEvent::EndIf)) == None::<nat>
        }),
{
    let first = SyntaxEvent::BeginIf { condition, terms, taken: true };
    let one = seq![first];
    let events = seq![first, later];
    let three = events.push(SyntaxEvent::EndIf);
    assert(one.drop_last() =~= Seq::<SyntaxEvent>::empty());
    assert(one.last() == first);
    assert(events.drop_last() =~= one);
    assert(events.last() == later);
    assert(three.drop_last() =~= events);
    assert(three.last() == SyntaxEvent::EndIf);
    assert(blocks_after(blocks, Seq::<SyntaxEvent>::empty()) == blocks);
    assert(suppress_after(None, blocks, Seq::<SyntaxEvent>::empty()) == None::<nat>);
    assert(blocks_after(blocks, one) == blocks.push(BlockTag::If));
    assert(suppress_after(None, blocks, one) == None::<nat>);
    assert(blocks_after(blocks, events) == blocks.push(BlockTag::If));
    assert(suppress_after(None, blocks, events) == Some(blocks.len() + 1));
}

/// A compact field line holds the indentation and the name, then `: value`
/// when a value is given and `  // comment` when a comment is given, and
/// ends the line; a field with neither is just its name.
#[verifier::spinoff_prover]
pub proof fn lemma_compact_field_line_shape(
    depth: nat,
    name: Seq<char>,
    value: Option<Value>,
    comment: Option<Seq<char>>,
)
    ensures
        starts_with(field_line(depth, name, value, comment), indent_text(depth) + name),
        ends_with(field_line(depth, name, value, comment), "\n"@),
        value is None && comment is None ==> field_line(depth, name, value, comment).len()
            == indent_text(depth).len() + name.len() + 1,
        value matches Some(v) ==> starts_with(
            field_line(depth, name, value, comment),
            indent_text(depth) + name + ": "@ + value_text(v),
        ),
        comment matches Some(c) ==> ends_with(
            field_line(depth, name, value, comment),
            "  // "@ + c + "\n"@,
        ),
        value is Some && comment is None ==> ends_with(
            field_line(depth, name, value, comment),
            ": "@ + value_text(value.unwrap()) + "\n"@,
        ),
        value is None && comment is Some ==> field_line(depth, name, value, comment).len()
            == indent_text(depth).len() + name.len() + ("  // "@ + comment.unwrap()).len() + 1,
{
    reveal_strlit("\n");
    let head = indent_text(depth) + name;
    let vpart = match value {
        Some(v) => ": "@ + value_text(v),
        None => Seq::<char>::empty(),
    };
    let cpart = match comment {
        Some(c) => "  // "@ + c,
        None => Seq::<char>::empty(),
    };
    let nl = "\n"@;
    let line = head + vpart + cpart + nl;
    assert(field_line(depth, name, value, comment) == line);
    assert(line =~= head + (vpart + cpart + nl));
    lemma_concat_ends(head, vpart + cpart + nl);
    lemma_concat_ends(head + vpart + cpart, nl);
    assert(line =~= (head + vpart) + (cpart + nl));
    lemma_concat_ends(head + vpart, cpart + nl);
    match value {
        Some(v) => {
            assert(head + vpart =~= indent_text(depth) + name + ": "@ + value_text(v));
        },
        None => {},
    }
    match comment {
        Some(c) => {
            assert(cpart + nl =~= "  // "@ + c + "\n"@);
        },
        None => {},
    }
    if value is Some && comment is None {
        assert(cpart =~= Seq::<char>::empty());
        assert(line =~= head + (vpart + nl));
        lemma_concat_ends(head, vpart + nl);
    }
}

/// A compact element line is the name, with its parameters in parentheses
/// when it has any, followed by `:`.
#[verifier::spinoff_prover]
pub proof fn lemma_compact_element_line_shape(depth: nat, name: Seq<char>, params: Option<Seq<char>>)
    ensures
        starts_with(element_line(depth, name, params), indent_text(depth) + name),
        ends_with(element_line(depth, name, params), ":\n"@),
        params is None ==> element_line(depth, name, params).len() == indent_text(depth).len()
            + name.len() + 2,
        params matches Some(p) ==> starts_with(
            element_line(depth, name, params),
            indent_text(depth) + name + "("@ + p + ")"@,
        ),
{
    reveal_strlit(":\n");
    reveal_strlit("):\n");
    reveal_strlit(")");
    let head = indent_text(depth) + name;
    match params {
        Some(p) => {
            let tail = "("@ + p + "):\n"@;
            assert(element_line(depth, name, params) =~= head + tail);
            lemma_concat_ends(head, tail);
            let with_params = head + "("@ + p + ")"@;
            assert(element_line(depth, name, params) =~= with_params + ":\n"@);
            lemma_concat_ends(with_params, ":\n"@);
            assert(with_params =~= indent_text(depth) + name + "("@ + p + ")"@);
        },
        None => {
            lemma_concat_ends(head, ":\n"@);
        },
    }
}

/// A compact assignment holds the indentation and the expression and ends
/// the line; without a computed value it is just the expression, with one it
/// ends `= value`.
#[verifier::spinoff_prover]
pub proof fn lemma_compact_assignment_shape(depth: nat, expression: Seq<char>, value: Option<Value>)
    ensures
        starts_with(assignment_line(depth, expression, value), indent_text(depth) + expression),
        ends_with(assignment_line(depth, expression, value), "\n"@),
        value is None ==> assignment_line(depth, expression, value).len() == indent_text(depth).len()
            + expression.len() + 1,
        value matches Some(v) ==> ends_with(
            assignment_line(depth, expression, value),
            " = "@ + value_text(v) + "\n"@,
        ),
{
    reveal_strlit("\n");
    let head = indent_text(depth) + expression;
    let line = assignment_line(depth, expression, value);
    match value {
        Some(v) => {
            let tail = " = "@ + value_text(v) + "\n"@;
            assert(line =~= head + tail);
            lemma_concat_ends(head, tail);
            assert(line =~= (head + " = "@ + value_text(v)) + "\n"@);
            lemma_concat_ends(head + " = "@ + value_text(v), "\n"@);
        },
        None => {
            assert(line =~= head + "\n"@);
            lemma_concat_ends(head, "\n"@);
        },
    }
}

/// A compact iteration marker is `[index]:` at the indentation, and a
/// comment line is `// text`.
pub proof fn lemma_compact_marker_shapes(depth: nat, index: u64, text: Seq<char>)
    ensures
        starts_with(iteration_line(depth, index), indent_text(depth) + "["@ + dec_text(index as nat)),
        ends_with(iteration_line(depth, index), "]:\n"@),
        starts_with(comment_line(depth, text), indent_text(depth) + "// "@ + text),
        ends_with(comment_line(depth, text), "\n"@),
{
    let it = iteration_line(depth, index);
    lemma_concat_ends(indent_text(depth) + "["@ + dec_text(index as nat), "]:\n"@);
    let cl = comment_line(depth, text);
    lemma_concat_ends(indent_text(depth) + "// "@ + text, "\n"@);
}

/// A value's text is never longer in characters than in bytes.
proof fn lemma_value_chars_le_bytes(v: Value)
    ensures
        value_text(v).len() <= utf8_len(value_text(v)),
{
    lemma_utf8_len_at_least_chars(value_text(v));
}

/// Every value in column `i` fits in the column's widest value.
proof fn lemma_max_value_len_bound(rows: Seq<Seq<Value>>, i: int, k: int)
    requires
        0 <= k < rows.len(),
        0 <= i < rows[k].len(),
    ensures
        utf8_len(value_text(rows[k][i])) <= max_value_len(rows, i),
    decreases rows.len(),
{
    if k < rows.len() - 1 {
        assert(rows.drop_last()[k] == rows[k]);
        lemma_max_value_len_bound(rows.drop_last(), i, k);
    }
}

/// In a multi-column table every header cell and every row cell under a
/// column is exactly as wide (in characters) as the column.
pub proof fn lemma_table_cells_aligned(columns: Seq<ColumnDef>, rows: Seq<Seq<Value>>)
    ensures
        forall|i: int|
            0 <= i < columns.len() ==> (#[trigger] header_cells(
                columns,
                column_widths(columns, rows),
            )[i]).len() == column_widths(columns, rows)[i],
        forall|k: int, i: int|
            0 <= k < rows.len() && 0 <= i < rows[k].len() && i < columns.len() ==> (
            #[trigger] row_cells(rows[k], column_widths(columns, rows))[i]).len()
                == column_widths(columns, rows)[i],
{
    let widths = column_widths(columns, rows);
    assert forall|i: int| 0 <= i < columns.len() implies (#[trigger] header_cells(
        columns,
        widths,
    )[i]).len() == widths[i] by {
        lemma_utf8_len_at_least_chars(columns[i].name@);
    }
    assert forall|k: int, i: int|
        0 <= k < rows.len() && 0 <= i < rows[k].len() && i < columns.len() implies (
    #[trigger] row_cells(rows[k], widths)[i]).len() == widths[i] by {
        lemma_value_chars_le_bytes(rows[k][i]);
        lemma_max_value_len_bound(rows, i, k);
    }
}

/// With a single column, the table is one line listing each row's first
/// value, in order.
pub proof fn lemma_single_column_lists_rows(depth: nat, columns: Seq<ColumnDef>, rows: Seq<Seq<Value>>)
    requires
        columns.len() == 1,
        rows.len() > 0,
    ensures
        field_table_text(depth, columns, rows) == indent_text(depth) + columns[0].name@ + ": ["@
            + joined(Seq::new(rows.len(), |k: int| first_value_text(rows[k])), ", "@) + "]\n"@,
{
}

// ── Line builders ───────────────────────────────────────────

/// The UTF-8 encoding of a string is at least as long as the string.
pub proof fn lemma_utf8_len_at_least_chars(s: Seq<char>)
    ensures
        encode_utf8(s).len() >= s.len(),
    decreases s.len(),
{
    if s.len() > 0 {
        lemma_utf8_len_at_least_chars(s.drop_first());
    }
}

/// The number of characters of `s`.
fn char_count(s: &str) -> (n: usize)
    ensures
        n == s@.len(),
{
    let bytes = s.as_bytes();
    proof {
        lemma_utf8_len_at_least_chars(s@);
    }
    let ghost total = s@.len();
    let blen = bytes.len();
    assert(total <= blen);
    let mut n: usize = 0;
    for c in it: s.chars()
        invariant
            n == it.index(),
            it.seq() == s@,
            total <= usize::MAX,
            total == s@.len(),
    {
        n = n + 1;
    }
    n
}

/// Appends `s` right-aligned to `width` characters.
fn push_right_aligned(line: &mut String, s: &str, width: usize)
    ensures
        final(line)@ == old(line)@ + right_align(s@, width as nat),
{
    let n = char_count(s);
    if n < width {
        push_spaces(line, width - n);
    }
    line.append(s);
}

/// Builds the text of a field line.
fn field_text(depth: usize, name: &str, value: Option<&Value>, comment: Option<&str>) -> (line: String)
    ensures
        line@ == field_line(depth as nat, name@, opt_value(value), opt_chars(comment)),
{
    let mut line = String::new();
    push_indent(&mut line, depth);
    line.append(name);
    match value {
        Some(v) => {
            line.append(": ");
            v.push_text(&mut line);
        },
        None => {},
    }
    match comment {
        Some(c) => {
            line.append("  // ");
            line.append(c);
        },
        None => {},
    }
    line.append("\n");
    line
}

/// Builds the text of raw bytes.
fn raw_bytes_string(depth: usize, data: &[u8]) -> (text: String)
    ensures
        text@ == raw_bytes_text(depth as nat, data@),
{
    if data.len() <= 16 {
        let ghost items = Seq::new(data@.len(), |i: int| byte_hex_text(data@[i]));
        let mut line = String::new();
        push_indent(&mut line, depth);
        let ghost base = line@;
        let n = data.len();
        let mut i: usize = 0;
        while i < n
            invariant
                n == data@.len(),
                items == Seq::new(data@.len(), |i: int| byte_hex_text(data@[i])),
                i <= n,
                line@ == base + joined(items.take(i as int), " "@),
            decreases n - i,
        {
            proof {
                lemma_joined_step(items, " "@, i as int);
            }
            if i > 0 {
                line.append(" ");
            }
            push_byte_hex(&mut line, data[i]);
            i = i + 1;
        }
        assert(items.take(n as int) =~= items);
        line.append("\n");
        line
    } else {
        hex_dump_text(depth, data)
    }
}

/// The byte length of a value's text.
fn value_len(v: &Value) -> (n: usize)
    ensures
        n == utf8_len(value_text(*v)),
{
    let t = v.to_text();
    let s: &str = t.as_str();
    s.as_bytes().len()
}

/// Builds a one-column table.
fn single_column_string(depth: usize, name: &str, rows: &[&[Value]]) -> (text: String)
    ensures
        text@ == single_column_text(depth as nat, name@, row_values(rows@)),
{
    let ghost rv = row_values(rows@);
    let ghost items = Seq::new(rv.len(), |k: int| first_value_text(rv[k]));
    let mut line = String::new();
    push_indent(&mut line, depth);
    line.append(name);
    line.append(": [");
    let ghost base = line@;
    let n = rows.len();
    let mut k: usize = 0;
    while k < n
        invariant
            n == rows@.len(),
            rv == row_values(rows@),
            items == Seq::new(rv.len(), |k: int| first_value_text(rv[k])),
            k <= n,
            line@ == base + joined(items.take(k as int), ", "@),
        decreases n - k,
    {
        proof {
            lemma_joined_step(items, ", "@, k as int);
        }
        if k > 0 {
            line.append(", ");
        }
        let row: &[Value] = rows[k];
        if row.len() > 0 {
            row[0].push_text(&mut line);
        }
        assert(rv[k as int] == row@);
        k = k + 1;
    }
    assert(items.take(n as int) =~= items);
    line.append("]\n");
    line
}

/// Taking one more row into account widens a column to that row's value.
proof fn lemma_max_value_len_step(rows: Seq<Seq<Value>>, k: int, i: int)
    requires
        0 <= k < rows.len(),
    ensures
        max_value_len(rows.take(k + 1), i) == ({
            let prev = max_value_len(rows.take(k), i);
            let here = if 0 <= i < rows[k].len() {
                utf8_len(value_text(rows[k][i]))
            } else {
                0
            };
            if here > prev {
                here
            } else {
                prev
            }
        }),
{
    assert(rows.take(k + 1).drop_last() =~= rows.take(k));
}

/// Computes the width of every column.
fn compute_widths(columns: &[ColumnDef<'_>], rows: &[&[Value]]) -> (widths: Vec<usize>)
    ensures
        widths@.len() == columns@.len(),
        forall|j: int|
            0 <= j < columns@.len() ==> widths@[j] as nat == #[trigger] column_width(
                columns@[j].name@,
                row_values(rows@),
                j,
            ),
{
    let ghost rv = row_values(rows@);
    let ncols = columns.len();
    let mut widths: Vec<usize> = Vec::new();
    let mut j: usize = 0;
    while j < ncols
        invariant
            ncols == columns@.len(),
            j <= ncols,
            widths@.len() == j,
            forall|x: int| 0 <= x < j ==> widths@[x] as nat == utf8_len(columns@[x].name@),
        decreases ncols - j,
    {
        let name: &str = columns[j].name;
        widths.push(name.as_bytes().len());
        j = j + 1;
    }
    let nrows = rows.len();
    let mut k: usize = 0;
    while k < nrows
        invariant
            ncols == columns@.len(),
            nrows == rows@.len(),
            rv == row_values(rows@),
            k <= nrows,
            widths@.len() == ncols,
            forall|x: int|
                0 <= x < ncols ==> widths@[x] as nat == #[trigger] column_width(
                    columns@[x].name@,
                    rv.take(k as int),
                    x,
                ),
        decreases nrows - k,
    {
        let row: &[Value] = rows[k];
        assert(rv[k as int] == row@);
        proof {
            assert forall|x: int| 0 <= x < ncols implies #[trigger] max_value_len(rv.take(k + 1), x) == ({
                let prev = max_value_len(rv.take(k as int), x);
                let here = if 0 <= x < rv[k as int].len() {
                    utf8_len(value_text(rv[k as int][x]))
                } else {
                    0
                };
                if here > prev {
                    here
                } else {
                    prev
                }
            }) by {
                lemma_max_value_len_step(rv, k as int, x);
            }
        }
        let rlen = row.len();
        let mut i: usize = 0;
        while i < rlen
            invariant
                ncols == columns@.len(),
                nrows == rows@.len(),
                rv == row_values(rows@),
                k < nrows,
                rlen == row@.len(),
                rv[k as int] == row@,
                i <= rlen,
                widths@.len() == ncols,
                forall|x: int|
                    0 <= x < ncols ==> #[trigger] widths@[x] as nat == if x < i {
                        column_width(columns@[x].name@, rv.take(k + 1), x)
                    } else {
                        column_width(columns@[x].name@, rv.take(k as int), x)
                    },
                forall|x: int| 0 <= x < ncols ==> #[trigger] max_value_len(rv.take(k + 1), x) == ({
                    let prev = max_value_len(rv.take(k as int), x);
                    let here = if 0 <= x < rv[k as int].len() {
                        utf8_len(value_text(rv[k as int][x]))
                    } else {
                        0
                    };
                    if here > prev {
                        here
                    } else {
                        prev
                    }
                }),
            decreases rlen - i,
        {
            if i < ncols {
                let val_len = value_len(&row[i]);
                if val_len > widths[i] {
                    widths[i] = val_len;
                }
            }
            i = i + 1;
        }
        k = k + 1;
    }
    assert(rv.take(nrows as int) =~= rv);
    widths
}

/// Appends the header line of a multi-column table (without indentation).
fn push_header(line: &mut String, columns: &[ColumnDef<'_>], widths: &Vec<usize>)
    requires
        widths@.len() == columns@.len(),
    ensures
        final(line)@ == old(line)@ + joined(
            header_cells(columns@, widths@.map_values(|w: usize| w as nat)),
            "  "@,
        ),
{
    let ghost ws = widths@.map_values(|w: usize| w as nat);
    let ghost items = header_cells(columns@, ws);
    let ghost base = line@;
    let n = columns.len();
    let mut i: usize = 0;
    while i < n
        invariant
            n == columns@.len(),
            widths@.len() == n,
            ws == widths@.map_values(|w: usize| w as nat),
            items == header_cells(columns@, ws),
            i <= n,
            line@ == base + joined(items.take(i as int), "  "@),
        decreases n - i,
    {
        proof {
            lemma_joined_step(items, "  "@, i as int);
        }
        if i > 0 {
            line.append("  ");
        }
        push_right_aligned(line, columns[i].name, widths[i]);
        i = i + 1;
    }
    assert(items.take(n as int) =~= items);
}

/// Appends one row of a multi-column table (without indentation).
fn push_row(line: &mut String, row: &[Value], widths: &Vec<usize>)
    ensures
        final(line)@ == old(line)@ + joined(
            row_cells(row@, widths@.map_values(|w: usize| w as nat)),
            "  "@,
        ),
{
    let ghost ws = widths@.map_values(|w: usize| w as nat);
    let ghost items = row_cells(row@, ws);
    let ghost base = line@;
    let n = row.len();
    let mut i: usize = 0;
    while i < n
        invariant
            n == row@.len(),
            ws == widths@.map_values(|w: usize| w as nat),
            items == row_cells(row@, ws),
            i <= n,
            line@ == base + joined(items.take(i as int), "  "@),
        decreases n - i,
    {
        proof {
            lemma_joined_step(items, "  "@, i as int);
        }
        if i > 0 {
            line.append("  ");
        }
        let formatted = row[i].to_text();
        if i < widths.len() {
            push_right_aligned(line, formatted.as_str(), widths[i]);
        } else {
            line.append(formatted.as_str());
        }
        i = i + 1;
    }
    assert(items.take(n as int) =~= items);
}

/// Builds a multi-column table.
fn multi_column_string(depth: usize, columns: &[ColumnDef<'_>], rows: &[&[Value]]) -> (text: String)
    ensures
        text@ == multi_column_text(depth as nat, columns@, row_values(rows@)),
{
    let ghost rv = row_values(rows@);
    let widths = compute_widths(columns, rows);
    let ghost ws = widths@.map_values(|w: usize| w as nat);
    assert(ws =~= column_widths(columns@, rv));
    let mut text = String::new();
    push_indent(&mut text, depth);
    push_header(&mut text, columns, &widths);
    text.append("\n");
    let ghost base = text@;
    let n = rows.len();
    let mut k: usize = 0;
    while k < n
        invariant
            n == rows@.len(),
            rv == row_values(rows@),
            ws == widths@.map_values(|w: usize| w as nat),
            k <= n,
            text@ == base + rows_text(depth as nat, rv.take(k as int), ws),
        decreases n - k,
    {
        push_indent(&mut text, depth);
        let row: &[Value] = rows[k];
        push_row(&mut text, row, &widths);
        text.append("\n");
        proof {
            assert(rv.take(k + 1).drop_last() =~= rv.take(k as int));
            assert(rv[k as int] == row@);
        }
        k = k + 1;
    }
    assert(rv.take(n as int) =~= rv);
    text
}

// ── The renderer ────────────────────────────────────────────

/// Compact text renderer producing LLM-optimised output.
///
/// Compared to [`PlainTextRenderer`](super::text::PlainTextRenderer):
/// - Fields render as `name: value` (no bit widths, no descriptors)
/// - Untaken conditional branches and switch cases are suppressed entirely
/// - [`FieldTable`] values collapse to inline lists or aligned tables
/// - No spec-grammar keywords (`if`, `for`, `switch`, braces)
///
/// Each call hands the whole text it produces (a line, or the lines of a hex
/// dump or table) to the sink in one `write_bytes` call.
pub struct CompactTextRenderer<W> {
    writer: W,
    depth: usize,
    block_stack: Vec<BlockTag>,
    /// When set, output is suppressed: the number of blocks open up to and
    /// including the untaken branch or case that started the suppression.
    suppressor: Option<usize>,
    /// The syntax items described so far.
    log: Ghost<Seq<SyntaxEvent>>,
}

impl<W: ByteSink> CompactTextRenderer<W> {
    /// The indentation level is the number of open elements and loops;
    /// conditionals and switches add none.
    pub proof fn lemma_depth_counts_levels(&self)
        requires
            self.well_formed(),
        ensures
            self.depth() == level_count(self.open_blocks()),
    {
    }

    /// Output is suppressed by an open conditional or case: blocks opened
    /// after it sit at later positions, so closing them never ends the
    /// suppression.
    pub proof fn lemma_suppressor_is_open(&self)
        requires
            self.well_formed(),
        ensures
            suppressor_open(self.open_blocks(), self.suppressed_at()),
    {
    }

    /// Everything written to the sink so far.
    pub closed spec fn output(&self) -> Seq<u8> {
        self.writer.written()
    }

    /// Whether the sink, as it stands, may answer `r` to a write of `bytes`.
    pub closed spec fn sink_answers(&self, bytes: Seq<u8>, r: Result<(), TextRenderError>) -> bool {
        self.writer.answers(bytes, r)
    }

    /// The current indentation level.
    pub closed spec fn depth(&self) -> nat {
        self.depth as nat
    }

    /// While output is suppressed, the position of the untaken branch or case
    /// that suppresses it: the number of blocks open up to and including it.
    pub closed spec fn suppressed_at(&self) -> Option<nat> {
        match self.suppressor {
            Some(d) => Some(d as nat),
            None => None,
        }
    }

    pub fn new(writer: W) -> (r: Self)
        ensures
            r.described() == Seq::<SyntaxEvent>::empty(),
            r.output() == writer.written(),
            r.depth() == 0,
            r.suppressed_at() is None,
            r.well_formed(),
            r.open_blocks() == Seq::<BlockTag>::empty(),
    {
        CompactTextRenderer {
            writer,
            depth: 0,
            block_stack: Vec::new(),
            suppressor: None,
            log: Ghost(Seq::empty()),
        }
    }

    pub fn into_inner(self) -> (w: W)
        ensures
            w.written() == self.output(),
    {
        self.writer
    }

    /// Whether output is currently suppressed.
    fn suppressed(&self) -> (b: bool)
        ensures
            b == self.suppressed_at() is Some,
    {
        self.suppressor.is_some()
    }

    /// Writes `text` unless output is suppressed.
    fn put(&mut self, text: &String) -> (r: Result<(), TextRenderError>)
        ensures
            old(self).suppressed_at() is None ==> old(self).writer.answers(encode_utf8(text@), r),
            final(self).log == old(self).log,
            final(self).depth == old(self).depth,
            final(self).block_stack == old(self).block_stack,
            final(self).suppressor == old(self).suppressor,
            W::tracks_output() && r is Ok ==> final(self).output() == old(self).output() + shown(
                old(self).suppressed_at(),
                text@,
            ),
            W::never_fails() || old(self).suppressed_at() is Some ==> r is Ok,
    {
        if self.suppressor.is_some() {
            return Ok(());
        }
        emit(&mut self.writer, text)
    }

    /// Opens a block that indents its contents.
    fn open_level(&mut self, tag: BlockTag)
        requires
            old(self).well_formed(),
            adds_level(tag),
        ensures
            final(self).log == old(self).log,
            final(self).well_formed(),
            final(self).block_stack@ == old(self).block_stack@.push(tag),
            final(self).depth == old(self).depth + 1,
            final(self).suppressor == old(self).suppressor,
            final(self).output() == old(self).output(),
    {
        self.block_stack.push(tag);
        let len = self.block_stack.len();
        proof {
            assert(self.block_stack@.drop_last() =~= old(self).block_stack@);
            lemma_level_count_bounded(self.block_stack@);
        }
        assert(self.depth + 1 <= len);
        self.depth = self.depth + 1;
    }

    /// Closes a block that indents its contents.
    fn close_level(&mut self)
        requires
            old(self).well_formed(),
            old(self).block_stack@.len() > 0,
            adds_level(old(self).block_stack@.last()),
        ensures
            final(self).log == old(self).log,
            final(self).well_formed(),
            final(self).block_stack@ == old(self).block_stack@.drop_last(),
            final(self).depth == old(self).depth - 1,
            final(self).suppressor == old(self).suppressor,
            final(self).output() == old(self).output(),
    {
        self.block_stack.pop();
        self.depth = self.depth - 1;
    }

    /// Opens a transparent block.
    fn open_transparent(&mut self, tag: BlockTag)
        requires
            old(self).well_formed(),
            !adds_level(tag),
        ensures
            final(self).log == old(self).log,
            final(self).well_formed(),
            final(self).block_stack@ == old(self).block_stack@.push(tag),
            final(self).depth == old(self).depth,
            final(self).suppressor == old(self).suppressor,
            final(self).output() == old(self).output(),
    {
        self.block_stack.push(tag);
        assert(self.block_stack@.drop_last() =~= old(self).block_stack@);
    }

    /// Closes a transparent block.
    fn close_transparent(&mut self)
        requires
            old(self).well_formed(),
            old(self).block_stack@.len() > 0,
            !adds_level(old(self).block_stack@.last()),
            old(self).suppressed_at() != Some(old(self).block_stack@.len()),
        ensures
            final(self).log == old(self).log,
            final(self).well_formed(),
            final(self).block_stack@ == old(self).block_stack@.drop_last(),
            final(self).depth == old(self).depth,
            final(self).suppressor == old(self).suppressor,
            final(self).output() == old(self).output(),
    {
        self.block_stack.pop();
    }

    /// Clears the suppression if the innermost open block started it.
    fn end_suppression_here(&mut self)
        requires
            old(self).well_formed(),
        ensures
            final(self).log == old(self).log,
            final(self).well_formed(),
            final(self).suppressed_at() == suppress_on_close(
                old(self).suppressed_at(),
                old(self).block_stack@.len(),
            ),
            final(self).depth == old(self).depth,
            final(self).block_stack == old(self).block_stack,
            final(self).output() == old(self).output(),
    {
        match self.suppressor {
            Some(p) => {
                if p == self.block_stack.len() {
                    self.suppressor = None;
                }
            },
            None => {},
        }
    }

    /// Moves to another branch of the innermost conditional.
    fn switch_branch(&mut self, taken: bool)
        requires
            old(self).well_formed(),
            top_is(old(self).block_stack@, BlockTag::If),
        ensures
            final(self).log == old(self).log,
            final(self).well_formed(),
            final(self).suppressed_at() == suppress_on_branch(
                old(self).suppressed_at(),
                old(self).block_stack@.len(),
                taken,
            ),
            final(self).depth == old(self).depth,
            final(self).block_stack == old(self).block_stack,
            final(self).output() == old(self).output(),
    {
        if taken {
            self.end_suppression_here();
        } else if self.suppressor.is_none() {
            self.suppressor = Some(self.block_stack.len());
        }
    }

    /// Opens a conditional branch or case.
    fn open_branch(&mut self, taken: bool, tag: BlockTag)
        requires
            old(self).well_formed(),
            tag == BlockTag::If || tag == BlockTag::Case,
        ensures
            final(self).log == old(self).log,
            final(self).well_formed(),
            final(self).suppressed_at() == suppress_on_open(
                old(self).suppressed_at(),
                old(self).block_stack@.len() + 1,
                taken,
            ),
            final(self).block_stack@ == old(self).block_stack@.push(tag),
            final(self).depth == old(self).depth,
            final(self).output() == old(self).output(),
    {
        self.open_transparent(tag);
        if !taken && self.suppressor.is_none() {
            self.suppressor = Some(self.block_stack.len());
        }
    }
}

impl<W: ByteSink> SyntaxWrite for CompactTextRenderer<W> {
    type Error = TextRenderError;

    closed spec fn well_formed(&self) -> bool {
        &&& self.depth == level_count(self.block_stack@)
        &&& suppressor_open(self.block_stack@, self.suppressed_at())
    }

    closed spec fn described(&self) -> Seq<SyntaxEvent> {
        self.log@
    }

    closed spec fn open_blocks(&self) -> Seq<BlockTag> {
        self.block_stack@
    }

    fn begin_element(&mut self, name: &str, params: Option<&str>) -> (r: Result<(), TextRenderError>)
        ensures
            W::tracks_output() && r is Ok ==> final(self).output() == old(self).output() + shown(
                old(self).suppressed_at(),
                element_line(old(self).depth(), name@, opt_chars(params)),
            ),
            old(self).suppressed_at() is None ==> old(self).sink_answers(
                encode_utf8(element_line(old(self).depth(), name@, opt_chars(params))),
                r,
            ),
            r is Ok ==> final(self).depth() == old(self).depth() + 1,
            final(self).suppressed_at() == old(self).suppressed_at(),
            W::never_fails() || old(self).suppressed_at() is Some ==> r is Ok,
    {
        self.log = Ghost(self.log@.push(SyntaxEvent::BeginElement { name: name@, params: opt_text(params) }));
        let mut line = String::new();
        push_indent(&mut line, self.depth);
        line.append(name);
        match params {
            Some(p) => {
                line.append("(");
                line.append(p);
                line.append("):\n");
            },
            None => {
                line.append(":\n");
            },
        }
        self.put(&line)?;
        self.open_level(BlockTag::Element);
        Ok(())
    }

    fn end_element(&mut self) -> (r: Result<(), TextRenderError>)
        ensures
            r is Ok,
            final(self).output() == old(self).output(),
            final(self).depth() == old(self).depth() - 1,
            final(self).suppressed_at() == old(self).suppressed_at(),
    {
        self.log = Ghost(self.log@.push(SyntaxEvent::EndElement));
        self.close_level();
        Ok(())
    }

    fn fixed_width_field(&mut self, field: &FixedWidthField<'_>) -> (r: Result<(), TextRenderError>)
        ensures
            W::tracks_output() && r is Ok ==> final(self).output() == old(self).output() + shown(
                old(self).suppressed_at(),
                field_line(old(self).depth(), field.name@, field.value, opt_chars(field.comment)),
            ),
            old(self).suppressed_at() is None ==> old(self).sink_answers(
                encode_utf8(
                    field_line(
                        old(self).depth(),
                        field.name@,
                        field.value,
                        opt_chars(field.comment),
                    ),
                ),
                r,
            ),
            final(self).depth() == old(self).depth(),
            final(self).suppressed_at() == old(self).suppressed_at(),
            W::never_fails() || old(self).suppressed_at() is Some ==> r is Ok,
    {
        self.log = Ghost(self.log@.push(fixed_event(*field)));
        if self.suppressed() {
            return Ok(());
        }
        let line = field_text(self.depth, field.name, field.value.as_ref(), field.comment);
        self.put(&line)
    }

    fn variable_length_field(&mut self, field: &VariableLengthField<'_>) -> (r: Result<(), TextRenderError>)
        ensures
            W::tracks_output() && r is Ok ==> final(self).output() == old(self).output() + shown(
                old(self).suppressed_at(),
                field_line(old(self).depth(), field.name@, field.value, opt_chars(field.comment)),
            ),
            old(self).suppressed_at() is None ==> old(self).sink_answers(
                encode_utf8(
                    field_line(
                        old(self).depth(),
                        field.name@,
                        field.value,
                        opt_chars(field.comment),
                    ),
                ),
                r,
            ),
            final(self).depth() == old(self).depth(),
            final(self).suppressed_at() == old(self).suppressed_at(),
            W::never_fails() || old(self).suppressed_at() is Some ==> r is Ok,
    {
        self.log = Ghost(self.log@.push(variable_event(*field)));
        if self.suppressed() {
            return Ok(());
        }
        let line = field_text(self.depth, field.name, field.value.as_ref(), field.comment);
        self.put(&line)
    }

    fn bit_pattern(&mut self, field: &BitPatternField<'_>) -> (r: Result<(), TextRenderError>)
        ensures
            W::tracks_output() && r is Ok ==> final(self).output() == old(self).output() + shown(
                old(self).suppressed_at(),
                field_line(old(self).depth(), field.name@, Some(field.value), None),
            ),
            old(self).suppressed_at() is None ==> old(self).sink_answers(
                encode_utf8(field_line(old(self).depth(), field.name@, Some(field.value), None)),
                r,
            ),
            final(self).depth() == old(self).depth(),
            final(self).suppressed_at() == old(self).suppressed_at(),
            W::never_fails() || old(self).suppressed_at() is Some ==> r is Ok,
    {
        self.log = Ghost(self.log@.push(bit_pattern_event(*field)));
        if self.suppressed() {
            return Ok(());
        }
        let line = field_text(self.depth, field.name, Some(&field.value), None);
        self.put(&line)
    }

    fn raw_bytes(&mut self, data: &[u8]) -> (r: Result<(), TextRenderError>)
        ensures
            W::tracks_output() && r is Ok ==> final(self).output() == old(self).output() + shown(
                old(self).suppressed_at(),
                raw_bytes_text(old(self).depth(), data@),
            ),
            old(self).suppressed_at() is None ==> old(self).sink_answers(
                encode_utf8(raw_bytes_text(old(self).depth(), data@)),
                r,
            ),
            final(self).depth() == old(self).depth(),
            final(self).suppressed_at() == old(self).suppressed_at(),
            W::never_fails() || old(self).suppressed_at() is Some ==> r is Ok,
    {
        self.log = Ghost(self.log@.push(SyntaxEvent::RawBytes { data: data@ }));
        if self.suppressed() {
            return Ok(());
        }
        let text = raw_bytes_string(self.depth, data);
        self.put(&text)
    }

    fn begin_if(&mut self, condition: &str, terms: &[TermAnnotation<'_>], taken: bool) -> (r: Result<(), TextRenderError>)
        ensures
            r is Ok,
            final(self).output() == old(self).output(),
            final(self).depth() == old(self).depth(),
            final(self).suppressed_at() == suppress_on_open(
                old(self).suppressed_at(),
                old(self).open_blocks().len() + 1,
                taken,
            ),
    {
        self.log = Ghost(self.log@.push(SyntaxEvent::BeginIf { condition: condition@, terms: term_pairs(terms@), taken }));
        self.open_branch(taken, BlockTag::If);
        Ok(())
    }

    fn begin_else_if(&mut self, condition: &str, terms: &[TermAnnotation<'_>], taken: bool) -> (r: Result<(), TextRenderError>)
        ensures
            r is Ok,
            final(self).output() == old(self).output(),
            final(self).depth() == old(self).depth(),
            final(self).suppressed_at() == suppress_on_branch(
                old(self).suppressed_at(),
                old(self).open_blocks().len(),
                taken,
            ),
    {
        self.log = Ghost(self.log@.push(SyntaxEvent::BeginElseIf { condition: condition@, terms: term_pairs(terms@), taken }));
        self.switch_branch(taken);
        Ok(())
    }

    fn begin_else(&mut self, taken: bool) -> (r: Result<(), TextRenderError>)
        ensures
            r is Ok,
            final(self).output() == old(self).output(),
            final(self).depth() == old(self).depth(),
            final(self).suppressed_at() == suppress_on_branch(
                old(self).suppressed_at(),
                old(self).open_blocks().len(),
                taken,
            ),
    {
        self.log = Ghost(self.log@.push(SyntaxEvent::BeginElse { taken }));
        self.switch_branch(taken);
        Ok(())
    }

    fn end_if(&mut self) -> (r: Result<(), TextRenderError>)
        ensures
            r is Ok,
            final(self).output() == old(self).output(),
            final(self).depth() == old(self).depth(),
            final(self).suppressed_at() == suppress_on_close(
                old(self).suppressed_at(),
                old(self).open_blocks().len(),
            ),
    {
        self.log = Ghost(self.log@.push(SyntaxEvent::EndIf));
        self.end_suppression_here();
        self.close_transparent();
        Ok(())
    }

    fn begin_for(&mut self, header: &str, terms: &[TermAnnotation<'_>]) -> (r: Result<(), TextRenderError>)
        ensures
            r is Ok,
            final(self).output() == old(self).output(),
            final(self).depth() == old(self).depth() + 1,
            final(self).suppressed_at() == old(self).suppressed_at(),
    {
        self.log = Ghost(self.log@.push(SyntaxEvent::BeginFor { header: header@, terms: term_pairs(terms@) }));
        self.open_level(BlockTag::For);
        Ok(())
    }

    fn for_iteration(&mut self, variable: &str, index: u64) -> (r: Result<(), TextRenderError>)
        ensures
            W::tracks_output() && r is Ok ==> final(self).output() == old(self).output() + shown(
                old(self).suppressed_at(),
                iteration_line(old(self).depth(), index),
            ),
            old(self).suppressed_at() is None ==> old(self).sink_answers(
                encode_utf8(iteration_line(old(self).depth(), index)),
                r,
            ),
            final(self).depth() == old(self).depth(),
            final(self).suppressed_at() == old(self).suppressed_at(),
            W::never_fails() || old(self).suppressed_at() is Some ==> r is Ok,
    {
        self.log = Ghost(self.log@.push(SyntaxEvent::ForIteration { variable: variable@, index }));
        if self.suppressed() {
            return Ok(());
        }
        let mut line = String::new();
        push_indent(&mut line, self.depth);
        line.append("[");
        push_decimal(&mut line, index);
        line.append("]:\n");
        self.put(&line)
    }

    fn end_for(&mut self) -> (r: Result<(), TextRenderError>)
        ensures
            r is Ok,
            final(self).output() == old(self).output(),
            final(self).depth() == old(self).depth() - 1,
            final(self).suppressed_at() == old(self).suppressed_at(),
    {
        self.log = Ghost(self.log@.push(SyntaxEvent::EndFor));
        self.close_level();
        Ok(())
    }

    fn begin_while(&mut self, condition: &str) -> (r: Result<(), TextRenderError>)
        ensures
            r is Ok,
            final(self).output() == old(self).output(),
            final(self).depth() == old(self).depth() + 1,
            final(self).suppressed_at() == old(self).suppressed_at(),
    {
        self.log = Ghost(self.log@.push(SyntaxEvent::BeginWhile { condition: condition@ }));
        self.open_level(BlockTag::While);
        Ok(())
    }

    fn while_iteration(&mut self, index: u64) -> (r: Result<(), TextRenderError>)
        ensures
            W::tracks_output() && r is Ok ==> final(self).output() == old(self).output() + shown(
                old(self).suppressed_at(),
                iteration_line(old(self).depth(), index),
            ),
            old(self).suppressed_at() is None ==> old(self).sink_answers(
                encode_utf8(iteration_line(old(self).depth(), index)),
                r,
            ),
            final(self).depth() == old(self).depth(),
            final(self).suppressed_at() == old(self).suppressed_at(),
            W::never_fails() || old(self).suppressed_at() is Some ==> r is Ok,
    {
        self.log = Ghost(self.log@.push(SyntaxEvent::WhileIteration { index }));
        if self.suppressed() {
            return Ok(());
        }
        let mut line = String::new();
        push_indent(&mut line, self.depth);
        line.append("[");
        push_decimal(&mut line, index);
        line.append("]:\n");
        self.put(&line)
    }

    fn end_while(&mut self) -> (r: Result<(), TextRenderError>)
        ensures
            r is Ok,
            final(self).output() == old(self).output(),
            final(self).depth() == old(self).depth() - 1,
            final(self).suppressed_at() == old(self).suppressed_at(),
    {
        self.log = Ghost(self.log@.push(SyntaxEvent::EndWhile));
        self.close_level();
        Ok(())
    }

    fn begin_do_while(&mut self) -> (r: Result<(), TextRenderError>)
        ensures
            r is Ok,
            final(self).output() == old(self).output(),
            final(self).depth() == old(self).depth() + 1,
            final(self).suppressed_at() == old(self).suppressed_at(),
    {
        self.log = Ghost(self.log@.push(SyntaxEvent::BeginDoWhile));
        self.open_level(BlockTag::DoWhile);
        Ok(())
    }

    fn do_while_iteration(&mut self, index: u64) -> (r: Result<(), TextRenderError>)
        ensures
            W::tracks_output() && r is Ok ==> final(self).output() == old(self).output() + shown(
                old(self).suppressed_at(),
                iteration_line(old(self).depth(), index),
            ),
            old(self).suppressed_at() is None ==> old(self).sink_answers(
                encode_utf8(iteration_line(old(self).depth(), index)),
                r,
            ),
            final(self).depth() == old(self).depth(),
            final(self).suppressed_at() == old(self).suppressed_at(),
            W::never_fails() || old(self).suppressed_at() is Some ==> r is Ok,
    {
        self.log = Ghost(self.log@.push(SyntaxEvent::DoWhileIteration { index }));
        if self.suppressed() {
            return Ok(());
        }
        let mut line = String::new();
        push_indent(&mut line, self.depth);
        line.append("[");
        push_decimal(&mut line, index);
        line.append("]:\n");
        self.put(&line)
    }

    fn end_do_while(&mut self, condition: &str) -> (r: Result<(), TextRenderError>)
        ensures
            r is Ok,
            final(self).output() == old(self).output(),
            final(self).depth() == old(self).depth() - 1,
            final(self).suppressed_at() == old(self).suppressed_at(),
    {
        self.log = Ghost(self.log@.push(SyntaxEvent::EndDoWhile { condition: condition@ }));
        self.close_level();
        Ok(())
    }

    fn begin_switch(&mut self, expression: &str, terms: &[TermAnnotation<'_>]) -> (r: Result<(), TextRenderError>)
        ensures
            r is Ok,
            final(self).output() == old(self).output(),
            final(self).depth() == old(self).depth(),
            final(self).suppressed_at() == old(self).suppressed_at(),
    {
        self.log = Ghost(self.log@.push(SyntaxEvent::BeginSwitch { expression: expression@, terms: term_pairs(terms@) }));
        self.open_transparent(BlockTag::Switch);
        Ok(())
    }

    fn begin_case(&mut self, label: &str, taken: bool) -> (r: Result<(), TextRenderError>)
        ensures
            r is Ok,
            final(self).output() == old(self).output(),
            final(self).depth() == old(self).depth(),
            final(self).suppressed_at() == suppress_on_open(
                old(self).suppressed_at(),
                old(self).open_blocks().len() + 1,
                taken,
            ),
    {
        self.log = Ghost(self.log@.push(SyntaxEvent::BeginCase { label: label@, taken }));
        self.open_branch(taken, BlockTag::Case);
        Ok(())
    }

    fn end_case(&mut self) -> (r: Result<(), TextRenderError>)
        ensures
            r is Ok,
            final(self).output() == old(self).output(),
            final(self).depth() == old(self).depth(),
            final(self).suppressed_at() == suppress_on_close(
                old(self).suppressed_at(),
                old(self).open_blocks().len(),
            ),
    {
        self.log = Ghost(self.log@.push(SyntaxEvent::EndCase));
        self.end_suppression_here();
        self.close_transparent();
        Ok(())
    }

    fn end_switch(&mut self) -> (r: Result<(), TextRenderError>)
        ensures
            r is Ok,
            final(self).output() == old(self).output(),
            final(self).depth() == old(self).depth(),
            final(self).suppressed_at() == old(self).suppressed_at(),
    {
        self.log = Ghost(self.log@.push(SyntaxEvent::EndSwitch));
        self.close_transparent();
        Ok(())
    }

    fn field_table(&mut self, table: &FieldTable<'_>) -> (r: Result<(), TextRenderError>)
        ensures
            W::tracks_output() && r is Ok ==> final(self).output() == old(self).output() + shown(
                old(self).suppressed_at(),
                field_table_text(old(self).depth(), table.columns@, row_values(table.rows@)),
            ),
            old(self).suppressed_at() is None && table.rows@.len() > 0 ==> old(self).sink_answers(
                encode_utf8(field_table_text(old(self).depth(), table.columns@, row_values(table.rows@))),
                r,
            ),
            table.rows@.len() == 0 ==> r is Ok && final(self).output() == old(self).output(),
            final(self).depth() == old(self).depth(),
            final(self).suppressed_at() == old(self).suppressed_at(),
            final(self).open_blocks() == old(self).open_blocks(),
            W::never_fails() || old(self).suppressed_at() is Some ==> r is Ok,
    {
        self.log = Ghost(self.log@ + table_events(table.columns@, row_values(table.rows@)));
        if self.suppressed() {
            return Ok(());
        }
        if table.rows.len() == 0 {
            return Ok(());
        }
        let text = if table.columns.len() == 1 {
            single_column_string(self.depth, table.columns[0].name, table.rows)
        } else {
            multi_column_string(self.depth, table.columns, table.rows)
        };
        self.put(&text)
    }

    fn assignment(&mut self, expression: &str, computed_value: Option<&Value>) -> (r: Result<(), TextRenderError>)
        ensures
            W::tracks_output() && r is Ok ==> final(self).output() == old(self).output() + shown(
                old(self).suppressed_at(),
                assignment_line(old(self).depth(), expression@, opt_value(computed_value)),
            ),
            old(self).suppressed_at() is None ==> old(self).sink_answers(
                encode_utf8(
                    assignment_line(
                        old(self).depth(),
                        expression@,
                        opt_value(computed_value),
                    ),
                ),
                r,
            ),
            final(self).depth() == old(self).depth(),
            final(self).suppressed_at() == old(self).suppressed_at(),
            W::never_fails() || old(self).suppressed_at() is Some ==> r is Ok,
    {
        self.log = Ghost(self.log@.push(SyntaxEvent::Assignment { expression: expression@, computed_value: opt_val(computed_value) }));
        if self.suppressed() {
            return Ok(());
        }
        let mut line = String::new();
        push_indent(&mut line, self.depth);
        line.append(expression);
        match computed_value {
            Some(val) => {
                line.append(" = ");
                val.push_text(&mut line);
                line.append("\n");
            },
            None => {
                line.append("\n");
            },
        }
        self.put(&line)
    }

    fn comment(&mut self, text: &str) -> (r: Result<(), TextRenderError>)
        ensures
            W::tracks_output() && r is Ok ==> final(self).output() == old(self).output() + shown(
                old(self).suppressed_at(),
                comment_line(old(self).depth(), text@),
            ),
            old(self).suppressed_at() is None ==> old(self).sink_answers(
                encode_utf8(comment_line(old(self).depth(), text@)),
                r,
            ),
            final(self).depth() == old(self).depth(),
            final(self).suppressed_at() == old(self).suppressed_at(),
            W::never_fails() || old(self).suppressed_at() is Some ==> r is Ok,
    {
        self.log = Ghost(self.log@.push(SyntaxEvent::Comment { text: text@ }));
        if self.suppressed() {
            return Ok(());
        }
        let mut line = String::new();
        push_indent(&mut line, self.depth);
        line.append("// ");
        line.append(text);
        line.append("\n");
        self.put(&line)
    }

    fn ellipsis(&mut self) -> (r: Result<(), TextRenderError>)
        ensures
            W::tracks_output() && r is Ok ==> final(self).output() == old(self).output() + shown(
                old(self).suppressed_at(),
                ellipsis_line(old(self).depth()),
            ),
            old(self).suppressed_at() is None ==> old(self).sink_answers(
                encode_utf8(ellipsis_line(old(self).depth())),
                r,
            ),
            final(self).depth() == old(self).depth(),
            final(self).suppressed_at() == old(self).suppressed_at(),
            W::never_fails() || old(self).suppressed_at() is Some ==> r is Ok,
    {
        self.log = Ghost(self.log@.push(SyntaxEvent::Ellipsis));
        if self.suppressed() {
            return Ok(());
        }
        let mut line = String::new();
        push_indent(&mut line, self.depth);
        line.append("...\n");
        self.put(&line)
    }
}

} // verus!
