//! The plain text renderer: MPEG syntax tables as the specifications print them.
use vstd::prelude::*;
use vstd::utf8::encode_utf8;

use crate::numfmt::{dec_text, push_decimal};
use crate::render::{
    ends_with, lemma_concat_ends, lemma_starts_extend, starts_with, emit, format_hex_dump, hex_dump_lines, indent_text, indented_lines, opt_chars, opt_value,
    pad_after, pad_after_indent, pad_to, push_indent, push_spaces, row_values, spaces,
    term_annotations_text, format_term_annotations, utf8_len, DESCRIPTOR_COL, INDENT_WIDTH,
    VALUE_COL, WIDTH_COL,
};
use crate::sink::ByteSink;
use crate::types::{
    value_text, BitPatternField, ColumnDef, FieldTable, FixedWidthField, TermAnnotation, Value,
    VariableLengthField,
};
use crate::write::{
    bit_pattern_event, block_step, blocks_after, calls_fit, cell_event, lemma_blocks_after_concat,
    lemma_calls_fit_anywhere, well_nested, fixed_event, row_events, rows_events, opt_text, opt_val, table_events,
    term_pairs, top_is, variable_event, BlockTag, SyntaxEvent, SyntaxWrite,
};

verus! {

#[verifier::external_type_specification]
#[verifier::external_body]
pub struct ExIoError(std::io::Error);

/// Error type for the text renderers: the I/O error of a failed write.
#[derive(Debug)]
pub struct TextRenderError(std::io::Error);

impl From<std::io::Error> for TextRenderError {
    fn from(e: std::io::Error) -> (r: TextRenderError)
        ensures
            r.io_error() == e,
    {
        TextRenderError(e)
    }
}

impl TextRenderError {
    /// The I/O error this error carries.
    pub closed spec fn io_error(&self) -> std::io::Error {
        self.0
    }

    /// The I/O error of the failed write.
    pub fn into_io_error(self) -> (e: std::io::Error)
        ensures
            e == self.io_error(),
    {
        self.0
    }
}

impl vstd::std_specs::convert::FromSpecImpl<std::io::Error> for TextRenderError {
    open spec fn obeys_from_spec() -> bool {
        true
    }

    closed spec fn from_spec(e: std::io::Error) -> TextRenderError {
        TextRenderError(e)
    }
}

// ── The text of each line ───────────────────────────────────

/// A field name with its optional inline comment: `name  /* comment */`.
pub open spec fn name_part_text(name: Seq<char>, comment: Option<Seq<char>>) -> Seq<char> {
    match comment {
        Some(c) => name + "  /* "@ + c + " */"@,
        None => name,
    }
}

/// The `= value` column of a field line whose descriptor is `desc_len` bytes
/// long, or nothing when there is no value.
pub open spec fn value_column_text(desc_len: nat, value: Option<Value>) -> Seq<char> {
    match value {
        Some(v) => spaces(pad_to(VALUE_COL as int, DESCRIPTOR_COL + desc_len)) + "= "@ + value_text(
            v,
        ),
        None => Seq::empty(),
    }
}

/// A fixed-width field line: name, bit width, descriptor and value in their columns.
pub open spec fn fixed_field_line(
    depth: nat,
    name: Seq<char>,
    comment: Option<Seq<char>>,
    bits: u32,
    descriptor: Seq<char>,
    value: Option<Value>,
) -> Seq<char> {
    let name_part = name_part_text(name, comment);
    let width_str = dec_text(bits as nat);
    indent_text(depth) + name_part + spaces(
        pad_to(WIDTH_COL as int, depth * INDENT_WIDTH + utf8_len(name_part)),
    ) + width_str + spaces(pad_to(DESCRIPTOR_COL as int, WIDTH_COL + utf8_len(width_str)))
        + descriptor + value_column_text(utf8_len(descriptor), value) + "\n"@
}

/// A variable-length field line: the descriptor goes in the descriptor column.
pub open spec fn variable_field_line(
    depth: nat,
    name: Seq<char>,
    comment: Option<Seq<char>>,
    descriptor: Seq<char>,
    value: Option<Value>,
) -> Seq<char> {
    let name_part = name_part_text(name, comment);
    indent_text(depth) + name_part + spaces(
        pad_to(DESCRIPTOR_COL as int, depth * INDENT_WIDTH + utf8_len(name_part)),
    ) + descriptor + value_column_text(utf8_len(descriptor), value) + "\n"@
}

/// `name() {` or `name(params) {`.
pub open spec fn element_open_line(depth: nat, name: Seq<char>, params: Option<Seq<char>>) -> Seq<
    char,
> {
    match params {
        Some(p) => indent_text(depth) + name + "("@ + p + ") {\n"@,
        None => indent_text(depth) + name + "() {\n"@,
    }
}

/// A closing brace.
pub open spec fn close_line(depth: nat) -> Seq<char> {
    indent_text(depth) + "}\n"@
}

/// `if (condition) {` with term annotations.
pub open spec fn if_line(depth: nat, condition: Seq<char>, terms: Seq<TermAnnotation>) -> Seq<char> {
    indent_text(depth) + "if ("@ + condition + ") {"@ + term_annotations_text(terms) + "\n"@
}

/// `} else if (condition) {` with term annotations.
pub open spec fn else_if_line(depth: nat, condition: Seq<char>, terms: Seq<TermAnnotation>) -> Seq<
    char,
> {
    indent_text(depth) + "} else if ("@ + condition + ") {"@ + term_annotations_text(terms) + "\n"@
}

/// `} else {`.
pub open spec fn else_line(depth: nat) -> Seq<char> {
    indent_text(depth) + "} else {\n"@
}

/// `for (header) {` with term annotations.
pub open spec fn for_line(depth: nat, header: Seq<char>, terms: Seq<TermAnnotation>) -> Seq<char> {
    indent_text(depth) + "for ("@ + header + ") {"@ + term_annotations_text(terms) + "\n"@
}

/// `/* variable: index */`.
pub open spec fn for_iteration_line(depth: nat, variable: Seq<char>, index: u64) -> Seq<char> {
    indent_text(depth) + "/* "@ + variable + ": "@ + dec_text(index as nat) + " */\n"@
}

/// `while (condition) {`.
pub open spec fn while_line(depth: nat, condition: Seq<char>) -> Seq<char> {
    indent_text(depth) + "while ("@ + condition + ") {\n"@
}

/// `/* iteration: index */`.
pub open spec fn iteration_line(depth: nat, index: u64) -> Seq<char> {
    indent_text(depth) + "/* iteration: "@ + dec_text(index as nat) + " */\n"@
}

/// `do {`.
pub open spec fn do_line(depth: nat) -> Seq<char> {
    indent_text(depth) + "do {\n"@
}

/// `} while (condition)`.
pub open spec fn do_while_end_line(depth: nat, condition: Seq<char>) -> Seq<char> {
    indent_text(depth) + "} while ("@ + condition + ")\n"@
}

/// `switch (expression) {` with term annotations.
pub open spec fn switch_line(depth: nat, expression: Seq<char>, terms: Seq<TermAnnotation>) -> Seq<
    char,
> {
    indent_text(depth) + "switch ("@ + expression + ") {"@ + term_annotations_text(terms) + "\n"@
}

/// `case label:`.
pub open spec fn case_line(depth: nat, label: Seq<char>) -> Seq<char> {
    indent_text(depth) + "case "@ + label + ":\n"@
}

/// `break`.
pub open spec fn break_line(depth: nat) -> Seq<char> {
    indent_text(depth) + "break\n"@
}

/// Padding before the `/* = value */` of an assignment: up to the value
/// column, or none when the expression already reaches it.
pub open spec fn assignment_pad(depth: int, expr_len: int) -> nat {
    if depth * INDENT_WIDTH + expr_len < VALUE_COL {
        (VALUE_COL - (depth * INDENT_WIDTH + expr_len)) as nat
    } else {
        0
    }
}

/// `assignment_pad(depth, len)`, computed without overflow.
pub fn assignment_padding(depth: usize, len: usize) -> (r: usize)
    ensures
        r == assignment_pad(depth as int, len as int),
{
    if depth < VALUE_COL {
        let iw = depth * INDENT_WIDTH;
        if iw < VALUE_COL && len < VALUE_COL - iw {
            VALUE_COL - iw - len
        } else {
            0
        }
    } else {
        0
    }
}

/// An assignment, with its computed value as a trailing `/* = value */`.
pub open spec fn assignment_line(depth: nat, expression: Seq<char>, value: Option<Value>) -> Seq<
    char,
> {
    match value {
        Some(v) => indent_text(depth) + expression + spaces(
            assignment_pad(depth as int, utf8_len(expression) as int),
        ) + "/* = "@ + value_text(v) + " */\n"@,
        None => indent_text(depth) + expression + "\n"@,
    }
}

/// `/* text */`.
pub open spec fn comment_line(depth: nat, text: Seq<char>) -> Seq<char> {
    indent_text(depth) + "/* "@ + text + " */\n"@
}

/// `...`.
pub open spec fn ellipsis_line(depth: nat) -> Seq<char> {
    indent_text(depth) + "...\n"@
}

// ── Field tables ────────────────────────────────────────────

/// The loop header a field table of `n` rows expands to: `i = 0; i < n; i++`.
pub open spec fn table_header_text(n: nat) -> Seq<char> {
    "i = 0; i < "@ + dec_text(n) + "; i++"@
}

/// The name of a column's field in row `k`: `column[k]`.
pub open spec fn cell_name(column: Seq<char>, k: nat) -> Seq<char> {
    column + "["@ + dec_text(k) + "]"@
}

/// The line of one table cell: a fixed-width field when the column has a
/// bit count, a variable-length field otherwise.
pub open spec fn cell_line(depth: nat, column: ColumnDef, value: Value, k: nat) -> Seq<char> {
    match column.bits {
        Some(b) => fixed_field_line(
            depth,
            cell_name(column.name@, k),
            None,
            b,
            column.descriptor@,
            Some(value),
        ),
        None => variable_field_line(
            depth,
            cell_name(column.name@, k),
            None,
            column.descriptor@,
            Some(value),
        ),
    }
}

/// The lines of the first `j` cells of row `k` (columns without a value in
/// the row are skipped).
pub open spec fn row_cell_lines(
    depth: nat,
    columns: Seq<ColumnDef>,
    row: Seq<Value>,
    k: nat,
    j: nat,
) -> Seq<char>
    decreases j,
{
    if j == 0 {
        Seq::empty()
    } else {
        row_cell_lines(depth, columns, row, k, (j - 1) as nat) + if j - 1 < row.len() {
            cell_line(depth, columns[j - 1], row[j - 1], k)
        } else {
            Seq::empty()
        }
    }
}

/// The first `n` rows of a table expanded into loop iterations.
pub open spec fn table_rows_text(depth: nat, columns: Seq<ColumnDef>, rows: Seq<Seq<Value>>, n: nat) -> Seq<
    char,
>
    decreases n,
{
    if n == 0 {
        Seq::empty()
    } else {
        table_rows_text(depth, columns, rows, (n - 1) as nat) + for_iteration_line(
            depth,
            "i"@,
            (n - 1) as u64,
        ) + row_cell_lines(depth, columns, rows[n - 1], (n - 1) as nat, columns.len())
    }
}

/// A field table expanded into a `for` loop with one iteration per row.
pub open spec fn field_table_text(depth: nat, columns: Seq<ColumnDef>, rows: Seq<Seq<Value>>) -> Seq<
    char,
> {
    for_line(depth, table_header_text(rows.len()), Seq::empty()) + table_rows_text(
        depth + 1,
        columns,
        rows,
        rows.len(),
    ) + close_line(depth)
}

/// Builds the line of one table cell.
fn cell_text(depth: usize, column: &ColumnDef<'_>, value: &Value, k: usize) -> (line: String)
    ensures
        line@ == cell_line(depth as nat, *column, *value, k as nat),
{
    let mut name = String::new();
    name.append(column.name);
    name.append("[");
    push_decimal(&mut name, k as u64);
    name.append("]");
    match column.bits {
        Some(bits) => fixed_field_text(depth, name.as_str(), None, bits, column.descriptor, Some(value)),
        None => variable_field_text(depth, name.as_str(), None, column.descriptor, Some(value)),
    }
}

// ── Column layout ───────────────────────────────────────────

/// In a fixed-width field line whose name (and comment) ends before the width
/// column, the bit width starts at byte `WIDTH_COL`; when the width is short
/// enough the descriptor starts at byte `DESCRIPTOR_COL`, and when the
/// descriptor is short enough the `= value` starts at byte `VALUE_COL`.
pub proof fn lemma_fixed_field_columns(
    depth: nat,
    name: Seq<char>,
    comment: Option<Seq<char>>,
    bits: u32,
    descriptor: Seq<char>,
    value: Option<Value>,
)
    requires
        depth * INDENT_WIDTH + utf8_len(name_part_text(name, comment)) < WIDTH_COL,
    ensures
        ({
            let line = encode_utf8(fixed_field_line(depth, name, comment, bits, descriptor, value));
            let w = encode_utf8(dec_text(bits as nat));
            &&& line.subrange(WIDTH_COL as int, WIDTH_COL + w.len()) == w
            &&& WIDTH_COL + w.len() < DESCRIPTOR_COL ==> line.subrange(
                DESCRIPTOR_COL as int,
                DESCRIPTOR_COL + utf8_len(descriptor),
            ) == encode_utf8(descriptor)
            &&& WIDTH_COL + w.len() < DESCRIPTOR_COL && DESCRIPTOR_COL + utf8_len(descriptor)
                < VALUE_COL && value is Some ==> line.subrange(VALUE_COL as int, VALUE_COL + 2)
                == encode_utf8("= "@)
        }),
{
    broadcast use crate::render::lemma_encode_utf8_concat;

    let name_part = name_part_text(name, comment);
    let width_str = dec_text(bits as nat);
    let pad1 = pad_to(WIDTH_COL as int, depth * INDENT_WIDTH + utf8_len(name_part));
    let pad2 = pad_to(DESCRIPTOR_COL as int, WIDTH_COL + utf8_len(width_str));
    crate::render::lemma_spaces_utf8_len(depth * 4);
    crate::render::lemma_spaces_utf8_len(pad1);
    crate::render::lemma_spaces_utf8_len(pad2);
    let p1 = indent_text(depth) + name_part + spaces(pad1);
    let p2 = p1 + width_str + spaces(pad2);
    let p3 = p2 + descriptor;
    let vc = value_column_text(utf8_len(descriptor), value);
    let line = fixed_field_line(depth, name, comment, bits, descriptor, value);
    assert(line == p3 + vc + "\n"@);
    assert(utf8_len(p1) == WIDTH_COL);
    let bytes = encode_utf8(line);
    assert(bytes == encode_utf8(p1) + encode_utf8(width_str) + encode_utf8(spaces(pad2))
        + encode_utf8(descriptor) + encode_utf8(vc) + encode_utf8("\n"@));
    assert(bytes.subrange(WIDTH_COL as int, WIDTH_COL + utf8_len(width_str)) =~= encode_utf8(
        width_str,
    ));
    if WIDTH_COL + utf8_len(width_str) < DESCRIPTOR_COL {
        assert(utf8_len(p2) == DESCRIPTOR_COL);
        assert(bytes.subrange(DESCRIPTOR_COL as int, DESCRIPTOR_COL + utf8_len(descriptor))
            =~= encode_utf8(descriptor));
        if DESCRIPTOR_COL + utf8_len(descriptor) < VALUE_COL {
            match value {
                Some(v) => {
                    let pad3 = pad_to(VALUE_COL as int, DESCRIPTOR_COL + utf8_len(descriptor));
                    crate::render::lemma_spaces_utf8_len(pad3);
                    assert(vc == spaces(pad3) + "= "@ + value_text(v));
                    assert(utf8_len(p3 + spaces(pad3)) == VALUE_COL);
                    reveal_strlit("= ");
                    crate::render::lemma_ascii_utf8_len("= "@);
                    assert(bytes =~= encode_utf8(p3 + spaces(pad3)) + encode_utf8("= "@)
                        + encode_utf8(value_text(v)) + encode_utf8("\n"@));
                    assert(bytes.subrange(VALUE_COL as int, VALUE_COL + 2) =~= encode_utf8(
                        "= "@,
                    ));
                },
                None => {},
            }
        }
    }
}

/// In a variable-length field line whose name ends before the descriptor
/// column, the descriptor starts at byte `DESCRIPTOR_COL`, and when it is
/// short enough the `= value` starts at byte `VALUE_COL`.
pub proof fn lemma_variable_field_columns(
    depth: nat,
    name: Seq<char>,
    comment: Option<Seq<char>>,
    descriptor: Seq<char>,
    value: Option<Value>,
)
    requires
        depth * INDENT_WIDTH + utf8_len(name_part_text(name, comment)) < DESCRIPTOR_COL,
    ensures
        ({
            let line = encode_utf8(variable_field_line(depth, name, comment, descriptor, value));
            &&& line.subrange(DESCRIPTOR_COL as int, DESCRIPTOR_COL + utf8_len(descriptor))
                == encode_utf8(descriptor)
            &&& DESCRIPTOR_COL + utf8_len(descriptor) < VALUE_COL && value is Some
                ==> line.subrange(VALUE_COL as int, VALUE_COL + 2) == encode_utf8("= "@)
        }),
{
    broadcast use crate::render::lemma_encode_utf8_concat;

    let name_part = name_part_text(name, comment);
    let pad1 = pad_to(DESCRIPTOR_COL as int, depth * INDENT_WIDTH + utf8_len(name_part));
    crate::render::lemma_spaces_utf8_len(depth * 4);
    crate::render::lemma_spaces_utf8_len(pad1);
    let p1 = indent_text(depth) + name_part + spaces(pad1);
    let p3 = p1 + descriptor;
    let vc = value_column_text(utf8_len(descriptor), value);
    let line = variable_field_line(depth, name, comment, descriptor, value);
    assert(line == p3 + vc + "\n"@);
    assert(utf8_len(p1) == DESCRIPTOR_COL);
    let bytes = encode_utf8(line);
    assert(bytes == encode_utf8(p1) + encode_utf8(descriptor) + encode_utf8(vc) + encode_utf8(
        "\n"@,
    ));
    assert(bytes.subrange(DESCRIPTOR_COL as int, DESCRIPTOR_COL + utf8_len(descriptor))
        =~= encode_utf8(descriptor));
    if DESCRIPTOR_COL + utf8_len(descriptor) < VALUE_COL {
        match value {
            Some(v) => {
                let pad3 = pad_to(VALUE_COL as int, DESCRIPTOR_COL + utf8_len(descriptor));
                crate::render::lemma_spaces_utf8_len(pad3);
                assert(vc == spaces(pad3) + "= "@ + value_text(v));
                assert(utf8_len(p3 + spaces(pad3)) == VALUE_COL);
                reveal_strlit("= ");
                crate::render::lemma_ascii_utf8_len("= "@);
                assert(bytes =~= encode_utf8(p3 + spaces(pad3)) + encode_utf8("= "@) + encode_utf8(
                    value_text(v),
                ) + encode_utf8("\n"@));
                assert(bytes.subrange(VALUE_COL as int, VALUE_COL + 2) =~= encode_utf8("= "@));
            },
            None => {},
        }
    }
}

// ── Shared line builders ────────────────────────────────────

/// Appends `name` and its optional inline comment, returning the byte length
/// of what was appended.
pub fn push_name_part(line: &mut String, name: &str, comment: Option<&str>) -> (len: usize)
    ensures
        final(line)@ == old(line)@ + name_part_text(name@, opt_chars(comment)),
        len == utf8_len(name_part_text(name@, opt_chars(comment))),
{
    let mut part = String::new();
    part.append(name);
    match comment {
        Some(c) => {
            part.append("  /* ");
            part.append(c);
            part.append(" */");
        },
        None => {},
    }
    let s: &str = part.as_str();
    line.append(s);
    s.as_bytes().len()
}

/// Appends the `= value` column for a descriptor of `desc_len` bytes.
pub fn push_value_column(line: &mut String, desc_len: usize, value: Option<&Value>)
    ensures
        final(line)@ == old(line)@ + value_column_text(desc_len as nat, opt_value(value)),
{
    match value {
        Some(v) => {
            let padding3 = pad_after(VALUE_COL, DESCRIPTOR_COL, desc_len);
            push_spaces(line, padding3);
            line.append("= ");
            v.push_text(line);
        },
        None => {},
    }
}

/// Builds a fixed-width field line.
pub fn fixed_field_text(
    depth: usize,
    name: &str,
    comment: Option<&str>,
    bits: u32,
    descriptor: &str,
    value: Option<&Value>,
) -> (line: String)
    ensures
        line@ == fixed_field_line(
            depth as nat,
            name@,
            opt_chars(comment),
            bits,
            descriptor@,
            opt_value(value),
        ),
{
    let mut line = String::new();
    push_indent(&mut line, depth);
    let name_len = push_name_part(&mut line, name, comment);
    let padding1 = pad_after_indent(WIDTH_COL, depth, name_len);
    push_spaces(&mut line, padding1);
    let mut width_str = String::new();
    push_decimal(&mut width_str, bits as u64);
    let ws: &str = width_str.as_str();
    line.append(ws);
    let padding2 = pad_after(DESCRIPTOR_COL, WIDTH_COL, ws.as_bytes().len());
    push_spaces(&mut line, padding2);
    line.append(descriptor);
    push_value_column(&mut line, descriptor.as_bytes().len(), value);
    line.append("\n");
    line
}

/// Builds a variable-length field line.
pub fn variable_field_text(
    depth: usize,
    name: &str,
    comment: Option<&str>,
    descriptor: &str,
    value: Option<&Value>,
) -> (line: String)
    ensures
        line@ == variable_field_line(
            depth as nat,
            name@,
            opt_chars(comment),
            descriptor@,
            opt_value(value),
        ),
{
    let mut line = String::new();
    push_indent(&mut line, depth);
    let name_len = push_name_part(&mut line, name, comment);
    let padding1 = pad_after_indent(DESCRIPTOR_COL, depth, name_len);
    push_spaces(&mut line, padding1);
    line.append(descriptor);
    push_value_column(&mut line, descriptor.as_bytes().len(), value);
    line.append("\n");
    line
}

/// Builds the lines of a hex dump at depth `depth`.
pub fn hex_dump_text(depth: usize, data: &[u8]) -> (text: String)
    ensures
        text@ == indented_lines(depth as nat, hex_dump_lines(data@)),
{
    let lines = format_hex_dump(data);
    let ghost expected = hex_dump_lines(data@);
    let mut text = String::new();
    let n = lines.len();
    let mut i: usize = 0;
    while i < n
        invariant
            n == lines@.len(),
            n == expected.len(),
            forall|k: int| 0 <= k < n ==> (#[trigger] lines@[k])@ == expected[k],
            i <= n,
            text@ == indented_lines(depth as nat, expected.subrange(0, i as int)),
        decreases n - i,
    {
        push_indent(&mut text, depth);
        text.append(lines[i].as_str());
        text.append("\n");
        proof {
            let sub = expected.subrange(0, i + 1);
            assert(sub.drop_last() =~= expected.subrange(0, i as int));
            assert(sub.last() == lines@[i as int]@);
        }
        i = i + 1;
    }
    assert(expected.subrange(0, n as int) =~= expected);
    text
}

// ── A whole description as plain text ───────────────────────

/// A term given as a name and a value: `name: value`.
pub open spec fn pair_text(t: (Seq<char>, Value)) -> Seq<char> {
    t.0 + ": "@ + value_text(t.1)
}

/// Terms given as names and values, joined by `, `.
pub open spec fn pairs_joined(terms: Seq<(Seq<char>, Value)>) -> Seq<char>
    decreases terms.len(),
{
    if terms.len() == 0 {
        Seq::empty()
    } else if terms.len() == 1 {
        pair_text(terms[0])
    } else {
        pairs_joined(terms.drop_last()) + ", "@ + pair_text(terms.last())
    }
}

/// Terms given as names and values, as a trailing comment.
pub open spec fn pairs_annotations_text(terms: Seq<(Seq<char>, Value)>) -> Seq<char> {
    if terms.len() == 0 {
        Seq::empty()
    } else {
        "  /* "@ + pairs_joined(terms) + " */"@
    }
}

/// Term annotations read as names and values give the same comment.
pub proof fn lemma_pairs_annotations(terms: Seq<TermAnnotation<'_>>)
    ensures
        pairs_annotations_text(term_pairs(terms)) == term_annotations_text(terms),
{
    lemma_pairs_joined(terms);
}

pub proof fn lemma_pairs_joined(terms: Seq<TermAnnotation<'_>>)
    ensures
        pairs_joined(term_pairs(terms)) == crate::render::terms_joined(terms),
    decreases terms.len(),
{
    if terms.len() > 1 {
        lemma_pairs_joined(terms.drop_last());
        assert(term_pairs(terms).drop_last() =~= term_pairs(terms.drop_last()));
    }
}

/// The plain text of one described item, made with `open` blocks open.
pub open spec fn plain_event_line(open: nat, e: SyntaxEvent) -> Seq<char> {
    let outer = (open - 1) as nat;
    match e {
        SyntaxEvent::BeginElement { name, params } => element_open_line(open, name, params),
        SyntaxEvent::EndElement => close_line(outer),
        SyntaxEvent::FixedWidthField { name, bits, descriptor, value, comment } => fixed_field_line(
            open,
            name,
            comment,
            bits,
            descriptor,
            value,
        ),
        SyntaxEvent::VariableLengthField { name, descriptor, value, comment } => variable_field_line(
            open,
            name,
            comment,
            descriptor,
            value,
        ),
        SyntaxEvent::BitPattern { name, bits, descriptor, value } => fixed_field_line(
            open,
            name,
            None,
            bits,
            descriptor,
            Some(value),
        ),
        SyntaxEvent::RawBytes { data } => indented_lines(open, hex_dump_lines(data)),
        SyntaxEvent::BeginIf { condition, terms, taken } => indent_text(open) + "if ("@ + condition
            + ") {"@ + pairs_annotations_text(terms) + "\n"@,
        SyntaxEvent::BeginElseIf { condition, terms, taken } => indent_text(outer) + "} else if ("@
            + condition + ") {"@ + pairs_annotations_text(terms) + "\n"@,
        SyntaxEvent::BeginElse { taken } => else_line(outer),
        SyntaxEvent::EndIf => close_line(outer),
        SyntaxEvent::BeginFor { header, terms } => indent_text(open) + "for ("@ + header + ") {"@
            + pairs_annotations_text(terms) + "\n"@,
        SyntaxEvent::ForIteration { variable, index } => for_iteration_line(open, variable, index),
        SyntaxEvent::EndFor => close_line(outer),
        SyntaxEvent::BeginWhile { condition } => while_line(open, condition),
        SyntaxEvent::WhileIteration { index } => iteration_line(open, index),
        SyntaxEvent::EndWhile => close_line(outer),
        SyntaxEvent::BeginDoWhile => do_line(open),
        SyntaxEvent::DoWhileIteration { index } => iteration_line(open, index),
        SyntaxEvent::EndDoWhile { condition } => do_while_end_line(outer, condition),
        SyntaxEvent::BeginSwitch { expression, terms } => indent_text(open) + "switch ("@
            + expression + ") {"@ + pairs_annotations_text(terms) + "\n"@,
        SyntaxEvent::BeginCase { label, taken } => case_line(open, label),
        SyntaxEvent::EndCase => break_line(open),
        SyntaxEvent::EndSwitch => close_line(outer),
        SyntaxEvent::Assignment { expression, computed_value } => assignment_line(
            open,
            expression,
            computed_value,
        ),
        SyntaxEvent::Comment { text } => comment_line(open, text),
        SyntaxEvent::Ellipsis => ellipsis_line(open),
    }
}

/// The plain text of a whole description made from an empty start: each
/// item's line indented by the blocks open when it was made.
pub open spec fn plain_text(events: Seq<SyntaxEvent>) -> Seq<char>
    decreases events.len(),
{
    if events.len() == 0 {
        Seq::empty()
    } else {
        plain_text(events.drop_last()) + plain_event_line(
            blocks_after(Seq::empty(), events.drop_last()).len(),
            events.last(),
        )
    }
}

/// The plain text of a sequence made with `outer` blocks already open: each
/// item's line indented by those blocks and the ones the sequence opened
/// before it.
pub open spec fn plain_text_in(outer: nat, events: Seq<SyntaxEvent>) -> Seq<char>
    decreases events.len(),
{
    if events.len() == 0 {
        Seq::empty()
    } else {
        plain_text_in(outer, events.drop_last()) + plain_event_line(
            outer + blocks_after(Seq::empty(), events.drop_last()).len(),
            events.last(),
        )
    }
}

/// A sequence of calls, each allowed where it is made, that follows a
/// description `before` writes its lines indented by the blocks open before
/// it plus those it opened itself (a closing line, `} else ...` and
/// `} while (...)` at the level of the block they close), and a well-nested
/// sequence leaves open exactly the blocks that were open before it.
pub proof fn lemma_plain_text_nested(before: Seq<SyntaxEvent>, events: Seq<SyntaxEvent>)
    requires
        calls_fit(Seq::empty(), events),
    ensures
        plain_text(before + events) == plain_text(before) + plain_text_in(
            blocks_after(Seq::empty(), before).len(),
            events,
        ),
        blocks_after(Seq::empty(), before + events) == blocks_after(Seq::empty(), before)
            + blocks_after(Seq::empty(), events),
        well_nested(events) ==> blocks_after(Seq::empty(), before + events) == blocks_after(
            Seq::empty(),
            before,
        ),
    decreases events.len(),
{
    let outer = blocks_after(Seq::empty(), before);
    lemma_blocks_after_concat(Seq::empty(), before, events);
    lemma_calls_fit_anywhere(outer, events);
    if events.len() == 0 {
        assert(before + events =~= before);
    } else {
        let init = events.drop_last();
        lemma_plain_text_nested(before, init);
        assert((before + events).drop_last() =~= before + init);
        assert((before + events).last() == events.last());
    }
    assert(outer + Seq::<BlockTag>::empty() =~= outer);
}

/// The plain text ignores whether a branch or case is taken: untaken ones are
/// printed like taken ones, and the blocks they open are the same.
pub proof fn lemma_plain_ignores_taken(
    open: nat,
    blocks: Seq<BlockTag>,
    condition: Seq<char>,
    terms: Seq<(Seq<char>, Value)>,
    label: Seq<char>,
)
    ensures
        plain_event_line(open, SyntaxEvent::BeginIf { condition, terms, taken: true })
            == plain_event_line(open, SyntaxEvent::BeginIf { condition, terms, taken: false }),
        plain_event_line(open, SyntaxEvent::BeginElseIf { condition, terms, taken: true })
            == plain_event_line(open, SyntaxEvent::BeginElseIf { condition, terms, taken: false }),
        plain_event_line(open, SyntaxEvent::BeginElse { taken: true }) == plain_event_line(
            open,
            SyntaxEvent::BeginElse { taken: false },
        ),
        plain_event_line(open, SyntaxEvent::BeginCase { label, taken: true }) == plain_event_line(
            open,
            SyntaxEvent::BeginCase { label, taken: false },
        ),
        block_step(blocks, SyntaxEvent::BeginIf { condition, terms, taken: true }) == block_step(
            blocks,
            SyntaxEvent::BeginIf { condition, terms, taken: false },
        ),
        block_step(blocks, SyntaxEvent::BeginCase { label, taken: true }) == block_step(
            blocks,
            SyntaxEvent::BeginCase { label, taken: false },
        ),
{
}

/// A field line, fixed-width or variable-length, begins with the indentation
/// and the field's name, followed by `  /* comment */` when the field has an
/// inline comment, and ends the line.
/// The indentation and a field's name part begin with the indentation and
/// the name, followed by `  /* comment */` when there is a comment.
proof fn lemma_name_part_prefix(depth: nat, name: Seq<char>, comment: Option<Seq<char>>)
    ensures
        starts_with(indent_text(depth) + name_part_text(name, comment), indent_text(depth) + name),
        comment matches Some(c) ==> indent_text(depth) + name_part_text(name, comment)
            == indent_text(depth) + name + "  /* "@ + c + " */"@,
{
    let short = indent_text(depth) + name;
    match comment {
        Some(c) => {
            let extra = "  /* "@ + c + " */"@;
            assert(indent_text(depth) + name_part_text(name, comment) =~= short + extra);
            lemma_concat_ends(short, extra);
            assert(short + extra =~= indent_text(depth) + name + "  /* "@ + c + " */"@);
        },
        None => {
            lemma_concat_ends(short, Seq::<char>::empty());
            assert(short + Seq::<char>::empty() =~= short);
        },
    }
}

/// A fixed-width field line begins with the indentation and the field's
/// name, followed by `  /* comment */` when the field has an inline comment,
/// and ends the line.
#[verifier::spinoff_prover]
pub proof fn lemma_fixed_field_line_begins_with_name(
    depth: nat,
    name: Seq<char>,
    comment: Option<Seq<char>>,
    bits: u32,
    descriptor: Seq<char>,
    value: Option<Value>,
)
    ensures
        starts_with(fixed_field_line(depth, name, comment, bits, descriptor, value), indent_text(depth) + name),
        comment matches Some(c) ==> starts_with(
            fixed_field_line(depth, name, comment, bits, descriptor, value),
            indent_text(depth) + name + "  /* "@ + c + " */"@,
        ),
        ends_with(fixed_field_line(depth, name, comment, bits, descriptor, value), "\n"@),
{
    let np = name_part_text(name, comment);
    let w = dec_text(bits as nat);
    let x0 = indent_text(depth) + np;
    let x1 = x0 + spaces(pad_to(WIDTH_COL as int, depth * INDENT_WIDTH + utf8_len(np)));
    let x2 = x1 + w;
    let x3 = x2 + spaces(pad_to(DESCRIPTOR_COL as int, WIDTH_COL + utf8_len(w)));
    let x4 = x3 + descriptor;
    let x5 = x4 + value_column_text(utf8_len(descriptor), value);
    lemma_concat_ends(x0, Seq::<char>::empty());
    assert(x0 + Seq::<char>::empty() =~= x0);
    lemma_name_part_prefix(depth, name, comment);
    let p = match comment {
        Some(c) => indent_text(depth) + name + "  /* "@ + c + " */"@,
        None => indent_text(depth) + name,
    };
    assert(starts_with(x0, p));
    lemma_starts_extend(x0, spaces(pad_to(WIDTH_COL as int, depth * INDENT_WIDTH + utf8_len(np))), p);
    lemma_starts_extend(x1, w, p);
    lemma_starts_extend(x2, spaces(pad_to(DESCRIPTOR_COL as int, WIDTH_COL + utf8_len(w))), p);
    lemma_starts_extend(x3, descriptor, p);
    lemma_starts_extend(x4, value_column_text(utf8_len(descriptor), value), p);
    lemma_starts_extend(x5, "\n"@, p);
    lemma_starts_extend(x0, spaces(pad_to(WIDTH_COL as int, depth * INDENT_WIDTH + utf8_len(np))), indent_text(depth) + name);
    lemma_starts_extend(x1, w, indent_text(depth) + name);
    lemma_starts_extend(x2, spaces(pad_to(DESCRIPTOR_COL as int, WIDTH_COL + utf8_len(w))), indent_text(depth) + name);
    lemma_starts_extend(x3, descriptor, indent_text(depth) + name);
    lemma_starts_extend(x4, value_column_text(utf8_len(descriptor), value), indent_text(depth) + name);
    lemma_starts_extend(x5, "\n"@, indent_text(depth) + name);
    lemma_concat_ends(x5, "\n"@);
    assert(fixed_field_line(depth, name, comment, bits, descriptor, value) == x5 + "\n"@);
}

/// A variable-length field line begins with the indentation and the field's
/// name, followed by `  /* comment */` when the field has an inline comment,
/// and ends the line.
#[verifier::spinoff_prover]
pub proof fn lemma_variable_field_line_begins_with_name(
    depth: nat,
    name: Seq<char>,
    comment: Option<Seq<char>>,
    descriptor: Seq<char>,
    value: Option<Value>,
)
    ensures
        starts_with(variable_field_line(depth, name, comment, descriptor, value), indent_text(depth) + name),
        comment matches Some(c) ==> starts_with(
            variable_field_line(depth, name, comment, descriptor, value),
            indent_text(depth) + name + "  /* "@ + c + " */"@,
        ),
        ends_with(variable_field_line(depth, name, comment, descriptor, value), "\n"@),
{
    let np = name_part_text(name, comment);
    let x0 = indent_text(depth) + np;
    let x1 = x0 + spaces(pad_to(DESCRIPTOR_COL as int, depth * INDENT_WIDTH + utf8_len(np)));
    let x2 = x1 + descriptor;
    let x3 = x2 + value_column_text(utf8_len(descriptor), value);
    lemma_concat_ends(x0, Seq::<char>::empty());
    assert(x0 + Seq::<char>::empty() =~= x0);
    lemma_name_part_prefix(depth, name, comment);
    let p = match comment {
        Some(c) => indent_text(depth) + name + "  /* "@ + c + " */"@,
        None => indent_text(depth) + name,
    };
    assert(starts_with(x0, p));
    lemma_starts_extend(x0, spaces(pad_to(DESCRIPTOR_COL as int, depth * INDENT_WIDTH + utf8_len(np))), p);
    lemma_starts_extend(x1, descriptor, p);
    lemma_starts_extend(x2, value_column_text(utf8_len(descriptor), value), p);
    lemma_starts_extend(x3, "\n"@, p);
    lemma_starts_extend(x0, spaces(pad_to(DESCRIPTOR_COL as int, depth * INDENT_WIDTH + utf8_len(np))), indent_text(depth) + name);
    lemma_starts_extend(x1, descriptor, indent_text(depth) + name);
    lemma_starts_extend(x2, value_column_text(utf8_len(descriptor), value), indent_text(depth) + name);
    lemma_starts_extend(x3, "\n"@, indent_text(depth) + name);
    lemma_concat_ends(x3, "\n"@);
    assert(variable_field_line(depth, name, comment, descriptor, value) == x3 + "\n"@);
}

/// An assignment line begins with the indentation and the expression and
/// ends the line; without a computed value it is just the expression, with
/// one it ends `/* = value */`.
#[verifier::spinoff_prover]
pub proof fn lemma_assignment_line_shape(depth: nat, expression: Seq<char>, value: Option<Value>)
    ensures
        starts_with(assignment_line(depth, expression, value), indent_text(depth) + expression),
        ends_with(assignment_line(depth, expression, value), "\n"@),
        value is None ==> assignment_line(depth, expression, value).len() == indent_text(depth).len()
            + expression.len() + 1,
        value matches Some(v) ==> ends_with(
            assignment_line(depth, expression, value),
            "/* = "@ + value_text(v) + " */\n"@,
        ),
{
    reveal_strlit("\n");
    reveal_strlit(" */\n");
    let head = indent_text(depth) + expression;
    let line = assignment_line(depth, expression, value);
    match value {
        Some(v) => {
            let pad = spaces(assignment_pad(depth as int, utf8_len(expression) as int));
            let tail = "/* = "@ + value_text(v) + " */\n"@;
            assert(line =~= head + (pad + tail));
            lemma_concat_ends(head, pad + tail);
            assert(line =~= (head + pad) + tail);
            lemma_concat_ends(head + pad, tail);
            assert(line =~= (head + pad + "/* = "@ + value_text(v) + " */"@) + "\n"@) by {
                reveal_strlit(" */");
            }
            lemma_concat_ends(head + pad + "/* = "@ + value_text(v) + " */"@, "\n"@);
        },
        None => {
            assert(line =~= head + "\n"@);
            lemma_concat_ends(head, "\n"@);
        },
    }
}

// ── The renderer ────────────────────────────────────────────

/// Plain text renderer that writes MPEG syntax to a byte sink.
///
/// Each call hands the whole text it produces (a line, or the lines of a hex
/// dump) to the sink in one `write_bytes` call; `field_table` makes one such
/// call per line of the loop it expands to.
pub struct PlainTextRenderer<W> {
    writer: W,
    depth: usize,
    /// The blocks opened and not yet closed.
    block_stack: Vec<BlockTag>,
    /// The syntax items described so far.
    log: Ghost<Seq<SyntaxEvent>>,
    /// What the sink held when the renderer was made.
    start: Ghost<Seq<u8>>,
    /// No write has failed yet.
    intact: Ghost<bool>,
}

impl<W: ByteSink> PlainTextRenderer<W> {
    /// Each open block indents its contents by one level.
    pub proof fn lemma_depth_is_nesting(&self)
        requires
            self.well_formed(),
        ensures
            self.depth() == self.open_blocks().len(),
    {
    }

    /// Everything written to the sink so far.
    pub closed spec fn output(&self) -> Seq<u8> {
        self.writer.written()
    }

    /// Whether the sink, as it stands, may answer `r` to a write of `bytes`.
    pub closed spec fn sink_answers(&self, bytes: Seq<u8>, r: Result<(), TextRenderError>) -> bool {
        self.writer.answers(bytes, r)
    }

    /// The current nesting depth (indentation level).
    pub closed spec fn depth(&self) -> nat {
        self.depth as nat
    }

    /// True when the nesting depth is the number of open blocks.
    pub closed spec fn consistent(&self) -> bool {
        self.depth == self.block_stack@.len()
    }

    /// While no write has failed, the open blocks are those that the
    /// description so far leaves open.
    pub proof fn lemma_blocks_follow_description(&self)
        requires
            self.well_formed(),
            self.intact(),
        ensures
            self.open_blocks() == blocks_after(Seq::empty(), self.described()),
    {
    }

    /// What the sink held when the renderer was made.
    pub closed spec fn initial(&self) -> Seq<u8> {
        self.start@
    }

    /// True while no write has failed.
    pub closed spec fn intact(&self) -> bool {
        self.intact@
    }

    /// While no write has failed, the open blocks and the output are the ones
    /// that the description so far gives.
    pub closed spec fn faithful(&self) -> bool {
        self.intact@ ==> {
            &&& self.block_stack@ == blocks_after(Seq::empty(), self.log@)
            &&& W::tracks_output() ==> self.writer.written() == self.start@ + encode_utf8(
                plain_text(self.log@),
            )
        }
    }

    pub fn new(writer: W) -> (r: Self)
        ensures
            r.described() == Seq::<SyntaxEvent>::empty(),
            r.output() == writer.written(),
            r.depth() == 0,
            r.well_formed(),
            r.open_blocks() == Seq::<BlockTag>::empty(),
            r.initial() == writer.written(),
            r.intact(),
    {
        let ghost start = writer.written();
        let r = PlainTextRenderer {
            writer,
            depth: 0,
            block_stack: Vec::new(),
            log: Ghost(Seq::empty()),
            start: Ghost(start),
            intact: Ghost(true),
        };
        assert(r.writer.written() =~= start + encode_utf8(plain_text(Seq::empty())));
        r
    }

    /// Get the underlying writer back. While no write has failed, it holds
    /// what it held at the start followed by the plain text of everything
    /// described, in order.
    pub fn into_inner(self) -> (w: W)
        ensures
            w.written() == self.output(),
            self.well_formed() && W::tracks_output() && self.intact() ==> w.written()
                == self.initial() + encode_utf8(plain_text(self.described())),
    {
        self.writer
    }

    /// Recording `item` after a description whose text the sink held keeps
    /// the renderer faithful once the item's line is written and its block
    /// change is made.
    proof fn lemma_record(&self, before: Seq<SyntaxEvent>, item: SyntaxEvent, line: Seq<char>, held: Seq<u8>)
        requires
            self.log@ == before.push(item),
            self.intact@ ==> self.block_stack@ == block_step(blocks_after(Seq::empty(), before), item),
            self.intact@ ==> line == plain_event_line(blocks_after(Seq::empty(), before).len(), item),
            self.intact@ && W::tracks_output() ==> held == self.start@ + encode_utf8(plain_text(before)),
            self.intact@ && W::tracks_output() ==> self.writer.written() == held + encode_utf8(line),
        ensures
            self.faithful(),
    {
        let l = self.log@;
        assert(l.drop_last() =~= before);
        if self.intact@ && W::tracks_output() {
            crate::render::lemma_encode_utf8_concat(plain_text(before), line);
            assert(self.writer.written() =~= self.start@ + encode_utf8(plain_text(l)));
        }
    }

    /// Writes `line`, the text of `item`, keeping the nesting unchanged.
    fn put(&mut self, line: &String, item: Ghost<SyntaxEvent>) -> (r: Result<(), TextRenderError>)
        requires
            old(self).intact@ ==> old(self).block_stack@ == block_step(
                blocks_after(Seq::empty(), old(self).log@),
                item@,
            ),
            old(self).intact@ ==> line@ == plain_event_line(
                blocks_after(Seq::empty(), old(self).log@).len(),
                item@,
            ),
            old(self).intact@ && W::tracks_output() ==> old(self).writer.written() == old(self).start@
                + encode_utf8(plain_text(old(self).log@)),
        ensures
            old(self).writer.answers(encode_utf8(line@), r),
            final(self).log@ == old(self).log@.push(item@),
            final(self).intact@ == (old(self).intact@ && r is Ok),
            final(self).start == old(self).start,
            final(self).faithful(),
            final(self).depth == old(self).depth,
            final(self).block_stack == old(self).block_stack,
            W::tracks_output() && r is Ok ==> final(self).output() == old(self).output() + encode_utf8(line@),
            W::never_fails() ==> r is Ok,
    {
        let r = emit(&mut self.writer, line);
        self.log = Ghost(self.log@.push(item@));
        let ghost ok: bool = r is Ok;
        self.intact = Ghost(if ok { self.intact@ } else { false });
        proof {
            self.lemma_record(old(self).log@, item@, line@, old(self).writer.written());
        }
        r
    }

    /// Writes `line`, the text of `item`, then opens a block of kind `tag`
    /// one level deeper.
    fn put_open(&mut self, line: &String, tag: BlockTag, item: Ghost<SyntaxEvent>) -> (r: Result<(), TextRenderError>)
        requires
            old(self).consistent(),
            old(self).faithful(),
            block_step(old(self).block_stack@, item@) == old(self).block_stack@.push(tag),
            old(self).intact@ ==> line@ == plain_event_line(old(self).block_stack@.len(), item@),
        ensures
            old(self).writer.answers(encode_utf8(line@), r),
            final(self).log@ == old(self).log@.push(item@),
            final(self).intact@ == (old(self).intact@ && r is Ok),
            final(self).start == old(self).start,
            final(self).faithful(),
            final(self).consistent(),
            W::tracks_output() && r is Ok ==> final(self).output() == old(self).output() + encode_utf8(line@),
            r is Ok ==> final(self).block_stack@ == old(self).block_stack@.push(tag),
            r is Err ==> final(self).block_stack@ == old(self).block_stack@,
            W::never_fails() ==> r is Ok,
    {
        let r = emit(&mut self.writer, line);
        self.log = Ghost(self.log@.push(item@));
        let ghost ok: bool = r is Ok;
        self.intact = Ghost(if ok { self.intact@ } else { false });
        if r.is_ok() {
            self.block_stack.push(tag);
            self.depth = self.block_stack.len();
            proof {
                self.lemma_record(old(self).log@, item@, line@, old(self).writer.written());
            }
        }
        r
    }
}

impl<W: ByteSink> SyntaxWrite for PlainTextRenderer<W> {
    type Error = TextRenderError;

    closed spec fn well_formed(&self) -> bool {
        self.consistent() && self.faithful()
    }

    closed spec fn described(&self) -> Seq<SyntaxEvent> {
        self.log@
    }

    closed spec fn open_blocks(&self) -> Seq<BlockTag> {
        self.block_stack@
    }

    fn begin_element(&mut self, name: &str, params: Option<&str>) -> (r: Result<(), TextRenderError>)
        ensures
            final(self).intact() == (old(self).intact() && r is Ok),
            final(self).initial() == old(self).initial(),
            W::tracks_output() && r is Ok ==> final(self).output() == old(self).output() + encode_utf8(
                element_open_line(old(self).depth(), name@, opt_chars(params)),
            ),
            old(self).sink_answers(
                encode_utf8(element_open_line(old(self).depth(), name@, opt_chars(params))),
                r,
            ),
            W::never_fails() ==> r is Ok,
    {
        let mut line = String::new();
        push_indent(&mut line, self.depth);
        line.append(name);
        match params {
            Some(p) => {
                line.append("(");
                line.append(p);
                line.append(") {\n");
            },
            None => {
                line.append("() {\n");
            },
        }
        self.put_open(&line, BlockTag::Element, Ghost(SyntaxEvent::BeginElement { name: name@, params: opt_text(params) }))
    }

    fn end_element(&mut self) -> (r: Result<(), TextRenderError>)
        ensures
            final(self).intact() == (old(self).intact() && r is Ok),
            final(self).initial() == old(self).initial(),
            W::tracks_output() && r is Ok ==> final(self).output() == old(self).output() + encode_utf8(
                close_line((old(self).depth() - 1) as nat),
            ),
            old(self).sink_answers(
                encode_utf8(close_line((old(self).depth() - 1) as nat)),
                r,
            ),
            W::never_fails() ==> r is Ok,
    {
        self.block_stack.pop();
        self.depth = self.depth - 1;
        let mut line = String::new();
        push_indent(&mut line, self.depth);
        line.append("}\n");
        self.put(&line, Ghost(SyntaxEvent::EndElement))
    }

    fn fixed_width_field(&mut self, field: &FixedWidthField<'_>) -> (r: Result<(), TextRenderError>)
        ensures
            final(self).intact() == (old(self).intact() && r is Ok),
            final(self).initial() == old(self).initial(),
            W::tracks_output() && r is Ok ==> final(self).output() == old(self).output() + encode_utf8(
                fixed_field_line(
                    old(self).depth(),
                    field.name@,
                    opt_chars(field.comment),
                    field.bits,
                    field.descriptor@,
                    field.value,
                ),
            ),
            old(self).sink_answers(
                encode_utf8(
                    fixed_field_line(
                        old(self).depth(),
                        field.name@,
                        opt_chars(field.comment),
                        field.bits,
                        field.descriptor@,
                        field.value,
                    ),
                ),
                r,
            ),
            W::never_fails() ==> r is Ok,
    {
        let line = fixed_field_text(
            self.depth,
            field.name,
            field.comment,
            field.bits,
            field.descriptor,
            field.value.as_ref(),
        );
        self.put(&line, Ghost(fixed_event(*field)))
    }

    fn variable_length_field(&mut self, field: &VariableLengthField<'_>) -> (r: Result<(), TextRenderError>)
        ensures
            final(self).intact() == (old(self).intact() && r is Ok),
            final(self).initial() == old(self).initial(),
            W::tracks_output() && r is Ok ==> final(self).output() == old(self).output() + encode_utf8(
                variable_field_line(
                    old(self).depth(),
                    field.name@,
                    opt_chars(field.comment),
                    field.descriptor@,
                    field.value,
                ),
            ),
            old(self).sink_answers(
                encode_utf8(
                    variable_field_line(
                        old(self).depth(),
                        field.name@,
                        opt_chars(field.comment),
                        field.descriptor@,
                        field.value,
                    ),
                ),
                r,
            ),
            W::never_fails() ==> r is Ok,
    {
        let line = variable_field_text(
            self.depth,
            field.name,
            field.comment,
            field.descriptor,
            field.value.as_ref(),
        );
        self.put(&line, Ghost(variable_event(*field)))
    }

    fn bit_pattern(&mut self, field: &BitPatternField<'_>) -> (r: Result<(), TextRenderError>)
        ensures
            final(self).intact() == (old(self).intact() && r is Ok),
            final(self).initial() == old(self).initial(),
            W::tracks_output() && r is Ok ==> final(self).output() == old(self).output() + encode_utf8(
                fixed_field_line(
                    old(self).depth(),
                    field.name@,
                    None,
                    field.bits,
                    field.descriptor@,
                    Some(field.value),
                ),
            ),
            old(self).sink_answers(
                encode_utf8(
                    fixed_field_line(
                        old(self).depth(),
                        field.name@,
                        None,
                        field.bits,
                        field.descriptor@,
                        Some(field.value),
                    ),
                ),
                r,
            ),
            W::never_fails() ==> r is Ok,
    {
        let line = fixed_field_text(
            self.depth,
            field.name,
            None,
            field.bits,
            field.descriptor,
            Some(&field.value),
        );
        self.put(&line, Ghost(bit_pattern_event(*field)))
    }

    fn raw_bytes(&mut self, data: &[u8]) -> (r: Result<(), TextRenderError>)
        ensures
            final(self).intact() == (old(self).intact() && r is Ok),
            final(self).initial() == old(self).initial(),
            W::tracks_output() && r is Ok ==> final(self).output() == old(self).output() + encode_utf8(
                indented_lines(old(self).depth(), hex_dump_lines(data@)),
            ),
            old(self).sink_answers(
                encode_utf8(indented_lines(old(self).depth(), hex_dump_lines(data@))),
                r,
            ),
            W::never_fails() ==> r is Ok,
    {
        let text = hex_dump_text(self.depth, data);
        self.put(&text, Ghost(SyntaxEvent::RawBytes { data: data@ }))
    }

    fn begin_if(&mut self, condition: &str, terms: &[TermAnnotation<'_>], taken: bool) -> (r: Result<(), TextRenderError>)
        ensures
            final(self).intact() == (old(self).intact() && r is Ok),
            final(self).initial() == old(self).initial(),
            W::tracks_output() && r is Ok ==> final(self).output() == old(self).output() + encode_utf8(
                if_line(old(self).depth(), condition@, terms@),
            ),
            old(self).sink_answers(
                encode_utf8(if_line(old(self).depth(), condition@, terms@)),
                r,
            ),
            W::never_fails() ==> r is Ok,
    {
        let mut line = String::new();
        push_indent(&mut line, self.depth);
        line.append("if (");
        line.append(condition);
        line.append(") {");
        let annotations = format_term_annotations(terms);
        line.append(annotations.as_str());
        line.append("\n");
        proof {
            lemma_pairs_annotations(terms@);
        }
        self.put_open(&line, BlockTag::If, Ghost(SyntaxEvent::BeginIf { condition: condition@, terms: term_pairs(terms@), taken }))
    }

    fn begin_else_if(&mut self, condition: &str, terms: &[TermAnnotation<'_>], taken: bool) -> (r: Result<(), TextRenderError>)
        ensures
            final(self).intact() == (old(self).intact() && r is Ok),
            final(self).initial() == old(self).initial(),
            r is Ok ==> final(self).depth() == old(self).depth(),
            r is Err ==> final(self).depth() == old(self).depth() - 1,
            final(self).open_blocks() == old(self).open_blocks(),
            W::tracks_output() && r is Ok ==> final(self).output() == old(self).output() + encode_utf8(
                else_if_line((old(self).depth() - 1) as nat, condition@, terms@),
            ),
            old(self).sink_answers(
                encode_utf8(else_if_line((old(self).depth() - 1) as nat, condition@, terms@)),
                r,
            ),
            W::never_fails() ==> r is Ok,
    {
        self.depth = self.depth - 1;
        let mut line = String::new();
        push_indent(&mut line, self.depth);
        line.append("} else if (");
        line.append(condition);
        line.append(") {");
        let annotations = format_term_annotations(terms);
        line.append(annotations.as_str());
        line.append("\n");
        proof {
            lemma_pairs_annotations(terms@);
        }
        let r = self.put(
            &line,
            Ghost(SyntaxEvent::BeginElseIf { condition: condition@, terms: term_pairs(terms@), taken }),
        );
        if r.is_ok() {
            self.depth = self.depth + 1;
        }
        r
    }

    fn begin_else(&mut self, taken: bool) -> (r: Result<(), TextRenderError>)
        ensures
            final(self).intact() == (old(self).intact() && r is Ok),
            final(self).initial() == old(self).initial(),
            r is Ok ==> final(self).depth() == old(self).depth(),
            r is Err ==> final(self).depth() == old(self).depth() - 1,
            final(self).open_blocks() == old(self).open_blocks(),
            W::tracks_output() && r is Ok ==> final(self).output() == old(self).output() + encode_utf8(
                else_line((old(self).depth() - 1) as nat),
            ),
            old(self).sink_answers(
                encode_utf8(else_line((old(self).depth() - 1) as nat)),
                r,
            ),
            W::never_fails() ==> r is Ok,
    {
        self.depth = self.depth - 1;
        let mut line = String::new();
        push_indent(&mut line, self.depth);
        line.append("} else {\n");
        let r = self.put(&line, Ghost(SyntaxEvent::BeginElse { taken }));
        if r.is_ok() {
            self.depth = self.depth + 1;
        }
        r
    }

    fn end_if(&mut self) -> (r: Result<(), TextRenderError>)
        ensures
            final(self).intact() == (old(self).intact() && r is Ok),
            final(self).initial() == old(self).initial(),
            W::tracks_output() && r is Ok ==> final(self).output() == old(self).output() + encode_utf8(
                close_line((old(self).depth() - 1) as nat),
            ),
            old(self).sink_answers(
                encode_utf8(close_line((old(self).depth() - 1) as nat)),
                r,
            ),
            W::never_fails() ==> r is Ok,
    {
        self.block_stack.pop();
        self.depth = self.depth - 1;
        let mut line = String::new();
        push_indent(&mut line, self.depth);
        line.append("}\n");
        self.put(&line, Ghost(SyntaxEvent::EndIf))
    }

    fn begin_for(&mut self, header: &str, terms: &[TermAnnotation<'_>]) -> (r: Result<(), TextRenderError>)
        ensures
            final(self).intact() == (old(self).intact() && r is Ok),
            final(self).initial() == old(self).initial(),
            W::tracks_output() && r is Ok ==> final(self).output() == old(self).output() + encode_utf8(
                for_line(old(self).depth(), header@, terms@),
            ),
            old(self).sink_answers(
                encode_utf8(for_line(old(self).depth(), header@, terms@)),
                r,
            ),
            W::never_fails() ==> r is Ok,
    {
        let mut line = String::new();
        push_indent(&mut line, self.depth);
        line.append("for (");
        line.append(header);
        line.append(") {");
        let annotations = format_term_annotations(terms);
        line.append(annotations.as_str());
        line.append("\n");
        proof {
            lemma_pairs_annotations(terms@);
        }
        self.put_open(&line, BlockTag::For, Ghost(SyntaxEvent::BeginFor { header: header@, terms: term_pairs(terms@) }))
    }

    fn for_iteration(&mut self, variable: &str, index: u64) -> (r: Result<(), TextRenderError>)
        ensures
            final(self).intact() == (old(self).intact() && r is Ok),
            final(self).initial() == old(self).initial(),
            final(self).depth() == old(self).depth(),
            W::tracks_output() && r is Ok ==> final(self).output() == old(self).output() + encode_utf8(
                for_iteration_line(old(self).depth(), variable@, index),
            ),
            old(self).sink_answers(
                encode_utf8(for_iteration_line(old(self).depth(), variable@, index)),
                r,
            ),
            W::never_fails() ==> r is Ok,
    {
        let mut line = String::new();
        push_indent(&mut line, self.depth);
        line.append("/* ");
        line.append(variable);
        line.append(": ");
        push_decimal(&mut line, index);
        line.append(" */\n");
        self.put(&line, Ghost(SyntaxEvent::ForIteration { variable: variable@, index }))
    }

    fn end_for(&mut self) -> (r: Result<(), TextRenderError>)
        ensures
            final(self).intact() == (old(self).intact() && r is Ok),
            final(self).initial() == old(self).initial(),
            W::tracks_output() && r is Ok ==> final(self).output() == old(self).output() + encode_utf8(
                close_line((old(self).depth() - 1) as nat),
            ),
            old(self).sink_answers(
                encode_utf8(close_line((old(self).depth() - 1) as nat)),
                r,
            ),
            W::never_fails() ==> r is Ok,
    {
        self.block_stack.pop();
        self.depth = self.depth - 1;
        let mut line = String::new();
        push_indent(&mut line, self.depth);
        line.append("}\n");
        self.put(&line, Ghost(SyntaxEvent::EndFor))
    }

    fn begin_while(&mut self, condition: &str) -> (r: Result<(), TextRenderError>)
        ensures
            final(self).intact() == (old(self).intact() && r is Ok),
            final(self).initial() == old(self).initial(),
            W::tracks_output() && r is Ok ==> final(self).output() == old(self).output() + encode_utf8(
                while_line(old(self).depth(), condition@),
            ),
            old(self).sink_answers(
                encode_utf8(while_line(old(self).depth(), condition@)),
                r,
            ),
            W::never_fails() ==> r is Ok,
    {
        let mut line = String::new();
        push_indent(&mut line, self.depth);
        line.append("while (");
        line.append(condition);
        line.append(") {\n");
        self.put_open(&line, BlockTag::While, Ghost(SyntaxEvent::BeginWhile { condition: condition@ }))
    }

    fn while_iteration(&mut self, index: u64) -> (r: Result<(), TextRenderError>)
        ensures
            final(self).intact() == (old(self).intact() && r is Ok),
            final(self).initial() == old(self).initial(),
            final(self).depth() == old(self).depth(),
            W::tracks_output() && r is Ok ==> final(self).output() == old(self).output() + encode_utf8(
                iteration_line(old(self).depth(), index),
            ),
            old(self).sink_answers(
                encode_utf8(iteration_line(old(self).depth(), index)),
                r,
            ),
            W::never_fails() ==> r is Ok,
    {
        let mut line = String::new();
        push_indent(&mut line, self.depth);
        line.append("/* iteration: ");
        push_decimal(&mut line, index);
        line.append(" */\n");
        self.put(&line, Ghost(SyntaxEvent::WhileIteration { index }))
    }

    fn end_while(&mut self) -> (r: Result<(), TextRenderError>)
        ensures
            final(self).intact() == (old(self).intact() && r is Ok),
            final(self).initial() == old(self).initial(),
            W::tracks_output() && r is Ok ==> final(self).output() == old(self).output() + encode_utf8(
                close_line((old(self).depth() - 1) as nat),
            ),
            old(self).sink_answers(
                encode_utf8(close_line((old(self).depth() - 1) as nat)),
                r,
            ),
            W::never_fails() ==> r is Ok,
    {
        self.block_stack.pop();
        self.depth = self.depth - 1;
        let mut line = String::new();
        push_indent(&mut line, self.depth);
        line.append("}\n");
        self.put(&line, Ghost(SyntaxEvent::EndWhile))
    }

    fn begin_do_while(&mut self) -> (r: Result<(), TextRenderError>)
        ensures
            final(self).intact() == (old(self).intact() && r is Ok),
            final(self).initial() == old(self).initial(),
            W::tracks_output() && r is Ok ==> final(self).output() == old(self).output() + encode_utf8(
                do_line(old(self).depth()),
            ),
            old(self).sink_answers(
                encode_utf8(do_line(old(self).depth())),
                r,
            ),
            W::never_fails() ==> r is Ok,
    {
        let mut line = String::new();
        push_indent(&mut line, self.depth);
        line.append("do {\n");
        self.put_open(&line, BlockTag::DoWhile, Ghost(SyntaxEvent::BeginDoWhile))
    }

    fn do_while_iteration(&mut self, index: u64) -> (r: Result<(), TextRenderError>)
        ensures
            final(self).intact() == (old(self).intact() && r is Ok),
            final(self).initial() == old(self).initial(),
            final(self).depth() == old(self).depth(),
            W::tracks_output() && r is Ok ==> final(self).output() == old(self).output() + encode_utf8(
                iteration_line(old(self).depth(), index),
            ),
            old(self).sink_answers(
                encode_utf8(iteration_line(old(self).depth(), index)),
                r,
            ),
            W::never_fails() ==> r is Ok,
    {
        let mut line = String::new();
        push_indent(&mut line, self.depth);
        line.append("/* iteration: ");
        push_decimal(&mut line, index);
        line.append(" */\n");
        self.put(&line, Ghost(SyntaxEvent::DoWhileIteration { index }))
    }

    fn end_do_while(&mut self, condition: &str) -> (r: Result<(), TextRenderError>)
        ensures
            final(self).intact() == (old(self).intact() && r is Ok),
            final(self).initial() == old(self).initial(),
            W::tracks_output() && r is Ok ==> final(self).output() == old(self).output() + encode_utf8(
                do_while_end_line((old(self).depth() - 1) as nat, condition@),
            ),
            old(self).sink_answers(
                encode_utf8(do_while_end_line((old(self).depth() - 1) as nat, condition@)),
                r,
            ),
            W::never_fails() ==> r is Ok,
    {
        self.block_stack.pop();
        self.depth = self.depth - 1;
        let mut line = String::new();
        push_indent(&mut line, self.depth);
        line.append("} while (");
        line.append(condition);
        line.append(")\n");
        self.put(&line, Ghost(SyntaxEvent::EndDoWhile { condition: condition@ }))
    }

    fn begin_switch(&mut self, expression: &str, terms: &[TermAnnotation<'_>]) -> (r: Result<(), TextRenderError>)
        ensures
            final(self).intact() == (old(self).intact() && r is Ok),
            final(self).initial() == old(self).initial(),
            W::tracks_output() && r is Ok ==> final(self).output() == old(self).output() + encode_utf8(
                switch_line(old(self).depth(), expression@, terms@),
            ),
            old(self).sink_answers(
                encode_utf8(switch_line(old(self).depth(), expression@, terms@)),
                r,
            ),
            W::never_fails() ==> r is Ok,
    {
        let mut line = String::new();
        push_indent(&mut line, self.depth);
        line.append("switch (");
        line.append(expression);
        line.append(") {");
        let annotations = format_term_annotations(terms);
        line.append(annotations.as_str());
        line.append("\n");
        proof {
            lemma_pairs_annotations(terms@);
        }
        self.put_open(&line, BlockTag::Switch, Ghost(SyntaxEvent::BeginSwitch { expression: expression@, terms: term_pairs(terms@) }))
    }

    fn begin_case(&mut self, label: &str, taken: bool) -> (r: Result<(), TextRenderError>)
        ensures
            final(self).intact() == (old(self).intact() && r is Ok),
            final(self).initial() == old(self).initial(),
            W::tracks_output() && r is Ok ==> final(self).output() == old(self).output() + encode_utf8(
                case_line(old(self).depth(), label@),
            ),
            old(self).sink_answers(
                encode_utf8(case_line(old(self).depth(), label@)),
                r,
            ),
            W::never_fails() ==> r is Ok,
    {
        let mut line = String::new();
        push_indent(&mut line, self.depth);
        line.append("case ");
        line.append(label);
        line.append(":\n");
        self.put_open(&line, BlockTag::Case, Ghost(SyntaxEvent::BeginCase { label: label@, taken }))
    }

    fn end_case(&mut self) -> (r: Result<(), TextRenderError>)
        ensures
            final(self).intact() == (old(self).intact() && r is Ok),
            final(self).initial() == old(self).initial(),
            W::tracks_output() && r is Ok ==> final(self).output() == old(self).output() + encode_utf8(
                break_line(old(self).depth()),
            ),
            r is Ok ==> final(self).depth() == old(self).depth() - 1,
            r is Err ==> final(self).depth() == old(self).depth(),
            old(self).sink_answers(
                encode_utf8(break_line(old(self).depth())),
                r,
            ),
            W::never_fails() ==> r is Ok,
    {
        self.block_stack.pop();
        let mut line = String::new();
        push_indent(&mut line, self.depth);
        line.append("break\n");
        let r = self.put(&line, Ghost(SyntaxEvent::EndCase));
        if r.is_ok() {
            self.depth = self.depth - 1;
        }
        r
    }

    fn end_switch(&mut self) -> (r: Result<(), TextRenderError>)
        ensures
            final(self).intact() == (old(self).intact() && r is Ok),
            final(self).initial() == old(self).initial(),
            W::tracks_output() && r is Ok ==> final(self).output() == old(self).output() + encode_utf8(
                close_line((old(self).depth() - 1) as nat),
            ),
            old(self).sink_answers(
                encode_utf8(close_line((old(self).depth() - 1) as nat)),
                r,
            ),
            W::never_fails() ==> r is Ok,
    {
        self.block_stack.pop();
        self.depth = self.depth - 1;
        let mut line = String::new();
        push_indent(&mut line, self.depth);
        line.append("}\n");
        self.put(&line, Ghost(SyntaxEvent::EndSwitch))
    }

    fn field_table(&mut self, table: &FieldTable<'_>) -> (r: Result<(), TextRenderError>)
        ensures
            final(self).intact() == (old(self).intact() && r is Ok),
            final(self).initial() == old(self).initial(),
            W::tracks_output() && r is Ok ==> final(self).output() == old(self).output() + encode_utf8(
                field_table_text(old(self).depth(), table.columns@, row_values(table.rows@)),
            ),
            final(self).depth() == old(self).depth() || r is Err,
            W::never_fails() ==> r is Ok,
    {
        let ghost start_log = self.log@;
        let ghost rv = row_values(table.rows@);
        let ghost cols = table.columns@;
        let ghost d = self.depth as nat;
        let ghost start = self.output();
        let nrows = table.rows.len();
        let mut header = String::new();
        header.append("i = 0; i < ");
        push_decimal(&mut header, nrows as u64);
        header.append("; i++");
        let no_terms: [TermAnnotation; 0] = [];
        self.begin_for(header.as_str(), &no_terms)?;
        assert(term_pairs(no_terms@) =~= Seq::<(Seq<char>, Value)>::empty());
        assert(no_terms@ =~= Seq::<TermAnnotation>::empty());
        let ghost heads = seq![
            SyntaxEvent::BeginFor { header: table_header_text(nrows as nat), terms: Seq::empty() },
        ];
        assert(start_log + heads + rows_events(cols, rv, 0) =~= self.log@);
        assert(term_annotations_text(Seq::<TermAnnotation>::empty()) =~= Seq::<char>::empty());
        let ghost head = for_line(d, table_header_text(nrows as nat), Seq::empty());
        assert(head + table_rows_text(d + 1, cols, rv, 0) =~= head);
        let mut k: usize = 0;
        while k < nrows
            invariant
                self.consistent(),
                self.faithful(),
                self.intact@ == old(self).intact@,
                self.start == old(self).start,
                self.log@ == start_log + heads + rows_events(cols, rv, k as nat),
                self.depth() == d + 1,
                self.block_stack@ == old(self).block_stack@.push(BlockTag::For),
                nrows == table.rows@.len(),
                rv == row_values(table.rows@),
                cols == table.columns@,
                k <= nrows,
                W::tracks_output() ==> self.output() == start + encode_utf8(
                    head + table_rows_text(d + 1, cols, rv, k as nat),
                ),
            decreases nrows - k,
        {
            let ghost done = head + table_rows_text(d + 1, cols, rv, k as nat);
            let ghost iter = for_iteration_line(d + 1, "i"@, k as u64);
            self.for_iteration("i", k as u64)?;
            proof {
                crate::render::lemma_encode_utf8_concat(done, iter);
            }
            let row: &[Value] = table.rows[k];
            assert(rv[k as int] == row@);
            let ghost before_cells = done + iter;
            let ghost log_before_cells = self.log@;
            assert(log_before_cells + row_events(cols, row@, k as nat, 0) =~= log_before_cells);
            assert(before_cells + row_cell_lines(d + 1, cols, row@, k as nat, 0) =~= before_cells);
            let ncols = table.columns.len();
            let mut j: usize = 0;
            while j < ncols
                invariant
                    self.consistent(),
                    self.faithful(),
                    self.intact@ == old(self).intact@,
                    self.start == old(self).start,
                    self.log@ == log_before_cells + row_events(cols, row@, k as nat, j as nat),
                    self.depth() == d + 1,
                    self.block_stack@ == old(self).block_stack@.push(BlockTag::For),
                    ncols == table.columns@.len(),
                    cols == table.columns@,
                    j <= ncols,
                    W::tracks_output() ==> self.output() == start + encode_utf8(
                        before_cells + row_cell_lines(d + 1, cols, row@, k as nat, j as nat),
                    ),
                decreases ncols - j,
            {
                let ghost sofar = before_cells + row_cell_lines(d + 1, cols, row@, k as nat, j as nat);
                if j < row.len() {
                    let line = cell_text(self.depth, &table.columns[j], &row[j], k);
                    let ghost item = cell_event(cols[j as int], row@[j as int], k as nat);
                    assert(line@ == plain_event_line(d + 1, item));
                    self.put(&line, Ghost(item))?;
                    proof {
                        assert(self.log@ =~= log_before_cells + row_events(
                            cols,
                            row@,
                            k as nat,
                            (j + 1) as nat,
                        ));
                        crate::render::lemma_encode_utf8_concat(sofar, line@);
                        assert(sofar + line@ =~= before_cells + row_cell_lines(
                            d + 1,
                            cols,
                            row@,
                            k as nat,
                            (j + 1) as nat,
                        ));
                    }
                } else {
                    assert(self.log@ =~= log_before_cells + row_events(
                        cols,
                        row@,
                        k as nat,
                        (j + 1) as nat,
                    ));
                    assert(sofar =~= before_cells + row_cell_lines(
                        d + 1,
                        cols,
                        row@,
                        k as nat,
                        (j + 1) as nat,
                    ));
                }
                j = j + 1;
            }
            assert(head + table_rows_text(d + 1, cols, rv, (k + 1) as nat) =~= before_cells
                + row_cell_lines(d + 1, cols, row@, k as nat, ncols as nat));
            assert(self.log@ =~= start_log + heads + rows_events(cols, rv, (k + 1) as nat));
            k = k + 1;
        }
        let ghost all = head + table_rows_text(d + 1, cols, rv, nrows as nat);
        let r = self.end_for();
        assert(r is Ok ==> self.log@ =~= start_log + table_events(cols, rv));
        proof {
            crate::render::lemma_encode_utf8_concat(all, close_line(d));
        }
        r
    }

    fn assignment(&mut self, expression: &str, computed_value: Option<&Value>) -> (r: Result<(), TextRenderError>)
        ensures
            final(self).intact() == (old(self).intact() && r is Ok),
            final(self).initial() == old(self).initial(),
            final(self).depth() == old(self).depth(),
            W::tracks_output() && r is Ok ==> final(self).output() == old(self).output() + encode_utf8(
                assignment_line(old(self).depth(), expression@, opt_value(computed_value)),
            ),
            old(self).sink_answers(
                encode_utf8(
                    assignment_line(
                        old(self).depth(),
                        expression@,
                        opt_value(computed_value),
                    ),
                ),
                r,
            ),
            W::never_fails() ==> r is Ok,
    {
        let mut line = String::new();
        push_indent(&mut line, self.depth);
        line.append(expression);
        match computed_value {
            Some(val) => {
                let pad = assignment_padding(self.depth, expression.as_bytes().len());
                push_spaces(&mut line, pad);
                line.append("/* = ");
                val.push_text(&mut line);
                line.append(" */\n");
            },
            None => {
                line.append("\n");
            },
        }
        self.put(&line, Ghost(SyntaxEvent::Assignment { expression: expression@, computed_value: opt_val(computed_value) }))
    }

    fn comment(&mut self, text: &str) -> (r: Result<(), TextRenderError>)
        ensures
            final(self).intact() == (old(self).intact() && r is Ok),
            final(self).initial() == old(self).initial(),
            final(self).depth() == old(self).depth(),
            W::tracks_output() && r is Ok ==> final(self).output() == old(self).output() + encode_utf8(
                comment_line(old(self).depth(), text@),
            ),
            old(self).sink_answers(
                encode_utf8(comment_line(old(self).depth(), text@)),
                r,
            ),
            W::never_fails() ==> r is Ok,
    {
        let mut line = String::new();
        push_indent(&mut line, self.depth);
        line.append("/* ");
        line.append(text);
        line.append(" */\n");
        self.put(&line, Ghost(SyntaxEvent::Comment { text: text@ }))
    }

    fn ellipsis(&mut self) -> (r: Result<(), TextRenderError>)
        ensures
            final(self).intact() == (old(self).intact() && r is Ok),
            final(self).initial() == old(self).initial(),
            final(self).depth() == old(self).depth(),
            W::tracks_output() && r is Ok ==> final(self).output() == old(self).output() + encode_utf8(
                ellipsis_line(old(self).depth()),
            ),
            old(self).sink_answers(
                encode_utf8(ellipsis_line(old(self).depth())),
                r,
            ),
            W::never_fails() ==> r is Ok,
    {
        let mut line = String::new();
        push_indent(&mut line, self.depth);
        line.append("...\n");
        self.put(&line, Ghost(SyntaxEvent::Ellipsis))
    }
}

} // verus!
