//! The ANSI-colored renderer: the plain text layout with terminal color codes.
use vstd::prelude::*;
use vstd::utf8::encode_utf8;

use crate::numfmt::{dec_text, push_decimal};
use crate::render::text::TextRenderError;
use crate::render::{
    ends_with, lemma_starts_extend, starts_with, lemma_concat_ends, emit, format_hex_dump, hex_dump_lines, indent_text, opt_chars, opt_value, pad_after,
    pad_after_indent, pad_to, push_indent, push_spaces, push_terms_joined, row_values, spaces,
    terms_joined,
    utf8_len, DESCRIPTOR_COL, INDENT_WIDTH, VALUE_COL, WIDTH_COL,
};
use crate::sink::ByteSink;
use crate::render::text::{cell_name, lemma_pairs_joined, pairs_joined, table_header_text};
use crate::types::{
    value_text, BitPatternField, ColumnDef, FieldTable, FixedWidthField, TermAnnotation, Value,
    VariableLengthField,
};
use crate::write::{
    cell_event, row_events, rows_events, bit_pattern_event, fixed_event, opt_text, opt_val, table_events, term_pairs, top_is,
    variable_event, BlockTag, SyntaxEvent, SyntaxWrite,
};

verus! {

/// Dim, for branches that were not taken.
pub const DIM: &'static str = "\x1b[2m";

/// Back to the default style.
pub const RESET: &'static str = "\x1b[0m";

/// Bold magenta for keywords (if, for, while, else, do)
pub const KW: &'static str = "\x1b[1;35m";

/// Bold cyan for element names
pub const ELEM: &'static str = "\x1b[1;36m";

/// Bold for field names (the actual bitstream data fields)
pub const FIELD: &'static str = "\x1b[1m";

/// Yellow for descriptors
pub const DESC: &'static str = "\x1b[33m";

/// Green for values
pub const VAL: &'static str = "\x1b[32m";

/// Dim for comments/annotations
pub const COMMENT: &'static str = "\x1b[2m";

/// Dim for structural punctuation ({, }, (, ))
pub const PUNCT: &'static str = "\x1b[2m";

// ── The text of each line ───────────────────────────────────

/// `text` in the style `code`, followed by a reset.
pub open spec fn styled(code: Seq<char>, text: Seq<char>) -> Seq<char> {
    code + text + RESET@
}

/// A field name in bold, with its optional inline comment dimmed.
pub open spec fn name_text(name: Seq<char>, comment: Option<Seq<char>>) -> Seq<char> {
    match comment {
        Some(c) => styled(FIELD@, name) + "  "@ + styled(COMMENT@, "/* "@ + c + " */"@),
        None => styled(FIELD@, name),
    }
}

/// How many columns the name and comment take on screen.
pub open spec fn name_visible_len(name: Seq<char>, comment: Option<Seq<char>>) -> nat {
    match comment {
        Some(c) => utf8_len(name) + 2 + 3 + utf8_len(c) + 3,
        None => utf8_len(name),
    }
}

/// The `= value` column, the value in green.
pub open spec fn value_column_text(desc_len: nat, value: Option<Value>) -> Seq<char> {
    match value {
        Some(v) => spaces(pad_to(VALUE_COL as int, DESCRIPTOR_COL + desc_len)) + "= "@ + styled(
            VAL@,
            value_text(v),
        ),
        None => Seq::empty(),
    }
}

/// A fixed-width field line.
pub open spec fn fixed_field_line(
    depth: nat,
    name: Seq<char>,
    comment: Option<Seq<char>>,
    bits: u32,
    descriptor: Seq<char>,
    value: Option<Value>,
) -> Seq<char> {
    let width_str = dec_text(bits as nat);
    indent_text(depth) + name_text(name, comment) + spaces(
        pad_to(WIDTH_COL as int, depth * INDENT_WIDTH + name_visible_len(name, comment)),
    ) + width_str + spaces(pad_to(DESCRIPTOR_COL as int, WIDTH_COL + utf8_len(width_str)))
        + styled(DESC@, descriptor) + value_column_text(utf8_len(descriptor), value) + "\n"@
}

/// A variable-length field line.
pub open spec fn variable_field_line(
    depth: nat,
    name: Seq<char>,
    comment: Option<Seq<char>>,
    descriptor: Seq<char>,
    value: Option<Value>,
) -> Seq<char> {
    indent_text(depth) + name_text(name, comment) + spaces(
        pad_to(DESCRIPTOR_COL as int, depth * INDENT_WIDTH + name_visible_len(name, comment)),
    ) + styled(DESC@, descriptor) + value_column_text(utf8_len(descriptor), value) + "\n"@
}

/// Term annotations, dimmed: `  /* name: value, ... */`, or nothing.
pub open spec fn annotations_text(terms: Seq<TermAnnotation>) -> Seq<char> {
    if terms.len() == 0 {
        Seq::empty()
    } else {
        "  "@ + styled(COMMENT@, "/* "@ + terms_joined(terms) + " */"@)
    }
}

/// `(` ... `) {` around a condition or header, with dimmed punctuation.
pub open spec fn paren_open_brace(inner: Seq<char>) -> Seq<char> {
    styled(PUNCT@, "("@) + inner + styled(PUNCT@, ") {"@)
}

/// `name() {` or `name(params) {`.
pub open spec fn element_open_line(depth: nat, name: Seq<char>, params: Option<Seq<char>>) -> Seq<
    char,
> {
    match params {
        Some(p) => indent_text(depth) + styled(ELEM@, name) + paren_open_brace(p) + "\n"@,
        None => indent_text(depth) + styled(ELEM@, name) + styled(PUNCT@, "() {"@) + "\n"@,
    }
}

/// A closing brace, dimmed as punctuation.
pub open spec fn close_line(depth: nat) -> Seq<char> {
    indent_text(depth) + styled(PUNCT@, "}"@) + "\n"@
}

/// A closing brace of a branch: punctuation when taken, dimmed otherwise.
pub open spec fn close_branch_line(depth: nat, taken: bool) -> Seq<char> {
    if taken {
        close_line(depth)
    } else {
        indent_text(depth) + styled(DIM@, "}"@) + "\n"@
    }
}

/// `keyword (inner) {` with the keyword colored.
pub open spec fn keyword_block_open(keyword: Seq<char>, inner: Seq<char>) -> Seq<char> {
    styled(KW@, keyword) + " "@ + paren_open_brace(inner)
}

/// `if (condition) {`: colored when taken, dimmed as a whole otherwise.
pub open spec fn if_line(depth: nat, condition: Seq<char>, terms: Seq<TermAnnotation>, taken: bool) -> Seq<
    char,
> {
    if taken {
        indent_text(depth) + keyword_block_open("if"@, condition) + annotations_text(terms)
            + "\n"@
    } else {
        indent_text(depth) + styled(DIM@, "if ("@ + condition + ") {"@) + annotations_text(terms)
            + "\n"@
    }
}

/// `} else if (condition) {`: colored when taken, dimmed as a whole otherwise.
pub open spec fn else_if_line(
    depth: nat,
    condition: Seq<char>,
    terms: Seq<TermAnnotation>,
    taken: bool,
) -> Seq<char> {
    if taken {
        indent_text(depth) + styled(PUNCT@, "}"@) + " "@ + keyword_block_open("else if"@, condition)
            + annotations_text(terms) + "\n"@
    } else {
        indent_text(depth) + styled(DIM@, "} else if ("@ + condition + ") {"@) + annotations_text(
            terms,
        ) + "\n"@
    }
}

/// `} else {`: colored when taken, dimmed as a whole otherwise.
pub open spec fn else_line(depth: nat, taken: bool) -> Seq<char> {
    if taken {
        indent_text(depth) + styled(PUNCT@, "}"@) + " "@ + styled(KW@, "else"@) + " "@ + styled(
            PUNCT@,
            "{"@,
        ) + "\n"@
    } else {
        indent_text(depth) + styled(DIM@, "} else {"@) + "\n"@
    }
}

/// `for (header) {` with term annotations.
pub open spec fn for_line(depth: nat, header: Seq<char>, terms: Seq<TermAnnotation>) -> Seq<char> {
    indent_text(depth) + keyword_block_open("for"@, header) + annotations_text(terms) + "\n"@
}

/// `/* variable: index */`, dimmed.
pub open spec fn for_iteration_line(depth: nat, variable: Seq<char>, index: u64) -> Seq<char> {
    indent_text(depth) + styled(COMMENT@, "/* "@ + variable + ": "@ + dec_text(index as nat) + " */"@)
        + "\n"@
}

/// `while (condition) {`.
pub open spec fn while_line(depth: nat, condition: Seq<char>) -> Seq<char> {
    indent_text(depth) + keyword_block_open("while"@, condition) + "\n"@
}

/// `/* iteration: index */`, dimmed.
pub open spec fn iteration_line(depth: nat, index: u64) -> Seq<char> {
    indent_text(depth) + styled(COMMENT@, "/* iteration: "@ + dec_text(index as nat) + " */"@)
        + "\n"@
}

/// `do {`.
pub open spec fn do_line(depth: nat) -> Seq<char> {
    indent_text(depth) + styled(KW@, "do"@) + " "@ + styled(PUNCT@, "{"@) + "\n"@
}

/// `} while (condition)`.
pub open spec fn do_while_end_line(depth: nat, condition: Seq<char>) -> Seq<char> {
    indent_text(depth) + styled(PUNCT@, "}"@) + " "@ + styled(KW@, "while"@) + " "@ + styled(
        PUNCT@,
        "("@,
    ) + condition + styled(PUNCT@, ")"@) + "\n"@
}

/// `switch (expression) {` with term annotations.
pub open spec fn switch_line(depth: nat, expression: Seq<char>, terms: Seq<TermAnnotation>) -> Seq<
    char,
> {
    indent_text(depth) + keyword_block_open("switch"@, expression) + annotations_text(terms) + "\n"@
}

/// `case label:`: keyword colored when taken, the line dimmed otherwise.
pub open spec fn case_line(depth: nat, label: Seq<char>, taken: bool) -> Seq<char> {
    if taken {
        indent_text(depth) + styled(KW@, "case"@) + " "@ + label + ":"@ + "\n"@
    } else {
        indent_text(depth) + styled(DIM@, "case "@ + label + ":"@) + "\n"@
    }
}

/// `break`: colored when the case was taken, dimmed otherwise.
pub open spec fn break_line(depth: nat, taken: bool) -> Seq<char> {
    if taken {
        indent_text(depth) + styled(KW@, "break"@) + "\n"@
    } else {
        indent_text(depth) + styled(DIM@, "break"@) + "\n"@
    }
}

/// Padding before the `/* = value */` of an assignment.
pub open spec fn assignment_pad(depth: int, expr_len: int) -> nat {
    crate::render::text::assignment_pad(depth, expr_len)
}

/// An assignment, with its computed value as a dimmed trailing comment.
pub open spec fn assignment_line(depth: nat, expression: Seq<char>, value: Option<Value>) -> Seq<
    char,
> {
    match value {
        Some(v) => indent_text(depth) + expression + spaces(
            assignment_pad(depth as int, utf8_len(expression) as int),
        ) + COMMENT@ + "/* = "@ + VAL@ + value_text(v) + COMMENT@ + " */"@ + RESET@ + "\n"@,
        None => indent_text(depth) + expression + "\n"@,
    }
}

/// `/* text */`, dimmed.
pub open spec fn comment_line(depth: nat, text: Seq<char>) -> Seq<char> {
    indent_text(depth) + styled(COMMENT@, "/* "@ + text + " */"@) + "\n"@
}

/// `...`.
pub open spec fn ellipsis_line(depth: nat) -> Seq<char> {
    indent_text(depth) + "...\n"@
}

/// Hex dump lines, each dimmed, at depth `depth`.
pub open spec fn dimmed_lines(depth: nat, lines: Seq<Seq<char>>) -> Seq<char>
    decreases lines.len(),
{
    if lines.len() == 0 {
        Seq::empty()
    } else {
        dimmed_lines(depth, lines.drop_last()) + indent_text(depth) + styled(DIM@, lines.last())
            + "\n"@
    }
}

/// The line of one table cell.
pub open spec fn cell_line(depth: nat, column: ColumnDef, value: Value, k: nat) -> Seq<char> {
    match column.bits {
        Some(b) => fixed_field_line(
            depth,
            cell_name(column.name@, k),
            None,
            b,
            column.descriptor@,
            Some(value),
        ),
        None => variable_field_line(
            depth,
            cell_name(column.name@, k),
            None,
            column.descriptor@,
            Some(value),
        ),
    }
}

/// The lines of the first `j` cells of row `k`.
pub open spec fn row_cell_lines(
    depth: nat,
    columns: Seq<ColumnDef>,
    row: Seq<Value>,
    k: nat,
    j: nat,
) -> Seq<char>
    decreases j,
{
    if j == 0 {
        Seq::empty()
    } else {
        row_cell_lines(depth, columns, row, k, (j - 1) as nat) + if j - 1 < row.len() {
            cell_line(depth, columns[j - 1], row[j - 1], k)
        } else {
            Seq::empty()
        }
    }
}

/// The first `n` rows of a table expanded into loop iterations.
pub open spec fn table_rows_text(depth: nat, columns: Seq<ColumnDef>, rows: Seq<Seq<Value>>, n: nat) -> Seq<
    char,
>
    decreases n,
{
    if n == 0 {
        Seq::empty()
    } else {
        table_rows_text(depth, columns, rows, (n - 1) as nat) + for_iteration_line(
            depth,
            "i"@,
            (n - 1) as u64,
        ) + row_cell_lines(depth, columns, rows[n - 1], (n - 1) as nat, columns.len())
    }
}

/// A field table expanded into a `for` loop with one iteration per row.
pub open spec fn field_table_text(depth: nat, columns: Seq<ColumnDef>, rows: Seq<Seq<Value>>) -> Seq<
    char,
> {
    for_line(depth, table_header_text(rows.len()), Seq::empty()) + table_rows_text(
        depth + 1,
        columns,
        rows,
        rows.len(),
    ) + close_line(depth)
}

// ── Line builders ───────────────────────────────────────────

/// Appends `text` in the style `code`, followed by a reset.
fn push_styled(line: &mut String, code: &str, text: &str)
    ensures
        final(line)@ == old(line)@ + styled(code@, text@),
{
    line.append(code);
    line.append(text);
    line.append(RESET);
}

/// Appends the bold name and its dimmed comment; returns the visible length.
fn push_name(line: &mut String, name: &str, comment: Option<&str>, col: usize, depth: usize) -> (pad: usize)
    requires
        col <= 100,
    ensures
        final(line)@ == old(line)@ + name_text(name@, opt_chars(comment)),
        pad == pad_to(col as int, depth * INDENT_WIDTH + name_visible_len(name@, opt_chars(comment))),
{
    push_styled(line, FIELD, name);
    let name_len = name.as_bytes().len();
    match comment {
        Some(c) => {
            line.append("  ");
            line.append(COMMENT);
            line.append("/* ");
            line.append(c);
            line.append(" */");
            line.append(RESET);
            let c_len = c.as_bytes().len();
            if name_len < col && c_len < col {
                pad_after_indent(col, depth, name_len + 8 + c_len)
            } else {
                1
            }
        },
        None => pad_after_indent(col, depth, name_len),
    }
}

/// Appends the `= value` column.
fn push_value_column(line: &mut String, desc_len: usize, value: Option<&Value>)
    ensures
        final(line)@ == old(line)@ + value_column_text(desc_len as nat, opt_value(value)),
{
    match value {
        Some(v) => {
            let padding3 = pad_after(VALUE_COL, DESCRIPTOR_COL, desc_len);
            push_spaces(line, padding3);
            line.append("= ");
            line.append(VAL);
            v.push_text(line);
            line.append(RESET);
        },
        None => {},
    }
}

/// Builds a fixed-width field line.
fn fixed_field_text(
    depth: usize,
    name: &str,
    comment: Option<&str>,
    bits: u32,
    descriptor: &str,
    value: Option<&Value>,
) -> (line: String)
    ensures
        line@ == fixed_field_line(
            depth as nat,
            name@,
            opt_chars(comment),
            bits,
            descriptor@,
            opt_value(value),
        ),
{
    let mut line = String::new();
    push_indent(&mut line, depth);
    let padding1 = push_name(&mut line, name, comment, WIDTH_COL, depth);
    push_spaces(&mut line, padding1);
    let mut width_str = String::new();
    push_decimal(&mut width_str, bits as u64);
    let ws: &str = width_str.as_str();
    line.append(ws);
    let padding2 = pad_after(DESCRIPTOR_COL, WIDTH_COL, ws.as_bytes().len());
    push_spaces(&mut line, padding2);
    push_styled(&mut line, DESC, descriptor);
    push_value_column(&mut line, descriptor.as_bytes().len(), value);
    line.append("\n");
    line
}

/// Builds a variable-length field line.
fn variable_field_text(
    depth: usize,
    name: &str,
    comment: Option<&str>,
    descriptor: &str,
    value: Option<&Value>,
) -> (line: String)
    ensures
        line@ == variable_field_line(
            depth as nat,
            name@,
            opt_chars(comment),
            descriptor@,
            opt_value(value),
        ),
{
    let mut line = String::new();
    push_indent(&mut line, depth);
    let padding1 = push_name(&mut line, name, comment, DESCRIPTOR_COL, depth);
    push_spaces(&mut line, padding1);
    push_styled(&mut line, DESC, descriptor);
    push_value_column(&mut line, descriptor.as_bytes().len(), value);
    line.append("\n");
    line
}

/// Builds the line of one table cell.
fn cell_text(depth: usize, column: &ColumnDef<'_>, value: &Value, k: usize) -> (line: String)
    ensures
        line@ == cell_line(depth as nat, *column, *value, k as nat),
{
    let mut name = String::new();
    name.append(column.name);
    name.append("[");
    push_decimal(&mut name, k as u64);
    name.append("]");
    match column.bits {
        Some(bits) => fixed_field_text(depth, name.as_str(), None, bits, column.descriptor, Some(value)),
        None => variable_field_text(depth, name.as_str(), None, column.descriptor, Some(value)),
    }
}

/// Appends the dimmed term annotations.
fn push_annotations(line: &mut String, terms: &[TermAnnotation<'_>])
    ensures
        final(line)@ == old(line)@ + annotations_text(terms@),
{
    if terms.len() != 0 {
        line.append("  ");
        line.append(COMMENT);
        line.append("/* ");
        push_terms_joined(line, terms);
        line.append(" */");
        line.append(RESET);
    }
}

/// Appends `(inner) {` with dimmed punctuation.
fn push_paren_open_brace(line: &mut String, inner: &str)
    ensures
        final(line)@ == old(line)@ + paren_open_brace(inner@),
{
    push_styled(line, PUNCT, "(");
    line.append(inner);
    push_styled(line, PUNCT, ") {");
}

/// Appends `keyword (inner) {`.
fn push_keyword_block_open(line: &mut String, keyword: &str, inner: &str)
    ensures
        final(line)@ == old(line)@ + keyword_block_open(keyword@, inner@),
{
    push_styled(line, KW, keyword);
    line.append(" ");
    push_paren_open_brace(line, inner);
}

/// Builds a closing-brace line for a branch.
fn close_branch_text(depth: usize, taken: bool) -> (line: String)
    ensures
        line@ == close_branch_line(depth as nat, taken),
{
    let mut line = String::new();
    push_indent(&mut line, depth);
    if taken {
        push_styled(&mut line, PUNCT, "}");
    } else {
        push_styled(&mut line, DIM, "}");
    }
    line.append("\n");
    line
}

/// Builds the dimmed hex dump lines.
fn hex_dump_text(depth: usize, data: &[u8]) -> (text: String)
    ensures
        text@ == dimmed_lines(depth as nat, hex_dump_lines(data@)),
{
    let lines = format_hex_dump(data);
    let ghost expected = hex_dump_lines(data@);
    let mut text = String::new();
    let n = lines.len();
    let mut i: usize = 0;
    while i < n
        invariant
            n == lines@.len(),
            n == expected.len(),
            forall|k: int| 0 <= k < n ==> (#[trigger] lines@[k])@ == expected[k],
            i <= n,
            text@ == dimmed_lines(depth as nat, expected.subrange(0, i as int)),
        decreases n - i,
    {
        push_indent(&mut text, depth);
        push_styled(&mut text, DIM, lines[i].as_str());
        text.append("\n");
        proof {
            let sub = expected.subrange(0, i + 1);
            assert(sub.drop_last() =~= expected.subrange(0, i as int));
            assert(sub.last() == lines@[i as int]@);
        }
        i = i + 1;
    }
    assert(expected.subrange(0, n as int) =~= expected);
    text
}

// ── The renderer ────────────────────────────────────────────

/// What the renderer remembers of each open block.
#[derive(Debug, Clone, Copy, PartialEq, Eq, Structural)]
pub enum BlockKind {
    Element,
    /// Tracks whether the most recent branch in this if/else chain was taken.
    If { taken: bool },
    For,
    While,
    DoWhile,
    Switch,
    Case { taken: bool },
}

impl BlockKind {
    /// The kind of block, without the branch flag.
    pub open spec fn tag(self) -> BlockTag {
        match self {
            BlockKind::Element => BlockTag::Element,
            BlockKind::If { .. } => BlockTag::If,
            BlockKind::For => BlockTag::For,
            BlockKind::While => BlockTag::While,
            BlockKind::DoWhile => BlockTag::DoWhile,
            BlockKind::Switch => BlockTag::Switch,
            BlockKind::Case { .. } => BlockTag::Case,
        }
    }

    /// Whether the block is a branch or case that was taken.
    pub open spec fn taken(self) -> bool {
        match self {
            BlockKind::If { taken } => taken,
            BlockKind::Case { taken } => taken,
            _ => false,
        }
    }
}

/// An untaken `else` is `} else {` in the dim style as a whole, and differs
/// from a taken one.
#[verifier::spinoff_prover]
pub proof fn lemma_untaken_else_dimmed(depth: nat)
    ensures
        else_line(depth, false) == indent_text(depth) + DIM@ + "} else {"@ + RESET@ + "\n"@,
        else_line(depth, false) != else_line(depth, true),
{
    reveal_strlit("\x1b[2m");
    reveal_strlit("\x1b[0m");
    reveal_strlit("}");
    reveal_strlit("} else {");
    let i = indent_text(depth).len() as int;
    assert(else_line(depth, false) =~= indent_text(depth) + DIM@ + "} else {"@ + RESET@ + "\n"@);
    assert(else_line(depth, true)[i + 5] == '\x1b');
    assert(else_line(depth, false)[i + 5] == ' ');
}

/// An untaken `case` and its `break` are their plain text in the dim style as
/// a whole, and differ from taken ones.
#[verifier::spinoff_prover]
pub proof fn lemma_untaken_case_dimmed(depth: nat, label: Seq<char>)
    ensures
        case_line(depth, label, false) == indent_text(depth) + DIM@ + "case "@ + label + ":"@ + RESET@
            + "\n"@,
        case_line(depth, label, false) != case_line(depth, label, true),
        break_line(depth, false) == indent_text(depth) + DIM@ + "break"@ + RESET@ + "\n"@,
        break_line(depth, false) != break_line(depth, true),
{
    reveal_strlit("\x1b[2m");
    reveal_strlit("\x1b[1;35m");
    let i = indent_text(depth).len() as int;
    assert(case_line(depth, label, false) =~= indent_text(depth) + DIM@ + "case "@ + label + ":"@
        + RESET@ + "\n"@);
    assert(case_line(depth, label, true)[i + 2] == '1');
    assert(case_line(depth, label, false)[i + 2] == '2');
    assert(break_line(depth, false) =~= indent_text(depth) + DIM@ + "break"@ + RESET@ + "\n"@);
    assert(break_line(depth, true)[i + 2] == '1');
    assert(break_line(depth, false)[i + 2] == '2');
}

/// An untaken `if` begins with its plain head in the dim style, and differs
/// from a taken one.
#[verifier::spinoff_prover]
pub proof fn lemma_untaken_if_dimmed(depth: nat, condition: Seq<char>, terms: Seq<TermAnnotation>)
    ensures
        starts_with(
            if_line(depth, condition, terms, false),
            indent_text(depth) + DIM@ + "if ("@ + condition + ") {"@ + RESET@,
        ),
        if_line(depth, condition, terms, false) != if_line(depth, condition, terms, true),
{
    reveal_strlit("\x1b[2m");
    reveal_strlit("\x1b[1;35m");
    let i = indent_text(depth).len() as int;
    let head = indent_text(depth) + DIM@ + "if ("@ + condition + ") {"@ + RESET@;
    assert(if_line(depth, condition, terms, false) =~= head + (annotations_text(terms) + "\n"@));
    lemma_concat_ends(head, annotations_text(terms) + "\n"@);
    assert(if_line(depth, condition, terms, true)[i + 2] == '1');
    assert(if_line(depth, condition, terms, false)[i + 2] == '2');
}

/// An untaken `else if` begins with its plain head in the dim style, and
/// differs from a taken one.
#[verifier::spinoff_prover]
pub proof fn lemma_untaken_else_if_dimmed(depth: nat, condition: Seq<char>, terms: Seq<TermAnnotation>)
    ensures
        starts_with(
            else_if_line(depth, condition, terms, false),
            indent_text(depth) + DIM@ + "} else if ("@ + condition + ") {"@ + RESET@,
        ),
        else_if_line(depth, condition, terms, false) != else_if_line(depth, condition, terms, true),
{
    reveal_strlit("\x1b[2m");
    reveal_strlit("\x1b[0m");
    reveal_strlit("}");
    reveal_strlit("} else if (");
    let i = indent_text(depth).len() as int;
    let head = indent_text(depth) + DIM@ + "} else if ("@ + condition + ") {"@ + RESET@;
    assert(else_if_line(depth, condition, terms, false) =~= head + (annotations_text(terms) + "\n"@));
    lemma_concat_ends(head, annotations_text(terms) + "\n"@);
    assert(else_if_line(depth, condition, terms, true)[i + 5] == '\x1b');
    assert(else_if_line(depth, condition, terms, false)[i + 5] == ' ');
}

/// A colored field line begins with the indentation and the field's name in
/// bold, and a field with a value ends with the value in green.
#[verifier::spinoff_prover]
pub proof fn lemma_field_line_colors(
    depth: nat,
    name: Seq<char>,
    comment: Option<Seq<char>>,
    bits: u32,
    descriptor: Seq<char>,
    value: Option<Value>,
)
    ensures
        starts_with(
            fixed_field_line(depth, name, comment, bits, descriptor, value),
            indent_text(depth) + FIELD@ + name + RESET@,
        ),
        starts_with(
            variable_field_line(depth, name, comment, descriptor, value),
            indent_text(depth) + FIELD@ + name + RESET@,
        ),
        value matches Some(v) ==> ends_with(
            fixed_field_line(depth, name, comment, bits, descriptor, value),
            VAL@ + value_text(v) + RESET@ + "\n"@,
        ),
        value matches Some(v) ==> ends_with(
            variable_field_line(depth, name, comment, descriptor, value),
            VAL@ + value_text(v) + RESET@ + "\n"@,
        ),
{
    let head = indent_text(depth) + FIELD@ + name + RESET@;
    let x0 = indent_text(depth) + name_text(name, comment);
    let rest = match comment {
        Some(c) => "  "@ + styled(COMMENT@, "/* "@ + c + " */"@),
        None => Seq::<char>::empty(),
    };
    assert(x0 =~= head + rest);
    lemma_concat_ends(head, rest);
    let pad_f = spaces(pad_to(WIDTH_COL as int, depth * INDENT_WIDTH + name_visible_len(name, comment)));
    let w = dec_text(bits as nat);
    let pad_d = spaces(pad_to(DESCRIPTOR_COL as int, WIDTH_COL + utf8_len(w)));
    let vc = value_column_text(utf8_len(descriptor), value);
    let f1 = x0 + pad_f;
    let f2 = f1 + w;
    let f3 = f2 + pad_d;
    let f4 = f3 + styled(DESC@, descriptor);
    let f5 = f4 + vc;
    lemma_starts_extend(x0, pad_f, head);
    lemma_starts_extend(f1, w, head);
    lemma_starts_extend(f2, pad_d, head);
    lemma_starts_extend(f3, styled(DESC@, descriptor), head);
    lemma_starts_extend(f4, vc, head);
    lemma_starts_extend(f5, "\n"@, head);
    assert(fixed_field_line(depth, name, comment, bits, descriptor, value) == f5 + "\n"@);
    let pad_v = spaces(pad_to(DESCRIPTOR_COL as int, depth * INDENT_WIDTH + name_visible_len(name, comment)));
    let v1 = x0 + pad_v;
    let v2 = v1 + styled(DESC@, descriptor);
    let v3 = v2 + vc;
    lemma_starts_extend(x0, pad_v, head);
    lemma_starts_extend(v1, styled(DESC@, descriptor), head);
    lemma_starts_extend(v2, vc, head);
    lemma_starts_extend(v3, "\n"@, head);
    assert(variable_field_line(depth, name, comment, descriptor, value) == v3 + "\n"@);
    match value {
        Some(v) => {
            let tail = VAL@ + value_text(v) + RESET@ + "\n"@;
            let front = spaces(pad_to(VALUE_COL as int, DESCRIPTOR_COL + utf8_len(descriptor))) + "= "@;
            assert(vc + "\n"@ =~= front + tail);
            assert(f5 + "\n"@ =~= (f4 + front) + tail);
            lemma_concat_ends(f4 + front, tail);
            assert(v3 + "\n"@ =~= (v2 + front) + tail);
            lemma_concat_ends(v2 + front, tail);
        },
        None => {},
    }
}

/// The indentation and a colored keyword head begin with the keyword in color.
proof fn lemma_keyword_head(ind: Seq<char>, keyword: Seq<char>, inner: Seq<char>)
    ensures
        starts_with(ind + keyword_block_open(keyword, inner), ind + KW@ + keyword + RESET@),
{
    let head = ind + KW@ + keyword + RESET@;
    let rest = " "@ + paren_open_brace(inner);
    assert(ind + keyword_block_open(keyword, inner) =~= head + rest);
    lemma_concat_ends(head, rest);
}

/// An element's name is shown in color.
#[verifier::spinoff_prover]
pub proof fn lemma_element_name_colored(depth: nat, name: Seq<char>, params: Option<Seq<char>>)
    ensures
        starts_with(element_open_line(depth, name, params), indent_text(depth) + ELEM@ + name + RESET@),
{
    let e = indent_text(depth) + ELEM@ + name + RESET@;
    match params {
        Some(p) => {
            let t = paren_open_brace(p) + "\n"@;
            assert(element_open_line(depth, name, params) =~= e + t);
            lemma_concat_ends(e, t);
        },
        None => {
            let t = styled(PUNCT@, "() {"@) + "\n"@;
            assert(element_open_line(depth, name, params) =~= e + t);
            lemma_concat_ends(e, t);
        },
    }
}

/// A taken `if`, and every `for`, `while` and `switch`, shows its keyword in color.
#[verifier::spinoff_prover]
pub proof fn lemma_keywords_colored(depth: nat, condition: Seq<char>, terms: Seq<TermAnnotation>)
    ensures
        starts_with(if_line(depth, condition, terms, true), indent_text(depth) + KW@ + "if"@ + RESET@),
        starts_with(for_line(depth, condition, terms), indent_text(depth) + KW@ + "for"@ + RESET@),
        starts_with(while_line(depth, condition), indent_text(depth) + KW@ + "while"@ + RESET@),
        starts_with(switch_line(depth, condition, terms), indent_text(depth) + KW@ + "switch"@ + RESET@),
{
    let ind = indent_text(depth);
    let ann = annotations_text(terms);
    lemma_keyword_head(ind, "if"@, condition);
    lemma_starts_extend(ind + keyword_block_open("if"@, condition), ann, ind + KW@ + "if"@ + RESET@);
    lemma_starts_extend(
        ind + keyword_block_open("if"@, condition) + ann,
        "\n"@,
        ind + KW@ + "if"@ + RESET@,
    );
    lemma_keyword_head(ind, "for"@, condition);
    lemma_starts_extend(ind + keyword_block_open("for"@, condition), ann, ind + KW@ + "for"@ + RESET@);
    lemma_starts_extend(
        ind + keyword_block_open("for"@, condition) + ann,
        "\n"@,
        ind + KW@ + "for"@ + RESET@,
    );
    lemma_keyword_head(ind, "while"@, condition);
    lemma_starts_extend(
        ind + keyword_block_open("while"@, condition),
        "\n"@,
        ind + KW@ + "while"@ + RESET@,
    );
    lemma_keyword_head(ind, "switch"@, condition);
    lemma_starts_extend(
        ind + keyword_block_open("switch"@, condition),
        ann,
        ind + KW@ + "switch"@ + RESET@,
    );
    lemma_starts_extend(
        ind + keyword_block_open("switch"@, condition) + ann,
        "\n"@,
        ind + KW@ + "switch"@ + RESET@,
    );
}

/// Comments and iteration markers are dimmed as a whole.
#[verifier::spinoff_prover]
pub proof fn lemma_comments_dimmed(depth: nat, text: Seq<char>, variable: Seq<char>, index: u64)
    ensures
        comment_line(depth, text) == indent_text(depth) + COMMENT@ + "/* "@ + text + " */"@ + RESET@
            + "\n"@,
        for_iteration_line(depth, variable, index) == indent_text(depth) + COMMENT@ + "/* "@
            + variable + ": "@ + dec_text(index as nat) + " */"@ + RESET@ + "\n"@,
        iteration_line(depth, index) == indent_text(depth) + COMMENT@ + "/* iteration: "@ + dec_text(
            index as nat,
        ) + " */"@ + RESET@ + "\n"@,
{
    assert(comment_line(depth, text) =~= indent_text(depth) + COMMENT@ + "/* "@ + text + " */"@
        + RESET@ + "\n"@);
    assert(for_iteration_line(depth, variable, index) =~= indent_text(depth) + COMMENT@ + "/* "@
        + variable + ": "@ + dec_text(index as nat) + " */"@ + RESET@ + "\n"@);
    assert(iteration_line(depth, index) =~= indent_text(depth) + COMMENT@ + "/* iteration: "@
        + dec_text(index as nat) + " */"@ + RESET@ + "\n"@);
}

// ── A whole description in color ────────────────────────────

/// Terms given as names and values, dimmed, as a trailing comment.
pub open spec fn pairs_dimmed_text(terms: Seq<(Seq<char>, Value)>) -> Seq<char> {
    if terms.len() == 0 {
        Seq::empty()
    } else {
        "  "@ + styled(COMMENT@, "/* "@ + pairs_joined(terms) + " */"@)
    }
}

/// Term annotations read as names and values give the same dimmed comment.
pub proof fn lemma_pairs_dimmed(terms: Seq<TermAnnotation<'_>>)
    ensures
        pairs_dimmed_text(term_pairs(terms)) == annotations_text(terms),
{
    lemma_pairs_joined(terms);
}

/// The open blocks, with their branch flags, after one call that succeeded.
pub open spec fn kind_step(blocks: Seq<BlockKind>, e: SyntaxEvent) -> Seq<BlockKind> {
    match e {
        SyntaxEvent::BeginElement { .. } => blocks.push(BlockKind::Element),
        SyntaxEvent::BeginIf { taken, .. } => blocks.push(BlockKind::If { taken }),
        SyntaxEvent::BeginElseIf { taken, .. } => blocks.update(
            blocks.len() - 1,
            BlockKind::If { taken },
        ),
        SyntaxEvent::BeginElse { taken } => blocks.update(blocks.len() - 1, BlockKind::If { taken }),
        SyntaxEvent::BeginFor { .. } => blocks.push(BlockKind::For),
        SyntaxEvent::BeginWhile { .. } => blocks.push(BlockKind::While),
        SyntaxEvent::BeginDoWhile => blocks.push(BlockKind::DoWhile),
        SyntaxEvent::BeginSwitch { .. } => blocks.push(BlockKind::Switch),
        SyntaxEvent::BeginCase { taken, .. } => blocks.push(BlockKind::Case { taken }),
        SyntaxEvent::EndElement => blocks.drop_last(),
        SyntaxEvent::EndIf => blocks.drop_last(),
        SyntaxEvent::EndFor => blocks.drop_last(),
        SyntaxEvent::EndWhile => blocks.drop_last(),
        SyntaxEvent::EndDoWhile { .. } => blocks.drop_last(),
        SyntaxEvent::EndSwitch => blocks.drop_last(),
        SyntaxEvent::EndCase => blocks.drop_last(),
        _ => blocks,
    }
}

/// The open blocks, with their branch flags, after a description made from
/// an empty start.
pub open spec fn kinds_after(events: Seq<SyntaxEvent>) -> Seq<BlockKind>
    decreases events.len(),
{
    if events.len() == 0 {
        Seq::empty()
    } else {
        kind_step(kinds_after(events.drop_last()), events.last())
    }
}

/// The colored text of one described item, made with `blocks` open.
pub open spec fn ansi_event_line(blocks: Seq<BlockKind>, e: SyntaxEvent) -> Seq<char> {
    let open = blocks.len();
    let outer = (open - 1) as nat;
    match e {
        SyntaxEvent::BeginElement { name, params } => element_open_line(open, name, params),
        SyntaxEvent::EndElement => close_line(outer),
        SyntaxEvent::FixedWidthField { name, bits, descriptor, value, comment } => fixed_field_line(
            open,
            name,
            comment,
            bits,
            descriptor,
            value,
        ),
        SyntaxEvent::VariableLengthField { name, descriptor, value, comment } => variable_field_line(
            open,
            name,
            comment,
            descriptor,
            value,
        ),
        SyntaxEvent::BitPattern { name, bits, descriptor, value } => fixed_field_line(
            open,
            name,
            None,
            bits,
            descriptor,
            Some(value),
        ),
        SyntaxEvent::RawBytes { data } => dimmed_lines(open, hex_dump_lines(data)),
        SyntaxEvent::BeginIf { condition, terms, taken } => if taken {
            indent_text(open) + keyword_block_open("if"@, condition) + pairs_dimmed_text(terms)
                + "\n"@
        } else {
            indent_text(open) + styled(DIM@, "if ("@ + condition + ") {"@) + pairs_dimmed_text(terms)
                + "\n"@
        },
        SyntaxEvent::BeginElseIf { condition, terms, taken } => if taken {
            indent_text(outer) + styled(PUNCT@, "}"@) + " "@ + keyword_block_open(
                "else if"@,
                condition,
            ) + pairs_dimmed_text(terms) + "\n"@
        } else {
            indent_text(outer) + styled(DIM@, "} else if ("@ + condition + ") {"@)
                + pairs_dimmed_text(terms) + "\n"@
        },
        SyntaxEvent::BeginElse { taken } => else_line(outer, taken),
        SyntaxEvent::EndIf => close_branch_line(outer, blocks.last().taken()),
        SyntaxEvent::BeginFor { header, terms } => indent_text(open) + keyword_block_open(
            "for"@,
            header,
        ) + pairs_dimmed_text(terms) + "\n"@,
        SyntaxEvent::ForIteration { variable, index } => for_iteration_line(open, variable, index),
        SyntaxEvent::EndFor => close_line(outer),
        SyntaxEvent::BeginWhile { condition } => while_line(open, condition),
        SyntaxEvent::WhileIteration { index } => iteration_line(open, index),
        SyntaxEvent::EndWhile => close_line(outer),
        SyntaxEvent::BeginDoWhile => do_line(open),
        SyntaxEvent::DoWhileIteration { index } => iteration_line(open, index),
        SyntaxEvent::EndDoWhile { condition } => do_while_end_line(outer, condition),
        SyntaxEvent::BeginSwitch { expression, terms } => indent_text(open) + keyword_block_open(
            "switch"@,
            expression,
        ) + pairs_dimmed_text(terms) + "\n"@,
        SyntaxEvent::BeginCase { label, taken } => case_line(open, label, taken),
        SyntaxEvent::EndCase => break_line(open, blocks.last().taken()),
        SyntaxEvent::EndSwitch => close_line(outer),
        SyntaxEvent::Assignment { expression, computed_value } => assignment_line(
            open,
            expression,
            computed_value,
        ),
        SyntaxEvent::Comment { text } => comment_line(open, text),
        SyntaxEvent::Ellipsis => ellipsis_line(open),
    }
}

/// The colored text of a whole description made from an empty start.
pub open spec fn ansi_text(events: Seq<SyntaxEvent>) -> Seq<char>
    decreases events.len(),
{
    if events.len() == 0 {
        Seq::empty()
    } else {
        ansi_text(events.drop_last()) + ansi_event_line(
            kinds_after(events.drop_last()),
            events.last(),
        )
    }
}

/// ANSI-colored renderer that writes MPEG syntax with color codes.
///
/// Each call hands the whole text it produces (a line, or the lines of a hex
/// dump) to the sink in one `write_bytes` call; `field_table` makes one such
/// call per line of the loop it expands to.
pub struct AnsiRenderer<W> {
    writer: W,
    depth: usize,
    block_stack: Vec<BlockKind>,
    /// The syntax items described so far.
    log: Ghost<Seq<SyntaxEvent>>,
    /// What the sink held when the renderer was made.
    start: Ghost<Seq<u8>>,
    /// No write has failed yet.
    intact: Ghost<bool>,
}

impl<W: ByteSink> AnsiRenderer<W> {
    /// Each open block indents its contents by one level.
    pub proof fn lemma_depth_is_nesting(&self)
        requires
            self.well_formed(),
        ensures
            self.depth() == self.open_blocks().len(),
    {
    }

    /// Everything written to the sink so far.
    pub closed spec fn output(&self) -> Seq<u8> {
        self.writer.written()
    }

    /// Whether the sink, as it stands, may answer `r` to a write of `bytes`.
    pub closed spec fn sink_answers(&self, bytes: Seq<u8>, r: Result<(), TextRenderError>) -> bool {
        self.writer.answers(bytes, r)
    }

    /// The current nesting depth (indentation level).
    pub closed spec fn depth(&self) -> nat {
        self.depth as nat
    }

    /// The open blocks, with their branch flags.
    pub closed spec fn blocks(&self) -> Seq<BlockKind> {
        self.block_stack@
    }

    /// True when the nesting depth is the number of open blocks.
    pub closed spec fn consistent(&self) -> bool {
        self.depth == self.block_stack@.len()
    }

    /// What the sink held when the renderer was made.
    pub closed spec fn initial(&self) -> Seq<u8> {
        self.start@
    }

    /// True while no write has failed.
    pub closed spec fn intact(&self) -> bool {
        self.intact@
    }

    /// While no write has failed, the open blocks and the output are the ones
    /// that the description so far gives.
    pub closed spec fn faithful(&self) -> bool {
        self.intact@ ==> {
            &&& self.block_stack@ == kinds_after(self.log@)
            &&& W::tracks_output() ==> self.writer.written() == self.start@ + encode_utf8(
                ansi_text(self.log@),
            )
        }
    }

    /// While no write has failed, the open blocks are those that the
    /// description so far leaves open.
    pub proof fn lemma_blocks_follow_description(&self)
        requires
            self.well_formed(),
            self.intact(),
        ensures
            self.blocks() == kinds_after(self.described()),
    {
    }

    /// Whether the innermost open block is a taken branch or case.
    pub open spec fn top_taken(&self) -> bool {
        self.blocks().last().taken()
    }

    pub fn new(writer: W) -> (r: Self)
        ensures
            r.described() == Seq::<SyntaxEvent>::empty(),
            r.output() == writer.written(),
            r.depth() == 0,
            r.well_formed(),
            r.blocks() == Seq::<BlockKind>::empty(),
            r.initial() == writer.written(),
            r.intact(),
    {
        let ghost start = writer.written();
        let r = AnsiRenderer {
            writer,
            depth: 0,
            block_stack: Vec::new(),
            log: Ghost(Seq::empty()),
            start: Ghost(start),
            intact: Ghost(true),
        };
        assert(r.writer.written() =~= start + encode_utf8(ansi_text(Seq::empty())));
        r
    }

    /// Get the underlying writer back. While no write has failed, it holds
    /// what it held at the start followed by the colored text of everything
    /// described, in order.
    pub fn into_inner(self) -> (w: W)
        ensures
            w.written() == self.output(),
            self.well_formed() && W::tracks_output() && self.intact() ==> w.written()
                == self.initial() + encode_utf8(ansi_text(self.described())),
    {
        self.writer
    }

    /// Recording `item` after a description whose text the sink held keeps
    /// the renderer faithful once the item's line is written and its block
    /// change is made.
    proof fn lemma_record(&self, before: Seq<SyntaxEvent>, item: SyntaxEvent, line: Seq<char>, held: Seq<u8>)
        requires
            self.log@ == before.push(item),
            self.intact@ ==> self.block_stack@ == kind_step(kinds_after(before), item),
            self.intact@ ==> line == ansi_event_line(kinds_after(before), item),
            self.intact@ && W::tracks_output() ==> held == self.start@ + encode_utf8(ansi_text(before)),
            self.intact@ && W::tracks_output() ==> self.writer.written() == held + encode_utf8(line),
        ensures
            self.faithful(),
    {
        let l = self.log@;
        assert(l.drop_last() =~= before);
        if self.intact@ && W::tracks_output() {
            crate::render::lemma_encode_utf8_concat(ansi_text(before), line);
            assert(self.writer.written() =~= self.start@ + encode_utf8(ansi_text(l)));
        }
    }

    /// Writes `line`, the text of `item`, keeping the nesting unchanged.
    fn put(&mut self, line: &String, item: Ghost<SyntaxEvent>) -> (r: Result<(), TextRenderError>)
        requires
            old(self).intact@ ==> old(self).block_stack@ == kind_step(kinds_after(old(self).log@), item@),
            old(self).intact@ ==> line@ == ansi_event_line(kinds_after(old(self).log@), item@),
            old(self).intact@ && W::tracks_output() ==> old(self).writer.written() == old(self).start@
                + encode_utf8(ansi_text(old(self).log@)),
        ensures
            old(self).writer.answers(encode_utf8(line@), r),
            final(self).log@ == old(self).log@.push(item@),
            final(self).intact@ == (old(self).intact@ && r is Ok),
            final(self).start == old(self).start,
            final(self).faithful(),
            final(self).depth == old(self).depth,
            final(self).block_stack == old(self).block_stack,
            W::tracks_output() && r is Ok ==> final(self).output() == old(self).output() + encode_utf8(line@),
            W::never_fails() ==> r is Ok,
    {
        let r = emit(&mut self.writer, line);
        self.log = Ghost(self.log@.push(item@));
        let ghost ok: bool = r is Ok;
        self.intact = Ghost(if ok { self.intact@ } else { false });
        proof {
            self.lemma_record(old(self).log@, item@, line@, old(self).writer.written());
        }
        r
    }

    /// Writes `line`, the text of `item`, then opens `block` one level deeper.
    fn put_open(&mut self, line: &String, block: BlockKind, item: Ghost<SyntaxEvent>) -> (r: Result<(), TextRenderError>)
        requires
            old(self).consistent(),
            old(self).faithful(),
            kind_step(old(self).block_stack@, item@) == old(self).block_stack@.push(block),
            old(self).intact@ ==> line@ == ansi_event_line(old(self).block_stack@, item@),
        ensures
            old(self).writer.answers(encode_utf8(line@), r),
            final(self).log@ == old(self).log@.push(item@),
            final(self).intact@ == (old(self).intact@ && r is Ok),
            final(self).start == old(self).start,
            final(self).faithful(),
            final(self).consistent(),
            W::tracks_output() && r is Ok ==> final(self).output() == old(self).output() + encode_utf8(line@),
            r is Ok ==> final(self).blocks() == old(self).blocks().push(block),
            r is Err ==> final(self).blocks() == old(self).blocks(),
            W::never_fails() ==> r is Ok,
    {
        let r = emit(&mut self.writer, line);
        self.log = Ghost(self.log@.push(item@));
        let ghost ok: bool = r is Ok;
        self.intact = Ghost(if ok { self.intact@ } else { false });
        if r.is_ok() {
            self.block_stack.push(block);
            self.depth = self.block_stack.len();
            proof {
                self.lemma_record(old(self).log@, item@, line@, old(self).writer.written());
            }
        }
        r
    }

    /// Closes the innermost block, returning it.
    fn close(&mut self) -> (b: BlockKind)
        requires
            old(self).consistent(),
            old(self).blocks().len() > 0,
        ensures
            final(self).writer == old(self).writer,
            final(self).log == old(self).log,
            final(self).start == old(self).start,
            final(self).intact == old(self).intact,
            b == old(self).blocks().last(),
            final(self).blocks() == old(self).blocks().drop_last(),
            final(self).depth() == old(self).depth() - 1,
            final(self).consistent(),
            final(self).output() == old(self).output(),
    {
        let b = self.block_stack.pop().unwrap();
        self.depth = self.depth - 1;
        b
    }
}

impl<W: ByteSink> SyntaxWrite for AnsiRenderer<W> {
    type Error = TextRenderError;

    closed spec fn well_formed(&self) -> bool {
        self.consistent() && self.faithful()
    }

    closed spec fn described(&self) -> Seq<SyntaxEvent> {
        self.log@
    }

    closed spec fn open_blocks(&self) -> Seq<BlockTag> {
        self.block_stack@.map_values(|b: BlockKind| b.tag())
    }

    fn begin_element(&mut self, name: &str, params: Option<&str>) -> (r: Result<(), TextRenderError>)
        ensures
            final(self).intact() == (old(self).intact() && r is Ok),
            final(self).initial() == old(self).initial(),
            W::tracks_output() && r is Ok ==> final(self).output() == old(self).output() + encode_utf8(
                element_open_line(old(self).depth(), name@, opt_chars(params)),
            ),
            old(self).sink_answers(
                encode_utf8(element_open_line(old(self).depth(), name@, opt_chars(params))),
                r,
            ),
            r is Ok ==> final(self).blocks() == old(self).blocks().push(BlockKind::Element),
            W::never_fails() ==> r is Ok,
    {
        let mut line = String::new();
        push_indent(&mut line, self.depth);
        push_styled(&mut line, ELEM, name);
        match params {
            Some(p) => push_paren_open_brace(&mut line, p),
            None => push_styled(&mut line, PUNCT, "() {"),
        }
        line.append("\n");
        let r = self.put_open(&line, BlockKind::Element, Ghost(SyntaxEvent::BeginElement { name: name@, params: opt_text(params) }));
        assert(self.open_blocks() =~= old(self).open_blocks().push(BlockTag::Element) || r is Err);
        assert(self.open_blocks() =~= old(self).open_blocks() || r is Ok);
        r
    }

    fn end_element(&mut self) -> (r: Result<(), TextRenderError>)
        ensures
            final(self).intact() == (old(self).intact() && r is Ok),
            final(self).initial() == old(self).initial(),
            W::tracks_output() && r is Ok ==> final(self).output() == old(self).output() + encode_utf8(
                close_line((old(self).depth() - 1) as nat),
            ),
            old(self).sink_answers(
                encode_utf8(close_line((old(self).depth() - 1) as nat)),
                r,
            ),
            final(self).blocks() == old(self).blocks().drop_last(),
            W::never_fails() ==> r is Ok,
    {
        self.close();
        assert(self.open_blocks() =~= old(self).open_blocks().drop_last());
        let mut line = String::new();
        push_indent(&mut line, self.depth);
        push_styled(&mut line, PUNCT, "}");
        line.append("\n");
        self.put(&line, Ghost(SyntaxEvent::EndElement))
    }

    fn fixed_width_field(&mut self, field: &FixedWidthField<'_>) -> (r: Result<(), TextRenderError>)
        ensures
            final(self).intact() == (old(self).intact() && r is Ok),
            final(self).initial() == old(self).initial(),
            W::tracks_output() && r is Ok ==> final(self).output() == old(self).output() + encode_utf8(
                fixed_field_line(
                    old(self).depth(),
                    field.name@,
                    opt_chars(field.comment),
                    field.bits,
                    field.descriptor@,
                    field.value,
                ),
            ),
            old(self).sink_answers(
                encode_utf8(
                    fixed_field_line(
                        old(self).depth(),
                        field.name@,
                        opt_chars(field.comment),
                        field.bits,
                        field.descriptor@,
                        field.value,
                    ),
                ),
                r,
            ),
            final(self).blocks() == old(self).blocks(),
            W::never_fails() ==> r is Ok,
    {
        let line = fixed_field_text(
            self.depth,
            field.name,
            field.comment,
            field.bits,
            field.descriptor,
            field.value.as_ref(),
        );
        self.put(&line, Ghost(fixed_event(*field)))
    }

    fn variable_length_field(&mut self, field: &VariableLengthField<'_>) -> (r: Result<(), TextRenderError>)
        ensures
            final(self).intact() == (old(self).intact() && r is Ok),
            final(self).initial() == old(self).initial(),
            W::tracks_output() && r is Ok ==> final(self).output() == old(self).output() + encode_utf8(
                variable_field_line(
                    old(self).depth(),
                    field.name@,
                    opt_chars(field.comment),
                    field.descriptor@,
                    field.value,
                ),
            ),
            old(self).sink_answers(
                encode_utf8(
                    variable_field_line(
                        old(self).depth(),
                        field.name@,
                        opt_chars(field.comment),
                        field.descriptor@,
                        field.value,
                    ),
                ),
                r,
            ),
            final(self).blocks() == old(self).blocks(),
            W::never_fails() ==> r is Ok,
    {
        let line = variable_field_text(
            self.depth,
            field.name,
            field.comment,
            field.descriptor,
            field.value.as_ref(),
        );
        self.put(&line, Ghost(variable_event(*field)))
    }

    fn bit_pattern(&mut self, field: &BitPatternField<'_>) -> (r: Result<(), TextRenderError>)
        ensures
            final(self).intact() == (old(self).intact() && r is Ok),
            final(self).initial() == old(self).initial(),
            W::tracks_output() && r is Ok ==> final(self).output() == old(self).output() + encode_utf8(
                fixed_field_line(
                    old(self).depth(),
                    field.name@,
                    None,
                    field.bits,
                    field.descriptor@,
                    Some(field.value),
                ),
            ),
            old(self).sink_answers(
                encode_utf8(
                    fixed_field_line(
                        old(self).depth(),
                        field.name@,
                        None,
                        field.bits,
                        field.descriptor@,
                        Some(field.value),
                    ),
                ),
                r,
            ),
            final(self).blocks() == old(self).blocks(),
            W::never_fails() ==> r is Ok,
    {
        let line = fixed_field_text(
            self.depth,
            field.name,
            None,
            field.bits,
            field.descriptor,
            Some(&field.value),
        );
        self.put(&line, Ghost(bit_pattern_event(*field)))
    }

    fn raw_bytes(&mut self, data: &[u8]) -> (r: Result<(), TextRenderError>)
        ensures
            final(self).intact() == (old(self).intact() && r is Ok),
            final(self).initial() == old(self).initial(),
            W::tracks_output() && r is Ok ==> final(self).output() == old(self).output() + encode_utf8(
                dimmed_lines(old(self).depth(), hex_dump_lines(data@)),
            ),
            old(self).sink_answers(
                encode_utf8(dimmed_lines(old(self).depth(), hex_dump_lines(data@))),
                r,
            ),
            final(self).blocks() == old(self).blocks(),
            W::never_fails() ==> r is Ok,
    {
        let text = hex_dump_text(self.depth, data);
        self.put(&text, Ghost(SyntaxEvent::RawBytes { data: data@ }))
    }

    fn begin_if(&mut self, condition: &str, terms: &[TermAnnotation<'_>], taken: bool) -> (r: Result<(), TextRenderError>)
        ensures
            final(self).intact() == (old(self).intact() && r is Ok),
            final(self).initial() == old(self).initial(),
            W::tracks_output() && r is Ok ==> final(self).output() == old(self).output() + encode_utf8(
                if_line(old(self).depth(), condition@, terms@, taken),
            ),
            old(self).sink_answers(
                encode_utf8(if_line(old(self).depth(), condition@, terms@, taken)),
                r,
            ),
            r is Ok ==> final(self).blocks() == old(self).blocks().push(BlockKind::If { taken }),
            W::never_fails() ==> r is Ok,
    {
        proof {
            lemma_pairs_dimmed(terms@);
        }
        let mut line = String::new();
        push_indent(&mut line, self.depth);
        if taken {
            push_keyword_block_open(&mut line, "if", condition);
        } else {
            line.append(DIM);
            line.append("if (");
            line.append(condition);
            line.append(") {");
            line.append(RESET);
        }
        push_annotations(&mut line, terms);
        line.append("\n");
        assert(line@ =~= if_line(self.depth as nat, condition@, terms@, taken));
        let r = self.put_open(&line, BlockKind::If { taken }, Ghost(SyntaxEvent::BeginIf { condition: condition@, terms: term_pairs(terms@), taken }));
        assert(self.open_blocks() =~= old(self).open_blocks().push(BlockTag::If) || r is Err);
        assert(self.open_blocks() =~= old(self).open_blocks() || r is Ok);
        r
    }

    fn begin_else_if(&mut self, condition: &str, terms: &[TermAnnotation<'_>], taken: bool) -> (r: Result<(), TextRenderError>)
        ensures
            final(self).intact() == (old(self).intact() && r is Ok),
            final(self).initial() == old(self).initial(),
            r is Ok ==> final(self).depth() == old(self).depth(),
            r is Err ==> final(self).depth() == old(self).depth() - 1,
            W::tracks_output() && r is Ok ==> final(self).output() == old(self).output() + encode_utf8(
                else_if_line((old(self).depth() - 1) as nat, condition@, terms@, taken),
            ),
            old(self).sink_answers(
                encode_utf8(
                    else_if_line(
                        (old(self).depth() - 1) as nat,
                        condition@,
                        terms@,
                        taken,
                    ),
                ),
                r,
            ),
            r is Ok ==> final(self).blocks() == old(self).blocks().update(
                old(self).blocks().len() - 1,
                BlockKind::If { taken },
            ),
            r is Err ==> final(self).blocks() == old(self).blocks(),
            W::never_fails() ==> r is Ok,
    {
        proof {
            lemma_pairs_dimmed(terms@);
        }
        self.depth = self.depth - 1;
        let mut line = String::new();
        push_indent(&mut line, self.depth);
        if taken {
            push_styled(&mut line, PUNCT, "}");
            line.append(" ");
            push_keyword_block_open(&mut line, "else if", condition);
        } else {
            line.append(DIM);
            line.append("} else if (");
            line.append(condition);
            line.append(") {");
            line.append(RESET);
        }
        push_annotations(&mut line, terms);
        line.append("\n");
        assert(line@ =~= else_if_line(self.depth as nat, condition@, terms@, taken));
        let n = self.block_stack.len();
        let previous = self.block_stack[n - 1];
        self.block_stack.set(n - 1, BlockKind::If { taken });
        let r = self.put(&line, Ghost(SyntaxEvent::BeginElseIf { condition: condition@, terms: term_pairs(terms@), taken }));
        if r.is_ok() {
            self.depth = self.depth + 1;
        } else {
            self.block_stack.set(n - 1, previous);
            assert(self.block_stack@ =~= old(self).block_stack@);
        }
        assert(self.open_blocks() =~= old(self).open_blocks());
        r
    }

    fn begin_else(&mut self, taken: bool) -> (r: Result<(), TextRenderError>)
        ensures
            final(self).intact() == (old(self).intact() && r is Ok),
            final(self).initial() == old(self).initial(),
            r is Ok ==> final(self).depth() == old(self).depth(),
            r is Err ==> final(self).depth() == old(self).depth() - 1,
            W::tracks_output() && r is Ok ==> final(self).output() == old(self).output() + encode_utf8(
                else_line((old(self).depth() - 1) as nat, taken),
            ),
            old(self).sink_answers(
                encode_utf8(else_line((old(self).depth() - 1) as nat, taken)),
                r,
            ),
            r is Ok ==> final(self).blocks() == old(self).blocks().update(
                old(self).blocks().len() - 1,
                BlockKind::If { taken },
            ),
            r is Err ==> final(self).blocks() == old(self).blocks(),
            W::never_fails() ==> r is Ok,
    {
        self.depth = self.depth - 1;
        let mut line = String::new();
        push_indent(&mut line, self.depth);
        if taken {
            push_styled(&mut line, PUNCT, "}");
            line.append(" ");
            push_styled(&mut line, KW, "else");
            line.append(" ");
            push_styled(&mut line, PUNCT, "{");
        } else {
            push_styled(&mut line, DIM, "} else {");
        }
        line.append("\n");
        let n = self.block_stack.len();
        let previous = self.block_stack[n - 1];
        self.block_stack.set(n - 1, BlockKind::If { taken });
        let r = self.put(&line, Ghost(SyntaxEvent::BeginElse { taken }));
        if r.is_ok() {
            self.depth = self.depth + 1;
        } else {
            self.block_stack.set(n - 1, previous);
            assert(self.block_stack@ =~= old(self).block_stack@);
        }
        assert(self.open_blocks() =~= old(self).open_blocks());
        r
    }

    fn end_if(&mut self) -> (r: Result<(), TextRenderError>)
        ensures
            final(self).intact() == (old(self).intact() && r is Ok),
            final(self).initial() == old(self).initial(),
            W::tracks_output() && r is Ok ==> final(self).output() == old(self).output() + encode_utf8(
                close_branch_line((old(self).depth() - 1) as nat, old(self).top_taken()),
            ),
            old(self).sink_answers(
                encode_utf8(
                    close_branch_line(
                        (old(self).depth() - 1) as nat,
                        old(self).top_taken(),
                    ),
                ),
                r,
            ),
            final(self).blocks() == old(self).blocks().drop_last(),
            W::never_fails() ==> r is Ok,
    {
        let block = self.close();
        assert(self.open_blocks() =~= old(self).open_blocks().drop_last());
        let taken = match block {
            BlockKind::If { taken } => taken,
            _ => false,
        };
        let line = close_branch_text(self.depth, taken);
        self.put(&line, Ghost(SyntaxEvent::EndIf))
    }

    fn begin_for(&mut self, header: &str, terms: &[TermAnnotation<'_>]) -> (r: Result<(), TextRenderError>)
        ensures
            final(self).intact() == (old(self).intact() && r is Ok),
            final(self).initial() == old(self).initial(),
            W::tracks_output() && r is Ok ==> final(self).output() == old(self).output() + encode_utf8(
                for_line(old(self).depth(), header@, terms@),
            ),
            old(self).sink_answers(
                encode_utf8(for_line(old(self).depth(), header@, terms@)),
                r,
            ),
            r is Ok ==> final(self).blocks() == old(self).blocks().push(BlockKind::For),
            W::never_fails() ==> r is Ok,
    {
        proof {
            lemma_pairs_dimmed(terms@);
        }
        let mut line = String::new();
        push_indent(&mut line, self.depth);
        push_keyword_block_open(&mut line, "for", header);
        push_annotations(&mut line, terms);
        line.append("\n");
        let r = self.put_open(&line, BlockKind::For, Ghost(SyntaxEvent::BeginFor { header: header@, terms: term_pairs(terms@) }));
        assert(self.open_blocks() =~= old(self).open_blocks().push(BlockTag::For) || r is Err);
        assert(self.open_blocks() =~= old(self).open_blocks() || r is Ok);
        r
    }

    fn for_iteration(&mut self, variable: &str, index: u64) -> (r: Result<(), TextRenderError>)
        ensures
            final(self).intact() == (old(self).intact() && r is Ok),
            final(self).initial() == old(self).initial(),
            final(self).depth() == old(self).depth(),
            final(self).blocks() == old(self).blocks(),
            W::tracks_output() && r is Ok ==> final(self).output() == old(self).output() + encode_utf8(
                for_iteration_line(old(self).depth(), variable@, index),
            ),
            old(self).sink_answers(
                encode_utf8(for_iteration_line(old(self).depth(), variable@, index)),
                r,
            ),
            W::never_fails() ==> r is Ok,
    {
        let mut line = String::new();
        push_indent(&mut line, self.depth);
        line.append(COMMENT);
        line.append("/* ");
        line.append(variable);
        line.append(": ");
        push_decimal(&mut line, index);
        line.append(" */");
        line.append(RESET);
        line.append("\n");
        assert(line@ =~= for_iteration_line(self.depth as nat, variable@, index));
        self.put(&line, Ghost(SyntaxEvent::ForIteration { variable: variable@, index }))
    }

    fn end_for(&mut self) -> (r: Result<(), TextRenderError>)
        ensures
            final(self).intact() == (old(self).intact() && r is Ok),
            final(self).initial() == old(self).initial(),
            W::tracks_output() && r is Ok ==> final(self).output() == old(self).output() + encode_utf8(
                close_line((old(self).depth() - 1) as nat),
            ),
            old(self).sink_answers(
                encode_utf8(close_line((old(self).depth() - 1) as nat)),
                r,
            ),
            final(self).blocks() == old(self).blocks().drop_last(),
            W::never_fails() ==> r is Ok,
    {
        self.close();
        assert(self.open_blocks() =~= old(self).open_blocks().drop_last());
        let line = close_branch_text(self.depth, true);
        self.put(&line, Ghost(SyntaxEvent::EndFor))
    }

    fn begin_while(&mut self, condition: &str) -> (r: Result<(), TextRenderError>)
        ensures
            final(self).intact() == (old(self).intact() && r is Ok),
            final(self).initial() == old(self).initial(),
            W::tracks_output() && r is Ok ==> final(self).output() == old(self).output() + encode_utf8(
                while_line(old(self).depth(), condition@),
            ),
            old(self).sink_answers(
                encode_utf8(while_line(old(self).depth(), condition@)),
                r,
            ),
            r is Ok ==> final(self).blocks() == old(self).blocks().push(BlockKind::While),
            W::never_fails() ==> r is Ok,
    {
        let mut line = String::new();
        push_indent(&mut line, self.depth);
        push_keyword_block_open(&mut line, "while", condition);
        line.append("\n");
        let r = self.put_open(&line, BlockKind::While, Ghost(SyntaxEvent::BeginWhile { condition: condition@ }));
        assert(self.open_blocks() =~= old(self).open_blocks().push(BlockTag::While) || r is Err);
        assert(self.open_blocks() =~= old(self).open_blocks() || r is Ok);
        r
    }

    fn while_iteration(&mut self, index: u64) -> (r: Result<(), TextRenderError>)
        ensures
            final(self).intact() == (old(self).intact() && r is Ok),
            final(self).initial() == old(self).initial(),
            final(self).depth() == old(self).depth(),
            final(self).blocks() == old(self).blocks(),
            W::tracks_output() && r is Ok ==> final(self).output() == old(self).output() + encode_utf8(
                iteration_line(old(self).depth(), index),
            ),
            old(self).sink_answers(
                encode_utf8(iteration_line(old(self).depth(), index)),
                r,
            ),
            W::never_fails() ==> r is Ok,
    {
        let mut line = String::new();
        push_indent(&mut line, self.depth);
        line.append(COMMENT);
        line.append("/* iteration: ");
        push_decimal(&mut line, index);
        line.append(" */");
        line.append(RESET);
        line.append("\n");
        assert(line@ =~= iteration_line(self.depth as nat, index));
        self.put(&line, Ghost(SyntaxEvent::WhileIteration { index }))
    }

    fn end_while(&mut self) -> (r: Result<(), TextRenderError>)
        ensures
            final(self).intact() == (old(self).intact() && r is Ok),
            final(self).initial() == old(self).initial(),
            W::tracks_output() && r is Ok ==> final(self).output() == old(self).output() + encode_utf8(
                close_line((old(self).depth() - 1) as nat),
            ),
            old(self).sink_answers(
                encode_utf8(close_line((old(self).depth() - 1) as nat)),
                r,
            ),
            final(self).blocks() == old(self).blocks().drop_last(),
            W::never_fails() ==> r is Ok,
    {
        self.close();
        assert(self.open_blocks() =~= old(self).open_blocks().drop_last());
        let line = close_branch_text(self.depth, true);
        self.put(&line, Ghost(SyntaxEvent::EndWhile))
    }

    fn begin_do_while(&mut self) -> (r: Result<(), TextRenderError>)
        ensures
            final(self).intact() == (old(self).intact() && r is Ok),
            final(self).initial() == old(self).initial(),
            W::tracks_output() && r is Ok ==> final(self).output() == old(self).output() + encode_utf8(
                do_line(old(self).depth()),
            ),
            old(self).sink_answers(
                encode_utf8(do_line(old(self).depth())),
                r,
            ),
            r is Ok ==> final(self).blocks() == old(self).blocks().push(BlockKind::DoWhile),
            W::never_fails() ==> r is Ok,
    {
        let mut line = String::new();
        push_indent(&mut line, self.depth);
        push_styled(&mut line, KW, "do");
        line.append(" ");
        push_styled(&mut line, PUNCT, "{");
        line.append("\n");
        let r = self.put_open(&line, BlockKind::DoWhile, Ghost(SyntaxEvent::BeginDoWhile));
        assert(self.open_blocks() =~= old(self).open_blocks().push(BlockTag::DoWhile) || r is Err);
        assert(self.open_blocks() =~= old(self).open_blocks() || r is Ok);
        r
    }

    fn do_while_iteration(&mut self, index: u64) -> (r: Result<(), TextRenderError>)
        ensures
            final(self).intact() == (old(self).intact() && r is Ok),
            final(self).initial() == old(self).initial(),
            final(self).depth() == old(self).depth(),
            final(self).blocks() == old(self).blocks(),
            W::tracks_output() && r is Ok ==> final(self).output() == old(self).output() + encode_utf8(
                iteration_line(old(self).depth(), index),
            ),
            old(self).sink_answers(
                encode_utf8(iteration_line(old(self).depth(), index)),
                r,
            ),
            W::never_fails() ==> r is Ok,
    {
        let mut line = String::new();
        push_indent(&mut line, self.depth);
        line.append(COMMENT);
        line.append("/* iteration: ");
        push_decimal(&mut line, index);
        line.append(" */");
        line.append(RESET);
        line.append("\n");
        assert(line@ =~= iteration_line(self.depth as nat, index));
        self.put(&line, Ghost(SyntaxEvent::DoWhileIteration { index }))
    }

    fn end_do_while(&mut self, condition: &str) -> (r: Result<(), TextRenderError>)
        ensures
            final(self).intact() == (old(self).intact() && r is Ok),
            final(self).initial() == old(self).initial(),
            W::tracks_output() && r is Ok ==> final(self).output() == old(self).output() + encode_utf8(
                do_while_end_line((old(self).depth() - 1) as nat, condition@),
            ),
            old(self).sink_answers(
                encode_utf8(do_while_end_line((old(self).depth() - 1) as nat, condition@)),
                r,
            ),
            final(self).blocks() == old(self).blocks().drop_last(),
            W::never_fails() ==> r is Ok,
    {
        self.close();
        assert(self.open_blocks() =~= old(self).open_blocks().drop_last());
        let mut line = String::new();
        push_indent(&mut line, self.depth);
        push_styled(&mut line, PUNCT, "}");
        line.append(" ");
        push_styled(&mut line, KW, "while");
        line.append(" ");
        push_styled(&mut line, PUNCT, "(");
        line.append(condition);
        push_styled(&mut line, PUNCT, ")");
        line.append("\n");
        self.put(&line, Ghost(SyntaxEvent::EndDoWhile { condition: condition@ }))
    }

    fn begin_switch(&mut self, expression: &str, terms: &[TermAnnotation<'_>]) -> (r: Result<(), TextRenderError>)
        ensures
            final(self).intact() == (old(self).intact() && r is Ok),
            final(self).initial() == old(self).initial(),
            W::tracks_output() && r is Ok ==> final(self).output() == old(self).output() + encode_utf8(
                switch_line(old(self).depth(), expression@, terms@),
            ),
            old(self).sink_answers(
                encode_utf8(switch_line(old(self).depth(), expression@, terms@)),
                r,
            ),
            r is Ok ==> final(self).blocks() == old(self).blocks().push(BlockKind::Switch),
            W::never_fails() ==> r is Ok,
    {
        proof {
            lemma_pairs_dimmed(terms@);
        }
        let mut line = String::new();
        push_indent(&mut line, self.depth);
        push_keyword_block_open(&mut line, "switch", expression);
        push_annotations(&mut line, terms);
        line.append("\n");
        let r = self.put_open(&line, BlockKind::Switch, Ghost(SyntaxEvent::BeginSwitch { expression: expression@, terms: term_pairs(terms@) }));
        assert(self.open_blocks() =~= old(self).open_blocks().push(BlockTag::Switch) || r is Err);
        assert(self.open_blocks() =~= old(self).open_blocks() || r is Ok);
        r
    }

    fn begin_case(&mut self, label: &str, taken: bool) -> (r: Result<(), TextRenderError>)
        ensures
            final(self).intact() == (old(self).intact() && r is Ok),
            final(self).initial() == old(self).initial(),
            W::tracks_output() && r is Ok ==> final(self).output() == old(self).output() + encode_utf8(
                case_line(old(self).depth(), label@, taken),
            ),
            old(self).sink_answers(
                encode_utf8(case_line(old(self).depth(), label@, taken)),
                r,
            ),
            r is Ok ==> final(self).blocks() == old(self).blocks().push(BlockKind::Case { taken }),
            W::never_fails() ==> r is Ok,
    {
        let mut line = String::new();
        push_indent(&mut line, self.depth);
        if taken {
            push_styled(&mut line, KW, "case");
            line.append(" ");
            line.append(label);
            line.append(":");
        } else {
            line.append(DIM);
            line.append("case ");
            line.append(label);
            line.append(":");
            line.append(RESET);
        }
        line.append("\n");
        assert(line@ =~= case_line(self.depth as nat, label@, taken));
        let r = self.put_open(&line, BlockKind::Case { taken }, Ghost(SyntaxEvent::BeginCase { label: label@, taken }));
        assert(self.open_blocks() =~= old(self).open_blocks().push(BlockTag::Case) || r is Err);
        assert(self.open_blocks() =~= old(self).open_blocks() || r is Ok);
        r
    }

    fn end_case(&mut self) -> (r: Result<(), TextRenderError>)
        ensures
            final(self).intact() == (old(self).intact() && r is Ok),
            final(self).initial() == old(self).initial(),
            W::tracks_output() && r is Ok ==> final(self).output() == old(self).output() + encode_utf8(
                break_line(old(self).depth(), old(self).top_taken()),
            ),
            old(self).sink_answers(
                encode_utf8(break_line(old(self).depth(), old(self).top_taken())),
                r,
            ),
            final(self).blocks() == old(self).blocks().drop_last(),
            r is Ok ==> final(self).depth() == old(self).depth() - 1,
            r is Err ==> final(self).depth() == old(self).depth(),
            W::never_fails() ==> r is Ok,
    {
        let depth = self.depth;
        let block = self.block_stack.pop().unwrap();
        assert(self.open_blocks() =~= old(self).open_blocks().drop_last());
        let taken = match block {
            BlockKind::Case { taken } => taken,
            _ => false,
        };
        let mut line = String::new();
        push_indent(&mut line, depth);
        if taken {
            push_styled(&mut line, KW, "break");
        } else {
            push_styled(&mut line, DIM, "break");
        }
        line.append("\n");
        let r = self.put(&line, Ghost(SyntaxEvent::EndCase));
        if r.is_ok() {
            self.depth = self.depth - 1;
        }
        r
    }

    fn end_switch(&mut self) -> (r: Result<(), TextRenderError>)
        ensures
            final(self).intact() == (old(self).intact() && r is Ok),
            final(self).initial() == old(self).initial(),
            W::tracks_output() && r is Ok ==> final(self).output() == old(self).output() + encode_utf8(
                close_line((old(self).depth() - 1) as nat),
            ),
            old(self).sink_answers(
                encode_utf8(close_line((old(self).depth() - 1) as nat)),
                r,
            ),
            final(self).blocks() == old(self).blocks().drop_last(),
            W::never_fails() ==> r is Ok,
    {
        self.close();
        assert(self.open_blocks() =~= old(self).open_blocks().drop_last());
        let line = close_branch_text(self.depth, true);
        self.put(&line, Ghost(SyntaxEvent::EndSwitch))
    }

    fn field_table(&mut self, table: &FieldTable<'_>) -> (r: Result<(), TextRenderError>)
        ensures
            final(self).intact() == (old(self).intact() && r is Ok),
            final(self).initial() == old(self).initial(),
            W::tracks_output() && r is Ok ==> final(self).output() == old(self).output() + encode_utf8(
                field_table_text(old(self).depth(), table.columns@, row_values(table.rows@)),
            ),
            final(self).depth() == old(self).depth() || r is Err,
            W::never_fails() ==> r is Ok,
    {
        let ghost start_log = self.log@;
        let ghost rv = row_values(table.rows@);
        let ghost cols = table.columns@;
        let ghost d = self.depth as nat;
        let ghost start = self.output();
        let nrows = table.rows.len();
        let mut header = String::new();
        header.append("i = 0; i < ");
        push_decimal(&mut header, nrows as u64);
        header.append("; i++");
        let no_terms: [TermAnnotation; 0] = [];
        self.begin_for(header.as_str(), &no_terms)?;
        assert(term_pairs(no_terms@) =~= Seq::<(Seq<char>, Value)>::empty());
        assert(no_terms@ =~= Seq::<TermAnnotation>::empty());
        let ghost heads = seq![
            SyntaxEvent::BeginFor { header: table_header_text(nrows as nat), terms: Seq::empty() },
        ];
        assert(start_log + heads + rows_events(cols, rv, 0) =~= self.log@);
        assert(annotations_text(Seq::<TermAnnotation>::empty()) =~= Seq::<char>::empty());
        let ghost head = for_line(d, table_header_text(nrows as nat), Seq::empty());
        assert(head + table_rows_text(d + 1, cols, rv, 0) =~= head);
        let mut k: usize = 0;
        while k < nrows
            invariant
                self.well_formed(),
                self.intact@ == old(self).intact@,
                self.start == old(self).start,
                self.log@ == start_log + heads + rows_events(cols, rv, k as nat),
                self.depth() == d + 1,
                self.blocks() == old(self).blocks().push(BlockKind::For),
                nrows == table.rows@.len(),
                rv == row_values(table.rows@),
                cols == table.columns@,
                k <= nrows,
                W::tracks_output() ==> self.output() == start + encode_utf8(
                    head + table_rows_text(d + 1, cols, rv, k as nat),
                ),
            decreases nrows - k,
        {
            let ghost done = head + table_rows_text(d + 1, cols, rv, k as nat);
            let ghost iter = for_iteration_line(d + 1, "i"@, k as u64);
            self.for_iteration("i", k as u64)?;
            proof {
                crate::render::lemma_encode_utf8_concat(done, iter);
            }
            let row: &[Value] = table.rows[k];
            assert(rv[k as int] == row@);
            let ghost before_cells = done + iter;
            let ghost log_before_cells = self.log@;
            assert(log_before_cells + row_events(cols, row@, k as nat, 0) =~= log_before_cells);
            assert(before_cells + row_cell_lines(d + 1, cols, row@, k as nat, 0) =~= before_cells);
            let ncols = table.columns.len();
            let mut j: usize = 0;
            while j < ncols
                invariant
                    self.well_formed(),
                    self.intact@ == old(self).intact@,
                    self.start == old(self).start,
                    self.log@ == log_before_cells + row_events(cols, row@, k as nat, j as nat),
                    self.depth() == d + 1,
                    self.blocks() == old(self).blocks().push(BlockKind::For),
                    ncols == table.columns@.len(),
                    cols == table.columns@,
                    j <= ncols,
                    W::tracks_output() ==> self.output() == start + encode_utf8(
                        before_cells + row_cell_lines(d + 1, cols, row@, k as nat, j as nat),
                    ),
                decreases ncols - j,
            {
                let ghost sofar = before_cells + row_cell_lines(d + 1, cols, row@, k as nat, j as nat);
                if j < row.len() {
                    let line = cell_text(self.depth, &table.columns[j], &row[j], k);
                    let ghost item = cell_event(cols[j as int], row@[j as int], k as nat);
                    assert(line@ == ansi_event_line(self.block_stack@, item));
                    self.put(&line, Ghost(item))?;
                    proof {
                        assert(self.log@ =~= log_before_cells + row_events(
                            cols,
                            row@,
                            k as nat,
                            (j + 1) as nat,
                        ));
                        crate::render::lemma_encode_utf8_concat(sofar, line@);
                        assert(sofar + line@ =~= before_cells + row_cell_lines(
                            d + 1,
                            cols,
                            row@,
                            k as nat,
                            (j + 1) as nat,
                        ));
                    }
                } else {
                    assert(self.log@ =~= log_before_cells + row_events(
                        cols,
                        row@,
                        k as nat,
                        (j + 1) as nat,
                    ));
                    assert(sofar =~= before_cells + row_cell_lines(
                        d + 1,
                        cols,
                        row@,
                        k as nat,
                        (j + 1) as nat,
                    ));
                }
                j = j + 1;
            }
            assert(head + table_rows_text(d + 1, cols, rv, (k + 1) as nat) =~= before_cells
                + row_cell_lines(d + 1, cols, row@, k as nat, ncols as nat));
            assert(self.log@ =~= start_log + heads + rows_events(cols, rv, (k + 1) as nat));
            k = k + 1;
        }
        let ghost all = head + table_rows_text(d + 1, cols, rv, nrows as nat);
        let r = self.end_for();
        assert(r is Ok ==> self.log@ =~= start_log + table_events(cols, rv));
        proof {
            crate::render::lemma_encode_utf8_concat(all, close_line(d));
        }
        r
    }

    fn assignment(&mut self, expression: &str, computed_value: Option<&Value>) -> (r: Result<(), TextRenderError>)
        ensures
            final(self).intact() == (old(self).intact() && r is Ok),
            final(self).initial() == old(self).initial(),
            final(self).depth() == old(self).depth(),
            final(self).blocks() == old(self).blocks(),
            W::tracks_output() && r is Ok ==> final(self).output() == old(self).output() + encode_utf8(
                assignment_line(old(self).depth(), expression@, opt_value(computed_value)),
            ),
            old(self).sink_answers(
                encode_utf8(
                    assignment_line(
                        old(self).depth(),
                        expression@,
                        opt_value(computed_value),
                    ),
                ),
                r,
            ),
            W::never_fails() ==> r is Ok,
    {
        let mut line = String::new();
        push_indent(&mut line, self.depth);
        line.append(expression);
        match computed_value {
            Some(val) => {
                let width = crate::render::text::assignment_padding(
                    self.depth,
                    expression.as_bytes().len(),
                );
                push_spaces(&mut line, width);
                line.append(COMMENT);
                line.append("/* = ");
                line.append(VAL);
                val.push_text(&mut line);
                line.append(COMMENT);
                line.append(" */");
                line.append(RESET);
                line.append("\n");
            },
            None => {
                line.append("\n");
            },
        }
        self.put(&line, Ghost(SyntaxEvent::Assignment { expression: expression@, computed_value: opt_val(computed_value) }))
    }

    fn comment(&mut self, text: &str) -> (r: Result<(), TextRenderError>)
        ensures
            final(self).intact() == (old(self).intact() && r is Ok),
            final(self).initial() == old(self).initial(),
            final(self).depth() == old(self).depth(),
            final(self).blocks() == old(self).blocks(),
            W::tracks_output() && r is Ok ==> final(self).output() == old(self).output() + encode_utf8(
                comment_line(old(self).depth(), text@),
            ),
            old(self).sink_answers(
                encode_utf8(comment_line(old(self).depth(), text@)),
                r,
            ),
            W::never_fails() ==> r is Ok,
    {
        let mut line = String::new();
        push_indent(&mut line, self.depth);
        line.append(COMMENT);
        line.append("/* ");
        line.append(text);
        line.append(" */");
        line.append(RESET);
        line.append("\n");
        assert(line@ =~= comment_line(self.depth as nat, text@));
        self.put(&line, Ghost(SyntaxEvent::Comment { text: text@ }))
    }

    fn ellipsis(&mut self) -> (r: Result<(), TextRenderError>)
        ensures
            final(self).intact() == (old(self).intact() && r is Ok),
            final(self).initial() == old(self).initial(),
            final(self).depth() == old(self).depth(),
            final(self).blocks() == old(self).blocks(),
            W::tracks_output() && r is Ok ==> final(self).output() == old(self).output() + encode_utf8(
                ellipsis_line(old(self).depth()),
            ),
            old(self).sink_answers(
                encode_utf8(ellipsis_line(old(self).depth())),
                r,
            ),
            W::never_fails() ==> r is Ok,
    {
        let mut line = String::new();
        push_indent(&mut line, self.depth);
        line.append("...\n");
        self.put(&line, Ghost(SyntaxEvent::Ellipsis))
    }
}


} // verus!
