//! The interface between producers of syntax descriptions and renderers.
use vstd::prelude::*;

use crate::types::{
    BitPatternField, ColumnDef, FieldTable, FixedWidthField, TermAnnotation, Value,
    VariableLengthField,
};
use crate::numfmt::push_decimal;
use crate::render::row_values;
use crate::render::text::{cell_name, table_header_text};

verus! {

/// The kinds of blocks that `begin_`/`end_` pairs open and close.
#[derive(Debug, Clone, Copy, PartialEq, Eq, Structural)]
pub enum BlockTag {
    Element,
    If,
    For,
    While,
    DoWhile,
    Switch,
    Case,
}

/// True when the innermost open block is of kind `tag`.
pub open spec fn top_is(blocks: Seq<BlockTag>, tag: BlockTag) -> bool {
    blocks.len() > 0 && blocks.last() == tag
}

/// A term annotation as a name and a value.
pub open spec fn term_pairs(terms: Seq<TermAnnotation<'_>>) -> Seq<(Seq<char>, Value)> {
    terms.map_values(|t: TermAnnotation<'_>| (t.name@, t.value))
}

/// An optional borrowed string, as characters.
pub open spec fn opt_text(s: Option<&str>) -> Option<Seq<char>> {
    match s {
        Some(t) => Some(t@),
        None => None,
    }
}

/// An optional borrowed value, as a value.
pub open spec fn opt_val(v: Option<&Value>) -> Option<Value> {
    match v {
        Some(x) => Some(*x),
        None => None,
    }
}

/// One item of a syntax description, as a producer hands it to a renderer:
/// one variant per `SyntaxWrite` call, holding that call's arguments.
#[allow(inconsistent_fields)]
pub enum SyntaxEvent {
    BeginElement { name: Seq<char>, params: Option<Seq<char>> },
    EndElement,
    FixedWidthField {
        name: Seq<char>,
        bits: u32,
        descriptor: Seq<char>,
        value: Option<Value>,
        comment: Option<Seq<char>>,
    },
    VariableLengthField {
        name: Seq<char>,
        descriptor: Seq<char>,
        value: Option<Value>,
        comment: Option<Seq<char>>,
    },
    BitPattern { name: Seq<char>, bits: u32, descriptor: Seq<char>, value: Value },
    RawBytes { data: Seq<u8> },
    BeginIf { condition: Seq<char>, terms: Seq<(Seq<char>, Value)>, taken: bool },
    BeginElseIf { condition: Seq<char>, terms: Seq<(Seq<char>, Value)>, taken: bool },
    BeginElse { taken: bool },
    EndIf,
    BeginFor { header: Seq<char>, terms: Seq<(Seq<char>, Value)> },
    ForIteration { variable: Seq<char>, index: u64 },
    EndFor,
    BeginWhile { condition: Seq<char> },
    WhileIteration { index: u64 },
    EndWhile,
    BeginDoWhile,
    DoWhileIteration { index: u64 },
    EndDoWhile { condition: Seq<char> },
    BeginSwitch { expression: Seq<char>, terms: Seq<(Seq<char>, Value)> },
    BeginCase { label: Seq<char>, taken: bool },
    EndCase,
    EndSwitch,
    Assignment { expression: Seq<char>, computed_value: Option<Value> },
    Comment { text: Seq<char> },
    Ellipsis,
}

/// The description of a fixed-width field.
pub open spec fn fixed_event(f: FixedWidthField<'_>) -> SyntaxEvent {
    SyntaxEvent::FixedWidthField {
        name: f.name@,
        bits: f.bits,
        descriptor: f.descriptor@,
        value: f.value,
        comment: opt_text(f.comment),
    }
}

/// The description of a variable-length field.
pub open spec fn variable_event(f: VariableLengthField<'_>) -> SyntaxEvent {
    SyntaxEvent::VariableLengthField {
        name: f.name@,
        descriptor: f.descriptor@,
        value: f.value,
        comment: opt_text(f.comment),
    }
}

/// The description of a bit pattern.
pub open spec fn bit_pattern_event(f: BitPatternField<'_>) -> SyntaxEvent {
    SyntaxEvent::BitPattern {
        name: f.name@,
        bits: f.bits,
        descriptor: f.descriptor@,
        value: f.value,
    }
}

/// The field that a table cell stands for: `column[k]`, fixed-width when
/// the column has a bit count and variable-length otherwise.
pub open spec fn cell_event(column: ColumnDef<'_>, value: Value, k: nat) -> SyntaxEvent {
    match column.bits {
        Some(b) => SyntaxEvent::FixedWidthField {
            name: cell_name(column.name@, k),
            bits: b,
            descriptor: column.descriptor@,
            value: Some(value),
            comment: None,
        },
        None => SyntaxEvent::VariableLengthField {
            name: cell_name(column.name@, k),
            descriptor: column.descriptor@,
            value: Some(value),
            comment: None,
        },
    }
}

/// The fields of the first `j` cells of row `k` (columns without a value in
/// the row are skipped).
pub open spec fn row_events(columns: Seq<ColumnDef<'_>>, row: Seq<Value>, k: nat, j: nat) -> Seq<
    SyntaxEvent,
>
    decreases j,
{
    if j == 0 {
        Seq::empty()
    } else {
        row_events(columns, row, k, (j - 1) as nat) + if j - 1 < row.len() {
            seq![cell_event(columns[j - 1], row[j - 1], k)]
        } else {
            Seq::empty()
        }
    }
}

/// The first `n` rows of a table as loop iterations and their fields.
pub open spec fn rows_events(columns: Seq<ColumnDef<'_>>, rows: Seq<Seq<Value>>, n: nat) -> Seq<
    SyntaxEvent,
>
    decreases n,
{
    if n == 0 {
        Seq::empty()
    } else {
        rows_events(columns, rows, (n - 1) as nat).push(
            SyntaxEvent::ForIteration { variable: "i"@, index: (n - 1) as u64 },
        ) + row_events(columns, rows[n - 1], (n - 1) as nat, columns.len())
    }
}

/// A field table described as a `for (i = 0; i < rows; i++)` loop with one
/// iteration per row and one field per cell.
pub open spec fn table_events(columns: Seq<ColumnDef<'_>>, rows: Seq<Seq<Value>>) -> Seq<SyntaxEvent> {
    seq![SyntaxEvent::BeginFor { header: table_header_text(rows.len()), terms: Seq::empty() }]
        + rows_events(columns, rows, rows.len()) + seq![SyntaxEvent::EndFor]
}

/// The open blocks after a call that succeeded, as the `SyntaxWrite`
/// contracts give them: a `begin_` call opens its block, an `end_` call closes
/// the innermost one, every other call leaves them as they are.
pub open spec fn block_step(blocks: Seq<BlockTag>, e: SyntaxEvent) -> Seq<BlockTag> {
    match e {
        SyntaxEvent::BeginElement { .. } => blocks.push(BlockTag::Element),
        SyntaxEvent::BeginIf { .. } => blocks.push(BlockTag::If),
        SyntaxEvent::BeginFor { .. } => blocks.push(BlockTag::For),
        SyntaxEvent::BeginWhile { .. } => blocks.push(BlockTag::While),
        SyntaxEvent::BeginDoWhile => blocks.push(BlockTag::DoWhile),
        SyntaxEvent::BeginSwitch { .. } => blocks.push(BlockTag::Switch),
        SyntaxEvent::BeginCase { .. } => blocks.push(BlockTag::Case),
        SyntaxEvent::EndElement => blocks.drop_last(),
        SyntaxEvent::EndIf => blocks.drop_last(),
        SyntaxEvent::EndFor => blocks.drop_last(),
        SyntaxEvent::EndWhile => blocks.drop_last(),
        SyntaxEvent::EndDoWhile { .. } => blocks.drop_last(),
        SyntaxEvent::EndSwitch => blocks.drop_last(),
        SyntaxEvent::EndCase => blocks.drop_last(),
        _ => blocks,
    }
}

/// Whether a call may be made with `blocks` open, as the `SyntaxWrite`
/// contracts require: an `end_` call closes a block of its own kind, and an
/// `else if` or `else` continues an open `if`.
pub open spec fn block_fits(blocks: Seq<BlockTag>, e: SyntaxEvent) -> bool {
    match e {
        SyntaxEvent::EndElement => top_is(blocks, BlockTag::Element),
        SyntaxEvent::EndIf => top_is(blocks, BlockTag::If),
        SyntaxEvent::BeginElseIf { .. } => top_is(blocks, BlockTag::If),
        SyntaxEvent::BeginElse { .. } => top_is(blocks, BlockTag::If),
        SyntaxEvent::EndFor => top_is(blocks, BlockTag::For),
        SyntaxEvent::EndWhile => top_is(blocks, BlockTag::While),
        SyntaxEvent::EndDoWhile { .. } => top_is(blocks, BlockTag::DoWhile),
        SyntaxEvent::EndSwitch => top_is(blocks, BlockTag::Switch),
        SyntaxEvent::EndCase => top_is(blocks, BlockTag::Case),
        _ => true,
    }
}

/// The open blocks after a sequence of successful calls made with `blocks` open.
pub open spec fn blocks_after(blocks: Seq<BlockTag>, events: Seq<SyntaxEvent>) -> Seq<BlockTag>
    decreases events.len(),
{
    if events.len() == 0 {
        blocks
    } else {
        block_step(blocks_after(blocks, events.drop_last()), events.last())
    }
}

/// Whether every call of the sequence may be made, starting with `blocks` open.
pub open spec fn calls_fit(blocks: Seq<BlockTag>, events: Seq<SyntaxEvent>) -> bool
    decreases events.len(),
{
    if events.len() == 0 {
        true
    } else {
        calls_fit(blocks, events.drop_last()) && block_fit_last(blocks, events)
    }
}

/// The last call of a non-empty sequence may be made after the others.
pub open spec fn block_fit_last(blocks: Seq<BlockTag>, events: Seq<SyntaxEvent>) -> bool
    recommends
        events.len() > 0,
{
    block_fits(blocks_after(blocks, events.drop_last()), events.last())
}

/// Running two sequences one after the other is running their concatenation.
pub proof fn lemma_blocks_after_concat(
    blocks: Seq<BlockTag>,
    first: Seq<SyntaxEvent>,
    second: Seq<SyntaxEvent>,
)
    ensures
        blocks_after(blocks, first + second) == blocks_after(blocks_after(blocks, first), second),
    decreases second.len(),
{
    if second.len() == 0 {
        assert(first + second =~= first);
    } else {
        lemma_blocks_after_concat(blocks, first, second.drop_last());
        assert((first + second).drop_last() =~= first + second.drop_last());
        assert((first + second).last() == second.last());
    }
}

/// A well-nested sequence: made with nothing open, every block it opens it
/// also closes.
pub open spec fn well_nested(events: Seq<SyntaxEvent>) -> bool {
    calls_fit(Seq::empty(), events) && blocks_after(Seq::empty(), events) == Seq::<BlockTag>::empty()
}

/// A sequence that fits with nothing open fits whatever is open around it,
/// and only adds its own blocks on top.
pub proof fn lemma_calls_fit_anywhere(outer: Seq<BlockTag>, events: Seq<SyntaxEvent>)
    requires
        calls_fit(Seq::empty(), events),
    ensures
        calls_fit(outer, events),
        blocks_after(outer, events) == outer + blocks_after(Seq::empty(), events),
    decreases events.len(),
{
    if events.len() > 0 {
        let init = events.drop_last();
        let e = events.last();
        lemma_calls_fit_anywhere(outer, init);
        let inner = blocks_after(Seq::empty(), init);
        assert(blocks_after(outer, init) == outer + inner);
        assert(block_fits(inner, e));
        if inner.len() > 0 {
            assert((outer + inner).last() == inner.last());
            assert((outer + inner).drop_last() =~= outer + inner.drop_last());
        }
        assert((outer + inner).push(BlockTag::Element) =~= outer + inner.push(BlockTag::Element));
        assert((outer + inner).push(BlockTag::If) =~= outer + inner.push(BlockTag::If));
        assert((outer + inner).push(BlockTag::For) =~= outer + inner.push(BlockTag::For));
        assert((outer + inner).push(BlockTag::While) =~= outer + inner.push(BlockTag::While));
        assert((outer + inner).push(BlockTag::DoWhile) =~= outer + inner.push(BlockTag::DoWhile));
        assert((outer + inner).push(BlockTag::Switch) =~= outer + inner.push(BlockTag::Switch));
        assert((outer + inner).push(BlockTag::Case) =~= outer + inner.push(BlockTag::Case));
        assert(block_step(outer + inner, e) =~= outer + block_step(inner, e));
    }
}

/// A well-nested sequence of calls, made inside any blocks, can always be
/// made and leaves exactly the blocks that were open before it, so a renderer
/// returns to the indentation it started at.
pub proof fn lemma_well_nested_restores_blocks(outer: Seq<BlockTag>, events: Seq<SyntaxEvent>)
    requires
        well_nested(events),
    ensures
        calls_fit(outer, events),
        blocks_after(outer, events) == outer,
{
    lemma_calls_fit_anywhere(outer, events);
    assert(outer + Seq::<BlockTag>::empty() =~= outer);
}

/// Trait for rendering MPEG specification syntax structures.
///
/// Renderers implement this trait to produce output in a specific format
/// (plain text, ANSI-colored text, compact text). Producers call these
/// methods to describe the syntax structure and field values.
///
/// Every `begin_` call opens a block that the matching `end_` call closes;
/// `open_blocks` is the stack of blocks open at a given moment, and an `end_`
/// call requires the innermost open block to be of its kind.
pub trait SyntaxWrite: Sized {
    type Error;

    /// The renderer's internal bookkeeping is consistent.
    spec fn well_formed(&self) -> bool;

    /// The blocks opened and not yet closed, innermost last.
    spec fn open_blocks(&self) -> Seq<BlockTag>;

    /// The syntax items described to this renderer so far, in order; a
    /// field table counts as the loop it stands for (see `table_events`).
    spec fn described(&self) -> Seq<SyntaxEvent>;

    // ── Element blocks ──────────────────────────────────────

    /// Begin a named syntax element (a "syntax table" in MPEG specs).
    ///
    /// `params` is `None` for unparameterized elements like `transport_packet()`,
    /// or `Some("payloadType, payloadSize")` for parameterized ones like
    /// `sei_payload(payloadType, payloadSize)`.
    fn begin_element(&mut self, name: &str, params: Option<&str>) -> (r: Result<(), Self::Error>)
        requires
            old(self).well_formed(),
        ensures
            r is Ok ==> final(self).described() == old(self).described().push(
                SyntaxEvent::BeginElement { name: name@, params: opt_text(params) },
            ),
            final(self).well_formed(),
            r is Ok ==> final(self).open_blocks() == old(self).open_blocks().push(BlockTag::Element),
            r is Err ==> final(self).open_blocks() == old(self).open_blocks(),
    ;

    /// End the current syntax element.
    fn end_element(&mut self) -> (r: Result<(), Self::Error>)
        requires
            old(self).well_formed(),
            top_is(old(self).open_blocks(), BlockTag::Element),
        ensures
            r is Ok ==> final(self).described() == old(self).described().push(
                SyntaxEvent::EndElement,
            ),
            final(self).well_formed(),
            final(self).open_blocks() == old(self).open_blocks().drop_last(),
    ;

    // ── Fields ──────────────────────────────────────────────

    /// Render a fixed-width field.
    fn fixed_width_field(&mut self, field: &FixedWidthField<'_>) -> (r: Result<(), Self::Error>)
        requires
            old(self).well_formed(),
        ensures
            r is Ok ==> final(self).described() == old(self).described().push(
                fixed_event(*field),
            ),
            final(self).well_formed(),
            final(self).open_blocks() == old(self).open_blocks(),
    ;

    /// Render a variable-length coded field.
    fn variable_length_field(&mut self, field: &VariableLengthField<'_>) -> (r: Result<(), Self::Error>)
        requires
            old(self).well_formed(),
        ensures
            r is Ok ==> final(self).described() == old(self).described().push(
                variable_event(*field),
            ),
            final(self).well_formed(),
            final(self).open_blocks() == old(self).open_blocks(),
    ;

    /// Render a fixed bit pattern or marker bit.
    fn bit_pattern(&mut self, field: &BitPatternField<'_>) -> (r: Result<(), Self::Error>)
        requires
            old(self).well_formed(),
        ensures
            r is Ok ==> final(self).described() == old(self).described().push(
                bit_pattern_event(*field),
            ),
            final(self).well_formed(),
            final(self).open_blocks() == old(self).open_blocks(),
    ;

    // ── Raw byte hex dump ───────────────────────────────────

    /// Render raw bytes as a hex dump. Called after a field template line;
    /// the renderer formats as hex lines (16 bytes per line).
    fn raw_bytes(&mut self, data: &[u8]) -> (r: Result<(), Self::Error>)
        requires
            old(self).well_formed(),
        ensures
            r is Ok ==> final(self).described() == old(self).described().push(
                SyntaxEvent::RawBytes { data: data@ },
            ),
            final(self).well_formed(),
            final(self).open_blocks() == old(self).open_blocks(),
    ;

    // ── Conditionals ────────────────────────────────────────

    /// Begin an `if` block. The renderer adds `if (condition) {` and any
    /// term annotations. `taken` is a hint for dimming not-taken branches.
    fn begin_if(&mut self, condition: &str, terms: &[TermAnnotation<'_>], taken: bool) -> (r: Result<(), Self::Error>)
        requires
            old(self).well_formed(),
        ensures
            r is Ok ==> final(self).described() == old(self).described().push(
                SyntaxEvent::BeginIf { condition: condition@, terms: term_pairs(terms@), taken },
            ),
            final(self).well_formed(),
            r is Ok ==> final(self).open_blocks() == old(self).open_blocks().push(BlockTag::If),
            r is Err ==> final(self).open_blocks() == old(self).open_blocks(),
    ;

    /// Close the previous branch and open an `else if` branch.
    /// A renderer whose write fails here may be left with its indentation
    /// one level off, and is then no longer well-formed.
    fn begin_else_if(&mut self, condition: &str, terms: &[TermAnnotation<'_>], taken: bool) -> (r: Result<(), Self::Error>)
        requires
            old(self).well_formed(),
            top_is(old(self).open_blocks(), BlockTag::If),
        ensures
            r is Ok ==> final(self).described() == old(self).described().push(
                SyntaxEvent::BeginElseIf { condition: condition@, terms: term_pairs(terms@), taken },
            ),
            r is Ok ==> final(self).well_formed(),
            final(self).open_blocks() == old(self).open_blocks(),
    ;

    /// Close the previous branch and open an `else` branch.
    /// A renderer whose write fails here may be left with its indentation
    /// one level off, and is then no longer well-formed.
    fn begin_else(&mut self, taken: bool) -> (r: Result<(), Self::Error>)
        requires
            old(self).well_formed(),
            top_is(old(self).open_blocks(), BlockTag::If),
        ensures
            r is Ok ==> final(self).described() == old(self).described().push(
                SyntaxEvent::BeginElse { taken },
            ),
            r is Ok ==> final(self).well_formed(),
            final(self).open_blocks() == old(self).open_blocks(),
    ;

    /// Close the final branch of an if/else-if/else chain.
    fn end_if(&mut self) -> (r: Result<(), Self::Error>)
        requires
            old(self).well_formed(),
            top_is(old(self).open_blocks(), BlockTag::If),
        ensures
            r is Ok ==> final(self).described() == old(self).described().push(
                SyntaxEvent::EndIf,
            ),
            final(self).well_formed(),
            final(self).open_blocks() == old(self).open_blocks().drop_last(),
    ;

    // ── For loops ───────────────────────────────────────────

    /// Begin a `for` loop. `header` is the loop clause, e.g.
    /// `"i = 0; i < N; i++"`. The renderer adds `for (header) {`.
    fn begin_for(&mut self, header: &str, terms: &[TermAnnotation<'_>]) -> (r: Result<(), Self::Error>)
        requires
            old(self).well_formed(),
        ensures
            r is Ok ==> final(self).described() == old(self).described().push(
                SyntaxEvent::BeginFor { header: header@, terms: term_pairs(terms@) },
            ),
            final(self).well_formed(),
            r is Ok ==> final(self).open_blocks() == old(self).open_blocks().push(BlockTag::For),
            r is Err ==> final(self).open_blocks() == old(self).open_blocks(),
    ;

    /// Mark a for-loop iteration with the variable name and index.
    fn for_iteration(&mut self, variable: &str, index: u64) -> (r: Result<(), Self::Error>)
        requires
            old(self).well_formed(),
        ensures
            r is Ok ==> final(self).described() == old(self).described().push(
                SyntaxEvent::ForIteration { variable: variable@, index },
            ),
            final(self).well_formed(),
            final(self).open_blocks() == old(self).open_blocks(),
    ;

    /// End a `for` loop.
    fn end_for(&mut self) -> (r: Result<(), Self::Error>)
        requires
            old(self).well_formed(),
            top_is(old(self).open_blocks(), BlockTag::For),
        ensures
            r is Ok ==> final(self).described() == old(self).described().push(
                SyntaxEvent::EndFor,
            ),
            final(self).well_formed(),
            final(self).open_blocks() == old(self).open_blocks().drop_last(),
    ;

    // ── While loops ─────────────────────────────────────────

    /// Begin a `while` loop.
    fn begin_while(&mut self, condition: &str) -> (r: Result<(), Self::Error>)
        requires
            old(self).well_formed(),
        ensures
            r is Ok ==> final(self).described() == old(self).described().push(
                SyntaxEvent::BeginWhile { condition: condition@ },
            ),
            final(self).well_formed(),
            r is Ok ==> final(self).open_blocks() == old(self).open_blocks().push(BlockTag::While),
            r is Err ==> final(self).open_blocks() == old(self).open_blocks(),
    ;

    /// Mark a while-loop iteration.
    fn while_iteration(&mut self, index: u64) -> (r: Result<(), Self::Error>)
        requires
            old(self).well_formed(),
        ensures
            r is Ok ==> final(self).described() == old(self).described().push(
                SyntaxEvent::WhileIteration { index },
            ),
            final(self).well_formed(),
            final(self).open_blocks() == old(self).open_blocks(),
    ;

    /// End a `while` loop.
    fn end_while(&mut self) -> (r: Result<(), Self::Error>)
        requires
            old(self).well_formed(),
            top_is(old(self).open_blocks(), BlockTag::While),
        ensures
            r is Ok ==> final(self).described() == old(self).described().push(
                SyntaxEvent::EndWhile,
            ),
            final(self).well_formed(),
            final(self).open_blocks() == old(self).open_blocks().drop_last(),
    ;

    // ── Do-while loops ──────────────────────────────────────

    /// Begin a `do-while` loop.
    fn begin_do_while(&mut self) -> (r: Result<(), Self::Error>)
        requires
            old(self).well_formed(),
        ensures
            r is Ok ==> final(self).described() == old(self).described().push(
                SyntaxEvent::BeginDoWhile,
            ),
            final(self).well_formed(),
            r is Ok ==> final(self).open_blocks() == old(self).open_blocks().push(BlockTag::DoWhile),
            r is Err ==> final(self).open_blocks() == old(self).open_blocks(),
    ;

    /// Mark a do-while iteration.
    fn do_while_iteration(&mut self, index: u64) -> (r: Result<(), Self::Error>)
        requires
            old(self).well_formed(),
        ensures
            r is Ok ==> final(self).described() == old(self).described().push(
                SyntaxEvent::DoWhileIteration { index },
            ),
            final(self).well_formed(),
            final(self).open_blocks() == old(self).open_blocks(),
    ;

    /// End a `do-while` loop with the given condition.
    fn end_do_while(&mut self, condition: &str) -> (r: Result<(), Self::Error>)
        requires
            old(self).well_formed(),
            top_is(old(self).open_blocks(), BlockTag::DoWhile),
        ensures
            r is Ok ==> final(self).described() == old(self).described().push(
                SyntaxEvent::EndDoWhile { condition: condition@ },
            ),
            final(self).well_formed(),
            final(self).open_blocks() == old(self).open_blocks().drop_last(),
    ;

    // ── Switch/case ────────────────────────────────────────

    /// Begin a `switch` statement. `expression` is the switch discriminator,
    /// e.g. `"id"`. `terms` provides term annotations for the discriminator.
    fn begin_switch(&mut self, expression: &str, terms: &[TermAnnotation<'_>]) -> (r: Result<(), Self::Error>)
        requires
            old(self).well_formed(),
        ensures
            r is Ok ==> final(self).described() == old(self).described().push(
                SyntaxEvent::BeginSwitch { expression: expression@, terms: term_pairs(terms@) },
            ),
            final(self).well_formed(),
            r is Ok ==> final(self).open_blocks() == old(self).open_blocks().push(BlockTag::Switch),
            r is Err ==> final(self).open_blocks() == old(self).open_blocks(),
    ;

    /// Begin a `case` within a switch. `label` is the case label,
    /// e.g. `"ID_CPE"`. `taken` indicates whether this is the active case.
    fn begin_case(&mut self, label: &str, taken: bool) -> (r: Result<(), Self::Error>)
        requires
            old(self).well_formed(),
        ensures
            r is Ok ==> final(self).described() == old(self).described().push(
                SyntaxEvent::BeginCase { label: label@, taken },
            ),
            final(self).well_formed(),
            r is Ok ==> final(self).open_blocks() == old(self).open_blocks().push(BlockTag::Case),
            r is Err ==> final(self).open_blocks() == old(self).open_blocks(),
    ;

    /// End the current case.
    /// A renderer whose write fails here may be left with its indentation
    /// one level off, and is then no longer well-formed.
    fn end_case(&mut self) -> (r: Result<(), Self::Error>)
        requires
            old(self).well_formed(),
            top_is(old(self).open_blocks(), BlockTag::Case),
        ensures
            r is Ok ==> final(self).described() == old(self).described().push(
                SyntaxEvent::EndCase,
            ),
            r is Ok ==> final(self).well_formed(),
            final(self).open_blocks() == old(self).open_blocks().drop_last(),
    ;

    /// End the switch statement.
    fn end_switch(&mut self) -> (r: Result<(), Self::Error>)
        requires
            old(self).well_formed(),
            top_is(old(self).open_blocks(), BlockTag::Switch),
        ensures
            r is Ok ==> final(self).described() == old(self).described().push(
                SyntaxEvent::EndSwitch,
            ),
            final(self).well_formed(),
            final(self).open_blocks() == old(self).open_blocks().drop_last(),
    ;

    // ── Field tables ────────────────────────────────────────

    /// Render a table of repeated fields. By default this expands into a
    /// `for (i = 0; i < rows; i++)` loop with one iteration per row, and
    /// one field per column named `column[i]`.
    fn field_table(&mut self, table: &FieldTable<'_>) -> (r: Result<(), Self::Error>)
        requires
            old(self).well_formed(),
        ensures
            r is Ok ==> final(self).described() == old(self).described() + table_events(
                table.columns@,
                row_values(table.rows@),
            ),
            final(self).well_formed(),
            r is Ok ==> final(self).open_blocks() == old(self).open_blocks(),
    {
        let ghost cols = table.columns@;
        let ghost rv = row_values(table.rows@);
        let ghost start = self.described();
        let nrows = table.rows.len();
        let mut header = String::new();
        proof {
            reveal_strlit("i = 0; i < ");
            reveal_strlit("; i++");
        }
        header.append("i = 0; i < ");
        push_decimal(&mut header, nrows as u64);
        header.append("; i++");
        assert(header@ == table_header_text(nrows as nat));
        let no_terms: [TermAnnotation; 0] = [];
        self.begin_for(header.as_str(), &no_terms)?;
        assert(term_pairs(no_terms@) =~= Seq::<(Seq<char>, Value)>::empty());
        let ghost head = seq![
            SyntaxEvent::BeginFor { header: table_header_text(nrows as nat), terms: Seq::empty() },
        ];
        assert(start + head + rows_events(cols, rv, 0) =~= self.described());
        let ghost blocks = self.open_blocks();
        let mut i: usize = 0;
        while i < nrows
            invariant
                self.well_formed(),
                self.open_blocks() == blocks,
                top_is(blocks, BlockTag::For),
                nrows == table.rows@.len(),
                cols == table.columns@,
                rv == row_values(table.rows@),
                i <= nrows,
                self.described() == start + head + rows_events(cols, rv, i as nat),
            decreases nrows - i,
        {
            proof {
                reveal_strlit("i");
            }
            self.for_iteration("i", i as u64)?;
            let row: &[Value] = table.rows[i];
            assert(rv[i as int] == row@);
            let ghost before = self.described();
            assert(before + row_events(cols, row@, i as nat, 0) =~= before);
            let ncols = table.columns.len();
            let mut j: usize = 0;
            while j < ncols
                invariant
                    self.well_formed(),
                    self.open_blocks() == blocks,
                    ncols == table.columns@.len(),
                    cols == table.columns@,
                    j <= ncols,
                    self.described() == before + row_events(cols, row@, i as nat, j as nat),
                decreases ncols - j,
            {
                let ghost sofar = self.described();
                if j < row.len() {
                    let col: &ColumnDef = &table.columns[j];
                    let mut name = String::new();
                    proof {
                        reveal_strlit("[");
                        reveal_strlit("]");
                    }
                    name.append(col.name);
                    name.append("[");
                    push_decimal(&mut name, i as u64);
                    name.append("]");
                    assert(name@ == cell_name(col.name@, i as nat));
                    match col.bits {
                        Some(bits) => {
                            let field = FixedWidthField {
                                name: name.as_str(),
                                bits,
                                descriptor: col.descriptor,
                                value: Some(row[j].clone()),
                                comment: None,
                            };
                            self.fixed_width_field(&field)?;
                            assert(fixed_event(field) == cell_event(cols[j as int], row@[j as int], i as nat));
                        },
                        None => {
                            let field = VariableLengthField {
                                name: name.as_str(),
                                descriptor: col.descriptor,
                                value: Some(row[j].clone()),
                                comment: None,
                            };
                            self.variable_length_field(&field)?;
                            assert(variable_event(field) == cell_event(cols[j as int], row@[j as int], i as nat));
                        },
                    }
                    assert(self.described() =~= before + row_events(cols, row@, i as nat, (j + 1) as nat));
                } else {
                    assert(sofar =~= before + row_events(cols, row@, i as nat, (j + 1) as nat));
                }
                j = j + 1;
            }
            assert(start + head + rows_events(cols, rv, (i + 1) as nat) =~= self.described());
            i = i + 1;
        }
        let r = self.end_for();
        assert(r is Ok ==> self.described() =~= start + table_events(cols, rv));
        r
    }

    // ── Assignments ─────────────────────────────────────────

    /// Render an inline variable assignment. `computed_value` of `Some(value)`
    /// renders a trailing `/* = value */` annotation.
    fn assignment(&mut self, expression: &str, computed_value: Option<&Value>) -> (r: Result<(), Self::Error>)
        requires
            old(self).well_formed(),
        ensures
            r is Ok ==> final(self).described() == old(self).described().push(
                SyntaxEvent::Assignment { expression: expression@, computed_value: opt_val(computed_value) },
            ),
            final(self).well_formed(),
            final(self).open_blocks() == old(self).open_blocks(),
    ;

    // ── Comments and ellipsis ───────────────────────────────

    /// Render a standalone comment line.
    fn comment(&mut self, text: &str) -> (r: Result<(), Self::Error>)
        requires
            old(self).well_formed(),
        ensures
            r is Ok ==> final(self).described() == old(self).described().push(
                SyntaxEvent::Comment { text: text@ },
            ),
            final(self).well_formed(),
            final(self).open_blocks() == old(self).open_blocks(),
    ;

    /// Render an ellipsis (`...`) indicating omitted content.
    fn ellipsis(&mut self) -> (r: Result<(), Self::Error>)
        requires
            old(self).well_formed(),
        ensures
            r is Ok ==> final(self).described() == old(self).described().push(
                SyntaxEvent::Ellipsis,
            ),
            final(self).well_formed(),
            final(self).open_blocks() == old(self).open_blocks(),
    ;
}

} // verus!
