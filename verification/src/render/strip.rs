//! The ANSI renderer's output with its color codes removed is the plain
//! text renderer's output, line for line.
use vstd::prelude::*;

use crate::numfmt::dec_text;
use crate::render::ansi::{
    self, annotations_text, styled, COMMENT, DESC, DIM, ELEM, FIELD, KW, PUNCT, RESET, VAL,
};
use crate::render::text::{self, pairs_annotations_text, pairs_joined, plain_event_line, plain_text};
use crate::render::ansi::{ansi_event_line, ansi_text, kinds_after, pairs_dimmed_text, BlockKind};
use crate::write::{block_fits, blocks_after, calls_fit, SyntaxEvent};
use crate::render::{indent_text, spaces, term_annotations_text, terms_joined};
use crate::types::{value_text, ColumnDef, TermAnnotation, Value};

verus! {


/// `s` with color codes removed, where `in_code` says whether a code has
/// been started and not yet ended: a code runs from an escape character up
/// to and including the next `m`.
pub open spec fn strip_from(s: Seq<char>, in_code: bool) -> Seq<char>
    decreases s.len(),
{
    if s.len() == 0 {
        Seq::empty()
    } else if in_code {
        strip_from(s.drop_first(), s[0] != 'm')
    } else if s[0] == '\x1b' {
        strip_from(s.drop_first(), true)
    } else {
        seq![s[0]] + strip_from(s.drop_first(), false)
    }
}

/// Whether a color code is still open after reading `s`.
pub open spec fn code_open_after(s: Seq<char>, in_code: bool) -> bool
    decreases s.len(),
{
    if s.len() == 0 {
        in_code
    } else if in_code {
        code_open_after(s.drop_first(), s[0] != 'm')
    } else if s[0] == '\x1b' {
        code_open_after(s.drop_first(), true)
    } else {
        code_open_after(s.drop_first(), false)
    }
}

/// Text with its color codes removed.
pub open spec fn strip_ansi(s: Seq<char>) -> Seq<char> {
    strip_from(s, false)
}

/// Text that ends outside any color code.
pub open spec fn codes_closed(s: Seq<char>) -> bool {
    !code_open_after(s, false)
}

/// Text without escape characters.
pub open spec fn escape_free(s: Seq<char>) -> bool {
    forall|i: int| 0 <= i < s.len() ==> s[i] != '\x1b'
}

/// A value whose text holds no escape character.
pub open spec fn value_escape_free(v: Value) -> bool {
    match v {
        Value::BitString(s) => escape_free(s@),
        _ => true,
    }
}

/// Term annotations whose names and values hold no escape character.
pub open spec fn terms_escape_free(terms: Seq<TermAnnotation>) -> bool {
    forall|i: int|
        0 <= i < terms.len() ==> escape_free(#[trigger] terms[i].name@) && value_escape_free(
            terms[i].value,
        )
}

/// Stripping works piece by piece.
pub proof fn lemma_strip_from_concat(a: Seq<char>, b: Seq<char>, in_code: bool)
    ensures
        strip_from(a + b, in_code) == strip_from(a, in_code) + strip_from(
            b,
            code_open_after(a, in_code),
        ),
        code_open_after(a + b, in_code) == code_open_after(b, code_open_after(a, in_code)),
    decreases a.len(),
{
    if a.len() == 0 {
        assert(a + b =~= b);
    } else {
        assert((a + b).drop_first() =~= a.drop_first() + b);
        let next = if in_code {
            a[0] != 'm'
        } else {
            a[0] == '\x1b'
        };
        lemma_strip_from_concat(a.drop_first(), b, next);
    }
}

/// `s` ends outside any color code and reads as `t` once stripped.
pub open spec fn strips_to(s: Seq<char>, t: Seq<char>) -> bool {
    strip_ansi(s) == t && codes_closed(s)
}

/// Two pieces that each strip cleanly strip cleanly together.
pub proof fn lemma_cat(a: Seq<char>, x: Seq<char>, b: Seq<char>, y: Seq<char>)
    requires
        strips_to(a, x),
        strips_to(b, y),
    ensures
        strips_to(a + b, x + y),
{
    lemma_strip_from_concat(a, b, false);
}

/// Text without escape characters is left as it is.
pub proof fn lemma_plain(t: Seq<char>)
    requires
        escape_free(t),
    ensures
        strips_to(t, t),
    decreases t.len(),
{
    if t.len() > 0 {
        assert(escape_free(t.drop_first())) by {
            assert forall|i: int| 0 <= i < t.drop_first().len() implies t.drop_first()[i]
                != '\x1b' by {
                assert(t.drop_first()[i] == t[i + 1]);
            }
        }
        lemma_plain(t.drop_first());
        assert(t[0] != '\x1b');
        assert(seq![t[0]] + t.drop_first() =~= t);
        assert(strip_from(t, false) == seq![t[0]] + strip_from(t.drop_first(), false));
        assert(code_open_after(t, false) == code_open_after(t.drop_first(), false));
    } else {
        assert(strip_ansi(t) =~= t);
    }
}

/// Each color code disappears when stripped, and closes itself.
pub proof fn lemma_codes_strip()
    ensures
        strips_to(DIM@, Seq::empty()),
        strips_to(RESET@, Seq::empty()),
        strips_to(KW@, Seq::empty()),
        strips_to(ELEM@, Seq::empty()),
        strips_to(FIELD@, Seq::empty()),
        strips_to(DESC@, Seq::empty()),
        strips_to(VAL@, Seq::empty()),
        strips_to(COMMENT@, Seq::empty()),
        strips_to(PUNCT@, Seq::empty()),
{
    reveal_with_fuel(strip_from, 9);
    reveal_with_fuel(code_open_after, 9);
    reveal_strlit("\x1b[2m");
    reveal_strlit("\x1b[0m");
    reveal_strlit("\x1b[1;35m");
    reveal_strlit("\x1b[1;36m");
    reveal_strlit("\x1b[1m");
    reveal_strlit("\x1b[33m");
    reveal_strlit("\x1b[32m");
    assert(strip_ansi(DIM@) =~= Seq::<char>::empty());
    assert(strip_ansi(RESET@) =~= Seq::<char>::empty());
    assert(strip_ansi(KW@) =~= Seq::<char>::empty());
    assert(strip_ansi(ELEM@) =~= Seq::<char>::empty());
    assert(strip_ansi(FIELD@) =~= Seq::<char>::empty());
    assert(strip_ansi(DESC@) =~= Seq::<char>::empty());
    assert(strip_ansi(VAL@) =~= Seq::<char>::empty());
}

/// Styled text reads as its text once stripped.
pub proof fn lemma_styled(code: Seq<char>, t: Seq<char>, x: Seq<char>)
    requires
        strips_to(code, Seq::empty()),
        strips_to(t, x),
    ensures
        strips_to(styled(code, t), x),
{
    lemma_codes_strip();
    lemma_cat(code, Seq::empty(), t, x);
    lemma_cat(code + t, Seq::empty() + x, RESET@, Seq::empty());
    assert(Seq::<char>::empty() + x + Seq::<char>::empty() =~= x);
}

/// Styled escape-free text reads as that text once stripped.
pub proof fn lemma_styled_plain(code: Seq<char>, t: Seq<char>)
    requires
        strips_to(code, Seq::empty()),
        escape_free(t),
    ensures
        strips_to(styled(code, t), t),
{
    lemma_plain(t);
    lemma_styled(code, t, t);
}

/// Concatenating escape-free texts gives escape-free text.
pub broadcast proof fn lemma_escape_free_concat(a: Seq<char>, b: Seq<char>)
    requires
        escape_free(a),
        escape_free(b),
    ensures
        #[trigger] escape_free(a + b),
{
    assert forall|i: int| 0 <= i < (a + b).len() implies (a + b)[i] != '\x1b' by {
        if i < a.len() {
            assert((a + b)[i] == a[i]);
        } else {
            assert((a + b)[i] == b[i - a.len()]);
        }
    }
}

/// The fixed parts of the lines hold no escape character.
pub proof fn lemma_literals_escape_free()
    ensures
        escape_free("\n"@),
        escape_free(" "@),
        escape_free("  "@),
        escape_free("("@),
        escape_free(")"@),
        escape_free("{"@),
        escape_free("}"@),
        escape_free(":"@),
        escape_free(") {"@),
        escape_free("() {"@),
        escape_free("/* "@),
        escape_free(" */"@),
        escape_free(": "@),
        escape_free(", "@),
        escape_free("= "@),
        escape_free("/* = "@),
        escape_free("if"@),
        escape_free("if ("@),
        escape_free("else"@),
        escape_free("else if"@),
        escape_free("} else if ("@),
        escape_free("} else {"@),
        escape_free("for"@),
        escape_free("while"@),
        escape_free("do"@),
        escape_free("switch"@),
        escape_free("case"@),
        escape_free("case "@),
        escape_free("break"@),
        escape_free("/* iteration: "@),
        escape_free("...\n"@),
{
    reveal_strlit("\n");
    reveal_strlit(" ");
    reveal_strlit("  ");
    reveal_strlit("(");
    reveal_strlit(")");
    reveal_strlit("{");
    reveal_strlit("}");
    reveal_strlit(":");
    reveal_strlit(") {");
    reveal_strlit("() {");
    reveal_strlit("/* ");
    reveal_strlit(" */");
    reveal_strlit(": ");
    reveal_strlit(", ");
    reveal_strlit("= ");
    reveal_strlit("/* = ");
    reveal_strlit("if");
    reveal_strlit("if (");
    reveal_strlit("else");
    reveal_strlit("else if");
    reveal_strlit("} else if (");
    reveal_strlit("} else {");
    reveal_strlit("for");
    reveal_strlit("while");
    reveal_strlit("do");
    reveal_strlit("switch");
    reveal_strlit("case");
    reveal_strlit("case ");
    reveal_strlit("break");
    reveal_strlit("/* iteration: ");
    reveal_strlit("...\n");
}

/// Digits, spaces and indentation hold no escape character.
pub proof fn lemma_generated_escape_free(n: nat, depth: nat)
    ensures
        escape_free(dec_text(n)),
        escape_free(spaces(n)),
        escape_free(indent_text(depth)),
{
    crate::numfmt::lemma_dec_text_digits(n);
}

/// A value's text holds no escape character unless its bit string does.
pub proof fn lemma_value_text_escape_free(v: Value)
    requires
        value_escape_free(v),
    ensures
        escape_free(value_text(v)),
{
    broadcast use lemma_escape_free_concat;

    match v {
        Value::Unsigned(n) => crate::numfmt::lemma_dec_text_digits(n as nat),
        Value::Signed(n) => {
            if n < 0 {
                crate::numfmt::lemma_dec_text_digits((-n) as nat);
            } else {
                crate::numfmt::lemma_dec_text_digits(n as nat);
            }
        },
        Value::Hex(n) => crate::numfmt::lemma_hex_text_digits(n as nat),
        Value::BitString(s) => {},
        Value::Bool(b) => {},
    }
}

/// Joined term annotations hold no escape character when the terms hold none.
pub proof fn lemma_terms_joined_escape_free(terms: Seq<TermAnnotation>)
    requires
        terms_escape_free(terms),
    ensures
        escape_free(terms_joined(terms)),
    decreases terms.len(),
{
    broadcast use lemma_escape_free_concat;

    lemma_literals_escape_free();
    if terms.len() > 0 {
        let last = terms.last();
        assert(escape_free(terms[terms.len() - 1].name@));
        lemma_value_text_escape_free(last.value);
        if terms.len() > 1 {
            assert(terms_escape_free(terms.drop_last())) by {
                assert forall|i: int| 0 <= i < terms.drop_last().len() implies escape_free(
                    #[trigger] terms.drop_last()[i].name@,
                ) && value_escape_free(terms.drop_last()[i].value) by {
                    assert(terms.drop_last()[i] == terms[i]);
                }
            }
            lemma_terms_joined_escape_free(terms.drop_last());
        } else {
            assert(escape_free(terms[0].name@));
            lemma_value_text_escape_free(terms[0].value);
        }
    }
}

/// Stripping the dimmed annotations leaves the plain annotations.
pub proof fn lemma_strip_annotations(terms: Seq<TermAnnotation>)
    requires
        terms_escape_free(terms),
    ensures
        strips_to(annotations_text(terms), term_annotations_text(terms)),
{
    broadcast use lemma_escape_free_concat;

    lemma_codes_strip();
    lemma_literals_escape_free();
    if terms.len() == 0 {
        assert(escape_free(Seq::<char>::empty()));
        lemma_plain(Seq::<char>::empty());
    } else {
        lemma_terms_joined_escape_free(terms);
        let inner = "/* "@ + terms_joined(terms) + " */"@;
        lemma_styled_plain(COMMENT@, inner);
        lemma_plain("  "@);
        lemma_cat("  "@, "  "@, styled(COMMENT@, inner), inner);
        reveal_strlit("  ");
        reveal_strlit("/* ");
        reveal_strlit("  /* ");
        assert("  "@ + inner =~= "  /* "@ + terms_joined(terms) + " */"@);
    }
}

/// Stripping `(inner) {` with its punctuation codes leaves `(inner) {`.
pub proof fn lemma_strip_paren_open_brace(inner: Seq<char>)
    requires
        escape_free(inner),
    ensures
        strips_to(ansi::paren_open_brace(inner), "("@ + inner + ") {"@),
{
    lemma_codes_strip();
    lemma_literals_escape_free();
    lemma_styled_plain(PUNCT@, "("@);
    lemma_styled_plain(PUNCT@, ") {"@);
    lemma_plain(inner);
    lemma_cat(styled(PUNCT@, "("@), "("@, inner, inner);
    lemma_cat(styled(PUNCT@, "("@) + inner, "("@ + inner, styled(PUNCT@, ") {"@), ") {"@);
}

/// Stripping `keyword (inner) {` leaves it without codes.
pub proof fn lemma_strip_keyword_block_open(keyword: Seq<char>, inner: Seq<char>)
    requires
        escape_free(keyword),
        escape_free(inner),
    ensures
        strips_to(ansi::keyword_block_open(keyword, inner), keyword + " "@ + ("("@ + inner + ") {"@)),
{
    lemma_codes_strip();
    lemma_literals_escape_free();
    lemma_styled_plain(KW@, keyword);
    lemma_plain(" "@);
    lemma_strip_paren_open_brace(inner);
    lemma_cat(styled(KW@, keyword), keyword, " "@, " "@);
    lemma_cat(
        styled(KW@, keyword) + " "@,
        keyword + " "@,
        ansi::paren_open_brace(inner),
        "("@ + inner + ") {"@,
    );
}

/// A line made of an indentation, a head, annotations and a newline strips
/// to the same shape.
pub proof fn lemma_strip_annotated_line(
    depth: nat,
    head: Seq<char>,
    plain_head: Seq<char>,
    terms: Seq<TermAnnotation>,
)
    requires
        strips_to(head, plain_head),
        terms_escape_free(terms),
    ensures
        strips_to(
            indent_text(depth) + head + annotations_text(terms) + "\n"@,
            indent_text(depth) + plain_head + term_annotations_text(terms) + "\n"@,
        ),
{
    lemma_literals_escape_free();
    lemma_generated_escape_free(0, depth);
    lemma_plain(indent_text(depth));
    lemma_plain("\n"@);
    lemma_strip_annotations(terms);
    lemma_cat(indent_text(depth), indent_text(depth), head, plain_head);
    lemma_cat(
        indent_text(depth) + head,
        indent_text(depth) + plain_head,
        annotations_text(terms),
        term_annotations_text(terms),
    );
    lemma_cat(
        indent_text(depth) + head + annotations_text(terms),
        indent_text(depth) + plain_head + term_annotations_text(terms),
        "\n"@,
        "\n"@,
    );
}

/// A line made of an indentation, a body and a newline strips to the same shape.
pub proof fn lemma_strip_simple_line(depth: nat, body: Seq<char>, plain_body: Seq<char>)
    requires
        strips_to(body, plain_body),
    ensures
        strips_to(
            indent_text(depth) + body + "\n"@,
            indent_text(depth) + plain_body + "\n"@,
        ),
{
    lemma_literals_escape_free();
    lemma_generated_escape_free(0, depth);
    lemma_plain(indent_text(depth));
    lemma_plain("\n"@);
    lemma_cat(indent_text(depth), indent_text(depth), body, plain_body);
    lemma_cat(indent_text(depth) + body, indent_text(depth) + plain_body, "\n"@, "\n"@);
}

/// Stripping the ANSI `if` line leaves the plain text `if` line.
pub proof fn lemma_strip_if_line(
    depth: nat,
    condition: Seq<char>,
    terms: Seq<TermAnnotation>,
    taken: bool,
)
    requires
        escape_free(condition),
        terms_escape_free(terms),
    ensures
        strips_to(ansi::if_line(depth, condition, terms, taken), text::if_line(depth, condition, terms)),
{
    broadcast use lemma_escape_free_concat;

    lemma_codes_strip();
    lemma_literals_escape_free();
    reveal_strlit("if");
    reveal_strlit(" ");
    reveal_strlit("(");
    reveal_strlit("if (");
    let plain_head = "if ("@ + condition + ") {"@;
    assert(text::if_line(depth, condition, terms) =~= indent_text(depth) + plain_head
        + term_annotations_text(terms) + "\n"@);
    if taken {
        lemma_strip_keyword_block_open("if"@, condition);
        assert("if"@ + " "@ + ("("@ + condition + ") {"@) =~= plain_head);
        lemma_strip_annotated_line(
            depth,
            ansi::keyword_block_open("if"@, condition),
            plain_head,
            terms,
        );
    } else {
        lemma_styled_plain(DIM@, plain_head);
        lemma_strip_annotated_line(depth, styled(DIM@, plain_head), plain_head, terms);
    }
}

/// An optional text without escape characters.
pub open spec fn opt_escape_free(o: Option<Seq<char>>) -> bool {
    match o {
        Some(t) => escape_free(t),
        None => true,
    }
}

/// An optional value whose text holds no escape character.
pub open spec fn opt_value_escape_free(o: Option<Value>) -> bool {
    match o {
        Some(v) => value_escape_free(v),
        None => true,
    }
}

/// Stripping the ANSI element line leaves the plain one.
pub proof fn lemma_strip_element_open_line(depth: nat, name: Seq<char>, params: Option<Seq<char>>)
    requires
        escape_free(name),
        opt_escape_free(params),
    ensures
        strips_to(ansi::element_open_line(depth, name, params), text::element_open_line(depth, name, params)),
{
    lemma_codes_strip();
    lemma_literals_escape_free();
    lemma_styled_plain(ELEM@, name);
    reveal_strlit("() {");
    reveal_strlit("() {\n");
    reveal_strlit(") {");
    reveal_strlit(") {\n");
    reveal_strlit("(");
    reveal_strlit("\n");
    match params {
        Some(p) => {
            lemma_strip_paren_open_brace(p);
            let body = styled(ELEM@, name) + ansi::paren_open_brace(p);
            let plain_body = name + ("("@ + p + ") {"@);
            lemma_cat(styled(ELEM@, name), name, ansi::paren_open_brace(p), "("@ + p + ") {"@);
            lemma_strip_simple_line(depth, body, plain_body);
            assert(ansi::element_open_line(depth, name, params) =~= indent_text(depth) + body
                + "\n"@);
            assert(text::element_open_line(depth, name, params) =~= indent_text(depth)
                + plain_body + "\n"@);
        },
        None => {
            lemma_styled_plain(PUNCT@, "() {"@);
            let body = styled(ELEM@, name) + styled(PUNCT@, "() {"@);
            let plain_body = name + "() {"@;
            lemma_cat(styled(ELEM@, name), name, styled(PUNCT@, "() {"@), "() {"@);
            lemma_strip_simple_line(depth, body, plain_body);
            assert(ansi::element_open_line(depth, name, params) =~= indent_text(depth) + body
                + "\n"@);
            assert(text::element_open_line(depth, name, params) =~= indent_text(depth)
                + plain_body + "\n"@);
        },
    }
}

/// Stripping an ANSI closing brace leaves the plain one, taken or not.
pub proof fn lemma_strip_close_line(depth: nat, taken: bool)
    ensures
        strips_to(ansi::close_line(depth), text::close_line(depth)),
        strips_to(ansi::close_branch_line(depth, taken), text::close_line(depth)),
{
    lemma_codes_strip();
    lemma_literals_escape_free();
    reveal_strlit("}");
    reveal_strlit("\n");
    reveal_strlit("}\n");
    lemma_styled_plain(PUNCT@, "}"@);
    lemma_styled_plain(DIM@, "}"@);
    lemma_strip_simple_line(depth, styled(PUNCT@, "}"@), "}"@);
    lemma_strip_simple_line(depth, styled(DIM@, "}"@), "}"@);
    assert(text::close_line(depth) =~= indent_text(depth) + "}"@ + "\n"@);
}

/// Stripping the ANSI `else if` line leaves the plain one.
pub proof fn lemma_strip_else_if_line(
    depth: nat,
    condition: Seq<char>,
    terms: Seq<TermAnnotation>,
    taken: bool,
)
    requires
        escape_free(condition),
        terms_escape_free(terms),
    ensures
        strips_to(ansi::else_if_line(depth, condition, terms, taken), text::else_if_line(depth, condition, terms)),
{
    broadcast use lemma_escape_free_concat;

    lemma_codes_strip();
    lemma_literals_escape_free();
    let plain_head = "} else if ("@ + condition + ") {"@;
    if taken {
        lemma_styled_plain(PUNCT@, "}"@);
        lemma_plain(" "@);
        lemma_strip_keyword_block_open("else if"@, condition);
        lemma_cat(styled(PUNCT@, "}"@), "}"@, " "@, " "@);
        let head = styled(PUNCT@, "}"@) + " "@ + ansi::keyword_block_open("else if"@, condition);
        lemma_cat(
            styled(PUNCT@, "}"@) + " "@,
            "}"@ + " "@,
            ansi::keyword_block_open("else if"@, condition),
            "else if"@ + " "@ + ("("@ + condition + ") {"@),
        );
        reveal_strlit("}");
        reveal_strlit(" ");
        reveal_strlit("else if");
        reveal_strlit("(");
        reveal_strlit("} else if (");
        assert("}"@ + " "@ + ("else if"@ + " "@ + ("("@ + condition + ") {"@)) =~= plain_head);
        lemma_strip_annotated_line(depth, head, plain_head, terms);
        assert(ansi::else_if_line(depth, condition, terms, taken) =~= indent_text(depth) + head
            + annotations_text(terms) + "\n"@);
    } else {
        lemma_styled_plain(DIM@, plain_head);
        lemma_strip_annotated_line(depth, styled(DIM@, plain_head), plain_head, terms);
    }
    assert(text::else_if_line(depth, condition, terms) =~= indent_text(depth) + plain_head
        + term_annotations_text(terms) + "\n"@);
}

/// Stripping the ANSI `else` line leaves the plain one.
pub proof fn lemma_strip_else_line(depth: nat, taken: bool)
    ensures
        strips_to(ansi::else_line(depth, taken), text::else_line(depth)),
{
    lemma_codes_strip();
    lemma_literals_escape_free();
    reveal_strlit("}");
    reveal_strlit(" ");
    reveal_strlit("else");
    reveal_strlit("{");
    reveal_strlit("} else {");
    reveal_strlit("\n");
    reveal_strlit("} else {\n");
    let plain_body = "} else {"@;
    if taken {
        lemma_styled_plain(PUNCT@, "}"@);
        lemma_styled_plain(KW@, "else"@);
        lemma_styled_plain(PUNCT@, "{"@);
        lemma_plain(" "@);
        let a1 = styled(PUNCT@, "}"@);
        let a2 = a1 + " "@;
        let a3 = a2 + styled(KW@, "else"@);
        let a4 = a3 + " "@;
        let a5 = a4 + styled(PUNCT@, "{"@);
        lemma_cat(a1, "}"@, " "@, " "@);
        lemma_cat(a2, "}"@ + " "@, styled(KW@, "else"@), "else"@);
        lemma_cat(a3, "}"@ + " "@ + "else"@, " "@, " "@);
        lemma_cat(a4, "}"@ + " "@ + "else"@ + " "@, styled(PUNCT@, "{"@), "{"@);
        assert("}"@ + " "@ + "else"@ + " "@ + "{"@ =~= plain_body);
        lemma_strip_simple_line(depth, a5, plain_body);
        assert(ansi::else_line(depth, taken) =~= indent_text(depth) + a5 + "\n"@);
    } else {
        lemma_styled_plain(DIM@, plain_body);
        lemma_strip_simple_line(depth, styled(DIM@, plain_body), plain_body);
    }
    assert(text::else_line(depth) =~= indent_text(depth) + plain_body + "\n"@);
}

/// Stripping the ANSI `for` line leaves the plain one.
pub proof fn lemma_strip_for_line(depth: nat, header: Seq<char>, terms: Seq<TermAnnotation>)
    requires
        escape_free(header),
        terms_escape_free(terms),
    ensures
        strips_to(ansi::for_line(depth, header, terms), text::for_line(depth, header, terms)),
{
    lemma_literals_escape_free();
    reveal_strlit("for");
    reveal_strlit(" ");
    reveal_strlit("(");
    reveal_strlit("for (");
    let plain_head = "for ("@ + header + ") {"@;
    lemma_strip_keyword_block_open("for"@, header);
    assert("for"@ + " "@ + ("("@ + header + ") {"@) =~= plain_head);
    lemma_strip_annotated_line(depth, ansi::keyword_block_open("for"@, header), plain_head, terms);
    assert(text::for_line(depth, header, terms) =~= indent_text(depth) + plain_head
        + term_annotations_text(terms) + "\n"@);
}

/// Stripping the ANSI `switch` line leaves the plain one.
pub proof fn lemma_strip_switch_line(depth: nat, expression: Seq<char>, terms: Seq<TermAnnotation>)
    requires
        escape_free(expression),
        terms_escape_free(terms),
    ensures
        strips_to(ansi::switch_line(depth, expression, terms), text::switch_line(depth, expression, terms)),
{
    lemma_literals_escape_free();
    reveal_strlit("switch");
    reveal_strlit(" ");
    reveal_strlit("(");
    reveal_strlit("switch (");
    let plain_head = "switch ("@ + expression + ") {"@;
    assert(text::switch_line(depth, expression, terms) =~= indent_text(depth) + plain_head
        + term_annotations_text(terms) + "\n"@);
    lemma_strip_keyword_block_open("switch"@, expression);
    assert("switch"@ + " "@ + ("("@ + expression + ") {"@) =~= plain_head);
    lemma_strip_annotated_line(
        depth,
        ansi::keyword_block_open("switch"@, expression),
        plain_head,
        terms,
    );
}

/// Stripping the ANSI `while` line leaves the plain one.
pub proof fn lemma_strip_while_line(depth: nat, condition: Seq<char>)
    requires
        escape_free(condition),
    ensures
        strips_to(ansi::while_line(depth, condition), text::while_line(depth, condition)),
{
    lemma_literals_escape_free();
    reveal_strlit("while");
    reveal_strlit(" ");
    reveal_strlit("(");
    reveal_strlit("while (");
    reveal_strlit(") {");
    reveal_strlit("\n");
    reveal_strlit(") {\n");
    let plain_body = "while"@ + " "@ + ("("@ + condition + ") {"@);
    lemma_strip_keyword_block_open("while"@, condition);
    lemma_strip_simple_line(depth, ansi::keyword_block_open("while"@, condition), plain_body);
    assert(text::while_line(depth, condition) =~= indent_text(depth) + plain_body + "\n"@);
}

/// Stripping an ANSI iteration marker leaves the plain one.
pub proof fn lemma_strip_iteration_lines(depth: nat, variable: Seq<char>, index: u64)
    requires
        escape_free(variable),
    ensures
        strips_to(ansi::iteration_line(depth, index), text::iteration_line(depth, index)),
        strips_to(
            ansi::for_iteration_line(depth, variable, index),
            text::for_iteration_line(depth, variable, index),
        ),
{
    broadcast use lemma_escape_free_concat;

    lemma_codes_strip();
    lemma_literals_escape_free();
    lemma_generated_escape_free(index as nat, depth);
    reveal_strlit(" */");
    reveal_strlit("\n");
    reveal_strlit(" */\n");
    let b1 = "/* iteration: "@ + dec_text(index as nat) + " */"@;
    lemma_styled_plain(COMMENT@, b1);
    lemma_strip_simple_line(depth, styled(COMMENT@, b1), b1);
    assert(text::iteration_line(depth, index) =~= indent_text(depth) + b1 + "\n"@);
    let b2 = "/* "@ + variable + ": "@ + dec_text(index as nat) + " */"@;
    lemma_styled_plain(COMMENT@, b2);
    lemma_strip_simple_line(depth, styled(COMMENT@, b2), b2);
    assert(text::for_iteration_line(depth, variable, index) =~= indent_text(depth) + b2
        + "\n"@);
}

/// Stripping the ANSI `do` line and `} while (...)` line leaves the plain ones.
pub proof fn lemma_strip_do_lines(depth: nat, condition: Seq<char>)
    requires
        escape_free(condition),
    ensures
        strips_to(ansi::do_line(depth), text::do_line(depth)),
        strips_to(ansi::do_while_end_line(depth, condition), text::do_while_end_line(depth, condition)),
{
    lemma_codes_strip();
    lemma_literals_escape_free();
    reveal_strlit("do");
    reveal_strlit(" ");
    reveal_strlit("{");
    reveal_strlit("\n");
    reveal_strlit("do {\n");
    reveal_strlit("}");
    reveal_strlit("while");
    reveal_strlit("(");
    reveal_strlit(")");
    reveal_strlit("} while (");
    reveal_strlit(")\n");
    lemma_styled_plain(KW@, "do"@);
    lemma_styled_plain(PUNCT@, "{"@);
    lemma_plain(" "@);
    let d1 = styled(KW@, "do"@);
    lemma_cat(d1, "do"@, " "@, " "@);
    lemma_cat(d1 + " "@, "do"@ + " "@, styled(PUNCT@, "{"@), "{"@);
    lemma_strip_simple_line(depth, d1 + " "@ + styled(PUNCT@, "{"@), "do"@ + " "@ + "{"@);
    assert(text::do_line(depth) =~= indent_text(depth) + ("do"@ + " "@ + "{"@) + "\n"@);
    assert(ansi::do_line(depth) =~= indent_text(depth) + (d1 + " "@ + styled(PUNCT@, "{"@))
        + "\n"@);
    lemma_styled_plain(PUNCT@, "}"@);
    lemma_styled_plain(KW@, "while"@);
    lemma_styled_plain(PUNCT@, "("@);
    lemma_styled_plain(PUNCT@, ")"@);
    lemma_plain(condition);
    let w1 = styled(PUNCT@, "}"@);
    let w2 = w1 + " "@;
    let w3 = w2 + styled(KW@, "while"@);
    let w4 = w3 + " "@;
    let w5 = w4 + styled(PUNCT@, "("@);
    let w6 = w5 + condition;
    let w7 = w6 + styled(PUNCT@, ")"@);
    lemma_cat(w1, "}"@, " "@, " "@);
    lemma_cat(w2, "}"@ + " "@, styled(KW@, "while"@), "while"@);
    lemma_cat(w3, "}"@ + " "@ + "while"@, " "@, " "@);
    lemma_cat(w4, "}"@ + " "@ + "while"@ + " "@, styled(PUNCT@, "("@), "("@);
    lemma_cat(w5, "}"@ + " "@ + "while"@ + " "@ + "("@, condition, condition);
    lemma_cat(w6, "}"@ + " "@ + "while"@ + " "@ + "("@ + condition, styled(PUNCT@, ")"@), ")"@);
    let plain = "}"@ + " "@ + "while"@ + " "@ + "("@ + condition + ")"@;
    lemma_strip_simple_line(depth, w7, plain);
    assert(ansi::do_while_end_line(depth, condition) =~= indent_text(depth) + w7 + "\n"@);
    assert(text::do_while_end_line(depth, condition) =~= indent_text(depth) + plain + "\n"@);
}

/// Stripping the ANSI `case` and `break` lines leaves the plain ones.
pub proof fn lemma_strip_case_lines(depth: nat, label: Seq<char>, taken: bool)
    requires
        escape_free(label),
    ensures
        strips_to(ansi::case_line(depth, label, taken), text::case_line(depth, label)),
        strips_to(ansi::break_line(depth, taken), text::break_line(depth)),
{
    broadcast use lemma_escape_free_concat;

    lemma_codes_strip();
    lemma_literals_escape_free();
    reveal_strlit("case");
    reveal_strlit(" ");
    reveal_strlit("case ");
    reveal_strlit(":");
    reveal_strlit("\n");
    reveal_strlit(":\n");
    reveal_strlit("break");
    reveal_strlit("break\n");
    let plain = "case "@ + label + ":"@;
    if taken {
        lemma_styled_plain(KW@, "case"@);
        lemma_plain(" "@);
        lemma_plain(label);
        lemma_plain(":"@);
        let c1 = styled(KW@, "case"@);
        lemma_cat(c1, "case"@, " "@, " "@);
        lemma_cat(c1 + " "@, "case"@ + " "@, label, label);
        lemma_cat(c1 + " "@ + label, "case"@ + " "@ + label, ":"@, ":"@);
        assert("case"@ + " "@ + label + ":"@ =~= plain);
        lemma_strip_simple_line(depth, c1 + " "@ + label + ":"@, plain);
        assert(ansi::case_line(depth, label, taken) =~= indent_text(depth) + (c1 + " "@ + label
            + ":"@) + "\n"@);
        lemma_styled_plain(KW@, "break"@);
        lemma_strip_simple_line(depth, styled(KW@, "break"@), "break"@);
    } else {
        lemma_styled_plain(DIM@, plain);
        lemma_strip_simple_line(depth, styled(DIM@, plain), plain);
        lemma_styled_plain(DIM@, "break"@);
        lemma_strip_simple_line(depth, styled(DIM@, "break"@), "break"@);
    }
    assert(text::case_line(depth, label) =~= indent_text(depth) + plain + "\n"@);
    assert(text::break_line(depth) =~= indent_text(depth) + "break"@ + "\n"@);
}

/// Stripping the ANSI comment and ellipsis lines leaves the plain ones.
pub proof fn lemma_strip_comment_lines(depth: nat, text_: Seq<char>)
    requires
        escape_free(text_),
    ensures
        strips_to(ansi::comment_line(depth, text_), text::comment_line(depth, text_)),
        strips_to(ansi::ellipsis_line(depth), text::ellipsis_line(depth)),
{
    broadcast use lemma_escape_free_concat;

    lemma_codes_strip();
    lemma_literals_escape_free();
    lemma_generated_escape_free(0, depth);
    reveal_strlit(" */");
    reveal_strlit("\n");
    reveal_strlit(" */\n");
    let b = "/* "@ + text_ + " */"@;
    lemma_styled_plain(COMMENT@, b);
    lemma_strip_simple_line(depth, styled(COMMENT@, b), b);
    assert(text::comment_line(depth, text_) =~= indent_text(depth) + b + "\n"@);
    lemma_plain(text::ellipsis_line(depth));
}

/// Stripping the ANSI assignment line leaves the plain one.
pub proof fn lemma_strip_assignment_line(depth: nat, expression: Seq<char>, value: Option<Value>)
    requires
        escape_free(expression),
        opt_value_escape_free(value),
    ensures
        strips_to(ansi::assignment_line(depth, expression, value), text::assignment_line(depth, expression, value)),
{
    broadcast use lemma_escape_free_concat;

    lemma_codes_strip();
    lemma_literals_escape_free();
    lemma_generated_escape_free(0, depth);
    match value {
        Some(v) => {
            lemma_value_text_escape_free(v);
            let pad = text::assignment_pad(depth as int, crate::render::utf8_len(expression) as int);
            lemma_generated_escape_free(pad, depth);
            let a0 = indent_text(depth) + expression + spaces(pad);
            lemma_plain(a0);
            lemma_plain("/* = "@);
            lemma_plain(value_text(v));
            lemma_plain(" */"@);
            lemma_plain("\n"@);
            let a1 = a0 + COMMENT@;
            let a2 = a1 + "/* = "@;
            let a3 = a2 + VAL@;
            let a4 = a3 + value_text(v);
            let a5 = a4 + COMMENT@;
            let a6 = a5 + " */"@;
            let a7 = a6 + RESET@;
            lemma_cat(a0, a0, COMMENT@, Seq::empty());
            lemma_cat(a1, a0 + Seq::empty(), "/* = "@, "/* = "@);
            lemma_cat(a2, a0 + Seq::empty() + "/* = "@, VAL@, Seq::empty());
            lemma_cat(a3, a0 + Seq::empty() + "/* = "@ + Seq::empty(), value_text(v), value_text(v));
            let x4 = a0 + Seq::empty() + "/* = "@ + Seq::empty() + value_text(v);
            lemma_cat(a4, x4, COMMENT@, Seq::empty());
            lemma_cat(a5, x4 + Seq::empty(), " */"@, " */"@);
            lemma_cat(a6, x4 + Seq::empty() + " */"@, RESET@, Seq::empty());
            lemma_cat(a7, x4 + Seq::empty() + " */"@ + Seq::empty(), "\n"@, "\n"@);
            reveal_strlit(" */");
            reveal_strlit("\n");
            reveal_strlit(" */\n");
            assert(x4 + Seq::empty() + " */"@ + Seq::empty() + "\n"@ =~= text::assignment_line(
                depth,
                expression,
                value,
            ));
        },
        None => {
            lemma_plain(text::assignment_line(depth, expression, value));
        },
    }
}

/// The byte length of the plain name part is what the ANSI renderer
/// counts as visible.
pub proof fn lemma_name_visible_len(name: Seq<char>, comment: Option<Seq<char>>)
    ensures
        ansi::name_visible_len(name, comment) == crate::render::utf8_len(
            text::name_part_text(name, comment),
        ),
{
    broadcast use crate::render::lemma_encode_utf8_concat;

    match comment {
        Some(c) => {
            reveal_strlit("  /* ");
            reveal_strlit(" */");
            crate::render::lemma_ascii_utf8_len("  /* "@);
            crate::render::lemma_ascii_utf8_len(" */"@);
        },
        None => {},
    }
}

/// Stripping the ANSI name part leaves the plain name part.
pub proof fn lemma_strip_name(name: Seq<char>, comment: Option<Seq<char>>)
    requires
        escape_free(name),
        opt_escape_free(comment),
    ensures
        strips_to(ansi::name_text(name, comment), text::name_part_text(name, comment)),
{
    broadcast use lemma_escape_free_concat;

    lemma_codes_strip();
    lemma_literals_escape_free();
    lemma_styled_plain(FIELD@, name);
    match comment {
        Some(c) => {
            let inner = "/* "@ + c + " */"@;
            lemma_styled_plain(COMMENT@, inner);
            lemma_plain("  "@);
            lemma_cat(styled(FIELD@, name), name, "  "@, "  "@);
            lemma_cat(styled(FIELD@, name) + "  "@, name + "  "@, styled(COMMENT@, inner), inner);
            reveal_strlit("  ");
            reveal_strlit("/* ");
            reveal_strlit("  /* ");
            assert(name + "  "@ + inner =~= name + "  /* "@ + c + " */"@);
        },
        None => {},
    }
}

/// Stripping the ANSI value column leaves the plain value column.
pub proof fn lemma_strip_value_column(desc_len: nat, value: Option<Value>)
    requires
        opt_value_escape_free(value),
    ensures
        strips_to(ansi::value_column_text(desc_len, value), text::value_column_text(desc_len, value)),
{
    lemma_codes_strip();
    lemma_literals_escape_free();
    match value {
        Some(v) => {
            lemma_value_text_escape_free(v);
            let pad = crate::render::pad_to(
                crate::render::VALUE_COL as int,
                crate::render::DESCRIPTOR_COL + desc_len,
            );
            lemma_generated_escape_free(pad, 0);
            lemma_plain(spaces(pad));
            lemma_plain("= "@);
            lemma_styled_plain(VAL@, value_text(v));
            lemma_cat(spaces(pad), spaces(pad), "= "@, "= "@);
            lemma_cat(spaces(pad) + "= "@, spaces(pad) + "= "@, styled(VAL@, value_text(v)), value_text(v));
        },
        None => {
            assert(escape_free(Seq::<char>::empty()));
            lemma_plain(Seq::<char>::empty());
        },
    }
}

/// Stripping an ANSI fixed-width field line leaves the plain one.
pub proof fn lemma_strip_fixed_field_line(
    depth: nat,
    name: Seq<char>,
    comment: Option<Seq<char>>,
    bits: u32,
    descriptor: Seq<char>,
    value: Option<Value>,
)
    requires
        escape_free(name),
        opt_escape_free(comment),
        escape_free(descriptor),
        opt_value_escape_free(value),
    ensures
        strips_to(
            ansi::fixed_field_line(depth, name, comment, bits, descriptor, value),
            text::fixed_field_line(depth, name, comment, bits, descriptor, value),
        ),
{
    lemma_codes_strip();
    lemma_literals_escape_free();
    lemma_name_visible_len(name, comment);
    lemma_strip_name(name, comment);
    let desc_len = crate::render::utf8_len(descriptor);
    lemma_strip_value_column(desc_len, value);
    lemma_styled_plain(DESC@, descriptor);
    let width_str = dec_text(bits as nat);
    let name_part = text::name_part_text(name, comment);
    let pad1 = crate::render::pad_to(
        crate::render::WIDTH_COL as int,
        depth * crate::render::INDENT_WIDTH + ansi::name_visible_len(name, comment),
    );
    let pad2 = crate::render::pad_to(
        crate::render::DESCRIPTOR_COL as int,
        crate::render::WIDTH_COL + crate::render::utf8_len(width_str),
    );
    lemma_generated_escape_free(bits as nat, depth);
    lemma_generated_escape_free(pad1, depth);
    lemma_plain(spaces(pad1));
    lemma_generated_escape_free(pad2, depth);
    lemma_plain(spaces(pad2));
    lemma_plain(indent_text(depth));
    lemma_plain(width_str);
    lemma_plain("\n"@);
    let vc = ansi::value_column_text(desc_len, value);
    let pvc = text::value_column_text(desc_len, value);
    let a1 = indent_text(depth) + ansi::name_text(name, comment);
    let x1 = indent_text(depth) + name_part;
    lemma_cat(indent_text(depth), indent_text(depth), ansi::name_text(name, comment), name_part);
    lemma_cat(a1, x1, spaces(pad1), spaces(pad1));
    lemma_cat(a1 + spaces(pad1), x1 + spaces(pad1), width_str, width_str);
    let a2 = a1 + spaces(pad1) + width_str;
    let x2 = x1 + spaces(pad1) + width_str;
    lemma_cat(a2, x2, spaces(pad2), spaces(pad2));
    lemma_cat(a2 + spaces(pad2), x2 + spaces(pad2), styled(DESC@, descriptor), descriptor);
    let a3 = a2 + spaces(pad2) + styled(DESC@, descriptor);
    let x3 = x2 + spaces(pad2) + descriptor;
    lemma_cat(a3, x3, vc, pvc);
    lemma_cat(a3 + vc, x3 + pvc, "\n"@, "\n"@);
}

/// Stripping an ANSI variable-length field line leaves the plain one.
pub proof fn lemma_strip_variable_field_line(
    depth: nat,
    name: Seq<char>,
    comment: Option<Seq<char>>,
    descriptor: Seq<char>,
    value: Option<Value>,
)
    requires
        escape_free(name),
        opt_escape_free(comment),
        escape_free(descriptor),
        opt_value_escape_free(value),
    ensures
        strips_to(
            ansi::variable_field_line(depth, name, comment, descriptor, value),
            text::variable_field_line(depth, name, comment, descriptor, value),
        ),
{
    lemma_codes_strip();
    lemma_literals_escape_free();
    lemma_name_visible_len(name, comment);
    lemma_strip_name(name, comment);
    let desc_len = crate::render::utf8_len(descriptor);
    lemma_strip_value_column(desc_len, value);
    lemma_styled_plain(DESC@, descriptor);
    let name_part = text::name_part_text(name, comment);
    let pad1 = crate::render::pad_to(
        crate::render::DESCRIPTOR_COL as int,
        depth * crate::render::INDENT_WIDTH + ansi::name_visible_len(name, comment),
    );
    lemma_generated_escape_free(pad1, depth);
    lemma_plain(spaces(pad1));
    lemma_plain(indent_text(depth));
    lemma_plain("\n"@);
    let vc = ansi::value_column_text(desc_len, value);
    let pvc = text::value_column_text(desc_len, value);
    let a1 = indent_text(depth) + ansi::name_text(name, comment);
    let x1 = indent_text(depth) + name_part;
    lemma_cat(indent_text(depth), indent_text(depth), ansi::name_text(name, comment), name_part);
    lemma_cat(a1, x1, spaces(pad1), spaces(pad1));
    lemma_cat(a1 + spaces(pad1), x1 + spaces(pad1), styled(DESC@, descriptor), descriptor);
    let a3 = a1 + spaces(pad1) + styled(DESC@, descriptor);
    let x3 = x1 + spaces(pad1) + descriptor;
    lemma_cat(a3, x3, vc, pvc);
    lemma_cat(a3 + vc, x3 + pvc, "\n"@, "\n"@);
}

/// Hex dump lines hold no escape character.
pub proof fn lemma_hex_dump_escape_free(data: Seq<u8>)
    ensures
        forall|i: int|
            0 <= i < crate::render::hex_dump_lines(data).len() ==> escape_free(
                #[trigger] crate::render::hex_dump_lines(data)[i],
            ),
{
    let count = crate::render::hex_line_count(crate::render::hex_shown(data.len()));
    lemma_hex_chunk_lines_escape_free(data, count);
    crate::render::lemma_hex_chunk_lines_len(data, count);
    reveal_strlit("...");
    let lines = crate::render::hex_dump_lines(data);
    assert forall|i: int| 0 <= i < lines.len() implies escape_free(#[trigger] lines[i]) by {
        if i < count {
            assert(lines[i] == crate::render::hex_chunk_lines(data, count)[i]);
        }
    }
}

/// The first `k` hex dump lines hold no escape character.
proof fn lemma_hex_chunk_lines_escape_free(data: Seq<u8>, k: nat)
    ensures
        forall|i: int|
            0 <= i < crate::render::hex_chunk_lines(data, k).len() ==> escape_free(
                #[trigger] crate::render::hex_chunk_lines(data, k)[i],
            ),
    decreases k,
{
    if k > 0 {
        lemma_hex_chunk_lines_escape_free(data, (k - 1) as nat);
        crate::render::lemma_hex_chunk_lines_len(data, (k - 1) as nat);
        let start = (k - 1) * crate::render::HEX_BYTES_PER_LINE;
        let end = if start + crate::render::HEX_BYTES_PER_LINE < crate::render::hex_shown(
            data.len(),
        ) {
            start + crate::render::HEX_BYTES_PER_LINE
        } else {
            crate::render::hex_shown(data.len()) as int
        };
        lemma_hex_line_escape_free(data.subrange(start, end));
        let lines = crate::render::hex_chunk_lines(data, k);
        let prev = crate::render::hex_chunk_lines(data, (k - 1) as nat);
        assert forall|i: int| 0 <= i < lines.len() implies escape_free(#[trigger] lines[i]) by {
            if i < prev.len() {
                assert(lines[i] == prev[i]);
            }
        }
    }
}

/// A hex dump line holds no escape character.
proof fn lemma_hex_line_escape_free(chunk: Seq<u8>)
    ensures
        escape_free(crate::render::hex_line_text(chunk)),
    decreases chunk.len(),
{
    broadcast use lemma_escape_free_concat;

    if chunk.len() > 0 {
        lemma_hex_line_escape_free(chunk.drop_last());
        let b = chunk.last();
        let h = crate::numfmt::byte_hex_text(b);
        assert(escape_free(h)) by {
            assert(crate::numfmt::lower_digit((b / 16) as nat) != '\x1b');
            assert(crate::numfmt::lower_digit((b % 16) as nat) != '\x1b');
        }
        assert(escape_free(crate::render::hex_separator(chunk.len() - 1)));
    }
}

/// Stripping the dimmed lines leaves the plain indented lines.
pub proof fn lemma_strip_dimmed_lines(depth: nat, lines: Seq<Seq<char>>)
    requires
        forall|i: int| 0 <= i < lines.len() ==> escape_free(#[trigger] lines[i]),
    ensures
        strips_to(ansi::dimmed_lines(depth, lines), crate::render::indented_lines(depth, lines)),
    decreases lines.len(),
{
    lemma_codes_strip();
    if lines.len() == 0 {
        lemma_plain(Seq::<char>::empty());
        assert(escape_free(Seq::<char>::empty()));
    } else {
        assert forall|i: int| 0 <= i < lines.drop_last().len() implies escape_free(
            #[trigger] lines.drop_last()[i],
        ) by {
            assert(lines.drop_last()[i] == lines[i]);
        }
        lemma_strip_dimmed_lines(depth, lines.drop_last());
        assert(escape_free(lines[lines.len() - 1]));
        lemma_styled_plain(DIM@, lines.last());
        lemma_strip_simple_line(depth, styled(DIM@, lines.last()), lines.last());
        lemma_cat(
            ansi::dimmed_lines(depth, lines.drop_last()),
            crate::render::indented_lines(depth, lines.drop_last()),
            indent_text(depth) + styled(DIM@, lines.last()) + "\n"@,
            indent_text(depth) + lines.last() + "\n"@,
        );
        assert(ansi::dimmed_lines(depth, lines) =~= ansi::dimmed_lines(depth, lines.drop_last()) + (
        indent_text(depth) + styled(DIM@, lines.last()) + "\n"@));
        assert(crate::render::indented_lines(depth, lines) =~= crate::render::indented_lines(
            depth,
            lines.drop_last(),
        ) + (indent_text(depth) + lines.last() + "\n"@));
    }
}

/// Stripping the ANSI hex dump leaves the plain hex dump.
pub proof fn lemma_strip_raw_bytes(depth: nat, data: Seq<u8>)
    ensures
        strips_to(ansi::dimmed_lines(depth, crate::render::hex_dump_lines(data)), crate::render::indented_lines(depth, crate::render::hex_dump_lines(data))),
{
    lemma_hex_dump_escape_free(data);
    lemma_strip_dimmed_lines(depth, crate::render::hex_dump_lines(data));
}

/// Column names and descriptors without escape characters.
pub open spec fn columns_escape_free(columns: Seq<ColumnDef>) -> bool {
    forall|i: int|
        0 <= i < columns.len() ==> escape_free(#[trigger] columns[i].name@) && escape_free(
            columns[i].descriptor@,
        )
}

/// Table values whose texts hold no escape character.
pub open spec fn rows_escape_free(rows: Seq<Seq<Value>>) -> bool {
    forall|k: int, i: int|
        0 <= k < rows.len() && 0 <= i < rows[k].len() ==> value_escape_free(#[trigger] rows[k][i])
}

/// Stripping the ANSI line of a table cell leaves the plain one.
proof fn lemma_strip_cell_line(depth: nat, column: ColumnDef, value: Value, k: nat)
    requires
        escape_free(column.name@),
        escape_free(column.descriptor@),
        value_escape_free(value),
    ensures
        strips_to(ansi::cell_line(depth, column, value, k), text::cell_line(depth, column, value, k)),
{
    broadcast use lemma_escape_free_concat;

    lemma_literals_escape_free();
    lemma_generated_escape_free(k, depth);
    reveal_strlit("[");
    reveal_strlit("]");
    assert(escape_free("["@) && escape_free("]"@));
    let name = text::cell_name(column.name@, k);
    assert(escape_free(name));
    match column.bits {
        Some(b) => {
            lemma_strip_fixed_field_line(depth, name, None, b, column.descriptor@, Some(value));
        },
        None => {
            lemma_strip_variable_field_line(depth, name, None, column.descriptor@, Some(value));
        },
    }
}

/// Stripping the ANSI lines of the first `j` cells of a row leaves the plain ones.
proof fn lemma_strip_row_cell_lines(
    depth: nat,
    columns: Seq<ColumnDef>,
    row: Seq<Value>,
    k: nat,
    j: nat,
)
    requires
        j <= columns.len(),
        columns_escape_free(columns),
        forall|i: int| 0 <= i < row.len() ==> value_escape_free(#[trigger] row[i]),
    ensures
        strips_to(
            ansi::row_cell_lines(depth, columns, row, k, j),
            text::row_cell_lines(depth, columns, row, k, j),
        ),
    decreases j,
{
    if j == 0 {
        assert(escape_free(Seq::<char>::empty()));
        lemma_plain(Seq::<char>::empty());
    } else {
        lemma_strip_row_cell_lines(depth, columns, row, k, (j - 1) as nat);
        let a = ansi::row_cell_lines(depth, columns, row, k, (j - 1) as nat);
        let x = text::row_cell_lines(depth, columns, row, k, (j - 1) as nat);
        if j - 1 < row.len() {
            assert(escape_free(columns[j - 1].name@));
            lemma_strip_cell_line(depth, columns[j - 1], row[j - 1], k);
            lemma_cat(
                a,
                x,
                ansi::cell_line(depth, columns[j - 1], row[j - 1], k),
                text::cell_line(depth, columns[j - 1], row[j - 1], k),
            );
        } else {
            assert(escape_free(Seq::<char>::empty()));
            lemma_plain(Seq::<char>::empty());
            lemma_cat(a, x, Seq::empty(), Seq::empty());
        }
    }
}

/// Stripping the ANSI expansion of the first `n` table rows leaves the plain one.
proof fn lemma_strip_table_rows(depth: nat, columns: Seq<ColumnDef>, rows: Seq<Seq<Value>>, n: nat)
    requires
        n <= rows.len(),
        columns_escape_free(columns),
        rows_escape_free(rows),
    ensures
        strips_to(
            ansi::table_rows_text(depth, columns, rows, n),
            text::table_rows_text(depth, columns, rows, n),
        ),
    decreases n,
{
    if n == 0 {
        assert(escape_free(Seq::<char>::empty()));
        lemma_plain(Seq::<char>::empty());
    } else {
        lemma_strip_table_rows(depth, columns, rows, (n - 1) as nat);
        lemma_literals_escape_free();
        reveal_strlit("i");
        assert(escape_free("i"@));
        lemma_strip_iteration_lines(depth, "i"@, (n - 1) as u64);
        let row = rows[n - 1];
        assert forall|i: int| 0 <= i < row.len() implies value_escape_free(#[trigger] row[i]) by {
            assert(value_escape_free(rows[n - 1][i]));
        }
        lemma_strip_row_cell_lines(depth, columns, row, (n - 1) as nat, columns.len());
        let a = ansi::table_rows_text(depth, columns, rows, (n - 1) as nat);
        let x = text::table_rows_text(depth, columns, rows, (n - 1) as nat);
        let ai = ansi::for_iteration_line(depth, "i"@, (n - 1) as u64);
        let xi = text::for_iteration_line(depth, "i"@, (n - 1) as u64);
        lemma_cat(a, x, ai, xi);
        lemma_cat(
            a + ai,
            x + xi,
            ansi::row_cell_lines(depth, columns, row, (n - 1) as nat, columns.len()),
            text::row_cell_lines(depth, columns, row, (n - 1) as nat, columns.len()),
        );
    }
}

/// Stripping the ANSI expansion of a field table leaves the plain one.
pub proof fn lemma_strip_field_table(depth: nat, columns: Seq<ColumnDef>, rows: Seq<Seq<Value>>)
    requires
        columns_escape_free(columns),
        rows_escape_free(rows),
    ensures
        strips_to(ansi::field_table_text(depth, columns, rows), text::field_table_text(depth, columns, rows)),
{
    broadcast use lemma_escape_free_concat;

    lemma_literals_escape_free();
    lemma_generated_escape_free(rows.len(), depth);
    reveal_strlit("i = 0; i < ");
    reveal_strlit("; i++");
    assert(escape_free("i = 0; i < "@) && escape_free("; i++"@));
    let header = text::table_header_text(rows.len());
    assert(escape_free(header));
    assert(terms_escape_free(Seq::<TermAnnotation>::empty()));
    lemma_strip_for_line(depth, header, Seq::empty());
    lemma_strip_table_rows(depth + 1, columns, rows, rows.len());
    lemma_strip_close_line(depth, true);
    let af = ansi::for_line(depth, header, Seq::empty());
    let xf = text::for_line(depth, header, Seq::empty());
    let ar = ansi::table_rows_text(depth + 1, columns, rows, rows.len());
    let xr = text::table_rows_text(depth + 1, columns, rows, rows.len());
    lemma_cat(af, xf, ar, xr);
    lemma_cat(af + ar, xf + xr, ansi::close_line(depth), text::close_line(depth));
}


// ── Whole descriptions ──────────────────────────────────────

/// Terms given as names and values that hold no escape character.
pub open spec fn pairs_escape_free(terms: Seq<(Seq<char>, Value)>) -> bool {
    forall|i: int|
        0 <= i < terms.len() ==> escape_free(#[trigger] terms[i].0) && value_escape_free(
            terms[i].1,
        )
}

/// A described item whose texts and values hold no escape character.
pub open spec fn event_escape_free(e: SyntaxEvent) -> bool {
    match e {
        SyntaxEvent::BeginElement { name, params } => escape_free(name) && opt_escape_free(params),
        SyntaxEvent::FixedWidthField { name, descriptor, value, comment, .. } => escape_free(name)
            && escape_free(descriptor) && opt_value_escape_free(value) && opt_escape_free(comment),
        SyntaxEvent::VariableLengthField { name, descriptor, value, comment } => escape_free(name)
            && escape_free(descriptor) && opt_value_escape_free(value) && opt_escape_free(comment),
        SyntaxEvent::BitPattern { name, descriptor, value, .. } => escape_free(name) && escape_free(
            descriptor,
        ) && value_escape_free(value),
        SyntaxEvent::BeginIf { condition, terms, .. } => escape_free(condition) && pairs_escape_free(
            terms,
        ),
        SyntaxEvent::BeginElseIf { condition, terms, .. } => escape_free(condition)
            && pairs_escape_free(terms),
        SyntaxEvent::BeginFor { header, terms } => escape_free(header) && pairs_escape_free(terms),
        SyntaxEvent::ForIteration { variable, .. } => escape_free(variable),
        SyntaxEvent::BeginWhile { condition } => escape_free(condition),
        SyntaxEvent::EndDoWhile { condition } => escape_free(condition),
        SyntaxEvent::BeginSwitch { expression, terms } => escape_free(expression) && pairs_escape_free(
            terms,
        ),
        SyntaxEvent::BeginCase { label, .. } => escape_free(label),
        SyntaxEvent::Assignment { expression, computed_value } => escape_free(expression)
            && opt_value_escape_free(computed_value),
        SyntaxEvent::Comment { text } => escape_free(text),
        _ => true,
    }
}

/// A description whose items hold no escape character.
pub open spec fn events_escape_free(events: Seq<SyntaxEvent>) -> bool {
    forall|i: int| 0 <= i < events.len() ==> event_escape_free(#[trigger] events[i])
}

proof fn lemma_pairs_joined_escape_free(terms: Seq<(Seq<char>, Value)>)
    requires
        pairs_escape_free(terms),
    ensures
        escape_free(pairs_joined(terms)),
    decreases terms.len(),
{
    broadcast use lemma_escape_free_concat;

    lemma_literals_escape_free();
    if terms.len() > 0 {
        assert(escape_free(terms[terms.len() - 1].0));
        lemma_value_text_escape_free(terms.last().1);
        if terms.len() > 1 {
            assert(pairs_escape_free(terms.drop_last())) by {
                assert forall|i: int| 0 <= i < terms.drop_last().len() implies escape_free(
                    #[trigger] terms.drop_last()[i].0,
                ) && value_escape_free(terms.drop_last()[i].1) by {
                    assert(terms.drop_last()[i] == terms[i]);
                }
            }
            lemma_pairs_joined_escape_free(terms.drop_last());
        } else {
            assert(escape_free(terms[0].0));
            lemma_value_text_escape_free(terms[0].1);
        }
    }
}

/// Stripping dimmed annotations given as names and values leaves the plain ones.
proof fn lemma_strip_pairs(terms: Seq<(Seq<char>, Value)>)
    requires
        pairs_escape_free(terms),
    ensures
        strips_to(pairs_dimmed_text(terms), pairs_annotations_text(terms)),
{
    broadcast use lemma_escape_free_concat;

    lemma_codes_strip();
    lemma_literals_escape_free();
    if terms.len() == 0 {
        assert(escape_free(Seq::<char>::empty()));
        lemma_plain(Seq::<char>::empty());
    } else {
        lemma_pairs_joined_escape_free(terms);
        let inner = "/* "@ + pairs_joined(terms) + " */"@;
        lemma_styled_plain(COMMENT@, inner);
        lemma_plain("  "@);
        lemma_cat("  "@, "  "@, styled(COMMENT@, inner), inner);
        reveal_strlit("  ");
        reveal_strlit("/* ");
        reveal_strlit("  /* ");
        assert("  "@ + inner =~= "  /* "@ + pairs_joined(terms) + " */"@);
    }
}

/// A line made of an indentation, a head, annotations and a newline strips
/// piece by piece.
proof fn lemma_strip_line_parts(
    depth: nat,
    head: Seq<char>,
    plain_head: Seq<char>,
    ann: Seq<char>,
    plain_ann: Seq<char>,
)
    requires
        strips_to(head, plain_head),
        strips_to(ann, plain_ann),
    ensures
        strips_to(
            indent_text(depth) + head + ann + "\n"@,
            indent_text(depth) + plain_head + plain_ann + "\n"@,
        ),
{
    lemma_literals_escape_free();
    lemma_generated_escape_free(0, depth);
    lemma_plain(indent_text(depth));
    lemma_plain("\n"@);
    lemma_cat(indent_text(depth), indent_text(depth), head, plain_head);
    lemma_cat(indent_text(depth) + head, indent_text(depth) + plain_head, ann, plain_ann);
    lemma_cat(indent_text(depth) + head + ann, indent_text(depth) + plain_head + plain_ann, "\n"@, "\n"@);
}

/// Stripping the head `keyword (inner) {` of a taken block, or the dimmed
/// head of an untaken one, leaves the plain head.
proof fn lemma_strip_head(keyword: Seq<char>, inner: Seq<char>)
    requires
        escape_free(keyword),
        escape_free(inner),
    ensures
        strips_to(ansi::keyword_block_open(keyword, inner), keyword + " ("@ + inner + ") {"@),
        strips_to(styled(DIM@, keyword + " ("@ + inner + ") {"@), keyword + " ("@ + inner + ") {"@),
{
    broadcast use lemma_escape_free_concat;

    lemma_codes_strip();
    lemma_literals_escape_free();
    lemma_strip_keyword_block_open(keyword, inner);
    reveal_strlit(" ");
    reveal_strlit("(");
    reveal_strlit(" (");
    assert(keyword + " "@ + ("("@ + inner + ") {"@) =~= keyword + " ("@ + inner + ") {"@);
    lemma_styled_plain(DIM@, keyword + " ("@ + inner + ") {"@);
}

/// Stripping the colored text of one item leaves its plain text.
pub proof fn lemma_strip_event(blocks: Seq<BlockKind>, e: SyntaxEvent)
    requires
        event_escape_free(e),
    ensures
        strips_to(ansi_event_line(blocks, e), plain_event_line(blocks.len(), e)),
{
    broadcast use lemma_escape_free_concat;

    lemma_codes_strip();
    lemma_literals_escape_free();
    let open = blocks.len();
    let outer = (open - 1) as nat;
    let none = Seq::<char>::empty();
    assert(escape_free(none));
    match e {
        SyntaxEvent::BeginElement { name, params } => lemma_strip_element_open_line(open, name, params),
        SyntaxEvent::EndElement => lemma_strip_close_line(outer, true),
        SyntaxEvent::FixedWidthField { name, bits, descriptor, value, comment } => {
            lemma_strip_fixed_field_line(open, name, comment, bits, descriptor, value);
        },
        SyntaxEvent::VariableLengthField { name, descriptor, value, comment } => {
            lemma_strip_variable_field_line(open, name, comment, descriptor, value);
        },
        SyntaxEvent::BitPattern { name, bits, descriptor, value } => {
            lemma_strip_fixed_field_line(open, name, None, bits, descriptor, Some(value));
        },
        SyntaxEvent::RawBytes { data } => lemma_strip_raw_bytes(open, data),
        SyntaxEvent::BeginIf { condition, terms, taken } => {
            lemma_strip_pairs(terms);
            reveal_strlit("if");
            reveal_strlit(" (");
            reveal_strlit("if (");
            lemma_strip_head("if"@, condition);
            assert("if"@ + " ("@ + condition + ") {"@ =~= "if ("@ + condition + ") {"@);
            let plain_head = "if ("@ + condition + ") {"@;
            if taken {
                lemma_strip_line_parts(
                    open,
                    ansi::keyword_block_open("if"@, condition),
                    plain_head,
                    pairs_dimmed_text(terms),
                    pairs_annotations_text(terms),
                );
            } else {
                lemma_strip_line_parts(
                    open,
                    styled(DIM@, plain_head),
                    plain_head,
                    pairs_dimmed_text(terms),
                    pairs_annotations_text(terms),
                );
            }
            assert(plain_event_line(open, e) =~= indent_text(open) + plain_head
                + pairs_annotations_text(terms) + "\n"@);
        },
        SyntaxEvent::BeginElseIf { condition, terms, taken } => {
            lemma_strip_pairs(terms);
            reveal_strlit("}");
            reveal_strlit(" ");
            reveal_strlit("else if");
            reveal_strlit(" (");
            reveal_strlit("} else if (");
            let plain_head = "} else if ("@ + condition + ") {"@;
            if taken {
                lemma_styled_plain(PUNCT@, "}"@);
                lemma_plain(" "@);
                lemma_strip_head("else if"@, condition);
                lemma_cat(styled(PUNCT@, "}"@), "}"@, " "@, " "@);
                let head = styled(PUNCT@, "}"@) + " "@ + ansi::keyword_block_open("else if"@, condition);
                lemma_cat(
                    styled(PUNCT@, "}"@) + " "@,
                    "}"@ + " "@,
                    ansi::keyword_block_open("else if"@, condition),
                    "else if"@ + " ("@ + condition + ") {"@,
                );
                assert("}"@ + " "@ + ("else if"@ + " ("@ + condition + ") {"@) =~= plain_head);
                lemma_strip_line_parts(
                    outer,
                    head,
                    plain_head,
                    pairs_dimmed_text(terms),
                    pairs_annotations_text(terms),
                );
                assert(ansi_event_line(blocks, e) =~= indent_text(outer) + head + pairs_dimmed_text(
                    terms,
                ) + "\n"@);
            } else {
                lemma_styled_plain(DIM@, plain_head);
                lemma_strip_line_parts(
                    outer,
                    styled(DIM@, plain_head),
                    plain_head,
                    pairs_dimmed_text(terms),
                    pairs_annotations_text(terms),
                );
            }
            assert(plain_event_line(open, e) =~= indent_text(outer) + plain_head
                + pairs_annotations_text(terms) + "\n"@);
        },
        SyntaxEvent::BeginElse { taken } => lemma_strip_else_line(outer, taken),
        SyntaxEvent::EndIf => lemma_strip_close_line(outer, blocks.last().taken()),
        SyntaxEvent::BeginFor { header, terms } => {
            lemma_strip_pairs(terms);
            reveal_strlit("for");
            reveal_strlit(" (");
            reveal_strlit("for (");
            lemma_strip_head("for"@, header);
            let plain_head = "for ("@ + header + ") {"@;
            assert("for"@ + " ("@ + header + ") {"@ =~= plain_head);
            lemma_strip_line_parts(
                open,
                ansi::keyword_block_open("for"@, header),
                plain_head,
                pairs_dimmed_text(terms),
                pairs_annotations_text(terms),
            );
            assert(plain_event_line(open, e) =~= indent_text(open) + plain_head
                + pairs_annotations_text(terms) + "\n"@);
        },
        SyntaxEvent::ForIteration { variable, index } => lemma_strip_iteration_lines(open, variable, index),
        SyntaxEvent::EndFor => lemma_strip_close_line(outer, true),
        SyntaxEvent::BeginWhile { condition } => lemma_strip_while_line(open, condition),
        SyntaxEvent::WhileIteration { index } => lemma_strip_iteration_lines(open, none, index),
        SyntaxEvent::EndWhile => lemma_strip_close_line(outer, true),
        SyntaxEvent::BeginDoWhile => lemma_strip_do_lines(open, none),
        SyntaxEvent::DoWhileIteration { index } => lemma_strip_iteration_lines(open, none, index),
        SyntaxEvent::EndDoWhile { condition } => lemma_strip_do_lines(outer, condition),
        SyntaxEvent::BeginSwitch { expression, terms } => {
            lemma_strip_pairs(terms);
            reveal_strlit("switch");
            reveal_strlit(" (");
            reveal_strlit("switch (");
            lemma_strip_head("switch"@, expression);
            let plain_head = "switch ("@ + expression + ") {"@;
            assert("switch"@ + " ("@ + expression + ") {"@ =~= plain_head);
            lemma_strip_line_parts(
                open,
                ansi::keyword_block_open("switch"@, expression),
                plain_head,
                pairs_dimmed_text(terms),
                pairs_annotations_text(terms),
            );
            assert(plain_event_line(open, e) =~= indent_text(open) + plain_head
                + pairs_annotations_text(terms) + "\n"@);
        },
        SyntaxEvent::BeginCase { label, taken } => lemma_strip_case_lines(open, label, taken),
        SyntaxEvent::EndCase => lemma_strip_case_lines(open, none, blocks.last().taken()),
        SyntaxEvent::EndSwitch => lemma_strip_close_line(outer, true),
        SyntaxEvent::Assignment { expression, computed_value } => {
            lemma_strip_assignment_line(open, expression, computed_value);
        },
        SyntaxEvent::Comment { text } => lemma_strip_comment_lines(open, text),
        SyntaxEvent::Ellipsis => lemma_strip_comment_lines(open, none),
    }
}

/// The colored text of a whole description, each call allowed where it was
/// made and no text or value holding an escape character, reads once its
/// color codes are removed as the plain text of the same description.
pub proof fn lemma_strip_whole_description(events: Seq<SyntaxEvent>)
    requires
        calls_fit(Seq::empty(), events),
        events_escape_free(events),
    ensures
        strips_to(ansi_text(events), plain_text(events)),
        kinds_after(events).len() == blocks_after(Seq::empty(), events).len(),
    decreases events.len(),
{
    if events.len() == 0 {
        lemma_plain(Seq::<char>::empty());
        assert(escape_free(Seq::<char>::empty()));
    } else {
        let init = events.drop_last();
        let e = events.last();
        assert(events_escape_free(init)) by {
            assert forall|i: int| 0 <= i < init.len() implies event_escape_free(#[trigger] init[i]) by {
                assert(init[i] == events[i]);
            }
        }
        assert(event_escape_free(events[events.len() - 1]));
        lemma_strip_whole_description(init);
        let k = kinds_after(init);
        lemma_strip_event(k, e);
        lemma_cat(ansi_text(init), plain_text(init), ansi_event_line(k, e), plain_event_line(k.len(), e));
        assert(block_fits(blocks_after(Seq::empty(), init), e));
    }
}

} // verus!
