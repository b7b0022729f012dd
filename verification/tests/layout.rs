use mpeg_syntax_dump::render::{
    format_hex_dump, format_term_annotations, format_value, write_indent,
};
use mpeg_syntax_dump::{
    AnsiRenderer, BitPatternField, ByteSink, ColumnDef, CompactTextRenderer, FieldTable,
    FixedWidthField, PlainTextRenderer, SyntaxWrite, TermAnnotation, TextRenderError, Value,
    VariableLengthField,
};

fn strip_ansi(s: &str) -> String {
    let mut result = String::new();
    let mut chars = s.chars().peekable();
    while let Some(c) = chars.next() {
        if c == '\x1b' {
            while let Some(&next) = chars.peek() {
                chars.next();
                if next == 'm' {
                    break;
                }
            }
        } else {
            result.push(c);
        }
    }
    result
}

/// Describes the same syntax to any renderer.
fn describe_sample<W: SyntaxWrite>(w: &mut W) -> Result<(), W::Error> {
    w.begin_element("pes_packet", Some("len"))?;
    w.fixed_width_field(&FixedWidthField {
        name: "packet_start_code_prefix",
        bits: 24,
        descriptor: "bslbf",
        value: Some(Value::Hex(1)),
        comment: Some("start code"),
    })?;
    w.variable_length_field(&VariableLengthField {
        name: "delta",
        descriptor: "se(v)",
        value: Some(Value::Signed(-17)),
        comment: None,
    })?;
    w.bit_pattern(&BitPatternField {
        name: "'10'",
        bits: 2,
        descriptor: "bslbf",
        value: Value::BitString("10".to_string()),
    })?;
    w.begin_if("flag", &[TermAnnotation { name: "flag", value: Value::Bool(false) }], false)?;
    w.comment("skipped")?;
    w.begin_else_if(
        "mode == 2",
        &[
            TermAnnotation { name: "mode", value: Value::Unsigned(2) },
            TermAnnotation { name: "flag", value: Value::Bool(true) },
        ],
        true,
    )?;
    w.begin_for("i = 0; i < n; i++", &[TermAnnotation { name: "n", value: Value::Unsigned(1) }])?;
    w.for_iteration("i", 0)?;
    w.raw_bytes(&[0xde, 0xad, 0xbe, 0xef])?;
    w.end_for()?;
    w.begin_else(false)?;
    w.end_if()?;
    w.begin_while("more")?;
    w.while_iteration(3)?;
    w.end_while()?;
    w.begin_do_while()?;
    w.do_while_iteration(0)?;
    w.end_do_while("again")?;
    w.begin_switch("id", &[TermAnnotation { name: "id", value: Value::Hex(0x1b) }])?;
    w.begin_case("A", true)?;
    w.assignment("x = 1", Some(&Value::Unsigned(1)))?;
    w.end_case()?;
    w.begin_case("B", false)?;
    w.assignment("y = 2", None)?;
    w.end_case()?;
    w.end_switch()?;
    w.ellipsis()?;
    w.end_element()?;
    Ok(())
}

#[test]
fn ansi_without_codes_is_plain_text() {
    let mut plain = PlainTextRenderer::new(Vec::new());
    describe_sample(&mut plain).unwrap();
    let plain = String::from_utf8(plain.into_inner()).unwrap();

    let mut ansi = AnsiRenderer::new(Vec::new());
    describe_sample(&mut ansi).unwrap();
    let ansi = String::from_utf8(ansi.into_inner()).unwrap();

    assert_ne!(ansi, plain);
    assert_eq!(strip_ansi(&ansi), plain);
}

#[test]
fn plain_sample_text() {
    let mut plain = PlainTextRenderer::new(Vec::new());
    describe_sample(&mut plain).unwrap();
    let plain = String::from_utf8(plain.into_inner()).unwrap();
    let expected = "\
pes_packet(len) {
    packet_start_code_prefix  /* start code */   24       bslbf       = 0x01
    delta                                                 se(v)       = -17
    '10'                                         2        bslbf       = '10'
    if (flag) {  /* flag: 0 */
        /* skipped */
    } else if (mode == 2) {  /* mode: 2, flag: 1 */
        for (i = 0; i < n; i++) {  /* n: 1 */
            /* i: 0 */
            de ad be ef
        }
    } else {
    }
    while (more) {
        /* iteration: 3 */
    }
    do {
        /* iteration: 0 */
    } while (again)
    switch (id) {  /* id: 0x1B */
        case A:
            x = 1                                                     /* = 1 */
            break
        case B:
            y = 2
            break
    }
    ...
}
";
    assert_eq!(plain, expected);
}

#[test]
fn compact_sample_text() {
    let mut compact = CompactTextRenderer::new(Vec::new());
    describe_sample(&mut compact).unwrap();
    let compact = String::from_utf8(compact.into_inner()).unwrap();
    let expected = "\
pes_packet(len):
    packet_start_code_prefix: 0x01  // start code
    delta: -17
    '10': '10'
        [0]:
        de ad be ef
        [3]:
        [0]:
    x = 1 = 1
    ...
";
    assert_eq!(compact, expected);
}

#[test]
fn compact_nested_untaken_branch_stays_hidden() {
    let mut r = CompactTextRenderer::new(Vec::new());
    r.begin_element("top", None).unwrap();
    r.begin_if("a", &[], false).unwrap();
    r.begin_element("inner", None).unwrap();
    r.begin_if("b", &[], true).unwrap();
    r.comment("hidden").unwrap();
    r.end_if().unwrap();
    r.begin_for("i", &[]).unwrap();
    r.for_iteration("i", 0).unwrap();
    r.end_for().unwrap();
    r.end_element().unwrap();
    r.begin_else_if("c", &[], false).unwrap();
    r.comment("still hidden").unwrap();
    r.begin_else(true).unwrap();
    r.comment("shown").unwrap();
    r.end_if().unwrap();
    r.comment("after").unwrap();
    r.end_element().unwrap();
    let out = String::from_utf8(r.into_inner()).unwrap();
    assert_eq!(out, "top:\n    // shown\n    // after\n");
}

#[test]
fn compact_inner_if_at_same_depth_keeps_outer_branch_hidden() {
    let mut r = CompactTextRenderer::new(Vec::new());
    r.begin_element("t", None).unwrap();
    r.begin_if("a", &[], false).unwrap();
    r.begin_if("b", &[], true).unwrap();
    r.end_if().unwrap();
    r.fixed_width_field(&FixedWidthField {
        name: "x",
        bits: 1,
        descriptor: "u(1)",
        value: Some(Value::Unsigned(1)),
        comment: None,
    })
    .unwrap();
    r.begin_if("c", &[], false).unwrap();
    r.begin_else(true).unwrap();
    r.comment("inner else, still hidden").unwrap();
    r.end_if().unwrap();
    r.begin_switch("id", &[]).unwrap();
    r.begin_case("A", true).unwrap();
    r.comment("taken case, still hidden").unwrap();
    r.end_case().unwrap();
    r.end_switch().unwrap();
    r.comment("hidden").unwrap();
    r.begin_else(true).unwrap();
    r.comment("shown").unwrap();
    r.end_if().unwrap();
    r.end_element().unwrap();
    let out = String::from_utf8(r.into_inner()).unwrap();
    assert_eq!(out, "t:\n    // shown\n");
}

#[test]
fn compact_untaken_case_hides_nested_taken_if() {
    let mut r = CompactTextRenderer::new(Vec::new());
    r.begin_switch("id", &[]).unwrap();
    r.begin_case("A", false).unwrap();
    r.begin_if("b", &[], true).unwrap();
    r.end_if().unwrap();
    r.comment("hidden").unwrap();
    r.end_case().unwrap();
    r.begin_case("B", true).unwrap();
    r.comment("shown").unwrap();
    r.end_case().unwrap();
    r.end_switch().unwrap();
    let out = String::from_utf8(r.into_inner()).unwrap();
    assert_eq!(out, "// shown\n");
}

#[test]
fn compact_raw_bytes_short_and_long() {
    let short: Vec<u8> = (0..16).collect();
    let long: Vec<u8> = (0..17).collect();
    let mut r = CompactTextRenderer::new(Vec::new());
    r.raw_bytes(&short).unwrap();
    r.raw_bytes(&long).unwrap();
    let out = String::from_utf8(r.into_inner()).unwrap();
    assert_eq!(
        out,
        "00 01 02 03 04 05 06 07 08 09 0a 0b 0c 0d 0e 0f\n\
         00 01 02 03 04 05 06 07  08 09 0a 0b 0c 0d 0e 0f\n\
         10\n"
    );
}

#[test]
fn compact_table_columns_align_to_widest_value() {
    let rows: Vec<Vec<Value>> = vec![
        vec![Value::Unsigned(123456), Value::BitString("1".to_string()), Value::Bool(true)],
        vec![Value::Unsigned(7)],
        vec![],
    ];
    let row_refs: Vec<&[Value]> = rows.iter().map(|r| r.as_slice()).collect();
    let mut r = CompactTextRenderer::new(Vec::new());
    r.field_table(&FieldTable {
        columns: &[
            ColumnDef { name: "a", descriptor: "uimsbf", bits: Some(8) },
            ColumnDef { name: "bb", descriptor: "bslbf", bits: None },
        ],
        rows: &row_refs,
    })
    .unwrap();
    let out = String::from_utf8(r.into_inner()).unwrap();
    assert_eq!(out, "     a   bb\n123456  '1'  1\n     7\n\n");
}

#[test]
fn compact_table_single_column_and_empty() {
    let rows: Vec<Vec<Value>> = vec![vec![Value::Hex(0xff)], vec![], vec![Value::Signed(-1)]];
    let row_refs: Vec<&[Value]> = rows.iter().map(|r| r.as_slice()).collect();
    let mut r = CompactTextRenderer::new(Vec::new());
    r.field_table(&FieldTable {
        columns: &[ColumnDef { name: "v", descriptor: "uimsbf", bits: None }],
        rows: &row_refs,
    })
    .unwrap();
    let empty: Vec<&[Value]> = Vec::new();
    r.field_table(&FieldTable {
        columns: &[ColumnDef { name: "w", descriptor: "uimsbf", bits: None }],
        rows: &empty,
    })
    .unwrap();
    let out = String::from_utf8(r.into_inner()).unwrap();
    assert_eq!(out, "v: [0xFF, , -1]\n");
}

#[test]
fn plain_field_table_expands_fixed_and_variable_columns() {
    let rows: Vec<Vec<Value>> = vec![vec![Value::Unsigned(3), Value::Signed(-1)]];
    let row_refs: Vec<&[Value]> = rows.iter().map(|r| r.as_slice()).collect();
    let mut r = PlainTextRenderer::new(Vec::new());
    r.field_table(&FieldTable {
        columns: &[
            ColumnDef { name: "a", descriptor: "u(4)", bits: Some(4) },
            ColumnDef { name: "b", descriptor: "se(v)", bits: None },
        ],
        rows: &row_refs,
    })
    .unwrap();
    let out = String::from_utf8(r.into_inner()).unwrap();
    let expected = "\
for (i = 0; i < 1; i++) {
    /* i: 0 */
    a[0]                                         4        u(4)        = 3
    b[0]                                                  se(v)       = -1
}
";
    assert_eq!(out, expected);
}

#[test]
fn plain_long_names_keep_one_space() {
    let mut r = PlainTextRenderer::new(Vec::new());
    let long = "a_field_name_that_is_much_longer_than_the_width_column";
    r.fixed_width_field(&FixedWidthField {
        name: long,
        bits: 1234567890,
        descriptor: "a_long_descriptor",
        value: Some(Value::Unsigned(0)),
        comment: None,
    })
    .unwrap();
    r.assignment("an_assignment_expression_long_enough_to_pass_the_value_column_xxxxxxxx", Some(&Value::Unsigned(5)))
        .unwrap();
    let out = String::from_utf8(r.into_inner()).unwrap();
    assert_eq!(
        out,
        format!(
            "{long} 1234567890 a_long_descriptor = 0\n\
             an_assignment_expression_long_enough_to_pass_the_value_column_xxxxxxxx/* = 5 */\n"
        )
    );
}

#[test]
fn plain_columns_are_fixed() {
    let mut r = PlainTextRenderer::new(Vec::new());
    r.begin_element("e", None).unwrap();
    r.fixed_width_field(&FixedWidthField {
        name: "x",
        bits: 12,
        descriptor: "uimsbf",
        value: Some(Value::Unsigned(9)),
        comment: None,
    })
    .unwrap();
    let out = String::from_utf8(r.into_inner()).unwrap();
    let line = out.lines().nth(1).unwrap();
    assert_eq!(line.find("12"), Some(49));
    assert_eq!(line.find("uimsbf"), Some(58));
    assert_eq!(line.find("= 9"), Some(70));
}

#[test]
fn value_formats() {
    assert_eq!(format_value(&Value::Unsigned(0)), "0");
    assert_eq!(format_value(&Value::Unsigned(u64::MAX)), "18446744073709551615");
    assert_eq!(format_value(&Value::Signed(-2)), "-2");
    assert_eq!(format_value(&Value::Signed(i64::MIN)), "-9223372036854775808");
    assert_eq!(format_value(&Value::Signed(42)), "42");
    assert_eq!(format_value(&Value::Hex(0x47)), "0x47");
    assert_eq!(format_value(&Value::Hex(0x5)), "0x05");
    assert_eq!(format_value(&Value::Hex(0xabc)), "0xABC");
    assert_eq!(format_value(&Value::Hex(u64::MAX)), "0xFFFFFFFFFFFFFFFF");
    assert_eq!(format_value(&Value::BitString("0101".to_string())), "'0101'");
    assert_eq!(format_value(&Value::Bool(true)), "1");
    assert_eq!(format_value(&Value::Bool(false)), "0");
}

#[test]
fn term_annotations_format() {
    assert_eq!(format_term_annotations(&[]), "");
    assert_eq!(
        format_term_annotations(&[
            TermAnnotation { name: "a", value: Value::Unsigned(1) },
            TermAnnotation { name: "b", value: Value::Hex(2) },
        ]),
        "  /* a: 1, b: 0x02 */"
    );
}

#[test]
fn hex_dump_truncates_after_128_bytes() {
    let data: Vec<u8> = (0..200).map(|i| i as u8).collect();
    let lines = format_hex_dump(&data);
    assert_eq!(lines.len(), 9);
    assert_eq!(lines[8], "...");
    assert_eq!(lines[7], "70 71 72 73 74 75 76 77  78 79 7a 7b 7c 7d 7e 7f");
    let exact: Vec<u8> = vec![0xab; 128];
    assert_eq!(format_hex_dump(&exact).len(), 8);
    let nine: Vec<u8> = (0..9).collect();
    assert_eq!(format_hex_dump(&nine), vec!["00 01 02 03 04 05 06 07  08".to_string()]);
    assert!(format_hex_dump(&[]).is_empty());
}

#[test]
fn indent_writes_four_spaces_per_level() {
    let mut out: Vec<u8> = Vec::new();
    write_indent(&mut out, 3).unwrap();
    assert_eq!(out, b"            ".to_vec());
    write_indent(&mut out, 0).unwrap();
    assert_eq!(out.len(), 12);
}

#[test]
fn nesting_indents_each_level() {
    let mut r = PlainTextRenderer::new(Vec::new());
    r.begin_element("a", None).unwrap();
    r.begin_switch("s", &[]).unwrap();
    r.begin_case("C", true).unwrap();
    r.ellipsis().unwrap();
    let out = String::from_utf8(r.into_inner()).unwrap();
    assert_eq!(out, "a() {\n    switch (s) {\n        case C:\n            ...\n");
}

#[test]
fn ansi_dims_untaken_branches() {
    let mut r = AnsiRenderer::new(Vec::new());
    r.begin_if("c", &[], false).unwrap();
    r.begin_else(true).unwrap();
    r.end_if().unwrap();
    r.begin_switch("s", &[]).unwrap();
    r.begin_case("X", false).unwrap();
    r.end_case().unwrap();
    r.end_switch().unwrap();
    let out = String::from_utf8(r.into_inner()).unwrap();
    assert_eq!(
        out,
        "\x1b[2mif (c) {\x1b[0m\n\
         \x1b[2m}\x1b[0m \x1b[1;35melse\x1b[0m \x1b[2m{\x1b[0m\n\
         \x1b[2m}\x1b[0m\n\
         \x1b[1;35mswitch\x1b[0m \x1b[2m(\x1b[0ms\x1b[2m) {\x1b[0m\n\
         \x20   \x1b[2mcase X:\x1b[0m\n\
         \x20       \x1b[2mbreak\x1b[0m\n\
         \x1b[2m}\x1b[0m\n"
    );
}

/// A sink that refuses every write.
struct FailingSink {
    attempts: usize,
}

impl ByteSink for FailingSink {
    fn write_bytes(&mut self, _data: &[u8]) -> Result<(), TextRenderError> {
        self.attempts += 1;
        Err(TextRenderError::from(std::io::Error::new(std::io::ErrorKind::Other, "refused")))
    }
}

#[test]
fn write_errors_are_reported() {
    let mut r = PlainTextRenderer::new(FailingSink { attempts: 0 });
    assert!(r.begin_element("e", None).is_err());
    assert!(r.comment("c").is_err());
    assert_eq!(r.into_inner().attempts, 2);

    let mut c = CompactTextRenderer::new(FailingSink { attempts: 0 });
    assert!(c.begin_if("x", &[], false).is_ok());
    assert!(c.comment("suppressed, so nothing is written").is_ok());
    assert!(c.end_if().is_ok());
    assert!(c.comment("written").is_err());
    assert_eq!(c.into_inner().attempts, 1);
}

#[test]
fn sink_errors_pass_through_unchanged() {
    let mut sink = FailingSink { attempts: 0 };
    assert!(write_indent(&mut sink, 0).is_ok());
    assert_eq!(sink.attempts, 0);
    let err = write_indent(&mut sink, 2).unwrap_err();
    assert_eq!(err.into_io_error().to_string(), "refused");
    assert_eq!(sink.attempts, 1);

    let mut r = AnsiRenderer::new(FailingSink { attempts: 0 });
    let err = r.ellipsis().unwrap_err();
    assert_eq!(err.into_io_error().kind(), std::io::ErrorKind::Other);

    let mut c = CompactTextRenderer::new(FailingSink { attempts: 0 });
    let empty = FieldTable { columns: &[], rows: &[] };
    assert!(c.field_table(&empty).is_ok());
    assert_eq!(c.into_inner().attempts, 0);
}

#[test]
fn into_inner_keeps_initial_content_then_appends() {
    assert_eq!(PlainTextRenderer::new(Vec::new()).into_inner(), Vec::<u8>::new());
    let mut r = PlainTextRenderer::new(b"start\n".to_vec());
    r.begin_if("a", &[], false).unwrap();
    r.begin_else(true).unwrap();
    r.ellipsis().unwrap();
    r.end_if().unwrap();
    let out = String::from_utf8(r.into_inner()).unwrap();
    assert_eq!(out, "start\nif (a) {\n} else {\n    ...\n}\n");
}

struct FlakySink {
    bytes: Vec<u8>,
    writes: usize,
    fail_at: usize,
}

impl ByteSink for FlakySink {
    fn write_bytes(&mut self, data: &[u8]) -> Result<(), TextRenderError> {
        self.writes += 1;
        if self.writes == self.fail_at {
            return Err(TextRenderError::from(std::io::Error::new(std::io::ErrorKind::Other, "once")));
        }
        self.bytes.extend_from_slice(data);
        Ok(())
    }
}

fn flaky(fail_at: usize) -> FlakySink {
    FlakySink { bytes: Vec::new(), writes: 0, fail_at }
}

#[test]
fn failed_else_write_leaves_depth_one_lower() {
    let mut r = PlainTextRenderer::new(flaky(2));
    r.begin_if("a", &[], true).unwrap();
    assert!(r.begin_else(false).is_err());
    r.comment("c").unwrap();
    let out = String::from_utf8(r.into_inner().bytes).unwrap();
    assert_eq!(out, "if (a) {\n/* c */\n");

    let mut a = AnsiRenderer::new(flaky(2));
    a.begin_if("a", &[], true).unwrap();
    assert!(a.begin_else_if("b", &[], true).is_err());
    a.ellipsis().unwrap();
    let out = String::from_utf8(a.into_inner().bytes).unwrap();
    assert!(out.ends_with("\n...\n"));
}

#[test]
fn failed_break_write_keeps_case_depth() {
    let mut r = PlainTextRenderer::new(flaky(3));
    r.begin_switch("id", &[]).unwrap();
    r.begin_case("A", true).unwrap();
    assert!(r.end_case().is_err());
    r.ellipsis().unwrap();
    let out = String::from_utf8(r.into_inner().bytes).unwrap();
    assert_eq!(out, "switch (id) {\n    case A:\n        ...\n");
}
