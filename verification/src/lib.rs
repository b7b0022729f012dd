//! Rendering of MPEG specification syntax tables (plain text, ANSI color,
//! compact) from descriptions that producers emit field by field.
pub mod numfmt;
pub mod types;
pub mod sink;
pub mod write;
pub mod describe;
pub mod render;

pub use describe::SyntaxDescribe;
pub use render::ansi::AnsiRenderer;
pub use render::compact::CompactTextRenderer;
pub use render::text::{PlainTextRenderer, TextRenderError};
pub use sink::ByteSink;
pub use types::{
    BitPatternField, ColumnDef, FieldTable, FixedWidthField, TermAnnotation, Value,
    VariableLengthField,
};
pub use write::SyntaxWrite;
