//! The TDOM backend: templates whose component tags are interpolations,
//! parsed, checked and formatted.

pub mod ast;
pub mod parser;
pub mod grammar;
pub mod template;
pub mod format;

pub use ast::{
    AttributeLike, CommentNode, ComponentTagNode, DoctypeNode, Document, ElementNode, FormatOptions, FragmentNode,
    InterpolatedAttribute, InterpolationNode, LiteralAttribute, Node, RawTextElementNode, SpreadAttribute,
    TemplatedAttribute, TextNode, ValuePart,
};
pub use parser::parse_template;
pub use template::{check_template, format_template, format_template_with_options, prepare_template};
