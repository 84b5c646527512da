//! The HTML backend: parsing, validation, rendering and formatting of templates.

pub mod ast;
pub mod parser;
pub mod grammar;
pub mod shape;
pub mod validate;
pub mod render;
pub mod template;
pub mod format;

pub use ast::{
    Attribute, AttributeLike, AttributeValue, CommentNode, CompiledHtmlTemplate, ComponentTagNode, DoctypeNode,
    Document, ElementNode, FloatValue, FormatFlavor, FormatOptions, FragmentNode, InterpolationNode, Node,
    RawTextElementNode, RenderedFragment, RuntimeContext, RuntimeValue, SpreadAttribute, TextNode, ValuePart,
    is_raw_text_tag,
};
pub use parser::parse_template;
pub use render::{
    normalize_class_value, render_attributes_fragment, render_child_value, runtime_error, stringify_runtime_value,
};
pub use format::{format_document_as_thtml_with_options, format_document_checked, format_document_with_options};
pub use template::{
    check_template, compile_template, format_template, format_template_syntax, format_template_with_options,
    prepare_template, rebind_document_interpolations, rebound_document, render_fragment, render_html, static_key_parts,
};
