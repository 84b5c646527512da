//! The syntax tree of a TDOM template, where component tags are interpolations
//! and attributes keep whether their value is literal, a single interpolation,
//! or a template of texts and interpolations.

use vstd::prelude::*;
use crate::syntax::SourceSpan;

verus! {

#[derive(Clone, Copy, Debug, PartialEq, Eq, Structural)]
pub struct FormatOptions {
    pub line_length: usize,
}

impl Default for FormatOptions {
    fn default() -> (r: Self)
        ensures
            r.line_length == 80,
    {
        FormatOptions { line_length: 80 }
    }
}

#[derive(Debug, PartialEq, Eq)]
pub struct Document {
    pub children: Vec<Node>,
    pub span: Option<SourceSpan>,
}

#[derive(Debug, PartialEq, Eq)]
pub enum Node {
    Fragment(FragmentNode),
    Element(ElementNode),
    ComponentTag(ComponentTagNode),
    Text(TextNode),
    Interpolation(InterpolationNode),
    Comment(CommentNode),
    Doctype(DoctypeNode),
    RawTextElement(RawTextElementNode),
}

#[derive(Debug, PartialEq, Eq)]
pub struct FragmentNode {
    pub children: Vec<Node>,
    pub span: Option<SourceSpan>,
}

#[derive(Debug, PartialEq, Eq)]
pub struct ElementNode {
    pub name: String,
    pub attributes: Vec<AttributeLike>,
    pub children: Vec<Node>,
    pub self_closing: bool,
    pub span: Option<SourceSpan>,
}

/// A component tag: its start tag is an interpolation, and so is its end tag
/// when it has one.
#[derive(Debug, PartialEq, Eq)]
pub struct ComponentTagNode {
    pub start_tag: InterpolationNode,
    pub end_tag: Option<InterpolationNode>,
    pub attributes: Vec<AttributeLike>,
    pub children: Vec<Node>,
    pub self_closing: bool,
    pub span: Option<SourceSpan>,
}

#[derive(Debug, PartialEq, Eq)]
pub struct RawTextElementNode {
    pub name: String,
    pub attributes: Vec<AttributeLike>,
    pub children: Vec<Node>,
    pub self_closing: bool,
    pub span: Option<SourceSpan>,
}

#[derive(Debug, PartialEq, Eq)]
pub enum AttributeLike {
    LiteralAttribute(LiteralAttribute),
    InterpolatedAttribute(InterpolatedAttribute),
    TemplatedAttribute(TemplatedAttribute),
    SpreadAttribute(SpreadAttribute),
}

#[derive(Debug, PartialEq, Eq)]
pub struct LiteralAttribute {
    pub name: String,
    pub value: Option<String>,
    pub span: Option<SourceSpan>,
}

#[derive(Debug, PartialEq, Eq)]
pub struct InterpolatedAttribute {
    pub name: String,
    pub interpolation: InterpolationNode,
    pub span: Option<SourceSpan>,
}

#[derive(Debug, PartialEq, Eq)]
pub struct TemplatedAttribute {
    pub name: String,
    pub parts: Vec<ValuePart>,
    pub span: Option<SourceSpan>,
}

#[derive(Debug, PartialEq, Eq)]
pub struct SpreadAttribute {
    pub interpolation: InterpolationNode,
    pub span: Option<SourceSpan>,
}

#[derive(Debug, PartialEq, Eq)]
pub enum ValuePart {
    Text(String),
    Interpolation(InterpolationNode),
}

#[derive(Debug, PartialEq, Eq)]
pub struct TextNode {
    pub value: String,
    pub span: Option<SourceSpan>,
}

#[derive(Debug, PartialEq, Eq)]
pub struct InterpolationNode {
    pub interpolation_index: usize,
    pub expression: String,
    pub raw_source: Option<String>,
    pub conversion: Option<String>,
    pub format_spec: String,
    pub span: Option<SourceSpan>,
}

#[derive(Debug, PartialEq, Eq)]
pub struct CommentNode {
    pub parts: Vec<ValuePart>,
    pub span: Option<SourceSpan>,
}

#[derive(Debug, PartialEq, Eq)]
pub struct DoctypeNode {
    pub text: String,
    pub span: Option<SourceSpan>,
}

} // verus!
