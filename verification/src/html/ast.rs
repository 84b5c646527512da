//! The syntax tree of an HTML or T-HTML template, and the runtime values that
//! fill its interpolations.

use vstd::prelude::*;
use crate::syntax::SourceSpan;
use crate::text::{unicode_uppercase, char_is_uppercase, str_eq, chars_of};

verus! {

#[derive(Clone, Copy, Debug, PartialEq, Eq, Structural)]
pub struct FormatOptions {
    pub line_length: usize,
}

impl Default for FormatOptions {
    fn default() -> (r: Self)
        ensures
            r.line_length == 80,
    {
        FormatOptions { line_length: 80 }
    }
}

/// Which dialect a document is formatted as.
#[derive(Clone, Copy, Debug, PartialEq, Eq, Structural)]
pub enum FormatFlavor {
    Html,
    Thtml,
}

#[derive(Debug, PartialEq, Eq)]
pub struct Document {
    pub children: Vec<Node>,
    pub span: Option<SourceSpan>,
}

#[derive(Debug, PartialEq, Eq)]
pub enum Node {
    Fragment(FragmentNode),
    Element(ElementNode),
    ComponentTag(ComponentTagNode),
    Text(TextNode),
    Interpolation(InterpolationNode),
    Comment(CommentNode),
    Doctype(DoctypeNode),
    RawTextElement(RawTextElementNode),
}

#[derive(Debug, PartialEq, Eq)]
pub struct FragmentNode {
    pub children: Vec<Node>,
    pub span: Option<SourceSpan>,
}

#[derive(Debug, PartialEq, Eq)]
pub struct ElementNode {
    pub name: String,
    pub attributes: Vec<AttributeLike>,
    pub children: Vec<Node>,
    pub self_closing: bool,
    pub span: Option<SourceSpan>,
}

#[derive(Debug, PartialEq, Eq)]
pub struct ComponentTagNode {
    pub name: String,
    pub attributes: Vec<AttributeLike>,
    pub children: Vec<Node>,
    pub self_closing: bool,
    pub span: Option<SourceSpan>,
}

#[derive(Debug, PartialEq, Eq)]
pub struct RawTextElementNode {
    pub name: String,
    pub attributes: Vec<AttributeLike>,
    pub children: Vec<Node>,
    pub span: Option<SourceSpan>,
}

#[derive(Debug, PartialEq, Eq)]
pub enum AttributeLike {
    Attribute(Attribute),
    SpreadAttribute(SpreadAttribute),
}

#[derive(Debug, PartialEq, Eq)]
pub struct Attribute {
    pub name: String,
    pub value: Option<AttributeValue>,
    pub span: Option<SourceSpan>,
}

#[derive(Debug, PartialEq, Eq)]
pub struct AttributeValue {
    pub quoted: bool,
    pub parts: Vec<ValuePart>,
}

#[derive(Debug, PartialEq, Eq)]
pub enum ValuePart {
    Text(String),
    Interpolation(InterpolationNode),
}

#[derive(Debug, PartialEq, Eq)]
pub struct SpreadAttribute {
    pub interpolation: InterpolationNode,
    pub span: Option<SourceSpan>,
}

#[derive(Debug, PartialEq, Eq)]
pub struct TextNode {
    pub value: String,
    pub span: Option<SourceSpan>,
}

#[derive(Debug, PartialEq, Eq)]
pub struct InterpolationNode {
    pub interpolation_index: usize,
    pub expression: String,
    pub raw_source: Option<String>,
    pub conversion: Option<String>,
    pub format_spec: String,
    pub span: Option<SourceSpan>,
}

#[derive(Debug, PartialEq, Eq)]
pub struct CommentNode {
    pub value: String,
    pub span: Option<SourceSpan>,
}

#[derive(Debug, PartialEq, Eq)]
pub struct DoctypeNode {
    pub value: String,
    pub span: Option<SourceSpan>,
}

/// A parsed and validated HTML template, ready to render.
#[derive(Debug, PartialEq, Eq)]
pub struct CompiledHtmlTemplate {
    pub(crate) document: Document,
}

/// A floating-point runtime value, held as what rendering reads of it: its
/// decimal text and whether it differs from zero.
#[derive(Debug, PartialEq, Eq)]
pub struct FloatValue {
    pub display: String,
    pub nonzero: bool,
}

/// A value that fills an interpolation at render time.
#[derive(Debug, PartialEq, Eq)]
pub enum RuntimeValue {
    Null,
    Bool(bool),
    Int(i64),
    Float(FloatValue),
    String(String),
    Fragment(Vec<RuntimeValue>),
    RawHtml(String),
    Sequence(Vec<RuntimeValue>),
    Attributes(Vec<(String, RuntimeValue)>),
}

/// The runtime values of a render, by interpolation index.
#[derive(Debug, PartialEq, Eq)]
pub struct RuntimeContext {
    pub values: Vec<RuntimeValue>,
}

impl Default for RuntimeContext {
    fn default() -> (r: Self)
        ensures
            r.values@.len() == 0,
    {
        RuntimeContext { values: Vec::new() }
    }
}

#[derive(Debug, PartialEq, Eq)]
pub struct RenderedFragment {
    pub html: String,
}

impl CompiledHtmlTemplate {
    /// The document the template holds.
    pub closed spec fn held(&self) -> Document {
        self.document
    }

    pub fn document(&self) -> (r: &Document)
        ensures
            *r == self.held(),
    {
        &self.document
    }

    pub fn from_document(document: Document) -> (r: Self)
        ensures
            r.held() == document,
    {
        CompiledHtmlTemplate { document }
    }
}

/// A character that may start (`is_start`) or continue a tag or attribute name:
/// an ASCII letter or `_` first, then ASCII letters, digits, `_`, `-`, `:` or `.`.
pub open spec fn name_char(c: char, is_start: bool) -> bool {
    if is_start {
        ('a' <= c <= 'z') || ('A' <= c <= 'Z') || c == '_'
    } else {
        ('a' <= c <= 'z') || ('A' <= c <= 'Z') || ('0' <= c <= '9') || c == '_' || c == '-' || c == ':' || c == '.'
    }
}

pub fn is_name_char(value: char, is_start: bool) -> (r: bool)
    ensures
        r == name_char(value, is_start),
{
    if is_start {
        ('a' <= value && value <= 'z') || ('A' <= value && value <= 'Z') || value == '_'
    } else {
        ('a' <= value && value <= 'z') || ('A' <= value && value <= 'Z') || ('0' <= value && value <= '9')
            || value == '_' || value == '-' || value == ':' || value == '.'
    }
}

/// A non-empty name made of name characters.
pub open spec fn valid_name(s: Seq<char>) -> bool {
    &&& s.len() > 0
    &&& name_char(s[0], true)
    &&& forall|i: int| 1 <= i < s.len() ==> name_char(#[trigger] s[i], false)
}

pub open spec fn raw_text_tag_spec(s: Seq<char>) -> bool {
    s == "script"@ || s == "style"@ || s == "title"@ || s == "textarea"@
}

/// The raw-text elements: `script`, `style`, `title` and `textarea`.
pub fn is_raw_text_tag(name: &str) -> (r: bool)
    ensures
        r == raw_text_tag_spec(name@),
{
    str_eq(name, "script") || str_eq(name, "style") || str_eq(name, "title") || str_eq(name, "textarea")
}

/// Only `title` admits interpolations among the raw-text elements.
pub(crate) fn raw_text_allows_interpolation(name: &str) -> (r: bool)
    ensures
        r == (name@ == "title"@),
{
    str_eq(name, "title")
}

pub open spec fn void_tag_spec(s: Seq<char>) -> bool {
    s == "area"@ || s == "base"@ || s == "br"@ || s == "col"@ || s == "embed"@ || s == "hr"@ || s == "img"@
        || s == "input"@ || s == "link"@ || s == "meta"@ || s == "param"@ || s == "source"@ || s == "track"@
        || s == "wbr"@
}

/// The void elements of HTML, which have no content and no end tag.
pub(crate) fn is_void_html_tag(name: &str) -> (r: bool)
    ensures
        r == void_tag_spec(name@),
{
    str_eq(name, "area") || str_eq(name, "base") || str_eq(name, "br") || str_eq(name, "col") || str_eq(name, "embed")
        || str_eq(name, "hr") || str_eq(name, "img") || str_eq(name, "input") || str_eq(name, "link")
        || str_eq(name, "meta") || str_eq(name, "param") || str_eq(name, "source") || str_eq(name, "track")
        || str_eq(name, "wbr")
}

/// A tag whose name starts with an uppercase letter is a component.
pub open spec fn component_name_spec(s: Seq<char>) -> bool {
    s.len() > 0 && unicode_uppercase(s[0])
}

pub(crate) fn classify_is_component(name: &str) -> (r: bool)
    ensures
        r == component_name_spec(name@),
{
    let chars = chars_of(name);
    if chars.len() == 0 {
        false
    } else {
        char_is_uppercase(chars[0])
    }
}

/// Attribute names are valid names; spreads carry no name.
pub open spec fn attr_wf(a: AttributeLike) -> bool {
    match a {
        AttributeLike::Attribute(at) => valid_name(at.name@),
        AttributeLike::SpreadAttribute(_) => true,
    }
}

pub open spec fn attrs_wf(attrs: Seq<AttributeLike>) -> bool {
    forall|i: int| 0 <= i < attrs.len() ==> attr_wf(#[trigger] attrs[i])
}

/// The children of a raw-text element are text and interpolations only.
pub open spec fn raw_children(ns: Seq<Node>) -> bool {
    forall|i: int| 0 <= i < ns.len() ==> (#[trigger] ns[i] is Text || ns[i] is Interpolation) && (ns[i] matches Node::Text(t)
        ==> t.value@.len() > 0)
}

/// The shape of what the parser produces: named tags carry valid names and are
/// classed by their name (components start with an uppercase letter, raw-text
/// elements are the raw-text tags), self-closing tags have no children, raw-text
/// elements hold text and interpolations only, and texts are not empty.
pub open spec fn node_wf(n: Node) -> bool
    decreases n,
{
    match n {
        Node::Element(e) => valid_name(e.name@) && !component_name_spec(e.name@) && !raw_text_tag_spec(e.name@)
            && attrs_wf(e.attributes@) && nodes_wf(e.children@) && (e.self_closing ==> e.children@.len() == 0),
        Node::ComponentTag(c) => valid_name(c.name@) && component_name_spec(c.name@) && attrs_wf(c.attributes@)
            && nodes_wf(c.children@) && (c.self_closing ==> c.children@.len() == 0),
        Node::RawTextElement(r) => valid_name(r.name@) && !component_name_spec(r.name@) && raw_text_tag_spec(r.name@)
            && attrs_wf(r.attributes@) && raw_children(r.children@),
        Node::Text(t) => t.value@.len() > 0,
        Node::Fragment(f) => nodes_wf(f.children@),
        _ => true,
    }
}

pub open spec fn nodes_wf(ns: Seq<Node>) -> bool
    decreases ns,
{
    if ns.len() == 0 {
        true
    } else {
        nodes_wf(ns.subrange(0, ns.len() - 1)) && node_wf(ns[ns.len() - 1])
    }
}

pub proof fn lemma_nodes_wf_push(ns: Seq<Node>, n: Node)
    ensures
        nodes_wf(ns.push(n)) == (nodes_wf(ns) && node_wf(n)),
{
    assert(ns.push(n).subrange(0, ns.len() as int) == ns);
}

pub proof fn lemma_nodes_wf_index(ns: Seq<Node>, i: int)
    requires
        nodes_wf(ns),
        0 <= i < ns.len(),
    ensures
        node_wf(ns[i]),
    decreases ns.len(),
{
    if i < ns.len() - 1 {
        lemma_nodes_wf_index(ns.subrange(0, ns.len() - 1), i);
    }
}

} // verus!
