//! The T-HTML backend: HTML with component tags, which a host runtime resolves.
//! Its syntax tree and rendering are those of the HTML backend.

use vstd::prelude::*;
use crate::syntax::{TemplateInput, BackendError, BackendResult, ErrorKind, SourceSpan};
use crate::html::ast::{
    Document, Node, FormatOptions, FormatFlavor, RuntimeContext, RenderedFragment, nodes_wf,
};
use crate::html::parser::{parse_template, template_tokens};
use crate::html::grammar::{document_spec, parse_reports};
use crate::html::validate::{
    Failure, reports, checked, attrs_failure, raw_children_failure, validate_attributes,
    validate_raw_text_children,
};
use crate::html::render::{nodes_render, gave, render_document, runtime_error};
use crate::html::format::{formatted, formattable, format_document_checked};
use crate::html::template::{
    format_template_syntax, raw_source_failure, width_overflow_error, width_overflow_failure, parses_to,
};

verus! {

/// A parsed and validated T-HTML template.
#[derive(Debug, PartialEq, Eq)]
pub struct CompiledThtmlTemplate {
    document: Document,
}

impl CompiledThtmlTemplate {
    /// The document the template holds.
    pub closed spec fn held(&self) -> Document {
        self.document
    }

    pub fn document(&self) -> (r: &Document)
        ensures
            *r == self.held(),
    {
        &self.document
    }

    pub fn from_document(document: Document) -> (r: Self)
        ensures
            r.held() == document,
    {
        CompiledThtmlTemplate { document }
    }
}

/// What the T-HTML backend rejects in a node: unquoted dynamic attribute values
/// and raw-text content other than text (and, in `title`, interpolations).
/// Attributes are checked before children.
pub open spec fn thtml_node_failure(n: Node) -> Option<Failure>
    decreases n,
{
    match n {
        Node::Element(e) => match attrs_failure(e.attributes@) {
            Some(f) => Some(f),
            None => thtml_nodes_failure(e.children@),
        },
        Node::RawTextElement(r) => match attrs_failure(r.attributes@) {
            Some(f) => Some(f),
            None => raw_children_failure(r.name@, r.span, r.children@),
        },
        Node::ComponentTag(c) => match attrs_failure(c.attributes@) {
            Some(f) => Some(f),
            None => thtml_nodes_failure(c.children@),
        },
        Node::Fragment(f) => thtml_nodes_failure(f.children@),
        _ => None,
    }
}

pub open spec fn thtml_nodes_failure(ns: Seq<Node>) -> Option<Failure>
    decreases ns,
{
    if ns.len() == 0 {
        None
    } else {
        match thtml_nodes_failure(ns.subrange(0, ns.len() - 1)) {
            Some(f) => Some(f),
            None => thtml_node_failure(ns[ns.len() - 1]),
        }
    }
}

proof fn lemma_thtml_prefix(s: Seq<Node>, i: int)
    requires
        0 <= i <= s.len(),
        thtml_nodes_failure(s.subrange(0, i)) is Some,
    ensures
        thtml_nodes_failure(s) == thtml_nodes_failure(s.subrange(0, i)),
    decreases s.len() - i,
{
    if i < s.len() {
        let p = s.subrange(0, i + 1);
        assert(p.subrange(0, p.len() - 1) == s.subrange(0, i));
        lemma_thtml_prefix(s, i + 1);
    } else {
        assert(s.subrange(0, i) == s);
    }
}

fn validate_thtml_node(node: &Node) -> (r: BackendResult<()>)
    ensures
        checked(r, thtml_node_failure(*node)),
    decreases node,
{
    match node {
        Node::Element(element) => {
            proof {
                assert(decreases_to!(*node => (*node)->Element_0));
            }
            validate_attributes(&element.attributes)?;
            validate_thtml_children(&element.children)
        },
        Node::RawTextElement(element) => {
            validate_attributes(&element.attributes)?;
            validate_raw_text_children(element)
        },
        Node::ComponentTag(component) => {
            proof {
                assert(decreases_to!(*node => (*node)->ComponentTag_0));
            }
            validate_attributes(&component.attributes)?;
            validate_thtml_children(&component.children)
        },
        Node::Fragment(fragment) => {
            proof {
                assert(decreases_to!(*node => (*node)->Fragment_0));
            }
            validate_thtml_children(&fragment.children)
        },
        _ => Ok(()),
    }
}

fn validate_thtml_children(children: &Vec<Node>) -> (r: BackendResult<()>)
    ensures
        checked(r, thtml_nodes_failure(children@)),
    decreases children,
{
    let mut i: usize = 0;
    while i < children.len()
        invariant
            i <= children@.len(),
            thtml_nodes_failure(children@.subrange(0, i as int)) is None,
        decreases children.len() - i,
    {
        proof {
            let p = children@.subrange(0, i + 1);
            assert(p.subrange(0, p.len() - 1) == children@.subrange(0, i as int));
            assert(p[p.len() - 1] == children@[i as int]);
            assert(decreases_to!(*children => children@));
            assert(decreases_to!(children@ => children@[i as int]));
        }
        let step = validate_thtml_node(&children[i]);
        if step.is_err() {
            proof {
                lemma_thtml_prefix(children@, i + 1);
            }
            return step;
        }
        i += 1;
    }
    proof {
        assert(children@.subrange(0, children@.len() as int) == children@);
    }
    Ok(())
}

fn validate_thtml_document(document: &Document) -> (r: BackendResult<()>)
    ensures
        checked(r, thtml_nodes_failure(document.children@)),
{
    validate_thtml_children(&document.children)
}

/// Whether a component tag occurs anywhere in the nodes, inside elements,
/// raw-text elements and fragments.
pub open spec fn has_component(ns: Seq<Node>) -> bool
    decreases ns,
{
    if ns.len() == 0 {
        false
    } else {
        has_component(ns.subrange(0, ns.len() - 1)) || match ns[ns.len() - 1] {
            Node::ComponentTag(_) => true,
            Node::Element(e) => has_component(e.children@),
            Node::RawTextElement(r) => has_component(r.children@),
            Node::Fragment(f) => has_component(f.children@),
            _ => false,
        }
    }
}

pub(crate) proof fn lemma_has_component_prefix(ns: Seq<Node>, i: int)
    requires
        0 <= i <= ns.len(),
        has_component(ns.subrange(0, i)),
    ensures
        has_component(ns),
    decreases ns.len() - i,
{
    if i < ns.len() {
        let p = ns.subrange(0, i + 1);
        assert(p.subrange(0, p.len() - 1) == ns.subrange(0, i));
        lemma_has_component_prefix(ns, i + 1);
    } else {
        assert(ns.subrange(0, i) == ns);
    }
}

fn contains_components(children: &Vec<Node>) -> (r: bool)
    ensures
        r == has_component(children@),
    decreases children,
{
    let mut i: usize = 0;
    while i < children.len()
        invariant
            i <= children@.len(),
            !has_component(children@.subrange(0, i as int)),
        decreases children.len() - i,
    {
        proof {
            let p = children@.subrange(0, i + 1);
            assert(p.subrange(0, p.len() - 1) == children@.subrange(0, i as int));
            assert(p[p.len() - 1] == children@[i as int]);
            assert(decreases_to!(*children => children@));
            assert(decreases_to!(children@ => children@[i as int]));
        }
        let hit = match &children[i] {
            Node::ComponentTag(_) => true,
            Node::Element(element) => contains_components(&element.children),
            Node::RawTextElement(element) => contains_components(&element.children),
            Node::Fragment(fragment) => contains_components(&fragment.children),
            _ => false,
        };
        if hit {
            proof {
                lemma_has_component_prefix(children@, i + 1);
            }
            return true;
        }
        i += 1;
    }
    proof {
        assert(children@.subrange(0, children@.len() as int) == children@);
    }
    false
}

/// What preparation gives for a parsed document: the document when the T-HTML
/// backend accepts it, else the error of its first failure.
pub open spec fn prepared(r: BackendResult<Document>, d: Document) -> bool {
    match thtml_nodes_failure(d.children@) {
        None => r == Ok::<Document, BackendError>(d),
        Some(f) => r matches Err(e) && reports(e, f),
    }
}

/// Parses a template and validates it for the T-HTML backend: a parse failure
/// is reported as such, else the first validation failure of the parsed
/// document, else the document is given.
pub fn prepare_template(template: &TemplateInput) -> (r: BackendResult<Document>)
    ensures
        r matches Ok(d) ==> nodes_wf(d.children@) && thtml_nodes_failure(d.children@) is None,
        r matches Err(e) ==> e.kind == ErrorKind::Parse || e.kind == ErrorKind::Semantic,
        match document_spec(template_tokens(*template)) {
            Err(f) => r matches Err(e) && parse_reports(e, f),
            Ok(_) => exists|d: Document| parses_to(*template, d) && prepared(r, d),
        },
{
    let document = parse_template(template)?;
    proof {
        assert(parses_to(*template, document));
    }
    validate_thtml_document(&document)?;
    proof {
        assert(parses_to(*template, document) && prepared(Ok::<Document, BackendError>(document), document));
    }
    Ok(document)
}

/// Whether a template parses and passes T-HTML validation: the parse failure,
/// else the first validation failure, else success.
pub fn check_template(template: &TemplateInput) -> (r: BackendResult<()>)
    ensures
        r matches Err(e) ==> e.kind == ErrorKind::Parse || e.kind == ErrorKind::Semantic,
        match document_spec(template_tokens(*template)) {
            Err(f) => r matches Err(e) && parse_reports(e, f),
            Ok(_) => exists|d: Document| parses_to(*template, d) && checked(r, thtml_nodes_failure(d.children@)),
        },
{
    match prepare_template(template) {
        Ok(_) => Ok(()),
        Err(e) => Err(e),
    }
}

/// Compiles a template: as [`prepare_template`], holding the document.
pub fn compile_template(template: &TemplateInput) -> (r: BackendResult<CompiledThtmlTemplate>)
    ensures
        r matches Ok(c) ==> nodes_wf(c.held().children@) && thtml_nodes_failure(c.held().children@) is None,
        r matches Err(e) ==> e.kind == ErrorKind::Parse || e.kind == ErrorKind::Semantic,
        match document_spec(template_tokens(*template)) {
            Err(f) => r matches Err(e) && parse_reports(e, f),
            Ok(_) => exists|d: Document| parses_to(*template, d) && match thtml_nodes_failure(d.children@) {
                None => r matches Ok(c) && c.held() == d,
                Some(f) => r matches Err(e) && reports(e, f),
            },
        },
{
    let document = prepare_template(template)?;
    Ok(CompiledThtmlTemplate { document })
}

pub open spec fn component_resolution_failure() -> Failure {
    Failure {
        code: "thtml.runtime.component_resolution"@,
        message: "Component rendering requires the bindings layer runtime context."@,
        span: None,
    }
}

/// What rendering without a host runtime gives: an error when a component
/// occurs, else the HTML rendering.
pub open spec fn thtml_render(d: Document, ctx: RuntimeContext) -> Result<Seq<char>, Failure> {
    if has_component(d.children@) {
        Err(component_resolution_failure())
    } else {
        nodes_render(d.children@, ctx)
    }
}

/// Renders a compiled template without a host runtime: templates with
/// components cannot be rendered here.
pub fn render_html(compiled: &CompiledThtmlTemplate, context: &RuntimeContext) -> (r: BackendResult<String>)
    ensures
        gave(r, thtml_render(compiled.held(), *context)),
{
    if contains_components(&compiled.document.children) {
        return Err(runtime_error(
            "thtml.runtime.component_resolution",
            "Component rendering requires the bindings layer runtime context.".to_owned(),
            None,
        ));
    }
    render_document(&compiled.document, context)
}

pub fn render_fragment(compiled: &CompiledThtmlTemplate, context: &RuntimeContext) -> (r: BackendResult<RenderedFragment>)
    ensures
        match thtml_render(compiled.held(), *context) {
            Ok(t) => r matches Ok(f) && f.html@ == t,
            Err(f) => r matches Err(e) && reports(e, f),
        },
{
    let html = render_html(compiled, context)?;
    Ok(RenderedFragment { html })
}

/// What T-HTML formatting gives for a parsed document: the first validation
/// failure, else the formatted text, else (where a column would exceed
/// `usize::MAX`) the overflow failure.
pub open spec fn format_outcome(r: BackendResult<String>, d: Document, ll: usize) -> bool {
    match thtml_nodes_failure(d.children@) {
        Some(f) => r matches Err(e) && reports(e, f),
        None => if formattable(d, FormatFlavor::Thtml, ll) {
            r matches Ok(s) && s@ == formatted(d, FormatFlavor::Thtml, ll)
        } else {
            r matches Err(e) && reports(e, width_overflow_failure())
        },
    }
}

/// Formats a template as T-HTML: every interpolation needs its raw source, the
/// template must parse, and the parsed document must pass validation; the text
/// is the formatting of the parsed document.
pub fn format_template_with_options(template: &TemplateInput, options: &FormatOptions) -> (r: BackendResult<String>)
    ensures
        raw_source_failure(template.segments@, "html.format.raw_source_required"@) matches Some(f)
            ==> r matches Err(e) && reports(e, f),
        r matches Err(e) ==> e.kind == ErrorKind::Parse || e.kind == ErrorKind::Semantic,
        raw_source_failure(template.segments@, "html.format.raw_source_required"@) is None ==> match document_spec(
            template_tokens(*template),
        ) {
            Err(f) => r matches Err(e) && parse_reports(e, f),
            Ok(_) => exists|d: Document| parses_to(*template, d) && format_outcome(r, d, options.line_length),
        },
{
    let document = format_template_syntax(template)?;
    let checked = validate_thtml_document(&document);
    match checked {
        Err(e) => {
            proof {
                assert(parses_to(*template, document) && format_outcome(Err::<String, BackendError>(e), document, options.line_length));
            }
            return Err(e);
        },
        Ok(()) => {},
    }
    match format_document_checked(&document, options, FormatFlavor::Thtml) {
        Some(text) => {
            proof {
                assert(format_outcome(Ok::<String, BackendError>(text), document, options.line_length));
            }
            Ok(text)
        },
        None => {
            let e = width_overflow_error();
            proof {
                assert(format_outcome(Err::<String, BackendError>(e), document, options.line_length));
            }
            Err(e)
        },
    }
}

/// Formats a template as T-HTML with the default options (lines of 80 columns).
pub fn format_template(template: &TemplateInput) -> (r: BackendResult<String>)
    ensures
        raw_source_failure(template.segments@, "html.format.raw_source_required"@) matches Some(f)
            ==> r matches Err(e) && reports(e, f),
        r matches Err(e) ==> e.kind == ErrorKind::Parse || e.kind == ErrorKind::Semantic,
        raw_source_failure(template.segments@, "html.format.raw_source_required"@) is None ==> match document_spec(
            template_tokens(*template),
        ) {
            Err(f) => r matches Err(e) && parse_reports(e, f),
            Ok(_) => exists|d: Document| parses_to(*template, d) && format_outcome(r, d, 80),
        },
{
    format_template_with_options(template, &FormatOptions::default())
}

proof fn lemma_raw_content_with_component_fails(name: Seq<char>, span: Option<SourceSpan>, ns: Seq<Node>)
    requires
        has_component(ns),
    ensures
        raw_children_failure(name, span, ns) is Some,
    decreases ns.len(),
{
    let pre = ns.subrange(0, ns.len() - 1);
    assert(ns.drop_last() == pre);
    if raw_children_failure(name, span, pre) is None {
        if has_component(pre) {
            lemma_raw_content_with_component_fails(name, span, pre);
        }
        assert(!(ns.last() is Text) && !(ns.last() is Interpolation));
    }
}

/// The HTML backend accepts no component tag: nodes that hold one anywhere
/// (inside elements, raw-text elements or fragments) fail HTML validation.
pub proof fn lemma_components_fail_html_validation(ns: Seq<Node>)
    requires
        has_component(ns),
    ensures
        crate::html::validate::html_nodes_failure(ns) is Some,
    decreases ns,
{
    let pre = ns.subrange(0, ns.len() - 1);
    let last = ns[ns.len() - 1];
    if crate::html::validate::html_nodes_failure(pre) is None {
        if has_component(pre) {
            lemma_components_fail_html_validation(pre);
        }
        match last {
            Node::Element(e) => {
                assert(decreases_to!(ns => ns[ns.len() - 1]));
                lemma_components_fail_html_validation(e.children@);
            },
            Node::RawTextElement(r) => {
                lemma_raw_content_with_component_fails(r.name@, r.span, r.children@);
            },
            Node::Fragment(f) => {
                assert(decreases_to!(ns => ns[ns.len() - 1]));
                lemma_components_fail_html_validation(f.children@);
            },
            _ => {},
        }
        assert(crate::html::validate::html_node_failure(last) is Some);
    }
}

/// T-HTML is HTML with component tags: nodes pass HTML validation exactly when
/// they pass T-HTML validation and hold no component tag.
pub proof fn lemma_html_is_thtml_without_components(ns: Seq<Node>)
    ensures
        crate::html::validate::html_nodes_failure(ns) is None <==> (thtml_nodes_failure(ns) is None
            && !has_component(ns)),
    decreases ns,
{
    if ns.len() > 0 {
        let pre = ns.subrange(0, ns.len() - 1);
        let last = ns[ns.len() - 1];
        lemma_html_is_thtml_without_components(pre);
        assert(decreases_to!(ns => ns[ns.len() - 1]));
        match last {
            Node::Element(e) => {
                lemma_html_is_thtml_without_components(e.children@);
            },
            Node::RawTextElement(r) => {
                if has_component(r.children@) {
                    lemma_raw_content_with_component_fails(r.name@, r.span, r.children@);
                }
            },
            Node::Fragment(f) => {
                lemma_html_is_thtml_without_components(f.children@);
            },
            _ => {},
        }
        let node_has = match last {
            Node::ComponentTag(_) => true,
            Node::Element(e) => has_component(e.children@),
            Node::RawTextElement(r) => has_component(r.children@),
            Node::Fragment(f) => has_component(f.children@),
            _ => false,
        };
        assert(crate::html::validate::html_node_failure(last) is None <==> (thtml_node_failure(last) is None
            && !node_has));
        assert(has_component(ns) == (has_component(pre) || node_has));
    }
}

} // verus!
