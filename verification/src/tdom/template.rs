//! The TDOM backend's entry points: preparing, checking and formatting
//! templates, and the validation of parsed documents.

use vstd::prelude::*;
use crate::syntax::{TemplateInput, SourceSpan, BackendError, BackendResult, ErrorKind};
use crate::text::concat3;
use crate::html::validate::{Failure, reports, checked, semantic_error};
use crate::html::template::{require_raw_source, raw_source_failure, width_overflow_error, width_overflow_failure};
use crate::html::parser::template_tokens;
use super::grammar::{document_spec, nodes_model, parse_reports, NodeM};
use super::ast::{Document, Node, RawTextElementNode, FormatOptions};
use super::parser::{parse_template, nodes_wf};
use super::format::{formatted, formattable, format_document_checked};

verus! {

/// A raw-text element may hold text and interpolations only.
pub open spec fn raw_content_failure(name: Seq<char>, span: Option<SourceSpan>, children: Seq<Node>) -> Option<Failure>
    decreases children.len(),
{
    if children.len() == 0 {
        None
    } else {
        match raw_content_failure(name, span, children.drop_last()) {
            Some(f) => Some(f),
            None => match children.last() {
                Node::Text(_) | Node::Interpolation(_) => None,
                _ => Some(Failure {
                    code: "tdom.semantic.raw_text_content"@,
                    message: "Only text-like content is allowed inside <"@ + name + ">."@,
                    span,
                }),
            },
        }
    }
}

/// What the TDOM backend rejects in a node: raw-text content other than text
/// and interpolations, anywhere in the tree.
pub open spec fn node_failure(n: Node) -> Option<Failure>
    decreases n,
{
    match n {
        Node::Fragment(f) => nodes_failure(f.children@),
        Node::Element(e) => nodes_failure(e.children@),
        Node::ComponentTag(c) => nodes_failure(c.children@),
        Node::RawTextElement(r) => raw_content_failure(r.name@, r.span, r.children@),
        _ => None,
    }
}

pub open spec fn nodes_failure(ns: Seq<Node>) -> Option<Failure>
    decreases ns,
{
    if ns.len() == 0 {
        None
    } else {
        match nodes_failure(ns.subrange(0, ns.len() - 1)) {
            Some(f) => Some(f),
            None => node_failure(ns[ns.len() - 1]),
        }
    }
}

proof fn lemma_raw_content_prefix(name: Seq<char>, span: Option<SourceSpan>, s: Seq<Node>, i: int)
    requires
        0 <= i <= s.len(),
        raw_content_failure(name, span, s.subrange(0, i)) is Some,
    ensures
        raw_content_failure(name, span, s) == raw_content_failure(name, span, s.subrange(0, i)),
    decreases s.len() - i,
{
    if i < s.len() {
        let p = s.subrange(0, i + 1);
        assert(p.drop_last() == s.subrange(0, i));
        lemma_raw_content_prefix(name, span, s, i + 1);
    } else {
        assert(s.subrange(0, i) == s);
    }
}

proof fn lemma_nodes_failure_prefix(s: Seq<Node>, i: int)
    requires
        0 <= i <= s.len(),
        nodes_failure(s.subrange(0, i)) is Some,
    ensures
        nodes_failure(s) == nodes_failure(s.subrange(0, i)),
    decreases s.len() - i,
{
    if i < s.len() {
        let p = s.subrange(0, i + 1);
        assert(p.subrange(0, p.len() - 1) == s.subrange(0, i));
        lemma_nodes_failure_prefix(s, i + 1);
    } else {
        assert(s.subrange(0, i) == s);
    }
}

fn validate_raw_text_content(element: &RawTextElementNode) -> (r: BackendResult<()>)
    ensures
        checked(r, raw_content_failure(element.name@, element.span, element.children@)),
{
    let mut i: usize = 0;
    while i < element.children.len()
        invariant
            i <= element.children@.len(),
            raw_content_failure(element.name@, element.span, element.children@.subrange(0, i as int)) is None,
        decreases element.children.len() - i,
    {
        proof {
            let p = element.children@.subrange(0, i + 1);
            assert(p.drop_last() == element.children@.subrange(0, i as int));
            assert(p.last() == element.children@[i as int]);
        }
        match &element.children[i] {
            Node::Text(_) | Node::Interpolation(_) => {},
            _ => {
                proof {
                    lemma_raw_content_prefix(element.name@, element.span, element.children@, i + 1);
                }
                return Err(semantic_error(
                    "tdom.semantic.raw_text_content",
                    concat3("Only text-like content is allowed inside <", element.name.as_str(), ">."),
                    element.span,
                ));
            },
        }
        i += 1;
    }
    proof {
        assert(element.children@.subrange(0, element.children@.len() as int) == element.children@);
    }
    Ok(())
}

fn validate_node(node: &Node) -> (r: BackendResult<()>)
    ensures
        checked(r, node_failure(*node)),
    decreases node,
{
    match node {
        Node::Fragment(fragment) => {
            proof {
                assert(decreases_to!(*node => (*node)->Fragment_0));
            }
            validate_children(&fragment.children)
        },
        Node::Element(element) => {
            proof {
                assert(decreases_to!(*node => (*node)->Element_0));
            }
            validate_children(&element.children)
        },
        Node::ComponentTag(component) => {
            proof {
                assert(decreases_to!(*node => (*node)->ComponentTag_0));
            }
            validate_children(&component.children)
        },
        Node::RawTextElement(element) => validate_raw_text_content(element),
        _ => Ok(()),
    }
}

fn validate_children(children: &Vec<Node>) -> (r: BackendResult<()>)
    ensures
        checked(r, nodes_failure(children@)),
    decreases children,
{
    let mut i: usize = 0;
    while i < children.len()
        invariant
            i <= children@.len(),
            nodes_failure(children@.subrange(0, i as int)) is None,
        decreases children.len() - i,
    {
        proof {
            let p = children@.subrange(0, i + 1);
            assert(p.subrange(0, p.len() - 1) == children@.subrange(0, i as int));
            assert(p[p.len() - 1] == children@[i as int]);
            assert(decreases_to!(*children => children@));
            assert(decreases_to!(children@ => children@[i as int]));
        }
        let step = validate_node(&children[i]);
        if step.is_err() {
            proof {
                lemma_nodes_failure_prefix(children@, i + 1);
            }
            return step;
        }
        i += 1;
    }
    proof {
        assert(children@.subrange(0, children@.len() as int) == children@);
    }
    Ok(())
}

fn validate_document(document: &Document) -> (r: BackendResult<()>)
    ensures
        checked(r, nodes_failure(document.children@)),
{
    validate_children(&document.children)
}

/// `d` is the document that `template` parses to: its nodes and span are those
/// of [`document_spec`] on the template's tokens.
pub open spec fn parses_to(template: TemplateInput, d: Document) -> bool {
    &&& document_spec(template_tokens(template)) == Ok::<(Seq<NodeM>, Option<SourceSpan>), Failure>(
        (nodes_model(d.children@), d.span),
    )
    &&& nodes_wf(d.children@)
}

/// What preparation gives for a parsed document: the document when the TDOM
/// backend accepts it, else the error of its first failure.
pub open spec fn prepared(r: BackendResult<Document>, d: Document) -> bool {
    match nodes_failure(d.children@) {
        None => r == Ok::<Document, BackendError>(d),
        Some(f) => r matches Err(e) && reports(e, f),
    }
}

/// Parses a template and validates it for the TDOM backend: a parse failure is
/// reported as such, else the first validation failure of the parsed document,
/// else the document is given.
pub fn prepare_template(template: &TemplateInput) -> (r: BackendResult<Document>)
    ensures
        r matches Ok(d) ==> nodes_wf(d.children@) && nodes_failure(d.children@) is None,
        r matches Err(e) ==> e.kind == ErrorKind::Parse || e.kind == ErrorKind::Semantic,
        match document_spec(template_tokens(*template)) {
            Err(f) => r matches Err(e) && parse_reports(e, f),
            Ok(_) => exists|d: Document| parses_to(*template, d) && prepared(r, d),
        },
{
    let document = parse_template(template)?;
    proof {
        assert(parses_to(*template, document));
    }
    validate_document(&document)?;
    proof {
        assert(parses_to(*template, document) && prepared(Ok::<Document, BackendError>(document), document));
    }
    Ok(document)
}

/// Whether a template parses and passes validation: the parse failure, else
/// the first validation failure, else success.
pub fn check_template(template: &TemplateInput) -> (r: BackendResult<()>)
    ensures
        r matches Err(e) ==> e.kind == ErrorKind::Parse || e.kind == ErrorKind::Semantic,
        match document_spec(template_tokens(*template)) {
            Err(f) => r matches Err(e) && parse_reports(e, f),
            Ok(_) => exists|d: Document| parses_to(*template, d) && checked(r, nodes_failure(d.children@)),
        },
{
    match prepare_template(template) {
        Ok(_) => Ok(()),
        Err(e) => Err(e),
    }
}

/// What formatting gives for a parsed document: the first validation failure,
/// else the formatted text, else (where a column would exceed `usize::MAX`) the
/// overflow failure.
pub open spec fn format_outcome(r: BackendResult<String>, d: Document, ll: usize) -> bool {
    match nodes_failure(d.children@) {
        Some(f) => r matches Err(e) && reports(e, f),
        None => if formattable(d, ll) {
            r matches Ok(s) && s@ == formatted(d, ll)
        } else {
            r matches Err(e) && reports(e, width_overflow_failure())
        },
    }
}

/// Formats a template: every interpolation needs its raw source, the template
/// must parse, and the parsed document must pass validation; the text is the
/// formatting of the parsed document.
pub fn format_template_with_options(template: &TemplateInput, options: &FormatOptions) -> (r: BackendResult<String>)
    ensures
        raw_source_failure(template.segments@, "tdom.format.raw_source_required"@) matches Some(f)
            ==> r matches Err(e) && reports(e, f),
        r matches Err(e) ==> e.kind == ErrorKind::Parse || e.kind == ErrorKind::Semantic,
        raw_source_failure(template.segments@, "tdom.format.raw_source_required"@) is None ==> match document_spec(
            template_tokens(*template),
        ) {
            Err(f) => r matches Err(e) && parse_reports(e, f),
            Ok(_) => exists|d: Document| parses_to(*template, d) && format_outcome(r, d, options.line_length),
        },
{
    require_raw_source(template, "tdom.format.raw_source_required")?;
    let document = parse_template(template)?;
    proof {
        assert(parses_to(*template, document));
    }
    let checked = validate_document(&document);
    match checked {
        Err(e) => {
            proof {
                assert(format_outcome(Err::<String, BackendError>(e), document, options.line_length));
            }
            return Err(e);
        },
        Ok(()) => {},
    }
    match format_document_checked(&document, options) {
        Some(text) => {
            proof {
                assert(format_outcome(Ok::<String, BackendError>(text), document, options.line_length));
            }
            Ok(text)
        },
        None => {
            let e = width_overflow_error();
            proof {
                assert(format_outcome(Err::<String, BackendError>(e), document, options.line_length));
            }
            Err(e)
        },
    }
}

/// Formats a template with the default options (lines of 80 columns).
pub fn format_template(template: &TemplateInput) -> (r: BackendResult<String>)
    ensures
        raw_source_failure(template.segments@, "tdom.format.raw_source_required"@) matches Some(f)
            ==> r matches Err(e) && reports(e, f),
        r matches Err(e) ==> e.kind == ErrorKind::Parse || e.kind == ErrorKind::Semantic,
        raw_source_failure(template.segments@, "tdom.format.raw_source_required"@) is None ==> match document_spec(
            template_tokens(*template),
        ) {
            Err(f) => r matches Err(e) && parse_reports(e, f),
            Ok(_) => exists|d: Document| parses_to(*template, d) && format_outcome(r, d, 80),
        },
{
    format_template_with_options(template, &FormatOptions::default())
}

} // verus!
