//! Semantic validation of parsed HTML documents.

use vstd::prelude::*;
use crate::syntax::{SourceSpan, BackendError, BackendResult, ErrorKind, error_is};
use crate::text::{concat3, str_eq};
use super::ast::{
    Node, AttributeLike, Attribute, AttributeValue, ValuePart, RawTextElementNode, Document,
    raw_text_allows_interpolation,
};

verus! {

/// The code, message and span of a semantic failure.
pub struct Failure {
    pub code: Seq<char>,
    pub message: Seq<char>,
    pub span: Option<SourceSpan>,
}

/// `e` is the semantic error that reports `f`.
pub open spec fn reports(e: BackendError, f: Failure) -> bool {
    error_is(e, ErrorKind::Semantic, f.code, f.message, f.span)
}

pub(crate) fn semantic_error(code: &str, message: String, span: Option<SourceSpan>) -> (r: BackendError)
    ensures
        error_is(r, ErrorKind::Semantic, code@, message@, span),
{
    BackendError::semantic_at(code.to_owned(), message, span)
}

pub open spec fn has_interpolation_part(parts: Seq<ValuePart>) -> bool {
    exists|i: int| 0 <= i < parts.len() && #[trigger] parts[i] is Interpolation
}

/// A dynamic attribute value must be quoted.
pub open spec fn attr_failure(a: AttributeLike) -> Option<Failure> {
    match a {
        AttributeLike::Attribute(at) => match at.value {
            Some(v) => if !v.quoted && has_interpolation_part(v.parts@) {
                Some(Failure {
                    code: "html.semantic.unquoted_dynamic_attr"@,
                    message: "Dynamic attribute value for '"@ + at.name@ + "' must be quoted."@,
                    span: at.span,
                })
            } else {
                None
            },
            None => None,
        },
        AttributeLike::SpreadAttribute(_) => None,
    }
}

/// The first failure among attributes.
pub open spec fn attrs_failure(attrs: Seq<AttributeLike>) -> Option<Failure>
    decreases attrs.len(),
{
    if attrs.len() == 0 {
        None
    } else {
        match attrs_failure(attrs.drop_last()) {
            Some(f) => Some(f),
            None => attr_failure(attrs.last()),
        }
    }
}

/// Raw-text content is text, plus interpolations inside `title` only.
pub open spec fn raw_child_failure(name: Seq<char>, span: Option<SourceSpan>, child: Node) -> Option<Failure> {
    match child {
        Node::Text(_) => None,
        Node::Interpolation(i) => if name == "title"@ {
            None
        } else {
            Some(Failure {
                code: "html.semantic.raw_text_interpolation"@,
                message: "Interpolations are not allowed inside <"@ + name + ">."@,
                span: i.span,
            })
        },
        _ => Some(Failure {
            code: "html.semantic.raw_text_content"@,
            message: if name == "title"@ {
                "Only text and interpolations are allowed inside <"@ + name + ">."@
            } else {
                "Only text is allowed inside <"@ + name + ">."@
            },
            span,
        }),
    }
}

pub open spec fn raw_children_failure(name: Seq<char>, span: Option<SourceSpan>, children: Seq<Node>) -> Option<Failure>
    decreases children.len(),
{
    if children.len() == 0 {
        None
    } else {
        match raw_children_failure(name, span, children.drop_last()) {
            Some(f) => Some(f),
            None => raw_child_failure(name, span, children.last()),
        }
    }
}

/// What the HTML backend rejects in a node: component tags, unquoted dynamic
/// attribute values, and raw-text content other than text (and, in `title`,
/// interpolations). Children of an element are checked before its attributes.
pub open spec fn html_node_failure(n: Node) -> Option<Failure>
    decreases n,
{
    match n {
        Node::ComponentTag(c) => Some(Failure {
            code: "html.semantic.component_tag"@,
            message: "Component tag <"@ + c.name@ + "> is only valid in the T-HTML backend."@,
            span: c.span,
        }),
        Node::Element(e) => match html_nodes_failure(e.children@) {
            Some(f) => Some(f),
            None => attrs_failure(e.attributes@),
        },
        Node::RawTextElement(r) => match attrs_failure(r.attributes@) {
            Some(f) => Some(f),
            None => raw_children_failure(r.name@, r.span, r.children@),
        },
        Node::Fragment(f) => html_nodes_failure(f.children@),
        _ => None,
    }
}

pub open spec fn html_nodes_failure(ns: Seq<Node>) -> Option<Failure>
    decreases ns,
{
    if ns.len() == 0 {
        None
    } else {
        match html_nodes_failure(ns.subrange(0, ns.len() - 1)) {
            Some(f) => Some(f),
            None => html_node_failure(ns[ns.len() - 1]),
        }
    }
}

/// The result of a check: `Ok` when there is no failure, else the error that
/// reports the failure.
pub open spec fn checked(r: BackendResult<()>, f: Option<Failure>) -> bool {
    match f {
        None => r is Ok,
        Some(f) => r matches Err(e) && reports(e, f),
    }
}

proof fn lemma_attrs_failure_prefix(s: Seq<AttributeLike>, i: int)
    requires
        0 <= i <= s.len(),
        attrs_failure(s.subrange(0, i)) is Some,
    ensures
        attrs_failure(s) == attrs_failure(s.subrange(0, i)),
    decreases s.len() - i,
{
    if i < s.len() {
        let p = s.subrange(0, i + 1);
        assert(p.drop_last() == s.subrange(0, i));
        lemma_attrs_failure_prefix(s, i + 1);
    } else {
        assert(s.subrange(0, i) == s);
    }
}

proof fn lemma_raw_failure_prefix(name: Seq<char>, span: Option<SourceSpan>, s: Seq<Node>, i: int)
    requires
        0 <= i <= s.len(),
        raw_children_failure(name, span, s.subrange(0, i)) is Some,
    ensures
        raw_children_failure(name, span, s) == raw_children_failure(name, span, s.subrange(0, i)),
    decreases s.len() - i,
{
    if i < s.len() {
        let p = s.subrange(0, i + 1);
        assert(p.drop_last() == s.subrange(0, i));
        lemma_raw_failure_prefix(name, span, s, i + 1);
    } else {
        assert(s.subrange(0, i) == s);
    }
}

proof fn lemma_nodes_failure_prefix(s: Seq<Node>, i: int)
    requires
        0 <= i <= s.len(),
        html_nodes_failure(s.subrange(0, i)) is Some,
    ensures
        html_nodes_failure(s) == html_nodes_failure(s.subrange(0, i)),
    decreases s.len() - i,
{
    if i < s.len() {
        let p = s.subrange(0, i + 1);
        assert(p.subrange(0, p.len() - 1) == s.subrange(0, i));
        lemma_nodes_failure_prefix(s, i + 1);
    } else {
        assert(s.subrange(0, i) == s);
    }
}

fn has_interpolation(parts: &Vec<ValuePart>) -> (r: bool)
    ensures
        r == has_interpolation_part(parts@),
{
    let mut i: usize = 0;
    while i < parts.len()
        invariant
            i <= parts@.len(),
            forall|k: int| 0 <= k < i ==> !(#[trigger] parts@[k] is Interpolation),
        decreases parts.len() - i,
    {
        match &parts[i] {
            ValuePart::Interpolation(_) => {
                return true;
            },
            ValuePart::Text(_) => {},
        }
        i += 1;
    }
    false
}

pub(crate) fn validate_attributes(attributes: &Vec<AttributeLike>) -> (r: BackendResult<()>)
    ensures
        checked(r, attrs_failure(attributes@)),
{
    let mut i: usize = 0;
    while i < attributes.len()
        invariant
            i <= attributes@.len(),
            attrs_failure(attributes@.subrange(0, i as int)) is None,
        decreases attributes.len() - i,
    {
        proof {
            let p = attributes@.subrange(0, i + 1);
            assert(p.drop_last() == attributes@.subrange(0, i as int));
            assert(p.last() == attributes@[i as int]);
        }
        match &attributes[i] {
            AttributeLike::Attribute(attribute) => {
                match &attribute.value {
                    Some(value) => {
                        if !value.quoted && has_interpolation(&value.parts) {
                            proof {
                                lemma_attrs_failure_prefix(attributes@, i + 1);
                            }
                            return Err(semantic_error(
                                "html.semantic.unquoted_dynamic_attr",
                                concat3("Dynamic attribute value for '", attribute.name.as_str(), "' must be quoted."),
                                attribute.span,
                            ));
                        }
                    },
                    None => {},
                }
            },
            AttributeLike::SpreadAttribute(_) => {},
        }
        i += 1;
    }
    proof {
        assert(attributes@.subrange(0, attributes@.len() as int) == attributes@);
    }
    Ok(())
}

pub(crate) fn validate_raw_text_children(element: &RawTextElementNode) -> (r: BackendResult<()>)
    ensures
        checked(r, raw_children_failure(element.name@, element.span, element.children@)),
{
    let allows = raw_text_allows_interpolation(element.name.as_str());
    let mut i: usize = 0;
    while i < element.children.len()
        invariant
            i <= element.children@.len(),
            allows == (element.name@ == "title"@),
            raw_children_failure(element.name@, element.span, element.children@.subrange(0, i as int)) is None,
        decreases element.children.len() - i,
    {
        proof {
            let p = element.children@.subrange(0, i + 1);
            assert(p.drop_last() == element.children@.subrange(0, i as int));
            assert(p.last() == element.children@[i as int]);
        }
        match &element.children[i] {
            Node::Text(_) => {},
            Node::Interpolation(interpolation) => {
                if !allows {
                    proof {
                        lemma_raw_failure_prefix(element.name@, element.span, element.children@, i + 1);
                    }
                    return Err(semantic_error(
                        "html.semantic.raw_text_interpolation",
                        concat3("Interpolations are not allowed inside <", element.name.as_str(), ">."),
                        interpolation.span,
                    ));
                }
            },
            _ => {
                let message = if allows {
                    concat3("Only text and interpolations are allowed inside <", element.name.as_str(), ">.")
                } else {
                    concat3("Only text is allowed inside <", element.name.as_str(), ">.")
                };
                proof {
                    lemma_raw_failure_prefix(element.name@, element.span, element.children@, i + 1);
                }
                return Err(semantic_error("html.semantic.raw_text_content", message, element.span));
            },
        }
        i += 1;
    }
    proof {
        assert(element.children@.subrange(0, element.children@.len() as int) == element.children@);
    }
    Ok(())
}

pub(crate) fn validate_html_node(node: &Node) -> (r: BackendResult<()>)
    ensures
        checked(r, html_node_failure(*node)),
    decreases node,
{
    match node {
        Node::ComponentTag(component) => Err(semantic_error(
            "html.semantic.component_tag",
            concat3("Component tag <", component.name.as_str(), "> is only valid in the T-HTML backend."),
            component.span,
        )),
        Node::Element(element) => {
            proof {
                assert(decreases_to!(*node => (*node)->Element_0));
            }
            validate_children(&element.children)?;
            validate_attributes(&element.attributes)?;
            Ok(())
        },
        Node::RawTextElement(element) => {
            validate_attributes(&element.attributes)?;
            validate_raw_text_children(element)
        },
        Node::Fragment(fragment) => {
            proof {
                assert(decreases_to!(*node => (*node)->Fragment_0));
            }
            validate_children(&fragment.children)
        },
        _ => Ok(()),
    }
}

pub(crate) fn validate_children(children: &Vec<Node>) -> (r: BackendResult<()>)
    ensures
        checked(r, html_nodes_failure(children@)),
    decreases children,
{
    let mut i: usize = 0;
    while i < children.len()
        invariant
            i <= children@.len(),
            html_nodes_failure(children@.subrange(0, i as int)) is None,
        decreases children.len() - i,
    {
        proof {
            let p = children@.subrange(0, i + 1);
            assert(p.subrange(0, p.len() - 1) == children@.subrange(0, i as int));
            assert(p[p.len() - 1] == children@[i as int]);
            assert(decreases_to!(*children => children@));
            assert(decreases_to!(children@ => children@[i as int]));
        }
        let checked_child = validate_html_node(&children[i]);
        if checked_child.is_err() {
            proof {
                lemma_nodes_failure_prefix(children@, i + 1);
            }
            return checked_child;
        }
        i += 1;
    }
    proof {
        assert(children@.subrange(0, children@.len() as int) == children@);
    }
    Ok(())
}

pub(crate) fn validate_html_document(document: &Document) -> (r: BackendResult<()>)
    ensures
        checked(r, html_nodes_failure(document.children@)),
{
    validate_children(&document.children)
}

} // verus!
