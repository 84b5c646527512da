//! The HTML backend's entry points: preparing, checking, compiling and
//! rendering templates, the static key of a template, and the rebinding of a
//! cached document to the interpolations of a new template.

use vstd::prelude::*;
use crate::syntax::{
    TemplateInput, TemplateSegment, TemplateInterpolation, BackendError, BackendResult, ErrorKind,
    expression_label_spec, clone_opt_string,
};
use crate::text::concat3;
use super::ast::{
    Document, Node, AttributeLike, ValuePart, InterpolationNode, CompiledHtmlTemplate, RuntimeContext,
    RenderedFragment, nodes_wf, Attribute, AttributeValue, SpreadAttribute, FragmentNode, ElementNode,
    ComponentTagNode, RawTextElementNode, TextNode, CommentNode, DoctypeNode,
};
use super::parser::{parse_template, template_tokens};
use super::grammar::{document_spec, nodes_model, parse_reports, NodeM};
use crate::syntax::SourceSpan;
use super::validate::{Failure, reports, checked, semantic_error, html_nodes_failure, validate_html_document};
use super::render::{nodes_render, gave, render_document};
use super::format::{formatted, formattable, format_document_checked};
use super::ast::{FormatOptions, FormatFlavor};

verus! {

/// The first interpolation among the segments that has no raw source, reported
/// under `code`.
pub open spec fn raw_source_failure(segs: Seq<TemplateSegment>, code: Seq<char>) -> Option<Failure>
    decreases segs.len(),
{
    if segs.len() == 0 {
        None
    } else {
        match raw_source_failure(segs.drop_last(), code) {
            Some(f) => Some(f),
            None => match segs.last() {
                TemplateSegment::Interpolation(i) => if i.raw_source is None {
                    Some(Failure {
                        code,
                        message: "Formatting requires raw_source for interpolation '"@ + expression_label_spec(i)
                            + "'."@,
                        span: None,
                    })
                } else {
                    None
                },
                TemplateSegment::StaticText(_) => None,
            },
        }
    }
}

proof fn lemma_raw_source_prefix(segs: Seq<TemplateSegment>, code: Seq<char>, i: int)
    requires
        0 <= i <= segs.len(),
        raw_source_failure(segs.subrange(0, i), code) is Some,
    ensures
        raw_source_failure(segs, code) == raw_source_failure(segs.subrange(0, i), code),
    decreases segs.len() - i,
{
    if i < segs.len() {
        let p = segs.subrange(0, i + 1);
        assert(p.drop_last() == segs.subrange(0, i));
        lemma_raw_source_prefix(segs, code, i + 1);
    } else {
        assert(segs.subrange(0, i) == segs);
    }
}

/// Formatting writes interpolations back by their raw source, so every
/// interpolation must carry one; the error is reported under `code`.
pub(crate) fn require_raw_source(template: &TemplateInput, code: &str) -> (r: BackendResult<()>)
    ensures
        checked(r, raw_source_failure(template.segments@, code@)),
{
    let mut i: usize = 0;
    while i < template.segments.len()
        invariant
            i <= template.segments@.len(),
            raw_source_failure(template.segments@.subrange(0, i as int), code@) is None,
        decreases template.segments.len() - i,
    {
        proof {
            let p = template.segments@.subrange(0, i + 1);
            assert(p.drop_last() == template.segments@.subrange(0, i as int));
            assert(p.last() == template.segments@[i as int]);
        }
        match &template.segments[i] {
            TemplateSegment::Interpolation(interpolation) => {
                if interpolation.raw_source.is_none() {
                    proof {
                        lemma_raw_source_prefix(template.segments@, code@, i + 1);
                    }
                    return Err(semantic_error(
                        code,
                        concat3(
                            "Formatting requires raw_source for interpolation '",
                            interpolation.expression_label().as_str(),
                            "'.",
                        ),
                        None,
                    ));
                }
            },
            TemplateSegment::StaticText(_) => {},
        }
        i += 1;
    }
    proof {
        assert(template.segments@.subrange(0, template.segments@.len() as int) == template.segments@);
    }
    Ok(())
}

/// `d` is the document that `template` parses to: its nodes and span are those
/// of [`document_spec`] on the template's tokens.
pub open spec fn parses_to(template: TemplateInput, d: Document) -> bool {
    &&& document_spec(template_tokens(template)) == Ok::<(Seq<NodeM>, Option<SourceSpan>), Failure>(
        (nodes_model(d.children@), d.span),
    )
    &&& nodes_wf(d.children@)
}

/// What preparation gives for a parsed document: the document when the HTML
/// backend accepts it, else the error of its first failure.
pub open spec fn prepared(r: BackendResult<Document>, d: Document) -> bool {
    match html_nodes_failure(d.children@) {
        None => r == Ok::<Document, BackendError>(d),
        Some(f) => r matches Err(e) && reports(e, f),
    }
}

/// Parses a template and validates it for the HTML backend: a parse failure is
/// reported as such, else the first validation failure of the parsed document,
/// else the document is given.
pub fn prepare_template(template: &TemplateInput) -> (r: BackendResult<Document>)
    ensures
        r matches Ok(d) ==> nodes_wf(d.children@) && html_nodes_failure(d.children@) is None,
        r matches Err(e) ==> e.kind == ErrorKind::Parse || e.kind == ErrorKind::Semantic,
        match document_spec(template_tokens(*template)) {
            Err(f) => r matches Err(e) && parse_reports(e, f),
            Ok(_) => exists|d: Document| parses_to(*template, d) && prepared(r, d),
        },
{
    let document = parse_template(template)?;
    proof {
        lemma_parsed(*template, document);
    }
    validate_html_document(&document)?;
    proof {
        assert(parses_to(*template, document) && prepared(Ok::<Document, BackendError>(document), document));
    }
    Ok(document)
}

proof fn lemma_parsed(template: TemplateInput, d: Document)
    requires
        nodes_wf(d.children@),
        match document_spec(template_tokens(template)) {
            Ok((ms, span)) => nodes_model(d.children@) == ms && d.span == span,
            Err(_) => false,
        },
    ensures
        parses_to(template, d),
{
}

/// Whether a template parses and passes validation: the parse failure, else
/// the first validation failure, else success.
pub fn check_template(template: &TemplateInput) -> (r: BackendResult<()>)
    ensures
        r matches Err(e) ==> e.kind == ErrorKind::Parse || e.kind == ErrorKind::Semantic,
        match document_spec(template_tokens(*template)) {
            Err(f) => r matches Err(e) && parse_reports(e, f),
            Ok(_) => exists|d: Document| parses_to(*template, d) && checked(r, html_nodes_failure(d.children@)),
        },
{
    match prepare_template(template) {
        Ok(_) => Ok(()),
        Err(e) => Err(e),
    }
}

/// Parses a template for formatting, which needs the raw source of every
/// interpolation: the first interpolation without one is reported, else the
/// parse failure, else the parsed document is given.
pub fn format_template_syntax(template: &TemplateInput) -> (r: BackendResult<Document>)
    ensures
        raw_source_failure(template.segments@, "html.format.raw_source_required"@) matches Some(f)
            ==> r matches Err(e) && reports(e, f),
        r matches Ok(d) ==> nodes_wf(d.children@)
            && raw_source_failure(template.segments@, "html.format.raw_source_required"@) is None,
        r matches Err(e) ==> e.kind == ErrorKind::Parse || e.kind == ErrorKind::Semantic,
        raw_source_failure(template.segments@, "html.format.raw_source_required"@) is None ==> match document_spec(
            template_tokens(*template),
        ) {
            Err(f) => r matches Err(e) && parse_reports(e, f),
            Ok(_) => r matches Ok(d) && parses_to(*template, d),
        },
{
    require_raw_source(template, "html.format.raw_source_required")?;
    parse_template(template)
}

/// Compiles a template: as [`prepare_template`], holding the document.
pub fn compile_template(template: &TemplateInput) -> (r: BackendResult<CompiledHtmlTemplate>)
    ensures
        r matches Ok(c) ==> nodes_wf(c.held().children@) && html_nodes_failure(c.held().children@) is None,
        r matches Err(e) ==> e.kind == ErrorKind::Parse || e.kind == ErrorKind::Semantic,
        match document_spec(template_tokens(*template)) {
            Err(f) => r matches Err(e) && parse_reports(e, f),
            Ok(_) => exists|d: Document| parses_to(*template, d) && match html_nodes_failure(d.children@) {
                None => r matches Ok(c) && c.held() == d,
                Some(f) => r matches Err(e) && reports(e, f),
            },
        },
{
    let document = prepare_template(template)?;
    Ok(CompiledHtmlTemplate::from_document(document))
}

/// Renders a compiled template with the given runtime values.
pub fn render_html(compiled: &CompiledHtmlTemplate, context: &RuntimeContext) -> (r: BackendResult<String>)
    ensures
        gave(r, nodes_render(compiled.held().children@, *context)),
{
    render_document(compiled.document(), context)
}

pub fn render_fragment(compiled: &CompiledHtmlTemplate, context: &RuntimeContext) -> (r: BackendResult<RenderedFragment>)
    ensures
        match nodes_render(compiled.held().children@, *context) {
            Ok(t) => r matches Ok(f) && f.html@ == t,
            Err(f) => r matches Err(e) && reports(e, f),
        },
{
    let html = render_document(compiled.document(), context)?;
    Ok(RenderedFragment { html })
}

/// The static texts between interpolations, as the parts of the key that a
/// template is cached under: the text before the first interpolation, between
/// each two, and after the last (empty where two interpolations touch).
pub open spec fn key_state(segs: Seq<TemplateSegment>) -> (Seq<Seq<char>>, Seq<char>)
    decreases segs.len(),
{
    if segs.len() == 0 {
        (Seq::empty(), Seq::empty())
    } else {
        let (done, current) = key_state(segs.drop_last());
        match segs.last() {
            TemplateSegment::StaticText(t) => (done, current + t@),
            TemplateSegment::Interpolation(_) => (done.push(current), Seq::empty()),
        }
    }
}

pub open spec fn static_key_parts_spec(segs: Seq<TemplateSegment>) -> Seq<Seq<char>> {
    let (done, current) = key_state(segs);
    done.push(current)
}

/// The number of interpolation segments.
pub open spec fn interpolation_count(segs: Seq<TemplateSegment>) -> nat
    decreases segs.len(),
{
    if segs.len() == 0 {
        0
    } else {
        interpolation_count(segs.drop_last()) + if segs.last() is Interpolation { 1nat } else { 0nat }
    }
}

proof fn lemma_key_state_len(segs: Seq<TemplateSegment>)
    ensures
        key_state(segs).0.len() == interpolation_count(segs),
    decreases segs.len(),
{
    if segs.len() > 0 {
        lemma_key_state_len(segs.drop_last());
    }
}

/// The static key parts: one more than there are interpolations.
pub fn static_key_parts(template: &TemplateInput) -> (r: Vec<String>)
    ensures
        r@.map_values(|s: String| s@) == static_key_parts_spec(template.segments@),
        r@.len() == interpolation_count(template.segments@) + 1,
{
    let mut parts: Vec<String> = Vec::new();
    let mut current = String::new();
    let mut i: usize = 0;
    while i < template.segments.len()
        invariant
            i <= template.segments@.len(),
            key_state(template.segments@.subrange(0, i as int)) == (parts@.map_values(|s: String| s@), current@),
        decreases template.segments.len() - i,
    {
        proof {
            let p = template.segments@.subrange(0, i + 1);
            assert(p.drop_last() == template.segments@.subrange(0, i as int));
            assert(p.last() == template.segments@[i as int]);
        }
        match &template.segments[i] {
            TemplateSegment::StaticText(text) => {
                current.append(text.as_str());
            },
            TemplateSegment::Interpolation(_) => {
                let ghost before = parts@;
                parts.push(current);
                current = String::new();
                proof {
                    assert(parts@.map_values(|s: String| s@) =~= before.map_values(|s: String| s@).push(parts@.last()@));
                }
            },
        }
        i += 1;
    }
    let ghost before = parts@;
    parts.push(current);
    proof {
        assert(template.segments@.subrange(0, template.segments@.len() as int) == template.segments@);
        assert(parts@.map_values(|s: String| s@) =~= before.map_values(|s: String| s@).push(parts@.last()@));
        lemma_key_state_len(template.segments@);
    }
    parts
}

/// The first interpolation segment with the given index.
pub open spec fn first_interpolation(segs: Seq<TemplateSegment>, index: usize) -> Option<TemplateInterpolation>
    decreases segs.len(),
{
    if segs.len() == 0 {
        None
    } else {
        match segs[0] {
            TemplateSegment::Interpolation(x) => if x.interpolation_index == index {
                Some(x)
            } else {
                first_interpolation(segs.subrange(1, segs.len() as int), index)
            },
            TemplateSegment::StaticText(_) => first_interpolation(segs.subrange(1, segs.len() as int), index),
        }
    }
}

pub(crate) proof fn lemma_first_interpolation(segs: Seq<TemplateSegment>, index: usize, k: int)
    requires
        0 <= k <= segs.len(),
        forall|j: int| 0 <= j < k ==> !(#[trigger] segs[j] matches TemplateSegment::Interpolation(x)
            && x.interpolation_index == index),
    ensures
        first_interpolation(segs, index) == first_interpolation(segs.subrange(k, segs.len() as int), index),
    decreases k,
{
    if k > 0 {
        let rest = segs.subrange(1, segs.len() as int);
        assert forall|j: int| 0 <= j < k - 1 implies !(#[trigger] rest[j] matches TemplateSegment::Interpolation(x)
            && x.interpolation_index == index) by {
            assert(rest[j] == segs[j + 1]);
        }
        lemma_first_interpolation(rest, index, k - 1);
        assert(rest.subrange(k - 1, rest.len() as int) == segs.subrange(k, segs.len() as int));
        assert(!(segs[0] matches TemplateSegment::Interpolation(x) && x.interpolation_index == index));
    } else {
        assert(segs.subrange(0, segs.len() as int) == segs);
    }
}

/// An interpolation node with the expression, raw source, conversion and
/// format spec of the template's interpolation of the same index, when there is
/// one.
pub open spec fn rebound_interpolation(i: InterpolationNode, segs: Seq<TemplateSegment>) -> InterpolationNode {
    match first_interpolation(segs, i.interpolation_index) {
        Some(src) => InterpolationNode {
            interpolation_index: i.interpolation_index,
            expression: src.expression,
            raw_source: src.raw_source,
            conversion: src.conversion,
            format_spec: src.format_spec,
            span: i.span,
        },
        None => i,
    }
}

pub open spec fn part_rebound(a: ValuePart, b: ValuePart, segs: Seq<TemplateSegment>) -> bool {
    match a {
        ValuePart::Interpolation(i) => b == ValuePart::Interpolation(rebound_interpolation(i, segs)),
        ValuePart::Text(_) => b == a,
    }
}

pub open spec fn parts_rebound(a: Seq<ValuePart>, b: Seq<ValuePart>, segs: Seq<TemplateSegment>) -> bool {
    a.len() == b.len() && forall|k: int| 0 <= k < a.len() ==> part_rebound(#[trigger] a[k], b[k], segs)
}

pub open spec fn attr_rebound(a: AttributeLike, b: AttributeLike, segs: Seq<TemplateSegment>) -> bool {
    match (a, b) {
        (AttributeLike::Attribute(x), AttributeLike::Attribute(y)) => y.name == x.name && y.span == x.span
            && match (x.value, y.value) {
                (None, None) => true,
                (Some(u), Some(v)) => v.quoted == u.quoted && parts_rebound(u.parts@, v.parts@, segs),
                _ => false,
            },
        (AttributeLike::SpreadAttribute(x), AttributeLike::SpreadAttribute(y)) => y.span == x.span
            && y.interpolation == rebound_interpolation(x.interpolation, segs),
        _ => false,
    }
}

pub open spec fn attrs_rebound(a: Seq<AttributeLike>, b: Seq<AttributeLike>, segs: Seq<TemplateSegment>) -> bool {
    a.len() == b.len() && forall|k: int| 0 <= k < a.len() ==> attr_rebound(#[trigger] a[k], b[k], segs)
}

/// `b` is `a` with each interpolation rebound to the template's segments, and
/// nothing else changed.
pub open spec fn node_rebound(a: Node, b: Node, segs: Seq<TemplateSegment>) -> bool
    decreases a,
{
    match (a, b) {
        (Node::Fragment(x), Node::Fragment(y)) => y.span == x.span && nodes_rebound(x.children@, y.children@, segs),
        (Node::Element(x), Node::Element(y)) => y.name == x.name && y.self_closing == x.self_closing
            && y.span == x.span && attrs_rebound(x.attributes@, y.attributes@, segs)
            && nodes_rebound(x.children@, y.children@, segs),
        (Node::ComponentTag(x), Node::ComponentTag(y)) => y.name == x.name && y.self_closing == x.self_closing
            && y.span == x.span && attrs_rebound(x.attributes@, y.attributes@, segs)
            && nodes_rebound(x.children@, y.children@, segs),
        (Node::RawTextElement(x), Node::RawTextElement(y)) => y.name == x.name && y.span == x.span
            && attrs_rebound(x.attributes@, y.attributes@, segs) && nodes_rebound(x.children@, y.children@, segs),
        (Node::Interpolation(x), Node::Interpolation(y)) => y == rebound_interpolation(x, segs),
        (Node::Text(x), Node::Text(y)) => y == x,
        (Node::Comment(x), Node::Comment(y)) => y == x,
        (Node::Doctype(x), Node::Doctype(y)) => y == x,
        _ => false,
    }
}

pub open spec fn nodes_rebound(a: Seq<Node>, b: Seq<Node>, segs: Seq<TemplateSegment>) -> bool
    decreases a,
{
    if a.len() == 0 {
        b.len() == 0
    } else {
        b.len() == a.len() && nodes_rebound(a.subrange(0, a.len() - 1), b.subrange(0, b.len() - 1), segs)
            && node_rebound(a[a.len() - 1], b[b.len() - 1], segs)
    }
}

fn rebind_interpolation(interpolation: &mut InterpolationNode, template: &TemplateInput)
    ensures
        *final(interpolation) == rebound_interpolation(*old(interpolation), template.segments@),
{
    match template.interpolation(interpolation.interpolation_index) {
        Some(source) => {
            proof {
                let k = choose|k: int|
                    0 <= k < template.segments@.len() && template.segments@[k] == TemplateSegment::Interpolation(*source)
                        && source.interpolation_index == interpolation.interpolation_index
                        && forall|j: int| 0 <= j < k ==> !(#[trigger] template.segments@[j] matches TemplateSegment::Interpolation(x)
                            && x.interpolation_index == interpolation.interpolation_index);
                lemma_first_interpolation(template.segments@, interpolation.interpolation_index, k);
                let rest = template.segments@.subrange(k, template.segments@.len() as int);
                assert(rest[0] == template.segments@[k]);
            }
            interpolation.expression = source.expression.clone();
            interpolation.raw_source = clone_opt_string(&source.raw_source);
            interpolation.conversion = clone_opt_string(&source.conversion);
            interpolation.format_spec = source.format_spec.clone();
        },
        None => {
            proof {
                let segs = template.segments@;
                lemma_first_interpolation(segs, interpolation.interpolation_index, segs.len() as int);
                assert(segs.subrange(segs.len() as int, segs.len() as int) == Seq::<TemplateSegment>::empty());
            }
        },
    }
}

fn rebind_parts(parts: &mut Vec<ValuePart>, template: &TemplateInput)
    ensures
        parts_rebound(old(parts)@, final(parts)@, template.segments@),
{
    let ghost start = parts@;
    let mut i: usize = 0;
    while i < parts.len()
        invariant
            i <= parts@.len(),
            parts@.len() == start.len(),
            forall|k: int| 0 <= k < i ==> part_rebound(#[trigger] start[k], parts@[k], template.segments@),
            forall|k: int| i <= k < parts@.len() ==> #[trigger] parts@[k] == start[k],
        decreases parts.len() - i,
    {
        match &mut parts[i] {
            ValuePart::Interpolation(interpolation) => {
                rebind_interpolation(interpolation, template);
            },
            ValuePart::Text(_) => {},
        }
        i += 1;
    }
}

fn rebind_attributes(attributes: &mut Vec<AttributeLike>, template: &TemplateInput)
    ensures
        attrs_rebound(old(attributes)@, final(attributes)@, template.segments@),
{
    let ghost start = attributes@;
    let mut i: usize = 0;
    while i < attributes.len()
        invariant
            i <= attributes@.len(),
            attributes@.len() == start.len(),
            forall|k: int| 0 <= k < i ==> attr_rebound(#[trigger] start[k], attributes@[k], template.segments@),
            forall|k: int| i <= k < attributes@.len() ==> #[trigger] attributes@[k] == start[k],
        decreases attributes.len() - i,
    {
        match &mut attributes[i] {
            AttributeLike::Attribute(attribute) => {
                match &mut attribute.value {
                    Some(value) => {
                        rebind_parts(&mut value.parts, template);
                    },
                    None => {},
                }
            },
            AttributeLike::SpreadAttribute(attribute) => {
                rebind_interpolation(&mut attribute.interpolation, template);
            },
        }
        i += 1;
    }
}

proof fn lemma_nodes_rebound(a: Seq<Node>, b: Seq<Node>, segs: Seq<TemplateSegment>)
    requires
        a.len() == b.len(),
        forall|k: int| 0 <= k < a.len() ==> node_rebound(#[trigger] a[k], b[k], segs),
    ensures
        nodes_rebound(a, b, segs),
    decreases a.len(),
{
    if a.len() > 0 {
        let a1 = a.subrange(0, a.len() - 1);
        let b1 = b.subrange(0, b.len() - 1);
        assert forall|k: int| 0 <= k < a1.len() implies node_rebound(#[trigger] a1[k], b1[k], segs) by {
            assert(a1[k] == a[k]);
            assert(b1[k] == b[k]);
        }
        lemma_nodes_rebound(a1, b1, segs);
        assert(node_rebound(a[a.len() - 1], b[b.len() - 1], segs));
    }
}

fn rebind_node_interpolations(node: &mut Node, template: &TemplateInput)
    ensures
        node_rebound(*old(node), *final(node), template.segments@),
    decreases *old(node), 0nat,
{
    match node {
        Node::Fragment(fragment) => {
            proof {
                assert(decreases_to!(*old(node) => (*old(node))->Fragment_0));
            }
            rebind_children(&mut fragment.children, template);
        },
        Node::Element(element) => {
            proof {
                assert(decreases_to!(*old(node) => (*old(node))->Element_0));
            }
            rebind_attributes(&mut element.attributes, template);
            rebind_children(&mut element.children, template);
        },
        Node::ComponentTag(component) => {
            proof {
                assert(decreases_to!(*old(node) => (*old(node))->ComponentTag_0));
            }
            rebind_attributes(&mut component.attributes, template);
            rebind_children(&mut component.children, template);
        },
        Node::RawTextElement(element) => {
            proof {
                assert(decreases_to!(*old(node) => (*old(node))->RawTextElement_0));
            }
            rebind_attributes(&mut element.attributes, template);
            rebind_children(&mut element.children, template);
        },
        Node::Interpolation(interpolation) => {
            rebind_interpolation(interpolation, template);
        },
        Node::Text(_) | Node::Comment(_) | Node::Doctype(_) => {},
    }
}

fn rebind_children(children: &mut Vec<Node>, template: &TemplateInput)
    ensures
        nodes_rebound(old(children)@, final(children)@, template.segments@),
    decreases *old(children), 0nat,
{
    let ghost start = children@;
    let mut i: usize = 0;
    while i < children.len()
        invariant
            i <= children@.len(),
            children@.len() == start.len(),
            start == old(children)@,
            forall|k: int| 0 <= k < i ==> node_rebound(#[trigger] start[k], children@[k], template.segments@),
            forall|k: int| i <= k < children@.len() ==> #[trigger] children@[k] == start[k],
        decreases children.len() - i,
    {
        proof {
            assert(children@[i as int] == start[i as int]);
            assert(decreases_to!(*old(children) => old(children)@));
            assert(decreases_to!(old(children)@ => old(children)@[i as int]));
        }
        rebind_node_interpolations(&mut children[i], template);
        i += 1;
    }
    proof {
        lemma_nodes_rebound(start, children@, template.segments@);
    }
}

/// Rebinds the interpolations of a document (parsed from a template with the
/// same static text) to those of `template`: each interpolation node takes the
/// expression, raw source, conversion and format spec of the template's
/// interpolation with its index; everything else stays.
pub fn rebind_document_interpolations(document: &mut Document, template: &TemplateInput)
    ensures
        final(document).span == old(document).span,
        nodes_rebound(old(document).children@, final(document).children@, template.segments@),
{
    rebind_children(&mut document.children, template);
}

/// The failure of a formatting whose columns would exceed `usize::MAX`.
pub open spec fn width_overflow_failure() -> Failure {
    Failure {
        code: "format.width_overflow"@,
        message: "Formatted output exceeds the widest column that can be counted."@,
        span: None,
    }
}

pub(crate) fn width_overflow_error() -> (r: BackendError)
    ensures
        r.kind == ErrorKind::Semantic,
        reports(r, width_overflow_failure()),
{
    semantic_error(
        "format.width_overflow",
        "Formatted output exceeds the widest column that can be counted.".to_owned(),
        None,
    )
}

/// What formatting gives for a parsed document: the first validation failure,
/// else the formatted text, else (where a column would exceed `usize::MAX`) the
/// overflow failure.
pub open spec fn format_outcome(r: BackendResult<String>, d: Document, flavor: FormatFlavor, ll: usize) -> bool {
    match html_nodes_failure(d.children@) {
        Some(f) => r matches Err(e) && reports(e, f),
        None => if formattable(d, flavor, ll) {
            r matches Ok(s) && s@ == formatted(d, flavor, ll)
        } else {
            r matches Err(e) && reports(e, width_overflow_failure())
        },
    }
}

/// Formats a template as HTML: every interpolation needs its raw source, the
/// template must parse, and the parsed document must pass validation; the text
/// is the formatting of the parsed document.
pub fn format_template_with_options(template: &TemplateInput, options: &FormatOptions) -> (r: BackendResult<String>)
    ensures
        raw_source_failure(template.segments@, "html.format.raw_source_required"@) matches Some(f)
            ==> r matches Err(e) && reports(e, f),
        r matches Err(e) ==> e.kind == ErrorKind::Parse || e.kind == ErrorKind::Semantic,
        raw_source_failure(template.segments@, "html.format.raw_source_required"@) is None ==> match document_spec(
            template_tokens(*template),
        ) {
            Err(f) => r matches Err(e) && parse_reports(e, f),
            Ok(_) => exists|d: Document| parses_to(*template, d)
                && format_outcome(r, d, FormatFlavor::Html, options.line_length),
        },
{
    let document = format_template_syntax(template)?;
    let checked = validate_html_document(&document);
    match checked {
        Err(e) => {
            proof {
                assert(parses_to(*template, document) && format_outcome(Err::<String, BackendError>(e), document, FormatFlavor::Html, options.line_length));
            }
            return Err(e);
        },
        Ok(()) => {},
    }
    match format_document_checked(&document, options, FormatFlavor::Html) {
        Some(text) => {
            proof {
                assert(format_outcome(Ok::<String, BackendError>(text), document, FormatFlavor::Html, options.line_length));
            }
            Ok(text)
        },
        None => {
            let e = width_overflow_error();
            proof {
                assert(format_outcome(Err::<String, BackendError>(e), document, FormatFlavor::Html, options.line_length));
            }
            Err(e)
        },
    }
}

/// Formats a template as HTML with the default options (lines of 80 columns).
pub fn format_template(template: &TemplateInput) -> (r: BackendResult<String>)
    ensures
        raw_source_failure(template.segments@, "html.format.raw_source_required"@) matches Some(f)
            ==> r matches Err(e) && reports(e, f),
        r matches Err(e) ==> e.kind == ErrorKind::Parse || e.kind == ErrorKind::Semantic,
        raw_source_failure(template.segments@, "html.format.raw_source_required"@) is None ==> match document_spec(
            template_tokens(*template),
        ) {
            Err(f) => r matches Err(e) && parse_reports(e, f),
            Ok(_) => exists|d: Document| parses_to(*template, d) && format_outcome(r, d, FormatFlavor::Html, 80),
        },
{
    format_template_with_options(template, &FormatOptions::default())
}

fn rebound_interpolation_copy(interpolation: &InterpolationNode, template: &TemplateInput) -> (r: InterpolationNode)
    ensures
        r == rebound_interpolation(*interpolation, template.segments@),
{
    let mut copy = InterpolationNode {
        interpolation_index: interpolation.interpolation_index,
        expression: interpolation.expression.clone(),
        raw_source: clone_opt_string(&interpolation.raw_source),
        conversion: clone_opt_string(&interpolation.conversion),
        format_spec: interpolation.format_spec.clone(),
        span: interpolation.span,
    };
    proof {
        assert(copy == *interpolation);
    }
    rebind_interpolation(&mut copy, template);
    copy
}

fn rebound_parts_copy(parts: &Vec<ValuePart>, template: &TemplateInput) -> (r: Vec<ValuePart>)
    ensures
        parts_rebound(parts@, r@, template.segments@),
{
    let mut out: Vec<ValuePart> = Vec::new();
    let mut i: usize = 0;
    while i < parts.len()
        invariant
            i <= parts@.len(),
            out@.len() == i,
            forall|k: int| 0 <= k < i ==> part_rebound(#[trigger] parts@[k], out@[k], template.segments@),
        decreases parts.len() - i,
    {
        let part = match &parts[i] {
            ValuePart::Text(text) => ValuePart::Text(text.clone()),
            ValuePart::Interpolation(interpolation) => ValuePart::Interpolation(rebound_interpolation_copy(interpolation, template)),
        };
        out.push(part);
        i += 1;
    }
    out
}

fn rebound_attributes_copy(attributes: &Vec<AttributeLike>, template: &TemplateInput) -> (r: Vec<AttributeLike>)
    ensures
        attrs_rebound(attributes@, r@, template.segments@),
{
    let mut out: Vec<AttributeLike> = Vec::new();
    let mut i: usize = 0;
    while i < attributes.len()
        invariant
            i <= attributes@.len(),
            out@.len() == i,
            forall|k: int| 0 <= k < i ==> attr_rebound(#[trigger] attributes@[k], out@[k], template.segments@),
        decreases attributes.len() - i,
    {
        let attribute = match &attributes[i] {
            AttributeLike::Attribute(attribute) => {
                let value = match &attribute.value {
                    Some(value) => Some(AttributeValue {
                        quoted: value.quoted,
                        parts: rebound_parts_copy(&value.parts, template),
                    }),
                    None => None,
                };
                AttributeLike::Attribute(Attribute { name: attribute.name.clone(), value, span: attribute.span })
            },
            AttributeLike::SpreadAttribute(attribute) => AttributeLike::SpreadAttribute(SpreadAttribute {
                interpolation: rebound_interpolation_copy(&attribute.interpolation, template),
                span: attribute.span,
            }),
        };
        out.push(attribute);
        i += 1;
    }
    out
}

fn rebound_node_copy(node: &Node, template: &TemplateInput) -> (r: Node)
    ensures
        node_rebound(*node, r, template.segments@),
    decreases node, 0nat,
{
    match node {
        Node::Fragment(fragment) => {
            proof {
                assert(decreases_to!(*node => (*node)->Fragment_0));
            }
            Node::Fragment(FragmentNode {
                children: rebound_children_copy(&fragment.children, template),
                span: fragment.span,
            })
        },
        Node::Element(element) => {
            proof {
                assert(decreases_to!(*node => (*node)->Element_0));
            }
            Node::Element(ElementNode {
                name: element.name.clone(),
                attributes: rebound_attributes_copy(&element.attributes, template),
                children: rebound_children_copy(&element.children, template),
                self_closing: element.self_closing,
                span: element.span,
            })
        },
        Node::ComponentTag(component) => {
            proof {
                assert(decreases_to!(*node => (*node)->ComponentTag_0));
            }
            Node::ComponentTag(ComponentTagNode {
                name: component.name.clone(),
                attributes: rebound_attributes_copy(&component.attributes, template),
                children: rebound_children_copy(&component.children, template),
                self_closing: component.self_closing,
                span: component.span,
            })
        },
        Node::RawTextElement(element) => {
            proof {
                assert(decreases_to!(*node => (*node)->RawTextElement_0));
            }
            Node::RawTextElement(RawTextElementNode {
                name: element.name.clone(),
                attributes: rebound_attributes_copy(&element.attributes, template),
                children: rebound_children_copy(&element.children, template),
                span: element.span,
            })
        },
        Node::Interpolation(interpolation) => Node::Interpolation(rebound_interpolation_copy(interpolation, template)),
        Node::Text(text) => Node::Text(TextNode { value: text.value.clone(), span: text.span }),
        Node::Comment(comment) => Node::Comment(CommentNode { value: comment.value.clone(), span: comment.span }),
        Node::Doctype(doctype) => Node::Doctype(DoctypeNode { value: doctype.value.clone(), span: doctype.span }),
    }
}

fn rebound_children_copy(children: &Vec<Node>, template: &TemplateInput) -> (r: Vec<Node>)
    ensures
        nodes_rebound(children@, r@, template.segments@),
    decreases children, 0nat,
{
    let mut out: Vec<Node> = Vec::new();
    let mut i: usize = 0;
    while i < children.len()
        invariant
            i <= children@.len(),
            out@.len() == i,
            forall|k: int| 0 <= k < i ==> node_rebound(#[trigger] children@[k], out@[k], template.segments@),
        decreases children.len() - i,
    {
        proof {
            assert(decreases_to!(*children => children@));
            assert(decreases_to!(children@ => children@[i as int]));
        }
        out.push(rebound_node_copy(&children[i], template));
        i += 1;
    }
    proof {
        lemma_nodes_rebound(children@, out@, template.segments@);
    }
    out
}

/// A copy of a document (parsed from a template with the same static text)
/// whose interpolations are rebound to those of `template`, as
/// [`rebind_document_interpolations`] rebinds them in place.
pub fn rebound_document(document: &Document, template: &TemplateInput) -> (r: Document)
    ensures
        r.span == document.span,
        nodes_rebound(document.children@, r.children@, template.segments@),
{
    Document { children: rebound_children_copy(&document.children, template), span: document.span }
}

} // verus!
