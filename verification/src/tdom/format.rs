//! The TDOM source formatter: builds a pretty-printing document from a syntax
//! tree and renders it within the line length.

use vstd::prelude::*;
use crate::doc::{
    Doc, DocModel, RenderOptions, docs_model, rendered, render_checked, flat_width, flat_width_of,
    has_forced_break, forced_break, push_doc, concat_two, concat_three, concat_four,
};
use crate::escape::{escape_attribute_text, quote_escape_spec};
use crate::text::{concat2, concat3, concat5};
use crate::html::ast::{void_tag_spec, is_void_html_tag};
use crate::html::format::{blank, is_blank, line_max, join_hard, format_render_options};
use super::ast::{
    Document, Node, AttributeLike, ValuePart, InterpolationNode, ElementNode, ComponentTagNode,
    RawTextElementNode, CommentNode, FormatOptions,
};

verus! {

/// An interpolation is written back as its raw source, or as `{}` without one.
pub open spec fn interpolation_text(i: InterpolationNode) -> Seq<char> {
    match i.raw_source {
        Some(s) => s@,
        None => "{}"@,
    }
}

/// A value part of a templated attribute: texts with `"` escaped.
pub open spec fn attr_part_doc(p: ValuePart) -> DocModel {
    match p {
        ValuePart::Text(t) => DocModel::Text(quote_escape_spec(t@)),
        ValuePart::Interpolation(i) => DocModel::Text(interpolation_text(i)),
    }
}

/// A part of a comment: texts as written.
pub open spec fn comment_part_doc(p: ValuePart) -> DocModel {
    match p {
        ValuePart::Text(t) => DocModel::Text(t@),
        ValuePart::Interpolation(i) => DocModel::Text(interpolation_text(i)),
    }
}

pub open spec fn attr_part_docs(prefix: DocModel, parts: Seq<ValuePart>) -> Seq<DocModel>
    decreases parts.len(),
{
    if parts.len() == 0 {
        seq![prefix]
    } else {
        attr_part_docs(prefix, parts.drop_last()).push(attr_part_doc(parts.last()))
    }
}

pub open spec fn comment_part_docs(parts: Seq<ValuePart>) -> Seq<DocModel>
    decreases parts.len(),
{
    if parts.len() == 0 {
        seq![DocModel::Text("<!--"@)]
    } else {
        comment_part_docs(parts.drop_last()).push(comment_part_doc(parts.last()))
    }
}

/// An attribute as written: a literal one with its value quoted, an
/// interpolated one as `name=` and the interpolation, a templated one with its
/// parts in double quotes, a spread as its interpolation.
pub open spec fn attribute_like_doc(a: AttributeLike) -> DocModel {
    match a {
        AttributeLike::LiteralAttribute(at) => match at.value {
            Some(v) => DocModel::Text(at.name@ + "=\""@ + quote_escape_spec(v@) + "\""@),
            None => DocModel::Text(at.name@),
        },
        AttributeLike::InterpolatedAttribute(at) => DocModel::Concat(seq![
            DocModel::Text(at.name@ + "="@),
            DocModel::Text(interpolation_text(at.interpolation)),
        ]),
        AttributeLike::TemplatedAttribute(at) => DocModel::Concat(
            attr_part_docs(DocModel::Text(at.name@ + "=\""@), at.parts@).push(DocModel::Text("\""@)),
        ),
        AttributeLike::SpreadAttribute(s) => DocModel::Text(interpolation_text(s.interpolation)),
    }
}

pub open spec fn attr_lines(attrs: Seq<AttributeLike>) -> Seq<DocModel>
    decreases attrs.len(),
{
    if attrs.len() == 0 {
        Seq::empty()
    } else {
        attr_lines(attrs.drop_last()).push(DocModel::Line).push(attribute_like_doc(attrs.last()))
    }
}

/// A start tag: a group of `<`, the name, the attributes each on a line of its
/// own when the tag does not fit, and the closing.
pub open spec fn start_tag_doc(name: DocModel, attrs: Seq<AttributeLike>, closing: Seq<char>) -> DocModel {
    if attrs.len() == 0 {
        DocModel::Group(Box::new(DocModel::Concat(seq![DocModel::Text("<"@), name, DocModel::Text(closing)])))
    } else {
        DocModel::Group(Box::new(DocModel::Concat(seq![
            DocModel::Text("<"@),
            name,
            DocModel::Indent(Box::new(DocModel::Concat(attr_lines(attrs)))),
            DocModel::SoftLine,
            DocModel::Text(closing),
        ])))
    }
}

pub open spec fn close_literal_doc(name: Seq<char>) -> DocModel {
    DocModel::Text("</"@ + name + ">"@)
}

pub open spec fn close_component_doc(i: InterpolationNode) -> DocModel {
    DocModel::Concat(seq![DocModel::Text("</"@), DocModel::Text(interpolation_text(i)), DocModel::Text(">"@)])
}

pub open spec fn mixed(ns: Seq<Node>) -> bool
    decreases ns,
{
    if ns.len() == 0 {
        false
    } else {
        mixed(ns.subrange(0, ns.len() - 1)) || match ns[ns.len() - 1] {
            Node::Text(t) => !blank(t.value@),
            Node::Fragment(f) => mixed(f.children@),
            _ => false,
        }
    }
}

/// The document of a node: texts and interpolations as written, doctypes as
/// `<!DOCTYPE ...>`, void and self-closing tags as `<... />`, and other
/// elements through [`standard_doc`].
pub open spec fn node_doc(n: Node, ll: usize) -> DocModel
    decreases n, 0nat,
{
    match n {
        Node::Fragment(f) => DocModel::Concat(nodes_docs(f.children@, ll)),
        Node::Element(e) => {
            let is_void = void_tag_spec(e.name@) && e.children@.len() == 0;
            if is_void || e.self_closing {
                start_tag_doc(DocModel::Text(e.name@), e.attributes@, " />"@)
            } else {
                standard_doc(start_tag_doc(DocModel::Text(e.name@), e.attributes@, ">"@), close_literal_doc(e.name@), e.children@, ll)
            }
        },
        Node::ComponentTag(c) => if c.self_closing && c.children@.len() == 0 {
            start_tag_doc(DocModel::Text(interpolation_text(c.start_tag)), c.attributes@, " />"@)
        } else {
            standard_doc(
                start_tag_doc(DocModel::Text(interpolation_text(c.start_tag)), c.attributes@, ">"@),
                close_component_doc(match c.end_tag { Some(t) => t, None => c.start_tag }),
                c.children@,
                ll,
            )
        },
        Node::Text(t) => DocModel::Text(t.value@),
        Node::Interpolation(i) => DocModel::Text(interpolation_text(i)),
        Node::Comment(c) => DocModel::Concat(comment_part_docs(c.parts@).push(DocModel::Text("-->"@))),
        Node::Doctype(d) => DocModel::Text("<!DOCTYPE "@ + d.text@ + ">"@),
        Node::RawTextElement(r) => if r.self_closing {
            start_tag_doc(DocModel::Text(r.name@), r.attributes@, " />"@)
        } else {
            DocModel::Concat(seq![
                start_tag_doc(DocModel::Text(r.name@), r.attributes@, ">"@),
                DocModel::Concat(nodes_docs(r.children@, ll)),
                close_literal_doc(r.name@),
            ])
        },
    }
}

pub open spec fn nodes_docs(ns: Seq<Node>, ll: usize) -> Seq<DocModel>
    decreases ns, 0nat,
{
    if ns.len() == 0 {
        Seq::empty()
    } else {
        nodes_docs(ns.subrange(0, ns.len() - 1), ll).push(node_doc(ns[ns.len() - 1], ll))
    }
}

pub open spec fn significant_docs(ns: Seq<Node>, ll: usize) -> Seq<DocModel>
    decreases ns, 0nat,
{
    if ns.len() == 0 {
        Seq::empty()
    } else {
        let rest = significant_docs(ns.subrange(0, ns.len() - 1), ll);
        match ns[ns.len() - 1] {
            Node::Text(t) => if blank(t.value@) { rest } else { rest.push(node_doc(ns[ns.len() - 1], ll)) },
            _ => rest.push(node_doc(ns[ns.len() - 1], ll)),
        }
    }
}

/// An element with content, laid out as in the HTML formatter: mixed content as
/// it stands, else the significant children inline when they fit, or one per
/// indented line.
pub open spec fn standard_doc(start: DocModel, close: DocModel, children: Seq<Node>, ll: usize) -> DocModel
    decreases children, 1nat,
{
    if children.len() == 0 {
        DocModel::Concat(seq![start, close])
    } else if mixed(children) {
        DocModel::Concat(seq![start, DocModel::Concat(nodes_docs(children, ll)), close])
    } else {
        let sig = significant_docs(children, ll);
        if sig.len() == 0 {
            DocModel::Concat(seq![start, close])
        } else {
            let child = DocModel::Concat(sig);
            let inline = DocModel::Concat(seq![start, child, close]);
            if (flat_width_of(inline) matches Some(w) && w <= line_max(ll)) && !forced_break(child) {
                inline
            } else {
                DocModel::Concat(seq![
                    start,
                    DocModel::Indent(Box::new(DocModel::Concat(seq![DocModel::HardLine, DocModel::Concat(join_hard(sig))]))),
                    DocModel::HardLine,
                    close,
                ])
            }
        }
    }
}

pub open spec fn document_doc(d: Document, ll: usize) -> DocModel {
    DocModel::Concat(nodes_docs(d.children@, ll))
}

/// The formatted text of a document.
pub open spec fn formatted(d: Document, ll: usize) -> Seq<char> {
    rendered(document_doc(d, ll), format_render_options(ll)).out
}

pub open spec fn formattable(d: Document, ll: usize) -> bool {
    rendered(document_doc(d, ll), format_render_options(ll)).ok
}

fn build_interpolation(interpolation: &InterpolationNode) -> (r: Doc)
    ensures
        r@ == DocModel::Text(interpolation_text(*interpolation)),
{
    match &interpolation.raw_source {
        Some(source) => Doc::text(source.as_str()),
        None => Doc::text("{}"),
    }
}

fn build_attribute_like(attribute: &AttributeLike) -> (r: Doc)
    ensures
        r@ == attribute_like_doc(*attribute),
{
    match attribute {
        AttributeLike::LiteralAttribute(attribute) => match &attribute.value {
            Some(value) => {
                let escaped = escape_attribute_text(value.as_str());
                let head = concat3(attribute.name.as_str(), "=\"", escaped.as_str());
                Doc::text(concat2(head.as_str(), "\"").as_str())
            },
            None => Doc::text(attribute.name.as_str()),
        },
        AttributeLike::InterpolatedAttribute(attribute) => concat_two(
            Doc::text(concat2(attribute.name.as_str(), "=").as_str()),
            build_interpolation(&attribute.interpolation),
        ),
        AttributeLike::TemplatedAttribute(attribute) => {
            let mut parts: Vec<Doc> = Vec::new();
            proof {
                assert(docs_model(parts@) == Seq::<DocModel>::empty());
            }
            let prefix = Doc::text(concat2(attribute.name.as_str(), "=\"").as_str());
            let ghost head = prefix@;
            push_doc(&mut parts, prefix);
            proof {
                assert(docs_model(parts@) =~= attr_part_docs(head, attribute.parts@.subrange(0, 0)));
            }
            let mut i: usize = 0;
            while i < attribute.parts.len()
                invariant
                    i <= attribute.parts@.len(),
                    docs_model(parts@) == attr_part_docs(head, attribute.parts@.subrange(0, i as int)),
                decreases attribute.parts.len() - i,
            {
                proof {
                    let p = attribute.parts@.subrange(0, i + 1);
                    assert(p.drop_last() == attribute.parts@.subrange(0, i as int));
                    assert(p.last() == attribute.parts@[i as int]);
                }
                let part = match &attribute.parts[i] {
                    ValuePart::Text(text) => Doc::text(escape_attribute_text(text.as_str()).as_str()),
                    ValuePart::Interpolation(interpolation) => build_interpolation(interpolation),
                };
                push_doc(&mut parts, part);
                i += 1;
            }
            proof {
                assert(attribute.parts@.subrange(0, attribute.parts@.len() as int) == attribute.parts@);
            }
            push_doc(&mut parts, Doc::text("\""));
            Doc::concat(parts)
        },
        AttributeLike::SpreadAttribute(attribute) => build_interpolation(&attribute.interpolation),
    }
}

fn build_start_tag(name: Doc, attributes: &Vec<AttributeLike>, closing: &str) -> (r: Doc)
    ensures
        r@ == start_tag_doc(name@, attributes@, closing@),
{
    if attributes.len() == 0 {
        return concat_three(Doc::text("<"), name, Doc::text(closing)).group();
    }
    let mut lines: Vec<Doc> = Vec::new();
    proof {
        assert(docs_model(lines@) == Seq::<DocModel>::empty());
        assert(attributes@.subrange(0, 0) == Seq::<AttributeLike>::empty());
    }
    let mut i: usize = 0;
    while i < attributes.len()
        invariant
            i <= attributes@.len(),
            docs_model(lines@) == attr_lines(attributes@.subrange(0, i as int)),
        decreases attributes.len() - i,
    {
        proof {
            let p = attributes@.subrange(0, i + 1);
            assert(p.drop_last() == attributes@.subrange(0, i as int));
            assert(p.last() == attributes@[i as int]);
        }
        push_doc(&mut lines, Doc::line());
        push_doc(&mut lines, build_attribute_like(&attributes[i]));
        i += 1;
    }
    proof {
        assert(attributes@.subrange(0, attributes@.len() as int) == attributes@);
    }
    let mut parts: Vec<Doc> = Vec::new();
    proof {
        assert(docs_model(parts@) == Seq::<DocModel>::empty());
    }
    let ghost name_model = name@;
    push_doc(&mut parts, Doc::text("<"));
    push_doc(&mut parts, name);
    let indented = Doc::concat(lines).indent();
    let ghost indented_model = indented@;
    push_doc(&mut parts, indented);
    push_doc(&mut parts, Doc::soft_line());
    let closing_doc = Doc::text(closing);
    push_doc(&mut parts, closing_doc);
    proof {
        assert(docs_model(parts@) =~= seq![
            DocModel::Text("<"@),
            name_model,
            indented_model,
            DocModel::SoftLine,
            DocModel::Text(closing@),
        ]);
    }
    Doc::concat(parts).group()
}

fn close_literal_tag(name: &str) -> (r: Doc)
    ensures
        r@ == close_literal_doc(name@),
{
    Doc::text(concat3("</", name, ">").as_str())
}

fn close_component_tag(interpolation: &InterpolationNode) -> (r: Doc)
    ensures
        r@ == close_component_doc(*interpolation),
{
    concat_three(Doc::text("</"), build_interpolation(interpolation), Doc::text(">"))
}

fn build_comment(comment: &CommentNode) -> (r: Doc)
    ensures
        r@ == node_doc(Node::Comment(*comment), 0),
{
    let mut parts: Vec<Doc> = Vec::new();
    proof {
        assert(docs_model(parts@) == Seq::<DocModel>::empty());
    }
    push_doc(&mut parts, Doc::text("<!--"));
    proof {
        assert(docs_model(parts@) =~= comment_part_docs(comment.parts@.subrange(0, 0)));
    }
    let mut i: usize = 0;
    while i < comment.parts.len()
        invariant
            i <= comment.parts@.len(),
            docs_model(parts@) == comment_part_docs(comment.parts@.subrange(0, i as int)),
        decreases comment.parts.len() - i,
    {
        proof {
            let p = comment.parts@.subrange(0, i + 1);
            assert(p.drop_last() == comment.parts@.subrange(0, i as int));
            assert(p.last() == comment.parts@[i as int]);
        }
        let part = match &comment.parts[i] {
            ValuePart::Text(text) => Doc::text(text.as_str()),
            ValuePart::Interpolation(interpolation) => build_interpolation(interpolation),
        };
        push_doc(&mut parts, part);
        i += 1;
    }
    proof {
        assert(comment.parts@.subrange(0, comment.parts@.len() as int) == comment.parts@);
    }
    push_doc(&mut parts, Doc::text("-->"));
    Doc::concat(parts)
}

fn is_mixed_content(children: &Vec<Node>) -> (r: bool)
    ensures
        r == mixed(children@),
    decreases children,
{
    let mut i: usize = 0;
    while i < children.len()
        invariant
            i <= children@.len(),
            !mixed(children@.subrange(0, i as int)),
        decreases children.len() - i,
    {
        proof {
            let p = children@.subrange(0, i + 1);
            assert(p.subrange(0, p.len() - 1) == children@.subrange(0, i as int));
            assert(p[p.len() - 1] == children@[i as int]);
        }
        let hit = match &children[i] {
            Node::Text(text) => !is_blank(text.value.as_str()),
            Node::Fragment(fragment) => {
                proof {
                    assert(decreases_to!(*children => children@));
                    assert(decreases_to!(children@ => children@[i as int]));
                }
                is_mixed_content(&fragment.children)
            },
            _ => false,
        };
        if hit {
            proof {
                lemma_mixed_prefix(children@, i + 1);
            }
            return true;
        }
        i += 1;
    }
    proof {
        assert(children@.subrange(0, children@.len() as int) == children@);
    }
    false
}

proof fn lemma_mixed_prefix(ns: Seq<Node>, i: int)
    requires
        0 <= i <= ns.len(),
        mixed(ns.subrange(0, i)),
    ensures
        mixed(ns),
    decreases ns.len() - i,
{
    if i < ns.len() {
        let p = ns.subrange(0, i + 1);
        assert(p.subrange(0, p.len() - 1) == ns.subrange(0, i));
        lemma_mixed_prefix(ns, i + 1);
    } else {
        assert(ns.subrange(0, i) == ns);
    }
}

fn join_with_hard_lines(parts: &Vec<Doc>) -> (r: Doc)
    ensures
        r@ == DocModel::Concat(join_hard(docs_model(parts@))),
{
    let ghost m = docs_model(parts@);
    proof {
        crate::doc::lemma_docs_model_len(parts@);
        assert(m.subrange(0, 0) == Seq::<DocModel>::empty());
    }
    let mut docs: Vec<Doc> = Vec::new();
    proof {
        assert(docs_model(docs@) == Seq::<DocModel>::empty());
    }
    let mut i: usize = 0;
    while i < parts.len()
        invariant
            i <= parts@.len(),
            m == docs_model(parts@),
            m.len() == parts@.len(),
            forall|k: int| 0 <= k < parts@.len() ==> #[trigger] m[k] == parts@[k]@,
            docs_model(docs@) == join_hard(m.subrange(0, i as int)),
        decreases parts.len() - i,
    {
        proof {
            let p = m.subrange(0, i + 1);
            assert(p.drop_last() == m.subrange(0, i as int));
            assert(p.last() == m[i as int]);
        }
        if i > 0 {
            push_doc(&mut docs, Doc::hard_line());
        }
        push_doc(&mut docs, parts[i].clone());
        proof {
            if i == 0 {
                assert(docs_model(docs@) =~= m.subrange(0, 1));
            }
        }
        i += 1;
    }
    proof {
        assert(m.subrange(0, m.len() as int) == m);
    }
    Doc::concat(docs)
}

fn build_node_docs(nodes: &Vec<Node>, options: &FormatOptions) -> (r: Vec<Doc>)
    ensures
        docs_model(r@) == nodes_docs(nodes@, options.line_length),
    decreases nodes, 0nat,
{
    let mut docs: Vec<Doc> = Vec::new();
    proof {
        assert(docs_model(docs@) == Seq::<DocModel>::empty());
        assert(nodes@.subrange(0, 0) == Seq::<Node>::empty());
    }
    let mut i: usize = 0;
    while i < nodes.len()
        invariant
            i <= nodes@.len(),
            docs_model(docs@) == nodes_docs(nodes@.subrange(0, i as int), options.line_length),
        decreases nodes.len() - i,
    {
        proof {
            let p = nodes@.subrange(0, i + 1);
            assert(p.subrange(0, p.len() - 1) == nodes@.subrange(0, i as int));
            assert(p[p.len() - 1] == nodes@[i as int]);
            assert(decreases_to!(*nodes => nodes@));
            assert(decreases_to!(nodes@ => nodes@[i as int]));
        }
        push_doc(&mut docs, build_node(&nodes[i], options));
        i += 1;
    }
    proof {
        assert(nodes@.subrange(0, nodes@.len() as int) == nodes@);
    }
    docs
}

fn build_significant(nodes: &Vec<Node>, options: &FormatOptions) -> (r: Vec<Doc>)
    ensures
        docs_model(r@) == significant_docs(nodes@, options.line_length),
    decreases nodes, 0nat,
{
    let mut docs: Vec<Doc> = Vec::new();
    proof {
        assert(docs_model(docs@) == Seq::<DocModel>::empty());
        assert(nodes@.subrange(0, 0) == Seq::<Node>::empty());
    }
    let mut i: usize = 0;
    while i < nodes.len()
        invariant
            i <= nodes@.len(),
            docs_model(docs@) == significant_docs(nodes@.subrange(0, i as int), options.line_length),
        decreases nodes.len() - i,
    {
        proof {
            let p = nodes@.subrange(0, i + 1);
            assert(p.subrange(0, p.len() - 1) == nodes@.subrange(0, i as int));
            assert(p[p.len() - 1] == nodes@[i as int]);
            assert(decreases_to!(*nodes => nodes@));
            assert(decreases_to!(nodes@ => nodes@[i as int]));
        }
        let skip = match &nodes[i] {
            Node::Text(text) => is_blank(text.value.as_str()),
            _ => false,
        };
        if !skip {
            push_doc(&mut docs, build_node(&nodes[i], options));
        }
        i += 1;
    }
    proof {
        assert(nodes@.subrange(0, nodes@.len() as int) == nodes@);
    }
    docs
}

fn build_standard_element(start: Doc, close: Doc, children: &Vec<Node>, options: &FormatOptions) -> (r: Doc)
    ensures
        r@ == standard_doc(start@, close@, children@, options.line_length),
    decreases children, 1nat,
{
    if children.len() == 0 {
        return concat_two(start, close);
    }
    if is_mixed_content(children) {
        let body = Doc::concat(build_node_docs(children, options));
        return concat_three(start, body, close);
    }
    let significant = build_significant(children, options);
    if significant.len() == 0 {
        proof {
            assert(significant_docs(children@, options.line_length) =~= Seq::<DocModel>::empty());
        }
        return concat_two(start, close);
    }
    proof {
        crate::doc::lemma_docs_model_len(significant@);
    }
    let child_doc = Doc::concat(significant);
    let inline_doc = concat_three(start.clone(), child_doc.clone(), close.clone());
    let limit: usize = if options.line_length == 0 { 1 } else { options.line_length };
    let fits = match flat_width(&inline_doc) {
        Some(width) => width <= limit,
        None => false,
    };
    if fits && !has_forced_break(&child_doc) {
        return inline_doc;
    }
    let broken_children = join_with_hard_lines(&build_significant(children, options));
    let body = concat_two(Doc::hard_line(), broken_children).indent();
    concat_four(start, body, Doc::hard_line(), close)
}

fn build_element(element: &ElementNode, options: &FormatOptions) -> (r: Doc)
    ensures
        r@ == node_doc(Node::Element(*element), options.line_length),
    decreases *element, 0nat,
{
    let is_void = is_void_html_tag(element.name.as_str()) && element.children.len() == 0;
    if is_void || element.self_closing {
        return build_start_tag(Doc::text(element.name.as_str()), &element.attributes, " />");
    }
    let start = build_start_tag(Doc::text(element.name.as_str()), &element.attributes, ">");
    build_standard_element(start, close_literal_tag(element.name.as_str()), &element.children, options)
}

fn build_component(component: &ComponentTagNode, options: &FormatOptions) -> (r: Doc)
    ensures
        r@ == node_doc(Node::ComponentTag(*component), options.line_length),
    decreases *component, 0nat,
{
    if component.self_closing && component.children.len() == 0 {
        return build_start_tag(build_interpolation(&component.start_tag), &component.attributes, " />");
    }
    let start = build_start_tag(build_interpolation(&component.start_tag), &component.attributes, ">");
    let close = match &component.end_tag {
        Some(end_tag) => close_component_tag(end_tag),
        None => close_component_tag(&component.start_tag),
    };
    build_standard_element(start, close, &component.children, options)
}

fn build_raw_text_element(element: &RawTextElementNode, options: &FormatOptions) -> (r: Doc)
    ensures
        r@ == node_doc(Node::RawTextElement(*element), options.line_length),
    decreases *element, 0nat,
{
    if element.self_closing {
        return build_start_tag(Doc::text(element.name.as_str()), &element.attributes, " />");
    }
    let start = build_start_tag(Doc::text(element.name.as_str()), &element.attributes, ">");
    let children = Doc::concat(build_node_docs(&element.children, options));
    concat_three(start, children, close_literal_tag(element.name.as_str()))
}

fn build_node(node: &Node, options: &FormatOptions) -> (r: Doc)
    ensures
        r@ == node_doc(*node, options.line_length),
    decreases node, 0nat,
{
    match node {
        Node::Fragment(fragment) => {
            proof {
                assert(decreases_to!(*node => (*node)->Fragment_0));
            }
            Doc::concat(build_node_docs(&fragment.children, options))
        },
        Node::Element(element) => build_element(element, options),
        Node::ComponentTag(component) => build_component(component, options),
        Node::Text(text) => Doc::text(text.value.as_str()),
        Node::Interpolation(interpolation) => build_interpolation(interpolation),
        Node::Comment(comment) => build_comment(comment),
        Node::Doctype(doctype) => Doc::text(concat3("<!DOCTYPE ", doctype.text.as_str(), ">").as_str()),
        Node::RawTextElement(element) => build_raw_text_element(element, options),
    }
}

fn render_options_for(options: &FormatOptions) -> (r: RenderOptions)
    ensures
        r == format_render_options(options.line_length),
{
    RenderOptions { line_length: if options.line_length == 0 { 1 } else { options.line_length }, indent_width: 2 }
}

/// Formats a document, or gives nothing where a column would exceed `usize::MAX`.
pub fn format_document_checked(document: &Document, options: &FormatOptions) -> (r: Option<String>)
    ensures
        match r {
            Some(s) => formattable(*document, options.line_length) && s@ == formatted(*document, options.line_length),
            None => !formattable(*document, options.line_length),
        },
{
    let doc = Doc::concat(build_node_docs(&document.children, options));
    render_checked(&doc, render_options_for(options))
}

} // verus!
