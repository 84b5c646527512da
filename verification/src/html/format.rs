//! The HTML and T-HTML source formatter: builds a pretty-printing document
//! from a syntax tree and renders it within the line length.

use vstd::prelude::*;
use crate::doc::{
    Doc, DocModel, RenderOptions, docs_model, rendered, render, render_checked, flat_width, flat_width_of,
    has_forced_break, forced_break, push_doc, concat_two, concat_three, concat_four, Layout, Mode, layout,
    layout_seq, emit_newline,
};
use crate::escape::{escape_attribute_text, quote_escape_spec};
use crate::text::{chars_of, is_whitespace, is_unicode_whitespace, concat2, concat3};
use super::ast::{
    Document, Node, Attribute, AttributeLike, ValuePart, InterpolationNode, ElementNode, ComponentTagNode,
    RawTextElementNode, FormatOptions, FormatFlavor, void_tag_spec, is_void_html_tag,
};

verus! {

/// A text made of whitespace only (possibly empty).
pub open spec fn blank(s: Seq<char>) -> bool {
    forall|i: int| 0 <= i < s.len() ==> is_unicode_whitespace(#[trigger] s[i])
}

pub(crate) fn is_blank(s: &str) -> (r: bool)
    ensures
        r == blank(s@),
{
    let chars = chars_of(s);
    let mut i: usize = 0;
    while i < chars.len()
        invariant
            i <= chars@.len(),
            chars@ == s@,
            forall|k: int| 0 <= k < i ==> is_unicode_whitespace(#[trigger] s@[k]),
        decreases chars.len() - i,
    {
        if !is_whitespace(chars[i]) {
            return false;
        }
        i += 1;
    }
    true
}

/// An interpolation is written back as its raw source, or as `{}` without one.
pub open spec fn interpolation_text(i: InterpolationNode) -> Seq<char> {
    match i.raw_source {
        Some(s) => s@,
        None => "{}"@,
    }
}

/// Whether some text part of an attribute value holds the character `c`.
pub open spec fn texts_hold(parts: Seq<ValuePart>, c: char) -> bool {
    exists|i: int| 0 <= i < parts.len() && text_holds(#[trigger] parts[i], c)
}

pub open spec fn text_holds(p: ValuePart, c: char) -> bool {
    match p {
        ValuePart::Text(t) => t@.contains(c),
        ValuePart::Interpolation(_) => false,
    }
}

/// An attribute value is written in single quotes when its text holds `"` and
/// no `'`; else in double quotes.
pub open spec fn single_quoted(parts: Seq<ValuePart>) -> bool {
    texts_hold(parts, '"') && !texts_hold(parts, '\'')
}

/// A value part as written: text as it is in single quotes, with `"` escaped
/// in double quotes; an interpolation by its source.
pub open spec fn part_doc(p: ValuePart, single: bool) -> DocModel {
    match p {
        ValuePart::Text(t) => DocModel::Text(if single { t@ } else { quote_escape_spec(t@) }),
        ValuePart::Interpolation(i) => DocModel::Text(interpolation_text(i)),
    }
}

/// The documents of `prefix` followed by the value parts.
pub open spec fn value_docs(prefix: DocModel, parts: Seq<ValuePart>, single: bool) -> Seq<DocModel>
    decreases parts.len(),
{
    if parts.len() == 0 {
        seq![prefix]
    } else {
        value_docs(prefix, parts.drop_last(), single).push(part_doc(parts.last(), single))
    }
}

/// The quote an attribute value is written in.
pub open spec fn quote_of(parts: Seq<ValuePart>) -> Seq<char> {
    if single_quoted(parts) { seq!['\''] } else { seq!['"'] }
}

/// An attribute as written: its name, and its value in quotes: single quotes
/// when its text holds `"` and no `'`, else double quotes with `"` escaped in
/// its texts.
pub open spec fn attribute_doc(a: Attribute) -> DocModel {
    match a.value {
        None => DocModel::Text(a.name@),
        Some(v) => DocModel::Concat(
            value_docs(DocModel::Text(a.name@ + seq!['='] + quote_of(v.parts@)), v.parts@, single_quoted(v.parts@)).push(
                DocModel::Text(quote_of(v.parts@)),
            ),
        ),
    }
}

pub open spec fn attribute_like_doc(a: AttributeLike) -> DocModel {
    match a {
        AttributeLike::Attribute(at) => attribute_doc(at),
        AttributeLike::SpreadAttribute(s) => DocModel::Text(interpolation_text(s.interpolation)),
    }
}

/// Each attribute preceded by a line break that becomes a space when the tag
/// fits on one line.
pub open spec fn attr_lines(attrs: Seq<AttributeLike>) -> Seq<DocModel>
    decreases attrs.len(),
{
    if attrs.len() == 0 {
        Seq::empty()
    } else {
        attr_lines(attrs.drop_last()).push(DocModel::Line).push(attribute_like_doc(attrs.last()))
    }
}

/// A start tag: on one line when it has no attributes, else a group that puts
/// each attribute on a line of its own when the tag does not fit.
pub open spec fn start_tag_doc(name: Seq<char>, attrs: Seq<AttributeLike>, closing: Seq<char>) -> DocModel {
    if attrs.len() == 0 {
        DocModel::Text("<"@ + name + closing)
    } else {
        DocModel::Group(Box::new(DocModel::Concat(seq![
            DocModel::Text("<"@ + name),
            DocModel::Indent(Box::new(DocModel::Concat(attr_lines(attrs)))),
            DocModel::SoftLine,
            DocModel::Text(closing),
        ])))
    }
}

pub open spec fn close_tag_doc(name: Seq<char>) -> DocModel {
    DocModel::Text("</"@ + name + ">"@)
}

/// Content with text other than whitespace, directly or inside fragments, is
/// laid out as it stands.
pub open spec fn mixed(ns: Seq<Node>) -> bool
    decreases ns,
{
    if ns.len() == 0 {
        false
    } else {
        mixed(ns.subrange(0, ns.len() - 1)) || match ns[ns.len() - 1] {
            Node::Text(t) => !blank(t.value@),
            Node::Fragment(f) => mixed(f.children@),
            _ => false,
        }
    }
}

/// The line length, at least one.
pub open spec fn line_max(ll: usize) -> nat {
    if ll == 0 { 1 } else { ll as nat }
}

/// Separates documents by hard line breaks.
pub open spec fn join_hard(ds: Seq<DocModel>) -> Seq<DocModel>
    decreases ds.len(),
{
    if ds.len() == 0 {
        Seq::empty()
    } else if ds.len() == 1 {
        ds
    } else {
        join_hard(ds.drop_last()).push(DocModel::HardLine).push(ds.last())
    }
}

/// The document of a node: texts and interpolations as written, comments and
/// doctypes in their delimiters, void elements as `<name ... />`, components
/// without children self-closed in T-HTML, and other elements through
/// [`standard_doc`].
pub open spec fn node_doc(n: Node, flavor: FormatFlavor, ll: usize) -> DocModel
    decreases n, 0nat,
{
    match n {
        Node::Fragment(f) => DocModel::Concat(nodes_docs(f.children@, flavor, ll)),
        Node::Element(e) => if void_tag_spec(e.name@) && e.children@.len() == 0 {
            start_tag_doc(e.name@, e.attributes@, " />"@)
        } else {
            standard_doc(e.name@, start_tag_doc(e.name@, e.attributes@, ">"@), e.children@, flavor, ll)
        },
        Node::ComponentTag(c) => if flavor == FormatFlavor::Thtml && c.self_closing && c.children@.len() == 0 {
            start_tag_doc(c.name@, c.attributes@, " />"@)
        } else {
            standard_doc(c.name@, start_tag_doc(c.name@, c.attributes@, ">"@), c.children@, flavor, ll)
        },
        Node::Text(t) => DocModel::Text(t.value@),
        Node::Interpolation(i) => DocModel::Text(interpolation_text(i)),
        Node::Comment(c) => DocModel::Text("<!--"@ + c.value@ + "-->"@),
        Node::Doctype(d) => DocModel::Text("<!"@ + d.value@ + ">"@),
        Node::RawTextElement(r) => DocModel::Concat(seq![
            start_tag_doc(r.name@, r.attributes@, ">"@),
            DocModel::Concat(nodes_docs(r.children@, flavor, ll)),
            close_tag_doc(r.name@),
        ]),
    }
}

pub open spec fn nodes_docs(ns: Seq<Node>, flavor: FormatFlavor, ll: usize) -> Seq<DocModel>
    decreases ns, 0nat,
{
    if ns.len() == 0 {
        Seq::empty()
    } else {
        nodes_docs(ns.subrange(0, ns.len() - 1), flavor, ll).push(node_doc(ns[ns.len() - 1], flavor, ll))
    }
}

/// The documents of the children that are not whitespace-only texts.
pub open spec fn significant_docs(ns: Seq<Node>, flavor: FormatFlavor, ll: usize) -> Seq<DocModel>
    decreases ns, 0nat,
{
    if ns.len() == 0 {
        Seq::empty()
    } else {
        let rest = significant_docs(ns.subrange(0, ns.len() - 1), flavor, ll);
        match ns[ns.len() - 1] {
            Node::Text(t) => if blank(t.value@) { rest } else { rest.push(node_doc(ns[ns.len() - 1], flavor, ll)) },
            _ => rest.push(node_doc(ns[ns.len() - 1], flavor, ll)),
        }
    }
}

/// An element with content: mixed content as it stands; otherwise, without the
/// whitespace-only texts, the children on the line of the tags when all of it
/// fits and no child forces a break, else each child on a line of its own,
/// indented.
pub open spec fn standard_doc(name: Seq<char>, start: DocModel, children: Seq<Node>, flavor: FormatFlavor, ll: usize) -> DocModel
    decreases children, 1nat,
{
    let close = close_tag_doc(name);
    if children.len() == 0 {
        DocModel::Concat(seq![start, close])
    } else if mixed(children) {
        DocModel::Concat(seq![start, DocModel::Concat(nodes_docs(children, flavor, ll)), close])
    } else {
        let sig = significant_docs(children, flavor, ll);
        if sig.len() == 0 {
            DocModel::Concat(seq![start, close])
        } else {
            let child = DocModel::Concat(sig);
            let inline = DocModel::Concat(seq![start, child, close]);
            if (flat_width_of(inline) matches Some(w) && w <= line_max(ll)) && !forced_break(child) {
                inline
            } else {
                DocModel::Concat(seq![
                    start,
                    DocModel::Indent(Box::new(DocModel::Concat(seq![DocModel::HardLine, DocModel::Concat(join_hard(sig))]))),
                    DocModel::HardLine,
                    close,
                ])
            }
        }
    }
}

/// Joining documents by hard line breaks keeps each document, in order, with a
/// hard line break between each two and nothing else.
pub proof fn lemma_join_hard_alternates(ds: Seq<DocModel>)
    requires
        ds.len() > 0,
    ensures
        join_hard(ds).len() == 2 * ds.len() - 1,
        forall|k: int| 0 <= k < ds.len() ==> #[trigger] join_hard(ds)[2 * k] == ds[k],
        forall|k: int| 0 <= k < ds.len() - 1 ==> #[trigger] join_hard(ds)[2 * k + 1] == DocModel::HardLine,
    decreases ds.len(),
{
    if ds.len() > 1 {
        let d = ds.drop_last();
        lemma_join_hard_alternates(d);
        let j = join_hard(d);
        assert(join_hard(ds) == j.push(DocModel::HardLine).push(ds.last()));
        assert forall|k: int| 0 <= k < ds.len() implies #[trigger] join_hard(ds)[2 * k] == ds[k] by {
            if k < d.len() {
                assert(j[2 * k] == d[k]);
            }
        }
        assert forall|k: int| 0 <= k < ds.len() - 1 implies #[trigger] join_hard(ds)[2 * k + 1] == DocModel::HardLine by {
            if k < d.len() - 1 {
                assert(j[2 * k + 1] == DocModel::HardLine);
            }
        }
    }
}

/// The output and the column of a layout do not depend on whether earlier
/// columns fit in a `usize`.
proof fn lemma_layout_ignores_ok(doc: DocModel, indent: nat, mode: Mode, a: Layout, b: Layout, opts: RenderOptions)
    requires
        a.out == b.out,
        a.width == b.width,
    ensures
        layout(doc, indent, mode, a, opts).out == layout(doc, indent, mode, b, opts).out,
        layout(doc, indent, mode, a, opts).width == layout(doc, indent, mode, b, opts).width,
    decreases doc,
{
    match doc {
        DocModel::Concat(parts) => lemma_layout_seq_ignores_ok(parts, indent, mode, a, b, opts),
        DocModel::Indent(inner) => {
            let n = (indent + opts.indent_width) as nat;
            lemma_layout_ignores_ok(
                *inner,
                n,
                mode,
                Layout { out: a.out, width: a.width, ok: a.ok && indent + opts.indent_width <= usize::MAX },
                Layout { out: b.out, width: b.width, ok: b.ok && indent + opts.indent_width <= usize::MAX },
                opts,
            );
        },
        DocModel::Group(inner) => {
            let next = if mode == Mode::Flat {
                Mode::Flat
            } else if crate::doc::fits_flat(crate::doc::saturating_sub(opts.line_length as int, a.width), *inner) {
                Mode::Flat
            } else {
                Mode::Break
            };
            lemma_layout_ignores_ok(*inner, indent, next, a, b, opts);
        },
        _ => {},
    }
}

proof fn lemma_layout_seq_ignores_ok(parts: Seq<DocModel>, indent: nat, mode: Mode, a: Layout, b: Layout, opts: RenderOptions)
    requires
        a.out == b.out,
        a.width == b.width,
    ensures
        layout_seq(parts, indent, mode, a, opts).out == layout_seq(parts, indent, mode, b, opts).out,
        layout_seq(parts, indent, mode, a, opts).width == layout_seq(parts, indent, mode, b, opts).width,
    decreases parts,
{
    if parts.len() > 0 {
        lemma_layout_ignores_ok(parts[0], indent, mode, a, b, opts);
        lemma_layout_seq_ignores_ok(
            parts.subrange(1, parts.len() as int),
            indent,
            mode,
            layout(parts[0], indent, mode, a, opts),
            layout(parts[0], indent, mode, b, opts),
            opts,
        );
    }
}

/// When an element's children do not all fit on the line of its tags, each
/// child goes on a line of its own, indented one step further than the element:
/// after the start tag comes a line break to the element's indent plus the
/// indent width, the children are laid out at that indent with a line break
/// between each two, and the end tag follows on a line of its own at the
/// element's indent.
pub proof fn lemma_broken_children_are_indented(
    name: Seq<char>,
    start: DocModel,
    children: Seq<Node>,
    flavor: FormatFlavor,
    ll: usize,
    indent: nat,
    mode: Mode,
    st: Layout,
    opts: RenderOptions,
)
    requires
        children.len() > 0,
        !mixed(children),
        significant_docs(children, flavor, ll).len() > 0,
        !((flat_width_of(DocModel::Concat(seq![start, DocModel::Concat(significant_docs(children, flavor, ll)), close_tag_doc(name)]))
            matches Some(w) && w <= line_max(ll)) && !forced_break(DocModel::Concat(significant_docs(children, flavor, ll)))),
    ensures
        ({
            let inner = (indent + opts.indent_width) as nat;
            let s0 = layout(start, indent, mode, st, opts);
            let s1 = layout_seq(join_hard(significant_docs(children, flavor, ll)), inner, mode, emit_newline(s0, inner), opts);
            let s2 = layout(close_tag_doc(name), indent, mode, emit_newline(s1, indent), opts);
            layout(standard_doc(name, start, children, flavor, ll), indent, mode, st, opts).out == s2.out
        }),
{
    let inner = (indent + opts.indent_width) as nat;
    let sig = significant_docs(children, flavor, ll);
    let close = close_tag_doc(name);
    let body = DocModel::Concat(seq![DocModel::HardLine, DocModel::Concat(join_hard(sig))]);
    let parts = seq![start, DocModel::Indent(Box::new(body)), DocModel::HardLine, close];
    assert(standard_doc(name, start, children, flavor, ll) == DocModel::Concat(parts));
    let s0 = layout(start, indent, mode, st, opts);
    let t0 = Layout { out: s0.out, width: s0.width, ok: s0.ok && indent + opts.indent_width <= usize::MAX };
    let e0 = emit_newline(t0, inner);
    let jh = DocModel::Concat(join_hard(sig));
    let bs = seq![DocModel::HardLine, jh];
    let u1 = layout_seq(join_hard(sig), inner, mode, e0, opts);
    // the children, after a line break, at the inner indent
    assert(bs[0] == DocModel::HardLine);
    assert(bs.subrange(1, 2) == seq![jh]);
    assert(seq![jh][0] == jh);
    assert(seq![jh].subrange(1, 1) == Seq::<DocModel>::empty());
    assert(layout(DocModel::HardLine, inner, mode, t0, opts) == e0);
    assert(layout(jh, inner, mode, e0, opts) == u1);
    assert(layout_seq(seq![jh], inner, mode, e0, opts) == layout_seq(Seq::<DocModel>::empty(), inner, mode, u1, opts));
    assert(layout_seq(seq![jh], inner, mode, e0, opts) == u1);
    assert(layout_seq(bs, inner, mode, t0, opts) == layout_seq(seq![jh], inner, mode, e0, opts));
    assert(layout(body, inner, mode, t0, opts) == u1);
    let ind = DocModel::Indent(Box::new(body));
    assert(layout(ind, indent, mode, s0, opts) == u1);
    // the whole element
    let rest = seq![DocModel::HardLine, close];
    assert(parts[0] == start);
    assert(parts.subrange(1, 4) == seq![ind, DocModel::HardLine, close]);
    assert(seq![ind, DocModel::HardLine, close][0] == ind);
    assert(seq![ind, DocModel::HardLine, close].subrange(1, 3) == rest);
    assert(rest[0] == DocModel::HardLine);
    assert(rest.subrange(1, 2) == seq![close]);
    assert(seq![close][0] == close);
    assert(seq![close].subrange(1, 1) == Seq::<DocModel>::empty());
    let v2 = emit_newline(u1, indent);
    let v3 = layout(close, indent, mode, v2, opts);
    assert(layout_seq(seq![close], indent, mode, v2, opts) == layout_seq(Seq::<DocModel>::empty(), indent, mode, v3, opts));
    assert(layout(DocModel::HardLine, indent, mode, u1, opts) == v2);
    assert(layout_seq(rest, indent, mode, u1, opts) == layout_seq(seq![close], indent, mode, v2, opts));
    assert(layout_seq(seq![ind, DocModel::HardLine, close], indent, mode, s0, opts) == layout_seq(rest, indent, mode, u1, opts));
    assert(layout_seq(parts, indent, mode, st, opts) == layout_seq(parts.subrange(1, 4), indent, mode, s0, opts));
    assert(layout(DocModel::Concat(parts), indent, mode, st, opts) == v3);
    let s1 = layout_seq(join_hard(sig), inner, mode, emit_newline(s0, inner), opts);
    lemma_layout_seq_ignores_ok(join_hard(sig), inner, mode, e0, emit_newline(s0, inner), opts);
    lemma_layout_ignores_ok(close, indent, mode, emit_newline(u1, indent), emit_newline(s1, indent), opts);
}

/// The document a syntax tree is formatted from.
pub open spec fn document_doc(d: Document, flavor: FormatFlavor, ll: usize) -> DocModel {
    DocModel::Concat(nodes_docs(d.children@, flavor, ll))
}

/// How formatted source is rendered: within the line length (at least one),
/// indenting by two.
pub open spec fn format_render_options(ll: usize) -> RenderOptions {
    RenderOptions { line_length: line_max(ll) as usize, indent_width: 2 }
}

/// The formatted text of a document.
pub open spec fn formatted(d: Document, flavor: FormatFlavor, ll: usize) -> Seq<char> {
    rendered(document_doc(d, flavor, ll), format_render_options(ll)).out
}

/// Whether formatting stays within `usize` columns.
pub open spec fn formattable(d: Document, flavor: FormatFlavor, ll: usize) -> bool {
    rendered(document_doc(d, flavor, ll), format_render_options(ll)).ok
}

fn build_interpolation(interpolation: &InterpolationNode) -> (r: Doc)
    ensures
        r@ == DocModel::Text(interpolation_text(*interpolation)),
{
    match &interpolation.raw_source {
        Some(source) => Doc::text(source.as_str()),
        None => Doc::text("{}"),
    }
}

fn build_part(part: &ValuePart, single: bool) -> (r: Doc)
    ensures
        r@ == part_doc(*part, single),
{
    match part {
        ValuePart::Text(text) => if single {
            Doc::text(text.as_str())
        } else {
            Doc::text(escape_attribute_text(text.as_str()).as_str())
        },
        ValuePart::Interpolation(interpolation) => build_interpolation(interpolation),
    }
}

fn str_holds(s: &str, c: char) -> (r: bool)
    ensures
        r == s@.contains(c),
{
    let chars = chars_of(s);
    let mut i: usize = 0;
    while i < chars.len()
        invariant
            i <= chars@.len(),
            chars@ == s@,
            forall|k: int| 0 <= k < i ==> chars@[k] != c,
        decreases chars.len() - i,
    {
        if chars[i] == c {
            return true;
        }
        i += 1;
    }
    false
}

fn texts_hold_exec(parts: &Vec<ValuePart>, c: char) -> (r: bool)
    ensures
        r == texts_hold(parts@, c),
{
    let mut i: usize = 0;
    while i < parts.len()
        invariant
            i <= parts@.len(),
            forall|k: int| 0 <= k < i ==> !text_holds(#[trigger] parts@[k], c),
        decreases parts.len() - i,
    {
        match &parts[i] {
            ValuePart::Text(t) => {
                if str_holds(t.as_str(), c) {
                    proof {
                        assert(text_holds(parts@[i as int], c));
                    }
                    return true;
                }
            },
            ValuePart::Interpolation(_) => {},
        }
        i += 1;
    }
    false
}

fn build_attribute(attribute: &Attribute) -> (r: Doc)
    ensures
        r@ == attribute_doc(*attribute),
{
    match &attribute.value {
        None => Doc::text(attribute.name.as_str()),
        Some(value) => {
            let single = texts_hold_exec(&value.parts, '"') && !texts_hold_exec(&value.parts, '\'');
            let quote = if single { "'" } else { "\"" };
            proof {
                reveal_strlit("'");
                reveal_strlit("\"");
                reveal_strlit("=");
                assert("="@ =~= seq!['=']);
                assert("'"@ =~= seq!['\'']);
                assert("\""@ =~= seq!['"']);
                assert(single == single_quoted(value.parts@));
                assert(quote@ == quote_of(value.parts@));
            }
            let mut parts: Vec<Doc> = Vec::new();
            proof {
                assert(docs_model(parts@) == Seq::<DocModel>::empty());
            }
            let prefix = Doc::text(concat3(attribute.name.as_str(), "=", quote).as_str());
            let ghost head = prefix@;
            proof {
                assert(head == DocModel::Text(attribute.name@ + seq!['='] + quote_of(value.parts@)));
            }
            push_doc(&mut parts, prefix);
            proof {
                assert(docs_model(parts@) =~= value_docs(head, value.parts@.subrange(0, 0), single));
            }
            let mut i: usize = 0;
            while i < value.parts.len()
                invariant
                    i <= value.parts@.len(),
                    docs_model(parts@) == value_docs(head, value.parts@.subrange(0, i as int), single),
                decreases value.parts.len() - i,
            {
                proof {
                    let p = value.parts@.subrange(0, i + 1);
                    assert(p.drop_last() == value.parts@.subrange(0, i as int));
                    assert(p.last() == value.parts@[i as int]);
                }
                push_doc(&mut parts, build_part(&value.parts[i], single));
                i += 1;
            }
            proof {
                assert(value.parts@.subrange(0, value.parts@.len() as int) == value.parts@);
            }
            push_doc(&mut parts, Doc::text(quote));
            Doc::concat(parts)
        },
    }
}

fn build_attribute_like(attribute: &AttributeLike) -> (r: Doc)
    ensures
        r@ == attribute_like_doc(*attribute),
{
    match attribute {
        AttributeLike::Attribute(attribute) => build_attribute(attribute),
        AttributeLike::SpreadAttribute(spread) => build_interpolation(&spread.interpolation),
    }
}

fn build_start_tag(name: &str, attributes: &Vec<AttributeLike>, closing: &str) -> (r: Doc)
    ensures
        r@ == start_tag_doc(name@, attributes@, closing@),
{
    if attributes.len() == 0 {
        return Doc::text(concat3("<", name, closing).as_str());
    }
    let mut lines: Vec<Doc> = Vec::new();
    proof {
        assert(docs_model(lines@) == Seq::<DocModel>::empty());
        assert(attributes@.subrange(0, 0) == Seq::<AttributeLike>::empty());
    }
    let mut i: usize = 0;
    while i < attributes.len()
        invariant
            i <= attributes@.len(),
            docs_model(lines@) == attr_lines(attributes@.subrange(0, i as int)),
        decreases attributes.len() - i,
    {
        proof {
            let p = attributes@.subrange(0, i + 1);
            assert(p.drop_last() == attributes@.subrange(0, i as int));
            assert(p.last() == attributes@[i as int]);
        }
        push_doc(&mut lines, Doc::line());
        push_doc(&mut lines, build_attribute_like(&attributes[i]));
        i += 1;
    }
    proof {
        assert(attributes@.subrange(0, attributes@.len() as int) == attributes@);
    }
    let opening = Doc::text(concat2("<", name).as_str());
    concat_four(opening, Doc::concat(lines).indent(), Doc::soft_line(), Doc::text(closing)).group()
}

fn close_tag(name: &str) -> (r: Doc)
    ensures
        r@ == close_tag_doc(name@),
{
    Doc::text(concat3("</", name, ">").as_str())
}

fn is_mixed_content(children: &Vec<Node>) -> (r: bool)
    ensures
        r == mixed(children@),
    decreases children,
{
    let mut i: usize = 0;
    while i < children.len()
        invariant
            i <= children@.len(),
            !mixed(children@.subrange(0, i as int)),
        decreases children.len() - i,
    {
        proof {
            let p = children@.subrange(0, i + 1);
            assert(p.subrange(0, p.len() - 1) == children@.subrange(0, i as int));
            assert(p[p.len() - 1] == children@[i as int]);
        }
        let hit = match &children[i] {
            Node::Text(text) => !is_blank(text.value.as_str()),
            Node::Fragment(fragment) => {
                proof {
                    assert(decreases_to!(*children => children@));
                    assert(decreases_to!(children@ => children@[i as int]));
                }
                is_mixed_content(&fragment.children)
            },
            _ => false,
        };
        if hit {
            proof {
                lemma_mixed_prefix(children@, i + 1);
            }
            return true;
        }
        i += 1;
    }
    proof {
        assert(children@.subrange(0, children@.len() as int) == children@);
    }
    false
}

proof fn lemma_mixed_prefix(ns: Seq<Node>, i: int)
    requires
        0 <= i <= ns.len(),
        mixed(ns.subrange(0, i)),
    ensures
        mixed(ns),
    decreases ns.len() - i,
{
    if i < ns.len() {
        let p = ns.subrange(0, i + 1);
        assert(p.subrange(0, p.len() - 1) == ns.subrange(0, i));
        lemma_mixed_prefix(ns, i + 1);
    } else {
        assert(ns.subrange(0, i) == ns);
    }
}

fn join_with_hard_lines(parts: &Vec<Doc>) -> (r: Doc)
    ensures
        r@ == DocModel::Concat(join_hard(docs_model(parts@))),
{
    let ghost m = docs_model(parts@);
    proof {
        crate::doc::lemma_docs_model_len(parts@);
        assert(m.subrange(0, 0) == Seq::<DocModel>::empty());
    }
    let mut docs: Vec<Doc> = Vec::new();
    proof {
        assert(docs_model(docs@) == Seq::<DocModel>::empty());
    }
    let mut i: usize = 0;
    while i < parts.len()
        invariant
            i <= parts@.len(),
            m == docs_model(parts@),
            m.len() == parts@.len(),
            forall|k: int| 0 <= k < parts@.len() ==> #[trigger] m[k] == parts@[k]@,
            docs_model(docs@) == join_hard(m.subrange(0, i as int)),
        decreases parts.len() - i,
    {
        proof {
            let p = m.subrange(0, i + 1);
            assert(p.drop_last() == m.subrange(0, i as int));
            assert(p.last() == m[i as int]);
        }
        if i > 0 {
            push_doc(&mut docs, Doc::hard_line());
        }
        push_doc(&mut docs, parts[i].clone());
        proof {
            if i == 0 {
                assert(docs_model(docs@) =~= m.subrange(0, 1));
            }
        }
        i += 1;
    }
    proof {
        assert(m.subrange(0, m.len() as int) == m);
    }
    Doc::concat(docs)
}

fn build_node_docs(nodes: &Vec<Node>, flavor: FormatFlavor, options: &FormatOptions) -> (r: Vec<Doc>)
    ensures
        docs_model(r@) == nodes_docs(nodes@, flavor, options.line_length),
    decreases nodes, 0nat,
{
    let mut docs: Vec<Doc> = Vec::new();
    proof {
        assert(docs_model(docs@) == Seq::<DocModel>::empty());
        assert(nodes@.subrange(0, 0) == Seq::<Node>::empty());
    }
    let mut i: usize = 0;
    while i < nodes.len()
        invariant
            i <= nodes@.len(),
            docs_model(docs@) == nodes_docs(nodes@.subrange(0, i as int), flavor, options.line_length),
        decreases nodes.len() - i,
    {
        proof {
            let p = nodes@.subrange(0, i + 1);
            assert(p.subrange(0, p.len() - 1) == nodes@.subrange(0, i as int));
            assert(p[p.len() - 1] == nodes@[i as int]);
            assert(decreases_to!(*nodes => nodes@));
            assert(decreases_to!(nodes@ => nodes@[i as int]));
        }
        push_doc(&mut docs, build_node(&nodes[i], flavor, options));
        i += 1;
    }
    proof {
        assert(nodes@.subrange(0, nodes@.len() as int) == nodes@);
    }
    docs
}

fn build_significant(nodes: &Vec<Node>, flavor: FormatFlavor, options: &FormatOptions) -> (r: Vec<Doc>)
    ensures
        docs_model(r@) == significant_docs(nodes@, flavor, options.line_length),
    decreases nodes, 0nat,
{
    let mut docs: Vec<Doc> = Vec::new();
    proof {
        assert(docs_model(docs@) == Seq::<DocModel>::empty());
        assert(nodes@.subrange(0, 0) == Seq::<Node>::empty());
    }
    let mut i: usize = 0;
    while i < nodes.len()
        invariant
            i <= nodes@.len(),
            docs_model(docs@) == significant_docs(nodes@.subrange(0, i as int), flavor, options.line_length),
        decreases nodes.len() - i,
    {
        proof {
            let p = nodes@.subrange(0, i + 1);
            assert(p.subrange(0, p.len() - 1) == nodes@.subrange(0, i as int));
            assert(p[p.len() - 1] == nodes@[i as int]);
            assert(decreases_to!(*nodes => nodes@));
            assert(decreases_to!(nodes@ => nodes@[i as int]));
        }
        let skip = match &nodes[i] {
            Node::Text(text) => is_blank(text.value.as_str()),
            _ => false,
        };
        if !skip {
            push_doc(&mut docs, build_node(&nodes[i], flavor, options));
        }
        i += 1;
    }
    proof {
        assert(nodes@.subrange(0, nodes@.len() as int) == nodes@);
    }
    docs
}

fn build_standard_element(
    name: &str,
    start: Doc,
    children: &Vec<Node>,
    flavor: FormatFlavor,
    options: &FormatOptions,
) -> (r: Doc)
    ensures
        r@ == standard_doc(name@, start@, children@, flavor, options.line_length),
    decreases children, 1nat,
{
    let close = close_tag(name);
    if children.len() == 0 {
        return concat_two(start, close);
    }
    if is_mixed_content(children) {
        let body = Doc::concat(build_node_docs(children, flavor, options));
        return concat_three(start, body, close);
    }
    let significant = build_significant(children, flavor, options);
    if significant.len() == 0 {
        proof {
            assert(significant_docs(children@, flavor, options.line_length) =~= Seq::<DocModel>::empty());
        }
        return concat_two(start, close);
    }
    proof {
        crate::doc::lemma_docs_model_len(significant@);
    }
    let child_doc = Doc::concat(significant);
    let inline_doc = concat_three(start.clone(), child_doc.clone(), close.clone());
    let limit: usize = if options.line_length == 0 { 1 } else { options.line_length };
    let fits = match flat_width(&inline_doc) {
        Some(width) => width <= limit,
        None => false,
    };
    if fits && !has_forced_break(&child_doc) {
        return inline_doc;
    }
    let broken_children = join_with_hard_lines(&build_significant(children, flavor, options));
    let body = concat_two(Doc::hard_line(), broken_children).indent();
    concat_four(start, body, Doc::hard_line(), close)
}

fn build_element(element: &ElementNode, flavor: FormatFlavor, options: &FormatOptions) -> (r: Doc)
    ensures
        r@ == node_doc(Node::Element(*element), flavor, options.line_length),
    decreases *element, 0nat,
{
    let is_void = is_void_html_tag(element.name.as_str()) && element.children.len() == 0;
    if is_void {
        return build_start_tag(element.name.as_str(), &element.attributes, " />");
    }
    let start = build_start_tag(element.name.as_str(), &element.attributes, ">");
    build_standard_element(element.name.as_str(), start, &element.children, flavor, options)
}

fn build_component(component: &ComponentTagNode, flavor: FormatFlavor, options: &FormatOptions) -> (r: Doc)
    ensures
        r@ == node_doc(Node::ComponentTag(*component), flavor, options.line_length),
    decreases *component, 0nat,
{
    let thtml = match flavor {
        FormatFlavor::Thtml => true,
        FormatFlavor::Html => false,
    };
    if thtml && component.self_closing && component.children.len() == 0 {
        return build_start_tag(component.name.as_str(), &component.attributes, " />");
    }
    let start = build_start_tag(component.name.as_str(), &component.attributes, ">");
    build_standard_element(component.name.as_str(), start, &component.children, flavor, options)
}

fn build_raw_text_element(element: &RawTextElementNode, flavor: FormatFlavor, options: &FormatOptions) -> (r: Doc)
    ensures
        r@ == node_doc(Node::RawTextElement(*element), flavor, options.line_length),
    decreases *element, 0nat,
{
    let start = build_start_tag(element.name.as_str(), &element.attributes, ">");
    let close = close_tag(element.name.as_str());
    let children = Doc::concat(build_node_docs(&element.children, flavor, options));
    concat_three(start, children, close)
}

fn build_node(node: &Node, flavor: FormatFlavor, options: &FormatOptions) -> (r: Doc)
    ensures
        r@ == node_doc(*node, flavor, options.line_length),
    decreases node, 0nat,
{
    match node {
        Node::Fragment(fragment) => {
            proof {
                assert(decreases_to!(*node => (*node)->Fragment_0));
            }
            Doc::concat(build_node_docs(&fragment.children, flavor, options))
        },
        Node::Element(element) => build_element(element, flavor, options),
        Node::ComponentTag(component) => build_component(component, flavor, options),
        Node::Text(text) => Doc::text(text.value.as_str()),
        Node::Interpolation(interpolation) => build_interpolation(interpolation),
        Node::Comment(comment) => Doc::text(concat3("<!--", comment.value.as_str(), "-->").as_str()),
        Node::Doctype(doctype) => Doc::text(concat3("<!", doctype.value.as_str(), ">").as_str()),
        Node::RawTextElement(element) => build_raw_text_element(element, flavor, options),
    }
}

fn render_options_for(options: &FormatOptions) -> (r: RenderOptions)
    ensures
        r == format_render_options(options.line_length),
{
    RenderOptions { line_length: if options.line_length == 0 { 1 } else { options.line_length }, indent_width: 2 }
}

/// Formats a document, or gives nothing where a column would exceed `usize::MAX`.
pub fn format_document_checked(document: &Document, options: &FormatOptions, flavor: FormatFlavor) -> (r: Option<String>)
    ensures
        match r {
            Some(s) => formattable(*document, flavor, options.line_length)
                && s@ == formatted(*document, flavor, options.line_length),
            None => !formattable(*document, flavor, options.line_length),
        },
{
    let doc = Doc::concat(build_node_docs(&document.children, flavor, options));
    render_checked(&doc, render_options_for(options))
}

/// Formats a document for the given dialect.
pub fn format_document(document: &Document, options: &FormatOptions, flavor: FormatFlavor) -> (r: String)
    requires
        formattable(*document, flavor, options.line_length),
    ensures
        r@ == formatted(*document, flavor, options.line_length),
{
    let doc = Doc::concat(build_node_docs(&document.children, flavor, options));
    render(&doc, render_options_for(options))
}

/// Formats a document as HTML.
pub fn format_document_with_options(document: &Document, options: &FormatOptions) -> (r: String)
    requires
        formattable(*document, FormatFlavor::Html, options.line_length),
    ensures
        r@ == formatted(*document, FormatFlavor::Html, options.line_length),
{
    format_document(document, options, FormatFlavor::Html)
}

/// Formats a document as T-HTML, where components without children close
/// themselves.
pub fn format_document_as_thtml_with_options(document: &Document, options: &FormatOptions) -> (r: String)
    requires
        formattable(*document, FormatFlavor::Thtml, options.line_length),
    ensures
        r@ == formatted(*document, FormatFlavor::Thtml, options.line_length),
{
    format_document(document, options, FormatFlavor::Thtml)
}

} // verus!
