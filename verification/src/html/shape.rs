//! Templates of the same shape: the same static text, with interpolations of
//! the same indices in the same places. Their token streams differ only in
//! what the interpolations hold, so the parser gives the same document up to
//! the interpolations, and a document parsed from one template, rebound to
//! another of the same shape, is the document that the other parses to.

use vstd::prelude::*;
use crate::syntax::{
    parts_segments, from_parts_spec, TemplateInput, TemplateSegment, TemplateInterpolation, StreamItem, SourceSpan, item_span, segment_items,
    segments_items, flatten_spec,
};
use super::parser::{Token, token_of, template_tokens, interpolation_node_of};
use super::ast::{
    InterpolationNode, Node, AttributeLike, ValuePart, node_wf, nodes_wf, attrs_wf, attr_wf, raw_children,
};
use super::grammar::{part_model, parts_model, attr_model, attrs_model, node_model, nodes_model, lemma_nodes_model_push};
use super::template::{part_rebound, parts_rebound, attr_rebound, attrs_rebound, node_rebound, nodes_rebound};
use super::template::{first_interpolation, rebound_interpolation, lemma_first_interpolation};
use super::parser::{tchar, tspan, tstarts, tfolded, tws};
use super::grammar::{
    PartM, AttrM, NodeM, tinterp, at_end, char_at, chars_between, span_fold, skip_ws, name_len, name_spec,
    text_end, raw_end, raw_chunk_spec, comment_end, comment_spec, doctype_start, doctype_end, doctype_spec, flush,
    quoted_parts, unquoted_end, value_spec, attribute_spec, attrs_spec, tag_node, tag_spec, close_tag_spec,
    nodes_spec, document_spec, node_m_span, nodes_m_span, ttext_char, tname_char, tunquoted_char, advances,
};
use crate::syntax::merge_span_opt_spec;
use crate::html::validate::{
    Failure, attr_failure, attrs_failure, has_interpolation_part, raw_child_failure, raw_children_failure,
    html_node_failure, html_nodes_failure,
};
use crate::thtml::{thtml_node_failure, thtml_nodes_failure};
use super::ast::Document;
use super::template::parses_to;

verus! {

/// `a` and `b` have the same static texts, and interpolations of the same
/// indices, in the same places.
pub open spec fn same_shape(a: Seq<TemplateSegment>, b: Seq<TemplateSegment>) -> bool {
    &&& a.len() == b.len()
    &&& forall|j: int| 0 <= j < a.len() ==> #[trigger] segment_shape_eq(a[j], b[j])
}

pub open spec fn segment_shape_eq(x: TemplateSegment, y: TemplateSegment) -> bool {
    match (x, y) {
        (TemplateSegment::StaticText(s), TemplateSegment::StaticText(t)) => s@ == t@,
        (TemplateSegment::Interpolation(i), TemplateSegment::Interpolation(k)) => i.interpolation_index
            == k.interpolation_index,
        _ => false,
    }
}

/// No two interpolations of the segments share an index.
pub open spec fn distinct_indices(segs: Seq<TemplateSegment>) -> bool {
    forall|j1: int, j2: int|
        #![trigger segs[j1], segs[j2]]
        0 <= j1 < j2 < segs.len() ==> !(segs[j1] matches TemplateSegment::Interpolation(x)
            && segs[j2] matches TemplateSegment::Interpolation(y) && x.interpolation_index == y.interpolation_index)
}

/// Stream item `b` is item `a` with its interpolation (if any) rebound to `segs`.
pub open spec fn item_related(a: StreamItem, b: StreamItem, segs: Seq<TemplateSegment>) -> bool {
    match (a, b) {
        (StreamItem::Char { ch: c1, span: s1 }, StreamItem::Char { ch: c2, span: s2 }) => c1 == c2 && s1 == s2,
        (StreamItem::Interpolation { interpolation: x, span: s1, .. }, StreamItem::Interpolation {
            interpolation: y,
            span: s2,
            ..
        }) => s1 == s2 && interpolation_node_of(y, Some(s2)) == rebound_interpolation(
            interpolation_node_of(x, Some(s1)),
            segs,
        ),
        (StreamItem::Eof { span: s1 }, StreamItem::Eof { span: s2 }) => s1 == s2,
        _ => false,
    }
}

pub open spec fn items_related(a: Seq<StreamItem>, b: Seq<StreamItem>, segs: Seq<TemplateSegment>) -> bool {
    a.len() == b.len() && forall|k: int| 0 <= k < a.len() ==> #[trigger] item_related(a[k], b[k], segs)
}

/// Token `b` is token `a` with its interpolation (if any) rebound to `segs`.
pub open spec fn token_related(a: Token, b: Token, segs: Seq<TemplateSegment>) -> bool {
    match (a, b) {
        (Token::Char(c1, s1), Token::Char(c2, s2)) => c1 == c2 && s1 == s2,
        (Token::Interpolation(x, s1), Token::Interpolation(y, s2)) => s1 == s2 && interpolation_node_of(y, s2)
            == rebound_interpolation(interpolation_node_of(x, s1), segs),
        (Token::Eof, Token::Eof) => true,
        _ => false,
    }
}

pub open spec fn tokens_related(a: Seq<Token>, b: Seq<Token>, segs: Seq<TemplateSegment>) -> bool {
    a.len() == b.len() && forall|k: int| 0 <= k < a.len() ==> #[trigger] token_related(a[k], b[k], segs)
}

proof fn lemma_first_interpolation_at(segs: Seq<TemplateSegment>, j: int)
    requires
        distinct_indices(segs),
        0 <= j < segs.len(),
        segs[j] is Interpolation,
    ensures
        first_interpolation(segs, segs[j]->Interpolation_0.interpolation_index) == Some(segs[j]->Interpolation_0),
{
    let y = segs[j]->Interpolation_0;
    assert forall|k: int| 0 <= k < j implies !(#[trigger] segs[k] matches TemplateSegment::Interpolation(x)
        && x.interpolation_index == y.interpolation_index) by {
        assert(segs[k] == segs[k] && segs[j] == segs[j]);
    }
    lemma_first_interpolation(segs, y.interpolation_index, j);
    let rest = segs.subrange(j, segs.len() as int);
    assert(rest[0] == segs[j]);
}

proof fn lemma_segments_items_related(a: Seq<TemplateSegment>, b: Seq<TemplateSegment>, n: nat)
    requires
        same_shape(a, b),
        distinct_indices(b),
        n <= a.len(),
    ensures
        items_related(segments_items(a, n), segments_items(b, n), b),
    decreases n,
{
    if n > 0 {
        let j = n - 1;
        lemma_segments_items_related(a, b, (n - 1) as nat);
        let pa = segments_items(a, (n - 1) as nat);
        let pb = segments_items(b, (n - 1) as nat);
        let sa = segment_items(a[j], j as nat);
        let sb = segment_items(b[j], j as nat);
        assert(segment_shape_eq(a[j], b[j]));
        assert(items_related(sa, sb, b)) by {
            match (a[j], b[j]) {
                (TemplateSegment::StaticText(s), TemplateSegment::StaticText(t)) => {
                    assert(sa =~= sb);
                    assert forall|k: int| 0 <= k < sa.len() implies #[trigger] item_related(sa[k], sb[k], b) by {}
                },
                (TemplateSegment::Interpolation(x), TemplateSegment::Interpolation(y)) => {
                    lemma_first_interpolation_at(b, j);
                    assert(item_related(sa[0], sb[0], b));
                },
                _ => {},
            }
        }
        assert forall|k: int| 0 <= k < pa.len() + sa.len() implies #[trigger] item_related(
            (pa + sa)[k],
            (pb + sb)[k],
            b,
        ) by {
            if k < pa.len() {
                assert(item_related(pa[k], pb[k], b));
            } else {
                assert(item_related(sa[k - pa.len()], sb[k - pa.len()], b));
            }
        }
    }
}

/// The token streams of two templates of the same shape are related: the
/// same characters and spans, with the interpolations of the second being
/// those of the first rebound to the second's segments.
pub proof fn lemma_tokens_related(a: TemplateInput, b: TemplateInput)
    requires
        same_shape(a.segments@, b.segments@),
        distinct_indices(b.segments@),
    ensures
        tokens_related(template_tokens(a), template_tokens(b), b.segments@),
{
    let sa = a.segments@;
    let sb = b.segments@;
    lemma_segments_items_related(sa, sb, sa.len());
    let ia = segments_items(sa, sa.len());
    let ib = segments_items(sb, sb.len());
    let fa = flatten_spec(sa);
    let fb = flatten_spec(sb);
    if ia.len() > 0 {
        assert(item_related(ia.last(), ib.last(), sb));
        assert(item_span(ia.last()) == item_span(ib.last()));
    }
    assert(items_related(fa, fb, sb)) by {
        assert forall|k: int| 0 <= k < fa.len() implies #[trigger] item_related(fa[k], fb[k], sb) by {
            if k < ia.len() {
                assert(fa[k] == ia[k]);
                assert(fb[k] == ib[k]);
                assert(item_related(ia[k], ib[k], sb));
            }
        }
    }
    let ta = template_tokens(a);
    let tb = template_tokens(b);
    assert forall|k: int| 0 <= k < ta.len() implies #[trigger] token_related(ta[k], tb[k], sb) by {
        assert(item_related(fa[k], fb[k], sb));
        assert(ta[k] == token_of(fa[k]));
        assert(tb[k] == token_of(fb[k]));
    }
}

/// What an interpolation value becomes when rebound to `segs`.
pub open spec fn map_interp(i: Option<InterpolationNode>, segs: Seq<TemplateSegment>) -> Option<InterpolationNode> {
    match i {
        Some(x) => Some(rebound_interpolation(x, segs)),
        None => None,
    }
}

pub open spec fn map_part(p: PartM, segs: Seq<TemplateSegment>) -> PartM {
    match p {
        PartM::Text(t) => PartM::Text(t),
        PartM::Interpolation(i) => PartM::Interpolation(rebound_interpolation(i, segs)),
    }
}

pub open spec fn map_parts(ps: Seq<PartM>, segs: Seq<TemplateSegment>) -> Seq<PartM> {
    ps.map_values(|p: PartM| map_part(p, segs))
}

pub open spec fn map_attr(a: AttrM, segs: Seq<TemplateSegment>) -> AttrM {
    match a {
        AttrM::Attribute { name, value, span } => AttrM::Attribute {
            name,
            value: match value {
                Some((q, ps)) => Some((q, map_parts(ps, segs))),
                None => None,
            },
            span,
        },
        AttrM::Spread { interpolation, span } => AttrM::Spread {
            interpolation: rebound_interpolation(interpolation, segs),
            span,
        },
    }
}

pub open spec fn map_attrs(attrs: Seq<AttrM>, segs: Seq<TemplateSegment>) -> Seq<AttrM> {
    attrs.map_values(|a: AttrM| map_attr(a, segs))
}

/// A node value with every interpolation in it rebound to `segs`.
pub open spec fn map_node(n: NodeM, segs: Seq<TemplateSegment>) -> NodeM
    decreases n,
{
    match n {
        NodeM::Fragment { children, span } => NodeM::Fragment { children: map_nodes(children, segs), span },
        NodeM::Element { name, attributes, children, self_closing, span } => NodeM::Element {
            name,
            attributes: map_attrs(attributes, segs),
            children: map_nodes(children, segs),
            self_closing,
            span,
        },
        NodeM::ComponentTag { name, attributes, children, self_closing, span } => NodeM::ComponentTag {
            name,
            attributes: map_attrs(attributes, segs),
            children: map_nodes(children, segs),
            self_closing,
            span,
        },
        NodeM::Interpolation(i) => NodeM::Interpolation(rebound_interpolation(i, segs)),
        NodeM::RawTextElement { name, attributes, children, span } => NodeM::RawTextElement {
            name,
            attributes: map_attrs(attributes, segs),
            children: map_nodes(children, segs),
            span,
        },
        _ => n,
    }
}

pub open spec fn map_nodes(ns: Seq<NodeM>, segs: Seq<TemplateSegment>) -> Seq<NodeM>
    decreases ns,
{
    if ns.len() == 0 {
        Seq::empty()
    } else {
        map_nodes(ns.subrange(0, ns.len() - 1), segs).push(map_node(ns[ns.len() - 1], segs))
    }
}

pub open spec fn map_node_res(r: Result<(NodeM, int), Failure>, segs: Seq<TemplateSegment>) -> Result<(NodeM, int), Failure> {
    match r {
        Ok((n, k)) => Ok((map_node(n, segs), k)),
        Err(f) => Err(f),
    }
}

pub open spec fn map_nodes_res(r: Result<(Seq<NodeM>, int), Failure>, segs: Seq<TemplateSegment>) -> Result<(Seq<NodeM>, int), Failure> {
    match r {
        Ok((ns, k)) => Ok((map_nodes(ns, segs), k)),
        Err(f) => Err(f),
    }
}

pub open spec fn map_attr_res(r: Result<(AttrM, int), Failure>, segs: Seq<TemplateSegment>) -> Result<(AttrM, int), Failure> {
    match r {
        Ok((a, k)) => Ok((map_attr(a, segs), k)),
        Err(f) => Err(f),
    }
}

pub open spec fn map_attrs_res(r: Result<(Seq<AttrM>, bool, int), Failure>, segs: Seq<TemplateSegment>) -> Result<(Seq<AttrM>, bool, int), Failure> {
    match r {
        Ok((attrs, sc, k)) => Ok((map_attrs(attrs, segs), sc, k)),
        Err(f) => Err(f),
    }
}

pub proof fn lemma_map_nodes_push(ns: Seq<NodeM>, n: NodeM, segs: Seq<TemplateSegment>)
    ensures
        map_nodes(ns.push(n), segs) == map_nodes(ns, segs).push(map_node(n, segs)),
{
    assert(ns.push(n).subrange(0, ns.len() as int) == ns);
}

pub proof fn lemma_map_nodes_span(ns: Seq<NodeM>, segs: Seq<TemplateSegment>)
    ensures
        nodes_m_span(map_nodes(ns, segs)) == nodes_m_span(ns),
        map_nodes(ns, segs).len() == ns.len(),
    decreases ns.len(),
{
    if ns.len() > 0 {
        let init = ns.drop_last();
        assert(ns.subrange(0, ns.len() - 1) == init);
        lemma_map_nodes_span(init, segs);
        let m = map_nodes(ns, segs);
        assert(m.drop_last() == map_nodes(init, segs));
        assert(node_m_span(map_node(ns.last(), segs)) == node_m_span(ns.last()));
    }
}

/// Each token-level observation the parser makes is the same on related
/// streams, but for what interpolations hold.
pub proof fn lemma_related_pointwise(t1: Seq<Token>, t2: Seq<Token>, segs: Seq<TemplateSegment>)
    requires
        tokens_related(t1, t2, segs),
    ensures
        forall|k: int| #[trigger] tchar(t1, k) == tchar(t2, k),
        forall|k: int| #[trigger] tspan(t1, k) == tspan(t2, k),
        forall|k: int| #[trigger] at_end(t1, k) == at_end(t2, k),
        forall|k: int| #[trigger] tinterp(t2, k) == map_interp(tinterp(t1, k), segs),
        forall|k: int, lit: Seq<char>| #[trigger] tstarts(t1, k, lit) == tstarts(t2, k, lit),
        forall|k: int, c: char| #[trigger] tfolded(t1, k, c) == tfolded(t2, k, c),
        forall|k: int| 0 <= k < t1.len() ==> ((#[trigger] t1[k] is Eof) == (t2[k] is Eof)),
        forall|k: int| 0 <= k < t1.len() ==> ((#[trigger] t1[k] is Interpolation) == (t2[k] is Interpolation)),
        forall|k: int| #[trigger] char_at(t1, k) == char_at(t2, k),
        forall|k: int| #[trigger] tws(t1, k) == tws(t2, k),
        forall|k: int| #[trigger] ttext_char(t1, k) == ttext_char(t2, k),
        forall|k: int, f: bool| #[trigger] tname_char(t1, k, f) == tname_char(t2, k, f),
        forall|k: int| #[trigger] doctype_start(t1, k) == doctype_start(t2, k),
        forall|i: int, j: int| #[trigger] chars_between(t1, i, j) == chars_between(t2, i, j),
{
    assert forall|k: int| #[trigger] tchar(t1, k) == tchar(t2, k) by {
        if 0 <= k < t1.len() {
            assert(token_related(t1[k], t2[k], segs));
        }
    }
    assert forall|k: int| #[trigger] tspan(t1, k) == tspan(t2, k) by {
        if 0 <= k < t1.len() {
            assert(token_related(t1[k], t2[k], segs));
        }
    }
    assert forall|k: int| 0 <= k < t1.len() implies ((#[trigger] t1[k] is Eof) == (t2[k] is Eof)) by {
        assert(token_related(t1[k], t2[k], segs));
    }
    assert forall|k: int| 0 <= k < t1.len() implies ((#[trigger] t1[k] is Interpolation) == (t2[k] is Interpolation)) by {
        assert(token_related(t1[k], t2[k], segs));
    }
    assert forall|k: int| #[trigger] at_end(t1, k) == at_end(t2, k) by {
        if 0 <= k < t1.len() {
            assert(token_related(t1[k], t2[k], segs));
        }
    }
    assert forall|k: int| #[trigger] tinterp(t2, k) == map_interp(tinterp(t1, k), segs) by {
        if 0 <= k < t1.len() {
            assert(token_related(t1[k], t2[k], segs));
        }
    }
    assert forall|k: int, lit: Seq<char>| #[trigger] tstarts(t1, k, lit) == tstarts(t2, k, lit) by {
        if tstarts(t1, k, lit) {
            assert forall|j: int| 0 <= j < lit.len() implies tchar(t2, k + j) == Some(lit[j]) by {
                assert(tchar(t1, k + j) == tchar(t2, k + j));
            }
        }
        if tstarts(t2, k, lit) {
            assert forall|j: int| 0 <= j < lit.len() implies tchar(t1, k + j) == Some(lit[j]) by {
                assert(tchar(t1, k + j) == tchar(t2, k + j));
            }
        }
    }
    assert forall|k: int, c: char| #[trigger] tfolded(t1, k, c) == tfolded(t2, k, c) by {
        assert(tchar(t1, k) == tchar(t2, k));
    }
    assert forall|k: int| #[trigger] char_at(t1, k) == char_at(t2, k) by {
        assert(tchar(t1, k) == tchar(t2, k));
    }
    assert forall|k: int| #[trigger] tws(t1, k) == tws(t2, k) by {
        assert(tchar(t1, k) == tchar(t2, k));
    }
    assert forall|k: int| #[trigger] ttext_char(t1, k) == ttext_char(t2, k) by {
        assert(tchar(t1, k) == tchar(t2, k));
    }
    assert forall|k: int, f: bool| #[trigger] tname_char(t1, k, f) == tname_char(t2, k, f) by {
        assert(tchar(t1, k) == tchar(t2, k));
    }
    assert forall|k: int| #[trigger] doctype_start(t1, k) == doctype_start(t2, k) by {
        if doctype_start(t1, k) {
            assert forall|j: int| 0 <= j < 9 implies #[trigger] tfolded(t2, k + j, "<!DOCTYPE"@[j]) by {
                assert(tfolded(t1, k + j, "<!DOCTYPE"@[j]));
            }
        }
        if doctype_start(t2, k) {
            assert forall|j: int| 0 <= j < 9 implies #[trigger] tfolded(t1, k + j, "<!DOCTYPE"@[j]) by {
                assert(tfolded(t2, k + j, "<!DOCTYPE"@[j]));
            }
        }
    }
    assert forall|i: int, j: int| #[trigger] chars_between(t1, i, j) == chars_between(t2, i, j) by {
        assert(chars_between(t1, i, j) =~= chars_between(t2, i, j));
    }
}

proof fn lemma_span_fold(t1: Seq<Token>, t2: Seq<Token>, segs: Seq<TemplateSegment>, i: int, j: int, acc: Option<SourceSpan>)
    requires
        tokens_related(t1, t2, segs),
    ensures
        span_fold(t1, i, j, acc) == span_fold(t2, i, j, acc),
    decreases j - i,
{
    lemma_related_pointwise(t1, t2, segs);
    if i < j {
        lemma_span_fold(t1, t2, segs, i + 1, j, merge_span_opt_spec(acc, tspan(t1, i)));
    }
}

proof fn lemma_skip_ws(t1: Seq<Token>, t2: Seq<Token>, segs: Seq<TemplateSegment>, k: int)
    requires
        tokens_related(t1, t2, segs),
    ensures
        skip_ws(t1, k) == skip_ws(t2, k),
    decreases t1.len() - k,
{
    lemma_related_pointwise(t1, t2, segs);
    if 0 <= k < t1.len() && tws(t1, k) {
        lemma_skip_ws(t1, t2, segs, k + 1);
    }
}

proof fn lemma_name_len(t1: Seq<Token>, t2: Seq<Token>, segs: Seq<TemplateSegment>, k: int, first: bool)
    requires
        tokens_related(t1, t2, segs),
    ensures
        name_len(t1, k, first) == name_len(t2, k, first),
    decreases t1.len() - k,
{
    lemma_related_pointwise(t1, t2, segs);
    if 0 <= k < t1.len() && tname_char(t1, k, first) {
        lemma_name_len(t1, t2, segs, k + 1, false);
    }
}

proof fn lemma_name_spec(t1: Seq<Token>, t2: Seq<Token>, segs: Seq<TemplateSegment>, k: int)
    requires
        tokens_related(t1, t2, segs),
    ensures
        name_spec(t1, k) == name_spec(t2, k),
{
    lemma_related_pointwise(t1, t2, segs);
    lemma_name_len(t1, t2, segs, k, true);
}

proof fn lemma_text_end(t1: Seq<Token>, t2: Seq<Token>, segs: Seq<TemplateSegment>, k: int)
    requires
        tokens_related(t1, t2, segs),
    ensures
        text_end(t1, k) == text_end(t2, k),
    decreases t1.len() - k,
{
    lemma_related_pointwise(t1, t2, segs);
    if 0 <= k < t1.len() && ttext_char(t1, k) {
        lemma_text_end(t1, t2, segs, k + 1);
    }
}

proof fn lemma_raw_end(t1: Seq<Token>, t2: Seq<Token>, segs: Seq<TemplateSegment>, k: int, name: Seq<char>)
    requires
        tokens_related(t1, t2, segs),
    ensures
        raw_end(t1, k, name) == raw_end(t2, k, name),
    decreases t1.len() - k,
{
    lemma_related_pointwise(t1, t2, segs);
    if 0 <= k < t1.len() && !(t1[k] is Eof) && !tstarts(t1, k, seq!['<', '/'] + name) && tchar(t1, k) is Some {
        lemma_raw_end(t1, t2, segs, k + 1, name);
    }
}

proof fn lemma_unquoted_end(t1: Seq<Token>, t2: Seq<Token>, segs: Seq<TemplateSegment>, k: int)
    requires
        tokens_related(t1, t2, segs),
    ensures
        unquoted_end(t1, k) == unquoted_end(t2, k),
    decreases t1.len() - k,
{
    lemma_related_pointwise(t1, t2, segs);
    assert(tunquoted_char(t1, k) == tunquoted_char(t2, k)) by {
        assert(tchar(t1, k) == tchar(t2, k));
        assert(tstarts(t1, k, seq!['/', '>']) == tstarts(t2, k, seq!['/', '>']));
    }
    if 0 <= k < t1.len() && tunquoted_char(t1, k) {
        lemma_unquoted_end(t1, t2, segs, k + 1);
    }
}

proof fn lemma_comment_end(t1: Seq<Token>, t2: Seq<Token>, segs: Seq<TemplateSegment>, k: int)
    requires
        tokens_related(t1, t2, segs),
    ensures
        comment_end(t1, k) == comment_end(t2, k),
    decreases t1.len() - k,
{
    lemma_related_pointwise(t1, t2, segs);
    if !(at_end(t1, k) || tstarts(t1, k, "-->"@)) {
        assert(token_related(t1[k], t2[k], segs));
        lemma_comment_end(t1, t2, segs, k + 1);
    }
}

proof fn lemma_doctype_end(t1: Seq<Token>, t2: Seq<Token>, segs: Seq<TemplateSegment>, k: int)
    requires
        tokens_related(t1, t2, segs),
    ensures
        doctype_end(t1, k) == doctype_end(t2, k),
    decreases t1.len() - k,
{
    lemma_related_pointwise(t1, t2, segs);
    if !(at_end(t1, k) || tchar(t1, k) == Some('>')) {
        assert(token_related(t1[k], t2[k], segs));
        lemma_doctype_end(t1, t2, segs, k + 1);
    }
}

proof fn lemma_comment_spec(t1: Seq<Token>, t2: Seq<Token>, segs: Seq<TemplateSegment>, k: int)
    requires
        tokens_related(t1, t2, segs),
    ensures
        comment_spec(t1, k) == comment_spec(t2, k),
        comment_spec(t1, k) matches Ok((n, _)) ==> map_node(n, segs) == n,
{
    lemma_related_pointwise(t1, t2, segs);
    lemma_comment_end(t1, t2, segs, k + 4);
}

proof fn lemma_doctype_spec(t1: Seq<Token>, t2: Seq<Token>, segs: Seq<TemplateSegment>, k: int)
    requires
        tokens_related(t1, t2, segs),
    ensures
        doctype_spec(t1, k) == doctype_spec(t2, k),
        doctype_spec(t1, k) matches Ok((n, _)) ==> map_node(n, segs) == n,
{
    lemma_related_pointwise(t1, t2, segs);
    lemma_doctype_end(t1, t2, segs, k + 2);
}

proof fn lemma_raw_chunk(t1: Seq<Token>, t2: Seq<Token>, segs: Seq<TemplateSegment>, k: int, name: Seq<char>)
    requires
        tokens_related(t1, t2, segs),
    ensures
        raw_chunk_spec(t2, k, name) == match raw_chunk_spec(t1, k, name) {
            Some((n, next)) => Some((map_node(n, segs), next)),
            None => None::<(NodeM, int)>,
        },
{
    lemma_related_pointwise(t1, t2, segs);
    lemma_raw_end(t1, t2, segs, k, name);
    let end = raw_end(t1, k, name);
    lemma_span_fold(t1, t2, segs, k, end, None);
}

proof fn lemma_close_tag(t1: Seq<Token>, t2: Seq<Token>, segs: Seq<TemplateSegment>, k: int, name: Seq<char>)
    requires
        tokens_related(t1, t2, segs),
    ensures
        close_tag_spec(t1, k, name) == close_tag_spec(t2, k, name),
{
    lemma_related_pointwise(t1, t2, segs);
    lemma_skip_ws(t1, t2, segs, k + 2);
    let p = skip_ws(t1, k + 2);
    lemma_name_spec(t1, t2, segs, p);
    match name_spec(t1, p) {
        Ok((_, after)) => {
            lemma_skip_ws(t1, t2, segs, after);
        },
        Err(_) => {},
    }
}

proof fn lemma_map_parts_push(ps: Seq<PartM>, p: PartM, segs: Seq<TemplateSegment>)
    ensures
        map_parts(ps.push(p), segs) == map_parts(ps, segs).push(map_part(p, segs)),
{
    assert(map_parts(ps.push(p), segs) =~= map_parts(ps, segs).push(map_part(p, segs)));
}

proof fn lemma_map_flush(ps: Seq<PartM>, text: Seq<char>, segs: Seq<TemplateSegment>)
    ensures
        flush(map_parts(ps, segs), text) == map_parts(flush(ps, text), segs),
{
    lemma_map_parts_push(ps, PartM::Text(text), segs);
}

proof fn lemma_map_attrs_push(attrs: Seq<AttrM>, a: AttrM, segs: Seq<TemplateSegment>)
    ensures
        map_attrs(attrs.push(a), segs) == map_attrs(attrs, segs).push(map_attr(a, segs)),
{
    assert(map_attrs(attrs.push(a), segs) =~= map_attrs(attrs, segs).push(map_attr(a, segs)));
}

proof fn lemma_quoted_parts(t1: Seq<Token>, t2: Seq<Token>, segs: Seq<TemplateSegment>, k: int, quote: char, parts: Seq<PartM>, text: Seq<char>)
    requires
        tokens_related(t1, t2, segs),
    ensures
        quoted_parts(t2, k, quote, map_parts(parts, segs), text) == (
            map_parts(quoted_parts(t1, k, quote, parts, text).0, segs),
            quoted_parts(t1, k, quote, parts, text).1,
        ),
    decreases t1.len() - k,
{
    lemma_related_pointwise(t1, t2, segs);
    lemma_map_flush(parts, text, segs);
    if !(at_end(t1, k) || tchar(t1, k) == Some(quote)) {
        assert(token_related(t1[k], t2[k], segs));
        match t1[k] {
            Token::Interpolation(i, span) => {
                let node = interpolation_node_of(i, span);
                lemma_map_parts_push(flush(parts, text), PartM::Interpolation(node), segs);
                lemma_quoted_parts(t1, t2, segs, k + 1, quote, flush(parts, text).push(PartM::Interpolation(node)), Seq::empty());
            },
            _ => {
                lemma_quoted_parts(t1, t2, segs, k + 1, quote, parts, text.push(char_at(t1, k)));
            },
        }
    }
}

proof fn lemma_value_spec(t1: Seq<Token>, t2: Seq<Token>, segs: Seq<TemplateSegment>, k: int)
    requires
        tokens_related(t1, t2, segs),
    ensures
        value_spec(t2, k) == (
            (value_spec(t1, k).0.0, map_parts(value_spec(t1, k).0.1, segs)),
            value_spec(t1, k).1,
        ),
{
    lemma_related_pointwise(t1, t2, segs);
    if tchar(t1, k) == Some('"') || tchar(t1, k) == Some('\'') {
        let quote = char_at(t1, k);
        assert(map_parts(Seq::<PartM>::empty(), segs) =~= Seq::<PartM>::empty());
        lemma_quoted_parts(t1, t2, segs, k + 1, quote, Seq::empty(), Seq::empty());
    } else if tinterp(t1, k) is Some {
        let i = tinterp(t1, k)->Some_0;
        assert(map_parts(seq![PartM::Interpolation(i)], segs) =~= seq![PartM::Interpolation(rebound_interpolation(i, segs))]);
    } else {
        lemma_unquoted_end(t1, t2, segs, k);
        let end = unquoted_end(t1, k);
        assert(map_parts(seq![PartM::Text(chars_between(t1, k, end))], segs) =~= seq![PartM::Text(chars_between(t1, k, end))]);
    }
}

proof fn lemma_attribute_spec(t1: Seq<Token>, t2: Seq<Token>, segs: Seq<TemplateSegment>, k: int)
    requires
        tokens_related(t1, t2, segs),
    ensures
        attribute_spec(t2, k) == map_attr_res(attribute_spec(t1, k), segs),
{
    lemma_related_pointwise(t1, t2, segs);
    lemma_name_spec(t1, t2, segs, k);
    match name_spec(t1, k) {
        Ok((_, after)) => {
            lemma_skip_ws(t1, t2, segs, after);
            let eq = skip_ws(t1, after);
            lemma_skip_ws(t1, t2, segs, eq + 1);
            lemma_value_spec(t1, t2, segs, skip_ws(t1, eq + 1));
        },
        Err(_) => {},
    }
}

proof fn lemma_attrs_spec(t1: Seq<Token>, t2: Seq<Token>, segs: Seq<TemplateSegment>, k: int, name: Seq<char>, start: Option<SourceSpan>, acc: Seq<AttrM>)
    requires
        tokens_related(t1, t2, segs),
    ensures
        attrs_spec(t2, k, name, start, map_attrs(acc, segs)) == map_attrs_res(attrs_spec(t1, k, name, start, acc), segs),
    decreases t1.len() - k,
{
    lemma_related_pointwise(t1, t2, segs);
    lemma_skip_ws(t1, t2, segs, k);
    let p = skip_ws(t1, k);
    if tstarts(t1, p, seq!['/', '>']) || tchar(t1, p) == Some('>') || at_end(t1, p) {
    } else if tinterp(t1, p) is Some {
        if p >= k {
            let i = tinterp(t1, p)->Some_0;
            let a = AttrM::Spread { interpolation: i, span: i.span };
            lemma_map_attrs_push(acc, a, segs);
            assert(rebound_interpolation(i, segs).span == i.span);
            lemma_attrs_spec(t1, t2, segs, p + 1, name, start, acc.push(a));
        }
    } else {
        lemma_attribute_spec(t1, t2, segs, p);
        match attribute_spec(t1, p) {
            Ok((a, next)) => {
                if advances(t1, k, next) {
                    lemma_map_attrs_push(acc, a, segs);
                    lemma_attrs_spec(t1, t2, segs, next, name, start, acc.push(a));
                }
            },
            Err(_) => {},
        }
    }
}

proof fn lemma_tag(t1: Seq<Token>, t2: Seq<Token>, segs: Seq<TemplateSegment>, k: int)
    requires
        tokens_related(t1, t2, segs),
    ensures
        tag_spec(t2, k) == map_node_res(tag_spec(t1, k), segs),
    decreases t1.len() - k, 0int,
{
    lemma_related_pointwise(t1, t2, segs);
    let start = tspan(t1, k);
    if tchar(t1, k) == Some('<') {
        lemma_name_spec(t1, t2, segs, k + 1);
        match name_spec(t1, k + 1) {
            Ok((name, after)) => {
                assert(map_attrs(Seq::<AttrM>::empty(), segs) =~= Seq::<AttrM>::empty());
                lemma_attrs_spec(t1, t2, segs, after, name, start, Seq::empty());
                match attrs_spec(t1, after, name, start, Seq::empty()) {
                    Ok((attrs, self_closing, next)) => {
                        assert(map_nodes(Seq::<NodeM>::empty(), segs) =~= Seq::<NodeM>::empty());
                        if self_closing {
                        } else if advances(t1, k, next) {
                            lemma_nodes(t1, t2, segs, next, Some(name), super::ast::raw_text_tag_spec(name), Seq::empty());
                            match nodes_spec(t1, next, Some(name), super::ast::raw_text_tag_spec(name), Seq::empty()) {
                                Ok((children, _)) => {
                                    lemma_map_nodes_span(children, segs);
                                },
                                Err(_) => {},
                            }
                        }
                    },
                    Err(_) => {},
                }
            },
            Err(_) => {},
        }
    }
}

proof fn lemma_nodes(t1: Seq<Token>, t2: Seq<Token>, segs: Seq<TemplateSegment>, k: int, closing: Option<Seq<char>>, raw: bool, acc: Seq<NodeM>)
    requires
        tokens_related(t1, t2, segs),
    ensures
        nodes_spec(t2, k, closing, raw, map_nodes(acc, segs)) == map_nodes_res(nodes_spec(t1, k, closing, raw, acc), segs),
    decreases t1.len() - k, 1int,
{
    lemma_related_pointwise(t1, t2, segs);
    if at_end(t1, k) {
    } else if closing is Some && tstarts(t1, k, seq!['<', '/']) {
        lemma_close_tag(t1, t2, segs, k, closing->Some_0);
    } else if closing is Some && raw {
        lemma_raw_chunk(t1, t2, segs, k, closing->Some_0);
        match raw_chunk_spec(t1, k, closing->Some_0) {
            Some((n, next)) => {
                if advances(t1, k, next) {
                    lemma_map_nodes_push(acc, n, segs);
                    lemma_nodes(t1, t2, segs, next, closing, raw, acc.push(n));
                }
            },
            None => {},
        }
    } else if tstarts(t1, k, "<!--"@) {
        lemma_comment_spec(t1, t2, segs, k);
        match comment_spec(t1, k) {
            Ok((n, next)) => {
                if advances(t1, k, next) {
                    lemma_map_nodes_push(acc, n, segs);
                    lemma_nodes(t1, t2, segs, next, closing, raw, acc.push(n));
                }
            },
            Err(_) => {},
        }
    } else if doctype_start(t1, k) {
        lemma_doctype_spec(t1, t2, segs, k);
        match doctype_spec(t1, k) {
            Ok((n, next)) => {
                if advances(t1, k, next) {
                    lemma_map_nodes_push(acc, n, segs);
                    lemma_nodes(t1, t2, segs, next, closing, raw, acc.push(n));
                }
            },
            Err(_) => {},
        }
    } else if tchar(t1, k) == Some('<') {
        lemma_tag(t1, t2, segs, k);
        match tag_spec(t1, k) {
            Ok((n, next)) => {
                if advances(t1, k, next) {
                    lemma_map_nodes_push(acc, n, segs);
                    lemma_nodes(t1, t2, segs, next, closing, raw, acc.push(n));
                }
            },
            Err(_) => {},
        }
    } else if tinterp(t1, k) is Some {
        let n = NodeM::Interpolation(tinterp(t1, k)->Some_0);
        lemma_map_nodes_push(acc, n, segs);
        lemma_nodes(t1, t2, segs, k + 1, closing, raw, acc.push(n));
    } else {
        lemma_text_end(t1, t2, segs, k);
        let end = text_end(t1, k);
        if advances(t1, k, end) {
            lemma_span_fold(t1, t2, segs, k, end, tspan(t1, k));
            let n = NodeM::Text { value: chars_between(t1, k, end), span: span_fold(t1, k, end, tspan(t1, k)) };
            lemma_map_nodes_push(acc, n, segs);
            lemma_nodes(t1, t2, segs, end, closing, raw, acc.push(n));
        }
    }
}

/// On related token streams the parser gives the same document, up to the
/// interpolations it holds, or the same failure.
pub proof fn lemma_document_spec_related(t1: Seq<Token>, t2: Seq<Token>, segs: Seq<TemplateSegment>)
    requires
        tokens_related(t1, t2, segs),
    ensures
        document_spec(t2) == match document_spec(t1) {
            Ok((ns, span)) => Ok::<(Seq<NodeM>, Option<SourceSpan>), Failure>((map_nodes(ns, segs), span)),
            Err(f) => Err(f),
        },
{
    assert(map_nodes(Seq::<NodeM>::empty(), segs) =~= Seq::<NodeM>::empty());
    lemma_nodes(t1, t2, segs, 0, None, false, Seq::empty());
    match nodes_spec(t1, 0, None, false, Seq::empty()) {
        Ok((ns, _)) => {
            lemma_map_nodes_span(ns, segs);
        },
        Err(_) => {},
    }
}

proof fn lemma_nodes_rebound_index(a: Seq<Node>, b: Seq<Node>, segs: Seq<TemplateSegment>)
    requires
        nodes_rebound(a, b, segs),
    ensures
        a.len() == b.len(),
        forall|i: int| 0 <= i < a.len() ==> node_rebound(#[trigger] a[i], b[i], segs),
    decreases a.len(),
{
    if a.len() > 0 {
        let ai = a.subrange(0, a.len() - 1);
        let bi = b.subrange(0, b.len() - 1);
        lemma_nodes_rebound_index(ai, bi, segs);
        assert forall|i: int| 0 <= i < a.len() implies node_rebound(#[trigger] a[i], b[i], segs) by {
            if i < a.len() - 1 {
                assert(a[i] == ai[i] && b[i] == bi[i]);
            }
        }
    }
}

proof fn lemma_parts_rebound_model(a: Seq<ValuePart>, b: Seq<ValuePart>, segs: Seq<TemplateSegment>)
    requires
        parts_rebound(a, b, segs),
    ensures
        parts_model(b) == map_parts(parts_model(a), segs),
{
    assert forall|k: int| 0 <= k < a.len() implies parts_model(b)[k] == map_parts(parts_model(a), segs)[k] by {
        assert(part_rebound(a[k], b[k], segs));
    }
    assert(parts_model(b) =~= map_parts(parts_model(a), segs));
}

proof fn lemma_attrs_rebound_model(a: Seq<AttributeLike>, b: Seq<AttributeLike>, segs: Seq<TemplateSegment>)
    requires
        attrs_rebound(a, b, segs),
    ensures
        attrs_model(b) == map_attrs(attrs_model(a), segs),
        attrs_wf(a) ==> attrs_wf(b),
{
    assert forall|k: int| 0 <= k < a.len() implies attrs_model(b)[k] == map_attrs(attrs_model(a), segs)[k]
        && (attr_wf(a[k]) ==> attr_wf(b[k])) by {
        assert(attr_rebound(a[k], b[k], segs));
        match (a[k], b[k]) {
            (AttributeLike::Attribute(x), AttributeLike::Attribute(y)) => {
                match (x.value, y.value) {
                    (Some(u), Some(v)) => {
                        lemma_parts_rebound_model(u.parts@, v.parts@, segs);
                    },
                    _ => {},
                }
            },
            _ => {},
        }
    }
    assert(attrs_model(b) =~= map_attrs(attrs_model(a), segs));
    if attrs_wf(a) {
        assert forall|k: int| 0 <= k < b.len() implies attr_wf(#[trigger] b[k]) by {
            assert(attr_wf(a[k]));
        }
    }
}

/// Node `b`, rebound from `a` to `segs`, has the value of `a` with its
/// interpolations rebound, and keeps the parser's shape.
proof fn lemma_node_rebound_model(a: Node, b: Node, segs: Seq<TemplateSegment>)
    requires
        node_rebound(a, b, segs),
    ensures
        node_model(b) == map_node(node_model(a), segs),
        node_wf(a) ==> node_wf(b),
    decreases a, 1int,
{
    match (a, b) {
        (Node::Fragment(x), Node::Fragment(y)) => {
            lemma_nodes_rebound_model(x.children@, y.children@, segs);
        },
        (Node::Element(x), Node::Element(y)) => {
            lemma_nodes_rebound_model(x.children@, y.children@, segs);
            lemma_attrs_rebound_model(x.attributes@, y.attributes@, segs);
        },
        (Node::ComponentTag(x), Node::ComponentTag(y)) => {
            lemma_nodes_rebound_model(x.children@, y.children@, segs);
            lemma_attrs_rebound_model(x.attributes@, y.attributes@, segs);
        },
        (Node::RawTextElement(x), Node::RawTextElement(y)) => {
            lemma_nodes_rebound_model(x.children@, y.children@, segs);
            lemma_attrs_rebound_model(x.attributes@, y.attributes@, segs);
            lemma_nodes_rebound_index(x.children@, y.children@, segs);
            if raw_children(x.children@) {
                assert forall|i: int| 0 <= i < y.children@.len() implies (#[trigger] y.children@[i] is Text
                    || y.children@[i] is Interpolation) && (y.children@[i] matches Node::Text(t) ==> t.value@.len() > 0) by {
                    assert(node_rebound(x.children@[i], y.children@[i], segs));
                }
            }
        },
        _ => {},
    }
}

proof fn lemma_nodes_rebound_model(a: Seq<Node>, b: Seq<Node>, segs: Seq<TemplateSegment>)
    requires
        nodes_rebound(a, b, segs),
    ensures
        nodes_model(b) == map_nodes(nodes_model(a), segs),
        nodes_wf(a) ==> nodes_wf(b),
    decreases a, 0int,
{
    if a.len() == 0 {
        assert(nodes_model(b) =~= Seq::<NodeM>::empty());
    } else {
        let ai = a.subrange(0, a.len() - 1);
        let bi = b.subrange(0, b.len() - 1);
        lemma_nodes_rebound_model(ai, bi, segs);
        lemma_node_rebound_model(a[a.len() - 1], b[b.len() - 1], segs);
        assert(a == ai.push(a[a.len() - 1]));
        lemma_nodes_model_push(ai, a[a.len() - 1]);
        lemma_map_nodes_push(nodes_model(ai), node_model(a[a.len() - 1]), segs);
    }
}

proof fn lemma_attrs_failure_rebound(a: Seq<AttributeLike>, b: Seq<AttributeLike>, segs: Seq<TemplateSegment>)
    requires
        attrs_rebound(a, b, segs),
    ensures
        attrs_failure(b) == attrs_failure(a),
    decreases a.len(),
{
    if a.len() > 0 {
        let ai = a.drop_last();
        let bi = b.drop_last();
        assert(attrs_rebound(ai, bi, segs)) by {
            assert forall|k: int| 0 <= k < ai.len() implies attr_rebound(#[trigger] ai[k], bi[k], segs) by {
                assert(attr_rebound(a[k], b[k], segs));
            }
        }
        lemma_attrs_failure_rebound(ai, bi, segs);
        assert(attr_rebound(a.last(), b.last(), segs));
        match (a.last(), b.last()) {
            (AttributeLike::Attribute(x), AttributeLike::Attribute(y)) => {
                match (x.value, y.value) {
                    (Some(u), Some(v)) => {
                        assert(has_interpolation_part(u.parts@) == has_interpolation_part(v.parts@)) by {
                            if has_interpolation_part(u.parts@) {
                                let i = choose|i: int| 0 <= i < u.parts@.len() && #[trigger] u.parts@[i] is Interpolation;
                                assert(part_rebound(u.parts@[i], v.parts@[i], segs));
                            }
                            if has_interpolation_part(v.parts@) {
                                let i = choose|i: int| 0 <= i < v.parts@.len() && #[trigger] v.parts@[i] is Interpolation;
                                assert(part_rebound(u.parts@[i], v.parts@[i], segs));
                            }
                        }
                    },
                    _ => {},
                }
            },
            _ => {},
        }
    }
}

proof fn lemma_raw_children_failure_rebound(name: Seq<char>, span: Option<SourceSpan>, a: Seq<Node>, b: Seq<Node>, segs: Seq<TemplateSegment>)
    requires
        nodes_rebound(a, b, segs),
    ensures
        raw_children_failure(name, span, b) == raw_children_failure(name, span, a),
    decreases a.len(),
{
    if a.len() > 0 {
        assert(a.drop_last() == a.subrange(0, a.len() - 1));
        assert(b.drop_last() == b.subrange(0, b.len() - 1));
        lemma_raw_children_failure_rebound(name, span, a.drop_last(), b.drop_last(), segs);
        assert(node_rebound(a.last(), b.last(), segs));
    }
}

proof fn lemma_html_node_failure_rebound(a: Node, b: Node, segs: Seq<TemplateSegment>)
    requires
        node_rebound(a, b, segs),
    ensures
        html_node_failure(b) == html_node_failure(a),
        thtml_node_failure(b) == thtml_node_failure(a),
    decreases a, 1int,
{
    match (a, b) {
        (Node::Fragment(x), Node::Fragment(y)) => {
            lemma_html_nodes_failure_rebound(x.children@, y.children@, segs);
        },
        (Node::Element(x), Node::Element(y)) => {
            lemma_html_nodes_failure_rebound(x.children@, y.children@, segs);
            lemma_attrs_failure_rebound(x.attributes@, y.attributes@, segs);
        },
        (Node::ComponentTag(x), Node::ComponentTag(y)) => {
            lemma_html_nodes_failure_rebound(x.children@, y.children@, segs);
            lemma_attrs_failure_rebound(x.attributes@, y.attributes@, segs);
        },
        (Node::RawTextElement(x), Node::RawTextElement(y)) => {
            lemma_attrs_failure_rebound(x.attributes@, y.attributes@, segs);
            lemma_raw_children_failure_rebound(x.name@, x.span, x.children@, y.children@, segs);
        },
        _ => {},
    }
}

proof fn lemma_html_nodes_failure_rebound(a: Seq<Node>, b: Seq<Node>, segs: Seq<TemplateSegment>)
    requires
        nodes_rebound(a, b, segs),
    ensures
        html_nodes_failure(b) == html_nodes_failure(a),
        thtml_nodes_failure(b) == thtml_nodes_failure(a),
    decreases a, 0int,
{
    if a.len() > 0 {
        lemma_html_nodes_failure_rebound(a.subrange(0, a.len() - 1), b.subrange(0, b.len() - 1), segs);
        lemma_html_node_failure_rebound(a[a.len() - 1], b[b.len() - 1], segs);
    }
}

/// Templates of the same shape parse alike: one fails exactly when the other
/// does, with the same failure.
pub proof fn lemma_same_shape_parses_alike(a: TemplateInput, b: TemplateInput)
    requires
        same_shape(a.segments@, b.segments@),
        distinct_indices(b.segments@),
    ensures
        document_spec(template_tokens(b)) is Ok <==> document_spec(template_tokens(a)) is Ok,
        document_spec(template_tokens(a)) matches Err(f) ==> document_spec(template_tokens(b)) == Err::<
            (Seq<NodeM>, Option<SourceSpan>),
            Failure,
        >(f),
{
    lemma_tokens_related(a, b);
    lemma_document_spec_related(template_tokens(a), template_tokens(b), b.segments@);
}

/// A document that template `a` parses to, with its interpolations rebound to
/// a template `b` of the same shape (as `rebound_document` does), is the
/// document that `b` parses to; and the HTML and T-HTML backends judge it as
/// they judge `d`. This is what lets a parsed template be cached under
/// its static text and reused for every template with that text.
pub proof fn lemma_rebound_document_is_parsed(a: TemplateInput, b: TemplateInput, d: Document, e: Document)
    requires
        same_shape(a.segments@, b.segments@),
        distinct_indices(b.segments@),
        parses_to(a, d),
        nodes_rebound(d.children@, e.children@, b.segments@),
        e.span == d.span,
    ensures
        parses_to(b, e),
        html_nodes_failure(e.children@) == html_nodes_failure(d.children@),
        thtml_nodes_failure(e.children@) == thtml_nodes_failure(d.children@),
{
    lemma_tokens_related(a, b);
    lemma_document_spec_related(template_tokens(a), template_tokens(b), b.segments@);
    lemma_nodes_rebound_model(d.children@, e.children@, b.segments@);
    lemma_html_nodes_failure_rebound(d.children@, e.children@, b.segments@);
}

/// The interpolations are numbered by their places: the `k`-th has index `k`.
pub open spec fn numbered_in_order(interpolations: Seq<TemplateInterpolation>) -> bool {
    forall|k: int| 0 <= k < interpolations.len() ==> #[trigger] interpolations[k].interpolation_index == k
}

proof fn lemma_same_shape_push(a: Seq<TemplateSegment>, b: Seq<TemplateSegment>, x: TemplateSegment, y: TemplateSegment)
    requires
        same_shape(a, b),
        segment_shape_eq(x, y),
    ensures
        same_shape(a.push(x), b.push(y)),
{
    assert forall|j: int| 0 <= j < a.push(x).len() implies #[trigger] segment_shape_eq(a.push(x)[j], b.push(y)[j]) by {
        if j < a.len() {
            assert(segment_shape_eq(a[j], b[j]));
        }
    }
}

proof fn lemma_parts_segments_shape(
    s1: Seq<String>,
    s2: Seq<String>,
    i1: Seq<TemplateInterpolation>,
    i2: Seq<TemplateInterpolation>,
    n: nat,
)
    requires
        s1.len() == s2.len(),
        forall|k: int| 0 <= k < s1.len() ==> (#[trigger] s1[k])@ == s2[k]@,
        i1.len() == i2.len(),
        forall|k: int| 0 <= k < i1.len() ==> (#[trigger] i1[k]).interpolation_index == i2[k].interpolation_index,
        n <= i1.len(),
        n <= s1.len(),
    ensures
        same_shape(parts_segments(s1, i1, n), parts_segments(s2, i2, n)),
    decreases n,
{
    if n > 0 {
        lemma_parts_segments_shape(s1, s2, i1, i2, (n - 1) as nat);
        let b1 = parts_segments(s1, i1, (n - 1) as nat);
        let b2 = parts_segments(s2, i2, (n - 1) as nat);
        let t1 = s1[n - 1];
        let t2 = s2[n - 1];
        assert(t1@ == t2@);
        if t1@.len() > 0 {
            lemma_same_shape_push(b1, b2, TemplateSegment::StaticText(t1), TemplateSegment::StaticText(t2));
            lemma_same_shape_push(
                b1.push(TemplateSegment::StaticText(t1)),
                b2.push(TemplateSegment::StaticText(t2)),
                TemplateSegment::Interpolation(i1[n - 1]),
                TemplateSegment::Interpolation(i2[n - 1]),
            );
        } else {
            lemma_same_shape_push(b1, b2, TemplateSegment::Interpolation(i1[n - 1]), TemplateSegment::Interpolation(i2[n - 1]));
        }
    }
}

/// Every interpolation among the first `n` segments has an index below `n`,
/// and the indices grow along the segments.
proof fn lemma_parts_segments_indices(s: Seq<String>, interpolations: Seq<TemplateInterpolation>, n: nat)
    requires
        numbered_in_order(interpolations),
        n <= interpolations.len(),
        n <= s.len(),
    ensures
        ({
            let segs = parts_segments(s, interpolations, n);
            &&& forall|j: int| 0 <= j < segs.len() ==> (#[trigger] segs[j] matches TemplateSegment::Interpolation(x)
                ==> x.interpolation_index < n)
            &&& forall|j1: int, j2: int|
                #![trigger segs[j1], segs[j2]]
                0 <= j1 < j2 < segs.len() ==> (segs[j1] matches TemplateSegment::Interpolation(x)
                    ==> segs[j2] matches TemplateSegment::Interpolation(y) ==> x.interpolation_index
                    < y.interpolation_index)
        }),
    decreases n,
{
    if n > 0 {
        lemma_parts_segments_indices(s, interpolations, (n - 1) as nat);
        let before = parts_segments(s, interpolations, (n - 1) as nat);
        let text = s[n - 1];
        let with_text = if text@.len() > 0 { before.push(TemplateSegment::StaticText(text)) } else { before };
        let segs = with_text.push(TemplateSegment::Interpolation(interpolations[n - 1]));
        assert(interpolations[n - 1].interpolation_index == n - 1);
        assert forall|j: int| 0 <= j < with_text.len() implies (#[trigger] with_text[j] matches TemplateSegment::Interpolation(x)
            ==> x.interpolation_index < n - 1) by {
            if j < before.len() {
                assert(with_text[j] == before[j]);
            }
        }
        assert forall|j: int| 0 <= j < segs.len() implies (#[trigger] segs[j] matches TemplateSegment::Interpolation(x)
            ==> x.interpolation_index < n) by {
            if j < with_text.len() {
                assert(segs[j] == with_text[j]);
            }
        }
        assert forall|j1: int, j2: int| 0 <= j1 < j2 < segs.len() implies (#[trigger] segs[j1] matches TemplateSegment::Interpolation(x)
            ==> #[trigger] segs[j2] matches TemplateSegment::Interpolation(y) ==> x.interpolation_index
            < y.interpolation_index) by {
            if j2 < with_text.len() {
                assert(segs[j1] == with_text[j1] && segs[j2] == with_text[j2]);
                if j2 < before.len() {
                    assert(with_text[j1] == before[j1] && with_text[j2] == before[j2]);
                }
            } else {
                assert(segs[j1] == with_text[j1]);
            }
        }
    }
}

/// Two templates built from the same static strings, each with its
/// interpolations numbered by their places, are of the same shape, and the
/// indices of the second are distinct: the condition under which a document
/// parsed from the first, cached under those strings, can be rebound to the
/// second.
pub proof fn lemma_same_strings_same_shape(
    s1: Seq<String>,
    s2: Seq<String>,
    i1: Seq<TemplateInterpolation>,
    i2: Seq<TemplateInterpolation>,
)
    requires
        s1.len() == s2.len(),
        forall|k: int| 0 <= k < s1.len() ==> (#[trigger] s1[k])@ == s2[k]@,
        s1.len() == i1.len() + 1,
        i1.len() == i2.len(),
        numbered_in_order(i1),
        numbered_in_order(i2),
    ensures
        same_shape(from_parts_spec(s1, i1), from_parts_spec(s2, i2)),
        distinct_indices(from_parts_spec(s2, i2)),
{
    let n = i1.len();
    assert forall|k: int| 0 <= k < i1.len() implies (#[trigger] i1[k]).interpolation_index == i2[k].interpolation_index by {
        assert(i1[k].interpolation_index == k);
        assert(i2[k].interpolation_index == k);
    }
    lemma_parts_segments_shape(s1, s2, i1, i2, n);
    lemma_parts_segments_indices(s2, i2, n);
    let b1 = parts_segments(s1, i1, n);
    let b2 = parts_segments(s2, i2, n);
    let tail1 = s1.last();
    let tail2 = s2.last();
    assert(tail1@ == tail2@) by {
        assert(s1[s1.len() - 1]@ == s2[s2.len() - 1]@);
    }
    let f2 = from_parts_spec(s2, i2);
    if tail1@.len() > 0 || b1.len() == 0 {
        lemma_same_shape_push(b1, b2, TemplateSegment::StaticText(tail1), TemplateSegment::StaticText(tail2));
        assert forall|j1: int, j2: int|
            #![trigger f2[j1], f2[j2]]
            0 <= j1 < j2 < f2.len() implies !(f2[j1] matches TemplateSegment::Interpolation(x)
                && f2[j2] matches TemplateSegment::Interpolation(y) && x.interpolation_index == y.interpolation_index) by {
            if j2 < b2.len() {
                assert(f2[j1] == b2[j1] && f2[j2] == b2[j2]);
            }
        }
    } else {
        assert forall|j1: int, j2: int|
            #![trigger f2[j1], f2[j2]]
            0 <= j1 < j2 < f2.len() implies !(f2[j1] matches TemplateSegment::Interpolation(x)
                && f2[j2] matches TemplateSegment::Interpolation(y) && x.interpolation_index == y.interpolation_index) by {
            assert(f2[j1] == b2[j1] && f2[j2] == b2[j2]);
        }
    }
}

} // verus!
