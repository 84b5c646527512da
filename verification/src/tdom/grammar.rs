//! What the TDOM parser gives for a token stream, stated as functions on the
//! tokens: the value of each node it builds and the position it stops at, or
//! the failure it reports.

use vstd::prelude::*;
use crate::syntax::{SourceSpan, BackendError, ErrorKind, error_is, merge_span_opt_spec};
use crate::text::{is_unicode_whitespace, trim_spec, ascii_lower_seq};
use crate::html::parser::{Token, tchar, tws, tspan, tstarts, tfolded};
use crate::html::grammar::{
    chars_between, char_at, span_fold, skip_ws, name_len, advances, at_end, text_end, ttext_char, tname_char,
};
use crate::html::ast::{raw_text_tag_spec, void_tag_spec};
use crate::html::validate::Failure;
use super::ast::{Node, AttributeLike, ValuePart, InterpolationNode};
use super::parser::{interpolation_node_of, children_span, node_span_spec};

verus! {

/// The value of a value part of an attribute or a comment.
pub enum PartM {
    Text(Seq<char>),
    Interpolation(InterpolationNode),
}

/// The value of an attribute.
pub enum AttrM {
    Literal { name: Seq<char>, value: Option<Seq<char>>, span: Option<SourceSpan> },
    Interpolated { name: Seq<char>, interpolation: InterpolationNode, span: Option<SourceSpan> },
    Templated { name: Seq<char>, parts: Seq<PartM>, span: Option<SourceSpan> },
    Spread { interpolation: InterpolationNode, span: Option<SourceSpan> },
}

/// The value of a node: the syntax tree with texts as character sequences and
/// children as sequences.
pub enum NodeM {
    Fragment { children: Seq<NodeM>, span: Option<SourceSpan> },
    Element { name: Seq<char>, attributes: Seq<AttrM>, children: Seq<NodeM>, self_closing: bool, span: Option<SourceSpan> },
    ComponentTag {
        start_tag: InterpolationNode,
        end_tag: Option<InterpolationNode>,
        attributes: Seq<AttrM>,
        children: Seq<NodeM>,
        self_closing: bool,
        span: Option<SourceSpan>,
    },
    Text { value: Seq<char>, span: Option<SourceSpan> },
    Interpolation(InterpolationNode),
    Comment { parts: Seq<PartM>, span: Option<SourceSpan> },
    Doctype { text: Seq<char>, span: Option<SourceSpan> },
    RawTextElement { name: Seq<char>, attributes: Seq<AttrM>, children: Seq<NodeM>, self_closing: bool, span: Option<SourceSpan> },
}

/// A tag name as read: a name in lower case, or an interpolation.
pub enum TagM {
    Literal(Seq<char>),
    Component(InterpolationNode),
}

pub open spec fn part_model(p: ValuePart) -> PartM {
    match p {
        ValuePart::Text(t) => PartM::Text(t@),
        ValuePart::Interpolation(i) => PartM::Interpolation(i),
    }
}

pub open spec fn parts_model(ps: Seq<ValuePart>) -> Seq<PartM> {
    ps.map_values(|p: ValuePart| part_model(p))
}

pub open spec fn attr_model(a: AttributeLike) -> AttrM {
    match a {
        AttributeLike::LiteralAttribute(l) => AttrM::Literal {
            name: l.name@,
            value: match l.value {
                Some(v) => Some(v@),
                None => None,
            },
            span: l.span,
        },
        AttributeLike::InterpolatedAttribute(i) => AttrM::Interpolated {
            name: i.name@,
            interpolation: i.interpolation,
            span: i.span,
        },
        AttributeLike::TemplatedAttribute(t) => AttrM::Templated { name: t.name@, parts: parts_model(t.parts@), span: t.span },
        AttributeLike::SpreadAttribute(s) => AttrM::Spread { interpolation: s.interpolation, span: s.span },
    }
}

pub open spec fn attrs_model(attrs: Seq<AttributeLike>) -> Seq<AttrM> {
    attrs.map_values(|a: AttributeLike| attr_model(a))
}

pub open spec fn node_model(n: Node) -> NodeM
    decreases n,
{
    match n {
        Node::Fragment(f) => NodeM::Fragment { children: nodes_model(f.children@), span: f.span },
        Node::Element(e) => NodeM::Element {
            name: e.name@,
            attributes: attrs_model(e.attributes@),
            children: nodes_model(e.children@),
            self_closing: e.self_closing,
            span: e.span,
        },
        Node::ComponentTag(c) => NodeM::ComponentTag {
            start_tag: c.start_tag,
            end_tag: c.end_tag,
            attributes: attrs_model(c.attributes@),
            children: nodes_model(c.children@),
            self_closing: c.self_closing,
            span: c.span,
        },
        Node::Text(t) => NodeM::Text { value: t.value@, span: t.span },
        Node::Interpolation(i) => NodeM::Interpolation(i),
        Node::Comment(c) => NodeM::Comment { parts: parts_model(c.parts@), span: c.span },
        Node::Doctype(d) => NodeM::Doctype { text: d.text@, span: d.span },
        Node::RawTextElement(r) => NodeM::RawTextElement {
            name: r.name@,
            attributes: attrs_model(r.attributes@),
            children: nodes_model(r.children@),
            self_closing: r.self_closing,
            span: r.span,
        },
    }
}

pub open spec fn nodes_model(ns: Seq<Node>) -> Seq<NodeM>
    decreases ns,
{
    if ns.len() == 0 {
        Seq::empty()
    } else {
        nodes_model(ns.subrange(0, ns.len() - 1)).push(node_model(ns[ns.len() - 1]))
    }
}

pub open spec fn node_m_span(n: NodeM) -> Option<SourceSpan> {
    match n {
        NodeM::Fragment { span, .. } => span,
        NodeM::Element { span, .. } => span,
        NodeM::ComponentTag { span, .. } => span,
        NodeM::Text { span, .. } => span,
        NodeM::Interpolation(i) => i.span,
        NodeM::Comment { span, .. } => span,
        NodeM::Doctype { span, .. } => span,
        NodeM::RawTextElement { span, .. } => span,
    }
}

/// The span of node values: from the first span present to the last.
pub open spec fn nodes_m_span(ns: Seq<NodeM>) -> Option<SourceSpan>
    decreases ns.len(),
{
    if ns.len() == 0 {
        None
    } else {
        merge_span_opt_spec(nodes_m_span(ns.drop_last()), node_m_span(ns.last()))
    }
}

/// `e` is the parse error that reports `f`.
pub open spec fn parse_reports(e: BackendError, f: Failure) -> bool {
    error_is(e, ErrorKind::Parse, f.code, f.message, f.span)
}

/// The interpolation node of the token at `k`, when it is an interpolation.
pub open spec fn tinterp(t: Seq<Token>, k: int) -> Option<InterpolationNode> {
    if 0 <= k < t.len() {
        match t[k] {
            Token::Interpolation(i, span) => Some(interpolation_node_of(i, span)),
            _ => None,
        }
    } else {
        None
    }
}

pub open spec fn expected_char_failure(t: Seq<Token>, k: int, c: char) -> Failure {
    Failure { code: "tdom.parse.expected_char"@, message: "Expected '"@ + seq![c] + "'."@, span: tspan(t, k) }
}

/// A name: at least one name character.
pub open spec fn name_spec(t: Seq<Token>, k: int) -> Result<(Seq<char>, int), Failure> {
    let n = name_len(t, k, true);
    if n == 0 {
        Err(Failure {
            code: "tdom.parse.expected_name"@,
            message: "Expected a tag or attribute name."@,
            span: tspan(t, k),
        })
    } else {
        Ok((chars_between(t, k, k + n), k + n))
    }
}

/// An interpolation that stands for a name must not run into another
/// interpolation or into name characters; `message` says which.
pub open spec fn singleton_failure(t: Seq<Token>, k: int, message: Seq<char>) -> Option<Failure> {
    if tinterp(t, k) is Some || tname_char(t, k, false) {
        Some(Failure { code: "tdom.parse.singleton_interpolation_required"@, message, span: tspan(t, k) })
    } else {
        None
    }
}

/// A tag name: an interpolation standing alone, or a name folded to lower case.
pub open spec fn tag_name_spec(t: Seq<Token>, k: int) -> Result<(TagM, int), Failure> {
    match tinterp(t, k) {
        Some(i) => match singleton_failure(t, k + 1, "Component element tags must have exactly one interpolation."@) {
            Some(f) => Err(f),
            None => Ok((TagM::Component(i), k + 1)),
        },
        None => match name_spec(t, k) {
            Err(f) => Err(f),
            Ok((name, next)) => Ok((TagM::Literal(ascii_lower_seq(name)), next)),
        },
    }
}

/// Whether `</name` starts at `k`, the letters of the name in any case, and is
/// followed by `>` or whitespace.
pub open spec fn close_tag_at(t: Seq<Token>, k: int, name: Seq<char>) -> bool {
    &&& tstarts(t, k, seq!['<', '/'])
    &&& forall|j: int| 0 <= j < name.len() ==> #[trigger] tfolded(t, k + 2 + j, name[j])
    &&& match tchar(t, k + 2 + name.len()) {
        Some(c) => c == '>' || is_unicode_whitespace(c),
        None => false,
    }
}

/// Where the raw text of an element named `name` ends: at its closing tag, an
/// interpolation or the end.
pub open spec fn raw_end(t: Seq<Token>, k: int, name: Seq<char>) -> int
    decreases t.len() - k,
{
    if 0 <= k < t.len() && !(t[k] is Eof) && !close_tag_at(t, k, name) && !(t[k] is Interpolation) {
        raw_end(t, k + 1, name)
    } else {
        k
    }
}

/// The next piece of raw text: a text up to the next interpolation or the
/// closing tag, or the interpolation itself.
pub open spec fn raw_chunk_spec(t: Seq<Token>, k: int, name: Seq<char>) -> Option<(NodeM, int)> {
    let end = raw_end(t, k, name);
    if end > k {
        Some((NodeM::Text { value: chars_between(t, k, end), span: span_fold(t, k, end, None) }, end))
    } else if tinterp(t, k) is Some {
        Some((NodeM::Interpolation(tinterp(t, k)->Some_0), k + 1))
    } else {
        None
    }
}

/// Adds the pending text to the parts when it is not empty.
pub open spec fn flush(parts: Seq<PartM>, text: Seq<char>) -> Seq<PartM> {
    if text.len() > 0 { parts.push(PartM::Text(text)) } else { parts }
}

/// Where a run of value parts stops: at the end, at `quote` when quoted, and,
/// unquoted, at whitespace, `>` or `/>`.
pub open spec fn parts_stop(t: Seq<Token>, k: int, quote: Option<char>) -> bool {
    at_end(t, k) || match quote {
        Some(q) => tchar(t, k) == Some(q),
        None => tws(t, k) || tchar(t, k) == Some('>') || tstarts(t, k, seq!['/', '>']),
    }
}

/// The texts and interpolations from `k` up to where the run stops.
pub open spec fn value_parts(t: Seq<Token>, k: int, quote: Option<char>, parts: Seq<PartM>, text: Seq<char>) -> (Seq<PartM>, int)
    decreases t.len() - k,
{
    if parts_stop(t, k, quote) || !(0 <= k < t.len()) {
        (flush(parts, text), k)
    } else {
        match tinterp(t, k) {
            Some(i) => value_parts(t, k + 1, quote, flush(parts, text).push(PartM::Interpolation(i)), Seq::empty()),
            None => value_parts(t, k + 1, quote, parts, text.push(char_at(t, k))),
        }
    }
}

/// The attribute a name and its value parts make: one text is a literal
/// attribute, one interpolation an interpolated one, anything else templated.
pub open spec fn valued_attr(name: Seq<char>, parts: Seq<PartM>, span: Option<SourceSpan>) -> AttrM {
    if parts.len() == 1 {
        match parts[0] {
            PartM::Text(v) => AttrM::Literal { name, value: Some(v), span },
            PartM::Interpolation(i) => AttrM::Interpolated { name, interpolation: i, span },
        }
    } else {
        AttrM::Templated { name, parts, span }
    }
}

/// An attribute value from `k`: quoted up to its closing quote, else unquoted.
pub open spec fn value_spec(t: Seq<Token>, k: int, name: Seq<char>, span: Option<SourceSpan>) -> (AttrM, int) {
    if tchar(t, k) == Some('"') || tchar(t, k) == Some('\'') {
        let quote = char_at(t, k);
        let (parts, end) = value_parts(t, k + 1, Some(quote), Seq::empty(), Seq::empty());
        (valued_attr(name, parts, span), if tchar(t, end) == Some(quote) { end + 1 } else { end })
    } else {
        let (parts, end) = value_parts(t, k, None, Seq::empty(), Seq::empty());
        (valued_attr(name, parts, span), end)
    }
}

/// An attribute: a spread interpolation standing alone, or a name folded to
/// lower case with, after `=`, its value.
pub open spec fn attribute_spec(t: Seq<Token>, k: int) -> Result<(AttrM, int), Failure> {
    match tinterp(t, k) {
        Some(i) => match singleton_failure(t, k + 1, "Spread attributes must have exactly one interpolation in the name."@) {
            Some(f) => Err(f),
            None => Ok((AttrM::Spread { interpolation: i, span: i.span }, k + 1)),
        },
        None => {
            let span = tspan(t, k);
            match name_spec(t, k) {
                Err(f) => Err(f),
                Ok((raw_name, after)) => {
                    let name = ascii_lower_seq(raw_name);
                    let eq = skip_ws(t, after);
                    if tchar(t, eq) != Some('=') {
                        Ok((AttrM::Literal { name, value: None, span }, eq))
                    } else {
                        let (a, end) = value_spec(t, skip_ws(t, eq + 1), name, span);
                        Ok((a, end))
                    }
                },
            }
        },
    }
}

/// The attributes of a start tag and how it ends (`/>` or `>`), with the
/// position after it.
pub open spec fn attrs_spec(t: Seq<Token>, k: int, start: Option<SourceSpan>, acc: Seq<AttrM>) -> Result<(Seq<AttrM>, bool, int), Failure>
    decreases t.len() - k,
{
    let p = skip_ws(t, k);
    if tstarts(t, p, seq!['/', '>']) {
        Ok((acc, true, p + 2))
    } else if tchar(t, p) == Some('>') {
        Ok((acc, false, p + 1))
    } else if at_end(t, p) {
        Err(Failure { code: "tdom.parse.unclosed_start_tag"@, message: "Unclosed start tag."@, span: start })
    } else {
        match attribute_spec(t, p) {
            Err(f) => Err(f),
            Ok((a, next)) => if advances(t, k, next) {
                attrs_spec(t, next, start, acc.push(a))
            } else {
                Err(Failure { code: "tdom.parse.unclosed_start_tag"@, message: "Unclosed start tag."@, span: start })
            },
        }
    }
}

/// The node a tag becomes: a component for an interpolation, else a raw-text
/// element for the raw-text tags, else an element; its span runs from the
/// start tag over the children.
pub open spec fn tag_node(tag: TagM, attrs: Seq<AttrM>, children: Seq<NodeM>, self_closing: bool, start: Option<SourceSpan>, end_tag: Option<InterpolationNode>) -> NodeM {
    let span = merge_span_opt_spec(start, nodes_m_span(children));
    match tag {
        TagM::Literal(name) => if raw_text_tag_spec(name) {
            NodeM::RawTextElement { name, attributes: attrs, children, self_closing, span }
        } else {
            NodeM::Element { name, attributes: attrs, children, self_closing, span }
        },
        TagM::Component(i) => NodeM::ComponentTag { start_tag: i, end_tag, attributes: attrs, children, self_closing, span },
    }
}

/// The raw source of an interpolation, or `{}` without one.
pub open spec fn source_or_braces(i: InterpolationNode) -> Seq<char> {
    match i.raw_source {
        Some(s) => s@,
        None => "{}"@,
    }
}

/// Two component tags name the same callable when their raw sources and
/// expressions agree.
pub open spec fn same_callable(a: InterpolationNode, b: InterpolationNode) -> bool {
    &&& match (a.raw_source, b.raw_source) {
        (Some(x), Some(y)) => x@ == y@,
        (None, None) => true,
        _ => false,
    }
    &&& a.expression@ == b.expression@
}

/// The end tag at `k` of the tag `open`: the interpolation that closes a
/// component, or nothing for an element, with the position after it.
pub open spec fn close_tag_spec(t: Seq<Token>, k: int, open: TagM) -> Result<(Option<InterpolationNode>, int), Failure> {
    let start = tspan(t, k);
    match tag_name_spec(t, skip_ws(t, k + 2)) {
        Err(f) => Err(f),
        Ok((close, after)) => {
            let gt = skip_ws(t, after);
            if tchar(t, gt) != Some('>') {
                Err(expected_char_failure(t, gt, '>'))
            } else {
                match (open, close) {
                    (TagM::Literal(expected), TagM::Literal(actual)) => if ascii_lower_seq(expected) == ascii_lower_seq(actual) {
                        Ok((None, gt + 1))
                    } else {
                        Err(Failure {
                            code: "tdom.parse.mismatched_tag"@,
                            message: "Mismatched closing tag </"@ + actual + ">. Expected </"@ + expected + ">."@,
                            span: start,
                        })
                    },
                    (TagM::Literal(expected), TagM::Component(_)) => Err(Failure {
                        code: "tdom.parse.component_end_tag_for_element"@,
                        message: "Component closing tag found for element <"@ + expected + ">."@,
                        span: start,
                    }),
                    (TagM::Component(o), TagM::Literal(actual)) => Err(Failure {
                        code: "tdom.parse.literal_end_tag_for_component"@,
                        message: "Mismatched closing tag </"@ + actual + "> for component starting at "@
                            + source_or_braces(o) + "."@,
                        span: start,
                    }),
                    (TagM::Component(o), TagM::Component(c)) => if same_callable(o, c) {
                        Ok((Some(c), gt + 1))
                    } else {
                        Err(Failure {
                            code: "tdom.parse.mismatched_component_tag"@,
                            message: "Mismatched component start and end callables."@,
                            span: start,
                        })
                    },
                }
            }
        },
    }
}

/// The parts of a comment's content up to `-->` (or the end).
pub open spec fn comment_parts(t: Seq<Token>, k: int, parts: Seq<PartM>, text: Seq<char>) -> (Seq<PartM>, int)
    decreases t.len() - k,
{
    if at_end(t, k) || tstarts(t, k, "-->"@) || !(0 <= k < t.len()) {
        (flush(parts, text), k)
    } else {
        match tinterp(t, k) {
            Some(i) => comment_parts(t, k + 1, flush(parts, text).push(PartM::Interpolation(i)), Seq::empty()),
            None => comment_parts(t, k + 1, parts, text.push(char_at(t, k))),
        }
    }
}

/// A comment from `<!--` at `k` to `-->`; its span runs to the closing `>`.
pub open spec fn comment_spec(t: Seq<Token>, k: int) -> Result<(NodeM, int), Failure> {
    let start = tspan(t, k);
    let (parts, end) = comment_parts(t, k + 4, Seq::empty(), Seq::empty());
    if tstarts(t, end, "-->"@) {
        Ok((NodeM::Comment { parts, span: merge_span_opt_spec(start, tspan(t, end + 2)) }, end + 3))
    } else {
        Err(Failure { code: "tdom.parse.comment_unclosed"@, message: "Unclosed HTML comment."@, span: start })
    }
}

/// Where a declaration's content ends, or the failure of an interpolation in it.
pub open spec fn doctype_end(t: Seq<Token>, k: int) -> Result<int, Failure>
    decreases t.len() - k,
{
    if at_end(t, k) || tchar(t, k) == Some('>') {
        Ok(k)
    } else {
        match t[k] {
            Token::Interpolation(_, span) => Err(Failure {
                code: "tdom.parse.doctype_interpolation"@,
                message: "Interpolations are not allowed in declarations."@,
                span,
            }),
            _ => doctype_end(t, k + 1),
        }
    }
}

/// `s` without `prefix`, when it starts with it.
pub open spec fn without_prefix(s: Seq<char>, prefix: Seq<char>) -> Option<Seq<char>> {
    if prefix.len() <= s.len() && s.subrange(0, prefix.len() as int) == prefix {
        Some(s.subrange(prefix.len() as int, s.len() as int))
    } else {
        None
    }
}

/// A declaration from `<!` at `k` to `>` (or the end): `DOCTYPE` or `doctype`,
/// a space and a target; the node holds the target, trimmed.
pub open spec fn doctype_spec(t: Seq<Token>, k: int) -> Result<(NodeM, int), Failure> {
    let start = tspan(t, k);
    if tchar(t, k) != Some('<') {
        Err(expected_char_failure(t, k, '<'))
    } else if tchar(t, k + 1) != Some('!') {
        Err(expected_char_failure(t, k + 1, '!'))
    } else {
        match doctype_end(t, k + 2) {
            Err(f) => Err(f),
            Ok(end) => {
                let next = if tchar(t, end) == Some('>') { end + 1 } else { end };
                let trimmed = trim_spec(chars_between(t, k + 2, end));
                let after = match without_prefix(trimmed, "DOCTYPE "@) {
                    Some(rest) => Some(rest),
                    None => without_prefix(trimmed, "doctype "@),
                };
                match after {
                    None => Err(Failure {
                        code: "tdom.parse.unknown_declaration"@,
                        message: "Only well formed DOCTYPE declarations are supported."@,
                        span: start,
                    }),
                    Some(rest) => if trim_spec(rest).len() == 0 {
                        Err(Failure {
                            code: "tdom.parse.missing_declaration"@,
                            message: "DOCTYPE declarations must include a target."@,
                            span: start,
                        })
                    } else {
                        Ok((
                            NodeM::Doctype { text: trim_spec(rest), span: merge_span_opt_spec(start, tspan(t, next - 1)) },
                            next,
                        ))
                    },
                }
            },
        }
    }
}

/// A tag from `<` at `k`: its start tag, then (unless it closes itself or is a
/// void element) its children up to its end tag.
pub open spec fn tag_spec(t: Seq<Token>, k: int) -> Result<(NodeM, int), Failure>
    decreases t.len() - k, 0int,
{
    let start = tspan(t, k);
    if tchar(t, k) != Some('<') {
        Err(expected_char_failure(t, k, '<'))
    } else {
        match tag_name_spec(t, k + 1) {
            Err(f) => Err(f),
            Ok((tag, after)) => match attrs_spec(t, after, start, Seq::empty()) {
                Err(f) => Err(f),
                Ok((attrs, self_closing, next)) => if self_closing || (tag matches TagM::Literal(name) && void_tag_spec(name)) {
                    Ok((tag_node(tag, attrs, Seq::empty(), true, start, None), next))
                } else if advances(t, k, next) {
                    let raw = tag matches TagM::Literal(name) && raw_text_tag_spec(name);
                    match nodes_spec(t, next, Some(tag), raw, Seq::empty()) {
                        Err(f) => Err(f),
                        Ok((children, end_tag, end)) => Ok((tag_node(tag, attrs, children, false, start, end_tag), end)),
                    }
                } else {
                    Err(expected_char_failure(t, k, '<'))
                },
            },
        }
    }
}

/// The name of an element tag.
pub open spec fn literal_name(tag: Option<TagM>) -> Option<Seq<char>> {
    match tag {
        Some(TagM::Literal(name)) => Some(name),
        _ => None,
    }
}

/// The nodes from `k` on, after those in `acc`: up to the end of the stream at
/// the top level, or up to the end tag of `closing`, with the interpolation
/// that closes a component. In raw-text mode the content is raw text and
/// interpolations only.
pub open spec fn nodes_spec(t: Seq<Token>, k: int, closing: Option<TagM>, raw: bool, acc: Seq<NodeM>) -> Result<(Seq<NodeM>, Option<InterpolationNode>, int), Failure>
    decreases t.len() - k, 1int,
{
    if at_end(t, k) {
        match closing {
            Some(TagM::Literal(name)) => Err(Failure {
                code: "tdom.parse.unclosed_tag"@,
                message: "Unclosed tag <"@ + name + ">."@,
                span: if 0 <= k < t.len() { tspan(t, k) } else { None },
            }),
            Some(TagM::Component(i)) => Err(Failure {
                code: "tdom.parse.unclosed_tag"@,
                message: "Unclosed component tag <"@ + source_or_braces(i) + ">."@,
                span: if 0 <= k < t.len() { tspan(t, k) } else { None },
            }),
            None => Ok((acc, None, k)),
        }
    } else if closing is Some && tstarts(t, k, seq!['<', '/']) {
        match close_tag_spec(t, k, closing->Some_0) {
            Err(f) => Err(f),
            Ok((end_tag, end)) => Ok((acc, end_tag, end)),
        }
    } else if raw && literal_name(closing) is Some {
        match raw_chunk_spec(t, k, literal_name(closing)->Some_0) {
            Some((n, next)) => if advances(t, k, next) {
                nodes_spec(t, next, closing, raw, acc.push(n))
            } else {
                Ok((acc, None, k))
            },
            None => Ok((acc, None, k)),
        }
    } else if tstarts(t, k, "<!--"@) {
        match comment_spec(t, k) {
            Err(f) => Err(f),
            Ok((n, next)) => if advances(t, k, next) { nodes_spec(t, next, closing, raw, acc.push(n)) } else { Ok((acc, None, k)) },
        }
    } else if tstarts(t, k, seq!['<', '!']) {
        match doctype_spec(t, k) {
            Err(f) => Err(f),
            Ok((n, next)) => if advances(t, k, next) { nodes_spec(t, next, closing, raw, acc.push(n)) } else { Ok((acc, None, k)) },
        }
    } else if tchar(t, k) == Some('<') {
        match tag_spec(t, k) {
            Err(f) => Err(f),
            Ok((n, next)) => if advances(t, k, next) { nodes_spec(t, next, closing, raw, acc.push(n)) } else { Ok((acc, None, k)) },
        }
    } else if tinterp(t, k) is Some {
        nodes_spec(t, k + 1, closing, raw, acc.push(NodeM::Interpolation(tinterp(t, k)->Some_0)))
    } else {
        let end = text_end(t, k);
        if advances(t, k, end) {
            nodes_spec(t, end, closing, raw, acc.push(NodeM::Text { value: chars_between(t, k, end), span: span_fold(t, k, end, tspan(t, k)) }))
        } else {
            Ok((acc, None, k))
        }
    }
}

/// The document a token stream parses to: its nodes and their span.
pub open spec fn document_spec(t: Seq<Token>) -> Result<(Seq<NodeM>, Option<SourceSpan>), Failure> {
    match nodes_spec(t, 0, None, false, Seq::empty()) {
        Err(f) => Err(f),
        Ok((ns, _, _)) => Ok((ns, nodes_m_span(ns))),
    }
}

pub proof fn lemma_nodes_model_push(ns: Seq<Node>, n: Node)
    ensures
        nodes_model(ns.push(n)) == nodes_model(ns).push(node_model(n)),
{
    assert(ns.push(n).subrange(0, ns.len() as int) == ns);
}

pub proof fn lemma_attrs_model_push(attrs: Seq<AttributeLike>, a: AttributeLike)
    ensures
        attrs_model(attrs.push(a)) == attrs_model(attrs).push(attr_model(a)),
{
    assert(attrs_model(attrs.push(a)) =~= attrs_model(attrs).push(attr_model(a)));
}

pub proof fn lemma_parts_model_push(parts: Seq<ValuePart>, p: ValuePart)
    ensures
        parts_model(parts.push(p)) == parts_model(parts).push(part_model(p)),
{
    assert(parts_model(parts.push(p)) =~= parts_model(parts).push(part_model(p)));
}

pub proof fn lemma_raw_end_ge(t: Seq<Token>, k: int, name: Seq<char>)
    ensures
        raw_end(t, k, name) >= k,
    decreases t.len() - k,
{
    if 0 <= k < t.len() && !(t[k] is Eof) && !close_tag_at(t, k, name) && !(t[k] is Interpolation) {
        lemma_raw_end_ge(t, k + 1, name);
    }
}

pub proof fn lemma_nodes_m_span(ns: Seq<Node>)
    ensures
        nodes_m_span(nodes_model(ns)) == children_span(ns),
    decreases ns.len(),
{
    if ns.len() > 0 {
        let init = ns.drop_last();
        assert(ns == init.push(ns.last()));
        lemma_nodes_model_push(init, ns.last());
        lemma_nodes_m_span(init);
        assert(nodes_model(ns).drop_last() == nodes_model(init));
        assert(node_m_span(node_model(ns.last())) == node_span_spec(ns.last()));
    }
}

} // verus!
