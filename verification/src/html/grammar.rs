//! What the HTML parser gives for a token stream, stated as functions on the
//! tokens: the value of each node it builds and the position it stops at, or
//! the failure it reports.

use vstd::prelude::*;
use crate::syntax::{SourceSpan, BackendError, ErrorKind, error_is, merge_span_opt_spec};
use crate::text::{is_unicode_whitespace, trim_spec};
use super::parser::{Token, tchar, tws, tspan, tstarts, tfolded, interpolation_node_of, children_span, node_span_spec};
use super::ast::{
    Node, AttributeLike, ValuePart, InterpolationNode, name_char, raw_text_tag_spec, component_name_spec,
};
use super::validate::Failure;

verus! {

/// The value of an attribute value part.
pub enum PartM {
    Text(Seq<char>),
    Interpolation(InterpolationNode),
}

/// The value of an attribute: a named one with its value (quoted or not, and
/// its parts), or a spread.
pub enum AttrM {
    Attribute { name: Seq<char>, value: Option<(bool, Seq<PartM>)>, span: Option<SourceSpan> },
    Spread { interpolation: InterpolationNode, span: Option<SourceSpan> },
}

/// The value of a node: the syntax tree with texts as character sequences and
/// children as sequences.
pub enum NodeM {
    Fragment { children: Seq<NodeM>, span: Option<SourceSpan> },
    Element { name: Seq<char>, attributes: Seq<AttrM>, children: Seq<NodeM>, self_closing: bool, span: Option<SourceSpan> },
    ComponentTag { name: Seq<char>, attributes: Seq<AttrM>, children: Seq<NodeM>, self_closing: bool, span: Option<SourceSpan> },
    Text { value: Seq<char>, span: Option<SourceSpan> },
    Interpolation(InterpolationNode),
    Comment { value: Seq<char>, span: Option<SourceSpan> },
    Doctype { value: Seq<char>, span: Option<SourceSpan> },
    RawTextElement { name: Seq<char>, attributes: Seq<AttrM>, children: Seq<NodeM>, span: Option<SourceSpan> },
}

pub open spec fn part_model(p: ValuePart) -> PartM {
    match p {
        ValuePart::Text(t) => PartM::Text(t@),
        ValuePart::Interpolation(i) => PartM::Interpolation(i),
    }
}

pub open spec fn parts_model(ps: Seq<ValuePart>) -> Seq<PartM> {
    ps.map_values(|p: ValuePart| part_model(p))
}

pub open spec fn attr_model(a: AttributeLike) -> AttrM {
    match a {
        AttributeLike::Attribute(at) => AttrM::Attribute {
            name: at.name@,
            value: match at.value {
                Some(v) => Some((v.quoted, parts_model(v.parts@))),
                None => None,
            },
            span: at.span,
        },
        AttributeLike::SpreadAttribute(s) => AttrM::Spread { interpolation: s.interpolation, span: s.span },
    }
}

pub open spec fn attrs_model(attrs: Seq<AttributeLike>) -> Seq<AttrM> {
    attrs.map_values(|a: AttributeLike| attr_model(a))
}

pub open spec fn node_model(n: Node) -> NodeM
    decreases n,
{
    match n {
        Node::Fragment(f) => NodeM::Fragment { children: nodes_model(f.children@), span: f.span },
        Node::Element(e) => NodeM::Element {
            name: e.name@,
            attributes: attrs_model(e.attributes@),
            children: nodes_model(e.children@),
            self_closing: e.self_closing,
            span: e.span,
        },
        Node::ComponentTag(c) => NodeM::ComponentTag {
            name: c.name@,
            attributes: attrs_model(c.attributes@),
            children: nodes_model(c.children@),
            self_closing: c.self_closing,
            span: c.span,
        },
        Node::Text(t) => NodeM::Text { value: t.value@, span: t.span },
        Node::Interpolation(i) => NodeM::Interpolation(i),
        Node::Comment(c) => NodeM::Comment { value: c.value@, span: c.span },
        Node::Doctype(d) => NodeM::Doctype { value: d.value@, span: d.span },
        Node::RawTextElement(r) => NodeM::RawTextElement {
            name: r.name@,
            attributes: attrs_model(r.attributes@),
            children: nodes_model(r.children@),
            span: r.span,
        },
    }
}

pub open spec fn nodes_model(ns: Seq<Node>) -> Seq<NodeM>
    decreases ns,
{
    if ns.len() == 0 {
        Seq::empty()
    } else {
        nodes_model(ns.subrange(0, ns.len() - 1)).push(node_model(ns[ns.len() - 1]))
    }
}

/// The span of node values: from the first span present to the last.
pub open spec fn node_m_span(n: NodeM) -> Option<SourceSpan> {
    match n {
        NodeM::Fragment { span, .. } => span,
        NodeM::Element { span, .. } => span,
        NodeM::ComponentTag { span, .. } => span,
        NodeM::Text { span, .. } => span,
        NodeM::Interpolation(i) => i.span,
        NodeM::Comment { span, .. } => span,
        NodeM::Doctype { span, .. } => span,
        NodeM::RawTextElement { span, .. } => span,
    }
}

pub open spec fn nodes_m_span(ns: Seq<NodeM>) -> Option<SourceSpan>
    decreases ns.len(),
{
    if ns.len() == 0 {
        None
    } else {
        merge_span_opt_spec(nodes_m_span(ns.drop_last()), node_m_span(ns.last()))
    }
}

/// `e` is the parse error that reports `f`.
pub open spec fn parse_reports(e: BackendError, f: Failure) -> bool {
    error_is(e, ErrorKind::Parse, f.code, f.message, f.span)
}

/// `next` is a position after `k` within the stream.
pub open spec fn advances(t: Seq<Token>, k: int, next: int) -> bool {
    k < next <= t.len()
}

/// Whether the token at `k` ends the stream.
pub open spec fn at_end(t: Seq<Token>, k: int) -> bool {
    !(0 <= k < t.len()) || t[k] is Eof
}

/// The interpolation node of the token at `k`, when it is an interpolation.
pub open spec fn tinterp(t: Seq<Token>, k: int) -> Option<InterpolationNode> {
    if 0 <= k < t.len() {
        match t[k] {
            Token::Interpolation(i, span) => Some(interpolation_node_of(i, span)),
            _ => None,
        }
    } else {
        None
    }
}

/// Whether the token at `k` is a character of a name (of the class that
/// starts one when `first`).
pub open spec fn tname_char(t: Seq<Token>, k: int, first: bool) -> bool {
    match tchar(t, k) {
        Some(c) => name_char(c, first),
        None => false,
    }
}

/// Whether the token at `k` is a character of text: any but `<`.
pub open spec fn ttext_char(t: Seq<Token>, k: int) -> bool {
    match tchar(t, k) {
        Some(c) => c != '<',
        None => false,
    }
}

/// Whether the token at `k` continues an unquoted attribute value.
pub open spec fn tunquoted_char(t: Seq<Token>, k: int) -> bool {
    match tchar(t, k) {
        Some(c) => !is_unicode_whitespace(c) && c != '>' && !tstarts(t, k, seq!['/', '>']),
        None => false,
    }
}

pub open spec fn char_at(t: Seq<Token>, k: int) -> char {
    match tchar(t, k) {
        Some(c) => c,
        None => ' ',
    }
}

/// The characters of the tokens from `i` up to `j`.
pub open spec fn chars_between(t: Seq<Token>, i: int, j: int) -> Seq<char> {
    Seq::new((j - i) as nat, |k: int| char_at(t, i + k))
}

/// The spans of the tokens from `i` up to `j` merged, one after the other, into
/// `acc`.
pub open spec fn span_fold(t: Seq<Token>, i: int, j: int, acc: Option<SourceSpan>) -> Option<SourceSpan>
    decreases j - i,
{
    if i >= j {
        acc
    } else {
        span_fold(t, i + 1, j, merge_span_opt_spec(acc, tspan(t, i)))
    }
}

/// Where the whitespace that starts at `k` ends.
pub open spec fn skip_ws(t: Seq<Token>, k: int) -> int
    decreases t.len() - k,
{
    if 0 <= k < t.len() && tws(t, k) {
        skip_ws(t, k + 1)
    } else {
        k
    }
}

/// How many name characters start at `k` (the first of the class that starts
/// a name when `first`).
pub open spec fn name_len(t: Seq<Token>, k: int, first: bool) -> nat
    decreases t.len() - k,
{
    if 0 <= k < t.len() && tname_char(t, k, first) {
        1 + name_len(t, k + 1, false)
    } else {
        0
    }
}

pub open spec fn expected_name_failure(t: Seq<Token>, k: int) -> Failure {
    Failure { code: "html.parse.expected_name"@, message: "Expected a tag or attribute name."@, span: tspan(t, k) }
}

/// A name: at least one name character.
pub open spec fn name_spec(t: Seq<Token>, k: int) -> Result<(Seq<char>, int), Failure> {
    let n = name_len(t, k, true);
    if n == 0 {
        Err(expected_name_failure(t, k))
    } else {
        Ok((chars_between(t, k, k + n), k + n))
    }
}

pub open spec fn expected_char_failure(t: Seq<Token>, k: int, c: char) -> Failure {
    Failure { code: "html.parse.expected_char"@, message: "Expected '"@ + seq![c] + "'."@, span: tspan(t, k) }
}

/// Where a run of text ends: at `<`, an interpolation or the end.
pub open spec fn text_end(t: Seq<Token>, k: int) -> int
    decreases t.len() - k,
{
    if 0 <= k < t.len() && ttext_char(t, k) {
        text_end(t, k + 1)
    } else {
        k
    }
}

/// Where the raw text of an element named `name` ends: at its closing tag, an
/// interpolation or the end.
pub open spec fn raw_end(t: Seq<Token>, k: int, name: Seq<char>) -> int
    decreases t.len() - k,
{
    if 0 <= k < t.len() && !(t[k] is Eof) && !tstarts(t, k, seq!['<', '/'] + name) && tchar(t, k) is Some {
        raw_end(t, k + 1, name)
    } else {
        k
    }
}

/// The next piece of raw text: a text up to the next interpolation or the
/// closing tag, or the interpolation itself.
pub open spec fn raw_chunk_spec(t: Seq<Token>, k: int, name: Seq<char>) -> Option<(NodeM, int)> {
    let end = raw_end(t, k, name);
    if end > k {
        Some((NodeM::Text { value: chars_between(t, k, end), span: span_fold(t, k, end, None) }, end))
    } else if tinterp(t, k) is Some {
        Some((NodeM::Interpolation(tinterp(t, k)->Some_0), k + 1))
    } else {
        None
    }
}

/// Where a comment's content ends, or the failure of an interpolation in it.
pub open spec fn comment_end(t: Seq<Token>, k: int) -> Result<int, Failure>
    decreases t.len() - k,
{
    if at_end(t, k) || tstarts(t, k, "-->"@) {
        Ok(k)
    } else {
        match t[k] {
            Token::Interpolation(_, span) => Err(Failure {
                code: "html.parse.comment_interpolation"@,
                message: "Interpolations are not allowed inside HTML comments."@,
                span,
            }),
            _ => comment_end(t, k + 1),
        }
    }
}

/// A comment from `<!--` at `k` to `-->`.
pub open spec fn comment_spec(t: Seq<Token>, k: int) -> Result<(NodeM, int), Failure> {
    let start = tspan(t, k);
    match comment_end(t, k + 4) {
        Err(f) => Err(f),
        Ok(end) => if tstarts(t, end, "-->"@) {
            Ok((NodeM::Comment { value: chars_between(t, k + 4, end), span: start }, end + 3))
        } else {
            Err(Failure { code: "html.parse.comment_unclosed"@, message: "Unclosed HTML comment."@, span: start })
        },
    }
}

/// Whether `<!DOCTYPE` starts at `k`, letters in any case.
pub open spec fn doctype_start(t: Seq<Token>, k: int) -> bool {
    forall|j: int| 0 <= j < 9 ==> #[trigger] tfolded(t, k + j, "<!DOCTYPE"@[j])
}

/// Where a declaration's content ends, or the failure of an interpolation in it.
pub open spec fn doctype_end(t: Seq<Token>, k: int) -> Result<int, Failure>
    decreases t.len() - k,
{
    if at_end(t, k) || tchar(t, k) == Some('>') {
        Ok(k)
    } else {
        match t[k] {
            Token::Interpolation(_, span) => Err(Failure {
                code: "html.parse.doctype_interpolation"@,
                message: "Interpolations are not allowed inside a doctype."@,
                span,
            }),
            _ => doctype_end(t, k + 1),
        }
    }
}

/// A declaration from `<!` at `k` to `>` (or the end), its content trimmed.
pub open spec fn doctype_spec(t: Seq<Token>, k: int) -> Result<(NodeM, int), Failure> {
    let start = tspan(t, k);
    if tchar(t, k) != Some('<') {
        Err(expected_char_failure(t, k, '<'))
    } else if tchar(t, k + 1) != Some('!') {
        Err(expected_char_failure(t, k + 1, '!'))
    } else {
        match doctype_end(t, k + 2) {
            Err(f) => Err(f),
            Ok(end) => Ok((
                NodeM::Doctype { value: trim_spec(chars_between(t, k + 2, end)), span: start },
                if tchar(t, end) == Some('>') { end + 1 } else { end },
            )),
        }
    }
}

/// Adds the pending text to the parts when it is not empty.
pub open spec fn flush(parts: Seq<PartM>, text: Seq<char>) -> Seq<PartM> {
    if text.len() > 0 { parts.push(PartM::Text(text)) } else { parts }
}

/// The parts of a quoted value up to the closing quote (or the end).
pub open spec fn quoted_parts(t: Seq<Token>, k: int, quote: char, parts: Seq<PartM>, text: Seq<char>) -> (Seq<PartM>, int)
    decreases t.len() - k,
{
    if at_end(t, k) || tchar(t, k) == Some(quote) {
        (flush(parts, text), k)
    } else {
        match t[k] {
            Token::Interpolation(i, span) => quoted_parts(
                t,
                k + 1,
                quote,
                flush(parts, text).push(PartM::Interpolation(interpolation_node_of(i, span))),
                Seq::empty(),
            ),
            _ => quoted_parts(t, k + 1, quote, parts, text.push(char_at(t, k))),
        }
    }
}

/// Where an unquoted value ends: at whitespace, `>`, `/>`, an interpolation or
/// the end.
pub open spec fn unquoted_end(t: Seq<Token>, k: int) -> int
    decreases t.len() - k,
{
    if 0 <= k < t.len() && tunquoted_char(t, k) {
        unquoted_end(t, k + 1)
    } else {
        k
    }
}

/// An attribute value: quoted (with its parts), a single interpolation, or an
/// unquoted text.
pub open spec fn value_spec(t: Seq<Token>, k: int) -> ((bool, Seq<PartM>), int) {
    if tchar(t, k) == Some('"') || tchar(t, k) == Some('\'') {
        let quote = char_at(t, k);
        let (parts, end) = quoted_parts(t, k + 1, quote, Seq::empty(), Seq::empty());
        ((true, parts), if tchar(t, end) == Some(quote) { end + 1 } else { end })
    } else if tinterp(t, k) is Some {
        ((false, seq![PartM::Interpolation(tinterp(t, k)->Some_0)]), k + 1)
    } else {
        let end = unquoted_end(t, k);
        ((false, seq![PartM::Text(chars_between(t, k, end))]), end)
    }
}

/// An attribute: its name, then, after `=`, its value.
pub open spec fn attribute_spec(t: Seq<Token>, k: int) -> Result<(AttrM, int), Failure> {
    let span = tspan(t, k);
    match name_spec(t, k) {
        Err(f) => Err(f),
        Ok((name, after)) => {
            let eq = skip_ws(t, after);
            if tchar(t, eq) != Some('=') {
                Ok((AttrM::Attribute { name, value: None, span }, eq))
            } else {
                let (value, end) = value_spec(t, skip_ws(t, eq + 1));
                Ok((AttrM::Attribute { name, value: Some(value), span }, end))
            }
        },
    }
}

/// The attributes of a start tag and how it ends (`/>` or `>`), with the
/// position after it.
pub open spec fn attrs_spec(t: Seq<Token>, k: int, name: Seq<char>, start: Option<SourceSpan>, acc: Seq<AttrM>) -> Result<(Seq<AttrM>, bool, int), Failure>
    decreases t.len() - k,
{
    let p = skip_ws(t, k);
    if tstarts(t, p, seq!['/', '>']) {
        Ok((acc, true, p + 2))
    } else if tchar(t, p) == Some('>') {
        Ok((acc, false, p + 1))
    } else if at_end(t, p) {
        Err(Failure {
            code: "html.parse.unclosed_start_tag"@,
            message: "Unclosed start tag <"@ + name + ">."@,
            span: start,
        })
    } else if tinterp(t, p) is Some {
        if p >= k {
            let i = tinterp(t, p)->Some_0;
            attrs_spec(t, p + 1, name, start, acc.push(AttrM::Spread { interpolation: i, span: i.span }))
        } else {
            Err(expected_name_failure(t, p))
        }
    } else {
        match attribute_spec(t, p) {
            Err(f) => Err(f),
            Ok((a, next)) => if advances(t, k, next) {
                attrs_spec(t, next, name, start, acc.push(a))
            } else {
                Err(expected_name_failure(t, p))
            },
        }
    }
}

/// The node a tag becomes: a component when its name starts with an uppercase
/// letter, else a raw-text element for the raw-text tags, else an element.
pub open spec fn tag_node(name: Seq<char>, attrs: Seq<AttrM>, children: Seq<NodeM>, self_closing: bool, span: Option<SourceSpan>) -> NodeM {
    if component_name_spec(name) {
        NodeM::ComponentTag { name, attributes: attrs, children, self_closing, span }
    } else if raw_text_tag_spec(name) {
        NodeM::RawTextElement { name, attributes: attrs, children, span }
    } else {
        NodeM::Element { name, attributes: attrs, children, self_closing, span }
    }
}

/// A tag from `<` at `k`: its start tag, then (unless it closes itself) its
/// children up to its end tag.
pub open spec fn tag_spec(t: Seq<Token>, k: int) -> Result<(NodeM, int), Failure>
    decreases t.len() - k, 0int,
{
    let start = tspan(t, k);
    if tchar(t, k) != Some('<') {
        Err(expected_char_failure(t, k, '<'))
    } else {
        match name_spec(t, k + 1) {
            Err(f) => Err(f),
            Ok((name, after)) => match attrs_spec(t, after, name, start, Seq::empty()) {
                Err(f) => Err(f),
                Ok((attrs, self_closing, next)) => if self_closing {
                    Ok((tag_node(name, attrs, Seq::empty(), true, start), next))
                } else if advances(t, k, next) {
                    match nodes_spec(t, next, Some(name), raw_text_tag_spec(name), Seq::empty()) {
                        Err(f) => Err(f),
                        Ok((children, end)) => Ok((
                            tag_node(name, attrs, children, false, merge_span_opt_spec(start, nodes_m_span(children))),
                            end,
                        )),
                    }
                } else {
                    Err(expected_char_failure(t, k, '<'))
                },
            },
        }
    }
}

/// The end tag `</name>` at `k`, or the failure of a missing or mismatched one.
pub open spec fn close_tag_spec(t: Seq<Token>, k: int, name: Seq<char>) -> Result<int, Failure> {
    let close_span = tspan(t, k);
    match name_spec(t, skip_ws(t, k + 2)) {
        Err(f) => Err(f),
        Ok((close_name, after)) => {
            let gt = skip_ws(t, after);
            if tchar(t, gt) != Some('>') {
                Err(expected_char_failure(t, gt, '>'))
            } else if close_name != name {
                Err(Failure {
                    code: "html.parse.mismatched_tag"@,
                    message: "Mismatched closing tag </"@ + close_name + ">. Expected </"@ + name + ">."@,
                    span: close_span,
                })
            } else {
                Ok(gt + 1)
            }
        },
    }
}

/// The nodes from `k` on, after those in `acc`: up to the end of the stream at
/// the top level, or up to the end tag of `closing`. In raw-text mode the
/// content is raw text and interpolations only.
pub open spec fn nodes_spec(t: Seq<Token>, k: int, closing: Option<Seq<char>>, raw: bool, acc: Seq<NodeM>) -> Result<(Seq<NodeM>, int), Failure>
    decreases t.len() - k, 1int,
{
    if at_end(t, k) {
        match closing {
            Some(name) => Err(Failure {
                code: "html.parse.unclosed_tag"@,
                message: "Unclosed tag <"@ + name + ">."@,
                span: if 0 <= k < t.len() { tspan(t, k) } else { None },
            }),
            None => Ok((acc, k)),
        }
    } else if closing is Some && tstarts(t, k, seq!['<', '/']) {
        match close_tag_spec(t, k, closing->Some_0) {
            Err(f) => Err(f),
            Ok(end) => Ok((acc, end)),
        }
    } else if closing is Some && raw {
        match raw_chunk_spec(t, k, closing->Some_0) {
            Some((n, next)) => if advances(t, k, next) {
                nodes_spec(t, next, closing, raw, acc.push(n))
            } else {
                Ok((acc, k))
            },
            None => Ok((acc, k)),
        }
    } else if tstarts(t, k, "<!--"@) {
        match comment_spec(t, k) {
            Err(f) => Err(f),
            Ok((n, next)) => if advances(t, k, next) { nodes_spec(t, next, closing, raw, acc.push(n)) } else { Ok((acc, k)) },
        }
    } else if doctype_start(t, k) {
        match doctype_spec(t, k) {
            Err(f) => Err(f),
            Ok((n, next)) => if advances(t, k, next) { nodes_spec(t, next, closing, raw, acc.push(n)) } else { Ok((acc, k)) },
        }
    } else if tchar(t, k) == Some('<') {
        match tag_spec(t, k) {
            Err(f) => Err(f),
            Ok((n, next)) => if advances(t, k, next) { nodes_spec(t, next, closing, raw, acc.push(n)) } else { Ok((acc, k)) },
        }
    } else if tinterp(t, k) is Some {
        nodes_spec(t, k + 1, closing, raw, acc.push(NodeM::Interpolation(tinterp(t, k)->Some_0)))
    } else {
        let end = text_end(t, k);
        if advances(t, k, end) {
            nodes_spec(t, end, closing, raw, acc.push(NodeM::Text { value: chars_between(t, k, end), span: span_fold(t, k, end, tspan(t, k)) }))
        } else {
            Ok((acc, k))
        }
    }
}

pub proof fn lemma_chars_between_push(t: Seq<Token>, i: int, j: int)
    requires
        i <= j,
    ensures
        chars_between(t, i, j + 1) == chars_between(t, i, j).push(char_at(t, j)),
{
    assert(chars_between(t, i, j + 1) =~= chars_between(t, i, j).push(char_at(t, j)));
}

pub proof fn lemma_chars_between_empty(t: Seq<Token>, i: int)
    ensures
        chars_between(t, i, i) == Seq::<char>::empty(),
{
    assert(chars_between(t, i, i) =~= Seq::<char>::empty());
}

pub proof fn lemma_nodes_model_push(ns: Seq<Node>, n: Node)
    ensures
        nodes_model(ns.push(n)) == nodes_model(ns).push(node_model(n)),
{
    assert(ns.push(n).subrange(0, ns.len() as int) == ns);
}

pub proof fn lemma_attrs_model_push(attrs: Seq<AttributeLike>, a: AttributeLike)
    ensures
        attrs_model(attrs.push(a)) == attrs_model(attrs).push(attr_model(a)),
{
    assert(attrs_model(attrs.push(a)) =~= attrs_model(attrs).push(attr_model(a)));
}

pub proof fn lemma_parts_model_push(parts: Seq<ValuePart>, p: ValuePart)
    ensures
        parts_model(parts.push(p)) == parts_model(parts).push(part_model(p)),
{
    assert(parts_model(parts.push(p)) =~= parts_model(parts).push(part_model(p)));
}

pub proof fn lemma_skip_ws_ge(t: Seq<Token>, k: int)
    ensures
        skip_ws(t, k) >= k,
    decreases t.len() - k,
{
    if 0 <= k < t.len() && tws(t, k) {
        lemma_skip_ws_ge(t, k + 1);
    }
}

pub proof fn lemma_text_end_ge(t: Seq<Token>, k: int)
    ensures
        text_end(t, k) >= k,
    decreases t.len() - k,
{
    if 0 <= k < t.len() && ttext_char(t, k) {
        lemma_text_end_ge(t, k + 1);
    }
}

pub proof fn lemma_raw_end_ge(t: Seq<Token>, k: int, name: Seq<char>)
    ensures
        raw_end(t, k, name) >= k,
    decreases t.len() - k,
{
    if 0 <= k < t.len() && !(t[k] is Eof) && !tstarts(t, k, seq!['<', '/'] + name) && tchar(t, k) is Some {
        lemma_raw_end_ge(t, k + 1, name);
    }
}

pub proof fn lemma_unquoted_end_ge(t: Seq<Token>, k: int)
    ensures
        unquoted_end(t, k) >= k,
    decreases t.len() - k,
{
    if 0 <= k < t.len() && tunquoted_char(t, k) {
        lemma_unquoted_end_ge(t, k + 1);
    }
}

pub proof fn lemma_nodes_m_span(ns: Seq<Node>)
    ensures
        nodes_m_span(nodes_model(ns)) == children_span(ns),
    decreases ns.len(),
{
    if ns.len() > 0 {
        let init = ns.drop_last();
        assert(ns == init.push(ns.last()));
        lemma_nodes_model_push(init, ns.last());
        lemma_nodes_m_span(init);
        assert(nodes_model(ns).drop_last() == nodes_model(init));
        assert(node_m_span(node_model(ns.last())) == node_span_spec(ns.last()));
    }
}

/// The closing tag a nested node list waits for, as characters.
pub open spec fn closing_spec(closing: Option<&str>) -> Option<Seq<char>> {
    match closing {
        Some(name) => Some(name@),
        None => None,
    }
}

/// The document a token stream parses to: its nodes and their span.
pub open spec fn document_spec(t: Seq<Token>) -> Result<(Seq<NodeM>, Option<SourceSpan>), Failure> {
    match nodes_spec(t, 0, None, false, Seq::empty()) {
        Err(f) => Err(f),
        Ok((ns, _)) => Ok((ns, nodes_m_span(ns))),
    }
}

} // verus!
