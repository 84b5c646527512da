//! The TDOM template parser: a recursive-descent parser over the character
//! stream of a template, where a tag name or an attribute may be a single
//! interpolation.

use vstd::prelude::*;
use crate::syntax::{
    SourceSpan, TemplateInterpolation, TemplateInput, StreamItem, BackendError, BackendResult, ErrorKind,
    error_is, flatten_spec, merge_span_opt, merge_span_opt_spec, clone_opt_string,
};
use crate::text::{
    chars_of, push_char, is_whitespace, is_unicode_whitespace, string_of_char, concat3, concat5, str_eq, trim,
    trim_spec, ascii_lower, ascii_lower_spec, ascii_lowercase, ascii_lower_seq, eq_ignore_ascii_case,
    strip_prefix,
};
use crate::html::parser::{template_tokens, Token, token_of, tchar, tws, tname_start, tspan, tstarts, tfolded};
use crate::html::grammar::{
    skip_ws, name_len, chars_between, char_at, text_end, span_fold, ttext_char, lemma_chars_between_push,
    lemma_chars_between_empty, lemma_text_end_ge,
};
use super::grammar::{
    name_spec, parse_reports, tinterp, singleton_failure, tag_name_spec, TagM, close_tag_at, raw_end,
    raw_chunk_spec, lemma_raw_end_ge, node_model, comment_spec, comment_parts, doctype_spec, doctype_end, PartM,
    parts_model, lemma_parts_model_push, part_model, close_tag_spec, tag_spec, nodes_spec, tag_node, attrs_model,
    nodes_model, attrs_spec, AttrM, NodeM, lemma_attrs_model_push, lemma_nodes_model_push, lemma_nodes_m_span,
    document_spec, attr_model, value_spec, value_parts, attribute_spec,
};
use crate::html::ast::{name_char, valid_name, is_name_char, is_raw_text_tag, raw_text_tag_spec, is_void_html_tag};
use super::ast::{
    Node, TextNode, InterpolationNode, CommentNode, DoctypeNode, ElementNode, ComponentTagNode,
    RawTextElementNode, AttributeLike, LiteralAttribute, InterpolatedAttribute, TemplatedAttribute,
    SpreadAttribute, ValuePart, Document,
};

use crate::html::validate::Failure;

verus! {

pub(crate) struct Parser {
    pub(crate) tokens: Vec<Token>,
    pub(crate) index: usize,
}

fn parse_error(code: &str, message: String, span: Option<SourceSpan>) -> (r: BackendError)
    ensures
        error_is(r, ErrorKind::Parse, code@, message@, span),
{
    BackendError::parse_at(code.to_owned(), message, span)
}

/// A tag name as the parser reads it: a name folded to lower case, or a single
/// interpolation.
pub enum TagName {
    Literal(String),
    Component(InterpolationNode),
}

/// The tag whose end the parser looks for.
pub enum OpenTag {
    Literal(String),
    Component(InterpolationNode),
}

/// A name as tags carry it: a valid name with no ASCII capital letter.
pub open spec fn lower_name(s: Seq<char>) -> bool {
    valid_name(s) && forall|i: int| 0 <= i < s.len() ==> !('A' <= #[trigger] s[i] <= 'Z')
}

/// Raw-text content is text and interpolations only.
pub open spec fn raw_children(ns: Seq<Node>) -> bool {
    forall|i: int| 0 <= i < ns.len() ==> (#[trigger] ns[i] is Text || ns[i] is Interpolation)
}

/// The shape of what the parser produces: tag names in lower case and classed
/// by name (raw-text elements are the raw-text tags), raw-text elements holding
/// text and interpolations only, self-closing tags without children, and texts
/// that are not empty.
pub open spec fn node_wf(n: Node) -> bool
    decreases n,
{
    match n {
        Node::Element(e) => lower_name(e.name@) && !raw_text_tag_spec(e.name@) && nodes_wf(e.children@)
            && (e.self_closing ==> e.children@.len() == 0),
        Node::RawTextElement(r) => lower_name(r.name@) && raw_text_tag_spec(r.name@) && raw_children(r.children@)
            && (r.self_closing ==> r.children@.len() == 0),
        Node::ComponentTag(c) => nodes_wf(c.children@) && (c.self_closing ==> c.children@.len() == 0 && c.end_tag is None),
        Node::Text(t) => t.value@.len() > 0,
        Node::Fragment(f) => nodes_wf(f.children@),
        _ => true,
    }
}

pub open spec fn nodes_wf(ns: Seq<Node>) -> bool
    decreases ns,
{
    if ns.len() == 0 {
        true
    } else {
        nodes_wf(ns.subrange(0, ns.len() - 1)) && node_wf(ns[ns.len() - 1])
    }
}

proof fn lemma_nodes_wf_push(ns: Seq<Node>, n: Node)
    ensures
        nodes_wf(ns.push(n)) == (nodes_wf(ns) && node_wf(n)),
{
    assert(ns.push(n).subrange(0, ns.len() as int) == ns);
}

/// The span of a sequence of nodes: from the first span present to the last.
pub open spec fn children_span(ns: Seq<Node>) -> Option<SourceSpan>
    decreases ns.len(),
{
    if ns.len() == 0 {
        None
    } else {
        merge_span_opt_spec(children_span(ns.drop_last()), node_span_spec(ns.last()))
    }
}

pub open spec fn node_span_spec(n: Node) -> Option<SourceSpan> {
    match n {
        Node::Fragment(x) => x.span,
        Node::Element(x) => x.span,
        Node::ComponentTag(x) => x.span,
        Node::Text(x) => x.span,
        Node::Interpolation(x) => x.span,
        Node::Comment(x) => x.span,
        Node::Doctype(x) => x.span,
        Node::RawTextElement(x) => x.span,
    }
}

fn node_span(node: &Node) -> (r: Option<SourceSpan>)
    ensures
        r == node_span_spec(*node),
{
    match node {
        Node::Fragment(x) => x.span,
        Node::Element(x) => x.span,
        Node::ComponentTag(x) => x.span,
        Node::Text(x) => x.span,
        Node::Interpolation(x) => x.span,
        Node::Comment(x) => x.span,
        Node::Doctype(x) => x.span,
        Node::RawTextElement(x) => x.span,
    }
}

fn merge_children_span(children: &Vec<Node>) -> (r: Option<SourceSpan>)
    ensures
        r == children_span(children@),
{
    let mut acc: Option<SourceSpan> = None;
    let mut i: usize = 0;
    while i < children.len()
        invariant
            i <= children@.len(),
            acc == children_span(children@.subrange(0, i as int)),
        decreases children.len() - i,
    {
        proof {
            let p = children@.subrange(0, i + 1);
            assert(p.drop_last() == children@.subrange(0, i as int));
            assert(p.last() == children@[i as int]);
        }
        acc = merge_span_opt(acc, node_span(&children[i]));
        i += 1;
    }
    proof {
        assert(children@.subrange(0, children@.len() as int) == children@);
    }
    acc
}

/// The interpolation node a token's interpolation becomes.
pub open spec fn interpolation_node_of(i: TemplateInterpolation, span: Option<SourceSpan>) -> InterpolationNode {
    InterpolationNode {
        interpolation_index: i.interpolation_index,
        expression: i.expression,
        raw_source: i.raw_source,
        conversion: i.conversion,
        format_spec: i.format_spec,
        span,
    }
}

fn raw_source_or_braces(i: &InterpolationNode) -> (r: String)
    ensures
        r@ == match i.raw_source {
            Some(s) => s@,
            None => "{}"@,
        },
{
    match &i.raw_source {
        Some(s) => s.clone(),
        None => "{}".to_owned(),
    }
}

fn opt_str_eq(a: &Option<String>, b: &Option<String>) -> (r: bool)
    ensures
        r == match (a, b) {
            (Some(x), Some(y)) => x@ == y@,
            (None, None) => true,
            _ => false,
        },
{
    match (a, b) {
        (Some(x), Some(y)) => str_eq(x.as_str(), y.as_str()),
        (None, None) => true,
        _ => false,
    }
}

/// Two component tags name the same callable when their raw sources and
/// expressions agree.
fn interpolation_matches(left: &InterpolationNode, right: &InterpolationNode) -> (r: bool)
    ensures
        r == ((match (left.raw_source, right.raw_source) {
            (Some(x), Some(y)) => x@ == y@,
            (None, None) => true,
            _ => false,
        }) && left.expression@ == right.expression@),
{
    opt_str_eq(&left.raw_source, &right.raw_source) && str_eq(left.expression.as_str(), right.expression.as_str())
}

impl Parser {
    pub(crate) open spec fn wf(&self) -> bool {
        &&& self.tokens@.len() > 0
        &&& self.tokens@.len() <= usize::MAX
        &&& self.tokens@.last() is Eof
        &&& self.index < self.tokens@.len()
    }

    pub(crate) open spec fn at_eof(&self) -> bool {
        self.tokens@[self.index as int] is Eof
    }

    pub(crate) open spec fn at_interpolation(&self) -> bool {
        self.tokens@[self.index as int] is Interpolation
    }

    /// `self` is a well-formed parser over the tokens of `old`, no further back.
    pub(crate) open spec fn moved_from(&self, old: Parser) -> bool {
        &&& self.wf()
        &&& self.tokens@ == old.tokens@
        &&& old.index <= self.index
    }

    pub(crate) fn new(input: &TemplateInput) -> (r: Self)
        ensures
            r.wf(),
            r.index == 0,
            r.tokens@ == flatten_spec(input.segments@).map_values(|item: StreamItem| token_of(item)),
    {
        let stream = crate::html::parser::Parser::new(input);
        Parser { tokens: stream.tokens, index: 0 }
    }

    fn current(&self) -> (r: &Token)
        requires
            self.wf(),
        ensures
            *r == self.tokens@[self.index as int],
    {
        &self.tokens[self.index]
    }

    fn current_char(&self) -> (r: Option<char>)
        requires
            self.wf(),
        ensures
            r == tchar(self.tokens@, self.index as int),
    {
        match self.current() {
            Token::Char(ch, _) => Some(*ch),
            _ => None,
        }
    }

    fn current_is_char(&self, expected: char) -> (r: bool)
        requires
            self.wf(),
        ensures
            r == (tchar(self.tokens@, self.index as int) == Some(expected)),
    {
        match self.current_char() {
            Some(c) => c == expected,
            None => false,
        }
    }

    fn current_is_whitespace(&self) -> (r: bool)
        requires
            self.wf(),
        ensures
            r == tws(self.tokens@, self.index as int),
    {
        match self.current_char() {
            Some(c) => is_whitespace(c),
            None => false,
        }
    }

    fn current_span(&self) -> (r: Option<SourceSpan>)
        requires
            self.wf(),
        ensures
            r == tspan(self.tokens@, self.index as int),
    {
        match self.current() {
            Token::Char(_, span) => *span,
            Token::Interpolation(_, span) => *span,
            Token::Eof => None,
        }
    }

    /// The span of the token before the current one, if any.
    fn previous_span(&self) -> (r: Option<SourceSpan>)
        requires
            self.wf(),
        ensures
            r == if self.index == 0 { None } else { tspan(self.tokens@, self.index - 1) },
    {
        if self.index == 0 {
            return None;
        }
        match &self.tokens[self.index - 1] {
            Token::Char(_, span) => *span,
            Token::Interpolation(_, span) => *span,
            Token::Eof => None,
        }
    }

    fn is_eof(&self) -> (r: bool)
        requires
            self.wf(),
        ensures
            r == self.at_eof(),
    {
        match self.current() {
            Token::Eof => true,
            _ => false,
        }
    }

    fn is_interpolation(&self) -> (r: bool)
        requires
            self.wf(),
        ensures
            r == self.at_interpolation(),
    {
        match self.current() {
            Token::Interpolation(_, _) => true,
            _ => false,
        }
    }

    fn starts_with_chars(&self, value: &Vec<char>) -> (r: bool)
        requires
            self.wf(),
        ensures
            r == tstarts(self.tokens@, self.index as int, value@),
    {
        let mut offset: usize = 0;
        while offset < value.len()
            invariant
                self.wf(),
                offset <= value@.len(),
                forall|k: int| 0 <= k < offset ==> tchar(self.tokens@, self.index + k) == Some(value@[k]),
            decreases value.len() - offset,
        {
            if offset >= self.tokens.len() - self.index {
                proof {
                    assert(tchar(self.tokens@, self.index + offset) != Some(value@[offset as int]));
                }
                return false;
            }
            match &self.tokens[self.index + offset] {
                Token::Char(ch, _) => {
                    if *ch != value[offset] {
                        proof {
                            assert(tchar(self.tokens@, self.index + offset) != Some(value@[offset as int]));
                        }
                        return false;
                    }
                },
                _ => {
                    proof {
                        assert(tchar(self.tokens@, self.index + offset) != Some(value@[offset as int]));
                    }
                    return false;
                },
            }
            offset += 1;
        }
        true
    }

    fn starts_with_literal(&self, value: &str) -> (r: bool)
        requires
            self.wf(),
        ensures
            r == tstarts(self.tokens@, self.index as int, value@),
    {
        let chars = chars_of(value);
        self.starts_with_chars(&chars)
    }

    /// Whether `</name` starts here, the letters of the name in any case,
    /// followed by `>` or whitespace.
    fn starts_with_close_tag_ignore_ascii_case(&self, name: &str) -> (r: bool)
        requires
            self.wf(),
        ensures
            r ==> tstarts(self.tokens@, self.index as int, "</"@),
            r == close_tag_at(self.tokens@, self.index as int, name@),
    {
        let ghost t = self.tokens@;
        let ghost k = self.index as int;
        proof {
            reveal_strlit("</");
            assert("</"@ =~= seq!['<', '/']);
        }
        if !self.starts_with_literal("</") {
            return false;
        }
        proof {
            assert("</"@[1] == '/');
            assert(tchar(self.tokens@, self.index + 1) == Some('/'));
        }
        let base = self.index + 2;
        let chars = chars_of(name);
        let mut offset: usize = 0;
        while offset < chars.len()
            invariant
                self.wf(),
                t == self.tokens@,
                k == self.index,
                base == k + 2,
                chars@ == name@,
                base <= self.tokens@.len(),
                offset <= chars@.len(),
                tstarts(t, k, seq!['<', '/']),
                forall|j: int| 0 <= j < offset ==> #[trigger] tfolded(t, k + 2 + j, name@[j]),
            decreases chars.len() - offset,
        {
            if offset >= self.tokens.len() - base {
                proof {
                    assert(!tfolded(t, k + 2 + offset, name@[offset as int]));
                }
                return false;
            }
            match &self.tokens[base + offset] {
                Token::Char(ch, _) => {
                    if ascii_lower(*ch) != ascii_lower(chars[offset]) {
                        proof {
                            assert(!tfolded(t, k + 2 + offset, name@[offset as int]));
                        }
                        return false;
                    }
                },
                _ => {
                    proof {
                        assert(!tfolded(t, k + 2 + offset, name@[offset as int]));
                    }
                    return false;
                },
            }
            offset += 1;
        }
        if chars.len() >= self.tokens.len() - base {
            return false;
        }
        match &self.tokens[base + chars.len()] {
            Token::Char(ch, _) => *ch == '>' || is_whitespace(*ch),
            _ => false,
        }
    }

    fn consume_literal(&mut self, value: &str)
        requires
            old(self).wf(),
            tstarts(old(self).tokens@, old(self).index as int, value@),
        ensures
            final(self).moved_from(*old(self)),
            final(self).index == old(self).index + value@.len(),
    {
        let chars = chars_of(value);
        let mut k: usize = 0;
        while k < chars.len()
            invariant
                self.wf(),
                self.tokens@ == old(self).tokens@,
                chars@ == value@,
                k <= chars@.len(),
                self.index == old(self).index + k,
                tstarts(old(self).tokens@, old(self).index as int, value@),
            decreases chars.len() - k,
        {
            proof {
                assert(tchar(old(self).tokens@, old(self).index + k) == Some(value@[k as int]));
            }
            self.index += 1;
            k += 1;
        }
    }

    fn expect_char(&mut self, expected: char) -> (r: BackendResult<()>)
        requires
            old(self).wf(),
        ensures
            final(self).moved_from(*old(self)),
            r is Ok <==> tchar(old(self).tokens@, old(self).index as int) == Some(expected),
            r is Ok ==> final(self).index == old(self).index + 1,
            r is Err ==> final(self).index == old(self).index,
            r matches Err(e) ==> error_is(e, ErrorKind::Parse, "tdom.parse.expected_char"@,
                "Expected '"@ + seq![expected] + "'."@, tspan(old(self).tokens@, old(self).index as int)),
    {
        if self.current_is_char(expected) {
            self.index += 1;
            Ok(())
        } else {
            let c = string_of_char(expected);
            Err(parse_error("tdom.parse.expected_char", concat3("Expected '", c.as_str(), "'."), self.current_span()))
        }
    }

    fn skip_whitespace(&mut self)
        requires
            old(self).wf(),
        ensures
            final(self).moved_from(*old(self)),
            !tws(final(self).tokens@, final(self).index as int),
            final(self).index == skip_ws(old(self).tokens@, old(self).index as int),
    {
        let ghost t = self.tokens@;
        let ghost k0 = self.index as int;
        while self.current_is_whitespace()
            invariant
                self.moved_from(*old(self)),
                t == self.tokens@,
                skip_ws(t, k0) == skip_ws(t, self.index as int),
            decreases self.tokens@.len() - self.index,
        {
            self.index += 1;
        }
    }

    fn current_is_name_char(&self, is_start: bool) -> (r: bool)
        requires
            self.wf(),
        ensures
            r == (tchar(self.tokens@, self.index as int) matches Some(c) && name_char(c, is_start)),
    {
        match self.current_char() {
            Some(c) => is_name_char(c, is_start),
            None => false,
        }
    }

    fn parse_name(&mut self) -> (r: BackendResult<String>)
        requires
            old(self).wf(),
        ensures
            final(self).moved_from(*old(self)),
            r is Ok <==> tname_start(old(self).tokens@, old(self).index as int),
            r matches Ok(name) ==> valid_name(name@) && final(self).index == old(self).index + name@.len(),
            r matches Err(e) ==> final(self).index == old(self).index && error_is(e, ErrorKind::Parse,
                "tdom.parse.expected_name"@, "Expected a tag or attribute name."@, tspan(old(self).tokens@,
                old(self).index as int)),
            match name_spec(old(self).tokens@, old(self).index as int) {
                Ok((n, next)) => r matches Ok(name) && name@ == n && final(self).index == next,
                Err(f) => r matches Err(e) && parse_reports(e, f),
            },
    {
        let ghost t = self.tokens@;
        let ghost k0 = self.index as int;
        let mut name = String::new();
        proof {
            lemma_chars_between_empty(t, k0);
        }
        while self.current_is_name_char(name.as_str().is_empty())
            invariant
                self.moved_from(*old(self)),
                t == self.tokens@,
                k0 == old(self).index,
                self.index == old(self).index + name@.len(),
                name@.len() == 0 || valid_name(name@),
                name@.len() > 0 ==> tname_start(old(self).tokens@, old(self).index as int),
                name@ == chars_between(t, k0, self.index as int),
                name_len(t, k0, true) == name@.len() + name_len(t, self.index as int, name@.len() == 0),
            decreases self.tokens@.len() - self.index,
        {
            let c = self.current_char().unwrap();
            let ghost before = name@;
            let ghost idx = self.index as int;
            push_char(&mut name, c);
            self.index += 1;
            proof {
                lemma_chars_between_push(t, k0, idx);
                assert(char_at(t, idx) == c);
                if before.len() > 0 {
                    assert forall|i: int| 1 <= i < name@.len() implies name_char(#[trigger] name@[i], false) by {
                        if i < before.len() {
                            assert(name@[i] == before[i]);
                        }
                    }
                }
            }
        }
        if name.as_str().is_empty() {
            Err(parse_error("tdom.parse.expected_name", "Expected a tag or attribute name.".to_owned(), self.current_span()))
        } else {
            Ok(name)
        }
    }

    fn take_interpolation(&mut self) -> (r: Option<InterpolationNode>)
        requires
            old(self).wf(),
        ensures
            final(self).moved_from(*old(self)),
            r is Some <==> old(self).at_interpolation(),
            r is None ==> final(self).index == old(self).index,
            r matches Some(n) ==> final(self).index == old(self).index + 1 && (old(self).tokens@[old(self).index as int] matches Token::Interpolation(i, span)
                && n == interpolation_node_of(i, span)),
            r == tinterp(old(self).tokens@, old(self).index as int),
    {
        let node = match self.current() {
            Token::Interpolation(interpolation, span) => Some(InterpolationNode {
                interpolation_index: interpolation.interpolation_index,
                expression: interpolation.expression.clone(),
                raw_source: clone_opt_string(&interpolation.raw_source),
                conversion: clone_opt_string(&interpolation.conversion),
                format_spec: interpolation.format_spec.clone(),
                span: *span,
            }),
            _ => None,
        };
        if node.is_some() {
            self.index += 1;
        }
        node
    }

    /// A singleton interpolation (a component tag name or a spread attribute)
    /// must not run into another interpolation or into name characters.
    fn ensure_boundary_after_singleton_interpolation(&self, message: &str) -> (r: BackendResult<()>)
        requires
            self.wf(),
        ensures
            r is Err <==> (self.at_interpolation()
                || (tchar(self.tokens@, self.index as int) matches Some(c) && name_char(c, false))),
            r matches Err(e) ==> error_is(e, ErrorKind::Parse, "tdom.parse.singleton_interpolation_required"@,
                message@, tspan(self.tokens@, self.index as int)),
            match singleton_failure(self.tokens@, self.index as int, message@) {
                Some(f) => r matches Err(e) && parse_reports(e, f),
                None => r is Ok,
            },
    {
        if self.is_interpolation() || self.current_is_name_char(false) {
            return Err(parse_error("tdom.parse.singleton_interpolation_required", message.to_owned(), self.current_span()));
        }
        Ok(())
    }

    fn parse_tag_name(&mut self) -> (r: BackendResult<TagName>)
        requires
            old(self).wf(),
        ensures
            final(self).moved_from(*old(self)),
            r is Ok ==> final(self).index > old(self).index,
            r matches Ok(TagName::Literal(name)) ==> lower_name(name@),
            r matches Err(e) ==> e.kind == ErrorKind::Parse,
            match tag_name_spec(old(self).tokens@, old(self).index as int) {
                Ok((m, next)) => r matches Ok(tag) && tag_model(tag) == m && final(self).index == next,
                Err(f) => r matches Err(e) && parse_reports(e, f),
            },
    {
        proof {
            reveal_strlit("Component element tags must have exactly one interpolation.");
        }
        match self.take_interpolation() {
            Some(interpolation) => {
                self.ensure_boundary_after_singleton_interpolation(
                    "Component element tags must have exactly one interpolation.",
                )?;
                return Ok(TagName::Component(interpolation));
            },
            None => {},
        }
        let name = self.parse_name()?;
        let lowered = ascii_lowercase(name.as_str());
        proof {
            assert forall|i: int| 0 <= i < lowered@.len() implies !('A' <= #[trigger] lowered@[i] <= 'Z') by {
                assert(lowered@[i] == ascii_lower_spec(name@[i]));
            }
            assert(name_char(lowered@[0], true)) by {
                assert(lowered@[0] == ascii_lower_spec(name@[0]));
            }
            assert forall|i: int| 1 <= i < lowered@.len() implies name_char(#[trigger] lowered@[i], false) by {
                assert(lowered@[i] == ascii_lower_spec(name@[i]));
                assert(name_char(name@[i], false));
            }
        }
        Ok(TagName::Literal(lowered))
    }

    fn current_is_text_char(&self) -> (r: bool)
        requires
            self.wf(),
        ensures
            r == ttext_char(self.tokens@, self.index as int),
    {
        match self.current_char() {
            Some(c) => c != '<',
            None => false,
        }
    }

    fn parse_text(&mut self) -> (r: TextNode)
        requires
            old(self).wf(),
            ttext_char(old(self).tokens@, old(self).index as int),
        ensures
            final(self).moved_from(*old(self)),
            final(self).index > old(self).index,
            r.value@.len() > 0,
            final(self).index == text_end(old(self).tokens@, old(self).index as int),
            r.value@ == chars_between(old(self).tokens@, old(self).index as int, final(self).index as int),
            r.span == span_fold(old(self).tokens@, old(self).index as int, final(self).index as int,
                tspan(old(self).tokens@, old(self).index as int)),
    {
        let ghost t = self.tokens@;
        let ghost k0 = self.index as int;
        let ghost end = text_end(t, k0);
        proof {
            lemma_text_end_ge(t, k0);
            lemma_chars_between_empty(t, k0);
        }
        let mut value = String::new();
        let mut span = self.current_span();
        while self.current_is_text_char()
            invariant
                self.moved_from(*old(self)),
                t == self.tokens@,
                k0 == old(self).index,
                end == text_end(t, k0),
                self.index == old(self).index + value@.len(),
                text_end(t, self.index as int) == end,
                self.index <= end,
                value@ == chars_between(t, k0, self.index as int),
                span_fold(t, k0, end, tspan(t, k0)) == span_fold(t, self.index as int, end, span),
            decreases self.tokens@.len() - self.index,
        {
            let ghost idx = self.index as int;
            let c = self.current_char().unwrap();
            span = merge_span_opt(span, self.current_span());
            push_char(&mut value, c);
            self.index += 1;
            proof {
                lemma_chars_between_push(t, k0, idx);
                lemma_text_end_ge(t, idx + 1);
            }
        }
        TextNode { value, span }
    }
}

/// The value of a tag name as read.
pub open spec fn tag_model(tag: TagName) -> TagM {
    match tag {
        TagName::Literal(name) => TagM::Literal(name@),
        TagName::Component(i) => TagM::Component(i),
    }
}

/// The value of the tag whose end is looked for.
pub open spec fn open_model(tag: OpenTag) -> TagM {
    match tag {
        OpenTag::Literal(name) => TagM::Literal(name@),
        OpenTag::Component(i) => TagM::Component(i),
    }
}

fn clone_interpolation(i: &InterpolationNode) -> (r: InterpolationNode)
    ensures
        r == *i,
{
    InterpolationNode {
        interpolation_index: i.interpolation_index,
        expression: i.expression.clone(),
        raw_source: clone_opt_string(&i.raw_source),
        conversion: clone_opt_string(&i.conversion),
        format_spec: i.format_spec.clone(),
        span: i.span,
    }
}

/// The node a tag becomes: a component for an interpolation, else a raw-text
/// element for the raw-text tags, else an element. Its span runs from the start
/// tag over the children.
fn build_tag_node_with_end(
    tag: TagName,
    attributes: Vec<AttributeLike>,
    children: Vec<Node>,
    self_closing: bool,
    start: Option<SourceSpan>,
    end_tag: Option<InterpolationNode>,
) -> (r: Node)
    requires
        tag matches TagName::Literal(name) ==> lower_name(name@) && (raw_text_tag_spec(name@) ==> raw_children(children@)),
        nodes_wf(children@),
        self_closing ==> children@.len() == 0 && end_tag is None,
    ensures
        node_wf(r),
        node_model(r) == tag_node(tag_model(tag), attrs_model(attributes@), nodes_model(children@), self_closing, start, end_tag),
{
    let span = merge_span_opt(start, merge_children_span(&children));
    proof {
        lemma_nodes_m_span(children@);
    }
    match tag {
        TagName::Literal(name) => {
            if is_raw_text_tag(name.as_str()) {
                Node::RawTextElement(RawTextElementNode { name, attributes, children, self_closing, span })
            } else {
                Node::Element(ElementNode { name, attributes, children, self_closing, span })
            }
        },
        TagName::Component(start_tag) => Node::ComponentTag(ComponentTagNode {
            start_tag,
            end_tag,
            attributes,
            children,
            self_closing,
            span,
        }),
    }
}

impl Parser {
    /// The next piece of raw text: a text up to the next interpolation or the
    /// closing tag, or the interpolation itself.
    fn parse_raw_text_chunk(&mut self, closing_tag: &str) -> (r: Option<Node>)
        requires
            old(self).wf(),
        ensures
            final(self).moved_from(*old(self)),
            r matches Some(n) ==> final(self).index > old(self).index && (n is Interpolation || (n matches Node::Text(t)
                && t.value@.len() > 0)),
            r is None ==> final(self).index == old(self).index && (old(self).at_eof() || tstarts(old(self).tokens@,
                old(self).index as int, "</"@)),
            match raw_chunk_spec(old(self).tokens@, old(self).index as int, closing_tag@) {
                Some((m, next)) => r matches Some(n) && node_model(n) == m && final(self).index == next,
                None => r is None,
            },
    {
        let ghost t = self.tokens@;
        let ghost k0 = self.index as int;
        let ghost end = raw_end(t, k0, closing_tag@);
        proof {
            lemma_raw_end_ge(t, k0, closing_tag@);
            lemma_chars_between_empty(t, k0);
        }
        let mut text = String::new();
        let mut span: Option<SourceSpan> = None;
        while !self.is_eof() && !self.starts_with_close_tag_ignore_ascii_case(closing_tag) && !self.is_interpolation()
            invariant
                self.moved_from(*old(self)),
                t == self.tokens@,
                k0 == old(self).index,
                end == raw_end(t, k0, closing_tag@),
                self.index == old(self).index + text@.len(),
                raw_end(t, self.index as int, closing_tag@) == end,
                self.index <= end,
                text@ == chars_between(t, k0, self.index as int),
                span_fold(t, k0, end, None) == span_fold(t, self.index as int, end, span),
            decreases self.tokens@.len() - self.index,
        {
            let ghost idx = self.index as int;
            let c = self.current_char().unwrap();
            span = merge_span_opt(span, self.current_span());
            push_char(&mut text, c);
            self.index += 1;
            proof {
                lemma_chars_between_push(t, k0, idx);
                lemma_raw_end_ge(t, idx + 1, closing_tag@);
            }
        }
        if !text.as_str().is_empty() {
            return Some(Node::Text(TextNode { value: text, span }));
        }
        match self.take_interpolation() {
            Some(interpolation) => Some(Node::Interpolation(interpolation)),
            None => None,
        }
    }

    fn parse_comment(&mut self) -> (r: BackendResult<CommentNode>)
        requires
            old(self).wf(),
            tstarts(old(self).tokens@, old(self).index as int, "<!--"@),
        ensures
            final(self).moved_from(*old(self)),
            r is Ok ==> final(self).index > old(self).index,
            r matches Err(e) ==> e.kind == ErrorKind::Parse,
            match comment_spec(old(self).tokens@, old(self).index as int) {
                Ok((m, next)) => r matches Ok(c) && node_model(Node::Comment(c)) == m && final(self).index == next,
                Err(f) => r matches Err(e) && parse_reports(e, f),
            },
    {
        let ghost t = self.tokens@;
        let ghost k0 = self.index as int;
        let start = self.current_span();
        self.consume_literal("<!--");
        proof {
            reveal_strlit("<!--");
            reveal_strlit("-->");
        }
        let mut parts: Vec<ValuePart> = Vec::new();
        let mut text = String::new();
        proof {
            assert(parts_model(parts@) =~= Seq::<PartM>::empty());
            assert(text@ =~= Seq::<char>::empty());
        }
        while !self.is_eof() && !self.starts_with_literal("-->")
            invariant
                self.moved_from(*old(self)),
                t == self.tokens@,
                k0 == old(self).index,
                self.index >= k0 + 4,
                start == tspan(t, k0),
                comment_parts(t, k0 + 4, Seq::empty(), Seq::empty())
                    == comment_parts(t, self.index as int, parts_model(parts@), text@),
            decreases self.tokens@.len() - self.index,
        {
            let ghost idx = self.index as int;
            match self.take_interpolation() {
                Some(interpolation) => {
                    if !text.as_str().is_empty() {
                        let ghost mid = parts@;
                        parts.push(ValuePart::Text(text));
                        proof {
                            lemma_parts_model_push(mid, parts@.last());
                            assert(parts@ == mid.push(parts@.last()));
                        }
                        text = String::new();
                    }
                    let ghost mid = parts@;
                    parts.push(ValuePart::Interpolation(interpolation));
                    proof {
                        lemma_parts_model_push(mid, ValuePart::Interpolation(interpolation));
                        assert(text@ =~= Seq::<char>::empty());
                    }
                },
                None => {
                    let c = self.current_char().unwrap();
                    push_char(&mut text, c);
                    self.index += 1;
                    proof {
                        assert(char_at(t, idx) == c);
                    }
                },
            }
        }
        if !text.as_str().is_empty() {
            let ghost mid = parts@;
            parts.push(ValuePart::Text(text));
            proof {
                lemma_parts_model_push(mid, parts@.last());
                assert(parts@ == mid.push(parts@.last()));
            }
        }
        if !self.starts_with_literal("-->") {
            return Err(parse_error("tdom.parse.comment_unclosed", "Unclosed HTML comment.".to_owned(), start));
        }
        self.consume_literal("-->");
        let end = self.previous_span();
        Ok(CommentNode { parts, span: merge_span_opt(start, end) })
    }

    fn parse_doctype(&mut self) -> (r: BackendResult<DoctypeNode>)
        requires
            old(self).wf(),
        ensures
            final(self).moved_from(*old(self)),
            r is Ok ==> final(self).index > old(self).index,
            r matches Ok(d) ==> d.text@.len() > 0,
            r matches Err(e) ==> e.kind == ErrorKind::Parse,
            match doctype_spec(old(self).tokens@, old(self).index as int) {
                Ok((m, next)) => r matches Ok(d) && node_model(Node::Doctype(d)) == m && final(self).index == next,
                Err(f) => r matches Err(e) && parse_reports(e, f),
            },
    {
        let ghost t = self.tokens@;
        let ghost k0 = self.index as int;
        let start = self.current_span();
        self.expect_char('<')?;
        self.expect_char('!')?;
        proof {
            lemma_chars_between_empty(t, k0 + 2);
        }
        let mut text = String::new();
        while !self.is_eof() && !self.current_is_char('>')
            invariant
                self.moved_from(*old(self)),
                t == self.tokens@,
                k0 == old(self).index,
                self.index >= k0 + 2,
                start == tspan(t, k0),
                tchar(t, k0) == Some('<'),
                tchar(t, k0 + 1) == Some('!'),
                doctype_end(t, k0 + 2) == doctype_end(t, self.index as int),
                text@ == chars_between(t, k0 + 2, self.index as int),
            decreases self.tokens@.len() - self.index,
        {
            let ghost idx = self.index as int;
            match self.current() {
                Token::Char(ch, _) => {
                    push_char(&mut text, *ch);
                    self.index += 1;
                    proof {
                        lemma_chars_between_push(t, k0 + 2, idx);
                    }
                },
                Token::Interpolation(_, span) => {
                    return Err(parse_error(
                        "tdom.parse.doctype_interpolation",
                        "Interpolations are not allowed in declarations.".to_owned(),
                        *span,
                    ));
                },
                Token::Eof => {},
            }
        }
        if self.current_is_char('>') {
            self.index += 1;
        }
        let trimmed = trim(text.as_str());
        let after_doctype = match strip_prefix(trimmed.as_str(), "DOCTYPE ") {
            Some(value) => value,
            None => match strip_prefix(trimmed.as_str(), "doctype ") {
                Some(value) => value,
                None => {
                    return Err(parse_error(
                        "tdom.parse.unknown_declaration",
                        "Only well formed DOCTYPE declarations are supported.".to_owned(),
                        start,
                    ));
                },
            },
        };
        let payload = trim(after_doctype.as_str());
        if payload.as_str().is_empty() {
            return Err(parse_error(
                "tdom.parse.missing_declaration",
                "DOCTYPE declarations must include a target.".to_owned(),
                start,
            ));
        }
        let end = self.previous_span();
        Ok(DoctypeNode { text: payload, span: merge_span_opt(start, end) })
    }

    /// The parts of an attribute value up to the closing quote, or, unquoted,
    /// up to whitespace, `>` or `/>`; one text becomes a literal attribute, one
    /// interpolation an interpolated attribute, and anything else a templated
    /// attribute.
    fn parse_attribute_value(&mut self, name: String, span: Option<SourceSpan>) -> (r: AttributeLike)
        requires
            old(self).wf(),
        ensures
            final(self).moved_from(*old(self)),
            attr_model(r) == value_spec(old(self).tokens@, old(self).index as int, name@, span).0,
            final(self).index == value_spec(old(self).tokens@, old(self).index as int, name@, span).1,
    {
        let ghost t = self.tokens@;
        let ghost k0 = self.index as int;
        let mut parts: Vec<ValuePart> = Vec::new();
        let mut text = String::new();
        proof {
            assert(parts_model(parts@) =~= Seq::<PartM>::empty());
            assert(text@ =~= Seq::<char>::empty());
            reveal_strlit("/>");
            assert("/>"@ =~= seq!['/', '>']);
        }
        let ghost quoted = tchar(t, k0) == Some('"') || tchar(t, k0) == Some('\'');
        let ghost from: int = if quoted { k0 + 1 } else { k0 };
        let ghost quote_opt: Option<char> = if quoted { Some(char_at(t, k0)) } else { None };
        if self.current_is_char('"') || self.current_is_char('\'') {
            let quote = self.current_char().unwrap();
            self.index += 1;
            while !self.is_eof() && !self.current_is_char(quote)
                invariant
                    self.moved_from(*old(self)),
                    t == self.tokens@,
                    k0 == old(self).index,
                    quote_opt == Some(quote),
                    value_parts(t, from, quote_opt, Seq::empty(), Seq::empty())
                        == value_parts(t, self.index as int, quote_opt, parts_model(parts@), text@),
                decreases self.tokens@.len() - self.index,
            {
                let ghost idx = self.index as int;
                match self.take_interpolation() {
                    Some(interpolation) => {
                        if !text.as_str().is_empty() {
                            let ghost mid = parts@;
                            parts.push(ValuePart::Text(text));
                            proof {
                                lemma_parts_model_push(mid, parts@.last());
                                assert(parts@ == mid.push(parts@.last()));
                            }
                            text = String::new();
                        }
                        let ghost mid = parts@;
                        parts.push(ValuePart::Interpolation(interpolation));
                        proof {
                            lemma_parts_model_push(mid, ValuePart::Interpolation(interpolation));
                            assert(text@ =~= Seq::<char>::empty());
                        }
                    },
                    None => {
                        let c = self.current_char().unwrap();
                        push_char(&mut text, c);
                        self.index += 1;
                        proof {
                            assert(char_at(t, idx) == c);
                        }
                    },
                }
            }
            if self.current_is_char(quote) {
                self.index += 1;
            }
        } else {
            while !self.is_eof() && !self.current_is_whitespace() && !self.current_is_char('>')
                && !self.starts_with_literal("/>")
                invariant
                    self.moved_from(*old(self)),
                    t == self.tokens@,
                    k0 == old(self).index,
                    quote_opt == None::<char>,
                    "/>"@ == seq!['/', '>'],
                    value_parts(t, from, quote_opt, Seq::empty(), Seq::empty())
                        == value_parts(t, self.index as int, quote_opt, parts_model(parts@), text@),
                decreases self.tokens@.len() - self.index,
            {
                let ghost idx = self.index as int;
                match self.take_interpolation() {
                    Some(interpolation) => {
                        if !text.as_str().is_empty() {
                            let ghost mid = parts@;
                            parts.push(ValuePart::Text(text));
                            proof {
                                lemma_parts_model_push(mid, parts@.last());
                                assert(parts@ == mid.push(parts@.last()));
                            }
                            text = String::new();
                        }
                        let ghost mid = parts@;
                        parts.push(ValuePart::Interpolation(interpolation));
                        proof {
                            lemma_parts_model_push(mid, ValuePart::Interpolation(interpolation));
                            assert(text@ =~= Seq::<char>::empty());
                        }
                    },
                    None => {
                        let c = self.current_char().unwrap();
                        push_char(&mut text, c);
                        self.index += 1;
                        proof {
                            assert(char_at(t, idx) == c);
                        }
                    },
                }
            }
        }
        if !text.as_str().is_empty() {
            let ghost mid = parts@;
            parts.push(ValuePart::Text(text));
            proof {
                lemma_parts_model_push(mid, parts@.last());
                assert(parts@ == mid.push(parts@.last()));
            }
        }
        proof {
            assert(value_parts(t, from, quote_opt, Seq::empty(), Seq::empty()).0 == parts_model(parts@));
        }
        if parts.len() == 1 {
            let ghost all = parts@;
            let part = parts.pop().unwrap();
            proof {
                assert(parts_model(all)[0] == part_model(part));
            }
            match part {
                ValuePart::Text(value) => {
                    return AttributeLike::LiteralAttribute(LiteralAttribute { name, value: Some(value), span });
                },
                ValuePart::Interpolation(interpolation) => {
                    return AttributeLike::InterpolatedAttribute(InterpolatedAttribute { name, interpolation, span });
                },
            }
        }
        AttributeLike::TemplatedAttribute(TemplatedAttribute { name, parts, span })
    }

    fn parse_attribute_like(&mut self) -> (r: BackendResult<AttributeLike>)
        requires
            old(self).wf(),
        ensures
            final(self).moved_from(*old(self)),
            r is Ok ==> final(self).index > old(self).index,
            r matches Err(e) ==> e.kind == ErrorKind::Parse,
            match attribute_spec(old(self).tokens@, old(self).index as int) {
                Ok((m, next)) => r matches Ok(a) && attr_model(a) == m && final(self).index == next,
                Err(f) => r matches Err(e) && parse_reports(e, f),
            },
    {
        proof {
            reveal_strlit("Spread attributes must have exactly one interpolation in the name.");
        }
        match self.take_interpolation() {
            Some(interpolation) => {
                self.ensure_boundary_after_singleton_interpolation(
                    "Spread attributes must have exactly one interpolation in the name.",
                )?;
                let span = interpolation.span;
                return Ok(AttributeLike::SpreadAttribute(SpreadAttribute { interpolation, span }));
            },
            None => {},
        }
        let span = self.current_span();
        let name = self.parse_name()?;
        let name = ascii_lowercase(name.as_str());
        self.skip_whitespace();
        if !self.current_is_char('=') {
            return Ok(AttributeLike::LiteralAttribute(LiteralAttribute { name, value: None, span }));
        }
        self.index += 1;
        self.skip_whitespace();
        Ok(self.parse_attribute_value(name, span))
    }

    fn parse_close_tag(&mut self, open_tag: &OpenTag) -> (r: BackendResult<Option<InterpolationNode>>)
        requires
            old(self).wf(),
            tstarts(old(self).tokens@, old(self).index as int, "</"@),
        ensures
            final(self).moved_from(*old(self)),
            r is Ok ==> final(self).index > old(self).index,
            r matches Ok(end) ==> (open_tag is Literal ==> end is None),
            r matches Err(e) ==> e.kind == ErrorKind::Parse,
            match close_tag_spec(old(self).tokens@, old(self).index as int, open_model(*open_tag)) {
                Ok((end_tag, next)) => r matches Ok(e) && e == end_tag && final(self).index == next,
                Err(f) => r matches Err(e) && parse_reports(e, f),
            },
    {
        let start = self.current_span();
        proof {
            reveal_strlit("</");
        }
        self.consume_literal("</");
        self.skip_whitespace();
        let close_tag = self.parse_tag_name()?;
        self.skip_whitespace();
        self.expect_char('>')?;
        match (open_tag, close_tag) {
            (OpenTag::Literal(expected), TagName::Literal(actual)) => {
                if eq_ignore_ascii_case(expected.as_str(), actual.as_str()) {
                    Ok(None)
                } else {
                    Err(parse_error(
                        "tdom.parse.mismatched_tag",
                        concat5("Mismatched closing tag </", actual.as_str(), ">. Expected </", expected.as_str(), ">."),
                        start,
                    ))
                }
            },
            (OpenTag::Literal(expected), TagName::Component(_)) => Err(parse_error(
                "tdom.parse.component_end_tag_for_element",
                concat3("Component closing tag found for element <", expected.as_str(), ">."),
                start,
            )),
            (OpenTag::Component(open), TagName::Literal(actual)) => {
                let source = raw_source_or_braces(open);
                Err(parse_error(
                    "tdom.parse.literal_end_tag_for_component",
                    concat5(
                        "Mismatched closing tag </",
                        actual.as_str(),
                        "> for component starting at ",
                        source.as_str(),
                        ".",
                    ),
                    start,
                ))
            },
            (OpenTag::Component(open), TagName::Component(close)) => {
                if interpolation_matches(open, &close) {
                    Ok(Some(close))
                } else {
                    Err(parse_error(
                        "tdom.parse.mismatched_component_tag",
                        "Mismatched component start and end callables.".to_owned(),
                        start,
                    ))
                }
            },
        }
    }

    fn parse_tag(&mut self) -> (r: BackendResult<Node>)
        requires
            old(self).wf(),
        ensures
            final(self).moved_from(*old(self)),
            r is Ok ==> final(self).index > old(self).index,
            r matches Ok(n) ==> node_wf(n),
            r matches Err(e) ==> e.kind == ErrorKind::Parse,
            match tag_spec(old(self).tokens@, old(self).index as int) {
                Ok((m, next)) => r matches Ok(n) && node_model(n) == m && final(self).index == next,
                Err(f) => r matches Err(e) && parse_reports(e, f),
            },
        decreases old(self).tokens@.len() - old(self).index, 0int,
    {
        let ghost t = self.tokens@;
        let ghost k0 = self.index as int;
        let start = self.current_span();
        self.expect_char('<')?;
        let tag = self.parse_tag_name()?;
        let mut attributes: Vec<AttributeLike> = Vec::new();
        let ghost after = self.index as int;
        proof {
            assert(attrs_model(attributes@) =~= Seq::<AttrM>::empty());
            reveal_strlit("/>");
            assert("/>"@ =~= seq!['/', '>']);
        }
        loop
            invariant_except_break
                attrs_spec(t, after, start, Seq::empty()) == attrs_spec(t, self.index as int, start, attrs_model(attributes@)),
            invariant
                self.moved_from(*old(self)),
                t == self.tokens@,
                k0 == old(self).index,
                start == tspan(t, k0),
                tchar(t, k0) == Some('<'),
                "/>"@ == seq!['/', '>'],
                tag_name_spec(t, k0 + 1) == Ok::<(TagM, int), Failure>((tag_model(tag), after)),
                self.index > old(self).index,
                tag matches TagName::Literal(name) ==> lower_name(name@),
            ensures
                self.moved_from(*old(self)),
                self.index > old(self).index,
                attrs_spec(t, after, start, Seq::empty())
                    == Ok::<(Seq<AttrM>, bool, int), Failure>((attrs_model(attributes@), false, self.index as int)),
            decreases self.tokens@.len() - self.index,
        {
            self.skip_whitespace();
            if self.starts_with_literal("/>") {
                self.consume_literal("/>");
                let node = build_tag_node_with_end(tag, attributes, Vec::new(), true, start, None);
                proof {
                    assert(nodes_model(Seq::<Node>::empty()) =~= Seq::<NodeM>::empty());
                }
                return Ok(node);
            }
            if self.current_is_char('>') {
                self.index += 1;
                break;
            }
            if self.is_eof() {
                return Err(parse_error("tdom.parse.unclosed_start_tag", "Unclosed start tag.".to_owned(), start));
            }
            let ghost before = attributes@;
            let attribute = self.parse_attribute_like()?;
            attributes.push(attribute);
            proof {
                lemma_attrs_model_push(before, attribute);
            }
        }
        let (open_tag, raw_text_mode) = match &tag {
            TagName::Literal(name) => {
                if is_void_html_tag(name.as_str()) {
                    let node = build_tag_node_with_end(tag, attributes, Vec::new(), true, start, None);
                    proof {
                        assert(nodes_model(Seq::<Node>::empty()) =~= Seq::<NodeM>::empty());
                    }
                    return Ok(node);
                }
                (OpenTag::Literal(name.clone()), is_raw_text_tag(name.as_str()))
            },
            TagName::Component(interpolation) => (OpenTag::Component(clone_interpolation(interpolation)), false),
        };
        proof {
            assert(open_model(open_tag) == tag_model(tag));
        }
        let (children, end_tag) = self.parse_nodes(Some(&open_tag), raw_text_mode)?;
        Ok(build_tag_node_with_end(tag, attributes, children, false, start, end_tag))
    }

    #[verifier::rlimit(60)]
    fn parse_nodes(&mut self, closing_tag: Option<&OpenTag>, raw_text_mode: bool) -> (r: BackendResult<(Vec<Node>, Option<InterpolationNode>)>)
        requires
            old(self).wf(),
            raw_text_mode ==> closing_tag matches Some(OpenTag::Literal(_)),
        ensures
            final(self).moved_from(*old(self)),
            r matches Ok((ns, _)) ==> nodes_wf(ns@) && (raw_text_mode ==> raw_children(ns@)),
            r matches Err(e) ==> e.kind == ErrorKind::Parse,
            match nodes_spec(old(self).tokens@, old(self).index as int, closing_model(closing_tag), raw_text_mode, Seq::empty()) {
                Ok((ms, end_tag, end)) => r matches Ok((ns, e)) && nodes_model(ns@) == ms && e == end_tag
                    && final(self).index == end,
                Err(f) => r matches Err(e) && parse_reports(e, f),
            },
        decreases old(self).tokens@.len() - old(self).index, 1int,
    {
        let ghost t = self.tokens@;
        let ghost k0 = self.index as int;
        let ghost closing = closing_model(closing_tag);
        let mut children: Vec<Node> = Vec::new();
        proof {
            assert(nodes_model(children@) =~= Seq::<NodeM>::empty());
            reveal_strlit("</");
            assert("</"@ =~= seq!['<', '/']);
            reveal_strlit("<!");
            assert("<!"@ =~= seq!['<', '!']);
        }
        loop
            invariant_except_break
                nodes_spec(t, k0, closing, raw_text_mode, Seq::empty())
                    == nodes_spec(t, self.index as int, closing, raw_text_mode, nodes_model(children@)),
            invariant
                self.moved_from(*old(self)),
                t == self.tokens@,
                k0 == old(self).index,
                closing == closing_model(closing_tag),
                "</"@ == seq!['<', '/'],
                "<!"@ == seq!['<', '!'],
                nodes_wf(children@),
                raw_text_mode ==> raw_children(children@),
                raw_text_mode ==> closing_tag matches Some(OpenTag::Literal(_)),
            ensures
                self.moved_from(*old(self)),
                nodes_wf(children@),
                raw_text_mode ==> raw_children(children@),
                nodes_spec(t, k0, closing, raw_text_mode, Seq::empty())
                    == Ok::<(Seq<NodeM>, Option<InterpolationNode>, int), Failure>((nodes_model(children@), None, self.index as int)),
            decreases self.tokens@.len() - self.index,
        {
            let ghost before = children@;
            if self.is_eof() {
                match closing_tag {
                    Some(OpenTag::Literal(name)) => {
                        return Err(parse_error("tdom.parse.unclosed_tag", concat3("Unclosed tag <", name.as_str(), ">."), self.current_span()));
                    },
                    Some(OpenTag::Component(tag)) => {
                        let source = raw_source_or_braces(tag);
                        return Err(parse_error(
                            "tdom.parse.unclosed_tag",
                            concat3("Unclosed component tag <", source.as_str(), ">."),
                            self.current_span(),
                        ));
                    },
                    None => {},
                }
                break;
            }
            match closing_tag {
                Some(open_tag) => {
                    if self.starts_with_literal("</") {
                        let end_tag = self.parse_close_tag(open_tag)?;
                        return Ok((children, end_tag));
                    }
                },
                None => {},
            }
            if raw_text_mode {
                match closing_tag {
                    Some(OpenTag::Literal(name)) => {
                        match self.parse_raw_text_chunk(name.as_str()) {
                            Some(node) => {
                                children.push(node);
                                proof {
                                    lemma_nodes_wf_push(before, node);
                                    lemma_nodes_model_push(before, node);
                                    assert(children@ == before.push(node));
                                }
                                continue;
                            },
                            None => {
                                proof {
                                    assert(false);
                                }
                            },
                        }
                    },
                    _ => {},
                }
            }
            proof {
                assert(!raw_text_mode);
            }
            if self.starts_with_literal("<!--") {
                let comment = self.parse_comment()?;
                let node = Node::Comment(comment);
                children.push(node);
                proof {
                    lemma_nodes_wf_push(before, node);
                    lemma_nodes_model_push(before, node);
                    assert(children@ == before.push(node));
                }
                continue;
            }
            if self.starts_with_literal("<!") {
                let doctype = self.parse_doctype()?;
                let node = Node::Doctype(doctype);
                children.push(node);
                proof {
                    lemma_nodes_wf_push(before, node);
                    lemma_nodes_model_push(before, node);
                    assert(children@ == before.push(node));
                }
                continue;
            }
            if self.current_is_char('<') {
                let node = self.parse_tag()?;
                children.push(node);
                proof {
                    lemma_nodes_wf_push(before, node);
                    lemma_nodes_model_push(before, node);
                    assert(children@ == before.push(node));
                }
                continue;
            }
            match self.take_interpolation() {
                Some(interpolation) => {
                    let node = Node::Interpolation(interpolation);
                    children.push(node);
                    proof {
                        lemma_nodes_wf_push(before, node);
                        lemma_nodes_model_push(before, node);
                        assert(children@ == before.push(node));
                    }
                    continue;
                },
                None => {},
            }
            let text = self.parse_text();
            let node = Node::Text(text);
            children.push(node);
            proof {
                lemma_nodes_wf_push(before, node);
                lemma_nodes_model_push(before, node);
                assert(children@ == before.push(node));
            }
        }
        Ok((children, None))
    }

    fn parse_document(&mut self) -> (r: BackendResult<Document>)
        requires
            old(self).wf(),
            old(self).index == 0,
        ensures
            r matches Ok(d) ==> nodes_wf(d.children@),
            r matches Err(e) ==> e.kind == ErrorKind::Parse,
            match document_spec(old(self).tokens@) {
                Ok((ms, span)) => r matches Ok(d) && nodes_model(d.children@) == ms && d.span == span,
                Err(f) => r matches Err(e) && parse_reports(e, f),
            },
    {
        let (children, _) = self.parse_nodes(None, false)?;
        let span = merge_children_span(&children);
        proof {
            lemma_nodes_m_span(children@);
        }
        Ok(Document { children, span })
    }
}

/// The value of the tag whose end a node list waits for.
pub open spec fn closing_model(closing: Option<&OpenTag>) -> Option<TagM> {
    match closing {
        Some(o) => Some(open_model(*o)),
        None => None,
    }
}

/// Parses a template into a document. A parsed document is well formed in the
/// sense of [`nodes_wf`]; every failure is a parse error. Which document, and
/// which failure, is [`document_spec`] of the template's tokens.
pub fn parse_template(template: &TemplateInput) -> (r: BackendResult<Document>)
    ensures
        r matches Ok(d) ==> nodes_wf(d.children@),
        r matches Err(e) ==> e.kind == ErrorKind::Parse,
        match document_spec(template_tokens(*template)) {
            Ok((ms, span)) => r matches Ok(d) && nodes_model(d.children@) == ms && d.span == span,
            Err(f) => r matches Err(e) && parse_reports(e, f),
        },
{
    let mut parser = Parser::new(template);
    parser.parse_document()
}

} // verus!
