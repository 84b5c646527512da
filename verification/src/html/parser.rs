//! The HTML template parser: a recursive-descent parser over the character
//! stream of a template, where interpolations are single tokens.

use vstd::prelude::*;
use crate::syntax::{
    SourceSpan, TemplateInterpolation, TemplateInput, StreamItem, BackendError, BackendResult, ErrorKind,
    error_is, flatten_spec, merge_span_opt, merge_span_opt_spec, clone_opt_string,
};
use crate::text::{
    chars_of, push_char, is_whitespace, is_unicode_whitespace, string_of_char, concat3, concat5, str_eq, trim,
    trim_spec, ascii_lower, ascii_lower_spec,
};
use super::grammar::{
    name_len, name_spec, chars_between, tag_spec, nodes_spec, attrs_spec, tag_node, attrs_model, nodes_model,
    AttrM, lemma_attrs_model_push, lemma_nodes_model_push, lemma_nodes_m_span, closing_spec, document_spec, tunquoted_char, value_spec, quoted_parts, unquoted_end, PartM,
    parts_model, lemma_parts_model_push, lemma_unquoted_end_ge, attribute_spec, attr_model, NodeM, comment_spec, comment_end, doctype_spec, doctype_end, raw_end, raw_chunk_spec, lemma_raw_end_ge, node_model, skip_ws, text_end, span_fold, ttext_char, lemma_text_end_ge, char_at, parse_reports, lemma_chars_between_push, lemma_chars_between_empty,
};
use super::validate::Failure;
use super::ast::{
    Node, TextNode, InterpolationNode, CommentNode, DoctypeNode, ElementNode, ComponentTagNode,
    RawTextElementNode, AttributeLike, Attribute, AttributeValue, ValuePart, SpreadAttribute, Document,
    name_char, valid_name, is_name_char, is_raw_text_tag, raw_text_tag_spec, classify_is_component,
    component_name_spec, node_wf, nodes_wf, raw_children, attr_wf, attrs_wf, lemma_nodes_wf_push,
};

verus! {

pub enum Token {
    Char(char, Option<SourceSpan>),
    Interpolation(TemplateInterpolation, Option<SourceSpan>),
    Eof,
}

/// The token a stream item becomes.
pub open spec fn token_of(item: StreamItem) -> Token {
    match item {
        StreamItem::Char { ch, span } => Token::Char(ch, Some(span)),
        StreamItem::Interpolation { interpolation, span, .. } => Token::Interpolation(interpolation, Some(span)),
        StreamItem::Eof { .. } => Token::Eof,
    }
}

pub(crate) struct Parser {
    pub(crate) tokens: Vec<Token>,
    pub(crate) index: usize,
}

fn parse_error(code: &str, message: String, span: Option<SourceSpan>) -> (r: BackendError)
    ensures
        error_is(r, ErrorKind::Parse, code@, message@, span),
{
    BackendError::parse_at(code.to_owned(), message, span)
}

fn static_message(text: &str) -> (r: String)
    ensures
        r@ == text@,
{
    text.to_owned()
}

/// The span of a sequence of nodes: from the first span present to the last.
pub open spec fn children_span(ns: Seq<Node>) -> Option<SourceSpan>
    decreases ns.len(),
{
    if ns.len() == 0 {
        None
    } else {
        merge_span_opt_spec(children_span(ns.drop_last()), node_span_spec(ns.last()))
    }
}

pub open spec fn node_span_spec(n: Node) -> Option<SourceSpan> {
    match n {
        Node::Fragment(x) => x.span,
        Node::Element(x) => x.span,
        Node::ComponentTag(x) => x.span,
        Node::Text(x) => x.span,
        Node::Interpolation(x) => x.span,
        Node::Comment(x) => x.span,
        Node::Doctype(x) => x.span,
        Node::RawTextElement(x) => x.span,
    }
}

pub fn node_span(node: &Node) -> (r: Option<SourceSpan>)
    ensures
        r == node_span_spec(*node),
{
    match node {
        Node::Fragment(x) => x.span,
        Node::Element(x) => x.span,
        Node::ComponentTag(x) => x.span,
        Node::Text(x) => x.span,
        Node::Interpolation(x) => x.span,
        Node::Comment(x) => x.span,
        Node::Doctype(x) => x.span,
        Node::RawTextElement(x) => x.span,
    }
}

pub fn merge_children_span(children: &Vec<Node>) -> (r: Option<SourceSpan>)
    ensures
        r == children_span(children@),
{
    let mut acc: Option<SourceSpan> = None;
    let mut i: usize = 0;
    while i < children.len()
        invariant
            i <= children@.len(),
            acc == children_span(children@.subrange(0, i as int)),
        decreases children.len() - i,
    {
        proof {
            let p = children@.subrange(0, i + 1);
            assert(p.drop_last() == children@.subrange(0, i as int));
            assert(p.last() == children@[i as int]);
        }
        acc = merge_span_opt(acc, node_span(&children[i]));
        i += 1;
    }
    proof {
        assert(children@.subrange(0, children@.len() as int) == children@);
    }
    acc
}

pub open spec fn tchar(t: Seq<Token>, k: int) -> Option<char> {
    if 0 <= k < t.len() {
        match t[k] {
            Token::Char(c, _) => Some(c),
            _ => None,
        }
    } else {
        None
    }
}

pub open spec fn tws(t: Seq<Token>, k: int) -> bool {
    tchar(t, k) matches Some(c) && is_unicode_whitespace(c)
}

pub open spec fn tname_start(t: Seq<Token>, k: int) -> bool {
    tchar(t, k) matches Some(c) && name_char(c, true)
}

pub open spec fn tfolded(t: Seq<Token>, k: int, expected: char) -> bool {
    tchar(t, k) matches Some(c) && ascii_lower_spec(c) == ascii_lower_spec(expected)
}

pub open spec fn tspan(t: Seq<Token>, k: int) -> Option<SourceSpan> {
    if 0 <= k < t.len() {
        match t[k] {
            Token::Char(_, s) => s,
            Token::Interpolation(_, s) => s,
            Token::Eof => None,
        }
    } else {
        None
    }
}

/// The characters of `lit` stand one after the other from position `i` on.
pub open spec fn tstarts(t: Seq<Token>, i: int, lit: Seq<char>) -> bool {
    forall|k: int| 0 <= k < lit.len() ==> tchar(t, i + k) == Some(lit[k])
}

impl Parser {
    pub(crate) open spec fn wf(&self) -> bool {
        &&& self.tokens@.len() > 0
        &&& self.tokens@.len() <= usize::MAX
        &&& self.tokens@.last() is Eof
        &&& self.index < self.tokens@.len()
    }

    pub(crate) open spec fn at_eof(&self) -> bool {
        self.tokens@[self.index as int] is Eof
    }

    pub(crate) open spec fn at_interpolation(&self) -> bool {
        self.tokens@[self.index as int] is Interpolation
    }

    /// `self` is a well-formed parser over the tokens of `old`, no further back.
    pub(crate) open spec fn moved_from(&self, old: Parser) -> bool {
        &&& self.wf()
        &&& self.tokens@ == old.tokens@
        &&& old.index <= self.index
    }

    pub(crate) fn new(input: &TemplateInput) -> (r: Self)
        ensures
            r.wf(),
            r.index == 0,
            r.tokens@ == flatten_spec(input.segments@).map_values(|item: StreamItem| token_of(item)),
    {
        let items = input.flatten();
        let mut tokens: Vec<Token> = Vec::new();
        let mut i: usize = 0;
        let ghost spec_tokens = items@.map_values(|item: StreamItem| token_of(item));
        let mut items = items;
        let ghost all = items@;
        let mut rev: Vec<StreamItem> = Vec::new();
        while items.len() > 0
            invariant
                all == flatten_spec(input.segments@),
                rev@.len() + items@.len() == all.len(),
                items@ == all.subrange(0, items@.len() as int),
                forall|k: int| 0 <= k < rev@.len() ==> rev@[k] == all[all.len() - 1 - k],
            decreases items.len(),
        {
            let item = items.pop().unwrap();
            rev.push(item);
        }
        while rev.len() > 0
            invariant
                all == flatten_spec(input.segments@),
                tokens@.len() + rev@.len() == all.len(),
                forall|k: int| 0 <= k < rev@.len() ==> rev@[k] == all[all.len() - 1 - k],
                forall|k: int| 0 <= k < tokens@.len() ==> tokens@[k] == token_of(all[k]),
            decreases rev.len(),
        {
            let item = rev.pop().unwrap();
            let token = match item {
                StreamItem::Char { ch, span } => Token::Char(ch, Some(span)),
                StreamItem::Interpolation { interpolation, span, .. } => Token::Interpolation(interpolation, Some(span)),
                StreamItem::Eof { .. } => Token::Eof,
            };
            tokens.push(token);
        }
        proof {
            assert(tokens@ =~= all.map_values(|item: StreamItem| token_of(item)));
            assert(all.last() is Eof);
            assert(tokens@.last() == token_of(all.last()));
        }
        let _ = i;
        let n = tokens.len();
        proof {
            assert(n == tokens@.len());
        }
        Parser { tokens, index: 0 }
    }

    fn current(&self) -> (r: &Token)
        requires
            self.wf(),
        ensures
            *r == self.tokens@[self.index as int],
    {
        &self.tokens[self.index]
    }

    fn current_char(&self) -> (r: Option<char>)
        requires
            self.wf(),
        ensures
            r == tchar(self.tokens@, self.index as int),
    {
        match self.current() {
            Token::Char(ch, _) => Some(*ch),
            _ => None,
        }
    }

    fn current_is_char(&self, expected: char) -> (r: bool)
        requires
            self.wf(),
        ensures
            r == (tchar(self.tokens@, self.index as int) == Some(expected)),
    {
        match self.current_char() {
            Some(c) => c == expected,
            None => false,
        }
    }

    fn current_is_whitespace(&self) -> (r: bool)
        requires
            self.wf(),
        ensures
            r == tws(self.tokens@, self.index as int),
    {
        match self.current_char() {
            Some(c) => is_whitespace(c),
            None => false,
        }
    }

    fn current_span(&self) -> (r: Option<SourceSpan>)
        requires
            self.wf(),
        ensures
            r == tspan(self.tokens@, self.index as int),
    {
        match self.current() {
            Token::Char(_, span) => *span,
            Token::Interpolation(_, span) => *span,
            Token::Eof => None,
        }
    }

    fn is_eof(&self) -> (r: bool)
        requires
            self.wf(),
        ensures
            r == self.at_eof(),
    {
        match self.current() {
            Token::Eof => true,
            _ => false,
        }
    }

    fn starts_with_chars(&self, value: &Vec<char>) -> (r: bool)
        requires
            self.wf(),
        ensures
            r == tstarts(self.tokens@, self.index as int, value@),
    {
        let mut offset: usize = 0;
        while offset < value.len()
            invariant
                self.wf(),
                offset <= value@.len(),
                forall|k: int| 0 <= k < offset ==> tchar(self.tokens@, self.index + k) == Some(value@[k]),
            decreases value.len() - offset,
        {
            if offset >= self.tokens.len() - self.index {
                proof {
                    assert(tchar(self.tokens@, self.index + offset) != Some(value@[offset as int]));
                }
                return false;
            }
            match &self.tokens[self.index + offset] {
                Token::Char(ch, _) => {
                    if *ch != value[offset] {
                        proof {
                            assert(tchar(self.tokens@, self.index + offset) != Some(value@[offset as int]));
                        }
                        return false;
                    }
                },
                _ => {
                    proof {
                        assert(tchar(self.tokens@, self.index + offset) != Some(value@[offset as int]));
                    }
                    return false;
                },
            }
            offset += 1;
        }
        true
    }

    fn starts_with_literal(&self, value: &str) -> (r: bool)
        requires
            self.wf(),
        ensures
            r == tstarts(self.tokens@, self.index as int, value@),
    {
        let chars = chars_of(value);
        self.starts_with_chars(&chars)
    }

    fn starts_with_close_tag(&self, name: &str) -> (r: bool)
        requires
            self.wf(),
        ensures
            r == tstarts(self.tokens@, self.index as int, seq!['<', '/'] + name@),
    {
        let mut literal = String::new();
        push_char(&mut literal, '<');
        push_char(&mut literal, '/');
        literal.append(name);
        proof {
            assert(literal@ == seq!['<', '/'] + name@);
        }
        self.starts_with_literal(literal.as_str())
    }

    /// Whether `<!DOCTYPE` starts here, letters in any case.
    fn starts_with_doctype(&self) -> (r: bool)
        requires
            self.wf(),
        ensures
            r == (forall|k: int| 0 <= k < 9 ==> #[trigger] tfolded(self.tokens@, self.index + k, "<!DOCTYPE"@[k])),
    {
        let literal = chars_of("<!DOCTYPE");
        proof {
            reveal_strlit("<!DOCTYPE");
        }
        let mut offset: usize = 0;
        while offset < 9
            invariant
                self.wf(),
                offset <= 9,
                literal@ == "<!DOCTYPE"@,
                literal@.len() == 9,
                forall|k: int| 0 <= k < offset ==> #[trigger] tfolded(self.tokens@, self.index + k, literal@[k]),
            decreases 9 - offset,
        {
            if offset >= self.tokens.len() - self.index {
                proof {
                    assert(!tfolded(self.tokens@, self.index + offset, "<!DOCTYPE"@[offset as int]));
                }
                return false;
            }
            match &self.tokens[self.index + offset] {
                Token::Char(ch, _) => {
                    if ascii_lower(*ch) != ascii_lower(literal[offset]) {
                        proof {
                            assert(!tfolded(self.tokens@, self.index + offset, "<!DOCTYPE"@[offset as int]));
                        }
                        return false;
                    }
                },
                _ => {
                    proof {
                        assert(!tfolded(self.tokens@, self.index + offset, "<!DOCTYPE"@[offset as int]));
                    }
                    return false;
                },
            }
            offset += 1;
        }
        true
    }

    fn consume_literal(&mut self, value: &str)
        requires
            old(self).wf(),
            tstarts(old(self).tokens@, old(self).index as int, value@),
        ensures
            final(self).moved_from(*old(self)),
            final(self).index == old(self).index + value@.len(),
    {
        let chars = chars_of(value);
        let mut k: usize = 0;
        while k < chars.len()
            invariant
                self.wf(),
                self.tokens@ == old(self).tokens@,
                chars@ == value@,
                k <= chars@.len(),
                self.index == old(self).index + k,
                tstarts(old(self).tokens@, old(self).index as int, value@),
            decreases chars.len() - k,
        {
            proof {
                assert(tchar(old(self).tokens@, old(self).index + k) == Some(value@[k as int]));
            }
            self.index += 1;
            k += 1;
        }
    }

    fn expect_char(&mut self, expected: char) -> (r: BackendResult<()>)
        requires
            old(self).wf(),
        ensures
            final(self).moved_from(*old(self)),
            r is Ok <==> tchar(old(self).tokens@, old(self).index as int) == Some(expected),
            r is Ok ==> final(self).index == old(self).index + 1,
            r is Err ==> final(self).index == old(self).index,
            r matches Err(e) ==> error_is(e, ErrorKind::Parse, "html.parse.expected_char"@,
                "Expected '"@ + seq![expected] + "'."@, tspan(old(self).tokens@, old(self).index as int)),
    {
        if self.current_is_char(expected) {
            self.index += 1;
            Ok(())
        } else {
            let c = string_of_char(expected);
            Err(parse_error("html.parse.expected_char", concat3("Expected '", c.as_str(), "'."), self.current_span()))
        }
    }

    fn skip_whitespace(&mut self)
        requires
            old(self).wf(),
        ensures
            final(self).moved_from(*old(self)),
            !tws(final(self).tokens@, final(self).index as int),
            forall|k: int| old(self).index <= k < final(self).index ==> #[trigger] tws(final(self).tokens@, k),
            final(self).index == skip_ws(old(self).tokens@, old(self).index as int),
    {
        let ghost t = self.tokens@;
        let ghost k0 = self.index as int;
        while self.current_is_whitespace()
            invariant
                self.moved_from(*old(self)),
                t == self.tokens@,
                k0 == old(self).index,
                skip_ws(t, k0) == skip_ws(t, self.index as int),
                forall|k: int| old(self).index <= k < self.index ==> #[trigger] tws(self.tokens@, k),
            decreases self.tokens@.len() - self.index,
        {
            let ghost prev = self.index;
            self.index += 1;
            proof {
                assert(tws(self.tokens@, prev as int));
            }
        }
    }

    fn current_is_name_char(&self, is_start: bool) -> (r: bool)
        requires
            self.wf(),
        ensures
            r == (tchar(self.tokens@, self.index as int) matches Some(c) && name_char(c, is_start)),
    {
        match self.current_char() {
            Some(c) => is_name_char(c, is_start),
            None => false,
        }
    }

    fn parse_name(&mut self) -> (r: BackendResult<String>)
        requires
            old(self).wf(),
        ensures
            final(self).moved_from(*old(self)),
            r is Ok <==> tname_start(old(self).tokens@, old(self).index as int),
            r is Ok <==> name_spec(old(self).tokens@, old(self).index as int) is Ok,
            r matches Ok(name) ==> valid_name(name@) && final(self).index == old(self).index + name@.len()
                && name_spec(old(self).tokens@, old(self).index as int) == Ok::<(Seq<char>, int), Failure>((name@, final(self).index as int)),
            r matches Err(e) ==> final(self).index == old(self).index && error_is(e, ErrorKind::Parse, "html.parse.expected_name"@,
                "Expected a tag or attribute name."@, tspan(old(self).tokens@, old(self).index as int))
                && (name_spec(old(self).tokens@, old(self).index as int) matches Err(f) && parse_reports(e, f)),
    {
        let ghost t = self.tokens@;
        let ghost k0 = self.index as int;
        let mut name = String::new();
        proof {
            lemma_chars_between_empty(t, k0);
        }
        while self.current_is_name_char(name.as_str().is_empty())
            invariant
                self.moved_from(*old(self)),
                t == self.tokens@,
                k0 == old(self).index,
                self.index == old(self).index + name@.len(),
                name@.len() == 0 || valid_name(name@),
                name@.len() > 0 ==> tname_start(old(self).tokens@, old(self).index as int),
                name@ == chars_between(t, k0, self.index as int),
                name_len(t, k0, true) == name@.len() + name_len(t, self.index as int, name@.len() == 0),
            decreases self.tokens@.len() - self.index,
        {
            let c = self.current_char().unwrap();
            let ghost before = name@;
            let ghost idx = self.index as int;
            push_char(&mut name, c);
            self.index += 1;
            proof {
                lemma_chars_between_push(t, k0, idx);
                assert(char_at(t, idx) == c);
                if before.len() > 0 {
                    assert forall|i: int| 1 <= i < name@.len() implies name_char(#[trigger] name@[i], false) by {
                        if i < before.len() {
                            assert(name@[i] == before[i]);
                        }
                    }
                }
            }
        }
        if name.as_str().is_empty() {
            Err(parse_error("html.parse.expected_name", static_message("Expected a tag or attribute name."), self.current_span()))
        } else {
            Ok(name)
        }
    }
}

/// The interpolation node a token's interpolation becomes.
pub open spec fn interpolation_node_of(i: TemplateInterpolation, span: Option<SourceSpan>) -> InterpolationNode {
    InterpolationNode {
        interpolation_index: i.interpolation_index,
        expression: i.expression,
        raw_source: i.raw_source,
        conversion: i.conversion,
        format_spec: i.format_spec,
        span,
    }
}

impl Parser {
    fn take_interpolation(&mut self) -> (r: Option<InterpolationNode>)
        requires
            old(self).wf(),
        ensures
            final(self).moved_from(*old(self)),
            r is Some <==> old(self).at_interpolation(),
            r is None ==> final(self).index == old(self).index,
            r matches Some(n) ==> final(self).index == old(self).index + 1 && (old(self).tokens@[old(self).index as int] matches Token::Interpolation(i, span)
                && n == interpolation_node_of(i, span)),
    {
        let node = match self.current() {
            Token::Interpolation(interpolation, span) => Some(InterpolationNode {
                interpolation_index: interpolation.interpolation_index,
                expression: interpolation.expression.clone(),
                raw_source: clone_opt_string(&interpolation.raw_source),
                conversion: clone_opt_string(&interpolation.conversion),
                format_spec: interpolation.format_spec.clone(),
                span: *span,
            }),
            _ => None,
        };
        if node.is_some() {
            self.index += 1;
        }
        node
    }

    fn current_is_text_char(&self) -> (r: bool)
        requires
            self.wf(),
        ensures
            r == ttext_char(self.tokens@, self.index as int),
    {
        match self.current_char() {
            Some(c) => c != '<',
            None => false,
        }
    }

    fn parse_text(&mut self) -> (r: TextNode)
        requires
            old(self).wf(),
            ttext_char(old(self).tokens@, old(self).index as int),
        ensures
            final(self).moved_from(*old(self)),
            final(self).index > old(self).index,
            r.value@.len() > 0,
            final(self).index == text_end(old(self).tokens@, old(self).index as int),
            r.value@ == chars_between(old(self).tokens@, old(self).index as int, final(self).index as int),
            r.span == span_fold(old(self).tokens@, old(self).index as int, final(self).index as int,
                tspan(old(self).tokens@, old(self).index as int)),
    {
        let ghost t = self.tokens@;
        let ghost k0 = self.index as int;
        let ghost end = text_end(t, k0);
        proof {
            lemma_text_end_ge(t, k0);
            lemma_chars_between_empty(t, k0);
        }
        let mut value = String::new();
        let mut span = self.current_span();
        while self.current_is_text_char()
            invariant
                self.moved_from(*old(self)),
                t == self.tokens@,
                k0 == old(self).index,
                end == text_end(t, k0),
                self.index == old(self).index + value@.len(),
                text_end(t, self.index as int) == end,
                self.index <= end,
                value@ == chars_between(t, k0, self.index as int),
                span_fold(t, k0, end, tspan(t, k0)) == span_fold(t, self.index as int, end, span),
            decreases self.tokens@.len() - self.index,
        {
            let ghost idx = self.index as int;
            let c = self.current_char().unwrap();
            span = merge_span_opt(span, self.current_span());
            push_char(&mut value, c);
            self.index += 1;
            proof {
                lemma_chars_between_push(t, k0, idx);
                lemma_text_end_ge(t, idx + 1);
            }
        }
        TextNode { value, span }
    }

    fn current_is_char_token(&self) -> (r: bool)
        requires
            self.wf(),
        ensures
            r == (tchar(self.tokens@, self.index as int) is Some),
    {
        self.current_char().is_some()
    }

    /// The next piece of raw text: a text up to the next interpolation or the
    /// closing tag, or the interpolation itself.
    fn parse_raw_text_chunk(&mut self, closing_tag: &str) -> (r: Option<Node>)
        requires
            old(self).wf(),
        ensures
            final(self).moved_from(*old(self)),
            r matches Some(n) ==> final(self).index > old(self).index && (n is Interpolation || (n matches Node::Text(t)
                && t.value@.len() > 0)),
            r is None ==> final(self).index == old(self).index && (old(self).at_eof() || tstarts(old(self).tokens@,
                old(self).index as int, seq!['<', '/'] + closing_tag@)),
            match raw_chunk_spec(old(self).tokens@, old(self).index as int, closing_tag@) {
                Some((m, next)) => r matches Some(n) && node_model(n) == m && final(self).index == next,
                None => r is None,
            },
    {
        let ghost t = self.tokens@;
        let ghost k0 = self.index as int;
        let ghost end = raw_end(t, k0, closing_tag@);
        proof {
            lemma_raw_end_ge(t, k0, closing_tag@);
            lemma_chars_between_empty(t, k0);
        }
        let mut text = String::new();
        let mut span: Option<SourceSpan> = None;
        while !self.is_eof() && !self.starts_with_close_tag(closing_tag) && self.current_is_char_token()
            invariant
                self.moved_from(*old(self)),
                t == self.tokens@,
                k0 == old(self).index,
                end == raw_end(t, k0, closing_tag@),
                self.index == old(self).index + text@.len(),
                raw_end(t, self.index as int, closing_tag@) == end,
                self.index <= end,
                text@ == chars_between(t, k0, self.index as int),
                span_fold(t, k0, end, None) == span_fold(t, self.index as int, end, span),
            decreases self.tokens@.len() - self.index,
        {
            let ghost idx = self.index as int;
            let c = self.current_char().unwrap();
            span = merge_span_opt(span, self.current_span());
            push_char(&mut text, c);
            self.index += 1;
            proof {
                lemma_chars_between_push(t, k0, idx);
                lemma_raw_end_ge(t, idx + 1, closing_tag@);
            }
        }
        if !text.as_str().is_empty() {
            return Some(Node::Text(TextNode { value: text, span }));
        }
        match self.take_interpolation() {
            Some(interpolation) => Some(Node::Interpolation(interpolation)),
            None => None,
        }
    }

    fn parse_comment(&mut self) -> (r: BackendResult<CommentNode>)
        requires
            old(self).wf(),
            tstarts(old(self).tokens@, old(self).index as int, "<!--"@),
        ensures
            final(self).moved_from(*old(self)),
            r is Ok ==> final(self).index > old(self).index,
            r matches Err(e) ==> e.kind == ErrorKind::Parse,
            match comment_spec(old(self).tokens@, old(self).index as int) {
                Ok((m, next)) => r matches Ok(c) && node_model(Node::Comment(c)) == m && final(self).index == next,
                Err(f) => r matches Err(e) && parse_reports(e, f),
            },
    {
        let ghost t = self.tokens@;
        let ghost k0 = self.index as int;
        let start = self.current_span();
        self.consume_literal("<!--");
        proof {
            reveal_strlit("<!--");
            reveal_strlit("-->");
            lemma_chars_between_empty(t, k0 + 4);
        }
        let mut value = String::new();
        while !self.is_eof() && !self.starts_with_literal("-->")
            invariant
                self.moved_from(*old(self)),
                t == self.tokens@,
                k0 == old(self).index,
                self.index >= k0 + 4,
                start == tspan(t, k0),
                comment_end(t, k0 + 4) == comment_end(t, self.index as int),
                value@ == chars_between(t, k0 + 4, self.index as int),
            decreases self.tokens@.len() - self.index,
        {
            let ghost idx = self.index as int;
            match self.current() {
                Token::Char(ch, _) => {
                    push_char(&mut value, *ch);
                    self.index += 1;
                    proof {
                        lemma_chars_between_push(t, k0 + 4, idx);
                    }
                },
                Token::Interpolation(_, span) => {
                    return Err(parse_error(
                        "html.parse.comment_interpolation",
                        static_message("Interpolations are not allowed inside HTML comments."),
                        *span,
                    ));
                },
                Token::Eof => {},
            }
        }
        if !self.starts_with_literal("-->") {
            return Err(parse_error("html.parse.comment_unclosed", static_message("Unclosed HTML comment."), start));
        }
        self.consume_literal("-->");
        Ok(CommentNode { value, span: start })
    }

    fn parse_doctype(&mut self) -> (r: BackendResult<DoctypeNode>)
        requires
            old(self).wf(),
        ensures
            final(self).moved_from(*old(self)),
            r is Ok ==> final(self).index > old(self).index,
            r matches Err(e) ==> e.kind == ErrorKind::Parse,
            match doctype_spec(old(self).tokens@, old(self).index as int) {
                Ok((m, next)) => r matches Ok(d) && node_model(Node::Doctype(d)) == m && final(self).index == next,
                Err(f) => r matches Err(e) && parse_reports(e, f),
            },
    {
        let ghost t = self.tokens@;
        let ghost k0 = self.index as int;
        let start = self.current_span();
        self.expect_char('<')?;
        self.expect_char('!')?;
        proof {
            lemma_chars_between_empty(t, k0 + 2);
        }
        let mut value = String::new();
        while !self.is_eof() && !self.current_is_char('>')
            invariant
                self.moved_from(*old(self)),
                t == self.tokens@,
                k0 == old(self).index,
                self.index >= k0 + 2,
                start == tspan(t, k0),
                tchar(t, k0) == Some('<'),
                tchar(t, k0 + 1) == Some('!'),
                doctype_end(t, k0 + 2) == doctype_end(t, self.index as int),
                value@ == chars_between(t, k0 + 2, self.index as int),
            decreases self.tokens@.len() - self.index,
        {
            let ghost idx = self.index as int;
            match self.current() {
                Token::Char(ch, _) => {
                    push_char(&mut value, *ch);
                    self.index += 1;
                    proof {
                        lemma_chars_between_push(t, k0 + 2, idx);
                    }
                },
                Token::Interpolation(_, span) => {
                    return Err(parse_error(
                        "html.parse.doctype_interpolation",
                        static_message("Interpolations are not allowed inside a doctype."),
                        *span,
                    ));
                },
                Token::Eof => {},
            }
        }
        if self.current_is_char('>') {
            self.index += 1;
        }
        Ok(DoctypeNode { value: trim(value.as_str()), span: start })
    }

    fn current_is_unquoted_value_char(&self) -> (r: bool)
        requires
            self.wf(),
        ensures
            r == tunquoted_char(self.tokens@, self.index as int),
    {
        match self.current_char() {
            Some(c) => {
                if is_whitespace(c) || c == '>' {
                    false
                } else {
                    let slash_gt = self.starts_with_literal("/>");
                    proof {
                        reveal_strlit("/>");
                        assert("/>"@ =~= seq!['/', '>']);
                    }
                    !slash_gt
                }
            },
            None => false,
        }
    }

    fn parse_attribute_value(&mut self) -> (r: AttributeValue)
        requires
            old(self).wf(),
        ensures
            final(self).moved_from(*old(self)),
            (r.quoted, parts_model(r.parts@)) == value_spec(old(self).tokens@, old(self).index as int).0,
            final(self).index == value_spec(old(self).tokens@, old(self).index as int).1,
    {
        let ghost t = self.tokens@;
        let ghost k0 = self.index as int;
        if self.current_is_char('"') || self.current_is_char('\'') {
            let quote = self.current_char().unwrap();
            self.index += 1;
            let mut parts: Vec<ValuePart> = Vec::new();
            let mut text = String::new();
            proof {
                assert(parts_model(parts@) =~= Seq::<PartM>::empty());
                assert(text@ =~= Seq::<char>::empty());
            }
            while !self.is_eof() && !self.current_is_char(quote)
                invariant
                    self.moved_from(*old(self)),
                    t == self.tokens@,
                    k0 == old(self).index,
                    quote == char_at(t, k0),
                    tchar(t, k0) == Some('"') || tchar(t, k0) == Some('\''),
                    quoted_parts(t, k0 + 1, quote, Seq::empty(), Seq::empty())
                        == quoted_parts(t, self.index as int, quote, parts_model(parts@), text@),
                decreases self.tokens@.len() - self.index,
            {
                let ghost idx = self.index as int;
                let ghost before = parts@;
                match self.take_interpolation() {
                    Some(interpolation) => {
                        if !text.as_str().is_empty() {
                            let ghost mid = parts@;
                            parts.push(ValuePart::Text(text));
                            proof {
                                lemma_parts_model_push(mid, parts@.last());
                                assert(parts@ == mid.push(parts@.last()));
                            }
                            text = String::new();
                        }
                        let ghost mid = parts@;
                        parts.push(ValuePart::Interpolation(interpolation));
                        proof {
                            lemma_parts_model_push(mid, ValuePart::Interpolation(interpolation));
                            assert(text@ =~= Seq::<char>::empty());
                        }
                    },
                    None => {
                        let c = self.current_char().unwrap();
                        push_char(&mut text, c);
                        self.index += 1;
                        proof {
                            assert(char_at(t, idx) == c);
                        }
                    },
                }
            }
            if self.current_is_char(quote) {
                self.index += 1;
            }
            if !text.as_str().is_empty() {
                let ghost mid = parts@;
                parts.push(ValuePart::Text(text));
                proof {
                    lemma_parts_model_push(mid, parts@.last());
                    assert(parts@ == mid.push(parts@.last()));
                }
            }
            return AttributeValue { quoted: true, parts };
        }
        match self.take_interpolation() {
            Some(interpolation) => {
                let parts = vec![ValuePart::Interpolation(interpolation)];
                proof {
                    assert(parts_model(parts@) =~= seq![PartM::Interpolation(interpolation)]);
                }
                return AttributeValue { quoted: false, parts };
            },
            None => {},
        }
        let ghost end = unquoted_end(t, k0);
        proof {
            lemma_unquoted_end_ge(t, k0);
            lemma_chars_between_empty(t, k0);
        }
        let mut text = String::new();
        while self.current_is_unquoted_value_char()
            invariant
                self.moved_from(*old(self)),
                t == self.tokens@,
                k0 == old(self).index,
                end == unquoted_end(t, k0),
                unquoted_end(t, self.index as int) == end,
                self.index <= end,
                text@ == chars_between(t, k0, self.index as int),
            decreases self.tokens@.len() - self.index,
        {
            let ghost idx = self.index as int;
            let c = self.current_char().unwrap();
            push_char(&mut text, c);
            self.index += 1;
            proof {
                lemma_chars_between_push(t, k0, idx);
                lemma_unquoted_end_ge(t, idx + 1);
            }
        }
        let parts = vec![ValuePart::Text(text)];
        proof {
            assert(parts_model(parts@) =~= seq![PartM::Text(text@)]);
        }
        AttributeValue { quoted: false, parts }
    }

    fn parse_attribute(&mut self) -> (r: BackendResult<Attribute>)
        requires
            old(self).wf(),
        ensures
            final(self).moved_from(*old(self)),
            r is Ok ==> final(self).index > old(self).index,
            r matches Ok(a) ==> valid_name(a.name@),
            r matches Err(e) ==> e.kind == ErrorKind::Parse,
            match attribute_spec(old(self).tokens@, old(self).index as int) {
                Ok((m, next)) => r matches Ok(a) && attr_model(AttributeLike::Attribute(a)) == m
                    && final(self).index == next,
                Err(f) => r matches Err(e) && parse_reports(e, f),
            },
    {
        let span = self.current_span();
        let name = self.parse_name()?;
        self.skip_whitespace();
        if !self.current_is_char('=') {
            return Ok(Attribute { name, value: None, span });
        }
        self.index += 1;
        self.skip_whitespace();
        let value = self.parse_attribute_value();
        Ok(Attribute { name, value: Some(value), span })
    }
}

/// The node a tag becomes: a component when its name starts with an uppercase
/// letter, else a raw-text element for the raw-text tags, else an element.
fn build_tag_node(
    name: String,
    attributes: Vec<AttributeLike>,
    children: Vec<Node>,
    self_closing: bool,
    span: Option<SourceSpan>,
) -> (r: Node)
    requires
        valid_name(name@),
        attrs_wf(attributes@),
        nodes_wf(children@),
        raw_text_tag_spec(name@) ==> raw_children(children@),
        self_closing ==> children@.len() == 0,
    ensures
        node_wf(r),
        node_model(r) == tag_node(name@, attrs_model(attributes@), nodes_model(children@), self_closing, span),
{
    if classify_is_component(name.as_str()) {
        Node::ComponentTag(ComponentTagNode { name, attributes, children, self_closing, span })
    } else if is_raw_text_tag(name.as_str()) {
        Node::RawTextElement(RawTextElementNode { name, attributes, children, span })
    } else {
        Node::Element(ElementNode { name, attributes, children, self_closing, span })
    }
}

impl Parser {
    fn parse_tag(&mut self) -> (r: BackendResult<Node>)
        requires
            old(self).wf(),
        ensures
            final(self).moved_from(*old(self)),
            r is Ok ==> final(self).index > old(self).index,
            r matches Ok(n) ==> node_wf(n),
            r matches Err(e) ==> e.kind == ErrorKind::Parse,
            match tag_spec(old(self).tokens@, old(self).index as int) {
                Ok((m, next)) => r matches Ok(n) && node_model(n) == m && final(self).index == next,
                Err(f) => r matches Err(e) && parse_reports(e, f),
            },
        decreases old(self).tokens@.len() - old(self).index, 0int,
    {
        let ghost t = self.tokens@;
        let ghost k0 = self.index as int;
        let start = self.current_span();
        self.expect_char('<')?;
        let name = self.parse_name()?;
        let mut attributes: Vec<AttributeLike> = Vec::new();
        let ghost after = self.index as int;
        proof {
            assert(attrs_model(attributes@) =~= Seq::<AttrM>::empty());
        }
        loop
            invariant_except_break
                attrs_spec(t, after, name@, start, Seq::empty())
                    == attrs_spec(t, self.index as int, name@, start, attrs_model(attributes@)),
            invariant
                self.moved_from(*old(self)),
                t == self.tokens@,
                k0 == old(self).index,
                start == tspan(t, k0),
                tchar(t, k0) == Some('<'),
                name_spec(t, k0 + 1) == Ok::<(Seq<char>, int), Failure>((name@, after)),
                self.index > old(self).index,
                attrs_wf(attributes@),
                valid_name(name@),
            ensures
                self.moved_from(*old(self)),
                self.index > old(self).index,
                attrs_wf(attributes@),
                attrs_spec(t, after, name@, start, Seq::empty())
                    == Ok::<(Seq<AttrM>, bool, int), Failure>((attrs_model(attributes@), false, self.index as int)),
            decreases self.tokens@.len() - self.index,
        {
            let ghost k = self.index as int;
            self.skip_whitespace();
            let ghost p = self.index as int;
            proof {
                reveal_strlit("/>");
                assert("/>"@ =~= seq!['/', '>']);
            }
            if self.starts_with_literal("/>") {
                self.consume_literal("/>");
                let node = build_tag_node(name, attributes, Vec::new(), true, start);
                proof {
                    assert(nodes_model(Seq::<Node>::empty()) =~= Seq::<NodeM>::empty());
                }
                return Ok(node);
            }
            if self.current_is_char('>') {
                self.index += 1;
                break;
            }
            if self.is_eof() {
                return Err(parse_error("html.parse.unclosed_start_tag", concat3("Unclosed start tag <", name.as_str(), ">."), start));
            }
            let ghost before = attributes@;
            match self.take_interpolation() {
                Some(interpolation) => {
                    let span = interpolation.span;
                    attributes.push(AttributeLike::SpreadAttribute(SpreadAttribute { interpolation, span }));
                    proof {
                        lemma_attrs_model_push(before, attributes@.last());
                        assert(attributes@ == before.push(attributes@.last()));
                    }
                },
                None => {
                    let attribute = self.parse_attribute()?;
                    attributes.push(AttributeLike::Attribute(attribute));
                    proof {
                        lemma_attrs_model_push(before, attributes@.last());
                        assert(attributes@ == before.push(attributes@.last()));
                    }
                },
            }
        }
        let raw = is_raw_text_tag(name.as_str());
        let children = self.parse_nodes(Some(name.as_str()), raw)?;
        let span = merge_span_opt(start, merge_children_span(&children));
        proof {
            lemma_nodes_m_span(children@);
        }
        Ok(build_tag_node(name, attributes, children, false, span))
    }

    #[verifier::rlimit(60)]
    fn parse_nodes(&mut self, closing_tag: Option<&str>, raw_text_mode: bool) -> (r: BackendResult<Vec<Node>>)
        requires
            old(self).wf(),
            raw_text_mode ==> closing_tag is Some,
        ensures
            final(self).moved_from(*old(self)),
            r matches Ok(ns) ==> nodes_wf(ns@) && (raw_text_mode ==> raw_children(ns@)),
            r matches Err(e) ==> e.kind == ErrorKind::Parse,
            match nodes_spec(old(self).tokens@, old(self).index as int, closing_spec(closing_tag), raw_text_mode, Seq::empty()) {
                Ok((ms, end)) => r matches Ok(ns) && nodes_model(ns@) == ms && final(self).index == end,
                Err(f) => r matches Err(e) && parse_reports(e, f),
            },
        decreases old(self).tokens@.len() - old(self).index, 1int,
    {
        let ghost t = self.tokens@;
        let ghost k0 = self.index as int;
        let ghost closing = closing_spec(closing_tag);
        let mut children: Vec<Node> = Vec::new();
        proof {
            assert(nodes_model(children@) =~= Seq::<NodeM>::empty());
            reveal_strlit("</");
            assert("</"@ =~= seq!['<', '/']);
        }
        loop
            invariant_except_break
                nodes_spec(t, k0, closing, raw_text_mode, Seq::empty())
                    == nodes_spec(t, self.index as int, closing, raw_text_mode, nodes_model(children@)),
            invariant
                self.moved_from(*old(self)),
                t == self.tokens@,
                k0 == old(self).index,
                closing == closing_spec(closing_tag),
                "</"@ == seq!['<', '/'],
                nodes_wf(children@),
                raw_text_mode ==> raw_children(children@),
                raw_text_mode ==> closing_tag is Some,
            ensures
                self.moved_from(*old(self)),
                nodes_wf(children@),
                raw_text_mode ==> raw_children(children@),
                nodes_spec(t, k0, closing, raw_text_mode, Seq::empty())
                    == Ok::<(Seq<NodeM>, int), Failure>((nodes_model(children@), self.index as int)),
            decreases self.tokens@.len() - self.index,
        {
            let ghost before = children@;
            let ghost k = self.index as int;
            if self.is_eof() {
                match closing_tag {
                    Some(name) => {
                        return Err(parse_error("html.parse.unclosed_tag", concat3("Unclosed tag <", name, ">."), self.current_span()));
                    },
                    None => {},
                }
                break;
            }
            match closing_tag {
                Some(name) => {
                    if self.starts_with_literal("</") {
                        let close_span = self.current_span();
                        self.consume_literal("</");
                        self.skip_whitespace();
                        let close_name = self.parse_name()?;
                        self.skip_whitespace();
                        self.expect_char('>')?;
                        if !str_eq(close_name.as_str(), name) {
                            return Err(parse_error(
                                "html.parse.mismatched_tag",
                                concat5("Mismatched closing tag </", close_name.as_str(), ">. Expected </", name, ">."),
                                close_span,
                            ));
                        }
                        break;
                    }
                    if raw_text_mode {
                        match self.parse_raw_text_chunk(name) {
                            Some(node) => {
                                children.push(node);
                                proof {
                                    lemma_nodes_wf_push(before, node);
                                    lemma_nodes_model_push(before, node);
                                    assert(children@ == before.push(node));
                                }
                                continue;
                            },
                            None => {
                                proof {
                                    if !self.at_eof() {
                                        let lit = seq!['<', '/'] + name@;
                                        assert(tstarts(self.tokens@, self.index as int, lit));
                                        assert(lit[0] == '<');
                                        assert(lit[1] == '/');
                                        assert(tchar(self.tokens@, self.index + 0) == Some(lit[0]));
                                        assert(tchar(self.tokens@, self.index + 1) == Some(lit[1]));
                                        assert(tstarts(self.tokens@, self.index as int, "</"@));
                                        assert(false);
                                    }
                                }
                            },
                        }
                    }
                },
                None => {},
            }
            if self.is_eof() {
                break;
            }
            proof {
                assert(!raw_text_mode);
            }
            if self.starts_with_literal("<!--") {
                let comment = self.parse_comment()?;
                let node = Node::Comment(comment);
                children.push(node);
                proof {
                    lemma_nodes_wf_push(before, node);
                    lemma_nodes_model_push(before, node);
                    assert(children@ == before.push(node));
                }
                continue;
            }
            if self.starts_with_doctype() {
                let doctype = self.parse_doctype()?;
                let node = Node::Doctype(doctype);
                children.push(node);
                proof {
                    lemma_nodes_wf_push(before, node);
                    lemma_nodes_model_push(before, node);
                    assert(children@ == before.push(node));
                }
                continue;
            }
            if self.current_is_char('<') {
                let node = self.parse_tag()?;
                children.push(node);
                proof {
                    lemma_nodes_wf_push(before, node);
                    lemma_nodes_model_push(before, node);
                    assert(children@ == before.push(node));
                }
                continue;
            }
            match self.take_interpolation() {
                Some(interpolation) => {
                    let node = Node::Interpolation(interpolation);
                    children.push(node);
                    proof {
                        lemma_nodes_wf_push(before, node);
                        lemma_nodes_model_push(before, node);
                        assert(children@ == before.push(node));
                    }
                    continue;
                },
                None => {},
            }
            let text = self.parse_text();
            let node = Node::Text(text);
            children.push(node);
            proof {
                lemma_nodes_wf_push(before, node);
                lemma_nodes_model_push(before, node);
                assert(children@ == before.push(node));
            }
        }
        Ok(children)
    }

    fn parse_document(&mut self) -> (r: BackendResult<Document>)
        requires
            old(self).wf(),
            old(self).index == 0,
        ensures
            r matches Ok(d) ==> nodes_wf(d.children@),
            r matches Err(e) ==> e.kind == ErrorKind::Parse,
            match document_spec(old(self).tokens@) {
                Ok((ms, span)) => r matches Ok(d) && nodes_model(d.children@) == ms && d.span == span,
                Err(f) => r matches Err(e) && parse_reports(e, f),
            },
    {
        let children = self.parse_nodes(None, false)?;
        let span = merge_children_span(&children);
        proof {
            lemma_nodes_m_span(children@);
        }
        Ok(Document { children, span })
    }
}

/// The tokens of a template: its characters and interpolations in order, then
/// the end.
pub open spec fn template_tokens(template: TemplateInput) -> Seq<Token> {
    flatten_spec(template.segments@).map_values(|item: StreamItem| token_of(item))
}

/// Parses a template into a document. A parsed document is well formed in the
/// sense of [`nodes_wf`]; every failure is a parse error. Which document, and
/// which failure, is [`document_spec`] of the template's tokens.
pub fn parse_template(template: &TemplateInput) -> (r: BackendResult<Document>)
    ensures
        r matches Ok(d) ==> nodes_wf(d.children@),
        r matches Err(e) ==> e.kind == ErrorKind::Parse,
        match document_spec(template_tokens(*template)) {
            Ok((ms, span)) => r matches Ok(d) && nodes_model(d.children@) == ms && d.span == span,
            Err(f) => r matches Err(e) && parse_reports(e, f),
        },
{
    let mut parser = Parser::new(template);
    parser.parse_document()
}

} // verus!
