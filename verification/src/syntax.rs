//! Template input, source spans and diagnostics shared by every backend.

use vstd::prelude::*;
use crate::text::{chars_of, push_char};

verus! {

/// A position in a template: the segment it falls in and the character offset
/// inside that segment.
#[derive(Clone, Copy, Debug, PartialEq, Eq, Structural)]
pub struct SourcePosition {
    pub token_index: usize,
    pub offset: usize,
}

/// A range of a template between two positions.
#[derive(Clone, Copy, Debug, PartialEq, Eq, Structural)]
pub struct SourceSpan {
    pub start: SourcePosition,
    pub end: SourcePosition,
}

impl SourceSpan {
    pub fn point(token_index: usize, offset: usize) -> (r: Self)
        ensures
            r.start == (SourcePosition { token_index, offset }),
            r.end == r.start,
    {
        let position = SourcePosition { token_index, offset };
        SourceSpan { start: position, end: position }
    }

    pub fn between(start: SourcePosition, end: SourcePosition) -> (r: Self)
        ensures
            r.start == start,
            r.end == end,
    {
        SourceSpan { start, end }
    }

    pub fn extend(&self, end: SourcePosition) -> (r: Self)
        ensures
            r.start == self.start,
            r.end == end,
    {
        SourceSpan { start: self.start, end }
    }

    /// The span from the start of `self` to the end of `other`.
    pub fn merge(&self, other: &Self) -> (r: Self)
        ensures
            r.start == self.start,
            r.end == other.end,
    {
        SourceSpan { start: self.start, end: other.end }
    }
}

pub open spec fn merge_span_opt_spec(left: Option<SourceSpan>, right: Option<SourceSpan>) -> Option<SourceSpan> {
    match (left, right) {
        (Some(l), Some(r)) => Some(SourceSpan { start: l.start, end: r.end }),
        (Some(l), None) => Some(l),
        (None, Some(r)) => Some(r),
        (None, None) => None,
    }
}

/// Merges two optional spans: both present give their merge, one gives itself.
pub fn merge_span_opt(left: Option<SourceSpan>, right: Option<SourceSpan>) -> (r: Option<SourceSpan>)
    ensures
        r == merge_span_opt_spec(left, right),
{
    match (left, right) {
        (Some(left), Some(right)) => Some(left.merge(&right)),
        (Some(left), None) => Some(left),
        (None, Some(right)) => Some(right),
        (None, None) => None,
    }
}

/// One interpolation of a template, with the source text that wrote it when known.
#[derive(Debug, PartialEq, Eq)]
pub struct TemplateInterpolation {
    pub expression: String,
    pub conversion: Option<String>,
    pub format_spec: String,
    pub interpolation_index: usize,
    pub raw_source: Option<String>,
}

pub fn clone_opt_string(s: &Option<String>) -> (r: Option<String>)
    ensures
        r == *s,
{
    match s {
        Some(v) => Some(v.clone()),
        None => None,
    }
}

impl Clone for TemplateInterpolation {
    fn clone(&self) -> (r: Self)
        ensures
            r == *self,
    {
        TemplateInterpolation {
            expression: self.expression.clone(),
            conversion: clone_opt_string(&self.conversion),
            format_spec: self.format_spec.clone(),
            interpolation_index: self.interpolation_index,
            raw_source: clone_opt_string(&self.raw_source),
        }
    }
}

pub open spec fn slot_label() -> Seq<char> {
    seq!['s', 'l', 'o', 't']
}

/// The expression, or `slot` when it is empty.
pub open spec fn expression_label_spec(i: TemplateInterpolation) -> Seq<char> {
    if i.expression@.len() == 0 {
        slot_label()
    } else {
        i.expression@
    }
}

impl TemplateInterpolation {
    pub fn expression_label(&self) -> (r: String)
        ensures
            r@ == expression_label_spec(*self),
    {
        if self.expression.as_str().is_empty() {
            let mut s = String::new();
            crate::text::push_char(&mut s, 's');
            crate::text::push_char(&mut s, 'l');
            crate::text::push_char(&mut s, 'o');
            crate::text::push_char(&mut s, 't');
            s
        } else {
            self.expression.clone()
        }
    }
}

/// A piece of a template: static text or an interpolation.
#[derive(Debug, PartialEq, Eq)]
pub enum TemplateSegment {
    StaticText(String),
    Interpolation(TemplateInterpolation),
}

/// A template as a sequence of segments.
#[derive(Debug, PartialEq, Eq)]
pub struct TemplateInput {
    pub segments: Vec<TemplateSegment>,
}

/// One item of the character stream of a template.
#[derive(Debug, PartialEq, Eq)]
pub enum StreamItem {
    Char { ch: char, span: SourceSpan },
    Interpolation { interpolation: TemplateInterpolation, interpolation_index: usize, span: SourceSpan },
    Eof { span: SourceSpan },
}

pub open spec fn item_span(item: StreamItem) -> SourceSpan {
    match item {
        StreamItem::Char { span, .. } => span,
        StreamItem::Interpolation { span, .. } => span,
        StreamItem::Eof { span } => span,
    }
}

/// The item of the character at offset `k` of static segment `token_index`.
pub open spec fn char_item(t: Seq<char>, token_index: nat, k: int) -> StreamItem {
    StreamItem::Char {
        ch: t[k],
        span: SourceSpan {
            start: SourcePosition { token_index: token_index as usize, offset: k as usize },
            end: SourcePosition { token_index: token_index as usize, offset: (k + 1) as usize },
        },
    }
}

/// The stream items of one segment: each character of a static text with the
/// span of that character, or the interpolation with a point span at offset 0.
pub open spec fn segment_items(seg: TemplateSegment, token_index: nat) -> Seq<StreamItem> {
    match seg {
        TemplateSegment::StaticText(t) => Seq::new(t@.len(), |k: int| char_item(t@, token_index, k)),
        TemplateSegment::Interpolation(i) => seq![
            StreamItem::Interpolation {
                interpolation: i,
                interpolation_index: i.interpolation_index,
                span: SourceSpan {
                    start: SourcePosition { token_index: token_index as usize, offset: 0 },
                    end: SourcePosition { token_index: token_index as usize, offset: 0 },
                },
            },
        ],
    }
}

/// The items of the first `n` segments, in order.
pub open spec fn segments_items(segs: Seq<TemplateSegment>, n: nat) -> Seq<StreamItem>
    decreases n,
{
    if n == 0 {
        Seq::empty()
    } else {
        segments_items(segs, (n - 1) as nat) + segment_items(segs[n - 1], (n - 1) as nat)
    }
}

/// The character stream of a template: the items of every segment, then an end
/// marker whose span is that of the last item (a point at the origin when there
/// is none).
pub open spec fn flatten_spec(segs: Seq<TemplateSegment>) -> Seq<StreamItem> {
    let items = segments_items(segs, segs.len());
    let eof_span = if items.len() == 0 {
        SourceSpan {
            start: SourcePosition { token_index: 0, offset: 0 },
            end: SourcePosition { token_index: 0, offset: 0 },
        }
    } else {
        item_span(items.last())
    };
    items.push(StreamItem::Eof { span: eof_span })
}

/// The segments of the first `n` interpolations with the static text before
/// each, empty texts left out.
pub open spec fn parts_segments(strings: Seq<String>, interpolations: Seq<TemplateInterpolation>, n: nat) -> Seq<TemplateSegment>
    decreases n,
{
    if n == 0 {
        Seq::empty()
    } else {
        let before = parts_segments(strings, interpolations, (n - 1) as nat);
        let text = strings[n - 1];
        let with_text = if text@.len() > 0 { before.push(TemplateSegment::StaticText(text)) } else { before };
        with_text.push(TemplateSegment::Interpolation(interpolations[n - 1]))
    }
}

/// The segments of a template given as its static strings and the
/// interpolations between them: each non-empty string, then its interpolation,
/// and the last string when it is not empty or when nothing else is there.
pub open spec fn from_parts_spec(strings: Seq<String>, interpolations: Seq<TemplateInterpolation>) -> Seq<TemplateSegment> {
    let body = parts_segments(strings, interpolations, interpolations.len());
    let tail = strings.last();
    if tail@.len() > 0 || body.len() == 0 {
        body.push(TemplateSegment::StaticText(tail))
    } else {
        body
    }
}

impl TemplateInput {
    pub fn from_segments(segments: Vec<TemplateSegment>) -> (r: Self)
        ensures
            r.segments@ == segments@,
    {
        TemplateInput { segments }
    }

    /// A template from its static strings and the interpolations between them
    /// (one string more than interpolations).
    pub fn from_parts(strings: Vec<String>, interpolations: Vec<TemplateInterpolation>) -> (r: Self)
        requires
            strings@.len() == interpolations@.len() + 1,
        ensures
            r.segments@ == from_parts_spec(strings@, interpolations@),
    {
        let mut segments: Vec<TemplateSegment> = Vec::new();
        let mut k: usize = 0;
        while k < interpolations.len()
            invariant
                k <= interpolations@.len(),
                strings@.len() == interpolations@.len() + 1,
                segments@ == parts_segments(strings@, interpolations@, k as nat),
            decreases interpolations.len() - k,
        {
            let text = strings[k].clone();
            if !text.as_str().is_empty() {
                segments.push(TemplateSegment::StaticText(text));
            }
            segments.push(TemplateSegment::Interpolation(interpolations[k].clone()));
            k += 1;
        }
        let tail = strings[strings.len() - 1].clone();
        if !tail.as_str().is_empty() || segments.len() == 0 {
            segments.push(TemplateSegment::StaticText(tail));
        }
        TemplateInput { segments }
    }

    /// The first interpolation segment with the given index.
    pub fn interpolation(&self, interpolation_index: usize) -> (r: Option<&TemplateInterpolation>)
        ensures
            match r {
                Some(i) => exists|k: int|
                    0 <= k < self.segments@.len() && self.segments@[k] == TemplateSegment::Interpolation(*i)
                        && i.interpolation_index == interpolation_index
                        && forall|j: int| 0 <= j < k ==> !(#[trigger] self.segments@[j] matches TemplateSegment::Interpolation(x)
                            && x.interpolation_index == interpolation_index),
                None => forall|j: int| 0 <= j < self.segments@.len() ==> !(#[trigger] self.segments@[j] matches TemplateSegment::Interpolation(x)
                    && x.interpolation_index == interpolation_index),
            },
    {
        let mut k: usize = 0;
        while k < self.segments.len()
            invariant
                k <= self.segments@.len(),
                forall|j: int| 0 <= j < k ==> !(#[trigger] self.segments@[j] matches TemplateSegment::Interpolation(x)
                    && x.interpolation_index == interpolation_index),
            decreases self.segments.len() - k,
        {
            match &self.segments[k] {
                TemplateSegment::Interpolation(i) => {
                    if i.interpolation_index == interpolation_index {
                        return Some(i);
                    }
                },
                TemplateSegment::StaticText(_) => {},
            }
            k += 1;
        }
        None
    }

    /// The character stream of the template, as [`flatten_spec`].
    pub fn flatten(&self) -> (r: Vec<StreamItem>)
        ensures
            r@ == flatten_spec(self.segments@),
    {
        let mut items: Vec<StreamItem> = Vec::new();
        let mut t: usize = 0;
        while t < self.segments.len()
            invariant
                t <= self.segments@.len(),
                items@ == segments_items(self.segments@, t as nat),
            decreases self.segments.len() - t,
        {
            let ghost before = items@;
            match &self.segments[t] {
                TemplateSegment::StaticText(text) => {
                    let chars = chars_of(text.as_str());
                    proof {
                        assert(self.segments@[t as int] == TemplateSegment::StaticText(*text));
                        assert(segment_items(TemplateSegment::StaticText(*text), t as nat).len() == text@.len());
                    }
                    let mut offset: usize = 0;
                    while offset < chars.len()
                        invariant
                            offset <= chars@.len(),
                            t < self.segments@.len(),
                            chars@ == text@,
                            self.segments@[t as int] == TemplateSegment::StaticText(*text),
                            items@ == before + segment_items(self.segments@[t as int], t as nat).subrange(0, offset as int),
                        decreases chars.len() - offset,
                    {
                        let ghost pre = items@;
                        items.push(StreamItem::Char {
                            ch: chars[offset],
                            span: SourceSpan::between(
                                SourcePosition { token_index: t, offset },
                                SourcePosition { token_index: t, offset: offset + 1 },
                            ),
                        });
                        proof {
                            let si = segment_items(self.segments@[t as int], t as nat);
                            assert(si.len() == chars@.len());
                            assert(si[offset as int] == items@.last());
                            assert(si.subrange(0, offset + 1) =~= si.subrange(0, offset as int).push(si[offset as int]));
                        }
                        offset += 1;
                    }
                    proof {
                        let si = segment_items(self.segments@[t as int], t as nat);
                        assert(si.subrange(0, si.len() as int) == si);
                    }
                },
                TemplateSegment::Interpolation(interpolation) => {
                    items.push(StreamItem::Interpolation {
                        interpolation: interpolation.clone(),
                        interpolation_index: interpolation.interpolation_index,
                        span: SourceSpan::point(t, 0),
                    });
                    proof {
                        assert(items@ == before + segment_items(self.segments@[t as int], t as nat));
                    }
                },
            }
            t += 1;
        }
        let eof_span = if items.len() == 0 {
            SourceSpan::point(0, 0)
        } else {
            match &items[items.len() - 1] {
                StreamItem::Char { span, .. } => *span,
                StreamItem::Interpolation { span, .. } => *span,
                StreamItem::Eof { span } => *span,
            }
        };
        items.push(StreamItem::Eof { span: eof_span });
        items
    }
}

/// The broad class of a backend error.
#[derive(Clone, Copy, Debug, PartialEq, Eq, Structural)]
pub enum ErrorKind {
    Parse,
    Semantic,
    Unrepresentable,
}

#[derive(Clone, Copy, Debug, PartialEq, Eq, Structural)]
pub enum DiagnosticSeverity {
    Error,
    Warning,
}

/// A coded message about a place of the template.
#[derive(Clone, Debug, PartialEq, Eq)]
pub struct Diagnostic {
    pub code: String,
    pub message: String,
    pub severity: DiagnosticSeverity,
    pub span: Option<SourceSpan>,
}

/// An error of a backend: its kind, its message and the diagnostics behind it.
#[derive(Debug, PartialEq, Eq)]
pub struct BackendError {
    pub kind: ErrorKind,
    pub message: String,
    pub diagnostics: Vec<Diagnostic>,
}

pub type BackendResult<T> = Result<T, BackendError>;

/// `e` is an error of the given kind, with the given message and a single error
/// diagnostic that carries the code, the same message and the span.
pub open spec fn error_is(e: BackendError, kind: ErrorKind, code: Seq<char>, message: Seq<char>, span: Option<SourceSpan>) -> bool {
    &&& e.kind == kind
    &&& e.message@ == message
    &&& e.diagnostics@.len() == 1
    &&& e.diagnostics@[0].code@ == code
    &&& e.diagnostics@[0].message@ == message
    &&& e.diagnostics@[0].severity == DiagnosticSeverity::Error
    &&& e.diagnostics@[0].span == span
}

impl BackendError {
    pub fn with_kind(kind: ErrorKind, code: String, message: String, span: Option<SourceSpan>) -> (r: Self)
        ensures
            error_is(r, kind, code@, message@, span),
    {
        let diagnostic = Diagnostic {
            code,
            message: message.clone(),
            severity: DiagnosticSeverity::Error,
            span,
        };
        BackendError { kind, message, diagnostics: vec![diagnostic] }
    }

    pub fn parse_at(code: String, message: String, span: Option<SourceSpan>) -> (r: Self)
        ensures
            error_is(r, ErrorKind::Parse, code@, message@, span),
    {
        Self::with_kind(ErrorKind::Parse, code, message, span)
    }

    pub fn semantic_at(code: String, message: String, span: Option<SourceSpan>) -> (r: Self)
        ensures
            error_is(r, ErrorKind::Semantic, code@, message@, span),
    {
        Self::with_kind(ErrorKind::Semantic, code, message, span)
    }
}

/// The source of an interpolation as written in a template: the expression,
/// then `!` and the conversion when there is one, then `:` and the format spec
/// when it is not empty, all in braces.
pub open spec fn raw_source_spec(expression: Seq<char>, conversion: Option<Seq<char>>, format_spec: Seq<char>) -> Seq<char> {
    seq!['{'] + expression + match conversion {
        Some(c) => seq!['!'] + c,
        None => Seq::empty(),
    } + if format_spec.len() > 0 {
        seq![':'] + format_spec
    } else {
        Seq::empty()
    } + seq!['}']
}

/// Writes the source of an interpolation from its parts, as [`raw_source_spec`].
pub fn build_raw_source(expression: &str, conversion: Option<&str>, format_spec: &str) -> (r: String)
    ensures
        r@ == raw_source_spec(
            expression@,
            match conversion {
                Some(c) => Some(c@),
                None => None,
            },
            format_spec@,
        ),
{
    let mut raw = String::new();
    push_char(&mut raw, '{');
    raw.append(expression);
    let ghost after_expression = raw@;
    match conversion {
        Some(c) => {
            push_char(&mut raw, '!');
            raw.append(c);
        },
        None => {},
    }
    let ghost after_conversion = raw@;
    if !format_spec.is_empty() {
        push_char(&mut raw, ':');
        raw.append(format_spec);
    }
    push_char(&mut raw, '}');
    proof {
        let conv = match conversion {
            Some(c) => seq!['!'] + c@,
            None => Seq::<char>::empty(),
        };
        let spec_part = if format_spec@.len() > 0 { seq![':'] + format_spec@ } else { Seq::<char>::empty() };
        assert(after_expression =~= seq!['{'] + expression@);
        assert(after_conversion =~= seq!['{'] + expression@ + conv);
        assert(raw@ =~= seq!['{'] + expression@ + conv + spec_part + seq!['}']);
    }
    raw
}

} // verus!
