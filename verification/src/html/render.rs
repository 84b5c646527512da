//! Rendering of validated HTML documents with runtime values: escaping of text
//! and attributes, class normalization, spread attributes and boolean attributes.

use vstd::prelude::*;
use crate::syntax::{SourceSpan, BackendError, BackendResult, ErrorKind, error_is};
use crate::text::{
    chars_of, is_whitespace, is_unicode_whitespace, ascii_lower, ascii_lower_spec, ascii_lower_seq, ascii_lowercase,
    strip_prefix, concat5, push_char, str_eq, concat3, bool_to_text, bool_text, i64_to_text, int_decimal, split_ascii_words,
    split_words, join_with_space, join_space,
};
use crate::escape::{escape_html_text, escape_html_attribute, escape_text_spec, escape_attr_spec};
use super::ast::{
    Node, Document, AttributeLike, Attribute, AttributeValue, ValuePart, SpreadAttribute, InterpolationNode,
    RawTextElementNode, RuntimeValue, RuntimeContext, raw_text_allows_interpolation,
};
use super::validate::{Failure, reports, has_interpolation_part};
use crate::components::{valid_attribute_name, is_valid_attribute_name};

verus! {

/// A runtime error: a semantic error with the given code, message and span.
pub fn runtime_error(code: &str, message: String, span: Option<SourceSpan>) -> (r: BackendError)
    ensures
        error_is(r, ErrorKind::Semantic, code@, message@, span),
{
    BackendError::semantic_at(code.to_owned(), message, span)
}

pub open spec fn child_type_failure() -> Failure {
    Failure {
        code: "html.runtime.child_type"@,
        message: "Mapping-like values cannot be rendered as children."@,
        span: None,
    }
}

pub open spec fn scalar_type_failure() -> Failure {
    Failure {
        code: "html.runtime.scalar_type"@,
        message: "Value cannot be stringified in this position."@,
        span: None,
    }
}

/// The text of a scalar value: nothing for `Null`, `true`/`false`, the decimal
/// text of a number, and the string itself for strings and raw HTML; containers
/// cannot be stringified.
pub open spec fn stringify_spec(v: RuntimeValue) -> Result<Seq<char>, Failure> {
    match v {
        RuntimeValue::Null => Ok(Seq::empty()),
        RuntimeValue::Bool(b) => Ok(bool_text(b)),
        RuntimeValue::Int(i) => Ok(int_decimal(i as int)),
        RuntimeValue::Float(f) => Ok(f.display@),
        RuntimeValue::String(s) => Ok(s@),
        RuntimeValue::RawHtml(s) => Ok(s@),
        _ => Err(scalar_type_failure()),
    }
}

/// A value rendered as a child: scalars are escaped, raw HTML is written as it
/// is, fragments and sequences render their items in order, and mappings are
/// rejected. With `escape_raw`, raw HTML is escaped too (the `title` case).
pub open spec fn child_spec(v: RuntimeValue, escape_raw: bool) -> Result<Seq<char>, Failure>
    decreases v,
{
    match v {
        RuntimeValue::Null => Ok(Seq::empty()),
        RuntimeValue::Bool(b) => Ok(escape_text_spec(bool_text(b))),
        RuntimeValue::Int(i) => Ok(escape_text_spec(int_decimal(i as int))),
        RuntimeValue::Float(f) => Ok(escape_text_spec(f.display@)),
        RuntimeValue::String(s) => Ok(escape_text_spec(s@)),
        RuntimeValue::RawHtml(s) => if escape_raw { Ok(escape_text_spec(s@)) } else { Ok(s@) },
        RuntimeValue::Fragment(vs) => children_spec(vs@, escape_raw),
        RuntimeValue::Sequence(vs) => children_spec(vs@, escape_raw),
        RuntimeValue::Attributes(_) => Err(child_type_failure()),
    }
}

pub open spec fn children_spec(vs: Seq<RuntimeValue>, escape_raw: bool) -> Result<Seq<char>, Failure>
    decreases vs,
{
    if vs.len() == 0 {
        Ok(Seq::empty())
    } else {
        match children_spec(vs.subrange(0, vs.len() - 1), escape_raw) {
            Err(f) => Err(f),
            Ok(a) => match child_spec(vs[vs.len() - 1], escape_raw) {
                Err(f) => Err(f),
                Ok(b) => Ok(a + b),
            },
        }
    }
}

/// Whether a value counts as true in a class mapping.
pub open spec fn truthy_spec(v: RuntimeValue) -> bool {
    match v {
        RuntimeValue::Null => false,
        RuntimeValue::Bool(b) => b,
        RuntimeValue::Int(i) => i != 0,
        RuntimeValue::Float(f) => f.nonzero,
        RuntimeValue::String(s) => s@.len() > 0,
        RuntimeValue::Fragment(vs) => vs@.len() > 0,
        RuntimeValue::Sequence(vs) => vs@.len() > 0,
        RuntimeValue::RawHtml(s) => s@.len() > 0,
        RuntimeValue::Attributes(es) => es@.len() > 0,
    }
}

/// The names of the entries whose value is truthy, in order.
pub open spec fn truthy_names(es: Seq<(String, RuntimeValue)>) -> Seq<Seq<char>>
    decreases es.len(),
{
    if es.len() == 0 {
        Seq::empty()
    } else {
        let rest = truthy_names(es.drop_last());
        if truthy_spec(es.last().1) { rest.push(es.last().0@) } else { rest }
    }
}

/// The class names a value stands for: none for `Null` and `False`, the words
/// of a string, the classes of each item of a sequence or fragment, and the
/// names mapped to truthy values; `True` and other scalars are rejected.
pub open spec fn class_spec(v: RuntimeValue) -> Result<Seq<Seq<char>>, Failure>
    decreases v,
{
    match v {
        RuntimeValue::Null => Ok(Seq::empty()),
        RuntimeValue::Bool(b) => if b {
            Err(Failure { code: "html.runtime.class_bool"@, message: "True is not a supported scalar class value."@, span: None })
        } else {
            Ok(Seq::empty())
        },
        RuntimeValue::String(s) => Ok(split_words(s@)),
        RuntimeValue::Sequence(vs) => classes_spec(vs@),
        RuntimeValue::Fragment(vs) => classes_spec(vs@),
        RuntimeValue::Attributes(es) => Ok(truthy_names(es@)),
        _ => Err(Failure { code: "html.runtime.class_type"@, message: "Unsupported class value type."@, span: None }),
    }
}

pub open spec fn classes_spec(vs: Seq<RuntimeValue>) -> Result<Seq<Seq<char>>, Failure>
    decreases vs,
{
    if vs.len() == 0 {
        Ok(Seq::empty())
    } else {
        match classes_spec(vs.subrange(0, vs.len() - 1)) {
            Err(f) => Err(f),
            Ok(a) => match class_spec(vs[vs.len() - 1]) {
                Err(f) => Err(f),
                Ok(b) => Ok(a + b),
            },
        }
    }
}

/// The value of an interpolation, or the failure for a missing one.
/// A structured value: a fragment, trusted HTML, a sequence or a mapping.
pub open spec fn structured(v: RuntimeValue) -> bool {
    v is Fragment || v is RawHtml || v is Sequence || v is Attributes
}

/// Whether an interpolation carries a conversion or a format spec.
pub open spec fn converted(i: InterpolationNode) -> bool {
    i.conversion is Some || i.format_spec@.len() > 0
}

/// The failure of a conversion or format spec on a structured value.
pub open spec fn conversion_failure(i: InterpolationNode) -> Failure {
    Failure {
        code: "html.runtime.structured_conversion"@,
        message: "Conversions and format specs are not supported on the structured value of '"@ + i.expression@
            + "'."@,
        span: i.span,
    }
}

/// The runtime value of an interpolation: missing values fail, and so does a
/// structured value whose interpolation carries a conversion or a format spec.
pub open spec fn value_spec(ctx: RuntimeContext, i: InterpolationNode) -> Result<RuntimeValue, Failure> {
    if i.interpolation_index < ctx.values@.len() {
        let v = ctx.values@[i.interpolation_index as int];
        if converted(i) && structured(v) {
            Err(conversion_failure(i))
        } else {
            Ok(v)
        }
    } else {
        Err(Failure {
            code: "html.runtime.missing_value"@,
            message: "Missing runtime value for interpolation '"@ + i.expression@ + "'."@,
            span: i.span,
        })
    }
}

pub open spec fn views(ss: Seq<String>) -> Seq<Seq<char>> {
    ss.map_values(|s: String| s@)
}

/// The exec result `r` written into `out` gives `spec`: on success `out` grew by
/// the spec's text, on failure the error reports the spec's failure.
pub open spec fn wrote(r: BackendResult<()>, before: Seq<char>, after: Seq<char>, spec: Result<Seq<char>, Failure>) -> bool {
    match spec {
        Ok(s) => r is Ok && after == before + s,
        Err(f) => r matches Err(e) && reports(e, f),
    }
}

pub fn stringify_runtime_value(value: &RuntimeValue) -> (r: BackendResult<String>)
    ensures
        match stringify_spec(*value) {
            Ok(t) => r matches Ok(x) && x@ == t,
            Err(f) => r matches Err(e) && reports(e, f),
        },
{
    match value {
        RuntimeValue::Null => Ok(String::new()),
        RuntimeValue::Bool(b) => Ok(bool_to_text(*b)),
        RuntimeValue::Int(i) => Ok(i64_to_text(*i)),
        RuntimeValue::Float(f) => Ok(f.display.clone()),
        RuntimeValue::String(s) => Ok(s.clone()),
        RuntimeValue::RawHtml(s) => Ok(s.clone()),
        _ => Err(runtime_error(
            "html.runtime.scalar_type",
            "Value cannot be stringified in this position.".to_owned(),
            None,
        )),
    }
}

fn child_type_error() -> (r: BackendError)
    ensures
        reports(r, child_type_failure()),
{
    runtime_error("html.runtime.child_type", "Mapping-like values cannot be rendered as children.".to_owned(), None)
}

proof fn lemma_children_prefix_err(vs: Seq<RuntimeValue>, escape_raw: bool, i: int)
    requires
        0 <= i <= vs.len(),
        children_spec(vs.subrange(0, i), escape_raw) is Err,
    ensures
        children_spec(vs, escape_raw) == children_spec(vs.subrange(0, i), escape_raw),
    decreases vs.len() - i,
{
    if i < vs.len() {
        let p = vs.subrange(0, i + 1);
        assert(p.subrange(0, p.len() - 1) == vs.subrange(0, i));
        lemma_children_prefix_err(vs, escape_raw, i + 1);
    } else {
        assert(vs.subrange(0, i) == vs);
    }
}

/// Renders a value as child content into `out`, as [`child_spec`]; with
/// `escape_raw`, raw HTML is escaped as text too.
fn render_value(value: &RuntimeValue, escape_raw: bool, out: &mut String) -> (r: BackendResult<()>)
    ensures
        wrote(r, old(out)@, final(out)@, child_spec(*value, escape_raw)),
    decreases value,
{
    match value {
        RuntimeValue::Null => {},
        RuntimeValue::Bool(b) => out.append(escape_html_text(bool_to_text(*b).as_str()).as_str()),
        RuntimeValue::Int(i) => out.append(escape_html_text(i64_to_text(*i).as_str()).as_str()),
        RuntimeValue::Float(f) => out.append(escape_html_text(f.display.as_str()).as_str()),
        RuntimeValue::String(s) => out.append(escape_html_text(s.as_str()).as_str()),
        RuntimeValue::RawHtml(s) => {
            if escape_raw {
                out.append(escape_html_text(s.as_str()).as_str());
            } else {
                out.append(s.as_str());
            }
        },
        RuntimeValue::Fragment(values) | RuntimeValue::Sequence(values) => {
            let ghost start = out@;
            let mut i: usize = 0;
            while i < values.len()
                invariant
                    i <= values@.len(),
                    *value == RuntimeValue::Fragment(*values) || *value == RuntimeValue::Sequence(*values),
                    children_spec(values@.subrange(0, i as int), escape_raw) matches Ok(t) && out@ == start + t,
                decreases values.len() - i,
            {
                proof {
                    let p = values@.subrange(0, i + 1);
                    assert(p.subrange(0, p.len() - 1) == values@.subrange(0, i as int));
                    assert(p[p.len() - 1] == values@[i as int]);
                    if *value == RuntimeValue::Fragment(*values) {
                        assert(decreases_to!(*value => (*value)->Fragment_0));
                    } else {
                        assert(decreases_to!(*value => (*value)->Sequence_0));
                    }
                    assert(decreases_to!(*values => values@));
                    assert(decreases_to!(values@ => values@[i as int]));
                }
                let ghost mid = out@;
                let step = render_value(&values[i], escape_raw, out);
                if step.is_err() {
                    proof {
                        lemma_children_prefix_err(values@, escape_raw, i + 1);
                    }
                    return step;
                }
                proof {
                    let t = children_spec(values@.subrange(0, i as int), escape_raw)->Ok_0;
                    let u = child_spec(values@[i as int], escape_raw)->Ok_0;
                    assert(out@ == start + (t + u));
                }
                i += 1;
            }
            proof {
                assert(values@.subrange(0, values@.len() as int) == values@);
            }
        },
        RuntimeValue::Attributes(_) => {
            return Err(child_type_error());
        },
    }
    Ok(())
}

/// Renders a value as child content: scalars escaped, raw HTML as it is.
pub fn render_child_value(value: &RuntimeValue, out: &mut String) -> (r: BackendResult<()>)
    ensures
        wrote(r, old(out)@, final(out)@, child_spec(*value, false)),
{
    render_value(value, false, out)
}

/// Renders a value as text content of a raw-text element: raw HTML is escaped too.
pub fn render_escaped_text_value(value: &RuntimeValue, out: &mut String) -> (r: BackendResult<()>)
    ensures
        wrote(r, old(out)@, final(out)@, child_spec(*value, true)),
{
    render_value(value, true, out)
}

pub fn truthy_runtime_value(value: &RuntimeValue) -> (r: bool)
    ensures
        r == truthy_spec(*value),
{
    match value {
        RuntimeValue::Null => false,
        RuntimeValue::Bool(b) => *b,
        RuntimeValue::Int(i) => *i != 0,
        RuntimeValue::Float(f) => f.nonzero,
        RuntimeValue::String(s) => !s.as_str().is_empty(),
        RuntimeValue::Fragment(vs) | RuntimeValue::Sequence(vs) => vs.len() > 0,
        RuntimeValue::RawHtml(s) => !s.as_str().is_empty(),
        RuntimeValue::Attributes(es) => es.len() > 0,
    }
}

proof fn lemma_classes_prefix_err(vs: Seq<RuntimeValue>, i: int)
    requires
        0 <= i <= vs.len(),
        classes_spec(vs.subrange(0, i)) is Err,
    ensures
        classes_spec(vs) == classes_spec(vs.subrange(0, i)),
    decreases vs.len() - i,
{
    if i < vs.len() {
        let p = vs.subrange(0, i + 1);
        assert(p.subrange(0, p.len() - 1) == vs.subrange(0, i));
        lemma_classes_prefix_err(vs, i + 1);
    } else {
        assert(vs.subrange(0, i) == vs);
    }
}

/// Appends the strings of `extra` to `acc`, in order.
pub(crate) fn extend_strings(acc: &mut Vec<String>, extra: &Vec<String>)
    ensures
        views(final(acc)@) == views(old(acc)@) + views(extra@),
{
    let mut i: usize = 0;
    while i < extra.len()
        invariant
            i <= extra@.len(),
            views(acc@) == views(old(acc)@) + views(extra@.subrange(0, i as int)),
        decreases extra.len() - i,
    {
        let ghost before = acc@;
        acc.push(extra[i].clone());
        proof {
            assert(acc@ == before.push(extra@[i as int]));
            assert(views(before.push(extra@[i as int])) =~= views(before).push(extra@[i as int]@));
            assert(views(extra@.subrange(0, i + 1)) =~= views(extra@.subrange(0, i as int)).push(extra@[i as int]@));
        }
        i += 1;
    }
    proof {
        assert(extra@.subrange(0, extra@.len() as int) == extra@);
    }
}

pub fn normalize_class_value(value: &RuntimeValue) -> (r: BackendResult<Vec<String>>)
    ensures
        match class_spec(*value) {
            Ok(cs) => r matches Ok(ws) && views(ws@) == cs,
            Err(f) => r matches Err(e) && reports(e, f),
        },
    decreases value,
{
    match value {
        RuntimeValue::Null => Ok(Vec::new()),
        RuntimeValue::Bool(b) => {
            if *b {
                Err(runtime_error("html.runtime.class_bool", "True is not a supported scalar class value.".to_owned(), None))
            } else {
                Ok(Vec::new())
            }
        },
        RuntimeValue::String(s) => {
            let words = split_ascii_words(s.as_str());
            proof {
                assert(views(words@) =~= split_words(s@));
            }
            Ok(words)
        },
        RuntimeValue::Sequence(values) | RuntimeValue::Fragment(values) => {
            let mut normalized: Vec<String> = Vec::new();
            let mut i: usize = 0;
            while i < values.len()
                invariant
                    i <= values@.len(),
                    *value == RuntimeValue::Fragment(*values) || *value == RuntimeValue::Sequence(*values),
                    classes_spec(values@.subrange(0, i as int)) matches Ok(cs) && views(normalized@) == cs,
                decreases values.len() - i,
            {
                proof {
                    let p = values@.subrange(0, i + 1);
                    assert(p.subrange(0, p.len() - 1) == values@.subrange(0, i as int));
                    assert(p[p.len() - 1] == values@[i as int]);
                    if *value == RuntimeValue::Fragment(*values) {
                        assert(decreases_to!(*value => (*value)->Fragment_0));
                    } else {
                        assert(decreases_to!(*value => (*value)->Sequence_0));
                    }
                    assert(decreases_to!(*values => values@));
                    assert(decreases_to!(values@ => values@[i as int]));
                }
                match normalize_class_value(&values[i]) {
                    Ok(more) => {
                        extend_strings(&mut normalized, &more);
                    },
                    Err(e) => {
                        proof {
                            lemma_classes_prefix_err(values@, i + 1);
                        }
                        return Err(e);
                    },
                }
                i += 1;
            }
            proof {
                assert(values@.subrange(0, values@.len() as int) == values@);
            }
            Ok(normalized)
        },
        RuntimeValue::Attributes(entries) => {
            let mut names: Vec<String> = Vec::new();
            let mut i: usize = 0;
            while i < entries.len()
                invariant
                    i <= entries@.len(),
                    views(names@) == truthy_names(entries@.subrange(0, i as int)),
                decreases entries.len() - i,
            {
                proof {
                    let p = entries@.subrange(0, i + 1);
                    assert(p.drop_last() == entries@.subrange(0, i as int));
                    assert(p.last() == entries@[i as int]);
                }
                let ghost before = names@;
                if truthy_runtime_value(&entries[i].1) {
                    names.push(entries[i].0.clone());
                    proof {
                        assert(views(names@) =~= views(before).push(entries@[i as int].0@));
                    }
                }
                i += 1;
            }
            proof {
                assert(entries@.subrange(0, entries@.len() as int) == entries@);
            }
            Ok(names)
        },
        _ => Err(runtime_error("html.runtime.class_type", "Unsupported class value type.".to_owned(), None)),
    }
}

/// Rejects a conversion or format spec on a structured value.
pub(crate) fn check_conversion(interpolation: &InterpolationNode, value: &RuntimeValue) -> (r: BackendResult<()>)
    ensures
        if converted(*interpolation) && structured(*value) {
            r matches Err(e) && reports(e, conversion_failure(*interpolation))
        } else {
            r is Ok
        },
{
    let is_converted = interpolation.conversion.is_some() || !interpolation.format_spec.as_str().is_empty();
    let is_structured = match value {
        RuntimeValue::Fragment(_) | RuntimeValue::RawHtml(_) | RuntimeValue::Sequence(_) | RuntimeValue::Attributes(_) => true,
        _ => false,
    };
    if is_converted && is_structured {
        return Err(runtime_error(
            "html.runtime.structured_conversion",
            concat3(
                "Conversions and format specs are not supported on the structured value of '",
                interpolation.expression.as_str(),
                "'.",
            ),
            interpolation.span,
        ));
    }
    Ok(())
}

pub(crate) fn value_for_interpolation<'a>(context: &'a RuntimeContext, interpolation: &InterpolationNode) -> (r: BackendResult<&'a RuntimeValue>)
    ensures
        match value_spec(*context, *interpolation) {
            Ok(v) => r matches Ok(x) && *x == v,
            Err(f) => r matches Err(e) && reports(e, f),
        },
{
    if interpolation.interpolation_index < context.values.len() {
        let v = &context.values[interpolation.interpolation_index];
        check_conversion(interpolation, v)?;
        Ok(v)
    } else {
        Err(runtime_error(
            "html.runtime.missing_value",
            concat3("Missing runtime value for interpolation '", interpolation.expression.as_str(), "'."),
            interpolation.span,
        ))
    }
}

/// The text of an attribute value: texts as they are, interpolations by their
/// text, or, for `class`, by their class names joined with spaces (a space
/// separating them from what precedes).
pub open spec fn value_string_spec(parts: Seq<ValuePart>, ctx: RuntimeContext, is_class: bool) -> Result<Seq<char>, Failure>
    decreases parts.len(),
{
    if parts.len() == 0 {
        Ok(Seq::empty())
    } else {
        match value_string_spec(parts.drop_last(), ctx, is_class) {
            Err(f) => Err(f),
            Ok(prev) => match parts.last() {
                ValuePart::Text(t) => Ok(prev + t@),
                ValuePart::Interpolation(i) => match value_spec(ctx, i) {
                    Err(f) => Err(f),
                    Ok(v) => if is_class {
                        match class_spec(v) {
                            Err(f) => Err(f),
                            Ok(cs) => if cs.len() > 0 {
                                if prev.len() > 0 {
                                    Ok(prev + seq![' '] + join_space(cs))
                                } else {
                                    Ok(prev + join_space(cs))
                                }
                            } else {
                                Ok(prev)
                            },
                        }
                    } else {
                        match stringify_spec(v) {
                            Err(f) => Err(f),
                            Ok(t) => Ok(prev + t),
                        }
                    },
                },
            },
        }
    }
}

/// The class names of an attribute value: the words of its texts and the
/// classes of its interpolated values, in order.
pub open spec fn class_parts_spec(parts: Seq<ValuePart>, ctx: RuntimeContext) -> Result<Seq<Seq<char>>, Failure>
    decreases parts.len(),
{
    if parts.len() == 0 {
        Ok(Seq::empty())
    } else {
        match class_parts_spec(parts.drop_last(), ctx) {
            Err(f) => Err(f),
            Ok(prev) => match parts.last() {
                ValuePart::Text(t) => Ok(prev + split_words(t@)),
                ValuePart::Interpolation(i) => match value_spec(ctx, i) {
                    Err(f) => Err(f),
                    Ok(v) => match class_spec(v) {
                        Err(f) => Err(f),
                        Ok(cs) => Ok(prev + cs),
                    },
                },
            },
        }
    }
}

/// The attributes whose values are URLs.
pub open spec fn url_attribute(name: Seq<char>) -> bool {
    let n = ascii_lower_seq(name);
    n == "href"@ || n == "src"@ || n == "action"@ || n == "formaction"@ || n == "xlink:href"@ || n == "cite"@
        || n == "poster"@ || n == "background"@ || n == "manifest"@
}

/// A character left out before a URL's scheme is read: whitespace and the
/// control characters.
pub open spec fn url_ignored(c: char) -> bool {
    is_unicode_whitespace(c) || c <= '\u{1f}' || ('\u{7f}' <= c <= '\u{9f}')
}

/// A URL as its scheme is read: whitespace and control characters left out,
/// ASCII letters in lower case.
pub open spec fn url_probe(s: Seq<char>) -> Seq<char>
    decreases s.len(),
{
    if s.len() == 0 {
        Seq::empty()
    } else if url_ignored(s.last()) {
        url_probe(s.drop_last())
    } else {
        url_probe(s.drop_last()).push(ascii_lower_spec(s.last()))
    }
}

pub open spec fn starts_with(s: Seq<char>, prefix: Seq<char>) -> bool {
    prefix.len() <= s.len() && s.subrange(0, prefix.len() as int) == prefix
}

/// The dangerous scheme a URL starts with, if any: `javascript`, `vbscript` or
/// `data`.
pub open spec fn unsafe_scheme(value: Seq<char>) -> Option<Seq<char>> {
    let p = url_probe(value);
    if starts_with(p, "javascript:"@) {
        Some("javascript"@)
    } else if starts_with(p, "vbscript:"@) {
        Some("vbscript"@)
    } else if starts_with(p, "data:"@) {
        Some("data"@)
    } else {
        None
    }
}

/// The failure of a URL attribute whose value uses a dangerous scheme.
pub open spec fn url_failure(name: Seq<char>, value: Seq<char>, span: Option<SourceSpan>) -> Option<Failure> {
    if url_attribute(name) && unsafe_scheme(value) is Some {
        Some(Failure {
            code: "html.runtime.unsafe_url"@,
            message: "Attribute '"@ + name + "' has an unsafe "@ + unsafe_scheme(value)->Some_0 + ": URL."@,
            span,
        })
    } else {
        None
    }
}

/// The value of an attribute, unless it is a URL attribute whose value uses a
/// dangerous scheme.
pub open spec fn checked_url(name: Seq<char>, value: Seq<char>, span: Option<SourceSpan>) -> Result<Seq<char>, Failure> {
    match url_failure(name, value, span) {
        Some(f) => Err(f),
        None => Ok(value),
    }
}

fn has_interpolation(parts: &Vec<ValuePart>) -> (r: bool)
    ensures
        r == has_interpolation_part(parts@),
{
    let mut i: usize = 0;
    while i < parts.len()
        invariant
            i <= parts@.len(),
            forall|k: int| 0 <= k < i ==> !(#[trigger] parts@[k] is Interpolation),
        decreases parts.len() - i,
    {
        match &parts[i] {
            ValuePart::Interpolation(_) => {
                return true;
            },
            ValuePart::Text(_) => {},
        }
        i += 1;
    }
    false
}

fn is_url_attribute(name: &str) -> (r: bool)
    ensures
        r == url_attribute(name@),
{
    let n = ascii_lowercase(name);
    let s = n.as_str();
    str_eq(s, "href") || str_eq(s, "src") || str_eq(s, "action") || str_eq(s, "formaction") || str_eq(s, "xlink:href")
        || str_eq(s, "cite") || str_eq(s, "poster") || str_eq(s, "background") || str_eq(s, "manifest")
}

fn url_probe_exec(value: &str) -> (r: String)
    ensures
        r@ == url_probe(value@),
{
    let chars = chars_of(value);
    let mut out = String::new();
    let mut i: usize = 0;
    while i < chars.len()
        invariant
            i <= chars@.len(),
            chars@ == value@,
            out@ == url_probe(value@.subrange(0, i as int)),
        decreases chars.len() - i,
    {
        let c = chars[i];
        proof {
            let p = value@.subrange(0, i + 1);
            assert(p.drop_last() == value@.subrange(0, i as int));
            assert(p.last() == c);
        }
        if !(is_whitespace(c) || c <= '\u{1f}' || ('\u{7f}' <= c && c <= '\u{9f}')) {
            push_char(&mut out, ascii_lower(c));
        }
        i += 1;
    }
    proof {
        assert(value@.subrange(0, value@.len() as int) == value@);
    }
    out
}

/// Rejects a URL attribute value that uses the `javascript:`, `vbscript:` or
/// `data:` scheme, once whitespace and control characters are left out.
pub fn check_url_attribute(name: &str, value: &str, span: Option<SourceSpan>) -> (r: BackendResult<()>)
    ensures
        match url_failure(name@, value@, span) {
            Some(f) => r matches Err(e) && reports(e, f),
            None => r is Ok,
        },
{
    if !is_url_attribute(name) {
        return Ok(());
    }
    let probe = url_probe_exec(value);
    let scheme = if strip_prefix(probe.as_str(), "javascript:").is_some() {
        "javascript"
    } else if strip_prefix(probe.as_str(), "vbscript:").is_some() {
        "vbscript"
    } else if strip_prefix(probe.as_str(), "data:").is_some() {
        "data"
    } else {
        return Ok(());
    };
    Err(runtime_error("html.runtime.unsafe_url", concat5("Attribute '", name, "' has an unsafe ", scheme, ": URL."), span))
}

/// The failure of a spread entry whose name is not a valid attribute name.
pub open spec fn spread_name_failure(name: Seq<char>, span: Option<SourceSpan>) -> Failure {
    Failure {
        code: "html.runtime.spread_attribute_name"@,
        message: "Invalid attribute name '"@ + name + "' in spread attributes."@,
        span,
    }
}

/// How a non-class attribute renders: `None` drops it, `Some(None)` writes it
/// bare, `Some(Some(v))` writes it with the escaped value `v`. A value that is a
/// single interpolation drops the attribute for `None`/`False` and writes it bare
/// for `True`. A URL attribute whose value holds an interpolation fails when the
/// value uses a dangerous scheme.
pub open spec fn attribute_spec(at: Attribute, ctx: RuntimeContext) -> Result<Option<Option<Seq<char>>>, Failure> {
    match at.value {
        None => Ok(Some(None)),
        Some(v) => if v.parts@.len() == 1 && v.parts@[0] is Interpolation {
            match value_spec(ctx, v.parts@[0]->Interpolation_0) {
                Err(f) => Err(f),
                Ok(RuntimeValue::Null) => Ok(None),
                Ok(RuntimeValue::Bool(false)) => Ok(None),
                Ok(RuntimeValue::Bool(true)) => Ok(Some(None)),
                Ok(other) => match stringify_spec(other) {
                    Err(f) => Err(f),
                    Ok(t) => match checked_url(at.name@, t, at.span) {
                        Err(f) => Err(f),
                        Ok(t) => Ok(Some(Some(escape_attr_spec(t)))),
                    },
                },
            }
        } else {
            match value_string_spec(v.parts@, ctx, at.name@ == "class"@) {
                Err(f) => Err(f),
                Ok(t) => if has_interpolation_part(v.parts@) {
                    match checked_url(at.name@, t, at.span) {
                        Err(f) => Err(f),
                        Ok(t) => Ok(Some(Some(escape_attr_spec(t)))),
                    }
                } else {
                    Ok(Some(Some(escape_attr_spec(t))))
                },
            }
        },
    }
}

fn render_attribute_value_string(value: &AttributeValue, context: &RuntimeContext, name: &str) -> (r: BackendResult<String>)
    ensures
        match value_string_spec(value.parts@, *context, name@ == "class"@) {
            Ok(t) => r matches Ok(x) && x@ == t,
            Err(f) => r matches Err(e) && reports(e, f),
        },
{
    let is_class = str_eq(name, "class");
    let mut rendered = String::new();
    let mut i: usize = 0;
    while i < value.parts.len()
        invariant
            i <= value.parts@.len(),
            is_class == (name@ == "class"@),
            value_string_spec(value.parts@.subrange(0, i as int), *context, is_class) matches Ok(t) && rendered@ == t,
        decreases value.parts.len() - i,
    {
        let ghost prefix = value.parts@.subrange(0, i + 1);
        proof {
            assert(prefix.drop_last() == value.parts@.subrange(0, i as int));
            assert(prefix.last() == value.parts@[i as int]);
        }
        match &value.parts[i] {
            ValuePart::Text(text) => {
                rendered.append(text.as_str());
            },
            ValuePart::Interpolation(interpolation) => {
                let v = match value_for_interpolation(context, interpolation) {
                    Ok(v) => v,
                    Err(e) => {
                        proof {
                            lemma_value_string_prefix_err(value.parts@, *context, is_class, i + 1);
                        }
                        return Err(e);
                    },
                };
                if is_class {
                    let normalized = match normalize_class_value(v) {
                        Ok(n) => n,
                        Err(e) => {
                            proof {
                                lemma_value_string_prefix_err(value.parts@, *context, is_class, i + 1);
                            }
                            return Err(e);
                        },
                    };
                    if normalized.len() > 0 {
                        if !rendered.as_str().is_empty() {
                            push_char(&mut rendered, ' ');
                        }
                        rendered.append(join_with_space(&normalized).as_str());
                    }
                } else {
                    let t = match stringify_runtime_value(v) {
                        Ok(t) => t,
                        Err(e) => {
                            proof {
                                lemma_value_string_prefix_err(value.parts@, *context, is_class, i + 1);
                            }
                            return Err(e);
                        },
                    };
                    rendered.append(t.as_str());
                }
            },
        }
        i += 1;
    }
    proof {
        assert(value.parts@.subrange(0, value.parts@.len() as int) == value.parts@);
    }
    Ok(rendered)
}

proof fn lemma_value_string_prefix_err(parts: Seq<ValuePart>, ctx: RuntimeContext, is_class: bool, i: int)
    requires
        0 <= i <= parts.len(),
        value_string_spec(parts.subrange(0, i), ctx, is_class) is Err,
    ensures
        value_string_spec(parts, ctx, is_class) == value_string_spec(parts.subrange(0, i), ctx, is_class),
    decreases parts.len() - i,
{
    if i < parts.len() {
        let p = parts.subrange(0, i + 1);
        assert(p.drop_last() == parts.subrange(0, i));
        lemma_value_string_prefix_err(parts, ctx, is_class, i + 1);
    } else {
        assert(parts.subrange(0, i) == parts);
    }
}

proof fn lemma_class_parts_prefix_err(parts: Seq<ValuePart>, ctx: RuntimeContext, i: int)
    requires
        0 <= i <= parts.len(),
        class_parts_spec(parts.subrange(0, i), ctx) is Err,
    ensures
        class_parts_spec(parts, ctx) == class_parts_spec(parts.subrange(0, i), ctx),
    decreases parts.len() - i,
{
    if i < parts.len() {
        let p = parts.subrange(0, i + 1);
        assert(p.drop_last() == parts.subrange(0, i));
        lemma_class_parts_prefix_err(parts, ctx, i + 1);
    } else {
        assert(parts.subrange(0, i) == parts);
    }
}

fn render_class_parts(value: &AttributeValue, context: &RuntimeContext) -> (r: BackendResult<Vec<String>>)
    ensures
        match class_parts_spec(value.parts@, *context) {
            Ok(cs) => r matches Ok(ws) && views(ws@) == cs,
            Err(f) => r matches Err(e) && reports(e, f),
        },
{
    let mut class_values: Vec<String> = Vec::new();
    let mut i: usize = 0;
    while i < value.parts.len()
        invariant
            i <= value.parts@.len(),
            class_parts_spec(value.parts@.subrange(0, i as int), *context) matches Ok(cs) && views(class_values@) == cs,
        decreases value.parts.len() - i,
    {
        let ghost prefix = value.parts@.subrange(0, i + 1);
        proof {
            assert(prefix.drop_last() == value.parts@.subrange(0, i as int));
            assert(prefix.last() == value.parts@[i as int]);
        }
        match &value.parts[i] {
            ValuePart::Text(text) => {
                let words = split_ascii_words(text.as_str());
                proof {
                    assert(views(words@) =~= split_words(text@));
                }
                extend_strings(&mut class_values, &words);
            },
            ValuePart::Interpolation(interpolation) => {
                let v = match value_for_interpolation(context, interpolation) {
                    Ok(v) => v,
                    Err(e) => {
                        proof {
                            lemma_class_parts_prefix_err(value.parts@, *context, i + 1);
                        }
                        return Err(e);
                    },
                };
                let more = match normalize_class_value(v) {
                    Ok(n) => n,
                    Err(e) => {
                        proof {
                            lemma_class_parts_prefix_err(value.parts@, *context, i + 1);
                        }
                        return Err(e);
                    },
                };
                extend_strings(&mut class_values, &more);
            },
        }
        i += 1;
    }
    proof {
        assert(value.parts@.subrange(0, value.parts@.len() as int) == value.parts@);
    }
    Ok(class_values)
}

pub open spec fn opt_view(o: Option<String>) -> Option<Seq<char>> {
    match o {
        Some(s) => Some(s@),
        None => None,
    }
}

fn render_attribute(attribute: &Attribute, context: &RuntimeContext) -> (r: BackendResult<Option<Option<String>>>)
    ensures
        match attribute_spec(*attribute, *context) {
            Ok(o) => r matches Ok(x) && match (o, x) {
                (None, None) => true,
                (Some(a), Some(b)) => a == opt_view(b),
                _ => false,
            },
            Err(f) => r matches Err(e) && reports(e, f),
        },
{
    match &attribute.value {
        None => Ok(Some(None)),
        Some(value) => {
            if value.parts.len() == 1 {
                match &value.parts[0] {
                    ValuePart::Interpolation(interpolation) => {
                        let v = value_for_interpolation(context, interpolation)?;
                        return match v {
                            RuntimeValue::Null => Ok(None),
                            RuntimeValue::Bool(false) => Ok(None),
                            RuntimeValue::Bool(true) => Ok(Some(None)),
                            other => {
                                let t = stringify_runtime_value(other)?;
                                check_url_attribute(attribute.name.as_str(), t.as_str(), attribute.span)?;
                                Ok(Some(Some(escape_html_attribute(t.as_str()))))
                            },
                        };
                    },
                    ValuePart::Text(_) => {},
                }
            }
            let rendered = render_attribute_value_string(value, context, attribute.name.as_str())?;
            if has_interpolation(&value.parts) {
                check_url_attribute(attribute.name.as_str(), rendered.as_str(), attribute.span)?;
            }
            Ok(Some(Some(escape_html_attribute(rendered.as_str()))))
        },
    }
}

/// Attributes after normalization: the order in which names first appeared,
/// the value of each name (a later write replaces an earlier one), the class
/// names gathered so far and whether a `class` attribute was met.
pub struct NormState {
    pub order: Seq<Seq<char>>,
    pub attrs: Seq<(Seq<char>, Option<Seq<char>>)>,
    pub classes: Seq<Seq<char>>,
    pub saw_class: bool,
}

pub open spec fn empty_norm() -> NormState {
    NormState { order: Seq::empty(), attrs: Seq::empty(), classes: Seq::empty(), saw_class: false }
}

pub open spec fn add_name(order: Seq<Seq<char>>, name: Seq<char>) -> Seq<Seq<char>> {
    if order.contains(name) { order } else { order.push(name) }
}

/// The first position of key `k`.
pub open spec fn find_key(m: Seq<(Seq<char>, Option<Seq<char>>)>, k: Seq<char>) -> Option<int>
    decreases m.len(),
{
    if m.len() == 0 {
        None
    } else {
        match find_key(m.drop_last(), k) {
            Some(j) => Some(j),
            None => if m.last().0 == k { Some(m.len() - 1) } else { None },
        }
    }
}

/// Sets key `k` to `v`, in place when the key is there, at the end otherwise.
pub open spec fn map_insert(m: Seq<(Seq<char>, Option<Seq<char>>)>, k: Seq<char>, v: Option<Seq<char>>) -> Seq<(Seq<char>, Option<Seq<char>>)> {
    match find_key(m, k) {
        Some(j) => m.update(j, (k, v)),
        None => m.push((k, v)),
    }
}

/// Drops key `k`.
pub open spec fn map_remove(m: Seq<(Seq<char>, Option<Seq<char>>)>, k: Seq<char>) -> Seq<(Seq<char>, Option<Seq<char>>)>
    decreases m.len(),
{
    if m.len() == 0 {
        m
    } else {
        let r = map_remove(m.drop_last(), k);
        if m.last().0 == k { r } else { r.push(m.last()) }
    }
}

/// The value of key `k`, when it is there.
pub open spec fn map_get(m: Seq<(Seq<char>, Option<Seq<char>>)>, k: Seq<char>) -> Option<Option<Seq<char>>> {
    match find_key(m, k) {
        Some(j) => Some(m[j].1),
        None => None,
    }
}

struct NormalizedAttributes {
    order: Vec<String>,
    attrs: Vec<(String, Option<String>)>,
    class_values: Vec<String>,
    saw_class: bool,
}

spec fn entry_view(e: (String, Option<String>)) -> (Seq<char>, Option<Seq<char>>) {
    (e.0@, opt_view(e.1))
}

spec fn norm_view(n: NormalizedAttributes) -> NormState {
    NormState {
        order: views(n.order@),
        attrs: n.attrs@.map_values(|e: (String, Option<String>)| entry_view(e)),
        classes: views(n.class_values@),
        saw_class: n.saw_class,
    }
}

fn contains_name(order: &Vec<String>, name: &str) -> (r: bool)
    ensures
        r == views(order@).contains(name@),
{
    let mut i: usize = 0;
    while i < order.len()
        invariant
            i <= order@.len(),
            forall|k: int| 0 <= k < i ==> order@[k]@ != name@,
        decreases order.len() - i,
    {
        if str_eq(order[i].as_str(), name) {
            proof {
                assert(views(order@)[i as int] == name@);
            }
            return true;
        }
        i += 1;
    }
    proof {
        if views(order@).contains(name@) {
            let k = choose|k: int| 0 <= k < views(order@).len() && views(order@)[k] == name@;
            assert(order@[k]@ == name@);
        }
    }
    false
}

fn add_name_exec(order: &mut Vec<String>, name: &str)
    ensures
        views(final(order)@) == add_name(views(old(order)@), name@),
{
    if !contains_name(order, name) {
        order.push(name.to_owned());
        proof {
            assert(views(order@) =~= views(old(order)@).push(name@));
        }
    }
}

fn find_key_exec(attrs: &Vec<(String, Option<String>)>, key: &str) -> (r: Option<usize>)
    ensures
        match find_key(attrs@.map_values(|e: (String, Option<String>)| entry_view(e)), key@) {
            Some(j) => r matches Some(x) && x as int == j,
            None => r is None,
        },
        r matches Some(j) ==> j < attrs@.len(),
{
    proof {
        lemma_find_key_bounds(attrs@.map_values(|e: (String, Option<String>)| entry_view(e)), key@);
    }
    let ghost m = attrs@.map_values(|e: (String, Option<String>)| entry_view(e));
    let mut i: usize = 0;
    while i < attrs.len()
        invariant
            i <= attrs@.len(),
            m == attrs@.map_values(|e: (String, Option<String>)| entry_view(e)),
            find_key(m.subrange(0, i as int), key@) is None,
        decreases attrs.len() - i,
    {
        proof {
            let p = m.subrange(0, i + 1);
            assert(p.drop_last() == m.subrange(0, i as int));
            assert(p.last() == m[i as int]);
        }
        if str_eq(attrs[i].0.as_str(), key) {
            proof {
                lemma_find_key_prefix(m, key@, i + 1);
            }
            return Some(i);
        }
        i += 1;
    }
    proof {
        assert(m.subrange(0, attrs@.len() as int) == m);
    }
    None
}

proof fn lemma_find_key_bounds(m: Seq<(Seq<char>, Option<Seq<char>>)>, k: Seq<char>)
    ensures
        find_key(m, k) matches Some(j) ==> 0 <= j < m.len() && m[j].0 == k,
        find_key(m, k) is None ==> forall|j: int| 0 <= j < m.len() ==> #[trigger] m[j].0 != k,
    decreases m.len(),
{
    if m.len() > 0 {
        lemma_find_key_bounds(m.drop_last(), k);
        assert forall|j: int| 0 <= j < m.len() - 1 implies #[trigger] m[j] == m.drop_last()[j] by {}
    }
}

proof fn lemma_find_key_prefix(m: Seq<(Seq<char>, Option<Seq<char>>)>, k: Seq<char>, i: int)
    requires
        0 <= i <= m.len(),
        find_key(m.subrange(0, i), k) is Some,
    ensures
        find_key(m, k) == find_key(m.subrange(0, i), k),
    decreases m.len() - i,
{
    if i < m.len() {
        let p = m.subrange(0, i + 1);
        assert(p.drop_last() == m.subrange(0, i));
        lemma_find_key_prefix(m, k, i + 1);
    } else {
        assert(m.subrange(0, i) == m);
    }
}

fn clone_opt(o: &Option<String>) -> (r: Option<String>)
    ensures
        opt_view(r) == opt_view(*o),
{
    match o {
        Some(s) => Some(s.clone()),
        None => None,
    }
}

fn map_insert_exec(attrs: &mut Vec<(String, Option<String>)>, key: &str, value: Option<String>)
    ensures
        final(attrs)@.map_values(|e: (String, Option<String>)| entry_view(e)) == map_insert(
            old(attrs)@.map_values(|e: (String, Option<String>)| entry_view(e)),
            key@,
            opt_view(value),
        ),
{
    let ghost m = old(attrs)@.map_values(|e: (String, Option<String>)| entry_view(e));
    match find_key_exec(attrs, key) {
        Some(j) => {
            proof {
                assert(find_key(m, key@) == Some(j as int));
            }
            attrs.set(j, (key.to_owned(), value));
            proof {
                assert(attrs@.map_values(|e: (String, Option<String>)| entry_view(e)) =~= old(attrs)@.map_values(
                    |e: (String, Option<String>)| entry_view(e),
                ).update(j as int, (key@, opt_view(value))));
            }
        },
        None => {
            attrs.push((key.to_owned(), value));
            proof {
                assert(attrs@.map_values(|e: (String, Option<String>)| entry_view(e)) =~= old(attrs)@.map_values(
                    |e: (String, Option<String>)| entry_view(e),
                ).push((key@, opt_view(value))));
            }
        },
    }
}

fn map_remove_exec(attrs: &mut Vec<(String, Option<String>)>, key: &str)
    ensures
        final(attrs)@.map_values(|e: (String, Option<String>)| entry_view(e)) == map_remove(
            old(attrs)@.map_values(|e: (String, Option<String>)| entry_view(e)),
            key@,
        ),
{
    let ghost m = old(attrs)@.map_values(|e: (String, Option<String>)| entry_view(e));
    let mut kept: Vec<(String, Option<String>)> = Vec::new();
    let mut i: usize = 0;
    while i < attrs.len()
        invariant
            i <= attrs@.len(),
            attrs@ == old(attrs)@,
            m == old(attrs)@.map_values(|e: (String, Option<String>)| entry_view(e)),
            kept@.map_values(|e: (String, Option<String>)| entry_view(e)) == map_remove(m.subrange(0, i as int), key@),
        decreases attrs.len() - i,
    {
        proof {
            let p = m.subrange(0, i + 1);
            assert(p.drop_last() == m.subrange(0, i as int));
            assert(p.last() == m[i as int]);
        }
        if !str_eq(attrs[i].0.as_str(), key) {
            let ghost before = kept@;
            kept.push((attrs[i].0.clone(), clone_opt(&attrs[i].1)));
            proof {
                assert(kept@.map_values(|e: (String, Option<String>)| entry_view(e)) =~= before.map_values(
                    |e: (String, Option<String>)| entry_view(e),
                ).push(m[i as int]));
            }
        }
        i += 1;
    }
    proof {
        assert(m.subrange(0, m.len() as int) == m);
    }
    *attrs = kept;
}

fn map_get_exec<'a>(attrs: &'a Vec<(String, Option<String>)>, key: &str) -> (r: Option<&'a Option<String>>)
    ensures
        match map_get(attrs@.map_values(|e: (String, Option<String>)| entry_view(e)), key@) {
            Some(v) => r matches Some(x) && opt_view(*x) == v,
            None => r is None,
        },
{
    let ghost m = attrs@.map_values(|e: (String, Option<String>)| entry_view(e));
    match find_key_exec(attrs, key) {
        Some(j) => {
            proof {
                assert(find_key(m, key@) == Some(j as int));
                assert(m[j as int] == entry_view(attrs@[j as int]));
            }
            Some(&attrs[j].1)
        },
        None => None,
    }
}

pub open spec fn with_class(st: NormState, more: Seq<Seq<char>>) -> NormState {
    NormState {
        order: add_name(st.order, "class"@),
        attrs: st.attrs,
        classes: st.classes + more,
        saw_class: true,
    }
}

/// One entry of a spread mapping: a name that is not a valid attribute name
/// fails; `class` adds classes; `None`/`False` drop the attribute; `True` sets
/// it bare; any other scalar sets its escaped text, unless it is a URL
/// attribute whose value uses a dangerous scheme.
pub open spec fn spread_entry_spec(st: NormState, name: Seq<char>, value: RuntimeValue, span: Option<SourceSpan>) -> Result<NormState, Failure> {
    if !valid_attribute_name(name) {
        Err(spread_name_failure(name, span))
    } else if name == "class"@ {
        match class_spec(value) {
            Err(f) => Err(f),
            Ok(cs) => Ok(with_class(st, cs)),
        }
    } else {
        match value {
            RuntimeValue::Null => Ok(NormState { attrs: map_remove(st.attrs, name), ..st }),
            RuntimeValue::Bool(false) => Ok(NormState { attrs: map_remove(st.attrs, name), ..st }),
            RuntimeValue::Bool(true) => Ok(NormState { order: add_name(st.order, name), attrs: map_insert(st.attrs, name, None), ..st }),
            other => match stringify_spec(other) {
                Err(f) => Err(f),
                Ok(t) => match url_failure(name, t, span) {
                    Some(f) => Err(f),
                    None => Ok(NormState {
                        order: add_name(st.order, name),
                        attrs: map_insert(st.attrs, name, Some(escape_attr_spec(t))),
                        ..st
                    }),
                },
            },
        }
    }
}

pub open spec fn spread_entries_spec(st: NormState, es: Seq<(String, RuntimeValue)>, span: Option<SourceSpan>) -> Result<NormState, Failure>
    decreases es.len(),
{
    if es.len() == 0 {
        Ok(st)
    } else {
        match spread_entries_spec(st, es.drop_last(), span) {
            Err(f) => Err(f),
            Ok(s1) => spread_entry_spec(s1, es.last().0@, es.last().1, span),
        }
    }
}

pub open spec fn spread_type_failure(span: Option<SourceSpan>) -> Failure {
    Failure {
        code: "html.runtime.spread_type"@,
        message: "Spread attributes require a mapping-like value."@,
        span,
    }
}

/// One attribute applied to the normalized state.
pub open spec fn norm_attr_spec(st: NormState, a: AttributeLike, ctx: RuntimeContext) -> Result<NormState, Failure> {
    match a {
        AttributeLike::Attribute(at) => if at.name@ == "class"@ {
            match at.value {
                Some(v) => match class_parts_spec(v.parts@, ctx) {
                    Err(f) => Err(f),
                    Ok(cs) => Ok(with_class(st, cs)),
                },
                None => Ok(with_class(st, Seq::empty())),
            }
        } else {
            match attribute_spec(at, ctx) {
                Err(f) => Err(f),
                Ok(None) => Ok(st),
                Ok(Some(v)) => Ok(NormState { order: add_name(st.order, at.name@), attrs: map_insert(st.attrs, at.name@, v), ..st }),
            }
        },
        AttributeLike::SpreadAttribute(sp) => match value_spec(ctx, sp.interpolation) {
            Err(f) => Err(f),
            Ok(RuntimeValue::Attributes(es)) => spread_entries_spec(st, es@, sp.span),
            Ok(_) => Err(spread_type_failure(sp.span)),
        },
    }
}

/// The attributes of a tag normalized in order.
pub open spec fn norm_attrs_spec(attrs: Seq<AttributeLike>, ctx: RuntimeContext) -> Result<NormState, Failure>
    decreases attrs.len(),
{
    if attrs.len() == 0 {
        Ok(empty_norm())
    } else {
        match norm_attrs_spec(attrs.drop_last(), ctx) {
            Err(f) => Err(f),
            Ok(s1) => norm_attr_spec(s1, attrs.last(), ctx),
        }
    }
}

/// One written attribute: `class` with its escaped, space-joined names when
/// there are any; any other name as it is, with its value in double quotes when
/// it has one.
pub open spec fn attr_piece(st: NormState, name: Seq<char>) -> Seq<char> {
    if name == "class"@ {
        if st.classes.len() > 0 {
            " class=\""@ + escape_attr_spec(join_space(st.classes)) + "\""@
        } else {
            Seq::empty()
        }
    } else {
        match map_get(st.attrs, name) {
            Some(Some(v)) => seq![' '] + name + "=\""@ + v + "\""@,
            Some(None) => seq![' '] + name,
            None => Seq::empty(),
        }
    }
}

pub open spec fn write_names(st: NormState, names: Seq<Seq<char>>) -> Seq<char>
    decreases names.len(),
{
    if names.len() == 0 {
        Seq::empty()
    } else {
        write_names(st, names.drop_last()) + attr_piece(st, names.last())
    }
}

/// The attributes written after a tag name, in the order names first appeared.
pub open spec fn write_spec(st: NormState) -> Seq<char> {
    write_names(st, st.order)
}

proof fn lemma_find_key_bound(m: Seq<(Seq<char>, Option<Seq<char>>)>, k: Seq<char>)
    ensures
        find_key(m, k) matches Some(j) ==> 0 <= j < m.len() && m[j].0 == k,
    decreases m.len(),
{
    if m.len() > 0 {
        lemma_find_key_bound(m.drop_last(), k);
    }
}

proof fn lemma_map_get_push(m: Seq<(Seq<char>, Option<Seq<char>>)>, x: (Seq<char>, Option<Seq<char>>), k: Seq<char>)
    ensures
        map_get(m.push(x), k) == (if map_get(m, k) is Some { map_get(m, k) } else if x.0 == k { Some(x.1) } else { None }),
{
    assert(m.push(x).drop_last() == m);
    lemma_find_key_bound(m, k);
    match find_key(m, k) {
        Some(j) => {
            assert(m.push(x)[j] == m[j]);
        },
        None => {},
    }
}

/// After a key is dropped, looking it up finds nothing, and every other key
/// keeps its value.
pub proof fn lemma_map_remove_get(m: Seq<(Seq<char>, Option<Seq<char>>)>, k: Seq<char>, k2: Seq<char>)
    ensures
        map_get(map_remove(m, k), k2) == (if k2 == k { None } else { map_get(m, k2) }),
    decreases m.len(),
{
    if m.len() > 0 {
        let d = m.drop_last();
        lemma_map_remove_get(d, k, k2);
        assert(m == d.push(m.last()));
        lemma_map_get_push(d, m.last(), k2);
        if m.last().0 != k {
            lemma_map_get_push(map_remove(d, k), m.last(), k2);
        }
    }
}

/// A spread entry whose value is `None` leaves no attribute of that name: the
/// name has no value afterwards and writes nothing in the start tag, while every
/// other attribute and the order of names stay as they were.
pub proof fn lemma_spread_none_drops_attribute(st: NormState, name: Seq<char>, span: Option<SourceSpan>, other: Seq<char>)
    requires
        valid_attribute_name(name),
        name != "class"@,
    ensures
        spread_entry_spec(st, name, RuntimeValue::Null, span) matches Ok(s) && {
            &&& map_get(s.attrs, name) is None
            &&& attr_piece(s, name) == Seq::<char>::empty()
            &&& s.order == st.order
            &&& s.classes == st.classes
            &&& (other != name ==> map_get(s.attrs, other) == map_get(st.attrs, other))
        },
{
    lemma_map_remove_get(st.attrs, name, name);
    lemma_map_remove_get(st.attrs, name, other);
}

/// Whatever came before, a spread whose last entry for a name is `None` renders
/// no attribute of that name.
pub proof fn lemma_spread_ending_in_none_drops_attribute(
    st: NormState,
    es: Seq<(String, RuntimeValue)>,
    name: String,
    span: Option<SourceSpan>,
)
    requires
        valid_attribute_name(name@),
        name@ != "class"@,
        spread_entries_spec(st, es, span) is Ok,
    ensures
        spread_entries_spec(st, es.push((name, RuntimeValue::Null)), span) matches Ok(s)
            && map_get(s.attrs, name@) is None && attr_piece(s, name@) == Seq::<char>::empty(),
{
    let e = es.push((name, RuntimeValue::Null));
    assert(e.drop_last() == es);
    assert(e.last() == (name, RuntimeValue::Null));
    let s1 = spread_entries_spec(st, es, span)->Ok_0;
    lemma_spread_none_drops_attribute(s1, name@, span, name@);
}

proof fn lemma_spread_prefix_err(st: NormState, es: Seq<(String, RuntimeValue)>, span: Option<SourceSpan>, i: int)
    requires
        0 <= i <= es.len(),
        spread_entries_spec(st, es.subrange(0, i), span) is Err,
    ensures
        spread_entries_spec(st, es, span) == spread_entries_spec(st, es.subrange(0, i), span),
    decreases es.len() - i,
{
    if i < es.len() {
        let p = es.subrange(0, i + 1);
        assert(p.drop_last() == es.subrange(0, i));
        lemma_spread_prefix_err(st, es, span, i + 1);
    } else {
        assert(es.subrange(0, i) == es);
    }
}

proof fn lemma_norm_prefix_err(attrs: Seq<AttributeLike>, ctx: RuntimeContext, i: int)
    requires
        0 <= i <= attrs.len(),
        norm_attrs_spec(attrs.subrange(0, i), ctx) is Err,
    ensures
        norm_attrs_spec(attrs, ctx) == norm_attrs_spec(attrs.subrange(0, i), ctx),
    decreases attrs.len() - i,
{
    if i < attrs.len() {
        let p = attrs.subrange(0, i + 1);
        assert(p.drop_last() == attrs.subrange(0, i));
        lemma_norm_prefix_err(attrs, ctx, i + 1);
    } else {
        assert(attrs.subrange(0, i) == attrs);
    }
}

fn add_classes(normalized: &mut NormalizedAttributes, more: &Vec<String>)
    ensures
        norm_view(*final(normalized)) == with_class(norm_view(*old(normalized)), views(more@)),
{
    normalized.saw_class = true;
    add_name_exec(&mut normalized.order, "class");
    extend_strings(&mut normalized.class_values, more);
}

fn apply_spread_attribute(normalized: &mut NormalizedAttributes, attribute: &SpreadAttribute, context: &RuntimeContext) -> (r: BackendResult<()>)
    ensures
        match norm_attr_spec(norm_view(*old(normalized)), AttributeLike::SpreadAttribute(*attribute), *context) {
            Ok(st) => r is Ok && norm_view(*final(normalized)) == st,
            Err(f) => r matches Err(e) && reports(e, f),
        },
{
    let v = value_for_interpolation(context, &attribute.interpolation)?;
    match v {
        RuntimeValue::Attributes(entries) => {
            let ghost st0 = norm_view(*old(normalized));
            let mut i: usize = 0;
            while i < entries.len()
                invariant
                    i <= entries@.len(),
                    *v == RuntimeValue::Attributes(*entries),
                    st0 == norm_view(*old(normalized)),
                    value_spec(*context, attribute.interpolation) == Ok::<RuntimeValue, Failure>(*v),
                    spread_entries_spec(st0, entries@.subrange(0, i as int), attribute.span) matches Ok(st) && norm_view(*normalized) == st,
                decreases entries.len() - i,
            {
                proof {
                    let p = entries@.subrange(0, i + 1);
                    assert(p.drop_last() == entries@.subrange(0, i as int));
                    assert(p.last() == entries@[i as int]);
                }
                let name = &entries[i].0;
                let value = &entries[i].1;
                if !is_valid_attribute_name(name.as_str()) {
                    proof {
                        lemma_spread_prefix_err(st0, entries@, attribute.span, i + 1);
                    }
                    return Err(runtime_error(
                        "html.runtime.spread_attribute_name",
                        concat3("Invalid attribute name '", name.as_str(), "' in spread attributes."),
                        attribute.span,
                    ));
                }
                if str_eq(name.as_str(), "class") {
                    match normalize_class_value(value) {
                        Ok(more) => {
                            add_classes(normalized, &more);
                        },
                        Err(e) => {
                            proof {
                                lemma_spread_prefix_err(st0, entries@, attribute.span, i + 1);
                            }
                            return Err(e);
                        },
                    }
                } else {
                    match value {
                        RuntimeValue::Null | RuntimeValue::Bool(false) => {
                            map_remove_exec(&mut normalized.attrs, name.as_str());
                        },
                        RuntimeValue::Bool(true) => {
                            add_name_exec(&mut normalized.order, name.as_str());
                            map_insert_exec(&mut normalized.attrs, name.as_str(), None);
                        },
                        other => {
                            let t = match stringify_runtime_value(other) {
                                Ok(t) => t,
                                Err(e) => {
                                    proof {
                                        lemma_spread_prefix_err(st0, entries@, attribute.span, i + 1);
                                    }
                                    return Err(e);
                                },
                            };
                            match check_url_attribute(name.as_str(), t.as_str(), attribute.span) {
                                Ok(()) => {},
                                Err(e) => {
                                    proof {
                                        lemma_spread_prefix_err(st0, entries@, attribute.span, i + 1);
                                    }
                                    return Err(e);
                                },
                            }
                            add_name_exec(&mut normalized.order, name.as_str());
                            map_insert_exec(&mut normalized.attrs, name.as_str(), Some(escape_html_attribute(t.as_str())));
                        },
                    }
                }
                i += 1;
            }
            proof {
                assert(entries@.subrange(0, entries@.len() as int) == entries@);
            }
            Ok(())
        },
        _ => Err(runtime_error(
            "html.runtime.spread_type",
            "Spread attributes require a mapping-like value.".to_owned(),
            attribute.span,
        )),
    }
}

fn normalize_attributes(attributes: &Vec<AttributeLike>, context: &RuntimeContext) -> (r: BackendResult<NormalizedAttributes>)
    ensures
        match norm_attrs_spec(attributes@, *context) {
            Ok(st) => r matches Ok(n) && norm_view(n) == st,
            Err(f) => r matches Err(e) && reports(e, f),
        },
{
    let mut normalized = NormalizedAttributes {
        order: Vec::new(),
        attrs: Vec::new(),
        class_values: Vec::new(),
        saw_class: false,
    };
    proof {
        assert(views(normalized.order@) =~= Seq::<Seq<char>>::empty());
        assert(views(normalized.class_values@) =~= Seq::<Seq<char>>::empty());
        assert(normalized.attrs@.map_values(|e: (String, Option<String>)| entry_view(e)) =~= Seq::<(Seq<char>, Option<Seq<char>>)>::empty());
        assert(norm_view(normalized) == empty_norm());
    }
    let mut i: usize = 0;
    while i < attributes.len()
        invariant
            i <= attributes@.len(),
            norm_attrs_spec(attributes@.subrange(0, i as int), *context) matches Ok(st) && norm_view(normalized) == st,
        decreases attributes.len() - i,
    {
        proof {
            let p = attributes@.subrange(0, i + 1);
            assert(p.drop_last() == attributes@.subrange(0, i as int));
            assert(p.last() == attributes@[i as int]);
        }
        match &attributes[i] {
            AttributeLike::Attribute(attribute) => {
                if str_eq(attribute.name.as_str(), "class") {
                    match &attribute.value {
                        Some(value) => {
                            match render_class_parts(value, context) {
                                Ok(more) => {
                                    add_classes(&mut normalized, &more);
                                },
                                Err(e) => {
                                    proof {
                                        lemma_norm_prefix_err(attributes@, *context, i + 1);
                                    }
                                    return Err(e);
                                },
                            }
                        },
                        None => {
                            let none: Vec<String> = Vec::new();
                            proof {
                                assert(views(none@) =~= Seq::<Seq<char>>::empty());
                            }
                            add_classes(&mut normalized, &none);
                        },
                    }
                } else {
                    match render_attribute(attribute, context) {
                        Ok(Some(value)) => {
                            add_name_exec(&mut normalized.order, attribute.name.as_str());
                            map_insert_exec(&mut normalized.attrs, attribute.name.as_str(), value);
                        },
                        Ok(None) => {},
                        Err(e) => {
                            proof {
                                lemma_norm_prefix_err(attributes@, *context, i + 1);
                            }
                            return Err(e);
                        },
                    }
                }
            },
            AttributeLike::SpreadAttribute(attribute) => {
                match apply_spread_attribute(&mut normalized, attribute, context) {
                    Ok(()) => {},
                    Err(e) => {
                        proof {
                            lemma_norm_prefix_err(attributes@, *context, i + 1);
                        }
                        return Err(e);
                    },
                }
            },
        }
        i += 1;
    }
    proof {
        assert(attributes@.subrange(0, attributes@.len() as int) == attributes@);
    }
    Ok(normalized)
}

fn write_attributes(normalized: &NormalizedAttributes, out: &mut String)
    ensures
        final(out)@ == old(out)@ + write_spec(norm_view(*normalized)),
{
    let ghost st = norm_view(*normalized);
    let mut i: usize = 0;
    while i < normalized.order.len()
        invariant
            i <= normalized.order@.len(),
            st == norm_view(*normalized),
            out@ == old(out)@ + write_names(st, st.order.subrange(0, i as int)),
        decreases normalized.order.len() - i,
    {
        proof {
            let p = st.order.subrange(0, i + 1);
            assert(p.drop_last() == st.order.subrange(0, i as int));
            assert(p.last() == normalized.order@[i as int]@);
        }
        let name = &normalized.order[i];
        if str_eq(name.as_str(), "class") {
            if normalized.class_values.len() > 0 {
                out.append(" class=\"");
                out.append(escape_html_attribute(join_with_space(&normalized.class_values).as_str()).as_str());
                out.append("\"");
            }
        } else {
            match map_get_exec(&normalized.attrs, name.as_str()) {
                Some(value) => {
                    push_char(out, ' ');
                    out.append(name.as_str());
                    match value {
                        Some(v) => {
                            out.append("=\"");
                            out.append(v.as_str());
                            out.append("\"");
                        },
                        None => {},
                    }
                },
                None => {},
            }
        }
        i += 1;
    }
    proof {
        assert(st.order.subrange(0, st.order.len() as int) == st.order);
    }
}

/// The normalized attributes written out, as a fragment to put after a tag name.
pub open spec fn attributes_fragment_spec(attrs: Seq<AttributeLike>, ctx: RuntimeContext) -> Result<Seq<char>, Failure> {
    match norm_attrs_spec(attrs, ctx) {
        Err(f) => Err(f),
        Ok(st) => Ok(write_spec(st)),
    }
}

pub fn render_attributes_fragment(attributes: &Vec<AttributeLike>, context: &RuntimeContext) -> (r: BackendResult<String>)
    ensures
        match attributes_fragment_spec(attributes@, *context) {
            Ok(t) => r matches Ok(x) && x@ == t,
            Err(f) => r matches Err(e) && reports(e, f),
        },
{
    let normalized = normalize_attributes(attributes, context)?;
    let mut out = String::new();
    write_attributes(&normalized, &mut out);
    proof {
        assert(Seq::<char>::empty() + write_spec(norm_view(normalized)) == write_spec(norm_view(normalized)));
    }
    Ok(out)
}

/// The failure for content of a raw-text element that cannot be rendered.
pub open spec fn raw_render_failure(name: Seq<char>, span: Option<SourceSpan>) -> Failure {
    Failure {
        code: "html.semantic.raw_text_render"@,
        message: if name == "title"@ {
            "Only text and interpolations can be rendered inside <"@ + name + ">."@
        } else {
            "Only text can be rendered inside <"@ + name + ">."@
        },
        span,
    }
}

/// A child of a raw-text element as rendered: text as it is, and inside `title`
/// an interpolation's value escaped as text (raw HTML included).
pub open spec fn raw_child_render(name: Seq<char>, span: Option<SourceSpan>, child: Node, ctx: RuntimeContext) -> Result<Seq<char>, Failure> {
    match child {
        Node::Text(t) => Ok(t.value@),
        Node::Interpolation(i) => if name == "title"@ {
            match value_spec(ctx, i) {
                Err(f) => Err(f),
                Ok(v) => child_spec(v, true),
            }
        } else {
            Err(raw_render_failure(name, span))
        },
        _ => Err(raw_render_failure(name, span)),
    }
}

pub open spec fn raw_children_render(name: Seq<char>, span: Option<SourceSpan>, ns: Seq<Node>, ctx: RuntimeContext) -> Result<Seq<char>, Failure>
    decreases ns.len(),
{
    if ns.len() == 0 {
        Ok(Seq::empty())
    } else {
        match raw_children_render(name, span, ns.drop_last(), ctx) {
            Err(f) => Err(f),
            Ok(a) => match raw_child_render(name, span, ns.last(), ctx) {
                Err(f) => Err(f),
                Ok(b) => Ok(a + b),
            },
        }
    }
}

/// A raw-text element as rendered: its start tag with the normalized
/// attributes, its content, and its end tag.
pub open spec fn raw_element_render(r: RawTextElementNode, ctx: RuntimeContext) -> Result<Seq<char>, Failure> {
    match norm_attrs_spec(r.attributes@, ctx) {
        Err(f) => Err(f),
        Ok(st) => match raw_children_render(r.name@, r.span, r.children@, ctx) {
            Err(f) => Err(f),
            Ok(body) => Ok("<"@ + r.name@ + write_spec(st) + ">"@ + body + "</"@ + r.name@ + ">"@),
        },
    }
}

/// The HTML backend renders no component tag.
pub open spec fn component_render_failure(name: Seq<char>, span: Option<SourceSpan>) -> Failure {
    Failure {
        code: "html.semantic.component_render"@,
        message: "Component tag <"@ + name + "> is only valid in the T-HTML backend."@,
        span,
    }
}

/// A node as rendered: text escaped, an interpolation by its value as a child,
/// comments and doctypes as written, fragments by their children in order, and
/// elements with their normalized attributes, self-closing ones as `<name .../>`.
pub open spec fn node_render(n: Node, ctx: RuntimeContext) -> Result<Seq<char>, Failure>
    decreases n,
{
    match n {
        Node::Text(t) => Ok(escape_text_spec(t.value@)),
        Node::Interpolation(i) => match value_spec(ctx, i) {
            Err(f) => Err(f),
            Ok(v) => child_spec(v, false),
        },
        Node::Comment(c) => Ok("<!--"@ + c.value@ + "-->"@),
        Node::Doctype(d) => Ok("<!"@ + d.value@ + ">"@),
        Node::Fragment(f) => nodes_render(f.children@, ctx),
        Node::Element(e) => match norm_attrs_spec(e.attributes@, ctx) {
            Err(f) => Err(f),
            Ok(st) => if e.self_closing {
                Ok("<"@ + e.name@ + write_spec(st) + "/>"@)
            } else {
                match nodes_render(e.children@, ctx) {
                    Err(f) => Err(f),
                    Ok(body) => Ok("<"@ + e.name@ + write_spec(st) + ">"@ + body + "</"@ + e.name@ + ">"@),
                }
            },
        },
        Node::RawTextElement(r) => raw_element_render(r, ctx),
        Node::ComponentTag(c) => Err(component_render_failure(c.name@, c.span)),
    }
}

pub open spec fn nodes_render(ns: Seq<Node>, ctx: RuntimeContext) -> Result<Seq<char>, Failure>
    decreases ns,
{
    if ns.len() == 0 {
        Ok(Seq::empty())
    } else {
        match nodes_render(ns.subrange(0, ns.len() - 1), ctx) {
            Err(f) => Err(f),
            Ok(a) => match node_render(ns[ns.len() - 1], ctx) {
                Err(f) => Err(f),
                Ok(b) => Ok(a + b),
            },
        }
    }
}

/// `r` holds the text `spec` gives, or the error that reports its failure.
pub open spec fn gave(r: BackendResult<String>, spec: Result<Seq<char>, Failure>) -> bool {
    match spec {
        Ok(t) => r matches Ok(x) && x@ == t,
        Err(f) => r matches Err(e) && reports(e, f),
    }
}

proof fn lemma_raw_render_prefix_err(name: Seq<char>, span: Option<SourceSpan>, ns: Seq<Node>, ctx: RuntimeContext, i: int)
    requires
        0 <= i <= ns.len(),
        raw_children_render(name, span, ns.subrange(0, i), ctx) is Err,
    ensures
        raw_children_render(name, span, ns, ctx) == raw_children_render(name, span, ns.subrange(0, i), ctx),
    decreases ns.len() - i,
{
    if i < ns.len() {
        let p = ns.subrange(0, i + 1);
        assert(p.drop_last() == ns.subrange(0, i));
        lemma_raw_render_prefix_err(name, span, ns, ctx, i + 1);
    } else {
        assert(ns.subrange(0, i) == ns);
    }
}

proof fn lemma_nodes_render_prefix_err(ns: Seq<Node>, ctx: RuntimeContext, i: int)
    requires
        0 <= i <= ns.len(),
        nodes_render(ns.subrange(0, i), ctx) is Err,
    ensures
        nodes_render(ns, ctx) == nodes_render(ns.subrange(0, i), ctx),
    decreases ns.len() - i,
{
    if i < ns.len() {
        let p = ns.subrange(0, i + 1);
        assert(p.subrange(0, p.len() - 1) == ns.subrange(0, i));
        lemma_nodes_render_prefix_err(ns, ctx, i + 1);
    } else {
        assert(ns.subrange(0, i) == ns);
    }
}

fn raw_render_error(name: &str, span: Option<SourceSpan>) -> (r: BackendError)
    ensures
        reports(r, raw_render_failure(name@, span)),
{
    let message = if raw_text_allows_interpolation(name) {
        concat3("Only text and interpolations can be rendered inside <", name, ">.")
    } else {
        concat3("Only text can be rendered inside <", name, ">.")
    };
    runtime_error("html.semantic.raw_text_render", message, span)
}

fn render_raw_text_element(element: &RawTextElementNode, context: &RuntimeContext, out: &mut String) -> (r: BackendResult<()>)
    ensures
        wrote(r, old(out)@, final(out)@, raw_element_render(*element, *context)),
{
    let ghost start = out@;
    push_char(out, '<');
    out.append(element.name.as_str());
    let normalized = normalize_attributes(&element.attributes, context)?;
    write_attributes(&normalized, out);
    push_char(out, '>');
    let allows = raw_text_allows_interpolation(element.name.as_str());
    let ghost head = out@;
    let ghost name = element.name@;
    let ghost span = element.span;
    let ghost st = norm_view(normalized);
    proof {
        reveal_strlit("<");
        reveal_strlit(">");
        assert(head =~= start + ("<"@ + name + write_spec(st) + ">"@));
    }
    let mut i: usize = 0;
    while i < element.children.len()
        invariant
            i <= element.children@.len(),
            norm_attrs_spec(element.attributes@, *context) == Ok::<NormState, Failure>(st),
            head == start + ("<"@ + name + write_spec(st) + ">"@),
            allows == (name == "title"@),
            name == element.name@,
            span == element.span,
            raw_children_render(name, span, element.children@.subrange(0, i as int), *context) matches Ok(t)
                && out@ == head + t,
        decreases element.children.len() - i,
    {
        proof {
            let p = element.children@.subrange(0, i + 1);
            assert(p.drop_last() == element.children@.subrange(0, i as int));
            assert(p.last() == element.children@[i as int]);
        }
        let ghost before = out@;
        match &element.children[i] {
            Node::Text(text) => {
                out.append(text.value.as_str());
            },
            Node::Interpolation(interpolation) => {
                if allows {
                    match value_for_interpolation(context, interpolation) {
                        Ok(value) => {
                            let step = render_escaped_text_value(value, out);
                            if step.is_err() {
                                proof {
                                    lemma_raw_render_prefix_err(name, span, element.children@, *context, i + 1);
                                }
                                return step;
                            }
                        },
                        Err(e) => {
                            proof {
                                lemma_raw_render_prefix_err(name, span, element.children@, *context, i + 1);
                            }
                            return Err(e);
                        },
                    }
                } else {
                    proof {
                        lemma_raw_render_prefix_err(name, span, element.children@, *context, i + 1);
                    }
                    return Err(raw_render_error(element.name.as_str(), element.span));
                }
            },
            _ => {
                proof {
                    lemma_raw_render_prefix_err(name, span, element.children@, *context, i + 1);
                }
                return Err(raw_render_error(element.name.as_str(), element.span));
            },
        }
        proof {
            let t = raw_children_render(name, span, element.children@.subrange(0, i as int), *context)->Ok_0;
            let u = raw_child_render(name, span, element.children@[i as int], *context)->Ok_0;
            assert(out@ == head + (t + u));
        }
        i += 1;
    }
    proof {
        assert(element.children@.subrange(0, element.children@.len() as int) == element.children@);
    }
    out.append("</");
    out.append(element.name.as_str());
    push_char(out, '>');
    proof {
        let body = raw_children_render(name, span, element.children@, *context)->Ok_0;
        reveal_strlit("</");
        reveal_strlit(">");
        assert(out@ =~= start + ("<"@ + name + write_spec(st) + ">"@ + body + "</"@ + name + ">"@));
    }
    Ok(())
}

fn component_render_error(name: &str, span: Option<SourceSpan>) -> (r: BackendError)
    ensures
        reports(r, component_render_failure(name@, span)),
{
    runtime_error(
        "html.semantic.component_render",
        concat3("Component tag <", name, "> is only valid in the T-HTML backend."),
        span,
    )
}

/// Renders one node into `out`, as [`node_render`].
fn render_node(node: &Node, context: &RuntimeContext, out: &mut String) -> (r: BackendResult<()>)
    ensures
        wrote(r, old(out)@, final(out)@, node_render(*node, *context)),
    decreases node, 0nat,
{
    let ghost start = out@;
    match node {
        Node::Text(text) => {
            out.append(escape_html_text(text.value.as_str()).as_str());
        },
        Node::Interpolation(interpolation) => {
            let value = value_for_interpolation(context, interpolation)?;
            return render_child_value(value, out);
        },
        Node::Comment(comment) => {
            out.append("<!--");
            out.append(comment.value.as_str());
            out.append("-->");
            proof {
                assert(out@ =~= start + ("<!--"@ + comment.value@ + "-->"@));
            }
        },
        Node::Doctype(doctype) => {
            push_char(out, '<');
            push_char(out, '!');
            out.append(doctype.value.as_str());
            push_char(out, '>');
            proof {
                reveal_strlit("<!");
                reveal_strlit(">");
                assert(out@ =~= start + ("<!"@ + doctype.value@ + ">"@));
            }
        },
        Node::Fragment(fragment) => {
            proof {
                assert(decreases_to!(*node => (*node)->Fragment_0));
            }
            return render_nodes(&fragment.children, context, out);
        },
        Node::Element(element) => {
            proof {
                assert(decreases_to!(*node => (*node)->Element_0));
            }
            return render_html_element(
                element.name.as_str(),
                &element.attributes,
                &element.children,
                element.self_closing,
                context,
                out,
            );
        },
        Node::RawTextElement(element) => {
            return render_raw_text_element(element, context, out);
        },
        Node::ComponentTag(component) => {
            return Err(component_render_error(component.name.as_str(), component.span));
        },
    }
    Ok(())
}

/// Renders nodes in order into `out`, as [`nodes_render`].
fn render_nodes(children: &Vec<Node>, context: &RuntimeContext, out: &mut String) -> (r: BackendResult<()>)
    ensures
        wrote(r, old(out)@, final(out)@, nodes_render(children@, *context)),
    decreases children, 0nat,
{
    let ghost start = out@;
    let mut i: usize = 0;
    while i < children.len()
        invariant
            i <= children@.len(),
            nodes_render(children@.subrange(0, i as int), *context) matches Ok(t) && out@ == start + t,
        decreases children.len() - i,
    {
        proof {
            let p = children@.subrange(0, i + 1);
            assert(p.subrange(0, p.len() - 1) == children@.subrange(0, i as int));
            assert(p[p.len() - 1] == children@[i as int]);
            assert(decreases_to!(*children => children@));
            assert(decreases_to!(children@ => children@[i as int]));
        }
        let step = render_node(&children[i], context, out);
        if step.is_err() {
            proof {
                lemma_nodes_render_prefix_err(children@, *context, i + 1);
            }
            return step;
        }
        proof {
            let t = nodes_render(children@.subrange(0, i as int), *context)->Ok_0;
            let u = node_render(children@[i as int], *context)->Ok_0;
            assert(out@ == start + (t + u));
        }
        i += 1;
    }
    proof {
        assert(children@.subrange(0, children@.len() as int) == children@);
    }
    Ok(())
}

/// The text of an element with the given parts, as [`node_render`] gives it.
pub open spec fn element_render(
    name: Seq<char>,
    attrs: Seq<AttributeLike>,
    children: Seq<Node>,
    self_closing: bool,
    ctx: RuntimeContext,
) -> Result<Seq<char>, Failure> {
    match norm_attrs_spec(attrs, ctx) {
        Err(f) => Err(f),
        Ok(st) => if self_closing {
            Ok("<"@ + name + write_spec(st) + "/>"@)
        } else {
            match nodes_render(children, ctx) {
                Err(f) => Err(f),
                Ok(body) => Ok("<"@ + name + write_spec(st) + ">"@ + body + "</"@ + name + ">"@),
            }
        },
    }
}

fn render_html_element(
    name: &str,
    attributes: &Vec<AttributeLike>,
    children: &Vec<Node>,
    self_closing: bool,
    context: &RuntimeContext,
    out: &mut String,
) -> (r: BackendResult<()>)
    ensures
        wrote(r, old(out)@, final(out)@, element_render(name@, attributes@, children@, self_closing, *context)),
    decreases children, 1nat,
{
    let ghost start = out@;
    push_char(out, '<');
    out.append(name);
    let normalized = normalize_attributes(attributes, context)?;
    write_attributes(&normalized, out);
    let ghost st = norm_view(normalized);
    proof {
        reveal_strlit("<");
    }
    if self_closing {
        out.append("/>");
        proof {
            assert(out@ =~= start + ("<"@ + name@ + write_spec(st) + "/>"@));
        }
        return Ok(());
    }
    push_char(out, '>');
    let ghost head = out@;
    proof {
        reveal_strlit(">");
        assert(head =~= start + ("<"@ + name@ + write_spec(st) + ">"@));
    }
    let step = render_nodes(children, context, out);
    if step.is_err() {
        return step;
    }
    out.append("</");
    out.append(name);
    push_char(out, '>');
    proof {
        let body = nodes_render(children@, *context)->Ok_0;
        reveal_strlit("</");
        assert(out@ =~= start + ("<"@ + name@ + write_spec(st) + ">"@ + body + "</"@ + name@ + ">"@));
    }
    Ok(())
}

/// Renders the children of a document in order.
pub(crate) fn render_document(document: &Document, context: &RuntimeContext) -> (r: BackendResult<String>)
    ensures
        gave(r, nodes_render(document.children@, *context)),
{
    let mut out = String::new();
    let ghost start = out@;
    let step = render_nodes(&document.children, context, &mut out);
    match step {
        Ok(()) => {
            proof {
                assert(start =~= Seq::<char>::empty());
                assert(out@ =~= nodes_render(document.children@, *context)->Ok_0);
            }
            Ok(out)
        },
        Err(e) => Err(e),
    }
}

/// No `<` or `>`: the text can neither open nor close a tag.
pub open spec fn tag_free(s: Seq<char>) -> bool {
    forall|i: int| 0 <= i < s.len() ==> #[trigger] s[i] != '<' && s[i] != '>'
}

/// A value that holds no raw HTML, at any depth.
pub open spec fn holds_no_raw_html(v: RuntimeValue) -> bool
    decreases v,
{
    match v {
        RuntimeValue::RawHtml(_) => false,
        RuntimeValue::Fragment(vs) => values_hold_no_raw_html(vs@),
        RuntimeValue::Sequence(vs) => values_hold_no_raw_html(vs@),
        _ => true,
    }
}

pub open spec fn values_hold_no_raw_html(vs: Seq<RuntimeValue>) -> bool
    decreases vs,
{
    if vs.len() == 0 {
        true
    } else {
        values_hold_no_raw_html(vs.subrange(0, vs.len() - 1)) && holds_no_raw_html(vs[vs.len() - 1])
    }
}

proof fn lemma_tag_free_concat(a: Seq<char>, b: Seq<char>)
    requires
        tag_free(a),
        tag_free(b),
    ensures
        tag_free(a + b),
{
    assert forall|i: int| 0 <= i < (a + b).len() implies #[trigger] (a + b)[i] != '<' && (a + b)[i] != '>' by {
        if i < a.len() {
            assert((a + b)[i] == a[i]);
        } else {
            assert((a + b)[i] == b[i - a.len()]);
        }
    }
}

/// Interpolated values cannot inject markup: rendered as a child, a value that
/// holds no raw HTML gives text with no `<` or `>`, and so does any value where
/// raw HTML is escaped too (inside `title`).
pub proof fn lemma_child_values_cannot_inject_markup(v: RuntimeValue, escape_raw: bool)
    requires
        escape_raw || holds_no_raw_html(v),
    ensures
        child_spec(v, escape_raw) matches Ok(t) ==> tag_free(t),
    decreases v,
{
    match v {
        RuntimeValue::Null => {},
        RuntimeValue::Bool(b) => crate::escape::lemma_escaped_text_has_no_angle_brackets(bool_text(b)),
        RuntimeValue::Int(i) => crate::escape::lemma_escaped_text_has_no_angle_brackets(int_decimal(i as int)),
        RuntimeValue::Float(f) => crate::escape::lemma_escaped_text_has_no_angle_brackets(f.display@),
        RuntimeValue::String(s) => crate::escape::lemma_escaped_text_has_no_angle_brackets(s@),
        RuntimeValue::RawHtml(s) => crate::escape::lemma_escaped_text_has_no_angle_brackets(s@),
        RuntimeValue::Fragment(vs) => {
            assert(decreases_to!(v => v->Fragment_0));
            lemma_children_cannot_inject_markup(vs@, escape_raw);
        },
        RuntimeValue::Sequence(vs) => {
            assert(decreases_to!(v => v->Sequence_0));
            lemma_children_cannot_inject_markup(vs@, escape_raw);
        },
        RuntimeValue::Attributes(_) => {},
    }
}

proof fn lemma_children_cannot_inject_markup(vs: Seq<RuntimeValue>, escape_raw: bool)
    requires
        escape_raw || values_hold_no_raw_html(vs),
    ensures
        children_spec(vs, escape_raw) matches Ok(t) ==> tag_free(t),
    decreases vs,
{
    if vs.len() > 0 {
        lemma_children_cannot_inject_markup(vs.subrange(0, vs.len() - 1), escape_raw);
        lemma_child_values_cannot_inject_markup(vs[vs.len() - 1], escape_raw);
        match children_spec(vs.subrange(0, vs.len() - 1), escape_raw) {
            Ok(a) => match child_spec(vs[vs.len() - 1], escape_raw) {
                Ok(b) => lemma_tag_free_concat(a, b),
                Err(_) => {},
            },
            Err(_) => {},
        }
    }
}

} // verus!
