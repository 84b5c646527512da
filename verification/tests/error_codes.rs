use tstring_html::html;
use tstring_html::html::{RuntimeContext, RuntimeValue};
use tstring_html::syntax::{BackendError, ErrorKind, TemplateInput, TemplateInterpolation, TemplateSegment};
use tstring_html::tdom;
use tstring_html::thtml;

fn text(value: &str) -> TemplateSegment {
    TemplateSegment::StaticText(value.to_string())
}

fn slot(index: usize, expression: &str) -> TemplateSegment {
    TemplateSegment::Interpolation(TemplateInterpolation {
        expression: expression.to_string(),
        conversion: None,
        format_spec: String::new(),
        interpolation_index: index,
        raw_source: Some(format!("{{{expression}}}")),
    })
}

fn bare_slot(index: usize, expression: &str) -> TemplateSegment {
    TemplateSegment::Interpolation(TemplateInterpolation {
        expression: expression.to_string(),
        conversion: None,
        format_spec: String::new(),
        interpolation_index: index,
        raw_source: None,
    })
}

fn template(segments: Vec<TemplateSegment>) -> TemplateInput {
    TemplateInput::from_segments(segments)
}

fn code_of(err: &BackendError) -> &str {
    err.diagnostics[0].code.as_str()
}

#[test]
fn html_parse_failures_carry_their_codes() {
    let cases = vec![
        (vec![text("<div></div x>")], "html.parse.expected_char"),
        (vec![text("<!-- "), slot(0, "x"), text(" -->")], "html.parse.comment_interpolation"),
        (vec![text("<!DOCTYPE "), slot(0, "x"), text(">")], "html.parse.doctype_interpolation"),
        (vec![text("<div></span>")], "html.parse.mismatched_tag"),
    ];
    for (segments, code) in cases {
        let err = html::check_template(&template(segments)).unwrap_err();
        assert_eq!(err.kind, ErrorKind::Parse);
        assert_eq!(code_of(&err), code);
    }
}

#[test]
fn html_semantic_failures_carry_their_codes() {
    let cases = vec![
        (vec![text("<Card></Card>")], "html.semantic.component_tag"),
        (vec![text("<div title="), slot(0, "x"), text("></div>")], "html.semantic.unquoted_dynamic_attr"),
        (vec![text("<script>"), slot(0, "x"), text("</script>")], "html.semantic.raw_text_interpolation"),
    ];
    for (segments, code) in cases {
        let err = html::check_template(&template(segments)).unwrap_err();
        assert_eq!(err.kind, ErrorKind::Semantic);
        assert_eq!(code_of(&err), code);
    }
}

#[test]
fn formatting_without_raw_source_is_refused() {
    let html_err = html::format_template(&template(vec![text("<p>"), bare_slot(0, "x"), text("</p>")])).unwrap_err();
    assert_eq!(code_of(&html_err), "html.format.raw_source_required");
    assert_eq!(html_err.message, "Formatting requires raw_source for interpolation 'x'.");
    let tdom_err = tdom::format_template(&template(vec![text("<p>"), bare_slot(0, "x"), text("</p>")])).unwrap_err();
    assert_eq!(code_of(&tdom_err), "tdom.format.raw_source_required");
}

#[test]
fn thtml_components_need_the_host_runtime() {
    let compiled = thtml::compile_template(&template(vec![text("<Card>hi</Card>")])).unwrap();
    let err = thtml::render_html(&compiled, &RuntimeContext { values: Vec::<RuntimeValue>::new() }).unwrap_err();
    assert_eq!(code_of(&err), "thtml.runtime.component_resolution");
}

#[test]
fn tdom_parse_failures_carry_their_codes() {
    let cases = vec![
        (vec![text("<"), slot(0, "A"), slot(1, "B"), text(">")], "tdom.parse.singleton_interpolation_required"),
        (vec![text("<div "), slot(0, "a"), text("x></div>")], "tdom.parse.singleton_interpolation_required"),
        (vec![text("<!-- open")], "tdom.parse.comment_unclosed"),
        (vec![text("<!DOCTYPE "), slot(0, "x"), text(">")], "tdom.parse.doctype_interpolation"),
        (vec![text("<!foo>")], "tdom.parse.unknown_declaration"),
        (vec![text("<div></span>")], "tdom.parse.mismatched_tag"),
        (vec![text("<div></"), slot(0, "Card"), text(">")], "tdom.parse.component_end_tag_for_element"),
        (vec![text("<"), slot(0, "Card"), text("></div>")], "tdom.parse.literal_end_tag_for_component"),
        (vec![text("<"), slot(0, "Card"), text("></"), slot(1, "Other"), text(">")], "tdom.parse.mismatched_component_tag"),
        (vec![text("<div>")], "tdom.parse.unclosed_tag"),
        (vec![text("<"), slot(0, "Card"), text(">")], "tdom.parse.unclosed_tag"),
        (vec![text("<div")], "tdom.parse.unclosed_start_tag"),
        (vec![text("< div>")], "tdom.parse.expected_name"),
        (vec![text("<div></div x>")], "tdom.parse.expected_char"),
    ];
    for (segments, code) in cases {
        let err = tdom::check_template(&template(segments)).unwrap_err();
        assert_eq!(err.kind, ErrorKind::Parse, "{code}");
        assert_eq!(code_of(&err), code);
    }
}

#[test]
fn tdom_unclosed_component_names_its_source() {
    let err = tdom::check_template(&template(vec![text("<"), slot(0, "Card"), text(">")])).unwrap_err();
    assert_eq!(err.message, "Unclosed component tag <{Card}>.");
}

#[test]
fn tdom_end_tags_match_in_any_case() {
    let document = tdom::prepare_template(&template(vec![text("<DIV>x</div>")])).unwrap();
    assert_eq!(document.children.len(), 1);
}

#[test]
fn raw_source_is_written_back_in_braces() {
    assert_eq!(tstring_html::syntax::build_raw_source("name", None, ""), "{name}");
    assert_eq!(tstring_html::syntax::build_raw_source("name", Some("r"), ""), "{name!r}");
    assert_eq!(tstring_html::syntax::build_raw_source("value", None, ">10"), "{value:>10}");
    assert_eq!(tstring_html::syntax::build_raw_source("value", Some("s"), ".2f"), "{value!s:.2f}");
}
