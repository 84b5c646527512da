use tstring_html::html::{
    check_template, compile_template, format_template, normalize_class_value, render_html, static_key_parts,
    RuntimeContext, RuntimeValue,
};
use tstring_html::syntax::{ErrorKind, TemplateInput, TemplateInterpolation, TemplateSegment};

fn interpolation(index: usize, expression: &str, raw_source: Option<&str>) -> TemplateSegment {
    TemplateSegment::Interpolation(TemplateInterpolation {
        expression: expression.to_string(),
        conversion: None,
        format_spec: String::new(),
        interpolation_index: index,
        raw_source: raw_source.map(str::to_string),
    })
}

#[test]
fn static_key_parts_preserve_empty_boundaries() {
    let input = TemplateInput::from_segments(vec![
        interpolation(0, "a", Some("{a}")),
        interpolation(1, "b", Some("{b}")),
    ]);
    assert_eq!(static_key_parts(&input), vec!["", "", ""]);
}

#[test]
fn parse_and_render_html() {
    let input = TemplateInput::from_segments(vec![
        TemplateSegment::StaticText("<div class=\"hello ".to_string()),
        interpolation(0, "name", Some("{name}")),
        TemplateSegment::StaticText("\">".to_string()),
        interpolation(1, "content", Some("{content}")),
        TemplateSegment::StaticText("</div>".to_string()),
    ]);
    let compiled = compile_template(&input).expect("compile html template");
    let rendered = render_html(
        &compiled,
        &RuntimeContext {
            values: vec![
                RuntimeValue::String("world".to_string()),
                RuntimeValue::String("<safe>".to_string()),
            ],
        },
    )
    .expect("render html");
    assert_eq!(rendered, "<div class=\"hello world\">&lt;safe&gt;</div>");
}

#[test]
fn html_backend_rejects_component_tags() {
    let input = TemplateInput::from_segments(vec![TemplateSegment::StaticText(
        "<Button />".to_string(),
    )]);
    let err = check_template(&input).expect_err("component tags must fail");
    assert_eq!(err.kind, ErrorKind::Semantic);
}

#[test]
fn format_requires_raw_source() {
    let input = TemplateInput::from_segments(vec![
        TemplateSegment::StaticText("<div>".to_string()),
        interpolation(0, "value", None),
        TemplateSegment::StaticText("</div>".to_string()),
    ]);
    let err = format_template(&input).expect_err("format requires raw source");
    assert_eq!(err.kind, ErrorKind::Semantic);
}

#[test]
fn class_normalization_supports_mappings_and_sequences() {
    let values = normalize_class_value(&RuntimeValue::Sequence(vec![
        RuntimeValue::String("foo bar".to_string()),
        RuntimeValue::Attributes(vec![
            ("baz".to_string(), RuntimeValue::Bool(true)),
            ("skip".to_string(), RuntimeValue::Bool(false)),
        ]),
    ]))
    .expect("normalize class");
    assert_eq!(values, vec!["foo", "bar", "baz"]);
}

#[test]
fn title_interpolation_is_allowed_and_escaped_on_render() {
    let input = TemplateInput::from_segments(vec![
        TemplateSegment::StaticText("<title>".to_string()),
        interpolation(0, "title", Some("{title}")),
        TemplateSegment::StaticText("</title>".to_string()),
    ]);
    let compiled = compile_template(&input).expect("compile title template");
    let rendered = render_html(
        &compiled,
        &RuntimeContext {
            values: vec![RuntimeValue::RawHtml("<safe>".to_string())],
        },
    )
    .expect("render title");
    assert_eq!(rendered, "<title>&lt;safe&gt;</title>");
}

#[test]
fn script_interpolation_is_still_rejected() {
    let input = TemplateInput::from_segments(vec![
        TemplateSegment::StaticText("<script>".to_string()),
        interpolation(0, "script", Some("{script}")),
        TemplateSegment::StaticText("</script>".to_string()),
    ]);
    let err = check_template(&input).expect_err("script must still fail");
    assert_eq!(err.kind, ErrorKind::Semantic);
    assert!(err.message.contains("<script>"));
}
