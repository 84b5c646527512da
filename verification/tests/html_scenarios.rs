use tstring_html::html::{
    prepare_template, rebound_document, check_template, compile_template, format_template_with_options, render_attributes_fragment, render_child_value,
    render_html, static_key_parts, stringify_runtime_value, Attribute, AttributeLike, AttributeValue, FloatValue,
    FormatOptions, InterpolationNode, RuntimeContext, RuntimeValue, SpreadAttribute, ValuePart,
};
use tstring_html::syntax::{ErrorKind, TemplateInput, TemplateInterpolation, TemplateSegment};

fn text(value: &str) -> TemplateSegment {
    TemplateSegment::StaticText(value.to_string())
}

fn slot(index: usize, expression: &str) -> TemplateSegment {
    TemplateSegment::Interpolation(TemplateInterpolation {
        expression: expression.to_string(),
        conversion: None,
        format_spec: String::new(),
        interpolation_index: index,
        raw_source: Some(format!("{{{expression}}}")),
    })
}

fn render(segments: Vec<TemplateSegment>, values: Vec<RuntimeValue>) -> Result<String, String> {
    let template = TemplateInput::from_segments(segments);
    let compiled = compile_template(&template).map_err(|e| e.message)?;
    render_html(&compiled, &RuntimeContext { values }).map_err(|e| e.message)
}

fn string(value: &str) -> RuntimeValue {
    RuntimeValue::String(value.to_string())
}

#[test]
fn interpolated_text_is_escaped() {
    let rendered = render(
        vec![text("<p>"), slot(0, "user_input"), text("</p>")],
        vec![string("<img src=x onerror=\"alert(1)\">")],
    );
    assert_eq!(rendered.unwrap(), "<p>&lt;img src=x onerror=\"alert(1)\"&gt;</p>");
}

#[test]
fn greeting_renders_value_in_place() {
    let rendered = render(vec![text("<h1>Hello, "), slot(0, "name"), text("!</h1>")], vec![string("world")]);
    assert_eq!(rendered.unwrap(), "<h1>Hello, world!</h1>");
}

#[test]
fn raw_html_renders_unescaped_in_child_position() {
    let rendered = render(
        vec![text("<span>"), slot(0, "icon"), text("</span>")],
        vec![RuntimeValue::RawHtml("<svg><circle r=\"5\"/></svg>".to_string())],
    );
    assert_eq!(rendered.unwrap(), "<span><svg><circle r=\"5\"/></svg></span>");
}

#[test]
fn quoted_attribute_values_are_escaped() {
    let rendered = render(
        vec![text("<div title=\""), slot(0, "title"), text("\"></div>")],
        vec![string("safe & sound")],
    );
    assert_eq!(rendered.unwrap(), "<div title=\"safe &amp; sound\"></div>");
    let link = render(vec![text("<a href=\""), slot(0, "href"), text("\">Dashboard</a>")], vec![string("/dashboard")]);
    assert_eq!(link.unwrap(), "<a href=\"/dashboard\">Dashboard</a>");
}

#[test]
fn boolean_attribute_values_render_bare_or_not_at_all() {
    let rendered = render(
        vec![
            text("<button disabled=\""),
            slot(0, "disabled"),
            text("\" hidden=\""),
            slot(1, "hidden"),
            text("\">OK</button>"),
        ],
        vec![RuntimeValue::Bool(true), RuntimeValue::Bool(false)],
    );
    assert_eq!(rendered.unwrap(), "<button disabled>OK</button>");
}

#[test]
fn class_lists_and_mappings_are_normalized() {
    let classes = RuntimeValue::Sequence(vec![
        string("btn"),
        RuntimeValue::Attributes(vec![
            ("btn-primary".to_string(), RuntimeValue::Bool(true)),
            ("btn-disabled".to_string(), RuntimeValue::Bool(false)),
        ]),
    ]);
    let rendered = render(vec![text("<button class=\""), slot(0, "classes"), text("\">Click</button>")], vec![classes]);
    assert_eq!(rendered.unwrap(), "<button class=\"btn btn-primary\">Click</button>");
}

#[test]
fn spread_attributes_merge_left_to_right() {
    let attrs = RuntimeValue::Attributes(vec![
        ("data-id".to_string(), string("42")),
        ("class".to_string(), string("extra")),
        ("hidden".to_string(), RuntimeValue::Bool(false)),
    ]);
    let rendered = render(vec![text("<div class=\"base\" "), slot(0, "attrs"), text(">content</div>")], vec![attrs]);
    assert_eq!(rendered.unwrap(), "<div class=\"base extra\" data-id=\"42\">content</div>");
}

#[test]
fn fragment_children_render_in_order() {
    let children = RuntimeValue::Fragment(vec![RuntimeValue::RawHtml("<em>first</em>".to_string()), string("second")]);
    let rendered = render(vec![text("<div>"), slot(0, "children"), text("</div>")], vec![children]);
    assert_eq!(rendered.unwrap(), "<div><em>first</em>second</div>");
}

#[test]
fn title_escapes_raw_html() {
    let rendered = render(
        vec![text("<title>"), slot(0, "title"), text("</title>")],
        vec![RuntimeValue::RawHtml("<b>safe</b>".to_string())],
    );
    assert_eq!(rendered.unwrap(), "<title>&lt;b&gt;safe&lt;/b&gt;</title>");
}

#[test]
fn long_start_tags_put_attributes_on_their_own_lines() {
    let template = TemplateInput::from_segments(vec![text("<div data-a=\"12345\" data-b=\"67890\"></div>")]);
    let formatted = format_template_with_options(&template, &FormatOptions { line_length: 20 }).unwrap();
    assert_eq!(formatted, "<div\n  data-a=\"12345\"\n  data-b=\"67890\"\n></div>");
}

#[test]
fn mapping_children_are_a_runtime_error() {
    let rendered = render(
        vec![text("<div>"), slot(0, "value"), text("</div>")],
        vec![RuntimeValue::Attributes(vec![("a".to_string(), string("b"))])],
    );
    assert_eq!(rendered.unwrap_err(), "Mapping-like values cannot be rendered as children.");
}

#[test]
fn missing_values_are_reported_by_expression() {
    let rendered = render(vec![text("<div>"), slot(0, "value"), text("</div>")], vec![]);
    assert_eq!(rendered.unwrap_err(), "Missing runtime value for interpolation 'value'.");
}

#[test]
fn true_is_not_a_class_value() {
    let rendered = render(vec![text("<div class=\""), slot(0, "c"), text("\"></div>")], vec![RuntimeValue::Bool(true)]);
    assert_eq!(rendered.unwrap_err(), "True is not a supported scalar class value.");
    let rendered = render(vec![text("<div class=\""), slot(0, "c"), text("\"></div>")], vec![RuntimeValue::Int(3)]);
    assert_eq!(rendered.unwrap_err(), "Unsupported class value type.");
}

#[test]
fn containers_cannot_be_stringified() {
    let err = stringify_runtime_value(&RuntimeValue::Sequence(vec![])).unwrap_err();
    assert_eq!(err.message, "Value cannot be stringified in this position.");
    assert_eq!(err.kind, ErrorKind::Semantic);
}

#[test]
fn numbers_render_as_decimal_text() {
    assert_eq!(stringify_runtime_value(&RuntimeValue::Int(-42)).unwrap(), "-42");
    assert_eq!(stringify_runtime_value(&RuntimeValue::Bool(false)).unwrap(), "false");
    let float = RuntimeValue::Float(FloatValue { display: "1.5".to_string(), nonzero: true });
    assert_eq!(stringify_runtime_value(&float).unwrap(), "1.5");
    let mut out = String::new();
    render_child_value(&RuntimeValue::Int(7), &mut out).unwrap();
    assert_eq!(out, "7");
}

#[test]
fn spread_requires_a_mapping() {
    let attributes = vec![AttributeLike::SpreadAttribute(SpreadAttribute {
        interpolation: InterpolationNode {
            interpolation_index: 0,
            expression: "attrs".to_string(),
            raw_source: None,
            conversion: None,
            format_spec: String::new(),
            span: None,
        },
        span: None,
    })];
    let err = render_attributes_fragment(&attributes, &RuntimeContext { values: vec![string("x")] }).unwrap_err();
    assert_eq!(err.diagnostics[0].code, "html.runtime.spread_type");
}

#[test]
fn attribute_fragment_escapes_values() {
    let attributes = vec![AttributeLike::Attribute(Attribute {
        name: "title".to_string(),
        value: Some(AttributeValue { quoted: true, parts: vec![ValuePart::Text("a\"b<c".to_string())] }),
        span: None,
    })];
    let fragment = render_attributes_fragment(&attributes, &RuntimeContext::default()).unwrap();
    assert_eq!(fragment, " title=\"a&quot;b&lt;c\"");
}

#[test]
fn html_parse_errors_name_their_code() {
    let cases = [
        ("<div", "html.parse.unclosed_start_tag"),
        ("<div>", "html.parse.unclosed_tag"),
        ("<!-- open", "html.parse.comment_unclosed"),
        ("< div>", "html.parse.expected_name"),
    ];
    for (source, code) in cases {
        let err = check_template(&TemplateInput::from_segments(vec![text(source)])).unwrap_err();
        assert_eq!(err.kind, ErrorKind::Parse, "{source}");
        assert_eq!(err.diagnostics[0].code, code, "{source}");
    }
}

#[test]
fn static_key_has_one_part_more_than_interpolations() {
    let template = TemplateInput::from_segments(vec![slot(0, "a"), text("x"), slot(1, "b")]);
    let parts = static_key_parts(&template);
    assert_eq!(parts, vec!["", "x", ""]);
}

#[test]
fn rebinding_a_parsed_template_matches_parsing_the_other() {
    let first = TemplateInput::from_segments(vec![
        text("<div class=\""),
        slot(0, "cls"),
        text("\" "),
        slot(1, "attrs"),
        text(">"),
        slot(2, "body"),
        text("</div>"),
    ]);
    let second = TemplateInput::from_segments(vec![
        text("<div class=\""),
        slot(0, "other_cls"),
        text("\" "),
        slot(1, "more_attrs"),
        text(">"),
        slot(2, "content"),
        text("</div>"),
    ]);
    let cached = prepare_template(&first).unwrap();
    let rebound = rebound_document(&cached, &second);
    let fresh = prepare_template(&second).unwrap();
    assert_eq!(rebound, fresh);
    assert_ne!(cached, fresh);
}

#[test]
fn attribute_ampersands_are_always_escaped() {
    let rendered = render(
        vec![text("<div title=\""), slot(0, "title"), text("\"></div>")],
        vec![string("Tom &amp; Jerry")],
    );
    assert_eq!(rendered.unwrap(), "<div title=\"Tom &amp;amp; Jerry\"></div>");
}

fn render_err(segments: Vec<TemplateSegment>, values: Vec<RuntimeValue>) -> tstring_html::syntax::BackendError {
    let template = TemplateInput::from_segments(segments);
    let compiled = compile_template(&template).unwrap();
    render_html(&compiled, &RuntimeContext { values }).unwrap_err()
}

#[test]
fn dangerous_url_schemes_are_rejected() {
    for value in ["javascript:alert(1)", "java\t script:alert(1)", " JAVASCRIPT:x", "java\nscript:x"] {
        let err = render_err(vec![text("<a href=\""), slot(0, "href"), text("\">x</a>")], vec![string(value)]);
        assert_eq!(err.kind, ErrorKind::Semantic);
        assert!(err.message.contains("unsafe javascript:"), "{value}");
    }
    let err = render_err(vec![text("<img src=\""), slot(0, "src"), text("\" />")], vec![string("vbscript:msgbox")]);
    assert!(err.message.contains("unsafe vbscript:"));
    let spread = RuntimeValue::Attributes(vec![("href".to_string(), string("data:text/html,<svg></svg>"))]);
    let err = render_err(vec![text("<a "), slot(0, "attrs"), text(">x</a>")], vec![spread]);
    assert_eq!(err.kind, ErrorKind::Semantic);
    assert!(err.message.contains("unsafe data:"));
}

#[test]
fn safe_urls_and_other_attributes_render() {
    let rendered = render(vec![text("<a href=\""), slot(0, "href"), text("\">x</a>")], vec![string("https://example.com/")]);
    assert_eq!(rendered.unwrap(), "<a href=\"https://example.com/\">x</a>");
    let rendered = render(vec![text("<a title=\""), slot(0, "t"), text("\">x</a>")], vec![string("javascript:x")]);
    assert_eq!(rendered.unwrap(), "<a title=\"javascript:x\">x</a>");
}

#[test]
fn spread_attribute_names_must_be_valid() {
    let spread = RuntimeValue::Attributes(vec![("x onmouseover=alert(1)".to_string(), string("y"))]);
    let err = render_err(vec![text("<div "), slot(0, "attrs"), text("></div>")], vec![spread]);
    assert_eq!(err.kind, ErrorKind::Semantic);
    assert!(err.message.contains("attribute name"));
}

#[test]
fn formatter_single_quotes_values_holding_double_quotes() {
    let options = FormatOptions { line_length: 80 };
    let t = TemplateInput::from_segments(vec![text("<div title='say \"hi\"'></div>")]);
    assert_eq!(format_template_with_options(&t, &options).unwrap(), "<div title='say \"hi\"'></div>");
    let t = TemplateInput::from_segments(vec![text("<div title=\"it's \"></div>")]);
    assert_eq!(format_template_with_options(&t, &options).unwrap(), "<div title=\"it's \"></div>");
}

#[test]
fn conversions_on_structured_values_are_rejected() {
    let converted = TemplateSegment::Interpolation(TemplateInterpolation {
        expression: "raw".to_string(),
        conversion: Some("r".to_string()),
        format_spec: String::new(),
        interpolation_index: 0,
        raw_source: Some("{raw!r}".to_string()),
    });
    let err = render_err(vec![text("<div>"), converted, text("</div>")], vec![RuntimeValue::RawHtml("<b>x</b>".to_string())]);
    assert_eq!(err.diagnostics[0].code, "html.runtime.structured_conversion");
    let formatted = TemplateSegment::Interpolation(TemplateInterpolation {
        expression: "n".to_string(),
        conversion: None,
        format_spec: ".2f".to_string(),
        interpolation_index: 0,
        raw_source: Some("{n:.2f}".to_string()),
    });
    let rendered = render(vec![text("<p>"), formatted, text("</p>")], vec![string("1.50")]);
    assert_eq!(rendered.unwrap(), "<p>1.50</p>");
}

#[test]
fn checked_formatting_of_a_document() {
    let t = TemplateInput::from_segments(vec![text("<p>x</p>")]);
    let document = tstring_html::html::prepare_template(&t).unwrap();
    let text = tstring_html::html::format_document_checked(
        &document,
        &FormatOptions { line_length: 80 },
        tstring_html::html::FormatFlavor::Html,
    );
    assert_eq!(text.unwrap(), "<p>x</p>");
}

#[test]
fn integers_are_written_in_decimal() {
    for (v, text) in [(0i64, "0"), (7, "7"), (-42, "-42"), (1234567890, "1234567890"), (i64::MIN, "-9223372036854775808"), (i64::MAX, "9223372036854775807")] {
        assert_eq!(stringify_runtime_value(&RuntimeValue::Int(v)).unwrap(), text);
    }
}
