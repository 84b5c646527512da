use tstring_html::html as backend_html;
use tstring_html::html::{RuntimeContext, RuntimeValue};
use tstring_html::syntax::{ErrorKind, TemplateInput, TemplateInterpolation, TemplateSegment};
use tstring_html::tdom as backend_tdom;
use tstring_html::thtml as backend_thtml;

fn interpolation(index: usize, expression: &str, raw_source: &str) -> TemplateSegment {
    TemplateSegment::Interpolation(TemplateInterpolation {
        expression: expression.to_owned(),
        conversion: None,
        format_spec: String::new(),
        interpolation_index: index,
        raw_source: Some(raw_source.to_owned()),
    })
}

fn interpolation_without_raw(index: usize, expression: &str) -> TemplateSegment {
    TemplateSegment::Interpolation(TemplateInterpolation {
        expression: expression.to_owned(),
        conversion: None,
        format_spec: String::new(),
        interpolation_index: index,
        raw_source: None,
    })
}

fn interpolation_with_format(index: usize, expression: &str, raw_source: &str, format_spec: &str) -> TemplateSegment {
    TemplateSegment::Interpolation(TemplateInterpolation {
        expression: expression.to_owned(),
        conversion: None,
        format_spec: format_spec.to_owned(),
        interpolation_index: index,
        raw_source: Some(raw_source.to_owned()),
    })
}

fn text(value: &str) -> TemplateSegment {
    TemplateSegment::StaticText(value.into())
}

fn runtime(values: Vec<RuntimeValue>) -> RuntimeContext {
    RuntimeContext { values }
}

fn html_render(segments: Vec<TemplateSegment>, values: Vec<RuntimeValue>) -> Result<String, String> {
    let input = TemplateInput::from_segments(segments);
    let compiled = backend_html::compile_template(&input).unwrap();
    backend_html::render_html(&compiled, &runtime(values)).map_err(|e| e.message)
}

fn html_check_message(segments: Vec<TemplateSegment>) -> String {
    backend_html::check_template(&TemplateInput::from_segments(segments)).unwrap_err().message
}

fn has_primary_span(err: &tstring_html::syntax::BackendError) -> bool {
    err.diagnostics.first().and_then(|d| d.span.as_ref()).is_some()
}

#[test]
fn html_manifest_cases_match_rust_backend() {
    // escaped-child
    let rendered = html_render(
        vec![text("<div>"), interpolation(0, "name", "{name}"), text("</div>")],
        vec![RuntimeValue::String("<world>".into())],
    );
    assert_eq!(rendered.unwrap(), "<div>&lt;world&gt;</div>");

    // raw-html-child
    let rendered = html_render(
        vec![text("<div>"), interpolation(0, "value", "{value}"), text("</div>")],
        vec![RuntimeValue::RawHtml("<strong>safe</strong>".into())],
    );
    assert_eq!(rendered.unwrap(), "<div><strong>safe</strong></div>");

    // raw-html-attribute-escaped
    let rendered = html_render(
        vec![text("<div title=\""), interpolation(0, "value", "{value}"), text("\"></div>")],
        vec![RuntimeValue::RawHtml("<b>x</b>".into())],
    );
    assert_eq!(rendered.unwrap(), "<div title=\"&lt;b&gt;x&lt;/b&gt;\"></div>");

    // raw-html-spread-escaped
    let rendered = html_render(
        vec![text("<div "), interpolation(0, "attrs", "{attrs}"), text("></div>")],
        vec![RuntimeValue::Attributes(vec![("title".into(), RuntimeValue::RawHtml("<b>x</b>".into()))])],
    );
    assert_eq!(rendered.unwrap(), "<div title=\"&lt;b&gt;x&lt;/b&gt;\"></div>");

    // quoted-dynamic-attribute
    let rendered = html_render(
        vec![text("<a href=\""), interpolation(0, "href", "{href}"), text("\">Dashboard</a>")],
        vec![RuntimeValue::String("/dashboard".into())],
    );
    assert_eq!(rendered.unwrap(), "<a href=\"/dashboard\">Dashboard</a>");

    // attribute-ampersand-always-escaped
    let rendered = html_render(
        vec![text("<div title=\""), interpolation(0, "title", "{title}"), text("\"></div>")],
        vec![RuntimeValue::String("Tom &amp; Jerry".into())],
    );
    assert_eq!(rendered.unwrap(), "<div title=\"Tom &amp;amp; Jerry\"></div>");

    // dangerous-url-scheme-rejected
    let err = html_render(
        vec![text("<a href=\""), interpolation(0, "href", "{href}"), text("\">x</a>")],
        vec![RuntimeValue::String("javascript:alert(1)".into())],
    )
    .unwrap_err();
    assert!(err.contains("unsafe javascript:"));

    // dangerous-url-scheme-normalized-rejected
    let err = html_render(
        vec![text("<a href=\""), interpolation(0, "href", "{href}"), text("\">x</a>")],
        vec![RuntimeValue::String("java\t script:alert(1)".into())],
    )
    .unwrap_err();
    assert!(err.contains("unsafe javascript:"));

    // dangerous-url-spread-rejected
    let err = html_render(
        vec![text("<a "), interpolation(0, "attrs", "{attrs}"), text(">x</a>")],
        vec![RuntimeValue::Attributes(vec![(
            "href".into(),
            RuntimeValue::String("data:text/html,<svg></svg>".into()),
        )])],
    )
    .unwrap_err();
    assert!(err.contains("unsafe data:"));

    // boolean-attribute-bare-and-omitted
    let rendered = html_render(
        vec![
            text("<button disabled=\""),
            interpolation(0, "visible", "{visible}"),
            text("\" hidden=\""),
            interpolation(1, "hidden", "{hidden}"),
            text("\" data-x=\""),
            interpolation(2, "missing", "{missing}"),
            text("\">OK</button>"),
        ],
        vec![RuntimeValue::Bool(true), RuntimeValue::Bool(false), RuntimeValue::Null],
    );
    assert_eq!(rendered.unwrap(), "<button disabled>OK</button>");

    // class-normalization
    let classes = RuntimeValue::Sequence(vec![
        RuntimeValue::String("btn".into()),
        RuntimeValue::Attributes(vec![("btn-primary".into(), RuntimeValue::Bool(true))]),
        RuntimeValue::String("extra".into()),
        RuntimeValue::Attributes(vec![("active".into(), RuntimeValue::Bool(true))]),
    ]);
    let rendered = html_render(
        vec![text("<button class=\""), interpolation(0, "classes", "{classes}"), text("\"></button>")],
        vec![classes],
    );
    assert_eq!(rendered.unwrap(), "<button class=\"btn btn-primary extra active\"></button>");

    // spread-merge-order
    let rendered = html_render(
        vec![
            text("<div class=\"base "),
            interpolation(0, "spread_classes", "{spread_classes}"),
            text(" "),
            interpolation(1, "tail", "{tail}"),
            text("\" "),
            interpolation(2, "attrs", "{attrs}"),
            text("></div>"),
        ],
        vec![
            RuntimeValue::Sequence(vec![
                RuntimeValue::String("extra".into()),
                RuntimeValue::Attributes(vec![("active".into(), RuntimeValue::Bool(true))]),
            ]),
            RuntimeValue::String("tail".into()),
            RuntimeValue::Attributes(vec![("data-id".into(), RuntimeValue::String("2".into()))]),
        ],
    );
    assert_eq!(rendered.unwrap(), "<div class=\"base extra active tail\" data-id=\"2\"></div>");

    // spread-non-mapping-error
    let err = html_render(
        vec![text("<div "), interpolation(0, "attrs", "{attrs}"), text("></div>")],
        vec![RuntimeValue::Int(1)],
    )
    .unwrap_err();
    assert!(err.contains("mapping-like"));

    // spread-invalid-attribute-name-error
    let err = html_render(
        vec![text("<div "), interpolation(0, "attrs", "{attrs}"), text("></div>")],
        vec![RuntimeValue::Attributes(vec![(
            "x onmouseover=alert(1)".into(),
            RuntimeValue::String("y".into()),
        )])],
    )
    .unwrap_err();
    assert!(err.contains("attribute name"));

    // fragment-children
    let rendered = html_render(
        vec![text("<div>"), interpolation(0, "children", "{children}"), text("</div>")],
        vec![RuntimeValue::Fragment(vec![
            RuntimeValue::RawHtml("<em>first</em>".into()),
            RuntimeValue::String("second".into()),
        ])],
    );
    assert_eq!(rendered.unwrap(), "<div><em>first</em>second</div>");

    // render-fragment
    let input = TemplateInput::from_segments(vec![text("<p>"), interpolation(0, "name", "{name}"), text("</p>")]);
    let compiled = backend_html::compile_template(&input).unwrap();
    let fragment = backend_html::render_fragment(&compiled, &runtime(vec![RuntimeValue::String("world".into())])).unwrap();
    assert_eq!(fragment.html, "<p>world</p>");

    // comment-and-doctype
    let rendered = html_render(vec![text("<!DOCTYPE html><!--x--><div>ok</div>")], vec![]);
    assert_eq!(rendered.unwrap(), "<!DOCTYPE html><!--x--><div>ok</div>");

    // component-rejected
    let err = backend_html::check_template(&TemplateInput::from_segments(vec![text("<Button />")])).unwrap_err();
    assert_eq!(err.kind, ErrorKind::Semantic);
    assert!(err.message.contains("Component tag"));

    // raw-text-script-rejected
    let err = backend_html::check_template(&TemplateInput::from_segments(vec![
        text("<script>"),
        interpolation(0, "script", "{script}"),
        text("</script>"),
    ]))
    .unwrap_err();
    assert_eq!(err.kind, ErrorKind::Semantic);
    assert!(err.message.contains("<script>"));

    // raw-text-style-rejected
    let message = html_check_message(vec![text("<style>"), interpolation(0, "style", "{style}"), text("</style>")]);
    assert!(message.contains("<style>"));

    // raw-text-title-escaped
    let rendered = html_render(
        vec![text("<title>"), interpolation(0, "title", "{title}"), text("</title>")],
        vec![RuntimeValue::RawHtml("<safe>".into())],
    );
    assert_eq!(rendered.unwrap(), "<title>&lt;safe&gt;</title>");

    // raw-text-textarea-rejected
    let message = html_check_message(vec![text("<textarea>"), interpolation(0, "value", "{value}"), text("</textarea>")]);
    assert!(message.contains("<textarea>"));

    // parse-mismatched-tag
    let err = backend_html::check_template(&TemplateInput::from_segments(vec![text("<div></span>")])).unwrap_err();
    assert_eq!(err.kind, ErrorKind::Parse);
    assert_eq!(err.diagnostics[0].code, "html.parse.mismatched_tag");

    // parse-unclosed-tag
    let err = backend_html::check_template(&TemplateInput::from_segments(vec![text("<div")])).unwrap_err();
    assert_eq!(err.kind, ErrorKind::Parse);
    assert!(err.diagnostics[0].code.starts_with("html.parse.unclosed"));

    // format-roundtrip
    let input = TemplateInput::from_segments(vec![text("<div>"), interpolation(0, "name", "{name}"), text("</div>")]);
    assert_eq!(backend_html::format_template(&input).unwrap(), "<div>{name}</div>");

    // format-rich-roundtrip
    let input = TemplateInput::from_segments(vec![
        text("<div data-repr=\""),
        TemplateSegment::Interpolation(TemplateInterpolation {
            expression: "value".into(),
            conversion: Some("r".into()),
            format_spec: String::new(),
            interpolation_index: 0,
            raw_source: Some("{value!r}".into()),
        }),
        text("\">"),
        TemplateSegment::Interpolation(TemplateInterpolation {
            expression: "amount".into(),
            conversion: None,
            format_spec: ".2f".into(),
            interpolation_index: 1,
            raw_source: Some("{amount:.2f}".into()),
        }),
        text("</div>"),
    ]);
    assert_eq!(backend_html::format_template(&input).unwrap(), "<div data-repr=\"{value!r}\">{amount:.2f}</div>");

    // unquoted-dynamic-attr-rejected
    let unquoted = || vec![text("<div title="), interpolation(0, "title", "{title}"), text("></div>")];
    assert!(html_check_message(unquoted()).contains("must be quoted"));

    // semantic-attr-primary-span
    let err = backend_html::check_template(&TemplateInput::from_segments(unquoted())).unwrap_err();
    assert!(has_primary_span(&err));

    // semantic-component-primary-span
    let err = backend_html::check_template(&TemplateInput::from_segments(vec![text("<Button />")])).unwrap_err();
    assert!(has_primary_span(&err));

    // class-bool-rejected
    let err = html_render(
        vec![text("<button class=\""), interpolation(0, "value", "{value}"), text("\"></button>")],
        vec![RuntimeValue::Bool(true)],
    )
    .unwrap_err();
    assert!(err.to_lowercase().contains("class"));

    // format-missing-raw-source
    let input = TemplateInput::from_segments(vec![text("<div>"), interpolation_without_raw(0, "name"), text("</div>")]);
    assert!(backend_html::format_template(&input).unwrap_err().message.contains("raw_source"));

    // static-key-empty-boundaries
    let input = TemplateInput::from_segments(vec![
        interpolation(0, "first", "{first}"),
        interpolation(1, "second", "{second}"),
        text("<div>"),
        interpolation(2, "third", "{third}"),
    ]);
    assert_eq!(
        backend_html::static_key_parts(&input),
        vec![String::new(), String::new(), "<div>".to_owned(), String::new()]
    );

    // static-key-concatenate-adjacent
    let input = TemplateInput::from_segments(vec![
        text("<"),
        text("div>"),
        interpolation(0, "name", "{name}"),
        text("</"),
        text("div>"),
    ]);
    assert_eq!(backend_html::static_key_parts(&input), vec!["<div>".to_owned(), "</div>".to_owned()]);

    // invalid-template-primary-span
    let err = backend_html::check_template(&TemplateInput::from_segments(vec![text("<div></span>")])).unwrap_err();
    assert!(has_primary_span(&err));
}

#[test]
fn thtml_manifest_cases_match_rust_seam() {
    // format-roundtrip
    let input = TemplateInput::from_segments(vec![text("<Button>"), interpolation(0, "label", "{label}"), text("</Button>")]);
    assert_eq!(backend_thtml::format_template(&input).unwrap(), "<Button>{label}</Button>");

    // raw-text-script-rejected
    let script = || vec![text("<script>"), interpolation(0, "script", "{script}"), text("</script>")];
    let err = backend_thtml::check_template(&TemplateInput::from_segments(script())).unwrap_err();
    assert!(err.message.contains("<script>"));

    // raw-text-style-rejected
    let err = backend_thtml::check_template(&TemplateInput::from_segments(vec![
        text("<style>"),
        interpolation(0, "style", "{style}"),
        text("</style>"),
    ]))
    .unwrap_err();
    assert!(err.message.contains("<style>"));

    // raw-text-title-escaped
    let input = TemplateInput::from_segments(vec![text("<title>"), interpolation(0, "title", "{title}"), text("</title>")]);
    let compiled = backend_thtml::compile_template(&input).unwrap();
    let rendered = backend_thtml::render_html(&compiled, &runtime(vec![RuntimeValue::RawHtml("<safe>".into())])).unwrap();
    assert_eq!(rendered, "<title>&lt;safe&gt;</title>");

    // raw-text-textarea-rejected
    let err = backend_thtml::check_template(&TemplateInput::from_segments(vec![
        text("<textarea>"),
        interpolation(0, "value", "{value}"),
        text("</textarea>"),
    ]))
    .unwrap_err();
    assert!(err.message.contains("<textarea>"));

    // html-vs-thtml-split
    let err = backend_html::check_template(&TemplateInput::from_segments(vec![text("<Button />")])).unwrap_err();
    assert!(err.message.contains("Component tag"));
    assert!(backend_thtml::check_template(&TemplateInput::from_segments(vec![text("<Button />")])).is_ok());

    // unquoted-dynamic-attr-rejected
    let unquoted = || vec![text("<Button kind="), interpolation(0, "kind", "{kind}"), text(" />")];
    let err = backend_thtml::check_template(&TemplateInput::from_segments(unquoted())).unwrap_err();
    assert!(err.message.contains("must be quoted"));

    // semantic-attr-primary-span
    let err = backend_thtml::check_template(&TemplateInput::from_segments(unquoted())).unwrap_err();
    assert!(has_primary_span(&err));

    // semantic-raw-text-primary-span
    let err = backend_thtml::check_template(&TemplateInput::from_segments(script())).unwrap_err();
    assert!(has_primary_span(&err));

    // parse-mismatched-tag
    let err = backend_thtml::check_template(&TemplateInput::from_segments(vec![text("<div")])).unwrap_err();
    assert_eq!(err.kind, ErrorKind::Parse);
    assert!(err.diagnostics[0].code.starts_with("html.parse.unclosed"));

    // parse-unclosed-tag
    let err = backend_thtml::check_template(&TemplateInput::from_segments(vec![text("<Button")])).unwrap_err();
    assert_eq!(err.kind, ErrorKind::Parse);
    assert!(err.diagnostics[0].code.starts_with("html.parse.unclosed"));

    // runtime-without-bindings
    let compiled = backend_thtml::compile_template(&TemplateInput::from_segments(vec![text("<Button />")])).unwrap();
    let err = backend_thtml::render_html(&compiled, &RuntimeContext::default()).unwrap_err();
    assert!(err.message.contains("bindings layer runtime"));

    // format-missing-raw-source
    let input = TemplateInput::from_segments(vec![text("<Button>"), interpolation_without_raw(0, "label"), text("</Button>")]);
    assert!(backend_thtml::format_template(&input).unwrap_err().message.contains("raw_source"));
}

#[test]
fn tdom_manifest_cases_match_rust_seam() {
    // component-format-roundtrip
    let input = TemplateInput::from_segments(vec![
        text("<"),
        interpolation(0, "Button", "{Button}"),
        text(" kind="),
        interpolation(1, "kind", "{kind}"),
        text(">"),
        interpolation(2, "label", "{label}"),
        text("</"),
        interpolation(3, "Button", "{Button}"),
        text(">"),
    ]);
    assert_eq!(backend_tdom::format_template(&input).unwrap(), "<{Button} kind={kind}>{label}</{Button}>");

    // comment-interpolation-roundtrip
    let input = TemplateInput::from_segments(vec![text("<!--before "), interpolation(0, "value", "{value}"), text(" after-->")]);
    assert_eq!(backend_tdom::format_template(&input).unwrap(), "<!--before {value} after-->");

    // raw-text-script-roundtrip
    let input = TemplateInput::from_segments(vec![text("<script>if (a < b) "), interpolation(0, "body", "{body}"), text("</script>")]);
    assert_eq!(backend_tdom::format_template(&input).unwrap(), "<script>if (a < b) {body}</script>");

    // rcdata-title-roundtrip
    let input = TemplateInput::from_segments(vec![text("<title>Hello "), interpolation(0, "title", "{title}"), text("</title>")]);
    assert_eq!(backend_tdom::format_template(&input).unwrap(), "<title>Hello {title}</title>");

    // doctype-html-roundtrip
    let input = TemplateInput::from_segments(vec![text("<!doctype html>")]);
    assert_eq!(backend_tdom::format_template(&input).unwrap(), "<!DOCTYPE html>");

    // doctype-unknown-rejected
    let err = backend_tdom::check_template(&TemplateInput::from_segments(vec![text("<!doctype-alt html>")])).unwrap_err();
    assert_eq!(err.kind, ErrorKind::Parse);
    assert!(err.message.contains("DOCTYPE"));

    // component-name-singleton-rejected
    let err = backend_tdom::check_template(&TemplateInput::from_segments(vec![
        text("<"),
        interpolation(0, "Button", "{Button}"),
        text("Suffix></"),
        interpolation(1, "Button", "{Button}"),
        text(">"),
    ]))
    .unwrap_err();
    assert_eq!(err.kind, ErrorKind::Parse);
    assert!(err.message.contains("exactly one interpolation"));

    // void-normalization
    let input = TemplateInput::from_segments(vec![text("<BR><Img>")]);
    assert_eq!(backend_tdom::format_template(&input).unwrap(), "<br /><img />");

    // raw-source-preserved
    let input = TemplateInput::from_segments(vec![
        text("<div data-safe="),
        interpolation_with_format(0, "value", "{value:safe}", "safe"),
        text(">"),
        interpolation_with_format(1, "other", "{other:unsafe}", "unsafe"),
        text("</div>"),
    ]);
    assert_eq!(backend_tdom::format_template(&input).unwrap(), "<div data-safe={value:safe}>{other:unsafe}</div>");
}
