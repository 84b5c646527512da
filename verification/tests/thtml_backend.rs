use tstring_html::html::RuntimeContext;
use tstring_html::syntax::{TemplateInput, TemplateInterpolation, TemplateSegment};
use tstring_html::thtml::{check_template, compile_template, format_template, render_html};

#[test]
fn thtml_accepts_component_tags() {
    let input = TemplateInput::from_segments(vec![TemplateSegment::StaticText(
        "<Button disabled />".to_string(),
    )]);
    check_template(&input).expect("thtml should allow component tags");
}

#[test]
fn thtml_runtime_without_bindings_rejects_components() {
    let input = TemplateInput::from_segments(vec![TemplateSegment::StaticText(
        "<Button />".to_string(),
    )]);
    let compiled = compile_template(&input).expect("compile thtml");
    let err = render_html(&compiled, &RuntimeContext::default()).expect_err("must fail");
    assert_eq!(
        err.message,
        "Component rendering requires the bindings layer runtime context."
    );
}

#[test]
fn thtml_accepts_title_interpolation() {
    let input = TemplateInput::from_segments(vec![
        TemplateSegment::StaticText("<title>".to_string()),
        TemplateSegment::Interpolation(TemplateInterpolation {
            expression: "title".to_string(),
            conversion: None,
            format_spec: String::new(),
            interpolation_index: 0,
            raw_source: Some("{title}".to_string()),
        }),
        TemplateSegment::StaticText("</title>".to_string()),
    ]);
    check_template(&input).expect("title interpolation should be allowed");
    assert_eq!(
        format_template(&input).expect("format title"),
        "<title>{title}</title>"
    );
}

#[test]
fn templates_without_components_are_judged_alike_by_both_backends() {
    let sources = ["<p class=\"a\">x</p>", "<script>1</script>", "<div><Card /></div>", "<p>x</span>"];
    for source in sources {
        let input = TemplateInput::from_segments(vec![TemplateSegment::StaticText(source.to_string())]);
        let html_ok = tstring_html::html::check_template(&input).is_ok();
        let thtml_ok = check_template(&input).is_ok();
        let has_component = source.contains("<Card");
        assert_eq!(html_ok, thtml_ok && !has_component, "{source}");
    }
}
