use tstring_html::syntax::{TemplateInput, TemplateInterpolation, TemplateSegment};
use tstring_html::tdom::{check_template, format_template, prepare_template, Node};

fn interpolation(index: usize, expression: &str, raw_source: &str) -> TemplateSegment {
    TemplateSegment::Interpolation(TemplateInterpolation {
        expression: expression.to_owned(),
        conversion: None,
        format_spec: String::new(),
        interpolation_index: index,
        raw_source: Some(raw_source.to_owned()),
    })
}

#[test]
fn tdom_accepts_component_tags_and_preserves_end_tag_interpolation() {
    let template = TemplateInput::from_segments(vec![
        TemplateSegment::StaticText("<".to_owned()),
        interpolation(0, "Card", "{Card}"),
        TemplateSegment::StaticText(" title=".to_owned()),
        interpolation(1, "title", "{title}"),
        TemplateSegment::StaticText("></".to_owned()),
        interpolation(2, "Card", "{Card}"),
        TemplateSegment::StaticText(">".to_owned()),
    ]);

    let document = prepare_template(&template).expect("tdom should parse");
    let Node::ComponentTag(component) = &document.children[0] else {
        panic!("expected component tag");
    };
    assert_eq!(component.start_tag.interpolation_index, 0);
    assert_eq!(component.end_tag.as_ref().unwrap().interpolation_index, 2);
}

#[test]
fn tdom_rejects_non_singleton_component_tag_names() {
    let template = TemplateInput::from_segments(vec![
        TemplateSegment::StaticText("<".to_owned()),
        interpolation(0, "Card", "{Card}"),
        interpolation(1, "Extra", "{Extra}"),
        TemplateSegment::StaticText(" />".to_owned()),
    ]);

    assert!(check_template(&template).is_err());
}

#[test]
fn tdom_rejects_mismatched_component_tag_pairs() {
    let template = TemplateInput::from_segments(vec![
        TemplateSegment::StaticText("<".to_owned()),
        interpolation(0, "Card", "{Card}"),
        TemplateSegment::StaticText("></".to_owned()),
        interpolation(1, "Other", "{Other}"),
        TemplateSegment::StaticText(">".to_owned()),
    ]);

    let error = check_template(&template).expect_err("must fail");
    assert!(
        error
            .message
            .contains("Mismatched component start and end callables")
    );
}

#[test]
fn tdom_formats_comments_and_preserves_raw_source() {
    let template = TemplateInput::from_segments(vec![
        TemplateSegment::StaticText("<!-- hello ".to_owned()),
        TemplateSegment::Interpolation(TemplateInterpolation {
            expression: "value".to_owned(),
            conversion: Some("r".to_owned()),
            format_spec: "safe".to_owned(),
            interpolation_index: 0,
            raw_source: Some("{value!r:safe}".to_owned()),
        }),
        TemplateSegment::StaticText(" -->".to_owned()),
    ]);

    assert_eq!(
        format_template(&template).expect("format comment"),
        "<!-- hello {value!r:safe} -->"
    );
}

#[test]
fn tdom_rejects_interpolated_and_unknown_doctypes() {
    let interpolated = TemplateInput::from_segments(vec![
        TemplateSegment::StaticText("<!DOCTYPE ".to_owned()),
        interpolation(0, "kind", "{kind}"),
        TemplateSegment::StaticText(">".to_owned()),
    ]);
    assert!(check_template(&interpolated).is_err());

    let unknown = TemplateInput::from_segments(vec![TemplateSegment::StaticText(
        "<!doctype-alt html>".to_owned(),
    )]);
    assert!(check_template(&unknown).is_err());
}

#[test]
fn tdom_formats_void_tags_with_canonical_lowercase_output() {
    let template =
        TemplateInput::from_segments(vec![TemplateSegment::StaticText("<BR>".to_owned())]);

    assert_eq!(format_template(&template).expect("format br"), "<br />");
}

#[test]
fn tdom_formats_raw_text_title_and_textarea_content() {
    let template = TemplateInput::from_segments(vec![
        TemplateSegment::StaticText("<title>".to_owned()),
        interpolation(0, "title", "{title}"),
        TemplateSegment::StaticText("</title><textarea>".to_owned()),
        interpolation(1, "value", "{value}"),
        TemplateSegment::StaticText("</textarea>".to_owned()),
    ]);

    assert_eq!(
        format_template(&template).expect("format raw text"),
        "<title>{title}</title><textarea>{value}</textarea>"
    );
}
