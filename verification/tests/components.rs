use tstring_html::components::{render_thtml_document, render_thtml_node, ComponentCall};
use tstring_html::syntax::{TemplateInput, TemplateInterpolation, TemplateSegment};
use tstring_html::thtml;
use std::cell::RefCell;
use tstring_html::html::{InterpolationNode, Node, RawTextElementNode, RuntimeContext, RuntimeValue};

fn no_component(_name: &str) -> Result<(), String> {
    Err("no component expected".to_string())
}

fn no_call(_handle: &(), _call: &ComponentCall<'_>) -> Result<RuntimeValue, String> {
    Err("no call expected".to_string())
}

#[test]
fn render_thtml_node_treats_uppercase_title_as_escaped_text() {
    let node = Node::RawTextElement(RawTextElementNode {
        name: "TITLE".to_string(),
        attributes: Vec::new(),
        children: vec![Node::Interpolation(InterpolationNode {
            interpolation_index: 0,
            expression: "title".to_string(),
            raw_source: Some("{title}".to_string()),
            conversion: None,
            format_spec: String::new(),
            span: None,
        })],
        span: None,
    });
    let context = RuntimeContext {
        values: vec![RuntimeValue::RawHtml("<safe>".to_string())],
    };
    let mut out = String::new();
    assert!(render_thtml_node(&node, &context, &no_component, &no_call, &mut out).is_ok());
    assert_eq!(out, "<TITLE>&lt;safe&gt;</TITLE>");
}

fn asked_for(name: &str) -> Result<(), String> {
    panic!("the host was asked for {name}")
}

fn called(_handle: &(), _call: &ComponentCall<'_>) -> Result<RuntimeValue, String> {
    panic!("the host was called")
}

#[test]
fn component_free_document_asks_the_host_nothing() {
    let template = TemplateInput::from_segments(vec![
        TemplateSegment::StaticText("<section><p class=\"lead\">".to_string()),
        TemplateSegment::Interpolation(TemplateInterpolation {
            expression: "name".to_string(),
            conversion: None,
            format_spec: String::new(),
            interpolation_index: 0,
            raw_source: Some("{name}".to_string()),
        }),
        TemplateSegment::StaticText("</p><br/></section>".to_string()),
    ]);
    let compiled = thtml::compile_template(&template).unwrap();
    let context = RuntimeContext {
        values: vec![RuntimeValue::String("<Ada>".to_string())],
    };
    let rendered = match render_thtml_document(compiled.document(), &context, &asked_for, &called) {
        Ok(text) => text,
        Err(_) => panic!("a component-free document renders"),
    };
    assert_eq!(rendered, "<section><p class=\"lead\">&lt;Ada&gt;</p><br /></section>");
    assert_eq!(rendered.replace(" />", "/>"), thtml::render_html(&compiled, &context).unwrap());
}

#[test]
fn each_component_is_looked_up_and_called_once_in_document_order() {
    let template = TemplateInput::from_segments(vec![TemplateSegment::StaticText(
        "<div><Card title=\"first\"><Badge /></Card><Card title=\"second\" /></div>".to_string(),
    )]);
    let compiled = thtml::compile_template(&template).unwrap();
    let context = RuntimeContext { values: Vec::new() };
    let lookups: RefCell<Vec<String>> = RefCell::new(Vec::new());
    let calls: RefCell<Vec<String>> = RefCell::new(Vec::new());
    let resolve = |name: &str| -> Result<String, String> {
        lookups.borrow_mut().push(name.to_string());
        Ok(name.to_string())
    };
    let call = |handle: &String, component: &ComponentCall<'_>| -> Result<RuntimeValue, String> {
        let title = component
            .props
            .iter()
            .find_map(|(key, prop)| match (key.as_str(), prop) {
                ("title", tstring_html::components::Prop::Text(text)) => Some(text.clone()),
                _ => None,
            })
            .unwrap_or_default();
        calls.borrow_mut().push(format!("{handle}:{title}"));
        Ok(RuntimeValue::String(format!("[{handle}{title}]")))
    };
    let rendered = match render_thtml_document(compiled.document(), &context, &resolve, &call) {
        Ok(text) => text,
        Err(_) => panic!("the components render"),
    };
    assert_eq!(rendered, "<div>[Cardfirst][Cardsecond]</div>");
    assert_eq!(*lookups.borrow(), vec!["Card".to_string(), "Badge".to_string(), "Card".to_string()]);
    assert_eq!(
        *calls.borrow(),
        vec!["Badge:".to_string(), "Card:first".to_string(), "Card:second".to_string()]
    );
}
