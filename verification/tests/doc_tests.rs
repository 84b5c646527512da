use tstring_html::doc::{fits_in, flat_width, has_forced_break, render, Doc, Mode, RenderOptions};

#[test]
fn groups_break_when_they_do_not_fit() {
    let doc = Doc::concat(vec![
        Doc::text("<div"),
        Doc::concat(vec![Doc::line(), Doc::text("class=\"hello\"")]).indent(),
        Doc::soft_line(),
        Doc::text(">"),
    ])
    .group();

    assert_eq!(
        render(
            &doc,
            RenderOptions {
                line_length: 10,
                indent_width: 2,
            }
        ),
        "<div\n  class=\"hello\"\n>"
    );
}

#[test]
fn text_with_newline_forces_break() {
    let doc = Doc::concat(vec![Doc::text("{\n  value\n}"), Doc::text("</div>")]);
    assert!(has_forced_break(&doc));
    assert_eq!(flat_width(&doc), None);
}

#[test]
fn groups_stay_flat_when_they_fit() {
    let doc = Doc::concat(vec![
        Doc::text("<div"),
        Doc::concat(vec![Doc::line(), Doc::text("class=\"hello\"")]).indent(),
        Doc::soft_line(),
        Doc::text(">"),
    ])
    .group();
    assert_eq!(render(&doc, RenderOptions::default()), "<div class=\"hello\">");
    assert_eq!(flat_width(&doc), Some(19));
    assert!(!has_forced_break(&doc));
}

#[test]
fn hard_lines_always_break_and_indent() {
    let doc = Doc::concat(vec![
        Doc::text("<ul>"),
        Doc::concat(vec![Doc::hard_line(), Doc::text("<li>")]).indent(),
        Doc::hard_line(),
        Doc::text("</ul>"),
    ]);
    assert_eq!(render(&doc, RenderOptions::default()), "<ul>\n  <li>\n</ul>");
    assert!(has_forced_break(&doc));
    assert_eq!(flat_width(&doc), None);
}

#[test]
fn width_resets_after_text_with_line_feed() {
    let doc = Doc::concat(vec![
        Doc::text("ab\ncd"),
        Doc::concat(vec![Doc::text("x"), Doc::line(), Doc::text("y")]).group(),
    ]);
    assert_eq!(
        render(&doc, RenderOptions { line_length: 5, indent_width: 2 }),
        "ab\ncdx y"
    );
}

#[test]
fn default_render_options() {
    let options = RenderOptions::default();
    assert_eq!(options.line_length, 80);
    assert_eq!(options.indent_width, 2);
}

#[test]
fn fits_in_counts_lines_and_accepts_an_exact_fit() {
    let doc = Doc::concat(vec![Doc::text("ab"), Doc::line(), Doc::text("c"), Doc::soft_line()]);
    assert!(fits_in(&doc, 0, Mode::Break, 4));
    assert!(!fits_in(&doc, 8, Mode::Flat, 3));
    assert!(!fits_in(&Doc::line(), 0, Mode::Flat, 0));
    assert!(fits_in(&Doc::soft_line(), 0, Mode::Flat, 0));
    assert!(!fits_in(&Doc::concat(vec![Doc::text("a"), Doc::hard_line()]), 0, Mode::Flat, 10));
}
