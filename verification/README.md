# tstring_html

HTML, T-HTML and TDOM backends for PEP 750 template strings, with their
behaviour stated as Verus contracts and proved.

A template is parsed into a syntax tree first; interpolated values are then
escaped into the slots the tree gives them, so rendered output cannot carry
markup that the template did not write.

## Layout

- `src/doc.rs`: the pretty-printing document (groups, lines, indentation) and
  its layout, with the laws of fitting and breaking groups.
- `src/escape.rs`: escaping of text and attribute values.
- `src/syntax.rs`: templates, their character stream, spans and errors.
- `src/html/`: the HTML backend.
  - `parser.rs` parses a template; `grammar.rs` states, as functions on the
    token stream, which document or failure the parser gives.
  - `validate.rs`, `render.rs`, `format.rs`, `template.rs`: validation,
    rendering, formatting and the backend's entry points.
  - `shape.rs`: templates with the same static text parse alike, so a parsed
    document can be cached under that text and rebound to the interpolations
    of each template that shares it.
- `src/thtml.rs`: T-HTML, the HTML backend with component tags.
- `src/tdom/`: the TDOM backend, whose component tags are interpolations, with
  its own parser, grammar, validation and formatting.
- `src/components.rs`: rendering of T-HTML documents whose components a host
  runtime resolves. The host's answers are modelled as logs: the output is
  the one the rendering gives for answers the host can give, each component
  looked up once and called once, in document order.
- `src/cache.rs`: the least-recently-used cache of parsed templates.
- `src/text.rs`: text helpers, and the trusted wrappers over `unicode-width`
  and a few standard-library calls.
- `app/`: the Python extension module (pyo3) around the library.
- `tests/`: tests of the library.
