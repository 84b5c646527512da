//! A small pretty-printing document algebra and its width-aware renderer.

use vstd::prelude::*;
use crate::text::{display_width, str_width, push_char, chars_of};

verus! {

/// A pretty-printing document.
#[derive(Debug, PartialEq, Eq)]
pub enum Doc {
    Text(String),
    Concat(Vec<Doc>),
    Indent(Box<Doc>),
    Line,
    SoftLine,
    HardLine,
    Group(Box<Doc>),
}

/// The mathematical value of a [`Doc`]: the same tree, with texts as character
/// sequences and children as sequences.
pub enum DocModel {
    Text(Seq<char>),
    Concat(Seq<DocModel>),
    Indent(Box<DocModel>),
    Line,
    SoftLine,
    HardLine,
    Group(Box<DocModel>),
}

pub open spec fn doc_model(d: Doc) -> DocModel
    decreases d,
{
    match d {
        Doc::Text(t) => DocModel::Text(t@),
        Doc::Concat(parts) => DocModel::Concat(docs_model(parts@)),
        Doc::Indent(inner) => DocModel::Indent(Box::new(doc_model(*inner))),
        Doc::Group(inner) => DocModel::Group(Box::new(doc_model(*inner))),
        Doc::Line => DocModel::Line,
        Doc::SoftLine => DocModel::SoftLine,
        Doc::HardLine => DocModel::HardLine,
    }
}

pub open spec fn docs_model(parts: Seq<Doc>) -> Seq<DocModel>
    decreases parts,
{
    if parts.len() == 0 {
        Seq::empty()
    } else {
        docs_model(parts.subrange(0, parts.len() - 1)).push(doc_model(parts[parts.len() - 1]))
    }
}

impl View for Doc {
    type V = DocModel;

    open spec fn view(&self) -> DocModel {
        doc_model(*self)
    }
}

pub proof fn lemma_docs_model_len(parts: Seq<Doc>)
    ensures
        docs_model(parts).len() == parts.len(),
        forall|i: int| 0 <= i < parts.len() ==> #[trigger] docs_model(parts)[i] == doc_model(parts[i]),
    decreases parts.len(),
{
    if parts.len() > 0 {
        let pre = parts.subrange(0, parts.len() - 1);
        lemma_docs_model_len(pre);
        assert forall|i: int| 0 <= i < parts.len() implies #[trigger] docs_model(parts)[i] == doc_model(parts[i]) by {
            if i < parts.len() - 1 {
                assert(pre[i] == parts[i]);
            }
        }
    }
}

impl Clone for Doc {
    fn clone(&self) -> (r: Self)
        ensures
            r@ == self@,
        decreases self,
    {
        match self {
            Doc::Text(t) => Doc::Text(t.clone()),
            Doc::Concat(parts) => {
                let mut out: Vec<Doc> = Vec::new();
                let mut i: usize = 0;
                while i < parts.len()
                    invariant
                        i <= parts.len(),
                        *self == Doc::Concat(*parts),
                        docs_model(out@) == docs_model(parts@.subrange(0, i as int)),
                    decreases parts.len() - i,
                {
                    proof {
                        assert(decreases_to!(*self => (*self)->Concat_0));
                        assert(decreases_to!(*parts => parts@));
                        assert(decreases_to!(parts@ => parts@[i as int]));
                    }
                    let c = parts[i].clone();
                    let ghost pre = out@;
                    out.push(c);
                    proof {
                        assert(out@.subrange(0, out@.len() - 1) == pre);
                        assert(parts@.subrange(0, i + 1).subrange(0, i as int) == parts@.subrange(0, i as int));
                    }
                    i += 1;
                }
                proof {
                    assert(parts@.subrange(0, parts@.len() as int) == parts@);
                }
                Doc::Concat(out)
            },
            Doc::Indent(inner) => Doc::Indent(Box::new((**inner).clone())),
            Doc::Group(inner) => Doc::Group(Box::new((**inner).clone())),
            Doc::Line => Doc::Line,
            Doc::SoftLine => Doc::SoftLine,
            Doc::HardLine => Doc::HardLine,
        }
    }
}

/// Width limits for rendering.
#[derive(Clone, Copy, Debug, PartialEq, Eq, Structural)]
pub struct RenderOptions {
    pub line_length: usize,
    pub indent_width: usize,
}

impl Default for RenderOptions {
    fn default() -> (r: Self)
        ensures
            r.line_length == 80,
            r.indent_width == 2,
    {
        Self { line_length: 80, indent_width: 2 }
    }
}

/// Whether a group is laid out on one line or broken over several.
#[derive(Clone, Copy, Debug, PartialEq, Eq, Structural)]
pub enum Mode {
    Flat,
    Break,
}

/// Width of a text laid out on one line; none when the text holds a line break.
pub open spec fn text_flat_width_spec(t: Seq<char>) -> Option<nat> {
    if t.contains('\n') || t.contains('\r') {
        None
    } else {
        Some(display_width(t))
    }
}

/// Width of a document laid out flat: `Line` counts one column, `SoftLine` none,
/// and a `HardLine` or a text with a line break makes flat layout impossible.
pub open spec fn flat_width_of(doc: DocModel) -> Option<nat>
    decreases doc,
{
    match doc {
        DocModel::Text(t) => text_flat_width_spec(t),
        DocModel::Concat(parts) => flat_width_of_seq(parts),
        DocModel::Indent(inner) => flat_width_of(*inner),
        DocModel::Group(inner) => flat_width_of(*inner),
        DocModel::Line => Some(1),
        DocModel::SoftLine => Some(0),
        DocModel::HardLine => None,
    }
}

/// Flat width of a sequence of documents laid out one after the other.
pub open spec fn flat_width_of_seq(parts: Seq<DocModel>) -> Option<nat>
    decreases parts,
{
    if parts.len() == 0 {
        Some(0)
    } else {
        add_widths(flat_width_of(parts[0]), flat_width_of_seq(parts.subrange(1, parts.len() as int)))
    }
}

/// Sum of two flat widths; none when either is none.
pub open spec fn add_widths(a: Option<nat>, b: Option<nat>) -> Option<nat> {
    match (a, b) {
        (Some(x), Some(y)) => Some(x + y),
        _ => None,
    }
}

/// Whether the document forces a line break wherever it is laid out.
pub open spec fn forced_break(doc: DocModel) -> bool
    decreases doc,
{
    match doc {
        DocModel::Text(t) => t.contains('\n') || t.contains('\r'),
        DocModel::Concat(parts) => forced_break_seq(parts),
        DocModel::Indent(inner) => forced_break(*inner),
        DocModel::Group(inner) => forced_break(*inner),
        DocModel::Line => false,
        DocModel::SoftLine => false,
        DocModel::HardLine => true,
    }
}

pub open spec fn forced_break_seq(parts: Seq<DocModel>) -> bool
    decreases parts,
{
    if parts.len() == 0 {
        false
    } else {
        forced_break(parts[0]) || forced_break_seq(parts.subrange(1, parts.len() as int))
    }
}

/// The output built so far, the column the cursor stands at, and whether every
/// column and indent computed so far fits in a `usize`.
pub struct Layout {
    pub out: Seq<char>,
    pub width: int,
    pub ok: bool,
}

pub open spec fn start_layout() -> Layout {
    Layout { out: Seq::empty(), width: 0, ok: true }
}

/// What follows the last line feed of a text (all of it when there is none).
pub open spec fn tail_after_newline(t: Seq<char>) -> Seq<char>
    decreases t.len(),
{
    if t.len() == 0 {
        t
    } else if t.last() == '\n' {
        Seq::empty()
    } else {
        tail_after_newline(t.drop_last()).push(t.last())
    }
}

/// A line feed followed by `indent` spaces.
pub open spec fn newline_indent(indent: nat) -> Seq<char> {
    seq!['\n'] + Seq::new(indent, |_i: int| ' ')
}

pub open spec fn emit_text(st: Layout, t: Seq<char>) -> Layout {
    if t.contains('\n') {
        Layout { out: st.out + t, width: display_width(tail_after_newline(t)) as int, ok: st.ok }
    } else {
        Layout {
            out: st.out + t,
            width: st.width + display_width(t),
            ok: st.ok && st.width + display_width(t) <= usize::MAX,
        }
    }
}

pub open spec fn emit_newline(st: Layout, indent: nat) -> Layout {
    Layout { out: st.out + newline_indent(indent), width: indent as int, ok: st.ok }
}

/// Whether the document laid out flat fits in `remaining` columns.
pub open spec fn fits_flat(remaining: int, doc: DocModel) -> bool {
    match flat_width_of(doc) {
        Some(w) => w <= remaining,
        None => false,
    }
}

pub open spec fn saturating_sub(a: int, b: int) -> int {
    if a >= b { a - b } else { 0 }
}

/// The layout of a document: texts are written as they are, `Line` is a space
/// in flat mode and a line break (followed by the indent) otherwise, `SoftLine`
/// is nothing in flat mode and a line break otherwise, `HardLine` always breaks,
/// `Indent` widens the indent of what it holds, and a `Group` met in break mode is
/// laid out flat when its flat width fits in what is left of the line.
pub open spec fn layout(doc: DocModel, indent: nat, mode: Mode, st: Layout, opts: RenderOptions) -> Layout
    decreases doc,
{
    match doc {
        DocModel::Text(t) => emit_text(st, t),
        DocModel::Concat(parts) => layout_seq(parts, indent, mode, st, opts),
        DocModel::Indent(inner) => layout(
            *inner,
            (indent + opts.indent_width) as nat,
            mode,
            Layout { out: st.out, width: st.width, ok: st.ok && indent + opts.indent_width <= usize::MAX },
            opts,
        ),
        DocModel::Line => if mode == Mode::Flat {
            Layout { out: st.out.push(' '), width: st.width + 1, ok: st.ok && st.width + 1 <= usize::MAX }
        } else {
            emit_newline(st, indent)
        },
        DocModel::SoftLine => if mode == Mode::Flat {
            st
        } else {
            emit_newline(st, indent)
        },
        DocModel::HardLine => emit_newline(st, indent),
        DocModel::Group(inner) => {
            let next = if mode == Mode::Flat {
                Mode::Flat
            } else if fits_flat(saturating_sub(opts.line_length as int, st.width), *inner) {
                Mode::Flat
            } else {
                Mode::Break
            };
            layout(*inner, indent, next, st, opts)
        },
    }
}

pub open spec fn layout_seq(parts: Seq<DocModel>, indent: nat, mode: Mode, st: Layout, opts: RenderOptions) -> Layout
    decreases parts,
{
    if parts.len() == 0 {
        st
    } else {
        layout_seq(parts.subrange(1, parts.len() as int), indent, mode, layout(parts[0], indent, mode, st, opts), opts)
    }
}

/// The text a document renders to, starting at column zero in break mode.
pub open spec fn rendered(doc: DocModel, opts: RenderOptions) -> Layout {
    layout(doc, 0, Mode::Break, start_layout(), opts)
}

/// Number of nodes of a document tree.
pub open spec fn doc_size(doc: DocModel) -> nat
    decreases doc,
{
    match doc {
        DocModel::Concat(parts) => 1 + docs_size(parts),
        DocModel::Indent(inner) => 1 + doc_size(*inner),
        DocModel::Group(inner) => 1 + doc_size(*inner),
        _ => 1,
    }
}

pub open spec fn docs_size(parts: Seq<DocModel>) -> nat
    decreases parts,
{
    if parts.len() == 0 {
        0
    } else {
        doc_size(parts[0]) + docs_size(parts.subrange(1, parts.len() as int))
    }
}

impl Doc {
    pub fn text(value: &str) -> (r: Self)
        ensures
            r@ == DocModel::Text(value@),
    {
        Doc::Text(value.to_owned())
    }

    pub fn concat(parts: Vec<Doc>) -> (r: Self)
        ensures
            r@ == DocModel::Concat(docs_model(parts@)),
    {
        Doc::Concat(parts)
    }

    pub fn indent(self) -> (r: Self)
        ensures
            r@ == DocModel::Indent(Box::new(self@)),
    {
        Doc::Indent(Box::new(self))
    }

    pub fn group(self) -> (r: Self)
        ensures
            r@ == DocModel::Group(Box::new(self@)),
    {
        Doc::Group(Box::new(self))
    }

    pub fn line() -> (r: Self)
        ensures
            r@ == DocModel::Line,
    {
        Doc::Line
    }

    pub fn soft_line() -> (r: Self)
        ensures
            r@ == DocModel::SoftLine,
    {
        Doc::SoftLine
    }

    pub fn hard_line() -> (r: Self)
        ensures
            r@ == DocModel::HardLine,
    {
        Doc::HardLine
    }
}

/// Whether `c` occurs in `s`.
pub(crate) fn contains_char(s: &str, c: char) -> (r: bool)
    ensures
        r == s@.contains(c),
{
    let chars = chars_of(s);
    let mut i: usize = 0;
    while i < chars.len()
        invariant
            i <= chars@.len(),
            chars@ == s@,
            forall|k: int| 0 <= k < i ==> chars@[k] != c,
        decreases chars.len() - i,
    {
        if chars[i] == c {
            return true;
        }
        i += 1;
    }
    false
}

fn text_flat_width(text: &str) -> (r: Option<usize>)
    ensures
        match text_flat_width_spec(text@) {
            Some(w) => r matches Some(x) && x == w,
            None => r is None,
        },
{
    if contains_char(text, '\n') || contains_char(text, '\r') {
        return None;
    }
    Some(str_width(text))
}

proof fn lemma_tail_split(t: Seq<char>, j: int)
    requires
        0 <= j <= t.len(),
        forall|k: int| j <= k < t.len() ==> t[k] != '\n',
    ensures
        tail_after_newline(t) == tail_after_newline(t.subrange(0, j)) + t.subrange(j, t.len() as int),
    decreases t.len() - j,
{
    if j < t.len() {
        lemma_tail_split(t, j + 1);
        let p = t.subrange(0, j + 1);
        assert(p.last() == t[j]);
        assert(p.drop_last() == t.subrange(0, j));
        assert(tail_after_newline(p) == tail_after_newline(t.subrange(0, j)).push(t[j]));
        assert(tail_after_newline(t.subrange(0, j)).push(t[j]) + t.subrange(j + 1, t.len() as int)
            == tail_after_newline(t.subrange(0, j)) + t.subrange(j, t.len() as int));
    } else {
        assert(t.subrange(0, j) == t);
    }
}

fn width_after_text(current_width: usize, text: &str) -> (r: usize)
    requires
        !text@.contains('\n') ==> current_width + display_width(text@) <= usize::MAX,
    ensures
        r == emit_text(Layout { out: Seq::empty(), width: current_width as int, ok: true }, text@).width,
{
    let chars = chars_of(text);
    let mut j: usize = chars.len();
    while j > 0
        invariant
            j <= chars@.len(),
            chars@ == text@,
            forall|k: int| j <= k < chars@.len() ==> chars@[k] != '\n',
        decreases j,
    {
        if chars[j - 1] == '\n' {
            proof {
                lemma_tail_split(text@, j as int);
                let p = text@.subrange(0, j as int);
                assert(p.last() == '\n');
                assert(tail_after_newline(text@.subrange(0, j as int)) == Seq::<char>::empty());
                assert(Seq::<char>::empty() + text@.subrange(j as int, text@.len() as int) == text@.subrange(j as int, text@.len() as int));
                assert(text@.contains('\n')) by {
                    assert(text@[j - 1] == '\n');
                }
            }
            let tail = text.substring_char(j, chars.len());
            return str_width(tail);
        }
        j -= 1;
    }
    proof {
        assert(!text@.contains('\n'));
    }
    current_width + str_width(text)
}

fn push_newline(out: &mut String, indent: usize)
    ensures
        final(out)@ == old(out)@ + newline_indent(indent as nat),
{
    push_char(out, '\n');
    let mut k: usize = 0;
    while k < indent
        invariant
            k <= indent,
            out@ == old(out)@ + seq!['\n'] + Seq::new(k as nat, |_i: int| ' '),
        decreases indent - k,
    {
        push_char(out, ' ');
        k += 1;
        proof {
            assert(Seq::new((k - 1) as nat, |_i: int| ' ').push(' ') == Seq::new(k as nat, |_i: int| ' '));
        }
    }
    proof {
        assert(old(out)@ + seq!['\n'] + Seq::new(indent as nat, |_i: int| ' ') == old(out)@ + newline_indent(indent as nat));
    }
}

/// A pending piece of work of the renderer: a document with its indent and mode.
struct Command<'a> {
    indent: usize,
    mode: Mode,
    doc: &'a Doc,
}

spec fn cmd_model(c: Command) -> DocModel {
    doc_model(*c.doc)
}

/// Runs a stack of commands, the last one first.
spec fn run_stack(cmds: Seq<Command>, st: Layout, opts: RenderOptions) -> Layout
    decreases cmds.len(),
{
    if cmds.len() == 0 {
        st
    } else {
        let c = cmds.last();
        run_stack(cmds.drop_last(), layout(cmd_model(c), c.indent as nat, c.mode, st, opts), opts)
    }
}

spec fn stack_size(cmds: Seq<Command>) -> nat
    decreases cmds.len(),
{
    if cmds.len() == 0 {
        0
    } else {
        doc_size(cmd_model(cmds.last())) + stack_size(cmds.drop_last())
    }
}

spec fn stack_flat_width(cmds: Seq<Command>) -> Option<nat>
    decreases cmds.len(),
{
    if cmds.len() == 0 {
        Some(0)
    } else {
        add_widths(flat_width_of(cmd_model(cmds.last())), stack_flat_width(cmds.drop_last()))
    }
}

spec fn stack_fits(cmds: Seq<Command>, remaining: int) -> bool {
    match stack_flat_width(cmds) {
        Some(w) => w <= remaining,
        None => false,
    }
}

/// `cmds` holds one command per part, the last part at the bottom and the first
/// on top, each with the given indent and mode.
spec fn is_rev_cmds(cmds: Seq<Command>, parts: Seq<Doc>, indent: usize, mode: Mode) -> bool {
    &&& cmds.len() == parts.len()
    &&& forall|k: int|
        0 <= k < cmds.len() ==> (#[trigger] cmds[k]).indent == indent && cmds[k].mode == mode
            && *cmds[k].doc == parts[parts.len() - 1 - k]
}

proof fn lemma_docs_model_tail(parts: Seq<Doc>)
    requires
        parts.len() > 0,
    ensures
        docs_model(parts).len() == parts.len(),
        docs_model(parts)[0] == doc_model(parts[0]),
        docs_model(parts).subrange(1, parts.len() as int) == docs_model(parts.subrange(1, parts.len() as int)),
{
    lemma_docs_model_len(parts);
    lemma_docs_model_len(parts.subrange(1, parts.len() as int));
    assert(docs_model(parts).subrange(1, parts.len() as int) =~= docs_model(parts.subrange(1, parts.len() as int)));
}

proof fn lemma_rev_cmds_tail(cmds: Seq<Command>, parts: Seq<Doc>, indent: usize, mode: Mode)
    requires
        is_rev_cmds(cmds, parts, indent, mode),
        parts.len() > 0,
    ensures
        is_rev_cmds(cmds.drop_last(), parts.subrange(1, parts.len() as int), indent, mode),
        cmds.last().indent == indent,
        cmds.last().mode == mode,
        *cmds.last().doc == parts[0],
{
    let rest = cmds.drop_last();
    let ps = parts.subrange(1, parts.len() as int);
    assert forall|k: int| 0 <= k < rest.len() implies (#[trigger] rest[k]).indent == indent && rest[k].mode == mode
        && *rest[k].doc == ps[ps.len() - 1 - k] by {
        assert(rest[k] == cmds[k]);
    }
    assert(cmds.last() == cmds[cmds.len() - 1]);
}

proof fn lemma_run_stack_rev(cmds: Seq<Command>, parts: Seq<Doc>, indent: usize, mode: Mode, st: Layout, opts: RenderOptions)
    requires
        is_rev_cmds(cmds, parts, indent, mode),
    ensures
        run_stack(cmds, st, opts) == layout_seq(docs_model(parts), indent as nat, mode, st, opts),
        stack_size(cmds) == docs_size(docs_model(parts)),
        stack_flat_width(cmds) == flat_width_of_seq(docs_model(parts)),
    decreases parts.len(),
{
    if parts.len() == 0 {
        assert(docs_model(parts) == Seq::<DocModel>::empty());
    } else {
        lemma_rev_cmds_tail(cmds, parts, indent, mode);
        lemma_docs_model_tail(parts);
        let ps = parts.subrange(1, parts.len() as int);
        lemma_run_stack_rev(cmds.drop_last(), ps, indent, mode, layout(doc_model(parts[0]), indent as nat, mode, st, opts), opts);
    }
}

proof fn lemma_run_stack_append(a: Seq<Command>, b: Seq<Command>, st: Layout, opts: RenderOptions)
    ensures
        run_stack(a + b, st, opts) == run_stack(a, run_stack(b, st, opts), opts),
        stack_size(a + b) == stack_size(a) + stack_size(b),
        stack_flat_width(a + b) == add_widths(stack_flat_width(b), stack_flat_width(a)),
    decreases b.len(),
{
    if b.len() == 0 {
        assert(a + b == a);
    } else {
        assert((a + b).last() == b.last());
        assert((a + b).drop_last() == a + b.drop_last());
        let c = b.last();
        lemma_run_stack_append(a, b.drop_last(), layout(cmd_model(c), c.indent as nat, c.mode, st, opts), opts);
    }
}

proof fn lemma_layout_ok(doc: DocModel, indent: nat, mode: Mode, st: Layout, opts: RenderOptions)
    ensures
        layout(doc, indent, mode, st, opts).ok ==> st.ok,
    decreases doc,
{
    match doc {
        DocModel::Concat(parts) => lemma_layout_seq_ok(parts, indent, mode, st, opts),
        DocModel::Indent(inner) => {
            let st2 = Layout { out: st.out, width: st.width, ok: st.ok && indent + opts.indent_width <= usize::MAX };
            lemma_layout_ok(*inner, (indent + opts.indent_width) as nat, mode, st2, opts);
        },
        DocModel::Group(inner) => {
            let next = if mode == Mode::Flat {
                Mode::Flat
            } else if fits_flat(saturating_sub(opts.line_length as int, st.width), *inner) {
                Mode::Flat
            } else {
                Mode::Break
            };
            lemma_layout_ok(*inner, indent, next, st, opts);
        },
        _ => {},
    }
}

proof fn lemma_layout_seq_ok(parts: Seq<DocModel>, indent: nat, mode: Mode, st: Layout, opts: RenderOptions)
    ensures
        layout_seq(parts, indent, mode, st, opts).ok ==> st.ok,
    decreases parts,
{
    if parts.len() > 0 {
        let st1 = layout(parts[0], indent, mode, st, opts);
        lemma_layout_seq_ok(parts.subrange(1, parts.len() as int), indent, mode, st1, opts);
        lemma_layout_ok(parts[0], indent, mode, st, opts);
    }
}

proof fn lemma_run_stack_ok(cmds: Seq<Command>, st: Layout, opts: RenderOptions)
    ensures
        run_stack(cmds, st, opts).ok ==> st.ok,
    decreases cmds.len(),
{
    if cmds.len() > 0 {
        let c = cmds.last();
        let st1 = layout(cmd_model(c), c.indent as nat, c.mode, st, opts);
        lemma_run_stack_ok(cmds.drop_last(), st1, opts);
        lemma_layout_ok(cmd_model(c), c.indent as nat, c.mode, st, opts);
    }
}

proof fn lemma_doc_size_pos(doc: DocModel)
    ensures
        doc_size(doc) >= 1,
{
}

/// Pushes the parts of a concatenation so that the first part is on top.
fn push_parts<'a>(stack: &mut Vec<Command<'a>>, parts: &'a Vec<Doc>, indent: usize, mode: Mode)
    ensures
        exists|cmds: Seq<Command<'a>>|
            final(stack)@ == old(stack)@ + cmds && #[trigger] is_rev_cmds(cmds, parts@, indent, mode),
{
    let ghost base = stack@;
    let mut i: usize = parts.len();
    while i > 0
        invariant
            i <= parts@.len(),
            stack@.len() == base.len() + (parts@.len() - i),
            stack@.subrange(0, base.len() as int) == base,
            is_rev_cmds(stack@.subrange(base.len() as int, stack@.len() as int), parts@.subrange(i as int, parts@.len() as int), indent, mode),
        decreases i,
    {
        i -= 1;
        let ghost prev = stack@;
        stack.push(Command { indent, mode, doc: &parts[i] });
        proof {
            let cmds = stack@.subrange(base.len() as int, stack@.len() as int);
            let ps = parts@.subrange(i as int, parts@.len() as int);
            let old_cmds = prev.subrange(base.len() as int, prev.len() as int);
            let old_ps = parts@.subrange(i + 1, parts@.len() as int);
            assert forall|k: int| 0 <= k < cmds.len() implies (#[trigger] cmds[k]).indent == indent && cmds[k].mode == mode
                && *cmds[k].doc == ps[ps.len() - 1 - k] by {
                if k < cmds.len() - 1 {
                    assert(cmds[k] == old_cmds[k]);
                    assert(ps[ps.len() - 1 - k] == old_ps[old_ps.len() - 1 - k]);
                } else {
                    assert(cmds[k] == stack@[stack@.len() - 1]);
                }
            }
            assert(stack@.subrange(0, base.len() as int) =~= base);
        }
    }
    proof {
        let cmds = stack@.subrange(base.len() as int, stack@.len() as int);
        assert(parts@.subrange(0, parts@.len() as int) == parts@);
        assert(stack@ =~= base + cmds);
    }
}

/// Whether the commands, laid out flat, fit in `remaining` columns.
#[verifier::loop_isolation(false)]
fn fits(remaining: usize, stack: Vec<Command>) -> (r: bool)
    ensures
        r == stack_fits(stack@, remaining as int),
{
    let mut remaining = remaining;
    let mut stack = stack;
    let ghost target = stack_fits(stack@, remaining as int);
    while stack.len() > 0
        invariant
            stack_fits(stack@, remaining as int) == target,
        decreases stack_size(stack@),
    {
        let ghost before = stack@;
        let command = stack.pop().unwrap();
        proof {
            assert(before.drop_last() == stack@);
            assert(before.last() == command);
            lemma_doc_size_pos(cmd_model(command));
        }
        match command.doc {
            Doc::Text(text) => {
                let w = match text_flat_width(text.as_str()) {
                    Some(w) => w,
                    None => {
                        proof {
                            assert(flat_width_of(cmd_model(command)) is None);
                            assert(stack_flat_width(before) is None);
                        }
                        return false;
                    },
                };
                if w > remaining {
                    return false;
                }
                remaining -= w;
                proof {
                    assert(flat_width_of(cmd_model(command)) == Some(w as nat));
                    assert(stack_fits(stack@, remaining as int) == target);
                }
            },
            Doc::Concat(parts) => {
                let ghost mid = stack@;
                push_parts(&mut stack, parts, command.indent, command.mode);
                proof {
                    let cmds = choose|cmds: Seq<Command>| stack@ == mid + cmds && #[trigger] is_rev_cmds(cmds, parts@, command.indent, command.mode);
                    lemma_run_stack_rev(cmds, parts@, command.indent, command.mode, start_layout(), RenderOptions { line_length: 0, indent_width: 0 });
                    lemma_run_stack_append(mid, cmds, start_layout(), RenderOptions { line_length: 0, indent_width: 0 });
                    assert(stack_fits(stack@, remaining as int) == target);
                }
            },
            Doc::Indent(inner) => {
                stack.push(Command { indent: command.indent, mode: command.mode, doc: inner });
                proof {
                    assert(stack@.drop_last() == before.drop_last());
                }
            },
            Doc::Line => {
                if remaining == 0 {
                    return false;
                }
                remaining -= 1;
                proof {
                    assert(stack_fits(stack@, remaining as int) == target);
                }
            },
            Doc::SoftLine => {
                proof {
                    assert(stack_fits(stack@, remaining as int) == target);
                }
            },
            Doc::HardLine => {
                proof {
                    assert(flat_width_of(cmd_model(command)) is None);
                    assert(stack_flat_width(before) is None);
                }
                return false;
            },
            Doc::Group(inner) => {
                stack.push(Command { indent: command.indent, mode: Mode::Flat, doc: inner });
                proof {
                    assert(stack@.drop_last() == before.drop_last());
                }
            },
        }
    }
    true
}

/// Renders a document: the result is [`rendered`], the layout that starts at
/// column zero in break mode. Defined wherever no column or indent computed on
/// the way exceeds `usize::MAX`.
pub fn render(doc: &Doc, options: RenderOptions) -> (r: String)
    requires
        rendered(doc@, options).ok,
    ensures
        r@ == rendered(doc@, options).out,
{
    match render_checked(doc, options) {
        Some(out) => out,
        None => String::new(),
    }
}

/// Renders a document as [`render`] does, or gives nothing where a column or an
/// indent would exceed `usize::MAX`.
#[verifier::loop_isolation(false)]
pub fn render_checked(doc: &Doc, options: RenderOptions) -> (r: Option<String>)
    ensures
        match r {
            Some(out) => rendered(doc@, options).ok && out@ == rendered(doc@, options).out,
            None => !rendered(doc@, options).ok,
        },
{
    let mut out = String::new();
    let mut width: usize = 0;
    let mut stack: Vec<Command> = Vec::new();
    stack.push(Command { indent: 0, mode: Mode::Break, doc });
    let ghost target = rendered(doc@, options);
    proof {
        assert(stack@.drop_last() == Seq::<Command>::empty());
        assert(stack@.last() == Command { indent: 0, mode: Mode::Break, doc });
        assert(out@ == Seq::<char>::empty());
        assert(cmd_model(stack@.last()) == doc@);
        assert(Layout { out: out@, width: width as int, ok: true } == start_layout());
        assert(run_stack(stack@.drop_last(), target, options) == target);
    }
    while stack.len() > 0
        invariant
            run_stack(stack@, Layout { out: out@, width: width as int, ok: true }, options) == target,
        decreases stack_size(stack@),
    {
        let ghost before = stack@;
        let ghost st = Layout { out: out@, width: width as int, ok: true };
        let command = stack.pop().unwrap();
        let ghost st1 = layout(cmd_model(command), command.indent as nat, command.mode, st, options);
        proof {
            assert(before.drop_last() == stack@);
            assert(before.last() == command);
            lemma_doc_size_pos(cmd_model(command));
            lemma_run_stack_ok(stack@, st1, options);
        }
        match command.doc {
            Doc::Text(text) => {
                if !contains_char(text.as_str(), '\n') {
                    let w = str_width(text.as_str());
                    if w > usize::MAX - width {
                        return None;
                    }
                }
                out.append(text.as_str());
                width = width_after_text(width, text.as_str());
                proof {
                    assert(run_stack(stack@, Layout { out: out@, width: width as int, ok: true }, options) == target);
                }
            },
            Doc::Concat(parts) => {
                let ghost mid = stack@;
                push_parts(&mut stack, parts, command.indent, command.mode);
                proof {
                    let cmds = choose|cmds: Seq<Command>| stack@ == mid + cmds && #[trigger] is_rev_cmds(cmds, parts@, command.indent, command.mode);
                    lemma_run_stack_rev(cmds, parts@, command.indent, command.mode, st, options);
                    lemma_run_stack_append(mid, cmds, st, options);
                    assert(run_stack(stack@, Layout { out: out@, width: width as int, ok: true }, options) == target);
                }
            },
            Doc::Indent(inner) => {
                proof {
                    let i2 = (command.indent + options.indent_width) as nat;
                    let st2 = Layout { out: st.out, width: st.width, ok: st.ok && command.indent + options.indent_width <= usize::MAX };
                    lemma_layout_ok(doc_model(**inner), i2, command.mode, st2, options);
                }
                if options.indent_width > usize::MAX - command.indent {
                    return None;
                }
                stack.push(Command { indent: command.indent + options.indent_width, mode: command.mode, doc: inner });
                proof {
                    assert(stack@.drop_last() == before.drop_last());
                }
            },
            Doc::Line => match command.mode {
                Mode::Flat => {
                    if width == usize::MAX {
                        return None;
                    }
                    push_char(&mut out, ' ');
                    width += 1;
                },
                Mode::Break => {
                    push_newline(&mut out, command.indent);
                    width = command.indent;
                },
            },
            Doc::SoftLine => match command.mode {
                Mode::Flat => {},
                Mode::Break => {
                    push_newline(&mut out, command.indent);
                    width = command.indent;
                },
            },
            Doc::HardLine => {
                push_newline(&mut out, command.indent);
                width = command.indent;
            },
            Doc::Group(inner) => {
                let next_mode = match command.mode {
                    Mode::Flat => Mode::Flat,
                    Mode::Break => {
                        let remaining = options.line_length.saturating_sub(width);
                        let probe = vec![Command { indent: command.indent, mode: Mode::Flat, doc: inner }];
                        proof {
                            assert(probe@.drop_last() == Seq::<Command>::empty());
                            assert(stack_flat_width(probe@.drop_last()) == Some(0nat));
                            assert(probe@.last() == Command { indent: command.indent, mode: Mode::Flat, doc: inner });
                        }
                        if fits(remaining, probe) {
                            Mode::Flat
                        } else {
                            Mode::Break
                        }
                    },
                };
                stack.push(Command { indent: command.indent, mode: next_mode, doc: inner });
                proof {
                    assert(stack@.drop_last() == before.drop_last());
                }
            },
        }
    }
    Some(out)
}

proof fn lemma_seq_append_props(a: Seq<DocModel>, b: Seq<DocModel>)
    ensures
        flat_width_of_seq(a + b) == add_widths(flat_width_of_seq(a), flat_width_of_seq(b)),
        forced_break_seq(a + b) == (forced_break_seq(a) || forced_break_seq(b)),
    decreases a.len(),
{
    if a.len() == 0 {
        assert(a + b == b);
    } else {
        let a1 = a.subrange(1, a.len() as int);
        lemma_seq_append_props(a1, b);
        assert((a + b)[0] == a[0]);
        assert((a + b).subrange(1, (a + b).len() as int) == a1 + b);
    }
}

proof fn lemma_docs_model_push(parts: Seq<Doc>, i: int)
    requires
        0 <= i < parts.len(),
    ensures
        docs_model(parts.subrange(0, i + 1)) == docs_model(parts.subrange(0, i)) + seq![doc_model(parts[i])],
{
    let p = parts.subrange(0, i + 1);
    assert(p.subrange(0, p.len() - 1) == parts.subrange(0, i));
    assert(p[p.len() - 1] == parts[i]);
    assert(docs_model(parts.subrange(0, i)).push(doc_model(parts[i])) == docs_model(parts.subrange(0, i)) + seq![doc_model(parts[i])]);
}

proof fn lemma_single_props(d: DocModel)
    ensures
        flat_width_of_seq(seq![d]) == add_widths(flat_width_of(d), Some(0)),
        forced_break_seq(seq![d]) == forced_break(d),
{
    let s = seq![d];
    assert(s[0] == d);
    assert(s.subrange(1, 1) == Seq::<DocModel>::empty());
    assert(flat_width_of_seq(Seq::<DocModel>::empty()) == Some(0nat));
    assert(!forced_break_seq(Seq::<DocModel>::empty()));
}

proof fn lemma_docs_model_append(a: Seq<Doc>, b: Seq<Doc>)
    ensures
        docs_model(a + b) == docs_model(a) + docs_model(b),
{
    lemma_docs_model_len(a);
    lemma_docs_model_len(b);
    lemma_docs_model_len(a + b);
    assert forall|i: int| 0 <= i < (a + b).len() implies #[trigger] docs_model(a + b)[i] == (docs_model(a) + docs_model(b))[i] by {
        if i < a.len() {
            assert((a + b)[i] == a[i]);
        } else {
            assert((a + b)[i] == b[i - a.len()]);
        }
    }
    assert(docs_model(a + b) =~= docs_model(a) + docs_model(b));
}

/// The width a left-to-right flat measurement takes before it stops, and whether
/// it went through: a `HardLine` or a text with a line break stops it, the
/// width measured before staying taken.
pub open spec fn measured(doc: DocModel) -> (nat, bool)
    decreases doc,
{
    match doc {
        DocModel::Text(t) => match text_flat_width_spec(t) {
            Some(w) => (w, true),
            None => (0, false),
        },
        DocModel::Concat(parts) => measured_seq(parts),
        DocModel::Indent(inner) => measured(*inner),
        DocModel::Group(inner) => measured(*inner),
        DocModel::Line => (1, true),
        DocModel::SoftLine => (0, true),
        DocModel::HardLine => (0, false),
    }
}

/// Two measurements one after the other: the second only when the first went
/// through.
pub open spec fn then_measure(a: (nat, bool), b: (nat, bool)) -> (nat, bool) {
    if a.1 { (a.0 + b.0, b.1) } else { a }
}

pub open spec fn measured_seq(parts: Seq<DocModel>) -> (nat, bool)
    decreases parts,
{
    if parts.len() == 0 {
        (0, true)
    } else {
        then_measure(measured(parts[0]), measured_seq(parts.subrange(1, parts.len() as int)))
    }
}

proof fn lemma_measured_seq_append(a: Seq<DocModel>, b: Seq<DocModel>)
    ensures
        measured_seq(a + b) == then_measure(measured_seq(a), measured_seq(b)),
    decreases a.len(),
{
    if a.len() == 0 {
        assert(a + b == b);
    } else {
        let a1 = a.subrange(1, a.len() as int);
        lemma_measured_seq_append(a1, b);
        assert((a + b)[0] == a[0]);
        assert((a + b).subrange(1, (a + b).len() as int) == a1 + b);
    }
}

/// A document with a flat width is measured through, to that width.
proof fn lemma_measured_flat(doc: DocModel)
    ensures
        flat_width_of(doc) matches Some(w) ==> measured(doc) == (w, true),
        flat_width_of(doc) is None ==> !measured(doc).1,
    decreases doc, 1int,
{
    match doc {
        DocModel::Concat(parts) => lemma_measured_flat_seq(parts),
        DocModel::Indent(inner) => lemma_measured_flat(*inner),
        DocModel::Group(inner) => lemma_measured_flat(*inner),
        _ => {},
    }
}

proof fn lemma_measured_flat_seq(parts: Seq<DocModel>)
    ensures
        flat_width_of_seq(parts) matches Some(w) ==> measured_seq(parts) == (w, true),
        flat_width_of_seq(parts) is None ==> !measured_seq(parts).1,
    decreases parts, 0int,
{
    if parts.len() > 0 {
        lemma_measured_flat(parts[0]);
        lemma_measured_flat_seq(parts.subrange(1, parts.len() as int));
    }
}

/// Takes the document's flat width from `remaining`, left to right; gives
/// nothing where a `HardLine` or a text with a line break stops the
/// measurement, the width measured before it staying taken.
fn accumulate_flat_width(doc: &Doc, remaining: &mut usize) -> (r: Option<()>)
    requires
        measured(doc@).0 <= *old(remaining),
    ensures
        r is Some <==> measured(doc@).1,
        *final(remaining) == *old(remaining) - measured(doc@).0,
    decreases doc,
{
    match doc {
        Doc::Text(text) => {
            let w = text_flat_width(text.as_str())?;
            *remaining -= w;
        },
        Doc::Concat(parts) => {
            let ghost start = *remaining;
            let ghost all = docs_model(parts@);
            let mut i: usize = 0;
            proof {
                lemma_docs_model_len(parts@);
                assert(parts@.subrange(0, 0) == Seq::<Doc>::empty());
                assert(docs_model(Seq::<Doc>::empty()) == Seq::<DocModel>::empty());
                assert(parts@.subrange(0, parts@.len() as int) == parts@);
                assert(Seq::<Doc>::empty() + parts@ == parts@);
            }
            while i < parts.len()
                invariant
                    i <= parts@.len(),
                    *doc == Doc::Concat(*parts),
                    all == docs_model(parts@),
                    start == *old(remaining),
                    measured_seq(all).0 <= start,
                    measured_seq(docs_model(parts@.subrange(0, i as int))).1,
                    *remaining == start - measured_seq(docs_model(parts@.subrange(0, i as int))).0,
                    measured_seq(all) == then_measure(
                        measured_seq(docs_model(parts@.subrange(0, i as int))),
                        measured_seq(docs_model(parts@.subrange(i as int, parts@.len() as int))),
                    ),
                decreases parts.len() - i,
            {
                let ghost pre = docs_model(parts@.subrange(0, i as int));
                let ghost d = doc_model(parts@[i as int]);
                let ghost post = docs_model(parts@.subrange(i + 1, parts@.len() as int));
                proof {
                    assert(decreases_to!(*doc => (*doc)->Concat_0));
                    assert(decreases_to!(*parts => parts@));
                    assert(decreases_to!(parts@ => parts@[i as int]));
                    lemma_docs_model_push(parts@, i as int);
                    let suffix = parts@.subrange(i as int, parts@.len() as int);
                    assert(suffix == seq![parts@[i as int]] + parts@.subrange(i + 1, parts@.len() as int));
                    lemma_docs_model_append(seq![parts@[i as int]], parts@.subrange(i + 1, parts@.len() as int));
                    lemma_docs_model_len(seq![parts@[i as int]]);
                    assert(docs_model(seq![parts@[i as int]]) =~= seq![d]);
                    let ds = docs_model(suffix);
                    assert(ds == seq![d] + post);
                    assert(ds[0] == d);
                    assert(ds.subrange(1, ds.len() as int) =~= post);
                    assert(measured_seq(ds) == then_measure(measured(d), measured_seq(post)));
                    lemma_measured_seq_append(pre, seq![d]);
                    assert(seq![d].subrange(1, 1) == Seq::<DocModel>::empty());
                    assert(seq![d][0] == d);
                    assert(measured_seq(Seq::<DocModel>::empty()) == (0nat, true));
                    assert(measured_seq(seq![d]) == then_measure(measured(d), (0nat, true)));
                }
                let step = accumulate_flat_width(&parts[i], remaining);
                match step {
                    Some(()) => {},
                    None => {
                        proof {
                            assert(doc@ == DocModel::Concat(all));
                            assert(measured(doc@) == measured_seq(all));

                        }
                        return None;
                    },
                }
                i += 1;
            }
            proof {
                assert(parts@.subrange(i as int, parts@.len() as int) == Seq::<Doc>::empty());
                assert(docs_model(Seq::<Doc>::empty()) == Seq::<DocModel>::empty());
            }
        },
        Doc::Indent(inner) | Doc::Group(inner) => {
            accumulate_flat_width(inner, remaining)?;
        },
        Doc::Line => {
            *remaining -= 1;
        },
        Doc::SoftLine => {},
        Doc::HardLine => {
            return None;
        },
    }
    Some(())
}

/// The flat width of a document, when it can be laid out flat and that width
/// fits in a `usize`.
pub fn flat_width(doc: &Doc) -> (r: Option<usize>)
    ensures
        match flat_width_of(doc@) {
            Some(w) => if w <= usize::MAX { r matches Some(x) && x == w } else { r is None },
            None => r is None,
        },
{
    let mut remaining = usize::MAX;
    let probe = vec![Command { indent: 0, mode: Mode::Flat, doc }];
    proof {
        assert(probe@.drop_last() == Seq::<Command>::empty());
        assert(stack_flat_width(probe@.drop_last()) == Some(0nat));
        assert(probe@.last() == Command { indent: 0, mode: Mode::Flat, doc });
    }
    if fits(remaining, probe) {
        proof {
            lemma_measured_flat(doc@);
        }
        accumulate_flat_width(doc, &mut remaining)?;
        Some(usize::MAX - remaining)
    } else {
        None
    }
}

/// Whether the document, laid out with the given indent and mode, fits flat in
/// `remaining` columns: it has a flat width (no hard line, no text with a line
/// break) of at most `remaining`. The indent and the mode play no part; a
/// `Line` needs one column, a `SoftLine` none, and an exact fit is accepted.
pub fn fits_in(doc: &Doc, indent: usize, mode: Mode, remaining: usize) -> (r: bool)
    ensures
        r == (flat_width_of(doc@) matches Some(w) && w <= remaining),
{
    let probe = vec![Command { indent, mode, doc }];
    proof {
        assert(probe@.drop_last() == Seq::<Command>::empty());
        assert(stack_flat_width(probe@.drop_last()) == Some(0nat));
        assert(probe@.last() == Command { indent, mode, doc });
    }
    fits(remaining, probe)
}

/// Whether the document holds a hard line or a text with a line break.
pub fn has_forced_break(doc: &Doc) -> (r: bool)
    ensures
        r == forced_break(doc@),
    decreases doc,
{
    match doc {
        Doc::Text(text) => contains_char(text.as_str(), '\n') || contains_char(text.as_str(), '\r'),
        Doc::Concat(parts) => {
            let mut i: usize = 0;
            proof {
                assert(parts@.subrange(0, 0) == Seq::<Doc>::empty());
                assert(docs_model(Seq::<Doc>::empty()) == Seq::<DocModel>::empty());
                lemma_docs_model_len(parts@);
            }
            while i < parts.len()
                invariant
                    i <= parts@.len(),
                    *doc == Doc::Concat(*parts),
                    !forced_break_seq(docs_model(parts@.subrange(0, i as int))),
                decreases parts.len() - i,
            {
                proof {
                    assert(decreases_to!(*doc => (*doc)->Concat_0));
                    assert(decreases_to!(*parts => parts@));
                    assert(decreases_to!(parts@ => parts@[i as int]));
                    lemma_docs_model_push(parts@, i as int);
                    let pre = docs_model(parts@.subrange(0, i as int));
                    let one = seq![doc_model(parts@[i as int])];
                    let post = docs_model(parts@.subrange(i + 1, parts@.len() as int));
                    lemma_seq_append_props(pre, one);
                    lemma_single_props(doc_model(parts@[i as int]));
                    lemma_docs_model_len(parts@.subrange(0, i + 1));
                    lemma_docs_model_len(parts@.subrange(i + 1, parts@.len() as int));
                    assert(parts@ == parts@.subrange(0, i + 1) + parts@.subrange(i + 1, parts@.len() as int));
                    lemma_docs_model_append(parts@.subrange(0, i + 1), parts@.subrange(i + 1, parts@.len() as int));
                    lemma_seq_append_props(docs_model(parts@.subrange(0, i + 1)), post);
                }
                if has_forced_break(&parts[i]) {
                    return true;
                }
                i += 1;
            }
            proof {
                assert(parts@.subrange(0, parts@.len() as int) == parts@);
            }
            false
        },
        Doc::Indent(inner) | Doc::Group(inner) => has_forced_break(inner),
        Doc::Line | Doc::SoftLine => false,
        Doc::HardLine => true,
    }
}

/// A document that forces a line break has no flat width: a hard line or a text
/// with a line break can never be laid out on one line.
pub proof fn lemma_forced_break_has_no_flat_width(doc: DocModel)
    requires
        forced_break(doc),
    ensures
        flat_width_of(doc) is None,
    decreases doc,
{
    match doc {
        DocModel::Concat(parts) => lemma_forced_break_seq_has_no_flat_width(parts),
        DocModel::Indent(inner) => lemma_forced_break_has_no_flat_width(*inner),
        DocModel::Group(inner) => lemma_forced_break_has_no_flat_width(*inner),
        _ => {},
    }
}

proof fn lemma_forced_break_seq_has_no_flat_width(parts: Seq<DocModel>)
    requires
        forced_break_seq(parts),
    ensures
        flat_width_of_seq(parts) is None,
    decreases parts,
{
    if parts.len() > 0 {
        if forced_break(parts[0]) {
            lemma_forced_break_has_no_flat_width(parts[0]);
        } else {
            lemma_forced_break_seq_has_no_flat_width(parts.subrange(1, parts.len() as int));
        }
    }
}

/// Appends a document to a list of parts.
pub(crate) fn push_doc(parts: &mut Vec<Doc>, d: Doc)
    ensures
        docs_model(final(parts)@) == docs_model(old(parts)@).push(d@),
{
    let ghost before = parts@;
    parts.push(d);
    proof {
        assert(parts@.subrange(0, parts@.len() - 1) == before);
    }
}

pub(crate) fn concat_two(a: Doc, b: Doc) -> (r: Doc)
    ensures
        r@ == DocModel::Concat(seq![a@, b@]),
{
    let mut parts: Vec<Doc> = Vec::new();
    proof {
        assert(docs_model(parts@) == Seq::<DocModel>::empty());
    }
    let ghost (ma, mb) = (a@, b@);
    push_doc(&mut parts, a);
    push_doc(&mut parts, b);
    proof {
        assert(docs_model(parts@) =~= seq![ma, mb]);
    }
    Doc::concat(parts)
}

pub(crate) fn concat_three(a: Doc, b: Doc, c: Doc) -> (r: Doc)
    ensures
        r@ == DocModel::Concat(seq![a@, b@, c@]),
{
    let mut parts: Vec<Doc> = Vec::new();
    proof {
        assert(docs_model(parts@) == Seq::<DocModel>::empty());
    }
    let ghost (ma, mb, mc) = (a@, b@, c@);
    push_doc(&mut parts, a);
    push_doc(&mut parts, b);
    push_doc(&mut parts, c);
    proof {
        assert(docs_model(parts@) =~= seq![ma, mb, mc]);
    }
    Doc::concat(parts)
}

pub(crate) fn concat_four(a: Doc, b: Doc, c: Doc, d: Doc) -> (r: Doc)
    ensures
        r@ == DocModel::Concat(seq![a@, b@, c@, d@]),
{
    let mut parts: Vec<Doc> = Vec::new();
    proof {
        assert(docs_model(parts@) == Seq::<DocModel>::empty());
    }
    let ghost (ma, mb, mc, md) = (a@, b@, c@, d@);
    push_doc(&mut parts, a);
    push_doc(&mut parts, b);
    push_doc(&mut parts, c);
    push_doc(&mut parts, d);
    proof {
        assert(docs_model(parts@) =~= seq![ma, mb, mc, md]);
    }
    Doc::concat(parts)
}

/// The text of a document laid out on one line: `Line` as a space, `SoftLine`
/// as nothing.
pub open spec fn flat_text(doc: DocModel) -> Seq<char>
    decreases doc,
{
    match doc {
        DocModel::Text(t) => t,
        DocModel::Concat(parts) => flat_text_seq(parts),
        DocModel::Indent(inner) => flat_text(*inner),
        DocModel::Group(inner) => flat_text(*inner),
        DocModel::Line => seq![' '],
        DocModel::SoftLine => Seq::empty(),
        DocModel::HardLine => seq!['\n'],
    }
}

pub open spec fn flat_text_seq(parts: Seq<DocModel>) -> Seq<char>
    decreases parts,
{
    if parts.len() == 0 {
        Seq::empty()
    } else {
        flat_text(parts[0]) + flat_text_seq(parts.subrange(1, parts.len() as int))
    }
}

proof fn lemma_no_newline_concat(a: Seq<char>, b: Seq<char>)
    requires
        !a.contains('\n'),
        !b.contains('\n'),
    ensures
        !(a + b).contains('\n'),
{
    assert forall|i: int| 0 <= i < (a + b).len() implies (a + b)[i] != '\n' by {
        if i < a.len() {
            assert((a + b)[i] == a[i]);
        } else {
            assert((a + b)[i] == b[i - a.len()]);
        }
    }
}

proof fn lemma_flat_layout(doc: DocModel, indent: nat, st: Layout, opts: RenderOptions)
    requires
        flat_width_of(doc) is Some,
    ensures
        layout(doc, indent, Mode::Flat, st, opts).out == st.out + flat_text(doc),
        !flat_text(doc).contains('\n'),
    decreases doc,
{
    match doc {
        DocModel::Concat(parts) => lemma_flat_layout_seq(parts, indent, st, opts),
        DocModel::Indent(inner) => {
            let st2 = Layout { out: st.out, width: st.width, ok: st.ok && indent + opts.indent_width <= usize::MAX };
            lemma_flat_layout(*inner, (indent + opts.indent_width) as nat, st2, opts);
        },
        DocModel::Group(inner) => lemma_flat_layout(*inner, indent, st, opts),
        DocModel::Line => {
            assert(st.out.push(' ') =~= st.out + seq![' ']);
            assert(seq![' '][0] == ' ');
        },
        DocModel::SoftLine => {
            assert(st.out + Seq::<char>::empty() =~= st.out);
        },
        _ => {},
    }
}

proof fn lemma_flat_layout_seq(parts: Seq<DocModel>, indent: nat, st: Layout, opts: RenderOptions)
    requires
        flat_width_of_seq(parts) is Some,
    ensures
        layout_seq(parts, indent, Mode::Flat, st, opts).out == st.out + flat_text_seq(parts),
        !flat_text_seq(parts).contains('\n'),
    decreases parts,
{
    if parts.len() == 0 {
        assert(st.out + Seq::<char>::empty() =~= st.out);
    } else {
        let rest = parts.subrange(1, parts.len() as int);
        lemma_flat_layout(parts[0], indent, st, opts);
        let st1 = layout(parts[0], indent, Mode::Flat, st, opts);
        lemma_flat_layout_seq(rest, indent, st1, opts);
        assert(st.out + flat_text(parts[0]) + flat_text_seq(rest) =~= st.out + (flat_text(parts[0]) + flat_text_seq(rest)));
        lemma_no_newline_concat(flat_text(parts[0]), flat_text_seq(rest));
    }
}

/// A group whose flat width fits within the line length is laid out on one
/// line: it renders to its flat text, which holds no line break.
pub proof fn lemma_fitting_group_renders_flat(doc: DocModel, options: RenderOptions)
    requires
        flat_width_of(doc) matches Some(w) && w <= options.line_length,
    ensures
        rendered(DocModel::Group(Box::new(doc)), options).out == flat_text(doc),
        !flat_text(doc).contains('\n'),
{
    lemma_flat_layout(doc, 0, start_layout(), options);
    assert(Seq::<char>::empty() + flat_text(doc) =~= flat_text(doc));
}

/// A group whose flat width exceeds the line length is broken: its lines and
/// soft lines become line breaks (at column zero, the layout starts there).
pub proof fn lemma_wide_group_breaks(doc: DocModel, options: RenderOptions)
    requires
        !(flat_width_of(doc) matches Some(w) && w <= options.line_length),
    ensures
        rendered(DocModel::Group(Box::new(doc)), options) == layout(doc, 0, Mode::Break, start_layout(), options),
{
}

/// Whether the document holds no group at any depth.
pub open spec fn group_free(doc: DocModel) -> bool
    decreases doc,
{
    match doc {
        DocModel::Concat(parts) => group_free_seq(parts),
        DocModel::Indent(inner) => group_free(*inner),
        DocModel::Group(_) => false,
        _ => true,
    }
}

pub open spec fn group_free_seq(parts: Seq<DocModel>) -> bool
    decreases parts,
{
    if parts.len() == 0 {
        true
    } else {
        group_free(parts[0]) && group_free_seq(parts.subrange(1, parts.len() as int))
    }
}

/// Without groups, what a document writes does not depend on the column it
/// starts at nor on what was written before.
proof fn lemma_group_free_out(doc: DocModel, indent: nat, mode: Mode, st: Layout, opts: RenderOptions)
    requires
        group_free(doc),
    ensures
        layout(doc, indent, mode, st, opts).out == st.out + layout(doc, indent, mode, start_layout(), opts).out,
    decreases doc, 1int,
{
    match doc {
        DocModel::Text(t) => {
            assert(Seq::<char>::empty() + t == t);
        },
        DocModel::Concat(parts) => lemma_group_free_out_seq(parts, indent, mode, st, opts),
        DocModel::Indent(inner) => {
            let i2 = (indent + opts.indent_width) as nat;
            let s1 = Layout { out: st.out, width: st.width, ok: st.ok && indent + opts.indent_width <= usize::MAX };
            let s0 = Layout { out: Seq::empty(), width: 0, ok: indent + opts.indent_width <= usize::MAX };
            lemma_group_free_out(*inner, i2, mode, s1, opts);
            lemma_group_free_out(*inner, i2, mode, s0, opts);
            assert(Seq::<char>::empty() + layout(*inner, i2, mode, start_layout(), opts).out
                == layout(*inner, i2, mode, start_layout(), opts).out);
        },
        DocModel::Line => {
            assert(st.out.push(' ') == st.out + Seq::<char>::empty().push(' '));
            assert(Seq::<char>::empty() + newline_indent(indent) == newline_indent(indent));
        },
        DocModel::SoftLine => {
            assert(st.out + Seq::<char>::empty() == st.out);
            assert(Seq::<char>::empty() + newline_indent(indent) == newline_indent(indent));
        },
        DocModel::HardLine => {
            assert(Seq::<char>::empty() + newline_indent(indent) == newline_indent(indent));
        },
        DocModel::Group(_) => {},
    }
}

proof fn lemma_group_free_out_seq(parts: Seq<DocModel>, indent: nat, mode: Mode, st: Layout, opts: RenderOptions)
    requires
        group_free_seq(parts),
    ensures
        layout_seq(parts, indent, mode, st, opts).out == st.out + layout_seq(parts, indent, mode, start_layout(), opts).out,
    decreases parts, 0int,
{
    if parts.len() == 0 {
        assert(st.out + Seq::<char>::empty() == st.out);
    } else {
        let rest = parts.subrange(1, parts.len() as int);
        let l1 = layout(parts[0], indent, mode, st, opts);
        let l0 = layout(parts[0], indent, mode, start_layout(), opts);
        lemma_group_free_out(parts[0], indent, mode, st, opts);
        lemma_group_free_out_seq(rest, indent, mode, l1, opts);
        lemma_group_free_out_seq(rest, indent, mode, l0, opts);
        let y = layout_seq(rest, indent, mode, start_layout(), opts).out;
        assert(st.out + l0.out + y == st.out + (l0.out + y));
        assert(start_layout().out + l0.out == l0.out);
    }
}

/// Rendering a concatenation whose second part holds no group writes the two
/// renderings one after the other: a group's fit test looks only at its own
/// content and the column it starts at, never at what follows it.
pub proof fn lemma_concat_renders_in_sequence(a: DocModel, b: DocModel, opts: RenderOptions)
    requires
        group_free(b),
    ensures
        rendered(DocModel::Concat(seq![a, b]), opts).out == rendered(a, opts).out + rendered(b, opts).out,
{
    let parts = seq![a, b];
    let la = layout(a, 0, Mode::Break, start_layout(), opts);
    assert(parts[0] == a);
    assert(parts.subrange(1, 2) =~= seq![b]);
    let one = seq![b];
    assert(one[0] == b);
    assert(one.subrange(1, 1) =~= Seq::<DocModel>::empty());
    lemma_group_free_out(b, 0, Mode::Break, la, opts);
    let lb = layout(b, 0, Mode::Break, la, opts);
    assert(layout_seq(Seq::<DocModel>::empty(), 0, Mode::Break, lb, opts) == lb);
    assert(layout_seq(one, 0, Mode::Break, la, opts) == lb);
    assert(layout_seq(parts, 0, Mode::Break, start_layout(), opts) == layout_seq(one, 0, Mode::Break, la, opts));
    assert(rendered(DocModel::Concat(parts), opts) == layout_seq(parts, 0, Mode::Break, start_layout(), opts));
}

} // verus!
