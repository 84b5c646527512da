//! Rendering of T-HTML documents whose component tags a host resolves and
//! calls: the host looks a component up by name and calls it with its
//! children and properties, and the value it gives back is rendered in place.
//!
//! The host is two functions handed in by the caller. Where they behave as
//! functions of their arguments, the output is the one [`tnodes_spec`]
//! describes for them.

use vstd::prelude::*;
use crate::syntax::{BackendError, SourceSpan};
use crate::text::{push_char, concat3, eq_ignore_ascii_case, ascii_lower_seq, chars_of, str_eq};
use crate::html::ast::{
    Node, Document, AttributeLike, AttributeValue, ValuePart, RawTextElementNode, ComponentTagNode, InterpolationNode, RuntimeValue, RuntimeContext,
};
use crate::html::validate::{Failure, reports};
use crate::thtml::{has_component, lemma_has_component_prefix};
use crate::html::render::{
    child_spec, stringify_spec, attributes_fragment_spec, render_child_value, render_escaped_text_value,
    stringify_runtime_value, render_attributes_fragment, check_conversion, converted, structured, conversion_failure,
};

verus! {

/// One value handed to a component: a runtime value of the template, a text,
/// or rendered markup.
pub enum Item<'a> {
    Value(&'a RuntimeValue),
    Text(String),
    Raw(String),
}

/// A child of a component after normalization: a single item, a list of items
/// (from a sequence), or a fragment of items.
pub enum ChildGroup<'a> {
    Plain(Item<'a>),
    List(Vec<Item<'a>>),
    Fragment(Vec<Item<'a>>),
}

/// The `children` a component receives: nothing, one child, or a fragment of
/// several.
pub enum Children<'a> {
    Nothing,
    Single(ChildGroup<'a>),
    Several(Vec<ChildGroup<'a>>),
}

/// A property a component receives.
pub enum Prop<'a> {
    Children(Children<'a>),
    Text(String),
    Flag(bool),
    Value(&'a RuntimeValue),
}

/// A call of a component: its name and its properties, in the order in which
/// they were first set (a later setting of a name replaces its value in place).
pub struct ComponentCall<'a> {
    pub name: String,
    pub props: Vec<(String, Prop<'a>)>,
}

/// Why rendering with a host failed: a runtime error of the renderer, an
/// error of the HTML rendering, or an error the host gave.
pub enum HostRenderError<E> {
    Runtime(String),
    Backend(BackendError),
    Host(E),
}

pub enum ItemSpec {
    Value(RuntimeValue),
    Text(Seq<char>),
    Raw(Seq<char>),
}

pub enum GroupSpec {
    Plain(ItemSpec),
    List(Seq<ItemSpec>),
    Fragment(Seq<ItemSpec>),
}

pub enum ChildrenSpec {
    Nothing,
    Single(GroupSpec),
    Several(Seq<GroupSpec>),
}

pub enum PropSpec {
    Children(ChildrenSpec),
    Text(Seq<char>),
    Flag(bool),
    Value(RuntimeValue),
}

/// The value of a call: the component's name and its properties.
pub struct CallSpec {
    pub name: Seq<char>,
    pub props: Seq<(Seq<char>, PropSpec)>,
}

pub open spec fn item_view(i: Item) -> ItemSpec {
    match i {
        Item::Value(v) => ItemSpec::Value(*v),
        Item::Text(s) => ItemSpec::Text(s@),
        Item::Raw(s) => ItemSpec::Raw(s@),
    }
}

pub open spec fn items_view(is: Seq<Item>) -> Seq<ItemSpec> {
    is.map_values(|i: Item| item_view(i))
}

pub open spec fn group_view(g: ChildGroup) -> GroupSpec {
    match g {
        ChildGroup::Plain(i) => GroupSpec::Plain(item_view(i)),
        ChildGroup::List(is) => GroupSpec::List(items_view(is@)),
        ChildGroup::Fragment(is) => GroupSpec::Fragment(items_view(is@)),
    }
}

pub open spec fn groups_view(gs: Seq<ChildGroup>) -> Seq<GroupSpec> {
    gs.map_values(|g: ChildGroup| group_view(g))
}

pub open spec fn children_view(c: Children) -> ChildrenSpec {
    match c {
        Children::Nothing => ChildrenSpec::Nothing,
        Children::Single(g) => ChildrenSpec::Single(group_view(g)),
        Children::Several(gs) => ChildrenSpec::Several(groups_view(gs@)),
    }
}

pub open spec fn prop_view(p: Prop) -> PropSpec {
    match p {
        Prop::Children(c) => PropSpec::Children(children_view(c)),
        Prop::Text(s) => PropSpec::Text(s@),
        Prop::Flag(b) => PropSpec::Flag(b),
        Prop::Value(v) => PropSpec::Value(*v),
    }
}

pub open spec fn props_view(ps: Seq<(String, Prop)>) -> Seq<(Seq<char>, PropSpec)> {
    ps.map_values(|p: (String, Prop)| (p.0@, prop_view(p.1)))
}

pub open spec fn call_view(c: ComponentCall) -> CallSpec {
    CallSpec { name: c.name@, props: props_view(c.props@) }
}

/// The items of values inside a sequence or fragment: nested sequences and
/// fragments are spliced in, and `Null` is dropped.
pub open spec fn flat_values(vs: Seq<RuntimeValue>) -> Seq<ItemSpec>
    decreases vs,
{
    if vs.len() == 0 {
        Seq::empty()
    } else {
        flat_values(vs.subrange(0, vs.len() - 1)) + flat_value(vs[vs.len() - 1])
    }
}

pub open spec fn flat_value(v: RuntimeValue) -> Seq<ItemSpec>
    decreases v,
{
    match v {
        RuntimeValue::Null => Seq::empty(),
        RuntimeValue::Sequence(ws) => flat_values(ws@),
        RuntimeValue::Fragment(ws) => flat_values(ws@),
        _ => seq![ItemSpec::Value(v)],
    }
}

fn push_item<'a>(items: &mut Vec<Item<'a>>, item: Item<'a>)
    ensures
        items_view(final(items)@) == items_view(old(items)@).push(item_view(item)),
{
    items.push(item);
    proof {
        assert(items_view(items@) =~= items_view(old(items)@).push(item_view(item)));
    }
}

/// Appends the items of the values, as [`flat_values`].
fn flatten_values<'a>(values: &'a Vec<RuntimeValue>, items: &mut Vec<Item<'a>>)
    ensures
        items_view(final(items)@) == items_view(old(items)@) + flat_values(values@),
    decreases values, 0nat,
{
    let mut i: usize = 0;
    proof {
        assert(values@.subrange(0, 0) == Seq::<RuntimeValue>::empty());
        assert(items_view(items@) + flat_values(Seq::<RuntimeValue>::empty()) =~= items_view(items@));
    }
    while i < values.len()
        invariant
            i <= values@.len(),
            items_view(items@) == items_view(old(items)@) + flat_values(values@.subrange(0, i as int)),
        decreases values.len() - i,
    {
        proof {
            let p = values@.subrange(0, i + 1);
            assert(p.subrange(0, p.len() - 1) == values@.subrange(0, i as int));
            assert(p[p.len() - 1] == values@[i as int]);
            assert(decreases_to!(*values => values@));
            assert(decreases_to!(values@ => values@[i as int]));
        }
        let ghost before = items_view(items@);
        flatten_value(&values[i], items);
        proof {
            assert(items_view(items@) =~= items_view(old(items)@) + flat_values(values@.subrange(0, i + 1)));
        }
        i += 1;
    }
    proof {
        assert(values@.subrange(0, values@.len() as int) == values@);
    }
}

fn flatten_value<'a>(value: &'a RuntimeValue, items: &mut Vec<Item<'a>>)
    ensures
        items_view(final(items)@) == items_view(old(items)@) + flat_value(*value),
    decreases value, 0nat,
{
    match value {
        RuntimeValue::Null => {
            proof {
                assert(items_view(items@) + Seq::<ItemSpec>::empty() =~= items_view(items@));
            }
        },
        RuntimeValue::Sequence(ws) => {
            proof {
                assert(decreases_to!(*value => (*value)->Sequence_0));
            }
            flatten_values(ws, items);
        },
        RuntimeValue::Fragment(ws) => {
            proof {
                assert(decreases_to!(*value => (*value)->Fragment_0));
            }
            flatten_values(ws, items);
        },
        _ => {
            push_item(items, Item::Value(value));
            proof {
                assert(items_view(old(items)@).push(ItemSpec::Value(*value)) =~= items_view(old(items)@) + seq![ItemSpec::Value(*value)]);
            }
        },
    }
}

/// A child of a component as evaluated before normalization.
pub enum EvalSpec {
    Value(RuntimeValue),
    Text(Seq<char>),
    Raw(Seq<char>),
    Fragment(Seq<EvalSpec>),
}

/// Why rendering with a host fails.
pub enum RenderFail<E> {
    Runtime(Seq<char>),
    Backend(Failure),
    Host(E),
    /// The answers given hold none for a lookup or a call the render makes:
    /// no render fails so.
    Unanswered,
}

pub open spec fn flat_evals(es: Seq<EvalSpec>) -> Seq<ItemSpec>
    decreases es,
{
    if es.len() == 0 {
        Seq::empty()
    } else {
        flat_evals(es.subrange(0, es.len() - 1)) + flat_eval(es[es.len() - 1])
    }
}

pub open spec fn flat_eval(e: EvalSpec) -> Seq<ItemSpec>
    decreases e,
{
    match e {
        EvalSpec::Value(v) => flat_value(v),
        EvalSpec::Text(s) => seq![ItemSpec::Text(s)],
        EvalSpec::Raw(s) => seq![ItemSpec::Raw(s)],
        EvalSpec::Fragment(es) => flat_evals(es),
    }
}

/// A child of a component after normalization: `Null` is dropped, a sequence
/// becomes a list and a fragment a fragment of their items spliced flat, and
/// anything else is passed as it is.
pub open spec fn normalize_eval(e: EvalSpec) -> Option<GroupSpec> {
    match e {
        EvalSpec::Value(v) => match v {
            RuntimeValue::Null => None,
            RuntimeValue::Sequence(ws) => Some(GroupSpec::List(flat_values(ws@))),
            RuntimeValue::Fragment(ws) => Some(GroupSpec::Fragment(flat_values(ws@))),
            _ => Some(GroupSpec::Plain(ItemSpec::Value(v))),
        },
        EvalSpec::Text(s) => Some(GroupSpec::Plain(ItemSpec::Text(s))),
        EvalSpec::Raw(s) => Some(GroupSpec::Plain(ItemSpec::Raw(s))),
        EvalSpec::Fragment(es) => Some(GroupSpec::Fragment(flat_evals(es))),
    }
}

/// No children, one child, or a fragment of several.
pub open spec fn children_of(gs: Seq<GroupSpec>) -> ChildrenSpec {
    if gs.len() == 0 {
        ChildrenSpec::Nothing
    } else if gs.len() == 1 {
        ChildrenSpec::Single(gs[0])
    } else {
        ChildrenSpec::Several(gs)
    }
}

/// Where a property name is set, if it is.
pub open spec fn prop_index(ps: Seq<(Seq<char>, PropSpec)>, k: Seq<char>) -> Option<int>
    decreases ps.len(),
{
    if ps.len() == 0 {
        None
    } else {
        match prop_index(ps.drop_last(), k) {
            Some(i) => Some(i),
            None => if ps.last().0 == k { Some(ps.len() - 1) } else { None },
        }
    }
}

/// Sets a property: in place when the name is set already, else at the end.
pub open spec fn set_prop(ps: Seq<(Seq<char>, PropSpec)>, k: Seq<char>, v: PropSpec) -> Seq<(Seq<char>, PropSpec)> {
    match prop_index(ps, k) {
        Some(i) => ps.update(i, (k, v)),
        None => ps.push((k, v)),
    }
}

pub open spec fn missing_interpolation() -> Seq<char> {
    "Missing runtime value for interpolation."@
}

/// The text of an attribute value handed to a component: texts as they are,
/// interpolations by their text.
pub open spec fn attr_text_spec<E>(parts: Seq<ValuePart>, ctx: RuntimeContext) -> Result<Seq<char>, RenderFail<E>>
    decreases parts.len(),
{
    if parts.len() == 0 {
        Ok(Seq::empty())
    } else {
        match attr_text_spec::<E>(parts.drop_last(), ctx) {
            Err(f) => Err(f),
            Ok(a) => match parts.last() {
                ValuePart::Text(t) => Ok(a + t@),
                ValuePart::Interpolation(i) => if i.interpolation_index < ctx.values@.len() {
                    if converted(i) && structured(ctx.values@[i.interpolation_index as int]) {
                        Err(RenderFail::Backend(conversion_failure(i)))
                    } else {
                        match stringify_spec(ctx.values@[i.interpolation_index as int]) {
                            Err(f) => Err(RenderFail::Backend(f)),
                            Ok(t) => Ok(a + t),
                        }
                    }
                } else {
                    Err(RenderFail::Runtime("Missing runtime value for component attribute."@))
                },
            },
        }
    }
}

/// The text `{:?}` gives of a string (quoted, with escapes).
pub uninterp spec fn debug_quoted(s: Seq<char>) -> Seq<char>;

/// The `Debug` formatting of a string (`format!("{:?}", s)`), named by
/// [`debug_quoted`].
#[verifier::external_body]
fn debug_quote(s: &str) -> (r: String)
    ensures
        r@ == debug_quoted(s@),
{
    format!("{:?}", s)
}

/// A non-character of Unicode.
pub open spec fn noncharacter(c: char) -> bool {
    ('\u{fdd0}' <= c <= '\u{fdef}') || (c as u32) % 0x10000 == 0xfffe || (c as u32) % 0x10000 == 0xffff
}

/// An attribute name as HTML defines it: one or more characters other than
/// controls, space, `"`, `'`, `>`, `/`, `=` and non-characters.
pub open spec fn valid_attribute_name(s: Seq<char>) -> bool {
    &&& s.len() > 0
    &&& forall|i: int| 0 <= i < s.len() ==> {
        let c = #[trigger] s[i];
        !(c <= '\u{1f}' || ('\u{7f}' <= c <= '\u{9f}') || c == ' ' || c == '"' || c == '\'' || c == '>' || c == '/'
            || c == '=' || noncharacter(c))
    }
}

/// The properties of spread entries, set in order; each name must be a valid
/// attribute name.
pub open spec fn spread_props<E>(ps: Seq<(Seq<char>, PropSpec)>, es: Seq<(String, RuntimeValue)>) -> Result<Seq<(Seq<char>, PropSpec)>, RenderFail<E>>
    decreases es.len(),
{
    if es.len() == 0 {
        Ok(ps)
    } else {
        match spread_props::<E>(ps, es.drop_last()) {
            Err(f) => Err(f),
            Ok(q) => {
                let (k, v) = es.last();
                if valid_attribute_name(k@) {
                    Ok(set_prop(q, k@, PropSpec::Value(v)))
                } else {
                    Err(RenderFail::Runtime("Spread attribute name "@ + debug_quoted(k@) + " is not a valid HTML attribute name."@))
                }
            },
        }
    }
}

/// The properties an attribute sets: a valued attribute its text, a bare one
/// `true`, and a spread the entries of its mapping.
pub open spec fn attr_props<E>(ps: Seq<(Seq<char>, PropSpec)>, a: AttributeLike, ctx: RuntimeContext) -> Result<Seq<(Seq<char>, PropSpec)>, RenderFail<E>> {
    match a {
        AttributeLike::Attribute(at) => match at.value {
            Some(v) => match attr_text_spec::<E>(v.parts@, ctx) {
                Err(f) => Err(f),
                Ok(t) => Ok(set_prop(ps, at.name@, PropSpec::Text(t))),
            },
            None => Ok(set_prop(ps, at.name@, PropSpec::Flag(true))),
        },
        AttributeLike::SpreadAttribute(sp) => {
            let idx = sp.interpolation.interpolation_index;
            if idx < ctx.values@.len() {
                if converted(sp.interpolation) && structured(ctx.values@[idx as int]) {
                    Err(RenderFail::Backend(conversion_failure(sp.interpolation)))
                } else {
                    match ctx.values@[idx as int] {
                        RuntimeValue::Attributes(es) => spread_props::<E>(ps, es@),
                        _ => Err(RenderFail::Runtime("Spread attributes require a mapping-like value."@)),
                    }
                }
            } else {
                Err(RenderFail::Runtime("Missing runtime value for spread attribute."@))
            }
        },
    }
}

pub open spec fn attrs_props<E>(ps: Seq<(Seq<char>, PropSpec)>, attrs: Seq<AttributeLike>, ctx: RuntimeContext) -> Result<Seq<(Seq<char>, PropSpec)>, RenderFail<E>>
    decreases attrs.len(),
{
    if attrs.len() == 0 {
        Ok(ps)
    } else {
        match attrs_props::<E>(ps, attrs.drop_last(), ctx) {
            Err(f) => Err(f),
            Ok(q) => attr_props::<E>(q, attrs.last(), ctx),
        }
    }
}

pub open spec fn backend_text<E>(r: Result<Seq<char>, Failure>) -> Result<Seq<char>, RenderFail<E>> {
    match r {
        Ok(t) => Ok(t),
        Err(f) => Err(RenderFail::Backend(f)),
    }
}

/// Raw-text content as rendered here: text as it is, and inside `title` (in
/// any case) an interpolation's value escaped as text.
pub open spec fn raw_children_spec<E>(name: Seq<char>, ns: Seq<Node>, ctx: RuntimeContext) -> Result<Seq<char>, RenderFail<E>>
    decreases ns.len(),
{
    if ns.len() == 0 {
        Ok(Seq::empty())
    } else {
        match raw_children_spec::<E>(name, ns.drop_last(), ctx) {
            Err(f) => Err(f),
            Ok(a) => match ns.last() {
                Node::Text(t) => Ok(a + t.value@),
                Node::Interpolation(i) => if ascii_lower_seq(name) == "title"@ {
                    if i.interpolation_index < ctx.values@.len() {
                        if converted(i) && structured(ctx.values@[i.interpolation_index as int]) {
                            Err(RenderFail::Backend(conversion_failure(i)))
                        } else {
                            match child_spec(ctx.values@[i.interpolation_index as int], true) {
                                Err(f) => Err(RenderFail::Backend(f)),
                                Ok(b) => Ok(a + b),
                            }
                        }
                    } else {
                        Err(RenderFail::Runtime(missing_interpolation()))
                    }
                } else {
                    Err(RenderFail::Runtime("Invalid raw-text content in T-HTML render path."@))
                },
                _ => Err(RenderFail::Runtime("Invalid raw-text content in T-HTML render path."@)),
            },
        }
    }
}

/// What the host answered to lookups, in the order they were asked: the name
/// looked up and what the lookup gave.
pub type ResolveLog<H, E> = Seq<(Seq<char>, Result<H, E>)>;

/// What the host answered to calls, in the order they were made: the handle,
/// the call's value and what the call gave.
pub type CallLog<H, E> = Seq<(H, CallSpec, Result<RuntimeValue, E>)>;

/// How many components the nodes hold where the host is asked for them: each
/// component tag with those among its children, and those inside elements and
/// fragments (raw-text content and self-closing elements ask the host
/// nothing).
pub open spec fn components_in(ns: Seq<Node>) -> int
    decreases ns,
{
    if ns.len() == 0 {
        0
    } else {
        components_in(ns.subrange(0, ns.len() - 1)) + match ns[ns.len() - 1] {
            Node::ComponentTag(c) => 1 + components_in(c.children@),
            Node::Element(e) => if e.self_closing { 0 } else { components_in(e.children@) },
            Node::Fragment(f) => components_in(f.children@),
            _ => 0,
        }
    }
}

/// How many components one node holds, as [`components_in`] counts them.
pub open spec fn node_components(n: Node) -> int {
    match n {
        Node::ComponentTag(c) => 1 + components_in(c.children@),
        Node::Element(e) => if e.self_closing { 0 } else { components_in(e.children@) },
        Node::Fragment(f) => components_in(f.children@),
        _ => 0,
    }
}

/// A node as rendered with a host whose answers are the logs: the `rb`-th
/// lookup and the `cb`-th call are the first this node asks for. Text is
/// written as it is, an interpolation by its value, an element with its
/// normalized attributes (a self-closing one as `<name ... />`), and a
/// component by the value its call gives, rendered as a child. A component is
/// looked up first, then its children are evaluated, then its properties are
/// set, and then it is called: each component is looked up once and called
/// once, lookups in the order the components start and calls in the order
/// they end.
pub open spec fn tnode<H, E>(n: Node, ctx: RuntimeContext, rl: ResolveLog<H, E>, cl: CallLog<H, E>, rb: int, cb: int) -> Result<Seq<char>, RenderFail<E>>
    decreases n, 0nat,
{
    match n {
        Node::ComponentTag(c) => if !(0 <= rb < rl.len()) || rl[rb].0 != c.name@ {
            Err(RenderFail::Unanswered)
        } else {
            match rl[rb].1 {
                Err(e) => Err(RenderFail::Host(e)),
                Ok(h) => match child_groups(c.children@, ctx, rl, cl, rb + 1, cb) {
                    Err(f) => Err(f),
                    Ok(gs) => match attrs_props::<E>(seq![("children"@, PropSpec::Children(children_of(gs)))], c.attributes@, ctx) {
                        Err(f) => Err(f),
                        Ok(ps) => {
                            let k = cb + components_in(c.children@);
                            if !(0 <= k < cl.len()) || cl[k].0 != h || cl[k].1 != (CallSpec { name: c.name@, props: ps }) {
                                Err(RenderFail::Unanswered)
                            } else {
                                match cl[k].2 {
                                    Err(e) => Err(RenderFail::Host(e)),
                                    Ok(v) => backend_text(child_spec(v, false)),
                                }
                            }
                        },
                    },
                },
            }
        },
        Node::Element(e) => match attributes_fragment_spec(e.attributes@, ctx) {
            Err(f) => Err(RenderFail::Backend(f)),
            Ok(at) => if e.self_closing {
                Ok("<"@ + e.name@ + at + " />"@)
            } else {
                match tnodes(e.children@, ctx, rl, cl, rb, cb) {
                    Err(f) => Err(f),
                    Ok(body) => Ok("<"@ + e.name@ + at + ">"@ + body + "</"@ + e.name@ + ">"@),
                }
            },
        },
        Node::RawTextElement(r) => match attributes_fragment_spec(r.attributes@, ctx) {
            Err(f) => Err(RenderFail::Backend(f)),
            Ok(at) => match raw_children_spec::<E>(r.name@, r.children@, ctx) {
                Err(f) => Err(f),
                Ok(body) => Ok("<"@ + r.name@ + at + ">"@ + body + "</"@ + r.name@ + ">"@),
            },
        },
        Node::Text(t) => Ok(t.value@),
        Node::Interpolation(i) => if i.interpolation_index < ctx.values@.len() {
            if converted(i) && structured(ctx.values@[i.interpolation_index as int]) {
                Err(RenderFail::Backend(conversion_failure(i)))
            } else {
                backend_text(child_spec(ctx.values@[i.interpolation_index as int], false))
            }
        } else {
            Err(RenderFail::Runtime(missing_interpolation()))
        },
        Node::Comment(c) => Ok("<!--"@ + c.value@ + "-->"@),
        Node::Doctype(d) => Ok("<!"@ + d.value@ + ">"@),
        Node::Fragment(f) => tnodes(f.children@, ctx, rl, cl, rb, cb),
    }
}

/// Nodes rendered in order, each asking the host after those before it.
pub open spec fn tnodes<H, E>(ns: Seq<Node>, ctx: RuntimeContext, rl: ResolveLog<H, E>, cl: CallLog<H, E>, rb: int, cb: int) -> Result<Seq<char>, RenderFail<E>>
    decreases ns, 0nat,
{
    if ns.len() == 0 {
        Ok(Seq::empty())
    } else {
        let p = ns.subrange(0, ns.len() - 1);
        match tnodes(p, ctx, rl, cl, rb, cb) {
            Err(f) => Err(f),
            Ok(a) => match tnode(ns[ns.len() - 1], ctx, rl, cl, rb + components_in(p), cb + components_in(p)) {
                Err(f) => Err(f),
                Ok(b) => Ok(a + b),
            },
        }
    }
}

/// A child of a component as evaluated: a text as its text, an interpolation
/// as its value, a fragment as the fragment of its children, and anything else
/// as the markup it renders to.
pub open spec fn eval_node<H, E>(n: Node, ctx: RuntimeContext, rl: ResolveLog<H, E>, cl: CallLog<H, E>, rb: int, cb: int) -> Result<EvalSpec, RenderFail<E>>
    decreases n, 1nat,
{
    match n {
        Node::Text(t) => Ok(EvalSpec::Text(t.value@)),
        Node::Interpolation(i) => if i.interpolation_index < ctx.values@.len() {
            if converted(i) && structured(ctx.values@[i.interpolation_index as int]) {
                Err(RenderFail::Backend(conversion_failure(i)))
            } else {
                Ok(EvalSpec::Value(ctx.values@[i.interpolation_index as int]))
            }
        } else {
            Err(RenderFail::Runtime(missing_interpolation()))
        },
        Node::Fragment(f) => match eval_nodes(f.children@, ctx, rl, cl, rb, cb) {
            Err(x) => Err(x),
            Ok(es) => Ok(EvalSpec::Fragment(es)),
        },
        _ => match tnode(n, ctx, rl, cl, rb, cb) {
            Err(x) => Err(x),
            Ok(t) => Ok(EvalSpec::Raw(t)),
        },
    }
}

pub open spec fn eval_nodes<H, E>(ns: Seq<Node>, ctx: RuntimeContext, rl: ResolveLog<H, E>, cl: CallLog<H, E>, rb: int, cb: int) -> Result<Seq<EvalSpec>, RenderFail<E>>
    decreases ns, 1nat,
{
    if ns.len() == 0 {
        Ok(Seq::empty())
    } else {
        let p = ns.subrange(0, ns.len() - 1);
        match eval_nodes(p, ctx, rl, cl, rb, cb) {
            Err(x) => Err(x),
            Ok(a) => match eval_node(ns[ns.len() - 1], ctx, rl, cl, rb + components_in(p), cb + components_in(p)) {
                Err(x) => Err(x),
                Ok(b) => Ok(a.push(b)),
            },
        }
    }
}

/// The normalized children of a component, evaluated in order.
pub open spec fn child_groups<H, E>(ns: Seq<Node>, ctx: RuntimeContext, rl: ResolveLog<H, E>, cl: CallLog<H, E>, rb: int, cb: int) -> Result<Seq<GroupSpec>, RenderFail<E>>
    decreases ns, 1nat,
{
    if ns.len() == 0 {
        Ok(Seq::empty())
    } else {
        let p = ns.subrange(0, ns.len() - 1);
        match child_groups(p, ctx, rl, cl, rb, cb) {
            Err(x) => Err(x),
            Ok(a) => match eval_node(ns[ns.len() - 1], ctx, rl, cl, rb + components_in(p), cb + components_in(p)) {
                Err(x) => Err(x),
                Ok(e) => match normalize_eval(e) {
                    Some(g) => Ok(a.push(g)),
                    None => Ok(a),
                },
            },
        }
    }
}

/// A child of a component as evaluated, before normalization.
pub enum Evaluated<'a> {
    Value(&'a RuntimeValue),
    Text(String),
    Raw(String),
    Fragment(Vec<Evaluated<'a>>),
}

pub open spec fn eval_view(e: Evaluated) -> EvalSpec
    decreases e,
{
    match e {
        Evaluated::Value(v) => EvalSpec::Value(*v),
        Evaluated::Text(s) => EvalSpec::Text(s@),
        Evaluated::Raw(s) => EvalSpec::Raw(s@),
        Evaluated::Fragment(es) => EvalSpec::Fragment(evals_view(es@)),
    }
}

pub open spec fn evals_view(es: Seq<Evaluated>) -> Seq<EvalSpec>
    decreases es,
{
    if es.len() == 0 {
        Seq::empty()
    } else {
        evals_view(es.subrange(0, es.len() - 1)).push(eval_view(es[es.len() - 1]))
    }
}

/// The exec error `e` is the failure `f`.
pub open spec fn fails_as<E>(e: HostRenderError<E>, f: RenderFail<E>) -> bool {
    match (e, f) {
        (HostRenderError::Runtime(s), RenderFail::Runtime(m)) => s@ == m,
        (HostRenderError::Backend(b), RenderFail::Backend(x)) => reports(b, x),
        (HostRenderError::Host(a), RenderFail::Host(b)) => a == b,
        _ => false,
    }
}

/// `out` grew by the spec's text, or the error is the spec's failure.
pub open spec fn host_wrote<E>(r: Result<(), HostRenderError<E>>, before: Seq<char>, after: Seq<char>, spec: Result<Seq<char>, RenderFail<E>>) -> bool {
    match spec {
        Ok(t) => r is Ok && after == before + t,
        Err(f) => r matches Err(e) && fails_as(e, f),
    }
}

/// `b` begins with `a`.
pub open spec fn log_prefix<T>(a: Seq<T>, b: Seq<T>) -> bool {
    &&& a.len() <= b.len()
    &&& forall|k: int| #![trigger a[k]] #![trigger b[k]] 0 <= k < a.len() ==> a[k] == b[k]
}

/// `answer` is one the lookup can give for `name`.
pub open spec fn resolves_to<H, E, R: Fn(&str) -> Result<H, E>>(resolve: R, name: Seq<char>, answer: Result<H, E>) -> bool {
    exists|s: &str| #![trigger resolve.ensures((s,), answer)] s@ == name && resolve.ensures((s,), answer)
}

/// Each answer in the log is one the lookup can give for the name asked.
pub open spec fn resolved_by<H, E, R: Fn(&str) -> Result<H, E>>(resolve: R, rl: ResolveLog<H, E>) -> bool {
    forall|k: int| 0 <= k < rl.len() ==> #[trigger] resolves_to(resolve, rl[k].0, rl[k].1)
}

/// `answer` is one the call can give for the handle `h` and the call's value
/// `c`.
pub open spec fn calls_to<'a, H, E, C: Fn(&H, &ComponentCall<'a>) -> Result<RuntimeValue, E>>(
    call: C,
    h: H,
    c: CallSpec,
    answer: Result<RuntimeValue, E>,
) -> bool {
    exists|x: &H, y: &ComponentCall<'a>| #![trigger call.ensures((x, y), answer)] *x == h && call_view(*y) == c && call.ensures((x, y), answer)
}

/// Each answer in the log is one the call can give for the handle and the
/// call's value asked.
pub open spec fn called_by<'a, H, E, C: Fn(&H, &ComponentCall<'a>) -> Result<RuntimeValue, E>>(call: C, cl: CallLog<H, E>) -> bool {
    forall|k: int| 0 <= k < cl.len() ==> #[trigger] calls_to::<'a, H, E, C>(call, cl[k].0, cl[k].1, cl[k].2)
}

/// The logs `rl2` and `cl2` begin with `rl` and `cl` and hold answers the host
/// can give.
pub open spec fn logged<'a, H, E, R: Fn(&str) -> Result<H, E>, C: Fn(&H, &ComponentCall<'a>) -> Result<RuntimeValue, E>>(
    resolve: R,
    call: C,
    rl: ResolveLog<H, E>,
    cl: CallLog<H, E>,
    rl2: ResolveLog<H, E>,
    cl2: CallLog<H, E>,
) -> bool {
    &&& log_prefix(rl, rl2)
    &&& log_prefix(cl, cl2)
    &&& resolved_by(resolve, rl2)
    &&& called_by::<'a, H, E, C>(call, cl2)
}

/// The host can be asked anything.
pub open spec fn host_ready<'a, H, E, R: Fn(&str) -> Result<H, E>, C: Fn(&H, &ComponentCall<'a>) -> Result<RuntimeValue, E>>(resolve: R, call: C) -> bool {
    &&& forall|name: &str| #[trigger] resolve.requires((name,))
    &&& forall|h: &H, c: &ComponentCall<'a>| #[trigger] call.requires((h, c))
}

/// A log stays one of the lookup's answers when an answer it gave is added.
proof fn lemma_resolved_push<H, E, R: Fn(&str) -> Result<H, E>>(resolve: R, rl: ResolveLog<H, E>, s: &str, answer: Result<H, E>)
    requires
        resolved_by(resolve, rl),
        resolve.ensures((s,), answer),
    ensures
        resolved_by(resolve, rl.push((s@, answer))),
{
    let l = rl.push((s@, answer));
    assert(resolves_to(resolve, s@, answer));
    assert forall|k: int| 0 <= k < l.len() implies #[trigger] resolves_to(resolve, l[k].0, l[k].1) by {
        if k < rl.len() {
            assert(l[k] == rl[k]);
        } else {
            assert(l[k] == (s@, answer));
        }
    }
}

/// A log stays one of the call's answers when an answer it gave is added.
proof fn lemma_called_push<'a, H, E, C: Fn(&H, &ComponentCall<'a>) -> Result<RuntimeValue, E>>(
    call: C,
    cl: CallLog<H, E>,
    h: &H,
    c: &ComponentCall<'a>,
    answer: Result<RuntimeValue, E>,
)
    requires
        called_by::<'a, H, E, C>(call, cl),
        call.ensures((h, c), answer),
    ensures
        called_by::<'a, H, E, C>(call, cl.push((*h, call_view(*c), answer))),
{
    let l = cl.push((*h, call_view(*c), answer));
    assert(calls_to::<'a, H, E, C>(call, *h, call_view(*c), answer));
    assert forall|k: int| 0 <= k < l.len() implies #[trigger] calls_to::<'a, H, E, C>(call, l[k].0, l[k].1, l[k].2) by {
        if k < cl.len() {
            assert(l[k] == cl[k]);
        } else {
            assert(l[k] == (*h, call_view(*c), answer));
        }
    }
}

fn runtime_failure<E>(message: &str) -> (r: HostRenderError<E>)
    ensures
        r matches HostRenderError::Runtime(s) && s@ == message@,
{
    HostRenderError::Runtime(message.to_owned())
}

proof fn lemma_set_prop_prefix(ps: Seq<(Seq<char>, PropSpec)>, k: Seq<char>, i: int)
    requires
        0 <= i <= ps.len(),
        prop_index(ps.subrange(0, i), k) is Some,
    ensures
        prop_index(ps, k) == prop_index(ps.subrange(0, i), k),
    decreases ps.len() - i,
{
    if i < ps.len() {
        let p = ps.subrange(0, i + 1);
        assert(p.drop_last() == ps.subrange(0, i));
        lemma_set_prop_prefix(ps, k, i + 1);
    } else {
        assert(ps.subrange(0, i) == ps);
    }
}

proof fn lemma_prop_index_bound(ps: Seq<(Seq<char>, PropSpec)>, k: Seq<char>)
    ensures
        prop_index(ps, k) matches Some(i) ==> 0 <= i < ps.len(),
    decreases ps.len(),
{
    if ps.len() > 0 {
        lemma_prop_index_bound(ps.drop_last(), k);
    }
}

fn set_prop_exec<'a>(props: &mut Vec<(String, Prop<'a>)>, key: String, value: Prop<'a>)
    ensures
        props_view(final(props)@) == set_prop(props_view(old(props)@), key@, prop_view(value)),
{
    let ghost ps = props_view(props@);
    let mut i: usize = 0;
    while i < props.len()
        invariant
            i <= props@.len(),
            ps == props_view(props@),
            props@ == old(props)@,
            prop_index(ps.subrange(0, i as int), key@) is None,
        decreases props.len() - i,
    {
        proof {
            let p = ps.subrange(0, i + 1);
            assert(p.drop_last() == ps.subrange(0, i as int));
            assert(p.last() == ps[i as int]);
        }
        if str_eq(props[i].0.as_str(), key.as_str()) {
            proof {
                assert(prop_index(ps.subrange(0, i + 1), key@) == Some(i as int));
                lemma_set_prop_prefix(ps, key@, i + 1);
            }
            let ghost kv = key@;
            props[i] = (key, value);
            proof {
                assert(props_view(props@) =~= ps.update(i as int, (kv, prop_view(value))));
            }
            return;
        }
        i += 1;
    }
    proof {
        assert(ps.subrange(0, ps.len() as int) == ps);
    }
    let ghost kv = key@;
    props.push((key, value));
    proof {
        assert(props_view(props@) =~= ps.push((kv, prop_view(value))));
    }
}

fn is_noncharacter(c: char) -> (r: bool)
    ensures
        r == noncharacter(c),
{
    let code = c as u32;
    ('\u{fdd0}' <= c && c <= '\u{fdef}') || code % 0x10000 == 0xfffe || code % 0x10000 == 0xffff
}

/// Whether a name is an attribute name as HTML defines it.
pub fn is_valid_attribute_name(name: &str) -> (r: bool)
    ensures
        r == valid_attribute_name(name@),
{
    let chars = chars_of(name);
    if chars.len() == 0 {
        return false;
    }
    let mut i: usize = 0;
    while i < chars.len()
        invariant
            i <= chars@.len(),
            chars@ == name@,
            forall|k: int| 0 <= k < i ==> {
                let c = #[trigger] name@[k];
                !(c <= '\u{1f}' || ('\u{7f}' <= c <= '\u{9f}') || c == ' ' || c == '"' || c == '\'' || c == '>'
                    || c == '/' || c == '=' || noncharacter(c))
            },
        decreases chars.len() - i,
    {
        let c = chars[i];
        if c <= '\u{1f}' || ('\u{7f}' <= c && c <= '\u{9f}') || c == ' ' || c == '"' || c == '\'' || c == '>' || c == '/'
            || c == '=' || is_noncharacter(c) {
            return false;
        }
        i += 1;
    }
    true
}

proof fn lemma_attr_text_prefix_err<E>(parts: Seq<ValuePart>, ctx: RuntimeContext, i: int)
    requires
        0 <= i <= parts.len(),
        attr_text_spec::<E>(parts.subrange(0, i), ctx) is Err,
    ensures
        attr_text_spec::<E>(parts, ctx) == attr_text_spec::<E>(parts.subrange(0, i), ctx),
    decreases parts.len() - i,
{
    if i < parts.len() {
        let p = parts.subrange(0, i + 1);
        assert(p.drop_last() == parts.subrange(0, i));
        lemma_attr_text_prefix_err::<E>(parts, ctx, i + 1);
    } else {
        assert(parts.subrange(0, i) == parts);
    }
}

/// The text a component receives for a quoted attribute value is built part
/// by part, in order: the text of the parts joined together is the text of the
/// first parts followed by the text of the rest.
pub proof fn lemma_component_attribute_text_concatenates<E>(p: Seq<ValuePart>, q: Seq<ValuePart>, ctx: RuntimeContext)
    requires
        attr_text_spec::<E>(p, ctx) is Ok,
        attr_text_spec::<E>(q, ctx) is Ok,
    ensures
        attr_text_spec::<E>(p + q, ctx) == Ok::<Seq<char>, RenderFail<E>>(
            attr_text_spec::<E>(p, ctx)->Ok_0 + attr_text_spec::<E>(q, ctx)->Ok_0,
        ),
    decreases q.len(),
{
    if q.len() == 0 {
        assert(p + q == p);
        assert(attr_text_spec::<E>(p, ctx)->Ok_0 + Seq::<char>::empty() == attr_text_spec::<E>(p, ctx)->Ok_0);
    } else {
        let q0 = q.drop_last();
        assert((p + q).drop_last() == p + q0);
        assert((p + q).last() == q.last());
        lemma_component_attribute_text_concatenates::<E>(p, q0, ctx);
        let a = attr_text_spec::<E>(p, ctx)->Ok_0;
        let b0 = attr_text_spec::<E>(q0, ctx)->Ok_0;
        match q.last() {
            ValuePart::Text(t) => {
                assert(a + b0 + t@ == a + (b0 + t@));
            },
            ValuePart::Interpolation(i) => {
                let t = stringify_spec(ctx.values@[i.interpolation_index as int])->Ok_0;
                assert(a + b0 + t == a + (b0 + t));
            },
        }
    }
}

/// A static text part gives its text as it is.
pub proof fn lemma_component_attribute_text_of_text<E>(t: String, ctx: RuntimeContext)
    ensures
        attr_text_spec::<E>(seq![ValuePart::Text(t)], ctx) == Ok::<Seq<char>, RenderFail<E>>(t@),
{
    let s = seq![ValuePart::Text(t)];
    assert(s.drop_last() == Seq::<ValuePart>::empty());
    assert(s.last() == ValuePart::Text(t));
    assert(attr_text_spec::<E>(s.drop_last(), ctx) == Ok::<Seq<char>, RenderFail<E>>(Seq::empty()));
    assert(Seq::<char>::empty() + t@ == t@);
}

/// An interpolation part gives its value as a string, the way a value is
/// stringified anywhere; a missing value fails.
pub proof fn lemma_component_attribute_text_of_value<E>(i: InterpolationNode, ctx: RuntimeContext)
    ensures
        i.interpolation_index < ctx.values@.len() && !(converted(i) && structured(ctx.values@[i.interpolation_index as int]))
            ==> match stringify_spec(ctx.values@[i.interpolation_index as int]) {
                Ok(t) => attr_text_spec::<E>(seq![ValuePart::Interpolation(i)], ctx) == Ok::<Seq<char>, RenderFail<E>>(t),
                Err(f) => attr_text_spec::<E>(seq![ValuePart::Interpolation(i)], ctx) == Err::<Seq<char>, RenderFail<E>>(RenderFail::Backend(f)),
            },
        i.interpolation_index >= ctx.values@.len() ==> attr_text_spec::<E>(seq![ValuePart::Interpolation(i)], ctx) is Err,
{
    let s = seq![ValuePart::Interpolation(i)];
    assert(s.drop_last() == Seq::<ValuePart>::empty());
    assert(s.last() == ValuePart::Interpolation(i));
    assert(attr_text_spec::<E>(s.drop_last(), ctx) == Ok::<Seq<char>, RenderFail<E>>(Seq::empty()));
    if i.interpolation_index < ctx.values@.len() {
        match stringify_spec(ctx.values@[i.interpolation_index as int]) {
            Ok(t) => {
                assert(Seq::<char>::empty() + t == t);
            },
            Err(f) => {},
        }
    }
}

/// The text of an attribute value handed to a component.
fn render_attribute_value_for_component<E>(value: &AttributeValue, context: &RuntimeContext) -> (r: Result<String, HostRenderError<E>>)
    ensures
        match attr_text_spec::<E>(value.parts@, *context) {
            Ok(t) => r matches Ok(s) && s@ == t,
            Err(f) => r matches Err(e) && fails_as(e, f),
        },
{
    let mut rendered = String::new();
    let mut i: usize = 0;
    while i < value.parts.len()
        invariant
            i <= value.parts@.len(),
            attr_text_spec::<E>(value.parts@.subrange(0, i as int), *context) == Ok::<Seq<char>, RenderFail<E>>(rendered@),
        decreases value.parts.len() - i,
    {
        proof {
            let p = value.parts@.subrange(0, i + 1);
            assert(p.drop_last() == value.parts@.subrange(0, i as int));
            assert(p.last() == value.parts@[i as int]);
        }
        match &value.parts[i] {
            ValuePart::Text(text) => {
                rendered.append(text.as_str());
            },
            ValuePart::Interpolation(interpolation) => {
                if interpolation.interpolation_index < context.values.len() {
                    match check_conversion(interpolation, &context.values[interpolation.interpolation_index]) {
                        Ok(()) => {},
                        Err(e) => {
                            proof {
                                lemma_attr_text_prefix_err::<E>(value.parts@, *context, i + 1);
                            }
                            return Err(HostRenderError::Backend(e));
                        },
                    }
                    match stringify_runtime_value(&context.values[interpolation.interpolation_index]) {
                        Ok(text) => {
                            rendered.append(text.as_str());
                        },
                        Err(e) => {
                            proof {
                                lemma_attr_text_prefix_err::<E>(value.parts@, *context, i + 1);
                            }
                            return Err(HostRenderError::Backend(e));
                        },
                    }
                } else {
                    proof {
                        lemma_attr_text_prefix_err::<E>(value.parts@, *context, i + 1);
                    }
                    return Err(runtime_failure("Missing runtime value for component attribute."));
                }
            },
        }
        i += 1;
    }
    proof {
        assert(value.parts@.subrange(0, value.parts@.len() as int) == value.parts@);
    }
    Ok(rendered)
}

proof fn lemma_spread_props_prefix_err<E>(ps: Seq<(Seq<char>, PropSpec)>, es: Seq<(String, RuntimeValue)>, i: int)
    requires
        0 <= i <= es.len(),
        spread_props::<E>(ps, es.subrange(0, i)) is Err,
    ensures
        spread_props::<E>(ps, es) == spread_props::<E>(ps, es.subrange(0, i)),
    decreases es.len() - i,
{
    if i < es.len() {
        let p = es.subrange(0, i + 1);
        assert(p.drop_last() == es.subrange(0, i));
        lemma_spread_props_prefix_err::<E>(ps, es, i + 1);
    } else {
        assert(es.subrange(0, i) == es);
    }
}

fn set_spread_props<'a, E>(props: &mut Vec<(String, Prop<'a>)>, entries: &'a Vec<(String, RuntimeValue)>) -> (r: Result<(), HostRenderError<E>>)
    ensures
        match spread_props::<E>(props_view(old(props)@), entries@) {
            Ok(ps) => r is Ok && props_view(final(props)@) == ps,
            Err(f) => r matches Err(e) && fails_as(e, f),
        },
{
    let ghost start = props_view(props@);
    let mut j: usize = 0;
    while j < entries.len()
        invariant
            j <= entries@.len(),
            start == props_view(old(props)@),
            spread_props::<E>(start, entries@.subrange(0, j as int)) == Ok::<Seq<(Seq<char>, PropSpec)>, RenderFail<E>>(props_view(props@)),
        decreases entries.len() - j,
    {
        proof {
            let p = entries@.subrange(0, j + 1);
            assert(p.drop_last() == entries@.subrange(0, j as int));
            assert(p.last() == entries@[j as int]);
        }
        let entry = &entries[j];
        if !is_valid_attribute_name(entry.0.as_str()) {
            let quoted = debug_quote(entry.0.as_str());
            let message = concat3("Spread attribute name ", quoted.as_str(), " is not a valid HTML attribute name.");
            proof {
                let p = entries@.subrange(0, j + 1);
                let k = entries@[j as int].0;
                assert(spread_props::<E>(start, p) == Err::<Seq<(Seq<char>, PropSpec)>, RenderFail<E>>(
                    RenderFail::Runtime("Spread attribute name "@ + debug_quoted(k@) + " is not a valid HTML attribute name."@)));
                lemma_spread_props_prefix_err::<E>(start, entries@, j + 1);
            }
            return Err(HostRenderError::Runtime(message));
        }
        set_prop_exec(props, entry.0.clone(), Prop::Value(&entry.1));
        j += 1;
    }
    proof {
        assert(entries@.subrange(0, entries@.len() as int) == entries@);
    }
    Ok(())
}

proof fn lemma_attrs_props_prefix_err<E>(ps: Seq<(Seq<char>, PropSpec)>, attrs: Seq<AttributeLike>, ctx: RuntimeContext, i: int)
    requires
        0 <= i <= attrs.len(),
        attrs_props::<E>(ps, attrs.subrange(0, i), ctx) is Err,
    ensures
        attrs_props::<E>(ps, attrs, ctx) == attrs_props::<E>(ps, attrs.subrange(0, i), ctx),
    decreases attrs.len() - i,
{
    if i < attrs.len() {
        let p = attrs.subrange(0, i + 1);
        assert(p.drop_last() == attrs.subrange(0, i));
        lemma_attrs_props_prefix_err::<E>(ps, attrs, ctx, i + 1);
    } else {
        assert(attrs.subrange(0, i) == attrs);
    }
}

/// Sets the properties of a component's attributes, in order.
fn set_attribute_props<'a, E>(props: &mut Vec<(String, Prop<'a>)>, attributes: &Vec<AttributeLike>, context: &'a RuntimeContext) -> (r: Result<(), HostRenderError<E>>)
    ensures
        match attrs_props::<E>(props_view(old(props)@), attributes@, *context) {
            Ok(ps) => r is Ok && props_view(final(props)@) == ps,
            Err(f) => r matches Err(e) && fails_as(e, f),
        },
{
    let ghost start = props_view(props@);
    let mut i: usize = 0;
    while i < attributes.len()
        invariant
            i <= attributes@.len(),
            start == props_view(old(props)@),
            attrs_props::<E>(start, attributes@.subrange(0, i as int), *context) == Ok::<Seq<(Seq<char>, PropSpec)>, RenderFail<E>>(props_view(props@)),
        decreases attributes.len() - i,
    {
        proof {
            let p = attributes@.subrange(0, i + 1);
            assert(p.drop_last() == attributes@.subrange(0, i as int));
            assert(p.last() == attributes@[i as int]);
        }
        match &attributes[i] {
            AttributeLike::Attribute(attribute) => {
                match &attribute.value {
                    Some(value) => {
                        match render_attribute_value_for_component::<E>(value, context) {
                            Ok(text) => {
                                set_prop_exec(props, attribute.name.clone(), Prop::Text(text));
                            },
                            Err(e) => {
                                proof {
                                    lemma_attrs_props_prefix_err::<E>(start, attributes@, *context, i + 1);
                                }
                                return Err(e);
                            },
                        }
                    },
                    None => {
                        set_prop_exec(props, attribute.name.clone(), Prop::Flag(true));
                    },
                }
            },
            AttributeLike::SpreadAttribute(attribute) => {
                let index = attribute.interpolation.interpolation_index;
                if index < context.values.len() {
                    match check_conversion(&attribute.interpolation, &context.values[index]) {
                        Ok(()) => {},
                        Err(e) => {
                            proof {
                                lemma_attrs_props_prefix_err::<E>(start, attributes@, *context, i + 1);
                            }
                            return Err(HostRenderError::Backend(e));
                        },
                    }
                    match &context.values[index] {
                        RuntimeValue::Attributes(entries) => {
                            match set_spread_props::<E>(props, entries) {
                                Ok(()) => {},
                                Err(e) => {
                                    proof {
                                        lemma_attrs_props_prefix_err::<E>(start, attributes@, *context, i + 1);
                                    }
                                    return Err(e);
                                },
                            }
                        },
                        _ => {
                            proof {
                                lemma_attrs_props_prefix_err::<E>(start, attributes@, *context, i + 1);
                            }
                            return Err(runtime_failure("Spread attributes require a mapping-like value."));
                        },
                    }
                } else {
                    proof {
                        lemma_attrs_props_prefix_err::<E>(start, attributes@, *context, i + 1);
                    }
                    return Err(runtime_failure("Missing runtime value for spread attribute."));
                }
            },
        }
        i += 1;
    }
    proof {
        assert(attributes@.subrange(0, attributes@.len() as int) == attributes@);
    }
    Ok(())
}

fn flatten_evals<'a>(es: &Vec<Evaluated<'a>>, items: &mut Vec<Item<'a>>)
    ensures
        items_view(final(items)@) == items_view(old(items)@) + flat_evals(evals_view(es@)),
    decreases es, 0nat,
{
    let mut i: usize = 0;
    proof {
        assert(es@.subrange(0, 0) == Seq::<Evaluated>::empty());
        assert(items_view(items@) + flat_evals(Seq::<EvalSpec>::empty()) =~= items_view(items@));
    }
    while i < es.len()
        invariant
            i <= es@.len(),
            items_view(items@) == items_view(old(items)@) + flat_evals(evals_view(es@.subrange(0, i as int))),
        decreases es.len() - i,
    {
        proof {
            let p = es@.subrange(0, i + 1);
            assert(p.subrange(0, p.len() - 1) == es@.subrange(0, i as int));
            assert(p[p.len() - 1] == es@[i as int]);
            let vp = evals_view(p);
            assert(vp.subrange(0, vp.len() - 1) == evals_view(es@.subrange(0, i as int)));
            assert(decreases_to!(*es => es@));
            assert(decreases_to!(es@ => es@[i as int]));
        }
        flatten_eval(&es[i], items);
        proof {
            let p = es@.subrange(0, i + 1);
            assert(items_view(items@) =~= items_view(old(items)@) + flat_evals(evals_view(p)));
        }
        i += 1;
    }
    proof {
        assert(es@.subrange(0, es@.len() as int) == es@);
    }
}

fn flatten_eval<'a>(e: &Evaluated<'a>, items: &mut Vec<Item<'a>>)
    ensures
        items_view(final(items)@) == items_view(old(items)@) + flat_eval(eval_view(*e)),
    decreases e, 0nat,
{
    match e {
        Evaluated::Value(v) => {
            let v: &'a RuntimeValue = *v;
            flatten_value(v, items);
        },
        Evaluated::Text(s) => {
            push_item(items, Item::Text(s.clone()));
            proof {
                assert(items_view(items@) =~= items_view(old(items)@) + seq![ItemSpec::Text(s@)]);
            }
        },
        Evaluated::Raw(s) => {
            push_item(items, Item::Raw(s.clone()));
            proof {
                assert(items_view(items@) =~= items_view(old(items)@) + seq![ItemSpec::Raw(s@)]);
            }
        },
        Evaluated::Fragment(es) => {
            proof {
                assert(decreases_to!(*e => (*e)->Fragment_0));
            }
            flatten_evals(es, items);
        },
    }
}

/// Normalizes an evaluated child, as [`normalize_eval`].
fn normalize_component_child<'a>(e: &Evaluated<'a>) -> (r: Option<ChildGroup<'a>>)
    ensures
        match r {
            Some(g) => normalize_eval(eval_view(*e)) == Some(group_view(g)),
            None => normalize_eval(eval_view(*e)) is None,
        },
{
    match e {
        Evaluated::Value(v) => {
            let v: &'a RuntimeValue = *v;
            match v {
                RuntimeValue::Null => None,
                RuntimeValue::Sequence(ws) => {
                    let mut items: Vec<Item<'a>> = Vec::new();
                    proof {
                        assert(items_view(items@) =~= Seq::<ItemSpec>::empty());
                    }
                    flatten_values(ws, &mut items);
                    proof {
                        assert(items_view(items@) =~= flat_values(ws@));
                    }
                    Some(ChildGroup::List(items))
                },
                RuntimeValue::Fragment(ws) => {
                    let mut items: Vec<Item<'a>> = Vec::new();
                    proof {
                        assert(items_view(items@) =~= Seq::<ItemSpec>::empty());
                    }
                    flatten_values(ws, &mut items);
                    proof {
                        assert(items_view(items@) =~= flat_values(ws@));
                    }
                    Some(ChildGroup::Fragment(items))
                },
                _ => Some(ChildGroup::Plain(Item::Value(v))),
            }
        },
        Evaluated::Text(s) => Some(ChildGroup::Plain(Item::Text(s.clone()))),
        Evaluated::Raw(s) => Some(ChildGroup::Plain(Item::Raw(s.clone()))),
        Evaluated::Fragment(es) => {
            let mut items: Vec<Item<'a>> = Vec::new();
            proof {
                assert(items_view(items@) =~= Seq::<ItemSpec>::empty());
            }
            flatten_evals(es, &mut items);
            proof {
                assert(items_view(items@) =~= flat_evals(evals_view(es@)));
            }
            Some(ChildGroup::Fragment(items))
        },
    }
}

/// The evaluation result `r` is the spec's value or failure.
pub open spec fn evaluated_as<'a, E>(r: Result<Evaluated<'a>, HostRenderError<E>>, spec: Result<EvalSpec, RenderFail<E>>) -> bool {
    match spec {
        Ok(v) => r matches Ok(x) && eval_view(x) == v,
        Err(f) => r matches Err(e) && fails_as(e, f),
    }
}

proof fn lemma_eval_nodes_prefix_err<H, E>(
    ns: Seq<Node>,
    ctx: RuntimeContext,
    rl: ResolveLog<H, E>,
    cl: CallLog<H, E>,
    rb: int,
    cb: int,
    i: int,
)
    requires
        0 <= i <= ns.len(),
        eval_nodes(ns.subrange(0, i), ctx, rl, cl, rb, cb) is Err,
    ensures
        eval_nodes(ns, ctx, rl, cl, rb, cb) == eval_nodes(ns.subrange(0, i), ctx, rl, cl, rb, cb),
    decreases ns.len() - i,
{
    if i < ns.len() {
        let p = ns.subrange(0, i + 1);
        assert(p.subrange(0, p.len() - 1) == ns.subrange(0, i));
        lemma_eval_nodes_prefix_err(ns, ctx, rl, cl, rb, cb, i + 1);
    } else {
        assert(ns.subrange(0, i) == ns);
    }
}

proof fn lemma_child_groups_prefix_err<H, E>(
    ns: Seq<Node>,
    ctx: RuntimeContext,
    rl: ResolveLog<H, E>,
    cl: CallLog<H, E>,
    rb: int,
    cb: int,
    i: int,
)
    requires
        0 <= i <= ns.len(),
        child_groups(ns.subrange(0, i), ctx, rl, cl, rb, cb) is Err,
    ensures
        child_groups(ns, ctx, rl, cl, rb, cb) == child_groups(ns.subrange(0, i), ctx, rl, cl, rb, cb),
    decreases ns.len() - i,
{
    if i < ns.len() {
        let p = ns.subrange(0, i + 1);
        assert(p.subrange(0, p.len() - 1) == ns.subrange(0, i));
        lemma_child_groups_prefix_err(ns, ctx, rl, cl, rb, cb, i + 1);
    } else {
        assert(ns.subrange(0, i) == ns);
    }
}

proof fn lemma_tnodes_prefix_err<H, E>(
    ns: Seq<Node>,
    ctx: RuntimeContext,
    rl: ResolveLog<H, E>,
    cl: CallLog<H, E>,
    rb: int,
    cb: int,
    i: int,
)
    requires
        0 <= i <= ns.len(),
        tnodes(ns.subrange(0, i), ctx, rl, cl, rb, cb) is Err,
    ensures
        tnodes(ns, ctx, rl, cl, rb, cb) == tnodes(ns.subrange(0, i), ctx, rl, cl, rb, cb),
    decreases ns.len() - i,
{
    if i < ns.len() {
        let p = ns.subrange(0, i + 1);
        assert(p.subrange(0, p.len() - 1) == ns.subrange(0, i));
        lemma_tnodes_prefix_err(ns, ctx, rl, cl, rb, cb, i + 1);
    } else {
        assert(ns.subrange(0, i) == ns);
    }
}

proof fn lemma_raw_children_prefix_err<E>(name: Seq<char>, ns: Seq<Node>, ctx: RuntimeContext, i: int)
    requires
        0 <= i <= ns.len(),
        raw_children_spec::<E>(name, ns.subrange(0, i), ctx) is Err,
    ensures
        raw_children_spec::<E>(name, ns, ctx) == raw_children_spec::<E>(name, ns.subrange(0, i), ctx),
    decreases ns.len() - i,
{
    if i < ns.len() {
        let p = ns.subrange(0, i + 1);
        assert(p.drop_last() == ns.subrange(0, i));
        lemma_raw_children_prefix_err::<E>(name, ns, ctx, i + 1);
    } else {
        assert(ns.subrange(0, i) == ns);
    }
}

/// Renders the content of a raw-text element, as [`raw_children_spec`].
fn render_raw_text_children<E>(element: &RawTextElementNode, context: &RuntimeContext, out: &mut String) -> (r: Result<(), HostRenderError<E>>)
    ensures
        host_wrote(r, old(out)@, final(out)@, raw_children_spec::<E>(element.name@, element.children@, *context)),
{
    let is_title = eq_ignore_ascii_case(element.name.as_str(), "title");
    proof {
        reveal_strlit("title");
        assert(ascii_lower_seq("title"@) =~= "title"@);
    }
    let ghost start = out@;
    let mut i: usize = 0;
    while i < element.children.len()
        invariant
            i <= element.children@.len(),
            is_title == (ascii_lower_seq(element.name@) == "title"@),
            raw_children_spec::<E>(element.name@, element.children@.subrange(0, i as int), *context) matches Ok(t)
                && out@ == start + t,
        decreases element.children.len() - i,
    {
        proof {
            let p = element.children@.subrange(0, i + 1);
            assert(p.drop_last() == element.children@.subrange(0, i as int));
            assert(p.last() == element.children@[i as int]);
        }
        let ghost before = out@;
        match &element.children[i] {
            Node::Text(text) => {
                out.append(text.value.as_str());
                proof {
                    let t = raw_children_spec::<E>(element.name@, element.children@.subrange(0, i as int), *context)->Ok_0;
                    assert(out@ =~= start + (t + text.value@));
                }
            },
            Node::Interpolation(interpolation) => {
                if !is_title {
                    proof {
                        lemma_raw_children_prefix_err::<E>(element.name@, element.children@, *context, i + 1);
                    }
                    return Err(runtime_failure("Invalid raw-text content in T-HTML render path."));
                }
                if interpolation.interpolation_index >= context.values.len() {
                    proof {
                        lemma_raw_children_prefix_err::<E>(element.name@, element.children@, *context, i + 1);
                    }
                    return Err(runtime_failure("Missing runtime value for interpolation."));
                }
                match check_conversion(interpolation, &context.values[interpolation.interpolation_index]) {
                    Ok(()) => {},
                    Err(e) => {
                        proof {
                            lemma_raw_children_prefix_err::<E>(element.name@, element.children@, *context, i + 1);
                        }
                        return Err(HostRenderError::Backend(e));
                    },
                }
                match render_escaped_text_value(&context.values[interpolation.interpolation_index], out) {
                    Ok(()) => {
                        proof {
                            let t = raw_children_spec::<E>(element.name@, element.children@.subrange(0, i as int), *context)->Ok_0;
                            let u = child_spec(context.values@[interpolation.interpolation_index as int], true)->Ok_0;
                            assert(out@ =~= start + (t + u));
                        }
                    },
                    Err(e) => {
                        proof {
                            lemma_raw_children_prefix_err::<E>(element.name@, element.children@, *context, i + 1);
                        }
                        return Err(HostRenderError::Backend(e));
                    },
                }
            },
            _ => {
                proof {
                    lemma_raw_children_prefix_err::<E>(element.name@, element.children@, *context, i + 1);
                }
                return Err(runtime_failure("Invalid raw-text content in T-HTML render path."));
            },
        }
        i += 1;
    }
    proof {
        assert(element.children@.subrange(0, element.children@.len() as int) == element.children@);
    }
    Ok(())
}

/// The node holds no component tag, at any depth: rendering it asks the host
/// nothing.
pub open spec fn free_of_components(n: Node) -> bool {
    match n {
        Node::ComponentTag(_) => false,
        Node::Element(e) => !has_component(e.children@),
        Node::RawTextElement(r) => !has_component(r.children@),
        Node::Fragment(f) => !has_component(f.children@),
        _ => true,
    }
}

/// Each node of a sequence without component tags is free of them.
pub proof fn lemma_free_child(ns: Seq<Node>, i: int)
    requires
        !has_component(ns),
        0 <= i < ns.len(),
    ensures
        free_of_components(ns[i]),
{
    let p = ns.subrange(0, i + 1);
    if has_component(p) {
        lemma_has_component_prefix(ns, i + 1);
    }
    assert(p.subrange(0, p.len() - 1) == ns.subrange(0, i));
    assert(p[p.len() - 1] == ns[i]);
}

/// Evaluates a child of a component, as [`eval_node`], with the host's answers
/// logged after `rl` and `cl`.
fn evaluate_thtml_child_value<'a, H, E, R, C>(
    node: &Node,
    context: &'a RuntimeContext,
    resolve: &R,
    call: &C,
    Ghost(rl): Ghost<ResolveLog<H, E>>,
    Ghost(cl): Ghost<CallLog<H, E>>,
) -> (res: (Result<Evaluated<'a>, HostRenderError<E>>, Ghost<ResolveLog<H, E>>, Ghost<CallLog<H, E>>))
    where
        R: Fn(&str) -> Result<H, E>,
        C: Fn(&H, &ComponentCall<'a>) -> Result<RuntimeValue, E>,
    requires
        host_ready::<'a, H, E, R, C>(*resolve, *call),
        resolved_by(*resolve, rl),
        called_by::<'a, H, E, C>(*call, cl),
    ensures
        logged::<'a, H, E, R, C>(*resolve, *call, rl, cl, res.1@, res.2@),
        res.0 is Ok ==> res.1@.len() == rl.len() + node_components(*node) && res.2@.len() == cl.len() + node_components(*node),
        free_of_components(*node) ==> res.1@ == rl && res.2@ == cl,
        forall|rs: ResolveLog<H, E>, cs: CallLog<H, E>|
            #![trigger eval_node(*node, *context, rs, cs, rl.len() as int, cl.len() as int)]
            log_prefix(res.1@, rs) && log_prefix(res.2@, cs)
                ==> evaluated_as(res.0, eval_node(*node, *context, rs, cs, rl.len() as int, cl.len() as int)),
    decreases node, 2nat,
{
    match node {
        Node::Text(text) => (Ok(Evaluated::Text(text.value.clone())), Ghost(rl), Ghost(cl)),
        Node::Interpolation(interpolation) => {
            if interpolation.interpolation_index < context.values.len() {
                match check_conversion(interpolation, &context.values[interpolation.interpolation_index]) {
                    Ok(()) => {},
                    Err(e) => {
                        return (Err(HostRenderError::Backend(e)), Ghost(rl), Ghost(cl));
                    },
                }
                (Ok(Evaluated::Value(&context.values[interpolation.interpolation_index])), Ghost(rl), Ghost(cl))
            } else {
                (Err(runtime_failure("Missing runtime value for interpolation.")), Ghost(rl), Ghost(cl))
            }
        },
        Node::Fragment(fragment) => {
            proof {
                assert(decreases_to!(*node => (*node)->Fragment_0));
            }
            let (gathered, Ghost(rl2), Ghost(cl2)) = evaluate_children(&fragment.children, context, resolve, call, Ghost(rl), Ghost(cl));
            proof {
                assert forall|rs: ResolveLog<H, E>, cs: CallLog<H, E>|
                    #![trigger eval_nodes(fragment.children@, *context, rs, cs, rl.len() as int, cl.len() as int)]
                    #![trigger eval_node(*node, *context, rs, cs, rl.len() as int, cl.len() as int)]
                    log_prefix(rl2, rs) && log_prefix(cl2, cs)
                    implies (match eval_nodes(fragment.children@, *context, rs, cs, rl.len() as int, cl.len() as int) {
                        Ok(es) => gathered matches Ok(v) && evals_view(v@) == es,
                        Err(f) => gathered matches Err(e) && fails_as(e, f),
                    }) by {
                }
            }
            match gathered {
                Ok(values) => (Ok(Evaluated::Fragment(values)), Ghost(rl2), Ghost(cl2)),
                Err(e) => (Err(e), Ghost(rl2), Ghost(cl2)),
            }
        },
        _ => {
            let mut out = String::new();
            let (rendered, Ghost(rl2), Ghost(cl2)) = render_node_logged(node, context, resolve, call, &mut out, Ghost(rl), Ghost(cl));
            proof {
                assert forall|rs: ResolveLog<H, E>, cs: CallLog<H, E>|
                    #![trigger tnode(*node, *context, rs, cs, rl.len() as int, cl.len() as int)]
                    #![trigger eval_node(*node, *context, rs, cs, rl.len() as int, cl.len() as int)]
                    log_prefix(rl2, rs) && log_prefix(cl2, cs)
                    implies (match tnode(*node, *context, rs, cs, rl.len() as int, cl.len() as int) {
                        Ok(t) => rendered is Ok && out@ == t,
                        Err(f) => rendered matches Err(e) && fails_as(e, f),
                    }) by {
                    let spec = tnode(*node, *context, rs, cs, rl.len() as int, cl.len() as int);
                    assert(host_wrote(rendered, Seq::<char>::empty(), out@, spec));
                    if spec is Ok {
                        assert(Seq::<char>::empty() + spec->Ok_0 == spec->Ok_0);
                    }
                }
            }
            match rendered {
                Ok(()) => (Ok(Evaluated::Raw(out)), Ghost(rl2), Ghost(cl2)),
                Err(e) => (Err(e), Ghost(rl2), Ghost(cl2)),
            }
        },
    }
}

fn evaluate_children<'a, H, E, R, C>(
    children: &Vec<Node>,
    context: &'a RuntimeContext,
    resolve: &R,
    call: &C,
    Ghost(rl): Ghost<ResolveLog<H, E>>,
    Ghost(cl): Ghost<CallLog<H, E>>,
) -> (res: (Result<Vec<Evaluated<'a>>, HostRenderError<E>>, Ghost<ResolveLog<H, E>>, Ghost<CallLog<H, E>>))
    where
        R: Fn(&str) -> Result<H, E>,
        C: Fn(&H, &ComponentCall<'a>) -> Result<RuntimeValue, E>,
    requires
        host_ready::<'a, H, E, R, C>(*resolve, *call),
        resolved_by(*resolve, rl),
        called_by::<'a, H, E, C>(*call, cl),
    ensures
        logged::<'a, H, E, R, C>(*resolve, *call, rl, cl, res.1@, res.2@),
        res.0 is Ok ==> res.1@.len() == rl.len() + components_in(children@) && res.2@.len() == cl.len() + components_in(children@),
        !has_component(children@) ==> res.1@ == rl && res.2@ == cl,
        forall|rs: ResolveLog<H, E>, cs: CallLog<H, E>|
            #![trigger eval_nodes(children@, *context, rs, cs, rl.len() as int, cl.len() as int)]
            log_prefix(res.1@, rs) && log_prefix(res.2@, cs) ==> match eval_nodes(children@, *context, rs, cs, rl.len() as int, cl.len() as int) {
                Ok(es) => res.0 matches Ok(v) && evals_view(v@) == es,
                Err(f) => res.0 matches Err(e) && fails_as(e, f),
            },
    decreases children, 1nat,
{
    let mut values: Vec<Evaluated<'a>> = Vec::new();
    let mut i: usize = 0;
    let ghost mut rc = rl;
    let ghost mut cc = cl;
    proof {
        assert(children@.subrange(0, 0) == Seq::<Node>::empty());
        assert(evals_view(values@) == Seq::<EvalSpec>::empty());
    }
    while i < children.len()
        invariant
            i <= children@.len(),
            host_ready::<'a, H, E, R, C>(*resolve, *call),
            logged::<'a, H, E, R, C>(*resolve, *call, rl, cl, rc, cc),
            rc.len() == rl.len() + components_in(children@.subrange(0, i as int)),
            cc.len() == cl.len() + components_in(children@.subrange(0, i as int)),
            !has_component(children@) ==> rc == rl && cc == cl,
            forall|rs: ResolveLog<H, E>, cs: CallLog<H, E>|
                #![trigger eval_nodes(children@.subrange(0, i as int), *context, rs, cs, rl.len() as int, cl.len() as int)]
                log_prefix(rc, rs) && log_prefix(cc, cs)
                    ==> eval_nodes(children@.subrange(0, i as int), *context, rs, cs, rl.len() as int, cl.len() as int)
                        == Ok::<Seq<EvalSpec>, RenderFail<E>>(evals_view(values@)),
        decreases children.len() - i,
    {
        proof {
            assert(decreases_to!(*children => children@));
            assert(decreases_to!(children@ => children@[i as int]));
            if !has_component(children@) {
                lemma_free_child(children@, i as int);
            }
        }
        let (step, Ghost(rn), Ghost(cn)) = evaluate_thtml_child_value(&children[i], context, resolve, call, Ghost(rc), Ghost(cc));
        let ghost p = children@.subrange(0, i + 1);
        proof {
            assert(p.subrange(0, p.len() - 1) == children@.subrange(0, i as int));
            assert(p[p.len() - 1] == children@[i as int]);
        }
        match step {
            Ok(value) => {
                let ghost before = values@;
                values.push(value);
                proof {
                    assert(values@.subrange(0, values@.len() - 1) == before);
                    assert forall|rs: ResolveLog<H, E>, cs: CallLog<H, E>|
                        #![trigger eval_nodes(p, *context, rs, cs, rl.len() as int, cl.len() as int)]
                        log_prefix(rn, rs) && log_prefix(cn, cs)
                        implies eval_nodes(p, *context, rs, cs, rl.len() as int, cl.len() as int)
                            == Ok::<Seq<EvalSpec>, RenderFail<E>>(evals_view(values@)) by {
                        assert(log_prefix(rc, rs));
                        assert(log_prefix(cc, cs));
                        assert(eval_nodes(children@.subrange(0, i as int), *context, rs, cs, rl.len() as int, cl.len() as int)
                            == Ok::<Seq<EvalSpec>, RenderFail<E>>(evals_view(before)));
                        assert(evaluated_as(
                            Ok::<Evaluated<'a>, HostRenderError<E>>(value),
                            eval_node(children@[i as int], *context, rs, cs, rc.len() as int, cc.len() as int),
                        ));
                    }
                    rc = rn;
                    cc = cn;
                }
            },
            Err(e) => {
                proof {
                    assert forall|rs: ResolveLog<H, E>, cs: CallLog<H, E>|
                        #![trigger eval_nodes(children@, *context, rs, cs, rl.len() as int, cl.len() as int)]
                        log_prefix(rn, rs) && log_prefix(cn, cs)
                        implies (match eval_nodes(children@, *context, rs, cs, rl.len() as int, cl.len() as int) {
                            Ok(es) => false,
                            Err(f) => fails_as(e, f),
                        }) by {
                        assert(log_prefix(rc, rs));
                        assert(log_prefix(cc, cs));
                        assert(eval_nodes(children@.subrange(0, i as int), *context, rs, cs, rl.len() as int, cl.len() as int)
                            == Ok::<Seq<EvalSpec>, RenderFail<E>>(evals_view(values@)));
                        assert(evaluated_as(
                            Err::<Evaluated<'a>, HostRenderError<E>>(e),
                            eval_node(children@[i as int], *context, rs, cs, rc.len() as int, cc.len() as int),
                        ));
                        lemma_eval_nodes_prefix_err(children@, *context, rs, cs, rl.len() as int, cl.len() as int, i + 1);
                    }
                }
                return (Err(e), Ghost(rn), Ghost(cn));
            },
        }
        i += 1;
    }
    proof {
        assert(children@.subrange(0, children@.len() as int) == children@);
    }
    (Ok(values), Ghost(rc), Ghost(cc))
}

/// The children a component receives, evaluated and normalized in order.
fn normalized_children_value<'a, H, E, R, C>(
    children: &Vec<Node>,
    context: &'a RuntimeContext,
    resolve: &R,
    call: &C,
    Ghost(rl): Ghost<ResolveLog<H, E>>,
    Ghost(cl): Ghost<CallLog<H, E>>,
) -> (res: (Result<Children<'a>, HostRenderError<E>>, Ghost<ResolveLog<H, E>>, Ghost<CallLog<H, E>>))
    where
        R: Fn(&str) -> Result<H, E>,
        C: Fn(&H, &ComponentCall<'a>) -> Result<RuntimeValue, E>,
    requires
        host_ready::<'a, H, E, R, C>(*resolve, *call),
        resolved_by(*resolve, rl),
        called_by::<'a, H, E, C>(*call, cl),
    ensures
        logged::<'a, H, E, R, C>(*resolve, *call, rl, cl, res.1@, res.2@),
        res.0 is Ok ==> res.1@.len() == rl.len() + components_in(children@) && res.2@.len() == cl.len() + components_in(children@),
        forall|rs: ResolveLog<H, E>, cs: CallLog<H, E>|
            #![trigger child_groups(children@, *context, rs, cs, rl.len() as int, cl.len() as int)]
            log_prefix(res.1@, rs) && log_prefix(res.2@, cs) ==> match child_groups(children@, *context, rs, cs, rl.len() as int, cl.len() as int) {
                Ok(gs) => res.0 matches Ok(c) && children_view(c) == children_of(gs),
                Err(f) => res.0 matches Err(e) && fails_as(e, f),
            },
    decreases children, 1nat,
{
    let mut groups: Vec<ChildGroup<'a>> = Vec::new();
    let mut i: usize = 0;
    let ghost mut rc = rl;
    let ghost mut cc = cl;
    proof {
        assert(children@.subrange(0, 0) == Seq::<Node>::empty());
        assert(groups_view(groups@) =~= Seq::<GroupSpec>::empty());
    }
    while i < children.len()
        invariant
            i <= children@.len(),
            host_ready::<'a, H, E, R, C>(*resolve, *call),
            logged::<'a, H, E, R, C>(*resolve, *call, rl, cl, rc, cc),
            rc.len() == rl.len() + components_in(children@.subrange(0, i as int)),
            cc.len() == cl.len() + components_in(children@.subrange(0, i as int)),
            forall|rs: ResolveLog<H, E>, cs: CallLog<H, E>|
                #![trigger child_groups(children@.subrange(0, i as int), *context, rs, cs, rl.len() as int, cl.len() as int)]
                log_prefix(rc, rs) && log_prefix(cc, cs)
                    ==> child_groups(children@.subrange(0, i as int), *context, rs, cs, rl.len() as int, cl.len() as int)
                        == Ok::<Seq<GroupSpec>, RenderFail<E>>(groups_view(groups@)),
        decreases children.len() - i,
    {
        proof {
            assert(decreases_to!(*children => children@));
            assert(decreases_to!(children@ => children@[i as int]));
        }
        let (step, Ghost(rn), Ghost(cn)) = evaluate_thtml_child_value(&children[i], context, resolve, call, Ghost(rc), Ghost(cc));
        let ghost p = children@.subrange(0, i + 1);
        proof {
            assert(p.subrange(0, p.len() - 1) == children@.subrange(0, i as int));
            assert(p[p.len() - 1] == children@[i as int]);
        }
        match step {
            Ok(value) => {
                let ghost before = groups@;
                let normalized = normalize_component_child(&value);
                match normalized {
                    Some(group) => {
                        groups.push(group);
                        proof {
                            assert(groups_view(groups@) =~= groups_view(before).push(group_view(group)));
                        }
                    },
                    None => {},
                }
                proof {
                    assert forall|rs: ResolveLog<H, E>, cs: CallLog<H, E>|
                        #![trigger child_groups(p, *context, rs, cs, rl.len() as int, cl.len() as int)]
                        log_prefix(rn, rs) && log_prefix(cn, cs)
                        implies child_groups(p, *context, rs, cs, rl.len() as int, cl.len() as int)
                            == Ok::<Seq<GroupSpec>, RenderFail<E>>(groups_view(groups@)) by {
                        assert(log_prefix(rc, rs));
                        assert(log_prefix(cc, cs));
                        assert(child_groups(children@.subrange(0, i as int), *context, rs, cs, rl.len() as int, cl.len() as int)
                            == Ok::<Seq<GroupSpec>, RenderFail<E>>(groups_view(before)));
                        assert(evaluated_as(
                            Ok::<Evaluated<'a>, HostRenderError<E>>(value),
                            eval_node(children@[i as int], *context, rs, cs, rc.len() as int, cc.len() as int),
                        ));
                    }
                    rc = rn;
                    cc = cn;
                }
            },
            Err(e) => {
                proof {
                    assert forall|rs: ResolveLog<H, E>, cs: CallLog<H, E>|
                        #![trigger child_groups(children@, *context, rs, cs, rl.len() as int, cl.len() as int)]
                        log_prefix(rn, rs) && log_prefix(cn, cs)
                        implies (match child_groups(children@, *context, rs, cs, rl.len() as int, cl.len() as int) {
                            Ok(gs) => false,
                            Err(f) => fails_as(e, f),
                        }) by {
                        assert(log_prefix(rc, rs));
                        assert(log_prefix(cc, cs));
                        assert(child_groups(children@.subrange(0, i as int), *context, rs, cs, rl.len() as int, cl.len() as int)
                            == Ok::<Seq<GroupSpec>, RenderFail<E>>(groups_view(groups@)));
                        assert(evaluated_as(
                            Err::<Evaluated<'a>, HostRenderError<E>>(e),
                            eval_node(children@[i as int], *context, rs, cs, rc.len() as int, cc.len() as int),
                        ));
                        lemma_child_groups_prefix_err(children@, *context, rs, cs, rl.len() as int, cl.len() as int, i + 1);
                    }
                }
                return (Err(e), Ghost(rn), Ghost(cn));
            },
        }
        i += 1;
    }
    proof {
        assert(children@.subrange(0, children@.len() as int) == children@);
    }
    let ghost all = groups_view(groups@);
    if groups.len() == 0 {
        (Ok(Children::Nothing), Ghost(rc), Ghost(cc))
    } else if groups.len() == 1 {
        let group = groups.pop().unwrap();
        proof {
            assert(all[0] == group_view(group));
        }
        (Ok(Children::Single(group)), Ghost(rc), Ghost(cc))
    } else {
        (Ok(Children::Several(groups)), Ghost(rc), Ghost(cc))
    }
}

/// Renders a component with the host into `out`, as [`tnode`]: it is looked up,
/// its children are evaluated, its properties are set, and it is called.
#[verifier::spinoff_prover]
#[verifier::rlimit(40)]
fn render_component_logged<'a, H, E, R, C>(
    node: &Node,
    component: &ComponentTagNode,
    context: &'a RuntimeContext,
    resolve: &R,
    call: &C,
    out: &mut String,
    Ghost(rl): Ghost<ResolveLog<H, E>>,
    Ghost(cl): Ghost<CallLog<H, E>>,
) -> (res: (Result<(), HostRenderError<E>>, Ghost<ResolveLog<H, E>>, Ghost<CallLog<H, E>>))
    where
        R: Fn(&str) -> Result<H, E>,
        C: Fn(&H, &ComponentCall<'a>) -> Result<RuntimeValue, E>,
    requires
        *node == Node::ComponentTag(*component),
        host_ready::<'a, H, E, R, C>(*resolve, *call),
        resolved_by(*resolve, rl),
        called_by::<'a, H, E, C>(*call, cl),
    ensures
        logged::<'a, H, E, R, C>(*resolve, *call, rl, cl, res.1@, res.2@),
        res.0 is Ok ==> res.1@.len() == rl.len() + node_components(*node) && res.2@.len() == cl.len() + node_components(*node),
        forall|rs: ResolveLog<H, E>, cs: CallLog<H, E>|
            #![trigger tnode(*node, *context, rs, cs, rl.len() as int, cl.len() as int)]
            log_prefix(res.1@, rs) && log_prefix(res.2@, cs)
                ==> host_wrote(res.0, old(out)@, final(out)@, tnode(*node, *context, rs, cs, rl.len() as int, cl.len() as int)),
    decreases node, 0nat,
{
    let ghost start = out@;
    let ghost rb = rl.len() as int;
    let ghost cb = cl.len() as int;
        proof {
            assert(decreases_to!(*node => (*node)->ComponentTag_0));
        }
        let name_text: &str = component.name.as_str();
        let resolved = resolve(name_text);
        let ghost rl1 = rl.push((component.name@, resolved));
        proof {
            assert(resolve.ensures((name_text,), resolved));
            assert(rl1[rb] == (component.name@, resolved));
            lemma_resolved_push(*resolve, rl, name_text, resolved);
            assert(resolved_by(*resolve, rl1));
            assert(log_prefix(rl, rl1));
        }
        let handle = match resolved {
            Ok(h) => h,
            Err(e) => {
                proof {
                    assert forall|rs: ResolveLog<H, E>, cs: CallLog<H, E>|
                        #![trigger tnode(*node, *context, rs, cs, rb, cb)]
                        log_prefix(rl1, rs) && log_prefix(cl, cs)
                        implies host_wrote(Err::<(), HostRenderError<E>>(HostRenderError::Host(e)), start, out@, tnode(*node, *context, rs, cs, rb, cb)) by {
                        assert(rs[rb] == rl1[rb]);
                    }
                }
                return (Err(HostRenderError::Host(e)), Ghost(rl1), Ghost(cl));
            },
        };
        let (gathered, Ghost(rl2), Ghost(cl2)) = normalized_children_value(&component.children, context, resolve, call, Ghost(rl1), Ghost(cl));
        let children = match gathered {
            Ok(c) => c,
            Err(e) => {
                proof {
                    assert forall|rs: ResolveLog<H, E>, cs: CallLog<H, E>|
                        #![trigger tnode(*node, *context, rs, cs, rb, cb)]
                        log_prefix(rl2, rs) && log_prefix(cl2, cs)
                        implies host_wrote(Err::<(), HostRenderError<E>>(e), start, out@, tnode(*node, *context, rs, cs, rb, cb)) by {
                        assert(rl1[rb] == (component.name@, resolved));
                        assert(rs[rb] == rl1[rb]);
                        assert(match child_groups(component.children@, *context, rs, cs, rb + 1, cb) {
                            Ok(gs) => gathered matches Ok(c) && children_view(c) == children_of(gs),
                            Err(f) => gathered matches Err(x) && fails_as(x, f),
                        });
                    }
                }
                return (Err(e), Ghost(rl2), Ghost(cl2));
            },
        };
        let ghost children_model = children_view(children);
        let mut props: Vec<(String, Prop<'a>)> = Vec::new();
        props.push(("children".to_owned(), Prop::Children(children)));
        let ghost first_props = props_view(props@);
        proof {
            reveal_strlit("children");
            assert(first_props =~= seq![("children"@, PropSpec::Children(children_model))]);
        }
        let assigned = set_attribute_props::<E>(&mut props, &component.attributes, context);
        proof {
            assert forall|rs: ResolveLog<H, E>, cs: CallLog<H, E>|
                #![trigger tnode(*node, *context, rs, cs, rb, cb)]
                #![trigger child_groups(component.children@, *context, rs, cs, rb + 1, cb)]
                log_prefix(rl2, rs) && log_prefix(cl2, cs)
                implies (child_groups(component.children@, *context, rs, cs, rb + 1, cb) matches Ok(gs)
                    && children_of(gs) == children_model && rs[rb] == (component.name@, Ok::<H, E>(handle))) by {
                assert(rl1[rb] == (component.name@, resolved));
                assert(rs[rb] == rl1[rb]);
                assert(match child_groups(component.children@, *context, rs, cs, rb + 1, cb) {
                    Ok(gs) => gathered matches Ok(c) && children_view(c) == children_of(gs),
                    Err(f) => gathered matches Err(x) && fails_as(x, f),
                });
            }
        }
        match assigned {
            Ok(()) => {},
            Err(e) => {
                return (Err(e), Ghost(rl2), Ghost(cl2));
            },
        }
        let invocation = ComponentCall { name: component.name.clone(), props };
        let called = call(&handle, &invocation);
        let ghost cview = call_view(invocation);
        let ghost cl3 = cl2.push((handle, cview, called));
        proof {
            assert(call.ensures((&handle, &invocation), called));
            assert(cview == CallSpec { name: component.name@, props: props_view(invocation.props@) });
            assert(cl3[cl2.len() as int] == (handle, cview, called));
            lemma_called_push::<'a, H, E, C>(*call, cl2, &handle, &invocation, called);
            assert(called_by::<'a, H, E, C>(*call, cl3));
            assert(log_prefix(cl2, cl3));
        }
        let rendered = match called {
            Ok(v) => v,
            Err(e) => {
                proof {
                    assert forall|rs: ResolveLog<H, E>, cs: CallLog<H, E>|
                        #![trigger tnode(*node, *context, rs, cs, rb, cb)]
                        log_prefix(rl2, rs) && log_prefix(cl3, cs)
                        implies host_wrote(Err::<(), HostRenderError<E>>(HostRenderError::Host(e)), start, out@, tnode(*node, *context, rs, cs, rb, cb)) by {
                        assert(log_prefix(cl2, cs));
                        let gs = child_groups(component.children@, *context, rs, cs, rb + 1, cb)->Ok_0;
                        assert(first_props == seq![("children"@, PropSpec::Children(children_of(gs)))]);
                        assert(cs[cl2.len() as int] == cl3[cl2.len() as int]);
                    }
                }
                return (Err(HostRenderError::Host(e)), Ghost(rl2), Ghost(cl3));
            },
        };
        let written = render_child_value(&rendered, out);
        let result: Result<(), HostRenderError<E>> = match written {
            Ok(()) => Ok(()),
            Err(e) => Err(HostRenderError::Backend(e)),
        };
        proof {
            assert forall|rs: ResolveLog<H, E>, cs: CallLog<H, E>|
                #![trigger tnode(*node, *context, rs, cs, rb, cb)]
                log_prefix(rl2, rs) && log_prefix(cl3, cs)
                implies host_wrote(result, start, out@, tnode(*node, *context, rs, cs, rb, cb)) by {
                assert(log_prefix(cl2, cs));
                let gs = child_groups(component.children@, *context, rs, cs, rb + 1, cb)->Ok_0;
                assert(first_props == seq![("children"@, PropSpec::Children(children_of(gs)))]);
                assert(cs[cl2.len() as int] == cl3[cl2.len() as int]);
            }
        }
        (result, Ghost(rl2), Ghost(cl3))
}

/// Renders one node with the host into `out`, as [`tnode`], with the host's
/// answers logged after `rl` and `cl`.
#[verifier::spinoff_prover]
#[verifier::rlimit(40)]
fn render_node_logged<'a, H, E, R, C>(
    node: &Node,
    context: &'a RuntimeContext,
    resolve: &R,
    call: &C,
    out: &mut String,
    Ghost(rl): Ghost<ResolveLog<H, E>>,
    Ghost(cl): Ghost<CallLog<H, E>>,
) -> (res: (Result<(), HostRenderError<E>>, Ghost<ResolveLog<H, E>>, Ghost<CallLog<H, E>>))
    where
        R: Fn(&str) -> Result<H, E>,
        C: Fn(&H, &ComponentCall<'a>) -> Result<RuntimeValue, E>,
    requires
        host_ready::<'a, H, E, R, C>(*resolve, *call),
        resolved_by(*resolve, rl),
        called_by::<'a, H, E, C>(*call, cl),
    ensures
        logged::<'a, H, E, R, C>(*resolve, *call, rl, cl, res.1@, res.2@),
        res.0 is Ok ==> res.1@.len() == rl.len() + node_components(*node) && res.2@.len() == cl.len() + node_components(*node),
        free_of_components(*node) ==> res.1@ == rl && res.2@ == cl,
        forall|rs: ResolveLog<H, E>, cs: CallLog<H, E>|
            #![trigger tnode(*node, *context, rs, cs, rl.len() as int, cl.len() as int)]
            log_prefix(res.1@, rs) && log_prefix(res.2@, cs)
                ==> host_wrote(res.0, old(out)@, final(out)@, tnode(*node, *context, rs, cs, rl.len() as int, cl.len() as int)),
    decreases node, 1nat,
{
    let ghost start = out@;
    let ghost rb = rl.len() as int;
    let ghost cb = cl.len() as int;
    match node {
        Node::ComponentTag(component) => render_component_logged(node, component, context, resolve, call, out, Ghost(rl), Ghost(cl)),
        Node::Element(element) => {
            proof {
                assert(decreases_to!(*node => (*node)->Element_0));
            }
            push_char(out, '<');
            out.append(element.name.as_str());
            let fragment = match render_attributes_fragment(&element.attributes, context) {
                Ok(f) => f,
                Err(e) => {
                    return (Err(HostRenderError::Backend(e)), Ghost(rl), Ghost(cl));
                },
            };
            out.append(fragment.as_str());
            proof {
                reveal_strlit("<");
            }
            if element.self_closing {
                out.append(" />");
                proof {
                    assert(out@ =~= start + ("<"@ + element.name@ + fragment@ + " />"@));
                }
                return (Ok(()), Ghost(rl), Ghost(cl));
            }
            push_char(out, '>');
            let ghost head = out@;
            proof {
                reveal_strlit(">");
                assert(head =~= start + ("<"@ + element.name@ + fragment@ + ">"@));
            }
            let (step, Ghost(rl2), Ghost(cl2)) = render_children_logged(&element.children, context, resolve, call, out, Ghost(rl), Ghost(cl));
            if step.is_err() {
                proof {
                    assert forall|rs: ResolveLog<H, E>, cs: CallLog<H, E>|
                        #![trigger tnode(*node, *context, rs, cs, rb, cb)]
                        log_prefix(rl2, rs) && log_prefix(cl2, cs)
                        implies host_wrote(step, start, out@, tnode(*node, *context, rs, cs, rb, cb)) by {
                        assert(host_wrote(step, head, out@, tnodes(element.children@, *context, rs, cs, rb, cb)));
                    }
                }
                return (step, Ghost(rl2), Ghost(cl2));
            }
            let ghost mid = out@;
            out.append("</");
            out.append(element.name.as_str());
            push_char(out, '>');
            proof {
                reveal_strlit("</");
                assert forall|rs: ResolveLog<H, E>, cs: CallLog<H, E>|
                    #![trigger tnode(*node, *context, rs, cs, rb, cb)]
                    log_prefix(rl2, rs) && log_prefix(cl2, cs)
                    implies host_wrote(Ok::<(), HostRenderError<E>>(()), start, out@, tnode(*node, *context, rs, cs, rb, cb)) by {
                    assert(host_wrote(step, head, mid, tnodes(element.children@, *context, rs, cs, rb, cb)));
                    let body = tnodes(element.children@, *context, rs, cs, rb, cb)->Ok_0;
                    assert(mid == head + body);
                    assert(out@ =~= start + ("<"@ + element.name@ + fragment@ + ">"@ + body + "</"@ + element.name@ + ">"@));
                }
            }
            (Ok(()), Ghost(rl2), Ghost(cl2))
        },
        Node::RawTextElement(element) => {
            push_char(out, '<');
            out.append(element.name.as_str());
            let fragment = match render_attributes_fragment(&element.attributes, context) {
                Ok(f) => f,
                Err(e) => {
                    return (Err(HostRenderError::Backend(e)), Ghost(rl), Ghost(cl));
                },
            };
            out.append(fragment.as_str());
            push_char(out, '>');
            let ghost head = out@;
            proof {
                reveal_strlit("<");
                reveal_strlit(">");
                assert(head =~= start + ("<"@ + element.name@ + fragment@ + ">"@));
            }
            let step = render_raw_text_children::<E>(element, context, out);
            if step.is_err() {
                return (step, Ghost(rl), Ghost(cl));
            }
            out.append("</");
            out.append(element.name.as_str());
            push_char(out, '>');
            proof {
                reveal_strlit("</");
                let body = raw_children_spec::<E>(element.name@, element.children@, *context)->Ok_0;
                assert(out@ =~= start + ("<"@ + element.name@ + fragment@ + ">"@ + body + "</"@ + element.name@ + ">"@));
            }
            (Ok(()), Ghost(rl), Ghost(cl))
        },
        Node::Text(text) => {
            out.append(text.value.as_str());
            (Ok(()), Ghost(rl), Ghost(cl))
        },
        Node::Interpolation(interpolation) => {
            if interpolation.interpolation_index >= context.values.len() {
                proof {
                    reveal_strlit("Missing runtime value for interpolation.");
                }
                return (Err(runtime_failure("Missing runtime value for interpolation.")), Ghost(rl), Ghost(cl));
            }
            match check_conversion(interpolation, &context.values[interpolation.interpolation_index]) {
                Ok(()) => {},
                Err(e) => {
                    return (Err(HostRenderError::Backend(e)), Ghost(rl), Ghost(cl));
                },
            }
            let written = render_child_value(&context.values[interpolation.interpolation_index], out);
            match written {
                Ok(()) => (Ok(()), Ghost(rl), Ghost(cl)),
                Err(e) => (Err(HostRenderError::Backend(e)), Ghost(rl), Ghost(cl)),
            }
        },
        Node::Comment(comment) => {
            out.append("<!--");
            out.append(comment.value.as_str());
            out.append("-->");
            proof {
                assert(out@ =~= start + ("<!--"@ + comment.value@ + "-->"@));
            }
            (Ok(()), Ghost(rl), Ghost(cl))
        },
        Node::Doctype(doctype) => {
            out.append("<!");
            out.append(doctype.value.as_str());
            push_char(out, '>');
            proof {
                reveal_strlit(">");
                assert(out@ =~= start + ("<!"@ + doctype.value@ + ">"@));
            }
            (Ok(()), Ghost(rl), Ghost(cl))
        },
        Node::Fragment(fragment) => {
            proof {
                assert(decreases_to!(*node => (*node)->Fragment_0));
            }
            let (result, Ghost(rl2), Ghost(cl2)) = render_children_logged(&fragment.children, context, resolve, call, out, Ghost(rl), Ghost(cl));
            proof {
                assert forall|rs: ResolveLog<H, E>, cs: CallLog<H, E>|
                    #![trigger tnode(*node, *context, rs, cs, rb, cb)]
                    log_prefix(rl2, rs) && log_prefix(cl2, cs)
                    implies host_wrote(result, start, out@, tnode(*node, *context, rs, cs, rb, cb)) by {
                    assert(host_wrote(result, start, out@, tnodes(fragment.children@, *context, rs, cs, rb, cb)));
                }
            }
            (result, Ghost(rl2), Ghost(cl2))
        },
    }
}

/// Renders nodes in order with the host, as [`tnodes`], with the host's
/// answers logged after `rl` and `cl`.
#[verifier::spinoff_prover]
#[verifier::rlimit(40)]
fn render_children_logged<'a, H, E, R, C>(
    children: &Vec<Node>,
    context: &'a RuntimeContext,
    resolve: &R,
    call: &C,
    out: &mut String,
    Ghost(rl): Ghost<ResolveLog<H, E>>,
    Ghost(cl): Ghost<CallLog<H, E>>,
) -> (res: (Result<(), HostRenderError<E>>, Ghost<ResolveLog<H, E>>, Ghost<CallLog<H, E>>))
    where
        R: Fn(&str) -> Result<H, E>,
        C: Fn(&H, &ComponentCall<'a>) -> Result<RuntimeValue, E>,
    requires
        host_ready::<'a, H, E, R, C>(*resolve, *call),
        resolved_by(*resolve, rl),
        called_by::<'a, H, E, C>(*call, cl),
    ensures
        logged::<'a, H, E, R, C>(*resolve, *call, rl, cl, res.1@, res.2@),
        res.0 is Ok ==> res.1@.len() == rl.len() + components_in(children@) && res.2@.len() == cl.len() + components_in(children@),
        !has_component(children@) ==> res.1@ == rl && res.2@ == cl,
        forall|rs: ResolveLog<H, E>, cs: CallLog<H, E>|
            #![trigger tnodes(children@, *context, rs, cs, rl.len() as int, cl.len() as int)]
            log_prefix(res.1@, rs) && log_prefix(res.2@, cs)
                ==> host_wrote(res.0, old(out)@, final(out)@, tnodes(children@, *context, rs, cs, rl.len() as int, cl.len() as int)),
    decreases children, 0nat,
{
    let ghost start = out@;
    let mut i: usize = 0;
    let ghost mut rc = rl;
    let ghost mut cc = cl;
    proof {
        assert(children@.subrange(0, 0) == Seq::<Node>::empty());
    }
    while i < children.len()
        invariant
            i <= children@.len(),
            host_ready::<'a, H, E, R, C>(*resolve, *call),
            logged::<'a, H, E, R, C>(*resolve, *call, rl, cl, rc, cc),
            rc.len() == rl.len() + components_in(children@.subrange(0, i as int)),
            cc.len() == cl.len() + components_in(children@.subrange(0, i as int)),
            !has_component(children@) ==> rc == rl && cc == cl,
            forall|rs: ResolveLog<H, E>, cs: CallLog<H, E>|
                #![trigger tnodes(children@.subrange(0, i as int), *context, rs, cs, rl.len() as int, cl.len() as int)]
                log_prefix(rc, rs) && log_prefix(cc, cs)
                    ==> (tnodes(children@.subrange(0, i as int), *context, rs, cs, rl.len() as int, cl.len() as int) matches Ok(t)
                        && out@ == start + t),
        decreases children.len() - i,
    {
        proof {
            assert(decreases_to!(*children => children@));
            assert(decreases_to!(children@ => children@[i as int]));
            if !has_component(children@) {
                lemma_free_child(children@, i as int);
            }
        }
        let ghost before = out@;
        let (step, Ghost(rn), Ghost(cn)) = render_node_logged(&children[i], context, resolve, call, out, Ghost(rc), Ghost(cc));
        let ghost p = children@.subrange(0, i + 1);
        proof {
            assert(p.subrange(0, p.len() - 1) == children@.subrange(0, i as int));
            assert(p[p.len() - 1] == children@[i as int]);
        }
        if step.is_err() {
            proof {
                assert forall|rs: ResolveLog<H, E>, cs: CallLog<H, E>|
                    #![trigger tnodes(children@, *context, rs, cs, rl.len() as int, cl.len() as int)]
                    log_prefix(rn, rs) && log_prefix(cn, cs)
                    implies host_wrote(step, start, out@, tnodes(children@, *context, rs, cs, rl.len() as int, cl.len() as int)) by {
                    assert(log_prefix(rc, rs));
                    assert(log_prefix(cc, cs));
                    assert(tnodes(children@.subrange(0, i as int), *context, rs, cs, rl.len() as int, cl.len() as int) is Ok);
                    assert(host_wrote(step, before, out@, tnode(children@[i as int], *context, rs, cs, rc.len() as int, cc.len() as int)));
                    lemma_tnodes_prefix_err(children@, *context, rs, cs, rl.len() as int, cl.len() as int, i + 1);
                }
            }
            return (step, Ghost(rn), Ghost(cn));
        }
        proof {
            assert forall|rs: ResolveLog<H, E>, cs: CallLog<H, E>|
                #![trigger tnodes(p, *context, rs, cs, rl.len() as int, cl.len() as int)]
                log_prefix(rn, rs) && log_prefix(cn, cs)
                implies (tnodes(p, *context, rs, cs, rl.len() as int, cl.len() as int) matches Ok(t) && out@ == start + t) by {
                assert(log_prefix(rc, rs));
                assert(log_prefix(cc, cs));
                let t = tnodes(children@.subrange(0, i as int), *context, rs, cs, rl.len() as int, cl.len() as int)->Ok_0;
                assert(host_wrote(step, before, out@, tnode(children@[i as int], *context, rs, cs, rc.len() as int, cc.len() as int)));
                let u = tnode(children@[i as int], *context, rs, cs, rc.len() as int, cc.len() as int)->Ok_0;
                assert(out@ =~= start + (t + u));
            }
            rc = rn;
            cc = cn;
        }
        i += 1;
    }
    proof {
        assert(children@.subrange(0, children@.len() as int) == children@);
    }
    (Ok(()), Ghost(rc), Ghost(cc))
}

/// Renders one node with the host into `out`: the output is the one [`tnode`]
/// gives for answers that the host can give, each component looked up once and
/// called once, in document order; a node free of component tags asks the host
/// nothing and renders so for any answers.
pub fn render_thtml_node<'a, H, E, R, C>(node: &Node, context: &'a RuntimeContext, resolve: &R, call: &C, out: &mut String) -> (r: Result<(), HostRenderError<E>>)
    where
        R: Fn(&str) -> Result<H, E>,
        C: Fn(&H, &ComponentCall<'a>) -> Result<RuntimeValue, E>,
    requires
        host_ready::<'a, H, E, R, C>(*resolve, *call),
    ensures
        exists|rs: ResolveLog<H, E>, cs: CallLog<H, E>|
            #![trigger tnode(*node, *context, rs, cs, 0, 0)]
            resolved_by(*resolve, rs) && called_by::<'a, H, E, C>(*call, cs)
                && (r is Ok ==> rs.len() == node_components(*node) && cs.len() == node_components(*node))
                && host_wrote(r, old(out)@, final(out)@, tnode(*node, *context, rs, cs, 0, 0)),
        free_of_components(*node) ==> host_wrote(r, old(out)@, final(out)@, tnode(*node, *context, ResolveLog::<H, E>::empty(), CallLog::<H, E>::empty(), 0, 0)),
{
    let ghost rl = Seq::<(Seq<char>, Result<H, E>)>::empty();
    let ghost cl = Seq::<(H, CallSpec, Result<RuntimeValue, E>)>::empty();
    let (r, Ghost(rs), Ghost(cs)) = render_node_logged(node, context, resolve, call, out, Ghost(rl), Ghost(cl));
    proof {
        assert(log_prefix(rs, rs));
        assert(log_prefix(cs, cs));
        assert(host_wrote(r, old(out)@, out@, tnode(*node, *context, rs, cs, 0, 0)));
    }
    r
}

/// Renders a document with the host: each component is looked up with
/// `resolve` and called with `call`, once each, lookups in the order the
/// components start and calls in the order they end, and the value a call
/// gives is rendered in the component's place. The output is the one
/// [`tnodes`] gives for answers that the host can give; a document without
/// component tags asks the host nothing and renders so for any answers.
pub fn render_thtml_document<'a, H, E, R, C>(document: &Document, context: &'a RuntimeContext, resolve: &R, call: &C) -> (r: Result<String, HostRenderError<E>>)
    where
        R: Fn(&str) -> Result<H, E>,
        C: Fn(&H, &ComponentCall<'a>) -> Result<RuntimeValue, E>,
    requires
        host_ready::<'a, H, E, R, C>(*resolve, *call),
    ensures
        exists|rs: ResolveLog<H, E>, cs: CallLog<H, E>|
            #![trigger tnodes(document.children@, *context, rs, cs, 0, 0)]
            resolved_by(*resolve, rs) && called_by::<'a, H, E, C>(*call, cs)
                && (r is Ok ==> rs.len() == components_in(document.children@) && cs.len() == components_in(document.children@))
                && document_rendered(r, tnodes(document.children@, *context, rs, cs, 0, 0)),
        !has_component(document.children@)
            ==> document_rendered(r, tnodes(document.children@, *context, ResolveLog::<H, E>::empty(), CallLog::<H, E>::empty(), 0, 0)),
{
    let mut out = String::new();
    let ghost rl = Seq::<(Seq<char>, Result<H, E>)>::empty();
    let ghost cl = Seq::<(H, CallSpec, Result<RuntimeValue, E>)>::empty();
    let (step, Ghost(rs), Ghost(cs)) = render_children_logged(&document.children, context, resolve, call, &mut out, Ghost(rl), Ghost(cl));
    proof {
        assert(log_prefix(rs, rs));
        assert(log_prefix(cs, cs));
        let spec = tnodes(document.children@, *context, rs, cs, 0, 0);
        assert(host_wrote(step, Seq::<char>::empty(), out@, spec));
        if spec is Ok {
            assert(Seq::<char>::empty() + spec->Ok_0 == spec->Ok_0);
        }
        if !has_component(document.children@) {
            assert(rs == rl && cs == cl);
        }
    }
    match step {
        Ok(()) => Ok(out),
        Err(e) => Err(e),
    }
}

/// The document's text is the spec's, or the error is the spec's failure.
pub open spec fn document_rendered<E>(r: Result<String, HostRenderError<E>>, spec: Result<Seq<char>, RenderFail<E>>) -> bool {
    match spec {
        Ok(t) => r matches Ok(s) && s@ == t,
        Err(f) => r matches Err(e) && fails_as(e, f),
    }
}

} // verus!
