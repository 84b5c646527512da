//! HTML escaping for text content and attribute values.

use vstd::prelude::*;
use crate::text::{push_char, chars_of};

verus! {

/// The escape of one character of text content: `&`, `<` and `>` become entities.
pub open spec fn escape_text_char(c: char) -> Seq<char> {
    if c == '&' {
        seq!['&', 'a', 'm', 'p', ';']
    } else if c == '<' {
        seq!['&', 'l', 't', ';']
    } else if c == '>' {
        seq!['&', 'g', 't', ';']
    } else {
        seq![c]
    }
}

/// Text content with every character escaped by [`escape_text_char`].
pub open spec fn escape_text_spec(s: Seq<char>) -> Seq<char>
    decreases s.len(),
{
    if s.len() == 0 {
        Seq::empty()
    } else {
        escape_text_spec(s.drop_last()) + escape_text_char(s.last())
    }
}

/// The escape of one character of an attribute value: `&`, `<`, `>` and `"`
/// become entities, every `&` included (text that looks like a character
/// reference is escaped too).
pub open spec fn escape_attr_char(c: char) -> Seq<char> {
    if c == '"' {
        seq!['&', 'q', 'u', 'o', 't', ';']
    } else {
        escape_text_char(c)
    }
}

/// An attribute value with every character escaped by [`escape_attr_char`].
pub open spec fn escape_attr_spec(s: Seq<char>) -> Seq<char>
    decreases s.len(),
{
    if s.len() == 0 {
        Seq::empty()
    } else {
        escape_attr_spec(s.drop_last()) + escape_attr_char(s.last())
    }
}

/// The escape of one character of an attribute in formatted source: `"` becomes `&quot;`.
pub open spec fn quote_escape_char(c: char) -> Seq<char> {
    if c == '"' {
        seq!['&', 'q', 'u', 'o', 't', ';']
    } else {
        seq![c]
    }
}

pub open spec fn quote_escape_spec(s: Seq<char>) -> Seq<char>
    decreases s.len(),
{
    if s.len() == 0 {
        Seq::empty()
    } else {
        quote_escape_spec(s.drop_last()) + quote_escape_char(s.last())
    }
}

/// Escapes text content: `&`, `<` and `>` become `&amp;`, `&lt;` and `&gt;`.
pub fn escape_html_text(value: &str) -> (r: String)
    ensures
        r@ == escape_text_spec(value@),
{
    let chars = chars_of(value);
    let mut out = String::new();
    let mut i: usize = 0;
    while i < chars.len()
        invariant
            i <= chars@.len(),
            chars@ == value@,
            out@ == escape_text_spec(value@.subrange(0, i as int)),
        decreases chars.len() - i,
    {
        let c = chars[i];
        proof {
            let p = value@.subrange(0, i + 1);
            assert(p.drop_last() == value@.subrange(0, i as int));
            assert(p.last() == c);
        }
        if c == '&' {
            push_char(&mut out, '&');
            push_char(&mut out, 'a');
            push_char(&mut out, 'm');
            push_char(&mut out, 'p');
            push_char(&mut out, ';');
        } else if c == '<' {
            push_char(&mut out, '&');
            push_char(&mut out, 'l');
            push_char(&mut out, 't');
            push_char(&mut out, ';');
        } else if c == '>' {
            push_char(&mut out, '&');
            push_char(&mut out, 'g');
            push_char(&mut out, 't');
            push_char(&mut out, ';');
        } else {
            push_char(&mut out, c);
        }
        proof {
            assert(out@ == escape_text_spec(value@.subrange(0, i as int)) + escape_text_char(c));
        }
        i += 1;
    }
    proof {
        assert(value@.subrange(0, value@.len() as int) == value@);
    }
    out
}

/// Escapes `"` as `&quot;`, the only escape of attribute text in formatted source.
pub fn escape_attribute_text(text: &str) -> (r: String)
    ensures
        r@ == quote_escape_spec(text@),
{
    let chars = chars_of(text);
    let mut out = String::new();
    let mut i: usize = 0;
    while i < chars.len()
        invariant
            i <= chars@.len(),
            chars@ == text@,
            out@ == quote_escape_spec(text@.subrange(0, i as int)),
        decreases chars.len() - i,
    {
        let c = chars[i];
        proof {
            let p = text@.subrange(0, i + 1);
            assert(p.drop_last() == text@.subrange(0, i as int));
            assert(p.last() == c);
        }
        if c == '"' {
            push_char(&mut out, '&');
            push_char(&mut out, 'q');
            push_char(&mut out, 'u');
            push_char(&mut out, 'o');
            push_char(&mut out, 't');
            push_char(&mut out, ';');
        } else {
            push_char(&mut out, c);
        }
        proof {
            assert(out@ == quote_escape_spec(text@.subrange(0, i as int)) + quote_escape_char(c));
        }
        i += 1;
    }
    proof {
        assert(text@.subrange(0, text@.len() as int) == text@);
    }
    out
}

/// Escapes an attribute value: `&`, `<`, `>` and `"` become `&amp;`, `&lt;`,
/// `&gt;` and `&quot;`; every `&` is escaped, so `&amp;` becomes `&amp;amp;`.
pub fn escape_html_attribute(value: &str) -> (r: String)
    ensures
        r@ == escape_attr_spec(value@),
{
    let chars = chars_of(value);
    let mut out = String::new();
    let mut i: usize = 0;
    while i < chars.len()
        invariant
            i <= chars@.len(),
            chars@ == value@,
            out@ == escape_attr_spec(value@.subrange(0, i as int)),
        decreases chars.len() - i,
    {
        let c = chars[i];
        proof {
            let p = value@.subrange(0, i + 1);
            assert(p.drop_last() == value@.subrange(0, i as int));
            assert(p.last() == c);
        }
        if c == '&' {
            push_char(&mut out, '&');
            push_char(&mut out, 'a');
            push_char(&mut out, 'm');
            push_char(&mut out, 'p');
            push_char(&mut out, ';');
        } else if c == '<' {
            push_char(&mut out, '&');
            push_char(&mut out, 'l');
            push_char(&mut out, 't');
            push_char(&mut out, ';');
        } else if c == '>' {
            push_char(&mut out, '&');
            push_char(&mut out, 'g');
            push_char(&mut out, 't');
            push_char(&mut out, ';');
        } else if c == '"' {
            push_char(&mut out, '&');
            push_char(&mut out, 'q');
            push_char(&mut out, 'u');
            push_char(&mut out, 'o');
            push_char(&mut out, 't');
            push_char(&mut out, ';');
        } else {
            push_char(&mut out, c);
        }
        proof {
            assert(out@ =~= escape_attr_spec(value@.subrange(0, i as int)) + escape_attr_char(c));
        }
        i += 1;
    }
    proof {
        assert(value@.subrange(0, value@.len() as int) == value@);
    }
    out
}

/// No character of the sequence can open or close a tag or end a quoted attribute.
pub open spec fn markup_free(s: Seq<char>) -> bool {
    forall|i: int| 0 <= i < s.len() ==> #[trigger] s[i] != '<' && s[i] != '>' && s[i] != '"'
}

/// Escaped text content holds no `<` or `>`: whatever the value, it cannot open or
/// close a tag.
pub proof fn lemma_escaped_text_has_no_angle_brackets(s: Seq<char>)
    ensures
        forall|i: int| 0 <= i < escape_text_spec(s).len() ==> #[trigger] escape_text_spec(s)[i] != '<'
            && escape_text_spec(s)[i] != '>',
    decreases s.len(),
{
    if s.len() > 0 {
        lemma_escaped_text_has_no_angle_brackets(s.drop_last());
        let a = escape_text_spec(s.drop_last());
        let b = escape_text_char(s.last());
        assert forall|i: int| 0 <= i < (a + b).len() implies #[trigger] (a + b)[i] != '<' && (a + b)[i] != '>' by {
            if i < a.len() {
                assert((a + b)[i] == a[i]);
            } else {
                assert((a + b)[i] == b[i - a.len()]);
            }
        }
    }
}

/// An escaped attribute value holds no `<`, `>` or `"`: whatever the value, it
/// cannot leave the double-quoted attribute nor open a tag.
pub proof fn lemma_escaped_attribute_is_markup_free(s: Seq<char>)
    ensures
        markup_free(escape_attr_spec(s)),
    decreases s.len(),
{
    if s.len() > 0 {
        lemma_escaped_attribute_is_markup_free(s.drop_last());
        let a = escape_attr_spec(s.drop_last());
        let b = escape_attr_char(s.last());
        assert forall|i: int| 0 <= i < (a + b).len() implies #[trigger] (a + b)[i] != '<' && (a + b)[i] != '>'
            && (a + b)[i] != '"' by {
            if i < a.len() {
                assert((a + b)[i] == a[i]);
            } else {
                assert((a + b)[i] == b[i - a.len()]);
            }
        }
    }
}

} // verus!
