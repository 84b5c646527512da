//! Character-level helpers shared by the printer, the parsers and the renderers.

use vstd::prelude::*;

verus! {

/// The display width of a string in terminal columns, as computed by the
/// `unicode-width` crate. It depends on the characters alone.
pub uninterp spec fn display_width(s: Seq<char>) -> nat;

/// Terminal display width of `s`, by `UnicodeWidthStr::width` of the
/// `unicode-width` crate; the result is the named width of the characters of `s`.
/// A printable ASCII character (space to `~`) counts one column, so a text of
/// those alone is as wide as it is long.
#[verifier::external_body]
pub(crate) fn str_width(s: &str) -> (w: usize)
    ensures
        w as nat == display_width(s@),
        (forall|i: int| 0 <= i < s@.len() ==> ' ' <= #[trigger] s@[i] <= '~') ==> w == s@.len(),
{
    unicode_width::UnicodeWidthStr::width(s)
}

/// Appends one character, by `String::push` of std.
#[verifier::external_body]
pub(crate) fn push_char(s: &mut String, c: char)
    ensures
        final(s)@ == old(s)@.push(c),
{
    s.push(c)
}

/// The characters of `s`, in order.
pub fn chars_of(s: &str) -> (v: Vec<char>)
    ensures
        v@ == s@,
{
    let mut v: Vec<char> = Vec::new();
    for c in it: s.chars()
        invariant
            v@ == it.seq().subrange(0, it.index() as int),
    {
        v.push(c);
    }
    v
}

} // verus!

verus! {

/// Whether `c` has the Unicode `Uppercase` property, as `char::is_uppercase` of std.
pub uninterp spec fn unicode_uppercase(c: char) -> bool;

/// `char::is_uppercase` of std: the Unicode `Uppercase` property, which holds of
/// the ASCII capitals and of no ASCII character that is not one.
#[verifier::external_body]
pub(crate) fn char_is_uppercase(c: char) -> (r: bool)
    ensures
        r == unicode_uppercase(c),
        ('A' <= c <= 'Z') ==> r,
        (c <= '\x7f' && !('A' <= c <= 'Z')) ==> !r,
{
    c.is_uppercase()
}

/// The characters with the Unicode `White_Space` property, which is what
/// `char::is_whitespace` tests.
pub open spec fn is_unicode_whitespace(c: char) -> bool {
    ('\t' <= c <= '\r') || c == ' ' || c == '\u{85}' || c == '\u{a0}' || c == '\u{1680}'
        || ('\u{2000}' <= c <= '\u{200a}') || c == '\u{2028}' || c == '\u{2029}' || c == '\u{202f}'
        || c == '\u{205f}' || c == '\u{3000}'
}

pub fn is_whitespace(c: char) -> (r: bool)
    ensures
        r == is_unicode_whitespace(c),
{
    ('\t' <= c && c <= '\r') || c == ' ' || c == '\u{85}' || c == '\u{a0}' || c == '\u{1680}'
        || ('\u{2000}' <= c && c <= '\u{200a}') || c == '\u{2028}' || c == '\u{2029}' || c == '\u{202f}'
        || c == '\u{205f}' || c == '\u{3000}'
}

/// The ASCII whitespace of `split_ascii_whitespace`: space, tab, line feed,
/// form feed and carriage return.
pub open spec fn is_ascii_ws(c: char) -> bool {
    c == ' ' || c == '\t' || c == '\n' || c == '\x0c' || c == '\r'
}

pub fn is_ascii_whitespace(c: char) -> (r: bool)
    ensures
        r == is_ascii_ws(c),
{
    c == ' ' || c == '\t' || c == '\n' || c == '\x0c' || c == '\r'
}

/// Whether two strings hold the same characters.
pub fn str_eq(a: &str, b: &str) -> (r: bool)
    ensures
        r == (a@ == b@),
{
    let ac = chars_of(a);
    let bc = chars_of(b);
    if ac.len() != bc.len() {
        return false;
    }
    let mut i: usize = 0;
    while i < ac.len()
        invariant
            i <= ac@.len(),
            ac@.len() == bc@.len(),
            ac@ == a@,
            bc@ == b@,
            forall|k: int| 0 <= k < i ==> ac@[k] == bc@[k],
        decreases ac.len() - i,
    {
        if ac[i] != bc[i] {
            return false;
        }
        i += 1;
    }
    proof {
        assert(a@ =~= b@);
    }
    true
}

/// A new string holding `a` followed by `b`.
pub fn concat2(a: &str, b: &str) -> (r: String)
    ensures
        r@ == a@ + b@,
{
    let mut s = String::new();
    s.append(a);
    s.append(b);
    proof {
        assert(Seq::<char>::empty() + a@ + b@ == a@ + b@);
    }
    s
}

/// A new string holding `a`, `b` and `c` one after the other.
pub fn concat3(a: &str, b: &str, c: &str) -> (r: String)
    ensures
        r@ == a@ + b@ + c@,
{
    let mut s = String::new();
    s.append(a);
    s.append(b);
    s.append(c);
    proof {
        assert(Seq::<char>::empty() + a@ + b@ + c@ == a@ + b@ + c@);
    }
    s
}

/// A new string holding the five parts one after the other.
pub fn concat5(a: &str, b: &str, c: &str, d: &str, e: &str) -> (r: String)
    ensures
        r@ == a@ + b@ + c@ + d@ + e@,
{
    let mut s = String::new();
    s.append(a);
    s.append(b);
    s.append(c);
    s.append(d);
    s.append(e);
    proof {
        assert(Seq::<char>::empty() + a@ + b@ + c@ + d@ + e@ == a@ + b@ + c@ + d@ + e@);
    }
    s
}

/// A new string holding the character.
pub fn string_of_char(c: char) -> (r: String)
    ensures
        r@ == seq![c],
{
    let mut s = String::new();
    push_char(&mut s, c);
    s
}

} // verus!

verus! {

/// Drops the leading characters that have the Unicode `White_Space` property.
pub open spec fn trim_start_spec(s: Seq<char>) -> Seq<char>
    decreases s.len(),
{
    if s.len() > 0 && is_unicode_whitespace(s[0]) {
        trim_start_spec(s.subrange(1, s.len() as int))
    } else {
        s
    }
}

/// Drops the trailing characters that have the Unicode `White_Space` property.
pub open spec fn trim_end_spec(s: Seq<char>) -> Seq<char>
    decreases s.len(),
{
    if s.len() > 0 && is_unicode_whitespace(s.last()) {
        trim_end_spec(s.drop_last())
    } else {
        s
    }
}

/// `str::trim`: drops the whitespace at both ends.
pub open spec fn trim_spec(s: Seq<char>) -> Seq<char> {
    trim_end_spec(trim_start_spec(s))
}

proof fn lemma_trim_start_from(s: Seq<char>, i: int)
    requires
        0 <= i <= s.len(),
        forall|k: int| 0 <= k < i ==> is_unicode_whitespace(#[trigger] s[k]),
    ensures
        trim_start_spec(s) == trim_start_spec(s.subrange(i, s.len() as int)),
    decreases i,
{
    if i > 0 {
        let s1 = s.subrange(1, s.len() as int);
        assert forall|k: int| 0 <= k < i - 1 implies is_unicode_whitespace(#[trigger] s1[k]) by {
            assert(s1[k] == s[k + 1]);
        }
        lemma_trim_start_from(s1, i - 1);
        assert(s1.subrange(i - 1, s1.len() as int) == s.subrange(i, s.len() as int));
    } else {
        assert(s.subrange(0, s.len() as int) == s);
    }
}

proof fn lemma_trim_end_to(s: Seq<char>, j: int)
    requires
        0 <= j <= s.len(),
        forall|k: int| j <= k < s.len() ==> is_unicode_whitespace(#[trigger] s[k]),
    ensures
        trim_end_spec(s) == trim_end_spec(s.subrange(0, j)),
    decreases s.len() - j,
{
    if j < s.len() {
        let s1 = s.drop_last();
        lemma_trim_end_to(s1, j);
        assert(s1.subrange(0, j) == s.subrange(0, j));
    } else {
        assert(s.subrange(0, j) == s);
    }
}

/// The characters of `s` without the whitespace at either end.
pub fn trim(s: &str) -> (r: String)
    ensures
        r@ == trim_spec(s@),
{
    let chars = chars_of(s);
    let mut start: usize = 0;
    while start < chars.len() && is_whitespace(chars[start])
        invariant
            start <= chars@.len(),
            chars@ == s@,
            forall|k: int| 0 <= k < start ==> is_unicode_whitespace(#[trigger] chars@[k]),
        decreases chars.len() - start,
    {
        start += 1;
    }
    proof {
        lemma_trim_start_from(s@, start as int);
    }
    let ghost mid = s@.subrange(start as int, s@.len() as int);
    let mut end: usize = chars.len();
    while end > start && is_whitespace(chars[end - 1])
        invariant
            start <= end <= chars@.len(),
            chars@ == s@,
            mid == s@.subrange(start as int, s@.len() as int),
            forall|k: int| end <= k < chars@.len() ==> is_unicode_whitespace(#[trigger] chars@[k]),
        decreases end - start,
    {
        end -= 1;
    }
    proof {
        assert forall|k: int| end - start <= k < mid.len() implies is_unicode_whitespace(#[trigger] mid[k]) by {
            assert(mid[k] == s@[k + start]);
        }
        lemma_trim_end_to(mid, end - start);
        assert(mid.subrange(0, end - start) == s@.subrange(start as int, end as int));
        if start < chars@.len() {
            assert(!is_unicode_whitespace(mid[0]));
            assert(trim_start_spec(mid) == mid);
        } else {
            assert(mid.len() == 0);
        }
    }
    let mut out = String::new();
    let mut k: usize = start;
    while k < end
        invariant
            start <= k <= end,
            end <= chars@.len(),
            chars@ == s@,
            out@ == s@.subrange(start as int, k as int),
        decreases end - k,
    {
        push_char(&mut out, chars[k]);
        proof {
            assert(s@.subrange(start as int, k + 1) == s@.subrange(start as int, k as int).push(s@[k as int]));
        }
        k += 1;
    }
    out
}

/// A character folded to ASCII lower case.
pub open spec fn ascii_lower_spec(c: char) -> char {
    if 'A' <= c <= 'Z' {
        (((c as u32) + 32) as u8) as char
    } else {
        c
    }
}

pub fn ascii_lower(c: char) -> (r: char)
    ensures
        r == ascii_lower_spec(c),
{
    if 'A' <= c && c <= 'Z' {
        (((c as u32) + 32) as u8) as char
    } else {
        c
    }
}

/// A text with every ASCII letter folded to lower case.
pub open spec fn ascii_lower_seq(s: Seq<char>) -> Seq<char> {
    s.map_values(|c: char| ascii_lower_spec(c))
}

/// `str::to_ascii_lowercase`.
pub fn ascii_lowercase(s: &str) -> (r: String)
    ensures
        r@ == ascii_lower_seq(s@),
{
    let chars = chars_of(s);
    let mut out = String::new();
    let mut i: usize = 0;
    while i < chars.len()
        invariant
            i <= chars@.len(),
            chars@ == s@,
            out@ == ascii_lower_seq(s@.subrange(0, i as int)),
        decreases chars.len() - i,
    {
        push_char(&mut out, ascii_lower(chars[i]));
        proof {
            assert(ascii_lower_seq(s@.subrange(0, i + 1)) =~= ascii_lower_seq(s@.subrange(0, i as int)).push(ascii_lower_spec(s@[i as int])));
        }
        i += 1;
    }
    proof {
        assert(s@.subrange(0, s@.len() as int) == s@);
    }
    out
}

/// `str::eq_ignore_ascii_case`.
pub fn eq_ignore_ascii_case(a: &str, b: &str) -> (r: bool)
    ensures
        r == (ascii_lower_seq(a@) == ascii_lower_seq(b@)),
{
    let la = ascii_lowercase(a);
    let lb = ascii_lowercase(b);
    str_eq(la.as_str(), lb.as_str())
}

/// What follows `prefix` in `s`, when `s` starts with it (`str::strip_prefix`).
pub fn strip_prefix(s: &str, prefix: &str) -> (r: Option<String>)
    ensures
        match r {
            Some(rest) => prefix@.len() <= s@.len() && s@.subrange(0, prefix@.len() as int) == prefix@
                && rest@ == s@.subrange(prefix@.len() as int, s@.len() as int),
            None => !(prefix@.len() <= s@.len() && s@.subrange(0, prefix@.len() as int) == prefix@),
        },
{
    let sc = chars_of(s);
    let pc = chars_of(prefix);
    if pc.len() > sc.len() {
        return None;
    }
    let mut i: usize = 0;
    while i < pc.len()
        invariant
            i <= pc@.len(),
            pc@.len() <= sc@.len(),
            sc@ == s@,
            pc@ == prefix@,
            forall|k: int| 0 <= k < i ==> sc@[k] == pc@[k],
        decreases pc.len() - i,
    {
        if sc[i] != pc[i] {
            proof {
                assert(s@.subrange(0, prefix@.len() as int)[i as int] != prefix@[i as int]);
            }
            return None;
        }
        i += 1;
    }
    proof {
        assert(s@.subrange(0, prefix@.len() as int) =~= prefix@);
    }
    let mut out = String::new();
    let mut k: usize = pc.len();
    while k < sc.len()
        invariant
            pc@.len() <= k <= sc@.len(),
            sc@ == s@,
            out@ == s@.subrange(pc@.len() as int, k as int),
        decreases sc.len() - k,
    {
        push_char(&mut out, sc[k]);
        proof {
            assert(s@.subrange(pc@.len() as int, k + 1) == s@.subrange(pc@.len() as int, k as int).push(s@[k as int]));
        }
        k += 1;
    }
    Some(out)
}

} // verus!

verus! {

pub open spec fn digit_char(d: int) -> char {
    if d == 0 { '0' } else if d == 1 { '1' } else if d == 2 { '2' } else if d == 3 { '3' } else if d == 4 { '4' }
    else if d == 5 { '5' } else if d == 6 { '6' } else if d == 7 { '7' } else if d == 8 { '8' } else { '9' }
}

/// The decimal digits of a natural number, most significant first.
pub open spec fn nat_decimal(n: nat) -> Seq<char>
    decreases n,
{
    if n < 10 {
        seq![digit_char(n as int)]
    } else {
        nat_decimal(n / 10).push(digit_char((n % 10) as int))
    }
}

/// The decimal text of an integer, with a leading `-` when it is negative.
pub open spec fn int_decimal(v: int) -> Seq<char> {
    if v < 0 {
        seq!['-'] + nat_decimal((-v) as nat)
    } else {
        nat_decimal(v as nat)
    }
}

fn digit_of(d: u64) -> (c: char)
    requires
        d < 10,
    ensures
        c == digit_char(d as int),
{
    if d == 0 { '0' } else if d == 1 { '1' } else if d == 2 { '2' } else if d == 3 { '3' } else if d == 4 { '4' }
    else if d == 5 { '5' } else if d == 6 { '6' } else if d == 7 { '7' } else if d == 8 { '8' } else { '9' }
}

/// The decimal text of a `u64`, most significant digit first.
fn u64_to_text(m: u64) -> (r: String)
    ensures
        r@ == nat_decimal(m as nat),
{
    let mut n = m;
    let mut low: Vec<char> = Vec::new();
    while n >= 10
        invariant
            nat_decimal(m as nat) == nat_decimal(n as nat) + low@.reverse(),
        decreases n,
    {
        let d = n % 10;
        let c = digit_of(d);
        proof {
            assert(nat_decimal(n as nat) == nat_decimal((n / 10) as nat).push(digit_char((n % 10) as int)));
            assert(low@.push(c).reverse() =~= seq![c] + low@.reverse());
            assert(nat_decimal((n / 10) as nat).push(c) + low@.reverse() =~= nat_decimal((n / 10) as nat) + (seq![c] + low@.reverse()));
        }
        low.push(c);
        n = n / 10;
    }
    let mut out = String::new();
    push_char(&mut out, digit_of(n));
    let mut i: usize = low.len();
    proof {
        assert(out@ =~= nat_decimal(n as nat));
    }
    while i > 0
        invariant
            i <= low@.len(),
            out@ + low@.subrange(0, i as int).reverse() == nat_decimal(m as nat),
        decreases i,
    {
        let ghost before = out@;
        push_char(&mut out, low[i - 1]);
        proof {
            let a = low@.subrange(0, i as int);
            let b = low@.subrange(0, i - 1);
            assert(a == b.push(low@[i - 1]));
            assert(a.reverse() =~= seq![low@[i - 1]] + b.reverse());
            assert(before + a.reverse() =~= before.push(low@[i - 1]) + b.reverse());
        }
        i -= 1;
    }
    proof {
        assert(low@.subrange(0, 0).reverse() =~= Seq::<char>::empty());
        assert(out@ + Seq::<char>::empty() == out@);
    }
    out
}

/// The decimal text of an `i64`, as its `Display` impl writes it: the digits in
/// base ten with a leading `-` for negative numbers.
pub(crate) fn i64_to_text(v: i64) -> (r: String)
    ensures
        r@ == int_decimal(v as int),
{
    if v < 0 {
        let m: u64 = if v == i64::MIN { 9223372036854775808u64 } else { (0 - v) as u64 };
        let digits = u64_to_text(m);
        let mut out = String::new();
        push_char(&mut out, '-');
        out.append(digits.as_str());
        proof {
            assert(out@ =~= seq!['-'] + nat_decimal((-(v as int)) as nat));
        }
        out
    } else {
        u64_to_text(v as u64)
    }
}

pub open spec fn bool_text(b: bool) -> Seq<char> {
    if b { "true"@ } else { "false"@ }
}

pub fn bool_to_text(b: bool) -> (r: String)
    ensures
        r@ == bool_text(b),
{
    if b { "true".to_owned() } else { "false".to_owned() }
}

/// The state of a left-to-right split on ASCII whitespace: the words completed
/// so far and the word being read.
pub open spec fn split_state(s: Seq<char>) -> (Seq<Seq<char>>, Seq<char>)
    decreases s.len(),
{
    if s.len() == 0 {
        (Seq::empty(), Seq::empty())
    } else {
        let (words, cur) = split_state(s.drop_last());
        if is_ascii_ws(s.last()) {
            if cur.len() > 0 {
                (words.push(cur), Seq::empty())
            } else {
                (words, Seq::empty())
            }
        } else {
            (words, cur.push(s.last()))
        }
    }
}

/// `str::split_ascii_whitespace`: the non-empty runs between ASCII whitespace.
pub open spec fn split_words(s: Seq<char>) -> Seq<Seq<char>> {
    let (words, cur) = split_state(s);
    if cur.len() > 0 {
        words.push(cur)
    } else {
        words
    }
}

pub fn split_ascii_words(s: &str) -> (r: Vec<String>)
    ensures
        r@.len() == split_words(s@).len(),
        forall|i: int| 0 <= i < r@.len() ==> #[trigger] r@[i]@ == split_words(s@)[i],
{
    let chars = chars_of(s);
    let mut words: Vec<String> = Vec::new();
    let mut cur = String::new();
    let mut i: usize = 0;
    while i < chars.len()
        invariant
            i <= chars@.len(),
            chars@ == s@,
            words@.len() == split_state(s@.subrange(0, i as int)).0.len(),
            forall|k: int| 0 <= k < words@.len() ==> #[trigger] words@[k]@ == split_state(s@.subrange(0, i as int)).0[k],
            cur@ == split_state(s@.subrange(0, i as int)).1,
        decreases chars.len() - i,
    {
        proof {
            let p = s@.subrange(0, i + 1);
            assert(p.drop_last() == s@.subrange(0, i as int));
            assert(p.last() == chars@[i as int]);
        }
        let c = chars[i];
        if is_ascii_whitespace(c) {
            if !cur.as_str().is_empty() {
                words.push(cur);
                cur = String::new();
            }
        } else {
            push_char(&mut cur, c);
        }
        i += 1;
    }
    proof {
        assert(s@.subrange(0, s@.len() as int) == s@);
    }
    if !cur.as_str().is_empty() {
        words.push(cur);
    }
    words
}

/// The strings joined with a single space between each two.
pub open spec fn join_space(parts: Seq<Seq<char>>) -> Seq<char>
    decreases parts.len(),
{
    if parts.len() == 0 {
        Seq::empty()
    } else if parts.len() == 1 {
        parts[0]
    } else {
        join_space(parts.drop_last()) + seq![' '] + parts.last()
    }
}

pub fn join_with_space(parts: &Vec<String>) -> (r: String)
    ensures
        r@ == join_space(parts@.map_values(|p: String| p@)),
{
    let ghost views = parts@.map_values(|p: String| p@);
    let mut out = String::new();
    let mut i: usize = 0;
    while i < parts.len()
        invariant
            i <= parts@.len(),
            views == parts@.map_values(|p: String| p@),
            out@ == join_space(views.subrange(0, i as int)),
        decreases parts.len() - i,
    {
        proof {
            let p = views.subrange(0, i + 1);
            assert(p.drop_last() == views.subrange(0, i as int));
            assert(p.last() == parts@[i as int]@);
            if i == 0 {
                assert(p.len() == 1);
            }
        }
        if i > 0 {
            push_char(&mut out, ' ');
        }
        out.append(parts[i].as_str());
        i += 1;
    }
    proof {
        assert(views.subrange(0, parts@.len() as int) == views);
    }
    out
}

} // verus!
