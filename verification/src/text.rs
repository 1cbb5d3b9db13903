//! Text as a sequence of characters: the handful of string operations that
//! the rest of the library is built from, each with its meaning on `Seq<char>`.
use vstd::prelude::*;
use vstd::string::*;

verus! {

/// `String::push` appends the character to the end of the text.
pub assume_specification[ String::push ](text: &mut String, c: char)
    ensures
        final(text)@ == old(text)@.push(c),
;

/// The texts that a list of strings holds.
pub open spec fn texts(list: Seq<String>) -> Seq<Seq<char>> {
    list.map_values(|s: String| s@)
}

/// The text of an optional string.
pub open spec fn optional_text(text: Option<String>) -> Option<Seq<char>> {
    match text {
        Some(s) => Some(s@),
        None => None,
    }
}

/// The characters of `text`, in order.
pub fn chars_of(text: &str) -> (chars: Vec<char>)
    ensures
        chars@ == text@,
{
    let mut chars: Vec<char> = Vec::new();
    for c in it: text.chars()
        invariant
            chars@ == text@.take(it.index()),
            it.seq() == text@,
    {
        chars.push(c);
        assert(text@.take(it.index() + 1) =~= text@.take(it.index()).push(c));
    }
    assert(text@.take(text@.len() as int) =~= text@);
    chars
}

/// Whether two texts are the same.
pub fn same_text(a: &str, b: &str) -> (same: bool)
    ensures
        same == (a@ == b@),
{
    a.to_owned() == b.to_owned()
}

/// `first` followed by `second`.
pub fn join(first: &str, second: &str) -> (joined: String)
    ensures
        joined@ == first@ + second@,
{
    let mut joined = first.to_owned();
    joined.append(second);
    joined
}

/// Whether `pattern` stands somewhere in `text` without a gap.
pub open spec fn contains_text(text: Seq<char>, pattern: Seq<char>) -> bool {
    exists|at: int| text_at(text, pattern, at)
}

/// Whether `pattern` stands in `text` from position `at` on.
pub open spec fn text_at(text: Seq<char>, pattern: Seq<char>, at: int) -> bool {
    0 <= at <= text.len() - pattern.len() && text.subrange(at, at + pattern.len()) == pattern
}

/// Whether `pattern` occurs in `text`.
pub fn has_text(text: &str, pattern: &str) -> (found: bool)
    ensures
        found == contains_text(text@, pattern@),
{
    let chars = chars_of(text);
    let wanted = chars_of(pattern);
    if wanted.len() > chars.len() {
        return false;
    }
    let mut at: usize = 0;
    while at <= chars.len() - wanted.len()
        invariant
            chars@ == text@,
            wanted@ == pattern@,
            wanted.len() <= chars.len(),
            at <= chars.len() - wanted.len() + 1,
            forall|j: int| 0 <= j < at ==> !text_at(text@, pattern@, j),
        decreases chars.len() - at + 1,
    {
        let mut k: usize = 0;
        while k < wanted.len() && chars[at + k] == wanted[k]
            invariant
                k <= wanted.len(),
                at + wanted.len() <= chars.len(),
                forall|j: int| 0 <= j < k ==> chars[at + j] == wanted[j],
            decreases wanted.len() - k,
        {
            k = k + 1;
        }
        if k == wanted.len() {
            assert(text@.subrange(at as int, at + pattern@.len()) =~= pattern@);
            assert(text_at(text@, pattern@, at as int));
            return true;
        }
        assert(text@.subrange(at as int, at + pattern@.len())[k as int] == chars[at + k]);
        assert(!text_at(text@, pattern@, at as int));
        if at == chars.len() - wanted.len() {
            return false;
        }
        at = at + 1;
    }
    false
}

/// Whether `c` occurs in `text`.
pub fn has_char(text: &str, c: char) -> (found: bool)
    ensures
        found == text@.contains(c),
{
    let chars = chars_of(text);
    let mut i: usize = 0;
    while i < chars.len()
        invariant
            i <= chars.len(),
            chars@ == text@,
            forall|j: int| 0 <= j < i ==> text@[j] != c,
        decreases chars.len() - i,
    {
        if chars[i] == c {
            assert(text@[i as int] == c);
            return true;
        }
        i = i + 1;
    }
    false
}

/// Whether `text` is one of the strings of a list.
pub fn is_listed(list: &Vec<String>, text: &str) -> (listed: bool)
    ensures
        listed == texts(list@).contains(text@),
{
    let mut i: usize = 0;
    while i < list.len()
        invariant
            i <= list.len(),
            forall|j: int| 0 <= j < i ==> texts(list@)[j] != text@,
        decreases list.len() - i,
    {
        if same_text(list[i].as_str(), text) {
            assert(texts(list@)[i as int] == text@);
            return true;
        }
        i = i + 1;
    }
    false
}

/// The characters of `chars` from `from` up to, and without, `to`.
pub fn text_between(chars: &Vec<char>, from: usize, to: usize) -> (text: String)
    requires
        from <= to <= chars.len(),
    ensures
        text@ == chars@.subrange(from as int, to as int),
{
    let mut text = String::new();
    let mut i: usize = from;
    while i < to
        invariant
            from <= i <= to <= chars.len(),
            text@ == chars@.subrange(from as int, i as int),
        decreases to - i,
    {
        text.push(chars[i]);
        assert(chars@.subrange(from as int, i + 1) =~= chars@.subrange(from as int, i as int).push(chars[i as int]));
        i = i + 1;
    }
    text
}

/// The characters with the Unicode property `White_Space`.
pub open spec fn is_white_space(c: char) -> bool {
    ||| '\u{9}' <= c <= '\u{d}'
    ||| c == ' '
    ||| c == '\u{85}'
    ||| c == '\u{a0}'
    ||| c == '\u{1680}'
    ||| '\u{2000}' <= c <= '\u{200a}'
    ||| c == '\u{2028}'
    ||| c == '\u{2029}'
    ||| c == '\u{202f}'
    ||| c == '\u{205f}'
    ||| c == '\u{3000}'
}

/// Whether `c` is white space.
pub fn white_space(c: char) -> (white: bool)
    ensures
        white == is_white_space(c),
{
    ('\u{9}' <= c && c <= '\u{d}') || c == ' ' || c == '\u{85}' || c == '\u{a0}' || c == '\u{1680}' || (
    '\u{2000}' <= c && c <= '\u{200a}') || c == '\u{2028}' || c == '\u{2029}' || c == '\u{202f}' || c
        == '\u{205f}' || c == '\u{3000}'
}

/// `s` without the white space at its start.
pub open spec fn trimmed_start(s: Seq<char>) -> Seq<char>
    decreases s.len(),
{
    if s.len() > 0 && is_white_space(s[0]) {
        trimmed_start(s.skip(1))
    } else {
        s
    }
}

/// `s` without the white space at its end.
pub open spec fn trimmed_end(s: Seq<char>) -> Seq<char>
    decreases s.len(),
{
    if s.len() > 0 && is_white_space(s.last()) {
        trimmed_end(s.drop_last())
    } else {
        s
    }
}

/// `s` without the white space at either end.
pub open spec fn trimmed(s: Seq<char>) -> Seq<char> {
    trimmed_end(trimmed_start(s))
}

/// `text` without the white space at either end.
pub fn trim(text: &str) -> (kept: String)
    ensures
        kept@ == trimmed(text@),
{
    let chars = chars_of(text);
    let mut from: usize = 0;
    assert(text@.skip(0) =~= text@);
    while from < chars.len() && white_space(chars[from])
        invariant
            from <= chars.len(),
            chars@ == text@,
            trimmed_start(text@.skip(from as int)) == trimmed_start(text@),
        decreases chars.len() - from,
    {
        assert(text@.skip(from as int).skip(1) =~= text@.skip(from + 1));
        from = from + 1;
    }
    let ghost rest = text@.skip(from as int);
    assert(trimmed_start(text@) == rest);
    let mut to: usize = chars.len();
    assert(text@.subrange(from as int, to as int) =~= rest);
    while from < to && white_space(chars[to - 1])
        invariant
            from <= to <= chars.len(),
            chars@ == text@,
            trimmed_end(text@.subrange(from as int, to as int)) == trimmed_end(rest),
        decreases to,
    {
        assert(text@.subrange(from as int, to as int).drop_last() =~= text@.subrange(from as int, to - 1));
        to = to - 1;
    }
    text_between(&chars, from, to)
}

/// The pieces of `s` between the separators: one more than there are separators.
pub open spec fn pieces(s: Seq<char>, separator: char) -> Seq<Seq<char>>
    decreases s.len(),
{
    if s.len() == 0 {
        seq![Seq::empty()]
    } else {
        let before = pieces(s.drop_last(), separator);
        if s.last() == separator {
            before.push(Seq::empty())
        } else {
            before.drop_last().push(before.last().push(s.last()))
        }
    }
}

/// `s` with `-` in place of each `:` and `_` in place of each `/`.
pub open spec fn without_path_marks(s: Seq<char>) -> Seq<char> {
    s.map_values(|c: char| if c == ':' { '-' } else if c == '/' { '_' } else { c })
}

/// Whether `a` stands before `b`, or with it, in the order of the code points.
pub open spec fn text_le(a: Seq<char>, b: Seq<char>) -> bool
    decreases a.len(),
{
    if a.len() == 0 {
        true
    } else if b.len() == 0 {
        false
    } else if a[0] != b[0] {
        a[0] < b[0]
    } else {
        text_le(a.skip(1), b.skip(1))
    }
}

/// Whether `a` stands before `b`, or with it, in the order of the code points.
pub fn at_most(a: &str, b: &str) -> (before: bool)
    ensures
        before == text_le(a@, b@),
{
    let left = chars_of(a);
    let right = chars_of(b);
    let mut i: usize = 0;
    assert(a@.skip(0) =~= a@ && b@.skip(0) =~= b@);
    while i < left.len() && i < right.len() && left[i] == right[i]
        invariant
            i <= left.len(),
            i <= right.len(),
            left@ == a@,
            right@ == b@,
            text_le(a@, b@) == text_le(a@.skip(i as int), b@.skip(i as int)),
        decreases left.len() - i,
    {
        assert(a@.skip(i as int).skip(1) =~= a@.skip(i + 1));
        assert(b@.skip(i as int).skip(1) =~= b@.skip(i + 1));
        i = i + 1;
    }
    if i == left.len() {
        true
    } else if i == right.len() {
        false
    } else {
        left[i] < right[i]
    }
}

/// Of two texts, one stands before the other, or they stand together.
pub proof fn lemma_text_le_total(a: Seq<char>, b: Seq<char>)
    ensures
        text_le(a, b) || text_le(b, a),
        text_le(a, a),
    decreases a.len(),
{
    if a.len() > 0 {
        lemma_text_le_total(a.skip(1), a.skip(1));
        if b.len() > 0 {
            lemma_text_le_total(a.skip(1), b.skip(1));
        }
    }
}

/// Texts that stand before each other are the same.
pub proof fn lemma_text_le_antisymmetric(a: Seq<char>, b: Seq<char>)
    requires
        text_le(a, b),
        text_le(b, a),
    ensures
        a == b,
    decreases a.len(),
{
    if a.len() > 0 && b.len() > 0 {
        lemma_text_le_antisymmetric(a.skip(1), b.skip(1));
        assert(a =~= seq![a[0]] + a.skip(1));
        assert(b =~= seq![b[0]] + b.skip(1));
    } else {
        assert(a =~= b);
    }
}

/// The order of texts is transitive.
pub proof fn lemma_text_le_transitive(a: Seq<char>, b: Seq<char>, c: Seq<char>)
    requires
        text_le(a, b),
        text_le(b, c),
    ensures
        text_le(a, c),
    decreases a.len(),
{
    if a.len() > 0 && b.len() > 0 && c.len() > 0 && a[0] == b[0] && b[0] == c[0] {
        lemma_text_le_transitive(a.skip(1), b.skip(1), c.skip(1));
    }
}

/// A text has in it exactly those texts that stand in it with something before and
/// something after, be it nothing.
pub proof fn law_text_is_found_where_it_stands(text: Seq<char>, pattern: Seq<char>)
    ensures
        contains_text(text, pattern) <==> exists|before: Seq<char>, after: Seq<char>|
            text == #[trigger] (before + pattern + after),
{
    if contains_text(text, pattern) {
        let at = choose|at: int| text_at(text, pattern, at);
        let before = text.take(at);
        let after = text.skip(at + pattern.len());
        assert(text =~= before + pattern + after);
    }
    if exists|before: Seq<char>, after: Seq<char>| text == #[trigger] (before + pattern + after) {
        let (before, after) = choose|before: Seq<char>, after: Seq<char>|
            text == #[trigger] (before + pattern + after);
        assert(text.subrange(before.len() as int, (before.len() + pattern.len()) as int) =~= pattern);
        assert(text_at(text, pattern, before.len() as int));
    }
}

/// Whether all characters are white space.
pub open spec fn all_white(s: Seq<char>) -> bool {
    forall|i: int| 0 <= i < s.len() ==> is_white_space(#[trigger] s[i])
}

/// Trimming takes white space off the start.
proof fn lemma_start_is_white(s: Seq<char>) -> (before: Seq<char>)
    ensures
        all_white(before),
        s == before + trimmed_start(s),
        trimmed_start(s).len() > 0 ==> !is_white_space(trimmed_start(s)[0]),
    decreases s.len(),
{
    if s.len() > 0 && is_white_space(s[0]) {
        let rest = lemma_start_is_white(s.skip(1));
        let before = seq![s[0]] + rest;
        assert(s =~= seq![s[0]] + s.skip(1));
        assert(s =~= before + trimmed_start(s));
        before
    } else {
        assert(s =~= Seq::empty() + s);
        Seq::empty()
    }
}

/// Trimming takes white space off the end.
proof fn lemma_end_is_white(s: Seq<char>) -> (after: Seq<char>)
    ensures
        all_white(after),
        s == trimmed_end(s) + after,
        trimmed_end(s).len() > 0 ==> !is_white_space(trimmed_end(s).last()) && trimmed_end(s)[0] == s[0],
    decreases s.len(),
{
    if s.len() > 0 && is_white_space(s.last()) {
        let rest = lemma_end_is_white(s.drop_last());
        let after = rest.push(s.last());
        assert(s =~= s.drop_last().push(s.last()));
        assert(s =~= trimmed_end(s) + after);
        after
    } else {
        assert(s =~= s + Seq::empty());
        Seq::empty()
    }
}

/// A text is its trimmed text with nothing but white space before and after; what is
/// left neither starts nor ends with white space.
pub proof fn law_trimming_takes_only_white_space(s: Seq<char>)
    ensures
        exists|before: Seq<char>, after: Seq<char>|
            all_white(before) && all_white(after) && s == #[trigger] (before + trimmed(s) + after),
        trimmed(s).len() > 0 ==> !is_white_space(trimmed(s)[0]) && !is_white_space(trimmed(s).last()),
{
    let before = lemma_start_is_white(s);
    let after = lemma_end_is_white(trimmed_start(s));
    assert(s =~= before + trimmed(s) + after);
}

/// A file name has `-` where the timestamp has a colon, `_` where it has a slash, and the
/// character of the timestamp everywhere else.
pub proof fn law_only_path_marks_are_replaced(s: Seq<char>, i: int)
    requires
        0 <= i < s.len(),
    ensures
        without_path_marks(s).len() == s.len(),
        s[i] == ':' ==> without_path_marks(s)[i] == '-',
        s[i] == '/' ==> without_path_marks(s)[i] == '_',
        s[i] != ':' && s[i] != '/' ==> without_path_marks(s)[i] == s[i],
{
}

/// Texts are put in order by the first character in which they differ, and a text stands
/// before every longer text that it begins.
pub proof fn law_order_is_that_of_the_first_difference(
    start: Seq<char>,
    a: char,
    b: char,
    rest_a: Seq<char>,
    rest_b: Seq<char>,
)
    ensures
        a < b ==> text_le(start + seq![a] + rest_a, start + seq![b] + rest_b),
        a > b ==> !text_le(start + seq![a] + rest_a, start + seq![b] + rest_b),
        text_le(start, start + rest_b),
        !text_le(start + seq![a] + rest_a, start),
    decreases start.len(),
{
    let (x, y) = (start + seq![a] + rest_a, start + seq![b] + rest_b);
    let longer = start + rest_b;
    if start.len() == 0 {
        assert(x[0] == a && y[0] == b);
    } else {
        let shorter = start.skip(1);
        law_order_is_that_of_the_first_difference(shorter, a, b, rest_a, rest_b);
        assert(x[0] == start[0] && y[0] == start[0] && longer[0] == start[0]);
        assert(x.skip(1) =~= shorter + seq![a] + rest_a);
        assert(y.skip(1) =~= shorter + seq![b] + rest_b);
        assert(longer.skip(1) =~= shorter + rest_b);
    }
}

/// The texts of a list are those of its strings, one by one, and an optional string has
/// just the text of the string.
pub proof fn law_texts_are_those_of_the_strings(list: Seq<String>, i: int, text: String)
    ensures
        texts(list).len() == list.len(),
        0 <= i < list.len() ==> texts(list)[i] == list[i]@,
        optional_text(Some(text)) == Some(text@),
        optional_text(None) is None,
{
}

} // verus!
