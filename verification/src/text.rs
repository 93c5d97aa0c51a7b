//! Characters and character sequences: the vocabulary shared by the lexer,
//! the pipeline splitter and the command-line tokenizer.

use vstd::prelude::*;

verus! {

/// `String::push` appends one character to the end of the string.
pub assume_specification[ String::push ](s: &mut String, ch: char)
    ensures
        final(s)@ == old(s)@.push(ch),
;

/// Whether `c` carries the Unicode `White_Space` property.
pub open spec fn is_space(c: char) -> bool {
    let n = c as u32;
    ||| 0x09 <= n <= 0x0D
    ||| n == 0x20
    ||| n == 0x85
    ||| n == 0xA0
    ||| n == 0x1680
    ||| 0x2000 <= n <= 0x200A
    ||| n == 0x2028
    ||| n == 0x2029
    ||| n == 0x202F
    ||| n == 0x205F
    ||| n == 0x3000
}

/// Whether `c` may begin a name: an ASCII letter or an underscore.
pub open spec fn is_name_start(c: char) -> bool {
    ('a' <= c <= 'z') || ('A' <= c <= 'Z') || c == '_'
}

/// Whether `c` may continue a name: an ASCII letter, an ASCII digit or an
/// underscore.
pub open spec fn is_name_char(c: char) -> bool {
    is_name_start(c) || ('0' <= c <= '9')
}

/// The sets of characters that a scan can run over.
#[derive(Clone, Copy, Debug, PartialEq, Eq)]
pub enum CharClass {
    /// Unicode white space.
    Space,
    /// Everything but white space.
    Visible,
    /// ASCII letters, ASCII digits and the underscore.
    Name,
    /// Everything but the double quote.
    Unquoted,
}

impl CharClass {
    /// Whether `c` belongs to the class.
    pub open spec fn has(self, c: char) -> bool {
        match self {
            CharClass::Space => is_space(c),
            CharClass::Visible => !is_space(c),
            CharClass::Name => is_name_char(c),
            CharClass::Unquoted => c != '"',
        }
    }

    /// Whether `c` belongs to the class.
    pub fn contains(self, c: char) -> (b: bool)
        ensures
            b == self.has(c),
    {
        match self {
            CharClass::Space => is_whitespace(c),
            CharClass::Visible => !is_whitespace(c),
            CharClass::Name => starts_name(c) || ('0' <= c && c <= '9'),
            CharClass::Unquoted => c != '"',
        }
    }
}

/// Whether `c` carries the Unicode `White_Space` property.
pub fn is_whitespace(c: char) -> (b: bool)
    ensures
        b == is_space(c),
{
    let n: u32 = c as u32;
    (0x09 <= n && n <= 0x0D) || n == 0x20 || n == 0x85 || n == 0xA0 || n == 0x1680 || (0x2000 <= n
        && n <= 0x200A) || n == 0x2028 || n == 0x2029 || n == 0x202F || n == 0x205F || n == 0x3000
}

/// Whether `c` may begin a name.
pub fn starts_name(c: char) -> (b: bool)
    ensures
        b == is_name_start(c),
{
    ('a' <= c && c <= 'z') || ('A' <= c && c <= 'Z') || c == '_'
}

/// The length of the longest prefix of `s` whose characters all belong to
/// `class`.
pub open spec fn span(s: Seq<char>, class: CharClass) -> nat
    decreases s.len(),
{
    if s.len() > 0 && class.has(s[0]) {
        1 + span(s.skip(1), class)
    } else {
        0
    }
}

/// The length of the longest suffix of `s` whose characters all belong to
/// `class`.
pub open spec fn span_back(s: Seq<char>, class: CharClass) -> nat
    decreases s.len(),
{
    if s.len() > 0 && class.has(s.last()) {
        1 + span_back(s.drop_last(), class)
    } else {
        0
    }
}

/// `span` stops at the first character outside the class, and nowhere else.
pub proof fn lemma_span(s: Seq<char>, class: CharClass)
    ensures
        span(s, class) <= s.len(),
        forall|i: int| 0 <= i < span(s, class) ==> class.has(#[trigger] s[i]),
        span(s, class) < s.len() ==> !class.has(s[span(s, class) as int]),
    decreases s.len(),
{
    if s.len() > 0 && class.has(s[0]) {
        let t = s.skip(1);
        lemma_span(t, class);
        assert forall|i: int| 0 <= i < span(s, class) implies class.has(#[trigger] s[i]) by {
            if i > 0 {
                assert(s[i] == t[i - 1]);
            }
        }
        if span(s, class) < s.len() {
            assert(s[span(s, class) as int] == t[span(t, class) as int]);
        }
    }
}

/// A length `n` that stops at the first character outside the class is the
/// span.
pub proof fn lemma_span_is(s: Seq<char>, class: CharClass, n: int)
    requires
        0 <= n <= s.len(),
        forall|i: int| 0 <= i < n ==> class.has(#[trigger] s[i]),
        n < s.len() ==> !class.has(s[n]),
    ensures
        span(s, class) == n,
    decreases s.len(),
{
    if n > 0 {
        let t = s.skip(1);
        assert forall|i: int| 0 <= i < n - 1 implies class.has(#[trigger] t[i]) by {
            assert(t[i] == s[i + 1]);
        }
        lemma_span_is(t, class, n - 1);
    }
}

/// `span_back` stops at the last character outside the class, and nowhere
/// else.
pub proof fn lemma_span_back(s: Seq<char>, class: CharClass)
    ensures
        span_back(s, class) <= s.len(),
        forall|i: int| s.len() - span_back(s, class) <= i < s.len() ==> class.has(#[trigger] s[i]),
        span_back(s, class) < s.len() ==> !class.has(s[s.len() - span_back(s, class) - 1]),
    decreases s.len(),
{
    if s.len() > 0 && class.has(s.last()) {
        let t = s.drop_last();
        lemma_span_back(t, class);
        assert forall|i: int| s.len() - span_back(s, class) <= i < s.len() implies class.has(
            #[trigger] s[i],
        ) by {
            if i < s.len() - 1 {
                assert(s[i] == t[i]);
            }
        }
        if span_back(s, class) < s.len() {
            assert(s[s.len() - span_back(s, class) - 1] == t[t.len() - span_back(t, class) - 1]);
        }
    }
}

/// A length `n` that stops at the last character outside the class is the
/// backward span.
pub proof fn lemma_span_back_is(s: Seq<char>, class: CharClass, n: int)
    requires
        0 <= n <= s.len(),
        forall|i: int| s.len() - n <= i < s.len() ==> class.has(#[trigger] s[i]),
        n < s.len() ==> !class.has(s[s.len() - n - 1]),
    ensures
        span_back(s, class) == n,
    decreases s.len(),
{
    if n > 0 {
        let t = s.drop_last();
        assert forall|i: int| t.len() - (n - 1) <= i < t.len() implies class.has(#[trigger] t[i]) by {
            assert(t[i] == s[i]);
        }
        if n - 1 < t.len() {
            assert(t[t.len() - (n - 1) - 1] == s[s.len() - n - 1]);
        }
        lemma_span_back_is(t, class, n - 1);
    }
}

/// `s` without its leading and trailing white space.
pub open spec fn trim(s: Seq<char>) -> Seq<char> {
    let rest = s.skip(span(s, CharClass::Space) as int);
    rest.take(rest.len() - span_back(rest, CharClass::Space))
}

/// What is left of `s` neither begins nor ends with white space.
pub proof fn lemma_trim_is_trimmed(s: Seq<char>)
    ensures
        trim(s).len() > 0 ==> !is_space(trim(s).first()) && !is_space(trim(s).last()),
{
    let rest = s.skip(span(s, CharClass::Space) as int);
    lemma_span(s, CharClass::Space);
    lemma_span_back(rest, CharClass::Space);
}

/// The maximal runs of visible characters in `s`, in order.
pub open spec fn words(s: Seq<char>) -> Seq<Seq<char>>
    decreases s.len(),
{
    if s.len() == 0 {
        Seq::empty()
    } else if is_space(s[0]) {
        words(s.skip(1))
    } else {
        let n = span(s, CharClass::Visible);
        proof {
            lemma_span(s, CharClass::Visible);
        }
        seq![s.take(n as int)] + words(s.skip(n as int))
    }
}

/// A word is not empty and holds no white space.
pub proof fn lemma_words_are_visible(s: Seq<char>, i: int)
    requires
        0 <= i < words(s).len(),
    ensures
        words(s)[i].len() > 0,
        forall|j: int| 0 <= j < words(s)[i].len() ==> !is_space(#[trigger] words(s)[i][j]),
    decreases s.len(),
{
    if s.len() > 0 {
        if is_space(s[0]) {
            lemma_words_are_visible(s.skip(1), i);
        } else {
            lemma_span(s, CharClass::Visible);
            if i > 0 {
                lemma_words_are_visible(s.skip(span(s, CharClass::Visible) as int), i - 1);
            }
        }
    }
}

/// The character sequences that the strings of `v` stand for.
pub open spec fn texts(v: Seq<String>) -> Seq<Seq<char>> {
    Seq::new(v.len(), |i: int| v[i]@)
}

/// The characters of `s`, in order.
pub fn chars_of(s: &str) -> (v: Vec<char>)
    ensures
        v@ == s@,
{
    broadcast use vstd::string::group_string_axioms;

    let mut v: Vec<char> = Vec::new();
    for c in it: s.chars()
        invariant
            it.seq() == s@,
            v@ == it.seq().take(it.index()),
    {
        v.push(c);
    }
    v
}

/// Whether `a` and `b` hold the same characters.
pub fn same_text(a: &str, b: &str) -> (same: bool)
    ensures
        same == (a@ == b@),
{
    let x = chars_of(a);
    let y = chars_of(b);
    if x.len() != y.len() {
        return false;
    }
    let mut i: usize = 0;
    while i < x.len()
        invariant
            x@ == a@,
            y@ == b@,
            x.len() == y.len(),
            i <= x.len(),
            x@.take(i as int) == y@.take(i as int),
        decreases x.len() - i,
    {
        if x[i] != y[i] {
            assert(a@[i as int] != b@[i as int]);
            return false;
        }
        assert(x@.take(i + 1) == x@.take(i as int).push(x@[i as int]));
        assert(y@.take(i + 1) == y@.take(i as int).push(y@[i as int]));
        i = i + 1;
    }
    assert(x@.take(x.len() as int) == x@);
    assert(y@.take(y.len() as int) == y@);
    true
}

/// The string made of `chars[from..to]`.
pub(crate) fn string_of(chars: &Vec<char>, from: usize, to: usize) -> (s: String)
    requires
        from <= to <= chars.len(),
    ensures
        s@ == chars@.subrange(from as int, to as int),
{
    let mut s = String::new();
    let mut i: usize = from;
    while i < to
        invariant
            from <= i <= to <= chars.len(),
            s@ == chars@.subrange(from as int, i as int),
        decreases to - i,
    {
        s.push(chars[i]);
        i = i + 1;
    }
    s
}

/// The end of the run of `class` characters that starts at `from` and stays
/// below `to`.
pub(crate) fn scan(chars: &Vec<char>, from: usize, to: usize, class: CharClass) -> (end: usize)
    requires
        from <= to <= chars.len(),
    ensures
        end == from + span(chars@.subrange(from as int, to as int), class),
        from <= end <= to,
{
    let mut i: usize = from;
    while i < to && class.contains(chars[i])
        invariant
            from <= i <= to <= chars.len(),
            forall|j: int| from <= j < i ==> class.has(#[trigger] chars@[j]),
        decreases to - i,
    {
        i = i + 1;
    }
    proof {
        lemma_span_is(chars@.subrange(from as int, to as int), class, i - from);
    }
    i
}

/// The start of the run of `class` characters that ends at `to` and stays at
/// or above `from`.
pub(crate) fn scan_back(chars: &Vec<char>, from: usize, to: usize, class: CharClass) -> (start: usize)
    requires
        from <= to <= chars.len(),
    ensures
        start == to - span_back(chars@.subrange(from as int, to as int), class),
        from <= start <= to,
{
    let mut i: usize = to;
    while i > from && class.contains(chars[i - 1])
        invariant
            from <= i <= to <= chars.len(),
            forall|j: int| i <= j < to ==> class.has(#[trigger] chars@[j]),
        decreases i,
    {
        i = i - 1;
    }
    proof {
        lemma_span_back_is(chars@.subrange(from as int, to as int), class, to - i);
    }
    i
}

/// The bounds of `chars[from..to]` without its leading and trailing white
/// space.
pub(crate) fn trim_bounds(chars: &Vec<char>, from: usize, to: usize) -> (bounds: (usize, usize))
    requires
        from <= to <= chars.len(),
    ensures
        from <= bounds.0 <= bounds.1 <= to,
        chars@.subrange(bounds.0 as int, bounds.1 as int) == trim(
            chars@.subrange(from as int, to as int),
        ),
{
    let start = scan(chars, from, to, CharClass::Space);
    let end = scan_back(chars, start, to, CharClass::Space);
    proof {
        let s = chars@.subrange(from as int, to as int);
        let rest = s.skip(span(s, CharClass::Space) as int);
        assert(rest == chars@.subrange(start as int, to as int));
        assert(rest.take(rest.len() - span_back(rest, CharClass::Space)) == chars@.subrange(
            start as int,
            end as int,
        ));
    }
    (start, end)
}

/// `s` without its leading and trailing white space, with one space before
/// and one behind it.
pub fn padded(s: &str) -> (out: String)
    ensures
        out@ == seq![' '] + trim(s@) + seq![' '],
{
    let chars = chars_of(s);
    assert(chars@.subrange(0, chars@.len() as int) == s@);
    let bounds = trim_bounds(&chars, 0, chars.len());
    let mut out = String::new();
    out.push(' ');
    let mut i: usize = bounds.0;
    while i < bounds.1
        invariant
            bounds.0 <= i <= bounds.1 <= chars.len(),
            out@ == seq![' '] + chars@.subrange(bounds.0 as int, i as int),
        decreases bounds.1 - i,
    {
        out.push(chars[i]);
        i = i + 1;
    }
    out.push(' ');
    out
}

/// The maximal runs of visible characters in `chars[from..to]`, in order.
pub(crate) fn split_words(chars: &Vec<char>, from: usize, to: usize) -> (out: Vec<String>)
    requires
        from <= to <= chars.len(),
    ensures
        texts(out@) == words(chars@.subrange(from as int, to as int)),
{
    let mut out: Vec<String> = Vec::new();
    let mut i: usize = from;
    while i < to
        invariant
            from <= i <= to <= chars.len(),
            words(chars@.subrange(from as int, to as int)) == texts(out@) + words(
                chars@.subrange(i as int, to as int),
            ),
        decreases to - i,
    {
        let ghost rest = chars@.subrange(i as int, to as int);
        if is_whitespace(chars[i]) {
            assert(rest.skip(1) == chars@.subrange(i + 1, to as int));
            i = i + 1;
        } else {
            let end = scan(chars, i, to, CharClass::Visible);
            let word = string_of(chars, i, end);
            proof {
                assert(rest.take(end - i) == chars@.subrange(i as int, end as int));
                assert(rest.skip(end - i) == chars@.subrange(end as int, to as int));
                assert(texts(out@.push(word)) == texts(out@) + seq![word@]);
            }
            out.push(word);
            i = end;
        }
    }
    out
}

/// The maximal runs of visible characters in `s`, in order.
pub fn words_of(s: &str) -> (out: Vec<String>)
    ensures
        texts(out@) == words(s@),
{
    let chars = chars_of(s);
    assert(chars@.subrange(0, chars@.len() as int) == s@);
    split_words(&chars, 0, chars.len())
}

} // verus!
