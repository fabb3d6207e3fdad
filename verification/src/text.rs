//! Character-level text handling shared by the file formats of this crate.
//!
//! Text is modelled as `Seq<char>`. Executable code works on `Vec<char>` and
//! `&[char]`, which are obtained from and turned back into strings by
//! [`chars_of`] and [`string_of`].

use vstd::prelude::*;
use vstd::slice::slice_subrange;

verus! {

/// `String::push` appends one character to the end of the string.
pub assume_specification[ String::push ](s: &mut String, c: char)
    ensures
        final(s)@ == old(s)@.push(c),
;

/// The characters of `s`, in order.
pub fn chars_of(s: &str) -> (v: Vec<char>)
    ensures
        v@ == s@,
{
    let mut v: Vec<char> = Vec::new();
    for c in it: s.chars()
        invariant
            it.seq() == s@,
            v@ == it.seq().take(it.index() as int),
    {
        v.push(c);
    }
    v
}

/// A string made of the characters of `v`, in order.
pub fn string_of(v: &[char]) -> (s: String)
    ensures
        s@ == v@,
{
    let mut s = String::new();
    let mut i: usize = 0;
    while i < v.len()
        invariant
            i <= v.len(),
            s@ == v@.take(i as int),
        decreases v.len() - i,
    {
        s.push(v[i]);
        i += 1;
    }
    assert(v@.take(v.len() as int) == v@);
    s
}

/// Whether two character sequences are the same.
pub fn same_chars(a: &[char], b: &[char]) -> (r: bool)
    ensures
        r == (a@ == b@),
{
    if a.len() != b.len() {
        return false;
    }
    let mut i: usize = 0;
    while i < a.len()
        invariant
            a.len() == b.len(),
            i <= a.len(),
            a@.take(i as int) == b@.take(i as int),
        decreases a.len() - i,
    {
        if a[i] != b[i] {
            return false;
        }
        assert(a@.take(i + 1) == a@.take(i as int).push(a@[i as int]));
        assert(b@.take(i + 1) == b@.take(i as int).push(b@[i as int]));
        i += 1;
    }
    assert(a@.take(a.len() as int) == a@);
    assert(b@.take(b.len() as int) == b@);
    true
}

/// Whether `a` holds exactly the characters of the string `b`.
pub fn chars_are(a: &[char], b: &str) -> (r: bool)
    ensures
        r == (a@ == b@),
{
    let other = chars_of(b);
    same_chars(a, other.as_slice())
}

/// The Unicode `White_Space` characters.
pub open spec fn is_whitespace(c: char) -> bool {
    let n = c as u32;
    ||| 0x09 <= n <= 0x0d
    ||| n == 0x20
    ||| n == 0x85
    ||| n == 0xa0
    ||| n == 0x1680
    ||| 0x2000 <= n <= 0x200a
    ||| n == 0x2028
    ||| n == 0x2029
    ||| n == 0x202f
    ||| n == 0x205f
    ||| n == 0x3000
}

/// The sets of characters that the file formats strip from the ends of a
/// piece of text.
#[derive(Clone, Copy, Debug)]
pub enum Strip {
    /// Unicode white space.
    Whitespace,
    /// What surrounds the name in a section header: brackets, spaces and
    /// double quotes.
    HeaderMarks,
    /// What surrounds the value of a property: spaces and double quotes.
    ValueMarks,
}

impl Strip {
    /// Whether `c` belongs to the set.
    pub open spec fn holds(self, c: char) -> bool {
        match self {
            Strip::Whitespace => is_whitespace(c),
            Strip::HeaderMarks => c == '[' || c == ' ' || c == ']' || c == '"',
            Strip::ValueMarks => c == ' ' || c == '"',
        }
    }

    /// Whether `c` belongs to the set.
    pub fn test(&self, c: char) -> (r: bool)
        ensures
            r == self.holds(c),
    {
        match self {
            Strip::Whitespace => {
                let n: u32 = c as u32;
                (0x09 <= n && n <= 0x0d) || n == 0x20 || n == 0x85 || n == 0xa0 || n == 0x1680 || (
                0x2000 <= n && n <= 0x200a) || n == 0x2028 || n == 0x2029 || n == 0x202f || n
                    == 0x205f || n == 0x3000
            },
            Strip::HeaderMarks => c == '[' || c == ' ' || c == ']' || c == '"',
            Strip::ValueMarks => c == ' ' || c == '"',
        }
    }
}

/// `s` without its longest prefix of characters in `set`.
pub open spec fn trim_start(s: Seq<char>, set: Strip) -> Seq<char>
    decreases s.len(),
{
    if s.len() > 0 && set.holds(s[0]) {
        trim_start(s.drop_first(), set)
    } else {
        s
    }
}

/// `s` without its longest suffix of characters in `set`.
pub open spec fn trim_end(s: Seq<char>, set: Strip) -> Seq<char>
    decreases s.len(),
{
    if s.len() > 0 && set.holds(s.last()) {
        trim_end(s.drop_last(), set)
    } else {
        s
    }
}

/// `s` without the characters of `set` at either end.
pub open spec fn trim(s: Seq<char>, set: Strip) -> Seq<char> {
    trim_end(trim_start(s, set), set)
}

/// The part of `s` that is left when the characters of `set` are stripped
/// from both ends.
pub fn trimmed<'a>(s: &'a [char], set: Strip) -> (r: &'a [char])
    ensures
        r@ == trim(s@, set),
{
    let mut a: usize = 0;
    let n = s.len();
    assert(s@.subrange(0, n as int) == s@);
    while a < n && set.test(s[a])
        invariant
            a <= n,
            n == s.len(),
            trim_start(s@, set) == trim_start(s@.subrange(a as int, n as int), set),
        decreases n - a,
    {
        assert(s@.subrange(a as int, n as int).drop_first() == s@.subrange(a + 1, n as int));
        a += 1;
    }
    assert(trim_start(s@, set) == s@.subrange(a as int, n as int));
    let mut b: usize = n;
    while a < b && set.test(s[b - 1])
        invariant
            a <= b <= n,
            n == s.len(),
            trim(s@, set) == trim_end(s@.subrange(a as int, b as int), set),
        decreases b - a,
    {
        assert(s@.subrange(a as int, b as int).drop_last() == s@.subrange(a as int, b - 1));
        b -= 1;
    }
    slice_subrange(s, a, b)
}

/// The part of `s` that is left when the characters of `set` are stripped
/// from its end.
pub fn trimmed_end<'a>(s: &'a [char], set: Strip) -> (r: &'a [char])
    ensures
        r@ == trim_end(s@, set),
{
    let mut b: usize = s.len();
    assert(s@.subrange(0, b as int) == s@);
    while 0 < b && set.test(s[b - 1])
        invariant
            b <= s.len(),
            trim_end(s@, set) == trim_end(s@.subrange(0, b as int), set),
        decreases b,
    {
        assert(s@.subrange(0, b as int).drop_last() == s@.subrange(0, b - 1));
        b -= 1;
    }
    slice_subrange(s, 0, b)
}

/// The index of the first `c` in `s`, or the length of `s` where it holds
/// none.
pub open spec fn first_index(s: Seq<char>, c: char) -> int
    decreases s.len(),
{
    if s.len() == 0 || s[0] == c {
        0
    } else {
        1 + first_index(s.drop_first(), c)
    }
}

/// `first_index` is the least index at which `c` stands.
pub proof fn lemma_first_index(s: Seq<char>, c: char)
    ensures
        0 <= first_index(s, c) <= s.len(),
        first_index(s, c) < s.len() ==> s[first_index(s, c)] == c,
        forall|j: int| 0 <= j < first_index(s, c) ==> s[j] != c,
    decreases s.len(),
{
    if s.len() == 0 || s[0] == c {
    } else {
        let t = s.drop_first();
        lemma_first_index(t, c);
        assert forall|j: int| 0 <= j < first_index(s, c) implies s[j] != c by {
            if j > 0 {
                assert(s[j] == t[j - 1]);
            }
        }
    }
}

/// An index with the properties of `first_index` is `first_index`.
pub proof fn lemma_first_index_is(s: Seq<char>, c: char, i: int)
    requires
        0 <= i <= s.len(),
        i < s.len() ==> s[i] == c,
        forall|j: int| 0 <= j < i ==> s[j] != c,
    ensures
        first_index(s, c) == i,
{
    lemma_first_index(s, c);
    let k = first_index(s, c);
    if k < i {
        assert(s[k] != c);
    }
}

/// The index in `s` of the first `c` at or after `from`, or the length of
/// `s` where there is none.
pub fn find_from(s: &[char], c: char, from: usize) -> (i: usize)
    requires
        from <= s.len(),
    ensures
        i == from + first_index(s@.skip(from as int), c),
        from <= i <= s.len(),
{
    let mut i: usize = from;
    let n = s.len();
    while i < n && s[i] != c
        invariant
            from <= i <= n,
            n == s.len(),
            forall|j: int| from <= j < i ==> s@[j] != c,
        decreases n - i,
    {
        i += 1;
    }
    proof {
        lemma_first_index_is(s@.skip(from as int), c, i - from);
    }
    i
}

/// Whether `c` occurs in `s`.
pub fn contains_char(s: &str, c: char) -> (r: bool)
    ensures
        r == s@.contains(c),
{
    let v = chars_of(s);
    let i = find_from(v.as_slice(), c, 0);
    proof {
        assert(v@.skip(0) == v@);
        lemma_first_index(v@, c);
    }
    i < v.len()
}

/// The pieces of `s` between its line feeds. A text without a line feed
/// is one line; a text that ends in a line feed has an empty last line.
pub open spec fn split_lines(s: Seq<char>) -> Seq<Seq<char>>
    decreases s.len(),
{
    let i = first_index(s, '\n');
    if 0 <= i < s.len() {
        seq![s.take(i)] + split_lines(s.skip(i + 1))
    } else {
        seq![s]
    }
}

/// Whether `s` begins with `prefix`.
pub open spec fn starts_with(s: Seq<char>, prefix: Seq<char>) -> bool {
    prefix.len() <= s.len() && s.take(prefix.len() as int) == prefix
}

/// `to` before each character of `s`, and once more at the end.
pub open spec fn interleaved(s: Seq<char>, to: Seq<char>) -> Seq<char>
    decreases s.len(),
{
    if s.len() == 0 {
        to
    } else {
        to + seq![s[0]] + interleaved(s.drop_first(), to)
    }
}

/// `s` with every occurrence of `from` replaced by `to`, found from left
/// to right without overlap. The empty text occurs before each character
/// and at the end.
pub open spec fn replace(s: Seq<char>, from: Seq<char>, to: Seq<char>) -> Seq<char>
    decreases s.len(),
{
    if from.len() == 0 {
        interleaved(s, to)
    } else if s.len() == 0 {
        s
    } else if starts_with(s, from) {
        to + replace(s.skip(from.len() as int), from, to)
    } else {
        seq![s[0]] + replace(s.drop_first(), from, to)
    }
}

/// A text that holds no character of `from` stays as it is.
pub proof fn lemma_replace_nothing(t: Seq<char>, from: Seq<char>, to: Seq<char>)
    requires
        from.len() > 0,
        forall|i: int| 0 <= i < t.len() ==> !from.contains(#[trigger] t[i]),
    ensures
        replace(t, from, to) == t,
    decreases t.len(),
{
    if t.len() > 0 {
        if starts_with(t, from) {
            assert(t.take(from.len() as int)[0] == from[0]);
            assert(from.contains(t[0]));
        }
        let rest = t.drop_first();
        assert forall|i: int| 0 <= i < rest.len() implies !from.contains(#[trigger] rest[i]) by {
            assert(rest[i] == t[i + 1]);
        }
        lemma_replace_nothing(rest, from, to);
        assert(seq![t[0]] + rest == t);
    }
}

/// What follows a text and holds no character of `from` stays behind it
/// as it is.
pub proof fn lemma_replace_before(s: Seq<char>, t: Seq<char>, from: Seq<char>, to: Seq<char>)
    requires
        from.len() > 0,
        forall|i: int| 0 <= i < t.len() ==> !from.contains(#[trigger] t[i]),
    ensures
        replace(s + t, from, to) == replace(s, from, to) + t,
    decreases s.len(),
{
    let k = from.len() as int;
    if s.len() == 0 {
        assert(s + t == t);
        lemma_replace_nothing(t, from, to);
        assert(s + t == t);
    } else if starts_with(s + t, from) {
        if k > s.len() {
            assert((s + t).take(k)[s.len() as int] == from[s.len() as int]);
            assert((s + t)[s.len() as int] == t[0]);
            assert(from.contains(t[0]));
        }
        assert((s + t).take(k) == s.take(k));
        assert((s + t).skip(k) == s.skip(k) + t);
        lemma_replace_before(s.skip(k), t, from, to);
        assert(to + (replace(s.skip(k), from, to) + t) == to + replace(s.skip(k), from, to) + t);
    } else {
        if starts_with(s, from) {
            assert((s + t).take(k) == s.take(k));
        }
        assert((s + t).drop_first() == s.drop_first() + t);
        assert((s + t)[0] == s[0]);
        lemma_replace_before(s.drop_first(), t, from, to);
        assert(seq![s[0]] + (replace(s.drop_first(), from, to) + t) == seq![s[0]] + replace(
            s.drop_first(),
            from,
            to,
        ) + t);
    }
}

/// Whether `s`, read from index `at`, begins with `prefix`.
pub fn starts_with_at(s: &[char], at: usize, prefix: &[char]) -> (r: bool)
    requires
        at <= s.len(),
    ensures
        r == starts_with(s@.skip(at as int), prefix@),
{
    if prefix.len() > s.len() - at {
        return false;
    }
    let piece = slice_subrange(s, at, at + prefix.len());
    assert(piece@ == s@.skip(at as int).take(prefix.len() as int));
    same_chars(piece, prefix)
}

/// Replaces every occurrence of `from` in `s` by `to`.
pub fn replaced(s: &[char], from: &[char], to: &[char]) -> (r: Vec<char>)
    ensures
        r@ == replace(s@, from@, to@),
{
    let mut r: Vec<char> = Vec::new();
    let mut i: usize = 0;
    let n = s.len();
    assert(s@.skip(0) == s@);
    if from.len() == 0 {
        while i < n
            invariant
                i <= n,
                n == s.len(),
                interleaved(s@, to@) == r@ + interleaved(s@.skip(i as int), to@),
            decreases n - i,
        {
            let ghost rest = s@.skip(i as int);
            let ghost before = r@;
            push_all(&mut r, to);
            r.push(s[i]);
            assert(rest.drop_first() == s@.skip(i + 1));
            assert(r@ == before + (to@ + seq![rest[0]]));
            i += 1;
        }
        push_all(&mut r, to);
        return r;
    }
    while i < n
        invariant
            i <= n,
            n == s.len(),
            from.len() > 0,
            replace(s@, from@, to@) == r@ + replace(s@.skip(i as int), from@, to@),
        decreases n - i,
    {
        let ghost rest = s@.skip(i as int);
        if starts_with_at(s, i, from) {
            push_all(&mut r, to);
            assert(rest.skip(from.len() as int) == s@.skip(i + from.len()));
            i += from.len();
        } else {
            r.push(s[i]);
            assert(rest.drop_first() == s@.skip(i + 1));
            i += 1;
        }
    }
    r
}

/// Appends the characters of `more` to `v`.
pub fn push_all(v: &mut Vec<char>, more: &[char])
    ensures
        final(v)@ == old(v)@ + more@,
{
    let mut k: usize = 0;
    while k < more.len()
        invariant
            k <= more.len(),
            v@ == old(v)@ + more@.take(k as int),
        decreases more.len() - k,
    {
        v.push(more[k]);
        k += 1;
    }
    assert(more@.take(more.len() as int) == more@);
}

/// `s` with every occurrence of `from` replaced by `to`.
pub fn replace_in(s: &str, from: &str, to: &str) -> (r: String)
    ensures
        r@ == replace(s@, from@, to@),
{
    let a = chars_of(s);
    let b = chars_of(from);
    let c = chars_of(to);
    let r = replaced(a.as_slice(), b.as_slice(), c.as_slice());
    string_of(r.as_slice())
}

} // verus!
