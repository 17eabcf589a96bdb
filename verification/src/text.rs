//! Text, character by character.

use vstd::prelude::*;
use vstd::slice::slice_subrange;
use vstd::string::*;
use vstd::utf8::*;

verus! {

/// `String::push`: the given character goes to the end of the string.
pub assume_specification[ String::push ](text: &mut String, c: char)
    ensures
        final(text)@ == old(text)@.push(c),
;

/// The position of the first `c` in `s`, or the length of `s` where there is none.
pub open spec fn index_of_char(s: Seq<char>, c: char) -> nat
    decreases s.len(),
{
    if s.len() == 0 || s[0] == c {
        0
    } else {
        1 + index_of_char(s.drop_first(), c)
    }
}

/// What stands in `s` before the first `c`: all of `s` where there is no `c`.
pub open spec fn before_char(s: Seq<char>, c: char) -> Seq<char> {
    s.take(index_of_char(s, c) as int)
}

/// What stands in `s` behind the first `c`, where there is one.
pub open spec fn after_char(s: Seq<char>, c: char) -> Option<Seq<char>> {
    if s.contains(c) {
        Some(s.skip(index_of_char(s, c) as int + 1))
    } else {
        None
    }
}

/// Whether `needle` stands somewhere in `s`.
pub open spec fn contains_text(s: Seq<char>, needle: Seq<char>) -> bool {
    exists|i: int| #[trigger] occurs_at(s, needle, i)
}

/// Whether `needle` stands in `s` from position `i` on.
pub open spec fn occurs_at(s: Seq<char>, needle: Seq<char>, i: int) -> bool {
    0 <= i <= s.len() - needle.len() && s.subrange(i, i + needle.len()) == needle
}

/// The characters with the Unicode property `White_Space`.
pub open spec fn is_whitespace(c: char) -> bool {
    ||| '\u{9}' <= c <= '\u{d}'
    ||| c == ' '
    ||| c == '\u{85}'
    ||| c == '\u{a0}'
    ||| c == '\u{1680}'
    ||| '\u{2000}' <= c <= '\u{200a}'
    ||| c == '\u{2028}'
    ||| c == '\u{2029}'
    ||| c == '\u{202f}'
    ||| c == '\u{205f}'
    ||| c == '\u{3000}'
}

/// `s` without the white space at its beginning.
pub open spec fn trim_start(s: Seq<char>) -> Seq<char>
    decreases s.len(),
{
    if s.len() > 0 && is_whitespace(s[0]) {
        trim_start(s.drop_first())
    } else {
        s
    }
}

/// `s` without the white space at its end.
pub open spec fn trim_end(s: Seq<char>) -> Seq<char>
    decreases s.len(),
{
    if s.len() > 0 && is_whitespace(s.last()) {
        trim_end(s.drop_last())
    } else {
        s
    }
}

/// `s` without the white space at either end.
pub open spec fn trim(s: Seq<char>) -> Seq<char> {
    trim_end(trim_start(s))
}

/// `s` without the characters `c` at its beginning.
pub open spec fn trim_start_char(s: Seq<char>, c: char) -> Seq<char>
    decreases s.len(),
{
    if s.len() > 0 && s[0] == c {
        trim_start_char(s.drop_first(), c)
    } else {
        s
    }
}

/// `c` in lower case, where it is an ASCII letter.
pub open spec fn ascii_lower(c: char) -> char {
    if 'A' <= c <= 'Z' {
        (c as nat + 32) as char
    } else {
        c
    }
}

/// `s` with its ASCII letters in lower case.
pub open spec fn lower_case(s: Seq<char>) -> Seq<char> {
    s.map_values(|c: char| ascii_lower(c))
}

/// What stands before a character that `front` does not hold, and what stands behind it.
pub proof fn lemma_split(front: Seq<char>, c: char, back: Seq<char>)
    requires
        !front.contains(c),
    ensures
        before_char(front + seq![c] + back, c) == front,
        after_char(front + seq![c] + back, c) == Some(back),
{
    let whole = front + seq![c] + back;
    lemma_index_of_char(whole, c, front.len() as int);
    assert(whole[front.len() as int] == c);
    assert(whole.take(front.len() as int) == front);
    assert(whole.skip(front.len() as int + 1) == back);
}

/// Where a text does not hold a character, all of it stands before that character.
pub proof fn lemma_no_split(s: Seq<char>, c: char)
    requires
        !s.contains(c),
    ensures
        before_char(s, c) == s,
{
    lemma_index_of_char(s, c, s.len() as int);
    assert(s.take(s.len() as int) == s);
}

/// The first occurrence of a character is where it stands and does not stand before.
proof fn lemma_index_of_char(s: Seq<char>, c: char, at: int)
    requires
        0 <= at <= s.len(),
        forall|j: int| 0 <= j < at ==> s[j] != c,
        at < s.len() ==> s[at] == c,
    ensures
        index_of_char(s, c) == at,
    decreases s.len(),
{
    if s.len() > 0 && at > 0 {
        assert(s[0] != c);
        lemma_index_of_char(s.drop_first(), c, at - 1);
    }
}

/// What `str::to_lowercase` makes of a text.
pub uninterp spec fn lowercased(text: Seq<char>) -> Seq<char>;

/// `str::to_lowercase`: the text in lower case. Of ASCII text only the letters `A` to `Z` change.
#[verifier::external_body]
pub(crate) fn to_lowercase(text: &str) -> (lower: String)
    ensures
        lower@ == lowercased(text@),
        is_ascii_chars(text@) ==> lower@ == lower_case(text@),
{
    text.to_lowercase()
}

/// Line breaks behind a text without white space at either end are trimmed away.
pub proof fn lemma_trim_line_break(s: Seq<char>)
    requires
        s.len() > 0,
        !is_whitespace(s[0]),
        !is_whitespace(s.last()),
    ensures
        trim(s + seq!['\r', '\n']) == s,
{
    let line = s + seq!['\r', '\n'];
    assert(trim_start(line) == line);
    assert(line.drop_last() == s.push('\r'));
    assert(s.push('\r').drop_last() == s);
    assert(is_whitespace('\r') && is_whitespace('\n'));
    assert(trim_end(s) == s);
    assert(trim_end(s.push('\r')) == s);
}

/// The characters of `text`, in order.
pub fn chars_of(text: &str) -> (chars: Vec<char>)
    ensures
        chars@ == text@,
{
    let mut chars: Vec<char> = Vec::new();
    for c in it: text.chars()
        invariant
            it.seq() == text@,
            chars@ == text@.take(it.index() as int),
    {
        assert(text@.take(it.index() as int).push(c) == text@.take(it.index() as int + 1));
        chars.push(c);
    }
    assert(text@.take(text@.len() as int) == text@);
    chars
}

/// The string made of the given characters.
pub fn string_of(chars: &[char]) -> (text: String)
    ensures
        text@ == chars@,
{
    let mut text = String::new();
    for i in 0..chars.len()
        invariant
            text@ == chars@.take(i as int),
    {
        assert(chars@.take(i as int).push(chars@[i as int]) == chars@.take(i + 1));
        text.push(chars[i]);
    }
    assert(chars@.take(chars@.len() as int) == chars@);
    text
}

/// Whether two texts are the same.
pub fn same_text(a: &str, b: &str) -> (same: bool)
    ensures
        same == (a@ == b@),
{
    same_chars(chars_of(a).as_slice(), chars_of(b).as_slice())
}

/// Whether two runs of characters are the same.
pub fn same_chars(a: &[char], b: &[char]) -> (same: bool)
    ensures
        same == (a@ == b@),
{
    if a.len() != b.len() {
        return false;
    }
    for i in 0..a.len()
        invariant
            a@.len() == b@.len(),
            a@.take(i as int) == b@.take(i as int),
    {
        if a[i] != b[i] {
            return false;
        }
        assert(a@.take(i + 1) == a@.take(i as int).push(a@[i as int]));
        assert(b@.take(i + 1) == b@.take(i as int).push(b@[i as int]));
    }
    assert(a@.take(a@.len() as int) == a@);
    assert(b@.take(b@.len() as int) == b@);
    true
}

/// Whether `needle` stands in `chars` from position `at` on.
fn occurs(chars: &[char], needle: &[char], at: usize) -> (found: bool)
    requires
        at + needle@.len() <= chars@.len(),
    ensures
        found == occurs_at(chars@, needle@, at as int),
{
    let rest = slice_subrange(chars, at, chars.len());
    let part = slice_subrange(rest, 0, needle.len());
    assert(part@ == chars@.subrange(at as int, at + needle@.len()));
    same_chars(part, needle)
}

/// Whether `needle` stands somewhere in `text`.
pub fn contains(text: &str, needle: &str) -> (found: bool)
    ensures
        found == contains_text(text@, needle@),
{
    let chars = chars_of(text);
    let sought = chars_of(needle);
    if sought.len() > chars.len() {
        return false;
    }
    let last = chars.len() - sought.len();
    let mut i: usize = 0;
    while i <= last
        invariant
            chars@ == text@,
            sought@ == needle@,
            last == chars@.len() - sought@.len(),
            0 <= i <= last + 1,
            forall|j: int| 0 <= j < i ==> !#[trigger] occurs_at(text@, needle@, j),
        decreases last + 1 - i,
    {
        if occurs(chars.as_slice(), sought.as_slice(), i) {
            return true;
        }
        if i == last {
            return false;
        }
        i += 1;
    }
    false
}

/// Whether `text` begins with `prefix`.
pub fn starts_with(text: &str, prefix: &str) -> (found: bool)
    ensures
        found == prefix@.is_prefix_of(text@),
{
    let chars = chars_of(text);
    let sought = chars_of(prefix);
    if sought.len() > chars.len() {
        return false;
    }
    occurs(chars.as_slice(), sought.as_slice(), 0)
}

/// Whether `text` ends with `suffix`.
pub fn ends_with(text: &str, suffix: &str) -> (found: bool)
    ensures
        found == suffix@.is_suffix_of(text@),
{
    let chars = chars_of(text);
    let sought = chars_of(suffix);
    if sought.len() > chars.len() {
        return false;
    }
    occurs(chars.as_slice(), sought.as_slice(), chars.len() - sought.len())
}

/// The position of the first `c` in `chars`, or their number where there is none.
pub fn find_char(chars: &[char], c: char) -> (at: usize)
    ensures
        at == index_of_char(chars@, c),
        at <= chars@.len(),
        at < chars@.len() <==> chars@.contains(c),
{
    let mut i: usize = 0;
    assert(chars@.skip(0) == chars@);
    while i < chars.len() && chars[i] != c
        invariant
            i <= chars@.len(),
            i + index_of_char(chars@.skip(i as int), c) == index_of_char(chars@, c),
            forall|j: int| 0 <= j < i ==> chars@[j] != c,
        decreases chars@.len() - i,
    {
        assert(chars@.skip(i as int).drop_first() == chars@.skip(i + 1));
        i += 1;
    }
    if i < chars.len() {
        assert(chars@.skip(i as int)[0] == c);
    }
    i
}

/// Whether `c` has the Unicode property `White_Space`.
fn is_white(c: char) -> (white: bool)
    ensures
        white == is_whitespace(c),
{
    ('\u{9}' <= c && c <= '\u{d}') || c == ' ' || c == '\u{85}' || c == '\u{a0}' || c == '\u{1680}'
        || ('\u{2000}' <= c && c <= '\u{200a}') || c == '\u{2028}' || c == '\u{2029}' || c
        == '\u{202f}' || c == '\u{205f}' || c == '\u{3000}'
}

/// `chars` without the white space at either end.
pub fn trimmed(chars: &[char]) -> (inner: &[char])
    ensures
        inner@ == trim(chars@),
{
    let mut from: usize = 0;
    assert(chars@.skip(0) == chars@);
    while from < chars.len() && is_white(chars[from])
        invariant
            from <= chars@.len(),
            trim_start(chars@.skip(from as int)) == trim_start(chars@),
        decreases chars@.len() - from,
    {
        assert(chars@.skip(from as int).drop_first() == chars@.skip(from + 1));
        from += 1;
    }
    let ghost front = chars@.skip(from as int);
    assert(trim_start(chars@) == front);
    let mut to: usize = chars.len();
    assert(chars@.subrange(from as int, to as int) == front);
    while from < to && is_white(chars[to - 1])
        invariant
            from <= to <= chars@.len(),
            trim_end(chars@.subrange(from as int, to as int)) == trim_end(front),
        decreases to,
    {
        assert(chars@.subrange(from as int, to as int).drop_last() == chars@.subrange(
            from as int,
            to - 1,
        ));
        to -= 1;
    }
    slice_subrange(chars, from, to)
}

/// `chars` without the characters `c` at their beginning.
pub fn trimmed_start_char(chars: &[char], c: char) -> (inner: &[char])
    ensures
        inner@ == trim_start_char(chars@, c),
{
    let mut from: usize = 0;
    assert(chars@.skip(0) == chars@);
    while from < chars.len() && chars[from] == c
        invariant
            from <= chars@.len(),
            trim_start_char(chars@.skip(from as int), c) == trim_start_char(chars@, c),
        decreases chars@.len() - from,
    {
        assert(chars@.skip(from as int).drop_first() == chars@.skip(from + 1));
        from += 1;
    }
    assert(chars@.subrange(from as int, chars@.len() as int) == chars@.skip(from as int));
    slice_subrange(chars, from, chars.len())
}

/// A text stands somewhere in another one where that is made of it and of what is around it, and
/// only there.
pub proof fn law_contained_text(s: Seq<char>, needle: Seq<char>)
    ensures
        contains_text(s, needle) <==> exists|front: Seq<char>, back: Seq<char>|
            s == #[trigger] (front + needle + back),
{
    if contains_text(s, needle) {
        let i = choose|i: int| #[trigger] occurs_at(s, needle, i);
        let front = s.take(i);
        let back = s.skip(i + needle.len());
        assert(s == front + needle + back);
    }
    if exists|front: Seq<char>, back: Seq<char>| s == #[trigger] (front + needle + back) {
        let (front, back) = choose|front: Seq<char>, back: Seq<char>|
            s == #[trigger] (front + needle + back);
        let at = front.len() as int;
        assert(s.subrange(at, at + needle.len()) == needle);
        assert(occurs_at(s, needle, at));
    }
}

/// Trimming takes white space off the beginning and leaves what stands behind.
proof fn lemma_trim_start(s: Seq<char>) -> (cut: int)
    ensures
        0 <= cut <= s.len(),
        trim_start(s) == s.skip(cut),
        forall|i: int| 0 <= i < cut ==> is_whitespace(#[trigger] s[i]),
        cut < s.len() ==> !is_whitespace(s[cut]),
    decreases s.len(),
{
    if s.len() > 0 && is_whitespace(s[0]) {
        let rest = s.drop_first();
        let cut = lemma_trim_start(rest);
        assert(rest.skip(cut) == s.skip(cut + 1));
        assert forall|i: int| 0 <= i < cut + 1 implies is_whitespace(#[trigger] s[i]) by {
            if i > 0 {
                assert(rest[i - 1] == s[i]);
            }
        }
        cut + 1
    } else {
        assert(s.skip(0) == s);
        0
    }
}

/// Trimming takes white space off the end and leaves what stands before.
proof fn lemma_trim_end(s: Seq<char>) -> (kept: int)
    ensures
        0 <= kept <= s.len(),
        trim_end(s) == s.take(kept),
        forall|i: int| kept <= i < s.len() ==> is_whitespace(#[trigger] s[i]),
        kept > 0 ==> !is_whitespace(s[kept - 1]),
    decreases s.len(),
{
    if s.len() > 0 && is_whitespace(s.last()) {
        let front = s.drop_last();
        let kept = lemma_trim_end(front);
        assert(front.take(kept) == s.take(kept));
        assert forall|i: int| kept <= i < s.len() implies is_whitespace(#[trigger] s[i]) by {
            if i < front.len() {
                assert(front[i] == s[i]);
            }
        }
        kept
    } else {
        assert(s.take(s.len() as int) == s);
        s.len() as int
    }
}

/// Trimming takes nothing but white space, and leaves none at either end: around a text that has
/// none there, all white space is taken and the text stays.
pub proof fn law_trim(front: Seq<char>, inner: Seq<char>, back: Seq<char>)
    requires
        forall|i: int| 0 <= i < front.len() ==> is_whitespace(#[trigger] front[i]),
        forall|i: int| 0 <= i < back.len() ==> is_whitespace(#[trigger] back[i]),
        inner.len() > 0 ==> !is_whitespace(inner[0]) && !is_whitespace(inner.last()),
    ensures
        trim(front + inner + back) == inner,
{
    let s = front + inner + back;
    let cut = lemma_trim_start(s);
    let rest = trim_start(s);
    let kept = lemma_trim_end(rest);
    if inner.len() > 0 {
        assert(s[front.len() as int] == inner[0]);
        assert forall|i: int| 0 <= i < front.len() implies is_whitespace(#[trigger] s[i]) by {
            assert(s[i] == front[i]);
        }
        assert(cut == front.len());
        assert(rest == inner + back);
        assert(rest[inner.len() - 1] == inner.last());
        assert forall|i: int| inner.len() <= i < rest.len() implies is_whitespace(
            #[trigger] rest[i],
        ) by {
            assert(rest[i] == back[i - inner.len()]);
        }
        assert(kept == inner.len());
        assert(rest.take(kept) == inner);
    } else {
        assert forall|i: int| 0 <= i < s.len() implies is_whitespace(#[trigger] s[i]) by {
            if i < front.len() {
                assert(s[i] == front[i]);
            } else {
                assert(s[i] == back[i - front.len()]);
            }
        }
        assert(cut == s.len());
        assert(rest.len() == 0);
        assert(trim(s) == inner);
    }
}

/// However often a character stands at the beginning, all of these are taken and nothing else.
pub proof fn law_trim_start_char(count: nat, inner: Seq<char>, c: char)
    requires
        inner.len() > 0 ==> inner[0] != c,
    ensures
        trim_start_char(Seq::new(count, |i: int| c) + inner, c) == inner,
    decreases count,
{
    let s = Seq::new(count, |i: int| c) + inner;
    if count > 0 {
        assert(s[0] == c);
        assert(s.drop_first() == Seq::new((count - 1) as nat, |i: int| c) + inner);
        law_trim_start_char((count - 1) as nat, inner, c);
    } else {
        assert(s == inner);
    }
}

/// In lower case every letter from `A` to `Z` is the one that stands 32 behind it, and every other
/// character is itself.
pub proof fn law_lower_case(s: Seq<char>, i: int)
    requires
        0 <= i < s.len(),
    ensures
        lower_case(s).len() == s.len(),
        65 <= s[i] as nat <= 90 ==> lower_case(s)[i] as nat == s[i] as nat + 32,
        !(65 <= s[i] as nat <= 90) ==> lower_case(s)[i] == s[i],
{
}

} // verus!
