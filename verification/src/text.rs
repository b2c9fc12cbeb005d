//! Reading and building text as sequences of characters.
use vstd::prelude::*;
use vstd::string::*;

verus! {

broadcast use vstd::string::group_string_axioms;

/// Whether `needle` occurs in `s` at character offset `at`.
pub open spec fn occurs_at(s: Seq<char>, needle: Seq<char>, at: int) -> bool {
    0 <= at && at + needle.len() <= s.len() && s.subrange(at, at + needle.len()) == needle
}

/// Whether `needle` occurs anywhere in `s`.
pub open spec fn occurs_in(s: Seq<char>, needle: Seq<char>) -> bool {
    exists|at: int| occurs_at(s, needle, at)
}

/// The offset of the first `c` in `s` at or after `from`, or the length of `s`.
pub open spec fn first_char(s: Seq<char>, c: char, from: int) -> int
    decreases s.len() - from,
{
    if from < 0 || from >= s.len() {
        s.len() as int
    } else if s[from] == c {
        from
    } else {
        first_char(s, c, from + 1)
    }
}

/// The part of a dotted path before its first dot; the whole path when there is none.
pub open spec fn leading_segment_of(path: Seq<char>) -> Seq<char> {
    path.subrange(0, first_char(path, '.', 0))
}

/// `first_char` points into the text or to its end, and nothing before it is `c`.
pub proof fn lemma_first_char(s: Seq<char>, c: char, from: int)
    requires
        0 <= from <= s.len(),
    ensures
        from <= first_char(s, c, from) <= s.len(),
        forall|i: int| from <= i < first_char(s, c, from) ==> s[i] != c,
        first_char(s, c, from) < s.len() ==> s[first_char(s, c, from)] == c,
    decreases s.len() - from,
{
    if from < s.len() && s[from] != c {
        lemma_first_char(s, c, from + 1);
    }
}

/// The characters of a text that may be missing.
pub open spec fn text_of(s: Option<String>) -> Option<Seq<char>> {
    match s {
        Some(t) => Some(t@),
        None => None,
    }
}

/// The text of an optional borrowed string.
pub open spec fn given_text(s: Option<&str>) -> Option<Seq<char>> {
    match s {
        Some(t) => Some(t@),
        None => None,
    }
}

/// The characters of `s`, in order.
pub fn chars_of(s: &str) -> (out: Vec<char>)
    ensures
        out@ == s@,
{
    let n: usize = s.unicode_len();
    let mut out: Vec<char> = Vec::new();
    let mut i: usize = 0;
    while i < n
        invariant
            n == s@.len(),
            i <= n,
            out@ == s@.subrange(0, i as int),
        decreases n - i,
    {
        out.push(s.get_char(i));
        i = i + 1;
        assert(out@ =~= s@.subrange(0, i as int));
    }
    assert(out@ =~= s@);
    out
}

/// Whether two texts hold the same characters.
pub fn text_eq(a: &str, b: &str) -> (r: bool)
    ensures
        r == (a@ == b@),
{
    let left: String = a.to_owned();
    let right: String = b.to_owned();
    left == right
}

/// Whether `s` begins with `prefix`.
pub fn starts_with(s: &str, prefix: &str) -> (r: bool)
    ensures
        r == prefix@.is_prefix_of(s@),
{
    let n: usize = s.unicode_len();
    let k: usize = prefix.unicode_len();
    if k > n {
        return false;
    }
    text_eq(s.substring_char(0, k), prefix)
}

/// Whether `s` ends with `suffix`.
pub fn ends_with(s: &str, suffix: &str) -> (r: bool)
    ensures
        r == suffix@.is_suffix_of(s@),
{
    let n: usize = s.unicode_len();
    let k: usize = suffix.unicode_len();
    if k > n {
        return false;
    }
    text_eq(s.substring_char(n - k, n), suffix)
}

/// Whether `needle` occurs in `s`.
pub fn contains_text(s: &str, needle: &str) -> (r: bool)
    ensures
        r == occurs_in(s@, needle@),
{
    let n: usize = s.unicode_len();
    let k: usize = needle.unicode_len();
    if k > n {
        return false;
    }
    let mut at: usize = 0;
    while at <= n - k
        invariant
            n == s@.len(),
            k == needle@.len(),
            k <= n,
            at <= n - k + 1,
            forall|j: int| 0 <= j < at ==> !occurs_at(s@, needle@, j),
        decreases n - k + 1 - at,
    {
        if text_eq(s.substring_char(at, at + k), needle) {
            assert(occurs_at(s@, needle@, at as int));
            return true;
        }
        if at == n - k {
            assert(forall|j: int| !occurs_at(s@, needle@, j));
            return false;
        }
        at = at + 1;
    }
    false
}

/// The offset of the first `c` in `s`, or the length of `s` when there is none.
pub fn find_char(s: &str, c: char) -> (r: usize)
    ensures
        r == first_char(s@, c, 0),
        r <= s@.len(),
{
    let chars: Vec<char> = chars_of(s);
    let mut i: usize = 0;
    while i < chars.len()
        invariant
            chars@ == s@,
            i <= chars.len(),
            first_char(s@, c, 0) == first_char(s@, c, i as int),
        decreases chars.len() - i,
    {
        if chars[i] == c {
            return i;
        }
        i = i + 1;
    }
    i
}

/// The part of a dotted path before its first dot.
pub fn leading_segment(path: &str) -> (r: String)
    ensures
        r@ == leading_segment_of(path@),
{
    let end: usize = find_char(path, '.');
    path.substring_char(0, end).to_owned()
}

/// Whether a character is an ASCII character.
pub open spec fn is_ascii_char(c: char) -> bool {
    (c as u32) < 128
}

/// Whether a character is white space: the Unicode property `White_Space`.
pub open spec fn is_white_space(c: char) -> bool {
    ||| '\t' <= c <= '\r'
    ||| c == ' '
    ||| c == '\u{85}'
    ||| c == '\u{a0}'
    ||| c == '\u{1680}'
    ||| '\u{2000}' <= c <= '\u{200a}'
    ||| c == '\u{2028}'
    ||| c == '\u{2029}'
    ||| c == '\u{202f}'
    ||| c == '\u{205f}'
    ||| c == '\u{3000}'
}

/// `char::is_whitespace`: whether `c` has the Unicode property `White_Space`, which is that of the
/// characters listed in `is_white_space`.
#[verifier::external_body]
fn char_is_whitespace(c: char) -> (r: bool)
    ensures
        r == is_white_space(c),
{
    c.is_whitespace()
}

/// `s` without the white space at its end.
pub open spec fn trim_end_of(s: Seq<char>) -> Seq<char>
    decreases s.len(),
{
    if s.len() == 0 || !is_white_space(s.last()) {
        s
    } else {
        trim_end_of(s.drop_last())
    }
}

/// `s` without the white space at its beginning.
pub open spec fn trim_start_of(s: Seq<char>) -> Seq<char>
    decreases s.len(),
{
    if s.len() == 0 || !is_white_space(s[0]) {
        s
    } else {
        trim_start_of(s.drop_first())
    }
}

/// `s` without the white space at either end.
pub open spec fn trimmed(s: Seq<char>) -> Seq<char> {
    trim_end_of(trim_start_of(s))
}

/// `s` without the white space at either end.
pub fn trim(s: &str) -> (r: String)
    ensures
        r@ == trimmed(s@),
{
    let chars: Vec<char> = chars_of(s);
    let n: usize = chars.len();
    let mut from: usize = 0;
    assert(s@.subrange(0, n as int) =~= s@);
    while from < n && char_is_whitespace(chars[from])
        invariant
            chars@ == s@,
            n == chars.len(),
            from <= n,
            trim_start_of(s@) == trim_start_of(s@.subrange(from as int, n as int)),
        decreases n - from,
    {
        assert(s@.subrange(from as int, n as int).drop_first() =~= s@.subrange(from + 1, n as int));
        from = from + 1;
    }
    let ghost tail = s@.subrange(from as int, n as int);
    assert(trim_start_of(s@) == tail);
    let mut to: usize = n;
    while to > from && char_is_whitespace(chars[to - 1])
        invariant
            chars@ == s@,
            n == chars.len(),
            from <= to <= n,
            tail == s@.subrange(from as int, n as int),
            trim_end_of(tail) == trim_end_of(s@.subrange(from as int, to as int)),
        decreases to - from,
    {
        assert(s@.subrange(from as int, to as int).drop_last() =~= s@.subrange(
            from as int,
            to - 1,
        ));
        to = to - 1;
    }
    s.substring_char(from, to).to_owned()
}

/// Whether a text is made of ASCII characters.
pub open spec fn is_ascii_text(s: Seq<char>) -> bool {
    forall|i: int| 0 <= i < s.len() ==> is_ascii_char(#[trigger] s[i])
}

/// The lower-case form of an ASCII character.
pub open spec fn ascii_lower(c: char) -> char {
    if 'A' <= c <= 'Z' {
        (c as u32 + 32) as char
    } else {
        c
    }
}

/// The upper-case form of an ASCII character.
pub open spec fn ascii_upper(c: char) -> char {
    if 'a' <= c <= 'z' {
        (c as u32 - 32) as char
    } else {
        c
    }
}

/// The lower-case form of a text that is not all ASCII.
pub uninterp spec fn wide_lower_case(s: Seq<char>) -> Seq<char>;

/// The lower-case form of a text.
pub open spec fn lower_case_of(s: Seq<char>) -> Seq<char> {
    if is_ascii_text(s) {
        Seq::new(s.len(), |i: int| ascii_lower(s[i]))
    } else {
        wide_lower_case(s)
    }
}

/// `str::to_lowercase`: the lower-case equivalent of `s` by the Unicode `Lowercase` property. In a
/// text of ASCII characters each capital letter becomes its small one. For others the result depends
/// on the characters of `s` alone.
#[verifier::external_body]
fn lowercase(s: &str) -> (r: String)
    ensures
        is_ascii_text(s@) ==> r@ == Seq::new(s@.len(), |i: int| ascii_lower(s@[i])),
        !is_ascii_text(s@) ==> r@ == wide_lower_case(s@),
{
    s.to_lowercase()
}

/// The lower-case form of a text.
pub fn to_lowercase(s: &str) -> (r: String)
    ensures
        r@ == lower_case_of(s@),
{
    lowercase(s)
}

/// The upper-case form of a character beyond ASCII, which may be several characters.
pub uninterp spec fn wide_upper_case(c: char) -> Seq<char>;

/// The upper-case form of a character.
pub open spec fn upper_case_of(c: char) -> Seq<char> {
    if is_ascii_char(c) {
        seq![ascii_upper(c)]
    } else {
        wide_upper_case(c)
    }
}

/// `char::to_uppercase`: the upper-case mapping of `c`. A small letter of ASCII becomes its capital
/// one, and other ASCII characters stay. For others the result depends on the character alone.
#[verifier::external_body]
fn uppercase(c: char) -> (r: String)
    ensures
        is_ascii_char(c) ==> r@ == seq![ascii_upper(c)],
        !is_ascii_char(c) ==> r@ == wide_upper_case(c),
{
    c.to_uppercase().collect()
}

/// The upper-case form of a character.
pub fn char_to_uppercase(c: char) -> (r: String)
    ensures
        r@ == upper_case_of(c),
{
    uppercase(c)
}

/// Where a text begins that has the white space at its beginning taken off: all before is white space.
proof fn lemma_trim_start(s: Seq<char>) -> (from: int)
    ensures
        0 <= from <= s.len(),
        trim_start_of(s) == s.subrange(from, s.len() as int),
        forall|i: int| 0 <= i < from ==> is_white_space(#[trigger] s[i]),
        from < s.len() ==> !is_white_space(s[from]),
    decreases s.len(),
{
    if s.len() == 0 || !is_white_space(s[0]) {
        assert(s.subrange(0, s.len() as int) =~= s);
        0
    } else {
        let rest = s.drop_first();
        let k = lemma_trim_start(rest);
        assert(rest.subrange(k, rest.len() as int) =~= s.subrange(k + 1, s.len() as int));
        assert forall|i: int| 0 <= i < k + 1 implies is_white_space(#[trigger] s[i]) by {
            if i > 0 {
                assert(rest[i - 1] == s[i]);
            }
        }
        if k < rest.len() {
            assert(rest[k] == s[k + 1]);
        }
        k + 1
    }
}

/// Where a text ends that has the white space at its end taken off: all behind is white space.
proof fn lemma_trim_end(s: Seq<char>) -> (to: int)
    ensures
        0 <= to <= s.len(),
        trim_end_of(s) == s.subrange(0, to),
        forall|i: int| to <= i < s.len() ==> is_white_space(#[trigger] s[i]),
        to > 0 ==> !is_white_space(s[to - 1]),
    decreases s.len(),
{
    if s.len() == 0 || !is_white_space(s.last()) {
        assert(s.subrange(0, s.len() as int) =~= s);
        s.len() as int
    } else {
        let init = s.drop_last();
        let k = lemma_trim_end(init);
        assert(init.subrange(0, k) =~= s.subrange(0, k));
        assert forall|i: int| k <= i < s.len() implies is_white_space(#[trigger] s[i]) by {
            if i < init.len() {
                assert(init[i] == s[i]);
            }
        }
        k
    }
}

/// A text without the white space at its ends is the part of it that is left when only white space is
/// taken off, at both ends as much as there is.
pub proof fn law_trimmed(s: Seq<char>) -> (r: (int, int))
    ensures
        0 <= r.0 <= r.1 <= s.len(),
        trimmed(s) == s.subrange(r.0, r.1),
        forall|i: int| 0 <= i < r.0 || r.1 <= i < s.len() ==> is_white_space(#[trigger] s[i]),
        trimmed(s).len() > 0 ==> !is_white_space(trimmed(s)[0]) && !is_white_space(
            trimmed(s).last(),
        ),
{
    let from = lemma_trim_start(s);
    let rest = trim_start_of(s);
    let to = lemma_trim_end(rest);
    assert(rest.subrange(0, to) =~= s.subrange(from, from + to));
    assert forall|i: int| 0 <= i < from || from + to <= i < s.len() implies is_white_space(
        #[trigger] s[i],
    ) by {
        if i >= from {
            assert(rest[i - from] == s[i]);
        }
    }
    (from, from + to)
}

/// The leading segment of a path is what stands before its first dot, and the whole path where it has
/// none.
pub proof fn law_leading_segment(first: Seq<char>, rest: Seq<char>)
    requires
        !first.contains('.'),
    ensures
        leading_segment_of(first + seq!['.'] + rest) == first,
        leading_segment_of(first) == first,
{
    let path = first + seq!['.'] + rest;
    lemma_first_char(path, '.', 0);
    lemma_first_char(first, '.', 0);
    assert(path[first.len() as int] == '.');
    let at = first_char(path, '.', 0);
    if at < first.len() {
        assert(first[at] == path[at]);
        assert(first.contains(first[at]));
    }
    let end = first_char(first, '.', 0);
    if end < first.len() {
        assert(first.contains(first[end]));
    }
    assert(path.subrange(0, first.len() as int) =~= first);
    assert(first.subrange(0, first.len() as int) =~= first);
}

} // verus!
