//! Text as sequences of characters: comparing, stripping, splitting and joining.
//!
//! Every operation is specified over `Seq<char>`, the view of `str` and `String`, and the
//! executable functions work on borrowed text: what they return points into their argument.

use vstd::prelude::*;
use vstd::string::*;
use vstd::utf8::*;

verus! {

/// The character sequences of a list of strings.
pub open spec fn texts(strs: Seq<&str>) -> Seq<Seq<char>> {
    Seq::new(strs.len(), |i: int| strs[i]@)
}

/// `text` cut at every occurrence of `separator`.
///
/// There is always one piece more than there are separators: the empty text gives one empty
/// piece, and a separator at either end gives an empty piece there.
pub open spec fn split(text: Seq<char>, separator: char) -> Seq<Seq<char>>
    decreases text.len(),
{
    if text.len() == 0 {
        seq![Seq::empty()]
    } else {
        let before = split(text.drop_last(), separator);
        if text.last() == separator {
            before.push(Seq::empty())
        } else {
            before.drop_last().push(before.last().push(text.last()))
        }
    }
}

/// The pieces in order, with `separator` between each two neighbours.
pub open spec fn join(parts: Seq<Seq<char>>, separator: Seq<char>) -> Seq<char>
    decreases parts.len(),
{
    if parts.len() == 0 {
        Seq::empty()
    } else if parts.len() == 1 {
        parts[0]
    } else {
        join(parts.drop_last(), separator) + separator + parts.last()
    }
}

/// `text` without one trailing `suffix`, where it ends with one; `text` as it is where it
/// does not.
pub open spec fn strip_once(text: Seq<char>, suffix: Seq<char>) -> Seq<char> {
    if suffix.is_suffix_of(text) {
        text.subrange(0, text.len() - suffix.len())
    } else {
        text
    }
}

/// Number of occurrences of `c` in `text`.
pub open spec fn count(text: Seq<char>, c: char) -> nat
    decreases text.len(),
{
    if text.len() == 0 {
        0
    } else {
        count(text.drop_last(), c) + if text.last() == c {
            1nat
        } else {
            0nat
        }
    }
}

/// A split has one piece more than the text has separators.
pub proof fn lemma_split_len(text: Seq<char>, separator: char)
    ensures
        split(text, separator).len() == count(text, separator) + 1,
    decreases text.len(),
{
    if text.len() > 0 {
        lemma_split_len(text.drop_last(), separator);
    }
}

/// Whether two strings hold the same characters.
pub fn same_text(left: &str, right: &str) -> (same: bool)
    ensures
        same == (left@ == right@),
{
    let a = left.as_bytes();
    let b = right.as_bytes();
    proof {
        encode_utf8_decode_utf8(left@);
        encode_utf8_decode_utf8(right@);
    }
    if a.len() != b.len() {
        return false;
    }
    let mut i: usize = 0;
    while i < a.len()
        invariant
            i <= a.len(),
            a.len() == b.len(),
            forall|k: int| 0 <= k < i ==> a@[k] == b@[k],
            a@ == left.spec_bytes(),
            b@ == right.spec_bytes(),
            decode_utf8(left.spec_bytes()) == left@,
            decode_utf8(right.spec_bytes()) == right@,
        decreases a.len() - i,
    {
        if a[i] != b[i] {
            return false;
        }
        i += 1;
    }
    assert(a@ =~= b@);
    true
}

/// The characters of a string, one element each.
pub fn chars_of(text: &str) -> (chars: Vec<char>)
    ensures
        chars@ == text@,
{
    broadcast use vstd::string::axiom_spec_iter;

    let mut chars: Vec<char> = Vec::new();
    for c in it: text.chars()
        invariant
            it.seq() == text@,
            chars@ == text@.take(it.index()),
    {
        chars.push(c);
    }
    chars
}

/// Whether the first `end` characters of `chars` end with `pattern`.
fn ends_with_at(chars: &Vec<char>, end: usize, pattern: &Vec<char>) -> (ends: bool)
    requires
        end <= chars.len(),
    ensures
        ends == pattern@.is_suffix_of(chars@.take(end as int)),
{
    if pattern.len() > end {
        return false;
    }
    let offset: usize = end - pattern.len();
    let ghost head = chars@.take(end as int);
    let mut i: usize = 0;
    while i < pattern.len()
        invariant
            i <= pattern.len(),
            offset + pattern.len() == end,
            end <= chars.len(),
            head == chars@.take(end as int),
            forall|k: int| 0 <= k < i ==> pattern@[k] == chars@[offset + k],
        decreases pattern.len() - i,
    {
        if chars[offset + i] != pattern[i] {
            assert(head.subrange(offset as int, end as int)[i as int] != pattern@[i as int]);
            return false;
        }
        i += 1;
    }
    assert(pattern@ =~= head.subrange(offset as int, end as int));
    true
}

/// Whether `text` begins with `prefix`.
pub fn starts_with(text: &str, prefix: &str) -> (starts: bool)
    ensures
        starts == prefix@.is_prefix_of(text@),
{
    let chars = chars_of(text);
    let pattern = chars_of(prefix);
    if pattern.len() > chars.len() {
        return false;
    }
    let mut i: usize = 0;
    while i < pattern.len()
        invariant
            i <= pattern.len() <= chars.len(),
            chars@ == text@,
            pattern@ == prefix@,
            forall|k: int| 0 <= k < i ==> pattern@[k] == chars@[k],
        decreases pattern.len() - i,
    {
        if chars[i] != pattern[i] {
            assert(text@.subrange(0, prefix@.len() as int)[i as int] != prefix@[i as int]);
            return false;
        }
        i += 1;
    }
    assert(prefix@ =~= text@.subrange(0, prefix@.len() as int));
    true
}

/// Removes one trailing `suffix` from `text`, where it ends with one.
pub fn strip_str_once<'a>(text: &'a str, suffix: &str) -> (stripped: &'a str)
    ensures
        stripped@ == strip_once(text@, suffix@),
{
    let chars = chars_of(text);
    let pattern = chars_of(suffix);
    let end: usize = chars.len();
    assert(text@.take(end as int) == text@);
    if ends_with_at(&chars, end, &pattern) {
        text.substring_char(0, end - pattern.len())
    } else {
        text
    }
}

/// Cuts `text` at every occurrence of `separator`.
pub fn split_str<'a>(text: &'a str, separator: char) -> (parts: Vec<&'a str>)
    ensures
        texts(parts@) == split(text@, separator),
{
    let chars = chars_of(text);
    let mut parts: Vec<&'a str> = Vec::new();
    let mut start: usize = 0;
    let mut i: usize = 0;
    assert(texts(parts@).push(text@.subrange(0, 0)) =~~= seq![Seq::<char>::empty()]);
    while i < chars.len()
        invariant
            start <= i <= chars.len(),
            chars@ == text@,
            texts(parts@).push(text@.subrange(start as int, i as int)) == split(
                text@.take(i as int),
                separator,
            ),
        decreases chars.len() - i,
    {
        let ghost seen = text@.take(i as int);
        let ghost next = text@.take(i + 1);
        let ghost done = texts(parts@);
        let ghost open = text@.subrange(start as int, i as int);
        assert(next.drop_last() == seen);
        assert(done.push(open).drop_last() == done);
        if chars[i] == separator {
            parts.push(text.substring_char(start, i));
            start = i + 1;
            assert(texts(parts@) == done.push(open));
            assert(text@.subrange(start as int, i + 1) == Seq::<char>::empty());
        } else {
            assert(text@.subrange(start as int, i + 1) == open.push(next.last()));
        }
        i += 1;
    }
    assert(text@.take(i as int) == text@);
    let ghost done = texts(parts@);
    parts.push(text.substring_char(start, i));
    assert(texts(parts@) == done.push(text@.subrange(start as int, i as int)));
    parts
}

/// Joins `parts` with `separator` between each two neighbours.
pub fn join_strs(parts: &Vec<&str>, separator: &str) -> (joined: String)
    ensures
        joined@ == join(texts(parts@), separator@),
{
    let mut joined = String::new();
    let mut i: usize = 0;
    while i < parts.len()
        invariant
            i <= parts.len(),
            joined@ == join(texts(parts@.take(i as int)), separator@),
        decreases parts.len() - i,
    {
        let ghost before = texts(parts@.take(i as int));
        let ghost after = texts(parts@.take(i + 1));
        assert(after.drop_last() == before);
        assert(after.last() == parts@[i as int]@);
        if i > 0 {
            joined.append(separator);
        }
        joined.append(parts[i]);
        i += 1;
    }
    assert(parts@.take(i as int) == parts@);
    joined
}

} // verus!
