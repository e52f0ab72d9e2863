//! Character-level helpers for text that arrives from outside the library.

use vstd::prelude::*;

verus! {

/// The characters of `text`, in order.
pub fn chars_of(text: &str) -> (chars: Vec<char>)
    ensures
        chars@ == text@,
{
    let mut chars: Vec<char> = Vec::new();
    for c in it: text.chars()
        invariant
            chars@ == it.seq().take(it.index() as int),
            it.seq() == text@,
    {
        chars.push(c);
    }
    chars
}

/// Whether two texts hold the same characters.
pub fn same_text(left: &str, right: &str) -> (same: bool)
    ensures
        same == (left@ == right@),
{
    let a = chars_of(left);
    let b = chars_of(right);
    if a.len() != b.len() {
        return false;
    }
    let mut i: usize = 0;
    while i < a.len()
        invariant
            i <= a.len(),
            a.len() == b.len(),
            a@ == left@,
            b@ == right@,
            a@.take(i as int) == b@.take(i as int),
        decreases a.len() - i,
    {
        if a[i] != b[i] {
            return false;
        }
        assert(a@.take(i + 1) == a@.take(i as int).push(a@[i as int]));
        assert(b@.take(i + 1) == b@.take(i as int).push(b@[i as int]));
        i += 1;
    }
    assert(a@.take(a.len() as int) == a@);
    assert(b@.take(b.len() as int) == b@);
    true
}

/// Whether `c` is white space: a character with the Unicode property `White_Space`.
pub open spec fn is_space(c: char) -> bool {
    let code = c as u32;
    ||| 0x09 <= code <= 0x0d
    ||| code == 0x20
    ||| code == 0x85
    ||| code == 0xa0
    ||| code == 0x1680
    ||| 0x2000 <= code <= 0x200a
    ||| code == 0x2028
    ||| code == 0x2029
    ||| code == 0x202f
    ||| code == 0x205f
    ||| code == 0x3000
}

/// The number of white-space characters at the front of `text`.
pub open spec fn leading_spaces(text: Seq<char>) -> nat
    decreases text.len(),
{
    if text.len() > 0 && is_space(text[0]) {
        1 + leading_spaces(text.drop_first())
    } else {
        0
    }
}

/// The number of white-space characters at the back of `text`.
pub open spec fn trailing_spaces(text: Seq<char>) -> nat
    decreases text.len(),
{
    if text.len() > 0 && is_space(text.last()) {
        1 + trailing_spaces(text.drop_last())
    } else {
        0
    }
}

/// `text` without the white space at its front and at its back.
pub open spec fn trimmed(text: Seq<char>) -> Seq<char> {
    let from = leading_spaces(text) as int;
    if from == text.len() {
        Seq::empty()
    } else {
        text.subrange(from, text.len() - trailing_spaces(text))
    }
}

/// Whether `c` is white space.
pub fn is_whitespace(c: char) -> (space: bool)
    ensures
        space == is_space(c),
{
    let code: u32 = c as u32;
    (0x09 <= code && code <= 0x0d) || code == 0x20 || code == 0x85 || code == 0xa0 || code
        == 0x1680 || (0x2000 <= code && code <= 0x200a) || code == 0x2028 || code == 0x2029
        || code == 0x202f || code == 0x205f || code == 0x3000
}

/// The white space at the front of a text ends at the first other character.
pub proof fn lemma_leading_spaces(text: Seq<char>, count: int)
    requires
        0 <= count <= text.len(),
        forall|i: int| 0 <= i < count ==> is_space(#[trigger] text[i]),
        count < text.len() ==> !is_space(text[count]),
    ensures
        leading_spaces(text) == count,
    decreases count,
{
    if count > 0 {
        let rest = text.drop_first();
        assert forall|i: int| 0 <= i < count - 1 implies is_space(#[trigger] rest[i]) by {
            assert(rest[i] == text[i + 1]);
        }
        if count < text.len() {
            assert(rest[count - 1] == text[count]);
        }
        lemma_leading_spaces(rest, count - 1);
    }
}

/// The white space at the back of a text begins behind the last other character.
pub proof fn lemma_trailing_spaces(text: Seq<char>, count: int)
    requires
        0 <= count <= text.len(),
        forall|i: int| text.len() - count <= i < text.len() ==> is_space(#[trigger] text[i]),
        count < text.len() ==> !is_space(text[text.len() - count - 1]),
    ensures
        trailing_spaces(text) == count,
    decreases count,
{
    if count > 0 {
        let rest = text.drop_last();
        assert forall|i: int| rest.len() - (count - 1) <= i < rest.len() implies is_space(
            #[trigger] rest[i],
        ) by {
            assert(rest[i] == text[i]);
        }
        if count < text.len() {
            assert(rest[rest.len() - (count - 1) - 1] == text[text.len() - count - 1]);
        }
        lemma_trailing_spaces(rest, count - 1);
    }
}

/// Where the white space at the front of `chars` ends and that at its back begins.
pub fn trim_bounds(chars: &Vec<char>) -> (bounds: (usize, usize))
    ensures
        bounds.0 <= bounds.1 <= chars.len(),
        chars@.subrange(bounds.0 as int, bounds.1 as int) == trimmed(chars@),
{
    let mut from: usize = 0;
    while from < chars.len() && is_whitespace(chars[from])
        invariant
            from <= chars.len(),
            forall|i: int| 0 <= i < from ==> is_space(#[trigger] chars@[i]),
        decreases chars.len() - from,
    {
        from += 1;
    }
    proof {
        lemma_leading_spaces(chars@, from as int);
    }
    if from == chars.len() {
        assert(chars@.subrange(from as int, from as int) =~= Seq::<char>::empty());
        return (from, from);
    }
    let mut to: usize = chars.len();
    while to > from && is_whitespace(chars[to - 1])
        invariant
            from <= to <= chars.len(),
            from < chars.len(),
            !is_space(chars@[from as int]),
            forall|i: int| to <= i < chars.len() ==> is_space(#[trigger] chars@[i]),
        decreases to,
    {
        to -= 1;
    }
    proof {
        lemma_trailing_spaces(chars@, chars.len() - to);
    }
    (from, to)
}

/// `chars` without the white space at its front and at its back.
pub fn trim_chars(chars: &Vec<char>) -> (inner: Vec<char>)
    ensures
        inner@ == trimmed(chars@),
{
    let (from, to) = trim_bounds(chars);
    let mut inner: Vec<char> = Vec::new();
    let mut i: usize = from;
    while i < to
        invariant
            from <= i <= to <= chars.len(),
            inner@ == chars@.subrange(from as int, i as int),
        decreases to - i,
    {
        inner.push(chars[i]);
        assert(chars@.subrange(from as int, i as int).push(chars@[i as int]) =~= chars@.subrange(
            from as int,
            i + 1,
        ));
        i += 1;
    }
    inner
}

/// `text` without the white space at its front and at its back.
pub fn trim(text: &str) -> (inner: &str)
    ensures
        inner@ == trimmed(text@),
{
    let chars = chars_of(text);
    let (from, to) = trim_bounds(&chars);
    text.substring_char(from, to)
}

/// The value of the decimal digit `c`, if it is one.
pub open spec fn digit_value(c: char) -> Option<nat> {
    if '0' <= c <= '9' {
        Some((c as u32 - '0' as u32) as nat)
    } else {
        None
    }
}

/// Whether `text` consists of decimal digits.
pub open spec fn all_digits(text: Seq<char>) -> bool {
    forall|i: int| 0 <= i < text.len() ==> digit_value(#[trigger] text[i]) is Some
}

/// The number that the decimal digits `text` denote.
pub open spec fn decimal_value(text: Seq<char>) -> nat
    decreases text.len(),
{
    if text.len() == 0 {
        0
    } else {
        decimal_value(text.drop_last()) * 10 + digit_value(text.last()).unwrap()
    }
}

/// The number that `text` denotes as an unsigned 64-bit integer in decimal notation:
/// an optional plus sign and at least one digit, of a value that fits.
pub open spec fn parsed_u64(text: Seq<char>) -> Option<u64> {
    let digits = if text.len() > 0 && text[0] == '+' {
        text.drop_first()
    } else {
        text
    };
    if digits.len() > 0 && all_digits(digits) && decimal_value(digits) <= u64::MAX {
        Some(decimal_value(digits) as u64)
    } else {
        None
    }
}

/// A number in decimal notation is not smaller than what any front part of it denotes.
pub proof fn lemma_decimal_value_grows(text: Seq<char>, front: int)
    requires
        0 <= front <= text.len(),
        all_digits(text),
    ensures
        decimal_value(text.take(front)) <= decimal_value(text),
    decreases text.len() - front,
{
    if front == text.len() {
        assert(text.take(front) =~= text);
    } else {
        lemma_decimal_value_grows(text, front + 1);
        assert(text.take(front + 1).drop_last() =~= text.take(front));
        assert(text.take(front + 1).last() == text[front]);
        assert(digit_value(text[front]) is Some);
    }
}

/// Reads an unsigned 64-bit integer in decimal notation.
pub fn parse_u64(text: &Vec<char>) -> (number: Option<u64>)
    ensures
        number == parsed_u64(text@),
{
    let start: usize = if text.len() > 0 && text[0] == '+' {
        1
    } else {
        0
    };
    let ghost digits = if text@.len() > 0 && text@[0] == '+' {
        text@.drop_first()
    } else {
        text@
    };
    assert(digits =~= text@.skip(start as int));
    if start == text.len() {
        return None;
    }
    assert(digits.take(0) =~= Seq::<char>::empty());
    let mut value: u64 = 0;
    let mut i: usize = start;
    while i < text.len()
        invariant
            start <= i <= text.len(),
            digits == text@.skip(start as int),
            digits.len() > 0,
            digits == (if text@.len() > 0 && text@[0] == '+' {
                text@.drop_first()
            } else {
                text@
            }),
            all_digits(digits.take(i - start)),
            value == decimal_value(digits.take(i - start)),
        decreases text.len() - i,
    {
        let c = text[i];
        let ghost seen = digits.take(i - start);
        let ghost next = digits.take(i - start + 1);
        proof {
            assert(next.drop_last() =~= seen);
            assert(next.last() == c);
        }
        if c < '0' || c > '9' {
            assert(digit_value(digits[i - start]) is None);
            return None;
        }
        let digit: u64 = (c as u32 - '0' as u32) as u64;
        assert(all_digits(next)) by {
            assert forall|k: int| 0 <= k < next.len() implies digit_value(#[trigger] next[k])
                is Some by {
                if k < seen.len() {
                    assert(next[k] == seen[k]);
                }
            }
        }
        let grown = match value.checked_mul(10) {
            Some(tens) => tens.checked_add(digit),
            None => None,
        };
        match grown {
            Some(sum) => {
                value = sum;
            },
            None => {
                proof {
                    assert(decimal_value(next) > u64::MAX);
                    if all_digits(digits) {
                        lemma_decimal_value_grows(digits, i - start + 1);
                    }
                }
                return None;
            },
        }
        i += 1;
    }
    assert(digits.take(text.len() - start) =~= digits);
    Some(value)
}

/// `String::push`: appends a character.
#[verifier::external_body]
pub(crate) fn push_char(text: &mut String, c: char)
    ensures
        final(text)@ == old(text)@.push(c),
{
    text.push(c)
}

/// `String::pop`: removes the last character and returns it, `None` for an empty text.
#[verifier::external_body]
pub(crate) fn pop_char(text: &mut String) -> (last: Option<char>)
    ensures
        match last {
            Some(c) => old(text)@.len() > 0 && c == old(text)@.last() && final(text)@ == old(
                text,
            )@.drop_last(),
            None => old(text)@.len() == 0 && final(text)@ == old(text)@,
        },
{
    text.pop()
}

/// `String::clear`: removes all characters.
#[verifier::external_body]
pub(crate) fn clear_text(text: &mut String)
    ensures
        final(text)@ == Seq::<char>::empty(),
{
    text.clear()
}

/// The position of the first `mark` in `text` at or behind `from`; the length of the
/// text where there is none.
pub open spec fn first_at(text: Seq<char>, mark: char, from: int) -> int
    decreases text.len() - from,
{
    if from >= text.len() {
        text.len() as int
    } else if text[from] == mark {
        from
    } else {
        first_at(text, mark, from + 1)
    }
}

/// The position of the first `mark` in the characters from `from` to `to`.
pub fn find_char(chars: &Vec<char>, mark: char, from: usize, to: usize) -> (at: usize)
    requires
        from <= to <= chars.len(),
    ensures
        from <= at <= to,
        at == first_at(chars@.subrange(0, to as int), mark, from as int),
    decreases to - from,
{
    if from >= to {
        to
    } else if chars[from] == mark {
        from
    } else {
        find_char(chars, mark, from + 1, to)
    }
}

/// `first_at` gives a position at or behind `from` at which `mark` stands, or the
/// length of the text, and no `mark` stands before it.
pub proof fn lemma_first_at(text: Seq<char>, mark: char, from: int)
    requires
        0 <= from <= text.len(),
    ensures
        from <= first_at(text, mark, from) <= text.len(),
        first_at(text, mark, from) < text.len() ==> text[first_at(text, mark, from)] == mark,
        forall|i: int| from <= i < first_at(text, mark, from) ==> text[i] != mark,
    decreases text.len() - from,
{
    if from < text.len() && text[from] != mark {
        lemma_first_at(text, mark, from + 1);
    }
}

/// Whether `text` begins with `prefix`.
pub open spec fn has_prefix(text: Seq<char>, prefix: Seq<char>) -> bool {
    text.len() >= prefix.len() && text.subrange(0, prefix.len() as int) == prefix
}

/// Whether `text` ends with `suffix`.
pub open spec fn has_suffix(text: Seq<char>, suffix: Seq<char>) -> bool {
    text.len() >= suffix.len() && text.subrange(text.len() - suffix.len(), text.len() as int)
        == suffix
}

/// Whether the characters from `from` on begin with `prefix`.
pub fn begins_with(chars: &Vec<char>, from: usize, prefix: &str) -> (begins: bool)
    requires
        from <= chars.len(),
    ensures
        begins == has_prefix(chars@.skip(from as int), prefix@),
{
    let wanted = chars_of(prefix);
    if chars.len() - from < wanted.len() {
        return false;
    }
    let ghost rest = chars@.skip(from as int);
    let mut i: usize = 0;
    while i < wanted.len()
        invariant
            i <= wanted.len(),
            from + wanted.len() <= chars.len(),
            rest == chars@.skip(from as int),
            wanted@ == prefix@,
            rest.subrange(0, i as int) == wanted@.subrange(0, i as int),
        decreases wanted.len() - i,
    {
        if chars[from + i] != wanted[i] {
            assert(rest.subrange(0, wanted.len() as int)[i as int] != wanted@[i as int]);
            return false;
        }
        assert(rest.subrange(0, i + 1) =~= rest.subrange(0, i as int).push(rest[i as int]));
        assert(wanted@.subrange(0, i + 1) =~= wanted@.subrange(0, i as int).push(
            wanted@[i as int],
        ));
        i += 1;
    }
    assert(wanted@.subrange(0, wanted.len() as int) =~= wanted@);
    true
}

/// `text` in lines: the text is cut behind every line feed; a line loses its line
/// feed, and a carriage return before it. Text behind the last line feed is a line too.
pub open spec fn lines_from(text: Seq<char>, from: int) -> Seq<Seq<char>>
    decreases text.len() - from,
{
    if from < 0 || from >= text.len() {
        Seq::empty()
    } else {
        let at = first_at(text, '\n', from);
        proof {
            lemma_first_at(text, '\n', from);
        }
        if at >= text.len() {
            seq![text.subrange(from, text.len() as int)]
        } else {
            let line = text.subrange(from, at);
            seq![
                if line.len() > 0 && line.last() == '\r' {
                    line.drop_last()
                } else {
                    line
                },
            ] + lines_from(text, at + 1)
        }
    }
}

/// The lines of `text`.
pub open spec fn lines_of(text: Seq<char>) -> Seq<Seq<char>> {
    lines_from(text, 0)
}

/// The first and the last position of every line of `chars`.
pub fn line_bounds(chars: &Vec<char>) -> (bounds: Vec<(usize, usize)>)
    ensures
        bounds.len() == lines_of(chars@).len(),
        forall|k: int|
            0 <= k < bounds.len() ==> (#[trigger] bounds@[k]).0 <= bounds@[k].1 <= chars.len()
                && chars@.subrange(bounds@[k].0 as int, bounds@[k].1 as int) == lines_of(
                chars@,
            )[k],
{
    let mut bounds: Vec<(usize, usize)> = Vec::new();
    let mut from: usize = 0;
    let len = chars.len();
    let ghost text = chars@;
    assert(text.subrange(0, len as int) =~= text);
    while from < len
        invariant
            from <= len,
            len == chars.len(),
            text == chars@,
            lines_of(text).len() == bounds.len() + lines_from(text, from as int).len(),
            forall|k: int|
                0 <= k < lines_from(text, from as int).len() ==> lines_of(text)[bounds.len() + k]
                    == #[trigger] lines_from(text, from as int)[k],
            forall|k: int|
                0 <= k < bounds.len() ==> (#[trigger] bounds@[k]).0 <= bounds@[k].1 <= chars.len()
                    && text.subrange(bounds@[k].0 as int, bounds@[k].1 as int) == lines_of(
                    text,
                )[k],
        decreases len - from,
    {
        let at = find_char(chars, '\n', from, len);
        let ghost rest = lines_from(text, from as int);
        let end = if at < len && at > from && chars[at - 1] == '\r' {
            at - 1
        } else {
            at
        };
        proof {
            let line = text.subrange(from as int, at as int);
            assert(text.subrange(0, len as int) =~= text);
            lemma_first_at(text, '\n', from as int);
            if at < len {
                if line.len() > 0 && line.last() == '\r' {
                    assert(line.drop_last() =~= text.subrange(from as int, end as int));
                }
                let tail = lines_from(text, at + 1);
                assert(rest.len() == 1 + tail.len());
                assert forall|k: int| 0 <= k < tail.len() implies lines_of(text)[bounds.len() + 1
                    + k] == #[trigger] tail[k] by {
                    assert(rest[k + 1] == tail[k]);
                    assert(lines_of(text)[bounds.len() + (k + 1)] == rest[k + 1]);
                }
            } else {
                assert(lines_from(text, len as int).len() == 0);
            }
            assert(rest[0] == text.subrange(from as int, end as int));
            assert(lines_of(text)[bounds.len() + 0] == rest[0]);
        }
        bounds.push((from, end));
        from = if at < len {
            at + 1
        } else {
            len
        };
    }
    bounds
}

/// Whether `left` does not come behind `right` in the order of texts: by the first
/// character in which they differ, and a text before every text that it begins.
pub open spec fn text_le(left: Seq<char>, right: Seq<char>) -> bool
    decreases left.len(),
{
    if left.len() == 0 {
        true
    } else if right.len() == 0 {
        false
    } else if left[0] != right[0] {
        (left[0] as u32) < (right[0] as u32)
    } else {
        text_le(left.drop_first(), right.drop_first())
    }
}

/// Whether the texts come in ascending order.
pub open spec fn texts_ascending(texts: Seq<Seq<char>>) -> bool {
    forall|i: int, j: int| 0 <= i < j < texts.len() ==> text_le(texts[i], texts[j])
}

/// `<[String]>::sort_unstable`: the texts in ascending order.
#[verifier::external_body]
pub(crate) fn sort_texts(texts: &mut Vec<String>)
    ensures
        texts_ascending(final(texts).deep_view()),
        final(texts).deep_view().to_multiset() == old(texts).deep_view().to_multiset(),
{
    texts.sort_unstable()
}

} // verus!
