//! The locales that the system can generate, as its list of locales names them.

use vstd::prelude::*;
use vstd::string::StrSliceExecFns;
use crate::text::{
    chars_of, is_space, is_whitespace, line_bounds, lines_of, sort_texts, text_le,
    texts_ascending,
};

verus! {

/// A class of characters in a line of the list of locales.
#[derive(Debug, Clone, Copy, PartialEq, Eq, Structural)]
pub enum Class {
    /// Lower-case letters.
    Lower,
    /// Upper-case letters.
    Upper,
    /// Anything but white space.
    Solid,
}

impl Class {
    /// Whether `c` is of the class.
    pub open spec fn holds(self, c: char) -> bool {
        match self {
            Class::Lower => 'a' <= c <= 'z',
            Class::Upper => 'A' <= c <= 'Z',
            Class::Solid => !is_space(c),
        }
    }

    /// Whether `c` is of the class.
    pub fn has(self, c: char) -> (is: bool)
        ensures
            is == self.holds(c),
    {
        match self {
            Class::Lower => 'a' <= c && c <= 'z',
            Class::Upper => 'A' <= c && c <= 'Z',
            Class::Solid => !is_whitespace(c),
        }
    }
}

/// The end of the run of characters of `class` that begins at `from`.
pub open spec fn run_end(line: Seq<char>, from: int, class: Class) -> int
    decreases line.len() - from,
{
    if from < 0 || from >= line.len() || !class.holds(line[from]) {
        from
    } else {
        run_end(line, from + 1, class)
    }
}

/// The position behind an optional part that begins at `from`: the character `mark`
/// with at least one character of `class` behind it. Without such a part, `from`.
pub open spec fn behind_part(line: Seq<char>, from: int, mark: char, class: Class) -> int {
    if 0 <= from < line.len() && line[from] == mark && run_end(line, from + 1, class) > from
        + 1 {
        run_end(line, from + 1, class)
    } else {
        from
    }
}

/// Where the name of the locale ends in a line of the list of locales, and where the
/// encoding behind it ends; `None` for a line that names no locale.
///
/// The name is an optional `#`, lower-case letters, and then, each optional, `_` with
/// upper-case letters, `@` with lower-case letters and a dot with anything but white
/// space. One character of white space parts it from the encoding, which is anything
/// but white space.
pub open spec fn locale_ends(line: Seq<char>) -> Option<(int, int)> {
    let start = if line.len() > 0 && line[0] == '#' {
        1int
    } else {
        0int
    };
    let language = run_end(line, start, Class::Lower);
    let territory = behind_part(line, language, '_', Class::Upper);
    let modifier = behind_part(line, territory, '@', Class::Lower);
    let name = behind_part(line, modifier, '.', Class::Solid);
    let encoding = run_end(line, name + 1, Class::Solid);
    if language > start && name < line.len() && is_space(line[name]) && encoding > name + 1 {
        Some((name, encoding))
    } else {
        None
    }
}

/// The name of the locale of a line, without the `#` before it.
pub open spec fn locale_of(line: Seq<char>) -> Seq<char> {
    let start = if line.len() > 0 && line[0] == '#' {
        1int
    } else {
        0int
    };
    line.subrange(start, locale_ends(line).unwrap().0)
}

/// The encoding of a line.
pub open spec fn encoding_of(line: Seq<char>) -> Seq<char> {
    line.subrange(locale_ends(line).unwrap().0 + 1, locale_ends(line).unwrap().1)
}

/// The index of the first line that names a locale; the count of the lines where none
/// does.
pub open spec fn first_locale(lines: Seq<Seq<char>>, from: int) -> int
    decreases lines.len() - from,
{
    if from < 0 || from >= lines.len() {
        lines.len() as int
    } else if locale_ends(lines[from]) is Some {
        from
    } else {
        first_locale(lines, from + 1)
    }
}

/// The index of the first line at or behind `from` that names no locale; the count of
/// the lines where every line does.
pub open spec fn first_other(lines: Seq<Seq<char>>, from: int) -> int
    decreases lines.len() - from,
{
    if from < 0 || from >= lines.len() {
        lines.len() as int
    } else if locale_ends(lines[from]) is None {
        from
    } else {
        first_other(lines, from + 1)
    }
}

/// A line of the list of locales that should name a locale and does not.
#[derive(Debug, Clone, Copy, PartialEq, Eq, Structural)]
pub struct LocaleError {
    /// Index of the line.
    pub line: usize,
}

/// The locales of a list.
#[derive(Debug, Clone, PartialEq, Eq)]
pub struct Locales {
    /// The names of the locales, in the order of the list.
    pub langs: Vec<String>,
    /// The encodings, each once, in ascending order.
    pub encodings: Vec<String>,
}

/// The end of the run of characters of `class` that begins at `from`.
fn scan(chars: &Vec<char>, from: usize, to: usize, class: Class) -> (end: usize)
    requires
        from <= to <= chars.len(),
    ensures
        from <= end <= to,
        end == run_end(chars@.subrange(0, to as int), from as int, class),
    decreases to - from,
{
    if from >= to || !class.has(chars[from]) {
        from
    } else {
        scan(chars, from + 1, to, class)
    }
}

/// The position behind an optional part that begins at `from`.
fn skip_part(chars: &Vec<char>, from: usize, to: usize, mark: char, class: Class) -> (end: usize)
    requires
        from <= to <= chars.len(),
    ensures
        from <= end <= to,
        end == behind_part(chars@.subrange(0, to as int), from as int, mark, class),
{
    if from < to && chars[from] == mark {
        let end = scan(chars, from + 1, to, class);
        if end > from + 1 {
            return end;
        }
    }
    from
}

/// Where the name of the locale and the encoding end in the line from `from` to `to`,
/// counted from `from`.
fn parse_line(chars: &Vec<char>, from: usize, to: usize) -> (ends: Option<(usize, usize)>)
    requires
        from <= to <= chars.len(),
    ensures
        match ends {
            Some((name, encoding)) => name < encoding <= to - from && locale_ends(
                chars@.subrange(from as int, to as int),
            ) == Some((name as int, encoding as int)),
            None => locale_ends(chars@.subrange(from as int, to as int)) is None,
        },
{
    let mut line: Vec<char> = Vec::new();
    let mut k: usize = from;
    while k < to
        invariant
            from <= k <= to <= chars.len(),
            line@ == chars@.subrange(from as int, k as int),
        decreases to - k,
    {
        line.push(chars[k]);
        assert(chars@.subrange(from as int, k as int).push(chars@[k as int]) =~= chars@.subrange(
            from as int,
            k + 1,
        ));
        k += 1;
    }
    let len = line.len();
    assert(line@.subrange(0, len as int) =~= line@);
    let start: usize = if len > 0 && line[0] == '#' {
        1
    } else {
        0
    };
    let language = scan(&line, start, len, Class::Lower);
    let territory = skip_part(&line, language, len, '_', Class::Upper);
    let modifier = skip_part(&line, territory, len, '@', Class::Lower);
    let name = skip_part(&line, modifier, len, '.', Class::Solid);
    if language > start && name < len && is_whitespace(line[name]) {
        let encoding = scan(&line, name + 1, len, Class::Solid);
        if encoding > name + 1 {
            return Some((name, encoding));
        }
    }
    None
}

/// Whether `encodings` are the encodings of the lines from `from` up to `to`, each
/// once, in ascending order.
pub open spec fn encodings_are(
    encodings: Seq<Seq<char>>,
    lines: Seq<Seq<char>>,
    from: int,
    to: int,
) -> bool {
    &&& texts_ascending(encodings)
    &&& forall|i: int, j: int| 0 <= i < j < encodings.len() ==> encodings[i] != encodings[j]
    &&& forall|k: int| from <= k < to ==> encodings.contains(#[trigger] encoding_of(lines[k]))
    &&& forall|i: int|
        0 <= i < encodings.len() ==> encoding_among(#[trigger] encodings[i], lines, from, to)
}

/// Whether `text` is the encoding of one of the lines from `from` up to `to`.
pub open spec fn encoding_among(text: Seq<char>, lines: Seq<Seq<char>>, from: int, to: int) -> bool {
    exists|k: int| from <= k < to && #[trigger] encoding_of(lines[k]) == text
}

/// Whether `langs` are the names of the locales of the lines from `from` up to `to`.
pub open spec fn langs_are(langs: Seq<Seq<char>>, lines: Seq<Seq<char>>, from: int, to: int) -> bool {
    &&& langs.len() == to - from
    &&& forall|k: int| 0 <= k < langs.len() ==> #[trigger] langs[k] == locale_of(lines[from + k])
}

/// Reads the locales from the list of locales `text`. The locales begin with the first
/// line that names one; behind it every line has to name one.
pub fn get_locales(text: &str) -> (result: Result<Locales, LocaleError>)
    ensures
        ({
            let lines = lines_of(text@);
            let start = first_locale(lines, 0);
            let other = first_other(lines, start);
            match result {
                Ok(locales) => other == lines.len() && langs_are(
                    locales.langs.deep_view(),
                    lines,
                    start,
                    lines.len() as int,
                ) && encodings_are(locales.encodings.deep_view(), lines, start, lines.len() as int),
                Err(error) => error.line == other && other < lines.len(),
            }
        }),
{
    let chars = chars_of(text);
    let bounds = line_bounds(&chars);
    let ghost lines = lines_of(text@);
    let mut i: usize = 0;
    let mut found = false;
    while i < bounds.len() && !found
        invariant
            i <= bounds.len(),
            chars@ == text@,
            lines == lines_of(text@),
            bounds.len() == lines.len(),
            forall|k: int|
                0 <= k < bounds.len() ==> (#[trigger] bounds@[k]).0 <= bounds@[k].1 <= chars.len()
                    && chars@.subrange(bounds@[k].0 as int, bounds@[k].1 as int) == lines[k],
            first_locale(lines, 0) == first_locale(lines, i as int),
            found ==> i < lines.len() && locale_ends(lines[i as int]) is Some,
        decreases bounds.len() - i + (if found { 0int } else { 1int }),
    {
        let (from, to) = bounds[i];
        if parse_line(&chars, from, to).is_some() {
            found = true;
        } else {
            i += 1;
        }
    }
    let ghost start = i as int;
    let mut langs: Vec<String> = Vec::new();
    let mut found_encodings: Vec<String> = Vec::new();
    assert(langs.deep_view() =~= Seq::<Seq<char>>::empty());
    assert(found_encodings.deep_view() =~= Seq::<Seq<char>>::empty());
    while i < bounds.len()
        invariant
            start <= i <= bounds.len(),
            start == first_locale(lines, 0),
            chars@ == text@,
            lines == lines_of(text@),
            bounds.len() == lines.len(),
            forall|k: int|
                0 <= k < bounds.len() ==> (#[trigger] bounds@[k]).0 <= bounds@[k].1 <= chars.len()
                    && chars@.subrange(bounds@[k].0 as int, bounds@[k].1 as int) == lines[k],
            first_other(lines, start) == first_other(lines, i as int),
            langs_are(langs.deep_view(), lines, start, i as int),
            found_encodings.len() == i - start,
            forall|k: int|
                0 <= k < found_encodings.len() ==> (#[trigger] found_encodings@[k])@
                    == encoding_of(lines[start + k]),
        decreases bounds.len() - i,
    {
        let (from, to) = bounds[i];
        let (name, encoding) = match parse_line(&chars, from, to) {
            Some(ends) => ends,
            None => {
                return Err(LocaleError { line: i });
            },
        };
        let begin = if to > from && chars[from] == '#' {
            from + 1
        } else {
            from
        };
        proof {
            let line = lines[i as int];
            assert(line.len() > 0 ==> line[0] == chars@[from as int]);
            assert(line.subrange(begin - from, name as int) =~= chars@.subrange(
                begin as int,
                from + name,
            ));
            assert(line.subrange(name + 1, encoding as int) =~= chars@.subrange(
                from + name + 1,
                from + encoding,
            ));
            crate::locale_list::lemma_language_starts(line);
        }
        let ghost held = langs.deep_view();
        langs.push(text.substring_char(begin, from + name).to_owned());
        assert(langs.deep_view() =~= held.push(locale_of(lines[i as int])));
        found_encodings.push(text.substring_char(from + name + 1, from + encoding).to_owned());
        i += 1;
    }
    let ghost gathered = found_encodings.deep_view();
    assert(gathered.len() == lines.len() - start);
    assert forall|k: int| 0 <= k < gathered.len() implies #[trigger] gathered[k] == encoding_of(
        lines[start + k],
    ) by {
        assert(gathered[k] == found_encodings@[k]@);
    }
    sort_texts(&mut found_encodings);
    let encodings = distinct_texts(found_encodings);
    proof {
        let sorted = found_encodings.deep_view();
        let shown = encodings.deep_view();
        sorted.to_multiset_ensures();
        gathered.to_multiset_ensures();
        assert forall|k: int| start <= k < lines.len() implies shown.contains(
            #[trigger] encoding_of(lines[k]),
        ) by {
            assert(gathered[k - start] == encoding_of(lines[k]));
            assert(gathered.contains(encoding_of(lines[k])));
            assert(gathered.to_multiset().count(encoding_of(lines[k])) > 0);
            assert(sorted.to_multiset().count(encoding_of(lines[k])) > 0);
            assert(sorted.contains(encoding_of(lines[k])));
        }
        assert forall|n: int| 0 <= n < shown.len() implies encoding_among(
            #[trigger] shown[n],
            lines,
            start,
            lines.len() as int,
        ) by {
            assert(shown.contains(shown[n]));
            assert(sorted.contains(shown[n]));
            assert(sorted.to_multiset().count(shown[n]) > 0);
            assert(gathered.to_multiset().count(shown[n]) > 0);
            assert(gathered.contains(shown[n]));
            let m = choose|m: int| 0 <= m < gathered.len() && gathered[m] == shown[n];
            assert(encoding_of(lines[start + m]) == shown[n]);
        }
    }
    Ok(Locales { langs, encodings })
}

/// The name of a locale begins behind the `#`, if the line begins with one, and before
/// the end of the name.
pub proof fn lemma_language_starts(line: Seq<char>)
    requires
        locale_ends(line) is Some,
    ensures
        (if line.len() > 0 && line[0] == '#' {
            1int
        } else {
            0int
        }) < locale_ends(line).unwrap().0 <= line.len(),
{
    let start = if line.len() > 0 && line[0] == '#' {
        1int
    } else {
        0int
    };
    let language = run_end(line, start, Class::Lower);
    lemma_run_end(line, start, Class::Lower);
    lemma_run_end(line, language + 1, Class::Upper);
    let territory = behind_part(line, language, '_', Class::Upper);
    lemma_run_end(line, territory + 1, Class::Lower);
    let modifier = behind_part(line, territory, '@', Class::Lower);
    lemma_run_end(line, modifier + 1, Class::Solid);
}

/// A run ends at or behind its beginning, within the line.
pub proof fn lemma_run_end(line: Seq<char>, from: int, class: Class)
    requires
        0 <= from,
    ensures
        from <= run_end(line, from, class),
        from <= line.len() ==> run_end(line, from, class) <= line.len(),
    decreases line.len() - from,
{
    if from < line.len() && class.holds(line[from]) {
        lemma_run_end(line, from + 1, class);
    }
}

/// The texts of `sorted`, which come in ascending order, each once.
fn distinct_texts(sorted: Vec<String>) -> (distinct: Vec<String>)
    requires
        texts_ascending(sorted.deep_view()),
    ensures
        texts_ascending(distinct.deep_view()),
        forall|i: int, j: int|
            0 <= i < j < distinct.len() ==> distinct.deep_view()[i] != distinct.deep_view()[j],
        forall|text: Seq<char>|
            distinct.deep_view().contains(text) <==> sorted.deep_view().contains(text),
{
    let mut distinct: Vec<String> = Vec::new();
    let ghost all = sorted.deep_view();
    let ghost given = sorted@;
    assert(distinct.deep_view() =~= Seq::<Seq<char>>::empty());
    for text in it: sorted
        invariant
            it.seq() == given,
            all.len() == given.len(),
            forall|k: int| 0 <= k < given.len() ==> all[k] == (#[trigger] given[k])@,
            texts_ascending(all),
            texts_ascending(distinct.deep_view()),
            forall|i: int, j: int|
                0 <= i < j < distinct.len() ==> distinct.deep_view()[i] != distinct.deep_view()[j],
            forall|t: Seq<char>|
                distinct.deep_view().contains(t) <==> all.take(it.index() as int).contains(t),
            distinct.len() > 0 ==> it.index() > 0 && distinct.deep_view().last() == all[it.index()
                - 1],
            distinct.len() == 0 ==> it.index() == 0,
    {
        let ghost index = it.index() as int;
        let ghost held = distinct.deep_view();
        let ghost seen = all.take(index);
        let ghost more = all.take(index + 1);
        proof {
            assert(more.drop_last() =~= seen);
            assert(more.last() == text@);
            assert forall|t: Seq<char>| more.contains(t) <==> seen.contains(t) || t == text@ by {
                if more.contains(t) {
                    let i = choose|i: int| 0 <= i < more.len() && more[i] == t;
                    if i < index {
                        assert(seen[i] == t);
                    }
                }
                if seen.contains(t) {
                    let i = choose|i: int| 0 <= i < seen.len() && seen[i] == t;
                    assert(more[i] == t);
                }
                if t == text@ {
                    assert(more[index] == t);
                }
            }
        }
        let fresh = distinct.len() == 0 || !crate::text::same_text(
            distinct[distinct.len() - 1].as_str(),
            text.as_str(),
        );
        if fresh {
            proof {
                if held.len() > 0 {
                    assert forall|i: int| 0 <= i < held.len() implies held[i] != text@ by {
                        assert(held.contains(held[i]));
                        let m = choose|m: int| 0 <= m < seen.len() && seen[m] == held[i];
                        if held[i] == text@ {
                            assert(text_le(all[m], all[index - 1]));
                            assert(text_le(all[index - 1], all[index]));
                            crate::locale_list::lemma_text_le_antisymmetric(
                                all[index - 1],
                                text@,
                            );
                        }
                    }
                }
            }
            distinct.push(text);
            proof {
                let grown = distinct.deep_view();
                assert(grown =~= held.push(text@));
                assert forall|i: int, j: int| 0 <= i < j < grown.len() implies text_le(
                    grown[i],
                    grown[j],
                ) by {
                    if j == held.len() {
                        assert(held.contains(held[i]));
                        let m = choose|m: int| 0 <= m < seen.len() && seen[m] == held[i];
                        assert(text_le(all[m], all[index]));
                    } else {
                        assert(text_le(held[i], held[j]));
                    }
                }
                assert forall|t: Seq<char>| grown.contains(t) <==> more.contains(t) by {
                    if grown.contains(t) {
                        let i = choose|i: int| 0 <= i < grown.len() && grown[i] == t;
                        if i < held.len() {
                            assert(held.contains(t));
                        }
                    }
                    if held.contains(t) {
                        let i = choose|i: int| 0 <= i < held.len() && held[i] == t;
                        assert(grown[i] == t);
                    }
                    if t == text@ {
                        assert(grown[held.len() as int] == t);
                    }
                }
            }
        } else {
            proof {
                assert(held.contains(held.last()));
            }
        }
    }
    assert(all.take(given.len() as int) =~= all);
    distinct
}

/// Two texts of which each does not come behind the other are the same text.
pub proof fn lemma_text_le_antisymmetric(left: Seq<char>, right: Seq<char>)
    requires
        text_le(left, right),
        text_le(right, left),
    ensures
        left == right,
    decreases left.len(),
{
    if left.len() == 0 {
        assert(right.len() == 0);
        assert(left =~= right);
    } else {
        assert(right.len() > 0);
        assert(left[0] == right[0]);
        lemma_text_le_antisymmetric(left.drop_first(), right.drop_first());
        assert(left =~= seq![left[0]] + left.drop_first());
        assert(right =~= seq![right[0]] + right.drop_first());
    }
}

} // verus!
