//! The list of mirrors: servers in groups, as the mirror list of the system names them.

use vstd::prelude::*;
use vstd::string::{StrSliceExecFns, StringExecFns};
use crate::text::{begins_with, chars_of, has_prefix, line_bounds, lines_of};

verus! {

/// The line with which the first group of the mirror list begins.
pub const FIRST_GROUP: &'static str = "# Default mirrors";

/// A group of servers.
#[derive(Debug, Clone, PartialEq, Eq)]
pub struct MirrorGroup {
    /// The line that names the group.
    pub name: String,
    /// The lines of the servers of the group.
    pub servers: Vec<String>,
}

/// The lines behind the first line that begins with the name of the first group.
pub open spec fn behind_header(lines: Seq<Seq<char>>) -> Seq<Seq<char>>
    decreases lines.len(),
{
    if lines.len() == 0 {
        Seq::empty()
    } else if has_prefix(lines[0], FIRST_GROUP@) {
        lines.drop_first()
    } else {
        behind_header(lines.drop_first())
    }
}

/// The groups that `lines` hold behind the group `group`, which has the servers
/// `servers` so far: a line that begins with `Server` is a server of the current group,
/// a line that begins with `# ` names the next group, any other line is passed over.
pub open spec fn grouped(lines: Seq<Seq<char>>, group: Seq<char>, servers: Seq<Seq<char>>) -> Seq<
    (Seq<char>, Seq<Seq<char>>),
>
    decreases lines.len(),
{
    if lines.len() == 0 {
        seq![(group, servers)]
    } else if has_prefix(lines[0], "Server"@) {
        grouped(lines.drop_first(), group, servers.push(lines[0]))
    } else if has_prefix(lines[0], "# "@) {
        seq![(group, servers)] + grouped(lines.drop_first(), lines[0], Seq::empty())
    } else {
        grouped(lines.drop_first(), group, servers)
    }
}

/// The groups of the mirror list `text`, beginning with the first group.
pub open spec fn mirror_groups(text: Seq<char>) -> Seq<(Seq<char>, Seq<Seq<char>>)> {
    grouped(behind_header(lines_of(text)), FIRST_GROUP@, Seq::empty())
}

/// Whether `groups` are the groups `expected`.
pub open spec fn groups_are(
    groups: Seq<MirrorGroup>,
    expected: Seq<(Seq<char>, Seq<Seq<char>>)>,
) -> bool {
    &&& groups.len() == expected.len()
    &&& forall|k: int|
        0 <= k < groups.len() ==> (#[trigger] groups[k]).name@ == expected[k].0
            && groups[k].servers.deep_view() == expected[k].1
}

/// Whether the line of `chars` from `from` to `to` begins with `prefix`.
fn line_begins(chars: &Vec<char>, from: usize, to: usize, prefix: &str) -> (begins: bool)
    requires
        from <= to <= chars.len(),
    ensures
        begins == has_prefix(chars@.subrange(from as int, to as int), prefix@),
{
    let begins = begins_with(chars, from, prefix);
    let count = prefix.unicode_len();
    proof {
        let line = chars@.subrange(from as int, to as int);
        let rest = chars@.skip(from as int);
        if to - from >= count {
            assert(line.subrange(0, count as int) =~= rest.subrange(0, count as int));
        }
    }
    begins && to - from >= count
}

/// Reads the groups of a mirror list.
pub fn get_grouped_mirrors(text: &str) -> (groups: Vec<MirrorGroup>)
    ensures
        groups_are(groups@, mirror_groups(text@)),
{
    let chars = chars_of(text);
    let bounds = line_bounds(&chars);
    let ghost lines = lines_of(text@);
    let mut i: usize = 0;
    let mut found = false;
    assert(lines.skip(0) =~= lines);
    while i < bounds.len() && !found
        invariant
            i <= bounds.len(),
            chars@ == text@,
            lines == lines_of(text@),
            bounds.len() == lines.len(),
            forall|k: int|
                0 <= k < bounds.len() ==> (#[trigger] bounds@[k]).0 <= bounds@[k].1 <= chars.len()
                    && chars@.subrange(bounds@[k].0 as int, bounds@[k].1 as int) == lines[k],
            behind_header(lines) == (if found {
                lines.skip(i as int)
            } else {
                behind_header(lines.skip(i as int))
            }),
        decreases bounds.len() - i + (if found { 0int } else { 1int }),
    {
        let (from, to) = bounds[i];
        proof {
            assert(lines.skip(i as int)[0] == lines[i as int]);
            assert(lines.skip(i as int).drop_first() =~= lines.skip(i + 1));
        }
        if line_begins(&chars, from, to, FIRST_GROUP) {
            found = true;
        }
        i += 1;
    }
    let ghost rest = behind_header(lines);
    proof {
        if !found {
            assert(lines.skip(i as int) =~= Seq::<Seq<char>>::empty());
        }
        assert(rest == lines.skip(i as int));
    }
    let mut groups: Vec<MirrorGroup> = Vec::new();
    let mut group = String::from_str(FIRST_GROUP);
    let mut servers: Vec<String> = Vec::new();
    let ghost mut done: Seq<(Seq<char>, Seq<Seq<char>>)> = Seq::empty();
    assert(servers.deep_view() =~= Seq::<Seq<char>>::empty());
    assert(done + grouped(lines.skip(i as int), group@, servers.deep_view()) =~= mirror_groups(
        text@,
    ));
    while i < bounds.len()
        invariant
            i <= bounds.len(),
            chars@ == text@,
            lines == lines_of(text@),
            bounds.len() == lines.len(),
            forall|k: int|
                0 <= k < bounds.len() ==> (#[trigger] bounds@[k]).0 <= bounds@[k].1 <= chars.len()
                    && chars@.subrange(bounds@[k].0 as int, bounds@[k].1 as int) == lines[k],
            groups_are(groups@, done),
            done + grouped(lines.skip(i as int), group@, servers.deep_view()) == mirror_groups(
                text@,
            ),
        decreases bounds.len() - i,
    {
        let (from, to) = bounds[i];
        proof {
            assert(lines.skip(i as int)[0] == lines[i as int]);
            assert(lines.skip(i as int).drop_first() =~= lines.skip(i + 1));
        }
        let ghost held = servers.deep_view();
        if line_begins(&chars, from, to, "Server") {
            servers.push(text.substring_char(from, to).to_owned());
            assert(servers.deep_view() =~= held.push(lines[i as int]));
        } else if line_begins(&chars, from, to, "# ") {
            let mut name = text.substring_char(from, to).to_owned();
            std::mem::swap(&mut name, &mut group);
            let mut full: Vec<String> = Vec::new();
            std::mem::swap(&mut full, &mut servers);
            let ghost shown = groups@;
            groups.push(MirrorGroup { name, servers: full });
            proof {
                let before = done;
                done = done.push((name@, held));
                assert(servers.deep_view() =~= Seq::<Seq<char>>::empty());
                assert(done + grouped(lines.skip(i + 1), group@, servers.deep_view()) =~= before
                    + (seq![(name@, held)] + grouped(
                    lines.skip(i + 1),
                    lines[i as int],
                    Seq::empty(),
                )));
                assert forall|k: int| 0 <= k < groups.len() implies (#[trigger] groups@[k]).name@
                    == done[k].0 && groups@[k].servers.deep_view() == done[k].1 by {
                    if k < shown.len() {
                        assert(groups@[k] == shown[k]);
                    }
                }
            }
        }
        i += 1;
    }
    proof {
        assert(lines.skip(i as int) =~= Seq::<Seq<char>>::empty());
        let before = done;
        done = done.push((group@, servers.deep_view()));
        assert(done =~= mirror_groups(text@));
    }
    let ghost shown = groups@;
    groups.push(MirrorGroup { name: group, servers });
    assert forall|k: int| 0 <= k < groups.len() implies (#[trigger] groups@[k]).name@ == done[k].0
        && groups@[k].servers.deep_view() == done[k].1 by {
        if k < shown.len() {
            assert(groups@[k] == shown[k]);
        }
    }
    groups
}

/// Whether `c` may stand in a label of a host name: a lower-case letter, a digit or a
/// hyphen.
pub open spec fn is_label_char(c: char) -> bool {
    ('a' <= c <= 'z') || ('0' <= c <= '9') || c == '-'
}

/// Whether `c` is a lower-case letter.
pub open spec fn is_lower(c: char) -> bool {
    'a' <= c <= 'z'
}

/// The end of the run of label characters and dots that begins at `from`.
pub open spec fn host_run_end(text: Seq<char>, from: int) -> int
    decreases text.len() - from,
{
    if from < 0 || from >= text.len() || !(is_label_char(text[from]) || text[from] == '.') {
        from
    } else {
        host_run_end(text, from + 1)
    }
}

/// The position of the last `mark` in `text`, -1 where there is none.
pub open spec fn last_at(text: Seq<char>, mark: char) -> int
    decreases text.len(),
{
    if text.len() == 0 {
        -1
    } else if text.last() == mark {
        text.len() - 1
    } else {
        last_at(text.drop_last(), mark)
    }
}

/// Whether no label of `name` is empty so far: the name does not begin with a dot and
/// no dot follows a dot.
pub open spec fn labels_filled(name: Seq<char>) -> bool {
    &&& name.len() > 0 ==> name[0] != '.'
    &&& forall|i: int, j: int|
        0 <= i && j == i + 1 && j < name.len() ==> !(#[trigger] name[i] == '.' && #[trigger] name[j]
            == '.')
}

/// Whether `name`, a run of label characters and dots, is a host name: labels that are
/// not empty, with dots between them, of which there are at least two and the last
/// consists of letters.
pub open spec fn is_host_name(name: Seq<char>) -> bool {
    let dot = last_at(name, '.');
    &&& labels_filled(name)
    &&& 0 <= dot
    &&& dot + 1 < name.len()
    &&& forall|i: int| dot < i < name.len() ==> is_lower(#[trigger] name[i])
}

/// The position behind the scheme of a URL that begins at `at`: behind `http://` or
/// `https://`.
pub open spec fn scheme_end(text: Seq<char>, at: int) -> Option<int> {
    if has_prefix(text.skip(at), "https://"@) {
        Some(at + 8)
    } else if has_prefix(text.skip(at), "http://"@) {
        Some(at + 7)
    } else {
        None
    }
}

/// The first and the end position of the host of a URL that begins at `at`: the host
/// follows the scheme and a slash follows the host.
pub open spec fn host_at(text: Seq<char>, at: int) -> Option<(int, int)> {
    match scheme_end(text, at) {
        None => None,
        Some(from) => {
            let end = host_run_end(text, from);
            if end < text.len() && text[end] == '/' && is_host_name(text.subrange(from, end)) {
                Some((from, end))
            } else {
                None
            }
        },
    }
}

/// The host of the first URL with a host in `text` that begins at or behind `from`.
pub open spec fn first_host(text: Seq<char>, from: int) -> Option<(int, int)>
    decreases text.len() - from,
{
    if from < 0 || from >= text.len() {
        None
    } else {
        match host_at(text, from) {
            Some(range) => Some(range),
            None => first_host(text, from + 1),
        }
    }
}

/// What is shown of the line of a server: the line begins with nine characters that
/// lead to the URL; shown is the host of the URL, or the rest of the line without its
/// last character where no URL with a host is found.
pub open spec fn trimmed_url(line: Seq<char>) -> Seq<char> {
    let rest = line.skip(9);
    match first_host(rest, 0) {
        Some((from, end)) => rest.subrange(from, end),
        None => rest.drop_last(),
    }
}

/// Whether `c` may stand in a label of a host name.
fn label_char(c: char) -> (is: bool)
    ensures
        is == is_label_char(c),
{
    ('a' <= c && c <= 'z') || ('0' <= c && c <= '9') || c == '-'
}

/// The end of the host that begins at `from`, where a host followed by a slash begins
/// there.
fn host_end(chars: &Vec<char>, from: usize) -> (end: Option<usize>)
    requires
        from <= chars.len(),
    ensures
        match end {
            Some(end) => from <= end < chars.len() && end == host_run_end(chars@, from as int)
                && chars@[end as int] == '/' && is_host_name(
                chars@.subrange(from as int, end as int),
            ),
            None => {
                let end = host_run_end(chars@, from as int);
                !(end < chars.len() && chars@[end] == '/' && is_host_name(
                    chars@.subrange(from as int, end),
                ))
            },
        },
{
    let mut at: usize = from;
    let mut filled = true;
    let mut dot: Option<usize> = None;
    let mut lower = true;
    let ghost text = chars@;
    assert(text.subrange(from as int, from as int) =~= Seq::<char>::empty());
    while at < chars.len() && (label_char(chars[at]) || chars[at] == '.')
        invariant
            from <= at <= chars.len(),
            text == chars@,
            host_run_end(text, at as int) == host_run_end(text, from as int),
            filled == labels_filled(text.subrange(from as int, at as int)),
            last_at(text.subrange(from as int, at as int), '.') == (match dot {
                Some(dot) => dot - from,
                None => -1,
            }),
            dot matches Some(dot) ==> from <= dot < at,
            lower == (forall|i: int|
                last_at(text.subrange(from as int, at as int), '.') < i < at - from ==> is_lower(
                    #[trigger] text.subrange(from as int, at as int)[i],
                )),
        decreases chars.len() - at,
    {
        let c = chars[at];
        let ghost seen = text.subrange(from as int, at as int);
        let ghost more = text.subrange(from as int, at + 1);
        proof {
            assert(more.drop_last() =~= seen);
            assert(more.last() == c);
            assert forall|i: int| 0 <= i < seen.len() implies seen[i] == more[i] by {}
        }
        if c == '.' {
            if at == from || chars[at - 1] == '.' {
                proof {
                    if at > from {
                        assert(more[at - from - 1] == '.' && more[at - from] == '.');
                    }
                }
                filled = false;
            } else {
                proof {
                    if labels_filled(seen) {
                        assert forall|i: int, j: int|
                            0 <= i && j == i + 1 && j < more.len() implies !(#[trigger] more[i]
                            == '.' && #[trigger] more[j] == '.') by {
                            if j < seen.len() {
                                assert(!(seen[i] == '.' && seen[j] == '.'));
                            }
                        }
                    } else {
                        if seen[0] != '.' {
                            let (i, j) = choose|i: int, j: int|
                                0 <= i && j == i + 1 && j < seen.len() && (#[trigger] seen[i]
                                    == '.' && #[trigger] seen[j] == '.');
                            assert(more[i] == '.' && more[j] == '.');
                        }
                    }
                }
            }
            dot = Some(at);
            lower = true;
        } else {
            let is_lower_char = 'a' <= c && c <= 'z';
            proof {
                if labels_filled(seen) {
                    assert forall|i: int, j: int|
                        0 <= i && j == i + 1 && j < more.len() implies !(#[trigger] more[i] == '.'
                        && #[trigger] more[j] == '.') by {
                        if j < seen.len() {
                            assert(!(seen[i] == '.' && seen[j] == '.'));
                        }
                    }
                } else {
                    if seen.len() > 0 && seen[0] != '.' {
                        let (i, j) = choose|i: int, j: int|
                            0 <= i && j == i + 1 && j < seen.len() && (#[trigger] seen[i] == '.'
                                && #[trigger] seen[j] == '.');
                        assert(more[i] == '.' && more[j] == '.');
                    }
                }
                assert(last_at(more, '.') == last_at(seen, '.'));
                if lower && is_lower_char {
                    assert forall|i: int| last_at(more, '.') < i < more.len() implies is_lower(
                        #[trigger] more[i],
                    ) by {
                        if i < seen.len() {
                            assert(is_lower(seen[i]));
                        }
                    }
                } else if !lower {
                    let i = choose|i: int|
                        last_at(seen, '.') < i < seen.len() && !is_lower(#[trigger] seen[i]);
                    assert(!is_lower(more[i]));
                } else {
                    assert(!is_lower(more[at - from]));
                }
            }
            lower = lower && is_lower_char;
        }
        at += 1;
    }
    let has_tail = match dot {
        Some(dot) => dot + 1 < at,
        None => false,
    };
    if at < chars.len() && chars[at] == '/' && filled && has_tail && lower {
        Some(at)
    } else {
        None
    }
}

/// The host of the first URL with a host in the characters from `offset` on, in
/// positions behind `offset`.
fn find_host(chars: &Vec<char>, offset: usize) -> (range: Option<(usize, usize)>)
    requires
        offset <= chars.len(),
    ensures
        match range {
            Some((from, end)) => from <= end <= chars.len() - offset && first_host(
                chars@.skip(offset as int),
                0,
            ) == Some((from as int, end as int)),
            None => first_host(chars@.skip(offset as int), 0) is None,
        },
{
    let mut rest: Vec<char> = Vec::new();
    let mut k: usize = offset;
    while k < chars.len()
        invariant
            offset <= k <= chars.len(),
            rest@ == chars@.subrange(offset as int, k as int),
        decreases chars.len() - k,
    {
        rest.push(chars[k]);
        assert(chars@.subrange(offset as int, k as int).push(chars@[k as int]) =~= chars@.subrange(
            offset as int,
            k + 1,
        ));
        k += 1;
    }
    assert(rest@ =~= chars@.skip(offset as int));
    let mut at: usize = 0;
    while at < rest.len()
        invariant
            at <= rest.len(),
            offset <= chars.len(),
            rest@ == chars@.skip(offset as int),
            first_host(rest@, 0) == first_host(rest@, at as int),
        decreases rest.len() - at,
    {
        proof {
            reveal_strlit("https://");
            reveal_strlit("http://");
        }
        let from = if begins_with(&rest, at, "https://") {
            Some(at + 8)
        } else if begins_with(&rest, at, "http://") {
            Some(at + 7)
        } else {
            None
        };
        match from {
            Some(from) => {
                match host_end(&rest, from) {
                    Some(end) => {
                        return Some((from, end));
                    },
                    None => {},
                }
            },
            None => {},
        }
        at += 1;
    }
    None
}

/// What is shown of the line of a server: the host of its URL.
pub fn trim_server_url(url: &str) -> (shown: &str)
    requires
        url@.len() > 9,
    ensures
        shown@ == trimmed_url(url@),
{
    let chars = chars_of(url);
    let len = chars.len();
    match find_host(&chars, 9) {
        Some((from, end)) => {
            assert(url@.skip(9).subrange(from as int, end as int) =~= url@.subrange(
                from + 9,
                end + 9,
            ));
            url.substring_char(from + 9, end + 9)
        },
        None => {
            assert(url@.skip(9).drop_last() =~= url@.subrange(9, len - 1));
            url.substring_char(9, len - 1)
        },
    }
}

/// The mirrors as the view of the mirrors lists them.
#[derive(Debug, Clone, PartialEq, Eq)]
pub struct MirrorList {
    /// The names of the groups.
    pub groups: Vec<String>,
    /// The lines of the servers of each group.
    pub servers: Vec<Vec<String>>,
    /// What is shown of the servers of the groups behind the first.
    pub trim_servers: Vec<String>,
    /// The count of the servers of the first group.
    pub default_servers_count: usize,
}

/// What is shown of the line of a server: the host of its URL, or a line of nine
/// characters or fewer as it is.
pub open spec fn shown_server(line: Seq<char>) -> Seq<char> {
    if line.len() > 9 {
        trimmed_url(line)
    } else {
        line
    }
}

/// What is shown of each of the lines.
pub open spec fn shown_servers(lines: Seq<Seq<char>>) -> Seq<Seq<char>> {
    Seq::new(lines.len(), |i: int| shown_server(lines[i]))
}

/// What is shown of the servers of the groups behind the first, up to the group with
/// the index `count`.
pub open spec fn shown_upto(groups: Seq<(Seq<char>, Seq<Seq<char>>)>, count: int) -> Seq<Seq<char>>
    decreases count,
{
    if count <= 1 {
        Seq::empty()
    } else {
        shown_upto(groups, count - 1) + shown_servers(groups[count - 1].1)
    }
}

/// Whether `list` lists the groups `groups`.
pub open spec fn lists(list: MirrorList, groups: Seq<(Seq<char>, Seq<Seq<char>>)>) -> bool {
    &&& list.groups.len() == groups.len()
    &&& list.servers.len() == groups.len()
    &&& forall|k: int|
        0 <= k < groups.len() ==> (#[trigger] list.groups@[k])@ == groups[k].0
            && list.servers@[k].deep_view() == groups[k].1
    &&& list.trim_servers.deep_view() == shown_upto(groups, groups.len() as int)
    &&& groups.len() > 0 && list.default_servers_count == groups[0].1.len()
}

/// What is shown of the line of a server.
fn show_server(line: &String) -> (shown: String)
    ensures
        shown@ == shown_server(line@),
{
    if line.as_str().unicode_len() > 9 {
        trim_server_url(line.as_str()).to_owned()
    } else {
        line.clone()
    }
}

/// Reads the mirrors from a mirror list.
pub fn get_mirrors(text: &str) -> (list: MirrorList)
    ensures
        lists(list, mirror_groups(text@)),
{
    let grouped = get_grouped_mirrors(text);
    let ghost expected = mirror_groups(text@);
    assert(expected.len() > 0) by {
        lemma_grouped_some(behind_header(lines_of(text@)), FIRST_GROUP@, Seq::empty());
    }
    let default_servers_count = grouped[0].servers.len();
    assert(grouped@[0].servers.deep_view().len() == grouped@[0].servers.len());
    let mut groups: Vec<String> = Vec::new();
    let mut servers: Vec<Vec<String>> = Vec::new();
    let mut trim_servers: Vec<String> = Vec::new();
    let ghost all = grouped@;
    let count = grouped.len();
    assert(trim_servers.deep_view() =~= shown_upto(expected, 0));
    let mut index: usize = 0;
    for group in it: grouped
        invariant
            it.seq() == all,
            all.len() == count,
            index == it.index(),
            groups_are(all, expected),
            groups.len() == index,
            servers.len() == index,
            forall|k: int|
                0 <= k < index ==> (#[trigger] groups@[k])@ == expected[k].0
                    && servers@[k].deep_view() == expected[k].1,
            trim_servers.deep_view() == shown_upto(expected, index as int),
    {
        let MirrorGroup { name, servers: lines } = group;
        assert(all[index as int].name == name && all[index as int].servers == lines);
        let ghost before = trim_servers.deep_view();
        if index > 0 {
            let mut j: usize = 0;
            assert(trim_servers.deep_view() =~= before + shown_servers(
                lines.deep_view(),
            ).take(0));
            while j < lines.len()
                invariant
                    j <= lines.len(),
                    trim_servers.deep_view() == before + shown_servers(lines.deep_view()).take(
                        j as int,
                    ),
                decreases lines.len() - j,
            {
                let ghost held = trim_servers.deep_view();
                trim_servers.push(show_server(&lines[j]));
                proof {
                    let shown = shown_servers(lines.deep_view());
                    assert(lines.deep_view()[j as int] == lines@[j as int]@);
                    assert(trim_servers.deep_view() =~= held.push(shown[j as int]));
                    assert(shown.take(j + 1) =~= shown.take(j as int).push(shown[j as int]));
                    assert(before + shown.take(j + 1) =~= (before + shown.take(j as int)).push(
                        shown[j as int],
                    ));
                }
                j += 1;
            }
            proof {
                let shown = shown_servers(lines.deep_view());
                assert(shown.take(lines.len() as int) =~= shown);
            }
        } else {
            assert(shown_upto(expected, 1) =~= shown_upto(expected, 0));
        }
        groups.push(name);
        servers.push(lines);
        index += 1;
    }
    MirrorList { groups, servers, trim_servers, default_servers_count }
}

/// There is always a group: the first one.
proof fn lemma_grouped_some(lines: Seq<Seq<char>>, group: Seq<char>, servers: Seq<Seq<char>>)
    ensures
        grouped(lines, group, servers).len() > 0,
    decreases lines.len(),
{
    if lines.len() > 0 {
        if has_prefix(lines[0], "Server"@) {
            lemma_grouped_some(lines.drop_first(), group, servers.push(lines[0]));
        } else if has_prefix(lines[0], "# "@) {
        } else {
            lemma_grouped_some(lines.drop_first(), group, servers);
        }
    }
}

} // verus!
