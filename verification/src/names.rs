//! The names of keyboard layouts and time zones, as the files of the system give them.

use vstd::prelude::*;
use vstd::string::StrSliceExecFns;
use crate::extensions::VecExt;
use crate::text::{
    begins_with, chars_of, find_char, first_at, has_prefix, has_suffix, same_text,
    texts_ascending,
};

verus! {

/// The end of the name of a file that holds a keyboard layout.
pub const KEYMAP_SUFFIX: &'static str = ".map.gz";

/// The directory below which the files of the time zones lie.
pub const ZONE_DIRECTORY: &'static str = "/usr/share/zoneinfo/";

/// The name of the layout that a file of the given name holds: the name without the
/// end that marks a keyboard layout; `None` for any other file.
pub open spec fn layout_of(file_name: Seq<char>) -> Option<Seq<char>> {
    if has_suffix(file_name, KEYMAP_SUFFIX@) {
        Some(file_name.subrange(0, file_name.len() - KEYMAP_SUFFIX@.len()))
    } else {
        None
    }
}

/// The names of the layouts that the files of the given names hold, in the order of the
/// files.
pub open spec fn layouts_of(file_names: Seq<Seq<char>>) -> Seq<Seq<char>>
    decreases file_names.len(),
{
    if file_names.len() == 0 {
        Seq::empty()
    } else {
        let before = layouts_of(file_names.drop_last());
        match layout_of(file_names.last()) {
            Some(layout) => before.push(layout),
            None => before,
        }
    }
}

/// The name of the layout that a file of the given name holds.
pub fn layout_name(file_name: &str) -> (layout: Option<&str>)
    ensures
        match layout {
            Some(name) => layout_of(file_name@) == Some(name@),
            None => layout_of(file_name@) is None,
        },
{
    let chars = chars_of(file_name);
    let count = KEYMAP_SUFFIX.unicode_len();
    if chars.len() < count {
        return None;
    }
    let from = chars.len() - count;
    assert(chars@.skip(from as int) =~= chars@.subrange(from as int, chars.len() as int));
    if begins_with(&chars, from, KEYMAP_SUFFIX) {
        assert(chars@.skip(from as int).subrange(0, count as int) =~= chars@.skip(from as int));
        Some(file_name.substring_char(0, from))
    } else {
        assert(chars@.skip(from as int).subrange(0, count as int) =~= chars@.skip(from as int));
        None
    }
}

/// The keyboard layouts that the files of the given names hold, in ascending order.
pub fn get_keyboard_layouts(file_names: &Vec<String>) -> (layouts: Vec<String>)
    ensures
        texts_ascending(layouts.deep_view()),
        layouts.deep_view().to_multiset() == layouts_of(file_names.deep_view()).to_multiset(),
{
    let mut layouts: Vec<String> = Vec::new();
    let ghost names = file_names.deep_view();
    let mut i: usize = 0;
    assert(names.take(0) =~= Seq::<Seq<char>>::empty());
    assert(layouts.deep_view() =~= Seq::<Seq<char>>::empty());
    while i < file_names.len()
        invariant
            i <= file_names.len(),
            names == file_names.deep_view(),
            layouts.deep_view() == layouts_of(names.take(i as int)),
        decreases file_names.len() - i,
    {
        proof {
            assert(names.take(i + 1).drop_last() =~= names.take(i as int));
            assert(names.take(i + 1).last() == names[i as int]);
            assert(names[i as int] == file_names@[i as int]@);
        }
        let ghost held = layouts.deep_view();
        match layout_name(file_names[i].as_str()) {
            Some(name) => {
                layouts.push(name.to_owned());
                assert(layouts.deep_view() =~= held.push(name@));
            },
            None => {},
        }
        i += 1;
    }
    assert(names.take(file_names.len() as int) =~= names);
    layouts.sort_inplace()
}

/// Whether the name of a file has an extension: a dot behind its first character.
pub open spec fn has_extension(file_name: Seq<char>) -> bool {
    first_at(file_name, '.', 1) < file_name.len()
}

/// Whether the walk through the directory of the time zones keeps the entry with the
/// given name: a directory unless it is `posix` or `right`, a file unless its name has
/// an extension or is `posixrules`, `SECURITY` or `leapseconds`.
pub open spec fn zone_entry_kept(file_name: Seq<char>, is_dir: bool) -> bool {
    if is_dir {
        file_name != "posix"@ && file_name != "right"@
    } else {
        !has_extension(file_name) && file_name != "posixrules"@ && file_name != "SECURITY"@
            && file_name != "leapseconds"@
    }
}

/// Whether the walk through the directory of the time zones keeps the entry with the
/// given name.
pub fn keeps_zone_entry(file_name: &str, is_dir: bool) -> (kept: bool)
    ensures
        kept == zone_entry_kept(file_name@, is_dir),
{
    if is_dir {
        !same_text(file_name, "posix") && !same_text(file_name, "right")
    } else {
        let chars = chars_of(file_name);
        let len = chars.len();
        assert(chars@.subrange(0, len as int) =~= chars@);
        let extended = len > 1 && find_char(&chars, '.', 1, len) < len;
        proof {
            if len <= 1 {
                crate::text::lemma_first_at(file_name@, '.', len as int);
                assert(first_at(file_name@, '.', 1) >= len) by {
                    if len == 1 {
                        crate::text::lemma_first_at(file_name@, '.', 1);
                    }
                }
            }
        }
        !extended && !same_text(file_name, "posixrules") && !same_text(file_name, "SECURITY")
            && !same_text(file_name, "leapseconds")
    }
}

/// The name of the time zone whose file lies at `path`: the path below the directory of
/// the time zones; `None` for a path that does not lie below it.
pub fn zone_name(path: &str) -> (zone: Option<&str>)
    ensures
        match zone {
            Some(name) => has_prefix(path@, ZONE_DIRECTORY@) && name@ == path@.skip(
                ZONE_DIRECTORY@.len() as int,
            ),
            None => !has_prefix(path@, ZONE_DIRECTORY@),
        },
{
    let chars = chars_of(path);
    assert(chars@.skip(0) =~= chars@);
    if begins_with(&chars, 0, ZONE_DIRECTORY) {
        let count = ZONE_DIRECTORY.unicode_len();
        assert(path@.skip(count as int) =~= path@.subrange(count as int, chars.len() as int));
        Some(path.substring_char(count, chars.len()))
    } else {
        None
    }
}

/// The time zones whose files lie at the given paths, in the order of the paths. A path
/// that does not lie below the directory of the time zones names none.
pub fn get_timezones(paths: &Vec<String>) -> (zones: Vec<String>)
    ensures
        zones.deep_view() == zones_of(paths.deep_view()),
{
    let mut zones: Vec<String> = Vec::new();
    let ghost all = paths.deep_view();
    let mut i: usize = 0;
    assert(all.take(0) =~= Seq::<Seq<char>>::empty());
    assert(zones.deep_view() =~= Seq::<Seq<char>>::empty());
    while i < paths.len()
        invariant
            i <= paths.len(),
            all == paths.deep_view(),
            zones.deep_view() == zones_of(all.take(i as int)),
        decreases paths.len() - i,
    {
        proof {
            assert(all.take(i + 1).drop_last() =~= all.take(i as int));
            assert(all.take(i + 1).last() == all[i as int]);
            assert(all[i as int] == paths@[i as int]@);
        }
        let ghost held = zones.deep_view();
        match zone_name(paths[i].as_str()) {
            Some(name) => {
                zones.push(name.to_owned());
                assert(zones.deep_view() =~= held.push(name@));
            },
            None => {},
        }
        i += 1;
    }
    assert(all.take(paths.len() as int) =~= all);
    zones
}

/// The time zones whose files lie at the given paths.
pub open spec fn zones_of(paths: Seq<Seq<char>>) -> Seq<Seq<char>>
    decreases paths.len(),
{
    if paths.len() == 0 {
        Seq::empty()
    } else {
        let before = zones_of(paths.drop_last());
        if has_prefix(paths.last(), ZONE_DIRECTORY@) {
            before.push(paths.last().skip(ZONE_DIRECTORY@.len() as int))
        } else {
            before
        }
    }
}

} // verus!
