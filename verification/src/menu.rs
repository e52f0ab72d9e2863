//! Menus: lists of items of which one is selected, with a fuzzy search in their items.

use vstd::prelude::*;
use vstd::string::StringExecFns;
use crate::extensions::{AsMenuItem, StrExt};
use crate::key::Key;
use crate::search::{fuzzy_positions, shown_as, stylize_item, Segment};
use crate::selectable::{SelectableWidget, SelectionState};
use crate::text::{clear_text, pop_char, push_char};

verus! {

/// Hint on the keys that move the selection.
pub const NAVIGATION_TIP: &'static str = "Move: j, k, Up, Down, Home, End";

/// Hint on the key that starts a search.
pub const SEARCH_TIP: &'static str = "(Press \"/\" to search)";

/// A menu.
pub type Menu = SelectableWidget<SelectionState>;

/// A table.
pub type Table = SelectableWidget<SelectionState>;

/// A line of a menu as it is shown: an item, cut into runs of matched and of unmatched
/// characters.
#[derive(Debug, Clone, PartialEq, Eq)]
pub struct MenuLine {
    /// Index of the item among all items.
    pub item: usize,
    /// The runs of the text of the item.
    pub segments: Vec<Segment>,
}

/// The indices of the texts that match `pattern`, in ascending order.
pub open spec fn matching(texts: Seq<Seq<char>>, pattern: Seq<char>) -> Seq<usize>
    decreases texts.len(),
{
    if texts.len() == 0 {
        Seq::empty()
    } else {
        let before = matching(texts.drop_last(), pattern);
        if fuzzy_positions(texts.last(), pattern) is Some {
            before.push((texts.len() - 1) as usize)
        } else {
            before
        }
    }
}

/// The texts of the items.
pub open spec fn texts_of<T: AsMenuItem>(items: Seq<T>) -> Seq<Seq<char>> {
    Seq::new(items.len(), |i: int| items[i].menu_text())
}

/// Whether `lines` show the items with the given indices, each marked where the
/// pattern matched it; an empty pattern marks nothing.
pub open spec fn lines_show(
    lines: Seq<MenuLine>,
    texts: Seq<Seq<char>>,
    shown: Seq<usize>,
    pattern: Option<Seq<char>>,
) -> bool {
    &&& lines.len() == shown.len()
    &&& forall|k: int|
        0 <= k < lines.len() ==> (#[trigger] lines[k]).item == shown[k] && shown[k] < texts.len()
            && shown_as(
            lines[k].segments@,
            texts[shown[k] as int],
            match pattern {
                Some(pattern) => fuzzy_positions(texts[shown[k] as int], pattern).unwrap(),
                None => Seq::empty(),
            },
        )
}

/// The indices from 0 up to `count`.
pub open spec fn all_indices(count: nat) -> Seq<usize> {
    Seq::new(count, |i: int| i as usize)
}

/// The state of a search in a menu.
#[derive(Debug)]
pub struct Search {
    /// What the user typed.
    pub search_input: String,
    /// Whether the keys go to the search.
    pub enable_search: bool,
}

impl Search {
    /// Whether a pattern is searched for.
    pub open spec fn searching(&self) -> bool {
        self.enable_search && self.search_input@.len() > 0
    }

    /// Whether the search is not enabled and has no pattern.
    pub open spec fn is_fresh(&self) -> bool {
        !self.enable_search && self.search_input@ == Seq::<char>::empty()
    }

    /// A search that is not enabled and has no pattern.
    pub fn new() -> (search: Self)
        ensures
            search.is_fresh(),
    {
        Search { search_input: String::new(), enable_search: false }
    }

    /// Whether a pattern is searched for.
    pub fn is_searching(&self) -> (searching: bool)
        ensures
            searching == self.searching(),
    {
        self.enable_search && !self.search_input.as_str().is_empty()
    }

    /// Whether the keys go to the search.
    pub fn search_enabled(&self) -> (enabled: bool)
        ensures
            enabled == self.enable_search,
    {
        self.enable_search
    }

    /// What the search bar shows: the pattern behind a slash, or the hint on how to
    /// search.
    pub fn get_search_hint(&self) -> (hint: String)
        ensures
            hint@ == (if self.enable_search {
                "/"@ + self.search_input@
            } else {
                SEARCH_TIP@
            }),
    {
        if self.enable_search {
            String::from_str("/").concat(self.search_input.as_str())
        } else {
            String::from_str(SEARCH_TIP)
        }
    }

    /// Ends the search.
    pub fn reset(&mut self)
        ensures
            !final(self).enable_search,
            final(self).search_input@ == Seq::<char>::empty(),
    {
        self.enable_search = false;
        clear_text(&mut self.search_input);
    }
}

/// What a key does in a menu with a search.
#[derive(Debug, Clone, Copy, PartialEq, Eq, Structural)]
pub enum SearchKey {
    /// The key goes to the pattern as the given character.
    Type(char),
    /// The key removes the last character of the pattern.
    Erase,
    /// The key enables the search.
    Enable,
    /// The key disables the search.
    Disable,
    /// The key moves the selection.
    Move,
    /// The key does nothing.
    Ignore,
}

/// What `key` does in a menu whose search is enabled or not and whose pattern is empty
/// or not. `arrows` says whether the arrow keys, Home and End move the selection.
///
/// With the search enabled characters go to the pattern, and Backspace takes from it or,
/// with nothing left, disables the search. Else a slash enables the search and `k`, `j`,
/// `g` and `G` move the selection.
pub open spec fn search_key(enabled: bool, empty: bool, key: Key) -> SearchKey {
    match key {
        Key::Char(c) => if enabled {
            SearchKey::Type(c)
        } else if c == '/' {
            SearchKey::Enable
        } else if c == 'k' || c == 'j' || c == 'g' || c == 'G' {
            SearchKey::Move
        } else {
            SearchKey::Ignore
        },
        Key::Backspace => if !enabled {
            SearchKey::Ignore
        } else if empty {
            SearchKey::Disable
        } else {
            SearchKey::Erase
        },
        Key::Up | Key::Down | Key::Home | Key::End => SearchKey::Move,
        _ => SearchKey::Ignore,
    }
}

/// What `key` does in a menu with a search.
pub fn classify_key(search: &Search, key: Key) -> (action: SearchKey)
    ensures
        action == search_key(search.enable_search, search.search_input@.len() == 0, key),
{
    match key {
        Key::Char(c) => if search.enable_search {
            SearchKey::Type(c)
        } else if c == '/' {
            SearchKey::Enable
        } else if c == 'k' || c == 'j' || c == 'g' || c == 'G' {
            SearchKey::Move
        } else {
            SearchKey::Ignore
        },
        Key::Backspace => if !search.enable_search {
            SearchKey::Ignore
        } else if search.search_input.as_str().is_empty() {
            SearchKey::Disable
        } else {
            SearchKey::Erase
        },
        Key::Up | Key::Down | Key::Home | Key::End => SearchKey::Move,
        _ => SearchKey::Ignore,
    }
}

/// The pattern after `key` was pressed.
pub open spec fn pattern_after(pattern: Seq<char>, action: SearchKey) -> Seq<char> {
    match action {
        SearchKey::Type(c) => pattern.push(c),
        SearchKey::Erase => pattern.drop_last(),
        _ => pattern,
    }
}

/// Whether the search is enabled after `key` was pressed.
pub open spec fn enabled_after(enabled: bool, action: SearchKey) -> bool {
    match action {
        SearchKey::Enable => true,
        SearchKey::Disable => false,
        _ => enabled,
    }
}

/// A menu over items that are given whenever it is shown.
#[derive(Debug)]
pub struct SearchableMenu {
    pub inner: Menu,
    pub search: Search,
    pub matched_items_index: Vec<usize>,
}

impl SearchableMenu {
    /// Whether the selection is an item of the list as it was last shown.
    pub open spec fn wf(&self) -> bool {
        self.inner.wf()
    }

    /// Whether the selection is an item of the list as it was last shown.
    pub fn is_wf(&self) -> (valid: bool)
        ensures
            valid == self.wf(),
    {
        self.inner.is_wf()
    }

    /// Whether the menu was not shown yet: nothing is selected in a list without items,
    /// no search is enabled and no item matched.
    pub open spec fn is_fresh(&self) -> bool {
        &&& self.inner.is_fresh()
        &&& self.search.is_fresh()
        &&& self.matched_items_index@ == Seq::<usize>::empty()
    }

    /// A menu that was not shown yet.
    pub fn new() -> (menu: Self)
        ensures
            menu.is_fresh(),
            menu.wf(),
    {
        SearchableMenu {
            inner: SelectableWidget::new(SelectionState { offset: 0, selected: None }),
            search: Search::new(),
            matched_items_index: Vec::new(),
        }
    }

    /// Ends the search.
    pub fn reset_search(&mut self)
        ensures
            !final(self).search.enable_search,
            final(self).search.search_input@ == Seq::<char>::empty(),
            final(self).inner == old(self).inner,
            final(self).matched_items_index == old(self).matched_items_index,
    {
        self.search.reset();
    }

    /// Index of the selected line among the lines that are shown.
    pub fn inner_index(&self) -> (index: Option<usize>)
        ensures
            index == self.inner.state.selected,
    {
        self.inner.current_index()
    }

    /// The index of the selected item among all items, as `current_index` gives it.
    pub open spec fn selected_item(&self) -> Option<usize> {
        match self.inner.state.selected {
            None => None,
            Some(line) => if !self.search.searching() {
                Some(line)
            } else if line < self.matched_items_index.len() {
                Some(self.matched_items_index@[line as int])
            } else {
                None
            },
        }
    }

    /// Index of the selected item among all items: during a search that of the item
    /// which the selected line shows, `None` where no such line was shown.
    pub fn current_index(&self) -> (index: Option<usize>)
        ensures
            index == self.selected_item(),
    {
        let line = match self.inner.current_index() {
            Some(line) => line,
            None => {
                return None;
            },
        };
        if !self.search.is_searching() {
            Some(line)
        } else if line < self.matched_items_index.len() {
            Some(self.matched_items_index[line])
        } else {
            None
        }
    }

    /// Whether a pattern is searched for.
    pub fn is_searching(&self) -> (searching: bool)
        ensures
            searching == self.search.searching(),
    {
        self.search.is_searching()
    }

    /// Whether the keys go to the search.
    pub fn search_enabled(&self) -> (enabled: bool)
        ensures
            enabled == self.search.enable_search,
    {
        self.search.search_enabled()
    }

    /// What the search bar shows.
    pub fn get_search_hint(&self) -> (hint: String)
        ensures
            hint@ == (if self.search.enable_search {
                "/"@ + self.search.search_input@
            } else {
                SEARCH_TIP@
            }),
    {
        self.search.get_search_hint()
    }

    /// Whether `lines` and `after` are what the menu `before` shows of the items with
    /// the given texts: during a search the items that match the pattern, marked where
    /// they match, else all items. The selection is adapted to the count of the lines.
    pub open spec fn rendered(
        before: SearchableMenu,
        texts: Seq<Seq<char>>,
        lines: Seq<MenuLine>,
        after: SearchableMenu,
    ) -> bool {
        &&& after.search == before.search
        &&& lines.len() <= usize::MAX
        &&& Menu::updated(before.inner, lines.len() as usize, after.inner)
        &&& if before.search.searching() {
            &&& after.matched_items_index@ == matching(texts, before.search.search_input@)
            &&& lines_show(
                lines,
                texts,
                after.matched_items_index@,
                Some(before.search.search_input@),
            )
        } else {
            &&& after.matched_items_index == before.matched_items_index
            &&& lines_show(lines, texts, all_indices(texts.len()), None)
        }
    }

    /// The lines that the menu shows of `items`.
    pub fn render(&mut self, items: &Vec<String>) -> (lines: Vec<MenuLine>)
        ensures
            Self::rendered(*old(self), texts_of(items@), lines@, *final(self)),
            old(self).wf() ==> final(self).wf(),
    {
        let lines = if self.search.is_searching() {
            let (shown, lines) = filter_items(items, self.search.search_input.as_str());
            self.matched_items_index = shown;
            lines
        } else {
            plain_lines(items)
        };
        self.inner.update_state(lines.len());
        lines
    }

    /// Reads a key: it goes to the search or moves the selection.
    pub fn on_event(&mut self, key: Key)
        requires
            old(self).wf(),
        ensures
            final(self).wf(),
            final(self).matched_items_index == old(self).matched_items_index,
            menu_after(
                old(self).inner,
                old(self).search,
                key,
                final(self).inner,
                final(self).search,
            ),
    {
        match classify_key(&self.search, key) {
            SearchKey::Type(c) => push_char(&mut self.search.search_input, c),
            SearchKey::Erase => {
                pop_char(&mut self.search.search_input);
            },
            SearchKey::Enable => self.search.enable_search = true,
            SearchKey::Disable => self.search.enable_search = false,
            SearchKey::Move => self.inner.on_event(key),
            SearchKey::Ignore => {},
        }
    }
}

/// Whether a menu with a search is, after `key`, in the state `inner_after` and
/// `search_after`: the key changed the pattern, enabled or disabled the search, or moved
/// the selection.
pub open spec fn menu_after(
    inner: Menu,
    search: Search,
    key: Key,
    inner_after: Menu,
    search_after: Search,
) -> bool {
    let action = search_key(search.enable_search, search.search_input@.len() == 0, key);
    &&& search_after.search_input@ == pattern_after(search.search_input@, action)
    &&& search_after.enable_search == enabled_after(search.enable_search, action)
    &&& inner_after.last_items_len == inner.last_items_len
    &&& inner_after.state.offset == inner.state.offset
    &&& inner_after.state.selected == (if action == SearchKey::Move {
        Menu::moved(inner.state.selected, inner.last_items_len, key)
    } else {
        inner.state.selected
    })
}

/// The lines for all items, none of them marked.
fn plain_lines(items: &Vec<String>) -> (lines: Vec<MenuLine>)
    ensures
        lines_show(lines@, texts_of(items@), all_indices(items@.len()), None),
{
    let mut lines: Vec<MenuLine> = Vec::new();
    let none: Vec<usize> = Vec::new();
    let mut i: usize = 0;
    while i < items.len()
        invariant
            i <= items.len(),
            none@ == Seq::<usize>::empty(),
            lines_show(lines@, texts_of(items@), all_indices(i as nat), None),
        decreases items.len() - i,
    {
        let ghost before = lines@;
        lines.push(MenuLine { item: i, segments: stylize_item(items[i].as_str(), &none) });
        proof {
            let after = lines@;
            assert forall|k: int| 0 <= k < after.len() implies (#[trigger] after[k]).item
                == all_indices((i + 1) as nat)[k] && all_indices((i + 1) as nat)[k] < texts_of(
                items@,
            ).len() && shown_as(
                after[k].segments@,
                texts_of(items@)[all_indices((i + 1) as nat)[k] as int],
                Seq::empty(),
            ) by {
                if k < i {
                    assert(after[k] == before[k]);
                    assert(before[k].item == all_indices(i as nat)[k]);
                }
            }
        }
        i += 1;
    }
    lines
}

/// The items that match `pattern`, with the lines that show them.
fn filter_items(items: &Vec<String>, pattern: &str) -> (found: (Vec<usize>, Vec<MenuLine>))
    ensures
        found.0@ == matching(texts_of(items@), pattern@),
        lines_show(found.1@, texts_of(items@), found.0@, Some(pattern@)),
{
    let mut shown: Vec<usize> = Vec::new();
    let mut lines: Vec<MenuLine> = Vec::new();
    let ghost texts = texts_of(items@);
    let mut i: usize = 0;
    assert(texts.take(0) =~= Seq::<Seq<char>>::empty());
    while i < items.len()
        invariant
            i <= items.len(),
            texts == texts_of(items@),
            shown@ == matching(texts.take(i as int), pattern@),
            lines_show(lines@, texts, shown@, Some(pattern@)),
        decreases items.len() - i,
    {
        proof {
            assert(texts.take(i + 1).drop_last() =~= texts.take(i as int));
            assert(texts.take(i + 1).last() == texts[i as int]);
        }
        let ghost before = lines@;
        let ghost before_shown = shown@;
        match pattern.fuzzy_indices(items[i].as_str()) {
            Some(positions) => {
                shown.push(i);
                lines.push(
                    MenuLine { item: i, segments: stylize_item(items[i].as_str(), &positions) },
                );
                proof {
                    let after = lines@;
                    assert forall|k: int| 0 <= k < after.len() implies (#[trigger] after[k]).item
                        == shown@[k] && shown@[k] < texts.len() && shown_as(
                        after[k].segments@,
                        texts[shown@[k] as int],
                        fuzzy_positions(texts[shown@[k] as int], pattern@).unwrap(),
                    ) by {
                        if k < before.len() {
                            assert(after[k] == before[k]);
                            assert(shown@[k] == before_shown[k]);
                        }
                    }
                }
            },
            None => {},
        }
        i += 1;
    }
    assert(texts.take(items.len() as int) =~= texts);
    (shown, lines)
}

/// An item that matched the pattern of a search, with the positions of the characters
/// that matched.
#[derive(Debug, Clone, PartialEq, Eq)]
pub struct Match {
    /// Index of the item among all items.
    pub item: usize,
    /// Positions of the matched characters in the text of the item.
    pub positions: Vec<usize>,
}

/// Whether `matches` are the texts that match `pattern`, in ascending order, each with
/// the positions at which it matches.
pub open spec fn matches_found(
    matches: Seq<Match>,
    texts: Seq<Seq<char>>,
    pattern: Seq<char>,
) -> bool {
    &&& matches.len() == matching(texts, pattern).len()
    &&& forall|k: int|
        0 <= k < matches.len() ==> (#[trigger] matches[k]).item == matching(texts, pattern)[k]
            && matches[k].item < texts.len() && fuzzy_positions(
            texts[matches[k].item as int],
            pattern,
        ) == Some(matches[k].positions@)
}

/// Whether `lines` show the matches: each line its item, marked at the positions of the
/// match. An item that is none of the texts is shown without text.
pub open spec fn lines_show_matches(
    lines: Seq<MenuLine>,
    texts: Seq<Seq<char>>,
    matches: Seq<Match>,
) -> bool {
    &&& lines.len() == matches.len()
    &&& forall|k: int|
        0 <= k < lines.len() ==> (#[trigger] lines[k]).item == matches[k].item && (if matches[k].item
            < texts.len() {
            shown_as(lines[k].segments@, texts[matches[k].item as int], matches[k].positions@)
        } else {
            lines[k].segments@.len() == 0
        })
}

/// A menu that keeps its items, and during a search the items that matched.
#[derive(Debug)]
pub struct CachedSearchableMenu<T> {
    pub inner: Menu,
    pub search: Search,
    pub items: Vec<T>,
    pub matched_items_index: Vec<Match>,
    /// Whether the matches are those of the pattern and the items as they are.
    pub cached: bool,
}

impl<T: AsMenuItem> CachedSearchableMenu<T> {
    /// Whether the selection is an item of the list as it was last shown.
    pub open spec fn wf(&self) -> bool {
        self.inner.wf()
    }

    /// Whether the selection is an item of the list as it was last shown.
    pub fn is_wf(&self) -> (valid: bool)
        ensures
            valid == self.wf(),
    {
        self.inner.is_wf()
    }

    /// Whether the menu has no items and was not shown yet: nothing is selected, no
    /// search is enabled, and no matches are found or kept.
    pub open spec fn is_fresh(&self) -> bool {
        &&& self.inner.is_fresh()
        &&& self.search.is_fresh()
        &&& self.items@ == Seq::<T>::empty()
        &&& self.matched_items_index@ == Seq::<Match>::empty()
        &&& !self.cached
    }

    /// A menu without items that was not shown yet.
    pub fn new() -> (menu: Self)
        ensures
            menu.is_fresh(),
            menu.wf(),
    {
        CachedSearchableMenu {
            inner: SelectableWidget::new(SelectionState { offset: 0, selected: None }),
            search: Search::new(),
            items: Vec::new(),
            matched_items_index: Vec::new(),
            cached: false,
        }
    }

    /// The index of the selected item among all items, as `current_index` gives it.
    pub open spec fn selected_item(&self) -> Option<usize> {
        match self.inner.state.selected {
            None => None,
            Some(line) => if !self.search.searching() {
                Some(line)
            } else if line < self.matched_items_index.len() {
                Some(self.matched_items_index@[line as int].item)
            } else {
                None
            },
        }
    }

    /// Index of the selected item among all items: during a search that of the item
    /// which the selected line shows, `None` where no such line was shown.
    pub fn current_index(&self) -> (index: Option<usize>)
        ensures
            index == self.selected_item(),
    {
        let line = match self.inner.current_index() {
            Some(line) => line,
            None => {
                return None;
            },
        };
        if !self.search.is_searching() {
            Some(line)
        } else if line < self.matched_items_index.len() {
            Some(self.matched_items_index[line].item)
        } else {
            None
        }
    }

    /// The selected item, `None` where there is none among the items.
    pub fn current_item(&self) -> (item: Option<&T>)
        ensures
            item == (match self.selected_item() {
                Some(index) => if index < self.items.len() {
                    Some(&self.items@[index as int])
                } else {
                    None
                },
                None => None,
            }),
    {
        match self.current_index() {
            Some(index) => if index < self.items.len() {
                Some(&self.items[index])
            } else {
                None
            },
            None => None,
        }
    }

    /// Ends the search.
    pub fn reset_search(&mut self)
        ensures
            !final(self).search.enable_search,
            final(self).search.search_input@ == Seq::<char>::empty(),
            !final(self).cached,
            final(self).inner == old(self).inner,
            final(self).items == old(self).items,
            final(self).matched_items_index == old(self).matched_items_index,
    {
        self.search.reset();
        self.cached = false;
    }

    /// The items.
    pub fn as_items(&self) -> (items: &Vec<T>)
        ensures
            items == self.items,
    {
        &self.items
    }

    /// Puts `items` in place of the items.
    pub fn replace_items(&mut self, items: Vec<T>)
        ensures
            final(self).items == items,
            !final(self).cached,
            final(self).inner == old(self).inner,
            final(self).search == old(self).search,
            final(self).matched_items_index == old(self).matched_items_index,
    {
        self.items = items;
        self.cached = false;
    }

    /// Whether a pattern is searched for.
    pub fn is_searching(&self) -> (searching: bool)
        ensures
            searching == self.search.searching(),
    {
        self.search.is_searching()
    }

    /// Whether the keys go to the search.
    pub fn search_enabled(&self) -> (enabled: bool)
        ensures
            enabled == self.search.enable_search,
    {
        self.search.search_enabled()
    }

    /// What the search bar shows.
    pub fn get_search_hint(&self) -> (hint: String)
        ensures
            hint@ == (if self.search.enable_search {
                "/"@ + self.search.search_input@
            } else {
                SEARCH_TIP@
            }),
    {
        self.search.get_search_hint()
    }

    /// Whether `lines` and `after` are what the menu `before` shows: during a search the
    /// items that match the pattern, marked where they match, else all items. The
    /// matches are found anew unless they are marked as kept. The selection is adapted to
    /// the count of the lines.
    pub open spec fn rendered(before: Self, lines: Seq<MenuLine>, after: Self) -> bool {
        &&& after.search == before.search
        &&& after.items == before.items
        &&& after.cached == before.cached
        &&& lines.len() <= usize::MAX
        &&& Menu::updated(before.inner, lines.len() as usize, after.inner)
        &&& if before.search.searching() {
            &&& if before.cached {
                after.matched_items_index == before.matched_items_index
            } else {
                matches_found(
                    after.matched_items_index@,
                    texts_of(before.items@),
                    before.search.search_input@,
                )
            }
            &&& lines_show_matches(lines, texts_of(before.items@), after.matched_items_index@)
        } else {
            &&& after.matched_items_index == before.matched_items_index
            &&& lines_show(lines, texts_of(before.items@), all_indices(before.items@.len()), None)
        }
    }

    /// The lines that the menu shows.
    pub fn render_default(&mut self) -> (lines: Vec<MenuLine>)
        ensures
            Self::rendered(*old(self), lines@, *final(self)),
            old(self).wf() ==> final(self).wf(),
    {
        let lines = if self.search.is_searching() {
            if !self.cached {
                self.matched_items_index = find_matches(
                    &self.items,
                    self.search.search_input.as_str(),
                );
            }
            match_lines(&self.items, &self.matched_items_index)
        } else {
            item_lines(&self.items)
        };
        self.inner.update_state(lines.len());
        lines
    }

    /// Reads a key: it goes to the search or moves the selection. A change of the
    /// pattern drops the kept matches; a move by an arrow key, Home or End during a
    /// search keeps them.
    pub fn on_event(&mut self, key: Key)
        requires
            old(self).wf(),
        ensures
            final(self).wf(),
            final(self).items == old(self).items,
            final(self).matched_items_index == old(self).matched_items_index,
            menu_after(
                old(self).inner,
                old(self).search,
                key,
                final(self).inner,
                final(self).search,
            ),
            final(self).cached == (match search_key(
                old(self).search.enable_search,
                old(self).search.search_input@.len() == 0,
                key,
            ) {
                SearchKey::Type(_) | SearchKey::Erase => false,
                SearchKey::Move => old(self).cached || old(self).search.searching(),
                _ => old(self).cached,
            }),
    {
        match classify_key(&self.search, key) {
            SearchKey::Type(c) => {
                push_char(&mut self.search.search_input, c);
                self.cached = false;
            },
            SearchKey::Erase => {
                pop_char(&mut self.search.search_input);
                self.cached = false;
            },
            SearchKey::Enable => self.search.enable_search = true,
            SearchKey::Disable => self.search.enable_search = false,
            SearchKey::Move => {
                self.inner.on_event(key);
                if self.search.is_searching() {
                    self.cached = true;
                }
            },
            SearchKey::Ignore => {},
        }
    }
}

/// The lines for all items, none of them marked.
fn item_lines<T: AsMenuItem>(items: &Vec<T>) -> (lines: Vec<MenuLine>)
    ensures
        lines_show(lines@, texts_of(items@), all_indices(items@.len()), None),
{
    let mut lines: Vec<MenuLine> = Vec::new();
    let none: Vec<usize> = Vec::new();
    let mut i: usize = 0;
    while i < items.len()
        invariant
            i <= items.len(),
            none@ == Seq::<usize>::empty(),
            lines_show(lines@, texts_of(items@), all_indices(i as nat), None),
        decreases items.len() - i,
    {
        let ghost before = lines@;
        lines.push(MenuLine { item: i, segments: stylize_item(items[i].as_menu_item(), &none) });
        proof {
            let after = lines@;
            assert forall|k: int| 0 <= k < after.len() implies (#[trigger] after[k]).item
                == all_indices((i + 1) as nat)[k] && all_indices((i + 1) as nat)[k] < texts_of(
                items@,
            ).len() && shown_as(
                after[k].segments@,
                texts_of(items@)[all_indices((i + 1) as nat)[k] as int],
                Seq::empty(),
            ) by {
                if k < i {
                    assert(after[k] == before[k]);
                    assert(before[k].item == all_indices(i as nat)[k]);
                }
            }
        }
        i += 1;
    }
    lines
}

/// The items that match `pattern`, each with the positions at which it matches.
fn find_matches<T: AsMenuItem>(items: &Vec<T>, pattern: &str) -> (matches: Vec<Match>)
    ensures
        matches_found(matches@, texts_of(items@), pattern@),
{
    let mut matches: Vec<Match> = Vec::new();
    let ghost texts = texts_of(items@);
    let mut i: usize = 0;
    assert(texts.take(0) =~= Seq::<Seq<char>>::empty());
    while i < items.len()
        invariant
            i <= items.len(),
            texts == texts_of(items@),
            matches.len() == matching(texts.take(i as int), pattern@).len(),
            forall|k: int|
                0 <= k < matches.len() ==> (#[trigger] matches@[k]).item == matching(
                    texts.take(i as int),
                    pattern@,
                )[k] && matches@[k].item < i && fuzzy_positions(
                    texts[matches@[k].item as int],
                    pattern@,
                ) == Some(matches@[k].positions@),
        decreases items.len() - i,
    {
        proof {
            assert(texts.take(i + 1).drop_last() =~= texts.take(i as int));
            assert(texts.take(i + 1).last() == texts[i as int]);
        }
        let ghost before = matches@;
        match pattern.fuzzy_indices(items[i].as_menu_item()) {
            Some(positions) => {
                matches.push(Match { item: i, positions });
                proof {
                    assert forall|k: int| 0 <= k < matches.len() implies (
                    #[trigger] matches@[k]).item == matching(texts.take(i + 1), pattern@)[k]
                        && matches@[k].item < i + 1 && fuzzy_positions(
                        texts[matches@[k].item as int],
                        pattern@,
                    ) == Some(matches@[k].positions@) by {
                        if k < before.len() {
                            assert(matches@[k] == before[k]);
                        }
                    }
                }
            },
            None => {},
        }
        i += 1;
    }
    assert(texts.take(items.len() as int) =~= texts);
    matches
}

/// The lines that show the matches.
fn match_lines<T: AsMenuItem>(items: &Vec<T>, matches: &Vec<Match>) -> (lines: Vec<MenuLine>)
    ensures
        lines_show_matches(lines@, texts_of(items@), matches@),
{
    let mut lines: Vec<MenuLine> = Vec::new();
    let mut k: usize = 0;
    while k < matches.len()
        invariant
            k <= matches.len(),
            lines_show_matches(lines@, texts_of(items@), matches@.take(k as int)),
        decreases matches.len() - k,
    {
        let found = &matches[k];
        let segments = if found.item < items.len() {
            stylize_item(items[found.item].as_menu_item(), &found.positions)
        } else {
            Vec::new()
        };
        let ghost before = lines@;
        lines.push(MenuLine { item: found.item, segments });
        proof {
            let after = lines@;
            let shown = matches@.take(k + 1);
            let texts = texts_of(items@);
            assert forall|n: int| 0 <= n < after.len() implies (#[trigger] after[n]).item
                == shown[n].item && (if shown[n].item < texts.len() {
                shown_as(after[n].segments@, texts[shown[n].item as int], shown[n].positions@)
            } else {
                after[n].segments@.len() == 0
            }) by {
                if n < k {
                    assert(after[n] == before[n]);
                    assert(matches@.take(k as int)[n] == shown[n]);
                }
            }
        }
        k += 1;
    }
    assert(matches@.take(matches.len() as int) =~= matches@);
    lines
}

} // verus!
