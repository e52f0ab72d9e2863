//! The views that show one list to choose from: keyboard layouts and time zones.

use vstd::prelude::*;
use crate::config::Config;
use crate::key::Key;
use crate::menu::{menu_after, search_key, CachedSearchableMenu, MenuLine, SearchKey};
use crate::route::Msg;

verus! {

/// Whether `after` is the menu `before` with its search ended.
pub open spec fn search_ended(
    before: CachedSearchableMenu<String>,
    after: CachedSearchableMenu<String>,
) -> bool {
    &&& !after.search.enable_search
    &&& after.search.search_input@ == Seq::<char>::empty()
    &&& !after.cached
    &&& after.inner == before.inner
    &&& after.items == before.items
    &&& after.matched_items_index == before.matched_items_index
}

/// Whether `after` is what `key` makes of the menu `before` when the menu reads it.
pub open spec fn menu_read(
    before: CachedSearchableMenu<String>,
    key: Key,
    after: CachedSearchableMenu<String>,
) -> bool {
    &&& after.items == before.items
    &&& after.matched_items_index == before.matched_items_index
    &&& menu_after(before.inner, before.search, key, after.inner, after.search)
    &&& after.cached == (match search_key(
        before.search.enable_search,
        before.search.search_input@.len() == 0,
        key,
    ) {
        SearchKey::Type(_) | SearchKey::Erase => false,
        SearchKey::Move => before.cached || before.search.searching(),
        _ => before.cached,
    })
}

/// Whether `after` and `msg` are what `key` makes of a list `before` that is left by
/// Escape and by `q`: Escape ends a search and leaves the view where there is none, `q`
/// leaves the view unless it goes to the search, any other key is read by the menu.
pub open spec fn list_handled(
    before: CachedSearchableMenu<String>,
    key: Key,
    after: CachedSearchableMenu<String>,
    msg: Option<Msg>,
) -> bool {
    if key == Key::Esc {
        if before.search.enable_search {
            msg is None && search_ended(before, after)
        } else {
            msg == Some(Msg::BackToMain) && after == before
        }
    } else if key == Key::Char('q') && !before.search.enable_search {
        msg == Some(Msg::BackToMain) && after == before
    } else {
        msg is None && menu_read(before, key, after)
    }
}

/// Reads a key in a list that is left by Escape and by `q`.
fn handle_list(menu: &mut CachedSearchableMenu<String>, key: Key) -> (msg: Option<Msg>)
    requires
        old(menu).wf(),
    ensures
        final(menu).wf(),
        list_handled(*old(menu), key, *final(menu), msg),
{
    match key {
        Key::Esc => {
            if menu.search_enabled() {
                menu.reset_search();
                return None;
            }
            Some(Msg::BackToMain)
        },
        Key::Char('q') if !menu.search_enabled() => Some(Msg::BackToMain),
        _ => {
            menu.on_event(key);
            None
        },
    }
}

/// The view of the keyboard layouts.
#[derive(Debug)]
pub struct Keyboard {
    pub menu: CachedSearchableMenu<String>,
}

impl Keyboard {
    /// Whether the view is in a valid state.
    pub open spec fn wf(&self) -> bool {
        self.menu.wf()
    }

    /// Whether the view is in a valid state.
    pub fn is_wf(&self) -> (valid: bool)
        ensures
            valid == self.wf(),
    {
        self.menu.is_wf()
    }

    /// The view before the layouts are known: its list is without items, selection and
    /// search.
    pub fn new() -> (view: Self)
        ensures
            view.menu.is_fresh(),
            view.wf(),
    {
        Keyboard { menu: CachedSearchableMenu::new() }
    }

    /// The selected layout, `None` where none is selected.
    pub open spec fn selected_layout(menu: CachedSearchableMenu<String>) -> Option<String> {
        match menu.selected_item() {
            Some(index) => if index < menu.items.len() {
                Some(menu.items@[index as int])
            } else {
                None
            },
            None => None,
        }
    }

    /// Whether `after`, `config_after` and `msg` are what `key` makes of the view: Enter
    /// takes the selected layout and leaves the view, any other key is read as in every
    /// list.
    pub open spec fn handled(
        before: Keyboard,
        config: Config,
        key: Key,
        after: Keyboard,
        config_after: Config,
        msg: Option<Msg>,
    ) -> bool {
        &&& config_after.mirror == config.mirror
        &&& config_after.locale == config.locale
        &&& config_after.hostname == config.hostname
        &&& if key == Key::Enter {
            match Self::selected_layout(before.menu) {
                Some(layout) => msg == Some(Msg::BackToMain) && config_after.keyboard_layout
                    == layout && search_ended(before.menu, after.menu),
                None => msg is None && config_after.keyboard_layout == config.keyboard_layout
                    && after == before,
            }
        } else {
            config_after.keyboard_layout == config.keyboard_layout && list_handled(
                before.menu,
                key,
                after.menu,
                msg,
            )
        }
    }

    /// Puts the layouts into the list.
    pub fn load(&mut self, layouts: Vec<String>)
        requires
            old(self).wf(),
        ensures
            final(self).wf(),
            final(self).menu.items == layouts,
            !final(self).menu.cached,
            final(self).menu.inner == old(self).menu.inner,
            final(self).menu.search == old(self).menu.search,
            final(self).menu.matched_items_index == old(self).menu.matched_items_index,
    {
        self.menu.replace_items(layouts);
    }

    /// The lines of the list.
    pub fn render(&mut self) -> (lines: Vec<MenuLine>)
        requires
            old(self).wf(),
        ensures
            final(self).wf(),
            CachedSearchableMenu::rendered(old(self).menu, lines@, final(self).menu),
    {
        self.menu.render_default()
    }

    /// Reads a key.
    pub fn on_event(&mut self, key: Key, config: &mut Config) -> (msg: Option<Msg>)
        requires
            old(self).wf(),
        ensures
            final(self).wf(),
            Self::handled(*old(self), *old(config), key, *final(self), *final(config), msg),
    {
        match key {
            Key::Enter => {
                let layout = match self.menu.current_item() {
                    Some(layout) => layout.clone(),
                    None => {
                        return None;
                    },
                };
                config.keyboard_layout = layout;
                self.menu.reset_search();
                Some(Msg::BackToMain)
            },
            _ => handle_list(&mut self.menu, key),
        }
    }
}

/// The view of the time zones.
#[derive(Debug)]
pub struct Timezone {
    pub menu: CachedSearchableMenu<String>,
}

impl Timezone {
    /// Whether the view is in a valid state.
    pub open spec fn wf(&self) -> bool {
        self.menu.wf()
    }

    /// Whether the view is in a valid state.
    pub fn is_wf(&self) -> (valid: bool)
        ensures
            valid == self.wf(),
    {
        self.menu.is_wf()
    }

    /// The view before the time zones are known: its list is without items, selection
    /// and search.
    pub fn new() -> (view: Self)
        ensures
            view.menu.is_fresh(),
            view.wf(),
    {
        Timezone { menu: CachedSearchableMenu::new() }
    }

    /// Puts the time zones into the list.
    pub fn load(&mut self, zones: Vec<String>)
        requires
            old(self).wf(),
        ensures
            final(self).wf(),
            final(self).menu.items == zones,
            !final(self).menu.cached,
            final(self).menu.inner == old(self).menu.inner,
            final(self).menu.search == old(self).menu.search,
            final(self).menu.matched_items_index == old(self).menu.matched_items_index,
    {
        self.menu.replace_items(zones);
    }

    /// The lines of the list.
    pub fn render(&mut self) -> (lines: Vec<MenuLine>)
        requires
            old(self).wf(),
        ensures
            final(self).wf(),
            CachedSearchableMenu::rendered(old(self).menu, lines@, final(self).menu),
    {
        self.menu.render_default()
    }

    /// Reads a key, as every list does.
    pub fn on_event(&mut self, key: Key) -> (msg: Option<Msg>)
        requires
            old(self).wf(),
        ensures
            final(self).wf(),
            list_handled(old(self).menu, key, final(self).menu, msg),
    {
        handle_list(&mut self.menu, key)
    }
}

} // verus!
