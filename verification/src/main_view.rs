//! The main view: the menu of the things to choose, and the input of the host name.

use vstd::prelude::*;
use vstd::string::StringExecFns;
use crate::config::Config;
use crate::input::{Input, InputCommand};
use crate::key::Key;
use crate::menu::{menu_after, MenuLine, SearchableMenu};
use crate::route::{Msg, Operation, Route};
use crate::text::same_text;

verus! {

/// Number of the items of the main menu.
pub const ITEM_COUNT: usize = 7;

/// An input that is shown over the menu.
#[derive(Debug, Clone, Copy, PartialEq, Eq, Structural)]
pub enum Popup {
    Hostname,
}

/// The name of the item of the main menu with the given index.
pub open spec fn item_name(index: int) -> Seq<char> {
    if index == 0 {
        "Keyboard layout"@
    } else if index == 1 {
        "Mirror"@
    } else if index == 2 {
        "Locale"@
    } else if index == 3 {
        "Partition"@
    } else if index == 4 {
        "Hostname"@
    } else if index == 5 {
        "Timezone"@
    } else {
        "Init"@
    }
}

/// The name of the item of the main menu with the given index.
pub fn item(index: usize) -> (name: &'static str)
    requires
        index < ITEM_COUNT,
    ensures
        name@ == item_name(index as int),
{
    if index == 0 {
        "Keyboard layout"
    } else if index == 1 {
        "Mirror"
    } else if index == 2 {
        "Locale"
    } else if index == 3 {
        "Partition"
    } else if index == 4 {
        "Hostname"
    } else if index == 5 {
        "Timezone"
    } else {
        "Init"
    }
}

/// The items of the main menu.
pub fn items() -> (names: Vec<String>)
    ensures
        names.len() == ITEM_COUNT,
        forall|i: int| 0 <= i < ITEM_COUNT ==> (#[trigger] names@[i])@ == item_name(i),
{
    let mut names: Vec<String> = Vec::new();
    let mut i: usize = 0;
    while i < ITEM_COUNT
        invariant
            i <= ITEM_COUNT,
            names.len() == i,
            forall|k: int| 0 <= k < i ==> (#[trigger] names@[k])@ == item_name(k),
        decreases ITEM_COUNT - i,
    {
        names.push(String::from_str(item(i)));
        i += 1;
    }
    names
}

/// What the choice of the item with the given index opens.
#[derive(Debug, Clone, Copy, PartialEq, Eq, Structural)]
pub enum Choice {
    /// The input of the host name.
    Ask(Popup),
    /// A view.
    Open(Route),
    /// Nothing.
    Nothing,
}

/// What the choice of the item with the given index opens: the input of the host name,
/// the view of the name of the item, or nothing where no view has that name.
pub open spec fn choice_of(index: int) -> Choice {
    if item_name(index) == "Hostname"@ {
        Choice::Ask(Popup::Hostname)
    } else {
        match Route::named(item_name(index)) {
            Some(route) => Choice::Open(route),
            None => Choice::Nothing,
        }
    }
}

/// What the choice of the item with the given index opens.
pub fn choose_item(index: usize) -> (choice: Choice)
    requires
        index < ITEM_COUNT,
    ensures
        choice == choice_of(index as int),
{
    let name = item(index);
    if same_text(name, "Hostname") {
        Choice::Ask(Popup::Hostname)
    } else {
        match Route::from_name(name) {
            Some(route) => Choice::Open(route),
            None => Choice::Nothing,
        }
    }
}

/// The main view.
#[derive(Debug)]
pub struct Main {
    pub menu: SearchableMenu,
    pub popup: Option<Popup>,
    pub input: Input,
}

impl Main {
    /// Whether the view is in a valid state.
    pub open spec fn wf(&self) -> bool {
        self.menu.wf()
    }

    /// Whether the view is in a valid state.
    pub fn is_wf(&self) -> (valid: bool)
        ensures
            valid == self.wf(),
    {
        self.menu.is_wf()
    }

    /// The main view as it is first shown: the menu was not shown yet, no popup is open
    /// and the input is empty.
    pub fn new() -> (view: Self)
        ensures
            view.menu.is_fresh(),
            view.popup is None,
            view.input@ == Seq::<char>::empty(),
            view.wf(),
    {
        Main { menu: SearchableMenu::new(), popup: None, input: Input::new() }
    }

    /// What Enter opens with the given item selected.
    pub open spec fn chosen(selected: Option<usize>) -> Choice {
        match selected {
            Some(index) => if index < ITEM_COUNT {
                choice_of(index as int)
            } else {
                Choice::Nothing
            },
            None => Choice::Nothing,
        }
    }

    /// The lines of the menu, which are those of its items.
    pub fn render(&mut self) -> (lines: Vec<MenuLine>)
        requires
            old(self).wf(),
        ensures
            final(self).wf(),
            final(self).popup == old(self).popup,
            final(self).input == old(self).input,
            SearchableMenu::rendered(
                old(self).menu,
                Seq::new(ITEM_COUNT as nat, |i: int| item_name(i)),
                lines@,
                final(self).menu,
            ),
    {
        let names = items();
        assert(crate::menu::texts_of(names@) =~= Seq::new(ITEM_COUNT as nat, |i: int| item_name(i)));
        self.menu.render(&names)
    }

    /// Whether `after` and `msg` are what `key` makes of the view `before` when it goes
    /// to the menu: Enter chooses the selected item, Escape ends a search, `q` quits, any
    /// other key is read by the menu.
    pub open spec fn menu_handled(before: Main, key: Key, after: Main, msg: Option<Msg>) -> bool {
        &&& after.input == before.input
        &&& after.menu.matched_items_index == before.menu.matched_items_index
        &&& if key == Key::Enter {
            &&& after.menu.inner == before.menu.inner
            &&& match Self::chosen(before.menu.selected_item()) {
                Choice::Ask(popup) => msg is None && after.popup == Some(popup)
                    && after.menu.search == before.menu.search,
                Choice::Open(route) => msg == Some(Msg::ChangeRoute(route)) && after.popup
                    == before.popup && !after.menu.search.enable_search
                    && after.menu.search.search_input@ == Seq::<char>::empty(),
                Choice::Nothing => msg is None && after.popup == before.popup
                    && after.menu.search == before.menu.search,
            }
        } else if key == Key::Esc && before.menu.search.enable_search {
            &&& msg is None
            &&& after.popup == before.popup
            &&& after.menu.inner == before.menu.inner
            &&& !after.menu.search.enable_search
            &&& after.menu.search.search_input@ == Seq::<char>::empty()
        } else if key == Key::Char('q') {
            msg == Some(Msg::Close(Operation::Quit)) && after.popup == before.popup && after.menu
                == before.menu
        } else {
            &&& msg is None
            &&& after.popup == before.popup
            &&& menu_after(
                before.menu.inner,
                before.menu.search,
                key,
                after.menu.inner,
                after.menu.search,
            )
        }
    }

    /// Whether `after`, `config_after` and `msg` are what `key` makes of the view `before`
    /// when it goes to the input that is shown over the menu. At the end of the input
    /// the popup closes; a submitted text becomes the host name.
    pub open spec fn input_handled(
        before: Main,
        config: Config,
        key: Key,
        after: Main,
        config_after: Config,
        msg: Option<Msg>,
    ) -> bool {
        &&& msg is None
        &&& after.menu.inner == before.menu.inner
        &&& after.menu.matched_items_index == before.menu.matched_items_index
        &&& config_after.keyboard_layout == config.keyboard_layout
        &&& config_after.mirror == config.mirror
        &&& config_after.locale == config.locale
        &&& match Input::command(before.input@, key) {
            None => {
                &&& after.input@ == Input::edited(before.input@, key)
                &&& after.popup == before.popup
                &&& after.menu == before.menu
                &&& config_after.hostname == config.hostname
            },
            Some(InputCommand::Cancel) => {
                &&& after.input@ == Seq::<char>::empty()
                &&& after.popup is None
                &&& after.menu == before.menu
                &&& config_after.hostname == config.hostname
            },
            Some(InputCommand::Submit) => {
                &&& after.input@ == Seq::<char>::empty()
                &&& after.popup is None
                &&& !after.menu.search.enable_search
                &&& after.menu.search.search_input@ == Seq::<char>::empty()
                &&& before.popup is Some ==> config_after.hostname@ == before.input@
                &&& before.popup is None ==> config_after.hostname == config.hostname
            },
        }
    }

    /// Reads a key in the menu.
    pub fn handle_menu(&mut self, key: Key) -> (msg: Option<Msg>)
        requires
            old(self).wf(),
        ensures
            final(self).wf(),
            Self::menu_handled(*old(self), key, *final(self), msg),
    {
        match key {
            Key::Enter => {
                let index = match self.menu.current_index() {
                    Some(index) => index,
                    None => {
                        return None;
                    },
                };
                if index >= ITEM_COUNT {
                    return None;
                }
                match choose_item(index) {
                    Choice::Ask(popup) => {
                        self.popup = Some(popup);
                        None
                    },
                    Choice::Open(route) => {
                        self.menu.reset_search();
                        Some(Msg::ChangeRoute(route))
                    },
                    Choice::Nothing => None,
                }
            },
            Key::Esc if self.menu.search_enabled() => {
                self.menu.reset_search();
                None
            },
            Key::Char('q') => Some(Msg::Close(Operation::Quit)),
            _ => {
                self.menu.on_event(key);
                None
            },
        }
    }

    /// Reads a key in the input that is shown over the menu.
    pub fn handle_input(&mut self, key: Key, config: &mut Config) -> (msg: Option<Msg>)
        requires
            old(self).wf(),
        ensures
            final(self).wf(),
            Self::input_handled(*old(self), *old(config), key, *final(self), *final(config), msg),
    {
        let command = match self.input.on_event(key) {
            Some(command) => command,
            None => {
                return None;
            },
        };
        let popup = self.popup;
        self.popup = None;
        match command {
            InputCommand::Cancel => {
                self.input.clear();
            },
            InputCommand::Submit => {
                let text = self.input.take();
                self.menu.reset_search();
                match popup {
                    Some(Popup::Hostname) => config.hostname = text,
                    None => {},
                }
            },
        }
        None
    }

    /// Reads a key: in the input where one is shown, else in the menu.
    pub fn on_event(&mut self, key: Key, config: &mut Config) -> (msg: Option<Msg>)
        requires
            old(self).wf(),
        ensures
            final(self).wf(),
            match old(self).popup {
                None => Self::menu_handled(*old(self), key, *final(self), msg) && *final(config)
                    == *old(config),
                Some(_) => Self::input_handled(
                    *old(self),
                    *old(config),
                    key,
                    *final(self),
                    *final(config),
                    msg,
                ),
            },
    {
        match self.popup {
            None => self.handle_menu(key),
            Some(_) => self.handle_input(key, config),
        }
    }
}

} // verus!
