//! The view of the locale: a list of languages and a list of encodings.

use vstd::prelude::*;
use vstd::string::StrSliceExecFns;
use crate::config::LocaleConfig;
use crate::key::Key;
use crate::list_views::{menu_read, search_ended};
use crate::menu::{CachedSearchableMenu, MenuLine};
use crate::route::Msg;
use crate::text::{chars_of, find_char, first_at};

verus! {

/// The list that reads the keys.
#[derive(Debug, Clone, Copy, PartialEq, Eq, Structural)]
pub enum Focus {
    Lang,
    Encoding,
}

impl Focus {
    /// The other list.
    pub open spec fn other(self) -> Focus {
        match self {
            Focus::Lang => Focus::Encoding,
            Focus::Encoding => Focus::Lang,
        }
    }

    /// Moves the focus to the other list.
    pub fn switch(&mut self)
        ensures
            *final(self) == old(self).other(),
    {
        if let Focus::Lang = self {
            *self = Focus::Encoding
        } else {
            *self = Focus::Lang
        }
    }
}

/// The two parts of `text` around its one `mark`; `None` where `text` holds no `mark`
/// or more than one.
pub open spec fn split_once(text: Seq<char>, mark: char) -> Option<(Seq<char>, Seq<char>)> {
    let at = first_at(text, mark, 0);
    if at < text.len() && first_at(text, mark, at + 1) == text.len() {
        Some((text.subrange(0, at), text.subrange(at + 1, text.len() as int)))
    } else {
        None
    }
}

/// What the choice of an item of the list of languages sets.
pub struct LangChoice {
    /// The language.
    pub lang: Seq<char>,
    /// The modifier, where the item names one.
    pub modifier: Option<Seq<char>>,
}

/// What the choice of `item` sets: the language is the item up to its `@` and up to
/// its dot, the modifier is what follows the `@`. An item with more than one `@`, or
/// more than one dot before the `@`, sets nothing.
pub open spec fn lang_choice(item: Seq<char>) -> Option<LangChoice> {
    let named = if first_at(item, '@', 0) < item.len() {
        match split_once(item, '@') {
            Some((name, modifier)) => Some((name, Some(modifier))),
            None => None,
        }
    } else {
        Some((item, None::<Seq<char>>))
    };
    match named {
        None => None,
        Some((name, modifier)) => if first_at(name, '.', 0) < name.len() {
            match split_once(name, '.') {
                Some((lang, _)) => Some(LangChoice { lang, modifier }),
                None => None,
            }
        } else {
            Some(LangChoice { lang: name, modifier })
        },
    }
}

/// What the choice of `item` sets as language and as modifier.
pub fn parse_lang(item: &str) -> (choice: Option<(String, Option<String>)>)
    ensures
        match lang_choice(item@) {
            None => choice is None,
            Some(expected) => choice matches Some((lang, modifier)) && lang@ == expected.lang
                && match expected.modifier {
                Some(text) => modifier matches Some(found) && found@ == text,
                None => modifier is None,
            },
        },
{
    let chars = chars_of(item);
    let len = chars.len();
    assert(chars@.subrange(0, len as int) =~= chars@);
    let at = find_char(&chars, '@', 0, len);
    let (end, modifier) = if at < len {
        let again = find_char(&chars, '@', at + 1, len);
        if again < len {
            return None;
        }
        (at, Some(item.substring_char(at + 1, len).to_owned()))
    } else {
        (len, None)
    };
    let ghost name = chars@.subrange(0, end as int);
    assert(name =~= if at < len {
        chars@.subrange(0, at as int)
    } else {
        chars@
    });
    let dot = find_char(&chars, '.', 0, end);
    if dot < end {
        let again = find_char(&chars, '.', dot + 1, end);
        if again < end {
            return None;
        }
        assert(name.subrange(0, dot as int) =~= chars@.subrange(0, dot as int));
        Some((item.substring_char(0, dot).to_owned(), modifier))
    } else {
        Some((item.substring_char(0, end).to_owned(), modifier))
    }
}

/// The view of the locale.
#[derive(Debug)]
pub struct Locale {
    pub langs: CachedSearchableMenu<String>,
    pub encodings: CachedSearchableMenu<String>,
    pub focus: Focus,
}

/// The item that is selected in `menu`, `None` where none is.
pub open spec fn selected_text(menu: CachedSearchableMenu<String>) -> Option<String> {
    match menu.selected_item() {
        Some(index) => if index < menu.items.len() {
            Some(menu.items@[index as int])
        } else {
            None
        },
        None => None,
    }
}

impl Locale {
    /// Whether the view is in a valid state.
    pub open spec fn wf(&self) -> bool {
        self.langs.wf() && self.encodings.wf()
    }

    /// The list that reads the keys.
    pub open spec fn focused(&self) -> CachedSearchableMenu<String> {
        match self.focus {
            Focus::Lang => self.langs,
            Focus::Encoding => self.encodings,
        }
    }

    /// The list that does not read the keys.
    pub open spec fn unfocused(&self) -> CachedSearchableMenu<String> {
        match self.focus {
            Focus::Lang => self.encodings,
            Focus::Encoding => self.langs,
        }
    }

    /// Whether the view is in a valid state.
    pub fn is_wf(&self) -> (valid: bool)
        ensures
            valid == self.wf(),
    {
        self.langs.is_wf() && self.encodings.is_wf()
    }

    /// The view before the languages and encodings are known: the keys go to the list
    /// of languages, and both lists are without items, selection and search.
    pub fn new() -> (view: Self)
        ensures
            view.focus == Focus::Lang,
            view.langs.is_fresh(),
            view.encodings.is_fresh(),
            view.wf(),
    {
        Locale {
            langs: CachedSearchableMenu::new(),
            encodings: CachedSearchableMenu::new(),
            focus: Focus::Lang,
        }
    }

    /// Puts the languages and the encodings into the lists.
    pub fn load(&mut self, langs: Vec<String>, encodings: Vec<String>)
        requires
            old(self).wf(),
        ensures
            final(self).wf(),
            final(self).focus == old(self).focus,
            final(self).langs.items == langs,
            final(self).encodings.items == encodings,
            !final(self).langs.cached,
            !final(self).encodings.cached,
            final(self).langs.inner == old(self).langs.inner,
            final(self).langs.search == old(self).langs.search,
            final(self).langs.matched_items_index == old(self).langs.matched_items_index,
            final(self).encodings.inner == old(self).encodings.inner,
            final(self).encodings.search == old(self).encodings.search,
            final(self).encodings.matched_items_index == old(self).encodings.matched_items_index,
    {
        self.langs.replace_items(langs);
        self.encodings.replace_items(encodings);
    }

    /// The lines of the list of languages and those of the list of encodings.
    pub fn render(&mut self) -> (lines: (Vec<MenuLine>, Vec<MenuLine>))
        requires
            old(self).wf(),
        ensures
            final(self).wf(),
            final(self).focus == old(self).focus,
            CachedSearchableMenu::rendered(old(self).langs, lines.0@, final(self).langs),
            CachedSearchableMenu::rendered(old(self).encodings, lines.1@, final(self).encodings),
    {
        let langs = self.langs.render_default();
        let encodings = self.encodings.render_default();
        (langs, encodings)
    }

    /// Whether `after`, `locale_after` and `msg` are what the choice of the selected item
    /// makes of the view. A language sets the language, and the modifier where it names
    /// one, and moves the focus to the encodings. An encoding sets the encoding, moves
    /// the focus back and leaves the view. Either ends the search of the list. Without a
    /// selected item, and with a language that cannot be read, nothing happens.
    pub open spec fn selected(
        before: Locale,
        locale: LocaleConfig,
        after: Locale,
        locale_after: LocaleConfig,
        msg: Option<Msg>,
    ) -> bool {
        let nothing = msg is None && after == before && locale_after == locale;
        match selected_text(before.focused()) {
            None => nothing,
            Some(item) => match before.focus {
                Focus::Lang => match lang_choice(item@) {
                    None => nothing,
                    Some(choice) => {
                        &&& msg is None
                        &&& after.focus == Focus::Encoding
                        &&& after.encodings == before.encodings
                        &&& search_ended(before.langs, after.langs)
                        &&& locale_after.lang@ == choice.lang
                        &&& locale_after.encoding == locale.encoding
                        &&& match choice.modifier {
                            Some(modifier) => locale_after.modifier matches Some(text) && text@
                                == modifier,
                            None => locale_after.modifier == locale.modifier,
                        }
                    },
                },
                Focus::Encoding => {
                    &&& msg == Some(Msg::BackToMain)
                    &&& after.focus == Focus::Lang
                    &&& after.langs == before.langs
                    &&& search_ended(before.encodings, after.encodings)
                    &&& locale_after.lang == locale.lang
                    &&& locale_after.modifier == locale.modifier
                    &&& locale_after.encoding == item
                },
            },
        }
    }

    /// Takes the selected item of the list that has the focus.
    pub fn handle_select(&mut self, locale: &mut LocaleConfig) -> (msg: Option<Msg>)
        requires
            old(self).wf(),
        ensures
            final(self).wf(),
            Self::selected(*old(self), *old(locale), *final(self), *final(locale), msg),
    {
        match self.focus {
            Focus::Lang => {
                let (lang, modifier) = match self.langs.current_item() {
                    Some(item) => match parse_lang(item.as_str()) {
                        Some(choice) => choice,
                        None => {
                            return None;
                        },
                    },
                    None => {
                        return None;
                    },
                };
                if modifier.is_some() {
                    locale.modifier = modifier;
                }
                locale.lang = lang;
                self.focus = Focus::Encoding;
                self.langs.reset_search();
                None
            },
            Focus::Encoding => {
                let encoding = match self.encodings.current_item() {
                    Some(item) => item.clone(),
                    None => {
                        return None;
                    },
                };
                locale.encoding = encoding;
                self.focus = Focus::Lang;
                self.encodings.reset_search();
                Some(Msg::BackToMain)
            },
        }
    }

    /// Whether `after`, `locale_after` and `msg` are what `key` makes of the view. Tab
    /// moves the focus, as `h` and `l` do unless they go to the search. Escape ends a
    /// search and leaves the view where there is none, `q` leaves the view unless it
    /// goes to the search. Enter takes the selected item. Any other key is read by the
    /// list that has the focus.
    pub open spec fn handled(
        before: Locale,
        locale: LocaleConfig,
        key: Key,
        after: Locale,
        locale_after: LocaleConfig,
        msg: Option<Msg>,
    ) -> bool {
        let enabled = before.focused().search.enable_search;
        let unchanged = after.langs == before.langs && after.encodings == before.encodings;
        if key == Key::Enter {
            Self::selected(before, locale, after, locale_after, msg)
        } else {
            &&& locale_after == locale
            &&& if key == Key::Tab || ((key == Key::Char('h') || key == Key::Char('l'))
                && !enabled) {
                msg is None && unchanged && after.focus == before.focus.other()
            } else if key == Key::Esc && !enabled || key == Key::Char('q') && !enabled {
                msg == Some(Msg::BackToMain) && after == before
            } else {
                &&& msg is None
                &&& after.focus == before.focus
                &&& after.unfocused() == before.unfocused()
                &&& if key == Key::Esc {
                    search_ended(before.focused(), after.focused())
                } else {
                    menu_read(before.focused(), key, after.focused())
                }
            }
        }
    }

    /// Reads a key.
    pub fn on_event(&mut self, key: Key, locale: &mut LocaleConfig) -> (msg: Option<Msg>)
        requires
            old(self).wf(),
        ensures
            final(self).wf(),
            Self::handled(*old(self), *old(locale), key, *final(self), *final(locale), msg),
    {
        let enabled = match self.focus {
            Focus::Lang => self.langs.search_enabled(),
            Focus::Encoding => self.encodings.search_enabled(),
        };
        match key {
            Key::Tab => {
                self.focus.switch();
                None
            },
            Key::Esc => {
                if enabled {
                    match self.focus {
                        Focus::Lang => self.langs.reset_search(),
                        Focus::Encoding => self.encodings.reset_search(),
                    }
                    return None;
                }
                Some(Msg::BackToMain)
            },
            Key::Char('h') if !enabled => {
                self.focus.switch();
                None
            },
            Key::Char('l') if !enabled => {
                self.focus.switch();
                None
            },
            Key::Char('q') if !enabled => Some(Msg::BackToMain),
            Key::Enter => self.handle_select(locale),
            _ => {
                match self.focus {
                    Focus::Lang => self.langs.on_event(key),
                    Focus::Encoding => self.encodings.on_event(key),
                }
                None
            },
        }
    }
}

} // verus!
