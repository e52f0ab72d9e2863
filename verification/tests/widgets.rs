use artixide::extensions::{AsMenuItem, OptionExt, StrExt, StringExt, Take, VecExt};
use artixide::input::{Input, InputCommand};
use artixide::key::Key;
use artixide::menu::{CachedSearchableMenu, SearchableMenu};
use artixide::search::{check_positions, stylize_item, stylize_matched_item, Segment};
use artixide::selectable::{Selectable, SelectableWidget, SelectionState};

fn widget(len: usize) -> SelectableWidget<SelectionState> {
    let mut widget = SelectableWidget::new(SelectionState::default());
    widget.update_state(len);
    widget
}

fn names(items: &[&str]) -> Vec<String> {
    items.iter().map(|item| item.to_string()).collect()
}

fn type_text(menu: &mut SearchableMenu, text: &str) {
    for c in text.chars() {
        menu.on_event(Key::Char(c));
    }
}

#[test]
fn selection_state_shows_from_the_top_without_selection() {
    let mut state = SelectionState { offset: 5, selected: Some(7) };
    assert_eq!(state.offset(), 5);
    assert_eq!(state.selected(), Some(7));
    state.select(Some(2));
    assert_eq!(state, SelectionState { offset: 5, selected: Some(2) });
    *state.offset_mut() = 9;
    assert_eq!(state, SelectionState { offset: 9, selected: Some(2) });
    state.select(None);
    assert_eq!(state, SelectionState { offset: 0, selected: None });
}

#[test]
fn first_item_is_selected_in_a_list_that_got_items() {
    let mut list = widget(0);
    assert_eq!(list.current_index(), None);
    list.update_state(3);
    assert_eq!(list.current_index(), Some(0));
    assert_eq!(list.last_items_len, 3);
}

#[test]
fn selection_stays_within_a_shorter_list() {
    let mut list = widget(10);
    list.select_last_item();
    assert_eq!(list.current_index(), Some(9));
    *list.as_state_mut().offset_mut() = 4;
    list.update_state(10);
    assert_eq!(list.state, SelectionState { offset: 4, selected: Some(9) });
    list.update_state(4);
    assert_eq!(list.state, SelectionState { offset: 0, selected: Some(3) });
    list.update_state(0);
    assert_eq!(list.current_index(), None);
}

#[test]
fn selection_wraps_around() {
    let mut list = widget(3);
    list.select_prev_item();
    assert_eq!(list.current_index(), Some(2));
    list.select_next_item();
    assert_eq!(list.current_index(), Some(0));
    list.select_next_item();
    assert_eq!(list.current_index(), Some(1));
    list.select_prev_item();
    assert_eq!(list.current_index(), Some(0));
    list.select_last_item();
    assert_eq!(list.current_index(), Some(2));
    list.select_first_item();
    assert_eq!(list.current_index(), Some(0));
}

#[test]
fn empty_list_has_nothing_to_select() {
    let mut list = widget(0);
    list.select_first_item();
    list.select_last_item();
    list.select_next_item();
    list.select_prev_item();
    list.on_event(Key::Down);
    assert_eq!(list.current_index(), None);
}

#[test]
fn keys_move_the_selection() {
    let mut list = widget(4);
    list.on_event(Key::Down);
    assert_eq!(list.current_index(), Some(1));
    list.on_event(Key::Char('j'));
    assert_eq!(list.current_index(), Some(2));
    list.on_event(Key::Up);
    assert_eq!(list.current_index(), Some(1));
    list.on_event(Key::Char('k'));
    assert_eq!(list.current_index(), Some(0));
    list.on_event(Key::End);
    assert_eq!(list.current_index(), Some(3));
    list.on_event(Key::Home);
    assert_eq!(list.current_index(), Some(0));
    list.on_event(Key::Char('G'));
    assert_eq!(list.current_index(), Some(3));
    list.on_event(Key::Char('g'));
    assert_eq!(list.current_index(), Some(0));
    list.on_event(Key::Char('x'));
    list.on_event(Key::Enter);
    list.on_event(Key::Other);
    assert_eq!(list.current_index(), Some(0));
}

#[test]
fn input_line_reads_keys() {
    let mut line = Input::new();
    assert_eq!(line.on_event(Key::Enter), Some(InputCommand::Cancel));
    assert_eq!(line.on_event(Key::Backspace), Some(InputCommand::Cancel));
    assert_eq!(line.on_event(Key::Char('a')), None);
    assert_eq!(line.on_event(Key::Char('ß')), None);
    assert_eq!(line.as_str(), "aß");
    assert_eq!(line.on_event(Key::Tab), None);
    assert_eq!(line.on_event(Key::Backspace), None);
    assert_eq!(line.as_str(), "a");
    assert_eq!(line.on_event(Key::Enter), Some(InputCommand::Submit));
    assert_eq!(line.as_str(), "a");
    assert_eq!(line.on_event(Key::Esc), Some(InputCommand::Cancel));
    line.push('b');
    assert_eq!(line.take(), "ab");
    assert_eq!(line.as_str(), "");
    line.push('c');
    line.clear();
    assert_eq!(line.as_str(), "");
}

#[test]
fn taking_leaves_an_empty_value() {
    let mut text = String::from("taken");
    assert_eq!(Take::take(&mut text), "taken");
    assert_eq!(text, "");
    let mut other = String::from("again");
    assert_eq!(StringExt::take(&mut other), "again");
    assert_eq!(other, "");
    let mut some = Some(3);
    OptionExt::drop(&mut some);
    assert_eq!(some, None);
    let mut none: Option<u8> = None;
    OptionExt::drop(&mut none);
    assert_eq!(none, None);
}

#[test]
fn slices_go_by_characters() {
    assert_eq!("héllo".slice(1, 3), Some("él"));
    assert_eq!("héllo".slice(0, 5), Some("héllo"));
    assert_eq!("héllo".slice(4, 5), Some("o"));
    assert_eq!("héllo".slice(2, 2), None);
    assert_eq!("héllo".slice(3, 2), None);
    assert_eq!("héllo".slice(2, 6), None);
    assert_eq!("héllo".slice(5, 6), None);
    assert_eq!("".slice(0, 1), None);
}

#[test]
fn numbers_are_sorted() {
    assert_eq!(vec![5u64, 1, 4, 1, 0].sort_inplace(), vec![0, 1, 1, 4, 5]);
    assert_eq!(Vec::<u64>::new().sort_inplace(), Vec::<u64>::new());
    assert_eq!(vec![2048u64, 0, 8191, 4096].sort_inplace(), vec![0, 2048, 4096, 8191]);
}

#[test]
fn menu_items_show_their_text() {
    assert_eq!("plain".as_menu_item(), "plain");
    assert_eq!(String::from("owned").as_menu_item(), "owned");
}

#[test]
fn fuzzy_search_finds_the_characters_in_order() {
    assert_eq!("abc".fuzzy_indices("axbycz"), Some(vec![0, 2, 4]));
    assert_eq!("abx".fuzzy_indices("abc"), None);
    assert_eq!("".fuzzy_indices("abc"), Some(vec![]));
    assert_eq!("tz".fuzzy_indices("Timezone"), Some(vec![0, 4]));
}

#[test]
fn matched_characters_are_cut_into_runs() {
    let run = |start, end, matched| Segment { start, end, matched };
    assert_eq!(
        stylize_matched_item("axbycz", &vec![0, 2, 4]),
        vec![
            run(0, 1, true),
            run(1, 2, false),
            run(2, 3, true),
            run(3, 4, false),
            run(4, 5, true),
            run(5, 6, false),
        ]
    );
    assert_eq!(
        stylize_matched_item("keyboard", &vec![3, 4, 5]),
        vec![run(0, 3, false), run(3, 6, true), run(6, 8, false)]
    );
    assert_eq!(stylize_matched_item("abc", &vec![0, 1, 2]), vec![run(0, 3, true)]);
    assert_eq!(stylize_matched_item("abc", &vec![]), vec![run(0, 3, false)]);
    assert_eq!(stylize_matched_item("", &vec![]), vec![]);
    assert_eq!(stylize_matched_item("äöü", &vec![2]), vec![run(0, 2, false), run(2, 3, true)]);
}

#[test]
fn positions_out_of_order_mark_nothing() {
    assert!(check_positions(&vec![0, 2], 3));
    assert!(check_positions(&vec![], 0));
    assert!(!check_positions(&vec![2, 0], 3));
    assert!(!check_positions(&vec![1, 1], 3));
    assert!(!check_positions(&vec![3], 3));
    let whole = vec![Segment { start: 0, end: 3, matched: false }];
    assert_eq!(stylize_item("abc", &vec![2, 0]), whole);
    assert_eq!(stylize_item("abc", &vec![7]), whole);
    assert_eq!(
        stylize_item("abc", &vec![1]),
        vec![
            Segment { start: 0, end: 1, matched: false },
            Segment { start: 1, end: 2, matched: true },
            Segment { start: 2, end: 3, matched: false },
        ]
    );
}

#[test]
fn searchable_menu_filters_its_items() {
    let items = names(&["Keyboard layout", "Mirror", "Locale", "Partition"]);
    let mut menu = SearchableMenu::new();
    let lines = menu.render(&items);
    assert_eq!(lines.len(), 4);
    assert_eq!(lines[2].item, 2);
    assert_eq!(lines[2].segments, vec![Segment { start: 0, end: 6, matched: false }]);
    assert_eq!(menu.current_index(), Some(0));
    assert_eq!(menu.get_search_hint(), "(Press \"/\" to search)");
    menu.on_event(Key::Char('j'));
    assert_eq!(menu.current_index(), Some(1));
    menu.on_event(Key::Char('/'));
    assert!(menu.search_enabled());
    assert!(!menu.is_searching());
    assert_eq!(menu.get_search_hint(), "/");
    type_text(&mut menu, "pt");
    assert!(menu.is_searching());
    assert_eq!(menu.get_search_hint(), "/pt");
    let lines = menu.render(&items);
    assert_eq!(menu.matched_items_index, vec![3]);
    assert_eq!(lines.len(), 1);
    assert_eq!(lines[0].item, 3);
    assert_eq!(menu.inner_index(), Some(0));
    assert_eq!(menu.current_index(), Some(3));
    menu.on_event(Key::Backspace);
    menu.on_event(Key::Backspace);
    assert!(menu.search_enabled());
    menu.on_event(Key::Backspace);
    assert!(!menu.search_enabled());
    menu.on_event(Key::Backspace);
    assert_eq!(menu.render(&items).len(), 4);
    menu.on_event(Key::Char('/'));
    type_text(&mut menu, "k");
    menu.reset_search();
    assert!(!menu.search_enabled());
    assert_eq!(menu.get_search_hint(), "(Press \"/\" to search)");
}

#[test]
fn typed_keys_go_to_an_enabled_search() {
    let items = names(&["jkg", "G", "other"]);
    let mut menu = SearchableMenu::new();
    menu.render(&items);
    menu.on_event(Key::Char('/'));
    type_text(&mut menu, "jkgG/");
    assert_eq!(menu.get_search_hint(), "/jkgG/");
    assert_eq!(menu.inner_index(), Some(0));
    menu.on_event(Key::Down);
    assert_eq!(menu.inner_index(), Some(1));
}

#[test]
fn cached_menu_keeps_its_matches_while_the_selection_moves() {
    let mut menu: CachedSearchableMenu<String> = CachedSearchableMenu::new();
    assert_eq!(menu.current_item(), None);
    menu.replace_items(names(&["de", "us", "uk", "dvorak"]));
    assert_eq!(menu.as_items().len(), 4);
    assert_eq!(menu.render_default().len(), 4);
    assert_eq!(menu.current_item(), Some(&String::from("de")));
    menu.on_event(Key::Char('/'));
    menu.on_event(Key::Char('d'));
    assert!(!menu.cached);
    let lines = menu.render_default();
    assert_eq!(lines.len(), 2);
    assert_eq!(lines[1].item, 3);
    assert_eq!(lines[1].segments[0], Segment { start: 0, end: 1, matched: true });
    assert_eq!(menu.matched_items_index[1].positions, vec![0]);
    menu.on_event(Key::Down);
    assert!(menu.cached);
    assert_eq!(menu.current_index(), Some(3));
    assert_eq!(menu.current_item(), Some(&String::from("dvorak")));
    menu.replace_items(names(&["fr"]));
    assert!(!menu.cached);
    assert_eq!(menu.render_default().len(), 0);
    assert_eq!(menu.current_item(), None);
    menu.reset_search();
    assert!(!menu.is_searching());
    assert_eq!(menu.render_default().len(), 1);
    assert_eq!(menu.get_search_hint(), "(Press \"/\" to search)");
}
