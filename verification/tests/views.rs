use artixide::classify::LoadError;
use artixide::config::{Config, LocaleConfig};
use artixide::descriptor::{BlockDevice, ChildBlockDevice, GptHeader, LsblkResult};
use artixide::device::Device;
use artixide::editor::EditError;
use artixide::key::Key;
use artixide::list_views::{Keyboard, Timezone};
use artixide::locale_view::{parse_lang, Focus, Locale};
use artixide::main_view::{choose_item, item, items, Choice, Main, Popup};
use artixide::partition::MemTableEntry;
use artixide::partition_view::{EditorFocus, EditorItem, PartitionView, ViewFocus};
use artixide::route::{next_step, Msg, Operation, Route, Step};

fn names(items: &[&str]) -> Vec<String> {
    items.iter().map(|item| item.to_string()).collect()
}

fn child(number: u16, start: u64, sectors: u64) -> ChildBlockDevice {
    ChildBlockDevice {
        start,
        size: sectors * 512,
        devtype: String::from("part"),
        partn: number,
        partuuid: String::from("01234567-89ab-cdef-0123-456789abcdef"),
        parttype: String::from("c12a7328-f81f-11d2-ba4b-00a0c93ec93b"),
        partflags: None,
        label: Some(String::from("boot")),
        fstype: Some(String::from("fat32")),
        mountpoint: None,
    }
}

fn listing() -> LsblkResult {
    LsblkResult {
        blockdevices: vec![BlockDevice {
            size: 1048576 * 512,
            log_sec: 512,
            path: String::from("/dev/sda"),
            devtype: String::from("disk"),
            model: Some(String::from("Disk")),
            pttype: Some(String::from("gpt")),
            ptuuid: Some(String::from("11111111-2222-3333-4444-555555555555")),
            children: Some(vec![child(1, 4096, 4096)]),
        }],
    }
}

fn header() -> Option<GptHeader> {
    Some(GptHeader { first_usable_lba: 2048, last_usable_lba: 1048542 })
}

fn starts(view: &PartitionView) -> Vec<u64> {
    match &view.devices[view.current_device] {
        Device::Compatible(device) => device.mem_table.iter().map(|entry| entry.start()).collect(),
        Device::Incompatible(_) => Vec::new(),
    }
}

#[test]
fn config_starts_with_defaults() {
    let config = Config::new();
    assert_eq!(config.keyboard_layout, "us");
    assert_eq!(config.hostname, "artix");
    assert_eq!(config.mirror, "");
    assert_eq!(config.locale, LocaleConfig::default());
    assert_eq!(config.locale.lang, "en_US");
    assert_eq!(config.locale.encoding, "UTF-8");
    assert_eq!(config.locale.modifier, None);
}

#[test]
fn routes_have_names_and_positions() {
    assert_eq!(Route::from_name("Keyboard layout"), Some(Route::Keyboard));
    assert_eq!(Route::from_name("Partition"), Some(Route::Partition));
    assert_eq!(Route::from_name("Main"), Some(Route::Main));
    assert_eq!(Route::from_name("Keyboard"), None);
    assert_eq!(Route::from_name("Init"), None);
    assert_eq!(Route::Main.index(), 0);
    assert_eq!(Route::Partition.index(), 5);
    assert_eq!(next_step(Msg::BackToMain), Step::Show(Route::Main));
    assert_eq!(next_step(Msg::ChangeRoute(Route::Locale)), Step::Show(Route::Locale));
    assert_eq!(next_step(Msg::Close(Operation::Quit)), Step::Finish(Operation::Quit));
}

#[test]
fn main_menu_opens_views() {
    assert_eq!(items().len(), 7);
    assert_eq!(item(0), "Keyboard layout");
    assert_eq!(item(6), "Init");
    assert_eq!(choose_item(0), Choice::Open(Route::Keyboard));
    assert_eq!(choose_item(3), Choice::Open(Route::Partition));
    assert_eq!(choose_item(4), Choice::Ask(Popup::Hostname));
    assert_eq!(choose_item(6), Choice::Nothing);
    let mut config = Config::new();
    let mut view = Main::new();
    assert_eq!(view.on_event(Key::Enter, &mut config), None);
    assert_eq!(view.render().len(), 7);
    assert_eq!(view.on_event(Key::Down, &mut config), None);
    assert_eq!(view.on_event(Key::Down, &mut config), None);
    assert_eq!(
        view.on_event(Key::Enter, &mut config),
        Some(Msg::ChangeRoute(Route::Locale))
    );
    assert_eq!(
        view.on_event(Key::Char('q'), &mut config),
        Some(Msg::Close(Operation::Quit))
    );
}

#[test]
fn main_menu_searches() {
    let mut config = Config::new();
    let mut view = Main::new();
    view.render();
    view.on_event(Key::Char('/'), &mut config);
    view.on_event(Key::Char('t'), &mut config);
    view.on_event(Key::Char('z'), &mut config);
    let lines = view.render();
    assert_eq!(lines.len(), 1);
    assert_eq!(lines[0].item, 5);
    assert_eq!(
        view.on_event(Key::Enter, &mut config),
        Some(Msg::ChangeRoute(Route::Timezone))
    );
    assert!(!view.menu.search_enabled());
    view.on_event(Key::Char('/'), &mut config);
    assert_eq!(view.on_event(Key::Esc, &mut config), None);
    assert!(!view.menu.search_enabled());
    assert_eq!(view.on_event(Key::Esc, &mut config), None);
}

#[test]
fn host_name_is_typed_into_a_popup() {
    let mut config = Config::new();
    let mut view = Main::new();
    view.render();
    view.on_event(Key::End, &mut config);
    view.on_event(Key::Up, &mut config);
    view.on_event(Key::Up, &mut config);
    assert_eq!(view.on_event(Key::Enter, &mut config), None);
    assert_eq!(view.popup, Some(Popup::Hostname));
    for c in "box".chars() {
        assert_eq!(view.on_event(Key::Char(c), &mut config), None);
    }
    assert_eq!(view.on_event(Key::Char('q'), &mut config), None);
    assert_eq!(view.on_event(Key::Backspace, &mut config), None);
    assert_eq!(config.hostname, "artix");
    assert_eq!(view.on_event(Key::Enter, &mut config), None);
    assert_eq!(config.hostname, "box");
    assert_eq!(view.popup, None);
    assert_eq!(view.input.as_str(), "");
    view.on_event(Key::Enter, &mut config);
    view.on_event(Key::Char('x'), &mut config);
    view.on_event(Key::Esc, &mut config);
    assert_eq!(view.popup, None);
    assert_eq!(config.hostname, "box");
    assert_eq!(view.input.as_str(), "");
}

#[test]
fn keyboard_layout_is_taken_from_the_list() {
    let mut config = Config::new();
    let mut view = Keyboard::new();
    assert_eq!(view.on_event(Key::Enter, &mut config), None);
    view.load(names(&["de", "fr", "us"]));
    assert_eq!(view.render().len(), 3);
    view.on_event(Key::Down, &mut config);
    assert_eq!(view.on_event(Key::Enter, &mut config), Some(Msg::BackToMain));
    assert_eq!(config.keyboard_layout, "fr");
    view.on_event(Key::Char('/'), &mut config);
    assert_eq!(view.on_event(Key::Char('q'), &mut config), None);
    assert_eq!(view.menu.get_search_hint(), "/q");
    assert_eq!(view.on_event(Key::Esc, &mut config), None);
    assert_eq!(view.on_event(Key::Char('q'), &mut config), Some(Msg::BackToMain));
    assert_eq!(view.on_event(Key::Esc, &mut config), Some(Msg::BackToMain));
    assert_eq!(config.hostname, "artix");
}

#[test]
fn time_zone_list_is_left_by_escape() {
    let mut view = Timezone::new();
    view.load(names(&["Europe/Berlin", "UTC"]));
    assert_eq!(view.render().len(), 2);
    assert_eq!(view.on_event(Key::Enter), None);
    assert_eq!(view.on_event(Key::Down), None);
    assert_eq!(view.menu.current_item(), Some(&String::from("UTC")));
    assert_eq!(view.on_event(Key::Char('/')), None);
    assert_eq!(view.on_event(Key::Esc), None);
    assert_eq!(view.on_event(Key::Esc), Some(Msg::BackToMain));
    assert_eq!(view.on_event(Key::Char('q')), Some(Msg::BackToMain));
}

#[test]
fn language_items_are_read() {
    assert_eq!(parse_lang("en_US"), Some((String::from("en_US"), None)));
    assert_eq!(parse_lang("en_US.UTF-8"), Some((String::from("en_US"), None)));
    assert_eq!(
        parse_lang("ca_ES@valencia"),
        Some((String::from("ca_ES"), Some(String::from("valencia"))))
    );
    assert_eq!(
        parse_lang("sr_RS.UTF-8@latin"),
        Some((String::from("sr_RS"), Some(String::from("latin"))))
    );
    assert_eq!(
        parse_lang("be_BY@latin.x"),
        Some((String::from("be_BY"), Some(String::from("latin.x"))))
    );
    assert_eq!(parse_lang("a@b@c"), None);
    assert_eq!(parse_lang("a.b.c"), None);
    assert_eq!(parse_lang(""), Some((String::new(), None)));
    assert_eq!(parse_lang("@"), Some((String::new(), Some(String::new()))));
}

#[test]
fn locale_is_chosen_in_two_lists() {
    let mut locale = LocaleConfig::default();
    let mut view = Locale::new();
    view.load(names(&["de_DE.UTF-8", "ca_ES@valencia"]), names(&["ISO-8859-1", "UTF-8"]));
    let (langs, encodings) = view.render();
    assert_eq!((langs.len(), encodings.len()), (2, 2));
    let mut focus = Focus::Lang;
    focus.switch();
    assert_eq!(focus, Focus::Encoding);
    focus.switch();
    assert_eq!(focus, Focus::Lang);
    assert_eq!(view.on_event(Key::Down, &mut locale), None);
    assert_eq!(view.on_event(Key::Enter, &mut locale), None);
    assert_eq!(locale.lang, "ca_ES");
    assert_eq!(locale.modifier, Some(String::from("valencia")));
    assert_eq!(view.focus, Focus::Encoding);
    assert_eq!(view.on_event(Key::Enter, &mut locale), Some(Msg::BackToMain));
    assert_eq!(locale.encoding, "ISO-8859-1");
    assert_eq!(view.focus, Focus::Lang);
    view.on_event(Key::Up, &mut locale);
    view.on_event(Key::Enter, &mut locale);
    assert_eq!(locale.lang, "de_DE");
    assert_eq!(locale.modifier, Some(String::from("valencia")));
    view.on_event(Key::Tab, &mut locale);
    assert_eq!(view.focus, Focus::Lang);
    view.on_event(Key::Char('l'), &mut locale);
    assert_eq!(view.focus, Focus::Encoding);
    view.on_event(Key::Char('/'), &mut locale);
    view.on_event(Key::Char('h'), &mut locale);
    assert_eq!(view.focus, Focus::Encoding);
    assert_eq!(view.encodings.get_search_hint(), "/h");
    assert_eq!(view.on_event(Key::Char('q'), &mut locale), None);
    assert_eq!(view.on_event(Key::Esc, &mut locale), None);
    assert_eq!(view.on_event(Key::Esc, &mut locale), Some(Msg::BackToMain));
    assert_eq!(view.on_event(Key::Char('q'), &mut locale), Some(Msg::BackToMain));
}

#[test]
fn partition_view_needs_devices() {
    assert!(matches!(
        PartitionView::load(LsblkResult { blockdevices: vec![] }, vec![]),
        Err(LoadError::NoDevices)
    ));
    assert!(matches!(
        PartitionView::load(listing(), vec![None]),
        Err(LoadError::NoDevices)
    ));
    let mut broken = listing();
    broken.blockdevices[0].log_sec = 0;
    assert!(matches!(
        PartitionView::load(broken, vec![header()]),
        Err(LoadError::Enumeration)
    ));
}

#[test]
fn partition_view_shows_the_table() {
    let mut view = PartitionView::load(listing(), vec![header()]).unwrap();
    let screen = view.render();
    assert_eq!(
        screen.header,
        names(&[
            "Name",
            "Boot",
            "Start",
            "End",
            "Sectors",
            "Filesystem",
            "Filesystem label",
            "Mountpoint",
            "Size"
        ])
    );
    assert_eq!(
        screen.rows,
        vec![
            names(&["Free space", "", "2048", "4095", "2048", "", "", "", "1.0 MiB"]),
            names(&["/dev/sda1", "*", "4096", "8191", "4096", "fat32", "boot", "", "2.0 MiB"]),
            names(&["Free space", "", "8192", "1048542", "1040351", "", "", "", "508.0 MiB"]),
        ]
    );
    assert_eq!(view.table.current_index(), Some(0));
    assert_eq!(
        view.editor.items,
        vec![EditorItem::CreatePartition, EditorItem::NewPartitionTable]
    );
    assert_eq!(view.editor.last_selected, Some(0));
    assert_eq!(view.on_event(Key::Down), None);
    view.render();
    assert_eq!(
        view.editor.items,
        vec![EditorItem::DeletePartition, EditorItem::NewPartitionTable]
    );
    assert_eq!(EditorItem::DeletePartition.label(), "Delete partition");
    assert_eq!(EditorItem::CreatePartition.label(), "Create partition");
    assert_eq!(EditorItem::NewPartitionTable.label(), "New partition table");
    assert_eq!(view.on_event(Key::Char('q')), Some(Msg::BackToMain));
}

#[test]
fn partition_is_deleted_in_the_editor() {
    let mut view = PartitionView::load(listing(), vec![header()]).unwrap();
    view.render();
    view.on_event(Key::Down);
    view.render();
    view.on_event(Key::Tab);
    assert_eq!(view.focus, ViewFocus::Editor);
    assert_eq!(view.editor.current_item(), Some(EditorItem::DeletePartition));
    assert_eq!(view.on_event(Key::Enter), None);
    assert_eq!(starts(&view), vec![2048]);
    let screen = view.render();
    assert_eq!(screen.rows.len(), 1);
    assert_eq!(view.table.current_index(), Some(0));
    view.on_event(Key::Tab);
    assert_eq!(view.focus, ViewFocus::Table);
}

#[test]
fn partition_is_created_in_the_editor() {
    let mut view = PartitionView::load(listing(), vec![header()]).unwrap();
    view.render();
    view.on_event(Key::Tab);
    view.on_event(Key::Down);
    assert_eq!(view.editor.current_item(), Some(EditorItem::NewPartitionTable));
    view.on_event(Key::Enter);
    assert_eq!(view.editor.focus, EditorFocus::Menu);
    view.on_event(Key::Up);
    view.on_event(Key::Enter);
    assert_eq!(view.editor.focus, EditorFocus::Create);
    assert_eq!(view.editor.input.as_str(), "*");
    view.on_event(Key::Backspace);
    for c in "0".chars() {
        view.on_event(Key::Char(c));
    }
    view.on_event(Key::Enter);
    assert_eq!(view.editor.create_error, Some(EditError::InvalidSize));
    assert_eq!(view.editor.focus, EditorFocus::Create);
    assert_eq!(view.editor.input.as_str(), "0");
    view.on_event(Key::Char('x'));
    assert_eq!(view.editor.create_error, None);
    view.on_event(Key::Enter);
    assert_eq!(view.editor.create_error, Some(EditError::ParseSize));
    view.on_event(Key::Backspace);
    view.on_event(Key::Backspace);
    for c in "1g".chars() {
        view.on_event(Key::Char(c));
    }
    view.on_event(Key::Enter);
    assert_eq!(view.editor.create_error, Some(EditError::OverSize));
    assert_eq!(starts(&view), vec![2048, 4096, 8192]);
    view.on_event(Key::Backspace);
    view.on_event(Key::Backspace);
    for c in "100s".chars() {
        view.on_event(Key::Char(c));
    }
    view.on_event(Key::Enter);
    assert_eq!(view.editor.create_error, None);
    assert_eq!(view.editor.focus, EditorFocus::Menu);
    assert_eq!(view.editor.input.as_str(), "");
    assert_eq!(starts(&view), vec![2048, 4096, 8192]);
    match &view.devices[0] {
        Device::Compatible(device) => {
            assert_eq!(device.mem_table[0].end(), 2147);
            assert!(device.number_pool.is_used(2));
        }
        Device::Incompatible(_) => panic!("the disk can be edited"),
    }
    view.render();
    assert_eq!(view.editor.current_item(), Some(EditorItem::DeletePartition));
    view.on_event(Key::Enter);
    assert_eq!(starts(&view), vec![2048, 4096, 8192]);
    match &view.devices[0] {
        Device::Compatible(device) => {
            assert!(matches!(device.mem_table[0], MemTableEntry::Free(_)));
            assert_eq!(device.mem_table[0].end(), 2147);
            assert!(!device.number_pool.is_used(2));
        }
        Device::Incompatible(_) => panic!("the disk can be edited"),
    }
}

#[test]
fn cancelled_size_input_is_closed() {
    let mut view = PartitionView::load(listing(), vec![header()]).unwrap();
    view.render();
    view.on_event(Key::Tab);
    view.on_event(Key::Enter);
    assert_eq!(view.editor.focus, EditorFocus::Create);
    view.on_event(Key::Esc);
    assert_eq!(view.editor.focus, EditorFocus::Menu);
    assert_eq!(view.editor.input.as_str(), "");
    assert_eq!(starts(&view), vec![2048, 4096, 8192]);
    view.on_event(Key::Enter);
    view.on_event(Key::Enter);
    assert_eq!(view.editor.focus, EditorFocus::Menu);
    assert_eq!(starts(&view), vec![2048, 4096, 8192]);
    match &view.devices[0] {
        Device::Compatible(device) => {
            assert!(matches!(device.mem_table[0], MemTableEntry::Partition(_)));
            assert_eq!(device.mem_table[0].end(), 4095);
        }
        Device::Incompatible(_) => panic!("the disk can be edited"),
    }
}

#[test]
fn views_start_without_items_selection_and_search() {
    let view = Locale::new();
    assert_eq!(view.focus, Focus::Lang);
    for menu in [&view.langs, &view.encodings] {
        assert!(menu.items.is_empty());
        assert!(menu.matched_items_index.is_empty());
        assert!(!menu.cached);
        assert!(!menu.search_enabled());
        assert_eq!(menu.get_search_hint(), "(Press \"/\" to search)");
        assert_eq!(menu.inner.last_items_len, 0);
        assert_eq!(menu.inner.state.selected, None);
        assert_eq!(menu.inner.state.offset, 0);
    }
    assert!(view.is_wf());
    let keyboard = Keyboard::new();
    assert!(keyboard.menu.items.is_empty());
    assert_eq!(keyboard.menu.current_index(), None);
    assert!(!keyboard.menu.search_enabled());
    let zones = Timezone::new();
    assert!(zones.menu.items.is_empty());
    assert_eq!(zones.menu.current_index(), None);
    let main = Main::new();
    assert_eq!(main.popup, None);
    assert_eq!(main.input.as_str(), "");
    assert_eq!(main.menu.inner_index(), None);
    assert!(main.menu.matched_items_index.is_empty());
    assert!(!main.menu.search_enabled());
    let partitions = PartitionView::load(listing(), vec![header()]).unwrap();
    assert_eq!(partitions.current_device, 0);
    assert_eq!(partitions.focus, ViewFocus::Table);
    assert_eq!(partitions.table.current_index(), None);
    assert_eq!(partitions.table.last_items_len, 0);
    assert!(partitions.editor.items.is_empty());
    assert_eq!(partitions.editor.focus, EditorFocus::Menu);
    assert_eq!(partitions.editor.last_selected, None);
    assert_eq!(partitions.editor.create_error, None);
    assert_eq!(partitions.editor.input.as_str(), "");
}
