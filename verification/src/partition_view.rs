//! The view of the partitions: the table of a device and the editor of its entries.

use vstd::prelude::*;
use crate::classify::{get_devices, LoadError};
use crate::descriptor::{GptHeader, LsblkResult};
use crate::device::Device;
use crate::editor::{creation_from_text, deletion, lemma_zero_size_refused, EditError};
use crate::input::{Input, InputCommand};
use crate::key::Key;
use crate::menu::{Menu, Table};
use crate::partition::MemTableEntry;
use crate::route::Msg;
use crate::rows::{free_space_cell, header, is_row, make_row, partition_cell};
use crate::selectable::{SelectableWidget, SelectionState};

verus! {

/// What the editor offers for the selected entry.
#[derive(Debug, Clone, Copy, PartialEq, Eq, Structural)]
pub enum EditorItem {
    CreatePartition,
    DeletePartition,
    NewPartitionTable,
}

impl EditorItem {
    /// The text of the item.
    pub fn label(&self) -> (text: &'static str)
        ensures
            text@ == (match self {
                EditorItem::CreatePartition => "Create partition"@,
                EditorItem::DeletePartition => "Delete partition"@,
                EditorItem::NewPartitionTable => "New partition table"@,
            }),
    {
        match self {
            EditorItem::CreatePartition => "Create partition",
            EditorItem::DeletePartition => "Delete partition",
            EditorItem::NewPartitionTable => "New partition table",
        }
    }
}

/// What reads the keys in the editor.
#[derive(Debug, Clone, Copy, PartialEq, Eq, Structural)]
pub enum EditorFocus {
    Menu,
    Create,
}

/// What reads the keys in the view.
#[derive(Debug, Clone, Copy, PartialEq, Eq, Structural)]
pub enum ViewFocus {
    Table,
    Editor,
}

/// The editor of the entry that is selected in the table.
#[derive(Debug)]
pub struct DiskEditor {
    pub items: Vec<EditorItem>,
    pub menu: Menu,
    pub input: Input,
    pub last_selected: Option<usize>,
    pub focus: EditorFocus,
    pub create_error: Option<EditError>,
}

/// The items that the editor offers where the selected entry is the given one: to
/// create a partition in a free region, to delete a partition, and in any case to make
/// a new table.
pub open spec fn items_for(entry: Option<MemTableEntry>) -> Seq<EditorItem> {
    match entry {
        None => seq![EditorItem::NewPartitionTable],
        Some(MemTableEntry::Free(_)) => seq![
            EditorItem::CreatePartition,
            EditorItem::NewPartitionTable,
        ],
        Some(MemTableEntry::Partition(_)) => seq![
            EditorItem::DeletePartition,
            EditorItem::NewPartitionTable,
        ],
    }
}

impl DiskEditor {
    /// Whether the selection of the menu of the editor is one of its lines.
    pub open spec fn wf(&self) -> bool {
        self.menu.wf()
    }

    /// Whether the selection of the menu of the editor is one of its lines.
    pub fn is_wf(&self) -> (valid: bool)
        ensures
            valid == self.wf(),
    {
        self.menu.is_wf()
    }

    /// Whether the editor is as before any entry was selected: it offers no items, its
    /// menu was not shown yet, its input is empty and closed, and no error is kept.
    pub open spec fn is_fresh(&self) -> bool {
        &&& self.items@ == Seq::<EditorItem>::empty()
        &&& self.menu.is_fresh()
        &&& self.input@ == Seq::<char>::empty()
        &&& self.last_selected is None
        &&& self.focus == EditorFocus::Menu
        &&& self.create_error is None
    }

    /// The editor before any entry was selected.
    pub fn new() -> (editor: Self)
        ensures
            editor.is_fresh(),
            editor.wf(),
    {
        DiskEditor {
            items: Vec::new(),
            menu: SelectableWidget::new(SelectionState { offset: 0, selected: None }),
            input: Input::new(),
            last_selected: None,
            focus: EditorFocus::Menu,
            create_error: None,
        }
    }

    /// Offers the items for the entry with the index `selected` of `entries`, or for no
    /// entry.
    pub fn update_items(&mut self, entry_info: Option<(&Vec<MemTableEntry>, usize)>)
        requires
            entry_info matches Some((entries, selected)) ==> selected < entries.len(),
        ensures
            final(self).items@ == items_for(
                match entry_info {
                    Some((entries, selected)) => Some(entries@[selected as int]),
                    None => None,
                },
            ),
            final(self).last_selected == (match entry_info {
                Some((_, selected)) => Some(selected),
                None => None,
            }),
            final(self).menu == old(self).menu,
            final(self).input == old(self).input,
            final(self).focus == old(self).focus,
            final(self).create_error == old(self).create_error,
    {
        self.items.clear();
        self.last_selected = None;
        let (entries, selected) = match entry_info {
            Some(info) => info,
            None => {
                self.items.push(EditorItem::NewPartitionTable);
                assert(self.items@ =~= seq![EditorItem::NewPartitionTable]);
                return;
            },
        };
        self.last_selected = Some(selected);
        match &entries[selected] {
            MemTableEntry::Free(_) => self.items.push(EditorItem::CreatePartition),
            MemTableEntry::Partition(_) => self.items.push(EditorItem::DeletePartition),
        }
        self.items.push(EditorItem::NewPartitionTable);
        assert(self.items@ =~= items_for(Some(entries@[selected as int])));
    }

    /// The item that is selected in the menu of the editor.
    pub open spec fn selected_item(&self) -> Option<EditorItem> {
        match self.menu.state.selected {
            Some(line) => if line < self.items.len() {
                Some(self.items@[line as int])
            } else {
                None
            },
            None => None,
        }
    }

    /// The item that is selected in the menu of the editor.
    pub fn current_item(&self) -> (item: Option<EditorItem>)
        ensures
            item == self.selected_item(),
    {
        match self.menu.current_index() {
            Some(line) => if line < self.items.len() {
                Some(self.items[line])
            } else {
                None
            },
            None => None,
        }
    }

    /// The partition of `dev` that the editor can delete: the entry that was selected
    /// when the items were offered, where the device can be edited and the entry is a
    /// partition.
    pub open spec fn deletable(&self, dev: Device) -> Option<usize> {
        match (dev, self.last_selected) {
            (Device::Compatible(device), Some(selected)) => if selected < device.mem_table.len()
                && device.mem_table@[selected as int] is Partition {
                Some(selected)
            } else {
                None
            },
            _ => None,
        }
    }

    /// The free region of `dev` in which the editor can create a partition.
    pub open spec fn creatable(&self, dev: Device) -> Option<usize> {
        match (dev, self.last_selected) {
            (Device::Compatible(device), Some(selected)) => if selected < device.mem_table.len()
                && device.mem_table@[selected as int] is Free {
                Some(selected)
            } else {
                None
            },
            _ => None,
        }
    }

    /// Deletes the partition that was selected when the items were offered.
    pub fn handle_delete(&self, dev: &mut Device)
        requires
            *old(dev) matches Device::Compatible(device) ==> device.wf(),
        ensures
            *final(dev) matches Device::Compatible(device) ==> device.wf(),
            match self.deletable(*old(dev)) {
                Some(index) => *final(dev) matches Device::Compatible(after) && deletion(
                    (*old(dev))->Compatible_0,
                    index as int,
                    after,
                ),
                None => *final(dev) == *old(dev),
            },
    {
        let selected = match self.last_selected {
            Some(selected) => selected,
            None => {
                return;
            },
        };
        match dev {
            Device::Compatible(device) => {
                if selected < device.mem_table.len() {
                    let is_partition = match &device.mem_table[selected] {
                        MemTableEntry::Partition(_) => true,
                        MemTableEntry::Free(_) => false,
                    };
                    if is_partition {
                        device.delete_partition(selected);
                    }
                }
            },
            Device::Incompatible(_) => {},
        }
    }

    /// Whether the editor, the focus of the view and the device are, after `key` went to
    /// the menu of the editor, as given. Tab hands the keys to the table. Enter on the
    /// item to create a partition opens the input with a star in it; Enter on the item
    /// to delete one deletes the partition. Any other key moves the selection.
    pub open spec fn menu_handled(
        before: DiskEditor,
        dev: Device,
        key: Key,
        after: DiskEditor,
        focus_after: Option<ViewFocus>,
        dev_after: Device,
    ) -> bool {
        &&& after.items == before.items
        &&& after.last_selected == before.last_selected
        &&& after.create_error == before.create_error
        &&& focus_after == (if key == Key::Tab {
            Some(ViewFocus::Table)
        } else {
            None
        })
        &&& if key == Key::Enter && before.selected_item() == Some(EditorItem::CreatePartition) {
            &&& after.focus == EditorFocus::Create
            &&& after.input@ == before.input@.push('*')
            &&& after.menu == before.menu
            &&& dev_after == dev
        } else if key == Key::Enter && before.selected_item() == Some(
            EditorItem::DeletePartition,
        ) {
            &&& after.focus == before.focus
            &&& after.input == before.input
            &&& after.menu == before.menu
            &&& match before.deletable(dev) {
                Some(index) => dev_after matches Device::Compatible(device) && deletion(
                    dev->Compatible_0,
                    index as int,
                    device,
                ),
                None => dev_after == dev,
            }
        } else {
            &&& after.focus == before.focus
            &&& after.input == before.input
            &&& dev_after == dev
            &&& after.menu.last_items_len == before.menu.last_items_len
            &&& after.menu.state.offset == before.menu.state.offset
            &&& after.menu.state.selected == (if key == Key::Tab || key == Key::Enter {
                before.menu.state.selected
            } else {
                Menu::moved(before.menu.state.selected, before.menu.last_items_len, key)
            })
        }
    }

    /// Reads a key in the menu of the editor. The result says to what the view hands the
    /// keys from now on, where that changes.
    pub fn handle_menu(&mut self, key: Key, dev: &mut Device) -> (focus: Option<ViewFocus>)
        requires
            old(self).wf(),
            *old(dev) matches Device::Compatible(device) ==> device.wf(),
        ensures
            final(self).wf(),
            *final(dev) matches Device::Compatible(device) ==> device.wf(),
            Self::menu_handled(*old(self), *old(dev), key, *final(self), focus, *final(dev)),
    {
        match key {
            Key::Tab => Some(ViewFocus::Table),
            Key::Enter => {
                match self.current_item() {
                    Some(EditorItem::CreatePartition) => {
                        self.focus = EditorFocus::Create;
                        self.input.push('*');
                    },
                    Some(EditorItem::DeletePartition) => self.handle_delete(dev),
                    _ => {},
                }
                None
            },
            _ => {
                self.menu.on_event(key);
                None
            },
        }
    }

    /// Whether the editor and the device are, after `key` went to the input of the size
    /// of a new partition, as given. The key edits the text. A cancelled input is
    /// emptied and closed. A submitted text asks for a partition in the selected free
    /// region: where that is refused the error is kept for display and the input stays
    /// open, else the input is emptied and closed.
    pub open spec fn create_handled(
        before: DiskEditor,
        dev: Device,
        key: Key,
        after: DiskEditor,
        dev_after: Device,
    ) -> bool {
        &&& after.items == before.items
        &&& after.menu == before.menu
        &&& after.last_selected == before.last_selected
        &&& match Input::command(before.input@, key) {
            None => {
                &&& after.input@ == Input::edited(before.input@, key)
                &&& after.focus == before.focus
                &&& after.create_error is None
                &&& dev_after == dev
            },
            Some(InputCommand::Cancel) => {
                &&& after.input@ == Seq::<char>::empty()
                &&& after.focus == EditorFocus::Menu
                &&& after.create_error is None
                &&& dev_after == dev
            },
            Some(InputCommand::Submit) => match before.creatable(dev) {
                None => {
                    &&& after.input@ == before.input@
                    &&& after.focus == before.focus
                    &&& after.create_error is None
                    &&& dev_after == dev
                },
                Some(index) => {
                    let device = dev->Compatible_0;
                    let result = match after.create_error {
                        Some(error) => Err::<(), EditError>(error),
                        None => Ok::<(), EditError>(()),
                    };
                    &&& dev_after is Compatible
                    &&& creation_from_text(
                        device,
                        index as int,
                        before.input@,
                        dev_after->Compatible_0,
                        result,
                    )
                    &&& if after.create_error is Some {
                        after.input@ == before.input@ && after.focus == before.focus
                    } else {
                        after.input@ == Seq::<char>::empty() && after.focus == EditorFocus::Menu
                    }
                },
            },
        }
    }

    /// The submitted text `0` is refused as an invalid size in whatever free region is
    /// selected: the error is kept, the input stays open, and the device stays as it
    /// was.
    pub proof fn lemma_zero_is_invalid(
        before: DiskEditor,
        dev: Device,
        after: DiskEditor,
        dev_after: Device,
    )
        requires
            before.input@ == "0"@,
            before.creatable(dev) is Some,
            dev->Compatible_0.disk.sector_size > 0,
            Self::create_handled(before, dev, Key::Enter, after, dev_after),
        ensures
            after.create_error == Some(EditError::InvalidSize),
            dev_after == dev,
            after.input@ == before.input@,
            after.focus == before.focus,
    {
        reveal_strlit("0");
        let index = before.creatable(dev).unwrap();
        let result = match after.create_error {
            Some(error) => Err::<(), EditError>(error),
            None => Ok::<(), EditError>(()),
        };
        lemma_zero_size_refused(dev->Compatible_0, index as int, dev_after->Compatible_0, result);
    }

    /// Reads a key in the input of the size of a new partition.
    pub fn handle_create(&mut self, key: Key, dev: &mut Device)
        requires
            old(self).wf(),
            *old(dev) matches Device::Compatible(device) ==> device.wf(),
        ensures
            final(self).wf(),
            *final(dev) matches Device::Compatible(device) ==> device.wf(),
            Self::create_handled(*old(self), *old(dev), key, *final(self), *final(dev)),
    {
        self.create_error = None;
        let command = match self.input.on_event(key) {
            Some(command) => command,
            None => {
                return;
            },
        };
        match command {
            InputCommand::Cancel => {
                self.input.clear();
                self.focus = EditorFocus::Menu;
                return;
            },
            InputCommand::Submit => {},
        }
        let selected = match self.last_selected {
            Some(selected) => selected,
            None => {
                return;
            },
        };
        match dev {
            Device::Compatible(device) => {
                if selected >= device.mem_table.len() {
                    return;
                }
                let is_free = match &device.mem_table[selected] {
                    MemTableEntry::Free(_) => true,
                    MemTableEntry::Partition(_) => false,
                };
                if !is_free {
                    return;
                }
                match device.create_partition(selected, self.input.as_str()) {
                    Ok(()) => {
                        self.input.clear();
                        self.focus = EditorFocus::Menu;
                    },
                    Err(refused) => {
                        self.create_error = Some(refused);
                    },
                }
            },
            Device::Incompatible(_) => {},
        }
    }

    /// Reads a key: in the menu of the editor or in the input of a size.
    pub fn on_event(&mut self, key: Key, dev: &mut Device) -> (focus: Option<ViewFocus>)
        requires
            old(self).wf(),
            *old(dev) matches Device::Compatible(device) ==> device.wf(),
        ensures
            final(self).wf(),
            *final(dev) matches Device::Compatible(device) ==> device.wf(),
            match old(self).focus {
                EditorFocus::Menu => Self::menu_handled(
                    *old(self),
                    *old(dev),
                    key,
                    *final(self),
                    focus,
                    *final(dev),
                ),
                EditorFocus::Create => focus is None && Self::create_handled(
                    *old(self),
                    *old(dev),
                    key,
                    *final(self),
                    *final(dev),
                ),
            },
    {
        match self.focus {
            EditorFocus::Menu => self.handle_menu(key, dev),
            EditorFocus::Create => {
                self.handle_create(key, dev);
                None
            },
        }
    }
}

/// The view of the partitions.
#[derive(Debug)]
pub struct PartitionView {
    pub devices: Vec<Device>,
    pub current_device: usize,
    pub table: Table,
    pub focus: ViewFocus,
    pub editor: DiskEditor,
}

/// What the view shows.
#[derive(Debug)]
pub struct PartitionScreen {
    /// The titles of the columns of the table.
    pub header: Vec<String>,
    /// The rows of the table: one for each entry of the table of the device.
    pub rows: Vec<Vec<String>>,
}

/// Whether every device that can be edited is valid.
pub open spec fn devices_wf(devices: Seq<Device>) -> bool {
    forall|i: int|
        0 <= i < devices.len() ==> ((#[trigger] devices[i]) matches Device::Compatible(device)
            ==> device.wf())
}

/// The entries of the table of a device; none for a device that can only be shown.
pub open spec fn entries_of(dev: Device) -> Seq<MemTableEntry> {
    match dev {
        Device::Compatible(device) => device.mem_table@,
        Device::Incompatible(_) => Seq::empty(),
    }
}

/// Whether `rows` show the entries of the table of `dev`, one row for each.
pub open spec fn rows_show(rows: Seq<Vec<String>>, dev: Device) -> bool {
    &&& rows.len() == entries_of(dev).len()
    &&& forall|k: int|
        0 <= k < rows.len() ==> match entries_of(dev)[k] {
            MemTableEntry::Partition(part) => is_row(
                (#[trigger] rows[k])@,
                |column: int| partition_cell(dev->Compatible_0.disk.path@, part, column),
            ),
            MemTableEntry::Free(space) => is_row(
                rows[k]@,
                |column: int| free_space_cell(space, column),
            ),
        }
}

/// The rows that show the table of a device.
fn table_rows(dev: &Device) -> (rows: Vec<Vec<String>>)
    ensures
        rows_show(rows@, *dev),
{
    let mut rows: Vec<Vec<String>> = Vec::new();
    match dev {
        Device::Compatible(device) => {
            let mut k: usize = 0;
            while k < device.mem_table.len()
                invariant
                    k <= device.mem_table.len(),
                    *dev == Device::Compatible(*device),
                    rows.len() == k,
                    forall|n: int|
                        0 <= n < k ==> match device.mem_table@[n] {
                            MemTableEntry::Partition(part) => is_row(
                                (#[trigger] rows@[n])@,
                                |column: int| partition_cell(device.disk.path@, part, column),
                            ),
                            MemTableEntry::Free(space) => is_row(
                                rows@[n]@,
                                |column: int| free_space_cell(space, column),
                            ),
                        },
                decreases device.mem_table.len() - k,
            {
                rows.push(make_row(device.disk.path.as_str(), &device.mem_table[k]));
                k += 1;
            }
        },
        Device::Incompatible(_) => {},
    }
    rows
}

impl PartitionView {
    /// Whether the view is in a valid state: it shows one of its devices, the devices
    /// that can be edited are valid, and the selections are lines of their lists.
    pub open spec fn wf(&self) -> bool {
        &&& self.current_device < self.devices.len()
        &&& devices_wf(self.devices@)
        &&& self.table.wf()
        &&& self.editor.wf()
    }

    /// The device that is shown.
    pub open spec fn shown(&self) -> Device {
        self.devices@[self.current_device as int]
    }

    /// Whether the view is in a valid state.
    pub fn is_wf(&self) -> (valid: bool)
        ensures
            valid == self.wf(),
    {
        if self.current_device >= self.devices.len() || !self.table.is_wf()
            || !self.editor.is_wf() {
            return false;
        }
        let mut i: usize = 0;
        while i < self.devices.len()
            invariant
                i <= self.devices.len(),
                devices_wf(self.devices@.take(i as int)),
            decreases self.devices.len() - i,
        {
            let valid = match &self.devices[i] {
                Device::Compatible(device) => device.is_wf(),
                Device::Incompatible(_) => true,
            };
            if !valid {
                return false;
            }
            proof {
                let seen = self.devices@.take(i as int);
                let more = self.devices@.take(i + 1);
                assert forall|k: int| 0 <= k < more.len() implies ((
                #[trigger] more[k]) matches Device::Compatible(device) ==> device.wf()) by {
                    if k < i {
                        assert(seen[k] == more[k]);
                    }
                }
            }
            i += 1;
        }
        assert(self.devices@.take(self.devices.len() as int) =~= self.devices@);
        true
    }

    /// The view of the given devices, of which the first is shown.
    pub fn new(devices: Vec<Device>) -> (view: Self)
        requires
            devices.len() > 0,
            devices_wf(devices@),
        ensures
            view.devices == devices,
            view.current_device == 0,
            view.table.is_fresh(),
            view.focus == ViewFocus::Table,
            view.editor.is_fresh(),
            view.wf(),
    {
        PartitionView {
            devices,
            current_device: 0,
            table: SelectableWidget::new(SelectionState { offset: 0, selected: None }),
            focus: ViewFocus::Table,
            editor: DiskEditor::new(),
        }
    }

    /// The view of the devices of an enumeration. `headers` holds, for each device in
    /// turn, what was read from the header of its partition table. An enumeration that
    /// leaves no device to show fails.
    pub fn load(listing: LsblkResult, headers: Vec<Option<GptHeader>>) -> (result: Result<
        PartitionView,
        LoadError,
    >)
        ensures
            match result {
                Ok(view) => view.wf() && view.current_device == 0 && view.focus
                    == ViewFocus::Table && view.table.is_fresh() && view.editor.is_fresh()
                    && view.devices.len() > 0 && crate::classify::loaded(
                    listing.blockdevices@,
                    headers@,
                    view.devices@,
                ),
                Err(error) => error == LoadError::Enumeration
                    && !crate::classify::all_classifiable(listing.blockdevices@, headers@)
                    || error == LoadError::NoDevices && crate::classify::all_classifiable(
                    listing.blockdevices@,
                    headers@,
                ) && crate::classify::loaded(
                    listing.blockdevices@,
                    headers@,
                    Seq::<Device>::empty(),
                ),
            },
    {
        match get_devices(listing, headers) {
            Ok(devices) => {
                if devices.len() == 0 {
                    assert(devices@ =~= Seq::<Device>::empty());
                    Err(LoadError::NoDevices)
                } else {
                    Ok(Self::new(devices))
                }
            },
            Err(error) => Err(error),
        }
    }

    /// The entry that is selected in the table of the device that is shown.
    pub open spec fn selected_entry(&self) -> Option<MemTableEntry> {
        match self.table.state.selected {
            Some(index) => if index < entries_of(self.shown()).len() {
                Some(entries_of(self.shown())[index as int])
            } else {
                None
            },
            None => None,
        }
    }

    /// What the view shows: the table of the device, to whose rows the selection in the
    /// table is adapted, with the items of the editor for the selected entry.
    pub fn render(&mut self) -> (screen: PartitionScreen)
        requires
            old(self).wf(),
        ensures
            final(self).wf(),
            final(self).devices == old(self).devices,
            final(self).current_device == old(self).current_device,
            final(self).focus == old(self).focus,
            is_row(
                screen.header@,
                |column: int|
                    crate::rows::column_title(
                        column,
                        old(self).shown() matches Device::Compatible(device)
                            && device.disk.is_gpt,
                    ),
            ),
            rows_show(screen.rows@, old(self).shown()),
            Table::updated(old(self).table, screen.rows.len(), final(self).table),
            final(self).editor.items@ == items_for(final(self).selected_entry()),
            final(self).editor.last_selected == (match final(self).selected_entry() {
                Some(_) => final(self).table.state.selected,
                None => None,
            }),
            Menu::updated(
                old(self).editor.menu,
                final(self).editor.items.len(),
                final(self).editor.menu,
            ),
            final(self).editor.input == old(self).editor.input,
            final(self).editor.focus == old(self).editor.focus,
            final(self).editor.create_error == old(self).editor.create_error,
    {
        let dev = &self.devices[self.current_device];
        let is_gpt = match dev {
            Device::Compatible(device) => device.disk.is_gpt,
            Device::Incompatible(_) => false,
        };
        let rows = table_rows(dev);
        self.table.update_state(rows.len());
        let selected = self.table.current_index();
        let entry_info = match (dev, selected) {
            (Device::Compatible(device), Some(index)) => if index < device.mem_table.len() {
                Some((&device.mem_table, index))
            } else {
                None
            },
            _ => None,
        };
        self.editor.update_items(entry_info);
        self.editor.menu.update_state(self.editor.items.len());
        PartitionScreen { header: header(is_gpt), rows }
    }

    /// Whether `after` and `msg` are what `key` makes of the view `before`. With the keys
    /// at the table, `q` leaves the view, Tab hands the keys to the editor, and any other
    /// key moves the selection. With the keys at the editor, the editor reads the key.
    pub open spec fn handled(
        before: PartitionView,
        key: Key,
        after: PartitionView,
        msg: Option<Msg>,
    ) -> bool {
        &&& after.current_device == before.current_device
        &&& after.devices.len() == before.devices.len()
        &&& forall|i: int|
            0 <= i < before.devices.len() && i != before.current_device ==> after.devices@[i]
                == before.devices@[i]
        &&& match before.focus {
            ViewFocus::Table => {
                &&& after.editor == before.editor
                &&& after.shown() == before.shown()
                &&& after.table.last_items_len == before.table.last_items_len
                &&& after.table.state.offset == before.table.state.offset
                &&& if key == Key::Char('q') {
                    msg == Some(Msg::BackToMain) && after.focus == before.focus
                        && after.table == before.table
                } else if key == Key::Tab {
                    msg is None && after.focus == ViewFocus::Editor && after.table
                        == before.table
                } else {
                    msg is None && after.focus == before.focus && after.table.state.selected
                        == Table::moved(
                        before.table.state.selected,
                        before.table.last_items_len,
                        key,
                    )
                }
            },
            ViewFocus::Editor => {
                &&& msg is None
                &&& after.table == before.table
                &&& match before.editor.focus {
                    EditorFocus::Menu => DiskEditor::menu_handled(
                        before.editor,
                        before.shown(),
                        key,
                        after.editor,
                        if after.focus == before.focus {
                            None
                        } else {
                            Some(after.focus)
                        },
                        after.shown(),
                    ),
                    EditorFocus::Create => after.focus == before.focus
                        && DiskEditor::create_handled(
                        before.editor,
                        before.shown(),
                        key,
                        after.editor,
                        after.shown(),
                    ),
                }
            },
        }
    }

    /// Reads a key with the keys at the table.
    fn handle_table(&mut self, key: Key) -> (msg: Option<Msg>)
        requires
            old(self).wf(),
            old(self).focus == ViewFocus::Table,
        ensures
            final(self).wf(),
            final(self).devices == old(self).devices,
            Self::handled(*old(self), key, *final(self), msg),
    {
        match key {
            Key::Char('q') => Some(Msg::BackToMain),
            Key::Tab => {
                self.focus = ViewFocus::Editor;
                None
            },
            _ => {
                self.table.on_event(key);
                None
            },
        }
    }

    /// Reads a key.
    pub fn on_event(&mut self, key: Key) -> (msg: Option<Msg>)
        requires
            old(self).wf(),
        ensures
            final(self).wf(),
            Self::handled(*old(self), key, *final(self), msg),
    {
        match self.focus {
            ViewFocus::Table => self.handle_table(key),
            ViewFocus::Editor => {
                let ghost before = self.devices@;
                let mut dev = self.devices.remove(self.current_device);
                let focus = self.editor.on_event(key, &mut dev);
                match focus {
                    Some(focus) => self.focus = focus,
                    None => {},
                }
                self.devices.insert(self.current_device, dev);
                proof {
                    let after = self.devices@;
                    assert forall|i: int| 0 <= i < after.len() implies ((
                    #[trigger] after[i]) matches Device::Compatible(device)
                        ==> device.wf()) by {
                        if i != self.current_device {
                            assert(after[i] == before[i]);
                        }
                    }
                }
                None
            },
        }
    }
}

} // verus!
