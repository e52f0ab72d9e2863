//! The rows in which the table of a device is shown.

use vstd::prelude::*;
use vstd::string::StringExecFns;
use crate::format::{decimal_text, format_size, itoa, size_text};
use crate::partition::{MemPartition, MemTableEntry};
use crate::space::DiskSpace;

verus! {

/// Number of the columns of the table.
pub const COLUMNS: usize = 9;

/// The title of the column with the given index; that of the second column depends on
/// the kind of the table.
pub open spec fn column_title(column: int, is_gpt: bool) -> Seq<char> {
    if column == 0 {
        "Name"@
    } else if column == 1 {
        if is_gpt {
            "Boot"@
        } else {
            "ESP"@
        }
    } else if column == 2 {
        "Start"@
    } else if column == 3 {
        "End"@
    } else if column == 4 {
        "Sectors"@
    } else if column == 5 {
        "Filesystem"@
    } else if column == 6 {
        "Filesystem label"@
    } else if column == 7 {
        "Mountpoint"@
    } else {
        "Size"@
    }
}

/// The text of an optional text: nothing where there is none.
pub open spec fn text_or_empty(text: Option<String>) -> Seq<char> {
    match text {
        Some(text) => text@,
        None => Seq::empty(),
    }
}

/// What the cell of the given column shows of a partition of the device at `parent`.
pub open spec fn partition_cell(parent: Seq<char>, part: MemPartition, column: int) -> Seq<char> {
    if column == 0 {
        parent + decimal_text(part.number as nat)
    } else if column == 1 {
        if part.bootable {
            "*"@
        } else {
            ""@
        }
    } else if column == 2 {
        decimal_text(part.start as nat)
    } else if column == 3 {
        decimal_text(part.end as nat)
    } else if column == 4 {
        decimal_text(part.sectors as nat)
    } else if column == 5 {
        part.filesystem.name()
    } else if column == 6 {
        text_or_empty(part.label)
    } else if column == 7 {
        text_or_empty(part.mountpoint)
    } else {
        size_text(part.size)
    }
}

/// What the cell of the given column shows of a free region.
pub open spec fn free_space_cell(space: DiskSpace, column: int) -> Seq<char> {
    if column == 0 {
        "Free space"@
    } else if column == 2 {
        decimal_text(space.start as nat)
    } else if column == 3 {
        decimal_text(space.end as nat)
    } else if column == 4 {
        decimal_text(space.sectors as nat)
    } else if column == 8 {
        size_text(space.size)
    } else {
        ""@
    }
}

/// Whether `cells` are the nine cells of which the `column`-th holds `cell(column)`.
pub open spec fn is_row(cells: Seq<String>, cell: spec_fn(int) -> Seq<char>) -> bool {
    &&& cells.len() == 9
    &&& forall|column: int| 0 <= column < 9 ==> (#[trigger] cells[column])@ == cell(column)
}

/// The titles of the columns.
pub fn header(is_gpt: bool) -> (titles: Vec<String>)
    ensures
        is_row(titles@, |column: int| column_title(column, is_gpt)),
{
    let mut titles: Vec<String> = Vec::new();
    titles.push(String::from_str("Name"));
    titles.push(String::from_str(if is_gpt { "Boot" } else { "ESP" }));
    titles.push(String::from_str("Start"));
    titles.push(String::from_str("End"));
    titles.push(String::from_str("Sectors"));
    titles.push(String::from_str("Filesystem"));
    titles.push(String::from_str("Filesystem label"));
    titles.push(String::from_str("Mountpoint"));
    titles.push(String::from_str("Size"));
    titles
}

/// The text of an optional text.
fn shown(text: &Option<String>) -> (cell: String)
    ensures
        cell@ == text_or_empty(*text),
{
    match text {
        Some(text) => String::from_str(text.as_str()),
        None => String::new(),
    }
}

/// The row that shows a partition of the device at `parent`.
pub fn make_partition_row(parent: &str, part: &MemPartition) -> (cells: Vec<String>)
    ensures
        is_row(cells@, |column: int| partition_cell(parent@, *part, column)),
{
    let mut cells: Vec<String> = Vec::new();
    let number = itoa(part.number as u64);
    cells.push(String::from_str(parent).concat(number.as_str()));
    cells.push(String::from_str(if part.bootable { "*" } else { "" }));
    cells.push(itoa(part.start));
    cells.push(itoa(part.end));
    cells.push(itoa(part.sectors));
    cells.push(String::from_str(part.filesystem.as_str()));
    cells.push(shown(&part.label));
    cells.push(shown(&part.mountpoint));
    cells.push(format_size(part.size));
    cells
}

/// The row that shows a free region.
pub fn make_free_space_row(space: &DiskSpace) -> (cells: Vec<String>)
    ensures
        is_row(cells@, |column: int| free_space_cell(*space, column)),
{
    let mut cells: Vec<String> = Vec::new();
    cells.push(String::from_str("Free space"));
    cells.push(String::from_str(""));
    cells.push(itoa(space.start));
    cells.push(itoa(space.end));
    cells.push(itoa(space.sectors));
    cells.push(String::from_str(""));
    cells.push(String::from_str(""));
    cells.push(String::from_str(""));
    cells.push(format_size(space.size));
    cells
}

/// The row that shows an entry of the table of the device at `parent`.
pub fn make_row(parent: &str, entry: &MemTableEntry) -> (cells: Vec<String>)
    ensures
        match entry {
            MemTableEntry::Partition(part) => is_row(
                cells@,
                |column: int| partition_cell(parent@, *part, column),
            ),
            MemTableEntry::Free(space) => is_row(
                cells@,
                |column: int| free_space_cell(*space, column),
            ),
        },
{
    match entry {
        MemTableEntry::Partition(part) => make_partition_row(parent, part),
        MemTableEntry::Free(space) => make_free_space_row(space),
    }
}

} // verus!
