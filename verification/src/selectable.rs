//! Selection of one item of a list.

use vstd::prelude::*;
use crate::key::Key;

verus! {

/// State of a list of which one item may be selected.
pub trait Selectable {
    /// Index of the first item that is shown.
    spec fn offset_value(&self) -> usize;

    /// Index of the selected item.
    spec fn selected_value(&self) -> Option<usize>;

    /// Index of the first item that is shown.
    fn offset(&self) -> (offset: usize)
        ensures
            offset == self.offset_value(),
    ;

    /// The index of the first item that is shown, to be changed.
    fn offset_mut(&mut self) -> (offset: &mut usize)
        ensures
            *offset == old(self).offset_value(),
            final(self).offset_value() == *final(offset),
            final(self).selected_value() == old(self).selected_value(),
    ;

    /// Index of the selected item.
    fn selected(&self) -> (selected: Option<usize>)
        ensures
            selected == self.selected_value(),
    ;

    /// Selects the item with the given index, or none. Without a selection the list is
    /// shown from its first item.
    fn select(&mut self, index: Option<usize>)
        ensures
            final(self).selected_value() == index,
            final(self).offset_value() == (if index is None {
                0
            } else {
                old(self).offset_value()
            }),
    ;
}

/// State of a list or a table.
#[derive(Debug, Clone, Copy, PartialEq, Eq, Structural, Default)]
pub struct SelectionState {
    pub offset: usize,
    pub selected: Option<usize>,
}

impl Selectable for SelectionState {
    open spec fn offset_value(&self) -> usize {
        self.offset
    }

    open spec fn selected_value(&self) -> Option<usize> {
        self.selected
    }

    fn offset(&self) -> (offset: usize) {
        self.offset
    }

    fn offset_mut(&mut self) -> (offset: &mut usize) {
        &mut self.offset
    }

    fn selected(&self) -> (selected: Option<usize>) {
        self.selected
    }

    fn select(&mut self, index: Option<usize>) {
        self.selected = index;
        if index.is_none() {
            self.offset = 0;
        }
    }
}

/// A list of items of which one is selected as long as there is any.
#[derive(Debug)]
pub struct SelectableWidget<T> {
    pub last_items_len: usize,
    pub state: T,
}

impl<T: Selectable> SelectableWidget<T> {
    /// Whether the selection, if there is one, is an item of the list.
    pub open spec fn wf(&self) -> bool {
        self.state.selected_value() matches Some(index) ==> index < self.last_items_len
    }

    /// Whether the selection, if there is one, is an item of the list.
    pub fn is_wf(&self) -> (valid: bool)
        ensures
            valid == self.wf(),
    {
        match self.state.selected() {
            Some(index) => index < self.last_items_len,
            None => true,
        }
    }

    /// The selection for a list that now has `len` items: none in an empty list, else
    /// the selection from before, or the first item where there was none, but at most
    /// the last item.
    pub open spec fn selection_for(selected: Option<usize>, len: usize) -> Option<usize> {
        if len == 0 {
            None
        } else {
            let wanted = match selected {
                Some(index) => index,
                None => 0,
            };
            Some(if wanted < len - 1 { wanted } else { (len - 1) as usize })
        }
    }

    /// Whether the widget is one for a list that had no items yet: nothing is selected
    /// and the list is shown from its first item.
    pub open spec fn is_fresh(&self) -> bool {
        &&& self.last_items_len == 0
        &&& self.state.selected_value() is None
        &&& self.state.offset_value() == 0
    }

    /// A widget over the given state, for a list that had no items yet.
    pub fn new(state: T) -> (widget: Self)
        ensures
            widget.state == state,
            widget.last_items_len == 0,
    {
        SelectableWidget { last_items_len: 0, state }
    }

    /// Whether `after` is the widget `before`, adapted to a list of `len` items. Where
    /// the count did not change, nothing changed; else the list is shown from its first
    /// item again and the selection is the one for the new count.
    pub open spec fn updated(before: Self, len: usize, after: Self) -> bool {
        &&& after.last_items_len == len
        &&& if len == before.last_items_len {
            after == before
        } else {
            after.state.offset_value() == 0 && after.state.selected_value() == Self::selection_for(
                before.state.selected_value(),
                len,
            )
        }
    }

    /// Adapts the selection to a list of `len` items.
    pub fn update_state(&mut self, len: usize)
        ensures
            Self::updated(*old(self), len, *final(self)),
            old(self).wf() || len != old(self).last_items_len ==> final(self).wf(),
    {
        if len == self.last_items_len {
            return;
        }
        let new_state = if len == 0 {
            None
        } else {
            let wanted = match self.state.selected() {
                Some(index) => index,
                None => 0,
            };
            Some(if wanted < len - 1 { wanted } else { len - 1 })
        };
        self.last_items_len = len;
        *self.state.offset_mut() = 0;
        self.state.select(new_state);
    }

    /// Moves the selection to the first item.
    pub fn select_first_item(&mut self)
        ensures
            final(self).last_items_len == old(self).last_items_len,
            final(self).state.selected_value() == (match old(self).state.selected_value() {
                Some(_) => Some(0usize),
                None => None,
            }),
            final(self).state.offset_value() == old(self).state.offset_value(),
            old(self).wf() ==> final(self).wf(),
    {
        if self.state.selected().is_some() {
            self.state.select(Some(0))
        }
    }

    /// Moves the selection to the last item.
    pub fn select_last_item(&mut self)
        requires
            old(self).wf(),
        ensures
            final(self).last_items_len == old(self).last_items_len,
            final(self).state.selected_value() == (match old(self).state.selected_value() {
                Some(_) => Some((old(self).last_items_len - 1) as usize),
                None => None,
            }),
            final(self).state.offset_value() == old(self).state.offset_value(),
            final(self).wf(),
    {
        if self.state.selected().is_some() {
            self.state.select(Some(self.last_items_len - 1))
        }
    }

    /// Moves the selection to the item before, from the first item to the last.
    pub fn select_prev_item(&mut self)
        requires
            old(self).wf(),
        ensures
            final(self).last_items_len == old(self).last_items_len,
            final(self).state.selected_value() == (match old(self).state.selected_value() {
                Some(index) => Some(
                    if index == 0 {
                        (old(self).last_items_len - 1) as usize
                    } else {
                        (index - 1) as usize
                    },
                ),
                None => None,
            }),
            final(self).state.offset_value() == old(self).state.offset_value(),
            final(self).wf(),
    {
        let cur = match self.state.selected() {
            Some(cur) => cur,
            None => {
                return;
            },
        };
        let prev = if cur == 0 {
            self.last_items_len - 1
        } else {
            cur - 1
        };
        self.state.select(Some(prev))
    }

    /// Moves the selection to the next item, from the last item to the first.
    pub fn select_next_item(&mut self)
        requires
            old(self).wf(),
        ensures
            final(self).last_items_len == old(self).last_items_len,
            final(self).state.selected_value() == (match old(self).state.selected_value() {
                Some(index) => Some(
                    if index + 1 > old(self).last_items_len - 1 {
                        0usize
                    } else {
                        (index + 1) as usize
                    },
                ),
                None => None,
            }),
            final(self).state.offset_value() == old(self).state.offset_value(),
            final(self).wf(),
    {
        let cur = match self.state.selected() {
            Some(cur) => cur,
            None => {
                return;
            },
        };
        let mut next = cur + 1;
        if next > self.last_items_len - 1 {
            next = 0;
        }
        self.state.select(Some(next))
    }

    /// Index of the selected item.
    pub fn current_index(&self) -> (index: Option<usize>)
        ensures
            index == self.state.selected_value(),
    {
        self.state.selected()
    }

    /// The state, to be changed by what shows the list.
    pub fn as_state_mut(&mut self) -> (state: &mut T)
        ensures
            *state == old(self).state,
            final(self).state == *final(state),
            final(self).last_items_len == old(self).last_items_len,
    {
        &mut self.state
    }

    /// Moves the selection as the key asks: up and down, to the first and to the last
    /// item, by the arrow keys or by `k`, `j`, `g` and `G`.
    pub fn on_event(&mut self, key: Key)
        requires
            old(self).wf(),
        ensures
            final(self).last_items_len == old(self).last_items_len,
            final(self).state.offset_value() == old(self).state.offset_value(),
            final(self).state.selected_value() == Self::moved(
                old(self).state.selected_value(),
                old(self).last_items_len,
                key,
            ),
            final(self).wf(),
    {
        match key {
            Key::Up | Key::Char('k') => self.select_prev_item(),
            Key::Down | Key::Char('j') => self.select_next_item(),
            Key::Home | Key::Char('g') => self.select_first_item(),
            Key::End | Key::Char('G') => self.select_last_item(),
            _ => {},
        }
    }

    /// The selection after `key` was pressed in a list of `len` items.
    pub open spec fn moved(selected: Option<usize>, len: usize, key: Key) -> Option<usize> {
        match selected {
            None => None,
            Some(index) => if key == Key::Up || key == Key::Char('k') {
                Some(if index == 0 { (len - 1) as usize } else { (index - 1) as usize })
            } else if key == Key::Down || key == Key::Char('j') {
                Some(if index + 1 > len - 1 { 0usize } else { (index + 1) as usize })
            } else if key == Key::Home || key == Key::Char('g') {
                Some(0usize)
            } else if key == Key::End || key == Key::Char('G') {
                Some((len - 1) as usize)
            } else {
                Some(index)
            },
        }
    }
}

} // verus!
