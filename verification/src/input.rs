//! A line of text that the user types.

use vstd::prelude::*;
use crate::key::Key;
use crate::text::{clear_text, pop_char, push_char};

verus! {

/// What the user asks for at the end of the input.
#[derive(Debug, Clone, Copy, PartialEq, Eq, Structural)]
pub enum InputCommand {
    Cancel,
    Submit,
}

/// A line of text under edit.
#[derive(Debug, Default)]
pub struct Input {
    input: String,
}

impl View for Input {
    type V = Seq<char>;

    /// The text typed so far.
    closed spec fn view(&self) -> Seq<char> {
        self.input@
    }
}

impl Input {
    /// The command that `key` gives on the text `text`: Enter submits a text and cancels
    /// an empty one, Backspace cancels an empty text, Escape cancels.
    pub open spec fn command(text: Seq<char>, key: Key) -> Option<InputCommand> {
        match key {
            Key::Enter => if text.len() == 0 {
                Some(InputCommand::Cancel)
            } else {
                Some(InputCommand::Submit)
            },
            Key::Backspace => if text.len() == 0 {
                Some(InputCommand::Cancel)
            } else {
                None
            },
            Key::Esc => Some(InputCommand::Cancel),
            _ => None,
        }
    }

    /// The text after `key` was pressed: Backspace removes the last character, a
    /// character is appended.
    pub open spec fn edited(text: Seq<char>, key: Key) -> Seq<char> {
        match key {
            Key::Backspace => if text.len() == 0 {
                text
            } else {
                text.drop_last()
            },
            Key::Char(c) => text.push(c),
            _ => text,
        }
    }

    /// An empty line.
    pub fn new() -> (line: Self)
        ensures
            line@ == Seq::<char>::empty(),
    {
        Input { input: String::new() }
    }

    /// Edits the text as `key` asks, and says what the user asks for with it.
    pub fn on_event(&mut self, key: Key) -> (command: Option<InputCommand>)
        ensures
            command == Self::command(old(self)@, key),
            final(self)@ == Self::edited(old(self)@, key),
    {
        match key {
            Key::Enter => {
                if self.input.as_str().is_empty() {
                    Some(InputCommand::Cancel)
                } else {
                    Some(InputCommand::Submit)
                }
            },
            Key::Backspace => {
                if self.input.as_str().is_empty() {
                    Some(InputCommand::Cancel)
                } else {
                    pop_char(&mut self.input);
                    None
                }
            },
            Key::Char(c) => {
                push_char(&mut self.input, c);
                None
            },
            Key::Esc => Some(InputCommand::Cancel),
            _ => None,
        }
    }

    /// Hands the text out and leaves an empty line.
    pub fn take(&mut self) -> (text: String)
        ensures
            text@ == old(self)@,
            final(self)@ == Seq::<char>::empty(),
    {
        let mut text = String::new();
        std::mem::swap(&mut text, &mut self.input);
        text
    }

    /// The text typed so far.
    pub fn as_str(&self) -> (text: &str)
        ensures
            text@ == self@,
    {
        self.input.as_str()
    }

    /// Empties the line.
    pub fn clear(&mut self)
        ensures
            final(self)@ == Seq::<char>::empty(),
    {
        clear_text(&mut self.input)
    }

    /// Appends a character.
    pub fn push(&mut self, c: char)
        ensures
            final(self)@ == old(self)@.push(c),
    {
        push_char(&mut self.input, c)
    }
}

} // verus!
