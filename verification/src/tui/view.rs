//! What the screens say: the texts that depend on the state, chosen here
//! so that drawing has nothing left to decide.

use crate::text::{chars_of, decimal, index_of, push_chars, push_decimal, slice_chars};
use crate::tui::app::{App, AppView};
use crate::tui::state::OperationMode;
use vstd::prelude::*;

verus! {

/// How a message is meant.
#[derive(Debug, Clone, Copy, PartialEq, Eq, Structural)]
pub enum Tone {
    Error,
    Success,
    Neutral,
}

/// How much room a section of a screen takes.
#[derive(Debug, Clone, Copy, PartialEq, Eq, Structural)]
pub enum Size {
    /// What the other sections leave.
    Fill,
    /// This many lines.
    Fixed(u16),
}

/// The room of a section that is given by a number: 0 stands for what the
/// other sections leave.
pub fn section_size(size: u16) -> (s: Size)
    ensures
        s == if size == 0 {
            Size::Fill
        } else {
            Size::Fixed(size)
        },
{
    if size == 0 {
        Size::Fill
    } else {
        Size::Fixed(size)
    }
}

/// The share, in percent, that is left on each side of something that
/// takes `percent` of the room and stands in the middle.
pub fn margin_percent(percent: u16) -> (m: u16)
    requires
        percent <= 100,
    ensures
        m == (100 - percent) / 2,
{
    (100 - percent) / 2
}

/// The title of the file screen.
pub fn file_selection_title(mode: OperationMode) -> (title: &'static str)
    ensures
        title@ == match mode {
            OperationMode::Merge => "📄 Select PDFs to Merge"@,
            OperationMode::Delete => "📄 Select PDF for Page Deletion"@,
            _ => "📄 File Selection"@,
        },
{
    match mode {
        OperationMode::Merge => "📄 Select PDFs to Merge",
        OperationMode::Delete => "📄 Select PDF for Page Deletion",
        _ => "📄 File Selection",
    }
}

/// The title of the line into which a path is typed.
pub fn path_input_title(editing: bool) -> (title: &'static str)
    ensures
        title@ == if editing {
            "Enter file path (Enter to add, Esc to cancel)"@
        } else {
            "File path (Tab add file)"@
        },
{
    if editing {
        "Enter file path (Enter to add, Esc to cancel)"
    } else {
        "File path (Tab add file)"
    }
}

/// The keys that the file screen offers.
pub fn file_selection_instructions(editing: bool, mode: OperationMode) -> (text: &'static str)
    ensures
        text@ == if editing {
            "Enter: Add file | Esc: Cancel"@
        } else {
            match mode {
                OperationMode::Merge => "↑/↓: Navigate | Tab: Add file | <-: Delete | Enter: Next | Alt+↑/↓: Reorder | Esc: Back"@,
                _ => "↑/↓: Navigate | Tab: Add file | <-: Delete | Enter: Next | Esc: Back"@,
            }
        },
{
    if editing {
        "Enter: Add file | Esc: Cancel"
    } else {
        match mode {
            OperationMode::Merge => "↑/↓: Navigate | Tab: Add file | <-: Delete | Enter: Next | Alt+↑/↓: Reorder | Esc: Back",
            _ => "↑/↓: Navigate | Tab: Add file | <-: Delete | Enter: Next | Esc: Back",
        }
    }
}

/// The name that is shown for an output file: the placeholder while none
/// has been entered.
pub fn shown_name<'a>(name: &'a str, placeholder: &'a str) -> (shown: &'a str)
    ensures
        shown@ == if name@.len() == 0 {
            placeholder@
        } else {
            name@
        },
{
    if name.is_empty() {
        placeholder
    } else {
        name
    }
}

/// The place that is marked in a list of `count` entries: the place
/// asked for, if there is an entry at it.
pub fn list_selection(selected: Option<usize>, count: usize) -> (marked: Option<usize>)
    ensures
        marked == match selected {
            Some(index) => if index < count {
                Some(index)
            } else {
                None
            },
            None => None,
        },
{
    match selected {
        Some(index) => if index < count {
            Some(index)
        } else {
            None
        },
        None => None,
    }
}

/// The place that the file screen asks to be marked: that of the file
/// cursor, unless there is no file.
pub fn file_cursor(app: &App) -> (asked: Option<usize>)
    ensures
        asked == if app@.file_state.selected_files.len() == 0 {
            None
        } else {
            Some(app@.file_state.selected_file_index)
        },
{
    if app.files_is_empty() {
        None
    } else {
        Some(app.selected_file_index())
    }
}

/// The entry of a file in a list: its number, counted from 1, and its
/// name.
pub fn file_label(index: usize, file: &str) -> (label: String)
    requires
        index < usize::MAX,
    ensures
        label@ == decimal((index + 1) as nat) + ". "@ + file@,
{
    let mut label = String::new();
    push_decimal(&mut label, index as u64 + 1);
    label.append(". ");
    label.append(file);
    assert(Seq::<char>::empty() + decimal((index + 1) as nat) == decimal((index + 1) as nat));
    label
}

/// What an input line shows: the first word of its title, a colon, and
/// what was entered.
pub open spec fn field_text_spec(title: Seq<char>, content: Seq<char>) -> Seq<char> {
    title.take(index_of(title, ' ', 0)) + ": "@ + content
}

/// The text of an input line.
pub fn field_text(title: &str, content: &str) -> (text: String)
    ensures
        text@ == field_text_spec(title@, content@),
{
    let chars = chars_of(title);
    let mut end: usize = 0;
    while end < chars.len() && chars[end] != ' '
        invariant
            end <= chars@.len(),
            index_of(chars@, ' ', 0) == index_of(chars@, ' ', end as int),
        decreases chars.len() - end,
    {
        end += 1;
    }
    let word = slice_chars(&chars, 0, end);
    assert(word@ == chars@.take(end as int));
    let mut text = String::new();
    push_chars(&mut text, &word);
    text.append(": ");
    text.append(content);
    assert(Seq::<char>::empty() + word@ == word@);
    text
}

/// The text of an error as an input line shows it.
pub fn error_text(error: &str) -> (text: String)
    ensures
        text@ == "ERROR: "@ + error@,
{
    let mut text = String::from_str("ERROR: ");
    text.append(error);
    text
}

impl AppView {
    /// The message that the result screen shows.
    pub open spec fn result_text(self) -> Seq<char> {
        match self.ui_state.error_message() {
            Some(text) => text,
            None => match self.ui_state.success_message() {
                Some(text) => text,
                None => "No result available"@,
            },
        }
    }

    /// How the message of the result screen is meant.
    pub open spec fn result_tone(self) -> Tone {
        if self.ui_state.error_message() is Some {
            Tone::Error
        } else if self.ui_state.success_message() is Some {
            Tone::Success
        } else {
            Tone::Neutral
        }
    }
}

/// The message that the result screen shows, and how it is meant: the
/// error, else the success, else that there is nothing to show.
pub fn result_message(app: &App) -> (shown: (&str, Tone))
    ensures
        shown.0@ == app@.result_text(),
        shown.1 == app@.result_tone(),
{
    match app.error_message() {
        Some(text) => (text, Tone::Error),
        None => match app.success_message() {
            Some(text) => (text, Tone::Success),
            None => ("No result available", Tone::Neutral),
        },
    }
}

} // verus!
