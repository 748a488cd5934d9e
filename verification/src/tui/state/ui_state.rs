//! What the user is typing, where the menu cursor stands, and the message
//! that is shown.

use crate::tui::state::{MessageType, MessageView};
use vstd::prelude::*;

verus! {

/// The input line, the menu cursor and the message.
#[derive(Debug)]
pub struct UiState {
    pub current_input: Option<String>,
    pub editing_input: bool,
    pub menu_mode_index: usize,
    pub message: Option<MessageType>,
}

/// A `UiState` with its texts as character sequences.
pub struct UiStateView {
    pub current_input: Option<Seq<char>>,
    pub editing_input: bool,
    pub menu_mode_index: usize,
    pub message: Option<MessageView>,
}

impl View for UiState {
    type V = UiStateView;

    open spec fn view(&self) -> UiStateView {
        UiStateView {
            current_input: match self.current_input {
                Some(s) => Some(s@),
                None => None,
            },
            editing_input: self.editing_input,
            menu_mode_index: self.menu_mode_index,
            message: match self.message {
                Some(m) => Some(m@),
                None => None,
            },
        }
    }
}

impl UiStateView {
    /// No input, no message, the menu cursor on the first entry.
    pub open spec fn initial() -> UiStateView {
        UiStateView { current_input: None, editing_input: false, menu_mode_index: 0, message: None }
    }

    /// The text of the message, if it is an error.
    pub open spec fn error_message(self) -> Option<Seq<char>> {
        match self.message {
            Some(MessageView::Error(m)) => Some(m),
            _ => None,
        }
    }

    /// The text of the message, if it tells of a success.
    pub open spec fn success_message(self) -> Option<Seq<char>> {
        match self.message {
            Some(MessageView::Success(m)) => Some(m),
            _ => None,
        }
    }

    /// What has been typed; nothing where there is no input line.
    pub open spec fn input_text(self) -> Seq<char> {
        match self.current_input {
            Some(s) => s,
            None => Seq::empty(),
        }
    }

    /// The state after one more character was typed.
    pub open spec fn typed(self, c: char) -> UiStateView {
        UiStateView { current_input: Some(self.input_text().push(c)), ..self }
    }

    /// The state after the last character was taken back; nothing changes
    /// where there is none.
    pub open spec fn erased(self) -> UiStateView {
        match self.current_input {
            Some(s) => if s.len() > 0 {
                UiStateView { current_input: Some(s.drop_last()), ..self }
            } else {
                self
            },
            None => self,
        }
    }

    /// The state after typing has ended: the input line is empty.
    pub open spec fn stopped(self) -> UiStateView {
        UiStateView { editing_input: false, current_input: Some(Seq::empty()), ..self }
    }
}

/// The text of an optional string.
pub open spec fn text_of(s: Option<&str>) -> Option<Seq<char>> {
    match s {
        Some(t) => Some(t@),
        None => None,
    }
}

impl UiState {
    /// No input, no message, the menu cursor on the first entry.
    pub fn new() -> (s: Self)
        ensures
            s@ == UiStateView::initial(),
    {
        UiState { current_input: None, editing_input: false, menu_mode_index: 0, message: None }
    }

    /// Forgets input and message and puts the menu cursor on the first entry.
    pub fn reset(&mut self)
        ensures
            final(self)@ == UiStateView::initial(),
    {
        self.current_input = None;
        self.editing_input = false;
        self.menu_mode_index = 0;
        self.message = None;
    }

    /// Shows `message` as an error.
    pub fn set_error(&mut self, message: String)
        ensures
            final(self)@ == (UiStateView {
                message: Some(MessageView::Error(message@)),
                ..old(self)@
            }),
    {
        self.message = Some(MessageType::Error(message));
    }

    /// Shows `message` as a success.
    pub fn set_success(&mut self, message: String)
        ensures
            final(self)@ == (UiStateView {
                message: Some(MessageView::Success(message@)),
                ..old(self)@
            }),
    {
        self.message = Some(MessageType::Success(message));
    }

    /// Takes the message away.
    pub fn clear_message(&mut self)
        ensures
            final(self)@ == (UiStateView { message: None, ..old(self)@ }),
    {
        self.message = None;
    }

    /// The text of the message, if it is an error.
    pub fn get_error_message(&self) -> (m: Option<&str>)
        ensures
            text_of(m) == self@.error_message(),
    {
        match &self.message {
            Some(MessageType::Error(msg)) => Some(msg.as_str()),
            _ => None,
        }
    }

    /// The text of the message, if it tells of a success.
    pub fn get_success_message(&self) -> (m: Option<&str>)
        ensures
            text_of(m) == self@.success_message(),
    {
        match &self.message {
            Some(MessageType::Success(msg)) => Some(msg.as_str()),
            _ => None,
        }
    }

    /// Ends typing and empties the input line.
    pub fn stop_input(&mut self)
        ensures
            final(self)@ == old(self)@.stopped(),
    {
        self.editing_input = false;
        self.current_input = Some(String::new());
    }

    /// What has been typed; nothing where there is no input line.
    pub fn get_input_text(&self) -> (t: &str)
        ensures
            t@ == self@.input_text(),
    {
        match &self.current_input {
            Some(s) => s.as_str(),
            None => {
                proof {
                    reveal_strlit("");
                }
                assert(""@ =~= Seq::<char>::empty());
                ""
            },
        }
    }

    /// Adds a character to what has been typed.
    pub fn input_char(&mut self, c: char)
        ensures
            final(self)@ == old(self)@.typed(c),
    {
        if self.current_input.is_none() {
            self.current_input = Some(String::new());
        }
        match &mut self.current_input {
            Some(input) => {
                input.push(c);
            },
            None => {},
        }
    }

    /// Takes the last character typed back.
    pub fn input_backspace(&mut self)
        ensures
            final(self)@ == old(self)@.erased(),
    {
        match &mut self.current_input {
            Some(input) => {
                input.pop();
            },
            None => {},
        }
    }
}

} // verus!
