//! The state of the terminal front end.

pub mod config_state;
pub mod file_state;
pub mod ui_state;

pub use config_state::{DeleteConfig, MergeConfig, SplitConfig};
pub use file_state::FileState;
pub use ui_state::UiState;

use vstd::prelude::*;

verus! {

/// The screen that is shown.
#[derive(Debug, Clone, Copy, PartialEq, Eq, Structural)]
pub enum CurrentScreen {
    Main,
    FileSelection,
    MergeConfig,
    DeleteConfig,
    SplitConfig,
    Result,
    Help,
    Exiting,
}

/// The operation that the user has chosen.
#[derive(Debug, Clone, Copy, PartialEq, Eq, Structural)]
pub enum OperationMode {
    Unset,
    Merge,
    Delete,
    Split,
}

/// What the front end has to tell the user.
#[derive(Debug, PartialEq, Eq)]
pub enum MessageType {
    Error(String),
    Success(String),
}

/// A `MessageType` with its text as a character sequence.
pub enum MessageView {
    Error(Seq<char>),
    Success(Seq<char>),
}

impl View for MessageType {
    type V = MessageView;

    open spec fn view(&self) -> MessageView {
        match self {
            MessageType::Error(m) => MessageView::Error(m@),
            MessageType::Success(m) => MessageView::Success(m@),
        }
    }
}

} // verus!
