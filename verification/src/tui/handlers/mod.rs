//! What each key does on each screen.

pub mod delete_config;
pub mod editing;
pub mod events;
pub mod file_selection;
pub mod main_handler;
pub mod merge_config;
pub mod result;
pub mod split_config;

pub use delete_config::handle_delete_config_input;
pub use events::handle_key_event;
pub use file_selection::handle_file_selection_input;
pub use main_handler::handle_main_input;
pub use merge_config::handle_merge_config_input;
pub use result::handle_result_input;
pub use split_config::handle_split_config_input;

use vstd::prelude::*;

verus! {

/// What the front end is to do once a key has been dealt with.
#[derive(Debug, PartialEq, Eq)]
pub enum Action {
    /// Wait for the next key.
    Nothing,
    /// End the front end.
    Quit,
    /// Merge the selected files into the output file of the merge settings.
    Merge,
    /// Write the selected file without these pages to the output file of
    /// the deletion settings.
    Delete(Vec<u32>),
    /// Split the selected file as the split settings say.
    Split,
}

/// An `Action` as a mathematical value.
pub enum ActionView {
    Nothing,
    Quit,
    Merge,
    Delete(Seq<u32>),
    Split,
}

impl View for Action {
    type V = ActionView;

    open spec fn view(&self) -> ActionView {
        match self {
            Action::Nothing => ActionView::Nothing,
            Action::Quit => ActionView::Quit,
            Action::Merge => ActionView::Merge,
            Action::Delete(pages) => ActionView::Delete(pages@),
            Action::Split => ActionView::Split,
        }
    }
}

} // verus!
