//! The whole state of the terminal front end.

use crate::tui::state::config_state::{DeleteConfigView, MergeConfigView, SplitConfigView};
use crate::tui::state::file_state::{texts, FileStateView};
use crate::tui::state::ui_state::{text_of, UiStateView};
use crate::tui::state::{
    CurrentScreen, DeleteConfig, FileState, MergeConfig, MessageView, OperationMode, SplitConfig,
    UiState,
};
use vstd::prelude::*;

verus! {

/// The state of the front end: the screen, the chosen operation, the
/// files, the settings of each operation, and the input line.
pub struct App {
    pub current_screen: CurrentScreen,
    pub operation_mode: OperationMode,
    pub file_state: FileState,
    pub merge_config: MergeConfig,
    pub delete_config: DeleteConfig,
    pub split_config: SplitConfig,
    pub ui_state: UiState,
}

/// An `App` with its texts as character sequences.
pub struct AppView {
    pub current_screen: CurrentScreen,
    pub operation_mode: OperationMode,
    pub file_state: FileStateView,
    pub merge_config: MergeConfigView,
    pub delete_config: DeleteConfigView,
    pub split_config: SplitConfigView,
    pub ui_state: UiStateView,
}

impl View for App {
    type V = AppView;

    open spec fn view(&self) -> AppView {
        AppView {
            current_screen: self.current_screen,
            operation_mode: self.operation_mode,
            file_state: self.file_state@,
            merge_config: self.merge_config@,
            delete_config: self.delete_config@,
            split_config: self.split_config@,
            ui_state: self.ui_state@,
        }
    }
}

impl AppView {
    /// The state in which the front end starts: the main screen, no
    /// operation chosen, nothing selected or entered.
    pub open spec fn initial() -> AppView {
        AppView {
            current_screen: CurrentScreen::Main,
            operation_mode: OperationMode::Unset,
            file_state: FileStateView::initial(),
            merge_config: MergeConfigView::initial(),
            delete_config: DeleteConfigView::initial(),
            split_config: SplitConfigView::initial(),
            ui_state: UiStateView::initial(),
        }
    }

    /// The state with `message` shown as an error.
    pub open spec fn with_error(self, message: Seq<char>) -> AppView {
        AppView {
            ui_state: UiStateView { message: Some(MessageView::Error(message)), ..self.ui_state },
            ..self
        }
    }

    /// The state with `message` shown as a success.
    pub open spec fn with_success(self, message: Seq<char>) -> AppView {
        AppView {
            ui_state: UiStateView { message: Some(MessageView::Success(message)), ..self.ui_state },
            ..self
        }
    }

    /// The state with no message shown.
    pub open spec fn without_message(self) -> AppView {
        AppView { ui_state: UiStateView { message: None, ..self.ui_state }, ..self }
    }

    /// The state with another screen shown.
    pub open spec fn on_screen(self, screen: CurrentScreen) -> AppView {
        AppView { current_screen: screen, ..self }
    }
}

impl App {
    /// The state in which the front end starts.
    pub fn new() -> (app: Self)
        ensures
            app@ == AppView::initial(),
    {
        App {
            current_screen: CurrentScreen::Main,
            operation_mode: OperationMode::Unset,
            file_state: FileState::new(),
            merge_config: MergeConfig::new(),
            delete_config: DeleteConfig::new(),
            split_config: SplitConfig::new(),
            ui_state: UiState::new(),
        }
    }

    /// Goes back to the state in which the front end starts.
    pub fn reset(&mut self)
        ensures
            final(self)@ == AppView::initial(),
    {
        self.operation_mode = OperationMode::Unset;
        self.current_screen = CurrentScreen::Main;
        self.file_state.reset();
        self.merge_config.reset();
        self.delete_config.reset();
        self.split_config.reset();
        self.ui_state.reset();
    }

    /// Shows `message` as an error.
    pub fn set_error(&mut self, message: String)
        ensures
            final(self)@ == old(self)@.with_error(message@),
    {
        self.ui_state.set_error(message);
    }

    /// Shows `message` as a success.
    pub fn set_success(&mut self, message: String)
        ensures
            final(self)@ == old(self)@.with_success(message@),
    {
        self.ui_state.set_success(message);
    }

    /// The files selected.
    pub fn selected_files(&self) -> (files: &Vec<String>)
        ensures
            texts(files@) == self@.file_state.selected_files,
    {
        &self.file_state.selected_files
    }

    /// The files selected, to be changed in place.
    pub fn selected_files_mut(&mut self) -> (files: &mut Vec<String>)
        ensures
            *files == old(self).file_state.selected_files,
            *final(self) == (App {
                file_state: FileState {
                    selected_files: *final(files),
                    ..old(self).file_state
                },
                ..*old(self)
            }),
    {
        &mut self.file_state.selected_files
    }

    /// The number of files selected.
    pub fn files_len(&self) -> (n: usize)
        ensures
            n == self@.file_state.selected_files.len(),
    {
        self.file_state.len()
    }

    /// Whether no file is selected.
    pub fn files_is_empty(&self) -> (b: bool)
        ensures
            b == (self@.file_state.selected_files.len() == 0),
    {
        self.file_state.is_empty()
    }

    /// Where the file cursor stands.
    pub fn selected_file_index(&self) -> (i: usize)
        ensures
            i == self@.file_state.selected_file_index,
    {
        self.file_state.selected_file_index
    }

    /// Where the merge cursor stands.
    pub fn merge_file_index(&self) -> (i: usize)
        ensures
            i == self@.file_state.merge_file_index,
    {
        self.file_state.merge_file_index
    }

    /// The text of the message, if it is an error.
    pub fn error_message(&self) -> (m: Option<&str>)
        ensures
            text_of(m) == self@.ui_state.error_message(),
    {
        self.ui_state.get_error_message()
    }

    /// The text of the message, if it tells of a success.
    pub fn success_message(&self) -> (m: Option<&str>)
        ensures
            text_of(m) == self@.ui_state.success_message(),
    {
        self.ui_state.get_success_message()
    }

    /// The input line, if there is one.
    pub fn current_input(&self) -> (t: Option<&str>)
        ensures
            text_of(t) == self@.ui_state.current_input,
    {
        match &self.ui_state.current_input {
            Some(s) => Some(s.as_str()),
            None => None,
        }
    }

    /// Whether a path is being typed.
    pub fn editing_input(&self) -> (b: bool)
        ensures
            b == self@.ui_state.editing_input,
    {
        self.ui_state.editing_input
    }

    /// Where the menu cursor stands.
    pub fn menu_mode_index(&self) -> (i: usize)
        ensures
            i == self@.ui_state.menu_mode_index,
    {
        self.ui_state.menu_mode_index
    }

    /// Puts the file cursor at `index`.
    pub fn set_selected_file_index(&mut self, index: usize)
        ensures
            final(self)@ == (AppView {
                file_state: FileStateView { selected_file_index: index, ..old(self)@.file_state },
                ..old(self)@
            }),
    {
        self.file_state.selected_file_index = index;
    }

    /// Puts the merge cursor at `index`.
    pub fn set_merge_file_index(&mut self, index: usize)
        ensures
            final(self)@ == (AppView {
                file_state: FileStateView { merge_file_index: index, ..old(self)@.file_state },
                ..old(self)@
            }),
    {
        self.file_state.merge_file_index = index;
    }

    /// Puts the menu cursor at `index`.
    pub fn set_menu_mode_index(&mut self, index: usize)
        ensures
            final(self)@ == (AppView {
                ui_state: UiStateView { menu_mode_index: index, ..old(self)@.ui_state },
                ..old(self)@
            }),
    {
        self.ui_state.menu_mode_index = index;
    }

    /// Says whether a path is being typed.
    pub fn set_editing_input(&mut self, editing: bool)
        ensures
            final(self)@ == (AppView {
                ui_state: UiStateView { editing_input: editing, ..old(self)@.ui_state },
                ..old(self)@
            }),
    {
        self.ui_state.editing_input = editing;
    }

    /// Replaces the input line.
    pub fn set_current_input(&mut self, input: Option<String>)
        ensures
            final(self)@ == (AppView {
                ui_state: UiStateView {
                    current_input: match input {
                        Some(s) => Some(s@),
                        None => None,
                    },
                    ..old(self)@.ui_state
                },
                ..old(self)@
            }),
    {
        self.ui_state.current_input = input;
    }

    /// Adds a file at the end of the files selected.
    pub fn add_file(&mut self, file_path: String)
        ensures
            final(self)@ == (AppView {
                file_state: old(self)@.file_state.with_file(file_path@),
                ..old(self)@
            }),
    {
        self.file_state.add_file(file_path);
    }

    /// Takes the file under the file cursor away.
    pub fn remove_current_file(&mut self)
        ensures
            final(self)@ == (AppView {
                file_state: old(self)@.file_state.without_file(
                    old(self)@.file_state.selected_file_index,
                ),
                ..old(self)@
            }),
    {
        let index = self.file_state.selected_file_index;
        self.file_state.remove_file(index);
    }

    /// Exchanges the files at the two places.
    pub fn swap_files(&mut self, index1: usize, index2: usize)
        ensures
            final(self)@ == (AppView {
                file_state: old(self)@.file_state.swapped(index1, index2),
                ..old(self)@
            }),
    {
        self.file_state.swap_files(index1, index2);
    }
}

} // verus!
