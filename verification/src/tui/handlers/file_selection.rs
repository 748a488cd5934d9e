//! The screen on which the files of an operation are selected.

use crate::tui::app::{App, AppView};
use crate::tui::errors::{tui_error_text, TuiErrorView};
use crate::tui::handlers::editing::is_esc;
use crate::tui::keys::{Key, Modifiers};
use crate::tui::state::file_state::FileStateView;
use crate::tui::state::ui_state::UiStateView;
use crate::tui::state::{CurrentScreen, OperationMode};
use crate::tui::utils::{
    check_file_input, file_verdict, is_pdf_file, validate_delete_requirements,
    validate_merge_requirements, validate_split_requirements, FileProbe,
};
use vstd::prelude::*;

verus! {

impl AppView {
    /// The state with the file cursor at `index`.
    pub open spec fn with_file_index(self, index: usize) -> AppView {
        AppView {
            file_state: FileStateView { selected_file_index: index, ..self.file_state },
            ..self
        }
    }

    /// The state with the file under the cursor moved one place up, and
    /// the cursor with it.
    pub open spec fn selected_file_up(self) -> AppView {
        let cursor = self.file_state.selected_file_index;
        AppView {
            file_state: (FileStateView {
                selected_file_index: (cursor - 1) as usize,
                ..self.file_state
            }).swapped(cursor, (cursor - 1) as usize),
            ..self
        }
    }

    /// The state with the file under the cursor moved one place down, and
    /// the cursor with it.
    pub open spec fn selected_file_down(self) -> AppView {
        let cursor = self.file_state.selected_file_index;
        AppView {
            file_state: (FileStateView {
                selected_file_index: (cursor + 1) as usize,
                ..self.file_state
            }).swapped(cursor, (cursor + 1) as usize),
            ..self
        }
    }

    /// Whether the cursor can move down: a file stands below it.
    pub open spec fn file_below(self) -> bool {
        self.file_state.selected_file_index + 1 < self.file_state.selected_files.len()
    }

    /// The state in which a path is being typed into an empty input line.
    pub open spec fn typing_path(self) -> AppView {
        AppView {
            ui_state: UiStateView {
                editing_input: true,
                current_input: Some(Seq::empty()),
                ..self.ui_state
            },
            ..self
        }
    }

    /// The state in which typing has, or has not, ended.
    pub open spec fn editing_input(self, editing: bool) -> AppView {
        AppView { ui_state: UiStateView { editing_input: editing, ..self.ui_state }, ..self }
    }

    /// What is wrong with the number of files selected, if anything is:
    /// a merge needs two at least, a deletion and a split just one.
    pub open spec fn selection_fault(self) -> Option<TuiErrorView> {
        let count = self.file_state.selected_files.len();
        match self.operation_mode {
            OperationMode::Merge => if count < 2 {
                Some(TuiErrorView::InsufficientFiles { count: count as usize })
            } else {
                None
            },
            OperationMode::Delete => if count != 1 {
                Some(TuiErrorView::TooManyFiles { count: count as usize })
            } else {
                None
            },
            OperationMode::Split => if count != 1 {
                Some(TuiErrorView::TooManyFiles { count: count as usize })
            } else {
                None
            },
            OperationMode::Unset => None,
        }
    }

    /// The screen on which the chosen operation is set up.
    pub open spec fn config_screen(self) -> CurrentScreen {
        match self.operation_mode {
            OperationMode::Merge => CurrentScreen::MergeConfig,
            OperationMode::Delete => CurrentScreen::DeleteConfig,
            OperationMode::Split => CurrentScreen::SplitConfig,
            OperationMode::Unset => CurrentScreen::Main,
        }
    }

    /// The state after the user has asked to go on: the screen of the
    /// operation, or what is wrong with the selection.
    pub open spec fn selection_confirmed(self) -> AppView {
        match self.selection_fault() {
            None => self.on_screen(self.config_screen()).without_message(),
            Some(e) => self.with_error(tui_error_text(e)),
        }
    }

    /// The state after the path typed was entered: where it is a good
    /// file it joins the files selected and the input line is emptied; else
    /// what is wrong with it is shown. An empty line only ends the typing.
    pub open spec fn path_entered(self, probe: FileProbe, is_pdf: bool) -> AppView {
        let text = self.ui_state.input_text();
        if text.len() == 0 {
            self.editing_input(false)
        } else {
            match file_verdict(text, probe, is_pdf) {
                Ok(_) => AppView {
                    file_state: self.file_state.with_file(text),
                    ui_state: self.ui_state.stopped(),
                    ..self
                }.without_message(),
                Err(e) => self.with_error(tui_error_text(e)).editing_input(false),
            }
        }
    }
}

/// What a key does on the file screen, given what was found out about the
/// path typed and whether it counts as a PDF file. While an error is
/// shown, every key but Esc only takes it away. While a path is typed, the
/// keys go into it, and Enter enters it. Else the arrows move the cursor,
/// or with Alt the file under it; Tab starts typing a path, unless the
/// operation has its one file; Enter and the right arrow go on to the
/// operation; Backspace takes the file under the cursor away; and Esc
/// leads back to the main screen.
pub open spec fn file_selection_step(
    app: AppView,
    key: Key,
    modifiers: Modifiers,
    probe: FileProbe,
    is_pdf: bool,
) -> AppView {
    if app.ui_state.error_message() is Some && key != Key::Esc {
        app.without_message()
    } else if app.ui_state.editing_input {
        match key {
            Key::Char(c) => AppView { ui_state: app.ui_state.typed(c), ..app },
            Key::Backspace => AppView { ui_state: app.ui_state.erased(), ..app },
            Key::Enter => app.path_entered(probe, is_pdf),
            Key::Esc => AppView { ui_state: app.ui_state.stopped(), ..app },
            _ => app,
        }
    } else {
        match modifiers {
            Modifiers::Alt => match key {
                Key::Up => if app.file_state.selected_file_index > 0 {
                    app.selected_file_up()
                } else {
                    app
                },
                Key::Down => if app.file_below() {
                    app.selected_file_down()
                } else {
                    app
                },
                _ => app,
            },
            Modifiers::Other => app,
            _ => match key {
                Key::Up => if app.file_state.selected_file_index > 0 {
                    app.with_file_index((app.file_state.selected_file_index - 1) as usize)
                } else {
                    app
                },
                Key::Down => if app.file_below() {
                    app.with_file_index((app.file_state.selected_file_index + 1) as usize)
                } else {
                    app
                },
                Key::Tab => if (app.operation_mode == OperationMode::Delete || app.operation_mode
                    == OperationMode::Split) && app.file_state.selected_files.len() > 0 {
                    app
                } else {
                    app.typing_path()
                },
                Key::Enter => app.selection_confirmed(),
                Key::Right => app.selection_confirmed(),
                Key::Backspace => AppView {
                    file_state: app.file_state.without_file(app.file_state.selected_file_index),
                    ..app
                },
                Key::Esc => app.on_screen(CurrentScreen::Main),
                _ => app,
            },
        }
    }
}

fn confirm_selection(app: &mut App)
    ensures
        final(app)@ == old(app)@.selection_confirmed(),
{
    let validation = match app.operation_mode {
        OperationMode::Merge => validate_merge_requirements(app.selected_files().as_slice()),
        OperationMode::Delete => validate_delete_requirements(app.selected_files().as_slice()),
        OperationMode::Split => validate_split_requirements(app.selected_files().as_slice()),
        OperationMode::Unset => Ok(()),
    };
    match validation {
        Ok(_) => {
            app.current_screen = match app.operation_mode {
                OperationMode::Merge => CurrentScreen::MergeConfig,
                OperationMode::Delete => CurrentScreen::DeleteConfig,
                OperationMode::Split => CurrentScreen::SplitConfig,
                OperationMode::Unset => CurrentScreen::Main,
            };
            app.ui_state.clear_message();
        },
        Err(e) => {
            app.set_error(e.message());
        },
    }
}

fn enter_path(app: &mut App, probe: FileProbe, is_pdf: bool)
    ensures
        final(app)@ == old(app)@.path_entered(probe, is_pdf),
{
    let text = String::from_str(app.ui_state.get_input_text());
    if !text.as_str().is_empty() {
        match check_file_input(text.as_str(), probe, is_pdf) {
            Ok(_) => {
                app.add_file(text);
                app.ui_state.stop_input();
                app.ui_state.clear_message();
            },
            Err(e) => {
                app.set_error(e.message());
                app.set_editing_input(false);
            },
        }
    } else {
        app.set_editing_input(false);
    }
}

/// Deals with a key on the file screen, given what was found out about the
/// path typed and whether it counts as a PDF file.
pub fn file_selection_input(
    key: Key,
    modifiers: Modifiers,
    app: &mut App,
    probe: FileProbe,
    is_pdf: bool,
)
    ensures
        final(app)@ == file_selection_step(old(app)@, key, modifiers, probe, is_pdf),
{
    if app.ui_state.get_error_message().is_some() && !is_esc(key) {
        app.ui_state.clear_message();
        return ;
    }
    if app.ui_state.editing_input {
        match key {
            Key::Char(c) => {
                app.ui_state.input_char(c);
            },
            Key::Backspace => {
                app.ui_state.input_backspace();
            },
            Key::Enter => {
                enter_path(app, probe, is_pdf);
            },
            Key::Esc => {
                app.ui_state.stop_input();
            },
            _ => {},
        }
        return ;
    }
    let current = app.selected_file_index();
    let count = app.files_len();
    match modifiers {
        Modifiers::Alt => {
            match key {
                Key::Up => {
                    if current > 0 {
                        app.swap_files(current, current - 1);
                        app.set_selected_file_index(current - 1);
                    }
                },
                Key::Down => {
                    if count > 0 && current < count - 1 {
                        app.swap_files(current, current + 1);
                        app.set_selected_file_index(current + 1);
                    }
                },
                _ => {},
            }
        },
        Modifiers::Other => {},
        _ => {
            match key {
                Key::Up => {
                    if current > 0 {
                        app.set_selected_file_index(current - 1);
                    }
                },
                Key::Down => {
                    if count > 0 && current < count - 1 {
                        app.set_selected_file_index(current + 1);
                    }
                },
                Key::Tab => {
                    let single = match app.operation_mode {
                        OperationMode::Delete => true,
                        OperationMode::Split => true,
                        _ => false,
                    };
                    if single && !app.files_is_empty() {
                        return ;
                    }
                    app.set_editing_input(true);
                    app.set_current_input(Some(String::new()));
                },
                Key::Enter | Key::Right => {
                    confirm_selection(app);
                },
                Key::Backspace => {
                    if !app.files_is_empty() && current < count {
                        app.remove_current_file();
                    }
                },
                Key::Esc => {
                    app.current_screen = CurrentScreen::Main;
                },
                _ => {},
            }
        },
    }
}

/// Deals with a key on the file screen, given what was found out about the
/// path typed. Whether that file counts as a PDF file is decided here; a
/// file that is not there or does not load never does.
pub fn handle_file_selection_input(key: Key, modifiers: Modifiers, app: &mut App, probe: FileProbe)
    ensures
        final(app)@ == file_selection_step(old(app)@, key, modifiers, probe, true) || final(app)@
            == file_selection_step(old(app)@, key, modifiers, probe, false),
        !(probe.exists && probe.loads) ==> final(app)@ == file_selection_step(
            old(app)@,
            key,
            modifiers,
            probe,
            false,
        ),
{
    let is_pdf = is_pdf_file(app.ui_state.get_input_text(), probe);
    file_selection_input(key, modifiers, app, probe, is_pdf)
}

} // verus!
