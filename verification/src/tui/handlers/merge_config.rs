//! The screen on which a merge is set up.

use crate::text::{decimal, push_decimal};
use crate::tui::app::{App, AppView};
use crate::tui::errors::{tui_error_text, TuiErrorView};
use crate::tui::handlers::editing::{finish_filename, finished_filename, is_esc, without_last};
use crate::tui::handlers::{Action, ActionView};
use crate::tui::keys::Key;
use crate::tui::state::config_state::MergeConfigView;
use crate::tui::state::file_state::FileStateView;
use crate::tui::state::CurrentScreen;
use crate::tui::utils::validate_merge_requirements;
use vstd::prelude::*;

verus! {

impl AppView {
    /// The state with the output file of the merge named `name`.
    pub open spec fn with_merge_output(self, name: Seq<char>) -> AppView {
        AppView {
            merge_config: MergeConfigView { output_filename: name, ..self.merge_config },
            ..self
        }
    }

    /// The state in which the output file of the merge is, or is not, being
    /// edited.
    pub open spec fn editing_merge_output(self, editing: bool) -> AppView {
        AppView {
            merge_config: MergeConfigView { editing_output: editing, ..self.merge_config },
            ..self
        }
    }

    /// The state with the file under the merge cursor moved one place up,
    /// and the cursor with it.
    pub open spec fn merge_file_up(self) -> AppView {
        let cursor = self.file_state.merge_file_index;
        AppView {
            file_state: (FileStateView {
                merge_file_index: (cursor - 1) as usize,
                ..self.file_state
            }).swapped((cursor - 1) as usize, cursor),
            ..self
        }
    }

    /// The state with the file under the merge cursor moved one place
    /// down, and the cursor with it.
    pub open spec fn merge_file_down(self) -> AppView {
        let cursor = self.file_state.merge_file_index;
        AppView {
            file_state: (FileStateView {
                merge_file_index: (cursor + 1) as usize,
                ..self.file_state
            }).swapped(cursor, (cursor + 1) as usize),
            ..self
        }
    }

    /// Whether a merge can be started: two files at least, and an output
    /// file named.
    pub open spec fn merge_ready(self) -> bool {
        self.file_state.selected_files.len() >= 2 && self.merge_config.output_filename.len() > 0
    }
}

/// What a key does on the merge screen. While an error is shown, every
/// key but Esc only says so. While the output file is edited, the keys
/// go into its name. Else Tab starts editing, the arrows move the file
/// under the cursor, Enter starts the merge if it can be started, and Esc
/// leads back to the files.
pub open spec fn merge_config_step(app: AppView, key: Key) -> AppView {
    if app.ui_state.error_message() is Some && key != Key::Esc {
        app.with_error("Cannot edit output while there's an error"@)
    } else if app.merge_config.editing_output {
        match key {
            Key::Char(c) => app.with_merge_output(app.merge_config.output_filename.push(c)),
            Key::Backspace => app.with_merge_output(
                without_last(app.merge_config.output_filename),
            ),
            Key::Enter => app.with_merge_output(
                finished_filename(app.merge_config.output_filename, "output_merged.pdf"@),
            ).editing_merge_output(false),
            Key::Tab => app.with_merge_output(
                finished_filename(app.merge_config.output_filename, "output_merged.pdf"@),
            ).editing_merge_output(false),
            Key::Esc => app.editing_merge_output(false),
            _ => app,
        }
    } else {
        match key {
            Key::Tab => app.editing_merge_output(true),
            Key::Up => if app.file_state.merge_file_index > 0 {
                app.merge_file_up()
            } else {
                app
            },
            Key::Down => if app.file_state.merge_file_index + 1
                < app.file_state.selected_files.len() {
                app.merge_file_down()
            } else {
                app
            },
            Key::Enter => if app.file_state.selected_files.len() < 2 {
                app.with_error(
                    tui_error_text(
                        TuiErrorView::InsufficientFiles {
                            count: app.file_state.selected_files.len() as usize,
                        },
                    ),
                )
            } else if app.merge_config.output_filename.len() == 0 {
                app.with_error("Output filename cannot be empty"@)
            } else {
                app
            },
            Key::Esc => app.on_screen(CurrentScreen::FileSelection),
            _ => app,
        }
    }
}

/// Whether a key on the merge screen starts the merge.
pub open spec fn merge_config_starts(app: AppView, key: Key) -> bool {
    &&& app.ui_state.error_message() is None
    &&& !app.merge_config.editing_output
    &&& key == Key::Enter
    &&& app.merge_ready()
}

/// Deals with a key on the merge screen, and says whether the merge is to
/// be made now.
pub fn handle_merge_config_input(key: Key, app: &mut App) -> (action: Action)
    ensures
        final(app)@ == merge_config_step(old(app)@, key),
        action@ == if merge_config_starts(old(app)@, key) {
            ActionView::Merge
        } else {
            ActionView::Nothing
        },
{
    if app.error_message().is_some() && !is_esc(key) {
        app.set_error(String::from_str("Cannot edit output while there's an error"));
        return Action::Nothing;
    }
    if app.merge_config.editing_output {
        match key {
            Key::Char(c) => {
                app.merge_config.output_filename.push(c);
            },
            Key::Backspace => {
                app.merge_config.output_filename.pop();
            },
            Key::Enter | Key::Tab => {
                app.merge_config.editing_output = false;
                finish_filename(&mut app.merge_config.output_filename, "output_merged.pdf");
            },
            Key::Esc => {
                app.merge_config.editing_output = false;
            },
            _ => {},
        }
        return Action::Nothing;
    }
    match key {
        Key::Tab => {
            app.merge_config.editing_output = true;
            Action::Nothing
        },
        Key::Up => {
            if app.merge_file_index() > 0 {
                let current = app.merge_file_index();
                app.set_merge_file_index(current - 1);
                app.swap_files(current - 1, current);
            }
            Action::Nothing
        },
        Key::Down => {
            let current = app.merge_file_index();
            let count = app.files_len();
            if count > 0 && current < count - 1 {
                app.swap_files(current, current + 1);
                app.set_merge_file_index(current + 1);
            }
            Action::Nothing
        },
        Key::Enter => {
            match validate_merge_requirements(app.selected_files().as_slice()) {
                Ok(_) => {
                    if app.merge_config.output_filename.as_str().is_empty() {
                        app.set_error(String::from_str("Output filename cannot be empty"));
                        Action::Nothing
                    } else {
                        Action::Merge
                    }
                },
                Err(e) => {
                    app.set_error(e.message());
                    Action::Nothing
                },
            }
        },
        Key::Esc => {
            app.current_screen = CurrentScreen::FileSelection;
            Action::Nothing
        },
        _ => Action::Nothing,
    }
}

/// The outcome of an operation that yields nothing, with its error text
/// as a character sequence.
pub open spec fn outcome_view(outcome: Result<(), String>) -> Result<(), Seq<char>> {
    match outcome {
        Ok(_) => Ok(()),
        Err(e) => Err(e@),
    }
}

/// What is shown when a merge has ended: how many files went into which
/// file, or why it failed.
pub open spec fn merge_performed(app: AppView, outcome: Result<(), Seq<char>>) -> AppView {
    match outcome {
        Ok(_) => app.with_success(
            "✅ Successfully merged "@ + decimal(app.file_state.selected_files.len())
                + " files into '"@ + app.merge_config.output_filename + "'"@,
        ).on_screen(CurrentScreen::Result),
        Err(e) => app.with_error("Failed to merge PDFs: "@ + e).on_screen(CurrentScreen::Result),
    }
}

/// Takes note of how the merge ended, and shows the result screen.
pub fn perform_merge(app: &mut App, outcome: Result<(), String>)
    ensures
        final(app)@ == merge_performed(old(app)@, outcome_view(outcome)),
{
    match outcome {
        Ok(_) => {
            let mut message = String::from_str("✅ Successfully merged ");
            push_decimal(&mut message, app.files_len() as u64);
            message.append(" files into '");
            message.append(app.merge_config.output_filename.as_str());
            message.append("'");
            app.set_success(message);
        },
        Err(e) => {
            let mut message = String::from_str("Failed to merge PDFs: ");
            message.append(e.as_str());
            app.set_error(message);
        },
    }
    app.current_screen = CurrentScreen::Result;
}

} // verus!
