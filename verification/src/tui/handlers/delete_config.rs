//! The screen on which a deletion of pages is set up.

use crate::text::split;
use crate::tui::app::{App, AppView};
use crate::tui::errors::{tui_error_text, TuiErrorView};
use crate::tui::handlers::editing::{finish_filename, finished_filename, is_esc, without_last};
use crate::tui::handlers::merge_config::outcome_view;
use crate::tui::handlers::{Action, ActionView};
use crate::tui::keys::Key;
use crate::tui::state::config_state::DeleteConfigView;
use crate::tui::state::CurrentScreen;
use crate::tui::utils::{is_normalized, listed_pages, validate_page_ranges};
use vstd::prelude::*;

verus! {

/// The pages that a list of pages names, in the order written, or why it
/// names none.
pub open spec fn pages_named(input: Seq<char>) -> Result<Seq<u32>, TuiErrorView> {
    let parts = split(input, ',');
    match listed_pages(parts, parts.len()) {
        Err(e) => Err(e),
        Ok(pages) => if pages.len() == 0 {
            Err(TuiErrorView::InvalidPageRange { input: "No valid pages specified"@ })
        } else {
            Ok(pages)
        },
    }
}

impl AppView {
    /// The state with `pages` as the pages to delete.
    pub open spec fn with_delete_pages(self, pages: Seq<char>) -> AppView {
        AppView {
            delete_config: DeleteConfigView { pages_to_delete: pages, ..self.delete_config },
            ..self
        }
    }

    /// The state with the output file of the deletion named `name`.
    pub open spec fn with_delete_output(self, name: Seq<char>) -> AppView {
        AppView {
            delete_config: DeleteConfigView { output_filename: name, ..self.delete_config },
            ..self
        }
    }

    /// The state in which the pages to delete are, or are not, being
    /// edited.
    pub open spec fn editing_delete_pages(self, editing: bool) -> AppView {
        AppView {
            delete_config: DeleteConfigView { editing_pages: editing, ..self.delete_config },
            ..self
        }
    }

    /// The state in which the output file of the deletion is, or is not,
    /// being edited.
    pub open spec fn editing_delete_output(self, editing: bool) -> AppView {
        AppView {
            delete_config: DeleteConfigView { editing_output: editing, ..self.delete_config },
            ..self
        }
    }

    /// The state after the pages to delete were looked at: their fault is
    /// shown, or no message where they have none.
    pub open spec fn delete_pages_checked(self) -> AppView {
        match pages_named(self.delete_config.pages_to_delete) {
            Ok(_) => self.without_message(),
            Err(e) => self.with_error(tui_error_text(e)),
        }
    }

    /// What keeps a deletion from being started, if anything does.
    pub open spec fn delete_obstacle(self) -> Option<Seq<char>> {
        if self.file_state.selected_files.len() == 0 {
            Some("No file selected"@)
        } else if self.delete_config.pages_to_delete.len() == 0 {
            Some("Please specify pages to delete"@)
        } else if self.delete_config.output_filename.len() == 0 {
            Some("Output filename cannot be empty"@)
        } else {
            match pages_named(self.delete_config.pages_to_delete) {
                Ok(_) => None,
                Err(e) => Some(tui_error_text(e)),
            }
        }
    }
}

/// Whether a key on the deletion screen is dealt with by the screen
/// itself, not by one of its input lines or by a message shown.
pub open spec fn delete_screen_gets(app: AppView, key: Key) -> bool {
    &&& !(app.ui_state.error_message() is Some && key != Key::Esc)
    &&& !app.delete_config.editing_pages
    &&& !app.delete_config.editing_output
}

/// What a key does on the deletion screen. While an error is shown, every
/// key but Esc only takes it away. While the pages or the output file are
/// edited, the keys go into that text, and the pages are looked at when
/// their editing ends. Else `p` and Tab start editing, Enter starts the
/// deletion unless something keeps it from starting, and Esc leads back to
/// the files.
pub open spec fn delete_config_step(app: AppView, key: Key) -> AppView {
    if app.ui_state.error_message() is Some && key != Key::Esc {
        app.without_message()
    } else if app.delete_config.editing_pages {
        match key {
            Key::Char(c) => app.with_delete_pages(app.delete_config.pages_to_delete.push(c)),
            Key::Backspace => app.with_delete_pages(
                without_last(app.delete_config.pages_to_delete),
            ),
            Key::Enter => delete_pages_entered(app),
            Key::Tab => delete_pages_entered(app),
            Key::Esc => app.editing_delete_pages(false),
            _ => app,
        }
    } else if app.delete_config.editing_output {
        match key {
            Key::Char(c) => app.with_delete_output(app.delete_config.output_filename.push(c)),
            Key::Backspace => app.with_delete_output(
                without_last(app.delete_config.output_filename),
            ),
            Key::Enter => delete_output_entered(app),
            Key::Tab => delete_output_entered(app),
            Key::Esc => app.editing_delete_output(false),
            _ => app,
        }
    } else {
        match key {
            Key::Char(c) => if c == 'p' || c == 'P' {
                app.editing_delete_pages(true)
            } else {
                app
            },
            Key::Tab => app.editing_delete_output(true),
            Key::Enter => match app.delete_obstacle() {
                Some(text) => app.with_error(text),
                None => app,
            },
            Key::Esc => app.on_screen(CurrentScreen::FileSelection),
            _ => app,
        }
    }
}

/// The state after the editing of the pages to delete has ended.
pub open spec fn delete_pages_entered(app: AppView) -> AppView {
    if app.delete_config.pages_to_delete.len() > 0 {
        app.editing_delete_pages(false).delete_pages_checked()
    } else {
        app.editing_delete_pages(false)
    }
}

/// The state after the editing of the output file has ended.
pub open spec fn delete_output_entered(app: AppView) -> AppView {
    app.with_delete_output(
        finished_filename(app.delete_config.output_filename, "output_deleted_pages.pdf"@),
    ).editing_delete_output(false)
}

/// Whether `action` is what a key on the deletion screen asks for: the
/// deletion of the pages named, in ascending order and each once, where
/// Enter is pressed and nothing keeps the deletion from starting; else
/// nothing.
pub open spec fn delete_config_asks(app: AppView, key: Key, action: ActionView) -> bool {
    if delete_screen_gets(app, key) && key == Key::Enter && app.delete_obstacle() is None {
        action matches ActionView::Delete(pages) && pages_named(
            app.delete_config.pages_to_delete,
        ) matches Ok(named) && is_normalized(pages, named)
    } else {
        action == ActionView::Nothing
    }
}

/// Deals with a key on the deletion screen, and says whether pages are to
/// be deleted now.
pub fn handle_delete_config_input(key: Key, app: &mut App) -> (action: Action)
    ensures
        final(app)@ == delete_config_step(old(app)@, key),
        delete_config_asks(old(app)@, key, action@),
{
    if app.ui_state.get_error_message().is_some() && !is_esc(key) {
        app.ui_state.clear_message();
        return Action::Nothing;
    }
    if app.delete_config.editing_pages {
        match key {
            Key::Char(c) => {
                app.delete_config.pages_to_delete.push(c);
            },
            Key::Backspace => {
                app.delete_config.pages_to_delete.pop();
            },
            Key::Enter | Key::Tab => {
                app.delete_config.editing_pages = false;
                if !app.delete_config.pages_to_delete.as_str().is_empty() {
                    match validate_page_ranges(app.delete_config.pages_to_delete.as_str()) {
                        Ok(_) => {
                            app.ui_state.clear_message();
                        },
                        Err(e) => {
                            app.set_error(e.message());
                        },
                    }
                }
            },
            Key::Esc => {
                app.delete_config.editing_pages = false;
            },
            _ => {},
        }
        return Action::Nothing;
    }
    if app.delete_config.editing_output {
        match key {
            Key::Char(c) => {
                app.delete_config.output_filename.push(c);
            },
            Key::Backspace => {
                app.delete_config.output_filename.pop();
            },
            Key::Enter | Key::Tab => {
                app.delete_config.editing_output = false;
                finish_filename(
                    &mut app.delete_config.output_filename,
                    "output_deleted_pages.pdf",
                );
            },
            Key::Esc => {
                app.delete_config.editing_output = false;
            },
            _ => {},
        }
        return Action::Nothing;
    }
    match key {
        Key::Char(c) => {
            if c == 'p' || c == 'P' {
                app.delete_config.editing_pages = true;
            }
            Action::Nothing
        },
        Key::Tab => {
            app.delete_config.editing_output = true;
            Action::Nothing
        },
        Key::Enter => {
            if app.files_is_empty() {
                app.set_error(String::from_str("No file selected"));
                Action::Nothing
            } else if app.delete_config.pages_to_delete.as_str().is_empty() {
                app.set_error(String::from_str("Please specify pages to delete"));
                Action::Nothing
            } else if app.delete_config.output_filename.as_str().is_empty() {
                app.set_error(String::from_str("Output filename cannot be empty"));
                Action::Nothing
            } else {
                match validate_page_ranges(app.delete_config.pages_to_delete.as_str()) {
                    Ok(pages) => Action::Delete(pages),
                    Err(e) => {
                        app.set_error(e.message());
                        Action::Nothing
                    },
                }
            }
        },
        Key::Esc => {
            app.current_screen = CurrentScreen::FileSelection;
            Action::Nothing
        },
        _ => Action::Nothing,
    }
}

/// The first of the texts; nothing where there is none.
pub open spec fn first_text(texts: Seq<Seq<char>>) -> Seq<char> {
    if texts.len() > 0 {
        texts[0]
    } else {
        Seq::empty()
    }
}

/// What is shown when a deletion has ended: which pages were deleted from
/// which file into which file, or why it failed. Pages that name none are
/// reported as such, whatever the outcome.
pub open spec fn delete_performed(app: AppView, outcome: Result<(), Seq<char>>) -> AppView {
    (match pages_named(app.delete_config.pages_to_delete) {
        Ok(_) => match outcome {
            Ok(_) => app.with_success(
                "✅ Successfully deleted pages "@ + app.delete_config.pages_to_delete + " from '"@
                    + first_text(app.file_state.selected_files) + "' and saved to '"@
                    + app.delete_config.output_filename + "'"@,
            ),
            Err(e) => app.with_error("Failed to delete pages: "@ + e),
        },
        Err(e) => app.with_error(tui_error_text(e)),
    }).on_screen(CurrentScreen::Result)
}

/// Takes note of how the deletion ended, and shows the result screen.
pub fn perform_delete(app: &mut App, outcome: Result<(), String>)
    ensures
        final(app)@ == delete_performed(old(app)@, outcome_view(outcome)),
{
    match validate_page_ranges(app.delete_config.pages_to_delete.as_str()) {
        Ok(_) => {
            match outcome {
                Ok(_) => {
                    let mut message = String::from_str("✅ Successfully deleted pages ");
                    message.append(app.delete_config.pages_to_delete.as_str());
                    message.append(" from '");
                    if app.files_len() > 0 {
                        message.append(app.selected_files()[0].as_str());
                    } else {
                        assert(message@ + Seq::<char>::empty() == message@);
                    }
                    message.append("' and saved to '");
                    message.append(app.delete_config.output_filename.as_str());
                    message.append("'");
                    app.set_success(message);
                },
                Err(e) => {
                    let mut message = String::from_str("Failed to delete pages: ");
                    message.append(e.as_str());
                    app.set_error(message);
                },
            }
        },
        Err(e) => {
            app.set_error(e.message());
        },
    }
    app.current_screen = CurrentScreen::Result;
}

} // verus!
