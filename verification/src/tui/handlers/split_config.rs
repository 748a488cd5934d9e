//! The screen on which a split is set up.

use crate::text::{decimal, push_decimal};
use crate::tui::app::{App, AppView};
use crate::tui::handlers::editing::{is_esc, joined, push_joined, without_last};
use crate::tui::handlers::{Action, ActionView};
use crate::tui::keys::Key;
use crate::tui::state::config_state::SplitConfigView;
use crate::tui::state::CurrentScreen;
use vstd::prelude::*;

verus! {

impl AppView {
    /// The state with `segments` as the segments of the split.
    pub open spec fn with_segments(self, segments: Seq<char>) -> AppView {
        AppView { split_config: SplitConfigView { segments, ..self.split_config }, ..self }
    }

    /// The state with `prefix` as the prefix of the output files.
    pub open spec fn with_prefix(self, prefix: Seq<char>) -> AppView {
        AppView {
            split_config: SplitConfigView { output_prefix: prefix, ..self.split_config },
            ..self
        }
    }

    /// The state in which the segments are, or are not, being edited.
    pub open spec fn editing_segments(self, editing: bool) -> AppView {
        AppView {
            split_config: SplitConfigView { editing_segments: editing, ..self.split_config },
            ..self
        }
    }

    /// The state in which the prefix is, or is not, being edited.
    pub open spec fn editing_prefix(self, editing: bool) -> AppView {
        AppView {
            split_config: SplitConfigView { editing_prefix: editing, ..self.split_config },
            ..self
        }
    }

    /// The state after the kind of segments was changed: named ones become
    /// plain and plain ones named, and what was entered is gone.
    pub open spec fn other_kind_of_segments(self) -> AppView {
        AppView {
            split_config: SplitConfigView {
                use_named_segments: !self.split_config.use_named_segments,
                segments: Seq::empty(),
                ..self.split_config
            },
            ..self
        }
    }

    /// What keeps a split from being started, if anything does.
    pub open spec fn split_obstacle(self) -> Option<Seq<char>> {
        if self.file_state.selected_files.len() == 0 {
            Some("No file selected"@)
        } else if self.split_config.segments.len() == 0 {
            Some("Please specify page segments"@)
        } else if self.split_config.output_prefix.len() == 0 {
            Some("Output prefix cannot be empty"@)
        } else {
            None
        }
    }
}

/// The segments that stand for segments not entered.
pub open spec fn default_segments(named: bool) -> Seq<char> {
    if named {
        "intro:1-3,chapter1:4-10,conclusion:11"@
    } else {
        "1-3,5,7-9"@
    }
}

/// The state after the editing of the segments has ended.
pub open spec fn segments_entered(app: AppView) -> AppView {
    if app.split_config.segments.len() == 0 {
        app.with_segments(default_segments(app.split_config.use_named_segments)).editing_segments(
            false,
        )
    } else {
        app.editing_segments(false)
    }
}

/// The state after the editing of the prefix has ended.
pub open spec fn prefix_entered(app: AppView) -> AppView {
    if app.split_config.output_prefix.len() == 0 {
        app.with_prefix("split_output"@).editing_prefix(false)
    } else {
        app.editing_prefix(false)
    }
}

/// What a key does on the split screen. While an error is shown, every
/// key but Esc only takes it away. While the segments or the prefix are
/// edited, the keys go into that text. Else `s` and `p` start editing,
/// the space bar changes the kind of segments, Enter starts the split
/// unless something keeps it from starting, and Esc leads back to the
/// files.
pub open spec fn split_config_step(app: AppView, key: Key) -> AppView {
    if app.ui_state.error_message() is Some && key != Key::Esc {
        app.without_message()
    } else if app.split_config.editing_segments {
        match key {
            Key::Char(c) => app.with_segments(app.split_config.segments.push(c)),
            Key::Backspace => app.with_segments(without_last(app.split_config.segments)),
            Key::Enter => segments_entered(app),
            Key::Tab => segments_entered(app),
            Key::Esc => app.editing_segments(false),
            _ => app,
        }
    } else if app.split_config.editing_prefix {
        match key {
            Key::Char(c) => app.with_prefix(app.split_config.output_prefix.push(c)),
            Key::Backspace => app.with_prefix(without_last(app.split_config.output_prefix)),
            Key::Enter => prefix_entered(app),
            Key::Tab => prefix_entered(app),
            Key::Esc => app.editing_prefix(false),
            _ => app,
        }
    } else {
        match key {
            Key::Char(c) => if c == 's' || c == 'S' {
                app.editing_segments(true)
            } else if c == ' ' {
                app.other_kind_of_segments()
            } else if c == 'p' || c == 'P' {
                app.editing_prefix(true)
            } else {
                app
            },
            Key::Enter => match app.split_obstacle() {
                Some(text) => app.with_error(text),
                None => app,
            },
            Key::Esc => app.on_screen(CurrentScreen::FileSelection),
            _ => app,
        }
    }
}

/// Whether a key on the split screen starts the split.
pub open spec fn split_config_starts(app: AppView, key: Key) -> bool {
    &&& !(app.ui_state.error_message() is Some && key != Key::Esc)
    &&& !app.split_config.editing_segments
    &&& !app.split_config.editing_prefix
    &&& key == Key::Enter
    &&& app.split_obstacle() is None
}

/// Deals with a key on the split screen, and says whether the split is to
/// be made now.
pub fn handle_split_config_input(key: Key, app: &mut App) -> (action: Action)
    ensures
        final(app)@ == split_config_step(old(app)@, key),
        action@ == if split_config_starts(old(app)@, key) {
            ActionView::Split
        } else {
            ActionView::Nothing
        },
{
    if app.ui_state.get_error_message().is_some() && !is_esc(key) {
        app.ui_state.clear_message();
        return Action::Nothing;
    }
    if app.split_config.editing_segments {
        match key {
            Key::Char(c) => {
                app.split_config.segments.push(c);
            },
            Key::Backspace => {
                app.split_config.segments.pop();
            },
            Key::Enter | Key::Tab => {
                app.split_config.editing_segments = false;
                if app.split_config.segments.as_str().is_empty() {
                    if app.split_config.use_named_segments {
                        app.split_config.segments = String::from_str(
                            "intro:1-3,chapter1:4-10,conclusion:11",
                        );
                    } else {
                        app.split_config.segments = String::from_str("1-3,5,7-9");
                    }
                }
            },
            Key::Esc => {
                app.split_config.editing_segments = false;
            },
            _ => {},
        }
        return Action::Nothing;
    }
    if app.split_config.editing_prefix {
        match key {
            Key::Char(c) => {
                app.split_config.output_prefix.push(c);
            },
            Key::Backspace => {
                app.split_config.output_prefix.pop();
            },
            Key::Enter | Key::Tab => {
                app.split_config.editing_prefix = false;
                if app.split_config.output_prefix.as_str().is_empty() {
                    app.split_config.output_prefix = String::from_str("split_output");
                }
            },
            Key::Esc => {
                app.split_config.editing_prefix = false;
            },
            _ => {},
        }
        return Action::Nothing;
    }
    match key {
        Key::Char(c) => {
            if c == 's' || c == 'S' {
                app.split_config.editing_segments = true;
            } else if c == ' ' {
                app.split_config.use_named_segments = !app.split_config.use_named_segments;
                app.split_config.segments.clear();
            } else if c == 'p' || c == 'P' {
                app.split_config.editing_prefix = true;
            }
            Action::Nothing
        },
        Key::Enter => {
            if app.files_is_empty() {
                app.set_error(String::from_str("No file selected"));
                Action::Nothing
            } else if app.split_config.segments.as_str().is_empty() {
                app.set_error(String::from_str("Please specify page segments"));
                Action::Nothing
            } else if app.split_config.output_prefix.as_str().is_empty() {
                app.set_error(String::from_str("Output prefix cannot be empty"));
                Action::Nothing
            } else {
                Action::Split
            }
        },
        Key::Esc => {
            app.current_screen = CurrentScreen::FileSelection;
            Action::Nothing
        },
        _ => Action::Nothing,
    }
}

/// The outcome of a split, with its texts as character sequences.
pub open spec fn files_view(outcome: Result<Vec<String>, String>) -> Result<
    Seq<Seq<char>>,
    Seq<char>,
> {
    match outcome {
        Ok(files) => Ok(files@.map_values(|f: String| f@)),
        Err(e) => Err(e@),
    }
}

/// What is shown when a split has ended: how many files were written, and
/// which, or why it failed.
pub open spec fn split_performed(
    app: AppView,
    outcome: Result<Seq<Seq<char>>, Seq<char>>,
) -> AppView {
    match outcome {
        Ok(files) => app.with_success(
            "✅ Successfully split PDF into "@ + decimal(files.len()) + " files: "@ + joined(
                files,
                ", "@,
                files.len(),
            ),
        ).on_screen(CurrentScreen::Result),
        Err(e) => app.with_error("Failed to split PDF: "@ + e).on_screen(CurrentScreen::Result),
    }
}

/// Takes note of how the split ended, and shows the result screen.
pub fn perform_split(app: &mut App, outcome: Result<Vec<String>, String>)
    ensures
        final(app)@ == split_performed(old(app)@, files_view(outcome)),
{
    match outcome {
        Ok(output_files) => {
            let mut message = String::from_str("✅ Successfully split PDF into ");
            push_decimal(&mut message, output_files.len() as u64);
            message.append(" files: ");
            push_joined(&mut message, &output_files, ", ");
            app.set_success(message);
        },
        Err(e) => {
            let mut message = String::from_str("Failed to split PDF: ");
            message.append(e.as_str());
            app.set_error(message);
        },
    }
    app.current_screen = CurrentScreen::Result;
}

} // verus!
