//! Which screen deals with a key.

use crate::tui::app::{App, AppView};
use crate::tui::handlers::delete_config::{
    delete_config_asks, delete_config_step, handle_delete_config_input,
};
use crate::tui::handlers::file_selection::{file_selection_input, file_selection_step};
use crate::tui::handlers::main_handler::{handle_main_input, main_step};
use crate::tui::handlers::merge_config::{
    handle_merge_config_input, merge_config_starts, merge_config_step,
};
use crate::tui::handlers::result::{handle_result_input, result_step};
use crate::tui::handlers::split_config::{
    handle_split_config_input, split_config_starts, split_config_step,
};
use crate::tui::handlers::{Action, ActionView};
use crate::tui::keys::{Key, Modifiers};
use crate::tui::state::CurrentScreen;
use crate::tui::utils::{is_pdf_file, FileProbe};
use vstd::prelude::*;

verus! {

/// Whether the key says yes to leaving.
pub open spec fn says_yes(key: Key) -> bool {
    key matches Key::Char(c) && (c == 'y' || c == 'Y')
}

/// What a key does on the way out: `n` and Esc lead back to the main
/// screen.
pub open spec fn exiting_step(app: AppView, key: Key) -> AppView {
    match key {
        Key::Char(c) => if c == 'n' || c == 'N' {
            app.on_screen(CurrentScreen::Main)
        } else {
            app
        },
        Key::Esc => app.on_screen(CurrentScreen::Main),
        _ => app,
    }
}

/// What a key does on the help screen: Esc leads back to the main screen.
pub open spec fn help_step(app: AppView, key: Key) -> AppView {
    if key == Key::Esc {
        app.on_screen(CurrentScreen::Main)
    } else {
        app
    }
}

/// What a key does to the front end: what it does on the screen that is
/// shown.
pub open spec fn event_step(
    app: AppView,
    key: Key,
    modifiers: Modifiers,
    probe: FileProbe,
    is_pdf: bool,
) -> AppView {
    match app.current_screen {
        CurrentScreen::Main => main_step(app, key),
        CurrentScreen::Exiting => exiting_step(app, key),
        CurrentScreen::FileSelection => file_selection_step(app, key, modifiers, probe, is_pdf),
        CurrentScreen::MergeConfig => merge_config_step(app, key),
        CurrentScreen::DeleteConfig => delete_config_step(app, key),
        CurrentScreen::SplitConfig => split_config_step(app, key),
        CurrentScreen::Result => result_step(app, key),
        CurrentScreen::Help => help_step(app, key),
    }
}

/// Whether `action` is what a key asks of the front end: to end on a yes
/// on the way out, to start the operation where its screen says so, and
/// nothing else.
pub open spec fn event_asks(app: AppView, key: Key, action: ActionView) -> bool {
    match app.current_screen {
        CurrentScreen::Exiting => action == if says_yes(key) {
            ActionView::Quit
        } else {
            ActionView::Nothing
        },
        CurrentScreen::MergeConfig => action == if merge_config_starts(app, key) {
            ActionView::Merge
        } else {
            ActionView::Nothing
        },
        CurrentScreen::DeleteConfig => delete_config_asks(app, key, action),
        CurrentScreen::SplitConfig => action == if split_config_starts(app, key) {
            ActionView::Split
        } else {
            ActionView::Nothing
        },
        _ => action == ActionView::Nothing,
    }
}

/// Deals with a key on the screen that is shown, given what was found out
/// about the path typed and whether it counts as a PDF file, and says what
/// the front end is to do next.
pub fn key_event(key: Key, modifiers: Modifiers, app: &mut App, probe: FileProbe, is_pdf: bool) -> (action:
    Action)
    ensures
        final(app)@ == event_step(old(app)@, key, modifiers, probe, is_pdf),
        event_asks(old(app)@, key, action@),
{
    match app.current_screen {
        CurrentScreen::Main => {
            handle_main_input(key, app);
            Action::Nothing
        },
        CurrentScreen::Exiting => {
            match key {
                Key::Char(c) => {
                    if c == 'y' || c == 'Y' {
                        Action::Quit
                    } else {
                        if c == 'n' || c == 'N' {
                            app.current_screen = CurrentScreen::Main;
                        }
                        Action::Nothing
                    }
                },
                Key::Esc => {
                    app.current_screen = CurrentScreen::Main;
                    Action::Nothing
                },
                _ => Action::Nothing,
            }
        },
        CurrentScreen::FileSelection => {
            file_selection_input(key, modifiers, app, probe, is_pdf);
            Action::Nothing
        },
        CurrentScreen::MergeConfig => handle_merge_config_input(key, app),
        CurrentScreen::DeleteConfig => handle_delete_config_input(key, app),
        CurrentScreen::SplitConfig => handle_split_config_input(key, app),
        CurrentScreen::Result => {
            handle_result_input(key, app);
            Action::Nothing
        },
        CurrentScreen::Help => {
            match key {
                Key::Esc => {
                    app.current_screen = CurrentScreen::Main;
                },
                _ => {},
            }
            Action::Nothing
        },
    }
}

/// Whether the screen that is shown will look at what was found out about
/// the path typed when it deals with `key`: a path is entered on the file
/// screen.
pub open spec fn probe_is_used(app: AppView, key: Key) -> bool {
    &&& app.current_screen == CurrentScreen::FileSelection
    &&& !(app.ui_state.error_message() is Some && key != Key::Esc)
    &&& app.ui_state.editing_input
    &&& key == Key::Enter
    &&& app.ui_state.input_text().len() > 0
}

/// Says whether the path typed has to be probed before `key` is dealt
/// with.
pub fn wants_probe(app: &App, key: Key) -> (b: bool)
    ensures
        b == probe_is_used(app@, key),
{
    let on_files = match app.current_screen {
        CurrentScreen::FileSelection => true,
        _ => false,
    };
    let enter = match key {
        Key::Enter => true,
        _ => false,
    };
    on_files && enter && app.ui_state.get_error_message().is_none() && app.ui_state.editing_input
        && !app.ui_state.get_input_text().is_empty()
}

/// Where the probe is not used, it makes no difference.
pub proof fn lemma_probe_unused(
    app: AppView,
    key: Key,
    modifiers: Modifiers,
    probe: FileProbe,
    is_pdf: bool,
    other: FileProbe,
    other_is_pdf: bool,
)
    requires
        !probe_is_used(app, key),
    ensures
        event_step(app, key, modifiers, probe, is_pdf) == event_step(
            app,
            key,
            modifiers,
            other,
            other_is_pdf,
        ),
{
}

/// Deals with a key on the screen that is shown, given what was found out
/// about the path typed, and says what the front end is to do next.
/// Whether the file at that path counts as a PDF file is decided here; a
/// file that is not there or does not load never does.
pub fn handle_key_event(key: Key, modifiers: Modifiers, app: &mut App, probe: FileProbe) -> (action:
    Action)
    ensures
        final(app)@ == event_step(old(app)@, key, modifiers, probe, true) || final(app)@
            == event_step(old(app)@, key, modifiers, probe, false),
        !(probe.exists && probe.loads) ==> final(app)@ == event_step(
            old(app)@,
            key,
            modifiers,
            probe,
            false,
        ),
        event_asks(old(app)@, key, action@),
{
    let is_pdf = is_pdf_file(app.ui_state.get_input_text(), probe);
    key_event(key, modifiers, app, probe, is_pdf)
}

} // verus!
