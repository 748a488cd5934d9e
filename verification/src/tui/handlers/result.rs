//! The screen that shows how an operation ended.

use crate::tui::app::{App, AppView};
use crate::tui::keys::Key;
use crate::tui::state::CurrentScreen;
use vstd::prelude::*;

verus! {

/// What a key does on the result screen: Esc, Enter and the space bar
/// lead back to the main screen.
pub open spec fn result_step(app: AppView, key: Key) -> AppView {
    match key {
        Key::Esc => app.on_screen(CurrentScreen::Main),
        Key::Enter => app.on_screen(CurrentScreen::Main),
        Key::Char(c) => if c == ' ' {
            app.on_screen(CurrentScreen::Main)
        } else {
            app
        },
        _ => app,
    }
}

/// Deals with a key on the result screen.
pub fn handle_result_input(key: Key, app: &mut App)
    ensures
        final(app)@ == result_step(old(app)@, key),
{
    match key {
        Key::Esc | Key::Enter => {
            app.current_screen = CurrentScreen::Main;
        },
        Key::Char(c) => {
            if c == ' ' {
                app.current_screen = CurrentScreen::Main;
            }
        },
        _ => {},
    }
}

} // verus!
