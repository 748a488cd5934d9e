//! The main menu.

use crate::tui::app::{App, AppView};
use crate::tui::keys::Key;
use crate::tui::state::ui_state::UiStateView;
use crate::tui::state::{CurrentScreen, OperationMode};
use vstd::prelude::*;

verus! {

/// The place of the last entry of the menu; the first has the place 0.
pub const LAST_MENU_ITEM: usize = 4;

impl AppView {
    /// The state with the menu cursor at `index`.
    pub open spec fn with_menu_index(self, index: usize) -> AppView {
        AppView { ui_state: UiStateView { menu_mode_index: index, ..self.ui_state }, ..self }
    }

    /// The state in which an operation has been chosen and its files are
    /// to be selected.
    pub open spec fn selecting_for(self, mode: OperationMode) -> AppView {
        AppView { operation_mode: mode, current_screen: CurrentScreen::FileSelection, ..self }
    }
}

/// What the entry of the menu at `index` does when it is chosen.
pub open spec fn menu_choice(app: AppView, index: usize) -> AppView {
    if index == 0 {
        AppView::initial().selecting_for(OperationMode::Merge)
    } else if index == 1 {
        AppView::initial().selecting_for(OperationMode::Delete)
    } else if index == 2 {
        AppView::initial().selecting_for(OperationMode::Split)
    } else if index == 3 {
        app.on_screen(CurrentScreen::Help)
    } else if index == 4 {
        app.on_screen(CurrentScreen::Exiting)
    } else {
        app
    }
}

/// What a key does on the main screen. The digits choose an operation
/// directly, the arrows move the cursor round the menu, Enter chooses the
/// entry under the cursor, and `q` or Esc lead to the way out.
pub open spec fn main_step(app: AppView, key: Key) -> AppView {
    match key {
        Key::Char(c) => if c == 'q' || c == 'Q' {
            app.on_screen(CurrentScreen::Exiting)
        } else if c == '1' {
            AppView::initial().with_menu_index(0).selecting_for(OperationMode::Merge)
        } else if c == '2' {
            AppView::initial().with_menu_index(1).selecting_for(OperationMode::Delete)
        } else if c == '3' {
            app.with_menu_index(3).selecting_for(OperationMode::Split)
        } else if c == '4' {
            app.with_menu_index(2).on_screen(CurrentScreen::Help)
        } else {
            app
        },
        Key::Up => if app.ui_state.menu_mode_index > 0 {
            app.with_menu_index((app.ui_state.menu_mode_index - 1) as usize)
        } else {
            app.with_menu_index(LAST_MENU_ITEM)
        },
        Key::Down => if app.ui_state.menu_mode_index < LAST_MENU_ITEM {
            app.with_menu_index((app.ui_state.menu_mode_index + 1) as usize)
        } else {
            app.with_menu_index(0)
        },
        Key::Enter => menu_choice(app, app.ui_state.menu_mode_index),
        Key::Esc => app.on_screen(CurrentScreen::Exiting),
        _ => app,
    }
}

/// Deals with a key on the main screen.
pub fn handle_main_input(key: Key, app: &mut App)
    ensures
        final(app)@ == main_step(old(app)@, key),
{
    match key {
        Key::Char(c) => {
            if c == 'q' || c == 'Q' {
                app.current_screen = CurrentScreen::Exiting;
            } else if c == '1' {
                app.reset();
                app.set_menu_mode_index(0);
                app.operation_mode = OperationMode::Merge;
                app.current_screen = CurrentScreen::FileSelection;
            } else if c == '2' {
                app.reset();
                app.set_menu_mode_index(1);
                app.operation_mode = OperationMode::Delete;
                app.current_screen = CurrentScreen::FileSelection;
            } else if c == '3' {
                app.set_menu_mode_index(3);
                app.operation_mode = OperationMode::Split;
                app.current_screen = CurrentScreen::FileSelection;
            } else if c == '4' {
                app.set_menu_mode_index(2);
                app.current_screen = CurrentScreen::Help;
            }
        },
        Key::Up => {
            if app.menu_mode_index() > 0 {
                let index = app.menu_mode_index();
                app.set_menu_mode_index(index - 1);
            } else {
                app.set_menu_mode_index(LAST_MENU_ITEM);
            }
        },
        Key::Down => {
            if app.menu_mode_index() < LAST_MENU_ITEM {
                let index = app.menu_mode_index();
                app.set_menu_mode_index(index + 1);
            } else {
                app.set_menu_mode_index(0);
            }
        },
        Key::Enter => {
            let index = app.menu_mode_index();
            if index == 0 {
                app.reset();
                app.operation_mode = OperationMode::Merge;
                app.current_screen = CurrentScreen::FileSelection;
            } else if index == 1 {
                app.reset();
                app.operation_mode = OperationMode::Delete;
                app.current_screen = CurrentScreen::FileSelection;
            } else if index == 2 {
                app.reset();
                app.operation_mode = OperationMode::Split;
                app.current_screen = CurrentScreen::FileSelection;
            } else if index == 3 {
                app.current_screen = CurrentScreen::Help;
            } else if index == 4 {
                app.current_screen = CurrentScreen::Exiting;
            }
        },
        Key::Esc => {
            app.current_screen = CurrentScreen::Exiting;
        },
        _ => {},
    }
}

} // verus!
