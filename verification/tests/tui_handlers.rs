use pdf_cutter::tui::app::App;
use pdf_cutter::tui::handlers::delete_config::perform_delete;
use pdf_cutter::tui::handlers::events::{key_event, wants_probe};
use pdf_cutter::tui::handlers::merge_config::perform_merge;
use pdf_cutter::tui::handlers::split_config::perform_split;
use pdf_cutter::tui::handlers::{
    handle_delete_config_input, handle_file_selection_input, handle_key_event, handle_main_input,
    handle_merge_config_input, handle_result_input, handle_split_config_input, Action,
};
use pdf_cutter::tui::keys::{Key, Modifiers};
use pdf_cutter::tui::state::{CurrentScreen, OperationMode};
use pdf_cutter::tui::utils::FileProbe;

const FOUND: FileProbe = FileProbe { exists: true, loads: true };
const MISSING: FileProbe = FileProbe { exists: false, loads: false };

fn type_text(app: &mut App, text: &str, mut press: impl FnMut(Key, &mut App)) {
    for c in text.chars() {
        press(Key::Char(c), app);
    }
}

#[test]
fn test_handle_main_input() {
    let mut app = App::new();

    // Test navigation
    assert_eq!(app.menu_mode_index(), 0);
    handle_main_input(Key::Down, &mut app);
    assert_eq!(app.menu_mode_index(), 1);

    handle_main_input(Key::Up, &mut app);
    assert_eq!(app.menu_mode_index(), 0);

    // Test wrapping
    handle_main_input(Key::Up, &mut app);
    assert_eq!(app.menu_mode_index(), 4);

    // Test entering merge mode
    app.set_menu_mode_index(0);
    handle_main_input(Key::Enter, &mut app);
    assert_eq!(app.operation_mode, OperationMode::Merge);
    assert_eq!(app.current_screen, CurrentScreen::FileSelection);

    // Test entering delete mode
    app.reset();
    app.set_menu_mode_index(1);
    handle_main_input(Key::Enter, &mut app);
    assert_eq!(app.operation_mode, OperationMode::Delete);
    assert_eq!(app.current_screen, CurrentScreen::FileSelection);

    // Test help screen
    app.reset();
    app.set_menu_mode_index(3);
    handle_main_input(Key::Enter, &mut app);
    assert_eq!(app.current_screen, CurrentScreen::Help);

    // Test exit
    app.reset();
    handle_main_input(Key::Char('q'), &mut app);
    assert_eq!(app.current_screen, CurrentScreen::Exiting);
}

#[test]
fn test_handle_file_selection_input() {
    let mut app = App::new();
    app.operation_mode = OperationMode::Merge;

    // Start editing input
    handle_file_selection_input(Key::Tab, Modifiers::Plain, &mut app, MISSING);
    assert!(app.editing_input());

    // Test typing characters
    handle_file_selection_input(Key::Char('t'), Modifiers::Plain, &mut app, MISSING);
    handle_file_selection_input(Key::Char('e'), Modifiers::Plain, &mut app, MISSING);
    handle_file_selection_input(Key::Char('s'), Modifiers::Plain, &mut app, MISSING);
    handle_file_selection_input(Key::Char('t'), Modifiers::Plain, &mut app, MISSING);
    assert_eq!(app.current_input(), Some("test"));

    // Test backspace
    handle_file_selection_input(Key::Backspace, Modifiers::Plain, &mut app, MISSING);
    assert_eq!(app.current_input(), Some("tes"));

    // Test with invalid file (should set error and exit edit mode)
    handle_file_selection_input(Key::Enter, Modifiers::Plain, &mut app, MISSING);
    assert!(app.error_message().is_some());
    assert!(!app.editing_input()); // Should exit edit mode even with error

    // Test with valid PDF file (if it exists)
    app.ui_state.clear_message();
    app.set_editing_input(true); // Re-enter edit mode
    if std::path::Path::new("tests/tests_pdf/a.pdf").exists() {
        app.set_current_input(Some("tests/tests_pdf/a.pdf".to_string()));
        handle_file_selection_input(Key::Enter, Modifiers::Plain, &mut app, FOUND);
        assert_eq!(app.selected_files().len(), 1);
        assert_eq!(app.selected_files()[0], "tests/tests_pdf/a.pdf");
        assert!(app.error_message().is_none());
        assert!(!app.editing_input()); // Should exit edit mode after successful add
    } else {
        // If no test PDF exists, just add a mock PDF to test file removal
        app.selected_files_mut().push("mock_file.pdf".to_string());
        app.set_editing_input(false); // Make sure we're not in edit mode
    }

    // Test file removal with Backspace (not Left)
    if !app.selected_files().is_empty() {
        app.set_selected_file_index(0);
        handle_file_selection_input(Key::Backspace, Modifiers::Plain, &mut app, MISSING);
        assert_eq!(app.selected_files().len(), 0);
    }

    // Test navigation to next screen with insufficient files for merge
    app.selected_files_mut().push("file1.pdf".to_string());
    handle_file_selection_input(Key::Right, Modifiers::Plain, &mut app, MISSING);
    assert!(app.error_message().is_some()); // Not enough files for merge

    // Test with enough files for merge
    app.ui_state.clear_message();
    app.selected_files_mut().push("file2.pdf".to_string());
    handle_file_selection_input(Key::Right, Modifiers::Plain, &mut app, MISSING);
    assert_eq!(app.current_screen, CurrentScreen::MergeConfig);

    app.reset();
    app.operation_mode = OperationMode::Delete;
    handle_file_selection_input(Key::Right, Modifiers::Plain, &mut app, MISSING);
    assert!(app.error_message().is_some()); // Not enough files for delete

    // Test delete mode validation
    app.reset();
    app.operation_mode = OperationMode::Delete;
    app.selected_files_mut().push("file1.pdf".to_string());
    app.selected_files_mut().push("file2.pdf".to_string());
    handle_file_selection_input(Key::Right, Modifiers::Plain, &mut app, MISSING);
    assert!(app.error_message().is_some()); // Too many files for delete
}

#[test]
fn test_handle_merge_config_input() {
    let mut app = App::new();
    app.operation_mode = OperationMode::Merge;
    app.selected_files_mut().push("file1.pdf".to_string());
    app.selected_files_mut().push("file2.pdf".to_string());

    // Test entering edit mode
    handle_merge_config_input(Key::Tab, &mut app);
    assert!(app.merge_config.editing_output);

    // Test typing in edit mode
    handle_merge_config_input(Key::Char('o'), &mut app);
    handle_merge_config_input(Key::Char('u'), &mut app);
    handle_merge_config_input(Key::Char('t'), &mut app);
    assert_eq!(app.merge_config.output_filename, "out");

    // Test exiting edit mode with Enter (should trigger validation)
    handle_merge_config_input(Key::Enter, &mut app);
    assert!(!app.merge_config.editing_output);

    // Test file reordering
    app.merge_config.editing_output = false; // Make sure we're not in edit mode
    app.set_merge_file_index(0);
    handle_merge_config_input(Key::Down, &mut app);
    assert_eq!(app.merge_file_index(), 1);
    assert_eq!(app.selected_files()[0], "file2.pdf");
    assert_eq!(app.selected_files()[1], "file1.pdf");

    // Test merge execution with valid config
    app.merge_config.output_filename = "valid_output.pdf".to_string();
    let action = handle_merge_config_input(Key::Enter, &mut app);
    assert_eq!(action, Action::Merge);
    // The merge is attempted and fails, since the files do not exist
    perform_merge(&mut app, Err("Failed to load PDF 'file2.pdf'".to_string()));
    assert!(app.error_message().is_some());
}

#[test]
fn test_handle_delete_config_input() {
    let mut app = App::new();
    app.operation_mode = OperationMode::Delete;
    app.selected_files_mut().push("sample.pdf".to_string());

    // Test entering pages edit mode
    handle_delete_config_input(Key::Char('p'), &mut app);
    assert!(app.delete_config.editing_pages);

    // Test typing pages
    handle_delete_config_input(Key::Char('1'), &mut app);
    handle_delete_config_input(Key::Char(','), &mut app);
    handle_delete_config_input(Key::Char('3'), &mut app);
    assert_eq!(app.delete_config.pages_to_delete, "1,3");

    // Test exiting pages edit mode
    handle_delete_config_input(Key::Enter, &mut app);
    assert!(!app.delete_config.editing_pages);

    // Test entering output edit mode
    handle_delete_config_input(Key::Tab, &mut app);
    assert!(app.delete_config.editing_output);

    // Test typing output filename
    handle_delete_config_input(Key::Char('o'), &mut app);
    handle_delete_config_input(Key::Char('u'), &mut app);
    handle_delete_config_input(Key::Char('t'), &mut app);
    assert_eq!(app.delete_config.output_filename, "out");

    // Test exiting output edit mode
    handle_delete_config_input(Key::Enter, &mut app);
    assert!(!app.delete_config.editing_output);
    assert_eq!(app.delete_config.output_filename, "out.pdf");

    // Test delete execution
    let action = handle_delete_config_input(Key::Enter, &mut app);
    assert_eq!(action, Action::Delete(vec![1, 3]));
    // The deletion is attempted and fails, since the file does not exist
    perform_delete(&mut app, Err("Failed to load PDF 'sample.pdf'".to_string()));
    assert!(app.error_message().is_some());
}

#[test]
fn test_handle_result_input() {
    let mut app = App::new();
    app.current_screen = CurrentScreen::Result;
    app.set_success("Success!".to_string());

    // Test returning to main menu
    handle_result_input(Key::Enter, &mut app);
    assert_eq!(app.current_screen, CurrentScreen::Main);

    // Test with Esc
    app.current_screen = CurrentScreen::Result;
    handle_result_input(Key::Esc, &mut app);
    assert_eq!(app.current_screen, CurrentScreen::Main);

    // Test with Space
    app.current_screen = CurrentScreen::Result;
    handle_result_input(Key::Char(' '), &mut app);
    assert_eq!(app.current_screen, CurrentScreen::Main);
}

#[test]
fn main_menu_keys() {
    let mut app = App::new();
    app.add_file("kept.pdf".to_string());
    handle_main_input(Key::Char('3'), &mut app);
    assert_eq!(app.operation_mode, OperationMode::Split);
    assert_eq!(app.current_screen, CurrentScreen::FileSelection);
    assert_eq!(app.menu_mode_index(), 3);
    assert_eq!(app.selected_files().len(), 1);

    handle_main_input(Key::Char('1'), &mut app);
    assert_eq!(app.operation_mode, OperationMode::Merge);
    assert_eq!(app.menu_mode_index(), 0);
    assert!(app.selected_files().is_empty());

    handle_main_input(Key::Char('2'), &mut app);
    assert_eq!(app.operation_mode, OperationMode::Delete);
    assert_eq!(app.menu_mode_index(), 1);

    handle_main_input(Key::Char('4'), &mut app);
    assert_eq!(app.current_screen, CurrentScreen::Help);
    assert_eq!(app.menu_mode_index(), 2);

    app.set_menu_mode_index(4);
    handle_main_input(Key::Down, &mut app);
    assert_eq!(app.menu_mode_index(), 0);
    app.set_menu_mode_index(2);
    handle_main_input(Key::Enter, &mut app);
    assert_eq!(app.operation_mode, OperationMode::Split);
    app.set_menu_mode_index(4);
    handle_main_input(Key::Enter, &mut app);
    assert_eq!(app.current_screen, CurrentScreen::Exiting);
    app.current_screen = CurrentScreen::Main;
    app.set_menu_mode_index(9);
    handle_main_input(Key::Enter, &mut app);
    assert_eq!(app.current_screen, CurrentScreen::Main);
    handle_main_input(Key::Down, &mut app);
    assert_eq!(app.menu_mode_index(), 0);
    handle_main_input(Key::Esc, &mut app);
    assert_eq!(app.current_screen, CurrentScreen::Exiting);
    app.current_screen = CurrentScreen::Main;
    handle_main_input(Key::Left, &mut app);
    handle_main_input(Key::Char('x'), &mut app);
    assert_eq!(app.current_screen, CurrentScreen::Main);
}

#[test]
fn a_good_file_is_added() {
    let mut app = App::new();
    app.operation_mode = OperationMode::Merge;
    handle_file_selection_input(Key::Tab, Modifiers::Plain, &mut app, MISSING);
    type_text(&mut app, "docs/a.pdf", |k, a| {
        handle_file_selection_input(k, Modifiers::Shift, a, MISSING)
    });
    handle_file_selection_input(Key::Enter, Modifiers::Plain, &mut app, FOUND);
    assert_eq!(*app.selected_files(), vec!["docs/a.pdf".to_string()]);
    assert_eq!(app.current_input(), Some(""));
    assert!(!app.editing_input());
    assert_eq!(app.error_message(), None);

    handle_file_selection_input(Key::Tab, Modifiers::Plain, &mut app, MISSING);
    type_text(&mut app, "b.txt", |k, a| {
        handle_file_selection_input(k, Modifiers::Plain, a, MISSING)
    });
    handle_file_selection_input(Key::Enter, Modifiers::Plain, &mut app, FOUND);
    assert_eq!(app.error_message(), Some("Invalid PDF file: b.txt"));
    assert_eq!(app.selected_files().len(), 1);
    // any key but Esc only takes the error away
    handle_file_selection_input(Key::Tab, Modifiers::Plain, &mut app, MISSING);
    assert_eq!(app.error_message(), None);
    assert!(!app.editing_input());

    handle_file_selection_input(Key::Tab, Modifiers::Plain, &mut app, MISSING);
    handle_file_selection_input(Key::Enter, Modifiers::Plain, &mut app, FOUND);
    assert!(!app.editing_input());
    assert_eq!(app.error_message(), None);
    handle_file_selection_input(Key::Tab, Modifiers::Plain, &mut app, MISSING);
    handle_file_selection_input(Key::Char('x'), Modifiers::Plain, &mut app, MISSING);
    handle_file_selection_input(Key::Enter, Modifiers::Plain, &mut app, MISSING);
    assert_eq!(app.error_message(), Some("File not found: x"));
}

#[test]
fn files_are_moved_and_removed() {
    let mut app = App::new();
    app.operation_mode = OperationMode::Merge;
    for name in ["a", "b", "c"] {
        app.add_file(name.to_string());
    }
    handle_file_selection_input(Key::Down, Modifiers::Plain, &mut app, MISSING);
    assert_eq!(app.selected_file_index(), 1);
    handle_file_selection_input(Key::Down, Modifiers::Alt, &mut app, MISSING);
    assert_eq!(*app.selected_files(), vec!["a", "c", "b"]);
    assert_eq!(app.selected_file_index(), 2);
    handle_file_selection_input(Key::Down, Modifiers::Alt, &mut app, MISSING);
    handle_file_selection_input(Key::Down, Modifiers::Plain, &mut app, MISSING);
    assert_eq!(app.selected_file_index(), 2);
    handle_file_selection_input(Key::Up, Modifiers::Alt, &mut app, MISSING);
    handle_file_selection_input(Key::Up, Modifiers::Alt, &mut app, MISSING);
    handle_file_selection_input(Key::Up, Modifiers::Alt, &mut app, MISSING);
    assert_eq!(*app.selected_files(), vec!["b", "a", "c"]);
    assert_eq!(app.selected_file_index(), 0);
    handle_file_selection_input(Key::Up, Modifiers::Plain, &mut app, MISSING);
    assert_eq!(app.selected_file_index(), 0);
    handle_file_selection_input(Key::Down, Modifiers::Other, &mut app, MISSING);
    assert_eq!(app.selected_file_index(), 0);
    app.set_selected_file_index(2);
    app.set_merge_file_index(2);
    handle_file_selection_input(Key::Backspace, Modifiers::Plain, &mut app, MISSING);
    assert_eq!(*app.selected_files(), vec!["b", "a"]);
    assert_eq!(app.selected_file_index(), 1);
    assert_eq!(app.merge_file_index(), 1);
    handle_file_selection_input(Key::Esc, Modifiers::Plain, &mut app, MISSING);
    assert_eq!(app.current_screen, CurrentScreen::Main);
}

#[test]
fn one_file_is_enough_for_a_split() {
    let mut app = App::new();
    app.operation_mode = OperationMode::Split;
    app.add_file("a.pdf".to_string());
    handle_file_selection_input(Key::Tab, Modifiers::Plain, &mut app, MISSING);
    assert!(!app.editing_input());
    handle_file_selection_input(Key::Enter, Modifiers::Plain, &mut app, MISSING);
    assert_eq!(app.current_screen, CurrentScreen::SplitConfig);
    app.add_file("b.pdf".to_string());
    handle_file_selection_input(Key::Enter, Modifiers::Plain, &mut app, MISSING);
    assert_eq!(
        app.error_message(),
        Some("Too many files for delete operation (need exactly 1, got 2)")
    );
    app.reset();
    handle_file_selection_input(Key::Right, Modifiers::Plain, &mut app, MISSING);
    assert_eq!(app.current_screen, CurrentScreen::Main);
}

#[test]
fn merge_screen_keys() {
    let mut app = App::new();
    app.add_file("a.pdf".to_string());
    assert_eq!(handle_merge_config_input(Key::Enter, &mut app), Action::Nothing);
    assert_eq!(
        app.error_message(),
        Some("Not enough files for merge (need at least 2, got 1)")
    );
    handle_merge_config_input(Key::Tab, &mut app);
    assert_eq!(app.error_message(), Some("Cannot edit output while there's an error"));
    assert!(!app.merge_config.editing_output);
    handle_merge_config_input(Key::Esc, &mut app);
    assert_eq!(app.current_screen, CurrentScreen::FileSelection);

    app.ui_state.clear_message();
    app.add_file("b.pdf".to_string());
    assert_eq!(handle_merge_config_input(Key::Enter, &mut app), Action::Nothing);
    assert_eq!(app.error_message(), Some("Output filename cannot be empty"));
    app.ui_state.clear_message();
    handle_merge_config_input(Key::Tab, &mut app);
    handle_merge_config_input(Key::Tab, &mut app);
    assert_eq!(app.merge_config.output_filename, "output_merged.pdf");
    handle_merge_config_input(Key::Tab, &mut app);
    handle_merge_config_input(Key::Backspace, &mut app);
    handle_merge_config_input(Key::Esc, &mut app);
    assert_eq!(app.merge_config.output_filename, "output_merged.pd");
    handle_merge_config_input(Key::Tab, &mut app);
    handle_merge_config_input(Key::Enter, &mut app);
    assert_eq!(app.merge_config.output_filename, "output_merged.pd.pdf");
    handle_merge_config_input(Key::Up, &mut app);
    assert_eq!(app.merge_file_index(), 0);
    handle_merge_config_input(Key::Down, &mut app);
    handle_merge_config_input(Key::Down, &mut app);
    assert_eq!(app.merge_file_index(), 1);
    assert_eq!(*app.selected_files(), vec!["b.pdf", "a.pdf"]);
    handle_merge_config_input(Key::Up, &mut app);
    assert_eq!(*app.selected_files(), vec!["a.pdf", "b.pdf"]);
    assert_eq!(handle_merge_config_input(Key::Enter, &mut app), Action::Merge);
    perform_merge(&mut app, Ok(()));
    assert_eq!(
        app.success_message(),
        Some("✅ Successfully merged 2 files into 'output_merged.pd.pdf'")
    );
    assert_eq!(app.current_screen, CurrentScreen::Result);
    perform_merge(&mut app, Err("no".to_string()));
    assert_eq!(app.error_message(), Some("Failed to merge PDFs: no"));
}

#[test]
fn delete_screen_keys() {
    let mut app = App::new();
    assert_eq!(handle_delete_config_input(Key::Enter, &mut app), Action::Nothing);
    assert_eq!(app.error_message(), Some("No file selected"));
    handle_delete_config_input(Key::Char('p'), &mut app);
    assert_eq!(app.error_message(), None);
    assert!(!app.delete_config.editing_pages);
    app.add_file("a.pdf".to_string());
    assert_eq!(handle_delete_config_input(Key::Enter, &mut app), Action::Nothing);
    assert_eq!(app.error_message(), Some("Please specify pages to delete"));
    app.ui_state.clear_message();
    handle_delete_config_input(Key::Char('P'), &mut app);
    type_text(&mut app, "5-3", |k, a| {
        handle_delete_config_input(k, a);
    });
    handle_delete_config_input(Key::Tab, &mut app);
    assert_eq!(
        app.error_message(),
        Some("Invalid page range: Invalid range: 5 > 3 (start must be <= end)")
    );
    handle_delete_config_input(Key::Enter, &mut app);
    assert_eq!(app.error_message(), None);
    assert_eq!(handle_delete_config_input(Key::Enter, &mut app), Action::Nothing);
    assert_eq!(app.error_message(), Some("Output filename cannot be empty"));
    app.ui_state.clear_message();
    handle_delete_config_input(Key::Tab, &mut app);
    handle_delete_config_input(Key::Enter, &mut app);
    assert_eq!(app.delete_config.output_filename, "output_deleted_pages.pdf");
    assert_eq!(handle_delete_config_input(Key::Enter, &mut app), Action::Nothing);
    assert_eq!(
        app.error_message(),
        Some("Invalid page range: Invalid range: 5 > 3 (start must be <= end)")
    );
    app.ui_state.clear_message();
    handle_delete_config_input(Key::Char('p'), &mut app);
    handle_delete_config_input(Key::Backspace, &mut app);
    handle_delete_config_input(Key::Char('7'), &mut app);
    handle_delete_config_input(Key::Char(','), &mut app);
    handle_delete_config_input(Key::Char('2'), &mut app);
    handle_delete_config_input(Key::Esc, &mut app);
    assert_eq!(app.delete_config.pages_to_delete, "5-7,2");
    assert_eq!(
        handle_delete_config_input(Key::Enter, &mut app),
        Action::Delete(vec![2, 5, 6, 7])
    );
    perform_delete(&mut app, Ok(()));
    assert_eq!(
        app.success_message(),
        Some("✅ Successfully deleted pages 5-7,2 from 'a.pdf' and saved to 'output_deleted_pages.pdf'")
    );
    assert_eq!(app.current_screen, CurrentScreen::Result);
    perform_delete(&mut app, Err("Invalid page number: 7. PDF has 3 pages (1-3)".to_string()));
    assert_eq!(
        app.error_message(),
        Some("Failed to delete pages: Invalid page number: 7. PDF has 3 pages (1-3)")
    );
    app.delete_config.pages_to_delete = "x".to_string();
    perform_delete(&mut app, Ok(()));
    assert_eq!(app.error_message(), Some("Invalid page range: Invalid page: x"));
    handle_delete_config_input(Key::Esc, &mut app);
    assert_eq!(app.current_screen, CurrentScreen::FileSelection);
}

#[test]
fn split_screen_keys() {
    let mut app = App::new();
    app.add_file("a.pdf".to_string());
    assert_eq!(handle_split_config_input(Key::Enter, &mut app), Action::Nothing);
    assert_eq!(app.error_message(), Some("Please specify page segments"));
    handle_split_config_input(Key::Char('s'), &mut app);
    assert_eq!(app.error_message(), None);
    handle_split_config_input(Key::Char('S'), &mut app);
    assert!(app.split_config.editing_segments);
    handle_split_config_input(Key::Enter, &mut app);
    assert_eq!(app.split_config.segments, "1-3,5,7-9");
    handle_split_config_input(Key::Char(' '), &mut app);
    assert!(app.split_config.use_named_segments);
    assert_eq!(app.split_config.segments, "");
    handle_split_config_input(Key::Char('s'), &mut app);
    handle_split_config_input(Key::Tab, &mut app);
    assert_eq!(app.split_config.segments, "intro:1-3,chapter1:4-10,conclusion:11");
    handle_split_config_input(Key::Char('s'), &mut app);
    handle_split_config_input(Key::Backspace, &mut app);
    handle_split_config_input(Key::Char('2'), &mut app);
    handle_split_config_input(Key::Esc, &mut app);
    assert_eq!(app.split_config.segments, "intro:1-3,chapter1:4-10,conclusion:12");
    assert_eq!(handle_split_config_input(Key::Enter, &mut app), Action::Nothing);
    assert_eq!(app.error_message(), Some("Output prefix cannot be empty"));
    app.ui_state.clear_message();
    handle_split_config_input(Key::Char('p'), &mut app);
    handle_split_config_input(Key::Enter, &mut app);
    assert_eq!(app.split_config.output_prefix, "split_output");
    handle_split_config_input(Key::Char('P'), &mut app);
    handle_split_config_input(Key::Char('s'), &mut app);
    handle_split_config_input(Key::Tab, &mut app);
    assert_eq!(app.split_config.output_prefix, "split_outputs");
    assert_eq!(handle_split_config_input(Key::Enter, &mut app), Action::Split);
    perform_split(&mut app, Ok(vec!["s_intro.pdf".to_string(), "s_rest.pdf".to_string()]));
    assert_eq!(
        app.success_message(),
        Some("✅ Successfully split PDF into 2 files: s_intro.pdf, s_rest.pdf")
    );
    perform_split(&mut app, Ok(vec!["one.pdf".to_string()]));
    assert_eq!(app.success_message(), Some("✅ Successfully split PDF into 1 files: one.pdf"));
    perform_split(&mut app, Ok(vec![]));
    assert_eq!(app.success_message(), Some("✅ Successfully split PDF into 0 files: "));
    perform_split(&mut app, Err("No valid segments found".to_string()));
    assert_eq!(app.error_message(), Some("Failed to split PDF: No valid segments found"));
    assert_eq!(app.current_screen, CurrentScreen::Result);
    handle_split_config_input(Key::Esc, &mut app);
    assert_eq!(app.current_screen, CurrentScreen::FileSelection);
}

#[test]
fn keys_go_to_the_screen_shown() {
    let mut app = App::new();
    assert_eq!(handle_key_event(Key::Char('q'), Modifiers::Plain, &mut app, MISSING), Action::Nothing);
    assert_eq!(app.current_screen, CurrentScreen::Exiting);
    assert_eq!(handle_key_event(Key::Char('x'), Modifiers::Plain, &mut app, MISSING), Action::Nothing);
    assert_eq!(app.current_screen, CurrentScreen::Exiting);
    assert_eq!(handle_key_event(Key::Char('n'), Modifiers::Plain, &mut app, MISSING), Action::Nothing);
    assert_eq!(app.current_screen, CurrentScreen::Main);
    handle_key_event(Key::Esc, Modifiers::Plain, &mut app, MISSING);
    assert_eq!(handle_key_event(Key::Char('Y'), Modifiers::Plain, &mut app, MISSING), Action::Quit);
    handle_key_event(Key::Esc, Modifiers::Plain, &mut app, MISSING);
    assert_eq!(app.current_screen, CurrentScreen::Main);

    handle_key_event(Key::Char('4'), Modifiers::Plain, &mut app, MISSING);
    assert_eq!(app.current_screen, CurrentScreen::Help);
    handle_key_event(Key::Enter, Modifiers::Plain, &mut app, MISSING);
    assert_eq!(app.current_screen, CurrentScreen::Help);
    handle_key_event(Key::Esc, Modifiers::Plain, &mut app, MISSING);
    assert_eq!(app.current_screen, CurrentScreen::Main);

    handle_key_event(Key::Char('1'), Modifiers::Plain, &mut app, MISSING);
    assert_eq!(app.current_screen, CurrentScreen::FileSelection);
    for name in ["a.pdf", "b.pdf"] {
        handle_key_event(Key::Tab, Modifiers::Plain, &mut app, MISSING);
        assert!(!wants_probe(&app, Key::Enter));
        type_text(&mut app, name, |k, a| {
            handle_key_event(k, Modifiers::Plain, a, MISSING);
        });
        assert!(wants_probe(&app, Key::Enter));
        assert!(!wants_probe(&app, Key::Tab));
        handle_key_event(Key::Enter, Modifiers::Plain, &mut app, FOUND);
    }
    assert_eq!(app.selected_files().len(), 2);
    handle_key_event(Key::Enter, Modifiers::Plain, &mut app, MISSING);
    assert_eq!(app.current_screen, CurrentScreen::MergeConfig);
    handle_key_event(Key::Tab, Modifiers::Plain, &mut app, MISSING);
    handle_key_event(Key::Char('m'), Modifiers::Plain, &mut app, MISSING);
    handle_key_event(Key::Enter, Modifiers::Plain, &mut app, MISSING);
    assert_eq!(handle_key_event(Key::Enter, Modifiers::Plain, &mut app, MISSING), Action::Merge);
    perform_merge(&mut app, Ok(()));
    assert_eq!(app.success_message(), Some("✅ Successfully merged 2 files into 'm.pdf'"));
    handle_key_event(Key::Char(' '), Modifiers::Plain, &mut app, MISSING);
    assert_eq!(app.current_screen, CurrentScreen::Main);

    app.current_screen = CurrentScreen::SplitConfig;
    app.split_config.segments = "1".to_string();
    app.split_config.output_prefix = "p".to_string();
    app.ui_state.clear_message();
    assert_eq!(key_event(Key::Enter, Modifiers::Plain, &mut app, MISSING, false), Action::Split);
    app.current_screen = CurrentScreen::DeleteConfig;
    app.remove_current_file();
    app.delete_config.pages_to_delete = "4,4".to_string();
    app.delete_config.output_filename = "o.pdf".to_string();
    assert_eq!(
        key_event(Key::Enter, Modifiers::Plain, &mut app, MISSING, false),
        Action::Delete(vec![4])
    );
}
