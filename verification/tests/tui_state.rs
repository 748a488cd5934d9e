use pdf_cutter::cli::{Cli, Commands};
use pdf_cutter::tui::app::App;
use pdf_cutter::tui::state::{
    CurrentScreen, DeleteConfig, FileState, MergeConfig, MessageType, OperationMode, SplitConfig,
    UiState,
};

#[test]
fn a_new_app_is_empty() {
    let app = App::new();
    assert_eq!(app.current_screen, CurrentScreen::Main);
    assert_eq!(app.operation_mode, OperationMode::Unset);
    assert!(app.selected_files().is_empty());
    assert_eq!(app.selected_file_index(), 0);
    assert_eq!(app.merge_file_index(), 0);
    assert_eq!(app.error_message(), None);
    assert_eq!(app.success_message(), None);
    assert_eq!(app.current_input(), None);
    assert!(!app.editing_input());
    assert_eq!(app.menu_mode_index(), 0);
    assert_eq!(app.files_len(), 0);
    assert!(app.files_is_empty());
}

#[test]
fn app_setters_and_reset() {
    let mut app = App::new();
    app.set_error("bad".to_string());
    assert_eq!(app.error_message(), Some("bad"));
    assert_eq!(app.success_message(), None);
    app.set_success("good".to_string());
    assert_eq!(app.error_message(), None);
    assert_eq!(app.success_message(), Some("good"));
    app.add_file("a".to_string());
    app.add_file("b".to_string());
    app.add_file("c".to_string());
    app.swap_files(0, 2);
    assert_eq!(*app.selected_files(), vec!["c", "b", "a"]);
    app.swap_files(0, 3);
    assert_eq!(*app.selected_files(), vec!["c", "b", "a"]);
    app.set_selected_file_index(1);
    app.set_merge_file_index(2);
    app.remove_current_file();
    assert_eq!(*app.selected_files(), vec!["c", "a"]);
    assert_eq!(app.selected_file_index(), 1);
    assert_eq!(app.merge_file_index(), 1);
    app.selected_files_mut().push("d".to_string());
    assert_eq!(app.files_len(), 3);
    app.set_menu_mode_index(3);
    app.set_editing_input(true);
    app.set_current_input(Some("x".to_string()));
    assert_eq!(app.menu_mode_index(), 3);
    assert!(app.editing_input());
    assert_eq!(app.current_input(), Some("x"));
    app.current_screen = CurrentScreen::Help;
    app.operation_mode = OperationMode::Split;
    app.merge_config.output_filename.push('m');
    app.delete_config.pages_to_delete.push('1');
    app.split_config.use_named_segments = true;
    app.reset();
    assert_eq!(app.current_screen, CurrentScreen::Main);
    assert_eq!(app.operation_mode, OperationMode::Unset);
    assert!(app.files_is_empty());
    assert_eq!(app.current_input(), None);
    assert_eq!(app.success_message(), None);
    assert_eq!(app.merge_config.output_filename, "");
    assert_eq!(app.delete_config.pages_to_delete, "");
    assert!(!app.split_config.use_named_segments);
    assert_eq!(app.menu_mode_index(), 0);
}

#[test]
fn file_state_keeps_its_cursors_on_the_files() {
    let mut files = FileState::new();
    assert!(files.is_empty());
    for name in ["a", "b", "c"] {
        files.add_file(name.to_string());
    }
    assert_eq!(files.len(), 3);
    files.selected_file_index = 2;
    files.merge_file_index = 0;
    files.remove_file(0);
    assert_eq!(files.selected_files, vec!["b", "c"]);
    assert_eq!(files.selected_file_index, 1);
    assert_eq!(files.merge_file_index, 0);
    files.remove_file(5);
    assert_eq!(files.len(), 2);
    files.swap_files(1, 0);
    assert_eq!(files.selected_files, vec!["c", "b"]);
    files.swap_files(1, 1);
    files.swap_files(2, 0);
    assert_eq!(files.selected_files, vec!["c", "b"]);
    files.remove_file(1);
    files.remove_file(0);
    assert!(files.is_empty());
    assert_eq!(files.selected_file_index, 0);
    files.selected_file_index = 4;
    files.add_file("z".to_string());
    files.add_file("y".to_string());
    files.remove_file(0);
    assert_eq!(files.selected_file_index, 0);
    files.merge_file_index = 7;
    files.remove_file(0);
    assert_eq!(files.merge_file_index, 7);
    files.reset();
    assert_eq!(files.merge_file_index, 0);
    assert_eq!(files.len(), 0);
}

#[test]
fn ui_state_input_line() {
    let mut ui = UiState::new();
    assert_eq!(ui.get_input_text(), "");
    ui.input_backspace();
    assert_eq!(ui.current_input, None);
    ui.input_char('a');
    ui.input_char('é');
    assert_eq!(ui.get_input_text(), "aé");
    ui.input_backspace();
    assert_eq!(ui.get_input_text(), "a");
    ui.input_backspace();
    ui.input_backspace();
    assert_eq!(ui.current_input, Some(String::new()));
    ui.editing_input = true;
    ui.input_char('b');
    ui.stop_input();
    assert!(!ui.editing_input);
    assert_eq!(ui.current_input, Some(String::new()));
    ui.set_error("e".to_string());
    assert_eq!(ui.message, Some(MessageType::Error("e".to_string())));
    assert_eq!(ui.get_error_message(), Some("e"));
    assert_eq!(ui.get_success_message(), None);
    ui.set_success("s".to_string());
    assert_eq!(ui.get_error_message(), None);
    assert_eq!(ui.get_success_message(), Some("s"));
    ui.clear_message();
    assert_eq!(ui.message, None);
    ui.menu_mode_index = 3;
    ui.set_error("e".to_string());
    ui.reset();
    assert_eq!(ui.menu_mode_index, 0);
    assert_eq!(ui.current_input, None);
    assert_eq!(ui.message, None);
}

#[test]
fn settings_start_empty_and_reset() {
    let mut merge = MergeConfig::new();
    assert_eq!(merge.output_filename, "");
    assert!(!merge.editing_output);
    merge.output_filename.push_str("x.pdf");
    merge.editing_output = true;
    merge.reset();
    assert_eq!(merge.output_filename, "");
    assert!(!merge.editing_output);

    let mut delete = DeleteConfig::new();
    assert_eq!(delete.pages_to_delete, "");
    assert_eq!(delete.output_filename, "");
    delete.pages_to_delete.push('1');
    delete.output_filename.push('o');
    delete.editing_pages = true;
    delete.editing_output = true;
    delete.reset();
    assert_eq!(delete.pages_to_delete, "");
    assert_eq!(delete.output_filename, "");
    assert!(!delete.editing_pages && !delete.editing_output);

    let mut split = SplitConfig::new();
    assert_eq!(split.segments, "");
    assert_eq!(split.output_prefix, "");
    assert!(!split.use_named_segments);
    split.segments.push('1');
    split.output_prefix.push('p');
    split.use_named_segments = true;
    split.editing_segments = true;
    split.editing_prefix = true;
    split.reset();
    assert_eq!(split.segments, "");
    assert_eq!(split.output_prefix, "");
    assert!(!split.use_named_segments && !split.editing_segments && !split.editing_prefix);
}

#[test]
fn commands_hold_what_was_asked_for() {
    let cli = Cli {
        command: Commands::Split {
            input: "in.pdf".to_string(),
            pages: "1-2,3".to_string(),
            output_prefix: "part".to_string(),
            named: false,
        },
    };
    match cli.command {
        Commands::Split { input, pages, output_prefix, named } => {
            assert_eq!(input, "in.pdf");
            assert_eq!(pages, "1-2,3");
            assert_eq!(output_prefix, "part");
            assert!(!named);
        }
        _ => panic!("another command"),
    }
    let merge = Commands::Merge { output: "o.pdf".to_string(), inputs: vec!["a".to_string()] };
    assert!(matches!(merge, Commands::Merge { .. }));
    assert!(matches!(Commands::Tui, Commands::Tui));
    let delete = Commands::Delete {
        input: "i".to_string(),
        output: "o".to_string(),
        pages: "1".to_string(),
    };
    assert!(matches!(delete, Commands::Delete { .. }));
}
