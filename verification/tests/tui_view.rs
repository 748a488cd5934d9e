use pdf_cutter::tui::app::App;
use pdf_cutter::tui::state::OperationMode;
use pdf_cutter::tui::view::{
    error_text, field_text, file_cursor, file_label, file_selection_instructions,
    file_selection_title, list_selection, margin_percent, path_input_title, result_message,
    section_size, shown_name, Size, Tone,
};

#[test]
fn sections_and_margins() {
    assert_eq!(section_size(0), Size::Fill);
    assert_eq!(section_size(3), Size::Fixed(3));
    assert_eq!(margin_percent(60), 20);
    assert_eq!(margin_percent(25), 37);
    assert_eq!(margin_percent(100), 0);
    assert_eq!(margin_percent(0), 50);
}

#[test]
fn texts_of_the_file_screen() {
    assert_eq!(file_selection_title(OperationMode::Merge), "📄 Select PDFs to Merge");
    assert_eq!(file_selection_title(OperationMode::Delete), "📄 Select PDF for Page Deletion");
    assert_eq!(file_selection_title(OperationMode::Split), "📄 File Selection");
    assert_eq!(file_selection_title(OperationMode::Unset), "📄 File Selection");
    assert_eq!(path_input_title(true), "Enter file path (Enter to add, Esc to cancel)");
    assert_eq!(path_input_title(false), "File path (Tab add file)");
    assert_eq!(
        file_selection_instructions(true, OperationMode::Merge),
        "Enter: Add file | Esc: Cancel"
    );
    assert_eq!(
        file_selection_instructions(false, OperationMode::Merge),
        "↑/↓: Navigate | Tab: Add file | <-: Delete | Enter: Next | Alt+↑/↓: Reorder | Esc: Back"
    );
    assert_eq!(
        file_selection_instructions(false, OperationMode::Delete),
        "↑/↓: Navigate | Tab: Add file | <-: Delete | Enter: Next | Esc: Back"
    );
}

#[test]
fn lists_and_fields() {
    assert_eq!(list_selection(Some(2), 3), Some(2));
    assert_eq!(list_selection(Some(3), 3), None);
    assert_eq!(list_selection(None, 3), None);
    assert_eq!(file_label(0, "a.pdf"), "1. a.pdf");
    assert_eq!(file_label(41, ""), "42. ");
    assert_eq!(field_text("Output Filename", "x.pdf"), "Output: x.pdf");
    assert_eq!(field_text("Pages to Delete (e.g., 1,3-5)", "1,2"), "Pages: 1,2");
    assert_eq!(field_text("Single", ""), "Single: ");
    assert_eq!(field_text(" led by a blank", "v"), ": v");
    assert_eq!(field_text("", "v"), ": v");
    assert_eq!(error_text("File not found: x"), "ERROR: File not found: x");
    assert_eq!(shown_name("", "merged_output.pdf"), "merged_output.pdf");
    assert_eq!(shown_name("mine.pdf", "merged_output.pdf"), "mine.pdf");
}

#[test]
fn cursor_and_result() {
    let mut app = App::new();
    assert_eq!(file_cursor(&app), None);
    assert_eq!(result_message(&app), ("No result available", Tone::Neutral));
    app.add_file("a".to_string());
    app.set_selected_file_index(5);
    assert_eq!(file_cursor(&app), Some(5));
    app.set_success("done".to_string());
    assert_eq!(result_message(&app), ("done", Tone::Success));
    app.set_error("failed".to_string());
    assert_eq!(result_message(&app), ("failed", Tone::Error));
}
