use pdf_cutter::pdf::error::PdfError;
use pdf_cutter::tui::errors::TuiError;
use pdf_cutter::tui::utils::{
    check_file_input, is_pdf_file, normalize_pages, parse_page_part, parse_page_range,
    parse_single_page, pdf_verdict, validate_delete_requirements, validate_file_input,
    validate_merge_requirements, validate_page_ranges, validate_split_requirements, FileProbe,
};

fn invalid(text: &str) -> TuiError {
    TuiError::InvalidPageRange { input: text.to_string() }
}

const FOUND: FileProbe = FileProbe { exists: true, loads: true };
const MISSING: FileProbe = FileProbe { exists: false, loads: false };
const BROKEN: FileProbe = FileProbe { exists: true, loads: false };

#[test]
fn test_parse_single_page() {
    assert_eq!(parse_single_page("5").unwrap(), 5);
    assert_eq!(parse_single_page(" 10 ").unwrap(), 10);

    // Error cases
    assert!(parse_single_page("0").is_err());
    assert!(parse_single_page("abc").is_err());
    assert!(parse_single_page("").is_err());
}

#[test]
fn test_parse_page_range() {
    assert_eq!(parse_page_range("3-5").unwrap(), vec![3, 4, 5]);
    assert_eq!(parse_page_range("1-1").unwrap(), vec![1]);
    assert_eq!(parse_page_range(" 2 - 4 ").unwrap(), vec![2, 3, 4]);

    // Error cases
    assert!(parse_page_range("5-3").is_err()); // start > end
    assert!(parse_page_range("1-0").is_err()); // zero page
    assert!(parse_page_range("a-b").is_err()); // invalid numbers
    assert!(parse_page_range("1-2-3").is_err()); // too many parts
}

#[test]
fn test_parse_page_part() {
    assert_eq!(parse_page_part("5").unwrap(), vec![5]);
    assert_eq!(parse_page_part("3-5").unwrap(), vec![3, 4, 5]);
    assert_eq!(parse_page_part("").unwrap(), vec![]); // empty part
    assert_eq!(parse_page_part("  ").unwrap(), vec![]); // whitespace only
}

#[test]
fn test_normalize_pages() {
    assert_eq!(normalize_pages(vec![3, 1, 2, 1]).unwrap(), vec![1, 2, 3]);
    assert_eq!(normalize_pages(vec![5, 5, 5]).unwrap(), vec![5]);

    // Error case
    assert!(normalize_pages(vec![]).is_err());
}

#[test]
fn test_validate_page_ranges() {
    // Valid cases
    assert_eq!(validate_page_ranges("1,3,5-7").unwrap(), vec![1, 3, 5, 6, 7]);
    assert_eq!(validate_page_ranges("2-4,6").unwrap(), vec![2, 3, 4, 6]);
    assert_eq!(validate_page_ranges("10").unwrap(), vec![10]);
    assert_eq!(validate_page_ranges("1-3,5,7-9").unwrap(), vec![1, 2, 3, 5, 7, 8, 9]);
    assert_eq!(validate_page_ranges(" 1 , 2 - 3 , 5 ").unwrap(), vec![1, 2, 3, 5]);

    // Invalid cases
    assert!(validate_page_ranges("3-1").is_err());
    assert!(validate_page_ranges("a,b,c").is_err());
    assert!(validate_page_ranges("0,2-4").is_err());
    assert!(validate_page_ranges("").is_err());
    assert!(validate_page_ranges(",,,").is_err());
}

#[test]
fn page_errors_say_what_is_wrong() {
    assert_eq!(parse_single_page(" x1 "), Err(invalid("Invalid page:  x1 ")));
    assert_eq!(parse_single_page(""), Err(invalid("Invalid page: ")));
    assert_eq!(parse_single_page(" 0 "), Err(invalid("Page numbers must be greater than 0")));
    assert_eq!(parse_single_page("4294967296"), Err(invalid("Invalid page: 4294967296")));
    assert_eq!(parse_single_page("+7"), Ok(7));
    assert_eq!(parse_page_range("1-2-3"), Err(invalid("Invalid range format: 1-2-3")));
    assert_eq!(parse_page_range("12"), Err(invalid("Invalid range format: 12")));
    assert_eq!(
        parse_page_range("15-3"),
        Err(invalid("Invalid range: 15 > 3 (start must be <= end)"))
    );
    assert_eq!(parse_page_range("a-0"), Err(invalid("Invalid page: a")));
    assert_eq!(parse_page_range("2-b "), Err(invalid("Invalid page: b ")));
    assert_eq!(parse_page_part(" 9-8 "), Err(invalid("Invalid range: 9 > 8 (start must be <= end)")));
    assert_eq!(validate_page_ranges("1,,0"), Err(invalid("Page numbers must be greater than 0")));
    assert_eq!(validate_page_ranges(" , "), Err(invalid("No valid pages specified")));
    assert_eq!(validate_page_ranges("2,x,0"), Err(invalid("Invalid page: x")));
}

#[test]
fn pages_come_out_in_order_and_once() {
    assert_eq!(validate_page_ranges("7,3-5,4,1,7"), Ok(vec![1, 3, 4, 5, 7]));
    assert_eq!(normalize_pages(vec![9, 8, 7, 8, 9, 1]), Ok(vec![1, 7, 8, 9]));
    assert_eq!(normalize_pages(vec![4294967295, 1]), Ok(vec![1, 4294967295]));
    assert_eq!(normalize_pages(vec![]), Err(invalid("No valid pages specified")));
}

#[test]
fn numbers_of_files() {
    let none: Vec<String> = vec![];
    let one = vec!["a.pdf".to_string()];
    let two = vec!["a.pdf".to_string(), "b.pdf".to_string()];
    assert_eq!(validate_merge_requirements(&none), Err(TuiError::InsufficientFiles { count: 0 }));
    assert_eq!(validate_merge_requirements(&one), Err(TuiError::InsufficientFiles { count: 1 }));
    assert_eq!(validate_merge_requirements(&two), Ok(()));
    assert_eq!(validate_delete_requirements(&none), Err(TuiError::TooManyFiles { count: 0 }));
    assert_eq!(validate_delete_requirements(&one), Ok(()));
    assert_eq!(validate_delete_requirements(&two), Err(TuiError::TooManyFiles { count: 2 }));
    assert_eq!(validate_split_requirements(&one), Ok(()));
    assert_eq!(validate_split_requirements(&two), Err(TuiError::TooManyFiles { count: 2 }));
}

#[test]
fn files_are_judged_by_what_was_found() {
    assert_eq!(
        validate_file_input("", FOUND),
        Err(TuiError::FileNotFound { path: "empty path".to_string() })
    );
    assert_eq!(
        validate_file_input("a.pdf", MISSING),
        Err(TuiError::FileNotFound { path: "a.pdf".to_string() })
    );
    assert_eq!(
        validate_file_input("a.pdf", BROKEN),
        Err(TuiError::InvalidPdf { path: "a.pdf".to_string() })
    );
    assert_eq!(
        validate_file_input("a.txt", FOUND),
        Err(TuiError::InvalidPdf { path: "a.txt".to_string() })
    );
    assert_eq!(validate_file_input("a.pdf", FOUND), Ok(()));
    assert_eq!(check_file_input("a.txt", FOUND, true), Ok(()));
    assert_eq!(
        check_file_input("a.pdf", FOUND, false),
        Err(TuiError::InvalidPdf { path: "a.pdf".to_string() })
    );
}

#[test]
fn a_pdf_file_has_the_extension_pdf() {
    assert!(is_pdf_file("dir/report.pdf", FOUND));
    assert!(!is_pdf_file("report.PDF", FOUND));
    assert!(!is_pdf_file("report.pdf.txt", FOUND));
    assert!(!is_pdf_file("pdf", FOUND));
    assert!(!is_pdf_file(".pdf", FOUND));
    assert!(!is_pdf_file("report.pdf", BROKEN));
    assert!(!is_pdf_file("report.pdf", MISSING));
    assert!(pdf_verdict(FOUND, &Some("pdf".to_string())));
    assert!(!pdf_verdict(FOUND, &Some("pd".to_string())));
    assert!(!pdf_verdict(FOUND, &None));
    assert!(!pdf_verdict(BROKEN, &Some("pdf".to_string())));
    assert!(!pdf_verdict(FileProbe { exists: false, loads: true }, &Some("pdf".to_string())));
}

#[test]
fn front_end_errors_have_texts() {
    assert_eq!(
        TuiError::FileNotFound { path: "x.pdf".to_string() }.message(),
        "File not found: x.pdf"
    );
    assert_eq!(
        TuiError::InvalidPdf { path: "x.pdf".to_string() }.message(),
        "Invalid PDF file: x.pdf"
    );
    assert_eq!(invalid("3-1").message(), "Invalid page range: 3-1");
    assert_eq!(
        TuiError::InsufficientFiles { count: 1 }.message(),
        "Not enough files for merge (need at least 2, got 1)"
    );
    assert_eq!(
        TuiError::TooManyFiles { count: 12 }.message(),
        "Too many files for delete operation (need exactly 1, got 12)"
    );
    assert_eq!(
        TuiError::PdfOperation { source: PdfError::EmptyResultDocument }.message(),
        "PDF operation failed: The resulting PDF would have no pages"
    );
}
