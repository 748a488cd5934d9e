use pdf_cutter::pdf::error::PdfError;
use pdf_cutter::pdf::split::{parse_named_segments, parse_page_segments, PageSegment};

#[test]
fn test_page_segment_creation() {
    let single = PageSegment::single(5);
    assert_eq!(single.get_pages(), vec![5]);
    assert_eq!(single.generate_filename("test"), "test_page_5.pdf");

    let range = PageSegment::range(3, 7);
    assert_eq!(range.get_pages(), vec![3, 4, 5, 6, 7]);
    assert_eq!(range.generate_filename("test"), "test_pages_3_7.pdf");

    let named = PageSegment::named(1, Some(3), "intro".to_string());
    assert_eq!(named.generate_filename("test"), "test_intro.pdf");
}

#[test]
fn test_parse_segments() {
    let segments = parse_page_segments("1,3-5,7").unwrap();
    assert_eq!(segments.len(), 3);
    assert_eq!(segments[0].get_pages(), vec![1]);
    assert_eq!(segments[1].get_pages(), vec![3, 4, 5]);
    assert_eq!(segments[2].get_pages(), vec![7]);
}

#[test]
fn parse_keeps_the_order_written() {
    let segments = parse_page_segments("7,1,3-5").unwrap();
    assert_eq!(
        segments,
        vec![PageSegment::single(7), PageSegment::single(1), PageSegment::range(3, 5)]
    );
}

#[test]
fn parse_rejects_a_range_that_ends_before_it_starts() {
    assert_eq!(
        parse_page_segments("3-1"),
        Err(PdfError::InvalidRangeSyntax("3-1".to_string()))
    );
}

#[test]
fn parse_rejects_page_zero() {
    assert_eq!(
        parse_page_segments("0,2-4"),
        Err(PdfError::InvalidRangeSyntax("0".to_string()))
    );
    assert_eq!(
        parse_page_segments("2-4, 0-3"),
        Err(PdfError::InvalidRangeSyntax("0-3".to_string()))
    );
}

#[test]
fn parse_names_the_first_token_that_is_wrong() {
    assert_eq!(
        parse_page_segments("1, x7 ,y"),
        Err(PdfError::InvalidRangeSyntax("x7".to_string()))
    );
    assert_eq!(
        parse_page_segments("1-2-3"),
        Err(PdfError::InvalidRangeSyntax("1-2-3".to_string()))
    );
    assert_eq!(
        parse_page_segments("4294967296"),
        Err(PdfError::InvalidRangeSyntax("4294967296".to_string()))
    );
    assert_eq!(
        parse_page_segments("-"),
        Err(PdfError::InvalidRangeSyntax("-".to_string()))
    );
}

#[test]
fn parse_rejects_a_specification_without_tokens() {
    assert_eq!(parse_page_segments(""), Err(PdfError::EmptySegmentSpecification));
    assert_eq!(parse_page_segments(" , ,, "), Err(PdfError::EmptySegmentSpecification));
    assert_eq!(parse_page_segments("()"), Err(PdfError::EmptySegmentSpecification));
}

#[test]
fn parse_reads_parentheses_as_commas() {
    let segments = parse_page_segments("1,(7,9),11").unwrap();
    assert_eq!(
        segments,
        vec![
            PageSegment::single(1),
            PageSegment::single(7),
            PageSegment::single(9),
            PageSegment::single(11)
        ]
    );
}

#[test]
fn parse_allows_whitespace_and_a_plus_sign() {
    let segments = parse_page_segments(" 2 - 4 ,\t+6 ").unwrap();
    assert_eq!(segments, vec![PageSegment::range(2, 4), PageSegment::single(6)]);
    assert_eq!(
        parse_page_segments("4294967295").unwrap(),
        vec![PageSegment::single(4294967295)]
    );
    assert_eq!(parse_page_segments("007").unwrap(), vec![PageSegment::single(7)]);
}

#[test]
fn named_segments_carry_their_names() {
    let segments = parse_named_segments("intro:1-3, chapter1 : 4 ,conclusion:11").unwrap();
    assert_eq!(
        segments,
        vec![
            PageSegment::named(1, Some(3), "intro".to_string()),
            PageSegment::named(4, None, "chapter1".to_string()),
            PageSegment::named(11, None, "conclusion".to_string()),
        ]
    );
    assert_eq!(segments[0].generate_filename("out"), "out_intro.pdf");
}

#[test]
fn named_segments_may_stand_beside_plain_ones() {
    let segments = parse_named_segments("a:2,5-6,(9").unwrap();
    assert_eq!(
        segments,
        vec![
            PageSegment::named(2, None, "a".to_string()),
            PageSegment::range(5, 6),
            PageSegment::single(9),
        ]
    );
}

#[test]
fn named_segments_fail_on_the_whole_token() {
    assert_eq!(
        parse_named_segments("a:1, b:3-2"),
        Err(PdfError::InvalidRangeSyntax("b:3-2".to_string()))
    );
    assert_eq!(
        parse_named_segments("a:b:1"),
        Err(PdfError::InvalidRangeSyntax("a:b:1".to_string()))
    );
    assert_eq!(
        parse_named_segments("a:1 - 2"),
        Err(PdfError::InvalidRangeSyntax("a:1 - 2".to_string()))
    );
    assert_eq!(
        parse_named_segments("a:0"),
        Err(PdfError::InvalidRangeSyntax("a:0".to_string()))
    );
    assert_eq!(
        parse_named_segments("1,x"),
        Err(PdfError::InvalidRangeSyntax("x".to_string()))
    );
    assert_eq!(parse_named_segments("("), Err(PdfError::EmptySegmentSpecification));
}

#[test]
fn named_specification_without_tokens_fails() {
    assert_eq!(parse_named_segments(""), Err(PdfError::EmptySegmentSpecification));
    assert_eq!(parse_named_segments(" , "), Err(PdfError::EmptySegmentSpecification));
    assert_eq!(parse_named_segments("()"), Err(PdfError::EmptySegmentSpecification));
}

#[test]
fn named_specification_reads_parentheses_as_commas() {
    assert_eq!(
        parse_named_segments("7(8"),
        Ok(vec![PageSegment::single(7), PageSegment::single(8)])
    );
    assert_eq!(
        parse_named_segments("(a:1,b:2-3),(7,9)"),
        Ok(vec![
            PageSegment::named(1, None, "a".to_string()),
            PageSegment::named(2, Some(3), "b".to_string()),
            PageSegment::single(7),
            PageSegment::single(9),
        ])
    );
    assert_eq!(
        parse_named_segments("a:(1-3)"),
        Err(PdfError::InvalidRangeSyntax("a:".to_string()))
    );
    assert_eq!(
        parse_named_segments("1, 2 - 3 ,x:4"),
        Ok(vec![
            PageSegment::single(1),
            PageSegment::range(2, 3),
            PageSegment::named(4, None, "x".to_string()),
        ])
    );
}

#[test]
fn segment_validity_and_pages() {
    assert!(PageSegment::single(1).is_valid());
    assert!(!PageSegment::single(0).is_valid());
    assert!(PageSegment::range(2, 2).is_valid());
    assert!(!PageSegment::range(3, 2).is_valid());
    assert_eq!(PageSegment::range(3, 2).get_pages(), Vec::<u32>::new());
    assert_eq!(PageSegment::range(4, 4).get_pages(), vec![4]);
    assert_eq!(
        PageSegment::range(4294967294, 4294967295).get_pages(),
        vec![4294967294, 4294967295]
    );
}

#[test]
fn file_names_of_segments() {
    assert_eq!(PageSegment::range(4, 4).generate_filename("p"), "p_page_4.pdf");
    assert_eq!(PageSegment::range(1, 2).generate_filename("prefix"), "prefix_pages_1_2.pdf");
    assert_eq!(PageSegment::single(3).generate_filename("prefix"), "prefix_page_3.pdf");
    assert_eq!(
        PageSegment::single(4294967295).generate_filename(""),
        "_page_4294967295.pdf"
    );
    assert_eq!(
        PageSegment::named(10, Some(120), String::new()).generate_filename("x"),
        "x_.pdf"
    );
    assert_eq!(PageSegment::range(10, 120).generate_filename("x"), "x_pages_10_120.pdf");
}

#[test]
fn error_messages() {
    assert_eq!(
        PdfError::InvalidPageNumber(999, 3).message(),
        "Invalid page number: 999. PDF has 3 pages (1-3)"
    );
    assert_eq!(
        PdfError::InvalidRangeSyntax("3-1".to_string()).message(),
        "Invalid range format: 3-1"
    );
    assert_eq!(PdfError::EmptySegmentSpecification.message(), "No valid segments found");
    assert_eq!(
        PdfError::SourceLoadFailure("a.pdf".to_string()).message(),
        "Failed to load PDF 'a.pdf'"
    );
    assert_eq!(
        PdfError::OutputWriteFailure("b.pdf".to_string()).message(),
        "Failed to save PDF 'b.pdf'"
    );
    assert_eq!(PdfError::EmptyResultDocument.message(), "The resulting PDF would have no pages");
    assert_eq!(PdfError::ObjectIdOverflow.message(), "Too many objects for one PDF");
}
