use pdf_cutter::pdf::delete::delete_pages;
use pdf_cutter::pdf::dictionary::name_bytes;
use pdf_cutter::pdf::document::Document;
use pdf_cutter::pdf::error::PdfError;
use pdf_cutter::pdf::graph::reachable_objects;
use pdf_cutter::pdf::merge::merge_pdfs;
use pdf_cutter::pdf::object::{
    collect_references, Dictionary, Entry, Object, ObjectId, Stream, StringFormat,
};
use pdf_cutter::pdf::page_tree::create_pages_structure;
use pdf_cutter::pdf::split::{
    create_pdf_with_segment, split_pdfs, split_pdfs_named, split_pdfs_with_segments, PageSegment,
};
use pdf_cutter::pdf::utils::copy_page_with_resources;

fn id(number: u32) -> ObjectId {
    ObjectId { number, generation: 0 }
}

fn name(text: &str) -> Object {
    Object::Name(text.as_bytes().to_vec())
}

fn dict(entries: Vec<(&str, Object)>) -> Object {
    Object::Dictionary(Dictionary {
        entries: entries
            .into_iter()
            .map(|(key, value)| Entry { key: key.as_bytes().to_vec(), value })
            .collect(),
    })
}

fn stream(text: &str) -> Object {
    Object::Stream(Stream {
        dict: Dictionary {
            entries: vec![Entry {
                key: b"Length".to_vec(),
                value: Object::Integer(text.len() as i64),
            }],
        },
        content: text.as_bytes().to_vec(),
        allows_compression: true,
        start_position: None,
    })
}

fn page_id(index: u32) -> ObjectId {
    id(10 + 2 * index)
}

/// A document with `pages` pages. Each page has a content stream of its
/// own; all share one font and refer back to the node that lists them.
fn sample(pages: u32, label: &str) -> Document {
    let mut doc = Document::new();
    let kids: Vec<Object> = (0..pages).map(|i| Object::Reference(page_id(i))).collect();
    doc.insert_object(id(1), dict(vec![("Type", name("Catalog")), ("Pages", Object::Reference(id(2)))]));
    doc.insert_object(
        id(2),
        dict(vec![
            ("Type", name("Pages")),
            ("Kids", Object::Array(kids)),
            ("Count", Object::Integer(pages as i64)),
        ]),
    );
    doc.insert_object(id(3), dict(vec![("Type", name("Font")), ("BaseFont", name("Helvetica"))]));
    for i in 0..pages {
        doc.insert_object(
            page_id(i),
            dict(vec![
                ("Type", name("Page")),
                ("Parent", Object::Reference(id(2))),
                ("Contents", Object::Reference(id(11 + 2 * i))),
                ("Resources", dict(vec![("Font", dict(vec![("F1", Object::Reference(id(3)))]))])),
                ("Label", Object::String(format!("{label}{}", i + 1).into_bytes(), StringFormat::Literal)),
            ]),
        );
        doc.insert_object(id(11 + 2 * i), stream(&format!("{label} page {}", i + 1)));
    }
    doc.set_root(Some(id(1)));
    assert!(doc.set_pages((0..pages).map(page_id).collect()));
    doc
}

fn entry<'a>(object: &'a Object, key: &str) -> Option<&'a Object> {
    match object {
        Object::Dictionary(d) => d.get(&key.as_bytes().to_vec()),
        _ => None,
    }
}

fn label_of(doc: &Document, page: ObjectId) -> String {
    match entry(doc.get_object(page).unwrap(), "Label") {
        Some(Object::String(bytes, _)) => String::from_utf8(bytes.clone()).unwrap(),
        _ => panic!("a page without label"),
    }
}

fn labels(doc: &Document) -> Vec<String> {
    doc.pages().iter().map(|p| label_of(doc, *p)).collect()
}

/// Whether every reference in the document, its root and its pages are
/// objects of the document.
fn refers_to_itself_only(doc: &Document) -> bool {
    let mut ok = true;
    for i in 0..doc.len() {
        let mut refs = Vec::new();
        collect_references(doc.get_object(doc.id_at(i)).unwrap(), &mut refs);
        ok = ok && refs.iter().all(|r| doc.has_object(*r));
    }
    ok = ok && doc.root().map_or(true, |r| doc.has_object(r));
    ok && doc.pages().iter().all(|p| doc.has_object(*p))
}

/// Whether the page tree is as it should be: the root leads to a node that
/// lists the pages and counts them, and each page names the node as its
/// parent.
fn page_tree_is_sound(doc: &Document) -> bool {
    let catalog = doc.get_object(doc.root().unwrap()).unwrap();
    let pages_id = match entry(catalog, "Pages") {
        Some(Object::Reference(r)) => *r,
        _ => return false,
    };
    let node = doc.get_object(pages_id).unwrap();
    let kids = match entry(node, "Kids") {
        Some(Object::Array(items)) => items,
        _ => return false,
    };
    let listed: Vec<Object> = doc.pages().iter().map(|p| Object::Reference(*p)).collect();
    entry(catalog, "Type") == Some(&name("Catalog"))
        && entry(node, "Type") == Some(&name("Pages"))
        && *kids == listed
        && entry(node, "Count") == Some(&Object::Integer(doc.page_count() as i64))
        && doc.pages().iter().all(|p| {
            entry(doc.get_object(*p).unwrap(), "Parent") == Some(&Object::Reference(pages_id))
        })
}

#[test]
fn walk_gathers_what_a_page_needs() {
    let doc = sample(2, "a");
    let order = reachable_objects(&doc, page_id(0));
    assert_eq!(order, vec![page_id(0), id(2), id(11), id(3), page_id(1), id(13)]);
    let font = reachable_objects(&doc, id(3));
    assert_eq!(font, vec![id(3)]);
}

#[test]
fn walk_ends_on_cycles_and_passes_over_stale_references() {
    let mut doc = Document::new();
    doc.insert_object(id(1), dict(vec![("Next", Object::Reference(id(2))), ("Gone", Object::Reference(id(9)))]));
    doc.insert_object(id(2), Object::Array(vec![Object::Reference(id(1)), Object::Reference(id(2)), Object::Reference(id(3))]));
    doc.insert_object(id(3), Object::Reference(id(1)));
    doc.insert_object(id(4), Object::Null);
    assert_eq!(reachable_objects(&doc, id(1)), vec![id(1), id(2), id(3)]);
    assert_eq!(reachable_objects(&doc, id(3)), vec![id(3), id(1), id(2)]);
    assert_eq!(reachable_objects(&doc, id(4)), vec![id(4)]);
}

#[test]
fn references_are_collected_in_the_order_written() {
    let object = dict(vec![
        ("A", Object::Reference(id(5))),
        ("B", Object::Array(vec![Object::Integer(1), Object::Reference(id(6)), Object::Reference(id(5))])),
        ("C", dict(vec![("D", Object::Reference(id(7)))])),
    ]);
    let mut refs = vec![id(1)];
    collect_references(&object, &mut refs);
    assert_eq!(refs, vec![id(1), id(5), id(6), id(5), id(7)]);
    let mut none = Vec::new();
    collect_references(&Object::Boolean(true), &mut none);
    assert!(none.is_empty());
}

#[test]
fn copy_renumbers_and_keeps_what_was_there() {
    let source = sample(2, "a");
    let mut target = Document::new();
    target.insert_object(id(7), Object::Integer(42));
    let copy = copy_page_with_resources(&source, page_id(1), &mut target).unwrap();
    assert_eq!(copy, id(8));
    assert_eq!(target.max_id(), 13);
    assert_eq!(target.len(), 7);
    assert_eq!(target.get_object(id(7)), Some(&Object::Integer(42)));
    assert_eq!(label_of(&target, copy), "a2");
    assert_eq!(
        entry(target.get_object(copy).unwrap(), "Contents"),
        Some(&Object::Reference(id(10)))
    );
    assert_eq!(target.get_object(id(10)), Some(&stream("a page 2")));
    assert!(refers_to_itself_only(&target));
    assert!(target.unresolved().is_empty());
    assert_eq!(target.page_count(), 0);
    assert_eq!(source, sample(2, "a"));
}

#[test]
fn copy_puts_null_for_what_cannot_be_resolved() {
    let mut source = Document::new();
    source.insert_object(
        id(1),
        dict(vec![("Ok", Object::Reference(id(2))), ("Stale", Object::Reference(id(40)))]),
    );
    source.insert_object(id(2), Object::Array(vec![Object::Reference(ObjectId { number: 2, generation: 1 })]));
    assert!(source.set_pages(vec![id(1)]));
    let mut target = Document::new();
    let copy = copy_page_with_resources(&source, id(1), &mut target).unwrap();
    assert_eq!(copy, id(1));
    assert_eq!(
        target.get_object(id(1)),
        Some(&dict(vec![("Ok", Object::Reference(id(2))), ("Stale", Object::Null)]))
    );
    assert_eq!(target.get_object(id(2)), Some(&Object::Array(vec![Object::Null])));
    assert_eq!(*target.unresolved(), vec![id(40), ObjectId { number: 2, generation: 1 }]);
    assert!(refers_to_itself_only(&target));
}

#[test]
fn copy_fails_where_object_numbers_run_out() {
    let source = sample(1, "a");
    let mut target = Document::new();
    target.insert_object(id(4294967293), Object::Null);
    let before = target.len();
    assert_eq!(
        copy_page_with_resources(&source, page_id(0), &mut target),
        Err(PdfError::ObjectIdOverflow)
    );
    assert_eq!(target.len(), before);
    assert_eq!(target.max_id(), 4294967293);
}

#[test]
fn page_tree_lists_the_pages() {
    let mut target = Document::new();
    let a = target.add_object(dict(vec![("Type", name("Page")), ("Parent", Object::Reference(id(77)))])).unwrap();
    let b = target.add_object(dict(vec![("Type", name("Page"))])).unwrap();
    let c = target.add_object(Object::Integer(3)).unwrap();
    assert_eq!(create_pages_structure(&mut target, &vec![b, a]), Ok(()));
    assert_eq!(target.root(), Some(id(5)));
    assert_eq!(*target.pages(), vec![b, a]);
    assert_eq!(
        target.get_object(id(4)),
        Some(&dict(vec![
            ("Type", name("Pages")),
            ("Kids", Object::Array(vec![Object::Reference(b), Object::Reference(a)])),
            ("Count", Object::Integer(2)),
        ]))
    );
    assert_eq!(
        target.get_object(id(5)),
        Some(&dict(vec![("Type", name("Catalog")), ("Pages", Object::Reference(id(4)))]))
    );
    assert_eq!(
        target.get_object(a),
        Some(&dict(vec![("Type", name("Page")), ("Parent", Object::Reference(id(4)))]))
    );
    assert_eq!(
        target.get_object(b),
        Some(&dict(vec![("Type", name("Page")), ("Parent", Object::Reference(id(4)))]))
    );
    assert_eq!(target.get_object(c), Some(&Object::Integer(3)));
    assert!(page_tree_is_sound(&target));
}

#[test]
fn pages_are_dictionaries() {
    let mut doc = Document::new();
    assert!(doc.insert_object(id(1), dict(vec![("Type", name("Page"))])));
    assert!(doc.insert_object(id(2), Object::Null));
    assert!(doc.insert_object(id(3), stream("no page")));
    assert!(!doc.set_pages(vec![id(1), id(2)]));
    assert!(!doc.set_pages(vec![id(3)]));
    assert!(!doc.set_pages(vec![id(9)]));
    assert_eq!(doc.page_count(), 0);
    assert!(doc.set_pages(vec![id(1), id(1)]));
    assert_eq!(*doc.pages(), vec![id(1), id(1)]);
    assert!(doc.is_page_id(id(1)));
    assert!(!doc.is_page_id(id(2)));
    // a page stays a dictionary
    assert!(!doc.insert_object(id(1), Object::Integer(7)));
    assert_eq!(doc.get_object(id(1)), Some(&dict(vec![("Type", name("Page"))])));
    assert!(doc.insert_object(id(1), dict(vec![("Type", name("Other"))])));
    assert_eq!(doc.get_object(id(1)), Some(&dict(vec![("Type", name("Other"))])));
    assert!(doc.insert_object(id(2), Object::Integer(7)));
    assert_eq!(doc.get_object(id(2)), Some(&Object::Integer(7)));
    assert!(dict(vec![]).is_dictionary());
    assert!(!stream("x").is_dictionary());
    assert!(!Object::Array(vec![]).is_dictionary());
}

#[test]
fn page_tree_fails_where_object_numbers_run_out() {
    let mut target = Document::new();
    target.insert_object(id(4294967294), Object::Null);
    assert_eq!(create_pages_structure(&mut target, &vec![]), Err(PdfError::ObjectIdOverflow));
    assert_eq!(target.root(), None);
    assert_eq!(target.len(), 1);
}

#[test]
fn test_merge_pdfs() {
    let merged = merge_pdfs(&vec![sample(2, "a"), sample(3, "b")]).unwrap();
    assert_eq!(merged.page_count(), 5);
    assert_eq!(labels(&merged), vec!["a1", "a2", "b1", "b2", "b3"]);
    assert!(refers_to_itself_only(&merged));
    assert!(page_tree_is_sound(&merged));
    assert_eq!(merged.len(), 2 * 6 + 3 * 8 + 2);
    assert!(merged.unresolved().is_empty());
}

#[test]
fn test_merge_empty_input() {
    let merged = merge_pdfs(&vec![]).unwrap();
    assert_eq!(merged.page_count(), 0);
    assert_eq!(merged.len(), 2);
    assert!(refers_to_itself_only(&merged));
    assert!(page_tree_is_sound(&merged));
}

#[test]
fn test_merge_same_pdf_multiple_times() {
    let merged = merge_pdfs(&vec![sample(2, "a"), sample(2, "a"), sample(2, "a")]).unwrap();
    assert_eq!(merged.page_count(), 6);
    assert_eq!(labels(&merged), vec!["a1", "a2", "a1", "a2", "a1", "a2"]);
    let source = sample(2, "a");
    for (k, page) in merged.pages().iter().enumerate() {
        let copy = match merged.get_object(*page).unwrap() {
            Object::Dictionary(d) => d,
            _ => panic!("a page that is no dictionary"),
        };
        let model = match source.get_object(page_id(k as u32 % 2)).unwrap() {
            Object::Dictionary(d) => d,
            _ => panic!("a page that is no dictionary"),
        };
        assert_eq!(copy.len(), model.len());
        for (c, o) in copy.entries.iter().zip(model.entries.iter()) {
            assert_eq!(c.key, o.key);
            match (&c.value, &o.value) {
                (Object::Reference(_), Object::Reference(_)) => {}
                (Object::Dictionary(_), Object::Dictionary(_)) => {}
                (a, b) => assert_eq!(a, b),
            }
        }
    }
    assert!(refers_to_itself_only(&merged));
    assert!(page_tree_is_sound(&merged));
}

#[test]
fn test_delete_pages() {
    let source = sample(3, "a");
    let result = delete_pages(&source, &vec![1]).unwrap();
    assert_eq!(result.page_count(), 3 - 1);
    assert_eq!(labels(&result), vec!["a2", "a3"]);
    assert!(refers_to_itself_only(&result));
    assert!(page_tree_is_sound(&result));
}

#[test]
fn delete_keeps_the_other_pages_in_their_order() {
    let source = sample(5, "p");
    let result = delete_pages(&source, &vec![4, 2, 4]).unwrap();
    assert_eq!(labels(&result), vec!["p1", "p3", "p5"]);
}

#[test]
fn test_delete_invalid_page() {
    let source = sample(3, "a");
    assert_eq!(delete_pages(&source, &vec![999]), Err(PdfError::InvalidPageNumber(999, 3)));
    assert_eq!(delete_pages(&source, &vec![2, 0, 7]), Err(PdfError::InvalidPageNumber(0, 3)));
    assert_eq!(delete_pages(&source, &vec![4]), Err(PdfError::InvalidPageNumber(4, 3)));
}

#[test]
fn test_delete_all_pages() {
    let source = sample(3, "a");
    let all: Vec<u32> = (1..=3).collect();
    assert_eq!(delete_pages(&source, &all), Err(PdfError::EmptyResultDocument));
    assert_eq!(delete_pages(&sample(1, "a"), &vec![1]), Err(PdfError::EmptyResultDocument));
    assert_eq!(delete_pages(&sample(0, "a"), &vec![]), Err(PdfError::EmptyResultDocument));
}

#[test]
fn delete_of_no_page_copies_the_document() {
    let result = delete_pages(&sample(2, "a"), &vec![]).unwrap();
    assert_eq!(labels(&result), vec!["a1", "a2"]);
}

#[test]
fn split_makes_one_document_for_each_segment() {
    let source = sample(3, "d");
    let parts = split_pdfs(&source, "prefix", "1-2,3").unwrap();
    assert_eq!(parts.len(), 2);
    assert_eq!(parts[0].filename, "prefix_pages_1_2.pdf");
    assert_eq!(parts[1].filename, "prefix_page_3.pdf");
    assert_eq!(labels(&parts[0].document), vec!["d1", "d2"]);
    assert_eq!(labels(&parts[1].document), vec!["d3"]);
    for part in &parts {
        assert!(refers_to_itself_only(&part.document));
        assert!(page_tree_is_sound(&part.document));
    }
    assert_eq!(parts[1].document.len(), 8 + 2);
}

#[test]
fn split_by_names() {
    let source = sample(4, "d");
    let parts = split_pdfs_named(&source, "out", "intro:1-2,4,rest:3").unwrap();
    let names: Vec<&str> = parts.iter().map(|p| p.filename.as_str()).collect();
    assert_eq!(names, vec!["out_intro.pdf", "out_page_4.pdf", "out_rest.pdf"]);
    assert_eq!(labels(&parts[0].document), vec!["d1", "d2"]);
    assert_eq!(labels(&parts[1].document), vec!["d4"]);
    assert_eq!(labels(&parts[2].document), vec!["d3"]);
    assert_eq!(split_pdfs_named(&source, "out", ""), Err(PdfError::EmptySegmentSpecification));
    assert_eq!(
        split_pdfs_named(&source, "out", "a:1,b:9"),
        Err(PdfError::InvalidPageNumber(9, 4))
    );
}

#[test]
fn split_fails_on_a_segment_outside_the_document() {
    let source = sample(3, "d");
    assert_eq!(split_pdfs(&source, "p", "1,3-5"), Err(PdfError::InvalidPageNumber(4, 3)));
    assert_eq!(split_pdfs(&source, "p", "9"), Err(PdfError::InvalidPageNumber(9, 3)));
    assert_eq!(
        split_pdfs(&source, "p", "1,,x"),
        Err(PdfError::InvalidRangeSyntax("x".to_string()))
    );
    assert_eq!(split_pdfs(&source, "p", ""), Err(PdfError::EmptySegmentSpecification));
    assert_eq!(split_pdfs(&sample(0, "d"), "p", "1"), Err(PdfError::EmptyResultDocument));
    assert_eq!(
        split_pdfs_with_segments(&source, "p", &vec![PageSegment::single(0)]),
        Err(PdfError::InvalidPageNumber(0, 3))
    );
    assert_eq!(
        split_pdfs_with_segments(&source, "p", &vec![PageSegment::range(2, 1)]),
        Err(PdfError::EmptyResultDocument)
    );
}

#[test]
fn a_segment_takes_its_pages() {
    let source = sample(4, "d");
    let part = create_pdf_with_segment(&source, &PageSegment::range(2, 3)).unwrap();
    assert_eq!(labels(&part), vec!["d2", "d3"]);
    let one = create_pdf_with_segment(&source, &PageSegment::named(4, None, "x".to_string())).unwrap();
    assert_eq!(labels(&one), vec!["d4"]);
    assert_eq!(
        create_pdf_with_segment(&source, &PageSegment::range(4, 4294967295)),
        Err(PdfError::InvalidPageNumber(5, 4))
    );
}

#[test]
fn results_refer_to_nothing_outside_themselves() {
    let mut source = Document::new();
    source.insert_object(id(1), dict(vec![("Self", Object::Reference(id(1))), ("Other", Object::Reference(id(2))), ("Gone", Object::Reference(id(50)))]));
    source.insert_object(id(2), dict(vec![("Back", Object::Reference(id(1))), ("List", Object::Array(vec![Object::Reference(id(3)), Object::Reference(id(51))]))]));
    source.insert_object(id(3), Object::Stream(Stream {
        dict: Dictionary { entries: vec![Entry { key: b"Up".to_vec(), value: Object::Reference(id(2)) }] },
        content: vec![1, 2, 3],
        allows_compression: false,
        start_position: Some(12),
    }));
    assert!(source.set_pages(vec![id(1), id(2)]));
    let merged = merge_pdfs(&vec![source]).unwrap();
    assert!(refers_to_itself_only(&merged));
    assert_eq!(merged.page_count(), 2);
    assert_eq!(*merged.unresolved(), vec![id(50), id(51), id(51), id(50)]);
    assert_eq!(
        merged.get_object(id(3)),
        Some(&Object::Stream(Stream {
            dict: Dictionary { entries: vec![Entry { key: b"Up".to_vec(), value: Object::Reference(id(2)) }] },
            content: vec![1, 2, 3],
            allows_compression: false,
            start_position: Some(12),
        }))
    );
}

#[test]
fn documents_hold_objects_under_their_ids() {
    let mut doc = Document::new();
    assert_eq!(doc.len(), 0);
    doc.insert_object(id(5), Object::Integer(5));
    doc.insert_object(id(2), Object::Integer(2));
    doc.insert_object(ObjectId { number: 2, generation: 3 }, Object::Integer(23));
    doc.insert_object(id(5), Object::Integer(55));
    assert_eq!(doc.len(), 3);
    assert_eq!(doc.max_id(), 5);
    assert_eq!(doc.get_object(id(5)), Some(&Object::Integer(55)));
    assert_eq!(doc.get_object(id(4)), None);
    assert!(doc.has_object(ObjectId { number: 2, generation: 3 }));
    assert_eq!(doc.id_at(0), id(2));
    assert_eq!(doc.id_at(1), ObjectId { number: 2, generation: 3 });
    assert_eq!(doc.id_at(2), id(5));
    assert_eq!(doc.add_object(Object::Null), Ok(id(6)));
    assert_eq!(doc.new_object_id(), Ok(id(7)));
    assert_eq!(doc.max_id(), 7);
    assert!(!doc.set_pages(vec![id(5), id(7)]));
    assert!(!doc.set_pages(vec![id(5), id(2)]));
    assert_eq!(doc.page_count(), 0);
    doc.insert_object(id(5), dict(vec![("Type", name("Page"))]));
    doc.insert_object(id(2), dict(vec![]));
    assert!(doc.set_pages(vec![id(5), id(2)]));
    assert_eq!(*doc.pages(), vec![id(5), id(2)]);
}

#[test]
fn dictionaries_set_and_get() {
    let mut d = Dictionary::new();
    d.set(b"A".to_vec(), Object::Integer(1));
    d.set(b"B".to_vec(), Object::Integer(2));
    d.set(b"A".to_vec(), Object::Integer(3));
    assert_eq!(d.len(), 2);
    assert_eq!(d.get(&b"A".to_vec()), Some(&Object::Integer(3)));
    assert_eq!(d.get(&b"B".to_vec()), Some(&Object::Integer(2)));
    assert_eq!(d.get(&b"C".to_vec()), None);
    assert_eq!(name_bytes("Parent"), b"Parent".to_vec());
    assert_eq!(name_bytes("\u{e9}\u{20ac}"), vec![0xe9, 63]);
}
