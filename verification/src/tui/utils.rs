//! Checks on what the user has entered: files, and the pages to delete.

use crate::text::{
    chars_of, contains_char, decimal, parse_u32, parse_u32_spec, push_chars, push_decimal, split,
    split_on, trim, trimmed, views,
};
use crate::tui::errors::{TuiError, TuiErrorView};
use vstd::prelude::*;

verus! {

/// What was found out about a path: whether a file is there, and whether
/// it can be read as a PDF document.
#[derive(Debug, Clone, Copy, PartialEq, Eq, Structural)]
pub struct FileProbe {
    pub exists: bool,
    pub loads: bool,
}

/// `std::path::Path::extension` gives what stands behind the last dot of
/// the file name of a path, if there is such a dot that is not the first
/// character. What counts as the file name depends on the platform, so
/// nothing is claimed of the result.
#[verifier::external_body]
fn path_extension(path: &str) -> (extension: Option<String>) {
    std::path::Path::new(path).extension().and_then(|e| e.to_str()).map(
        |e| e.to_string(),
    )
}

/// Whether a file that was probed, with the extension that its path has,
/// counts as a PDF file: it is there, its extension is `pdf`, and it loads.
pub open spec fn is_pdf_verdict(probe: FileProbe, extension: Option<Seq<char>>) -> bool {
    probe.exists && extension == Some("pdf"@) && probe.loads
}

/// The text of an optional string.
pub open spec fn optional_text(s: Option<String>) -> Option<Seq<char>> {
    match s {
        Some(t) => Some(t@),
        None => None,
    }
}

/// Decides whether a file that was probed counts as a PDF file.
pub fn pdf_verdict(probe: FileProbe, extension: &Option<String>) -> (b: bool)
    ensures
        b == is_pdf_verdict(probe, optional_text(*extension)),
{
    if !probe.exists {
        return false;
    }
    match extension {
        Some(e) => {
            let wanted = String::from_str("pdf");
            *e == wanted && probe.loads
        },
        None => false,
    }
}

/// Whether the file at `path`, which was probed, counts as a PDF file. A
/// file that is not there or does not load never does.
pub fn is_pdf_file(path: &str, probe: FileProbe) -> (b: bool)
    ensures
        b ==> probe.exists && probe.loads,
{
    let extension = path_extension(path);
    pdf_verdict(probe, &extension)
}

/// What is to be said of a path that the user has entered, given what
/// was found out about it and whether it counts as a PDF file.
pub open spec fn file_verdict(input: Seq<char>, probe: FileProbe, is_pdf: bool) -> Result<
    (),
    TuiErrorView,
> {
    if input.len() == 0 {
        Err(TuiErrorView::FileNotFound { path: "empty path"@ })
    } else if !probe.exists {
        Err(TuiErrorView::FileNotFound { path: input })
    } else if !is_pdf {
        Err(TuiErrorView::InvalidPdf { path: input })
    } else {
        Ok(())
    }
}

/// The outcome of a check without a value, as mathematical values.
pub open spec fn check_view(r: Result<(), TuiError>) -> Result<(), TuiErrorView> {
    match r {
        Ok(_) => Ok(()),
        Err(e) => Err(e@),
    }
}

/// Decides what is to be said of a path that the user has entered.
pub fn check_file_input(input: &str, probe: FileProbe, is_pdf: bool) -> (r: Result<(), TuiError>)
    ensures
        check_view(r) == file_verdict(input@, probe, is_pdf),
{
    if input.is_empty() {
        return Err(TuiError::FileNotFound { path: String::from_str("empty path") });
    }
    if !probe.exists {
        return Err(TuiError::FileNotFound { path: String::from_str(input) });
    }
    if !is_pdf {
        return Err(TuiError::InvalidPdf { path: String::from_str(input) });
    }
    Ok(())
}

/// Checks a path that the user has entered: it must not be empty, a file
/// must be there, and the file must count as a PDF file.
pub fn validate_file_input(input: &str, probe: FileProbe) -> (r: Result<(), TuiError>)
    ensures
        check_view(r) == file_verdict(input@, probe, true) || check_view(r) == file_verdict(
            input@,
            probe,
            false,
        ),
        !(probe.exists && probe.loads) ==> check_view(r) == file_verdict(input@, probe, false),
{
    let is_pdf = is_pdf_file(input, probe);
    check_file_input(input, probe, is_pdf)
}

/// Checks that there are files enough to merge: two at least.
pub fn validate_merge_requirements(files: &[String]) -> (r: Result<(), TuiError>)
    ensures
        check_view(r) == if files@.len() < 2 {
            Err::<(), TuiErrorView>(TuiErrorView::InsufficientFiles { count: files@.len() as usize })
        } else {
            Ok::<(), TuiErrorView>(())
        },
{
    if files.len() < 2 {
        return Err(TuiError::InsufficientFiles { count: files.len() });
    }
    Ok(())
}

/// Checks that there is the one file that a deletion of pages works on.
pub fn validate_delete_requirements(files: &[String]) -> (r: Result<(), TuiError>)
    ensures
        check_view(r) == if files@.len() != 1 {
            Err::<(), TuiErrorView>(TuiErrorView::TooManyFiles { count: files@.len() as usize })
        } else {
            Ok::<(), TuiErrorView>(())
        },
{
    if files.len() != 1 {
        return Err(TuiError::TooManyFiles { count: files.len() });
    }
    Ok(())
}

/// Checks that there is the one file that a split works on.
pub fn validate_split_requirements(files: &[String]) -> (r: Result<(), TuiError>)
    ensures
        check_view(r) == if files@.len() != 1 {
            Err::<(), TuiErrorView>(TuiErrorView::TooManyFiles { count: files@.len() as usize })
        } else {
            Ok::<(), TuiErrorView>(())
        },
{
    if files.len() != 1 {
        return Err(TuiError::TooManyFiles { count: files.len() });
    }
    Ok(())
}

/// The page that a text denotes, whitespace around it aside. A text that
/// is no number fails with the text as it was written; page 0 fails too.
pub open spec fn single_page_spec(s: Seq<char>) -> Result<u32, TuiErrorView> {
    match parse_u32_spec(trimmed(s)) {
        None => Err(TuiErrorView::InvalidPageRange { input: "Invalid page: "@ + s }),
        Some(p) => if p == 0 {
            Err(TuiErrorView::InvalidPageRange { input: "Page numbers must be greater than 0"@ })
        } else {
            Ok(p)
        },
    }
}

/// The page numbers from `a` to `b`, both included.
pub open spec fn page_numbers(a: u32, b: u32) -> Seq<u32> {
    Seq::new((b - a + 1) as nat, |i: int| (a + i) as u32)
}

/// The pages that a range such as `3-7` denotes: two pages around one
/// hyphen, the first not behind the second.
pub open spec fn page_range_spec(s: Seq<char>) -> Result<Seq<u32>, TuiErrorView> {
    let parts = split(s, '-');
    if parts.len() != 2 {
        Err(TuiErrorView::InvalidPageRange { input: "Invalid range format: "@ + s })
    } else {
        match single_page_spec(parts[0]) {
            Err(e) => Err(e),
            Ok(a) => match single_page_spec(parts[1]) {
                Err(e) => Err(e),
                Ok(b) => if a > b {
                    Err(
                        TuiErrorView::InvalidPageRange {
                            input: "Invalid range: "@ + decimal(a as nat) + " > "@ + decimal(
                                b as nat,
                            ) + " (start must be <= end)"@,
                        },
                    )
                } else {
                    Ok(page_numbers(a, b))
                },
            },
        }
    }
}

/// The pages that one part of a list denotes: none for a part that is
/// blank, else a range or a single page.
pub open spec fn page_part_spec(s: Seq<char>) -> Result<Seq<u32>, TuiErrorView> {
    let t = trimmed(s);
    if t.len() == 0 {
        Ok(Seq::empty())
    } else if t.contains('-') {
        page_range_spec(t)
    } else {
        match single_page_spec(t) {
            Ok(p) => Ok(seq![p]),
            Err(e) => Err(e),
        }
    }
}

/// The pages that the first `n` parts denote, in the order written, or
/// the failure of the first part that denotes none.
pub open spec fn listed_pages(parts: Seq<Seq<char>>, n: nat) -> Result<Seq<u32>, TuiErrorView>
    decreases n,
{
    if 0 < n <= parts.len() {
        match listed_pages(parts, (n - 1) as nat) {
            Err(e) => Err(e),
            Ok(pages) => match page_part_spec(parts[n - 1]) {
                Err(e) => Err(e),
                Ok(more) => Ok(pages + more),
            },
        }
    } else {
        Ok(Seq::empty())
    }
}

/// Whether `out` is `pages` in ascending order with each page once.
pub open spec fn is_normalized(out: Seq<u32>, pages: Seq<u32>) -> bool {
    &&& forall|i: int, j: int| 0 <= i < j < out.len() ==> out[i] < out[j]
    &&& forall|p: u32| out.contains(p) <==> pages.contains(p)
}

/// What a list of pages such as `1-3,5,7-9` stands for: the pages it
/// names, in ascending order, each once. It fails on the first part that
/// is wrong, and where it names no page.
pub open spec fn page_ranges_spec(input: Seq<char>, r: Result<Seq<u32>, TuiErrorView>) -> bool {
    let parts = split(input, ',');
    match listed_pages(parts, parts.len()) {
        Err(e) => r == Err::<Seq<u32>, TuiErrorView>(e),
        Ok(pages) => normalized_spec(pages, r),
    }
}

/// What normalizing makes of pages: the same pages in ascending order,
/// each once; it fails where there is none.
pub open spec fn normalized_spec(pages: Seq<u32>, r: Result<Seq<u32>, TuiErrorView>) -> bool {
    if pages.len() == 0 {
        r == Err::<Seq<u32>, TuiErrorView>(
            TuiErrorView::InvalidPageRange { input: "No valid pages specified"@ },
        )
    } else {
        r matches Ok(out) && is_normalized(out, pages)
    }
}

/// The outcome of reading pages, as mathematical values.
pub open spec fn pages_view(r: Result<Vec<u32>, TuiError>) -> Result<Seq<u32>, TuiErrorView> {
    match r {
        Ok(v) => Ok(v@),
        Err(e) => Err(e@),
    }
}

/// The outcome of reading one page, as mathematical values.
pub open spec fn page_view(r: Result<u32, TuiError>) -> Result<u32, TuiErrorView> {
    match r {
        Ok(p) => Ok(p),
        Err(e) => Err(e@),
    }
}

fn single_page(text: &Vec<char>) -> (r: Result<u32, TuiError>)
    ensures
        page_view(r) == single_page_spec(text@),
{
    let t = trim(text);
    match parse_u32(&t) {
        None => {
            let mut input = String::from_str("Invalid page: ");
            push_chars(&mut input, text);
            Err(TuiError::InvalidPageRange { input })
        },
        Some(page) => {
            if page == 0 {
                Err(
                    TuiError::InvalidPageRange {
                        input: String::from_str("Page numbers must be greater than 0"),
                    },
                )
            } else {
                Ok(page)
            }
        },
    }
}

/// Reads a single page number.
pub fn parse_single_page(page_str: &str) -> (r: Result<u32, TuiError>)
    ensures
        page_view(r) == single_page_spec(page_str@),
{
    let text = chars_of(page_str);
    single_page(&text)
}

fn page_range(text: &Vec<char>) -> (r: Result<Vec<u32>, TuiError>)
    ensures
        pages_view(r) == page_range_spec(text@),
{
    let parts = split_on(text, '-');
    assert(views(parts@).len() == parts@.len());
    if parts.len() != 2 {
        let mut input = String::from_str("Invalid range format: ");
        push_chars(&mut input, text);
        return Err(TuiError::InvalidPageRange { input });
    }
    assert(views(parts@)[0] == parts@[0]@);
    assert(views(parts@)[1] == parts@[1]@);
    let start = match single_page(&parts[0]) {
        Ok(p) => p,
        Err(e) => {
            return Err(e);
        },
    };
    let end = match single_page(&parts[1]) {
        Ok(p) => p,
        Err(e) => {
            return Err(e);
        },
    };
    if start > end {
        let mut input = String::from_str("Invalid range: ");
        push_decimal(&mut input, start as u64);
        input.append(" > ");
        push_decimal(&mut input, end as u64);
        input.append(" (start must be <= end)");
        return Err(TuiError::InvalidPageRange { input });
    }
    let mut pages: Vec<u32> = Vec::new();
    let mut p: u64 = start as u64;
    while p <= end as u64
        invariant
            start <= p <= end + 1,
            pages@ == Seq::new((p - start) as nat, |i: int| (start + i) as u32),
        decreases end + 1 - p,
    {
        pages.push(p as u32);
        p += 1;
    }
    Ok(pages)
}

/// Reads a range of pages such as `3-7`.
pub fn parse_page_range(range_str: &str) -> (r: Result<Vec<u32>, TuiError>)
    ensures
        pages_view(r) == page_range_spec(range_str@),
{
    let text = chars_of(range_str);
    page_range(&text)
}

fn page_part(text: &Vec<char>) -> (r: Result<Vec<u32>, TuiError>)
    ensures
        pages_view(r) == page_part_spec(text@),
{
    let part = trim(text);
    if part.len() == 0 {
        return Ok(Vec::new());
    }
    if contains_char(&part, '-') {
        page_range(&part)
    } else {
        match single_page(&part) {
            Ok(page) => {
                let mut pages: Vec<u32> = Vec::new();
                pages.push(page);
                assert(pages@ == seq![page]);
                Ok(pages)
            },
            Err(e) => Err(e),
        }
    }
}

/// Reads one part of a list of pages: a single page or a range.
pub fn parse_page_part(part: &str) -> (r: Result<Vec<u32>, TuiError>)
    ensures
        pages_view(r) == page_part_spec(part@),
{
    let text = chars_of(part);
    page_part(&text)
}

/// Puts pages into ascending order, each page once.
pub fn normalize_pages(pages: Vec<u32>) -> (r: Result<Vec<u32>, TuiError>)
    ensures
        normalized_spec(pages@, pages_view(r)),
{
    if pages.len() == 0 {
        return Err(
            TuiError::InvalidPageRange { input: String::from_str("No valid pages specified") },
        );
    }
    let mut out: Vec<u32> = Vec::new();
    let mut i: usize = 0;
    while i < pages.len()
        invariant
            i <= pages@.len(),
            forall|a: int, b: int| 0 <= a < b < out@.len() ==> out@[a] < out@[b],
            forall|p: u32| out@.contains(p) <==> pages@.take(i as int).contains(p),
        decreases pages.len() - i,
    {
        let page = pages[i];
        let mut lo: usize = 0;
        let mut hi: usize = out.len();
        if hi > 0 && out[hi - 1] < page {
            lo = hi;
        }
        while lo < hi
            invariant
                lo <= hi <= out@.len(),
                forall|a: int, b: int| 0 <= a < b < out@.len() ==> out@[a] < out@[b],
                forall|k: int| 0 <= k < lo ==> out@[k] < page,
                forall|k: int| hi <= k < out@.len() ==> out@[k] >= page,
            decreases hi - lo,
        {
            let mid = lo + (hi - lo) / 2;
            if out[mid] < page {
                lo = mid + 1;
            } else {
                hi = mid;
            }
        }
        let ghost before = out@;
        let ghost seen = pages@.take(i as int);
        let ghost more = pages@.take(i + 1);
        assert(more =~= seen.push(page));
        assert(forall|p: u32| before.contains(p) <==> seen.contains(p));
        if lo < out.len() && out[lo] == page {
            assert forall|p: u32| out@.contains(p) <==> more.contains(p) by {
                if seen.contains(p) {
                    let x = choose|x: int| 0 <= x < seen.len() && seen[x] == p;
                    assert(more[x] == p);
                }
                if more.contains(p) {
                    let x = choose|x: int| 0 <= x < more.len() && more[x] == p;
                    if x < seen.len() {
                        assert(seen[x] == p);
                    } else {
                        assert(out@[lo as int] == p);
                    }
                }
            }
        } else {
            out.insert(lo, page);
            proof {
                assert forall|a: int, b: int| 0 <= a < b < out@.len() implies out@[a] < out@[b] by {
                    let x = if a < lo {
                        a
                    } else {
                        a - 1
                    };
                    let y = if b < lo {
                        b
                    } else {
                        b - 1
                    };
                    if a != lo && b != lo {
                        assert(before[x] < before[y]);
                    } else if a == lo {
                        assert(before[y] >= page);
                        assert(before[y] != page) by {
                            if y > lo {
                                assert(before[lo as int] < before[y]);
                            }
                        }
                    } else {
                        assert(before[x] < page);
                    }
                }
                assert forall|p: u32| out@.contains(p) <==> more.contains(p) by {
                    if out@.contains(p) {
                        let x = choose|x: int| 0 <= x < out@.len() && out@[x] == p;
                        if x < lo {
                            assert(before[x] == p);
                            assert(before.contains(p));
                        } else if x > lo {
                            assert(before[x - 1] == p);
                            assert(before.contains(p));
                        } else {
                            assert(more[i as int] == p);
                        }
                        if before.contains(p) {
                            assert(seen.contains(p));
                            let y = choose|y: int| 0 <= y < seen.len() && seen[y] == p;
                            assert(more[y] == p);
                        }
                    }
                    if more.contains(p) {
                        let x = choose|x: int| 0 <= x < more.len() && more[x] == p;
                        if x < seen.len() {
                            assert(seen[x] == p);
                            assert(seen.contains(p));
                            assert(before.contains(p));
                            let y = choose|y: int| 0 <= y < before.len() && before[y] == p;
                            if y < lo {
                                assert(out@[y] == p);
                            } else {
                                assert(out@[y + 1] == p);
                            }
                        } else {
                            assert(out@[lo as int] == p);
                        }
                    }
                }
            }
        }
        i += 1;
    }
    assert(pages@.take(pages@.len() as int) == pages@);
    Ok(out)
}

/// A failure among the first parts is the failure of the whole.
pub proof fn lemma_listed_pages_fail(parts: Seq<Seq<char>>, m: nat, n: nat)
    requires
        m <= n <= parts.len(),
        listed_pages(parts, m) is Err,
    ensures
        listed_pages(parts, n) == listed_pages(parts, m),
    decreases n,
{
    if m < n {
        lemma_listed_pages_fail(parts, m, (n - 1) as nat);
    }
}

/// Reads a list of pages such as `1-3,5,7-9` and returns the pages that
/// it names in ascending order, each once.
pub fn validate_page_ranges(pages_str: &str) -> (r: Result<Vec<u32>, TuiError>)
    ensures
        page_ranges_spec(pages_str@, pages_view(r)),
{
    let text = chars_of(pages_str);
    let parts = split_on(&text, ',');
    let ghost texts = views(parts@);
    let mut all_pages: Vec<u32> = Vec::new();
    let mut i: usize = 0;
    while i < parts.len()
        invariant
            i <= parts@.len(),
            texts == views(parts@),
            texts == split(pages_str@, ','),
            listed_pages(texts, i as nat) == Ok::<Seq<u32>, TuiErrorView>(all_pages@),
        decreases parts.len() - i,
    {
        assert(texts[i as int] == parts@[i as int]@);
        match page_part(&parts[i]) {
            Ok(mut part_pages) => {
                let ghost before = all_pages@;
                let ghost more = part_pages@;
                all_pages.append(&mut part_pages);
                assert(all_pages@ == before + more);
            },
            Err(e) => {
                proof {
                    assert(listed_pages(texts, (i + 1) as nat) == Err::<Seq<u32>, TuiErrorView>(e@));
                    lemma_listed_pages_fail(texts, (i + 1) as nat, texts.len());
                }
                return Err(e);
            },
        }
        i += 1;
    }
    normalize_pages(all_pages)
}

} // verus!
