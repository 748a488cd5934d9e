//! Page segments: the runs of pages that a split extracts, how they are
//! written by a person, and the name of the file that each one goes to.

use crate::pdf::delete::{extract_pages, extraction, result_view};
use crate::pdf::document::{is_page, Document, DocumentView};
use crate::pdf::error::{PdfError, PdfErrorView};
use crate::pdf::integrity::intact;
use crate::pdf::object::ObjectId;
use crate::pdf::page_tree::page_tree_sound;
use crate::text::{
    chars_of, contains_char, decimal, parse_u32, parse_u32_spec, push_decimal, split, split_on,
    string_of, trim, trimmed, views,
};
use vstd::prelude::*;

verus! {

/// A run of pages, from `start` to `end`, or the single page `start` where
/// there is no `end`; it may carry a name for its output file.
#[derive(Debug, Clone, PartialEq, Eq)]
pub struct PageSegment {
    pub start: u32,
    pub end: Option<u32>,
    pub name: Option<String>,
}

/// A `PageSegment` with its name as a character sequence.
pub struct PageSegmentView {
    pub start: u32,
    pub end: Option<u32>,
    pub name: Option<Seq<char>>,
}

impl View for PageSegment {
    type V = PageSegmentView;

    open spec fn view(&self) -> PageSegmentView {
        PageSegmentView {
            start: self.start,
            end: self.end,
            name: match self.name {
                Some(n) => Some(n@),
                None => None,
            },
        }
    }
}

impl PageSegmentView {
    /// A segment starts at page 1 or later and does not end before it starts.
    pub open spec fn is_valid(self) -> bool {
        self.start >= 1 && (self.end matches Some(e) ==> e >= self.start)
    }

    /// The page numbers of the segment, in ascending order. A segment that
    /// ends before it starts has none.
    pub open spec fn pages(self) -> Seq<u32> {
        match self.end {
            Some(e) => if e >= self.start {
                Seq::new((e - self.start + 1) as nat, |i: int| (self.start + i) as u32)
            } else {
                Seq::empty()
            },
            None => seq![self.start],
        }
    }

    /// The name of the file that the segment is written to: the prefix, then
    /// the segment's name or its page numbers.
    pub open spec fn filename(self, prefix: Seq<char>) -> Seq<char> {
        match self.name {
            Some(n) => prefix + "_"@ + n + ".pdf"@,
            None => match self.end {
                Some(e) => if e != self.start {
                    prefix + "_pages_"@ + decimal(self.start as nat) + "_"@ + decimal(e as nat)
                        + ".pdf"@
                } else {
                    prefix + "_page_"@ + decimal(self.start as nat) + ".pdf"@
                },
                None => prefix + "_page_"@ + decimal(self.start as nat) + ".pdf"@,
            },
        }
    }
}

impl PageSegment {
    /// The segment that is the one page `page`.
    pub fn single(page: u32) -> (s: Self)
        ensures
            s@ == (PageSegmentView { start: page, end: None, name: None }),
    {
        PageSegment { start: page, end: None, name: None }
    }

    /// The segment of the pages from `start` to `end`.
    pub fn range(start: u32, end: u32) -> (s: Self)
        ensures
            s@ == (PageSegmentView { start, end: Some(end), name: None }),
    {
        PageSegment { start, end: Some(end), name: None }
    }

    /// The segment of the pages from `start` to `end`, or of the one page
    /// `start`, that goes by `name`.
    pub fn named(start: u32, end: Option<u32>, name: String) -> (s: Self)
        ensures
            s@ == (PageSegmentView { start, end, name: Some(name@) }),
    {
        PageSegment { start, end, name: Some(name) }
    }

    /// The page numbers of the segment, in ascending order.
    pub fn get_pages(&self) -> (pages: Vec<u32>)
        ensures
            pages@ == self@.pages(),
    {
        let mut pages: Vec<u32> = Vec::new();
        match self.end {
            None => {
                pages.push(self.start);
                assert(pages@ == seq![self.start]);
            },
            Some(end) => {
                let start = self.start;
                let mut p: u64 = start as u64;
                while p <= end as u64
                    invariant
                        start <= p <= end + 1 || (end < start && p == start),
                        pages@ == Seq::new((p - start) as nat, |i: int| (start + i) as u32),
                    decreases end + 1 - p,
                {
                    pages.push(p as u32);
                    p += 1;
                }
            },
        }
        pages
    }

    /// Whether the segment starts at page 1 or later and does not end before
    /// it starts.
    pub fn is_valid(&self) -> (b: bool)
        ensures
            b == self@.is_valid(),
    {
        self.start > 0 && match self.end {
            Some(end) => end >= self.start,
            None => true,
        }
    }

    /// The name of the file that the segment is written to.
    pub fn generate_filename(&self, base_prefix: &str) -> (name: String)
        ensures
            name@ == self@.filename(base_prefix@),
    {
        let mut out = String::from_str(base_prefix);
        match &self.name {
            Some(n) => {
                out.append("_");
                out.append(n.as_str());
            },
            None => {
                let ranged = match self.end {
                    Some(end) => end != self.start,
                    None => false,
                };
                if ranged {
                    out.append("_pages_");
                    push_decimal(&mut out, self.start as u64);
                    out.append("_");
                    push_decimal(&mut out, self.end.unwrap() as u64);
                } else {
                    out.append("_page_");
                    push_decimal(&mut out, self.start as u64);
                }
            },
        }
        out.append(".pdf");
        out
    }
}

/// The views of the segments of `v`.
pub open spec fn segment_views(v: Seq<PageSegment>) -> Seq<PageSegmentView> {
    v.map_values(|s: PageSegment| s@)
}

/// The outcome of a parse with its strings as character sequences.
pub open spec fn parsed_view(r: Result<Vec<PageSegment>, PdfError>) -> Result<
    Seq<PageSegmentView>,
    PdfErrorView,
> {
    match r {
        Ok(v) => Ok(segment_views(v@)),
        Err(e) => Err(e@),
    }
}

/// `s` with every parenthesis replaced by a comma.
pub open spec fn normalized(s: Seq<char>) -> Seq<char> {
    s.map_values(
        |c: char|
            if c == '(' || c == ')' {
                ','
            } else {
                c
            },
    )
}

/// The pieces trimmed of whitespace, without those that are then empty.
pub open spec fn nonempty_trimmed(pieces: Seq<Seq<char>>) -> Seq<Seq<char>>
    decreases pieces.len(),
{
    if pieces.len() == 0 {
        Seq::empty()
    } else {
        let rest = nonempty_trimmed(pieces.drop_last());
        let t = trimmed(pieces.last());
        if t.len() > 0 {
            rest.push(t)
        } else {
            rest
        }
    }
}

/// The tokens of a page specification: what stands between its commas,
/// trimmed, where anything is left.
pub open spec fn tokens(s: Seq<char>) -> Seq<Seq<char>> {
    nonempty_trimmed(split(s, ','))
}

/// The segment that two numbers written around one hyphen denote, if they do.
pub open spec fn range_of(first: Option<u32>, second: Option<u32>, name: Option<Seq<char>>) -> Option<
    PageSegmentView,
> {
    match (first, second) {
        (Some(a), Some(b)) => {
            let seg = PageSegmentView { start: a, end: Some(b), name };
            if seg.is_valid() {
                Some(seg)
            } else {
                None
            }
        },
        _ => None,
    }
}

/// The segment that one written number denotes, if it does.
pub open spec fn single_of(page: Option<u32>, name: Option<Seq<char>>) -> Option<PageSegmentView> {
    match page {
        Some(p) => if p >= 1 {
            Some(PageSegmentView { start: p, end: None, name })
        } else {
            None
        },
        None => None,
    }
}

/// The unnamed segment that a token denotes: a page, or two pages around a
/// hyphen, each of which may stand in whitespace. `None` where the token is
/// neither, or where a page is zero, or the range ends before it starts.
pub open spec fn plain_segment(token: Seq<char>) -> Option<PageSegmentView> {
    if token.contains('-') {
        let parts = split(token, '-');
        if parts.len() == 2 {
            range_of(parse_u32_spec(trimmed(parts[0])), parse_u32_spec(trimmed(parts[1])), None)
        } else {
            None
        }
    } else {
        single_of(parse_u32_spec(token), None)
    }
}

/// The segments of the tokens in order, or the first token that denotes none.
pub open spec fn plain_segments(toks: Seq<Seq<char>>) -> Result<Seq<PageSegmentView>, Seq<char>>
    decreases toks.len(),
{
    if toks.len() == 0 {
        Ok(Seq::empty())
    } else {
        match plain_segments(toks.drop_last()) {
            Err(t) => Err(t),
            Ok(segs) => match plain_segment(toks.last()) {
                Some(seg) => Ok(segs.push(seg)),
                None => Err(toks.last()),
            },
        }
    }
}

/// What a page specification such as `1,3-5,(7,9)` stands for: one segment
/// for each token, in the order written. It fails on the first token that is
/// no segment, naming it, and on a specification without tokens.
pub open spec fn parse_page_segments_spec(input: Seq<char>) -> Result<
    Seq<PageSegmentView>,
    PdfErrorView,
> {
    let toks = tokens(normalized(input));
    match plain_segments(toks) {
        Err(t) => Err(PdfErrorView::InvalidRangeSyntax(t)),
        Ok(segs) => if segs.len() == 0 {
            Err(PdfErrorView::EmptySegmentSpecification)
        } else {
            Ok(segs)
        },
    }
}

/// The segment that a token of a named specification denotes. With a colon
/// it is a name and a page or range, and the range's numbers stand bare;
/// without a colon it is what the token denotes in an unnamed
/// specification. `None` where the token denotes no segment.
pub open spec fn named_segment(token: Seq<char>) -> Option<PageSegmentView> {
    if token.contains(':') {
        let parts = split(token, ':');
        if parts.len() == 2 {
            let name = Some(trimmed(parts[0]));
            let pages = trimmed(parts[1]);
            if pages.contains('-') {
                let ends = split(pages, '-');
                if ends.len() == 2 {
                    range_of(parse_u32_spec(ends[0]), parse_u32_spec(ends[1]), name)
                } else {
                    None
                }
            } else {
                single_of(parse_u32_spec(pages), name)
            }
        } else {
            None
        }
    } else {
        plain_segment(token)
    }
}

/// The segments of the tokens in order, or the first token that denotes
/// none.
pub open spec fn named_segments(toks: Seq<Seq<char>>) -> Result<Seq<PageSegmentView>, Seq<char>>
    decreases toks.len(),
{
    if toks.len() == 0 {
        Ok(Seq::empty())
    } else {
        match named_segments(toks.drop_last()) {
            Err(t) => Err(t),
            Ok(segs) => match named_segment(toks.last()) {
                Some(seg) => Ok(segs.push(seg)),
                None => Err(toks.last()),
            },
        }
    }
}

/// What a named specification such as `intro:1-3,4,(7,9),end:11` stands
/// for: one segment for each token, in the order written, where
/// parentheses count as commas. It fails on the first token that is no
/// segment, naming it, and on a specification without tokens.
pub open spec fn parse_named_segments_spec(input: Seq<char>) -> Result<
    Seq<PageSegmentView>,
    PdfErrorView,
> {
    let toks = tokens(normalized(input));
    match named_segments(toks) {
        Err(t) => Err(PdfErrorView::InvalidRangeSyntax(t)),
        Ok(segs) => if segs.len() == 0 {
            Err(PdfErrorView::EmptySegmentSpecification)
        } else {
            Ok(segs)
        },
    }
}

fn normalize(v: &Vec<char>) -> (r: Vec<char>)
    ensures
        r@ == normalized(v@),
{
    let mut r: Vec<char> = Vec::new();
    let mut i: usize = 0;
    while i < v.len()
        invariant
            i <= v.len(),
            r@ == normalized(v@).take(i as int),
        decreases v.len() - i,
    {
        let c = v[i];
        if c == '(' || c == ')' {
            r.push(',');
        } else {
            r.push(c);
        }
        i += 1;
    }
    assert(normalized(v@).take(v@.len() as int) == normalized(v@));
    r
}

fn tokenize(v: &Vec<char>) -> (toks: Vec<Vec<char>>)
    ensures
        views(toks@) == tokens(v@),
{
    let pieces = split_on(v, ',');
    let mut toks: Vec<Vec<char>> = Vec::new();
    let mut i: usize = 0;
    while i < pieces.len()
        invariant
            i <= pieces.len(),
            views(pieces@) == split(v@, ','),
            views(toks@) == nonempty_trimmed(views(pieces@).take(i as int)),
        decreases pieces.len() - i,
    {
        let t = trim(&pieces[i]);
        proof {
            let done = views(pieces@).take(i + 1);
            assert(done.drop_last() == views(pieces@).take(i as int));
            assert(done.last() == pieces@[i as int]@);
            assert(views(toks@.push(t)) == views(toks@).push(t@));
        }
        if t.len() > 0 {
            toks.push(t);
        }
        i += 1;
    }
    assert(views(pieces@).take(pieces@.len() as int) == views(pieces@));
    toks
}

fn make_range(first: Option<u32>, second: Option<u32>, name: Option<String>) -> (r: Option<
    PageSegment,
>)
    ensures
        match r {
            Some(s) => range_of(first, second, name_view(name)) == Some(s@),
            None => range_of(first, second, name_view(name)) is None,
        },
{
    match (first, second) {
        (Some(a), Some(b)) => {
            let seg = PageSegment { start: a, end: Some(b), name };
            if seg.is_valid() {
                Some(seg)
            } else {
                None
            }
        },
        _ => None,
    }
}

fn make_single(page: Option<u32>, name: Option<String>) -> (r: Option<PageSegment>)
    ensures
        match r {
            Some(s) => single_of(page, name_view(name)) == Some(s@),
            None => single_of(page, name_view(name)) is None,
        },
{
    match page {
        Some(p) => if p >= 1 {
            Some(PageSegment { start: p, end: None, name })
        } else {
            None
        },
        None => None,
    }
}

/// The name of a segment as a character sequence.
pub open spec fn name_view(name: Option<String>) -> Option<Seq<char>> {
    match name {
        Some(n) => Some(n@),
        None => None,
    }
}

fn parse_plain_token(token: &Vec<char>) -> (r: Option<PageSegment>)
    ensures
        match r {
            Some(s) => plain_segment(token@) == Some(s@),
            None => plain_segment(token@) is None,
        },
{
    if contains_char(token, '-') {
        let parts = split_on(token, '-');
        assert(views(parts@).len() == parts@.len());
        if parts.len() == 2 {
            let a = trim(&parts[0]);
            let b = trim(&parts[1]);
            assert(views(parts@)[0] == parts@[0]@);
            assert(views(parts@)[1] == parts@[1]@);
            make_range(parse_u32(&a), parse_u32(&b), None)
        } else {
            None
        }
    } else {
        make_single(parse_u32(token), None)
    }
}

fn parse_plain_chars(input: &Vec<char>) -> (r: Result<Vec<PageSegment>, PdfError>)
    ensures
        parsed_view(r) == parse_page_segments_spec(input@),
{
    let clean = normalize(input);
    let toks = tokenize(&clean);
    let mut segments: Vec<PageSegment> = Vec::new();
    let mut i: usize = 0;
    assert(views(toks@).take(0) == Seq::<Seq<char>>::empty());
    assert(segment_views(segments@) == Seq::<PageSegmentView>::empty());
    while i < toks.len()
        invariant
            i <= toks.len(),
            views(toks@) == tokens(normalized(input@)),
            plain_segments(views(toks@).take(i as int)) == Ok::<Seq<PageSegmentView>, Seq<char>>(
                segment_views(segments@),
            ),
        decreases toks.len() - i,
    {
        proof {
            let done = views(toks@).take(i + 1);
            assert(done.drop_last() == views(toks@).take(i as int));
            assert(done.last() == toks@[i as int]@);
        }
        match parse_plain_token(&toks[i]) {
            Some(seg) => {
                assert(segment_views(segments@.push(seg)) == segment_views(segments@).push(seg@));
                segments.push(seg);
            },
            None => {
                proof {
                    lemma_plain_segments_fail(views(toks@), i + 1);
                    assert(views(toks@).take(toks@.len() as int) == views(toks@));
                }
                return Err(PdfError::InvalidRangeSyntax(string_of(&toks[i])));
            },
        }
        i += 1;
    }
    assert(views(toks@).take(toks@.len() as int) == views(toks@));
    if segments.len() == 0 {
        return Err(PdfError::EmptySegmentSpecification);
    }
    Ok(segments)
}

/// A failure among the first tokens is the failure of the whole.
pub proof fn lemma_plain_segments_fail(toks: Seq<Seq<char>>, n: int)
    requires
        0 <= n <= toks.len(),
        plain_segments(toks.take(n)) is Err,
    ensures
        plain_segments(toks) == plain_segments(toks.take(n)),
    decreases toks.len() - n,
{
    if n == toks.len() {
        assert(toks.take(n) == toks);
    } else {
        assert(toks.take(n + 1).drop_last() == toks.take(n));
        lemma_plain_segments_fail(toks, n + 1);
    }
}

/// A failure among the first tokens is the failure of the whole.
pub proof fn lemma_named_segments_fail(toks: Seq<Seq<char>>, n: int)
    requires
        0 <= n <= toks.len(),
        named_segments(toks.take(n)) is Err,
    ensures
        named_segments(toks) == named_segments(toks.take(n)),
    decreases toks.len() - n,
{
    if n == toks.len() {
        assert(toks.take(n) == toks);
    } else {
        assert(toks.take(n + 1).drop_last() == toks.take(n));
        lemma_named_segments_fail(toks, n + 1);
    }
}

/// Every segment that plain tokens denote is valid and has no name.
pub proof fn lemma_plain_segments_valid(toks: Seq<Seq<char>>)
    ensures
        plain_segments(toks) matches Ok(segs) ==> segs.len() == toks.len() && forall|i: int|
            0 <= i < segs.len() ==> (#[trigger] segs[i]).is_valid() && segs[i].name is None,
    decreases toks.len(),
{
    if toks.len() > 0 {
        lemma_plain_segments_valid(toks.drop_last());
    }
}

/// Every segment that the tokens of a named specification denote is
/// valid.
pub proof fn lemma_named_segments_valid(toks: Seq<Seq<char>>)
    ensures
        named_segments(toks) matches Ok(segs) ==> segs.len() == toks.len() && forall|i: int|
            0 <= i < segs.len() ==> (#[trigger] segs[i]).is_valid(),
    decreases toks.len(),
{
    if toks.len() > 0 {
        lemma_named_segments_valid(toks.drop_last());
    }
}

/// Parses a page specification such as `1,3-5,(7,9)` into its segments,
/// each of which is valid.
pub fn parse_page_segments(input: &str) -> (r: Result<Vec<PageSegment>, PdfError>)
    ensures
        parsed_view(r) == parse_page_segments_spec(input@),
        r matches Ok(v) ==> v@.len() > 0 && forall|i: int|
            0 <= i < v@.len() ==> (#[trigger] v@[i])@.is_valid(),
{
    let chars = chars_of(input);
    let r = parse_plain_chars(&chars);
    proof {
        lemma_plain_segments_valid(tokens(normalized(input@)));
        match &r {
            Ok(v) => {
                assert forall|i: int| 0 <= i < v@.len() implies (#[trigger] v@[i])@.is_valid() by {
                    assert(segment_views(v@)[i] == v@[i]@);
                }
            },
            Err(_) => {},
        }
    }
    r
}

fn parse_named_token(token: &Vec<char>) -> (r: Option<PageSegment>)
    ensures
        match r {
            Some(s) => named_segment(token@) == Some(s@),
            None => named_segment(token@) is None,
        },
{
    if contains_char(token, ':') {
        let parts = split_on(token, ':');
        assert(views(parts@).len() == parts@.len());
        if parts.len() == 2 {
            assert(views(parts@)[0] == parts@[0]@);
            assert(views(parts@)[1] == parts@[1]@);
            let name = Some(string_of(&trim(&parts[0])));
            let pages = trim(&parts[1]);
            if contains_char(&pages, '-') {
                let ends = split_on(&pages, '-');
                assert(views(ends@).len() == ends@.len());
                if ends.len() == 2 {
                    assert(views(ends@)[0] == ends@[0]@);
                    assert(views(ends@)[1] == ends@[1]@);
                    make_range(parse_u32(&ends[0]), parse_u32(&ends[1]), name)
                } else {
                    None
                }
            } else {
                make_single(parse_u32(&pages), name)
            }
        } else {
            None
        }
    } else {
        parse_plain_token(token)
    }
}

/// Parses a named specification such as `intro:1-3,4,(7,9),end:11` into
/// its segments, each of which is valid.
pub fn parse_named_segments(input: &str) -> (r: Result<Vec<PageSegment>, PdfError>)
    ensures
        parsed_view(r) == parse_named_segments_spec(input@),
        r matches Ok(v) ==> v@.len() > 0 && forall|i: int|
            0 <= i < v@.len() ==> (#[trigger] v@[i])@.is_valid(),
{
    let chars = chars_of(input);
    let clean = normalize(&chars);
    let toks = tokenize(&clean);
    let mut segments: Vec<PageSegment> = Vec::new();
    let mut i: usize = 0;
    assert(views(toks@).take(0) == Seq::<Seq<char>>::empty());
    assert(segment_views(segments@) == Seq::<PageSegmentView>::empty());
    while i < toks.len()
        invariant
            i <= toks.len(),
            views(toks@) == tokens(normalized(input@)),
            named_segments(views(toks@).take(i as int)) == Ok::<Seq<PageSegmentView>, Seq<char>>(
                segment_views(segments@),
            ),
        decreases toks.len() - i,
    {
        proof {
            let done = views(toks@).take(i + 1);
            assert(done.drop_last() == views(toks@).take(i as int));
            assert(done.last() == toks@[i as int]@);
        }
        match parse_named_token(&toks[i]) {
            Some(seg) => {
                assert(segment_views(segments@.push(seg)) == segment_views(segments@).push(seg@));
                segments.push(seg);
            },
            None => {
                proof {
                    lemma_named_segments_fail(views(toks@), i + 1);
                    assert(views(toks@).take(toks@.len() as int) == views(toks@));
                }
                return Err(PdfError::InvalidRangeSyntax(string_of(&toks[i])));
            },
        }
        i += 1;
    }
    assert(views(toks@).take(toks@.len() as int) == views(toks@));
    if segments.len() == 0 {
        return Err(PdfError::EmptySegmentSpecification);
    }
    proof {
        lemma_named_segments_valid(tokens(normalized(input@)));
        assert forall|k: int| 0 <= k < segments@.len() implies (#[trigger] segments@[k])@.is_valid() by {
            assert(segment_views(segments@)[k] == segments@[k]@);
        }
    }
    Ok(segments)
}

/// The pages of a document that a segment takes, in their order. A
/// segment that ends before it starts takes none and so yields no
/// document; one that reaches outside the document fails on its first
/// page that the document lacks.
pub open spec fn segment_pages(pages: Seq<ObjectId>, seg: PageSegmentView) -> Result<
    Seq<ObjectId>,
    PdfErrorView,
> {
    let total = pages.len();
    let last = match seg.end {
        Some(e) => e,
        None => seg.start,
    };
    if last < seg.start {
        Err(PdfErrorView::EmptyResultDocument)
    } else if seg.start == 0 {
        Err(PdfErrorView::InvalidPageNumber(0, total as usize))
    } else if seg.start > total {
        Err(PdfErrorView::InvalidPageNumber(seg.start, total as usize))
    } else if last > total {
        Err(PdfErrorView::InvalidPageNumber((total + 1) as u32, total as usize))
    } else {
        Ok(pages.subrange(seg.start - 1, last as int))
    }
}

/// How the pages that a segment takes relate to its page numbers: it
/// fails on the first of its numbers that is no page of the document, and
/// else takes, for each of its numbers in turn, the page with that number.
pub proof fn lemma_segment_pages(pages: Seq<ObjectId>, seg: PageSegmentView)
    requires
        pages.len() <= usize::MAX,
    ensures
        match segment_pages(pages, seg) {
            Ok(taken) => {
                &&& taken.len() == seg.pages().len()
                &&& taken.len() > 0
                &&& forall|k: int|
                    0 <= k < taken.len() ==> 1 <= #[trigger] seg.pages()[k] <= pages.len()
                        && taken[k] == pages[seg.pages()[k] - 1]
            },
            Err(PdfErrorView::InvalidPageNumber(p, total)) => {
                &&& total == pages.len()
                &&& exists|k: int|
                    0 <= k < seg.pages().len() && #[trigger] seg.pages()[k] == p && (p == 0 || p
                        > pages.len()) && forall|j: int|
                        0 <= j < k ==> 1 <= #[trigger] seg.pages()[j] <= pages.len()
            },
            Err(_) => seg.pages().len() == 0,
        },
{
    let total = pages.len();
    let last = match seg.end {
        Some(e) => e,
        None => seg.start,
    };
    let numbers = seg.pages();
    if last >= seg.start {
        assert(numbers.len() == last - seg.start + 1);
        assert forall|k: int| 0 <= k < numbers.len() implies #[trigger] numbers[k] == seg.start
            + k by {}
        if seg.start == 0 {
            assert(numbers[0] == 0);
            assert(segment_pages(pages, seg) == Err::<Seq<ObjectId>, PdfErrorView>(
                PdfErrorView::InvalidPageNumber(0, total as usize),
            ));
        } else if seg.start > total {
            assert(numbers[0] == seg.start);
            assert(segment_pages(pages, seg) == Err::<Seq<ObjectId>, PdfErrorView>(
                PdfErrorView::InvalidPageNumber(seg.start, total as usize),
            ));
        } else if last > total {
            let k = total + 1 - seg.start;
            assert(numbers[k] == total + 1);
            assert(0 <= k < numbers.len() && numbers[k] == (total + 1) as u32);
            assert forall|j: int| 0 <= j < k implies 1 <= #[trigger] numbers[j] <= pages.len() by {
                assert(numbers[j] == seg.start + j);
            }
            assert(segment_pages(pages, seg) == Err::<Seq<ObjectId>, PdfErrorView>(
                PdfErrorView::InvalidPageNumber((total + 1) as u32, total as usize),
            ));
        } else {
            let taken = pages.subrange(seg.start - 1, last as int);
            assert(segment_pages(pages, seg) == Ok::<Seq<ObjectId>, PdfErrorView>(taken));
            assert forall|k: int| 0 <= k < taken.len() implies 1 <= #[trigger] numbers[k]
                <= pages.len() && taken[k] == pages[numbers[k] - 1] by {
                assert(numbers[k] == seg.start + k);
            }
        }
    } else {
        assert(numbers.len() == 0);
    }
}

/// The document that a segment takes out of `source`, or the failure of
/// taking it.
pub open spec fn segment_document(source: DocumentView, seg: PageSegmentView) -> Result<
    DocumentView,
    PdfErrorView,
> {
    match segment_pages(source.pages, seg) {
        Ok(keep) => extraction(source, keep),
        Err(e) => Err(e),
    }
}

/// Makes a document of the pages of `source` that the segment takes.
pub fn create_pdf_with_segment(source: &Document, segment: &PageSegment) -> (r: Result<
    Document,
    PdfError,
>)
    requires
        source.wf(),
    ensures
        result_view(r) == segment_document(source@, segment@),
        r matches Ok(d) ==> d.wf() && intact(d@) && page_tree_sound(d@) && d@.pages.len() >= 1,
{
    let total: usize = source.page_count();
    let start: u32 = segment.start;
    let last: u32 = match segment.end {
        Some(e) => e,
        None => start,
    };
    if last < start {
        return Err(PdfError::EmptyResultDocument);
    }
    if start == 0 {
        return Err(PdfError::InvalidPageNumber(0, total));
    }
    if start as u64 > total as u64 {
        return Err(PdfError::InvalidPageNumber(start, total));
    }
    if last as u64 > total as u64 {
        return Err(PdfError::InvalidPageNumber((total + 1) as u32, total));
    }
    let pages = source.pages();
    let mut keep: Vec<ObjectId> = Vec::new();
    let mut at: usize = (start - 1) as usize;
    proof {
        source.lemma_wf();
    }
    while at < last as usize
        invariant
            1 <= start <= last <= total,
            total == pages@.len(),
            start - 1 <= at <= last,
            keep@ == pages@.subrange(start - 1, at as int),
        decreases last - at,
    {
        keep.push(pages[at]);
        at += 1;
    }
    assert forall|k: int| 0 <= k < keep@.len() implies is_page(
        source@.objects,
        #[trigger] keep@[k],
    ) by {
        assert(keep@[k] == source@.pages[start - 1 + k]);
    }
    extract_pages(source, &keep)
}

/// One part of a split: the name of the file and the document that goes
/// into it.
#[derive(Debug, PartialEq, Eq)]
pub struct SplitOutput {
    pub filename: String,
    pub document: Document,
}

/// A `SplitOutput` as mathematical values.
pub struct SplitOutputView {
    pub filename: Seq<char>,
    pub document: DocumentView,
}

impl View for SplitOutput {
    type V = SplitOutputView;

    open spec fn view(&self) -> SplitOutputView {
        SplitOutputView { filename: self.filename@, document: self.document@ }
    }
}

/// What the parts are, one by one.
pub open spec fn output_views(outputs: Seq<SplitOutput>) -> Seq<SplitOutputView> {
    outputs.map_values(|o: SplitOutput| o@)
}

/// The outcome of a split as mathematical values.
pub open spec fn split_view(r: Result<Vec<SplitOutput>, PdfError>) -> Result<
    Seq<SplitOutputView>,
    PdfErrorView,
> {
    match r {
        Ok(v) => Ok(output_views(v@)),
        Err(e) => Err(e@),
    }
}

/// The parts that the first `n` segments make of `source`, or the failure
/// of the first segment that makes none.
pub open spec fn split_parts(
    source: DocumentView,
    prefix: Seq<char>,
    segments: Seq<PageSegmentView>,
    n: nat,
) -> Result<Seq<SplitOutputView>, PdfErrorView>
    decreases n,
{
    if 0 < n <= segments.len() {
        match split_parts(source, prefix, segments, (n - 1) as nat) {
            Err(e) => Err(e),
            Ok(parts) => match segment_document(source, segments[n - 1]) {
                Err(e) => Err(e),
                Ok(document) => Ok(
                    parts.push(
                        SplitOutputView { filename: segments[n - 1].filename(prefix), document },
                    ),
                ),
            },
        }
    } else {
        Ok(Seq::empty())
    }
}

/// What a split makes of `source`: one part for each segment, in order,
/// each under the file name of its segment. A document without pages
/// cannot be split.
pub open spec fn split_spec(
    source: DocumentView,
    prefix: Seq<char>,
    segments: Seq<PageSegmentView>,
) -> Result<Seq<SplitOutputView>, PdfErrorView> {
    if source.pages.len() == 0 {
        Err(PdfErrorView::EmptyResultDocument)
    } else {
        split_parts(source, prefix, segments, segments.len())
    }
}

/// A failure among the first segments is the failure of the whole.
pub proof fn lemma_split_parts_fail(
    source: DocumentView,
    prefix: Seq<char>,
    segments: Seq<PageSegmentView>,
    m: nat,
    n: nat,
)
    requires
        m <= n <= segments.len(),
        split_parts(source, prefix, segments, m) is Err,
    ensures
        split_parts(source, prefix, segments, n) == split_parts(source, prefix, segments, m),
    decreases n,
{
    if m < n {
        lemma_split_parts_fail(source, prefix, segments, m, (n - 1) as nat);
    }
}

/// Splits `source` into one document for each segment. Nothing is
/// returned unless every segment yields its document.
pub fn split_pdfs_with_segments(
    source: &Document,
    output_prefix: &str,
    segments: &Vec<PageSegment>,
) -> (r: Result<Vec<SplitOutput>, PdfError>)
    requires
        source.wf(),
    ensures
        split_view(r) == split_spec(source@, output_prefix@, segment_views(segments@)),
        r matches Ok(v) ==> forall|i: int|
            0 <= i < v@.len() ==> (#[trigger] v@[i]).document.wf() && intact(v@[i].document@)
                && page_tree_sound(v@[i].document@) && v@[i].document@.pages.len() >= 1,
{
    if source.page_count() == 0 {
        return Err(PdfError::EmptyResultDocument);
    }
    let ghost segs = segment_views(segments@);
    let mut outputs: Vec<SplitOutput> = Vec::new();
    let mut i: usize = 0;
    assert(output_views(outputs@) == Seq::<SplitOutputView>::empty());
    while i < segments.len()
        invariant
            source.wf(),
            source@.pages.len() > 0,
            i <= segments@.len(),
            segs == segment_views(segments@),
            split_parts(source@, output_prefix@, segs, i as nat) == Ok::<
                Seq<SplitOutputView>,
                PdfErrorView,
            >(output_views(outputs@)),
            forall|k: int|
                0 <= k < outputs@.len() ==> (#[trigger] outputs@[k]).document.wf() && intact(
                    outputs@[k].document@,
                ) && page_tree_sound(outputs@[k].document@) && outputs@[k].document@.pages.len()
                    >= 1,
        decreases segments.len() - i,
    {
        let segment = &segments[i];
        assert(segs[i as int] == segment@);
        let filename = segment.generate_filename(output_prefix);
        match create_pdf_with_segment(source, segment) {
            Ok(document) => {
                let part = SplitOutput { filename, document };
                assert(output_views(outputs@.push(part)) == output_views(outputs@).push(part@));
                outputs.push(part);
            },
            Err(e) => {
                proof {
                    assert(split_parts(source@, output_prefix@, segs, (i + 1) as nat) == Err::<
                        Seq<SplitOutputView>,
                        PdfErrorView,
                    >(e@));
                    lemma_split_parts_fail(
                        source@,
                        output_prefix@,
                        segs,
                        (i + 1) as nat,
                        segs.len(),
                    );
                }
                return Err(e);
            },
        }
        i += 1;
    }
    Ok(outputs)
}

/// What splitting by a written specification makes of `source`: the
/// failure of reading the specification, or the split by its segments.
pub open spec fn split_by(
    source: DocumentView,
    prefix: Seq<char>,
    parsed: Result<Seq<PageSegmentView>, PdfErrorView>,
) -> Result<Seq<SplitOutputView>, PdfErrorView> {
    match parsed {
        Ok(segments) => split_spec(source, prefix, segments),
        Err(e) => Err(e),
    }
}

/// Splits `source` by a page specification such as `1-3,5,7`.
pub fn split_pdfs(source: &Document, output_prefix: &str, segments_str: &str) -> (r: Result<
    Vec<SplitOutput>,
    PdfError,
>)
    requires
        source.wf(),
    ensures
        split_view(r) == split_by(
            source@,
            output_prefix@,
            parse_page_segments_spec(segments_str@),
        ),
        r matches Ok(v) ==> forall|i: int|
            0 <= i < v@.len() ==> (#[trigger] v@[i]).document.wf() && intact(v@[i].document@)
                && page_tree_sound(v@[i].document@) && v@[i].document@.pages.len() >= 1,
{
    match parse_page_segments(segments_str) {
        Ok(segments) => split_pdfs_with_segments(source, output_prefix, &segments),
        Err(e) => Err(e),
    }
}

/// Splits `source` by a named specification such as
/// `intro:1-3,chapter1:4-10,conclusion:11`.
pub fn split_pdfs_named(source: &Document, output_prefix: &str, segments_str: &str) -> (r: Result<
    Vec<SplitOutput>,
    PdfError,
>)
    requires
        source.wf(),
    ensures
        split_view(r) == split_by(
            source@,
            output_prefix@,
            parse_named_segments_spec(segments_str@),
        ),
        r matches Ok(v) ==> forall|i: int|
            0 <= i < v@.len() ==> (#[trigger] v@[i]).document.wf() && intact(v@[i].document@)
                && page_tree_sound(v@[i].document@) && v@[i].document@.pages.len() >= 1,
{
    match parse_named_segments(segments_str) {
        Ok(segments) => split_pdfs_with_segments(source, output_prefix, &segments),
        Err(e) => Err(e),
    }
}

} // verus!
