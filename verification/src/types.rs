//! The document model: spans of styled text, lines, the title page and the
//! script, each with the mathematical value that the contracts speak of.

use crate::metadata::Metadata;
use vstd::prelude::*;

verus! {

/// A run of text that shares one combination of styles.
///
/// `content` is the text as it reads; `raw_content` is the text as it was
/// written, markup included.
#[derive(Clone, PartialEq, Eq, Debug)]
pub struct LineContent {
    pub content: String,
    pub raw_content: String,
    pub bold: bool,
    pub italic: bool,
    pub underline: bool,
    pub note: bool,
}

/// The value of a [`LineContent`].
pub struct SpanView {
    pub cleaned: Seq<char>,
    pub raw: Seq<char>,
    pub bold: bool,
    pub italic: bool,
    pub underline: bool,
    pub note: bool,
}

impl View for LineContent {
    type V = SpanView;

    open spec fn view(&self) -> SpanView {
        SpanView {
            cleaned: self.content@,
            raw: self.raw_content@,
            bold: self.bold,
            italic: self.italic,
            underline: self.underline,
            note: self.note,
        }
    }
}

impl Default for LineContent {
    fn default() -> (r: Self)
        ensures
            r@ == (SpanView {
                cleaned: Seq::empty(),
                raw: Seq::empty(),
                bold: false,
                italic: false,
                underline: false,
                note: false,
            }),
    {
        LineContent {
            content: String::new(),
            raw_content: String::new(),
            bold: false,
            italic: false,
            underline: false,
            note: false,
        }
    }
}

/// What a line of a character's block is.
#[derive(Clone, Copy, PartialEq, Eq, Debug, Structural)]
pub enum CharacterLine {
    /// The character's name; `true` marks dual dialogue.
    CharacterHeading(bool),
    Dialogue,
    Parenthetical,
    Lyrics,
    /// The blank line that ends a block.
    Empty,
}

/// How an action line is set.
#[derive(Clone, Copy, PartialEq, Eq, Debug, Structural)]
pub enum TextAlignment {
    Left,
    Center,
}

/// A line of the script. Consecutive lines of one character form a single
/// `CharacterContent`, whose entries hold the text, the kind and the
/// character's name of each line.
#[derive(Clone, PartialEq, Eq, Debug)]
pub enum Line {
    Action(Vec<LineContent>, TextAlignment),
    SceneHeading(String),
    CharacterContent(Vec<(Vec<LineContent>, CharacterLine, String)>),
    Transition(String),
    PageBreak,
    Boneyard(Vec<LineContent>),
    Section(String),
    Synopsis(Vec<LineContent>),
    Empty,
}

/// The value of one entry of a character's block.
pub struct EntryView {
    pub spans: Seq<SpanView>,
    pub kind: CharacterLine,
    pub character: Seq<char>,
}

/// The value of a [`Line`].
pub enum LineView {
    Action(Seq<SpanView>, TextAlignment),
    SceneHeading(Seq<char>),
    CharacterContent(Seq<EntryView>),
    Transition(Seq<char>),
    PageBreak,
    Boneyard(Seq<SpanView>),
    Section(Seq<char>),
    Synopsis(Seq<SpanView>),
    Empty,
}

/// The values of a sequence of spans.
pub open spec fn spans_view(s: Seq<LineContent>) -> Seq<SpanView> {
    s.map_values(|c: LineContent| c@)
}

/// The text of `spans` as it was written: their raw texts one after the
/// other.
pub open spec fn raw_text(spans: Seq<SpanView>) -> Seq<char>
    decreases spans.len(),
{
    if spans.len() == 0 {
        Seq::empty()
    } else {
        raw_text(spans.drop_last()) + spans.last().raw
    }
}

/// The text of `spans` as it reads: their cleaned texts one after the
/// other.
pub open spec fn cleaned_text(spans: Seq<SpanView>) -> Seq<char>
    decreases spans.len(),
{
    if spans.len() == 0 {
        Seq::empty()
    } else {
        cleaned_text(spans.drop_last()) + spans.last().cleaned
    }
}

/// The raw text of a list of spans that grew by one.
pub proof fn lemma_raw_text_push(spans: Seq<SpanView>, x: SpanView)
    ensures
        raw_text(spans.push(x)) == raw_text(spans) + x.raw,
{
    assert(spans.push(x).drop_last() == spans);
}

/// The cleaned text of a list of spans that grew by one.
pub proof fn lemma_cleaned_text_push(spans: Seq<SpanView>, x: SpanView)
    ensures
        cleaned_text(spans.push(x)) == cleaned_text(spans) + x.cleaned,
{
    assert(spans.push(x).drop_last() == spans);
}

/// The value of one entry of a character's block.
pub open spec fn entry_view(e: (Vec<LineContent>, CharacterLine, String)) -> EntryView {
    EntryView { spans: spans_view(e.0@), kind: e.1, character: e.2@ }
}

/// The values of the entries of a character's block.
pub open spec fn entries_view(s: Seq<(Vec<LineContent>, CharacterLine, String)>) -> Seq<
    EntryView,
> {
    s.map_values(|e: (Vec<LineContent>, CharacterLine, String)| entry_view(e))
}

impl View for Line {
    type V = LineView;

    open spec fn view(&self) -> LineView {
        match self {
            Line::Action(spans, alignment) => LineView::Action(spans_view(spans@), *alignment),
            Line::SceneHeading(text) => LineView::SceneHeading(text@),
            Line::CharacterContent(entries) => LineView::CharacterContent(entries_view(entries@)),
            Line::Transition(text) => LineView::Transition(text@),
            Line::PageBreak => LineView::PageBreak,
            Line::Boneyard(spans) => LineView::Boneyard(spans_view(spans@)),
            Line::Section(text) => LineView::Section(text@),
            Line::Synopsis(spans) => LineView::Synopsis(spans_view(spans@)),
            Line::Empty => LineView::Empty,
        }
    }
}

/// The values of a sequence of lines.
pub open spec fn lines_view(s: Seq<Line>) -> Seq<LineView> {
    s.map_values(|l: Line| l@)
}

/// The value of an optional list of spans.
pub open spec fn field_view(f: Option<Vec<LineContent>>) -> Option<Seq<SpanView>> {
    match f {
        Some(spans) => Some(spans_view(spans@)),
        None => None,
    }
}

/// The title page.
#[derive(Clone, PartialEq, Eq, Debug)]
pub struct Title {
    pub title: Option<Vec<LineContent>>,
    pub credit: Option<Vec<LineContent>>,
    pub author: Option<Vec<LineContent>>,
    pub source: Option<Vec<LineContent>>,
    pub draft: Option<Vec<LineContent>>,
    pub contact: Option<Vec<LineContent>>,
    pub meta: Metadata,
}

/// The value of a [`Title`].
pub struct TitleView {
    pub title: Option<Seq<SpanView>>,
    pub credit: Option<Seq<SpanView>>,
    pub author: Option<Seq<SpanView>>,
    pub source: Option<Seq<SpanView>>,
    pub draft: Option<Seq<SpanView>>,
    pub contact: Option<Seq<SpanView>>,
    pub meta: Map<Seq<char>, Seq<SpanView>>,
}

impl View for Title {
    type V = TitleView;

    open spec fn view(&self) -> TitleView {
        TitleView {
            title: field_view(self.title),
            credit: field_view(self.credit),
            author: field_view(self.author),
            source: field_view(self.source),
            draft: field_view(self.draft),
            contact: field_view(self.contact),
            meta: self.meta@,
        }
    }
}

/// The title page without any entry.
pub open spec fn empty_title() -> TitleView {
    TitleView {
        title: None,
        credit: None,
        author: None,
        source: None,
        draft: None,
        contact: None,
        meta: Map::empty(),
    }
}

impl Default for Title {
    fn default() -> (r: Self)
        ensures
            r@ == empty_title(),
    {
        Title {
            title: None,
            credit: None,
            author: None,
            source: None,
            draft: None,
            contact: None,
            meta: Metadata::new(),
        }
    }
}

/// A script: its title page and its lines.
#[derive(Clone, PartialEq, Eq, Debug)]
pub struct Script {
    pub title: Title,
    pub lines: Vec<Line>,
}

/// The value of a [`Script`].
pub struct ScriptView {
    pub title: TitleView,
    pub lines: Seq<LineView>,
}

impl View for Script {
    type V = ScriptView;

    open spec fn view(&self) -> ScriptView {
        ScriptView { title: self.title@, lines: lines_view(self.lines@) }
    }
}

// ---------------------------------------------------------------------
// Views of sequences that grow
// ---------------------------------------------------------------------

/// The values of a list of spans that grew by one.
pub proof fn lemma_spans_view_push(s: Seq<LineContent>, x: LineContent)
    ensures
        spans_view(s.push(x)) == spans_view(s).push(x@),
{
    assert(spans_view(s.push(x)) =~= spans_view(s).push(x@));
}

/// The values of a list of entries that grew by one.
pub proof fn lemma_entries_view_push(
    s: Seq<(Vec<LineContent>, CharacterLine, String)>,
    x: (Vec<LineContent>, CharacterLine, String),
)
    ensures
        entries_view(s.push(x)) == entries_view(s).push(entry_view(x)),
{
    assert(entries_view(s.push(x)) =~= entries_view(s).push(entry_view(x)));
}

/// The values of a list of lines that grew by one.
pub proof fn lemma_lines_view_push(s: Seq<Line>, x: Line)
    ensures
        lines_view(s.push(x)) == lines_view(s).push(x@),
{
    assert(lines_view(s.push(x)) =~= lines_view(s).push(x@));
}

// ---------------------------------------------------------------------
// Copies and comparisons
// ---------------------------------------------------------------------

/// A copy of `span`.
pub fn clone_span(span: &LineContent) -> (r: LineContent)
    ensures
        r@ == span@,
{
    LineContent {
        content: span.content.clone(),
        raw_content: span.raw_content.clone(),
        bold: span.bold,
        italic: span.italic,
        underline: span.underline,
        note: span.note,
    }
}

/// A copy of `spans`.
pub fn clone_spans(spans: &Vec<LineContent>) -> (r: Vec<LineContent>)
    ensures
        spans_view(r@) == spans_view(spans@),
{
    let mut r: Vec<LineContent> = Vec::new();
    let mut i: usize = 0;
    while i < spans.len()
        invariant
            i <= spans.len(),
            spans_view(r@) == spans_view(spans@.subrange(0, i as int)),
        decreases spans.len() - i,
    {
        let c: LineContent = clone_span(&spans[i]);
        proof {
            lemma_spans_view_push(r@, c);
            lemma_spans_view_push(spans@.subrange(0, i as int), spans@[i as int]);
            assert(spans@.subrange(0, i + 1) == spans@.subrange(0, i as int).push(
                spans@[i as int],
            ));
        }
        r.push(c);
        i += 1;
    }
    assert(spans@.subrange(0, spans.len() as int) == spans@);
    r
}

/// A copy of an optional list of spans.
pub fn clone_field(f: &Option<Vec<LineContent>>) -> (r: Option<Vec<LineContent>>)
    ensures
        field_view(r) == field_view(*f),
{
    match f {
        Some(spans) => Some(clone_spans(spans)),
        None => None,
    }
}

/// A copy of the entries of a character's block.
pub fn clone_entries(entries: &Vec<(Vec<LineContent>, CharacterLine, String)>) -> (r: Vec<
    (Vec<LineContent>, CharacterLine, String),
>)
    ensures
        entries_view(r@) == entries_view(entries@),
{
    let mut r: Vec<(Vec<LineContent>, CharacterLine, String)> = Vec::new();
    let mut i: usize = 0;
    while i < entries.len()
        invariant
            i <= entries.len(),
            entries_view(r@) == entries_view(entries@.subrange(0, i as int)),
        decreases entries.len() - i,
    {
        let e: (Vec<LineContent>, CharacterLine, String) = (
            clone_spans(&entries[i].0),
            entries[i].1,
            entries[i].2.clone(),
        );
        proof {
            lemma_entries_view_push(r@, e);
            lemma_entries_view_push(entries@.subrange(0, i as int), entries@[i as int]);
            assert(entries@.subrange(0, i + 1) == entries@.subrange(0, i as int).push(
                entries@[i as int],
            ));
        }
        r.push(e);
        i += 1;
    }
    assert(entries@.subrange(0, entries.len() as int) == entries@);
    r
}

/// A copy of `line`.
pub fn clone_line(line: &Line) -> (r: Line)
    ensures
        r@ == line@,
{
    match line {
        Line::Action(spans, alignment) => Line::Action(clone_spans(spans), *alignment),
        Line::SceneHeading(text) => Line::SceneHeading(text.clone()),
        Line::CharacterContent(entries) => Line::CharacterContent(clone_entries(entries)),
        Line::Transition(text) => Line::Transition(text.clone()),
        Line::PageBreak => Line::PageBreak,
        Line::Boneyard(spans) => Line::Boneyard(clone_spans(spans)),
        Line::Section(text) => Line::Section(text.clone()),
        Line::Synopsis(spans) => Line::Synopsis(clone_spans(spans)),
        Line::Empty => Line::Empty,
    }
}

/// A copy of `lines`.
pub fn clone_lines(lines: &Vec<Line>) -> (r: Vec<Line>)
    ensures
        lines_view(r@) == lines_view(lines@),
{
    let mut r: Vec<Line> = Vec::new();
    let mut i: usize = 0;
    while i < lines.len()
        invariant
            i <= lines.len(),
            lines_view(r@) == lines_view(lines@.subrange(0, i as int)),
        decreases lines.len() - i,
    {
        let l: Line = clone_line(&lines[i]);
        proof {
            lemma_lines_view_push(r@, l);
            lemma_lines_view_push(lines@.subrange(0, i as int), lines@[i as int]);
            assert(lines@.subrange(0, i + 1) == lines@.subrange(0, i as int).push(
                lines@[i as int],
            ));
        }
        r.push(l);
        i += 1;
    }
    assert(lines@.subrange(0, lines.len() as int) == lines@);
    r
}

/// A copy of `title`.
pub fn clone_title(title: &Title) -> (r: Title)
    ensures
        r@ == title@,
{
    Title {
        title: clone_field(&title.title),
        credit: clone_field(&title.credit),
        author: clone_field(&title.author),
        source: clone_field(&title.source),
        draft: clone_field(&title.draft),
        contact: clone_field(&title.contact),
        meta: title.meta.copy(),
    }
}

/// Whether two spans have the same value.
pub fn span_eq(a: &LineContent, b: &LineContent) -> (r: bool)
    ensures
        r == (a@ == b@),
{
    a.content == b.content && a.raw_content == b.raw_content && a.bold == b.bold && a.italic
        == b.italic && a.underline == b.underline && a.note == b.note
}

/// Whether two lists of spans have the same value.
pub fn spans_eq(a: &Vec<LineContent>, b: &Vec<LineContent>) -> (r: bool)
    ensures
        r == (spans_view(a@) == spans_view(b@)),
{
    if a.len() != b.len() {
        assert(spans_view(a@).len() != spans_view(b@).len());
        return false;
    }
    let mut i: usize = 0;
    while i < a.len()
        invariant
            i <= a.len(),
            a.len() == b.len(),
            forall|j: int| 0 <= j < i ==> (#[trigger] a@[j])@ == b@[j]@,
        decreases a.len() - i,
    {
        if !span_eq(&a[i], &b[i]) {
            assert(spans_view(a@)[i as int] == a@[i as int]@);
            assert(spans_view(b@)[i as int] == b@[i as int]@);
            return false;
        }
        i += 1;
    }
    assert(spans_view(a@) =~= spans_view(b@));
    true
}

/// Whether two lists of entries have the same value.
pub fn entries_eq(
    a: &Vec<(Vec<LineContent>, CharacterLine, String)>,
    b: &Vec<(Vec<LineContent>, CharacterLine, String)>,
) -> (r: bool)
    ensures
        r == (entries_view(a@) == entries_view(b@)),
{
    if a.len() != b.len() {
        assert(entries_view(a@).len() != entries_view(b@).len());
        return false;
    }
    let mut i: usize = 0;
    while i < a.len()
        invariant
            i <= a.len(),
            a.len() == b.len(),
            forall|j: int| 0 <= j < i ==> entry_view(#[trigger] a@[j]) == entry_view(b@[j]),
        decreases a.len() - i,
    {
        let same: bool = spans_eq(&a[i].0, &b[i].0) && a[i].1 == b[i].1 && a[i].2 == b[i].2;
        if !same {
            assert(entries_view(a@)[i as int] == entry_view(a@[i as int]));
            assert(entries_view(b@)[i as int] == entry_view(b@[i as int]));
            return false;
        }
        i += 1;
    }
    assert(entries_view(a@) =~= entries_view(b@));
    true
}

/// Whether two lines have the same value.
pub fn line_eq(a: &Line, b: &Line) -> (r: bool)
    ensures
        r == (a@ == b@),
{
    match (a, b) {
        (Line::Action(x, p), Line::Action(y, q)) => spans_eq(x, y) && *p == *q,
        (Line::SceneHeading(x), Line::SceneHeading(y)) => *x == *y,
        (Line::CharacterContent(x), Line::CharacterContent(y)) => entries_eq(x, y),
        (Line::Transition(x), Line::Transition(y)) => *x == *y,
        (Line::PageBreak, Line::PageBreak) => true,
        (Line::Boneyard(x), Line::Boneyard(y)) => spans_eq(x, y),
        (Line::Section(x), Line::Section(y)) => *x == *y,
        (Line::Synopsis(x), Line::Synopsis(y)) => spans_eq(x, y),
        (Line::Empty, Line::Empty) => true,
        _ => false,
    }
}

} // verus!
