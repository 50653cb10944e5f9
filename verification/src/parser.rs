//! The parser: from the text of a script to its title page and lines.
//!
//! The text is first cut at the comment delimiters `/*` and `*/`. What
//! stands outside of comments is cut into lines. Where the first line has
//! exactly one colon, the lines up to the first blank line are the title
//! page. Every other line is classified in turn, and the lines of each
//! character are gathered in blocks.

pub use crate::classifier::parse_line;
pub use crate::formatting::{parse_content_formatting, IterPreviousAndNextTwo};

use crate::classifier::{classify, classify_chars};
use crate::collapser::{collapse, collapsed};
use crate::formatting::{format_chars, formatted};
use crate::text::{
    append_chars, chars_eq, chars_of, copy_chars, count_char, count_of, find_char, index_of,
    is_blank, lemma_index_of_range, lines_of, rows, split_lines, split_on_pair, split_pair,
    string_of, subvec, trim, trimmed,
};
use crate::types::{
    empty_title, lemma_lines_view_push, lines_view, Line, LineContent, LineView, Script,
    ScriptView, SpanView, Title, TitleView,
};
use vstd::prelude::*;

verus! {

// ---------------------------------------------------------------------
// The comment pre-pass
// ---------------------------------------------------------------------

/// The values of a list of texts, each with a mark.
pub open spec fn items_view(v: Seq<(Vec<char>, bool)>) -> Seq<(Seq<char>, bool)> {
    v.map_values(|p: (Vec<char>, bool)| (p.0@, p.1))
}

/// The pieces `pieces`, each cut at `*/`, one after the other.
pub open spec fn cut_at_ends(pieces: Seq<Seq<char>>) -> Seq<Seq<char>>
    decreases pieces.len(),
{
    if pieces.len() == 0 {
        Seq::empty()
    } else {
        cut_at_ends(pieces.drop_last()) + split_on_pair(pieces.last(), '*', '/')
    }
}

/// The text `s` cut at every `/*` and then at every `*/`.
pub open spec fn segments(s: Seq<char>) -> Seq<Seq<char>> {
    cut_at_ends(split_on_pair(s, '/', '*'))
}

/// The segment at index `k`, marked: every second segment stands inside a
/// comment, and its text is trimmed.
pub open spec fn marked_segment(seg: Seq<char>, k: int) -> (Seq<char>, bool) {
    if k % 2 == 1 {
        (trimmed(seg), true)
    } else {
        (seg, false)
    }
}

/// The text `s` cut at the comment delimiters. Each delimiter, of either
/// form, ends one segment and begins the next; the segments are in turn
/// outside and inside of a comment, beginning outside.
pub open spec fn boneyard_split(s: Seq<char>) -> Seq<(Seq<char>, bool)> {
    Seq::new(segments(s).len(), |k: int| marked_segment(segments(s)[k], k))
}

/// The lines `lines`, each marked as standing outside of a comment.
pub open spec fn line_items(lines: Seq<Seq<char>>) -> Seq<(Seq<char>, bool)> {
    lines.map_values(|l: Seq<char>| (l, false))
}

/// What one segment contributes: a comment as a whole, any other text
/// line by line.
pub open spec fn segment_items(seg: (Seq<char>, bool)) -> Seq<(Seq<char>, bool)> {
    if seg.1 {
        seq![seg]
    } else {
        line_items(lines_of(seg.0))
    }
}

/// The comments and lines of the segments `segs`, in order.
pub open spec fn items_of(segs: Seq<(Seq<char>, bool)>) -> Seq<(Seq<char>, bool)>
    decreases segs.len(),
{
    if segs.len() == 0 {
        Seq::empty()
    } else {
        items_of(segs.drop_last()) + segment_items(segs.last())
    }
}

/// The comments and lines of the text `s`, in order.
pub open spec fn source_items(s: Seq<char>) -> Seq<(Seq<char>, bool)> {
    items_of(boneyard_split(s))
}

proof fn lemma_cut_at_ends_push(pieces: Seq<Seq<char>>, piece: Seq<char>)
    ensures
        cut_at_ends(pieces.push(piece)) == cut_at_ends(pieces) + split_on_pair(piece, '*', '/'),
{
    assert(pieces.push(piece).drop_last() == pieces);
}

proof fn lemma_items_of_push(segs: Seq<(Seq<char>, bool)>, seg: (Seq<char>, bool))
    ensures
        items_of(segs.push(seg)) == items_of(segs) + segment_items(seg),
{
    assert(segs.push(seg).drop_last() == segs);
}

/// The text cut at the comment delimiters.
pub fn parse_boneyard(source: &Vec<char>) -> (r: Vec<(Vec<char>, bool)>)
    ensures
        items_view(r@) == boneyard_split(source@),
{
    let pieces: Vec<Vec<char>> = split_pair(source, '/', '*');
    let mut r: Vec<(Vec<char>, bool)> = Vec::new();
    let mut boneyard: bool = false;
    let mut i: usize = 0;
    let ghost all = segments(source@);
    assert(rows(pieces@).subrange(0, 0) =~= Seq::<Seq<char>>::empty());
    while i < pieces.len()
        invariant
            i <= pieces.len(),
            all == cut_at_ends(rows(pieces@)),
            r@.len() == cut_at_ends(rows(pieces@).subrange(0, i as int)).len(),
            boneyard == (r@.len() % 2 == 1),
            forall|k: int|
                0 <= k < r@.len() ==> (#[trigger] r@[k].0@, r@[k].1) == marked_segment(
                    cut_at_ends(rows(pieces@).subrange(0, i as int))[k],
                    k,
                ),
        decreases pieces.len() - i,
    {
        let parts: Vec<Vec<char>> = split_pair(&pieces[i], '*', '/');
        let ghost base = cut_at_ends(rows(pieces@).subrange(0, i as int));
        proof {
            lemma_cut_at_ends_push(rows(pieces@).subrange(0, i as int), pieces@[i as int]@);
            assert(rows(pieces@).subrange(0, i + 1) =~= rows(pieces@).subrange(0, i as int).push(
                pieces@[i as int]@,
            ));
        }
        let mut j: usize = 0;
        while j < parts.len()
            invariant
                j <= parts.len(),
                r@.len() == base.len() + j,
                boneyard == (r@.len() % 2 == 1),
                forall|k: int|
                    0 <= k < r@.len() ==> (#[trigger] r@[k].0@, r@[k].1) == marked_segment(
                        (base + rows(parts@))[k],
                        k,
                    ),
            decreases parts.len() - j,
        {
            let text: Vec<char> = if boneyard {
                trim(&parts[j])
            } else {
                copy_chars(&parts[j])
            };
            assert((base + rows(parts@))[base.len() + j] == parts@[j as int]@);
            r.push((text, boneyard));
            boneyard = !boneyard;
            j += 1;
        }
        i += 1;
    }
    assert(rows(pieces@).subrange(0, pieces.len() as int) =~= rows(pieces@));
    assert(items_view(r@) =~= boneyard_split(source@));
    r
}

/// The comments and lines of the segments, in order.
pub fn split_items(segs: &Vec<(Vec<char>, bool)>) -> (r: Vec<(Vec<char>, bool)>)
    ensures
        items_view(r@) == items_of(items_view(segs@)),
{
    let mut r: Vec<(Vec<char>, bool)> = Vec::new();
    let mut i: usize = 0;
    assert(items_view(segs@).subrange(0, 0) =~= Seq::<(Seq<char>, bool)>::empty());
    assert(items_view(r@) =~= Seq::<(Seq<char>, bool)>::empty());
    while i < segs.len()
        invariant
            i <= segs.len(),
            items_view(r@) == items_of(items_view(segs@).subrange(0, i as int)),
        decreases segs.len() - i,
    {
        let ghost seg = (segs@[i as int].0@, segs@[i as int].1);
        let ghost base = items_view(r@);
        proof {
            lemma_items_of_push(items_view(segs@).subrange(0, i as int), seg);
            assert(items_view(segs@).subrange(0, i + 1) =~= items_view(segs@).subrange(
                0,
                i as int,
            ).push(seg));
        }
        if segs[i].1 {
            r.push((copy_chars(&segs[i].0), true));
            assert(items_view(r@) =~= base + segment_items(seg));
        } else {
            let lines: Vec<Vec<char>> = split_lines(&segs[i].0);
            let mut j: usize = 0;
            assert(items_view(r@) =~= base + line_items(rows(lines@).subrange(0, 0)));
            while j < lines.len()
                invariant
                    j <= lines.len(),
                    items_view(r@) == base + line_items(rows(lines@).subrange(0, j as int)),
                decreases lines.len() - j,
            {
                let ghost before = items_view(r@);
                r.push((copy_chars(&lines[j]), false));
                assert(items_view(r@) =~= before.push((lines@[j as int]@, false)));
                assert(rows(lines@).subrange(0, j + 1) =~= rows(lines@).subrange(0, j as int).push(
                    lines@[j as int]@,
                ));
                assert(line_items(rows(lines@).subrange(0, j + 1)) =~= line_items(
                    rows(lines@).subrange(0, j as int),
                ).push((lines@[j as int]@, false)));
                assert(base + line_items(rows(lines@).subrange(0, j as int)).push(
                    (lines@[j as int]@, false),
                ) =~= (base + line_items(rows(lines@).subrange(0, j as int))).push(
                    (lines@[j as int]@, false),
                ));
                j += 1;
            }
            assert(rows(lines@).subrange(0, lines.len() as int) =~= rows(lines@));
        }
        i += 1;
    }
    assert(items_view(segs@).subrange(0, segs.len() as int) =~= items_view(segs@));
    r
}

// ---------------------------------------------------------------------
// The lines
// ---------------------------------------------------------------------

/// The state of the classifier between two lines: the lines so far, the
/// line last classified and the character who is speaking.
pub struct Running {
    pub lines: Seq<LineView>,
    pub previous: LineView,
    pub character: Seq<char>,
}

/// The state after one more item. A comment becomes a line of its own and
/// leaves the rest of the state as it is.
pub open spec fn running_step(st: Running, item: (Seq<char>, bool)) -> Running {
    if item.1 {
        Running { lines: st.lines.push(LineView::Boneyard(formatted(item.0))), ..st }
    } else {
        let (line, character) = classify(item.0, st.previous, st.character);
        Running {
            lines: st.lines.push(line),
            previous: line,
            character: match character {
                Some(name) => name,
                None => st.character,
            },
        }
    }
}

/// The state before the first line of a script: after an empty line,
/// with nobody speaking.
pub open spec fn start() -> Running {
    Running { lines: Seq::empty(), previous: LineView::Empty, character: Seq::empty() }
}

/// The state after the first `n` of the items `items`, beginning in the
/// state `init`.
pub open spec fn classified_from(init: Running, items: Seq<(Seq<char>, bool)>, n: nat) -> Running
    decreases n,
{
    if n == 0 {
        init
    } else {
        running_step(classified_from(init, items, (n - 1) as nat), items[n - 1])
    }
}

/// The lines that the items `items` are, one line for each item.
pub open spec fn classified_lines(items: Seq<(Seq<char>, bool)>) -> Seq<LineView> {
    classified_from(start(), items, items.len()).lines
}

/// Classifies the items in turn: each line is added to `lines`, and
/// `previous_line` and `current_character` follow.
pub fn classify_items(
    slice: &Vec<(Vec<char>, bool)>,
    lines: &mut Vec<Line>,
    previous_line: &mut Line,
    current_character: &mut Vec<char>,
)
    ensures
        (Running {
            lines: lines_view(final(lines)@),
            previous: final(previous_line)@,
            character: final(current_character)@,
        }) == classified_from(
            Running {
                lines: lines_view(old(lines)@),
                previous: old(previous_line)@,
                character: old(current_character)@,
            },
            items_view(slice@),
            slice@.len(),
        ),
        final(lines)@.len() == old(lines)@.len() + slice@.len(),
{
    let ghost init = Running {
        lines: lines_view(lines@),
        previous: previous_line@,
        character: current_character@,
    };
    let mut i: usize = 0;
    while i < slice.len()
        invariant
            i <= slice.len(),
            lines@.len() == old(lines)@.len() + i,
            (Running {
                lines: lines_view(lines@),
                previous: previous_line@,
                character: current_character@,
            }) == classified_from(init, items_view(slice@), i as nat),
        decreases slice.len() - i,
    {
        assert(items_view(slice@)[i as int] == (slice@[i as int].0@, slice@[i as int].1));
        if slice[i].1 {
            let line = Line::Boneyard(format_chars(copy_chars(&slice[i].0)));
            proof {
                lemma_lines_view_push(lines@, line);
            }
            lines.push(line);
        } else {
            let (line, character) = classify_chars(&slice[i].0, previous_line, current_character);
            *previous_line = crate::types::clone_line(&line);
            proof {
                lemma_lines_view_push(lines@, line);
            }
            lines.push(line);
            if let Some(name) = character {
                *current_character = name;
            }
        }
        i += 1;
    }
}

/// The lines that the items are, one line for each item.
pub fn parse_lines(slice: &Vec<(Vec<char>, bool)>) -> (r: Vec<Line>)
    ensures
        lines_view(r@) == classified_lines(items_view(slice@)),
        r.len() == slice.len(),
{
    let mut previous_line: Line = Line::Empty;
    let mut current_character: Vec<char> = Vec::new();
    let mut r: Vec<Line> = Vec::new();
    assert(lines_view(r@) =~= Seq::<LineView>::empty());
    classify_items(slice, &mut r, &mut previous_line, &mut current_character);
    r
}

// ---------------------------------------------------------------------
// The title page
// ---------------------------------------------------------------------

/// The number of items before the first blank one.
pub open spec fn first_blank(items: Seq<(Seq<char>, bool)>) -> int
    decreases items.len(),
{
    if items.len() == 0 || is_blank(items[0].0) {
        0
    } else {
        1 + first_blank(items.drop_first())
    }
}

/// Whether the items begin with a title page: the first item is not blank
/// and holds exactly one colon.
pub open spec fn has_title(items: Seq<(Seq<char>, bool)>) -> bool {
    first_blank(items) > 0 && count_of(items[0].0, ':') == 1
}

/// The title page with `value` under `key`. The known keys have a field
/// each; every other key goes to the map.
pub open spec fn with_entry(
    t: TitleView,
    key: Seq<char>,
    value: Option<Seq<SpanView>>,
) -> TitleView {
    if key == "Title"@ {
        TitleView { title: value, ..t }
    } else if key == "Credit"@ {
        TitleView { credit: value, ..t }
    } else if key == "Author"@ {
        TitleView { author: value, ..t }
    } else if key == "Source"@ {
        TitleView { source: value, ..t }
    } else if key == "Draft date"@ {
        TitleView { draft: value, ..t }
    } else if key == "Contact"@ {
        TitleView { contact: value, ..t }
    } else {
        match value {
            Some(spans) => TitleView { meta: t.meta.insert(key, spans), ..t },
            None => TitleView { meta: t.meta.remove(key), ..t },
        }
    }
}

/// The state between two lines of the title page: the entries read so
/// far, and the key and value that are still open.
pub struct TitleScan {
    pub title: TitleView,
    pub pending: Option<(Seq<char>, Seq<char>)>,
}

/// The title page with the open key and value entered. The value is
/// trimmed and formatted.
pub open spec fn flushed(st: TitleScan) -> TitleView {
    match st.pending {
        Some((key, value)) => with_entry(st.title, key, Some(formatted(trimmed(value)))),
        None => st.title,
    }
}

/// The state after one more line. A line with exactly one colon enters
/// what is open and opens a new key and value, both trimmed; any other
/// line is trimmed and goes on a line of its own at the end of the open
/// value.
pub open spec fn title_step(st: TitleScan, line: Seq<char>) -> TitleScan {
    if count_of(line, ':') == 1 {
        let i = index_of(line, ':');
        TitleScan {
            title: flushed(st),
            pending: Some(
                (trimmed(line.subrange(0, i)), trimmed(line.subrange(i + 1, line.len() as int))),
            ),
        }
    } else {
        match st.pending {
            Some((key, value)) => TitleScan {
                pending: Some((key, value + seq!['\n'] + trimmed(line))),
                ..st
            },
            None => st,
        }
    }
}

/// The state after the first `n` of the items `items`.
pub open spec fn title_scanned(items: Seq<(Seq<char>, bool)>, n: nat) -> TitleScan
    decreases n,
{
    if n == 0 {
        TitleScan { title: empty_title(), pending: None }
    } else {
        title_step(title_scanned(items, (n - 1) as nat), items[n - 1].0)
    }
}

/// The title page of the items `items`: read from the items before the
/// first blank one, where they begin with a title page, and empty
/// otherwise.
pub open spec fn title_of(items: Seq<(Seq<char>, bool)>) -> TitleView {
    if has_title(items) {
        flushed(title_scanned(items, first_blank(items) as nat))
    } else {
        empty_title()
    }
}

/// The items that are the body of the script: all of them where there is
/// no title page, else those after the first blank one.
pub open spec fn body_of(items: Seq<(Seq<char>, bool)>) -> Seq<(Seq<char>, bool)> {
    if !has_title(items) {
        items
    } else if first_blank(items) < items.len() {
        items.subrange(first_blank(items) + 1, items.len() as int)
    } else {
        Seq::empty()
    }
}

/// `first_blank` is the first index that holds a blank item.
pub proof fn lemma_first_blank(items: Seq<(Seq<char>, bool)>, i: int)
    requires
        0 <= i <= items.len(),
        forall|j: int| 0 <= j < i ==> !is_blank(#[trigger] items[j].0),
        i < items.len() ==> is_blank(items[i].0),
    ensures
        first_blank(items) == i,
    decreases i,
{
    if i > 0 {
        let t = items.drop_first();
        assert(!is_blank(items[0].0));
        assert forall|j: int| 0 <= j < i - 1 implies !is_blank(#[trigger] t[j].0) by {
            assert(t[j] == items[j + 1]);
        }
        lemma_first_blank(t, i - 1);
    }
}

/// Whether `v` holds nothing but white space.
pub fn is_blank_text(v: &Vec<char>) -> (r: bool)
    ensures
        r == is_blank(v@),
{
    trim(v).len() == 0
}

/// The number of items before the first blank one.
pub fn find_blank(items: &Vec<(Vec<char>, bool)>) -> (i: usize)
    ensures
        i == first_blank(items_view(items@)),
        i <= items.len(),
{
    let mut i: usize = 0;
    while i < items.len() && !is_blank_text(&items[i].0)
        invariant
            i <= items.len(),
            forall|j: int| 0 <= j < i ==> !is_blank(#[trigger] items_view(items@)[j].0),
        decreases items.len() - i,
    {
        i += 1;
    }
    proof {
        lemma_first_blank(items_view(items@), i as int);
    }
    i
}

/// Whether `v` holds the characters of `s`.
pub fn is_text(v: &Vec<char>, s: &str) -> (r: bool)
    ensures
        r == (v@ == s@),
{
    chars_eq(v, &chars_of(s))
}

/// Puts `value` under `key` on the title page, or takes away what stands
/// under `key` where there is no value.
pub fn set_title_entry(title: &mut Title, key: &Vec<char>, value: Option<Vec<LineContent>>)
    ensures
        final(title)@ == with_entry(old(title)@, key@, crate::types::field_view(value)),
{
    if is_text(key, "Title") {
        title.title = value;
    } else if is_text(key, "Credit") {
        title.credit = value;
    } else if is_text(key, "Author") {
        title.author = value;
    } else if is_text(key, "Source") {
        title.source = value;
    } else if is_text(key, "Draft date") {
        title.draft = value;
    } else if is_text(key, "Contact") {
        title.contact = value;
    } else {
        match value {
            Some(spans) => {
                title.meta.insert(string_of(key), spans);
            },
            None => {
                let name: String = string_of(key);
                title.meta.remove(name.as_str());
            },
        }
    }
}

/// The value of an open key and value.
pub open spec fn pending_view(p: Option<(Vec<char>, Vec<char>)>) -> Option<(Seq<char>, Seq<char>)> {
    match p {
        Some(kv) => Some((kv.0@, kv.1@)),
        None => None,
    }
}

/// Enters the open key and value on the title page.
fn flush_entry(title: &mut Title, pending: &Option<(Vec<char>, Vec<char>)>)
    ensures
        final(title)@ == flushed(TitleScan { title: old(title)@, pending: pending_view(*pending) }),
{
    match pending {
        Some(kv) => {
            let value: Vec<char> = trim(&kv.1);
            set_title_entry(title, &kv.0, Some(format_chars(value)));
        },
        None => {},
    }
}

/// The title page that the items begin with, and whether there is one.
pub fn parse_title(source: &Vec<(Vec<char>, bool)>) -> (r: (Title, bool))
    ensures
        r.0@ == title_of(items_view(source@)),
        r.1 == has_title(items_view(source@)),
{
    let mut title: Title = Title::default();
    let end: usize = find_blank(source);
    if end == 0 {
        return (title, false);
    }
    assert(items_view(source@)[0] == (source@[0].0@, source@[0].1));
    if count_char(&source[0].0, ':') != 1 {
        return (title, false);
    }
    let mut pending: Option<(Vec<char>, Vec<char>)> = None;
    let mut i: usize = 0;
    while i < end
        invariant
            i <= end <= source.len(),
            (TitleScan { title: title@, pending: pending_view(pending) }) == title_scanned(
                items_view(source@),
                i as nat,
            ),
        decreases end - i,
    {
        assert(items_view(source@)[i as int] == (source@[i as int].0@, source@[i as int].1));
        let line: &Vec<char> = &source[i].0;
        if count_char(line, ':') == 1 {
            flush_entry(&mut title, &pending);
            let at: usize = find_char(line, ':');
            proof {
                lemma_index_of_range(line@, ':');
                if at == line.len() {
                    crate::text::lemma_count_of_absent(line@, ':');
                }
            }
            let key: Vec<char> = trim(&subvec(line, 0, at));
            let value: Vec<char> = trim(&subvec(line, at + 1, line.len()));
            pending = Some((key, value));
        } else {
            match pending {
                Some((key, mut value)) => {
                    let ghost open_value = value@;
                    value.push('\n');
                    append_chars(&mut value, &trim(line));
                    assert(value@ =~= open_value + seq!['\n'] + trimmed(line@));
                    pending = Some((key, value));
                },
                None => {
                    pending = None;
                },
            }
        }
        i += 1;
    }
    flush_entry(&mut title, &pending);
    (title, true)
}

/// The items that are the body of the script.
pub fn body_items(source: &Vec<(Vec<char>, bool)>, contains_title: bool) -> (r: Vec<
    (Vec<char>, bool),
>)
    requires
        contains_title == has_title(items_view(source@)),
    ensures
        items_view(r@) == body_of(items_view(source@)),
{
    let start: usize = if contains_title {
        let end: usize = find_blank(source);
        if end < source.len() {
            (end + 1) as usize
        } else {
            end
        }
    } else {
        0
    };
    let mut r: Vec<(Vec<char>, bool)> = Vec::new();
    let mut i: usize = start;
    assert(items_view(r@) =~= items_view(source@).subrange(start as int, start as int));
    while i < source.len()
        invariant
            start <= i <= source.len(),
            items_view(r@) == items_view(source@).subrange(start as int, i as int),
        decreases source.len() - i,
    {
        let ghost before = items_view(r@);
        r.push((copy_chars(&source[i].0), source[i].1));
        assert(items_view(r@) =~= before.push((source@[i as int].0@, source@[i as int].1)));
        assert(items_view(source@)[i as int] == (source@[i as int].0@, source@[i as int].1));
        assert(items_view(r@) =~= items_view(source@).subrange(start as int, i + 1));
        i += 1;
    }
    assert(items_view(source@).subrange(0, source.len() as int) =~= items_view(source@));
    assert(items_view(source@).subrange(source.len() as int, source.len() as int) =~= Seq::<
        (Seq<char>, bool),
    >::empty());
    r
}

// ---------------------------------------------------------------------
// The script
// ---------------------------------------------------------------------

/// The script that the text `s` is.
pub open spec fn parsed(s: Seq<char>) -> ScriptView {
    ScriptView {
        title: title_of(source_items(s)),
        lines: collapsed(classified_lines(body_of(source_items(s)))),
    }
}

/// The script that the text `source` is. No text is refused, and every
/// line of the script has a written form.
pub fn parse_fountain(source: &str) -> (r: Script)
    ensures
        r@ == parsed(source@),
        crate::exporter::all_exportable(r@.lines),
{
    proof {
        crate::laws::lemma_parsed_exportable(source@);
    }
    let chars: Vec<char> = chars_of(source);
    let segs: Vec<(Vec<char>, bool)> = parse_boneyard(&chars);
    let items: Vec<(Vec<char>, bool)> = split_items(&segs);
    let (title, contains_title) = parse_title(&items);
    let body: Vec<(Vec<char>, bool)> = body_items(&items, contains_title);
    let lines: Vec<Line> = parse_lines(&body);
    Script { title, lines: collapse(&lines) }
}

} // verus!
