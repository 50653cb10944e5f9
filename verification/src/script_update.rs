//! Edits of a script: a field of the title page, or one line.
//!
//! An edit gives a new script; the script it starts from is left as it
//! is. After a line was replaced, the lines behind it are read again,
//! because what a line is depends on the line before it.

use crate::classifier::{classify, classify_chars};
use crate::collapser::{collapse, collapsed, flatten_range, flattened};
use crate::exporter::{export_line_chars, exportable, line_text};
use crate::formatting::{format_chars, formatted};
use crate::parser::{
    classified_from, classify_items, is_blank_text, items_view, line_items, set_title_entry,
    with_entry, Running,
};
use crate::text::{chars_of, copy_chars, is_blank, lines_of, rows, split_lines};
use crate::types::{
    clone_line, clone_lines, clone_title, entries_view, entry_view, lemma_lines_view_push,
    line_eq, lines_view, Line, LineContent, LineView, Script, ScriptView, SpanView,
};
use vstd::prelude::*;

verus! {

/// The title page entry that the text `content` stands for: none where
/// the text is empty, else its spans.
pub open spec fn entry_of(content: Seq<char>) -> Option<Seq<SpanView>> {
    if content.len() == 0 {
        None
    } else {
        Some(formatted(content))
    }
}

/// The line last classified and the character who is speaking, after one
/// more line. A comment changes neither.
pub open spec fn state_step(st: (LineView, Seq<char>), line: LineView) -> (LineView, Seq<char>) {
    match line {
        LineView::Boneyard(_) => st,
        LineView::CharacterContent(entries) => (
            line,
            if entries.len() > 0 {
                entries.last().character
            } else {
                st.1
            },
        ),
        _ => (line, st.1),
    }
}

/// The line last classified and the character who is speaking, after the
/// lines `lines`.
pub open spec fn state_after(lines: Seq<LineView>) -> (LineView, Seq<char>)
    decreases lines.len(),
{
    if lines.len() == 0 {
        (LineView::Empty, Seq::empty())
    } else {
        state_step(state_after(lines.drop_last()), lines.last())
    }
}

/// What the text `text` puts in the place of a line: its lines, or
/// nothing where it is blank and has at most one line.
pub open spec fn replacement_items(text: Seq<char>) -> Seq<(Seq<char>, bool)> {
    if !is_blank(text) || lines_of(text).len() > 1 {
        line_items(lines_of(text))
    } else {
        Seq::empty()
    }
}

/// The lines `rest` read again after the line `previous`, while
/// `character` is speaking. Each line is written out and classified anew.
/// Where this gives the line that is there already, that line and all
/// lines behind it stay as they are. A comment stays as it is and the
/// reading goes on behind it; at a line without a written form the
/// reading ends.
pub open spec fn reparsed(rest: Seq<LineView>, previous: LineView, character: Seq<char>) -> Seq<
    LineView,
>
    decreases rest.len(),
{
    if rest.len() == 0 {
        rest
    } else if rest[0] is Boneyard {
        seq![rest[0]] + reparsed(rest.drop_first(), previous, character)
    } else if !exportable(rest[0]) {
        rest
    } else {
        let (line, name) = classify(line_text(rest[0]), previous, character);
        if line == rest[0] {
            rest
        } else {
            seq![line] + reparsed(
                rest.drop_first(),
                line,
                match name {
                    Some(n) => n,
                    None => character,
                },
            )
        }
    }
}

/// The lines of a script after the line at `line_id` was replaced by the
/// text `text`. Blocks are taken apart; the lines of `text` are
/// classified in the state that the lines before them lead to; the lines
/// behind are read again; and the lines of each character are gathered in
/// blocks again.
pub open spec fn updated_lines(lines: Seq<LineView>, line_id: int, text: Seq<char>) -> Seq<
    LineView,
> {
    let before = flattened(lines.subrange(0, line_id));
    let behind = flattened(lines.subrange(line_id + 1, lines.len() as int));
    let state = state_after(before);
    let items = replacement_items(text);
    let replaced = classified_from(
        Running { lines: before, previous: state.0, character: state.1 },
        items,
        items.len(),
    );
    collapsed(replaced.lines + reparsed(behind, replaced.previous, replaced.character))
}

proof fn lemma_state_after_push(lines: Seq<LineView>, line: LineView)
    ensures
        state_after(lines.push(line)) == state_step(state_after(lines), line),
{
    assert(lines.push(line).drop_last() == lines);
}

/// The line last classified and the character who is speaking, after the
/// lines `lines`.
pub fn running_state(lines: &Vec<Line>) -> (r: (Line, Vec<char>))
    ensures
        (r.0@, r.1@) == state_after(lines_view(lines@)),
{
    let mut previous: Line = Line::Empty;
    let mut character: Vec<char> = Vec::new();
    let mut i: usize = 0;
    let ghost all = lines_view(lines@);
    assert(all.subrange(0, 0) =~= Seq::<LineView>::empty());
    while i < lines.len()
        invariant
            i <= lines.len(),
            all == lines_view(lines@),
            (previous@, character@) == state_after(all.subrange(0, i as int)),
        decreases lines.len() - i,
    {
        proof {
            lemma_state_after_push(all.subrange(0, i as int), lines@[i as int]@);
            assert(all.subrange(0, i + 1) =~= all.subrange(0, i as int).push(lines@[i as int]@));
        }
        match &lines[i] {
            Line::Boneyard(_) => {},
            Line::CharacterContent(entries) => {
                previous = clone_line(&lines[i]);
                if entries.len() > 0 {
                    assert(entries_view(entries@).last() == entry_view(entries@.last()));
                    character = chars_of(entries[entries.len() - 1].2.as_str());
                }
            },
            _ => {
                previous = clone_line(&lines[i]);
            },
        }
        i += 1;
    }
    assert(all.subrange(0, lines.len() as int) =~= all);
    (previous, character)
}

/// The lines, each marked as standing outside of a comment.
fn mark_lines(lines: &Vec<Vec<char>>) -> (r: Vec<(Vec<char>, bool)>)
    ensures
        items_view(r@) == line_items(rows(lines@)),
{
    let mut r: Vec<(Vec<char>, bool)> = Vec::new();
    let mut i: usize = 0;
    while i < lines.len()
        invariant
            i <= lines.len(),
            r@.len() == i,
            forall|j: int| 0 <= j < i ==> (#[trigger] r@[j]).0@ == lines@[j]@ && !r@[j].1,
        decreases lines.len() - i,
    {
        r.push((copy_chars(&lines[i]), false));
        i += 1;
    }
    assert(items_view(r@) =~= line_items(rows(lines@)));
    r
}

/// Reads the lines `rest` again and adds them to `lines`.
pub fn reparse(
    rest: &Vec<Line>,
    lines: &mut Vec<Line>,
    previous_line: Line,
    current_character: Vec<char>,
)
    ensures
        lines_view(final(lines)@) == lines_view(old(lines)@) + reparsed(
            lines_view(rest@),
            previous_line@,
            current_character@,
        ),
{
    let ghost all = lines_view(rest@);
    let ghost goal = lines_view(lines@) + reparsed(all, previous_line@, current_character@);
    let mut previous: Line = previous_line;
    let mut character: Vec<char> = current_character;
    let mut i: usize = 0;
    let mut stable: bool = false;
    assert(all.subrange(0, rest.len() as int) =~= all);
    while i < rest.len() && !stable
        invariant
            i <= rest.len(),
            all == lines_view(rest@),
            goal == lines_view(lines@) + reparsed(
                all.subrange(i as int, rest.len() as int),
                previous@,
                character@,
            ),
            stable ==> reparsed(all.subrange(i as int, rest.len() as int), previous@, character@)
                == all.subrange(i as int, rest.len() as int),
        decreases rest.len() - i, if stable { 0int } else { 1int },
    {
        let ghost tail = all.subrange(i as int, rest.len() as int);
        assert(tail[0] == rest@[i as int]@);
        assert(tail.drop_first() =~= all.subrange(i + 1, rest.len() as int));
        match &rest[i] {
            Line::Boneyard(_) => {
                let copy: Line = clone_line(&rest[i]);
                proof {
                    lemma_lines_view_push(lines@, copy);
                    assert(lines_view(lines@.push(copy)) + reparsed(
                        tail.drop_first(),
                        previous@,
                        character@,
                    ) =~= goal);
                }
                lines.push(copy);
                i += 1;
            },
            Line::Section(_) => {
                stable = true;
            },
            Line::Synopsis(_) => {
                stable = true;
            },
            _ => {
                let exported: Vec<char> = export_line_chars(&rest[i]);
                let (line, name) = classify_chars(&exported, &previous, &character);
                if line_eq(&line, &rest[i]) {
                    stable = true;
                } else {
                    previous = clone_line(&line);
                    proof {
                        lemma_lines_view_push(lines@, line);
                        assert(lines_view(lines@.push(line)) + reparsed(
                            tail.drop_first(),
                            line@,
                            match name {
                                Some(n) => n@,
                                None => character@,
                            },
                        ) =~= goal);
                    }
                    lines.push(line);
                    if let Some(n) = name {
                        character = n;
                    }
                    i += 1;
                }
            },
        }
    }
    let ghost fixed = lines_view(lines@);
    let start: usize = i;
    assert(all.subrange(start as int, start as int) =~= Seq::<LineView>::empty());
    assert(lines_view(lines@) =~= fixed + all.subrange(start as int, i as int));
    while i < rest.len()
        invariant
            start <= i <= rest.len(),
            all == lines_view(rest@),
            lines_view(lines@) == fixed + all.subrange(start as int, i as int),
        decreases rest.len() - i,
    {
        let copy: Line = clone_line(&rest[i]);
        proof {
            lemma_lines_view_push(lines@, copy);
            assert(lines_view(lines@.push(copy)) =~= fixed + all.subrange(start as int, i + 1));
        }
        lines.push(copy);
        i += 1;
    }
}

impl Script {
    /// The script with the text `content` in the field `tag` of the title
    /// page. An empty text takes the field away. A tag that names none of
    /// the fields names an entry of the map.
    pub fn update_title_element(&self, tag: &str, content: String) -> (r: Script)
        ensures
            r@ == (ScriptView {
                title: with_entry(self@.title, tag@, entry_of(content@)),
                lines: self@.lines,
            }),
    {
        let mut title = clone_title(&self.title);
        let text: Vec<char> = chars_of(content.as_str());
        let value: Option<Vec<LineContent>> = if text.len() == 0 {
            None
        } else {
            Some(format_chars(text))
        };
        set_title_entry(&mut title, &chars_of(tag), value);
        Script { title, lines: clone_lines(&self.lines) }
    }

    /// The script with the text `line` in the place of the line at
    /// `line_id`. The text may hold several lines, which all take the
    /// place of the one; a blank text of at most one line takes the line
    /// away. The lines behind are read again until one of them comes out
    /// as it was.
    pub fn update_line(&self, line_id: usize, line: &str) -> (r: Script)
        requires
            line_id < self.lines.len(),
        ensures
            r@ == (ScriptView {
                title: self@.title,
                lines: updated_lines(self@.lines, line_id as int, line@),
            }),
            crate::exporter::all_exportable(self@.lines) ==> crate::exporter::all_exportable(
                r@.lines,
            ),
    {
        proof {
            if crate::exporter::all_exportable(self@.lines) {
                crate::laws::lemma_updated_exportable(self@.lines, line_id as int, line@);
            }
        }
        let mut lines: Vec<Line> = flatten_range(&self.lines, 0, line_id);
        let behind: Vec<Line> = flatten_range(&self.lines, line_id + 1, self.lines.len());
        let (mut previous_line, mut current_character) = running_state(&lines);
        let text: Vec<char> = chars_of(line);
        let new_lines: Vec<Vec<char>> = split_lines(&text);
        if !is_blank_text(&text) || new_lines.len() > 1 {
            let items: Vec<(Vec<char>, bool)> = mark_lines(&new_lines);
            classify_items(&items, &mut lines, &mut previous_line, &mut current_character);
        }
        reparse(&behind, &mut lines, previous_line, current_character);
        Script { title: clone_title(&self.title), lines: collapse(&lines) }
    }
}

} // verus!
