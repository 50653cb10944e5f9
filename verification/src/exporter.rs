//! The exporter: from a script back to its text.
//!
//! Every kind of line has one way to be written, chosen so that the
//! classifier reads the line as the same kind again. The lines are joined
//! by line feeds. The title page, if it holds any field, comes first and
//! is set off from the lines by a blank line.

use crate::classifier::{
    begins_with, finishes_with, first_is, has_scene_word, last_is, uppercase_chars, uppercase_of,
};
use crate::text::{
    append_chars, chars_of, copy_chars, ends_with, has_suffix, joined, lemma_joined_push,
    starts_with_ignore_case, string_of,
};
use crate::types::{
    cleaned_text, entries_view, entry_view, lemma_cleaned_text_push, lemma_raw_text_push,
    lines_view, raw_text, spans_view, CharacterLine, EntryView, Line, LineContent, LineView,
    Script, ScriptView, SpanView, TextAlignment, Title, TitleView,
};
use vstd::prelude::*;

verus! {

/// Whether the line has a written form. Sections and synopses have none.
pub open spec fn exportable(line: LineView) -> bool {
    !(line is Section) && !(line is Synopsis)
}

/// Whether every one of the lines has a written form.
pub open spec fn all_exportable(lines: Seq<LineView>) -> bool {
    forall|i: int| 0 <= i < lines.len() ==> exportable(#[trigger] lines[i])
}

/// The written form of a scene heading: the heading itself where it
/// begins with `.` or with a scene word, else the heading after a `.`.
pub open spec fn scene_heading_text(heading: Seq<char>) -> Seq<char> {
    if first_is(heading, '.') || has_scene_word(heading) {
        heading
    } else {
        seq!['.'] + heading
    }
}

/// The written form of a transition, with its upper case form given as
/// `upper`: the transition itself where it begins with `>`, its upper
/// case form where it ends with `TO:`, else the transition after a `>`.
pub open spec fn transition_text_given(transition: Seq<char>, upper: Seq<char>) -> Seq<char> {
    if first_is(transition, '>') {
        transition
    } else if has_suffix(transition, "TO:"@) {
        upper
    } else {
        seq!['>'] + transition
    }
}

/// The written form of a transition.
pub open spec fn transition_text(transition: Seq<char>) -> Seq<char> {
    transition_text_given(transition, uppercase_of(transition))
}

/// The written form of a character heading, with the upper case form of
/// the name given as `upper`: the name in upper case, and ` ^` after it
/// where the heading is dual.
pub open spec fn heading_text_given(upper: Seq<char>, is_dual: bool) -> Seq<char> {
    if is_dual {
        upper + seq![' ', '^']
    } else {
        upper
    }
}

/// The text `t` in round brackets, unless it has them already.
pub open spec fn in_brackets(t: Seq<char>) -> Seq<char> {
    let opened = if first_is(t, '(') {
        t
    } else {
        seq!['('] + t
    };
    if last_is(opened, ')') {
        opened
    } else {
        opened + seq![')']
    }
}

/// The text `t` after a `~`, unless it begins with one already.
pub open spec fn as_lyrics(t: Seq<char>) -> Seq<char> {
    if first_is(t, '~') {
        t
    } else {
        seq!['~'] + t
    }
}

/// The written form of one entry of a character's block.
pub open spec fn entry_text(e: EntryView) -> Seq<char> {
    match e.kind {
        CharacterLine::CharacterHeading(is_dual) => heading_text_given(
            uppercase_of(e.character),
            is_dual,
        ),
        CharacterLine::Dialogue => raw_text(e.spans),
        CharacterLine::Parenthetical => in_brackets(raw_text(e.spans)),
        CharacterLine::Lyrics => as_lyrics(raw_text(e.spans)),
        CharacterLine::Empty => Seq::empty(),
    }
}

/// The written forms of the entries of a block.
pub open spec fn entry_texts(entries: Seq<EntryView>) -> Seq<Seq<char>> {
    entries.map_values(|e: EntryView| entry_text(e))
}

/// The written form of a line. A block is written entry by entry, one
/// line each. A section or a synopsis has no written form.
pub open spec fn line_text(line: LineView) -> Seq<char> {
    match line {
        LineView::Action(spans, TextAlignment::Left) => raw_text(spans),
        LineView::Action(spans, TextAlignment::Center) => seq!['>', ' '] + raw_text(spans) + seq![
            ' ',
            '<',
        ],
        LineView::SceneHeading(heading) => scene_heading_text(heading),
        LineView::CharacterContent(entries) => joined(entry_texts(entries), seq!['\n']),
        LineView::Transition(transition) => transition_text(transition),
        LineView::PageBreak => seq!['=', '=', '='],
        LineView::Boneyard(spans) => seq!['/', '*', '\n'] + raw_text(spans) + seq!['\n', '*', '/'],
        LineView::Section(_) => Seq::empty(),
        LineView::Synopsis(_) => Seq::empty(),
        LineView::Empty => Seq::empty(),
    }
}

/// The written forms of the lines.
pub open spec fn line_texts(lines: Seq<LineView>) -> Seq<Seq<char>> {
    lines.map_values(|l: LineView| line_text(l))
}

/// The written form of the lines: one after the other, joined by line
/// feeds.
pub open spec fn lines_text(lines: Seq<LineView>) -> Seq<char> {
    joined(line_texts(lines), seq!['\n'])
}

/// The line of the title page for one field: the label and the text of
/// the field as it reads. A field that is not set has no line.
pub open spec fn field_lines(label: Seq<char>, field: Option<Seq<SpanView>>) -> Seq<Seq<char>> {
    match field {
        Some(spans) => seq![label + cleaned_text(spans)],
        None => Seq::empty(),
    }
}

/// The lines of the title page, in their fixed order.
pub open spec fn title_lines(t: TitleView) -> Seq<Seq<char>> {
    field_lines("Title: "@, t.title) + field_lines("Credit: "@, t.credit) + field_lines(
        "Author: "@,
        t.author,
    ) + field_lines("Source: "@, t.source) + field_lines("Draft: "@, t.draft) + field_lines(
        "Contact: "@,
        t.contact,
    )
}

/// The written form of the title page.
pub open spec fn title_text(t: TitleView) -> Seq<char> {
    joined(title_lines(t), seq!['\n'])
}

/// The title page and the lines put together: whichever of the two is
/// not empty, or both with a blank line between them.
pub open spec fn combined(title: Seq<char>, content: Seq<char>) -> Seq<char> {
    if title.len() == 0 {
        content
    } else if content.len() == 0 {
        title
    } else {
        title + seq!['\n', '\n'] + content
    }
}

/// The written form of a script.
pub open spec fn exported(script: ScriptView) -> Seq<char> {
    combined(title_text(script.title), lines_text(script.lines))
}

/// Appends the characters of `s` to `v`.
pub fn append_str(v: &mut Vec<char>, s: &str)
    ensures
        final(v)@ == old(v)@ + s@,
{
    append_chars(v, &chars_of(s));
}

/// The text of the spans as it reads.
pub fn text_content(content: &Vec<LineContent>) -> (r: Vec<char>)
    ensures
        r@ == cleaned_text(spans_view(content@)),
{
    let mut r: Vec<char> = Vec::new();
    let mut i: usize = 0;
    assert(spans_view(content@.subrange(0, 0)) =~= Seq::<SpanView>::empty());
    while i < content.len()
        invariant
            i <= content.len(),
            r@ == cleaned_text(spans_view(content@.subrange(0, i as int))),
        decreases content.len() - i,
    {
        proof {
            lemma_cleaned_text_push(
                spans_view(content@.subrange(0, i as int)),
                content@[i as int]@,
            );
            assert(spans_view(content@.subrange(0, i + 1)) =~= spans_view(
                content@.subrange(0, i as int),
            ).push(content@[i as int]@));
        }
        append_str(&mut r, content[i].content.as_str());
        i += 1;
    }
    assert(content@.subrange(0, content.len() as int) == content@);
    r
}

/// The text of the spans as it was written.
pub fn line_content(content: &Vec<LineContent>) -> (r: Vec<char>)
    ensures
        r@ == raw_text(spans_view(content@)),
{
    let mut r: Vec<char> = Vec::new();
    let mut i: usize = 0;
    assert(spans_view(content@.subrange(0, 0)) =~= Seq::<SpanView>::empty());
    while i < content.len()
        invariant
            i <= content.len(),
            r@ == raw_text(spans_view(content@.subrange(0, i as int))),
        decreases content.len() - i,
    {
        proof {
            lemma_raw_text_push(spans_view(content@.subrange(0, i as int)), content@[i as int]@);
            assert(spans_view(content@.subrange(0, i + 1)) =~= spans_view(
                content@.subrange(0, i as int),
            ).push(content@[i as int]@));
        }
        append_str(&mut r, content[i].raw_content.as_str());
        i += 1;
    }
    assert(content@.subrange(0, content.len() as int) == content@);
    r
}

/// The text of the spans as it reads.
pub fn export_text_content(content: &Vec<LineContent>) -> (r: String)
    ensures
        r@ == cleaned_text(spans_view(content@)),
{
    string_of(&text_content(content))
}

/// The text of the spans as it was written.
pub fn export_line_content(line_content: &Vec<LineContent>) -> (r: String)
    ensures
        r@ == raw_text(spans_view(line_content@)),
{
    string_of(&self::line_content(line_content))
}

/// Whether `v` begins with a scene word.
pub fn starts_with_scene_word(v: &Vec<char>) -> (r: bool)
    ensures
        r == has_scene_word(v@),
{
    starts_with_ignore_case(v, "INT") || starts_with_ignore_case(v, "EXT")
        || starts_with_ignore_case(v, "EST") || starts_with_ignore_case(v, "I/E")
}

/// The written form of a scene heading.
pub fn export_scene_heading(heading: &Vec<char>) -> (r: Vec<char>)
    ensures
        r@ == scene_heading_text(heading@),
{
    if begins_with(heading, '.') || starts_with_scene_word(heading) {
        copy_chars(heading)
    } else {
        let mut r: Vec<char> = Vec::new();
        r.push('.');
        append_chars(&mut r, heading);
        assert(r@ =~= seq!['.'] + heading@);
        r
    }
}

/// The written form of a transition, given its upper case form.
pub fn export_transition_from(transition: &Vec<char>, upper: &Vec<char>) -> (r: Vec<char>)
    ensures
        r@ == transition_text_given(transition@, upper@),
{
    if begins_with(transition, '>') {
        copy_chars(transition)
    } else if ends_with(transition, "TO:") {
        copy_chars(upper)
    } else {
        let mut r: Vec<char> = Vec::new();
        r.push('>');
        append_chars(&mut r, transition);
        assert(r@ =~= seq!['>'] + transition@);
        r
    }
}

/// The written form of a transition.
pub fn export_transition(transition: &Vec<char>) -> (r: Vec<char>)
    ensures
        r@ == transition_text(transition@),
{
    let upper: Vec<char> = uppercase_chars(transition);
    export_transition_from(transition, &upper)
}

/// The written form of a character heading, given the upper case form
/// of the name.
pub fn export_heading_from(upper: &Vec<char>, is_dual: bool) -> (r: Vec<char>)
    ensures
        r@ == heading_text_given(upper@, is_dual),
{
    let mut r: Vec<char> = copy_chars(upper);
    if is_dual {
        r.push(' ');
        r.push('^');
        assert(r@ =~= upper@ + seq![' ', '^']);
    }
    r
}

/// The written form of one entry of a character's block.
pub fn export_entry(entry: &(Vec<LineContent>, CharacterLine, String)) -> (r: Vec<char>)
    ensures
        r@ == entry_text(entry_view(*entry)),
{
    match entry.1 {
        CharacterLine::CharacterHeading(is_dual) => {
            let upper: Vec<char> = uppercase_chars(&chars_of(entry.2.as_str()));
            export_heading_from(&upper, is_dual)
        },
        CharacterLine::Dialogue => line_content(&entry.0),
        CharacterLine::Parenthetical => {
            let content: Vec<char> = line_content(&entry.0);
            let mut r: Vec<char> = Vec::new();
            if !begins_with(&content, '(') {
                r.push('(');
            }
            append_chars(&mut r, &content);
            assert(r@ =~= if first_is(content@, '(') {
                content@
            } else {
                seq!['('] + content@
            });
            if !finishes_with(&r, ')') {
                r.push(')');
                assert(r@ =~= in_brackets(content@));
            }
            r
        },
        CharacterLine::Lyrics => {
            let content: Vec<char> = line_content(&entry.0);
            if begins_with(&content, '~') {
                content
            } else {
                let mut r: Vec<char> = Vec::new();
                r.push('~');
                append_chars(&mut r, &content);
                assert(r@ =~= seq!['~'] + content@);
                r
            }
        },
        CharacterLine::Empty => Vec::new(),
    }
}

/// The written form of a character's block.
pub fn export_entries(entries: &Vec<(Vec<LineContent>, CharacterLine, String)>) -> (r: Vec<char>)
    ensures
        r@ == joined(entry_texts(entries_view(entries@)), seq!['\n']),
{
    let mut r: Vec<char> = Vec::new();
    let mut i: usize = 0;
    assert(entry_texts(entries_view(entries@.subrange(0, 0))) =~= Seq::<Seq<char>>::empty());
    while i < entries.len()
        invariant
            i <= entries.len(),
            r@ == joined(entry_texts(entries_view(entries@.subrange(0, i as int))), seq!['\n']),
        decreases entries.len() - i,
    {
        let text: Vec<char> = export_entry(&entries[i]);
        proof {
            let done = entry_texts(entries_view(entries@.subrange(0, i as int)));
            lemma_joined_push(done, seq!['\n'], text@);
            assert(entry_texts(entries_view(entries@.subrange(0, i + 1))) =~= done.push(text@));
        }
        if i > 0 {
            r.push('\n');
        }
        append_chars(&mut r, &text);
        proof {
            let done = entry_texts(entries_view(entries@.subrange(0, i as int)));
            if i > 0 {
                assert(r@ =~= joined(done, seq!['\n']) + seq!['\n'] + text@);
            } else {
                assert(r@ =~= text@);
            }
        }
        i += 1;
    }
    assert(entries@.subrange(0, entries.len() as int) == entries@);
    r
}

/// The written form of a line.
pub fn export_line_chars(line: &Line) -> (r: Vec<char>)
    requires
        exportable(line@),
    ensures
        r@ == line_text(line@),
{
    match line {
        Line::Action(spans, alignment) => {
            let content: Vec<char> = line_content(spans);
            match alignment {
                TextAlignment::Left => content,
                TextAlignment::Center => {
                    let mut r: Vec<char> = Vec::new();
                    r.push('>');
                    r.push(' ');
                    append_chars(&mut r, &content);
                    r.push(' ');
                    r.push('<');
                    assert(r@ =~= seq!['>', ' '] + content@ + seq![' ', '<']);
                    r
                },
            }
        },
        Line::SceneHeading(heading) => export_scene_heading(&chars_of(heading.as_str())),
        Line::PageBreak => {
            let mut r: Vec<char> = Vec::new();
            r.push('=');
            r.push('=');
            r.push('=');
            assert(r@ =~= seq!['=', '=', '=']);
            r
        },
        Line::Transition(transition) => export_transition(&chars_of(transition.as_str())),
        Line::CharacterContent(entries) => export_entries(entries),
        Line::Boneyard(spans) => {
            let content: Vec<char> = line_content(spans);
            let mut r: Vec<char> = Vec::new();
            r.push('/');
            r.push('*');
            r.push('\n');
            append_chars(&mut r, &content);
            r.push('\n');
            r.push('*');
            r.push('/');
            assert(r@ =~= seq!['/', '*', '\n'] + content@ + seq!['\n', '*', '/']);
            r
        },
        Line::Section(_) => Vec::new(),
        Line::Synopsis(_) => Vec::new(),
        Line::Empty => Vec::new(),
    }
}

/// The written form of a line. Sections and synopses have none and are
/// left out by the precondition.
pub fn export_line(line: &Line) -> (r: String)
    requires
        exportable(line@),
    ensures
        r@ == line_text(line@),
{
    string_of(&export_line_chars(line))
}

/// The written form of the lines.
pub fn export_lines_chars(lines: &Vec<Line>) -> (r: Vec<char>)
    requires
        all_exportable(lines_view(lines@)),
    ensures
        r@ == lines_text(lines_view(lines@)),
{
    let mut r: Vec<char> = Vec::new();
    let mut i: usize = 0;
    assert(line_texts(lines_view(lines@.subrange(0, 0))) =~= Seq::<Seq<char>>::empty());
    while i < lines.len()
        invariant
            i <= lines.len(),
            all_exportable(lines_view(lines@)),
            r@ == joined(line_texts(lines_view(lines@.subrange(0, i as int))), seq!['\n']),
        decreases lines.len() - i,
    {
        assert(lines_view(lines@)[i as int] == lines@[i as int]@);
        let text: Vec<char> = export_line_chars(&lines[i]);
        proof {
            let done = line_texts(lines_view(lines@.subrange(0, i as int)));
            lemma_joined_push(done, seq!['\n'], text@);
            assert(line_texts(lines_view(lines@.subrange(0, i + 1))) =~= done.push(text@));
        }
        if i > 0 {
            r.push('\n');
        }
        append_chars(&mut r, &text);
        proof {
            let done = line_texts(lines_view(lines@.subrange(0, i as int)));
            if i > 0 {
                assert(r@ =~= joined(done, seq!['\n']) + seq!['\n'] + text@);
            } else {
                assert(r@ =~= text@);
            }
        }
        i += 1;
    }
    assert(lines@.subrange(0, lines.len() as int) == lines@);
    r
}

/// The written form of the lines.
pub fn export_lines(lines: &Vec<Line>) -> (r: String)
    requires
        all_exportable(lines_view(lines@)),
    ensures
        r@ == lines_text(lines_view(lines@)),
{
    string_of(&export_lines_chars(lines))
}

/// Adds the line of one field of the title page to `lines`.
fn push_field(lines: &mut Vec<Vec<char>>, label: &str, field: &Option<Vec<LineContent>>)
    ensures
        crate::text::rows(final(lines)@) == crate::text::rows(old(lines)@) + field_lines(
            label@,
            crate::types::field_view(*field),
        ),
{
    match field {
        Some(spans) => {
            let mut line: Vec<char> = chars_of(label);
            append_chars(&mut line, &text_content(spans));
            lines.push(line);
            assert(crate::text::rows(lines@) =~= crate::text::rows(old(lines)@) + seq![
                label@ + cleaned_text(spans_view(spans@)),
            ]);
        },
        None => {
            assert(crate::text::rows(lines@) =~= crate::text::rows(old(lines)@) + Seq::<
                Seq<char>,
            >::empty());
        },
    }
}

/// The pieces joined by line feeds.
pub fn join_lines(parts: &Vec<Vec<char>>) -> (r: Vec<char>)
    ensures
        r@ == joined(crate::text::rows(parts@), seq!['\n']),
{
    let mut r: Vec<char> = Vec::new();
    let mut i: usize = 0;
    assert(crate::text::rows(parts@).subrange(0, 0) =~= Seq::<Seq<char>>::empty());
    while i < parts.len()
        invariant
            i <= parts.len(),
            r@ == joined(crate::text::rows(parts@).subrange(0, i as int), seq!['\n']),
        decreases parts.len() - i,
    {
        proof {
            let done = crate::text::rows(parts@).subrange(0, i as int);
            lemma_joined_push(done, seq!['\n'], parts@[i as int]@);
            assert(crate::text::rows(parts@).subrange(0, i + 1) =~= done.push(parts@[i as int]@));
        }
        if i > 0 {
            r.push('\n');
        }
        append_chars(&mut r, &parts[i]);
        proof {
            let done = crate::text::rows(parts@).subrange(0, i as int);
            if i > 0 {
                assert(r@ =~= joined(done, seq!['\n']) + seq!['\n'] + parts@[i as int]@);
            } else {
                assert(r@ =~= parts@[i as int]@);
            }
        }
        i += 1;
    }
    assert(crate::text::rows(parts@).subrange(0, parts.len() as int) =~= crate::text::rows(
        parts@,
    ));
    r
}

/// The written form of the title page.
pub fn export_title_chars(title: &Title) -> (r: Vec<char>)
    ensures
        r@ == title_text(title@),
{
    let mut result: Vec<Vec<char>> = Vec::new();
    assert(crate::text::rows(result@) =~= Seq::<Seq<char>>::empty());
    push_field(&mut result, "Title: ", &title.title);
    push_field(&mut result, "Credit: ", &title.credit);
    push_field(&mut result, "Author: ", &title.author);
    push_field(&mut result, "Source: ", &title.source);
    push_field(&mut result, "Draft: ", &title.draft);
    push_field(&mut result, "Contact: ", &title.contact);
    assert(crate::text::rows(result@) =~= title_lines(title@));
    join_lines(&result)
}

/// The written form of the title page.
pub fn export_title(title: &Title) -> (r: String)
    ensures
        r@ == title_text(title@),
{
    string_of(&export_title_chars(title))
}

/// The written form of the script: the title page, a blank line, the
/// lines. Where the title page or the lines are empty, the other stands
/// alone.
pub fn export_fountain(source: &Script) -> (r: String)
    requires
        all_exportable(source@.lines),
    ensures
        r@ == exported(source@),
{
    let title: Vec<char> = export_title_chars(&source.title);
    let content: Vec<char> = export_lines_chars(&source.lines);
    if title.len() == 0 {
        string_of(&content)
    } else if content.len() == 0 {
        string_of(&title)
    } else {
        let mut r: Vec<char> = title;
        r.push('\n');
        r.push('\n');
        append_chars(&mut r, &content);
        assert(r@ =~= title_text(source@.title) + seq!['\n', '\n'] + content@);
        string_of(&r)
    }
}

/// Whether the line has a written form.
pub fn is_exportable(line: &Line) -> (r: bool)
    ensures
        r == exportable(line@),
{
    match line {
        Line::Section(_) => false,
        Line::Synopsis(_) => false,
        _ => true,
    }
}

/// Whether every one of the lines has a written form.
pub fn all_lines_exportable(lines: &Vec<Line>) -> (r: bool)
    ensures
        r == all_exportable(lines_view(lines@)),
{
    let mut i: usize = 0;
    while i < lines.len()
        invariant
            i <= lines.len(),
            forall|j: int| 0 <= j < i ==> exportable(#[trigger] lines_view(lines@)[j]),
        decreases lines.len() - i,
    {
        assert(lines_view(lines@)[i as int] == lines@[i as int]@);
        if !is_exportable(&lines[i]) {
            return false;
        }
        i += 1;
    }
    true
}

/// The written form of the script, or `None` where one of its lines has
/// none.
pub fn try_export_fountain(source: &Script) -> (r: Option<String>)
    ensures
        match r {
            Some(text) => all_exportable(source@.lines) && text@ == exported(source@),
            None => !all_exportable(source@.lines),
        },
{
    if all_lines_exportable(&source.lines) {
        Some(export_fountain(source))
    } else {
        None
    }
}

} // verus!
