//! The line classifier: what kind of line a text is, given the line
//! before it and the character who is speaking.
//!
//! A line is trimmed and then tried against the kinds in a fixed order;
//! the first kind that fits decides. A line that fits no kind is action.

use crate::formatting::{format_chars, formatted};
use crate::text::{
    chars_eq, chars_of, copy_chars, ends_with, has_prefix, has_prefix_ignore_case, has_suffix,
    starts_with, starts_with_ignore_case, string_of, subvec, to_uppercase, trim, trimmed,
};
use crate::types::{
    CharacterLine, EntryView, Line, LineContent, LineView, TextAlignment,
};
use vstd::prelude::*;

verus! {

/// Whether `s` begins with the character `c`.
pub open spec fn first_is(s: Seq<char>, c: char) -> bool {
    s.len() > 0 && s[0] == c
}

/// Whether `s` ends with the character `c`.
pub open spec fn last_is(s: Seq<char>, c: char) -> bool {
    s.len() > 0 && s.last() == c
}

/// Whether the trimmed line `v` is a page break: it begins with `===`.
pub open spec fn is_page_break(v: Seq<char>) -> bool {
    has_prefix(v, "==="@)
}

/// The text of the centered line `v`: what stands between `>` and `<`,
/// trimmed. `None` where `v` is not centered.
pub open spec fn centered_text(v: Seq<char>) -> Option<Seq<char>> {
    if first_is(v, '>') && last_is(v, '<') && v.len() >= 2 {
        Some(trimmed(v.subrange(1, v.len() - 1)))
    } else {
        None
    }
}

/// Whether `v` begins with one of the words that open a scene heading,
/// in any case.
pub open spec fn has_scene_word(v: Seq<char>) -> bool {
    has_prefix_ignore_case(v, "INT"@) || has_prefix_ignore_case(v, "EXT"@)
        || has_prefix_ignore_case(v, "EST"@) || has_prefix_ignore_case(v, "I/E"@)
}

/// The scene heading that the trimmed line `v` is: what follows a leading
/// `.`, or all of a line that begins with a scene word. `None` where `v`
/// is no scene heading.
pub open spec fn scene_heading(v: Seq<char>) -> Option<Seq<char>> {
    if first_is(v, '.') {
        Some(v.subrange(1, v.len() as int))
    } else if has_scene_word(v) {
        Some(v)
    } else {
        None
    }
}

/// The transition that the trimmed line `v` is: what follows a leading
/// `>`, trimmed, unless the line ends with `<`; or, after an empty line,
/// all of an upper case line that ends with `TO:`.
pub open spec fn transition(v: Seq<char>, previous: LineView) -> Option<Seq<char>> {
    transition_given(v, uppercase_of(v), previous)
}

/// [`transition`], with the upper case form of `v` given as `upper`.
pub open spec fn transition_given(v: Seq<char>, upper: Seq<char>, previous: LineView) -> Option<
    Seq<char>,
> {
    if first_is(v, '>') && !last_is(v, '<') {
        Some(trimmed(v.subrange(1, v.len() as int)))
    } else if previous is Empty && upper == v && has_suffix(v, "TO:"@) {
        Some(v)
    } else {
        None
    }
}

/// The upper case form of `s`.
pub open spec fn uppercase_of(s: Seq<char>) -> Seq<char> {
    crate::text::uppercase(s)
}

/// The name on the trimmed line `v` and whether a `^` marks it as dual:
/// a `^` at the end is taken off and what is left is trimmed.
pub open spec fn heading_name(v: Seq<char>) -> (Seq<char>, bool) {
    if last_is(v, '^') {
        (trimmed(v.drop_last()), true)
    } else {
        (v, false)
    }
}

/// The character heading that the trimmed line `v` is: after an empty
/// line, a name in upper case. `None` where `v` is no character heading.
pub open spec fn character_heading(v: Seq<char>, previous: LineView) -> Option<(Seq<char>, bool)> {
    character_heading_given(heading_name(v), uppercase_of(heading_name(v).0), previous)
}

/// [`character_heading`], with the upper case form of the name given as
/// `upper`.
pub open spec fn character_heading_given(
    name: (Seq<char>, bool),
    upper: Seq<char>,
    previous: LineView,
) -> Option<(Seq<char>, bool)> {
    if previous is Empty && upper == name.0 {
        Some(name)
    } else {
        None
    }
}

/// The lyrics on the trimmed line `v`: what follows a leading `~`,
/// trimmed.
pub open spec fn lyrics(v: Seq<char>) -> Option<Seq<char>> {
    if first_is(v, '~') {
        Some(trimmed(v.subrange(1, v.len() as int)))
    } else {
        None
    }
}

/// The dialogue on the trimmed line `v`, which follows a line of a
/// character's block, and whether it is a parenthetical: a line in round
/// brackets.
pub open spec fn dialog(v: Seq<char>, previous: LineView) -> Option<(Seq<char>, bool)> {
    if previous is CharacterContent {
        Some((v, first_is(v, '(') && last_is(v, ')')))
    } else {
        None
    }
}

/// The line of a character's block with one entry.
pub open spec fn character_line(
    spans: Seq<char>,
    kind: CharacterLine,
    character: Seq<char>,
) -> LineView {
    LineView::CharacterContent(seq![EntryView { spans: formatted(spans), kind, character }])
}

/// The line that the text `line` is after the line `previous`, while
/// `character` is speaking; and the character who speaks from this line
/// on, where the line names one.
pub open spec fn classify(line: Seq<char>, previous: LineView, character: Seq<char>) -> (
    LineView,
    Option<Seq<char>>,
) {
    let v = trimmed(line);
    if v.len() == 0 {
        (LineView::Empty, None)
    } else if is_page_break(v) {
        (LineView::PageBreak, None)
    } else if centered_text(v) is Some {
        (LineView::Action(formatted(centered_text(v)->0), TextAlignment::Center), None)
    } else if scene_heading(v) is Some {
        (LineView::SceneHeading(scene_heading(v)->0), None)
    } else if transition(v, previous) is Some {
        (LineView::Transition(transition(v, previous)->0), None)
    } else if character_heading(v, previous) is Some {
        let (name, is_dual) = character_heading(v, previous)->0;
        (character_line(name, CharacterLine::CharacterHeading(is_dual), name), Some(name))
    } else if lyrics(v) is Some {
        (character_line(lyrics(v)->0, CharacterLine::Lyrics, character), None)
    } else if dialog(v, previous) is Some {
        let (text, parenthetical) = dialog(v, previous)->0;
        if parenthetical {
            (character_line(text, CharacterLine::Parenthetical, character), None)
        } else {
            (character_line(text, CharacterLine::Dialogue, character), None)
        }
    } else {
        (LineView::Action(formatted(v), TextAlignment::Left), None)
    }
}

/// The value of an optional text.
pub open spec fn option_view(o: Option<Vec<char>>) -> Option<Seq<char>> {
    match o {
        Some(v) => Some(v@),
        None => None,
    }
}

/// The value of an optional text with a mark.
pub open spec fn marked_view(o: Option<(Vec<char>, bool)>) -> Option<(Seq<char>, bool)> {
    match o {
        Some(p) => Some((p.0@, p.1)),
        None => None,
    }
}

/// The value of an optional string.
pub open spec fn string_option_view(o: Option<String>) -> Option<Seq<char>> {
    match o {
        Some(v) => Some(v@),
        None => None,
    }
}

/// Whether `v` begins with the character `c`.
pub fn begins_with(v: &Vec<char>, c: char) -> (r: bool)
    ensures
        r == first_is(v@, c),
{
    v.len() > 0 && v[0] == c
}

/// Whether `v` ends with the character `c`.
pub fn finishes_with(v: &Vec<char>, c: char) -> (r: bool)
    ensures
        r == last_is(v@, c),
{
    v.len() > 0 && v[v.len() - 1] == c
}

/// Whether the trimmed line is a page break.
pub fn parse_page_break(line: &Vec<char>) -> (r: bool)
    ensures
        r == is_page_break(line@),
{
    starts_with(line, "===")
}

/// The text of a centered line.
pub fn parse_centered_text(line: &Vec<char>) -> (r: Option<Vec<char>>)
    ensures
        option_view(r) == centered_text(line@),
{
    if begins_with(line, '>') && finishes_with(line, '<') && line.len() >= 2 {
        let inner: Vec<char> = subvec(line, 1, line.len() - 1);
        Some(trim(&inner))
    } else {
        None
    }
}

/// The scene heading that the trimmed line is.
pub fn parse_scene_heading(line: &Vec<char>) -> (r: Option<Vec<char>>)
    ensures
        option_view(r) == scene_heading(line@),
{
    if begins_with(line, '.') {
        Some(subvec(line, 1, line.len()))
    } else if starts_with_ignore_case(line, "INT") || starts_with_ignore_case(line, "EXT")
        || starts_with_ignore_case(line, "EST") || starts_with_ignore_case(line, "I/E") {
        Some(copy_chars(line))
    } else {
        None
    }
}

/// Whether the line `previous_line` is empty.
pub fn is_empty_line(previous_line: &Line) -> (r: bool)
    ensures
        r == (previous_line@ is Empty),
{
    match previous_line {
        Line::Empty => true,
        _ => false,
    }
}

/// Whether the line `previous_line` belongs to a character's block.
pub fn is_character_content(previous_line: &Line) -> (r: bool)
    ensures
        r == (previous_line@ is CharacterContent),
{
    match previous_line {
        Line::CharacterContent(_) => true,
        _ => false,
    }
}

/// The upper case form of `v`.
pub fn uppercase_chars(v: &Vec<char>) -> (r: Vec<char>)
    ensures
        r@ == uppercase_of(v@),
{
    let s: String = string_of(v);
    let u: String = to_uppercase(s.as_str());
    chars_of(u.as_str())
}

/// The transition that the trimmed line is, given its upper case form.
pub fn transition_from(line: &Vec<char>, upper: &Vec<char>, previous_line: &Line) -> (r: Option<
    Vec<char>,
>)
    ensures
        option_view(r) == transition_given(line@, upper@, previous_line@),
{
    if begins_with(line, '>') && !finishes_with(line, '<') {
        let rest: Vec<char> = subvec(line, 1, line.len());
        Some(trim(&rest))
    } else if is_empty_line(previous_line) && chars_eq(upper, line) && ends_with(line, "TO:") {
        Some(copy_chars(line))
    } else {
        None
    }
}

/// The transition that the trimmed line is.
pub fn parse_transitions(line: &Vec<char>, previous_line: &Line) -> (r: Option<Vec<char>>)
    ensures
        option_view(r) == transition(line@, previous_line@),
{
    let upper: Vec<char> = uppercase_chars(line);
    transition_from(line, &upper, previous_line)
}

/// The name on the trimmed line and whether it is marked as dual.
pub fn split_heading_name(line: &Vec<char>) -> (r: (Vec<char>, bool))
    ensures
        (r.0@, r.1) == heading_name(line@),
{
    if finishes_with(line, '^') {
        let rest: Vec<char> = subvec(line, 0, line.len() - 1);
        assert(rest@ == line@.drop_last());
        (trim(&rest), true)
    } else {
        (copy_chars(line), false)
    }
}

/// The character heading that a name is, given its upper case form.
pub fn character_heading_from(
    name: (Vec<char>, bool),
    upper: &Vec<char>,
    previous_line: &Line,
) -> (r: Option<(Vec<char>, bool)>)
    ensures
        marked_view(r) == character_heading_given((name.0@, name.1), upper@, previous_line@),
{
    if is_empty_line(previous_line) && chars_eq(upper, &name.0) {
        Some(name)
    } else {
        None
    }
}

/// The character heading that the trimmed line is.
pub fn parse_character_heading(line: &Vec<char>, previous_line: &Line) -> (r: Option<
    (Vec<char>, bool),
>)
    ensures
        marked_view(r) == character_heading(line@, previous_line@),
{
    let name: (Vec<char>, bool) = split_heading_name(line);
    let upper: Vec<char> = uppercase_chars(&name.0);
    character_heading_from(name, &upper, previous_line)
}

/// The lyrics on the trimmed line.
pub fn parse_lyrics(line: &Vec<char>) -> (r: Option<Vec<char>>)
    ensures
        option_view(r) == lyrics(line@),
{
    if begins_with(line, '~') {
        let rest: Vec<char> = subvec(line, 1, line.len());
        Some(trim(&rest))
    } else {
        None
    }
}

/// The dialogue on the trimmed line, and whether it is a parenthetical.
pub fn parse_dialog(line: &Vec<char>, previous_line: &Line) -> (r: Option<(Vec<char>, bool)>)
    ensures
        marked_view(r) == dialog(line@, previous_line@),
{
    if is_character_content(previous_line) {
        Some((copy_chars(line), begins_with(line, '(') && finishes_with(line, ')')))
    } else {
        None
    }
}

/// The line of a character's block with one entry.
fn make_character_line(text: Vec<char>, kind: CharacterLine, character: &Vec<char>) -> (r: Line)
    ensures
        r@ == character_line(text@, kind, character@),
{
    let spans: Vec<LineContent> = format_chars(text);
    let name: String = string_of(character);
    let mut entries: Vec<(Vec<LineContent>, CharacterLine, String)> = Vec::new();
    entries.push((spans, kind, name));
    let r = Line::CharacterContent(entries);
    assert(r@->CharacterContent_0 =~= seq![
        EntryView { spans: formatted(text@), kind, character: character@ },
    ]);
    r
}

/// The line that `line` is after `previous_line`, while
/// `current_character` is speaking, and the character who speaks from
/// this line on, where the line names one.
pub fn classify_chars(
    line: &Vec<char>,
    previous_line: &Line,
    current_character: &Vec<char>,
) -> (r: (Line, Option<Vec<char>>))
    ensures
        r.0@ == classify(line@, previous_line@, current_character@).0,
        option_view(r.1) == classify(line@, previous_line@, current_character@).1,
{
    let v: Vec<char> = trim(line);
    if v.len() == 0 {
        return (Line::Empty, None);
    }
    if parse_page_break(&v) {
        return (Line::PageBreak, None);
    }
    if let Some(centered) = parse_centered_text(&v) {
        return (Line::Action(format_chars(centered), TextAlignment::Center), None);
    }
    if let Some(heading) = parse_scene_heading(&v) {
        return (Line::SceneHeading(string_of(&heading)), None);
    }
    if let Some(transition) = parse_transitions(&v, previous_line) {
        return (Line::Transition(string_of(&transition)), None);
    }
    if let Some((character, is_dual)) = parse_character_heading(&v, previous_line) {
        let text: Vec<char> = copy_chars(&character);
        let line = make_character_line(text, CharacterLine::CharacterHeading(is_dual), &character);
        return (line, Some(character));
    }
    if let Some(lyrics) = parse_lyrics(&v) {
        return (make_character_line(lyrics, CharacterLine::Lyrics, current_character), None);
    }
    if let Some((dialogue, parenthetical)) = parse_dialog(&v, previous_line) {
        if parenthetical {
            return (
                make_character_line(dialogue, CharacterLine::Parenthetical, current_character),
                None,
            );
        } else {
            return (
                make_character_line(dialogue, CharacterLine::Dialogue, current_character),
                None,
            );
        }
    }
    (Line::Action(format_chars(v), TextAlignment::Left), None)
}

/// The line that the text `line` is after `previous_line`, while
/// `current_character` is speaking, and the character who speaks from
/// this line on, where the line names one.
pub fn parse_line(line: &str, previous_line: &Line, current_character: &str) -> (r: (
    Line,
    Option<String>,
))
    ensures
        r.0@ == classify(line@, previous_line@, current_character@).0,
        string_option_view(r.1) == classify(line@, previous_line@, current_character@).1,
{
    let (result, character) = classify_chars(
        &chars_of(line),
        previous_line,
        &chars_of(current_character),
    );
    match character {
        Some(name) => (result, Some(string_of(&name))),
        None => (result, None),
    }
}

} // verus!
