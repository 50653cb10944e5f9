//! What a view of the script needs to know: the modes in which a script
//! is shown, the layout of the title page, and the edits that a view can
//! ask for.

use crate::classifier::{begins_with, first_is};
use crate::exporter::{scene_heading_text, starts_with_scene_word};
use crate::parser::with_entry;
use crate::text::{ends_with, has_suffix};
use crate::script_update::{entry_of, updated_lines};
use crate::text::chars_of;
use crate::parser::is_text;
use crate::types::{
    clone_spans, field_view, spans_view, LineContent, Script, ScriptView, SpanView, Title,
    TitleView,
};
use vstd::prelude::*;

verus! {

/// How the script is shown.
#[derive(Clone, Copy, PartialEq, Eq, Debug, Structural)]
pub enum DisplayMode {
    /// As it reads, without notes and comments.
    Display,
    /// As it reads, with notes and comments.
    DisplayNotes,
    /// As it was written, markers included, open to edits.
    Editor,
}

impl DisplayMode {
    /// Whether the script is open to edits.
    pub open spec fn editing(self) -> bool {
        self == DisplayMode::Editor
    }

    /// Whether notes and comments are shown.
    pub open spec fn shows_notes(self) -> bool {
        self == DisplayMode::DisplayNotes || self == DisplayMode::Editor
    }

    /// Whether a span is shown: every span but a note where notes are
    /// not shown.
    pub open spec fn shows(self, span: SpanView) -> bool {
        !span.note || self.shows_notes()
    }

    /// The text of a span as this mode shows it: as it was written where
    /// the script is open to edits, else as it reads.
    pub open spec fn text_of(self, span: SpanView) -> Seq<char> {
        if self.editing() {
            span.raw
        } else {
            span.cleaned
        }
    }

    /// The mode that a switch leads to: out of the editor into the plain
    /// display, and from any other mode into the editor.
    pub open spec fn switched(self) -> DisplayMode {
        if self == DisplayMode::Editor {
            DisplayMode::Display
        } else {
            DisplayMode::Editor
        }
    }

    /// Decides [`DisplayMode::editing`].
    pub fn is_editor(&self) -> (r: bool)
        ensures
            r == self.editing(),
    {
        *self == DisplayMode::Editor
    }

    /// Decides [`DisplayMode::shows_notes`].
    pub fn display_notes(&self) -> (r: bool)
        ensures
            r == self.shows_notes(),
    {
        *self == DisplayMode::DisplayNotes || *self == DisplayMode::Editor
    }

    /// Decides [`DisplayMode::shows`].
    pub fn shows_span(&self, span: &LineContent) -> (r: bool)
        ensures
            r == self.shows(span@),
    {
        !span.note || self.display_notes()
    }

    /// The text of a span as this mode shows it.
    pub fn span_text(&self, span: &LineContent) -> (r: String)
        ensures
            r@ == self.text_of(span@),
    {
        if self.is_editor() {
            span.raw_content.clone()
        } else {
            span.content.clone()
        }
    }

    /// The mode that a switch leads to.
    pub fn toggle(&self) -> (r: DisplayMode)
        ensures
            r == self.switched(),
    {
        if *self == DisplayMode::Editor {
            DisplayMode::Display
        } else {
            DisplayMode::Editor
        }
    }
}

/// How an element of the title page is set.
#[derive(Clone, Copy, PartialEq, Eq, Debug, Structural)]
pub enum TitleAlignment {
    Center,
    Left,
}

/// How the element under `tag` is set: the draft date and the contact to
/// the left, every other element in the middle.
pub open spec fn alignment_of(tag: Seq<char>) -> TitleAlignment {
    if tag == "Draft date"@ || tag == "Contact"@ {
        TitleAlignment::Left
    } else {
        TitleAlignment::Center
    }
}

/// Decides [`alignment_of`].
pub fn title_alignment(tag: &str) -> (r: TitleAlignment)
    ensures
        r == alignment_of(tag@),
{
    let t: Vec<char> = chars_of(tag);
    if is_text(&t, "Draft date") || is_text(&t, "Contact") {
        TitleAlignment::Left
    } else {
        TitleAlignment::Center
    }
}

/// The spans of a field, or no spans where the field is not set.
pub open spec fn spans_or_none(field: Option<Seq<SpanView>>) -> Seq<SpanView> {
    match field {
        Some(spans) => spans,
        None => Seq::empty(),
    }
}

/// The elements of the title page as they are laid out: the six fields
/// in their fixed order, each with its tag and its spans, set or not.
pub open spec fn title_elements_of(t: TitleView) -> Seq<(Seq<char>, Seq<SpanView>)> {
    seq![
        ("Title"@, spans_or_none(t.title)),
        ("Credit"@, spans_or_none(t.credit)),
        ("Author"@, spans_or_none(t.author)),
        ("Source"@, spans_or_none(t.source)),
        ("Draft date"@, spans_or_none(t.draft)),
        ("Contact"@, spans_or_none(t.contact)),
    ]
}

/// The values of a list of elements.
pub open spec fn elements_view(v: Seq<(String, Vec<LineContent>)>) -> Seq<
    (Seq<char>, Seq<SpanView>),
> {
    v.map_values(|e: (String, Vec<LineContent>)| (e.0@, spans_view(e.1@)))
}

fn element(tag: &str, field: &Option<Vec<LineContent>>) -> (r: (String, Vec<LineContent>))
    ensures
        r.0@ == tag@,
        spans_view(r.1@) == spans_or_none(field_view(*field)),
{
    let spans: Vec<LineContent> = match field {
        Some(spans) => clone_spans(spans),
        None => Vec::new(),
    };
    assert(field is None ==> spans_view(spans@) =~= Seq::<SpanView>::empty());
    (tag.to_owned(), spans)
}

/// The elements of the title page as they are laid out.
pub fn title_elements(title: &Title) -> (r: Vec<(String, Vec<LineContent>)>)
    ensures
        elements_view(r@) == title_elements_of(title@),
{
    let mut r: Vec<(String, Vec<LineContent>)> = Vec::new();
    r.push(element("Title", &title.title));
    r.push(element("Credit", &title.credit));
    r.push(element("Author", &title.author));
    r.push(element("Source", &title.source));
    r.push(element("Draft date", &title.draft));
    r.push(element("Contact", &title.contact));
    assert(elements_view(r@) =~= title_elements_of(title@));
    r
}

/// Whether a scene heading is written with a `.` that is no part of it.
pub open spec fn writes_dot(heading: Seq<char>) -> bool {
    scene_heading_text(heading) != heading
}

/// Whether a transition is written with a `>` that is no part of it.
pub open spec fn writes_arrow(transition: Seq<char>) -> bool {
    !first_is(transition, '>') && !has_suffix(transition, "TO:"@)
}

/// Decides [`writes_dot`].
pub fn scene_heading_has_dot(heading: &str) -> (r: bool)
    ensures
        r == writes_dot(heading@),
{
    let h: Vec<char> = chars_of(heading);
    let r = !(begins_with(&h, '.') || starts_with_scene_word(&h));
    assert((seq!['.'] + h@).len() != h@.len());
    r
}

/// Decides [`writes_arrow`].
pub fn transition_has_arrow(transition: &str) -> (r: bool)
    ensures
        r == writes_arrow(transition@),
{
    let t: Vec<char> = chars_of(transition);
    !begins_with(&t, '>') && !ends_with(&t, "TO:")
}

/// An edit that a view asks for.
#[derive(Clone, PartialEq, Eq, Debug)]
pub enum FountainEditMsg {
    /// Nothing is to change.
    Unchanged,
    /// The element of the title page under the tag is to hold the text.
    ChangedTitleElement(String, String),
    /// The line at the index is to be replaced by the text.
    ChangedLineElement(usize, String),
}

/// The script after the edit `msg`, or `None` where the edit changes
/// nothing: it asks for nothing, or for a line that is not there.
pub fn apply_edit(script: &Script, msg: &FountainEditMsg) -> (r: Option<Script>)
    ensures
        match *msg {
            FountainEditMsg::Unchanged => r is None,
            FountainEditMsg::ChangedTitleElement(tag, text) => r is Some && r->0@ == (ScriptView {
                title: with_entry(script@.title, tag@, entry_of(text@)),
                lines: script@.lines,
            }),
            FountainEditMsg::ChangedLineElement(line_id, text) => if line_id < script.lines.len() {
                r is Some && r->0@ == (ScriptView {
                    title: script@.title,
                    lines: updated_lines(script@.lines, line_id as int, text@),
                })
            } else {
                r is None
            },
        },
{
    match msg {
        FountainEditMsg::Unchanged => None,
        FountainEditMsg::ChangedTitleElement(tag, text) => Some(
            script.update_title_element(tag.as_str(), text.clone()),
        ),
        FountainEditMsg::ChangedLineElement(line_id, text) => {
            if *line_id < script.lines.len() {
                Some(script.update_line(*line_id, text.as_str()))
            } else {
                None
            }
        },
    }
}

} // verus!
