//! Inline formatting: a run of text is cut into spans of one style each.
//!
//! The markers are `_` for underline, `[[` and `]]` around a note, and one,
//! two or three `*` for italic, bold, or both. A run of stars is read
//! greedily: the first three stars of a run are one marker, and what is
//! left of the run is read in the same way. A backslash before `*`, `_`,
//! `[` or `]` makes that character plain text; the backslash stays in the
//! raw text and leaves the cleaned text.
//!
//! A marker that changes a style closes the span read so far. A marker
//! that turns its styles off belongs to the raw text of the span it
//! closes; any other marker belongs to the raw text of the span it opens.
//! A marker that changes nothing (`[[` inside a note, `]]` outside of one)
//! is markup all the same: it goes to the raw text only.

use crate::text::{chars_of, string_of};
use crate::types::{
    lemma_raw_text_push, lemma_spans_view_push, raw_text, spans_view, LineContent, SpanView,
};
use vstd::prelude::*;

verus! {

/// The styles in effect at one place of a text.
#[derive(Clone, Copy, PartialEq, Eq, Debug, Structural)]
pub struct Styles {
    pub bold: bool,
    pub italic: bool,
    pub underline: bool,
    pub note: bool,
}

/// What the character under the cursor is.
#[derive(Clone, Copy, PartialEq, Eq, Debug, Structural)]
pub enum Token {
    /// Plain text: it goes to the cleaned and to the raw text.
    Literal,
    /// A backslash that escapes the next character: raw text only.
    Escape,
    /// The first of `len` characters that form a marker, after which the
    /// styles are `after`. `closing` says that the marker belongs to the
    /// span before it.
    Marker { len: usize, after: Styles, closing: bool },
}

/// Whether `c` can be part of a marker.
pub open spec fn is_marker_char(c: char) -> bool {
    c == '*' || c == '_' || c == '[' || c == ']'
}

/// What `cur` is, given the styles in effect, the character before it and
/// the two characters after it.
pub open spec fn token_at(
    styles: Styles,
    previous: Option<char>,
    cur: char,
    next: Option<char>,
    next_but_one: Option<char>,
) -> Token {
    if is_marker_char(cur) && previous == Some('\\') {
        Token::Literal
    } else if cur == '\\' && next is Some && is_marker_char(next->0) {
        Token::Escape
    } else if cur == '_' {
        Token::Marker {
            len: 1,
            after: Styles { underline: !styles.underline, ..styles },
            closing: styles.underline,
        }
    } else if cur == '[' && next == Some('[') {
        Token::Marker { len: 2, after: Styles { note: true, ..styles }, closing: false }
    } else if cur == ']' && next == Some(']') {
        Token::Marker { len: 2, after: Styles { note: false, ..styles }, closing: true }
    } else if cur == '*' && next == Some('*') && next_but_one == Some('*') {
        Token::Marker {
            len: 3,
            after: Styles { bold: !styles.bold, italic: !styles.italic, ..styles },
            closing: styles.bold && styles.italic,
        }
    } else if cur == '*' && next == Some('*') {
        Token::Marker {
            len: 2,
            after: Styles { bold: !styles.bold, ..styles },
            closing: styles.bold,
        }
    } else if cur == '*' {
        Token::Marker {
            len: 1,
            after: Styles { italic: !styles.italic, ..styles },
            closing: styles.italic,
        }
    } else {
        Token::Literal
    }
}

/// The state of the scan: the spans that are closed, the span that is
/// open, the styles in effect and the number of characters still to pass
/// over because they belong to a marker already read.
pub struct Scan {
    pub done: Seq<SpanView>,
    pub cleaned: Seq<char>,
    pub raw: Seq<char>,
    pub styles: Styles,
    pub lockout: nat,
}

/// The span with the given texts and styles.
pub open spec fn span_of(cleaned: Seq<char>, raw: Seq<char>, styles: Styles) -> SpanView {
    SpanView {
        cleaned,
        raw,
        bold: styles.bold,
        italic: styles.italic,
        underline: styles.underline,
        note: styles.note,
    }
}

/// The state before the first character.
pub open spec fn initial_scan() -> Scan {
    Scan {
        done: Seq::empty(),
        cleaned: Seq::empty(),
        raw: Seq::empty(),
        styles: Styles { bold: false, italic: false, underline: false, note: false },
        lockout: 0,
    }
}

/// `len` times the character `c`.
pub open spec fn repeated(c: char, len: nat) -> Seq<char> {
    Seq::new(len, |i: int| c)
}

/// The character at index `i` of `s`, if there is one.
pub open spec fn item_at<T>(s: Seq<T>, i: int) -> Option<T> {
    if 0 <= i < s.len() {
        Some(s[i])
    } else {
        None
    }
}

/// The item at index `i` of `s` with its two neighbours on either side.
pub open spec fn window_at<T>(s: Seq<T>, i: int) -> (
    Option<T>,
    Option<T>,
    Option<T>,
    Option<T>,
    Option<T>,
) {
    (item_at(s, i - 2), item_at(s, i - 1), item_at(s, i), item_at(s, i + 1), item_at(s, i + 2))
}

/// The state after the window `w` was read in state `st`.
pub open spec fn scan_step(
    st: Scan,
    w: (Option<char>, Option<char>, Option<char>, Option<char>, Option<char>),
) -> Scan {
    match w.2 {
        None => st,
        Some(c) => if st.lockout > 0 {
            Scan { lockout: (st.lockout - 1) as nat, ..st }
        } else {
            match token_at(st.styles, w.1, c, w.3, w.4) {
                Token::Literal => Scan { cleaned: st.cleaned.push(c), raw: st.raw.push(c), ..st },
                Token::Escape => Scan { raw: st.raw.push(c), ..st },
                Token::Marker { len, after, closing } => {
                    let mark = repeated(c, len as nat);
                    if after == st.styles {
                        Scan { raw: st.raw + mark, lockout: (len - 1) as nat, ..st }
                    } else if closing {
                        Scan {
                            done: st.done.push(span_of(st.cleaned, st.raw + mark, st.styles)),
                            cleaned: Seq::empty(),
                            raw: Seq::empty(),
                            styles: after,
                            lockout: (len - 1) as nat,
                        }
                    } else {
                        Scan {
                            done: st.done.push(span_of(st.cleaned, st.raw, st.styles)),
                            cleaned: Seq::empty(),
                            raw: mark,
                            styles: after,
                            lockout: (len - 1) as nat,
                        }
                    }
                },
            }
        },
    }
}

/// The state after the first `n` characters of `s` were read.
pub open spec fn scanned(s: Seq<char>, n: nat) -> Scan
    decreases n,
{
    if n == 0 {
        initial_scan()
    } else {
        scan_step(scanned(s, (n - 1) as nat), window_at(s, n - 1))
    }
}

/// The spans at the end of the text: the open span is closed unless it
/// holds nothing, whatever styles are still in effect.
pub open spec fn scan_result(st: Scan) -> Seq<SpanView> {
    if st.raw.len() > 0 {
        st.done.push(span_of(st.cleaned, st.raw, st.styles))
    } else {
        st.done
    }
}

/// The spans of the text `s`.
pub open spec fn formatted(s: Seq<char>) -> Seq<SpanView> {
    scan_result(scanned(s, s.len()))
}

/// A marker is one to three characters long, and the characters after
/// its first are the same character again.
pub proof fn lemma_marker_shape(
    styles: Styles,
    previous: Option<char>,
    cur: char,
    next: Option<char>,
    next_but_one: Option<char>,
)
    ensures
        match token_at(styles, previous, cur, next, next_but_one) {
            Token::Marker { len, after, closing } => {
                &&& 1 <= len <= 3
                &&& len >= 2 ==> next == Some(cur)
                &&& len >= 3 ==> next_but_one == Some(cur)
            },
            _ => true,
        },
{
}

/// While a text is read, the raw texts of the spans closed so far and of
/// the open span make up the part of the text that was read, markers
/// included.
pub proof fn lemma_scanned_raw(s: Seq<char>, n: nat)
    requires
        n <= s.len(),
    ensures
        n + scanned(s, n).lockout <= s.len(),
        raw_text(scanned(s, n).done) + scanned(s, n).raw == s.subrange(
            0,
            (n + scanned(s, n).lockout) as int,
        ),
    decreases n,
{
    if n == 0 {
        assert(raw_text(Seq::<SpanView>::empty()) + Seq::<char>::empty() =~= s.subrange(0, 0));
    } else {
        let i = n - 1;
        let st = scanned(s, i as nat);
        let w = window_at(s, i);
        let c = s[i];
        lemma_scanned_raw(s, i as nat);
        assert(w.2 == Some(c));
        if st.lockout > 0 {
        } else {
            lemma_marker_shape(st.styles, w.1, c, w.3, w.4);
            let before = raw_text(st.done) + st.raw;
            match token_at(st.styles, w.1, c, w.3, w.4) {
                Token::Literal => {
                    assert(before == s.subrange(0, i));
                    assert(raw_text(st.done) + st.raw.push(c) =~= before.push(c));
                    assert(before.push(c) =~= s.subrange(0, n as int));
                },
                Token::Escape => {
                    assert(before == s.subrange(0, i));
                    assert(raw_text(st.done) + st.raw.push(c) =~= before.push(c));
                    assert(before.push(c) =~= s.subrange(0, n as int));
                },
                Token::Marker { len, after, closing } => {
                    let mark = repeated(c, len as nat);
                    assert(before + mark =~= s.subrange(0, i + len));
                    if after == st.styles {
                        assert(raw_text(st.done) + (st.raw + mark) =~= before + mark);
                    } else if closing {
                        let span = span_of(st.cleaned, st.raw + mark, st.styles);
                        lemma_raw_text_push(st.done, span);
                        assert(raw_text(st.done.push(span)) + Seq::<char>::empty() =~= before
                            + mark);
                    } else {
                        let span = span_of(st.cleaned, st.raw, st.styles);
                        lemma_raw_text_push(st.done, span);
                        assert(raw_text(st.done.push(span)) + mark =~= before + mark);
                    }
                },
            }
        }
    }
}

/// The raw texts of the spans of a text make up the text, character for
/// character.
pub proof fn lemma_formatted_raw_text(s: Seq<char>)
    ensures
        raw_text(formatted(s)) == s,
{
    let st = scanned(s, s.len());
    lemma_scanned_raw(s, s.len());
    assert(s.subrange(0, s.len() as int) == s);
    if st.raw.len() > 0 {
        lemma_raw_text_push(st.done, span_of(st.cleaned, st.raw, st.styles));
    } else {
        assert(raw_text(st.done) + st.raw =~= raw_text(st.done));
    }
}

/// What is read of a text when its styles are set aside: the text
/// without its markup, and the number of characters still to pass over.
pub struct Reading {
    pub text: Seq<char>,
    pub lockout: nat,
}

/// The reading after the window `w` was read.
pub open spec fn reading_step(
    r: Reading,
    w: (Option<char>, Option<char>, Option<char>, Option<char>, Option<char>),
) -> Reading {
    let plain = Styles { bold: false, italic: false, underline: false, note: false };
    match w.2 {
        None => r,
        Some(c) => if r.lockout > 0 {
            Reading { lockout: (r.lockout - 1) as nat, ..r }
        } else {
            match token_at(plain, w.1, c, w.3, w.4) {
                Token::Literal => Reading { text: r.text.push(c), ..r },
                Token::Escape => r,
                Token::Marker { len, after, closing } => Reading {
                    lockout: (len - 1) as nat,
                    ..r
                },
            }
        },
    }
}

/// The reading after the first `n` characters of `s`.
pub open spec fn read_to(s: Seq<char>, n: nat) -> Reading
    decreases n,
{
    if n == 0 {
        Reading { text: Seq::empty(), lockout: 0 }
    } else {
        reading_step(read_to(s, (n - 1) as nat), window_at(s, n - 1))
    }
}

/// The text `s` without its markup: without the characters of its
/// markers and without the backslashes that escape a marker character.
pub open spec fn without_markup(s: Seq<char>) -> Seq<char> {
    read_to(s, s.len()).text
}

/// Which characters of a text are markup does not depend on the styles
/// in effect.
pub proof fn lemma_token_kind(
    styles: Styles,
    other: Styles,
    previous: Option<char>,
    cur: char,
    next: Option<char>,
    next_but_one: Option<char>,
)
    ensures
        match token_at(styles, previous, cur, next, next_but_one) {
            Token::Literal => token_at(other, previous, cur, next, next_but_one) is Literal,
            Token::Escape => token_at(other, previous, cur, next, next_but_one) is Escape,
            Token::Marker { len, after, closing } => token_at(
                other,
                previous,
                cur,
                next,
                next_but_one,
            ) matches Token::Marker { len: l, after: a, closing: c } && l == len,
        },
{
}

/// While a text is read, the cleaned texts of the spans closed so far
/// and of the open span make up the part of the text that was read,
/// without its markup.
pub proof fn lemma_scanned_cleaned(s: Seq<char>, n: nat)
    requires
        n <= s.len(),
    ensures
        scanned(s, n).lockout == read_to(s, n).lockout,
        crate::types::cleaned_text(scanned(s, n).done) + scanned(s, n).cleaned == read_to(
            s,
            n,
        ).text,
    decreases n,
{
    if n == 0 {
        assert(crate::types::cleaned_text(Seq::<SpanView>::empty()) + Seq::<char>::empty()
            =~= Seq::<char>::empty());
    } else {
        let i = n - 1;
        let st = scanned(s, i as nat);
        let r = read_to(s, i as nat);
        let w = window_at(s, i);
        let c = s[i];
        lemma_scanned_cleaned(s, i as nat);
        assert(w.2 == Some(c));
        if st.lockout > 0 {
        } else {
            let plain = Styles { bold: false, italic: false, underline: false, note: false };
            lemma_token_kind(st.styles, plain, w.1, c, w.3, w.4);
            let before = crate::types::cleaned_text(st.done) + st.cleaned;
            match token_at(st.styles, w.1, c, w.3, w.4) {
                Token::Literal => {
                    assert(crate::types::cleaned_text(st.done) + st.cleaned.push(c)
                        =~= before.push(c));
                },
                Token::Escape => {},
                Token::Marker { len, after, closing } => {
                    let mark = repeated(c, len as nat);
                    if after == st.styles {
                    } else if closing {
                        let span = span_of(st.cleaned, st.raw + mark, st.styles);
                        crate::types::lemma_cleaned_text_push(st.done, span);
                        assert(crate::types::cleaned_text(st.done.push(span)) + Seq::<
                            char,
                        >::empty() =~= before);
                    } else {
                        let span = span_of(st.cleaned, st.raw, st.styles);
                        crate::types::lemma_cleaned_text_push(st.done, span);
                        assert(crate::types::cleaned_text(st.done.push(span)) + Seq::<
                            char,
                        >::empty() =~= before);
                    }
                },
            }
        }
    }
}

/// The cleaned texts of the spans of a text make up the text without
/// its markup.
pub proof fn lemma_formatted_cleaned_text(s: Seq<char>)
    ensures
        crate::types::cleaned_text(formatted(s)) == without_markup(s),
{
    let st = scanned(s, s.len());
    lemma_scanned_cleaned(s, s.len());
    lemma_scanned_raw(s, s.len());
    if st.raw.len() > 0 {
        crate::types::lemma_cleaned_text_push(st.done, span_of(st.cleaned, st.raw, st.styles));
    } else {
        lemma_open_span_is_empty(s, s.len());
        assert(crate::types::cleaned_text(st.done) + st.cleaned =~= crate::types::cleaned_text(
            st.done,
        ));
    }
}

/// The open span holds no cleaned text where it holds no raw text.
pub proof fn lemma_open_span_is_empty(s: Seq<char>, n: nat)
    requires
        n <= s.len(),
    ensures
        scanned(s, n).cleaned.len() <= scanned(s, n).raw.len(),
    decreases n,
{
    if n > 0 {
        lemma_open_span_is_empty(s, (n - 1) as nat);
    }
}

/// A cursor over a list that hands out each item together with the two
/// items before it and the two after it.
pub struct IterPreviousAndNextTwo<T> {
    items: Vec<T>,
    position: usize,
    beyond: u8,
}

impl<T: Copy> IterPreviousAndNextTwo<T> {
    /// The list that the cursor runs over.
    pub closed spec fn items(&self) -> Seq<T> {
        self.items@
    }

    /// The index that the cursor stands at. It runs up to two places
    /// beyond the end of the list.
    pub closed spec fn position(&self) -> nat {
        (self.position + self.beyond) as nat
    }

    /// Whether the cursor is in a state that `create` and `next` lead to.
    pub closed spec fn well_formed(&self) -> bool {
        &&& self.position <= self.items.len()
        &&& self.beyond <= 2
        &&& self.beyond > 0 ==> self.position == self.items.len()
    }

    /// A cursor at the first item of `items`.
    pub fn create(items: Vec<T>) -> (r: Self)
        ensures
            r.well_formed(),
            r.items() == items@,
            r.position() == 0,
    {
        IterPreviousAndNextTwo { items, position: 0, beyond: 0 }
    }

    fn item(&self, back: usize, forth: usize) -> (r: Option<T>)
        requires
            self.position <= self.items.len(),
            back <= 4,
            forth <= 4,
        ensures
            r == item_at(self.items@, self.position - back + forth),
    {
        if back > forth {
            if self.position >= back - forth {
                let i: usize = self.position - (back - forth);
                if i < self.items.len() {
                    Some(self.items[i])
                } else {
                    None
                }
            } else {
                None
            }
        } else {
            let d: usize = forth - back;
            if d < self.items.len() && self.position < self.items.len() - d {
                Some(self.items[self.position + d])
            } else {
                None
            }
        }
    }

    /// The window at the cursor, which then moves on by one item. There
    /// is a window as long as one of its five places holds an item: for a
    /// list that is not empty, up to two places beyond its end.
    pub fn next(&mut self) -> (r: Option<
        (Option<T>, Option<T>, Option<T>, Option<T>, Option<T>),
    >)
        requires
            old(self).well_formed(),
        ensures
            final(self).well_formed(),
            final(self).items() == old(self).items(),
            old(self).items().len() > 0 && old(self).position() < old(self).items().len() + 2
                ==> r == Some(window_at(old(self).items(), old(self).position() as int))
                && final(self).position() == old(self).position() + 1,
            !(old(self).items().len() > 0 && old(self).position() < old(self).items().len() + 2)
                ==> r is None && final(self).position() == old(self).position(),
    {
        if self.items.len() == 0 || self.beyond >= 2 {
            return None;
        }
        let b: usize = self.beyond as usize;
        let w = (
            self.item(2, b),
            self.item(1, b),
            self.item(0, b),
            self.item(0, b + 1),
            self.item(0, b + 2),
        );
        if self.position < self.items.len() {
            self.position += 1;
        } else {
            self.beyond += 1;
        }
        Some(w)
    }
}

/// Decides [`token_at`].
pub fn token(
    styles: Styles,
    previous: Option<char>,
    cur: char,
    next: Option<char>,
    next_but_one: Option<char>,
) -> (t: Token)
    ensures
        t == token_at(styles, previous, cur, next, next_but_one),
{
    let is_marker: bool = cur == '*' || cur == '_' || cur == '[' || cur == ']';
    let next_is_marker: bool = match next {
        Some(n) => n == '*' || n == '_' || n == '[' || n == ']',
        None => false,
    };
    if is_marker && previous == Some('\\') {
        Token::Literal
    } else if cur == '\\' && next_is_marker {
        Token::Escape
    } else if cur == '_' {
        Token::Marker {
            len: 1,
            after: Styles {
                bold: styles.bold,
                italic: styles.italic,
                underline: !styles.underline,
                note: styles.note,
            },
            closing: styles.underline,
        }
    } else if cur == '[' && next == Some('[') {
        Token::Marker {
            len: 2,
            after: Styles {
                bold: styles.bold,
                italic: styles.italic,
                underline: styles.underline,
                note: true,
            },
            closing: false,
        }
    } else if cur == ']' && next == Some(']') {
        Token::Marker {
            len: 2,
            after: Styles {
                bold: styles.bold,
                italic: styles.italic,
                underline: styles.underline,
                note: false,
            },
            closing: true,
        }
    } else if cur == '*' && next == Some('*') && next_but_one == Some('*') {
        Token::Marker {
            len: 3,
            after: Styles {
                bold: !styles.bold,
                italic: !styles.italic,
                underline: styles.underline,
                note: styles.note,
            },
            closing: styles.bold && styles.italic,
        }
    } else if cur == '*' && next == Some('*') {
        Token::Marker {
            len: 2,
            after: Styles {
                bold: !styles.bold,
                italic: styles.italic,
                underline: styles.underline,
                note: styles.note,
            },
            closing: styles.bold,
        }
    } else if cur == '*' {
        Token::Marker {
            len: 1,
            after: Styles {
                bold: styles.bold,
                italic: !styles.italic,
                underline: styles.underline,
                note: styles.note,
            },
            closing: styles.italic,
        }
    } else {
        Token::Literal
    }
}

/// The span with the given texts and styles.
fn make_span(cleaned: &Vec<char>, raw: &Vec<char>, styles: Styles) -> (r: LineContent)
    ensures
        r@ == span_of(cleaned@, raw@, styles),
{
    LineContent {
        content: string_of(cleaned),
        raw_content: string_of(raw),
        bold: styles.bold,
        italic: styles.italic,
        underline: styles.underline,
        note: styles.note,
    }
}

/// Appends `len` times the character `c` to `v`.
fn push_repeated(v: &mut Vec<char>, c: char, len: usize)
    ensures
        final(v)@ == old(v)@ + repeated(c, len as nat),
{
    let mut i: usize = 0;
    assert(v@ =~= old(v)@ + repeated(c, 0));
    while i < len
        invariant
            i <= len,
            v@ == old(v)@ + repeated(c, i as nat),
        decreases len - i,
    {
        v.push(c);
        i += 1;
        assert(v@ =~= old(v)@ + repeated(c, i as nat));
    }
}

/// The spans of the text `chars`.
pub fn format_chars(chars: Vec<char>) -> (r: Vec<LineContent>)
    ensures
        spans_view(r@) == formatted(chars@),
        raw_text(spans_view(r@)) == chars@,
        crate::types::cleaned_text(spans_view(r@)) == without_markup(chars@),
{
    proof {
        lemma_formatted_cleaned_text(chars@);
    }
    let ghost s = chars@;
    let mut windows = IterPreviousAndNextTwo::create(chars);
    let mut styles = Styles { bold: false, italic: false, underline: false, note: false };
    let mut cleaned: Vec<char> = Vec::new();
    let mut raw: Vec<char> = Vec::new();
    let mut result: Vec<LineContent> = Vec::new();
    let mut lockout: usize = 0;
    assert(spans_view(result@) =~= Seq::<SpanView>::empty());
    loop
        invariant
            windows.well_formed(),
            windows.items() == s,
            windows.position() <= s.len() + 2,
            lockout <= 2,
            (Scan {
                done: spans_view(result@),
                cleaned: cleaned@,
                raw: raw@,
                styles,
                lockout: lockout as nat,
            }) == scanned(
                s,
                if windows.position() <= s.len() {
                    windows.position()
                } else {
                    s.len()
                },
            ),
        ensures
            windows.position() >= s.len(),
        decreases s.len() + 2 - windows.position(),
    {
        let ghost at = windows.position();
        let ghost before = Scan {
            done: spans_view(result@),
            cleaned: cleaned@,
            raw: raw@,
            styles,
            lockout: lockout as nat,
        };
        match windows.next() {
            None => {
                break ;
            },
            Some(w) => {
                match w.2 {
                    None => {},
                    Some(c) => {
                        assert(at < s.len());
                        assert(scanned(s, at + 1) == scan_step(before, w));
                        if lockout > 0 {
                            lockout -= 1;
                        } else {
                            proof {
                                lemma_marker_shape(styles, w.1, c, w.3, w.4);
                            }
                            match token(styles, w.1, c, w.3, w.4) {
                                Token::Literal => {
                                    cleaned.push(c);
                                    raw.push(c);
                                },
                                Token::Escape => {
                                    raw.push(c);
                                },
                                Token::Marker { len, after, closing } => {
                                    if after == styles {
                                        push_repeated(&mut raw, c, len);
                                    } else if closing {
                                        push_repeated(&mut raw, c, len);
                                        let span: LineContent = make_span(&cleaned, &raw, styles);
                                        proof {
                                            lemma_spans_view_push(result@, span);
                                        }
                                        result.push(span);
                                        cleaned = Vec::new();
                                        raw = Vec::new();
                                    } else {
                                        let span: LineContent = make_span(&cleaned, &raw, styles);
                                        proof {
                                            lemma_spans_view_push(result@, span);
                                        }
                                        result.push(span);
                                        cleaned = Vec::new();
                                        raw = Vec::new();
                                        push_repeated(&mut raw, c, len);
                                        assert(raw@ =~= repeated(c, len as nat));
                                    }
                                    styles = after;
                                    lockout = len - 1;
                                },
                            }
                        }
                    },
                }
            },
        }
    }
    if raw.len() > 0 {
        let span: LineContent = make_span(&cleaned, &raw, styles);
        proof {
            lemma_spans_view_push(result@, span);
        }
        result.push(span);
    }
    proof {
        lemma_formatted_raw_text(s);
    }
    result
}

/// The spans of `text`: `text` cut at its markers into runs of one style
/// each. The raw texts of the spans make up `text` again, and their
/// cleaned texts make up `text` without its markup.
pub fn parse_content_formatting(text: &str) -> (r: Vec<LineContent>)
    ensures
        spans_view(r@) == formatted(text@),
        raw_text(spans_view(r@)) == text@,
        crate::types::cleaned_text(spans_view(r@)) == without_markup(text@),
{
    format_chars(chars_of(text))
}

} // verus!
