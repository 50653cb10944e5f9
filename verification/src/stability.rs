//! Writing and reading again: which lines come back from their written
//! form as they were, and which scripts therefore are written the same a
//! second time.

use crate::classifier::{
    centered_text, character_heading, classify, dialog, first_is, has_scene_word, heading_name,
    is_page_break, last_is, lyrics, scene_heading, transition,
};
use crate::exporter::{entry_text, entry_texts, line_text};
use crate::formatting::lemma_formatted_raw_text;
use crate::text::{
    ascii_upper, count_of, has_no_char, has_no_pair, has_prefix, has_prefix_ignore_case,
    has_suffix, is_blank, is_space, lemma_count_of_absent, lemma_count_of_concat,
    lemma_count_of_trimmed, lemma_trimmed_fixed, lemma_trimmed_idempotent, lemma_trimmed_shape,
    lemma_trimmed_subrange, pair_at, trimmed, trimmed_offset, without_carriage_return,
};
use crate::exporter::exported;
use crate::laws::{
    are_lines, has_no_comment, lemma_classified_from, lemma_first_blank_sign,
    lemma_items_without_comment, lemma_written_is_read_back, reads_alike, reads_as_written,
    source_lines, written_lines,
};
use crate::parser::{classified_from, has_title, line_items, parsed, source_items, start};
use crate::text::{lemma_index_of_pair_none, lemma_lines_of_pieces, lines_of};
use crate::types::{raw_text, CharacterLine, LineView};
use vstd::prelude::*;

verus! {

/// What the patterns of the classifier hold.
pub proof fn lemma_patterns()
    ensures
        "==="@ == seq!['=', '=', '='],
        "INT"@ == seq!['I', 'N', 'T'],
        "EXT"@ == seq!['E', 'X', 'T'],
        "EST"@ == seq!['E', 'S', 'T'],
        "I/E"@ == seq!['I', '/', 'E'],
        "TO:"@ == seq!['T', 'O', ':'],
{
    reveal_strlit("===");
    reveal_strlit("INT");
    reveal_strlit("EXT");
    reveal_strlit("EST");
    reveal_strlit("I/E");
    reveal_strlit("TO:");
    assert("==="@ =~= seq!['=', '=', '=']);
    assert("INT"@ =~= seq!['I', 'N', 'T']);
    assert("EXT"@ =~= seq!['E', 'X', 'T']);
    assert("EST"@ =~= seq!['E', 'S', 'T']);
    assert("I/E"@ =~= seq!['I', '/', 'E']);
    assert("TO:"@ =~= seq!['T', 'O', ':']);
}

/// A text that begins with a scene word begins with the letter `I` or
/// `E`, in either case.
pub proof fn lemma_scene_word_first(v: Seq<char>)
    requires
        has_scene_word(v),
    ensures
        v.len() >= 3,
        v[0] == 'I' || v[0] == 'i' || v[0] == 'E' || v[0] == 'e',
{
    lemma_patterns();
    let c = v[0];
    assert(ascii_upper(c) == ascii_upper('I') || ascii_upper(c) == ascii_upper('E')) by {
        if has_prefix_ignore_case(v, "INT"@) {
            assert(ascii_upper(v[0]) == ascii_upper("INT"@[0]));
        } else if has_prefix_ignore_case(v, "EXT"@) {
            assert(ascii_upper(v[0]) == ascii_upper("EXT"@[0]));
        } else if has_prefix_ignore_case(v, "EST"@) {
            assert(ascii_upper(v[0]) == ascii_upper("EST"@[0]));
        } else {
            assert(ascii_upper(v[0]) == ascii_upper("I/E"@[0]));
        }
    }
    lemma_ascii_upper_letter(c, 'I');
    lemma_ascii_upper_letter(c, 'E');
}

/// The characters whose upper case form is a given upper case letter are
/// that letter and its lower case form.
pub proof fn lemma_ascii_upper_letter(c: char, upper: char)
    requires
        'A' <= upper <= 'Z',
    ensures
        ascii_upper(c) == upper ==> c == upper || c as u32 == upper as u32 + 32,
{
    if 'a' <= c <= 'z' {
        let n = (c as u8 - 32) as u8;
        assert(n as char as u32 == n as u32);
    }
}

/// A pair that occurs neither in a text nor in part in what stands
/// around it does not occur in the whole.
pub proof fn lemma_no_pair_wrapped(
    pre: Seq<char>,
    x: Seq<char>,
    post: Seq<char>,
    a: char,
    b: char,
)
    requires
        has_no_pair(x, a, b),
        has_no_char(pre, a),
        has_no_char(pre, b),
        has_no_char(post, a),
        has_no_char(post, b),
    ensures
        has_no_pair(pre + x + post, a, b),
{
    let e = pre + x + post;
    assert forall|j: int| !#[trigger] pair_at(e, j, a, b) by {
        if 0 <= j && j + 1 < e.len() {
            if j < pre.len() {
                assert(e[j] == pre[j]);
            } else if j + 1 >= pre.len() + x.len() {
                assert(e[j + 1] == post[j + 1 - pre.len() - x.len()]);
            } else {
                assert(!pair_at(x, j - pre.len(), a, b));
                assert(e[j] == x[j - pre.len()]);
                assert(e[j + 1] == x[j + 1 - pre.len()]);
            }
        }
    }
}

/// A character that occurs neither in a text nor in what stands around
/// it does not occur in the whole, and is counted in the whole as often
/// as in the text.
pub proof fn lemma_count_wrapped(pre: Seq<char>, x: Seq<char>, post: Seq<char>, c: char)
    requires
        has_no_char(pre, c),
        has_no_char(post, c),
    ensures
        count_of(pre + x + post, c) == count_of(x, c),
        has_no_char(x, c) ==> has_no_char(pre + x + post, c),
{
    lemma_count_of_concat(pre + x, post, c);
    lemma_count_of_concat(pre, x, c);
    lemma_count_of_absent(pre, c);
    lemma_count_of_absent(post, c);
    let e = pre + x + post;
    if has_no_char(x, c) {
        assert forall|j: int| 0 <= j < e.len() implies e[j] != c by {
            if j < pre.len() {
                assert(e[j] == pre[j]);
            } else if j < pre.len() + x.len() {
                assert(e[j] == x[j - pre.len()]);
            } else {
                assert(e[j] == post[j - pre.len() - x.len()]);
            }
        }
    }
}

/// A piece of a text is free of the characters and pairs that the text
/// is free of.
pub proof fn lemma_piece_is_free(s: Seq<char>, lo: int, hi: int)
    requires
        0 <= lo <= hi <= s.len(),
    ensures
        has_no_char(s, '\n') ==> has_no_char(s.subrange(lo, hi), '\n'),
        has_no_pair(s, '/', '*') ==> has_no_pair(s.subrange(lo, hi), '/', '*'),
        has_no_pair(s, '*', '/') ==> has_no_pair(s.subrange(lo, hi), '*', '/'),
{
    let t = s.subrange(lo, hi);
    if has_no_char(s, '\n') {
        assert forall|j: int| 0 <= j < t.len() implies t[j] != '\n' by {
            assert(t[j] == s[lo + j]);
        }
    }
    if has_no_pair(s, '/', '*') {
        crate::text::lemma_no_pair_subrange(s, lo, hi, '/', '*');
    }
    if has_no_pair(s, '*', '/') {
        crate::text::lemma_no_pair_subrange(s, lo, hi, '*', '/');
    }
}

/// The trimmed form of a text is free of the characters and pairs that
/// the text is free of.
pub proof fn lemma_trimmed_is_free(s: Seq<char>)
    ensures
        has_no_char(s, '\n') ==> has_no_char(trimmed(s), '\n'),
        has_no_pair(s, '/', '*') ==> has_no_pair(trimmed(s), '/', '*'),
        has_no_pair(s, '*', '/') ==> has_no_pair(trimmed(s), '*', '/'),
{
    lemma_trimmed_subrange(s);
    lemma_piece_is_free(s, trimmed_offset(s), trimmed_offset(s) + trimmed(s).len());
}

/// A trimmed text between two spaces, trimmed, is the text.
pub proof fn lemma_trimmed_padded(x: Seq<char>)
    requires
        trimmed(x) == x,
    ensures
        trimmed(seq![' '] + x + seq![' ']) == x,
        trimmed(x + seq![' ']) == x,
{
    lemma_trimmed_shape(x);
    let p = seq![' '] + x + seq![' '];
    let q = x + seq![' '];
    assert(is_space(' '));
    assert(p.drop_first() =~= q);
    assert(q.drop_last() =~= x);
    assert(p[0] == ' ');
    assert(q.last() == ' ');
    if x.len() > 0 {
        assert(q[0] == x[0]);
        assert(crate::text::trimmed_start(q) == q);
        assert(crate::text::trimmed_end(x) == x);
    } else {
        assert(q =~= seq![' ']);
        assert(q.drop_first() =~= Seq::<char>::empty());
        assert(crate::text::trimmed_start(Seq::<char>::empty()) =~= Seq::<char>::empty());
        assert(q[0] == ' ');
        assert(crate::text::trimmed_start(q) =~= Seq::<char>::empty());
        assert(crate::text::trimmed_start(p) =~= Seq::<char>::empty());
    }
}

/// A trimmed text that is cut off a text at its end, where the text does
/// not end with white space, ends where the text ends.
pub proof fn lemma_trimmed_keeps_end(s: Seq<char>)
    requires
        s.len() > 0,
        !is_space(s.last()),
    ensures
        trimmed(s).len() > 0,
        trimmed(s).last() == s.last(),
        trimmed_offset(s) + trimmed(s).len() == s.len(),
{
    lemma_trimmed_subrange(s);
    let k = trimmed_offset(s);
    let m = trimmed(s).len();
    if k + m < s.len() {
        assert(is_space(s[s.len() - 1]));
    }
    if k == s.len() {
        assert(is_space(s[s.len() - 1]));
    }
}

/// A trimmed text that is cut off a text at its beginning, where the
/// text does not begin with white space, begins where the text begins.
pub proof fn lemma_trimmed_keeps_start(s: Seq<char>)
    requires
        s.len() > 0,
        !is_space(s[0]),
    ensures
        trimmed(s).len() > 0,
        trimmed(s)[0] == s[0],
        trimmed_offset(s) == 0,
{
    lemma_trimmed_subrange(s);
    if trimmed_offset(s) > 0 {
        assert(is_space(s[0]));
    }
    crate::text::lemma_trimmed_start(s);
    crate::text::lemma_trimmed_end(crate::text::trimmed_start(s));
    assert(crate::text::trimmed_start(s) == s);
}

/// Whether the written form `w` of a line can stand in the place of the
/// line `line` in a text: it is free of line feeds and comment delimiters
/// where the line is, does not end with a carriage return, is empty
/// exactly where the line is blank, and does not hold exactly one colon
/// unless the line does.
pub open spec fn keeps_form(line: Seq<char>, w: Seq<char>) -> bool {
    &&& has_no_char(line, '\n') ==> has_no_char(w, '\n')
    &&& has_no_pair(line, '/', '*') ==> has_no_pair(w, '/', '*')
    &&& has_no_pair(line, '*', '/') ==> has_no_pair(w, '*', '/')
    &&& without_carriage_return(w) == w
    &&& (w.len() == 0 <==> is_blank(line))
    &&& count_of(w, ':') == 1 ==> count_of(line, ':') == 1
}

/// Whether the line `line`, written out and read again in the same
/// state, is the same line again, and its written form can stand in its
/// place.
pub open spec fn comes_back(line: Seq<char>, previous: LineView, character: Seq<char>) -> bool {
    let w = line_text(classify(line, previous, character).0);
    classify(w, previous, character) == classify(line, previous, character) && keeps_form(line, w)
}

/// A trimmed line keeps its own form.
proof fn lemma_keeps_own_form(v: Seq<char>)
    requires
        trimmed(v) == v,
    ensures
        keeps_form(v, v),
{
    lemma_trimmed_shape(v);
    assert(is_space('\r'));
}

/// A line that is written as it stands comes back.
proof fn lemma_back_same(v: Seq<char>, previous: LineView, character: Seq<char>)
    requires
        trimmed(v) == v,
        line_text(classify(v, previous, character).0) == v,
    ensures
        comes_back(v, previous, character),
{
    lemma_keeps_own_form(v);
}

/// A page break comes back.
proof fn lemma_back_page_break(v: Seq<char>, previous: LineView, character: Seq<char>)
    requires
        trimmed(v) == v,
        v.len() > 0,
        is_page_break(v),
    ensures
        comes_back(v, previous, character),
{
    lemma_patterns();
    let w = seq!['=', '=', '='];
    assert(line_text(classify(v, previous, character).0) == w);
    lemma_trimmed_fixed(w);
    assert(w.subrange(0, 3) =~= w);
    assert(is_page_break(w));
    assert(classify(w, previous, character) == classify(v, previous, character));
    assert(has_no_char(w, ':'));
    lemma_count_of_absent(w, ':');
    assert forall|j: int| !#[trigger] pair_at(w, j, '/', '*') by {}
    assert forall|j: int| !#[trigger] pair_at(w, j, '*', '/') by {}
}

/// A text that begins with a character that is no `=` is no page break.
proof fn lemma_no_page_break(w: Seq<char>)
    requires
        w.len() > 0,
        w[0] != '=',
    ensures
        !is_page_break(w),
{
    lemma_patterns();
    if has_prefix(w, "==="@) {
        assert(w.subrange(0, 3)[0] == '=');
    }
}

/// A text that begins with a character that is no letter `I` or `E` is
/// no scene heading by its first word.
proof fn lemma_no_scene_word(w: Seq<char>)
    requires
        w.len() > 0,
        w[0] != 'I',
        w[0] != 'i',
        w[0] != 'E',
        w[0] != 'e',
    ensures
        !has_scene_word(w),
{
    if has_scene_word(w) {
        lemma_scene_word_first(w);
    }
}

/// The form of a text with marks around a trimmed piece of a line.
proof fn lemma_wrapped_form(
    v: Seq<char>,
    lo: int,
    hi: int,
    pre: Seq<char>,
    post: Seq<char>,
)
    requires
        trimmed(v) == v,
        v.len() > 0,
        0 <= lo <= hi <= v.len(),
        has_no_char(pre, '\n'),
        has_no_char(pre, '/'),
        has_no_char(pre, '*'),
        has_no_char(pre, ':'),
        has_no_char(post, '\n'),
        has_no_char(post, '/'),
        has_no_char(post, '*'),
        has_no_char(post, ':'),
        pre.len() + post.len() > 0,
        post.len() > 0 ==> !is_space(post.last()),
        forall|j: int| 0 <= j < lo ==> v[j] != ':',
        forall|j: int| hi <= j < v.len() ==> v[j] != ':',
    ensures
        ({
            let x = trimmed(v.subrange(lo, hi));
            let w = pre + x + post;
            &&& has_no_char(v, '\n') ==> has_no_char(w, '\n')
            &&& has_no_pair(v, '/', '*') ==> has_no_pair(w, '/', '*')
            &&& has_no_pair(v, '*', '/') ==> has_no_pair(w, '*', '/')
            &&& w.len() > 0
            &&& !is_blank(v)
            &&& count_of(w, ':') == count_of(v, ':')
            &&& post.len() > 0 ==> without_carriage_return(w) == w
            &&& post.len() == 0 && x.len() > 0 ==> without_carriage_return(w) == w
        }),
{
    let mid = v.subrange(lo, hi);
    let x = trimmed(mid);
    let w = pre + x + post;
    lemma_piece_is_free(v, lo, hi);
    lemma_trimmed_is_free(mid);
    lemma_count_wrapped(pre, x, post, '\n');
    if has_no_pair(v, '/', '*') {
        lemma_no_pair_wrapped(pre, x, post, '/', '*');
    }
    if has_no_pair(v, '*', '/') {
        lemma_no_pair_wrapped(pre, x, post, '*', '/');
    }
    lemma_count_wrapped(pre, x, post, ':');
    lemma_count_of_trimmed(mid, ':');
    let head = v.subrange(0, lo);
    let tail = v.subrange(hi, v.len() as int);
    assert(v =~= head + mid + tail);
    lemma_count_wrapped(head, mid, tail, ':');
    assert(is_space('\r'));
    lemma_trimmed_shape(mid);
    if post.len() > 0 {
        assert(w.last() == post.last());
    } else if x.len() > 0 {
        assert(w.last() == x.last());
    }
}

/// A centered line comes back.
proof fn lemma_back_centered(v: Seq<char>, previous: LineView, character: Seq<char>)
    requires
        trimmed(v) == v,
        v.len() > 0,
        !is_page_break(v),
        centered_text(v) is Some,
    ensures
        comes_back(v, previous, character),
{
    let mid = v.subrange(1, v.len() - 1);
    let inner = trimmed(mid);
    let pre = seq!['>', ' '];
    let post = seq![' ', '<'];
    let w = pre + inner + post;
    lemma_formatted_raw_text(inner);
    assert(line_text(classify(v, previous, character).0) =~= w);
    lemma_trimmed_fixed(w);
    lemma_no_page_break(w);
    lemma_trimmed_idempotent(mid);
    lemma_trimmed_padded(inner);
    assert(w.subrange(1, w.len() - 1) =~= seq![' '] + inner + seq![' ']);
    assert(centered_text(w) == Some(inner));
    assert(classify(w, previous, character) == classify(v, previous, character));
    lemma_wrapped_form(v, 1, v.len() - 1, pre, post);
}

/// A scene heading after a `.` that begins with a scene word comes back.
proof fn lemma_back_dotted_scene_word(v: Seq<char>, previous: LineView, character: Seq<char>)
    requires
        trimmed(v) == v,
        v.len() > 0,
        !is_page_break(v),
        centered_text(v) is None,
        first_is(v, '.'),
        has_scene_word(v.subrange(1, v.len() as int)),
    ensures
        comes_back(v, previous, character),
{
    let h = v.subrange(1, v.len() as int);
    lemma_scene_word_first(h);
    lemma_trimmed_shape(v);
    assert(h.last() == v.last());
    assert(line_text(classify(v, previous, character).0) == h);
    lemma_trimmed_fixed(h);
    lemma_no_page_break(h);
    assert(centered_text(h) is None);
    assert(scene_heading(h) == Some(h));
    assert(classify(h, previous, character) == classify(v, previous, character));
    lemma_piece_is_free(v, 1, v.len() as int);
    assert(is_space('\r'));
    assert(v =~= seq!['.'] + h + Seq::<char>::empty());
    lemma_count_wrapped(seq!['.'], h, Seq::empty(), ':');
}

/// A transition after a `>` comes back, where its text neither begins
/// with `>` nor ends with `TO:`.
proof fn lemma_back_arrow(v: Seq<char>, previous: LineView, character: Seq<char>)
    requires
        trimmed(v) == v,
        v.len() > 0,
        !is_page_break(v),
        centered_text(v) is None,
        scene_heading(v) is None,
        first_is(v, '>'),
        !last_is(v, '<'),
        !first_is(trimmed(v.subrange(1, v.len() as int)), '>'),
        !has_suffix(trimmed(v.subrange(1, v.len() as int)), "TO:"@),
    ensures
        comes_back(v, previous, character),
{
    let rest = v.subrange(1, v.len() as int);
    let t = trimmed(rest);
    let pre = seq!['>'];
    let w = pre + t;
    assert(w =~= pre + t + Seq::<char>::empty());
    assert(line_text(classify(v, previous, character).0) =~= w);
    lemma_trimmed_shape(v);
    lemma_trimmed_shape(rest);
    lemma_trimmed_idempotent(rest);
    if rest.len() > 0 {
        assert(rest.last() == v.last());
        lemma_trimmed_keeps_end(rest);
        assert(w.last() == t.last());
    } else {
        assert(t.len() == 0);
        assert(w =~= pre);
    }
    assert(!last_is(w, '<'));
    lemma_trimmed_fixed(w);
    lemma_no_page_break(w);
    lemma_no_scene_word(w);
    assert(w.subrange(1, w.len() as int) =~= t);
    assert(transition(w, previous) == Some(t));
    assert(classify(w, previous, character) == classify(v, previous, character));
    lemma_wrapped_form(v, 1, v.len() as int, pre, Seq::empty());
    assert(is_space('\r'));
}

/// Lyrics come back after a line that is not empty, where their text
/// does not begin with `~`.
proof fn lemma_back_lyrics(v: Seq<char>, previous: LineView, character: Seq<char>)
    requires
        trimmed(v) == v,
        v.len() > 0,
        !is_page_break(v),
        centered_text(v) is None,
        scene_heading(v) is None,
        transition(v, previous) is None,
        character_heading(v, previous) is None,
        first_is(v, '~'),
        !(previous is Empty),
        !first_is(trimmed(v.subrange(1, v.len() as int)), '~'),
    ensures
        comes_back(v, previous, character),
{
    let rest = v.subrange(1, v.len() as int);
    let t = trimmed(rest);
    let pre = seq!['~'];
    let w = pre + t;
    assert(w =~= pre + t + Seq::<char>::empty());
    lemma_formatted_raw_text(t);
    let l = classify(v, previous, character).0;
    assert(entry_texts(l->CharacterContent_0) =~= seq![entry_text(l->CharacterContent_0[0])]);
    assert(line_text(l) =~= w);
    lemma_trimmed_shape(rest);
    lemma_trimmed_idempotent(rest);
    if t.len() > 0 {
        assert(w.last() == t.last());
    } else {
        assert(w =~= pre);
    }
    lemma_trimmed_fixed(w);
    lemma_no_page_break(w);
    lemma_no_scene_word(w);
    assert(centered_text(w) is None);
    assert(scene_heading(w) is None);
    assert(transition(w, previous) is None);
    assert(character_heading(w, previous) is None);
    assert(w.subrange(1, w.len() as int) =~= t);
    assert(lyrics(w) == Some(t));
    assert(classify(w, previous, character) == classify(v, previous, character));
    lemma_wrapped_form(v, 1, v.len() as int, pre, Seq::empty());
    assert(is_space('\r'));
}

/// A character heading with the dual mark comes back.
proof fn lemma_back_dual(v: Seq<char>, previous: LineView, character: Seq<char>)
    requires
        trimmed(v) == v,
        v.len() > 0,
        !is_page_break(v),
        centered_text(v) is None,
        scene_heading(v) is None,
        transition(v, previous) is None,
        character_heading(v, previous) is Some,
        last_is(v, '^'),
    ensures
        comes_back(v, previous, character),
{
    lemma_patterns();
    let x = v.drop_last();
    let name = trimmed(x);
    let post = seq![' ', '^'];
    let w = name + post;
    assert(w =~= Seq::<char>::empty() + name + post);
    let l = classify(v, previous, character).0;
    assert(entry_texts(l->CharacterContent_0) =~= seq![entry_text(l->CharacterContent_0[0])]);
    assert(line_text(l) =~= w);
    lemma_trimmed_shape(v);
    lemma_trimmed_idempotent(x);
    if name.len() == 0 {
        if x.len() > 0 {
            assert(x[0] == v[0]);
            lemma_trimmed_keeps_start(x);
        }
        assert(v =~= seq!['^']);
        assert(w =~= seq![' ', '^']);
        assert(w.drop_first() =~= v);
        assert(is_space(' '));
        assert(crate::text::trimmed_start(w) == v);
        assert(trimmed(w) == v);
        crate::laws::lemma_classify_trimmed(w, previous, character);
        assert(has_no_char(w, ':'));
        lemma_count_of_absent(w, ':');
        assert forall|j: int| !#[trigger] pair_at(w, j, '/', '*') by {}
        assert forall|j: int| !#[trigger] pair_at(w, j, '*', '/') by {}
        assert(is_space('\r'));
    } else {
        assert(x[0] == v[0]);
        lemma_trimmed_keeps_start(x);
        lemma_trimmed_subrange(x);
        assert forall|j: int| 0 <= j < name.len() implies #[trigger] w[j] == v[j] by {
            assert(name[j] == x[j]);
        }
        assert(w[name.len() as int] == ' ');
        assert(w.last() == '^');
        lemma_trimmed_fixed(w);
        assert(!is_page_break(w)) by {
            if has_prefix(w, "==="@) {
                let head = w.subrange(0, 3);
                if name.len() >= 3 {
                    assert(v.subrange(0, 3) =~= head);
                } else {
                    assert(head[name.len() as int] == '=');
                }
            }
        }
        assert(centered_text(w) is None);
        assert(!has_scene_word(w)) by {
            lemma_dual_scene_word(v, w, name.len() as int, "INT"@);
            lemma_dual_scene_word(v, w, name.len() as int, "EXT"@);
            lemma_dual_scene_word(v, w, name.len() as int, "EST"@);
            lemma_dual_scene_word(v, w, name.len() as int, "I/E"@);
        }
        assert(scene_heading(w) is None);
        assert(!has_suffix(w, "TO:"@)) by {
            if has_suffix(w, "TO:"@) {
                assert(w.subrange(w.len() - 3, w.len() as int)[2] == ':');
            }
        }
        assert(transition(w, previous) is None);
        assert(w.drop_last() =~= name + seq![' ']);
        lemma_trimmed_padded(name);
        assert(heading_name(w) == (name, true));
        assert(classify(w, previous, character) == classify(v, previous, character));
        lemma_wrapped_form(v, 0, v.len() - 1, Seq::empty(), post);
        assert(v.subrange(0, v.len() - 1) =~= x);
    }
}

/// A text that goes on like a line for the length of a name and then
/// holds a space begins with a scene word only where the line does.
proof fn lemma_dual_scene_word(v: Seq<char>, w: Seq<char>, n: int, p: Seq<char>)
    requires
        1 <= n < w.len(),
        n < v.len(),
        forall|j: int| 0 <= j < n ==> #[trigger] w[j] == v[j],
        w[n] == ' ',
        p.len() == 3,
        p[1] != ' ',
        p[2] != ' ',
        'A' <= p[1] <= 'Z' || p[1] == '/',
        'A' <= p[2] <= 'Z',
    ensures
        has_prefix_ignore_case(w, p) ==> has_prefix_ignore_case(v, p),
{
    if has_prefix_ignore_case(w, p) {
        if n >= 3 {
            assert forall|i: int| 0 <= i < p.len() implies ascii_upper(#[trigger] v[i])
                == ascii_upper(p[i]) by {
                assert(w[i] == v[i]);
                assert(ascii_upper(w[i]) == ascii_upper(p[i]));
            }
        } else {
            assert(ascii_upper(w[n]) == ascii_upper(p[n]));
        }
    }
}

/// Whether a line is written in a way that it comes back from. Every
/// line is, but for these: a scene heading whose text begins with `.`; a
/// transition whose text begins with `>`; a transition after `>` whose
/// text ends with `TO:`; and lyrics that are not written as `~` and
/// their text, where they follow an empty line or their text begins with
/// `~`.
pub open spec fn is_settled(line: Seq<char>, previous: LineView, character: Seq<char>) -> bool {
    let l = classify(line, previous, character).0;
    let v = trimmed(line);
    match l {
        LineView::SceneHeading(heading) => !first_is(heading, '.'),
        LineView::Transition(text) => !first_is(text, '>') && (has_suffix(text, "TO:"@)
            ==> !first_is(v, '>')),
        LineView::CharacterContent(entries) => entries[0].kind == CharacterLine::Lyrics ==> (
        line_text(l) == v || (!(previous is Empty) && !first_is(raw_text(entries[0].spans), '~'))),
        _ => true,
    }
}

/// A settled line comes back: written out and read again in the same
/// state it is the same line, and its written form can stand in its
/// place.
pub proof fn lemma_settled_comes_back(line: Seq<char>, previous: LineView, character: Seq<char>)
    requires
        is_settled(line, previous, character),
    ensures
        comes_back(line, previous, character),
{
    let v = trimmed(line);
    lemma_trimmed_idempotent(line);
    assert(classify(v, previous, character) == classify(line, previous, character));
    let l = classify(v, previous, character).0;
    lemma_formatted_raw_text(v);
    lemma_patterns();
    if v.len() == 0 {
        lemma_back_same(v, previous, character);
    } else if is_page_break(v) {
        lemma_back_page_break(v, previous, character);
    } else if centered_text(v) is Some {
        lemma_back_centered(v, previous, character);
    } else if scene_heading(v) is Some {
        if first_is(v, '.') && has_scene_word(v.subrange(1, v.len() as int)) {
            lemma_back_dotted_scene_word(v, previous, character);
        } else {
            if first_is(v, '.') {
                assert(seq!['.'] + v.subrange(1, v.len() as int) =~= v);
            }
            lemma_back_same(v, previous, character);
        }
    } else if transition(v, previous) is Some {
        if first_is(v, '>') && !last_is(v, '<') {
            lemma_back_arrow(v, previous, character);
        } else {
            lemma_back_same(v, previous, character);
        }
    } else if character_heading(v, previous) is Some {
        if last_is(v, '^') {
            lemma_back_dual(v, previous, character);
        } else {
            assert(entry_texts(l->CharacterContent_0) =~= seq![
                entry_text(l->CharacterContent_0[0]),
            ]);
            lemma_back_same(v, previous, character);
        }
    } else if lyrics(v) is Some {
        let inner = trimmed(v.subrange(1, v.len() as int));
        lemma_formatted_raw_text(inner);
        if line_text(l) == v {
            lemma_back_same(v, previous, character);
        } else {
            lemma_back_lyrics(v, previous, character);
        }
    } else if dialog(v, previous) is Some {
        assert(entry_texts(l->CharacterContent_0) =~= seq![entry_text(l->CharacterContent_0[0])]);
        lemma_back_same(v, previous, character);
    } else {
        lemma_back_same(v, previous, character);
    }
    let w = line_text(l);
    assert(comes_back(v, previous, character));
    lemma_trimmed_is_free(line);
    lemma_count_of_trimmed(line, ':');
}

/// Whether the line at index `i` of the text `s` is settled in the state
/// in which the classifier reads it.
pub open spec fn is_settled_at(s: Seq<char>, i: int) -> bool {
    let state = classified_from(start(), source_lines(s), i as nat);
    is_settled(lines_of(s)[i], state.previous, state.character)
}

/// Whether every line of the text `s` is settled.
pub open spec fn all_settled(s: Seq<char>) -> bool {
    forall|i: int| 0 <= i < lines_of(s).len() ==> #[trigger] is_settled_at(s, i)
}

/// The line that the classifier gives for the line at index `i` of a
/// text is the line that it reads there in the state that the lines
/// before lead to.
proof fn lemma_classified_line_at(s: Seq<char>, n: nat, i: int)
    requires
        0 <= i < n <= lines_of(s).len(),
    ensures
        classified_from(start(), source_lines(s), n).lines.len() == n,
        classified_from(start(), source_lines(s), n).lines[i] == ({
            let state = classified_from(start(), source_lines(s), i as nat);
            classify(lines_of(s)[i], state.previous, state.character).0
        }),
    decreases n,
{
    let items = source_lines(s);
    lemma_classified_from(start(), items, n);
    lemma_classified_from(start(), items, (n - 1) as nat);
    if i < n - 1 {
        lemma_classified_line_at(s, (n - 1) as nat, i);
    }
}

/// Writing out a script is stable where every line is settled. Let `s` be
/// a text without comments and without a title page, whose last line is
/// not blank and whose lines are all settled. Then the written form of
/// the script of `s` is parsed into the same script, and so is written
/// the same again.
pub proof fn lemma_settled_is_stable(s: Seq<char>)
    requires
        has_no_comment(s),
        !has_title(source_items(s)),
        lines_of(s).len() > 0 ==> !is_blank(lines_of(s).last()),
        all_settled(s),
    ensures
        parsed(exported(parsed(s))) == parsed(s),
        exported(parsed(exported(parsed(s)))) == exported(parsed(s)),
{
    let lines = lines_of(s);
    let items = source_lines(s);
    let w = written_lines(s);
    lemma_items_without_comment(s);
    lemma_classified_from(start(), items, items.len());
    lemma_index_of_pair_none(s, '/', '*');
    lemma_index_of_pair_none(s, '*', '/');
    lemma_lines_of_pieces(s, '/', '*');
    lemma_lines_of_pieces(s, '*', '/');
    assert forall|i: int| 0 <= i < lines.len() implies #[trigger] reads_alike(s, i, w[i])
        && keeps_form(lines[i], w[i]) by {
        let state = classified_from(start(), items, i as nat);
        assert(is_settled_at(s, i));
        lemma_classified_line_at(s, lines.len(), i);
        lemma_settled_comes_back(lines[i], state.previous, state.character);
    }
    assert forall|i: int| 0 <= i < w.len() implies has_no_char(#[trigger] w[i], '\n')
        && without_carriage_return(w[i]) == w[i] && has_no_pair(w[i], '/', '*') && has_no_pair(
        w[i],
        '*',
        '/',
    ) by {
        assert(reads_alike(s, i, w[i]) && keeps_form(lines[i], w[i]));
        assert(has_no_char(lines[i], '\n'));
    }
    if w.len() > 0 {
        assert(reads_alike(s, w.len() - 1, w[w.len() - 1]) && keeps_form(
            lines[w.len() - 1],
            w[w.len() - 1],
        ));
        assert(reads_alike(s, 0, w[0]) && keeps_form(lines[0], w[0]));
        lemma_trimmed_shape(w[0]);
    }
    assert(are_lines(w));
    lemma_first_blank_sign(line_items(w));
    lemma_first_blank_sign(items);
    assert(!has_title(line_items(w)));
    assert(reads_as_written(s));
    lemma_written_is_read_back(s);
}

} // verus!
