//! Laws of the parser and the exporter, each proved from the
//! specifications that the contracts of the library speak of.

use crate::classifier::classify;
use crate::collapser::{
    closing_entry, collapse_step, collapsed, flattened, is_flat, lemma_flattened_push, line_parts,
};
use crate::classifier::first_is;
use crate::exporter::{
    all_exportable, entry_text, entry_texts, exportable, exported, line_text, line_texts,
    lines_text, title_lines, title_text,
};
use crate::formatting::lemma_formatted_raw_text;
use crate::parser::first_blank;
use crate::text::{
    has_no_char, has_no_pair, is_blank, is_space, lemma_count_of_trimmed, lemma_index_of_pair_none,
    lemma_lines_of_joined, lemma_lines_of_pieces, lemma_no_pair_joined, lemma_no_pair_trimmed,
    lemma_trimmed_shape, lemma_trimmed_subrange, trimmed_offset, without_carriage_return,
};
use crate::types::{empty_title, ScriptView, TextAlignment};
use crate::formatting::{formatted, is_marker_char, scanned, span_of, window_at, Scan, Styles};
use crate::script_update::{reparsed, replacement_items, state_after, updated_lines};
use crate::text::{joined, lemma_joined_push};
use crate::parser::{
    body_of, boneyard_split, classified_from, classified_lines, cut_at_ends, has_title, items_of,
    line_items, parsed, running_step, segment_items, segments, source_items, start, Running,
};
use crate::text::{index_of_pair, lemma_trimmed_idempotent, lines_of, split_on_pair, trimmed};
use crate::types::{CharacterLine, EntryView, LineView};
use vstd::prelude::*;

verus! {

/// The classifier sees a line only in its trimmed form: white space
/// around a line changes nothing.
pub proof fn lemma_classify_trimmed(line: Seq<char>, previous: LineView, character: Seq<char>)
    ensures
        classify(trimmed(line), previous, character) == classify(line, previous, character),
{
    lemma_trimmed_idempotent(line);
}

/// Whether `line`, where it belongs to a character, holds one entry, and
/// that no empty one.
pub open spec fn is_flat_line(line: LineView) -> bool {
    line matches LineView::CharacterContent(entries) ==> entries.len() == 1 && entries[0].kind
        != CharacterLine::Empty
}

/// The classifier gives no section and no synopsis, and a line of a
/// character as a block of one entry.
pub proof fn lemma_classify_shape(line: Seq<char>, previous: LineView, character: Seq<char>)
    ensures
        exportable(classify(line, previous, character).0),
        is_flat_line(classify(line, previous, character).0),
{
}

/// Classifying items adds one line for each item; every line added has a
/// written form, and a line of a character is a block of one entry.
pub proof fn lemma_classified_from(init: Running, items: Seq<(Seq<char>, bool)>, n: nat)
    requires
        n <= items.len(),
        all_exportable(init.lines),
        is_flat(init.lines),
    ensures
        classified_from(init, items, n).lines.len() == init.lines.len() + n,
        all_exportable(classified_from(init, items, n).lines),
        is_flat(classified_from(init, items, n).lines),
        classified_from(init, items, n).lines.subrange(0, init.lines.len() as int) == init.lines,
    decreases n,
{
    if n == 0 {
        assert(init.lines.subrange(0, init.lines.len() as int) =~= init.lines);
    } else {
        let st = classified_from(init, items, (n - 1) as nat);
        lemma_classified_from(init, items, (n - 1) as nat);
        let item = items[n - 1];
        let next = running_step(st, item);
        if !item.1 {
            lemma_classify_shape(item.0, st.previous, st.character);
        }
        assert(next.lines.drop_last() =~= st.lines);
        assert forall|i: int| 0 <= i < next.lines.len() implies exportable(
            #[trigger] next.lines[i],
        ) by {
            if i < st.lines.len() {
                assert(next.lines[i] == st.lines[i]);
            }
        }
        assert forall|i: int| 0 <= i < next.lines.len() implies is_flat_line(
            #[trigger] next.lines[i],
        ) by {
            if i < st.lines.len() {
                assert(next.lines[i] == st.lines[i]);
                assert(is_flat_line(st.lines[i]));
            }
        }
        assert(next.lines.subrange(0, init.lines.len() as int) =~= st.lines.subrange(
            0,
            init.lines.len() as int,
        ));
    }
}

/// A script has one classified line for each of its items.
pub proof fn lemma_classified_lines(items: Seq<(Seq<char>, bool)>)
    ensures
        classified_lines(items).len() == items.len(),
        all_exportable(classified_lines(items)),
        is_flat(classified_lines(items)),
{
    lemma_classified_from(start(), items, items.len());
}

/// A line that is no block of several entries stands for itself.
pub proof fn lemma_flat_line_parts(line: LineView)
    requires
        is_flat_line(line),
    ensures
        line_parts(line) == seq![line],
{
    match line {
        LineView::CharacterContent(entries) => {
            assert(entries =~= seq![entries[0]]);
            assert(line_parts(line) =~= seq![line]);
        },
        _ => {},
    }
}

/// Adding a line to collapsed lines adds that line to what they are
/// taken apart.
pub proof fn lemma_flatten_collapse_step(acc: Seq<LineView>, line: LineView)
    requires
        is_flat_line(line),
    ensures
        flattened(collapse_step(acc, line)) == flattened(acc) + seq![line],
{
    lemma_flat_line_parts(line);
    let next = collapse_step(acc, line);
    if next == acc.push(line) {
        lemma_flattened_push(acc, line);
    } else {
        let block = acc.last()->CharacterContent_0;
        let rest = acc.drop_last();
        assert(acc =~= rest.push(acc.last()));
        lemma_flattened_push(rest, acc.last());
        match line {
            LineView::CharacterContent(entries) => {
                let merged = LineView::CharacterContent(block + entries);
                lemma_flattened_push(rest, merged);
                assert(entries =~= seq![entries[0]]);
                assert(line_parts(merged) =~= line_parts(acc.last()) + seq![line]);
                assert(flattened(rest) + (line_parts(acc.last()) + seq![line]) =~= flattened(rest)
                    + line_parts(acc.last()) + seq![line]);
            },
            LineView::Empty => {
                let merged = LineView::CharacterContent(
                    block.push(crate::collapser::closing_entry(block)),
                );
                lemma_flattened_push(rest, merged);
                assert(line_parts(merged) =~= line_parts(acc.last()) + seq![line]);
                assert(flattened(rest) + (line_parts(acc.last()) + seq![line]) =~= flattened(rest)
                    + line_parts(acc.last()) + seq![line]);
            },
            _ => {},
        }
    }
}

/// Gathering classified lines in blocks loses nothing: taken apart, the
/// blocks are the lines again.
pub proof fn lemma_flatten_collapse(lines: Seq<LineView>)
    requires
        is_flat(lines),
    ensures
        flattened(collapsed(lines)) == lines,
    decreases lines.len(),
{
    if lines.len() == 0 {
        assert(flattened(collapsed(lines)) =~= lines);
    } else {
        let head = lines.drop_last();
        assert forall|i: int| 0 <= i < head.len() implies is_flat_line(#[trigger] head[i]) by {
            assert(head[i] == lines[i]);
            assert(is_flat_line(lines[i]));
        }
        lemma_flatten_collapse(head);
        assert(is_flat_line(lines[lines.len() - 1]));
        lemma_flatten_collapse_step(collapsed(head), lines.last());
        assert(head + seq![lines.last()] =~= lines);
    }
}

/// Lines without blocks are what they are taken apart.
pub proof fn lemma_flattened_without_blocks(lines: Seq<LineView>)
    requires
        forall|i: int| 0 <= i < lines.len() ==> !(#[trigger] lines[i] is CharacterContent),
    ensures
        flattened(lines) == lines,
    decreases lines.len(),
{
    if lines.len() == 0 {
        assert(flattened(lines) =~= lines);
    } else {
        let head = lines.drop_last();
        assert forall|i: int| 0 <= i < head.len() implies !(#[trigger] head[i]
            is CharacterContent) by {
            assert(head[i] == lines[i]);
        }
        lemma_flattened_without_blocks(head);
        assert(!(lines[lines.len() - 1] is CharacterContent));
        assert(line_parts(lines.last()) == seq![lines.last()]);
        assert(head + seq![lines.last()] =~= lines);
    }
}

/// Whether the text `s` holds no comment delimiter.
pub open spec fn has_no_comment(s: Seq<char>) -> bool {
    index_of_pair(s, '/', '*') == s.len() && index_of_pair(s, '*', '/') == s.len()
}

/// The items of a text without comment delimiters are its lines.
pub proof fn lemma_items_without_comment(s: Seq<char>)
    requires
        has_no_comment(s),
    ensures
        source_items(s) == line_items(lines_of(s)),
{
    assert(split_on_pair(s, '/', '*') == seq![s]);
    assert(split_on_pair(s, '*', '/') == seq![s]);
    assert(seq![s].drop_last() =~= Seq::<Seq<char>>::empty());
    assert(cut_at_ends(Seq::<Seq<char>>::empty()) =~= Seq::<Seq<char>>::empty());
    assert(seq![s].last() == s);
    assert(cut_at_ends(seq![s]) =~= seq![s]);
    assert(segments(s) == seq![s]);
    assert(boneyard_split(s) =~= seq![(s, false)]);
    assert(seq![(s, false)].drop_last() =~= Seq::<(Seq<char>, bool)>::empty());
    assert(items_of(Seq::<(Seq<char>, bool)>::empty()) =~= Seq::<(Seq<char>, bool)>::empty());
    assert(seq![(s, false)].last() == (s, false));
    assert(items_of(seq![(s, false)]) =~= segment_items((s, false)));
}

/// The empty text is the script with an empty title page and no lines.
pub proof fn lemma_parsed_empty()
    ensures
        parsed(Seq::empty()) == (ScriptView { title: empty_title(), lines: Seq::empty() }),
{
    let s = Seq::<char>::empty();
    lemma_items_without_comment(s);
    assert(source_items(s) =~= Seq::<(Seq<char>, bool)>::empty());
    assert(parsed(s).lines =~= Seq::<LineView>::empty());
}

/// The number of lines. For a text without comment delimiters and without
/// a title page, the script holds one line for each line of the text,
/// where the lines of a block are counted one by one. Where the script
/// holds no block, it has as many lines as the text.
pub proof fn lemma_line_count(s: Seq<char>)
    requires
        has_no_comment(s),
        !has_title(source_items(s)),
    ensures
        flattened(parsed(s).lines) == classified_lines(line_items(lines_of(s))),
        flattened(parsed(s).lines).len() == lines_of(s).len(),
        (forall|i: int|
            0 <= i < parsed(s).lines.len() ==> !(#[trigger] parsed(s).lines[i]
                is CharacterContent)) ==> parsed(s).lines.len() == lines_of(s).len(),
{
    lemma_items_without_comment(s);
    let items = line_items(lines_of(s));
    assert(body_of(items) == items);
    lemma_classified_lines(items);
    lemma_flatten_collapse(classified_lines(items));
    if forall|i: int|
        0 <= i < parsed(s).lines.len() ==> !(#[trigger] parsed(s).lines[i] is CharacterContent) {
        lemma_flattened_without_blocks(parsed(s).lines);
    }
}

/// Adding a line with a written form to collapsed lines that all have
/// one gives lines that all have one.
pub proof fn lemma_collapse_step_exportable(acc: Seq<LineView>, line: LineView)
    requires
        all_exportable(acc),
        exportable(line),
    ensures
        all_exportable(collapse_step(acc, line)),
{
    let next = collapse_step(acc, line);
    assert forall|i: int| 0 <= i < next.len() implies exportable(#[trigger] next[i]) by {
        if i < acc.len() - 1 {
            assert(next[i] == acc[i]);
        } else if i == acc.len() - 1 {
            assert(exportable(acc[i]));
        }
    }
}

/// Gathering lines in blocks gives neither a section nor a synopsis.
pub proof fn lemma_collapsed_exportable(lines: Seq<LineView>)
    requires
        all_exportable(lines),
    ensures
        all_exportable(collapsed(lines)),
    decreases lines.len(),
{
    if lines.len() > 0 {
        let head = lines.drop_last();
        assert forall|i: int| 0 <= i < head.len() implies exportable(#[trigger] head[i]) by {
            assert(head[i] == lines[i]);
        }
        lemma_collapsed_exportable(head);
        assert(exportable(lines[lines.len() - 1]));
        lemma_collapse_step_exportable(collapsed(head), lines.last());
    }
}

/// Taking blocks apart gives lines in the form of the classifier, and
/// neither a section nor a synopsis that was not there.
pub proof fn lemma_flattened_shape(lines: Seq<LineView>)
    ensures
        is_flat(flattened(lines)),
        all_exportable(lines) ==> all_exportable(flattened(lines)),
    decreases lines.len(),
{
    if lines.len() > 0 {
        let head = lines.drop_last();
        lemma_flattened_shape(head);
        let parts = line_parts(lines.last());
        let all = flattened(lines);
        assert forall|i: int| 0 <= i < all.len() implies is_flat_line(#[trigger] all[i]) by {
            if i < flattened(head).len() {
                assert(all[i] == flattened(head)[i]);
                assert(is_flat_line(flattened(head)[i]));
            } else {
                assert(all[i] == parts[i - flattened(head).len()]);
            }
        }
        if all_exportable(lines) {
            assert forall|i: int| 0 <= i < head.len() implies exportable(#[trigger] head[i]) by {
                assert(head[i] == lines[i]);
            }
            assert(exportable(lines[lines.len() - 1]));
            assert forall|i: int| 0 <= i < all.len() implies exportable(#[trigger] all[i]) by {
                if i < flattened(head).len() {
                    assert(all[i] == flattened(head)[i]);
                } else {
                    assert(all[i] == parts[i - flattened(head).len()]);
                }
            }
        }
    }
}

/// Reading lines again keeps their number and the form of the
/// classifier, and gives neither a section nor a synopsis that was not
/// there.
pub proof fn lemma_reparsed_shape(rest: Seq<LineView>, previous: LineView, character: Seq<char>)
    ensures
        reparsed(rest, previous, character).len() == rest.len(),
        is_flat(rest) ==> is_flat(reparsed(rest, previous, character)),
        all_exportable(rest) ==> all_exportable(reparsed(rest, previous, character)),
    decreases rest.len(),
{
    let r = reparsed(rest, previous, character);
    if rest.len() == 0 {
    } else if rest[0] is Boneyard {
        let tail = rest.drop_first();
        lemma_reparsed_shape(tail, previous, character);
        lemma_reparsed_tail(rest, r, reparsed(tail, previous, character));
    } else if !exportable(rest[0]) {
    } else {
        let (line, name) = classify(line_text(rest[0]), previous, character);
        lemma_classify_shape(line_text(rest[0]), previous, character);
        if line != rest[0] {
            let tail = rest.drop_first();
            let next = match name {
                Some(n) => n,
                None => character,
            };
            lemma_reparsed_shape(tail, line, next);
            lemma_reparsed_tail(rest, r, reparsed(tail, line, next));
        }
    }
}

proof fn lemma_reparsed_tail(rest: Seq<LineView>, r: Seq<LineView>, tail: Seq<LineView>)
    requires
        rest.len() > 0,
        r.len() == tail.len() + 1,
        tail.len() == rest.len() - 1,
        forall|i: int| 0 <= i < tail.len() ==> r[i + 1] == tail[i],
        is_flat(rest) ==> is_flat(tail) && is_flat_line(r[0]),
        all_exportable(rest) ==> all_exportable(tail) && exportable(r[0]),
    ensures
        is_flat(rest) ==> is_flat(r),
        all_exportable(rest) ==> all_exportable(r),
{
    if is_flat(rest) {
        assert forall|i: int| 0 <= i < r.len() implies is_flat_line(#[trigger] r[i]) by {
            if i > 0 {
                assert(r[i] == tail[i - 1]);
                assert(is_flat_line(tail[i - 1]));
            }
        }
    }
    if all_exportable(rest) {
        assert forall|i: int| 0 <= i < r.len() implies exportable(#[trigger] r[i]) by {
            if i > 0 {
                assert(r[i] == tail[i - 1]);
            }
        }
    }
}

/// The parser gives neither a section nor a synopsis: every script that
/// it gives can be written out.
pub proof fn lemma_parsed_exportable(s: Seq<char>)
    ensures
        all_exportable(parsed(s).lines),
{
    let items = body_of(source_items(s));
    lemma_classified_lines(items);
    lemma_collapsed_exportable(classified_lines(items));
}

/// Replacing a line gives neither a section nor a synopsis that was not
/// there.
pub proof fn lemma_updated_exportable(lines: Seq<LineView>, line_id: int, text: Seq<char>)
    requires
        0 <= line_id < lines.len(),
        all_exportable(lines),
    ensures
        all_exportable(updated_lines(lines, line_id, text)),
{
    let head = lines.subrange(0, line_id);
    let tail = lines.subrange(line_id + 1, lines.len() as int);
    assert forall|i: int| 0 <= i < head.len() implies exportable(#[trigger] head[i]) by {
        assert(head[i] == lines[i]);
    }
    assert forall|i: int| 0 <= i < tail.len() implies exportable(#[trigger] tail[i]) by {
        assert(tail[i] == lines[line_id + 1 + i]);
    }
    let before = flattened(head);
    let behind = flattened(tail);
    lemma_flattened_shape(head);
    lemma_flattened_shape(tail);
    let state = state_after(before);
    let items = replacement_items(text);
    let init = Running { lines: before, previous: state.0, character: state.1 };
    lemma_classified_from(init, items, items.len());
    let replaced = classified_from(init, items, items.len());
    let again = reparsed(behind, replaced.previous, replaced.character);
    lemma_reparsed_shape(behind, replaced.previous, replaced.character);
    let all = replaced.lines + again;
    assert forall|i: int| 0 <= i < all.len() implies exportable(#[trigger] all[i]) by {
        if i < replaced.lines.len() {
            assert(all[i] == replaced.lines[i]);
        } else {
            assert(all[i] == again[i - replaced.lines.len()]);
        }
    }
    lemma_collapsed_exportable(all);
}

/// Whether the entries of a block go on with one character from entry to
/// entry, but for a heading with the dual mark, which may name another.
pub open spec fn is_coherent(entries: Seq<EntryView>) -> bool {
    forall|i: int| 0 <= i && i + 1 < entries.len() ==> #[trigger] goes_on(entries, i)
}

/// Whether the entry after the one at index `i` names the same
/// character or is a heading with the dual mark.
pub open spec fn goes_on(entries: Seq<EntryView>, i: int) -> bool {
    entries[i].character == entries[i + 1].character || entries[i + 1].kind
        == CharacterLine::CharacterHeading(true)
}

/// Whether every block of `lines` is coherent.
pub open spec fn all_coherent(lines: Seq<LineView>) -> bool {
    forall|i: int|
        0 <= i < lines.len() ==> (#[trigger] lines[i] matches LineView::CharacterContent(entries)
            ==> is_coherent(entries))
}

/// Adding a classified line to collapsed lines keeps every block
/// coherent.
pub proof fn lemma_collapse_step_coherent(acc: Seq<LineView>, line: LineView)
    requires
        all_coherent(acc),
        is_flat_line(line),
    ensures
        all_coherent(collapse_step(acc, line)),
{
    let next = collapse_step(acc, line);
    assert forall|i: int| 0 <= i < next.len() implies (#[trigger] next[i] matches
    LineView::CharacterContent(entries) ==> is_coherent(entries)) by {
        if i < acc.len() - 1 {
            assert(next[i] == acc[i]);
        } else if i == acc.len() - 1 && next != acc.push(line) {
            let block = acc.last()->CharacterContent_0;
            assert(is_coherent(block));
            let merged = next[i]->CharacterContent_0;
            assert forall|j: int| 0 <= j && j + 1 < merged.len() implies #[trigger] goes_on(
                merged,
                j,
            ) by {
                if j + 1 < block.len() {
                    assert(goes_on(block, j));
                    assert(merged[j] == block[j]);
                    assert(merged[j + 1] == block[j + 1]);
                } else {
                    assert(merged[j] == block.last());
                }
            }
        } else if i == acc.len() - 1 {
            assert(next[i] == acc[i]);
        } else {
            assert(next[i] == line);
        }
    }
}

/// In a script that is put together from classified lines, the entries
/// of a block go on with one character, but for a heading with the dual
/// mark.
pub proof fn lemma_collapsed_coherent(lines: Seq<LineView>)
    requires
        is_flat(lines),
    ensures
        all_coherent(collapsed(lines)),
    decreases lines.len(),
{
    if lines.len() > 0 {
        let head = lines.drop_last();
        assert forall|i: int| 0 <= i < head.len() implies is_flat_line(#[trigger] head[i]) by {
            assert(head[i] == lines[i]);
            assert(is_flat_line(lines[i]));
        }
        lemma_collapsed_coherent(head);
        assert(is_flat_line(lines[lines.len() - 1]));
        lemma_collapse_step_coherent(collapsed(head), lines.last());
    }
}

/// In a parsed script, the entries of a block go on with one character,
/// but for a heading with the dual mark.
pub proof fn lemma_parsed_coherent(s: Seq<char>)
    ensures
        all_coherent(parsed(s).lines),
{
    let items = body_of(source_items(s));
    lemma_classified_lines(items);
    lemma_collapsed_coherent(classified_lines(items));
}

/// The written forms of a list of lines that grew by one.
pub proof fn lemma_lines_text_push(lines: Seq<LineView>, line: LineView)
    ensures
        lines_text(lines.push(line)) == if lines.len() == 0 {
            line_text(line)
        } else {
            lines_text(lines) + seq!['\n'] + line_text(line)
        },
{
    assert(line_texts(lines.push(line)) =~= line_texts(lines).push(line_text(line)));
    lemma_joined_push(line_texts(lines), seq!['\n'], line_text(line));
}

/// Adding a classified line to collapsed lines adds its written form to
/// theirs, on a line of its own.
pub proof fn lemma_collapse_step_text(acc: Seq<LineView>, line: LineView)
    requires
        is_flat_line(line),
    ensures
        lines_text(collapse_step(acc, line)) == lines_text(acc.push(line)),
{
    let next = collapse_step(acc, line);
    let nl = seq!['\n'];
    if next != acc.push(line) {
        let last = acc.last();
        let block = last->CharacterContent_0;
        let rest = acc.drop_last();
        assert(acc =~= rest.push(last));
        let merged = next.last();
        assert(next =~= rest.push(merged));
        let x = line_text(last);
        let y = line_text(line);
        assert(line_text(merged) == x + nl + y) by {
            match line {
                LineView::CharacterContent(entries) => {
                    assert(entries =~= seq![entries[0]]);
                    assert(entry_texts(entries) =~= seq![entry_text(entries[0])]);
                    assert(entry_texts(block + entries) =~= entry_texts(block).push(
                        entry_text(entries[0]),
                    ));
                    lemma_joined_push(entry_texts(block), nl, entry_text(entries[0]));
                },
                LineView::Empty => {
                    assert(entry_texts(block.push(closing_entry(block))) =~= entry_texts(
                        block,
                    ).push(entry_text(closing_entry(block))));
                    lemma_joined_push(entry_texts(block), nl, entry_text(closing_entry(block)));
                },
                _ => {},
            }
        }
        lemma_lines_text_push(rest, merged);
        lemma_lines_text_push(rest, last);
        lemma_lines_text_push(acc, line);
        if rest.len() == 0 {
        } else {
            assert(lines_text(rest) + nl + (x + nl + y) =~= lines_text(rest) + nl + x + nl + y);
        }
    }
}

/// Gathering classified lines in blocks does not change what is
/// written: the script and its lines one by one have the same written
/// form.
pub proof fn lemma_collapsed_text(lines: Seq<LineView>)
    requires
        is_flat(lines),
    ensures
        lines_text(collapsed(lines)) == lines_text(lines),
    decreases lines.len(),
{
    if lines.len() > 0 {
        let head = lines.drop_last();
        assert forall|i: int| 0 <= i < head.len() implies is_flat_line(#[trigger] head[i]) by {
            assert(head[i] == lines[i]);
            assert(is_flat_line(lines[i]));
        }
        lemma_collapsed_text(head);
        assert(is_flat_line(lines[lines.len() - 1]));
        lemma_collapse_step_text(collapsed(head), lines.last());
        lemma_lines_text_push(collapsed(head), lines.last());
        lemma_lines_text_push(head, lines.last());
        assert(lines =~= head.push(lines.last()));
        lemma_collapsed_length(head);
    }
}

/// Collapsed lines are none exactly where there are no lines.
pub proof fn lemma_collapsed_length(lines: Seq<LineView>)
    ensures
        collapsed(lines).len() <= lines.len(),
        lines.len() > 0 ==> collapsed(lines).len() > 0,
    decreases lines.len(),
{
    if lines.len() > 0 {
        lemma_collapsed_length(lines.drop_last());
    }
}

/// Whether the text `s` holds no character that can be part of a marker.
pub open spec fn is_plain(s: Seq<char>) -> bool {
    forall|i: int| 0 <= i < s.len() ==> !is_marker_char(#[trigger] s[i])
}

/// The styles of plain text.
pub open spec fn no_styles() -> Styles {
    Styles { bold: false, italic: false, underline: false, note: false }
}

proof fn lemma_scanned_plain(s: Seq<char>, n: nat)
    requires
        is_plain(s),
        n <= s.len(),
    ensures
        scanned(s, n) == (Scan {
            done: Seq::empty(),
            cleaned: s.subrange(0, n as int),
            raw: s.subrange(0, n as int),
            styles: no_styles(),
            lockout: 0,
        }),
    decreases n,
{
    if n == 0 {
        assert(s.subrange(0, 0) =~= Seq::<char>::empty());
    } else {
        lemma_scanned_plain(s, (n - 1) as nat);
        let w = window_at(s, n - 1);
        assert(w.2 == Some(s[n - 1]));
        assert(!is_marker_char(s[n - 1]));
        if n < s.len() {
            assert(!is_marker_char(s[n as int]));
        }
        assert(s.subrange(0, n - 1).push(s[n - 1]) =~= s.subrange(0, n as int));
    }
}

/// A text without marker characters is one span without styles, whose
/// cleaned and raw text are the text itself; the empty text has no span.
pub proof fn lemma_formatted_plain(s: Seq<char>)
    requires
        is_plain(s),
    ensures
        formatted(s) == if s.len() == 0 {
            Seq::empty()
        } else {
            seq![span_of(s, s, no_styles())]
        },
{
    lemma_scanned_plain(s, s.len());
    assert(s.subrange(0, s.len() as int) =~= s);
    if s.len() > 0 {
        assert(formatted(s) =~= seq![span_of(s, s, no_styles())]);
    }
}

/// The lines of the text `s` as items of a script.
pub open spec fn source_lines(s: Seq<char>) -> Seq<(Seq<char>, bool)> {
    line_items(lines_of(s))
}

/// The written forms of the lines that the lines of the text `s` are
/// classified as.
pub open spec fn written_lines(s: Seq<char>) -> Seq<Seq<char>> {
    line_texts(classified_lines(source_lines(s)))
}

/// Whether the texts `w` can stand as the lines of a text: none holds a
/// line feed or a comment delimiter or ends with a carriage return, and
/// the last is not empty.
pub open spec fn are_lines(w: Seq<Seq<char>>) -> bool {
    &&& forall|i: int| 0 <= i < w.len() ==> has_no_char(#[trigger] w[i], '\n')
    &&& forall|i: int| 0 <= i < w.len() ==> without_carriage_return(#[trigger] w[i]) == w[i]
    &&& forall|i: int| 0 <= i < w.len() ==> has_no_pair(#[trigger] w[i], '/', '*')
    &&& forall|i: int| 0 <= i < w.len() ==> has_no_pair(#[trigger] w[i], '*', '/')
    &&& w.len() > 0 ==> w.last().len() > 0
}

/// Whether the classifier, in the state that the first `i` lines of the
/// text `s` lead to, reads `text` as it reads the line at index `i`.
pub open spec fn reads_alike(s: Seq<char>, i: int, text: Seq<char>) -> bool {
    let state = classified_from(start(), source_lines(s), i as nat);
    classify(text, state.previous, state.character) == classify(
        lines_of(s)[i],
        state.previous,
        state.character,
    )
}

/// Whether every line of the text `s` is read again from its written
/// form as it was read from the text.
pub open spec fn reads_as_written(s: Seq<char>) -> bool {
    forall|i: int|
        0 <= i < lines_of(s).len() ==> #[trigger] reads_alike(s, i, written_lines(s)[i])
}

/// Items that the classifier reads alike give the same lines.
proof fn lemma_classified_alike(s: Seq<char>, w: Seq<Seq<char>>, n: nat)
    requires
        w.len() == lines_of(s).len(),
        n <= w.len(),
        forall|i: int| 0 <= i < n ==> #[trigger] reads_alike(s, i, w[i]),
    ensures
        classified_from(start(), line_items(w), n) == classified_from(start(), source_lines(s), n),
    decreases n,
{
    if n > 0 {
        lemma_classified_alike(s, w, (n - 1) as nat);
        assert(reads_alike(s, n - 1, w[n - 1]));
    }
}

/// The title page without any entry is written as nothing.
pub proof fn lemma_empty_title_text()
    ensures
        title_text(empty_title()).len() == 0,
{
    assert(title_lines(empty_title()) =~= Seq::<Seq<char>>::empty());
}

/// The script of a text without comments and without a title page, and
/// its written form.
proof fn lemma_plain_script(s: Seq<char>)
    requires
        has_no_comment(s),
        !has_title(source_items(s)),
    ensures
        parsed(s) == (ScriptView {
            title: empty_title(),
            lines: collapsed(classified_lines(source_lines(s))),
        }),
        exported(parsed(s)) == joined(written_lines(s), seq!['\n']),
        written_lines(s).len() == lines_of(s).len(),
{
    lemma_items_without_comment(s);
    let items = source_lines(s);
    assert(body_of(items) == items);
    lemma_classified_lines(items);
    lemma_collapsed_text(classified_lines(items));
    lemma_empty_title_text();
}

/// What is written is read back. Let `s` be a text without comments and
/// without a title page. Where the written forms of its lines can stand
/// as the lines of a text, do not begin with a title page, and are each
/// read as the line was, the written form of the script of `s` is parsed
/// into the same script, and so is written the same again.
pub proof fn lemma_written_is_read_back(s: Seq<char>)
    requires
        has_no_comment(s),
        !has_title(source_items(s)),
        are_lines(written_lines(s)),
        !has_title(line_items(written_lines(s))),
        reads_as_written(s),
    ensures
        parsed(exported(parsed(s))) == parsed(s),
        exported(parsed(exported(parsed(s)))) == exported(parsed(s)),
{
    let w = written_lines(s);
    let e = exported(parsed(s));
    lemma_plain_script(s);
    lemma_no_pair_joined(w, '\n', '/', '*');
    lemma_no_pair_joined(w, '\n', '*', '/');
    lemma_index_of_pair_none(e, '/', '*');
    lemma_index_of_pair_none(e, '*', '/');
    lemma_lines_of_joined(w);
    assert(lines_of(e) == w);
    lemma_items_without_comment(e);
    lemma_plain_script(e);
    assert forall|i: int| 0 <= i < w.len() implies #[trigger] reads_alike(s, i, w[i]) by {
        assert(reads_alike(s, i, written_lines(s)[i]));
    }
    lemma_classified_alike(s, w, w.len());
}

/// The texts in which the classifier reads a line that is written as it
/// was read, white space around it set aside: the empty line, action
/// that is not centered, a scene heading that begins with a scene word, a
/// transition that ends with `TO:`, a character heading without the dual
/// mark, dialogue and parentheticals.
pub proof fn lemma_written_as_read(line: Seq<char>, previous: LineView, character: Seq<char>)
    ensures
        ({
            let l = classify(line, previous, character).0;
            let v = trimmed(line);
            &&& l is Empty ==> line_text(l) == v
            &&& l matches LineView::Action(_, TextAlignment::Left) ==> line_text(l) == v
            &&& l is SceneHeading && !first_is(v, '.') ==> line_text(l) == v
            &&& l is Transition && !first_is(v, '>') ==> line_text(l) == v
            &&& l matches LineView::CharacterContent(entries) ==> (entries[0].kind
                == CharacterLine::CharacterHeading(false) || entries[0].kind
                == CharacterLine::Dialogue || entries[0].kind == CharacterLine::Parenthetical)
                ==> line_text(l) == v
        }),
{
    let l = classify(line, previous, character).0;
    let v = trimmed(line);
    lemma_formatted_raw_text(v);
    match l {
        LineView::CharacterContent(entries) => {
            assert(entry_texts(entries) =~= seq![entry_text(entries[0])]);
        },
        _ => {},
    }
}

/// Trimming a line changes neither whether it is blank nor how many
/// colons it holds: the lines of a text and the same lines trimmed begin
/// with a title page or do not, both alike.
pub proof fn lemma_title_of_trimmed(lines: Seq<Seq<char>>, trims: Seq<Seq<char>>)
    requires
        trims.len() == lines.len(),
        forall|i: int| 0 <= i < lines.len() ==> #[trigger] trims[i] == trimmed(lines[i]),
    ensures
        has_title(line_items(trims)) == has_title(line_items(lines)),
{
    if lines.len() > 0 {
        assert(trims[0] == trimmed(lines[0]));
        lemma_trimmed_idempotent(lines[0]);
        lemma_count_of_trimmed(lines[0], ':');
        lemma_first_blank_sign(line_items(trims));
        lemma_first_blank_sign(line_items(lines));
    }
}

/// There are items before the first blank one exactly where the first
/// item is there and not blank.
pub proof fn lemma_first_blank_sign(items: Seq<(Seq<char>, bool)>)
    ensures
        0 <= first_blank(items) <= items.len(),
        first_blank(items) > 0 <==> items.len() > 0 && !is_blank(items[0].0),
    decreases items.len(),
{
    if items.len() == 0 || is_blank(items[0].0) {
    } else {
        lemma_first_blank_sign(items.drop_first());
    }
}

/// Writing out a script is stable where every line is written as it was
/// read. Let `s` be a text without comments and without a title page,
/// whose last line is not blank. Where each of its lines is written as
/// the line itself, trimmed, the written form of the script of `s` is
/// parsed into the same script, and so is written the same again.
pub proof fn lemma_written_as_read_is_stable(s: Seq<char>)
    requires
        has_no_comment(s),
        !has_title(source_items(s)),
        lines_of(s).len() > 0 ==> !is_blank(lines_of(s).last()),
        forall|i: int|
            0 <= i < lines_of(s).len() ==> #[trigger] written_lines(s)[i] == trimmed(
                lines_of(s)[i],
            ),
    ensures
        parsed(exported(parsed(s))) == parsed(s),
        exported(parsed(exported(parsed(s)))) == exported(parsed(s)),
{
    let lines = lines_of(s);
    let w = written_lines(s);
    lemma_plain_script(s);
    lemma_items_without_comment(s);
    lemma_index_of_pair_none(s, '/', '*');
    lemma_index_of_pair_none(s, '*', '/');
    lemma_lines_of_pieces(s, '/', '*');
    lemma_lines_of_pieces(s, '*', '/');
    assert forall|i: int| 0 <= i < w.len() implies has_no_char(#[trigger] w[i], '\n')
        && without_carriage_return(w[i]) == w[i] && has_no_pair(w[i], '/', '*') && has_no_pair(
        w[i],
        '*',
        '/',
    ) by {
        assert(w[i] == trimmed(lines[i]));
        assert(has_no_char(lines[i], '\n'));
        lemma_trimmed_subrange(lines[i]);
        lemma_trimmed_shape(lines[i]);
        assert forall|j: int| 0 <= j < w[i].len() implies w[i][j] != '\n' by {
            assert(w[i][j] == lines[i][trimmed_offset(lines[i]) + j]);
        }
        assert(is_space('\r'));
        lemma_no_pair_trimmed(lines[i], '/', '*');
        lemma_no_pair_trimmed(lines[i], '*', '/');
    }
    if w.len() > 0 {
        assert(w[w.len() - 1] == trimmed(lines[lines.len() - 1]));
    }
    lemma_title_of_trimmed(lines, w);
    assert forall|i: int| 0 <= i < lines.len() implies #[trigger] reads_alike(
        s,
        i,
        written_lines(s)[i],
    ) by {
        let state = classified_from(start(), source_lines(s), i as nat);
        assert(written_lines(s)[i] == trimmed(lines[i]));
        lemma_classify_trimmed(lines[i], state.previous, state.character);
    }
    lemma_written_is_read_back(s);
}

} // verus!
