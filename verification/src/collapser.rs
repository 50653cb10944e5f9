//! The chunk collapser: consecutive lines of one character become one
//! block, and a block is taken apart into its lines again.

use crate::types::{
    clone_line, entries_view, entry_view, lemma_entries_view_push, lemma_lines_view_push,
    lines_view, CharacterLine, EntryView, Line, LineContent, LineView,
};
use vstd::prelude::*;

verus! {

/// How a line of a character relates to the block before it.
#[derive(Clone, Copy, PartialEq, Eq, Debug, Structural)]
pub enum ChunkRelationship {
    /// The line begins a block of its own.
    NewChunk,
    /// The line goes on with the block.
    SameChunk,
    /// The line begins a block that stands beside the block before it:
    /// dual dialogue.
    ParallelChunk,
}

/// How `entry` relates to a block that ends with `last`: it goes on with
/// the block where it names the same character and is no heading without
/// the dual mark; a heading with the dual mark begins a parallel block.
pub open spec fn relationship(last: EntryView, entry: EntryView) -> ChunkRelationship {
    if entry.character == last.character && entry.kind != CharacterLine::CharacterHeading(false) {
        ChunkRelationship::SameChunk
    } else if entry.kind == CharacterLine::CharacterHeading(true) {
        ChunkRelationship::ParallelChunk
    } else {
        ChunkRelationship::NewChunk
    }
}

/// The entry that ends a block: the empty line after its last line.
pub open spec fn closing_entry(block: Seq<EntryView>) -> EntryView {
    EntryView { spans: Seq::empty(), kind: CharacterLine::Empty, character: block.last().character }
}

/// The lines `acc`, already collapsed, with `line` added: `line` joins the
/// block at the end of `acc` where [`relationship`] says so, an empty line
/// right after the last line of a block becomes the entry that ends the
/// block, and every other line stands alone.
pub open spec fn collapse_step(acc: Seq<LineView>, line: LineView) -> Seq<LineView> {
    if acc.len() > 0 && acc.last() is CharacterContent && acc.last()->CharacterContent_0.len() > 0 {
        let block = acc.last()->CharacterContent_0;
        match line {
            LineView::CharacterContent(entries) => if entries.len() > 0 && relationship(
                block.last(),
                entries[0],
            ) != ChunkRelationship::NewChunk {
                acc.drop_last().push(LineView::CharacterContent(block + entries))
            } else {
                acc.push(line)
            },
            LineView::Empty => if block.last().kind != CharacterLine::Empty {
                acc.drop_last().push(LineView::CharacterContent(block.push(closing_entry(block))))
            } else {
                acc.push(line)
            },
            _ => acc.push(line),
        }
    } else {
        acc.push(line)
    }
}

/// The lines `lines` with the lines of each character gathered in blocks.
pub open spec fn collapsed(lines: Seq<LineView>) -> Seq<LineView>
    decreases lines.len(),
{
    if lines.len() == 0 {
        Seq::empty()
    } else {
        collapse_step(collapsed(lines.drop_last()), lines.last())
    }
}

/// The line that one entry of a block is when it stands alone.
pub open spec fn entry_line(e: EntryView) -> LineView {
    if e.kind == CharacterLine::Empty {
        LineView::Empty
    } else {
        LineView::CharacterContent(seq![e])
    }
}

/// The lines that `line` stands for: each entry of a block by itself, any
/// other line as it is.
pub open spec fn line_parts(line: LineView) -> Seq<LineView> {
    match line {
        LineView::CharacterContent(entries) => entries.map_values(|e: EntryView| entry_line(e)),
        _ => seq![line],
    }
}

/// The lines `lines` with every block taken apart.
pub open spec fn flattened(lines: Seq<LineView>) -> Seq<LineView>
    decreases lines.len(),
{
    if lines.len() == 0 {
        Seq::empty()
    } else {
        flattened(lines.drop_last()) + line_parts(lines.last())
    }
}

/// The entries of a block in the parallel parts that it is shown in: a
/// new part begins at every heading with the dual mark.
pub open spec fn parallel_parts(entries: Seq<EntryView>) -> Seq<Seq<EntryView>>
    decreases entries.len(),
{
    if entries.len() == 0 {
        Seq::empty()
    } else {
        let parts = parallel_parts(entries.drop_last());
        if parts.len() == 0 || entries.last().kind == CharacterLine::CharacterHeading(true) {
            parts.push(seq![entries.last()])
        } else {
            parts.drop_last().push(parts.last().push(entries.last()))
        }
    }
}

/// The values of a list of parts.
pub open spec fn parts_view(v: Seq<Vec<(Vec<LineContent>, CharacterLine, String)>>) -> Seq<
    Seq<EntryView>,
> {
    v.map_values(|p: Vec<(Vec<LineContent>, CharacterLine, String)>| entries_view(p@))
}

/// Whether every block of `lines` holds one entry, and that no empty one:
/// the form in which the classifier hands out its lines.
pub open spec fn is_flat(lines: Seq<LineView>) -> bool {
    forall|i: int|
        0 <= i < lines.len() ==> (#[trigger] lines[i] matches LineView::CharacterContent(entries)
            ==> entries.len() == 1 && entries[0].kind != CharacterLine::Empty)
}

/// Collapsing a list of lines that grew by one.
pub proof fn lemma_collapsed_push(lines: Seq<LineView>, line: LineView)
    ensures
        collapsed(lines.push(line)) == collapse_step(collapsed(lines), line),
{
    assert(lines.push(line).drop_last() == lines);
}

/// Flattening a list of lines that grew by one.
pub proof fn lemma_flattened_push(lines: Seq<LineView>, line: LineView)
    ensures
        flattened(lines.push(line)) == flattened(lines) + line_parts(line),
{
    assert(lines.push(line).drop_last() == lines);
}

/// Decides [`relationship`].
pub fn chunk_relationship(
    last: &(Vec<LineContent>, CharacterLine, String),
    entry: &(Vec<LineContent>, CharacterLine, String),
) -> (r: ChunkRelationship)
    ensures
        r == relationship(entry_view(*last), entry_view(*entry)),
{
    if entry.2 == last.2 && entry.1 != CharacterLine::CharacterHeading(false) {
        ChunkRelationship::SameChunk
    } else if entry.1 == CharacterLine::CharacterHeading(true) {
        ChunkRelationship::ParallelChunk
    } else {
        ChunkRelationship::NewChunk
    }
}

/// Appends the entries `more` to `block`.
fn append_entries(
    block: &mut Vec<(Vec<LineContent>, CharacterLine, String)>,
    more: Vec<(Vec<LineContent>, CharacterLine, String)>,
)
    ensures
        entries_view(final(block)@) == entries_view(old(block)@) + entries_view(more@),
{
    let mut more = more;
    let ghost added = more@;
    block.append(&mut more);
    assert(entries_view(block@) =~= entries_view(old(block)@) + entries_view(added));
}

/// Adds `line` to the collapsed lines `acc`.
pub fn collapse_line(acc: &mut Vec<Line>, line: Line)
    ensures
        lines_view(final(acc)@) == collapse_step(lines_view(old(acc)@), line@),
{
    let ghost before = lines_view(acc@);
    if acc.len() == 0 {
        proof {
            lemma_lines_view_push(acc@, line);
        }
        acc.push(line);
        return ;
    }
    let ghost rest = acc@.drop_last();
    assert(lines_view(rest) =~= before.drop_last());
    assert(before.last() == acc@.last()@);
    let last: Line = acc.pop().unwrap();
    assert(acc@ == rest);
    match last {
        Line::CharacterContent(mut block) => {
            if block.len() == 0 {
                let back = Line::CharacterContent(block);
                proof {
                    lemma_lines_view_push(acc@, back);
                    assert(lines_view(acc@.push(back)) =~= before);
                    lemma_lines_view_push(acc@.push(back), line);
                }
                acc.push(back);
                acc.push(line);
                return ;
            }
            let ghost old_block = entries_view(block@);
            assert(old_block.last() == entry_view(block@.last()));
            match line {
                Line::CharacterContent(entries) => {
                    let joins: bool = entries.len() > 0 && chunk_relationship(
                        &block[block.len() - 1],
                        &entries[0],
                    ) != ChunkRelationship::NewChunk;
                    if joins {
                        assert(entries_view(entries@)[0] == entry_view(entries@[0]));
                        append_entries(&mut block, entries);
                        let merged = Line::CharacterContent(block);
                        proof {
                            lemma_lines_view_push(acc@, merged);
                        }
                        acc.push(merged);
                    } else {
                        let back = Line::CharacterContent(block);
                        let line = Line::CharacterContent(entries);
                        proof {
                            if entries.len() > 0 {
                                assert(entries_view(entries@)[0] == entry_view(entries@[0]));
                            }
                            lemma_lines_view_push(acc@, back);
                            assert(lines_view(acc@.push(back)) =~= before);
                            lemma_lines_view_push(acc@.push(back), line);
                        }
                        acc.push(back);
                        acc.push(line);
                    }
                },
                Line::Empty => {
                    let ends: bool = match block[block.len() - 1].1 {
                        CharacterLine::Empty => true,
                        _ => false,
                    };
                    if !ends {
                        let closing: (Vec<LineContent>, CharacterLine, String) = (
                            Vec::new(),
                            CharacterLine::Empty,
                            block[block.len() - 1].2.clone(),
                        );
                        proof {
                            lemma_entries_view_push(block@, closing);
                            assert(entry_view(closing).spans =~= Seq::empty());
                            assert(entry_view(closing) == closing_entry(old_block));
                        }
                        block.push(closing);
                        let merged = Line::CharacterContent(block);
                        proof {
                            lemma_lines_view_push(acc@, merged);
                        }
                        acc.push(merged);
                    } else {
                        let back = Line::CharacterContent(block);
                        proof {
                            lemma_lines_view_push(acc@, back);
                            assert(lines_view(acc@.push(back)) =~= before);
                            lemma_lines_view_push(acc@.push(back), Line::Empty);
                        }
                        acc.push(back);
                        acc.push(Line::Empty);
                    }
                },
                other => {
                    let back = Line::CharacterContent(block);
                    proof {
                        lemma_lines_view_push(acc@, back);
                        assert(lines_view(acc@.push(back)) =~= before);
                        lemma_lines_view_push(acc@.push(back), other);
                    }
                    acc.push(back);
                    acc.push(other);
                },
            }
        },
        other => {
            proof {
                lemma_lines_view_push(acc@, other);
                assert(lines_view(acc@.push(other)) =~= before);
                lemma_lines_view_push(acc@.push(other), line);
            }
            acc.push(other);
            acc.push(line);
        },
    }
}

/// The lines `lines` with the lines of each character gathered in blocks.
pub fn collapse(lines: &Vec<Line>) -> (r: Vec<Line>)
    ensures
        lines_view(r@) == collapsed(lines_view(lines@)),
{
    let mut r: Vec<Line> = Vec::new();
    let mut i: usize = 0;
    assert(lines_view(lines@.subrange(0, 0)) =~= Seq::<LineView>::empty());
    assert(lines_view(r@) =~= Seq::<LineView>::empty());
    while i < lines.len()
        invariant
            i <= lines.len(),
            lines_view(r@) == collapsed(lines_view(lines@.subrange(0, i as int))),
        decreases lines.len() - i,
    {
        let line: Line = clone_line(&lines[i]);
        proof {
            lemma_collapsed_push(lines_view(lines@.subrange(0, i as int)), lines@[i as int]@);
            lemma_lines_view_push(lines@.subrange(0, i as int), lines@[i as int]);
            assert(lines@.subrange(0, i + 1) == lines@.subrange(0, i as int).push(
                lines@[i as int],
            ));
        }
        collapse_line(&mut r, line);
        i += 1;
    }
    assert(lines@.subrange(0, lines.len() as int) == lines@);
    r
}

/// The entries of a block in the parallel parts that it is shown in.
pub fn parallel_chunks(entries: &Vec<(Vec<LineContent>, CharacterLine, String)>) -> (r: Vec<
    Vec<(Vec<LineContent>, CharacterLine, String)>,
>)
    ensures
        parts_view(r@) == parallel_parts(entries_view(entries@)),
{
    let mut r: Vec<Vec<(Vec<LineContent>, CharacterLine, String)>> = Vec::new();
    let mut i: usize = 0;
    let ghost all = entries_view(entries@);
    assert(all.subrange(0, 0) =~= Seq::<EntryView>::empty());
    assert(parts_view(r@) =~= Seq::<Seq<EntryView>>::empty());
    while i < entries.len()
        invariant
            i <= entries.len(),
            all == entries_view(entries@),
            parts_view(r@) == parallel_parts(all.subrange(0, i as int)),
        decreases entries.len() - i,
    {
        let ghost before = parts_view(r@);
        let copy: (Vec<LineContent>, CharacterLine, String) = (
            crate::types::clone_spans(&entries[i].0),
            entries[i].1,
            entries[i].2.clone(),
        );
        assert(entry_view(copy) == all[i as int]);
        assert(all.subrange(0, i + 1).drop_last() =~= all.subrange(0, i as int));
        if r.len() == 0 || entries[i].1 == CharacterLine::CharacterHeading(true) {
            let mut part: Vec<(Vec<LineContent>, CharacterLine, String)> = Vec::new();
            part.push(copy);
            assert(entries_view(part@) =~= seq![all[i as int]]);
            r.push(part);
            assert(parts_view(r@) =~= before.push(seq![all[i as int]]));
        } else {
            let mut part: Vec<(Vec<LineContent>, CharacterLine, String)> = r.pop().unwrap();
            assert(parts_view(r@) =~= before.drop_last());
            proof {
                lemma_entries_view_push(part@, copy);
            }
            part.push(copy);
            r.push(part);
            assert(parts_view(r@) =~= before.drop_last().push(before.last().push(all[i as int])));
        }
        i += 1;
    }
    assert(all.subrange(0, entries.len() as int) =~= all);
    r
}

/// The lines that `line` stands for, added to `acc`.
pub fn flatten_line(acc: &mut Vec<Line>, line: &Line)
    ensures
        lines_view(final(acc)@) == lines_view(old(acc)@) + line_parts(line@),
{
    match line {
        Line::CharacterContent(entries) => {
            let mut i: usize = 0;
            assert(lines_view(acc@) =~= lines_view(old(acc)@) + entries_view(
                entries@.subrange(0, 0),
            ).map_values(|e: EntryView| entry_line(e)));
            while i < entries.len()
                invariant
                    i <= entries.len(),
                    lines_view(acc@) == lines_view(old(acc)@) + entries_view(
                        entries@.subrange(0, i as int),
                    ).map_values(|e: EntryView| entry_line(e)),
                decreases entries.len() - i,
            {
                let ghost e = entry_view(entries@[i as int]);
                let part: Line = match entries[i].1 {
                    CharacterLine::Empty => Line::Empty,
                    _ => {
                        let mut single: Vec<(Vec<LineContent>, CharacterLine, String)> = Vec::new();
                        let copy: (Vec<LineContent>, CharacterLine, String) = (
                            crate::types::clone_spans(&entries[i].0),
                            entries[i].1,
                            entries[i].2.clone(),
                        );
                        single.push(copy);
                        assert(entries_view(single@) =~= seq![e]);
                        Line::CharacterContent(single)
                    },
                };
                assert(part@ == entry_line(e));
                proof {
                    lemma_lines_view_push(acc@, part);
                    lemma_entries_view_push(entries@.subrange(0, i as int), entries@[i as int]);
                    assert(entries@.subrange(0, i + 1) == entries@.subrange(0, i as int).push(
                        entries@[i as int],
                    ));
                    assert(lines_view(acc@.push(part)) =~= lines_view(old(acc)@) + entries_view(
                        entries@.subrange(0, i + 1),
                    ).map_values(|e: EntryView| entry_line(e)));
                }
                acc.push(part);
                i += 1;
            }
            assert(entries@.subrange(0, entries.len() as int) == entries@);
        },
        _ => {
            let copy: Line = clone_line(line);
            proof {
                lemma_lines_view_push(acc@, copy);
                assert(lines_view(acc@.push(copy)) =~= lines_view(acc@) + seq![line@]);
            }
            acc.push(copy);
        },
    }
}

/// The lines of `lines` from index `from` up to, not including, `to`,
/// with every block taken apart.
pub fn flatten_range(lines: &Vec<Line>, from: usize, to: usize) -> (r: Vec<Line>)
    requires
        from <= to <= lines.len(),
    ensures
        lines_view(r@) == flattened(lines_view(lines@).subrange(from as int, to as int)),
{
    let mut r: Vec<Line> = Vec::new();
    let mut i: usize = from;
    let ghost all = lines_view(lines@);
    assert(all.subrange(from as int, from as int) =~= Seq::<LineView>::empty());
    assert(lines_view(r@) =~= Seq::<LineView>::empty());
    while i < to
        invariant
            from <= i <= to <= lines.len(),
            all == lines_view(lines@),
            lines_view(r@) == flattened(all.subrange(from as int, i as int)),
        decreases to - i,
    {
        proof {
            lemma_flattened_push(all.subrange(from as int, i as int), lines@[i as int]@);
            assert(all.subrange(from as int, i + 1) =~= all.subrange(from as int, i as int).push(
                lines@[i as int]@,
            ));
        }
        flatten_line(&mut r, &lines[i]);
        i += 1;
    }
    r
}

/// The lines `lines` with every block taken apart.
pub fn flatten(lines: &Vec<Line>) -> (r: Vec<Line>)
    ensures
        lines_view(r@) == flattened(lines_view(lines@)),
{
    assert(lines_view(lines@).subrange(0, lines.len() as int) =~= lines_view(lines@));
    flatten_range(lines, 0, lines.len())
}

} // verus!
