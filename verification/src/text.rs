//! Character sequences: white space, trimming, prefixes and suffixes,
//! searching, splitting and joining.
//!
//! The specification functions of this module work on `Seq<char>`; each
//! executable function works on `Vec<char>` and is proved to compute the
//! specification function named in its contract.

use vstd::prelude::*;

verus! {

/// Whether `c` is a white space character: one of the code points that
/// carry the Unicode property `White_Space`.
pub open spec fn is_space(c: char) -> bool {
    let n = c as u32;
    (0x09 <= n <= 0x0D) || n == 0x20 || n == 0x85 || n == 0xA0 || n == 0x1680 || (0x2000 <= n
        <= 0x200A) || n == 0x2028 || n == 0x2029 || n == 0x202F || n == 0x205F || n == 0x3000
}

/// `s` without its leading white space.
pub open spec fn trimmed_start(s: Seq<char>) -> Seq<char>
    decreases s.len(),
{
    if s.len() > 0 && is_space(s[0]) {
        trimmed_start(s.drop_first())
    } else {
        s
    }
}

/// `s` without its trailing white space.
pub open spec fn trimmed_end(s: Seq<char>) -> Seq<char>
    decreases s.len(),
{
    if s.len() > 0 && is_space(s.last()) {
        trimmed_end(s.drop_last())
    } else {
        s
    }
}

/// `s` without its leading and trailing white space.
pub open spec fn trimmed(s: Seq<char>) -> Seq<char> {
    trimmed_end(trimmed_start(s))
}

/// Whether `s` holds nothing but white space.
pub open spec fn is_blank(s: Seq<char>) -> bool {
    trimmed(s).len() == 0
}

/// Whether `s` begins with `p`.
pub open spec fn has_prefix(s: Seq<char>, p: Seq<char>) -> bool {
    p.len() <= s.len() && s.subrange(0, p.len() as int) == p
}

/// Whether `s` ends with `p`.
pub open spec fn has_suffix(s: Seq<char>, p: Seq<char>) -> bool {
    p.len() <= s.len() && s.subrange(s.len() - p.len(), s.len() as int) == p
}

/// The upper case form of an ASCII letter; any other character is kept.
pub open spec fn ascii_upper(c: char) -> char {
    if 'a' <= c <= 'z' {
        ((c as u8 - 32) as u8) as char
    } else {
        c
    }
}

/// Whether `s` begins with `p`, the case of ASCII letters set aside.
pub open spec fn has_prefix_ignore_case(s: Seq<char>, p: Seq<char>) -> bool {
    p.len() <= s.len() && forall|i: int|
        0 <= i < p.len() ==> ascii_upper(#[trigger] s[i]) == ascii_upper(p[i])
}

/// The index of the first `c` in `s`, or the length of `s` where it holds none.
pub open spec fn index_of(s: Seq<char>, c: char) -> int
    decreases s.len(),
{
    if s.len() == 0 || s[0] == c {
        0
    } else {
        1 + index_of(s.drop_first(), c)
    }
}

/// How often `c` occurs in `s`.
pub open spec fn count_of(s: Seq<char>, c: char) -> nat
    decreases s.len(),
{
    if s.len() == 0 {
        0
    } else {
        count_of(s.drop_last(), c) + if s.last() == c {
            1nat
        } else {
            0nat
        }
    }
}

/// Whether the pair `a`, `b` stands at index `j` of `s`.
pub open spec fn pair_at(s: Seq<char>, j: int, a: char, b: char) -> bool {
    0 <= j && j + 1 < s.len() && s[j] == a && s[j + 1] == b
}

/// The index at which the pair `a`, `b` first occurs in `s`, or the length
/// of `s` where it does not occur.
pub open spec fn index_of_pair(s: Seq<char>, a: char, b: char) -> int
    decreases s.len(),
{
    if s.len() < 2 {
        s.len() as int
    } else if s[0] == a && s[1] == b {
        0
    } else {
        1 + index_of_pair(s.drop_first(), a, b)
    }
}

/// The pieces of `s` between the occurrences of the pair `a`, `b`, taken
/// from left to right without overlap. There is always at least one piece.
pub open spec fn split_on_pair(s: Seq<char>, a: char, b: char) -> Seq<Seq<char>>
    decreases s.len(),
{
    let i = index_of_pair(s, a, b);
    if 0 <= i && i + 2 <= s.len() {
        seq![s.subrange(0, i)] + split_on_pair(s.subrange(i + 2, s.len() as int), a, b)
    } else {
        seq![s]
    }
}

/// `s` without a carriage return at its end.
pub open spec fn without_carriage_return(s: Seq<char>) -> Seq<char> {
    if s.len() > 0 && s.last() == '\r' {
        s.drop_last()
    } else {
        s
    }
}

/// The lines of `s`. A line ends at a line feed, or at a carriage return
/// directly followed by a line feed; neither belongs to the line. What
/// follows the last line feed is a line unless it is empty.
pub open spec fn lines_of(s: Seq<char>) -> Seq<Seq<char>>
    decreases s.len(),
{
    let i = index_of(s, '\n');
    if s.len() == 0 {
        Seq::empty()
    } else if 0 <= i < s.len() {
        seq![without_carriage_return(s.subrange(0, i))] + lines_of(
            s.subrange(i + 1, s.len() as int),
        )
    } else {
        seq![s]
    }
}

/// The pieces `parts` with `sep` between each two neighbours.
pub open spec fn joined(parts: Seq<Seq<char>>, sep: Seq<char>) -> Seq<char>
    decreases parts.len(),
{
    if parts.len() == 0 {
        Seq::empty()
    } else if parts.len() == 1 {
        parts[0]
    } else {
        joined(parts.drop_last(), sep) + sep + parts.last()
    }
}

/// The views of the rows of `v`.
pub open spec fn rows(v: Seq<Vec<char>>) -> Seq<Seq<char>> {
    v.map_values(|r: Vec<char>| r@)
}

/// The upper case form of `s` that `str::to_uppercase` gives.
pub uninterp spec fn uppercase(s: Seq<char>) -> Seq<char>;

// ---------------------------------------------------------------------
// Lemmas
// ---------------------------------------------------------------------

/// `index_of` is the first position that holds `c`.
pub proof fn lemma_index_of(s: Seq<char>, c: char, i: int)
    requires
        0 <= i <= s.len(),
        forall|j: int| 0 <= j < i ==> s[j] != c,
        i < s.len() ==> s[i] == c,
    ensures
        index_of(s, c) == i,
    decreases i,
{
    if i > 0 {
        let t = s.drop_first();
        assert forall|j: int| 0 <= j < i - 1 implies t[j] != c by {
            assert(t[j] == s[j + 1]);
        }
        lemma_index_of(t, c, i - 1);
    }
}

/// `index_of` lies within `0..=s.len()`, and hits `c` where it lies inside.
pub proof fn lemma_index_of_range(s: Seq<char>, c: char)
    ensures
        0 <= index_of(s, c) <= s.len(),
        index_of(s, c) < s.len() ==> s[index_of(s, c)] == c,
        forall|j: int| 0 <= j < index_of(s, c) ==> s[j] != c,
    decreases s.len(),
{
    if s.len() == 0 || s[0] == c {
    } else {
        let t = s.drop_first();
        lemma_index_of_range(t, c);
        assert forall|j: int| 0 <= j < index_of(s, c) implies s[j] != c by {
            if j > 0 {
                assert(s[j] == t[j - 1]);
            }
        }
    }
}

/// `index_of_pair` is the first position at which the pair stands.
pub proof fn lemma_index_of_pair(s: Seq<char>, a: char, b: char, i: int)
    requires
        0 <= i <= s.len(),
        forall|j: int| 0 <= j < i ==> !#[trigger] pair_at(s, j, a, b),
        i < s.len() ==> pair_at(s, i, a, b),
    ensures
        index_of_pair(s, a, b) == i,
    decreases i,
{
    if s.len() < 2 {
        assert(i == s.len());
    } else if i > 0 {
        let t = s.drop_first();
        assert(!pair_at(s, 0, a, b));
        assert forall|j: int| 0 <= j < i - 1 implies !#[trigger] pair_at(t, j, a, b) by {
            assert(!pair_at(s, j + 1, a, b));
            if j + 1 < t.len() {
                assert(t[j] == s[j + 1]);
                assert(t[j + 1] == s[j + 2]);
            }
        }
        lemma_index_of_pair(t, a, b, i - 1);
    }
}

/// Counting over a sequence that grew by one character.
pub proof fn lemma_count_of_push(s: Seq<char>, x: char, c: char)
    ensures
        count_of(s.push(x), c) == count_of(s, c) + if x == c {
            1nat
        } else {
            0nat
        },
{
    assert(s.push(x).drop_last() == s);
}

/// What is left after the leading white space is the end of the text,
/// and it does not begin with white space.
pub proof fn lemma_trimmed_start(s: Seq<char>)
    ensures
        trimmed_start(s).len() <= s.len(),
        trimmed_start(s) == s.subrange(s.len() - trimmed_start(s).len(), s.len() as int),
        trimmed_start(s).len() > 0 ==> !is_space(trimmed_start(s)[0]),
        forall|j: int| 0 <= j < s.len() - trimmed_start(s).len() ==> is_space(s[j]),
    decreases s.len(),
{
    if s.len() > 0 && is_space(s[0]) {
        let t = s.drop_first();
        lemma_trimmed_start(t);
        let k = t.len() - trimmed_start(t).len();
        assert(t.subrange(k, t.len() as int) =~= s.subrange(k + 1, s.len() as int));
        assert forall|j: int| 0 <= j < s.len() - trimmed_start(s).len() implies is_space(s[j]) by {
            if j > 0 {
                assert(s[j] == t[j - 1]);
            }
        }
    } else {
        assert(s.subrange(0, s.len() as int) =~= s);
    }
}

/// What is left after the trailing white space is the beginning of the
/// text, and it does not end with white space.
pub proof fn lemma_trimmed_end(s: Seq<char>)
    ensures
        trimmed_end(s).len() <= s.len(),
        trimmed_end(s) == s.subrange(0, trimmed_end(s).len() as int),
        trimmed_end(s).len() > 0 ==> !is_space(trimmed_end(s).last()),
        forall|j: int| trimmed_end(s).len() <= j < s.len() ==> is_space(s[j]),
    decreases s.len(),
{
    if s.len() > 0 && is_space(s.last()) {
        let t = s.drop_last();
        lemma_trimmed_end(t);
        let k = trimmed_end(t).len() as int;
        assert(t.subrange(0, k) =~= s.subrange(0, k));
        assert forall|j: int| trimmed_end(s).len() <= j < s.len() implies is_space(s[j]) by {
            if j < s.len() - 1 {
                assert(s[j] == t[j]);
            }
        }
    } else {
        assert(s.subrange(0, s.len() as int) =~= s);
    }
}

/// A trimmed text is empty, or neither begins nor ends with white space.
pub proof fn lemma_trimmed_shape(s: Seq<char>)
    ensures
        trimmed(s).len() <= s.len(),
        trimmed(s).len() > 0 ==> !is_space(trimmed(s)[0]) && !is_space(trimmed(s).last()),
{
    let a = trimmed_start(s);
    lemma_trimmed_start(s);
    lemma_trimmed_end(a);
    if trimmed(s).len() > 0 {
        assert(trimmed(s)[0] == a[0]);
    }
}

/// A text that neither begins nor ends with white space is its own
/// trimmed form.
pub proof fn lemma_trimmed_fixed(s: Seq<char>)
    requires
        s.len() == 0 || (!is_space(s[0]) && !is_space(s.last())),
    ensures
        trimmed(s) == s,
{
}

/// Trimming a trimmed text changes nothing.
pub proof fn lemma_trimmed_idempotent(s: Seq<char>)
    ensures
        trimmed(trimmed(s)) == trimmed(s),
{
    lemma_trimmed_shape(s);
    lemma_trimmed_fixed(trimmed(s));
}

/// The place of a trimmed text in the text: it begins where the leading
/// white space ends.
pub open spec fn trimmed_offset(s: Seq<char>) -> int {
    s.len() - trimmed_start(s).len()
}

/// A trimmed text is a piece of the text.
pub proof fn lemma_trimmed_subrange(s: Seq<char>)
    ensures
        0 <= trimmed_offset(s),
        trimmed_offset(s) + trimmed(s).len() <= s.len(),
        trimmed(s) == s.subrange(trimmed_offset(s), trimmed_offset(s) + trimmed(s).len()),
        forall|j: int| 0 <= j < trimmed_offset(s) ==> is_space(s[j]),
        forall|j: int| trimmed_offset(s) + trimmed(s).len() <= j < s.len() ==> is_space(s[j]),
{
    let a = trimmed_start(s);
    lemma_trimmed_start(s);
    lemma_trimmed_end(a);
    let k = trimmed_offset(s);
    assert(trimmed(s) =~= s.subrange(k, k + trimmed(s).len()));
    assert forall|j: int| k + trimmed(s).len() <= j < s.len() implies is_space(s[j]) by {
        assert(a[j - k] == s[j]);
    }
}

/// Whether the character `c` does not occur in `s`.
pub open spec fn has_no_char(s: Seq<char>, c: char) -> bool {
    forall|j: int| 0 <= j < s.len() ==> s[j] != c
}

/// Whether the pair `a`, `b` does not occur in `s`.
pub open spec fn has_no_pair(s: Seq<char>, a: char, b: char) -> bool {
    forall|j: int| !#[trigger] pair_at(s, j, a, b)
}

/// `index_of_pair` lies within `0..=s.len()`, hits the pair where it lies
/// inside, and no pair stands before it.
pub proof fn lemma_index_of_pair_range(s: Seq<char>, a: char, b: char)
    ensures
        0 <= index_of_pair(s, a, b) <= s.len(),
        index_of_pair(s, a, b) < s.len() ==> pair_at(s, index_of_pair(s, a, b), a, b),
        forall|j: int| 0 <= j < index_of_pair(s, a, b) ==> !#[trigger] pair_at(s, j, a, b),
    decreases s.len(),
{
    if s.len() < 2 {
    } else if s[0] == a && s[1] == b {
    } else {
        let t = s.drop_first();
        lemma_index_of_pair_range(t, a, b);
        assert forall|j: int| 0 <= j < index_of_pair(s, a, b) implies !#[trigger] pair_at(
            s,
            j,
            a,
            b,
        ) by {
            if j > 0 {
                assert(!pair_at(t, j - 1, a, b));
                if j + 1 < s.len() {
                    assert(t[j - 1] == s[j]);
                    assert(t[j] == s[j + 1]);
                }
            }
        }
        if index_of_pair(s, a, b) < s.len() {
            let i = index_of_pair(t, a, b);
            assert(t[i] == s[i + 1]);
            assert(t[i + 1] == s[i + 2]);
        }
    }
}

/// `index_of_pair` is the length of the text exactly where the pair does
/// not occur.
pub proof fn lemma_index_of_pair_none(s: Seq<char>, a: char, b: char)
    ensures
        index_of_pair(s, a, b) == s.len() <==> has_no_pair(s, a, b),
{
    lemma_index_of_pair_range(s, a, b);
    if has_no_pair(s, a, b) {
        lemma_index_of_pair(s, a, b, s.len() as int);
    }
}

/// A pair that does not occur in a text does not occur in a piece of it.
pub proof fn lemma_no_pair_subrange(s: Seq<char>, lo: int, hi: int, a: char, b: char)
    requires
        0 <= lo <= hi <= s.len(),
        has_no_pair(s, a, b),
    ensures
        has_no_pair(s.subrange(lo, hi), a, b),
{
    let t = s.subrange(lo, hi);
    assert forall|j: int| !#[trigger] pair_at(t, j, a, b) by {
        assert(!pair_at(s, lo + j, a, b));
    }
}

/// A pair that does not occur in a text does not occur in its trimmed
/// form.
pub proof fn lemma_no_pair_trimmed(s: Seq<char>, a: char, b: char)
    requires
        has_no_pair(s, a, b),
    ensures
        has_no_pair(trimmed(s), a, b),
{
    lemma_trimmed_subrange(s);
    lemma_no_pair_subrange(s, trimmed_offset(s), trimmed_offset(s) + trimmed(s).len(), a, b);
}

/// Every line of a text is free of line feeds, and free of every pair
/// that the text is free of.
pub proof fn lemma_lines_of_pieces(s: Seq<char>, a: char, b: char)
    ensures
        forall|i: int| 0 <= i < lines_of(s).len() ==> has_no_char(#[trigger] lines_of(s)[i], '\n'),
        has_no_pair(s, a, b) ==> forall|i: int|
            0 <= i < lines_of(s).len() ==> has_no_pair(#[trigger] lines_of(s)[i], a, b),
    decreases s.len(),
{
    let i = index_of(s, '\n');
    lemma_index_of_range(s, '\n');
    if s.len() == 0 {
    } else if 0 <= i < s.len() {
        let first = without_carriage_return(s.subrange(0, i));
        let rest = s.subrange(i + 1, s.len() as int);
        lemma_lines_of_pieces(rest, a, b);
        assert(has_no_char(first, '\n'));
        assert forall|k: int| 0 <= k < lines_of(s).len() implies has_no_char(
            #[trigger] lines_of(s)[k],
            '\n',
        ) by {
            if k > 0 {
                assert(lines_of(s)[k] == lines_of(rest)[k - 1]);
            }
        }
        if has_no_pair(s, a, b) {
            lemma_no_pair_subrange(s, i + 1, s.len() as int, a, b);
            lemma_no_pair_subrange(s, 0, first.len() as int, a, b);
            assert(first =~= s.subrange(0, first.len() as int));
            assert forall|k: int| 0 <= k < lines_of(s).len() implies has_no_pair(
                #[trigger] lines_of(s)[k],
                a,
                b,
            ) by {
                if k > 0 {
                    assert(lines_of(s)[k] == lines_of(rest)[k - 1]);
                }
            }
        }
    } else {
    }
}

/// Joining with a piece in front.
pub proof fn lemma_joined_cons(t: Seq<char>, rest: Seq<Seq<char>>, sep: Seq<char>)
    ensures
        joined(seq![t] + rest, sep) == if rest.len() == 0 {
            t
        } else {
            t + sep + joined(rest, sep)
        },
    decreases rest.len(),
{
    let all = seq![t] + rest;
    if rest.len() == 0 {
        assert(all =~= seq![t]);
    } else {
        let head = rest.drop_last();
        assert(all.drop_last() =~= seq![t] + head);
        lemma_joined_cons(t, head, sep);
        assert(all.last() == rest.last());
        if head.len() == 0 {
            assert(rest =~= seq![rest.last()]);
            assert(joined(rest, sep) == rest.last());
        } else {
            assert(t + sep + joined(head, sep) + sep + rest.last() =~= t + sep + (joined(head, sep)
                + sep + rest.last()));
        }
    }
}

/// The lines of joined pieces are the pieces, where no piece holds a
/// line feed or ends with a carriage return, and the last piece is not
/// empty.
pub proof fn lemma_lines_of_joined(parts: Seq<Seq<char>>)
    requires
        forall|i: int| 0 <= i < parts.len() ==> has_no_char(#[trigger] parts[i], '\n'),
        forall|i: int|
            0 <= i < parts.len() ==> without_carriage_return(#[trigger] parts[i]) == parts[i],
        parts.len() > 0 ==> parts.last().len() > 0,
    ensures
        lines_of(joined(parts, seq!['\n'])) == parts,
    decreases parts.len(),
{
    let nl = seq!['\n'];
    if parts.len() == 0 {
        assert(lines_of(joined(parts, nl)) =~= parts);
    } else {
        let t = parts[0];
        let rest = parts.drop_first();
        assert(parts =~= seq![t] + rest);
        lemma_joined_cons(t, rest, nl);
        assert(has_no_char(t, '\n'));
        if rest.len() == 0 {
            lemma_index_of(t, '\n', t.len() as int);
            assert(lines_of(t) =~= seq![t]);
        } else {
            let e = t + nl + joined(rest, nl);
            assert forall|i: int| 0 <= i < rest.len() implies has_no_char(
                #[trigger] rest[i],
                '\n',
            ) by {
                assert(rest[i] == parts[i + 1]);
            }
            assert forall|i: int| 0 <= i < rest.len() implies without_carriage_return(
                #[trigger] rest[i],
            ) == rest[i] by {
                assert(rest[i] == parts[i + 1]);
            }
            assert(rest.last() == parts.last());
            lemma_lines_of_joined(rest);
            assert(e[t.len() as int] == '\n');
            assert forall|j: int| 0 <= j < t.len() implies e[j] != '\n' by {
                assert(e[j] == t[j]);
            }
            lemma_index_of(e, '\n', t.len() as int);
            assert(e.subrange(0, t.len() as int) =~= t);
            assert(e.subrange((t.len() + 1) as int, e.len() as int) =~= joined(rest, nl));
            assert(lines_of(e) =~= seq![t] + rest);
        }
    }
}

/// A pair that occurs in no piece does not occur in the pieces joined by
/// a character that is no part of the pair.
pub proof fn lemma_no_pair_joined(parts: Seq<Seq<char>>, c: char, a: char, b: char)
    requires
        c != a,
        c != b,
        forall|i: int| 0 <= i < parts.len() ==> has_no_pair(#[trigger] parts[i], a, b),
    ensures
        has_no_pair(joined(parts, seq![c]), a, b),
    decreases parts.len(),
{
    let sep = seq![c];
    let e = joined(parts, sep);
    if parts.len() == 0 {
    } else if parts.len() == 1 {
        assert(has_no_pair(parts[0], a, b));
    } else {
        let head = parts.drop_last();
        assert forall|i: int| 0 <= i < head.len() implies has_no_pair(#[trigger] head[i], a, b) by {
            assert(head[i] == parts[i]);
        }
        lemma_no_pair_joined(head, c, a, b);
        let x = joined(head, sep);
        let y = parts.last();
        assert(has_no_pair(parts[parts.len() - 1], a, b));
        assert forall|j: int| !#[trigger] pair_at(e, j, a, b) by {
            if 0 <= j && j + 1 < e.len() {
                if j + 1 < x.len() {
                    assert(!pair_at(x, j, a, b));
                    assert(e[j] == x[j]);
                    assert(e[j + 1] == x[j + 1]);
                } else if j + 1 == x.len() {
                    assert(e[j + 1] == c);
                } else if j == x.len() {
                    assert(e[j] == c);
                } else {
                    assert(!pair_at(y, j - x.len() - 1, a, b));
                    assert(e[j] == y[j - x.len() - 1]);
                    assert(e[j + 1] == y[j - x.len()]);
                }
            }
        }
    }
}

/// Counting over two texts put together.
pub proof fn lemma_count_of_concat(x: Seq<char>, y: Seq<char>, c: char)
    ensures
        count_of(x + y, c) == count_of(x, c) + count_of(y, c),
    decreases y.len(),
{
    if y.len() == 0 {
        assert(x + y =~= x);
    } else {
        assert((x + y).drop_last() =~= x + y.drop_last());
        lemma_count_of_concat(x, y.drop_last(), c);
    }
}

/// Trimming takes away white space only: a character that is no white
/// space occurs as often as before.
pub proof fn lemma_count_of_trimmed(s: Seq<char>, c: char)
    requires
        !is_space(c),
    ensures
        count_of(trimmed(s), c) == count_of(s, c),
{
    lemma_trimmed_subrange(s);
    let k = trimmed_offset(s);
    let m = k + trimmed(s).len();
    let lead = s.subrange(0, k);
    let tail = s.subrange(m, s.len() as int);
    assert(s =~= lead + trimmed(s) + tail);
    lemma_count_of_concat(lead + trimmed(s), tail, c);
    lemma_count_of_concat(lead, trimmed(s), c);
    lemma_count_of_absent(lead, c);
    lemma_count_of_absent(tail, c);
}

/// A character that does not occur is counted zero times.
pub proof fn lemma_count_of_absent(s: Seq<char>, c: char)
    requires
        forall|j: int| 0 <= j < s.len() ==> s[j] != c,
    ensures
        count_of(s, c) == 0,
    decreases s.len(),
{
    if s.len() > 0 {
        lemma_count_of_absent(s.drop_last(), c);
    }
}

/// Joining one piece more.
pub proof fn lemma_joined_push(parts: Seq<Seq<char>>, sep: Seq<char>, x: Seq<char>)
    ensures
        joined(parts.push(x), sep) == if parts.len() == 0 {
            x
        } else {
            joined(parts, sep) + sep + x
        },
{
    assert(parts.push(x).drop_last() == parts);
}

// ---------------------------------------------------------------------
// Executable functions
// ---------------------------------------------------------------------

/// Decides [`is_space`].
pub fn is_whitespace(c: char) -> (b: bool)
    ensures
        b == is_space(c),
{
    let n: u32 = c as u32;
    (0x09 <= n && n <= 0x0D) || n == 0x20 || n == 0x85 || n == 0xA0 || n == 0x1680 || (0x2000 <= n
        && n <= 0x200A) || n == 0x2028 || n == 0x2029 || n == 0x202F || n == 0x205F || n == 0x3000
}

/// The characters of `s`, in order.
pub fn chars_of(s: &str) -> (v: Vec<char>)
    ensures
        v@ == s@,
{
    let mut v: Vec<char> = Vec::new();
    for c in it: s.chars()
        invariant
            v@ == it.seq().take(it.index() as int),
            it.seq() == s@,
    {
        v.push(c);
    }
    v
}

/// The string that holds the characters of `v`, in order.
///
/// Trusted: this is `String::from_iter` on the characters of `v`, which
/// std documents to build the string by pushing each character in turn.
#[verifier::external_body]
pub(crate) fn string_of(v: &Vec<char>) -> (s: String)
    ensures
        s@ == v@,
{
    String::from_iter(v.iter())
}

/// The upper case form of `s`.
///
/// Trusted: this is `str::to_uppercase`. Its result depends on `s` alone
/// and is named [`uppercase`]; nothing else is claimed of it.
#[verifier::external_body]
pub(crate) fn to_uppercase(s: &str) -> (r: String)
    ensures
        r@ == uppercase(s@),
{
    s.to_uppercase()
}

/// The characters of `v` from index `from` up to, not including, `to`.
pub fn subvec(v: &Vec<char>, from: usize, to: usize) -> (r: Vec<char>)
    requires
        from <= to <= v.len(),
    ensures
        r@ == v@.subrange(from as int, to as int),
{
    let mut r: Vec<char> = Vec::new();
    let mut i: usize = from;
    while i < to
        invariant
            from <= i <= to <= v.len(),
            r@ == v@.subrange(from as int, i as int),
        decreases to - i,
    {
        r.push(v[i]);
        i += 1;
    }
    r
}

/// A copy of `v`.
pub fn copy_chars(v: &Vec<char>) -> (r: Vec<char>)
    ensures
        r@ == v@,
{
    assert(v@.subrange(0, v.len() as int) == v@);
    subvec(v, 0, v.len())
}

/// Appends the characters of `w` to `v`.
pub fn append_chars(v: &mut Vec<char>, w: &Vec<char>)
    ensures
        final(v)@ == old(v)@ + w@,
{
    let mut i: usize = 0;
    while i < w.len()
        invariant
            i <= w.len(),
            v@ == old(v)@ + w@.subrange(0, i as int),
        decreases w.len() - i,
    {
        v.push(w[i]);
        i += 1;
    }
    assert(w@.subrange(0, w.len() as int) == w@);
}

/// Whether `a` and `b` hold the same characters.
pub fn chars_eq(a: &Vec<char>, b: &Vec<char>) -> (r: bool)
    ensures
        r == (a@ == b@),
{
    if a.len() != b.len() {
        return false;
    }
    let mut i: usize = 0;
    while i < a.len()
        invariant
            i <= a.len(),
            a.len() == b.len(),
            a@.subrange(0, i as int) == b@.subrange(0, i as int),
        decreases a.len() - i,
    {
        if a[i] != b[i] {
            return false;
        }
        assert(a@.subrange(0, i + 1) == a@.subrange(0, i as int).push(a@[i as int]));
        assert(b@.subrange(0, i + 1) == b@.subrange(0, i as int).push(b@[i as int]));
        i += 1;
    }
    assert(a@.subrange(0, a.len() as int) == a@);
    assert(b@.subrange(0, b.len() as int) == b@);
    true
}

/// `s` without its leading and trailing white space.
pub fn trim(v: &Vec<char>) -> (r: Vec<char>)
    ensures
        r@ == trimmed(v@),
{
    let n: usize = v.len();
    let mut a: usize = 0;
    assert(v@.subrange(0, n as int) == v@);
    while a < n && is_whitespace(v[a])
        invariant
            a <= n,
            n == v.len(),
            trimmed_start(v@) == trimmed_start(v@.subrange(a as int, n as int)),
        decreases n - a,
    {
        assert(v@.subrange(a as int, n as int).drop_first() == v@.subrange(a + 1, n as int));
        a += 1;
    }
    let mut b: usize = n;
    while b > a && is_whitespace(v[b - 1])
        invariant
            a <= b <= n,
            n == v.len(),
            trimmed(v@) == trimmed_end(v@.subrange(a as int, b as int)),
        decreases b,
    {
        assert(v@.subrange(a as int, b as int).drop_last() == v@.subrange(a as int, b - 1));
        b -= 1;
    }
    subvec(v, a, b)
}

/// Whether `v` begins with the characters of `p`.
pub fn starts_with(v: &Vec<char>, p: &str) -> (r: bool)
    ensures
        r == has_prefix(v@, p@),
{
    let p: Vec<char> = chars_of(p);
    if p.len() > v.len() {
        return false;
    }
    let head: Vec<char> = subvec(v, 0, p.len());
    chars_eq(&head, &p)
}

/// Whether `v` ends with the characters of `p`.
pub fn ends_with(v: &Vec<char>, p: &str) -> (r: bool)
    ensures
        r == has_suffix(v@, p@),
{
    let p: Vec<char> = chars_of(p);
    if p.len() > v.len() {
        return false;
    }
    let tail: Vec<char> = subvec(v, v.len() - p.len(), v.len());
    chars_eq(&tail, &p)
}

/// Decides [`ascii_upper`].
pub fn to_ascii_upper(c: char) -> (r: char)
    ensures
        r == ascii_upper(c),
{
    if 'a' <= c && c <= 'z' {
        ((c as u8) - 32) as char
    } else {
        c
    }
}

/// Whether `v` begins with the characters of `p`, the case of ASCII
/// letters set aside.
pub fn starts_with_ignore_case(v: &Vec<char>, p: &str) -> (r: bool)
    ensures
        r == has_prefix_ignore_case(v@, p@),
{
    let q: Vec<char> = chars_of(p);
    if q.len() > v.len() {
        return false;
    }
    let mut i: usize = 0;
    while i < q.len()
        invariant
            i <= q.len() <= v.len(),
            q@ == p@,
            forall|j: int| 0 <= j < i ==> ascii_upper(#[trigger] v@[j]) == ascii_upper(q@[j]),
        decreases q.len() - i,
    {
        if to_ascii_upper(v[i]) != to_ascii_upper(q[i]) {
            return false;
        }
        i += 1;
    }
    true
}

/// How often `c` occurs in `v`.
pub fn count_char(v: &Vec<char>, c: char) -> (n: usize)
    ensures
        n == count_of(v@, c),
{
    let mut n: usize = 0;
    let mut i: usize = 0;
    while i < v.len()
        invariant
            i <= v.len(),
            n <= i,
            n == count_of(v@.subrange(0, i as int), c),
        decreases v.len() - i,
    {
        proof {
            lemma_count_of_push(v@.subrange(0, i as int), v@[i as int], c);
            assert(v@.subrange(0, i + 1) == v@.subrange(0, i as int).push(v@[i as int]));
        }
        if v[i] == c {
            n += 1;
        }
        i += 1;
    }
    assert(v@.subrange(0, v.len() as int) == v@);
    n
}

/// The index of the first `c` in `v`, or the length of `v` where it holds none.
pub fn find_char(v: &Vec<char>, c: char) -> (i: usize)
    ensures
        i == index_of(v@, c),
        i <= v.len(),
{
    let mut i: usize = 0;
    while i < v.len() && v[i] != c
        invariant
            i <= v.len(),
            forall|j: int| 0 <= j < i ==> v@[j] != c,
        decreases v.len() - i,
    {
        i += 1;
    }
    proof {
        lemma_index_of(v@, c, i as int);
    }
    i
}

/// The pieces of `v` between the occurrences of the pair `a`, `b`.
pub fn split_pair(v: &Vec<char>, a: char, b: char) -> (r: Vec<Vec<char>>)
    ensures
        rows(r@) == split_on_pair(v@, a, b),
        r.len() >= 1,
{
    let n: usize = v.len();
    let mut r: Vec<Vec<char>> = Vec::new();
    let mut start: usize = 0;
    let mut i: usize = 0;
    assert(v@.subrange(0, n as int) == v@);
    assert(rows(r@) + split_on_pair(v@, a, b) == split_on_pair(v@, a, b));
    while i < n && i + 1 < n
        invariant
            start <= i <= n,
            n == v.len(),
            split_on_pair(v@, a, b) == rows(r@) + split_on_pair(
                v@.subrange(start as int, n as int),
                a,
                b,
            ),
            forall|j: int| start <= j < i ==> !#[trigger] pair_at(v@, j, a, b),
        decreases n - i,
    {
        if v[i] == a && v[i + 1] == b {
            let piece: Vec<char> = subvec(v, start, i);
            proof {
                let rest = v@.subrange(start as int, n as int);
                assert forall|j: int| 0 <= j < i - start implies !#[trigger] pair_at(
                    rest,
                    j,
                    a,
                    b,
                ) by {
                    assert(!pair_at(v@, start + j, a, b));
                }
                assert(pair_at(rest, i - start, a, b));
                lemma_index_of_pair(rest, a, b, i - start);
                assert(rest.subrange(0, i - start) == piece@);
                assert(rest.subrange(i - start + 2, rest.len() as int) == v@.subrange(
                    i + 2,
                    n as int,
                ));
                assert(rows(r@.push(piece)) == rows(r@) + seq![piece@]);
            }
            r.push(piece);
            i += 2;
            start = i;
        } else {
            i += 1;
        }
    }
    let piece: Vec<char> = subvec(v, start, n);
    proof {
        let rest = v@.subrange(start as int, n as int);
        assert forall|j: int| 0 <= j < rest.len() implies !#[trigger] pair_at(rest, j, a, b) by {
            assert(!pair_at(v@, start + j, a, b));
        }
        lemma_index_of_pair(rest, a, b, rest.len() as int);
        assert(rows(r@.push(piece)) == rows(r@) + seq![piece@]);
    }
    r.push(piece);
    r
}

/// The lines of `v`.
pub fn split_lines(v: &Vec<char>) -> (r: Vec<Vec<char>>)
    ensures
        rows(r@) == lines_of(v@),
{
    let n: usize = v.len();
    let mut r: Vec<Vec<char>> = Vec::new();
    let mut start: usize = 0;
    let mut i: usize = 0;
    assert(v@.subrange(0, n as int) == v@);
    assert(rows(r@) + lines_of(v@) == lines_of(v@));
    while i < n
        invariant
            start <= i <= n,
            n == v.len(),
            lines_of(v@) == rows(r@) + lines_of(v@.subrange(start as int, n as int)),
            forall|j: int| start <= j < i ==> v@[j] != '\n',
        decreases n - i,
    {
        if v[i] == '\n' {
            let end: usize = if i > start && v[i - 1] == '\r' {
                (i - 1) as usize
            } else {
                i
            };
            let piece: Vec<char> = subvec(v, start, end);
            proof {
                let rest = v@.subrange(start as int, n as int);
                lemma_index_of(rest, '\n', i - start);
                assert(without_carriage_return(rest.subrange(0, i - start)) == piece@);
                assert(rest.subrange(i - start + 1, rest.len() as int) == v@.subrange(
                    i + 1,
                    n as int,
                ));
                assert(rows(r@.push(piece)) == rows(r@) + seq![piece@]);
            }
            r.push(piece);
            start = i + 1;
        }
        i += 1;
    }
    if start < n {
        let piece: Vec<char> = subvec(v, start, n);
        proof {
            let rest = v@.subrange(start as int, n as int);
            lemma_index_of(rest, '\n', rest.len() as int);
            assert(rows(r@.push(piece)) == rows(r@) + seq![piece@]);
        }
        r.push(piece);
    } else {
        assert(lines_of(v@.subrange(start as int, n as int)) == Seq::<Seq<char>>::empty());
        assert(rows(r@) + Seq::<Seq<char>>::empty() == rows(r@));
    }
    r
}

} // verus!
