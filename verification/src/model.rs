//! The mathematical model: what trimming and splitting mean on sequences of
//! characters, and what the blocks of a document are.

use vstd::prelude::*;

verus! {

/// The separator between two lines: `"\r\n"` for a document with carriage
/// returns, `"\n"` for one without.
pub open spec fn line_break(crlf: bool) -> Seq<char> {
    if crlf {
        seq!['\r', '\n']
    } else {
        seq!['\n']
    }
}

/// Characters with the Unicode property `White_Space`.
pub open spec fn is_whitespace(c: char) -> bool {
    ||| '\u{9}' <= c <= '\u{d}'
    ||| c == ' '
    ||| c == '\u{85}'
    ||| c == '\u{a0}'
    ||| c == '\u{1680}'
    ||| '\u{2000}' <= c <= '\u{200a}'
    ||| c == '\u{2028}'
    ||| c == '\u{2029}'
    ||| c == '\u{202f}'
    ||| c == '\u{205f}'
    ||| c == '\u{3000}'
}

/// The number of whitespace characters at the start of `s`.
pub open spec fn leading_whitespace(s: Seq<char>) -> nat
    decreases s.len(),
{
    if s.len() > 0 && is_whitespace(s.first()) {
        1 + leading_whitespace(s.drop_first())
    } else {
        0
    }
}

/// The number of whitespace characters at the end of `s`.
pub open spec fn trailing_whitespace(s: Seq<char>) -> nat
    decreases s.len(),
{
    if s.len() > 0 && is_whitespace(s.last()) {
        1 + trailing_whitespace(s.drop_last())
    } else {
        0
    }
}

/// `s` without its leading whitespace.
pub open spec fn trim_start(s: Seq<char>) -> Seq<char> {
    s.skip(leading_whitespace(s) as int)
}

/// `s` without its trailing whitespace.
pub open spec fn trim_end(s: Seq<char>) -> Seq<char> {
    s.take(s.len() - trailing_whitespace(s))
}

/// `s` without its leading and trailing whitespace.
pub open spec fn trimmed(s: Seq<char>) -> Seq<char> {
    trim_end(trim_start(s))
}

/// Whether `d` stands in `s` at index `i`.
pub open spec fn occurs_at(s: Seq<char>, d: Seq<char>, i: int) -> bool {
    0 <= i <= s.len() - d.len() && s.subrange(i, i + d.len()) == d
}

/// Whether `d` stands somewhere in `s`.
pub open spec fn occurs(s: Seq<char>, d: Seq<char>) -> bool {
    exists|i: int| occurs_at(s, d, i)
}

/// Whether `i` is the leftmost index at which `d` stands in `s`.
pub open spec fn is_first_occurrence(s: Seq<char>, d: Seq<char>, i: int) -> bool {
    occurs_at(s, d, i) && forall|j: int| 0 <= j < i ==> !occurs_at(s, d, j)
}

/// The leftmost index at which `d` stands in `s`, where it stands in `s` at all.
pub open spec fn first_occurrence(s: Seq<char>, d: Seq<char>) -> int
    recommends
        occurs(s, d),
{
    choose|i: int| is_first_occurrence(s, d, i)
}

/// The pieces of `s` between the occurrences of the separator `d`, taken from
/// left to right without overlap. A string in which `d` does not occur is one
/// piece. The empty separator stands before, between and after all characters:
/// the pieces are then an empty one, every character by itself, and an empty
/// one again.
pub open spec fn split_on(s: Seq<char>, d: Seq<char>) -> Seq<Seq<char>>
    decreases s.len(),
    via split_on_decreases
{
    if d.len() == 0 {
        seq![Seq::empty()] + Seq::new(s.len(), |i: int| seq![s[i]]) + seq![Seq::empty()]
    } else if occurs(s, d) {
        let i = first_occurrence(s, d);
        seq![s.subrange(0, i)] + split_on(s.subrange(i + d.len(), s.len() as int), d)
    } else {
        seq![s]
    }
}

#[via_fn]
proof fn split_on_decreases(s: Seq<char>, d: Seq<char>) {
    if d.len() != 0 && occurs(s, d) {
        lemma_first_occurrence(s, d);
    }
}

/// The pieces put together again, with the separator `d` between every two
/// neighbours.
pub open spec fn join(parts: Seq<Seq<char>>, d: Seq<char>) -> Seq<char>
    decreases parts.len(),
{
    if parts.len() == 0 {
        Seq::empty()
    } else if parts.len() == 1 {
        parts[0]
    } else {
        parts[0] + d + join(parts.drop_first(), d)
    }
}

/// The lines of one block: its text is trimmed and cut at the line separator.
pub open spec fn lines_of(segment: Seq<char>, line_separator: Seq<char>) -> Seq<Seq<char>> {
    split_on(trimmed(segment), line_separator)
}

/// The blocks of a document for a given pair of separators. The document is
/// trimmed; if nothing is left there is no block. Otherwise it is cut at the
/// block separator, and every piece gives the lines of one block.
pub open spec fn blocks_of(
    doc: Seq<char>,
    line_separator: Seq<char>,
    block_separator: Seq<char>,
) -> Seq<Seq<Seq<char>>> {
    let body = trimmed(doc);
    if body.len() == 0 {
        Seq::empty()
    } else {
        split_on(body, block_separator).map_values(
            |segment: Seq<char>| lines_of(segment, line_separator),
        )
    }
}

/// Where `d` stands in `s`, it has a leftmost occurrence, and
/// `first_occurrence` is that one.
pub proof fn lemma_first_occurrence(s: Seq<char>, d: Seq<char>)
    requires
        occurs(s, d),
    ensures
        is_first_occurrence(s, d, first_occurrence(s, d)),
{
    let i = choose|i: int| occurs_at(s, d, i);
    lemma_least_occurrence(s, d, i);
}

proof fn lemma_least_occurrence(s: Seq<char>, d: Seq<char>, i: int)
    requires
        occurs_at(s, d, i),
    ensures
        is_first_occurrence(s, d, first_occurrence(s, d)),
    decreases i,
{
    if exists|j: int| 0 <= j < i && occurs_at(s, d, j) {
        let j = choose|j: int| 0 <= j < i && occurs_at(s, d, j);
        lemma_least_occurrence(s, d, j);
    } else {
        assert(is_first_occurrence(s, d, i));
    }
}

/// A leftmost occurrence is the only one.
pub proof fn lemma_first_occurrence_unique(s: Seq<char>, d: Seq<char>, i: int)
    requires
        is_first_occurrence(s, d, i),
    ensures
        occurs(s, d),
        first_occurrence(s, d) == i,
{
    lemma_first_occurrence(s, d);
    let k = first_occurrence(s, d);
    if k < i {
        assert(!occurs_at(s, d, k));
    } else if i < k {
        assert(!occurs_at(s, d, i));
    }
}

} // verus!
