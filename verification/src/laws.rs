//! Laws of the model and of the three operations, proved once and for all
//! documents.

use crate::blocks::{
    document_blocks, yields, yields_block, yields_blocks, yields_document, yields_lines,
};
use crate::delimiter::BlockDelimiter;
use crate::model::{
    first_occurrence, is_whitespace, join, leading_whitespace, lemma_first_occurrence, line_break,
    lines_of, occurs, occurs_at, split_on, trailing_whitespace, trim_start, trimmed,
};
use vstd::prelude::*;

verus! {

/// The leading whitespace of a text is whitespace, it is no longer than the
/// text, and the character after it, if there is one, is no whitespace.
pub proof fn lemma_leading_whitespace(s: Seq<char>)
    ensures
        leading_whitespace(s) <= s.len(),
        forall|i: int| 0 <= i < leading_whitespace(s) ==> is_whitespace(#[trigger] s[i]),
        leading_whitespace(s) < s.len() ==> !is_whitespace(s[leading_whitespace(s) as int]),
    decreases s.len(),
{
    if s.len() > 0 && is_whitespace(s.first()) {
        let rest = s.drop_first();
        lemma_leading_whitespace(rest);
        assert forall|i: int| 0 <= i < leading_whitespace(s) implies is_whitespace(
            #[trigger] s[i],
        ) by {
            if i > 0 {
                assert(s[i] == rest[i - 1]);
            }
        }
        if leading_whitespace(s) < s.len() {
            assert(s[leading_whitespace(s) as int] == rest[leading_whitespace(rest) as int]);
        }
    }
}

/// The trailing whitespace of a text is whitespace, it is no longer than the
/// text, and the character before it, if there is one, is no whitespace.
pub proof fn lemma_trailing_whitespace(s: Seq<char>)
    ensures
        trailing_whitespace(s) <= s.len(),
        forall|i: int|
            s.len() - trailing_whitespace(s) <= i < s.len() ==> is_whitespace(#[trigger] s[i]),
        trailing_whitespace(s) < s.len() ==> !is_whitespace(
            s[s.len() - trailing_whitespace(s) - 1],
        ),
    decreases s.len(),
{
    if s.len() > 0 && is_whitespace(s.last()) {
        let rest = s.drop_last();
        lemma_trailing_whitespace(rest);
        assert forall|i: int|
            s.len() - trailing_whitespace(s) <= i < s.len() implies is_whitespace(
            #[trigger] s[i],
        ) by {
            if i < s.len() - 1 {
                assert(s[i] == rest[i]);
            }
        }
        if trailing_whitespace(s) < s.len() {
            assert(s[s.len() - trailing_whitespace(s) - 1] == rest[rest.len() - trailing_whitespace(
                rest,
            ) - 1]);
        }
    }
}

/// A text of whitespace alone has nothing but leading whitespace.
pub proof fn lemma_all_whitespace(s: Seq<char>)
    requires
        forall|i: int| 0 <= i < s.len() ==> is_whitespace(#[trigger] s[i]),
    ensures
        leading_whitespace(s) == s.len(),
        trimmed(s).len() == 0,
{
    lemma_leading_whitespace(s);
    if leading_whitespace(s) < s.len() {
        assert(is_whitespace(s[leading_whitespace(s) as int]));
    }
}

/// A trimmed text is a range of the text it was made from, and it neither
/// starts nor ends with whitespace.
pub proof fn lemma_trimmed_is_range(s: Seq<char>) -> (range: (int, int))
    ensures
        0 <= range.0 <= range.1 <= s.len(),
        trimmed(s) == s.subrange(range.0, range.1),
        trimmed(s).len() > 0 ==> !is_whitespace(trimmed(s).first()) && !is_whitespace(
            trimmed(s).last(),
        ),
{
    lemma_leading_whitespace(s);
    let front = trim_start(s);
    lemma_trailing_whitespace(front);
    let lo = leading_whitespace(s) as int;
    let hi = s.len() - trailing_whitespace(front);
    assert(trimmed(s) =~= s.subrange(lo, hi));
    (lo, hi)
}

/// Trimming a trimmed text changes nothing.
pub proof fn lemma_trimmed_twice(s: Seq<char>)
    ensures
        trimmed(trimmed(s)) == trimmed(s),
{
    let t = trimmed(s);
    lemma_trimmed_is_range(s);
    if t.len() > 0 {
        assert(leading_whitespace(t) == 0);
        assert(trim_start(t) =~= t);
        assert(trailing_whitespace(t) == 0);
    } else {
        assert(leading_whitespace(t) == 0);
        assert(trim_start(t) =~= t);
        assert(trailing_whitespace(t) == 0);
    }
    assert(trimmed(t) =~= t);
}

/// A document of whitespace alone, the empty document among them, has no
/// blocks.
pub proof fn lemma_blank_document_has_no_blocks(doc: Seq<char>, delimiter: BlockDelimiter)
    requires
        delimiter.is_supported(),
        forall|i: int| 0 <= i < doc.len() ==> is_whitespace(#[trigger] doc[i]),
    ensures
        document_blocks(doc, delimiter).len() == 0,
{
    lemma_all_whitespace(doc);
}

/// A document that holds more than whitespace and in which the block
/// separator does not occur is one block, and the lines of that block are the
/// lines of the trimmed document.
pub proof fn lemma_document_without_separator_is_one_block(
    doc: Seq<char>,
    delimiter: BlockDelimiter,
)
    requires
        delimiter.is_supported(),
        trimmed(doc).len() > 0,
        !occurs(doc, delimiter.block_break(doc.contains('\r'))),
    ensures
        document_blocks(doc, delimiter) == seq![
            split_on(trimmed(doc), line_break(doc.contains('\r'))),
        ],
{
    let crlf = doc.contains('\r');
    let d = delimiter.block_break(crlf);
    let body = trimmed(doc);
    if d.len() == 0 {
        assert(doc.subrange(0, 0) =~= d);
        assert(occurs_at(doc, d, 0));
    }
    let range = lemma_trimmed_is_range(doc);
    if occurs(body, d) {
        let i = choose|i: int| occurs_at(body, d, i);
        assert(doc.subrange(range.0 + i, range.0 + i + d.len()) =~= body.subrange(i, i + d.len()));
        assert(occurs_at(doc, d, range.0 + i));
    }
    lemma_trimmed_twice(doc);
    assert(split_on(body, d) == seq![body]);
    assert(document_blocks(doc, delimiter) =~= seq![split_on(body, line_break(crlf))]);
}

/// Splitting gives at least one piece.
pub proof fn lemma_split_is_not_empty(s: Seq<char>, d: Seq<char>)
    ensures
        split_on(s, d).len() >= 1,
{
    if d.len() != 0 && occurs(s, d) {
        lemma_first_occurrence(s, d);
    }
}

proof fn lemma_join_characters(s: Seq<char>)
    ensures
        join(Seq::new(s.len(), |i: int| seq![s[i]]) + seq![Seq::<char>::empty()], Seq::empty())
            == s,
    decreases s.len(),
{
    let e = Seq::<char>::empty();
    let parts = Seq::new(s.len(), |i: int| seq![s[i]]) + seq![e];
    if s.len() == 0 {
        assert(parts[0] =~= s);
    } else {
        let rest = s.drop_first();
        lemma_join_characters(rest);
        assert(parts.drop_first() =~= Seq::new(rest.len(), |i: int| seq![rest[i]]) + seq![e]);
        assert(parts[0] + e + rest =~= s);
    }
}

/// Joining the pieces of a split with the separator gives the text back.
pub proof fn lemma_join_split(s: Seq<char>, d: Seq<char>)
    ensures
        join(split_on(s, d), d) == s,
    decreases s.len(),
{
    let parts = split_on(s, d);
    if d.len() == 0 {
        let e = Seq::<char>::empty();
        let singles = Seq::new(s.len(), |i: int| seq![s[i]]);
        lemma_join_characters(s);
        assert(parts.drop_first() =~= singles + seq![e]);
        assert(parts[0] + d + s =~= s);
    } else if occurs(s, d) {
        lemma_first_occurrence(s, d);
        let i = first_occurrence(s, d);
        let rest = s.subrange(i + d.len(), s.len() as int);
        lemma_join_split(rest, d);
        lemma_split_is_not_empty(rest, d);
        assert(parts.drop_first() =~= split_on(rest, d));
        assert(s.subrange(0, i) + d + rest =~= s);
    } else {
    }
}

/// The text of a document as its blocks spell it: the lines of every block
/// joined by the line separator, and the blocks joined by the block
/// separator.
pub open spec fn rejoined(
    blocks: Seq<Seq<Seq<char>>>,
    line_separator: Seq<char>,
    block_separator: Seq<char>,
) -> Seq<char> {
    join(blocks.map_values(|lines: Seq<Seq<char>>| join(lines, line_separator)), block_separator)
}

/// The trimmed document with every piece between two block separators
/// trimmed as well.
pub open spec fn normalized(doc: Seq<char>, block_separator: Seq<char>) -> Seq<char> {
    join(
        split_on(trimmed(doc), block_separator).map_values(|segment: Seq<char>| trimmed(segment)),
        block_separator,
    )
}

/// Putting the lines and blocks of a document together again gives the
/// trimmed document, but for the whitespace that was taken off at the two ends
/// of every block. Without that trimming the pieces give the trimmed document
/// exactly.
pub proof fn lemma_blocks_round_trip(doc: Seq<char>, delimiter: BlockDelimiter)
    requires
        delimiter.is_supported(),
    ensures
        rejoined(
            document_blocks(doc, delimiter),
            line_break(doc.contains('\r')),
            delimiter.block_break(doc.contains('\r')),
        ) == normalized(doc, delimiter.block_break(doc.contains('\r'))),
        join(
            split_on(trimmed(doc), delimiter.block_break(doc.contains('\r'))),
            delimiter.block_break(doc.contains('\r')),
        ) == trimmed(doc),
{
    let crlf = doc.contains('\r');
    let ls = line_break(crlf);
    let bs = delimiter.block_break(crlf);
    let body = trimmed(doc);
    let segments = split_on(body, bs);
    let blocks = document_blocks(doc, delimiter);
    lemma_join_split(body, bs);
    let spelled = blocks.map_values(|lines: Seq<Seq<char>>| join(lines, ls));
    let trimmed_segments = segments.map_values(|segment: Seq<char>| trimmed(segment));
    if body.len() == 0 {
        lemma_normalized_empty(bs);
        assert(body =~= Seq::empty());
        assert(spelled =~= Seq::empty());
    } else {
        assert(spelled.len() == segments.len());
        assert forall|b: int| 0 <= b < segments.len() implies spelled[b] == trimmed_segments[b] by {
            lemma_join_split(trimmed(segments[b]), ls);
        }
        assert(spelled =~= trimmed_segments);
    }
}

proof fn lemma_normalized_empty(d: Seq<char>)
    ensures
        join(
            split_on(Seq::empty(), d).map_values(|segment: Seq<char>| trimmed(segment)),
            d,
        ) == Seq::<char>::empty(),
{
    let e = Seq::<char>::empty();
    let pieces = split_on(e, d).map_values(|segment: Seq<char>| trimmed(segment));
    assert(trimmed(e) =~= e);
    if d.len() > 0 {
        if occurs(e, d) {
            let i = choose|i: int| occurs_at(e, d, i);
        }
        assert(pieces =~= seq![e]);
    } else {
        assert(split_on(e, d) =~= seq![e, e]);
        assert(pieces =~= seq![e, e]);
        assert(pieces.drop_first() =~= seq![e]);
        assert(join(pieces.drop_first(), d) == e);
        assert(pieces[0] + d + e =~= e);
    }
}

/// Whether `d` is made of whitespace alone.
pub open spec fn is_blank(d: Seq<char>) -> bool {
    forall|i: int| 0 <= i < d.len() ==> is_whitespace(#[trigger] d[i])
}

/// Where a text does not start with whitespace and the separator is
/// whitespace, the first piece of the split starts as the text does.
pub proof fn lemma_first_piece_is_not_empty(s: Seq<char>, d: Seq<char>)
    requires
        s.len() > 0,
        !is_whitespace(s.first()),
        d.len() > 0,
        is_blank(d),
    ensures
        split_on(s, d).first().len() > 0,
        split_on(s, d).first().first() == s.first(),
{
    if occurs(s, d) {
        lemma_first_occurrence(s, d);
        let i = first_occurrence(s, d);
        assert(occurs_at(s, d, i));
        assert(s.subrange(i, i + d.len())[0] == s[i]);
        assert(is_whitespace(d[0]));
        assert(split_on(s, d).first() =~= s.subrange(0, i));
    }
}

/// Where a text does not end with whitespace and the separator is
/// whitespace, the last piece of the split ends as the text does.
pub proof fn lemma_last_piece_is_not_empty(s: Seq<char>, d: Seq<char>)
    requires
        s.len() > 0,
        !is_whitespace(s.last()),
        d.len() > 0,
        is_blank(d),
    ensures
        split_on(s, d).last().len() > 0,
        split_on(s, d).last().last() == s.last(),
    decreases s.len(),
{
    if occurs(s, d) {
        lemma_first_occurrence(s, d);
        let i = first_occurrence(s, d);
        assert(occurs_at(s, d, i));
        let rest = s.subrange(i + d.len(), s.len() as int);
        assert(s.subrange(i, i + d.len())[d.len() - 1] == s[i + d.len() - 1]);
        assert(is_whitespace(d[d.len() - 1]));
        assert(i + d.len() < s.len());
        lemma_last_piece_is_not_empty(rest, d);
        lemma_split_is_not_empty(rest, d);
        assert(split_on(s, d).last() == split_on(rest, d).last());
    }
}

/// With a block separator of whitespace, as the blank line is, neither the
/// first nor the last block of a document is a single empty line: a separator
/// at the very start or end of the document makes no block.
pub proof fn lemma_outer_blocks_are_not_blank(doc: Seq<char>, delimiter: BlockDelimiter)
    requires
        delimiter.is_supported(),
        trimmed(doc).len() > 0,
        delimiter.block_break(doc.contains('\r')).len() > 0,
        is_blank(delimiter.block_break(doc.contains('\r'))),
    ensures
        document_blocks(doc, delimiter).len() > 0,
        document_blocks(doc, delimiter).first() != seq![Seq::<char>::empty()],
        document_blocks(doc, delimiter).last() != seq![Seq::<char>::empty()],
{
    let crlf = doc.contains('\r');
    let ls = line_break(crlf);
    let bs = delimiter.block_break(crlf);
    let body = trimmed(doc);
    let segments = split_on(body, bs);
    let blocks = document_blocks(doc, delimiter);
    let empty_line = seq![Seq::<char>::empty()];
    lemma_trimmed_is_range(doc);
    lemma_first_piece_is_not_empty(body, bs);
    lemma_last_piece_is_not_empty(body, bs);
    lemma_split_is_not_empty(body, bs);
    assert(!is_whitespace(segments.first()[0]));
    assert(!is_whitespace(segments.last()[segments.last().len() - 1]));
    assert(blocks.first() == lines_of(segments.first(), ls));
    assert(blocks.last() == lines_of(segments.last(), ls));
    assert(join(empty_line, ls) =~= Seq::<char>::empty());
    lemma_trimmed_keeps_text(segments.first());
    lemma_join_split(trimmed(segments.first()), ls);
    lemma_trimmed_keeps_text(segments.last());
    lemma_join_split(trimmed(segments.last()), ls);
}

/// A text that holds more than whitespace is not trimmed to nothing.
pub proof fn lemma_trimmed_keeps_text(s: Seq<char>)
    requires
        exists|i: int| 0 <= i < s.len() && !is_whitespace(s[i]),
    ensures
        trimmed(s).len() > 0,
{
    let i = choose|i: int| 0 <= i < s.len() && !is_whitespace(s[i]);
    lemma_leading_whitespace(s);
    let front = trim_start(s);
    let lead = leading_whitespace(s) as int;
    if i < lead {
        assert(is_whitespace(s[i]));
    }
    lemma_trailing_whitespace(front);
    assert(front[i - lead] == s[i]);
    if i - lead >= front.len() - trailing_whitespace(front) {
        assert(is_whitespace(front[i - lead]));
    }
}

/// No piece of a split holds the separator.
pub proof fn lemma_pieces_hold_no_separator(s: Seq<char>, d: Seq<char>)
    requires
        d.len() > 0,
    ensures
        forall|k: int| 0 <= k < split_on(s, d).len() ==> !occurs(#[trigger] split_on(s, d)[k], d),
    decreases s.len(),
{
    if occurs(s, d) {
        lemma_first_occurrence(s, d);
        let i = first_occurrence(s, d);
        let head = s.subrange(0, i);
        let rest = s.subrange(i + d.len(), s.len() as int);
        lemma_pieces_hold_no_separator(rest, d);
        if occurs(head, d) {
            let j = choose|j: int| occurs_at(head, d, j);
            assert(s.subrange(j, j + d.len()) =~= head.subrange(j, j + d.len()));
            assert(occurs_at(s, d, j));
        }
        assert forall|k: int| 0 <= k < split_on(s, d).len() implies !occurs(
            #[trigger] split_on(s, d)[k],
            d,
        ) by {
            if k > 0 {
                assert(split_on(s, d)[k] == split_on(rest, d)[k - 1]);
            }
        }
    }
}

/// Where the separator stands neither at the start nor at the end of a text
/// that is not empty, nor twice in a row anywhere in it, no piece of the split
/// is empty.
pub proof fn lemma_pieces_are_not_empty(s: Seq<char>, d: Seq<char>)
    requires
        d.len() > 0,
        s.len() > 0,
        !occurs_at(s, d, 0),
        !occurs_at(s, d, s.len() - d.len()),
        !occurs(s, d + d),
    ensures
        forall|k: int| 0 <= k < split_on(s, d).len() ==> (#[trigger] split_on(s, d)[k]).len() > 0,
    decreases s.len(),
{
    if occurs(s, d) {
        lemma_first_occurrence(s, d);
        let i = first_occurrence(s, d);
        let rest = s.subrange(i + d.len(), s.len() as int);
        assert(occurs_at(s, d, i));
        assert(rest.len() > 0);
        if occurs_at(rest, d, 0) {
            assert(s.subrange(i, i + 2 * d.len()) =~= s.subrange(i, i + d.len()) + rest.subrange(
                0,
                d.len() as int,
            ));
            assert(occurs_at(s, d + d, i));
        }
        if occurs_at(rest, d, rest.len() - d.len()) {
            assert(s.subrange(s.len() - d.len(), s.len() as int) =~= rest.subrange(
                rest.len() - d.len(),
                rest.len() as int,
            ));
        }
        if occurs(rest, d + d) {
            let j = choose|j: int| occurs_at(rest, d + d, j);
            assert(s.subrange(i + d.len() + j, i + d.len() + j + 2 * d.len()) =~= rest.subrange(
                j,
                j + 2 * d.len(),
            ));
            assert(occurs_at(s, d + d, i + d.len() + j));
        }
        lemma_pieces_are_not_empty(rest, d);
        assert forall|k: int| 0 <= k < split_on(s, d).len() implies (#[trigger] split_on(
            s,
            d,
        )[k]).len() > 0 by {
            if k > 0 {
                assert(split_on(s, d)[k] == split_on(rest, d)[k - 1]);
            }
        }
    }
}

/// Under the blank-line delimiter a block is a run of lines that are not
/// empty: the one exception is the block that is a single empty line, which
/// stands between two blank lines in a row.
pub proof fn lemma_blank_line_blocks_hold_no_empty_line(doc: Seq<char>, b: int, l: int)
    requires
        0 <= b < document_blocks(doc, BlockDelimiter::DoubleLineGeneric).len(),
        0 <= l < document_blocks(doc, BlockDelimiter::DoubleLineGeneric)[b].len(),
    ensures
        document_blocks(doc, BlockDelimiter::DoubleLineGeneric)[b] == seq![Seq::<char>::empty()]
            || document_blocks(doc, BlockDelimiter::DoubleLineGeneric)[b][l].len() > 0,
{
    let crlf = doc.contains('\r');
    let ls = line_break(crlf);
    let bs = BlockDelimiter::DoubleLineGeneric.block_break(crlf);
    let segments = split_on(trimmed(doc), bs);
    let segment = segments[b];
    let t = trimmed(segment);
    let block = document_blocks(doc, BlockDelimiter::DoubleLineGeneric)[b];
    assert(block == split_on(t, ls));
    assert(ls.len() > 0);
    assert(bs =~= ls + ls);
    if t.len() == 0 {
        assert(t =~= Seq::<char>::empty());
        assert(!occurs(t, ls));
    } else {
        let range = lemma_trimmed_is_range(segment);
        assert(is_whitespace(ls[0]) && is_whitespace(ls[ls.len() - 1]));
        if occurs_at(t, ls, 0) {
            assert(t.subrange(0, ls.len() as int)[0] == t[0]);
        }
        if occurs_at(t, ls, t.len() - ls.len()) {
            assert(t.subrange(t.len() - ls.len(), t.len() as int)[ls.len() - 1] == t[t.len() - 1]);
        }
        lemma_pieces_hold_no_separator(trimmed(doc), bs);
        if occurs(t, ls + ls) {
            let j = choose|j: int| occurs_at(t, ls + ls, j);
            assert(segment.subrange(range.0 + j, range.0 + j + bs.len()) =~= t.subrange(
                j,
                j + bs.len(),
            ));
            assert(occurs_at(segment, bs, range.0 + j));
        }
        lemma_pieces_are_not_empty(t, ls);
    }
}

/// Whether every result of the line parser `f` is its line, as a `String`.
pub open spec fn keeps_line<F: Fn(&str) -> String>(f: F) -> bool {
    forall|s: &str, out: String| #[trigger] call_ensures(f, (s,), out) ==> out@ == s@
}

/// Whether every result of the block parser `g` holds what it was given.
pub open spec fn keeps_block<G: Fn(Vec<String>) -> Vec<String>>(g: G) -> bool {
    forall|values: Vec<String>, out: Vec<String>| #[trigger]
        call_ensures(g, (values,), out) ==> out@ == values@
}

/// With a line parser that returns its line, `block_parse_lines` gives the
/// blocks that `as_blocks` gives: here `lines` stands for any result of
/// `as_blocks` and `parsed` for any result of `block_parse_lines` on the same
/// document and delimiter.
pub proof fn lemma_parse_lines_with_identity<F: Fn(&str) -> String>(
    doc: Seq<char>,
    delimiter: BlockDelimiter,
    f: F,
    lines: Vec<Vec<&str>>,
    parsed: Vec<Vec<String>>,
)
    requires
        delimiter.is_supported(),
        keeps_line(f),
        lines.deep_view() == document_blocks(doc, delimiter),
        yields_document(f, document_blocks(doc, delimiter), parsed@),
    ensures
        parsed.deep_view() == lines.deep_view(),
{
    let blocks = document_blocks(doc, delimiter);
    assert forall|b: int| 0 <= b < blocks.len() implies parsed.deep_view()[b] == blocks[b] by {
        assert(yields_lines(f, blocks[b], parsed[b]@));
        assert forall|l: int| 0 <= l < blocks[b].len() implies parsed[b].deep_view()[l]
            == blocks[b][l] by {
            assert(yields(f, blocks[b][l], parsed[b]@[l]));
        }
        assert(parsed[b].deep_view() =~= blocks[b]);
    }
    assert(parsed.deep_view() =~= blocks);
}

/// With a line parser that returns its line and a block parser that returns
/// what it was given, `block_parse` gives the blocks that `as_blocks` gives:
/// here `lines` stands for any result of `as_blocks` and `parsed` for any
/// result of `block_parse` on the same document and delimiter.
pub proof fn lemma_parse_with_identities<F: Fn(&str) -> String, G: Fn(Vec<String>) -> Vec<String>>(
    doc: Seq<char>,
    delimiter: BlockDelimiter,
    f: F,
    g: G,
    lines: Vec<Vec<&str>>,
    parsed: Vec<Vec<String>>,
)
    requires
        delimiter.is_supported(),
        keeps_line(f),
        keeps_block(g),
        lines.deep_view() == document_blocks(doc, delimiter),
        yields_blocks(f, g, document_blocks(doc, delimiter), parsed@),
    ensures
        parsed.deep_view() == lines.deep_view(),
{
    let blocks = document_blocks(doc, delimiter);
    assert forall|b: int| 0 <= b < blocks.len() implies parsed.deep_view()[b] == blocks[b] by {
        assert(yields_block(f, g, blocks[b], parsed[b]));
        let values = choose|values: Vec<String>|
            yields_lines(f, blocks[b], values@) && call_ensures(g, (values,), parsed[b]);
        assert forall|l: int| 0 <= l < blocks[b].len() implies parsed[b].deep_view()[l]
            == blocks[b][l] by {
            assert(yields(f, blocks[b][l], values@[l]));
        }
        assert(parsed[b].deep_view() =~= blocks[b]);
    }
    assert(parsed.deep_view() =~= blocks);
}

} // verus!
