//! Scanning a text held as a vector of characters: trimming a range and
//! cutting a range at a separator. Every result is a span of indices into the
//! same vector, so nothing is copied while a document is taken apart.

use crate::model::{
    is_first_occurrence, is_whitespace, leading_whitespace, lemma_first_occurrence_unique, occurs,
    occurs_at, split_on, trailing_whitespace, trim_end, trim_start, trimmed,
};
use vstd::prelude::*;

verus! {

broadcast use vstd::string::group_string_axioms;

/// The characters of a string, in order.
pub fn to_chars(s: &str) -> (chars: Vec<char>)
    ensures
        chars@ == s@,
{
    let mut chars: Vec<char> = Vec::new();
    let source = s.chars();
    for c in it: source
        invariant
            it.seq() == s@,
            chars@ == it.seq().take(it.index()),
    {
        chars.push(c);
    }
    chars
}

/// Whether a character has the Unicode property `White_Space`.
pub fn char_is_whitespace(c: char) -> (b: bool)
    ensures
        b == is_whitespace(c),
{
    ('\u{9}' <= c && c <= '\u{d}')
        || c == ' '
        || c == '\u{85}'
        || c == '\u{a0}'
        || c == '\u{1680}'
        || ('\u{2000}' <= c && c <= '\u{200a}')
        || c == '\u{2028}'
        || c == '\u{2029}'
        || c == '\u{202f}'
        || c == '\u{205f}'
        || c == '\u{3000}'
}

/// Whether the character `c` stands somewhere in `chars`.
pub fn contains_char(chars: &Vec<char>, c: char) -> (found: bool)
    ensures
        found == chars@.contains(c),
{
    let mut i: usize = 0;
    while i < chars.len()
        invariant
            i <= chars.len(),
            forall|j: int| 0 <= j < i ==> chars@[j] != c,
        decreases chars.len() - i,
    {
        if chars[i] == c {
            return true;
        }
        i += 1;
    }
    false
}

/// A range of indices into a vector of characters, `start` included and `end`
/// excluded.
#[derive(Clone, Copy)]
pub struct Span {
    pub start: usize,
    pub end: usize,
}

impl Span {
    /// Whether the span is in order and lies between `lo` and `hi`.
    pub open spec fn within(self, lo: int, hi: int) -> bool {
        lo <= self.start <= self.end <= hi
    }

    /// The characters that the span covers.
    pub open spec fn text(self, chars: Seq<char>) -> Seq<char> {
        chars.subrange(self.start as int, self.end as int)
    }
}

/// The characters that each of `spans` covers.
pub open spec fn texts(chars: Seq<char>, spans: Seq<Span>) -> Seq<Seq<char>> {
    spans.map_values(|span: Span| span.text(chars))
}

/// Whether the separator `d` stands at index `at` of `chars`, where only the
/// characters of `piece` count and `at` is not before its start.
pub fn matches_at(chars: &Vec<char>, piece: Span, at: usize, d: &Vec<char>) -> (found: bool)
    requires
        piece.within(0, chars.len() as int),
        piece.start <= at <= piece.end,
    ensures
        found == occurs_at(piece.text(chars@), d@, at - piece.start),
{
    let ghost part = piece.text(chars@);
    let ghost rel = at - piece.start;
    if piece.end - at < d.len() {
        return false;
    }
    let mut j: usize = 0;
    while j < d.len()
        invariant
            piece.within(0, chars.len() as int),
            piece.start <= at,
            at + d.len() <= piece.end,
            j <= d.len(),
            part == piece.text(chars@),
            rel == at - piece.start,
            forall|k: int| 0 <= k < j ==> chars@[at + k] == d@[k],
        decreases d.len() - j,
    {
        if chars[at + j] != d[j] {
            proof {
                assert(part.subrange(rel, rel + d@.len())[j as int] == chars@[at + j]);
            }
            return false;
        }
        j += 1;
    }
    proof {
        assert(part.subrange(rel, rel + d@.len()) =~= d@);
    }
    true
}

/// The span that is left of `piece` when the whitespace at its two ends is
/// taken off.
pub fn trim_span(chars: &Vec<char>, piece: Span) -> (inner: Span)
    requires
        piece.within(0, chars.len() as int),
    ensures
        inner.within(piece.start as int, piece.end as int),
        inner.text(chars@) == trimmed(piece.text(chars@)),
{
    let ghost whole = piece.text(chars@);
    let mut a: usize = piece.start;
    while a < piece.end && char_is_whitespace(chars[a])
        invariant
            piece.within(0, chars.len() as int),
            piece.start <= a <= piece.end,
            leading_whitespace(whole) == (a - piece.start) + leading_whitespace(
                chars@.subrange(a as int, piece.end as int),
            ),
            whole == piece.text(chars@),
        decreases piece.end - a,
    {
        proof {
            let rest = chars@.subrange(a as int, piece.end as int);
            assert(rest.drop_first() =~= chars@.subrange(a + 1, piece.end as int));
        }
        a += 1;
    }
    let ghost front = chars@.subrange(a as int, piece.end as int);
    assert(front =~= trim_start(whole));
    let mut b: usize = piece.end;
    while a < b && char_is_whitespace(chars[b - 1])
        invariant
            piece.within(0, chars.len() as int),
            a <= b <= piece.end,
            front == chars@.subrange(a as int, piece.end as int),
            trailing_whitespace(front) == (piece.end - b) + trailing_whitespace(
                chars@.subrange(a as int, b as int),
            ),
        decreases b - a,
    {
        proof {
            let rest = chars@.subrange(a as int, b as int);
            assert(rest.drop_last() =~= chars@.subrange(a as int, b - 1));
        }
        b -= 1;
    }
    assert(chars@.subrange(a as int, b as int) =~= trim_end(front));
    Span { start: a, end: b }
}

/// The spans of the pieces into which the separator `d` cuts `piece`.
pub fn split_span(chars: &Vec<char>, piece: Span, d: &Vec<char>) -> (parts: Vec<Span>)
    requires
        piece.within(0, chars.len() as int),
    ensures
        texts(chars@, parts@) == split_on(piece.text(chars@), d@),
        forall|i: int|
            0 <= i < parts.len() ==> (#[trigger] parts[i]).within(
                piece.start as int,
                piece.end as int,
            ),
{
    let ghost whole = piece.text(chars@);
    let mut parts: Vec<Span> = Vec::new();
    if d.len() == 0 {
        parts.push(Span { start: piece.start, end: piece.start });
        let mut k: usize = piece.start;
        while k < piece.end
            invariant
                piece.within(0, chars.len() as int),
                piece.start <= k <= piece.end,
                parts.len() == 1 + (k - piece.start),
                parts[0] == (Span { start: piece.start, end: piece.start }),
                forall|i: int|
                    1 <= i < parts.len() ==> (#[trigger] parts[i]) == (Span {
                        start: (piece.start + i - 1) as usize,
                        end: (piece.start + i) as usize,
                    }),
            decreases piece.end - k,
        {
            parts.push(Span { start: k, end: k + 1 });
            k += 1;
        }
        parts.push(Span { start: piece.end, end: piece.end });
        proof {
            let expected = seq![Seq::<char>::empty()] + Seq::new(
                whole.len(),
                |i: int| seq![whole[i]],
            ) + seq![Seq::<char>::empty()];
            assert(texts(chars@, parts@).len() == expected.len());
            assert forall|i: int| 0 <= i < expected.len() implies texts(chars@, parts@)[i]
                == expected[i] by {
                assert(texts(chars@, parts@)[i] == parts[i].text(chars@));
                assert(parts[i].text(chars@) =~= expected[i]);
            }
            assert(texts(chars@, parts@) =~= expected);
        }
        return parts;
    }
    let mut start: usize = piece.start;
    let mut k: usize = piece.start;
    while piece.end - k >= d.len()
        invariant
            piece.within(0, chars.len() as int),
            d.len() > 0,
            whole == piece.text(chars@),
            piece.start <= start <= k <= piece.end,
            split_on(whole, d@) == texts(chars@, parts@) + split_on(
                chars@.subrange(start as int, piece.end as int),
                d@,
            ),
            forall|j: int|
                0 <= j < k - start ==> !occurs_at(
                    chars@.subrange(start as int, piece.end as int),
                    d@,
                    j,
                ),
            forall|i: int|
                0 <= i < parts.len() ==> (#[trigger] parts[i]).within(
                    piece.start as int,
                    piece.end as int,
                ),
        decreases piece.end - k,
    {
        let rest = Span { start, end: piece.end };
        if matches_at(chars, rest, k, d) {
            proof {
                let tail = rest.text(chars@);
                assert(is_first_occurrence(tail, d@, k - start));
                lemma_first_occurrence_unique(tail, d@, k - start);
                assert(tail.subrange(0, k - start) =~= chars@.subrange(start as int, k as int));
                assert(tail.subrange(k - start + d@.len(), tail.len() as int) =~= chars@.subrange(
                    k + d@.len(),
                    piece.end as int,
                ));
                assert(texts(chars@, parts@.push(Span { start, end: k })) =~= texts(
                    chars@,
                    parts@,
                ) + seq![chars@.subrange(start as int, k as int)]);
                assert(split_on(whole, d@) =~= texts(chars@, parts@.push(Span { start, end: k }))
                    + split_on(chars@.subrange(k + d@.len(), piece.end as int), d@));
            }
            parts.push(Span { start, end: k });
            k += d.len();
            start = k;
        } else {
            k += 1;
        }
    }
    proof {
        let tail = chars@.subrange(start as int, piece.end as int);
        assert(!occurs(tail, d@));
        assert(texts(chars@, parts@.push(Span { start, end: piece.end })) =~= texts(
            chars@,
            parts@,
        ) + seq![tail]);
    }
    parts.push(Span { start, end: piece.end });
    parts
}

} // verus!
