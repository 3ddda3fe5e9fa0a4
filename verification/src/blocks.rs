//! The three operations on a document: its blocks as lines, its lines parsed,
//! and its blocks parsed.

use crate::delimiter::{delimiters, BlockDelimiter};
use crate::model::{blocks_of, line_break, lines_of};
use crate::scan::{contains_char, split_span, texts, to_chars, trim_span, Span};
use crate::text::Text;
use vstd::prelude::*;

verus! {

/// The blocks of a document under a block delimiter: the line separator
/// follows from whether the document holds a carriage return, and so does the
/// blank line that `DoubleLineGeneric` stands for.
pub open spec fn document_blocks(doc: Seq<char>, delimiter: BlockDelimiter) -> Seq<
    Seq<Seq<char>>,
>
    recommends
        delimiter.is_supported(),
{
    let crlf = doc.contains('\r');
    blocks_of(doc, line_break(crlf), delimiter.block_break(crlf))
}

/// The characters that the spans of every block cover.
pub open spec fn block_texts(chars: Seq<char>, blocks: Seq<Vec<Span>>) -> Seq<Seq<Seq<char>>> {
    blocks.map_values(|lines: Vec<Span>| texts(chars, lines@))
}

/// Whether every span of every block lies within the first `len` characters.
pub open spec fn spans_within(blocks: Seq<Vec<Span>>, len: int) -> bool {
    forall|b: int, l: int|
        0 <= b < blocks.len() && 0 <= l < blocks[b].len() ==> (#[trigger] blocks[b]@[l]).within(
            0,
            len,
        )
}

/// The spans of the lines of every block of `chars`, for a given pair of
/// separators.
pub fn block_spans(
    chars: &Vec<char>,
    line_separator: &Vec<char>,
    block_separator: &Vec<char>,
) -> (blocks: Vec<Vec<Span>>)
    ensures
        block_texts(chars@, blocks@) == blocks_of(chars@, line_separator@, block_separator@),
        spans_within(blocks@, chars.len() as int),
{
    let whole = Span { start: 0, end: chars.len() };
    assert(whole.text(chars@) =~= chars@);
    let body = trim_span(chars, whole);
    let mut blocks: Vec<Vec<Span>> = Vec::new();
    if body.start == body.end {
        assert(block_texts(chars@, blocks@) =~= blocks_of(
            chars@,
            line_separator@,
            block_separator@,
        ));
        return blocks;
    }
    let segments = split_span(chars, body, block_separator);
    let mut b: usize = 0;
    while b < segments.len()
        invariant
            b <= segments.len(),
            blocks.len() == b,
            body.within(0, chars.len() as int),
            forall|i: int|
                0 <= i < segments.len() ==> (#[trigger] segments[i]).within(
                    body.start as int,
                    body.end as int,
                ),
            forall|i: int|
                0 <= i < b ==> texts(chars@, (#[trigger] blocks[i])@) == lines_of(
                    segments[i].text(chars@),
                    line_separator@,
                ),
            spans_within(blocks@, chars.len() as int),
        decreases segments.len() - b,
    {
        let inner = trim_span(chars, segments[b]);
        let lines = split_span(chars, inner, line_separator);
        blocks.push(lines);
        b += 1;
    }
    proof {
        let pieces = texts(chars@, segments@);
        let expected = blocks_of(chars@, line_separator@, block_separator@);
        assert(expected.len() == blocks.len());
        assert forall|i: int| 0 <= i < blocks.len() implies block_texts(chars@, blocks@)[i]
            == expected[i] by {
            assert(pieces[i] == segments[i].text(chars@));
        }
        assert(block_texts(chars@, blocks@) =~= expected);
    }
    blocks
}

/// The spans of the lines of every block of a document.
pub fn layout(text: &Text, block_delimiter: &BlockDelimiter) -> (blocks: Vec<Vec<Span>>)
    requires
        block_delimiter.is_supported(),
    ensures
        block_texts(text@, blocks@) == document_blocks(text@, *block_delimiter),
        spans_within(blocks@, text@.len() as int),
{
    let chars = text.chars();
    let crlf = contains_char(chars, '\r');
    let separators = delimiters(crlf, block_delimiter);
    let line_separator = to_chars(separators.0.as_str());
    let block_separator = to_chars(separators.1.as_str());
    block_spans(chars, &line_separator, &block_separator)
}

/// The parts of a document that `spans` cover, as slices of it.
pub fn slices<'a>(text: &Text<'a>, spans: &Vec<Span>) -> (lines: Vec<&'a str>)
    requires
        forall|l: int| 0 <= l < spans.len() ==> (#[trigger] spans[l]).within(0, text@.len() as int),
    ensures
        lines.deep_view() == texts(text@, spans@),
{
    let mut lines: Vec<&'a str> = Vec::new();
    let mut l: usize = 0;
    while l < spans.len()
        invariant
            l <= spans.len(),
            lines.len() == l,
            forall|i: int|
                0 <= i < spans.len() ==> (#[trigger] spans[i]).within(0, text@.len() as int),
            forall|i: int| 0 <= i < l ==> (#[trigger] lines[i])@ == spans[i].text(text@),
        decreases spans.len() - l,
    {
        lines.push(text.slice(spans[l]));
        l += 1;
    }
    assert(lines.deep_view() =~= texts(text@, spans@));
    lines
}

/// Whether the line parser `f` may be called on a line with the characters
/// `line`.
pub open spec fn accepts<T, F: Fn(&str) -> T>(f: F, line: Seq<char>) -> bool {
    forall|s: &str| s@ == line ==> #[trigger] call_requires(f, (s,))
}

/// Whether `value` is a result of the line parser `f` on a line with the
/// characters `line`.
pub open spec fn yields<T, F: Fn(&str) -> T>(f: F, line: Seq<char>, value: T) -> bool {
    exists|s: &str| s@ == line && #[trigger] call_ensures(f, (s,), value)
}

/// Whether the line parser `f` may be called on every line of `block`.
pub open spec fn accepts_lines<T, F: Fn(&str) -> T>(f: F, block: Seq<Seq<char>>) -> bool {
    forall|l: int| 0 <= l < block.len() ==> accepts(f, #[trigger] block[l])
}

/// Whether `values` holds, line by line and in order, a result of the line
/// parser `f` on each line of `block`.
pub open spec fn yields_lines<T, F: Fn(&str) -> T>(
    f: F,
    block: Seq<Seq<char>>,
    values: Seq<T>,
) -> bool {
    &&& values.len() == block.len()
    &&& forall|l: int| 0 <= l < block.len() ==> yields(f, block[l], #[trigger] values[l])
}

/// Whether the block parser `g` may be called on whatever the line parser `f`
/// makes of the lines of `block`.
pub open spec fn accepts_block<T, U, F: Fn(&str) -> T, G: Fn(Vec<T>) -> U>(
    f: F,
    g: G,
    block: Seq<Seq<char>>,
) -> bool {
    forall|values: Vec<T>| yields_lines(f, block, values@) ==> #[trigger] call_requires(g, (values,))
}

/// Whether `value` is a result of the block parser `g` on the results of the
/// line parser `f` on the lines of `block`.
pub open spec fn yields_block<T, U, F: Fn(&str) -> T, G: Fn(Vec<T>) -> U>(
    f: F,
    g: G,
    block: Seq<Seq<char>>,
    value: U,
) -> bool {
    exists|values: Vec<T>| yields_lines(f, block, values@) && #[trigger] call_ensures(g, (values,), value)
}

/// The results of the line parser on the parts of a document that `spans`
/// cover, in order.
pub fn parse_spans<T, F: Fn(&str) -> T>(text: &Text, spans: &Vec<Span>, f: &F) -> (values: Vec<T>)
    requires
        forall|l: int| 0 <= l < spans.len() ==> (#[trigger] spans[l]).within(0, text@.len() as int),
        accepts_lines(*f, texts(text@, spans@)),
    ensures
        yields_lines(*f, texts(text@, spans@), values@),
{
    let mut values: Vec<T> = Vec::new();
    let mut l: usize = 0;
    while l < spans.len()
        invariant
            l <= spans.len(),
            values.len() == l,
            forall|i: int|
                0 <= i < spans.len() ==> (#[trigger] spans[i]).within(0, text@.len() as int),
            accepts_lines(*f, texts(text@, spans@)),
            forall|i: int|
                0 <= i < l ==> yields(*f, texts(text@, spans@)[i], #[trigger] values[i]),
        decreases spans.len() - l,
    {
        let line = text.slice(spans[l]);
        assert(texts(text@, spans@)[l as int] == line@);
        assert(accepts(*f, texts(text@, spans@)[l as int]));
        let value = f(line);
        values.push(value);
        l += 1;
    }
    values
}

/// Whether the line parser `f` may be called on every line of every block.
pub open spec fn accepts_document<T, F: Fn(&str) -> T>(f: F, blocks: Seq<Seq<Seq<char>>>) -> bool {
    forall|b: int| 0 <= b < blocks.len() ==> accepts_lines(f, #[trigger] blocks[b])
}

/// Whether `parsed` holds, block by block and in order, the results of the
/// line parser `f` on the lines of each block.
pub open spec fn yields_document<T, F: Fn(&str) -> T>(
    f: F,
    blocks: Seq<Seq<Seq<char>>>,
    parsed: Seq<Vec<T>>,
) -> bool {
    &&& parsed.len() == blocks.len()
    &&& forall|b: int| 0 <= b < blocks.len() ==> yields_lines(f, blocks[b], (#[trigger] parsed[b])@)
}

/// Whether the block parser `g` may be called on whatever the line parser `f`
/// makes of each block.
pub open spec fn accepts_blocks<T, U, F: Fn(&str) -> T, G: Fn(Vec<T>) -> U>(
    f: F,
    g: G,
    blocks: Seq<Seq<Seq<char>>>,
) -> bool {
    forall|b: int| 0 <= b < blocks.len() ==> accepts_block(f, g, #[trigger] blocks[b])
}

/// Whether `parsed` holds, block by block and in order, a result of the block
/// parser `g` on the results of the line parser `f` on the lines of each
/// block.
pub open spec fn yields_blocks<T, U, F: Fn(&str) -> T, G: Fn(Vec<T>) -> U>(
    f: F,
    g: G,
    blocks: Seq<Seq<Seq<char>>>,
    parsed: Seq<U>,
) -> bool {
    &&& parsed.len() == blocks.len()
    &&& forall|b: int| 0 <= b < blocks.len() ==> yields_block(f, g, blocks[b], #[trigger] parsed[b])
}

/// Text that can be taken apart into blocks of lines.
pub trait TextBlocks: Sized {
    /// The characters of the document.
    spec fn text(&self) -> Seq<char>;

    /// The document as a string slice.
    fn as_text(&self) -> (s: &str)
        ensures
            s@ == self.text(),
    ;

    /// The blocks of the document, each one the vector of its lines. The
    /// lines are slices of the document.
    fn as_blocks(&self, block_delimiter: &BlockDelimiter) -> (blocks: Vec<Vec<&str>>)
        requires
            block_delimiter.is_supported(),
        ensures
            blocks.deep_view() == document_blocks(self.text(), *block_delimiter),
    {
        let text = Text::new(self.as_text());
        let spans = layout(&text, block_delimiter);
        let mut blocks: Vec<Vec<&str>> = Vec::new();
        let mut b: usize = 0;
        while b < spans.len()
            invariant
                b <= spans.len(),
                blocks.len() == b,
                spans_within(spans@, text@.len() as int),
                forall|i: int|
                    0 <= i < b ==> (#[trigger] blocks[i]).deep_view() == texts(text@, spans[i]@),
            decreases spans.len() - b,
        {
            let lines = slices(&text, &spans[b]);
            blocks.push(lines);
            b += 1;
        }
        assert(blocks.deep_view() =~= block_texts(text@, spans@));
        blocks
    }

    /// The blocks of the document, with every line replaced by what the line
    /// parser makes of it.
    fn block_parse_lines<INNER, LP>(
        &self,
        block_delimiter: &BlockDelimiter,
        line_parser: LP,
    ) -> (parsed: Vec<Vec<INNER>>) where LP: Fn(&str) -> INNER
        requires
            block_delimiter.is_supported(),
            accepts_document(line_parser, document_blocks(self.text(), *block_delimiter)),
        ensures
            yields_document(
                line_parser,
                document_blocks(self.text(), *block_delimiter),
                parsed@,
            ),
    {
        let text = Text::new(self.as_text());
        let spans = layout(&text, block_delimiter);
        let ghost blocks = document_blocks(self.text(), *block_delimiter);
        let mut parsed: Vec<Vec<INNER>> = Vec::new();
        let mut b: usize = 0;
        while b < spans.len()
            invariant
                b <= spans.len(),
                parsed.len() == b,
                spans_within(spans@, text@.len() as int),
                blocks == block_texts(text@, spans@),
                accepts_document(line_parser, blocks),
                forall|i: int|
                    0 <= i < b ==> yields_lines(line_parser, blocks[i], (#[trigger] parsed[i])@),
            decreases spans.len() - b,
        {
            assert(blocks[b as int] == texts(text@, spans[b as int]@));
            let values = parse_spans(&text, &spans[b], &line_parser);
            parsed.push(values);
            b += 1;
        }
        parsed
    }

    /// The blocks of the document, with every block replaced by what the
    /// block parser makes of the parsed lines of that block.
    fn block_parse<INNER, BLOCK, LP, BP>(
        &self,
        block_delimiter: &BlockDelimiter,
        line_parser: LP,
        block_parser: BP,
    ) -> (parsed: Vec<BLOCK>) where LP: Fn(&str) -> INNER, BP: Fn(Vec<INNER>) -> BLOCK
        requires
            block_delimiter.is_supported(),
            accepts_document(line_parser, document_blocks(self.text(), *block_delimiter)),
            accepts_blocks(
                line_parser,
                block_parser,
                document_blocks(self.text(), *block_delimiter),
            ),
        ensures
            yields_blocks(
                line_parser,
                block_parser,
                document_blocks(self.text(), *block_delimiter),
                parsed@,
            ),
    {
        let text = Text::new(self.as_text());
        let spans = layout(&text, block_delimiter);
        let ghost blocks = document_blocks(self.text(), *block_delimiter);
        let mut parsed: Vec<BLOCK> = Vec::new();
        let mut b: usize = 0;
        while b < spans.len()
            invariant
                b <= spans.len(),
                parsed.len() == b,
                spans_within(spans@, text@.len() as int),
                blocks == block_texts(text@, spans@),
                accepts_document(line_parser, blocks),
                accepts_blocks(line_parser, block_parser, blocks),
                forall|i: int|
                    0 <= i < b ==> yields_block(
                        line_parser,
                        block_parser,
                        blocks[i],
                        #[trigger] parsed[i],
                    ),
            decreases spans.len() - b,
        {
            assert(blocks[b as int] == texts(text@, spans[b as int]@));
            let values = parse_spans(&text, &spans[b], &line_parser);
            assert(accepts_block(line_parser, block_parser, blocks[b as int]));
            let value = block_parser(values);
            parsed.push(value);
            b += 1;
        }
        parsed
    }
}

impl TextBlocks for &str {
    open spec fn text(&self) -> Seq<char> {
        (*self)@
    }

    fn as_text(&self) -> (s: &str) {
        *self
    }
}

impl TextBlocks for String {
    open spec fn text(&self) -> Seq<char> {
        self@
    }

    fn as_text(&self) -> (s: &str) {
        self.as_str()
    }
}

} // verus!
