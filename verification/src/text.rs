//! A document prepared for scanning: its characters in a vector, and for
//! every character the byte at which it starts, so that any range of
//! characters can be handed out as a slice of the document in constant time.

use crate::scan::Span;
use vstd::prelude::*;
use vstd::string::StringSliceAdditionalSpecFns;
use vstd::utf8::*;

verus! {

/// The number of bytes that a character takes in UTF-8.
pub fn utf8_width(c: char) -> (width: usize)
    ensures
        width == encode_scalar(c as u32).len(),
        1 <= width <= 4,
{
    proof {
        char_is_scalar(c);
    }
    let scalar = c as u32;
    if scalar < 0x80 {
        1
    } else if scalar < 0x800 {
        2
    } else if scalar < 0x10000 {
        3
    } else {
        4
    }
}

/// The encoding of two texts in a row is the encoding of the first followed
/// by the encoding of the second.
pub proof fn lemma_encode_concat(a: Seq<char>, b: Seq<char>)
    ensures
        encode_utf8(a + b) == encode_utf8(a) + encode_utf8(b),
    decreases a.len(),
{
    if a.len() == 0 {
        assert(a + b =~= b);
        assert(encode_utf8(a) + encode_utf8(b) =~= encode_utf8(b));
    } else {
        assert((a + b).drop_first() =~= a.drop_first() + b);
        lemma_encode_concat(a.drop_first(), b);
        assert(encode_utf8(a + b) =~= encode_utf8(a) + encode_utf8(b));
    }
}

/// In the encoding of a text, the place where the encoding of a prefix ends
/// is a character boundary.
pub proof fn lemma_prefix_is_boundary(a: Seq<char>, b: Seq<char>)
    ensures
        is_char_boundary(encode_utf8(a + b), encode_utf8(a).len() as int),
    decreases a.len(),
{
    let bytes = encode_utf8(a + b);
    encode_utf8_valid_utf8(a + b);
    if a.len() > 0 {
        encode_utf8_first_scalar(a + b);
        assert((a + b).drop_first() =~= a.drop_first() + b);
        assert(pop_first_scalar(bytes) =~= encode_utf8((a + b).drop_first()));
        lemma_prefix_is_boundary(a.drop_first(), b);
        lemma_encode_concat(a, b);
    }
}

/// Two texts with the same encoding are the same text.
pub proof fn lemma_encode_injective(a: Seq<char>, b: Seq<char>)
    requires
        encode_utf8(a) == encode_utf8(b),
    ensures
        a == b,
{
    encode_utf8_decode_utf8(a);
    encode_utf8_decode_utf8(b);
}

/// A document with the tables that scanning and slicing need.
pub struct Text<'a> {
    source: &'a str,
    chars: Vec<char>,
    offsets: Vec<usize>,
}

impl<'a> View for Text<'a> {
    type V = Seq<char>;

    closed spec fn view(&self) -> Seq<char> {
        self.source@
    }
}

impl<'a> Text<'a> {
    #[verifier::type_invariant]
    spec fn well_formed(self) -> bool {
        &&& self.chars@ == self.source@
        &&& self.offsets.len() == self.chars.len() + 1
        &&& forall|i: int|
            0 <= i <= self.chars.len() ==> #[trigger] self.offsets@[i] == encode_utf8(
                self.source@.take(i),
            ).len()
    }

    /// Prepares `source`, in one pass over its characters.
    pub fn new(source: &'a str) -> (text: Self)
        ensures
            text@ == source@,
    {
        let byte_len = source.as_bytes().len();
        let mut chars: Vec<char> = Vec::with_capacity(byte_len);
        let mut offsets: Vec<usize> = Vec::new();
        let mut offset: usize = 0;
        offsets.push(0);
        let iter = source.chars();
        for c in it: iter
            invariant
                it.seq() == source@,
                chars@ == it.seq().take(it.index()),
                offsets.len() == chars.len() + 1,
                offset == encode_utf8(source@.take(it.index())).len(),
                forall|k: int|
                    0 <= k <= chars.len() ==> #[trigger] offsets@[k] == encode_utf8(
                        source@.take(k),
                    ).len(),
                byte_len == encode_utf8(source@).len(),
        {
            proof {
                let k = it.index();
                let done = source@.take(k);
                assert(source@.take(k + 1) =~= done + seq![c]);
                lemma_encode_concat(done, seq![c]);
                assert(seq![c].drop_first() =~= Seq::<char>::empty());
                assert(encode_utf8(Seq::<char>::empty()) =~= Seq::<u8>::empty());
                assert(encode_utf8(seq![c]) =~= encode_scalar(c as u32));
                assert(source@ =~= source@.take(k + 1) + source@.skip(k + 1));
                lemma_encode_concat(source@.take(k + 1), source@.skip(k + 1));
            }
            let width = utf8_width(c);
            offset = offset + width;
            chars.push(c);
            offsets.push(offset);
        }
        assert(chars@ =~= source@);
        Text { source, chars, offsets }
    }

    /// The characters of the document.
    pub fn chars(&self) -> (chars: &Vec<char>)
        ensures
            chars@ == self@,
    {
        proof {
            use_type_invariant(self);
        }
        &self.chars
    }

    /// The part of the document that `span` covers, as a slice of it.
    pub fn slice(&self, span: Span) -> (part: &'a str)
        requires
            span.within(0, self@.len() as int),
        ensures
            part@ == span.text(self@),
    {
        proof {
            use_type_invariant(self);
        }
        let lo = self.offsets[span.start];
        let hi = self.offsets[span.end];
        let ghost all = self.source@;
        let ghost i = span.start as int;
        let ghost j = span.end as int;
        proof {
            assert(all =~= all.take(j) + all.skip(j));
            lemma_prefix_is_boundary(all.take(j), all.skip(j));
            lemma_encode_concat(all.take(j), all.skip(j));
        }
        let head = self.source.split_at(hi).0;
        proof {
            assert(head.spec_bytes() =~= encode_utf8(all.take(j)));
            lemma_encode_injective(head@, all.take(j));
            assert(all.take(j) =~= all.take(i) + all.subrange(i, j));
            assert(all.take(j).take(i) =~= all.take(i));
            lemma_prefix_is_boundary(all.take(i), all.subrange(i, j));
            lemma_encode_concat(all.take(i), all.subrange(i, j));
        }
        let part = head.split_at(lo).1;
        proof {
            assert(part.spec_bytes() =~= encode_utf8(all.subrange(i, j)));
            lemma_encode_injective(part@, all.subrange(i, j));
        }
        part
    }
}

} // verus!
