//! The block delimiter and the pair of separators it resolves to.

use crate::model::line_break;
use vstd::pervasive::unreached;
use vstd::prelude::*;

verus! {

/// How a document is cut into blocks.
pub enum BlockDelimiter {
    /// A blank line: `"\r\n\r\n"` if the document holds a carriage return,
    /// otherwise `"\n\n"`.
    DoubleLineGeneric,
    /// A delimiter string, used as it is.
    Delimiter(String),
    /// A pattern. Reserved: no operation accepts it.
    Pattern(String),
}

impl Default for BlockDelimiter {
    fn default() -> (delimiter: Self)
        ensures
            delimiter is DoubleLineGeneric,
    {
        BlockDelimiter::DoubleLineGeneric
    }
}

impl BlockDelimiter {
    /// Whether the splitting operations accept this delimiter: all do but a
    /// pattern.
    pub open spec fn spec_is_supported(&self) -> bool {
        !(self is Pattern)
    }

    /// Whether the splitting operations accept this delimiter.
    #[verifier::when_used_as_spec(spec_is_supported)]
    pub fn is_supported(&self) -> (supported: bool)
        ensures
            supported == self.spec_is_supported(),
    {
        match self {
            BlockDelimiter::Pattern(_) => false,
            _ => true,
        }
    }

    /// The separator between two blocks. A pattern, which no operation
    /// accepts, has none: the value given here for it is never used.
    pub open spec fn block_break(&self, crlf: bool) -> Seq<char>
        recommends
            self.is_supported(),
    {
        match self {
            BlockDelimiter::DoubleLineGeneric => line_break(crlf) + line_break(crlf),
            BlockDelimiter::Delimiter(d) => d@,
            BlockDelimiter::Pattern(_) => Seq::empty(),
        }
    }
}

/// Resolves a block delimiter to the line separator and the block separator,
/// given whether the document holds a carriage return.
pub fn delimiters(crlf: bool, block_delimiter: &BlockDelimiter) -> (pair: (String, String))
    requires
        block_delimiter.is_supported(),
    ensures
        pair.0@ == line_break(crlf),
        pair.1@ == block_delimiter.block_break(crlf),
{
    proof {
        reveal_strlit("\r\n");
        reveal_strlit("\n");
        reveal_strlit("\r\n\r\n");
        reveal_strlit("\n\n");
    }
    let line_separator = if crlf {
        "\r\n".to_owned()
    } else {
        "\n".to_owned()
    };
    let block_separator = match block_delimiter {
        BlockDelimiter::DoubleLineGeneric => {
            if crlf {
                "\r\n\r\n".to_owned()
            } else {
                "\n\n".to_owned()
            }
        },
        BlockDelimiter::Delimiter(d) => d.clone(),
        BlockDelimiter::Pattern(_) => unreached(),
    };
    assert(line_separator@ =~= line_break(crlf));
    assert(block_separator@ =~= block_delimiter.block_break(crlf));
    (line_separator, block_separator)
}

} // verus!
