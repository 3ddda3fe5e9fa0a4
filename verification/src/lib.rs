//! Splitting of text into blocks of lines.
//!
//! A document is cut into blocks at a block delimiter (by default a blank
//! line), and every block is cut into lines. Both `\n` and `\r\n` line endings
//! are understood. The trait [`TextBlocks`] gives `&str` and `String` three
//! operations: `as_blocks` returns the lines of every block as slices of the
//! document, `block_parse_lines` hands every line to a line parser, and
//! `block_parse` hands the parsed lines of every block to a block parser.
//!
//! Every executable function carries a contract, and Verus proves the code
//! against it:
//!
//! - [`model`] says what trimming, splitting and the blocks of a document are,
//!   on sequences of characters;
//! - [`delimiter`] holds the block delimiter and the separators it resolves to;
//! - [`text`] and [`scan`] hold the document as characters and take it apart
//!   into spans;
//! - [`blocks`] holds the three operations;
//! - [`laws`] proves what holds of the blocks of every document.
//!
//! The operations do not accept `BlockDelimiter::Pattern`: their contracts
//! leave it out, and code that Verus has not checked is stopped when it passes
//! one.

pub mod blocks;
pub mod delimiter;
pub mod laws;
pub mod model;
pub mod scan;
pub mod text;

pub use blocks::TextBlocks;
pub use delimiter::{delimiters, BlockDelimiter};
