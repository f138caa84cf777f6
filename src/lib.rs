//! Prosidy documents: the tree of a document, its parser over the rule tree that the grammar
//! makes of a source, and its two encodings (a stream of XML events generated without
//! recursion, and a tagged-union value that decodes back to the same tree).

pub mod ast;
pub mod encode;
pub mod error;
pub mod key;
pub mod parse;
pub mod props;
pub mod text;
pub mod xmlgen;

pub use ast::{Block, BlockTag, Document, Inline, InlineTag, Literal, Meta, Node, Tag};
pub use key::{Key, KeySet, KeyView};
pub use props::PropSet;
pub use text::Text;
