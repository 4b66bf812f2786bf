//! Tags markup elements in a syntax tree with their originating text
//! position. A position index maps character offsets of the source text to
//! 1-based lines and 0-based columns; an annotation pass traverses the
//! tree in pre-order and appends a `dataLocator` attribute, valued
//! `<fileId>:<line>:<col>`, to every element's opening tag.

pub mod annotate;
pub mod locator;
pub mod position;
pub mod tree;

pub use annotate::{process, AddLocatorVisitor};
pub use position::{LineCol, LineColMapping, OffsetOutOfRange};
