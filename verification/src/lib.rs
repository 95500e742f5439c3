//! Footnotes for the rushdown Markdown parser, in the syntax of PHP Markdown
//! Extra: references `[^label]` in the text and definitions `[^label]: ...`
//! at the start of a block.
//!
//! The parsing decisions, the numbering of footnotes, the order in which
//! they are listed and the HTML that is produced are verified here.

pub mod ast;
pub mod definitions;
pub mod html;
pub mod laws;
pub mod options;
pub mod outside;
pub mod parse;
pub mod render;
pub mod scan;

pub use ast::{FootnoteDefinition, FootnoteReference, Span};
pub use definitions::FootnoteDefinitions;
pub use options::{FootnoteHtmlRendererOptions, FootnoteIdPrefix};
