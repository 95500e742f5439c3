//! The options of the footnote HTML renderer.

use vstd::prelude::*;
use vstd::string::*;

verus! {

/// The prefix of the ids that footnotes and references get in the HTML.
///
/// `F` is the type of the function that computes a prefix from the
/// document being rendered.
#[derive(Debug, Clone)]
pub enum FootnoteIdPrefix<F> {
    /// No prefix.
    Empty,
    /// A fixed prefix.
    Value(String),
    /// A prefix computed for each document by a function.
    Function(F),
}

impl<F> FootnoteIdPrefix<F> {
    /// The prefix: empty for `None`, the string of `Value`, and for
    /// `Function(f)` what `call` returns on `f`, where `call` applies `f` to
    /// the document being rendered.
    pub fn get_id<C: FnOnce(&F) -> String>(&self, call: C) -> (res: String)
        requires
            self matches FootnoteIdPrefix::Function(f) ==> call.requires((&f,)),
        ensures
            match self {
                FootnoteIdPrefix::Empty => res@ == Seq::<char>::empty(),
                FootnoteIdPrefix::Value(prefix) => res@ == prefix@,
                FootnoteIdPrefix::Function(f) => call.ensures((f,), res),
            },
    {
        match self {
            FootnoteIdPrefix::Empty => String::new(),
            FootnoteIdPrefix::Value(prefix) => prefix.clone(),
            FootnoteIdPrefix::Function(f) => call(f),
        }
    }
}

/// Options for the footnote HTML renderer.
#[derive(Debug, Clone)]
pub struct FootnoteHtmlRendererOptions<F> {
    /// The class name for the footnote reference link.
    ///
    /// This defaults to "footnote-ref".
    pub link_class: String,
    /// The class name for the footnote backlink.
    ///
    /// This defaults to "footnote-backref".
    pub backlink_class: String,
    /// The HTML content for the footnote backlink.
    /// This defaults to "&#x21a9;&#xfe0e;" (the leftwards arrow with hook character).
    pub backlink_html: String,
    /// The prefix for footnote IDs.
    pub id_prefix: FootnoteIdPrefix<F>,
}

impl<F> Default for FootnoteHtmlRendererOptions<F> {
    fn default() -> (res: Self)
        ensures
            res.link_class@ == "footnote-ref"@,
            res.backlink_class@ == "footnote-backref"@,
            res.backlink_html@ == "&#x21a9;&#xfe0e;"@,
            res.id_prefix is Empty,
    {
        FootnoteHtmlRendererOptions {
            link_class: String::from_str("footnote-ref"),
            backlink_class: String::from_str("footnote-backref"),
            backlink_html: String::from_str("&#x21a9;&#xfe0e;"),
            id_prefix: FootnoteIdPrefix::Empty,
        }
    }
}

} // verus!
