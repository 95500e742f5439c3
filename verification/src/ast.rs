//! The footnote nodes of the syntax tree.

use vstd::prelude::*;
use vstd::string::*;
use crate::html::{decimal, push_decimal};
use crate::outside::{indent_text, pp_indent};

verus! {

/// A range `start..stop` of byte positions in the Markdown source.
#[derive(Clone, Copy, Debug, PartialEq, Eq)]
pub struct Span {
    pub start: usize,
    pub stop: usize,
}

impl Span {
    /// The span `start..stop`.
    pub fn new(start: usize, stop: usize) -> (res: Span)
        ensures
            res.start == start,
            res.stop == stop,
    {
        Span { start, stop }
    }

    /// The span lies inside a source of `len` bytes.
    pub open spec fn within(self, len: nat) -> bool {
        self.start <= self.stop && self.stop <= len
    }

    /// The bytes of the source that the span covers.
    pub open spec fn text(self, source: Seq<u8>) -> Seq<u8> {
        source.subrange(self.start as int, self.stop as int)
    }
}

/// A footnote reference `[^label]` in the text.
#[derive(Clone, Copy, Debug)]
pub struct FootnoteReference {
    label: Span,
    index: usize,
    ref_index: usize,
}

impl FootnoteReference {
    /// The span of the label in the source.
    pub closed spec fn spec_label(&self) -> Span {
        self.label
    }

    /// The number of the footnote that the reference points to.
    pub closed spec fn spec_index(&self) -> usize {
        self.index
    }

    /// The number of the reference among all references of the document.
    pub closed spec fn spec_ref_index(&self) -> usize {
        self.ref_index
    }

    /// A reference with the given label, footnote number and reference number.
    pub fn new(label: Span, index: usize, ref_index: usize) -> (res: Self)
        ensures
            res.spec_label() == label,
            res.spec_index() == index,
            res.spec_ref_index() == ref_index,
    {
        FootnoteReference { label, index, ref_index }
    }

    /// Returns the label of the footnote reference.
    pub fn label(&self) -> (res: &Span)
        ensures
            *res == self.spec_label(),
    {
        &self.label
    }

    /// Returns the index of the footnote definition.
    pub fn index(&self) -> (res: usize)
        ensures
            res == self.spec_index(),
    {
        self.index
    }

    /// Returns the reference index of the footnote reference.
    pub fn ref_index(&self) -> (res: usize)
        ensures
            res == self.spec_ref_index(),
    {
        self.ref_index
    }
}

/// What a footnote definition holds, as values.
pub struct DefinitionView {
    pub label: Span,
    pub index: usize,
    pub references: Seq<usize>,
}

/// A footnote definition `[^label]: ...` at the start of a block.
///
/// Its `index` is 0 until a reference points to it; `references` lists the
/// reference numbers of the references that point to it, in order.
#[derive(Debug)]
pub struct FootnoteDefinition {
    label: Span,
    index: usize,
    references: Vec<usize>,
}

impl View for FootnoteDefinition {
    type V = DefinitionView;

    closed spec fn view(&self) -> DefinitionView {
        DefinitionView { label: self.label, index: self.index, references: self.references@ }
    }
}

impl FootnoteDefinition {
    /// A definition with the given label, no number yet and no references.
    pub fn new(label: Span) -> (res: Self)
        ensures
            res@.label == label,
            res@.index == 0,
            res@.references == Seq::<usize>::empty(),
    {
        FootnoteDefinition { label, index: 0, references: Vec::new() }
    }

    /// A definition with the given label, number and references, as it
    /// stands in the syntax tree after parsing.
    pub fn with_state(label: Span, index: usize, references: Vec<usize>) -> (res: Self)
        ensures
            res@.label == label,
            res@.index == index,
            res@.references == references@,
    {
        FootnoteDefinition { label, index, references }
    }

    /// Returns the label of the footnote definition.
    pub fn label(&self) -> (res: &Span)
        ensures
            *res == self@.label,
    {
        &self.label
    }

    /// Returns the index of the footnote definition.
    pub fn index(&self) -> (res: usize)
        ensures
            res == self@.index,
    {
        self.index
    }

    /// Returns the reference indices of the footnote definition.
    pub fn references(&self) -> (res: &[usize])
        ensures
            res@ == self@.references,
    {
        self.references.as_slice()
    }

    /// Sets the number of the footnote.
    pub fn set_index(&mut self, index: usize)
        ensures
            final(self)@ == (DefinitionView { index, ..old(self)@ }),
    {
        self.index = index;
    }

    /// Adds a reference index to the footnote definition.
    pub fn add_reference(&mut self, ref_index: usize)
        ensures
            final(self)@ == (DefinitionView {
                references: old(self)@.references.push(ref_index),
                ..old(self)@
            }),
    {
        self.references.push(ref_index);
    }
}

/// The numbers of `refs` in decimal, separated by `, `.
pub open spec fn list_items_text(refs: Seq<usize>) -> Seq<char>
    decreases refs.len(),
{
    if refs.len() == 0 {
        Seq::empty()
    } else if refs.len() == 1 {
        decimal(refs[0] as nat)
    } else {
        list_items_text(refs.drop_last()) + ", "@ + decimal(refs.last() as nat)
    }
}

/// A list of numbers as Rust's `Debug` writes it: `[1, 2, 3]`.
pub open spec fn debug_list_text(refs: Seq<usize>) -> Seq<char> {
    "["@ + list_items_text(refs) + "]"@
}

/// Writes a list of numbers as Rust's `Debug` does.
pub fn debug_list(refs: &[usize]) -> (res: String)
    ensures
        res@ == debug_list_text(refs@),
{
    let mut out = String::from_str("[");
    let ghost start = out@;
    let mut i: usize = 0;
    while i < refs.len()
        invariant
            i <= refs@.len(),
            start == "["@,
            out@ == start + list_items_text(refs@.take(i as int)),
        decreases refs@.len() - i,
    {
        let ghost before = out@;
        if i > 0 {
            out.append(", ");
        }
        push_decimal(&mut out, refs[i]);
        proof {
            let t = refs@.take(i + 1);
            assert(t.drop_last() =~= refs@.take(i as int));
            assert(t.last() == refs@[i as int]);
            if i == 0 {
                assert(list_items_text(refs@.take(0)) =~= Seq::<char>::empty());
                assert(out@ =~= start + list_items_text(t));
            } else {
                assert(out@ =~= start + list_items_text(t));
            }
        }
        i = i + 1;
    }
    out.append("]");
    proof {
        assert(refs@.take(refs@.len() as int) =~= refs@);
        assert(out@ =~= debug_list_text(refs@));
    }
    out
}

/// One line of the pretty printer: the indentation, a name with a colon,
/// the value and a newline.
pub open spec fn pretty_line_text(level: nat, name: Seq<char>, value: Seq<char>) -> Seq<char> {
    indent_text(level) + name + value + "\n"@
}

/// Appends one line of the pretty printer to `out`.
fn push_pretty_line(out: &mut String, level: usize, name: &str, value: &str)
    requires
        2 * level <= isize::MAX as int,
    ensures
        final(out)@ == old(out)@ + pretty_line_text(level as nat, name@, value@),
{
    let indent = pp_indent(level);
    out.append(indent.as_str());
    out.append(name);
    out.append(value);
    out.append("\n");
    assert(out@ =~= old(out)@ + pretty_line_text(level as nat, name@, value@));
}

/// The decimal representation of `n` as a string.
pub fn decimal_string(n: usize) -> (res: String)
    ensures
        res@ == decimal(n as nat),
{
    let mut out = String::new();
    push_decimal(&mut out, n);
    assert(out@ =~= decimal(n as nat));
    out
}

impl FootnoteReference {
    /// What the pretty printer writes for the reference at indentation
    /// `level`, with `label` the text of its label.
    pub open spec fn pretty_text(self, label: Seq<char>, level: nat) -> Seq<char> {
        pretty_line_text(level, "Label: "@, label) + pretty_line_text(
            level,
            "Index: "@,
            decimal(self.spec_index() as nat),
        ) + pretty_line_text(level, "RefIndex: "@, decimal(self.spec_ref_index() as nat))
    }

    /// The pretty printed form of the reference.
    pub fn pretty_print(&self, label: &str, level: usize) -> (res: String)
        requires
            2 * level <= isize::MAX as int,
        ensures
            res@ == self.pretty_text(label@, level as nat),
    {
        let mut out = String::new();
        push_pretty_line(&mut out, level, "Label: ", label);
        let index = decimal_string(self.index());
        push_pretty_line(&mut out, level, "Index: ", index.as_str());
        let ref_index = decimal_string(self.ref_index());
        push_pretty_line(&mut out, level, "RefIndex: ", ref_index.as_str());
        assert(out@ =~= self.pretty_text(label@, level as nat));
        out
    }
}

impl FootnoteDefinition {
    /// What the pretty printer writes for the definition at indentation
    /// `level`, with `label` the text of its label.
    pub open spec fn pretty_text(self, label: Seq<char>, level: nat) -> Seq<char> {
        pretty_line_text(level, "Label: "@, label) + pretty_line_text(level, "Index: "@, decimal(self@.index as nat))
            + pretty_line_text(level, "References: "@, debug_list_text(self@.references))
    }

    /// The pretty printed form of the definition.
    pub fn pretty_print(&self, label: &str, level: usize) -> (res: String)
        requires
            2 * level <= isize::MAX as int,
        ensures
            res@ == self.pretty_text(label@, level as nat),
    {
        let mut out = String::new();
        push_pretty_line(&mut out, level, "Label: ", label);
        let index = decimal_string(self.index());
        push_pretty_line(&mut out, level, "Index: ", index.as_str());
        let refs = debug_list(self.references());
        push_pretty_line(&mut out, level, "References: ", refs.as_str());
        assert(out@ =~= self.pretty_text(label@, level as nat));
        out
    }
}

} // verus!
