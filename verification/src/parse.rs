//! The decisions of the two footnote parsers: when a block opens a footnote
//! definition, how its lines continue, and when `[^label]` in the text is a
//! reference to a definition.

use vstd::prelude::*;
use crate::ast::Span;
use crate::definitions::{labels_within, numbered, resolved, FootnoteDefinitions};
use crate::outside::{all_space, indent_position, indent_position_of, is_blank};
use crate::scan::{find_label_close, label_close_from, BANG, CARET, COLON, OPEN_BRACKET};

verus! {

/// Where the label of a definition `[^label]:` stands on its line, as the
/// positions of its first byte and of the closing `]`, when the line starts
/// one at `block_offset` (the `[`).
pub open spec fn definition_label_bounds(line: Seq<u8>, block_offset: Option<usize>) -> Option<(int, int)> {
    match block_offset {
        None => None,
        Some(offset) => {
            let pos = offset + 1;
            if pos >= line.len() || line[offset as int] != OPEN_BRACKET || line[pos] != CARET {
                None
            } else {
                match label_close_from(line, pos + 1) {
                    None => None,
                    Some(close) => if close + 1 >= line.len() || line[close + 1] != COLON {
                        None
                    } else {
                        Some((pos + 1, close))
                    },
                }
            }
        },
    }
}

/// A definition that opens on a line: its label and the number of bytes of
/// the line that `[^label]:` takes up.
#[derive(Clone, Copy, Debug, PartialEq, Eq)]
pub struct DefinitionOpening {
    pub label: Span,
    pub advance: usize,
}

/// The definition that a line opens, if any: the label, placed in the source
/// by the line's start and padding, must not be blank.
pub open spec fn opened_definition(
    line: Seq<u8>,
    block_offset: Option<usize>,
    seg_start: usize,
    padding: usize,
    source: Seq<u8>,
) -> Option<DefinitionOpening> {
    match definition_label_bounds(line, block_offset) {
        None => None,
        Some((open, close)) => {
            let label = Span {
                start: (seg_start + open - padding) as usize,
                stop: (seg_start + close - padding) as usize,
            };
            if all_space(label.text(source)) {
                None
            } else {
                Some(DefinitionOpening { label, advance: (close + 2) as usize })
            }
        },
    }
}

/// Finds `[^label]:` at `block_offset` on `line` and returns the positions
/// of the label's first byte and of its closing `]`.
pub fn definition_label(line: &[u8], block_offset: Option<usize>) -> (res: Option<(usize, usize)>)
    requires
        block_offset matches Some(o) ==> o < usize::MAX,
    ensures
        match res {
            Some((open, close)) => definition_label_bounds(line@, block_offset) == Some((open as int, close as int)),
            None => definition_label_bounds(line@, block_offset) is None,
        },
        res matches Some((open, close)) ==> open <= close && close + 1 < line@.len(),
{
    let offset = match block_offset {
        Some(o) => o,
        None => return None,
    };
    let pos = offset + 1;
    if pos >= line.len() || line[offset] != OPEN_BRACKET || line[pos] != CARET {
        return None;
    }
    let open = pos + 1;
    let close = match find_label_close(line, open) {
        Some(c) => c,
        None => return None,
    };
    proof {
        crate::scan::lemma_label_close_in_line(line@, open as int);
    }
    if close + 1 >= line.len() || line[close + 1] != COLON {
        return None;
    }
    Some((open, close))
}

/// Opens a footnote definition on a line whose block starts at
/// `block_offset`. `seg_start` and `padding` are those of the line's segment
/// in `source`: the line is `padding` spaces and then the source from
/// `seg_start` on.
pub fn open_definition(
    line: &[u8],
    block_offset: Option<usize>,
    seg_start: usize,
    padding: usize,
    source: &[u8],
) -> (res: Option<DefinitionOpening>)
    requires
        block_offset matches Some(o) ==> o < usize::MAX,
        definition_label_bounds(line@, block_offset) matches Some((open, close)) ==> {
            &&& seg_start + close <= usize::MAX
            &&& padding <= seg_start + open
            &&& seg_start + close - padding <= source@.len()
        },
    ensures
        res == opened_definition(line@, block_offset, seg_start, padding, source@),
{
    let (open, close) = match definition_label(line, block_offset) {
        Some(b) => b,
        None => return None,
    };
    let label = Span::new(seg_start + open - padding, seg_start + close - padding);
    let text = vstd::slice::slice_subrange(source, label.start, label.stop);
    if is_blank(text) {
        return None;
    }
    let line_len = line.len();
    assert(close + 1 < line_len);
    Some(DefinitionOpening { label, advance: close + 2 })
}

/// How a line continues an open footnote definition.
#[derive(Clone, Copy, Debug, PartialEq, Eq)]
pub enum Continuation {
    /// A blank line: the definition stays open and nothing is consumed.
    Blank,
    /// An indented line: `advance` bytes of indentation are consumed, and
    /// `padding` columns of a tab are left over.
    Indented { advance: usize, padding: usize },
}

/// The continuation that an indentation search gives: the line continues
/// the definition exactly when an indentation of four columns was found.
pub open spec fn continuation_of(indent: Option<(usize, usize)>) -> Option<Continuation> {
    match indent {
        None => None,
        Some((advance, padding)) => Some(Continuation::Indented { advance, padding }),
    }
}

/// Maps the result of the indentation search to the continuation.
pub fn continuation_from_indent(indent: Option<(usize, usize)>) -> (res: Option<Continuation>)
    ensures
        res == continuation_of(indent),
{
    match indent {
        None => None,
        Some((advance, padding)) => Some(Continuation::Indented { advance, padding }),
    }
}

/// Whether `line`, seen at column `line_offset`, continues an open footnote
/// definition: blank lines do; other lines must be indented by four
/// columns; `None` closes the definition.
pub fn continue_definition(line: &[u8], line_offset: usize) -> (res: Option<Continuation>)
    requires
        line@.contains(0x09u8) ==> line_offset as int + 8 <= usize::MAX as int,
    ensures
        res == if all_space(line@) {
            Some(Continuation::Blank)
        } else {
            continuation_of(indent_position_of(line@, line_offset, 4))
        },
{
    if is_blank(line) {
        return Some(Continuation::Blank);
    }
    let indent = indent_position(line, line_offset, 4);
    continuation_from_indent(indent)
}

/// Where the label of a reference `[^label]` (or `![^label]`) at the start
/// of a line stands, as the positions of its first byte and of the closing
/// `]`.
pub open spec fn reference_label_bounds(line: Seq<u8>) -> Option<(int, int)> {
    if line.len() == 0 {
        None
    } else {
        let pos: int = if line[0] == BANG { 2 } else { 1 };
        if pos >= line.len() || line[pos - 1] != OPEN_BRACKET || line[pos] != CARET {
            None
        } else {
            match label_close_from(line, pos + 1) {
                None => None,
                Some(close) => Some((pos + 1, close)),
            }
        }
    }
}

/// A reference that the inline parser has matched with its definition.
#[derive(Clone, Copy, Debug, PartialEq, Eq)]
pub struct ReferenceMatch {
    /// The span of the label in the source.
    pub label: Span,
    /// The position of the definition in the list of definitions.
    pub definition: usize,
    /// The number of the footnote.
    pub index: usize,
    /// The number of this reference among all references.
    pub ref_index: usize,
    /// The number of bytes of the line that the reference takes up.
    pub advance: usize,
    /// The line starts with `!`, which stays in the text before the
    /// reference.
    pub bang: bool,
}

/// Finds `[^label]` on `line` and returns the positions of the label's
/// first byte and of its closing `]`.
pub fn reference_label(line: &[u8]) -> (res: Option<(usize, usize)>)
    ensures
        match res {
            Some((open, close)) => reference_label_bounds(line@) == Some((open as int, close as int)),
            None => reference_label_bounds(line@) is None,
        },
        res matches Some((open, close)) ==> open <= close < line@.len(),
{
    if line.len() == 0 {
        return None;
    }
    let pos: usize = if line[0] == BANG { 2 } else { 1 };
    if pos >= line.len() || line[pos - 1] != OPEN_BRACKET || line[pos] != CARET {
        return None;
    }
    let open = pos + 1;
    proof {
        crate::scan::lemma_label_close_in_line(line@, open as int);
    }
    match find_label_close(line, open) {
        Some(close) => Some((open, close)),
        None => None,
    }
}

/// Parses a footnote reference at the start of `line`, whose segment starts
/// at `seg_start` in `source`, and matches it with the first definition of
/// `definitions` that has the same label. `reference_count` references have
/// been matched before this one, so this one is numbered
/// `reference_count + 1`.
///
/// Returns `None`, with `definitions` unchanged, when the line holds no
/// `[^label]` or no definition has that label.
pub fn parse_reference(
    line: &[u8],
    seg_start: usize,
    source: &[u8],
    definitions: &mut FootnoteDefinitions,
    reference_count: usize,
) -> (res: Option<ReferenceMatch>)
    requires
        reference_count < usize::MAX,
        old(definitions)@.count < usize::MAX,
        labels_within(old(definitions)@.definitions, source@.len()),
        reference_label_bounds(line@) matches Some((open, close)) ==> seg_start + close <= source@.len(),
    ensures
        labels_within(final(definitions)@.definitions, source@.len()),
        match reference_label_bounds(line@) {
            None => res is None && final(definitions)@ == old(definitions)@,
            Some((open, close)) => {
                let label = Span { start: (seg_start + open) as usize, stop: (seg_start + close) as usize };
                let ref_index = (reference_count + 1) as usize;
                &&& resolved(
                    old(definitions)@,
                    final(definitions)@,
                    source@,
                    label,
                    ref_index,
                    match res {
                        None => None,
                        Some(m) => Some((m.definition, m.index)),
                    },
                )
                &&& res matches Some(m) ==> {
                    &&& m.label == label
                    &&& m.ref_index == ref_index
                    &&& m.advance == close + 1
                    &&& m.bang == (line@[0] == BANG)
                }
            },
        },
        numbered(old(definitions)@.definitions, old(definitions)@.count as nat, reference_count as nat)
            ==> numbered(
            final(definitions)@.definitions,
            final(definitions)@.count as nat,
            if res is Some { (reference_count + 1) as nat } else { reference_count as nat },
        ),
{
    let (open, close) = match reference_label(line) {
        Some(b) => b,
        None => return None,
    };
    let source_len = source.len();
    let line_len = line.len();
    assert(close < line_len);
    assert(seg_start + close <= source_len);
    let label = Span::new(seg_start + open, seg_start + close);
    let ref_index = reference_count + 1;
    match definitions.resolve(source, label, ref_index) {
        None => None,
        Some((definition, index)) => Some(ReferenceMatch {
            label,
            definition,
            index,
            ref_index,
            advance: close + 1,
            bang: line[0] == BANG,
        }),
    }
}

} // verus!
