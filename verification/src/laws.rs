//! What the HTML and the syntax recognisers are for, stated over all inputs
//! and proved: numbers are written in decimal, every link of the footnote
//! machinery targets the id it names, every child of a footnote is
//! rendered, and labels are recognised from the bytes they are made of.

use vstd::prelude::*;
use crate::ast::DefinitionView;
use crate::parse::{definition_label_bounds, opened_definition, reference_label_bounds};
use crate::ast::list_items_text;
use crate::html::{section_close_text, section_open_text};
use crate::scan::{label_close_from, BACKSLASH, BANG, CARET, CLOSE_BRACKET, COLON, OPEN_BRACKET};
use crate::render::{item_actions, items_actions, ActionView, DefinitionShape};
use crate::html::{backlinks_text, decimal, digit_char, item_open_text, reference_html_text};

verus! {

/// The character is a decimal digit.
pub open spec fn is_digit(c: char) -> bool {
    '0' <= c && c <= '9'
}

/// The number that a string of decimal digits denotes.
pub open spec fn digits_value(s: Seq<char>) -> int
    decreases s.len(),
{
    if s.len() == 0 {
        0
    } else {
        digits_value(s.drop_last()) * 10 + (s.last() as int - '0' as int)
    }
}

/// The digit character of `d` stands `d` places after `0`.
proof fn lemma_digit_char(d: nat)
    requires
        d < 10,
    ensures
        digit_char(d) as int == '0' as int + d,
        is_digit(digit_char(d)),
{
    assert('0' as int == 48);
    assert('1' as int == 49);
    assert('2' as int == 50);
    assert('3' as int == 51);
    assert('4' as int == 52);
    assert('5' as int == 53);
    assert('6' as int == 54);
    assert('7' as int == 55);
    assert('8' as int == 56);
    assert('9' as int == 57);
}

/// `decimal(n)` is the decimal notation of `n`: it consists of digits, it
/// denotes `n`, and it has no leading zero (only `0` itself starts with one).
pub proof fn lemma_decimal_denotes(n: nat)
    ensures
        decimal(n).len() >= 1,
        forall|k: int| 0 <= k < decimal(n).len() ==> is_digit(#[trigger] decimal(n)[k]),
        digits_value(decimal(n)) == n,
        decimal(n)[0] == '0' ==> n == 0,
    decreases n,
{
    lemma_digit_char(n % 10);
    if n < 10 {
        assert(decimal(n) =~= seq![digit_char(n)]);
        assert(decimal(n).drop_last() =~= Seq::<char>::empty());
        assert(digits_value(Seq::<char>::empty()) == 0);
        assert(n % 10 == n);
        assert(digits_value(decimal(n)) == digits_value(decimal(n).drop_last()) * 10 + (decimal(n).last() as int
            - '0' as int));
    } else {
        lemma_decimal_denotes(n / 10);
        let s = decimal(n);
        assert(s.drop_last() =~= decimal(n / 10));
        assert(s[0] == decimal(n / 10)[0]);
        assert forall|k: int| 0 <= k < s.len() implies is_digit(#[trigger] s[k]) by {
            if k < s.len() - 1 {
                assert(s[k] == decimal(n / 10)[k]);
            }
        }
        assert(s.last() == digit_char(n % 10));
        assert(n == (n / 10) * 10 + n % 10) by (nonlinear_arith);
        assert(digits_value(s) == digits_value(s.drop_last()) * 10 + (s.last() as int - '0' as int));
        assert(digits_value(s) == (n / 10) as int * 10 + (n % 10) as int);
    }
}

/// The id that the reference numbered `r` carries.
pub open spec fn reference_id(prefix: Seq<char>, r: nat) -> Seq<char> {
    prefix + "fnref:"@ + decimal(r)
}

/// The id that the list item of footnote number `i` carries.
pub open spec fn footnote_id(prefix: Seq<char>, i: nat) -> Seq<char> {
    prefix + "fn:"@ + decimal(i)
}

/// `a` starts `a + b` and `b` ends it.
proof fn lemma_concat_ends(a: Seq<char>, b: Seq<char>)
    ensures
        a.is_prefix_of(a + b),
        b.is_suffix_of(a + b),
{
    assert(a =~= (a + b).subrange(0, a.len() as int));
    assert(b =~= (a + b).subrange(a.len() as int, (a + b).len() as int));
}

/// The HTML of a reference carries the reference's own id, links to the id
/// of its footnote's list item, and shows that footnote's number: it starts
/// with `<sup id="ID"><a href="#FN"`, where `ID` is the id of reference
/// `ref_index` and `FN` the id of footnote `index`, and it ends with
/// `>` + the decimal of `index` + `</a></sup>`. The list item of footnote
/// `index` carries the id `FN`.
pub proof fn lemma_reference_links_to_its_footnote(
    prefix: Seq<char>,
    ref_index: nat,
    index: nat,
    link_class: Seq<char>,
)
    ensures
        ("<sup id=\""@ + reference_id(prefix, ref_index) + "\"><a href=\"#"@ + footnote_id(prefix, index) + "\""@)
            .is_prefix_of(reference_html_text(prefix, ref_index, index, link_class)),
        (">"@ + decimal(index) + "</a></sup>"@).is_suffix_of(
            reference_html_text(prefix, ref_index, index, link_class),
        ),
        item_open_text(prefix, index) == "<li id=\""@ + footnote_id(prefix, index) + "\">\n"@,
{
    reveal_strlit("\" class=\"");
    reveal_strlit("\"");
    reveal_strlit(" class=\"");
    reveal_strlit("\" role=\"doc-noteref\">");
    reveal_strlit("\" role=\"doc-noteref\"");
    reveal_strlit(">");
    let t = reference_html_text(prefix, ref_index, index, link_class);
    let head = "<sup id=\""@ + reference_id(prefix, ref_index) + "\"><a href=\"#"@ + footnote_id(prefix, index) + "\""@;
    let rest = " class=\""@ + link_class + "\" role=\"doc-noteref\">"@ + decimal(index) + "</a></sup>"@;
    assert("\" class=\""@ =~= "\""@ + " class=\""@);
    assert(t =~= head + rest);
    lemma_concat_ends(head, rest);
    let front = "<sup id=\""@ + prefix + "fnref:"@ + decimal(ref_index) + "\"><a href=\"#"@ + prefix + "fn:"@
        + decimal(index) + "\" class=\""@ + link_class + "\" role=\"doc-noteref\""@;
    let tail = ">"@ + decimal(index) + "</a></sup>"@;
    assert("\" role=\"doc-noteref\">"@ =~= "\" role=\"doc-noteref\""@ + ">"@);
    assert(t =~= front + tail);
    lemma_concat_ends(front, tail);
    assert(item_open_text(prefix, index) =~= "<li id=\""@ + footnote_id(prefix, index) + "\">\n"@);
}

/// The backlink to the reference numbered `r`: a link to that reference's id.
pub open spec fn backlink_to(prefix: Seq<char>, r: usize, class: Seq<char>, html: Seq<char>) -> Seq<char> {
    "&#160;<a href=\"#"@ + reference_id(prefix, r as nat) + "\" class=\""@ + class + "\" role=\"doc-backlink\">"@
        + html + "</a>"@
}

/// The backlinks of a footnote are, in the order of `refs`, one link to the
/// id of each of its references, all under the same prefix.
pub proof fn lemma_backlinks_link_to_references(
    prefix: Seq<char>,
    refs: Seq<usize>,
    class: Seq<char>,
    html: Seq<char>,
)
    ensures
        backlinks_text(prefix, refs, class, html) == refs.map_values(
            |r: usize| backlink_to(prefix, r, class, html),
        ).flatten(),
    decreases refs.len(),
{
    let f = |r: usize| backlink_to(prefix, r, class, html);
    if refs.len() == 0 {
        assert(refs.map_values(f) =~= Seq::<Seq<char>>::empty());
    } else {
        lemma_backlinks_link_to_references(prefix, refs.drop_last(), class, html);
        assert(refs.map_values(f) =~= refs.drop_last().map_values(f).push(f(refs.last())));
        refs.drop_last().map_values(f).lemma_flatten_push(f(refs.last()));
        assert(backlink_to(prefix, refs.last(), class, html) =~= crate::html::backlink_text(
            prefix,
            refs.last() as nat,
            class,
            html,
        ));
    }
}

/// The list item of a footnote renders all of the footnote's content: it
/// opens with the item's id, renders every child in turn, except that a
/// last child that is a paragraph has its content rendered inside `<p>`,
/// which also holds the backlinks; then the item closes.
pub proof fn lemma_item_renders_every_child(
    pos: usize,
    d: DefinitionView,
    shape: DefinitionShape,
    prefix: Seq<char>,
    class: Seq<char>,
    html: Seq<char>,
)
    ensures
        item_actions(pos, d, shape, prefix, class, html)[0] == ActionView::Html(
            "<li id=\""@ + footnote_id(prefix, d.index as nat) + "\">\n"@,
        ),
        forall|c: usize|
            c < shape.children && !(shape.last_is_paragraph && c == shape.children - 1)
                ==> #[trigger] item_actions(pos, d, shape, prefix, class, html).contains(
                ActionView::Child { definition: pos, child: c },
            ),
        forall|def: usize, c: usize|
            #[trigger] item_actions(pos, d, shape, prefix, class, html).contains(
                ActionView::Child { definition: def, child: c },
            ) ==> def == pos && c < shape.children && !(shape.last_is_paragraph && c == shape.children - 1),
        item_actions(pos, d, shape, prefix, class, html).contains(ActionView::ParagraphContent { definition: pos })
            <==> (shape.children > 0 && shape.last_is_paragraph),
        shape.children > 0 && shape.last_is_paragraph ==> seq![
            ActionView::Safe("<p>"@),
            ActionView::ParagraphContent { definition: pos },
            ActionView::Html(backlinks_text(prefix, d.references, class, html)),
            ActionView::Safe("</p>\n"@),
            ActionView::Html("</li>\n"@),
        ].is_suffix_of(item_actions(pos, d, shape, prefix, class, html)),
        !(shape.children > 0 && shape.last_is_paragraph) ==> seq![
            ActionView::Html(backlinks_text(prefix, d.references, class, html)),
            ActionView::Html("</li>\n"@),
        ].is_suffix_of(item_actions(pos, d, shape, prefix, class, html)),
{
    let a = item_actions(pos, d, shape, prefix, class, html);
    let wraps = shape.children > 0 && shape.last_is_paragraph;
    let rendered: nat = if wraps { (shape.children - 1) as nat } else { shape.children as nat };
    let open = seq![ActionView::Html(crate::html::item_open_text(prefix, d.index as nat))];
    let children = Seq::new(rendered, |c: int| ActionView::Child { definition: pos, child: c as usize });
    let para = if wraps {
        seq![ActionView::Safe("<p>"@), ActionView::ParagraphContent { definition: pos }]
    } else {
        Seq::empty()
    };
    let back = seq![ActionView::Html(backlinks_text(prefix, d.references, class, html))];
    let trail = if wraps { seq![ActionView::Safe("</p>\n"@)] } else { Seq::empty() };
    let close = seq![ActionView::Html("</li>\n"@)];
    assert(a == open + children + para + back + trail + close);
    lemma_reference_links_to_its_footnote(prefix, 0, d.index as nat, Seq::empty());
    assert(a[0] == open[0]);
    assert forall|c: usize|
        c < shape.children && !(shape.last_is_paragraph && c == shape.children - 1)
            implies #[trigger] a.contains(ActionView::Child { definition: pos, child: c }) by {
        assert(a[1 + c as int] == children[c as int]);
    }
    let tail = para + back + trail + close;
    assert(a =~= open + children + tail);
    assert forall|def: usize, c: usize|
        #[trigger] a.contains(ActionView::Child { definition: def, child: c })
            implies def == pos && c < shape.children && !(shape.last_is_paragraph && c == shape.children - 1) by {
        let i = choose|i: int| 0 <= i < a.len() && a[i] == ActionView::Child { definition: def, child: c };
        if i == 0 {
            assert(a[0] == open[0]);
        } else if i < 1 + rendered {
            assert(a[i] == children[i - 1]);
        } else {
            let j = i - 1 - rendered;
            assert(a[i] == tail[j]);
            if wraps {
                assert(tail =~= seq![
                    ActionView::Safe("<p>"@),
                    ActionView::ParagraphContent { definition: pos },
                    ActionView::Html(backlinks_text(prefix, d.references, class, html)),
                    ActionView::Safe("</p>\n"@),
                    ActionView::Html("</li>\n"@),
                ]);
            } else {
                assert(tail =~= seq![
                    ActionView::Html(backlinks_text(prefix, d.references, class, html)),
                    ActionView::Html("</li>\n"@),
                ]);
            }
        }
    }
    if wraps {
        let sfx = seq![
            ActionView::Safe("<p>"@),
            ActionView::ParagraphContent { definition: pos },
            ActionView::Html(backlinks_text(prefix, d.references, class, html)),
            ActionView::Safe("</p>\n"@),
            ActionView::Html("</li>\n"@),
        ];
        assert(tail =~= sfx);
        assert(a[(1 + rendered + 1) as int] == ActionView::ParagraphContent { definition: pos });
        assert(sfx =~= a.subrange((a.len() - sfx.len()) as int, a.len() as int));
    } else {
        let sfx = seq![
            ActionView::Html(backlinks_text(prefix, d.references, class, html)),
            ActionView::Html("</li>\n"@),
        ];
        assert(tail =~= sfx);
        assert(sfx =~= a.subrange((a.len() - sfx.len()) as int, a.len() as int));
        if a.contains(ActionView::ParagraphContent { definition: pos }) {
            let i = choose|i: int| 0 <= i < a.len() && a[i] == ActionView::ParagraphContent { definition: pos };
            if i == 0 {
                assert(a[0] == open[0]);
            } else if i < 1 + rendered {
                assert(a[i] == children[i - 1]);
            } else {
                assert(a[i] == tail[i - 1 - rendered]);
            }
        }
    }
}

/// The footnote list holds, one after the other and each exactly once, the
/// list items of the definitions in `order`.
pub proof fn lemma_list_holds_each_item(
    defs: Seq<DefinitionView>,
    shapes: Seq<DefinitionShape>,
    order: Seq<usize>,
    prefix: Seq<char>,
    class: Seq<char>,
    html: Seq<char>,
)
    ensures
        items_actions(defs, shapes, order, prefix, class, html) == order.map_values(
            |pos: usize| item_actions(pos, defs[pos as int], shapes[pos as int], prefix, class, html),
        ).flatten(),
    decreases order.len(),
{
    let f = |pos: usize| item_actions(pos, defs[pos as int], shapes[pos as int], prefix, class, html);
    if order.len() == 0 {
        assert(order.map_values(f) =~= Seq::<Seq<ActionView>>::empty());
    } else {
        lemma_list_holds_each_item(defs, shapes, order.drop_last(), prefix, class, html);
        assert(order.map_values(f) =~= order.drop_last().map_values(f).push(f(order.last())));
        order.drop_last().map_values(f).lemma_flatten_push(f(order.last()));
    }
}

/// The closing `]` that a scan finds depends only on the bytes up to it.
proof fn lemma_close_depends_on_prefix(l: Seq<u8>, l2: Seq<u8>, cur: int, c: int)
    requires
        0 <= cur,
        label_close_from(l, cur) == Some(c),
        c < l2.len(),
        forall|k: int| 0 <= k <= c ==> #[trigger] l2[k] == l[k],
    ensures
        label_close_from(l2, cur) == Some(c),
    decreases l.len() - cur,
{
    crate::scan::lemma_label_close_in_line(l, cur);
    if l[cur] == BACKSLASH {
        assert(l2[cur] == l[cur]);
        assert(cur + 1 <= c);
        assert(l2[cur + 1] == l[cur + 1]);
        if l[cur + 1] == CLOSE_BRACKET {
            lemma_close_depends_on_prefix(l, l2, cur + 2, c);
        } else {
            lemma_close_depends_on_prefix(l, l2, cur + 1, c);
        }
    } else if l[cur] == CLOSE_BRACKET {
        assert(l2[cur] == l[cur]);
    } else {
        assert(l2[cur] == l[cur]);
        lemma_close_depends_on_prefix(l, l2, cur + 1, c);
    }
}

/// A byte that may stand in a label without special meaning.
pub open spec fn plain_label_byte(b: u8) -> bool {
    b != CLOSE_BRACKET && b != BACKSLASH
}

/// Scanning over plain label bytes reaches the `]` that follows them.
proof fn lemma_close_after_plain(line: Seq<u8>, cur: int, m: int)
    requires
        0 <= cur,
        0 <= m,
        cur + m < line.len(),
        forall|k: int| cur <= k < cur + m ==> plain_label_byte(#[trigger] line[k]),
        line[cur + m] == CLOSE_BRACKET,
    ensures
        label_close_from(line, cur) == Some(cur + m),
    decreases m,
{
    if m > 0 {
        assert(plain_label_byte(line[cur]));
        lemma_close_after_plain(line, cur + 1, m - 1);
    }
}

/// Whether a line opens a footnote definition depends only on its bytes up
/// to the colon after the label: whatever follows the colon (text, a space,
/// or nothing at all) leaves the answer and the label unchanged.
pub proof fn lemma_definition_needs_only_its_marker(line: Seq<u8>, block_offset: Option<usize>, tail: Seq<u8>)
    requires
        definition_label_bounds(line, block_offset) is Some,
    ensures
        ({
            let (open, close) = definition_label_bounds(line, block_offset).unwrap();
            definition_label_bounds(line.subrange(0, close + 2) + tail, block_offset) == Some((open, close))
        }),
{
    let (open, close) = definition_label_bounds(line, block_offset).unwrap();
    let offset = block_offset.unwrap();
    crate::scan::lemma_label_close_in_line(line, offset + 2);
    let l2 = line.subrange(0, close + 2) + tail;
    assert forall|k: int| 0 <= k <= close + 1 implies #[trigger] l2[k] == line[k] by {}
    lemma_close_depends_on_prefix(line, l2, offset + 2, close);
    assert(l2[offset as int] == line[offset as int]);
    assert(l2[offset + 1] == line[offset + 1]);
    assert(l2[close + 1] == line[close + 1]);
}

/// Every label made of plain bytes opens a definition: a line that holds
/// `[^label]:` at the block's offset, followed by anything, opens a
/// definition whose label is exactly those bytes.
pub proof fn lemma_definition_marker_opens(before: Seq<u8>, label: Seq<u8>, tail: Seq<u8>)
    requires
        before.len() < usize::MAX,
        forall|k: int| 0 <= k < label.len() ==> plain_label_byte(#[trigger] label[k]),
    ensures
        definition_label_bounds(
            before + seq![OPEN_BRACKET, CARET] + label + seq![CLOSE_BRACKET, COLON] + tail,
            Some(before.len() as usize),
        ) == Some((before.len() + 2int, before.len() + 2 + label.len() as int)),
{
    let line = before + seq![OPEN_BRACKET, CARET] + label + seq![CLOSE_BRACKET, COLON] + tail;
    let b = before.len() as int;
    assert(line[b] == OPEN_BRACKET);
    assert(line[b + 1] == CARET);
    assert forall|k: int| b + 2 <= k < b + 2 + label.len() implies plain_label_byte(#[trigger] line[k]) by {
        assert(line[k] == label[k - b - 2]);
    }
    assert(line[b + 2 + label.len()] == CLOSE_BRACKET);
    assert(line[b + 3 + label.len()] == COLON);
    lemma_close_after_plain(line, b + 2, label.len() as int);
}

/// Every label made of plain bytes is a reference: a line that starts with
/// `[^label]`, or with `![^label]`, is a reference whose label is exactly
/// those bytes, whatever they are and whatever follows.
pub proof fn lemma_reference_marker_found(label: Seq<u8>, tail: Seq<u8>)
    requires
        forall|k: int| 0 <= k < label.len() ==> plain_label_byte(#[trigger] label[k]),
    ensures
        reference_label_bounds(seq![OPEN_BRACKET, CARET] + label + seq![CLOSE_BRACKET] + tail) == Some(
            (2int, 2 + label.len() as int),
        ),
        reference_label_bounds(seq![BANG, OPEN_BRACKET, CARET] + label + seq![CLOSE_BRACKET] + tail) == Some(
            (3int, 3 + label.len() as int),
        ),
{
    let l1 = seq![OPEN_BRACKET, CARET] + label + seq![CLOSE_BRACKET] + tail;
    assert(l1[0] == OPEN_BRACKET);
    assert(l1[1] == CARET);
    assert forall|k: int| 2 <= k < 2 + label.len() implies plain_label_byte(#[trigger] l1[k]) by {
        assert(l1[k] == label[k - 2]);
    }
    assert(l1[2 + label.len() as int] == CLOSE_BRACKET);
    lemma_close_after_plain(l1, 2, label.len() as int);
    let l2 = seq![BANG, OPEN_BRACKET, CARET] + label + seq![CLOSE_BRACKET] + tail;
    assert(l2[0] == BANG);
    assert(l2[1] == OPEN_BRACKET);
    assert(l2[2] == CARET);
    assert forall|k: int| 3 <= k < 3 + label.len() implies plain_label_byte(#[trigger] l2[k]) by {
        assert(l2[k] == label[k - 3]);
    }
    assert(l2[3 + label.len() as int] == CLOSE_BRACKET);
    lemma_close_after_plain(l2, 3, label.len() as int);
}

/// A definition's marker, written at the start of a line, is read as a
/// reference with the same label: whatever label opens a definition can be
/// referred to.
pub proof fn lemma_definition_label_is_reference_label(line: Seq<u8>)
    requires
        definition_label_bounds(line, Some(0usize)) is Some,
    ensures
        reference_label_bounds(line) == definition_label_bounds(line, Some(0usize)),
{
}

/// The label of an opened definition is the text between `[^` and `]` on
/// its line: with the line made of `padding` spaces followed by the source
/// from `seg_start` on, the label's span in the source spells exactly the
/// line's bytes from the label's first byte to the closing `]`.
pub proof fn lemma_definition_label_is_its_text(
    line: Seq<u8>,
    block_offset: Option<usize>,
    seg_start: usize,
    padding: usize,
    source: Seq<u8>,
)
    requires
        definition_label_bounds(line, block_offset) matches Some((open, close)) && padding <= open,
        padding <= line.len(),
        seg_start + line.len() <= usize::MAX,
        seg_start + line.len() - padding <= source.len(),
        line.subrange(padding as int, line.len() as int) == source.subrange(
            seg_start as int,
            seg_start + line.len() - padding,
        ),
        opened_definition(line, block_offset, seg_start, padding, source) is Some,
    ensures
        ({
            let (open, close) = definition_label_bounds(line, block_offset).unwrap();
            let d = opened_definition(line, block_offset, seg_start, padding, source).unwrap();
            &&& d.label.text(source) == line.subrange(open, close)
            &&& line[close] == CLOSE_BRACKET
            &&& line[close + 1] == COLON
            &&& d.advance == close + 2
        }),
{
    let (open, close) = definition_label_bounds(line, block_offset).unwrap();
    let offset = block_offset.unwrap();
    crate::scan::lemma_label_close_in_line(line, offset + 2);
    let d = opened_definition(line, block_offset, seg_start, padding, source).unwrap();
    let part = line.subrange(padding as int, line.len() as int);
    assert(d.label.start == seg_start + open - padding);
    assert(d.label.stop == seg_start + close - padding);
    assert forall|k: int| 0 <= k < close - open implies #[trigger] d.label.text(source)[k] == line.subrange(open, close)[k] by {
        assert(part[open - padding + k] == line[open + k]);
        assert(source[seg_start + open - padding + k] == part[open - padding + k]);
    }
    assert(d.label.text(source) =~= line.subrange(open, close));
}

/// The label of a reference is the text between `[^` and `]` at the start
/// of its line: with the source from `seg_start` on starting with the line,
/// the label's span in the source spells exactly those bytes.
pub proof fn lemma_reference_label_is_its_text(line: Seq<u8>, seg_start: int, source: Seq<u8>)
    requires
        reference_label_bounds(line) is Some,
        0 <= seg_start,
        seg_start + line.len() <= source.len(),
        source.subrange(seg_start, seg_start + line.len()) == line,
    ensures
        ({
            let (open, close) = reference_label_bounds(line).unwrap();
            &&& source.subrange(seg_start + open, seg_start + close) == line.subrange(open, close)
            &&& line[open - 2] == OPEN_BRACKET
            &&& line[open - 1] == CARET
            &&& line[close] == CLOSE_BRACKET
        }),
{
    let (open, close) = reference_label_bounds(line).unwrap();
    let pos: int = if line[0] == BANG { 2 } else { 1 };
    crate::scan::lemma_label_close_in_line(line, pos + 1);
    assert forall|k: int| 0 <= k < close - open implies #[trigger] source.subrange(seg_start + open, seg_start + close)[k]
        == line.subrange(open, close)[k] by {
        assert(source.subrange(seg_start, seg_start + line.len())[open + k] == line[open + k]);
    }
    assert(source.subrange(seg_start + open, seg_start + close) =~= line.subrange(open, close));
}

/// The footnote list opens with its `div`, a rule and the ordered list, and
/// closes them again; the `xhtml` option changes only the form of the rule.
pub proof fn lemma_section_frame(xhtml: bool)
    ensures
        section_open_text(xhtml) == "<div class=\"footnotes\" role=\"doc-endnotes\">\n"@ + (if xhtml {
            "<hr />"@
        } else {
            "<hr>"@
        }) + "\n<ol>\n"@,
        section_close_text() == "</ol>\n</div>\n"@,
{
    reveal_strlit("<div class=\"footnotes\" role=\"doc-endnotes\">\n");
    reveal_strlit("<div class=\"footnotes\" role=\"doc-endnotes\">");
    reveal_strlit("\n");
    reveal_strlit("<hr />\n");
    reveal_strlit("<hr />");
    reveal_strlit("<hr>\n");
    reveal_strlit("<hr>");
    reveal_strlit("<ol>\n");
    reveal_strlit("\n<ol>\n");
    reveal_strlit("</ol>\n");
    reveal_strlit("</div>\n");
    reveal_strlit("</ol>\n</div>\n");
    assert(section_open_text(xhtml) =~= "<div class=\"footnotes\" role=\"doc-endnotes\">\n"@ + (if xhtml {
        "<hr />"@
    } else {
        "<hr>"@
    }) + "\n<ol>\n"@);
    assert(section_close_text() =~= "</ol>\n</div>\n"@);
}

/// The numbers of a list as the pretty printer writes them: each in
/// decimal, in order, separated by `, `.
pub proof fn lemma_list_items_in_order(refs: Seq<usize>)
    ensures
        list_items_text(refs) == refs.map(
            |k: int, r: usize| if k == 0 { decimal(r as nat) } else { ", "@ + decimal(r as nat) },
        ).flatten(),
    decreases refs.len(),
{
    let f = |k: int, r: usize| if k == 0 { decimal(r as nat) } else { ", "@ + decimal(r as nat) };
    if refs.len() == 0 {
        assert(refs.map(f) =~= Seq::<Seq<char>>::empty());
    } else {
        lemma_list_items_in_order(refs.drop_last());
        assert(refs.map(f) =~= refs.drop_last().map(f).push(f(refs.len() - 1, refs.last())));
        refs.drop_last().map(f).lemma_flatten_push(f(refs.len() - 1, refs.last()));
        if refs.len() == 1 {
            assert(refs.drop_last().map(f) =~= Seq::<Seq<char>>::empty());
            assert(refs.last() == refs[0]);
        }
    }
}

} // verus!
