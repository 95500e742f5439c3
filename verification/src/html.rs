//! The HTML that footnotes are rendered to.

use vstd::prelude::*;
use vstd::string::*;

verus! {

/// The character of the decimal digit `d`.
pub open spec fn digit_char(d: nat) -> char {
    if d == 0 { '0' }
    else if d == 1 { '1' }
    else if d == 2 { '2' }
    else if d == 3 { '3' }
    else if d == 4 { '4' }
    else if d == 5 { '5' }
    else if d == 6 { '6' }
    else if d == 7 { '7' }
    else if d == 8 { '8' }
    else { '9' }
}

/// The decimal representation of `n`, without leading zeros.
pub open spec fn decimal(n: nat) -> Seq<char>
    decreases n,
{
    if n < 10 {
        seq![digit_char(n)]
    } else {
        decimal(n / 10).push(digit_char(n % 10))
    }
}

/// The one-character string of the decimal digit `d`.
fn digit_str(d: usize) -> (res: &'static str)
    requires
        d < 10,
    ensures
        res@ == seq![digit_char(d as nat)],
{
    proof {
        reveal_strlit("0");
        reveal_strlit("1");
        reveal_strlit("2");
        reveal_strlit("3");
        reveal_strlit("4");
        reveal_strlit("5");
        reveal_strlit("6");
        reveal_strlit("7");
        reveal_strlit("8");
        reveal_strlit("9");
    }
    if d == 0 { "0" }
    else if d == 1 { "1" }
    else if d == 2 { "2" }
    else if d == 3 { "3" }
    else if d == 4 { "4" }
    else if d == 5 { "5" }
    else if d == 6 { "6" }
    else if d == 7 { "7" }
    else if d == 8 { "8" }
    else { "9" }
}

/// Appends the decimal representation of `n` to `out`.
pub fn push_decimal(out: &mut String, n: usize)
    ensures
        final(out)@ == old(out)@ + decimal(n as nat),
    decreases n,
{
    if n >= 10 {
        push_decimal(out, n / 10);
    }
    out.append(digit_str(n % 10));
    proof {
        if n >= 10 {
            assert(decimal(n as nat) == decimal((n / 10) as nat).push(digit_char((n % 10) as nat)));
        }
    }
    assert(out@ =~= old(out)@ + decimal(n as nat));
}

/// The anchor that a reference links to its footnote with.
pub open spec fn reference_html_text(prefix: Seq<char>, ref_index: nat, index: nat, link_class: Seq<char>) -> Seq<char> {
    "<sup id=\""@ + prefix + "fnref:"@ + decimal(ref_index) + "\"><a href=\"#"@ + prefix + "fn:"@
        + decimal(index) + "\" class=\""@ + link_class + "\" role=\"doc-noteref\">"@ + decimal(index)
        + "</a></sup>"@
}

/// The HTML of a footnote reference.
pub fn reference_html(prefix: &str, ref_index: usize, index: usize, link_class: &str) -> (res: String)
    ensures
        res@ == reference_html_text(prefix@, ref_index as nat, index as nat, link_class@),
{
    let mut out = String::new();
    out.append("<sup id=\"");
    out.append(prefix);
    out.append("fnref:");
    push_decimal(&mut out, ref_index);
    out.append("\"><a href=\"#");
    out.append(prefix);
    out.append("fn:");
    push_decimal(&mut out, index);
    out.append("\" class=\"");
    out.append(link_class);
    out.append("\" role=\"doc-noteref\">");
    push_decimal(&mut out, index);
    out.append("</a></sup>");
    out
}

/// The start of the footnote list: a `div` with a rule and an ordered list.
pub open spec fn section_open_text(xhtml: bool) -> Seq<char> {
    "<div class=\"footnotes\" role=\"doc-endnotes\">"@ + "\n"@ + (if xhtml { "<hr />\n"@ } else { "<hr>\n"@ })
        + "<ol>\n"@
}

/// The HTML that opens the footnote list; `xhtml` selects the XHTML form of
/// the rule.
pub fn section_open_html(xhtml: bool) -> (res: String)
    ensures
        res@ == section_open_text(xhtml),
{
    let mut out = String::new();
    out.append("<div class=\"footnotes\" role=\"doc-endnotes\">");
    out.append("\n");
    if xhtml {
        out.append("<hr />\n");
    } else {
        out.append("<hr>\n");
    }
    out.append("<ol>\n");
    out
}

/// The end of the footnote list.
pub open spec fn section_close_text() -> Seq<char> {
    "</ol>\n"@ + "</div>\n"@
}

/// The HTML that closes the footnote list.
pub fn section_close_html() -> (res: String)
    ensures
        res@ == section_close_text(),
{
    let mut out = String::new();
    out.append("</ol>\n");
    out.append("</div>\n");
    out
}

/// The start of the list item of footnote number `index`.
pub open spec fn item_open_text(prefix: Seq<char>, index: nat) -> Seq<char> {
    "<li id=\""@ + prefix + "fn:"@ + decimal(index) + "\">\n"@
}

/// The HTML that opens the list item of footnote number `index`.
pub fn item_open_html(prefix: &str, index: usize) -> (res: String)
    ensures
        res@ == item_open_text(prefix@, index as nat),
{
    let mut out = String::new();
    out.append("<li id=\"");
    out.append(prefix);
    out.append("fn:");
    push_decimal(&mut out, index);
    out.append("\">\n");
    out
}

/// The link from a footnote back to its reference number `ref_index`.
pub open spec fn backlink_text(prefix: Seq<char>, ref_index: nat, class: Seq<char>, html: Seq<char>) -> Seq<char> {
    "&#160;<a href=\"#"@ + prefix + "fnref:"@ + decimal(ref_index) + "\" class=\""@ + class
        + "\" role=\"doc-backlink\">"@ + html + "</a>"@
}

/// The links from a footnote back to each of its references, in order.
pub open spec fn backlinks_text(prefix: Seq<char>, refs: Seq<usize>, class: Seq<char>, html: Seq<char>) -> Seq<char>
    decreases refs.len(),
{
    if refs.len() == 0 {
        Seq::empty()
    } else {
        backlinks_text(prefix, refs.drop_last(), class, html) + backlink_text(
            prefix,
            refs.last() as nat,
            class,
            html,
        )
    }
}

/// The HTML of the links from a footnote back to its references.
pub fn backlinks_html(prefix: &str, references: &[usize], class: &str, html: &str) -> (res: String)
    ensures
        res@ == backlinks_text(prefix@, references@, class@, html@),
{
    let mut out = String::new();
    let mut i: usize = 0;
    while i < references.len()
        invariant
            i <= references@.len(),
            out@ == backlinks_text(prefix@, references@.take(i as int), class@, html@),
        decreases references@.len() - i,
    {
        let ghost before = out@;
        out.append("&#160;<a href=\"#");
        out.append(prefix);
        out.append("fnref:");
        push_decimal(&mut out, references[i]);
        out.append("\" class=\"");
        out.append(class);
        out.append("\" role=\"doc-backlink\">");
        out.append(html);
        out.append("</a>");
        proof {
            let t = references@.take(i + 1);
            assert(t.drop_last() =~= references@.take(i as int));
            assert(t.last() == references@[i as int]);
            assert(out@ =~= before + backlink_text(prefix@, references@[i as int] as nat, class@, html@));
        }
        i = i + 1;
    }
    proof {
        assert(references@.take(references@.len() as int) =~= references@);
    }
    out
}

/// The tag that opens the paragraph wrapping a footnote's last lines.
pub fn paragraph_open_html() -> (res: String)
    ensures
        res@ == "<p>"@,
{
    String::from_str("<p>")
}

} // verus!
