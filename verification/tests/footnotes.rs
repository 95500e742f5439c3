use rushdown_footnote::ast::{debug_list, decimal_string, FootnoteDefinition, FootnoteReference, Span};
use rushdown_footnote::definitions::{same_text, FootnoteDefinitions};
use rushdown_footnote::html::{
    backlinks_html, item_open_html, reference_html, section_close_html, section_open_html,
};
use rushdown_footnote::options::{FootnoteHtmlRendererOptions, FootnoteIdPrefix};
use rushdown_footnote::parse::{
    continuation_from_indent, continue_definition, definition_label, open_definition, parse_reference,
    reference_label, Continuation, DefinitionOpening,
};
use rushdown_footnote::render::{definition_step, footnote_section, DefinitionShape, DefinitionStep, RenderAction};
use rushdown_footnote::scan::find_label_close;

// Label scanning

#[test]
fn label_close_plain() {
    assert_eq!(find_label_close(b"[^abc]: x", 2), Some(5));
}

#[test]
fn label_close_skips_escaped_bracket() {
    assert_eq!(find_label_close(b"[^a\\]b]", 2), Some(6));
}

#[test]
fn label_close_backslash_before_other_byte() {
    assert_eq!(find_label_close(b"[^a\\b]", 2), Some(5));
}

#[test]
fn label_close_trailing_backslash_fails() {
    assert_eq!(find_label_close(b"[^ab\\", 2), None);
}

#[test]
fn label_close_missing() {
    assert_eq!(find_label_close(b"[^abc", 2), None);
}

// Definitions

#[test]
fn definition_label_found() {
    assert_eq!(definition_label(b"[^note]: text", Some(0)), Some((2, 6)));
}

#[test]
fn definition_label_needs_colon() {
    assert_eq!(definition_label(b"[^note] text", Some(0)), None);
    assert_eq!(definition_label(b"[^note]", Some(0)), None);
}

#[test]
fn definition_label_needs_caret_and_offset() {
    assert_eq!(definition_label(b"[note]: text", Some(0)), None);
    assert_eq!(definition_label(b"[^note]: text", None), None);
}

#[test]
fn open_definition_at_line_start() {
    let source = b"[^1]: And that's the footnote.\n";
    let line = &source[..];
    assert_eq!(
        open_definition(line, Some(0), 0, 0, source),
        Some(DefinitionOpening { label: Span::new(2, 3), advance: 5 })
    );
}

#[test]
fn open_definition_with_offset_and_padding() {
    // The line is two spaces of padding followed by the source from 10 on.
    let source = b"0123456789[^ab]: x\n";
    let mut line = b"  ".to_vec();
    line.extend_from_slice(&source[10..]);
    let res = open_definition(&line, Some(2), 10, 2, source);
    assert_eq!(res, Some(DefinitionOpening { label: Span::new(12, 14), advance: 8 }));
    assert_eq!(&source[12..14], b"ab");
}

#[test]
fn open_definition_rejects_blank_label() {
    let source = b"[^ \t ]: x\n";
    assert_eq!(open_definition(source, Some(0), 0, 0, source), None);
}

#[test]
fn open_definition_accepts_label_with_space() {
    let source = b"[^ a]: x\n";
    assert_eq!(
        open_definition(source, Some(0), 0, 0, source),
        Some(DefinitionOpening { label: Span::new(2, 4), advance: 6 })
    );
}

#[test]
fn continue_blank_line() {
    assert_eq!(continue_definition(b"  \t\n", 0), Some(Continuation::Blank));
    assert_eq!(continue_definition(b"", 0), Some(Continuation::Blank));
}

#[test]
fn continue_indented_line() {
    assert_eq!(
        continue_definition(b"    more text\n", 0),
        Some(Continuation::Indented { advance: 4, padding: 0 })
    );
    assert_eq!(
        continue_definition(b"      more\n", 0),
        Some(Continuation::Indented { advance: 4, padding: 0 })
    );
}

#[test]
fn continue_tab_indented_line() {
    assert_eq!(
        continue_definition(b"\tmore\n", 0),
        Some(Continuation::Indented { advance: 1, padding: 0 })
    );
    assert_eq!(
        continue_definition(b"  \tmore\n", 0),
        Some(Continuation::Indented { advance: 3, padding: 0 })
    );
    // A tab from column 1 reaches column 4 only: 3 columns, not enough.
    assert_eq!(continue_definition(b"\tx\n", 1), None);
    // From column 2, two spaces and a tab make 2 + 2 columns.
    assert_eq!(
        continue_definition(b"  \tx\n", 2),
        Some(Continuation::Indented { advance: 3, padding: 2 })
    );
}

#[test]
fn continue_closes_on_unindented_line() {
    assert_eq!(continue_definition(b"  text\n", 0), None);
    assert_eq!(continue_definition(b"text\n", 0), None);
}

#[test]
fn continuation_maps_indent() {
    assert_eq!(continuation_from_indent(None), None);
    assert_eq!(
        continuation_from_indent(Some((3, 1))),
        Some(Continuation::Indented { advance: 3, padding: 1 })
    );
}

// References

fn definitions_for(labels: &[Span]) -> FootnoteDefinitions {
    let mut defs = FootnoteDefinitions::new();
    for l in labels {
        defs.push(FootnoteDefinition::new(*l));
    }
    defs
}

#[test]
fn reference_label_found() {
    assert_eq!(reference_label(b"[^1] rest"), Some((2, 3)));
    assert_eq!(reference_label(b"![^12] rest"), Some((3, 5)));
    assert_eq!(reference_label(b"[1]"), None);
    assert_eq!(reference_label(b""), None);
    assert_eq!(reference_label(b"!"), None);
}

#[test]
fn reference_needs_bracket() {
    assert_eq!(reference_label(b"!x^1]"), None);
    assert_eq!(reference_label(b"x[^1]"), None);
    assert_eq!(reference_label(b"!^1]"), None);
    assert_eq!(reference_label(b"^1]"), None);
}

#[test]
fn bang_without_bracket_stays_text() {
    let source = b"a!x^1]\n\n[^1]: N\n";
    let mut defs = definitions_for(&[Span::new(10, 11)]);
    assert!(parse_reference(&source[1..], 1, source, &mut defs, 0).is_none());
    assert_eq!(defs.count(), 0);
    assert!(defs.get(0).references().is_empty());
}

#[test]
fn definition_needs_bracket() {
    assert_eq!(definition_label(b"x^a]: t", Some(0)), None);
    assert_eq!(definition_label(b"  [^a]: t", Some(2)), Some((4, 5)));
}

#[test]
fn same_text_compares_bytes() {
    let source = b"abcab";
    assert!(same_text(source, Span::new(0, 2), Span::new(3, 5)));
    assert!(!same_text(source, Span::new(0, 2), Span::new(2, 4)));
    assert!(!same_text(source, Span::new(0, 2), Span::new(0, 3)));
}

#[test]
fn reference_resolves_and_numbers() {
    // "Text.[^1]\n\n[^1]: Note.\n"
    let source = b"Text.[^1]\n\n[^1]: Note.\n";
    let mut defs = definitions_for(&[Span::new(13, 14)]);
    let m = parse_reference(&source[5..], 5, source, &mut defs, 0).expect("resolves");
    assert_eq!(m.label, Span::new(7, 8));
    assert_eq!(m.definition, 0);
    assert_eq!(m.index, 1);
    assert_eq!(m.ref_index, 1);
    assert_eq!(m.advance, 4);
    assert!(!m.bang);
    assert_eq!(defs.count(), 1);
    assert_eq!(defs.get(0).index(), 1);
    assert_eq!(defs.get(0).references(), &[1]);
}

#[test]
fn reference_with_bang() {
    let source = b"x![^a]\n[^a]: y\n";
    let mut defs = definitions_for(&[Span::new(9, 10)]);
    let m = parse_reference(&source[1..], 1, source, &mut defs, 3).expect("resolves");
    assert!(m.bang);
    assert_eq!(m.label, Span::new(4, 5));
    assert_eq!(m.advance, 5);
    assert_eq!(m.ref_index, 4);
    assert_eq!(m.index, 1);
}

#[test]
fn reference_to_unknown_label() {
    let source = b"[^b]\n[^a]: y\n";
    let mut defs = definitions_for(&[Span::new(7, 8)]);
    assert!(parse_reference(source, 0, source, &mut defs, 0).is_none());
    assert_eq!(defs.count(), 0);
    assert_eq!(defs.get(0).index(), 0);
    assert!(defs.get(0).references().is_empty());
}

#[test]
fn reference_without_definitions() {
    let source = b"[^a]";
    let mut defs = FootnoteDefinitions::new();
    assert!(parse_reference(source, 0, source, &mut defs, 0).is_none());
}

#[test]
fn first_definition_with_label_wins() {
    let source = b"[^a]\n[^a]: one\n[^a]: two\n";
    let mut defs = definitions_for(&[Span::new(7, 8), Span::new(17, 18)]);
    let m = parse_reference(source, 0, source, &mut defs, 0).expect("resolves");
    assert_eq!(m.definition, 0);
    assert_eq!(defs.get(1).index(), 0);
}

#[test]
fn numbers_follow_first_references() {
    // Definitions a, b, c in that order; references b, a, b.
    let source = b"abc[^b][^a][^b]";
    let mut defs = definitions_for(&[Span::new(0, 1), Span::new(1, 2), Span::new(2, 3)]);
    let r1 = parse_reference(&source[3..], 3, source, &mut defs, 0).unwrap();
    let r2 = parse_reference(&source[7..], 7, source, &mut defs, 1).unwrap();
    let r3 = parse_reference(&source[11..], 11, source, &mut defs, 2).unwrap();
    assert_eq!((r1.index, r1.ref_index), (1, 1));
    assert_eq!((r2.index, r2.ref_index), (2, 2));
    assert_eq!((r3.index, r3.ref_index), (1, 3));
    assert_eq!(defs.count(), 2);
    assert_eq!(defs.get(0).index(), 2);
    assert_eq!(defs.get(1).index(), 1);
    assert_eq!(defs.get(2).index(), 0);
    assert_eq!(defs.get(1).references(), &[1, 3]);
    assert_eq!(defs.get(0).references(), &[2]);
    assert_eq!(defs.render_order(), Some(vec![1, 0, 2]));
    let order = defs.render_order().unwrap();
    let numbers: Vec<usize> = order.iter().map(|&p| defs.get(p).index()).collect();
    assert_eq!(numbers, vec![1, 2, 0]);
}

#[test]
fn labels_within_source() {
    let defs = definitions_for(&[Span::new(0, 1), Span::new(2, 5)]);
    assert!(defs.labels_within(5));
    assert!(!defs.labels_within(4));
}

// Listing order

#[test]
fn render_order_nothing_to_list() {
    let defs = FootnoteDefinitions::new();
    assert_eq!(defs.render_order(), None);
    let defs = definitions_for(&[Span::new(0, 1), Span::new(1, 2)]);
    assert_eq!(defs.render_order(), None);
}

#[test]
fn render_order_sorts_by_first_reference_stably() {
    let mut defs = FootnoteDefinitions::new();
    defs.push(FootnoteDefinition::with_state(Span::new(0, 1), 0, vec![]));
    defs.push(FootnoteDefinition::with_state(Span::new(0, 1), 3, vec![5, 7]));
    defs.push(FootnoteDefinition::with_state(Span::new(0, 1), 1, vec![2]));
    defs.push(FootnoteDefinition::with_state(Span::new(0, 1), 0, vec![]));
    defs.push(FootnoteDefinition::with_state(Span::new(0, 1), 2, vec![4]));
    defs.push(FootnoteDefinition::with_state(Span::new(0, 1), 9, vec![2]));
    assert_eq!(defs.render_order(), Some(vec![2, 5, 4, 1, 0, 3]));
}

// HTML

#[test]
fn reference_html_default() {
    assert_eq!(
        reference_html("", 1, 1, "footnote-ref"),
        "<sup id=\"fnref:1\"><a href=\"#fn:1\" class=\"footnote-ref\" role=\"doc-noteref\">1</a></sup>"
    );
}

#[test]
fn reference_html_with_prefix() {
    assert_eq!(
        reference_html("doc-", 12, 3, "ref"),
        "<sup id=\"doc-fnref:12\"><a href=\"#doc-fn:3\" class=\"ref\" role=\"doc-noteref\">3</a></sup>"
    );
}

#[test]
fn section_html() {
    assert_eq!(
        section_open_html(false),
        "<div class=\"footnotes\" role=\"doc-endnotes\">\n<hr>\n<ol>\n"
    );
    assert_eq!(
        section_open_html(true),
        "<div class=\"footnotes\" role=\"doc-endnotes\">\n<hr />\n<ol>\n"
    );
    assert_eq!(section_close_html(), "</ol>\n</div>\n");
}

#[test]
fn item_html() {
    assert_eq!(item_open_html("", 2), "<li id=\"fn:2\">\n");
    assert_eq!(item_open_html("x-", 10), "<li id=\"x-fn:10\">\n");
}

#[test]
fn backlinks() {
    assert_eq!(backlinks_html("", &[], "footnote-backref", "&#x21a9;"), "");
    assert_eq!(
        backlinks_html("", &[1, 3], "footnote-backref", "&#x21a9;&#xfe0e;"),
        "&#160;<a href=\"#fnref:1\" class=\"footnote-backref\" role=\"doc-backlink\">&#x21a9;&#xfe0e;</a>\
         &#160;<a href=\"#fnref:3\" class=\"footnote-backref\" role=\"doc-backlink\">&#x21a9;&#xfe0e;</a>"
    );
}

#[test]
fn reference_and_backlink_agree() {
    let reference = reference_html("p", 4, 2, "c");
    let backlink = backlinks_html("p", &[4], "b", "h");
    let item = item_open_html("p", 2);
    assert!(reference.contains("id=\"pfnref:4\""));
    assert!(backlink.contains("href=\"#pfnref:4\""));
    assert!(reference.contains("href=\"#pfn:2\""));
    assert!(item.contains("id=\"pfn:2\""));
}

#[test]
fn decimal_strings() {
    assert_eq!(decimal_string(0), "0");
    assert_eq!(decimal_string(9), "9");
    assert_eq!(decimal_string(10), "10");
    assert_eq!(decimal_string(12345), "12345");
    assert_eq!(decimal_string(usize::MAX), usize::MAX.to_string());
}

#[test]
fn debug_lists() {
    assert_eq!(debug_list(&[]), format!("{:?}", Vec::<usize>::new()));
    assert_eq!(debug_list(&[1]), "[1]");
    assert_eq!(debug_list(&[1, 20, 3]), format!("{:?}", vec![1usize, 20, 3]));
}

#[test]
fn pretty_print_reference() {
    let r = FootnoteReference::new(Span::new(0, 1), 1, 2);
    assert_eq!(r.pretty_print("a", 1), "  Label: a\n  Index: 1\n  RefIndex: 2\n");
    assert_eq!(r.label(), &Span::new(0, 1));
    assert_eq!(r.index(), 1);
    assert_eq!(r.ref_index(), 2);
}

#[test]
fn pretty_print_definition() {
    let d = FootnoteDefinition::with_state(Span::new(0, 4), 3, vec![2, 5]);
    assert_eq!(d.pretty_print("note", 0), "Label: note\nIndex: 3\nReferences: [2, 5]\n");
    let d = FootnoteDefinition::new(Span::new(0, 4));
    assert_eq!(d.pretty_print("note", 2), "    Label: note\n    Index: 0\n    References: []\n");
}

#[test]
fn definition_add_reference() {
    let mut d = FootnoteDefinition::new(Span::new(1, 2));
    d.add_reference(4);
    d.add_reference(6);
    d.set_index(2);
    assert_eq!(d.references(), &[4, 6]);
    assert_eq!(d.index(), 2);
    assert_eq!(d.label(), &Span::new(1, 2));
}

// Options

fn fixed_prefix() -> String {
    "computed-".to_string()
}

#[test]
fn id_prefixes() {
    let empty: FootnoteIdPrefix<fn() -> String> = FootnoteIdPrefix::Empty;
    assert_eq!(empty.get_id(|f| f()), "");
    let value: FootnoteIdPrefix<fn() -> String> = FootnoteIdPrefix::Value("v-".to_string());
    assert_eq!(value.get_id(|f| f()), "v-");
    let function: FootnoteIdPrefix<fn() -> String> = FootnoteIdPrefix::Function(fixed_prefix);
    assert_eq!(function.get_id(|f| f()), "computed-");
}

#[test]
fn default_options() {
    let o: FootnoteHtmlRendererOptions<fn() -> String> = FootnoteHtmlRendererOptions::default();
    assert_eq!(o.link_class, "footnote-ref");
    assert_eq!(o.backlink_class, "footnote-backref");
    assert_eq!(o.backlink_html, "&#x21a9;&#xfe0e;");
    assert!(matches!(o.id_prefix, FootnoteIdPrefix::Empty));
}

// Rendering decisions

#[test]
fn definition_steps() {
    assert_eq!(definition_step(true, true), DefinitionStep::RenderContent);
    assert_eq!(definition_step(true, false), DefinitionStep::RenderContent);
    assert_eq!(definition_step(false, true), DefinitionStep::Collect);
    assert_eq!(definition_step(false, false), DefinitionStep::Skip);
}

fn describe(actions: &[RenderAction]) -> Vec<String> {
    actions
        .iter()
        .map(|a| match a {
            RenderAction::Html(s) => format!("html:{}", s),
            RenderAction::Safe(s) => format!("safe:{}", s),
            RenderAction::Child { definition, child } => format!("child:{}:{}", definition, child),
            RenderAction::ParagraphContent { definition } => format!("para:{}", definition),
        })
        .collect()
}

#[test]
fn footnote_section_nothing_referenced() {
    let defs = definitions_for(&[Span::new(0, 1)]);
    let shapes = [DefinitionShape { children: 1, last_is_paragraph: true }];
    assert!(footnote_section(&defs, &shapes, false, "", "b", "h").is_none());
}

#[test]
fn footnote_section_steps() {
    let mut defs = FootnoteDefinitions::new();
    defs.push(FootnoteDefinition::with_state(Span::new(0, 1), 2, vec![2]));
    defs.push(FootnoteDefinition::with_state(Span::new(0, 1), 1, vec![1]));
    defs.push(FootnoteDefinition::with_state(Span::new(0, 1), 0, vec![]));
    let shapes = [
        DefinitionShape { children: 2, last_is_paragraph: true },
        DefinitionShape { children: 2, last_is_paragraph: false },
        DefinitionShape { children: 0, last_is_paragraph: false },
    ];
    let actions = footnote_section(&defs, &shapes, false, "", "b", "h").unwrap();
    let expected = vec![
        "html:<div class=\"footnotes\" role=\"doc-endnotes\">\n<hr>\n<ol>\n".to_string(),
        "html:<li id=\"fn:1\">\n".to_string(),
        "child:1:0".to_string(),
        "child:1:1".to_string(),
        "html:&#160;<a href=\"#fnref:1\" class=\"b\" role=\"doc-backlink\">h</a>".to_string(),
        "html:</li>\n".to_string(),
        "html:<li id=\"fn:2\">\n".to_string(),
        "child:0:0".to_string(),
        "safe:<p>".to_string(),
        "para:0".to_string(),
        "html:&#160;<a href=\"#fnref:2\" class=\"b\" role=\"doc-backlink\">h</a>".to_string(),
        "safe:</p>\n".to_string(),
        "html:</li>\n".to_string(),
        "html:<li id=\"fn:0\">\n".to_string(),
        "html:".to_string(),
        "html:</li>\n".to_string(),
        "html:</ol>\n</div>\n".to_string(),
    ];
    assert_eq!(describe(&actions), expected);
}
