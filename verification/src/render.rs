//! The decisions of the footnote renderers: which definitions are
//! collected while the document is walked, and what is written, in which
//! order, for the footnote list at the end of the document.

use vstd::prelude::*;
use vstd::string::*;
use crate::definitions::{has_references, is_listing_order, FootnoteDefinitions};
use crate::ast::DefinitionView;
use crate::html::{
    backlinks_html, backlinks_text, item_open_html, item_open_text,
    paragraph_open_html, section_close_html, section_close_text, section_open_html, section_open_text,
};

verus! {

/// What the renderer of a footnote definition does when the walk of the
/// document reaches it.
#[derive(Clone, Copy, Debug, PartialEq, Eq)]
pub enum DefinitionStep {
    /// The footnote list is being rendered: render the definition's content.
    RenderContent,
    /// Entering the definition in the document: set it aside for the
    /// footnote list and skip its content.
    Collect,
    /// Leaving the definition in the document: skip it.
    Skip,
}

/// The step for a definition node: while the footnote list is rendered its
/// content is rendered as usual; otherwise a definition is collected when it
/// is entered, and its content never rendered in place.
pub fn definition_step(rendering_list: bool, entering: bool) -> (res: DefinitionStep)
    ensures
        res == if rendering_list {
            DefinitionStep::RenderContent
        } else if entering {
            DefinitionStep::Collect
        } else {
            DefinitionStep::Skip
        },
{
    if rendering_list {
        DefinitionStep::RenderContent
    } else if entering {
        DefinitionStep::Collect
    } else {
        DefinitionStep::Skip
    }
}

/// The shape of a definition's content that the footnote list depends on:
/// how many children it has, and whether the last one is a paragraph.
#[derive(Clone, Copy, Debug, PartialEq, Eq)]
pub struct DefinitionShape {
    pub children: usize,
    pub last_is_paragraph: bool,
}

/// The last child of a definition is a paragraph, which the backlinks then
/// join.
pub open spec fn wraps_last_paragraph(shape: DefinitionShape) -> bool {
    shape.children > 0 && shape.last_is_paragraph
}

/// One step of writing the footnote list.
#[derive(Debug)]
pub enum RenderAction {
    /// Write HTML through the HTML writer.
    Html(String),
    /// Write a string that needs no escaping.
    Safe(String),
    /// Render child `child` of the definition at position `definition`.
    Child { definition: usize, child: usize },
    /// Render the children of the last child (a paragraph) of the
    /// definition at position `definition`.
    ParagraphContent { definition: usize },
}

/// A `RenderAction` as a value.
pub enum ActionView {
    Html(Seq<char>),
    Safe(Seq<char>),
    Child { definition: usize, child: usize },
    ParagraphContent { definition: usize },
}

impl View for RenderAction {
    type V = ActionView;

    open spec fn view(&self) -> ActionView {
        match self {
            RenderAction::Html(s) => ActionView::Html(s@),
            RenderAction::Safe(s) => ActionView::Safe(s@),
            RenderAction::Child { definition, child } => ActionView::Child {
                definition: *definition,
                child: *child,
            },
            RenderAction::ParagraphContent { definition } => ActionView::ParagraphContent {
                definition: *definition,
            },
        }
    }
}

/// The steps for the list item of the definition at position `pos`: the
/// item opens, the children are rendered (all but a last paragraph, whose
/// content is rendered inside `<p>` instead), the backlinks follow, then
/// the paragraph and the item close.
pub open spec fn item_actions(
    pos: usize,
    d: DefinitionView,
    shape: DefinitionShape,
    prefix: Seq<char>,
    class: Seq<char>,
    html: Seq<char>,
) -> Seq<ActionView> {
    let wraps = wraps_last_paragraph(shape);
    let rendered: nat = if wraps { (shape.children - 1) as nat } else { shape.children as nat };
    seq![ActionView::Html(item_open_text(prefix, d.index as nat))]
        + Seq::new(rendered, |c: int| ActionView::Child { definition: pos, child: c as usize })
        + (if wraps {
        seq![ActionView::Safe("<p>"@), ActionView::ParagraphContent { definition: pos }]
    } else {
        Seq::empty()
    }) + seq![ActionView::Html(backlinks_text(prefix, d.references, class, html))]
        + (if wraps { seq![ActionView::Safe("</p>\n"@)] } else { Seq::empty() })
        + seq![ActionView::Html("</li>\n"@)]
}

/// The steps for the list items of the definitions at the positions
/// `order`, one item after the other.
pub open spec fn items_actions(
    defs: Seq<DefinitionView>,
    shapes: Seq<DefinitionShape>,
    order: Seq<usize>,
    prefix: Seq<char>,
    class: Seq<char>,
    html: Seq<char>,
) -> Seq<ActionView>
    decreases order.len(),
{
    if order.len() == 0 {
        Seq::empty()
    } else {
        let pos = order.last();
        items_actions(defs, shapes, order.drop_last(), prefix, class, html) + item_actions(
            pos,
            defs[pos as int],
            shapes[pos as int],
            prefix,
            class,
            html,
        )
    }
}

/// The steps of writing the whole footnote list in the given order.
pub open spec fn section_actions(
    defs: Seq<DefinitionView>,
    shapes: Seq<DefinitionShape>,
    order: Seq<usize>,
    xhtml: bool,
    prefix: Seq<char>,
    class: Seq<char>,
    html: Seq<char>,
) -> Seq<ActionView> {
    seq![ActionView::Html(section_open_text(xhtml))] + items_actions(defs, shapes, order, prefix, class, html)
        + seq![ActionView::Html(section_close_text())]
}

/// The value of a list of actions.
pub open spec fn actions_view(actions: Seq<RenderAction>) -> Seq<ActionView> {
    actions.map_values(|a: RenderAction| a@)
}

/// Appends the steps for the list item of the definition at position `pos`.
fn push_item_actions(
    out: &mut Vec<RenderAction>,
    pos: usize,
    definitions: &FootnoteDefinitions,
    shape: DefinitionShape,
    prefix: &str,
    class: &str,
    html: &str,
)
    requires
        pos < definitions@.definitions.len(),
    ensures
        actions_view(final(out)@) == actions_view(old(out)@) + item_actions(
            pos,
            definitions@.definitions[pos as int],
            shape,
            prefix@,
            class@,
            html@,
        ),
{
    let d = definitions.get(pos);
    let ghost start = actions_view(out@);
    let wraps = shape.children > 0 && shape.last_is_paragraph;
    let rendered = if wraps { shape.children - 1 } else { shape.children };
    out.push(RenderAction::Html(item_open_html(prefix, d.index())));
    let ghost after_open = actions_view(out@);
    assert(after_open =~= start + seq![ActionView::Html(item_open_text(prefix@, d@.index as nat))]);
    let mut c: usize = 0;
    while c < rendered
        invariant
            c <= rendered,
            actions_view(out@) =~= after_open + Seq::new(
                c as nat,
                |k: int| ActionView::Child { definition: pos, child: k as usize },
            ),
        decreases rendered - c,
    {
        let ghost before = actions_view(out@);
        out.push(RenderAction::Child { definition: pos, child: c });
        proof {
            assert(actions_view(out@) =~= before.push(ActionView::Child { definition: pos, child: c }));
            assert(Seq::new((c + 1) as nat, |k: int| ActionView::Child { definition: pos, child: k as usize })
                =~= Seq::new(c as nat, |k: int| ActionView::Child { definition: pos, child: k as usize }).push(
                ActionView::Child { definition: pos, child: c },
            ));
        }
        c = c + 1;
    }
    let ghost after_children = actions_view(out@);
    if wraps {
        out.push(RenderAction::Safe(paragraph_open_html()));
        out.push(RenderAction::ParagraphContent { definition: pos });
    }
    let ghost after_paragraph = actions_view(out@);
    assert(after_paragraph =~= after_children + (if wraps {
        seq![ActionView::Safe("<p>"@), ActionView::ParagraphContent { definition: pos }]
    } else {
        Seq::empty()
    }));
    out.push(RenderAction::Html(backlinks_html(prefix, d.references(), class, html)));
    if wraps {
        out.push(RenderAction::Safe(String::from_str("</p>\n")));
    }
    let ghost after_backlinks = actions_view(out@);
    assert(after_backlinks =~= after_paragraph + seq![ActionView::Html(backlinks_text(prefix@, d@.references, class@, html@))]
        + (if wraps { seq![ActionView::Safe("</p>\n"@)] } else { Seq::empty() }));
    out.push(RenderAction::Html(String::from_str("</li>\n")));
    proof {
        let children = Seq::new(rendered as nat, |k: int| ActionView::Child { definition: pos, child: k as usize });
        let para = if wraps {
            seq![ActionView::Safe("<p>"@), ActionView::ParagraphContent { definition: pos }]
        } else {
            Seq::empty()
        };
        let trail = if wraps { seq![ActionView::Safe("</p>\n"@)] } else { Seq::empty() };
        let open = seq![ActionView::Html(item_open_text(prefix@, d@.index as nat))];
        let back = seq![ActionView::Html(backlinks_text(prefix@, d@.references, class@, html@))];
        let close = seq![ActionView::Html("</li>\n"@)];
        assert(actions_view(out@) =~= after_backlinks + close);
        assert(item_actions(pos, d@, shape, prefix@, class@, html@) == open + children + para + back + trail + close);
        assert(actions_view(out@) =~= start + (open + children + para + back + trail + close));
    }
}

/// What the footnote list writes, given the definitions collected from the
/// document and the shape of each one's content: `None` when no definition
/// has a reference, and nothing is written; otherwise the steps of
/// `section_actions` for the definitions in the order of `render_order`.
pub fn footnote_section(
    definitions: &FootnoteDefinitions,
    shapes: &[DefinitionShape],
    xhtml: bool,
    prefix: &str,
    backlink_class: &str,
    backlink_html: &str,
) -> (res: Option<Vec<RenderAction>>)
    requires
        shapes@.len() == definitions@.definitions.len(),
    ensures
        res is None <==> !has_references(definitions@.definitions),
        res matches Some(actions) ==> exists|order: Seq<usize>|
            is_listing_order(definitions@.definitions, order) && actions_view(actions@) == section_actions(
                definitions@.definitions,
                shapes@,
                order,
                xhtml,
                prefix@,
                backlink_class@,
                backlink_html@,
            ),
{
    let order = match definitions.render_order() {
        None => return None,
        Some(o) => o,
    };
    let ghost defs = definitions@.definitions;
    let mut out: Vec<RenderAction> = Vec::new();
    out.push(RenderAction::Html(section_open_html(xhtml)));
    let ghost start = actions_view(out@);
    assert(start =~= seq![ActionView::Html(section_open_text(xhtml))]);
    let mut k: usize = 0;
    while k < order.len()
        invariant
            is_listing_order(defs, order@),
            defs == definitions@.definitions,
            shapes@.len() == defs.len(),
            k <= order@.len(),
            actions_view(out@) == start + items_actions(
                defs,
                shapes@,
                order@.take(k as int),
                prefix@,
                backlink_class@,
                backlink_html@,
            ),
        decreases order@.len() - k,
    {
        let pos = order[k];
        assert(pos < defs.len());
        let ghost before = actions_view(out@);
        push_item_actions(&mut out, pos, definitions, shapes[pos], prefix, backlink_class, backlink_html);
        proof {
            let t = order@.take(k + 1);
            assert(t.drop_last() =~= order@.take(k as int));
            assert(t.last() == pos);
            assert(actions_view(out@) =~= start + items_actions(
                defs,
                shapes@,
                t,
                prefix@,
                backlink_class@,
                backlink_html@,
            ));
        }
        k = k + 1;
    }
    let ghost before_close = actions_view(out@);
    out.push(RenderAction::Html(section_close_html()));
    proof {
        assert(order@.take(order@.len() as int) =~= order@);
        assert(actions_view(out@) =~= before_close + seq![ActionView::Html(section_close_text())]);
        assert(actions_view(out@) == section_actions(
            defs,
            shapes@,
            order@,
            xhtml,
            prefix@,
            backlink_class@,
            backlink_html@,
        ));
    }
    Some(out)
}

} // verus!
