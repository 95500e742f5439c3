//! The list of footnote definitions of a document: how references find
//! their definition, how footnotes get their numbers, and in which order
//! they are listed.

use vstd::prelude::*;
use crate::ast::{DefinitionView, FootnoteDefinition, Span};

verus! {

/// The definitions of a document and the number of footnotes numbered so far.
pub struct FootnoteDefinitions {
    definitions: Vec<FootnoteDefinition>,
    count: usize,
}

/// What a `FootnoteDefinitions` holds, as values.
pub struct DefinitionsView {
    pub definitions: Seq<DefinitionView>,
    pub count: usize,
}

impl View for FootnoteDefinitions {
    type V = DefinitionsView;

    closed spec fn view(&self) -> DefinitionsView {
        DefinitionsView {
            definitions: self.definitions@.map_values(|d: FootnoteDefinition| d@),
            count: self.count,
        }
    }
}

/// The definition's label spells the same text as `label`.
pub open spec fn same_label(d: DefinitionView, source: Seq<u8>, label: Span) -> bool {
    d.label.text(source) == label.text(source)
}

/// Every label of `defs` lies inside a source of `len` bytes.
pub open spec fn labels_within(defs: Seq<DefinitionView>, len: nat) -> bool {
    forall|i: int| 0 <= i < defs.len() ==> (#[trigger] defs[i]).label.within(len)
}

/// Some definition of `defs` has the number `k`.
pub open spec fn number_in_use(defs: Seq<DefinitionView>, k: int) -> bool {
    exists|i: int| 0 <= i < defs.len() && #[trigger] defs[i].index == k
}

/// Some definition of `defs` holds the reference number `r`.
pub open spec fn reference_in_use(defs: Seq<DefinitionView>, r: int) -> bool {
    exists|i: int, a: int|
        0 <= i < defs.len() && 0 <= a < defs[i].references.len() && #[trigger] defs[i].references[a] == r
}

/// The numbering that references give to a list of definitions, after
/// `total` references have found their definition:
/// - a definition has a number exactly when it has references;
/// - the numbers in use are `1..=count`, each held by one definition;
/// - the reference numbers in use are `1..=total`, each held once, in
///   increasing order within each definition;
/// - of two referenced definitions, the one whose first reference comes
///   first has the smaller number.
pub open spec fn numbered(defs: Seq<DefinitionView>, count: nat, total: nat) -> bool {
    &&& forall|i: int| 0 <= i < defs.len() ==> ((#[trigger] defs[i]).index == 0 <==> defs[i].references.len() == 0)
    &&& forall|i: int| 0 <= i < defs.len() ==> (#[trigger] defs[i]).index <= count
    &&& forall|i: int, j: int|
        0 <= i < defs.len() && 0 <= j < defs.len() && i != j && #[trigger] defs[i].index > 0
            ==> defs[i].index != #[trigger] defs[j].index
    &&& forall|k: int| 1 <= k <= count ==> #[trigger] number_in_use(defs, k)
    &&& forall|i: int, a: int, b: int|
        0 <= i < defs.len() && 0 <= a < b < defs[i].references.len()
            ==> #[trigger] defs[i].references[a] < #[trigger] defs[i].references[b]
    &&& forall|i: int, a: int|
        0 <= i < defs.len() && 0 <= a < defs[i].references.len()
            ==> 1 <= #[trigger] defs[i].references[a] <= total
    &&& forall|i: int, j: int|
        0 <= i < defs.len() && 0 <= j < defs.len() && defs[i].references.len() > 0
            && defs[j].references.len() > 0
            ==> (#[trigger] defs[i].index < #[trigger] defs[j].index <==> defs[i].references[0]
            < defs[j].references[0])
    &&& forall|i: int, j: int, a: int, b: int|
        0 <= i < defs.len() && 0 <= j < defs.len() && i != j && 0 <= a < defs[i].references.len()
            && 0 <= b < defs[j].references.len()
            ==> #[trigger] defs[i].references[a] != #[trigger] defs[j].references[b]
    &&& forall|r: int| 1 <= r <= total ==> #[trigger] reference_in_use(defs, r)
}

/// The list after reference number `ref_index` has found the definition at
/// position `p`: a definition without a number takes the next one.
pub open spec fn after_reference(
    defs: Seq<DefinitionView>,
    count: nat,
    p: int,
    ref_index: usize,
) -> (Seq<DefinitionView>, nat) {
    let d = defs[p];
    let index: usize = if d.index == 0 { (count + 1) as usize } else { d.index };
    let new_count = if d.index == 0 { count + 1 } else { count };
    (defs.update(p, DefinitionView { index, references: d.references.push(ref_index), ..d }), new_count)
}

/// What resolving reference number `ref_index` with label `label` does to
/// the list `old`, giving `new` and the answer `res`: with no matching
/// label, nothing changes and the answer is `None`; otherwise the first
/// definition with a matching label, at position `p`, records the
/// reference and the answer is `p` and that definition's number.
pub open spec fn resolved(
    old: DefinitionsView,
    new: DefinitionsView,
    source: Seq<u8>,
    label: Span,
    ref_index: usize,
    res: Option<(usize, usize)>,
) -> bool {
    match res {
        None => {
            &&& new == old
            &&& forall|i: int| 0 <= i < old.definitions.len()
                ==> !same_label(#[trigger] old.definitions[i], source, label)
        },
        Some((p, index)) => {
            &&& p < old.definitions.len()
            &&& same_label(old.definitions[p as int], source, label)
            &&& forall|i: int| 0 <= i < p ==> !same_label(#[trigger] old.definitions[i], source, label)
            &&& new.definitions == after_reference(old.definitions, old.count as nat, p as int, ref_index).0
            &&& new.count == after_reference(old.definitions, old.count as nat, p as int, ref_index).1
            &&& index == new.definitions[p as int].index
            &&& index >= 1
        },
    }
}

/// The list after a run of references, the `k`-th of them (numbered `k`)
/// found at position `positions[k - 1]`.
pub open spec fn after_references(defs: Seq<DefinitionView>, count: nat, positions: Seq<int>) -> (
    Seq<DefinitionView>,
    nat,
)
    decreases positions.len(),
{
    if positions.len() == 0 {
        (defs, count)
    } else {
        let before = after_references(defs, count, positions.drop_last());
        after_reference(before.0, before.1, positions.last(), positions.len() as usize)
    }
}

/// A whole run of references, starting from definitions that no reference
/// has reached yet, leaves the list numbered: the references are numbered
/// `1..=m` in the order they came, the footnotes they reach are numbered
/// `1..=count` in the order of their first reference, and definitions that
/// none reached keep number 0.
pub proof fn lemma_references_number_the_list(defs: Seq<DefinitionView>, count: nat, positions: Seq<int>)
    requires
        numbered(defs, count, 0),
        forall|k: int| 0 <= k < positions.len() ==> 0 <= #[trigger] positions[k] < defs.len(),
        count + positions.len() < usize::MAX,
    ensures
        after_references(defs, count, positions).0.len() == defs.len(),
        after_references(defs, count, positions).1 <= count + positions.len(),
        numbered(
            after_references(defs, count, positions).0,
            after_references(defs, count, positions).1,
            positions.len(),
        ),
    decreases positions.len(),
{
    if positions.len() > 0 {
        let rest = positions.drop_last();
        assert forall|k: int| 0 <= k < rest.len() implies 0 <= #[trigger] rest[k] < defs.len() by {
            assert(rest[k] == positions[k]);
        }
        lemma_references_number_the_list(defs, count, rest);
        let before = after_references(defs, count, rest);
        assert(0 <= positions[positions.len() - 1] < defs.len());
        lemma_reference_keeps_numbering(before.0, before.1, rest.len(), positions.last());
        assert((rest.len() + 1) as usize == positions.len() as usize);
    }
}

/// A footnote keeps its number: once a definition has one, later
/// references, to it or to any other definition, leave it unchanged, and a
/// definition that already has a number does not change the count.
pub proof fn lemma_number_is_stable(defs: Seq<DefinitionView>, count: nat, p: int, ref_index: usize, q: int)
    requires
        0 <= p < defs.len(),
        0 <= q < defs.len(),
        defs[q].index > 0,
    ensures
        after_reference(defs, count, p, ref_index).0[q].index == defs[q].index,
        q == p ==> after_reference(defs, count, p, ref_index).1 == count,
{
}

/// Adding a reference whose number is above every reference in use, to any
/// definition, keeps the numbering of `numbered`, with one more reference.
pub proof fn lemma_reference_keeps_numbering(
    defs: Seq<DefinitionView>,
    count: nat,
    total: nat,
    p: int,
)
    requires
        numbered(defs, count, total),
        0 <= p < defs.len(),
        count + 1 <= usize::MAX,
        total + 1 <= usize::MAX,
    ensures
        numbered(
            after_reference(defs, count, p, (total + 1) as usize).0,
            after_reference(defs, count, p, (total + 1) as usize).1,
            total + 1,
        ),
{
    let t = (total + 1) as usize;
    let (nd, nc) = after_reference(defs, count, p, t);
    let d = defs[p];
    assert(nd.len() == defs.len());
    assert forall|i: int| 0 <= i < nd.len() implies ((#[trigger] nd[i]).index == 0 <==> nd[i].references.len() == 0) by {
        if i != p { assert(nd[i] == defs[i]); }
    }
    assert forall|i: int| 0 <= i < nd.len() implies (#[trigger] nd[i]).index <= nc by {
        if i != p { assert(nd[i] == defs[i]); assert(defs[i].index <= count); }
    }
    assert forall|i: int, j: int|
        0 <= i < nd.len() && 0 <= j < nd.len() && i != j && #[trigger] nd[i].index > 0
            implies nd[i].index != #[trigger] nd[j].index by {
        if i == p {
            assert(nd[j] == defs[j]);
            if d.index != 0 {
                assert(defs[i].index != defs[j].index);
            } else {
                assert(defs[j].index <= count);
            }
        } else if j == p {
            assert(nd[i] == defs[i]);
            if d.index != 0 {
                assert(defs[i].index != defs[j].index);
            } else {
                assert(defs[i].index <= count);
            }
        } else {
            assert(nd[i] == defs[i]);
            assert(nd[j] == defs[j]);
        }
    }
    assert forall|k: int| 1 <= k <= nc implies #[trigger] number_in_use(nd, k) by {
        if k == nc && d.index == 0 {
            assert(nd[p].index == k);
        } else {
            assert(number_in_use(defs, k));
            let i = choose|i: int| 0 <= i < defs.len() && #[trigger] defs[i].index == k;
            if i == p {
                assert(nd[p].index == k);
            } else {
                assert(nd[i] == defs[i]);
            }
        }
    }
    assert forall|i: int, a: int, b: int|
        0 <= i < nd.len() && 0 <= a < b < nd[i].references.len()
            implies #[trigger] nd[i].references[a] < #[trigger] nd[i].references[b] by {
        if i == p {
            if b == d.references.len() {
                assert(nd[i].references[a] == d.references[a]);
                assert(1 <= defs[p].references[a] <= total);
            } else {
                assert(nd[i].references[a] == d.references[a]);
                assert(nd[i].references[b] == d.references[b]);
                assert(defs[p].references[a] < defs[p].references[b]);
            }
        } else {
            assert(nd[i] == defs[i]);
            assert(defs[i].references[a] < defs[i].references[b]);
        }
    }
    assert forall|i: int, a: int|
        0 <= i < nd.len() && 0 <= a < nd[i].references.len()
            implies 1 <= #[trigger] nd[i].references[a] <= total + 1 by {
        if i == p {
            if a < d.references.len() {
                assert(nd[i].references[a] == d.references[a]);
                assert(1 <= defs[p].references[a] <= total);
            }
        } else {
            assert(nd[i] == defs[i]);
            assert(1 <= defs[i].references[a] <= total);
        }
    }
    assert forall|i: int, j: int|
        0 <= i < nd.len() && 0 <= j < nd.len() && nd[i].references.len() > 0
            && nd[j].references.len() > 0
            implies (#[trigger] nd[i].index < #[trigger] nd[j].index <==> nd[i].references[0]
            < nd[j].references[0]) by {
        if i == p && j == p {
        } else if i == p {
            assert(nd[j] == defs[j]);
            assert(1 <= defs[j].references[0] <= total);
            assert(defs[j].index <= count);
            if d.references.len() > 0 {
                assert(nd[i].references[0] == d.references[0]);
                assert(defs[i].index < defs[j].index <==> defs[i].references[0] < defs[j].references[0]);
            } else {
                assert(defs[j].index != 0);
            }
        } else if j == p {
            assert(nd[i] == defs[i]);
            assert(1 <= defs[i].references[0] <= total);
            assert(defs[i].index <= count);
            if d.references.len() > 0 {
                assert(nd[j].references[0] == d.references[0]);
                assert(defs[i].index < defs[j].index <==> defs[i].references[0] < defs[j].references[0]);
            } else {
                assert(defs[i].index != 0);
            }
        } else {
            assert(nd[i] == defs[i]);
            assert(nd[j] == defs[j]);
            assert(defs[i].index < defs[j].index <==> defs[i].references[0] < defs[j].references[0]);
        }
    }
    assert forall|i: int, j: int, a: int, b: int|
        0 <= i < nd.len() && 0 <= j < nd.len() && i != j && 0 <= a < nd[i].references.len()
            && 0 <= b < nd[j].references.len()
            implies #[trigger] nd[i].references[a] != #[trigger] nd[j].references[b] by {
        if i == p {
            assert(nd[j] == defs[j]);
            assert(1 <= defs[j].references[b] <= total);
            if a < d.references.len() {
                assert(nd[i].references[a] == d.references[a]);
                assert(defs[i].references[a] != defs[j].references[b]);
            }
        } else if j == p {
            assert(nd[i] == defs[i]);
            assert(1 <= defs[i].references[a] <= total);
            if b < d.references.len() {
                assert(nd[j].references[b] == d.references[b]);
                assert(defs[i].references[a] != defs[j].references[b]);
            }
        } else {
            assert(nd[i] == defs[i]);
            assert(nd[j] == defs[j]);
            assert(defs[i].references[a] != defs[j].references[b]);
        }
    }
    assert forall|r: int| 1 <= r <= total + 1 implies #[trigger] reference_in_use(nd, r) by {
        if r == total + 1 {
            assert(nd[p].references[d.references.len() as int] == r);
        } else {
            assert(reference_in_use(defs, r));
            let (i, a) = choose|i: int, a: int|
                0 <= i < defs.len() && 0 <= a < defs[i].references.len() && #[trigger] defs[i].references[a] == r;
            if i == p {
                assert(nd[p].references[a] == r);
            } else {
                assert(nd[i] == defs[i]);
                assert(nd[i].references[a] == r);
            }
        }
    }
}

/// A definition without number and references, added to a list, keeps its
/// numbering.
pub proof fn lemma_fresh_definition_keeps_numbering(
    defs: Seq<DefinitionView>,
    count: nat,
    total: nat,
    d: DefinitionView,
)
    requires
        numbered(defs, count, total),
        d.index == 0,
        d.references.len() == 0,
    ensures
        numbered(defs.push(d), count, total),
{
    let nd = defs.push(d);
    assert forall|i: int| 0 <= i < defs.len() implies #[trigger] nd[i] == defs[i] by {}
    assert forall|k: int| 1 <= k <= count implies #[trigger] number_in_use(nd, k) by {
        assert(number_in_use(defs, k));
        let i = choose|i: int| 0 <= i < defs.len() && #[trigger] defs[i].index == k;
        assert(nd[i] == defs[i]);
    }
    assert forall|r: int| 1 <= r <= total implies #[trigger] reference_in_use(nd, r) by {
        assert(reference_in_use(defs, r));
        let (i, a) = choose|i: int, a: int|
            0 <= i < defs.len() && 0 <= a < defs[i].references.len() && #[trigger] defs[i].references[a] == r;
        assert(nd[i] == defs[i]);
        assert(nd[i].references[a] == r);
    }
}

/// Whether the spans `a` and `b` of `source` spell the same bytes.
pub fn same_text(source: &[u8], a: Span, b: Span) -> (res: bool)
    requires
        a.within(source@.len()),
        b.within(source@.len()),
    ensures
        res == (a.text(source@) == b.text(source@)),
{
    let len = a.stop - a.start;
    if b.stop - b.start != len {
        proof {
            assert(a.text(source@).len() != b.text(source@).len());
        }
        return false;
    }
    let mut k: usize = 0;
    while k < len
        invariant
            a.within(source@.len()),
            b.within(source@.len()),
            len == a.stop - a.start,
            len == b.stop - b.start,
            k <= len,
            forall|m: int| 0 <= m < k ==> #[trigger] a.text(source@)[m] == b.text(source@)[m],
        decreases len - k,
    {
        assert(a.text(source@)[k as int] == source@[a.start + k]);
        assert(b.text(source@)[k as int] == source@[b.start + k]);
        if source[a.start + k] != source[b.start + k] {
            proof {
                assert(a.text(source@)[k as int] != b.text(source@)[k as int]);
            }
            return false;
        }
        k = k + 1;
    }
    proof {
        assert(a.text(source@) =~= b.text(source@));
    }
    true
}

/// The key by which the footnote list is ordered: the number of the first
/// reference to the definition, or `usize::MAX` when there is none.
pub open spec fn first_reference_key(d: DefinitionView) -> int {
    if d.references.len() > 0 {
        d.references[0] as int
    } else {
        usize::MAX as int
    }
}

/// In the footnote list, the definition at position `a` comes before the one
/// at position `b`: it has the smaller key, or the same key and comes first
/// in the document.
pub open spec fn listed_before(defs: Seq<DefinitionView>, a: int, b: int) -> bool {
    let ka = first_reference_key(defs[a]);
    let kb = first_reference_key(defs[b]);
    ka < kb || (ka == kb && a < b)
}

/// `order` lists every position of `defs` once, in the order of the
/// footnote list: by first reference, definitions without references
/// last, ties kept in document order.
pub open spec fn is_listing_order(defs: Seq<DefinitionView>, order: Seq<usize>) -> bool {
    &&& order.len() == defs.len()
    &&& forall|i: int| 0 <= i < order.len() ==> #[trigger] order[i] < defs.len()
    &&& forall|k: int| 0 <= k < defs.len() ==> #[trigger] lists(order, k)
    &&& forall|i: int, j: int|
        0 <= i < j < order.len() ==> listed_before(defs, #[trigger] order[i] as int, #[trigger] order[j] as int)
}

/// Position `k` occurs in `order`.
pub open spec fn lists(order: Seq<usize>, k: int) -> bool {
    exists|m: int| 0 <= m < order.len() && order[m] as int == k
}

/// Two listing orders agree on their first `i + 1` positions.
proof fn lemma_listing_orders_agree_to(defs: Seq<DefinitionView>, o1: Seq<usize>, o2: Seq<usize>, i: int)
    requires
        is_listing_order(defs, o1),
        is_listing_order(defs, o2),
        0 <= i < o1.len(),
    ensures
        forall|h: int| 0 <= h <= i ==> o1[h] == o2[h],
    decreases i,
{
    if i > 0 {
        lemma_listing_orders_agree_to(defs, o1, o2, i - 1);
    }
    let a = o1[i];
    let b = o2[i];
    assert(lists(o1, b as int));
    let j = choose|m: int| 0 <= m < o1.len() && o1[m] as int == b as int;
    assert(lists(o2, a as int));
    let k = choose|m: int| 0 <= m < o2.len() && o2[m] as int == a as int;
    if a != b {
        if j < i {
            assert(o2[j] == o1[j]);
            assert(listed_before(defs, o2[j] as int, o2[i] as int));
        }
        if k < i {
            assert(o1[k] == o2[k]);
            assert(listed_before(defs, o1[k] as int, o1[i] as int));
        }
        assert(listed_before(defs, o1[i] as int, o1[j] as int));
        assert(listed_before(defs, o2[i] as int, o2[k] as int));
    }
}

/// There is one listing order: the footnote list of a set of definitions
/// is determined by them.
pub proof fn lemma_listing_order_unique(defs: Seq<DefinitionView>, o1: Seq<usize>, o2: Seq<usize>)
    requires
        is_listing_order(defs, o1),
        is_listing_order(defs, o2),
    ensures
        o1 == o2,
{
    if o1.len() > 0 {
        lemma_listing_orders_agree_to(defs, o1, o2, o1.len() - 1);
    }
    assert(o1 =~= o2);
}

/// Some definition of `defs` has a reference.
pub open spec fn has_references(defs: Seq<DefinitionView>) -> bool {
    exists|i: int| 0 <= i < defs.len() && (#[trigger] defs[i]).references.len() > 0
}

/// The definition at position `i` of the listing has references.
pub open spec fn listed_with_references(defs: Seq<DefinitionView>, order: Seq<usize>, i: int) -> bool {
    defs[order[i] as int].references.len() > 0
}

/// Within a listing of numbered definitions, the definitions with
/// references come first, and the one at position `i` has number `i + 1`.
proof fn lemma_listing_prefix(
    defs: Seq<DefinitionView>,
    count: nat,
    total: nat,
    order: Seq<usize>,
    i: int,
)
    requires
        numbered(defs, count, total),
        total < usize::MAX,
        is_listing_order(defs, order),
        0 <= i < order.len(),
        listed_with_references(defs, order, i),
    ensures
        defs[order[i] as int].index == i + 1,
        forall|h: int| 0 <= h <= i ==> #[trigger] listed_with_references(defs, order, h),
    decreases i,
{
    let di = defs[order[i] as int];
    assert(1 <= di.references[0] <= total);
    assert forall|h: int| 0 <= h <= i implies #[trigger] listed_with_references(defs, order, h) by {
        if h < i {
            assert(listed_before(defs, order[h] as int, order[i] as int));
        }
    }
    assert(di.index >= 1);
    assert(di.index <= count);
    if i > 0 {
        lemma_listing_prefix(defs, count, total, order, i - 1);
        let dp = defs[order[i - 1] as int];
        assert(listed_before(defs, order[i - 1] as int, order[i] as int));
        assert(order[i - 1] != order[i]);
        assert(dp.references[0] != di.references[0]);
        assert(dp.index < di.index);
    }
    let k = i + 1;
    assert(number_in_use(defs, k));
    let d = choose|d: int| 0 <= d < defs.len() && #[trigger] defs[d].index == k;
    assert(lists(order, d));
    let m = choose|m: int| 0 <= m < order.len() && order[m] as int == d;
    assert(defs[order[m] as int].index == k);
    assert(defs[order[m] as int].references.len() > 0);
    if m < i {
        lemma_listing_prefix(defs, count, total, order, m);
        assert(false);
    } else if m > i {
        let dm = defs[order[m] as int];
        assert(listed_before(defs, order[i] as int, order[m] as int));
        assert(order[i] != order[m]);
        assert(di.references[0] != dm.references[0]);
        assert(di.index < dm.index);
    }
}

/// The footnote list of a parsed document is numbered 1, 2, 3, … in the
/// order in which it is listed: the definitions that references point to
/// come first, ordered by their first reference, and hold the numbers
/// `1..=count` in turn; the definitions that nothing points to follow,
/// with number 0.
pub proof fn lemma_listing_is_numbered(
    defs: Seq<DefinitionView>,
    count: nat,
    total: nat,
    order: Seq<usize>,
)
    requires
        numbered(defs, count, total),
        total < usize::MAX,
        is_listing_order(defs, order),
    ensures
        count <= defs.len(),
        forall|i: int| 0 <= i < order.len() && i < count ==> defs[#[trigger] order[i] as int].index == i + 1,
        forall|i: int| 0 <= i < order.len() && i >= count ==> defs[#[trigger] order[i] as int].index == 0,
{
    if count > 0 {
        assert(number_in_use(defs, count as int));
        let d = choose|d: int| 0 <= d < defs.len() && #[trigger] defs[d].index == count;
        assert(lists(order, d));
        let m = choose|m: int| 0 <= m < order.len() && order[m] as int == d;
        assert(listed_with_references(defs, order, m));
        lemma_listing_prefix(defs, count, total, order, m);
        assert(m == count - 1);
        assert forall|i: int| 0 <= i < order.len() && i < count implies defs[#[trigger] order[i] as int].index == i + 1 by {
            assert(listed_with_references(defs, order, i));
            lemma_listing_prefix(defs, count, total, order, i);
        }
    }
    assert forall|i: int| 0 <= i < order.len() && i >= count implies defs[#[trigger] order[i] as int].index == 0 by {
        if listed_with_references(defs, order, i) {
            lemma_listing_prefix(defs, count, total, order, i);
            assert(defs[order[i] as int].index <= count);
        }
    }
}

impl FootnoteDefinitions {
    /// An empty list.
    pub fn new() -> (res: Self)
        ensures
            res@.definitions == Seq::<DefinitionView>::empty(),
            res@.count == 0,
            numbered(res@.definitions, 0, 0),
    {
        FootnoteDefinitions { definitions: Vec::new(), count: 0 }
    }

    /// The number of definitions in the list.
    pub fn len(&self) -> (res: usize)
        ensures
            res == self@.definitions.len(),
    {
        self.definitions.len()
    }

    /// The number of footnotes numbered so far.
    pub fn count(&self) -> (res: usize)
        ensures
            res == self@.count,
    {
        self.count
    }

    /// The definition at position `i`.
    pub fn get(&self, i: usize) -> (res: &FootnoteDefinition)
        requires
            i < self@.definitions.len(),
        ensures
            res@ == self@.definitions[i as int],
    {
        &self.definitions[i]
    }

    /// Whether every label of the list lies inside a source of `len` bytes.
    pub fn labels_within(&self, len: usize) -> (res: bool)
        ensures
            res == labels_within(self@.definitions, len as nat),
    {
        let mut i: usize = 0;
        while i < self.definitions.len()
            invariant
                i <= self.definitions@.len(),
                forall|j: int| 0 <= j < i ==> (#[trigger] self@.definitions[j]).label.within(len as nat),
            decreases self.definitions@.len() - i,
        {
            let label = *self.definitions[i].label();
            if label.start > label.stop || label.stop > len {
                assert(!self@.definitions[i as int].label.within(len as nat));
                return false;
            }
            i = i + 1;
        }
        true
    }

    /// Finds the first definition whose label spells the same text as
    /// `label` and records on it the reference numbered `ref_index`. A
    /// definition without a number takes the next one, `count + 1`.
    ///
    /// Returns the position of that definition and its number, or `None`,
    /// with nothing changed, when no label matches.
    pub fn resolve(&mut self, source: &[u8], label: Span, ref_index: usize) -> (res: Option<(usize, usize)>)
        requires
            labels_within(old(self)@.definitions, source@.len()),
            label.within(source@.len()),
            old(self)@.count < usize::MAX,
        ensures
            resolved(old(self)@, final(self)@, source@, label, ref_index, res),
            labels_within(final(self)@.definitions, source@.len()),
            ref_index >= 1 && numbered(old(self)@.definitions, old(self)@.count as nat, (ref_index - 1) as nat)
                ==> numbered(
                final(self)@.definitions,
                final(self)@.count as nat,
                if res is Some { ref_index as nat } else { (ref_index - 1) as nat },
            ),
    {
        let ghost old_defs = self@.definitions;
        let ghost old_count = self.count;
        assert(old_defs == old(self)@.definitions);
        let mut i: usize = 0;
        while i < self.definitions.len()
            invariant
                self@.definitions == old_defs,
                self.count == old_count,
                old_defs == old(self)@.definitions,
                old_count == old(self)@.count,
                old_count < usize::MAX,
                labels_within(old_defs, source@.len()),
                label.within(source@.len()),
                i <= old_defs.len(),
                forall|j: int| 0 <= j < i ==> !same_label(#[trigger] old_defs[j], source@, label),
            decreases old_defs.len() - i,
        {
            assert(old_defs[i as int] == self.definitions@[i as int]@);
            let def_label = *self.definitions[i].label();
            if same_text(source, def_label, label) {
                let mut d = self.definitions.remove(i);
                if d.index() < 1 {
                    self.count = self.count + 1;
                    d.set_index(self.count);
                }
                let index = d.index();
                d.add_reference(ref_index);
                self.definitions.insert(i, d);
                proof {
                    let (nd, nc) = after_reference(old_defs, old_count as nat, i as int, ref_index);
                    assert(self@.definitions =~= nd);
                    if ref_index >= 1 && numbered(old_defs, old_count as nat, (ref_index - 1) as nat) {
                        lemma_reference_keeps_numbering(old_defs, old_count as nat, (ref_index - 1) as nat, i as int);
                    }
                    assert forall|j: int| 0 <= j < nd.len() implies (#[trigger] nd[j]).label.within(source@.len()) by {
                        assert(old_defs[j].label == nd[j].label);
                    }
                    assert(same_label(old_defs[i as int], source@, label));
                }
                return Some((i, index));
            }
            i = i + 1;
        }
        None
    }

    /// The key by which the definition at position `i` is listed.
    fn listing_key(&self, i: usize) -> (res: usize)
        requires
            i < self@.definitions.len(),
        ensures
            res as int == first_reference_key(self@.definitions[i as int]),
    {
        let refs = self.definitions[i].references();
        if refs.len() > 0 {
            refs[0]
        } else {
            usize::MAX
        }
    }

    /// The order in which the footnote list shows the definitions, as
    /// positions into this list; `None` when there is nothing to list
    /// because no definition has a reference.
    ///
    /// The order sorts by the first reference and keeps document order
    /// among equal keys, so it is the one that a stable sort gives.
    pub fn render_order(&self) -> (res: Option<Vec<usize>>)
        ensures
            res is None <==> !has_references(self@.definitions),
            res matches Some(order) ==> is_listing_order(self@.definitions, order@),
    {
        let n = self.definitions.len();
        let ghost defs = self@.definitions;
        let mut any = false;
        let mut i: usize = 0;
        while i < n
            invariant
                n == defs.len(),
                defs == self@.definitions,
                i <= n,
                any <==> exists|h: int| 0 <= h < i && (#[trigger] defs[h]).references.len() > 0,
            decreases n - i,
        {
            if self.definitions[i].references().len() > 0 {
                assert(defs[i as int].references.len() > 0);
                any = true;
            }
            i = i + 1;
        }
        if !any {
            return None;
        }
        let mut order: Vec<usize> = Vec::new();
        let mut j: usize = 0;
        while j < n
            invariant
                n == defs.len(),
                defs == self@.definitions,
                j <= n,
                order@.len() == j,
                forall|x: int| 0 <= x < order@.len() ==> #[trigger] order@[x] < j,
                forall|k: int| 0 <= k < j ==> #[trigger] lists(order@, k),
                forall|a: int, b: int|
                    0 <= a < b < order@.len() ==> listed_before(defs, #[trigger] order@[a] as int, #[trigger] order@[b] as int),
            decreases n - j,
        {
            let kj = self.listing_key(j);
            let mut q = j;
            while q > 0 && self.listing_key(order[q - 1]) > kj
                invariant
                    n == defs.len(),
                    defs == self@.definitions,
                    j < n,
                    q <= j,
                    order@.len() == j,
                    forall|x: int| 0 <= x < order@.len() ==> #[trigger] order@[x] < j,
                    kj as int == first_reference_key(defs[j as int]),
                    forall|x: int| q <= x < j ==> first_reference_key(defs[#[trigger] order@[x] as int]) > kj,
                decreases q,
            {
                q = q - 1;
            }
            let ghost old_order = order@;
            order.insert(q, j);
            proof {
                assert(order@ == old_order.insert(q as int, j));
                assert forall|x: int| 0 <= x < order@.len() implies #[trigger] order@[x] < j + 1 by {
                    if x < q {
                        assert(order@[x] == old_order[x]);
                    } else if x > q {
                        assert(order@[x] == old_order[x - 1]);
                    }
                }
                assert forall|k: int| 0 <= k < j + 1 implies #[trigger] lists(order@, k) by {
                    if k == j {
                        assert(order@[q as int] == j);
                    } else {
                        assert(lists(old_order, k));
                        let m = choose|m: int| 0 <= m < old_order.len() && old_order[m] as int == k;
                        if m < q {
                            assert(order@[m] == old_order[m]);
                        } else {
                            assert(order@[m + 1] == old_order[m]);
                        }
                    }
                }
                if q > 0 {
                    assert(first_reference_key(defs[old_order[q - 1] as int]) <= kj);
                }
                assert forall|a: int, b: int|
                    0 <= a < b < order@.len() implies listed_before(defs, #[trigger] order@[a] as int, #[trigger] order@[b] as int) by {
                    if b < q {
                        assert(order@[a] == old_order[a]);
                        assert(order@[b] == old_order[b]);
                    } else if b == q {
                        assert(order@[a] == old_order[a]);
                        if a < q - 1 {
                            assert(listed_before(defs, old_order[a] as int, old_order[q - 1] as int));
                        }
                    } else if a == q {
                        assert(order@[b] == old_order[b - 1]);
                    } else if a < q {
                        assert(order@[a] == old_order[a]);
                        assert(order@[b] == old_order[b - 1]);
                    } else {
                        assert(order@[a] == old_order[a - 1]);
                        assert(order@[b] == old_order[b - 1]);
                    }
                }
            }
            j = j + 1;
        }
        Some(order)
    }

    /// Appends a definition to the list.
    pub fn push(&mut self, definition: FootnoteDefinition)
        ensures
            final(self)@.definitions == old(self)@.definitions.push(definition@),
            final(self)@.count == old(self)@.count,
    {
        self.definitions.push(definition);
        proof {
            assert(self@.definitions =~= old(self)@.definitions.push(definition@));
        }
    }
}

} // verus!
