//! What holds of every patch and every document.

use crate::error::PatchError;
use crate::patch_processor::isolation::spared;
use crate::patch_processor::semantics::apply_complex_query;
use crate::patch_processor::semantics::move_copy;
use crate::xml_structure::bidirectional_xml_tree::MoveCopyAction;
use crate::patch_processor::semantics::apply_patch;
use crate::patch_processor::semantics::apply_simple;
use crate::patch_processor::semantics::apply_subqueries;
use crate::patch_processor::semantics::apply_to_children;
use crate::patch_structure::query::ComplexQueryModel;
use crate::patch_structure::query::QueryModel;
use crate::patch_structure::reference_expression::eval_expression;
use crate::patch_structure::reference_expression::eval_reference;
use crate::patch_structure::reference_expression::eval_segment;
use crate::patch_structure::refex_segment::ReferenceModel;
use crate::patch_structure::refex_segment::SegmentModel;
use crate::patch_structure::regex::regex_matches;
use crate::patch_structure::simple_value_type::eval_value;
use crate::patch_structure::simple_value_type::SimpleValueModel;
use crate::text::split_seq;
use crate::xml_structure::model::are_children;
use crate::xml_structure::model::internal_root;
use crate::xml_structure::model::with_attribute;
use crate::xml_structure::model::without_attribute;
use crate::xml_structure::model::attribute_position;
use crate::xml_structure::model::DataModel;
use crate::xml_structure::model::ElementModel;
use crate::xml_structure::model::TreeModel;
use vstd::prelude::*;

verus! {

/// The document below a node depends only on the nodes from that node on:
/// two trees of one size that agree from `from` on stand for the same
/// document at every node from `from` on.
pub proof fn lemma_value_of_later_nodes(first: TreeModel, second: TreeModel, from: usize, id: usize)
    requires
        first.nodes.len() == second.nodes.len(),
        forall|other: int|
            from <= other < first.nodes.len() ==> #[trigger] first.nodes[other]
                == second.nodes[other],
        from <= id,
    ensures
        first.node_value(id) == second.node_value(id),
        first.holds(id) ==> first.element_value(id) == second.element_value(id),
    decreases first.nodes.len() - id,
{
    if first.holds(id) {
        assert(first.nodes[id as int] == second.nodes[id as int]);
        if first.is_element(id) {
            let children = first.element(id).children;
            assert forall|k: int| 0 <= k < children.len() && id < children[k]
                < first.nodes.len() implies first.node_value(children[k]) == second.node_value(
                children[k],
            ) by {
                lemma_value_of_later_nodes(first, second, from, children[k]);
            }
            assert(first.element_value(id).children =~= second.element_value(id).children);
        } else {
            assert(first.element_value(id).children =~= second.element_value(id).children);
        }
    }
}

/// Subqueries whose selectors do not match the only child of a node leave
/// the tree as it is.
pub proof fn lemma_unmatched_subqueries(
    tree: TreeModel,
    child: usize,
    subqueries: Seq<(Seq<char>, QueryModel)>,
    from: int,
)
    requires
        tree.children(0) == seq![child],
        tree.is_element(child),
        forall|i: int|
            0 <= i < subqueries.len() ==> !regex_matches(
                (#[trigger] subqueries[i]).0,
                tree.element(child).name,
            ),
        0 <= from,
    ensures
        apply_subqueries(tree, 0, subqueries, from) == Ok::<TreeModel, (TreeModel, PatchError)>(tree),
    decreases subqueries.len() - from,
{
    if from < subqueries.len() {
        let selector = subqueries[from].0;
        let query = subqueries[from].1;
        let children = tree.children(0);
        assert(children[0] == child);
        assert(tree.name(child) == Some(tree.element(child).name));
        assert(apply_to_children(tree, children, 1, selector, query) == Ok::<
            TreeModel,
            (TreeModel, PatchError),
        >(tree));
        assert(apply_to_children(tree, children, 0, selector, query) == Ok::<
            TreeModel,
            (TreeModel, PatchError),
        >(tree));
        lemma_unmatched_subqueries(tree, child, subqueries, from + 1);
    }
}

/// A patch whose selectors at the top do not match the name of the root
/// leaves the document as it is: no node but the synthetic one above the
/// root is touched, and the root stands for the same document as before.
pub proof fn lemma_unmatched_selectors_change_nothing(
    tree: TreeModel,
    root: usize,
    query: ComplexQueryModel,
)
    requires
        tree.wf(),
        0 < root < tree.nodes.len(),
        tree.is_element(root),
        query.modifier.filter is None,
        query.modifier.copy is None,
        query.modifier.move_to is None,
        query.modification is None,
        forall|i: int|
            0 <= i < query.subqueries.len() ==> !regex_matches(
                (#[trigger] query.subqueries[i]).0,
                tree.element(root).name,
            ),
    ensures
        apply_patch(tree, root, QueryModel::Complex(query)) matches Ok(after) && after.nodes.len()
            == tree.nodes.len() && (forall|id: int|
            0 < id < tree.nodes.len() ==> #[trigger] after.nodes[id] == tree.nodes[id])
            && after.element_value(root) == tree.element_value(root),
{
    let start = tree.with_data(0, internal_root(root));
    assert(start.children(0) == seq![root]);
    assert(start.nodes[root as int] == tree.nodes[root as int]);
    let after = if query.subqueries.len() == 0 {
        start.clear_children(0)
    } else {
        lemma_unmatched_subqueries(start, root, query.subqueries, 0);
        start
    };
    assert(apply_complex_query(start, 0, query) == Ok::<TreeModel, (TreeModel, PatchError)>(after));
    assert forall|id: int| 1 <= id < tree.nodes.len() implies #[trigger] after.nodes[id]
        == tree.nodes[id] by {}
    lemma_value_of_later_nodes(after, tree, 1, root);
}

/// Of two children that an element has before and after, the one that came
/// first before comes first after: in a well-formed tree the children of an
/// element stand in the order in which they were made.
pub proof fn lemma_children_keep_their_order(
    before: TreeModel,
    after: TreeModel,
    parent_before: usize,
    parent_after: usize,
    i: int,
    j: int,
    k: int,
    l: int,
)
    requires
        before.wf(),
        after.wf(),
        before.holds(parent_before),
        after.holds(parent_after),
        0 <= i < j < before.children(parent_before).len(),
        0 <= k < after.children(parent_after).len(),
        0 <= l < after.children(parent_after).len(),
        after.children(parent_after)[k] == before.children(parent_before)[i],
        after.children(parent_after)[l] == before.children(parent_before)[j],
    ensures
        k < l,
{
    before.lemma_children_in_bounds(parent_before);
    after.lemma_children_in_bounds(parent_after);
    let old_children = before.children(parent_before);
    let new_children = after.children(parent_after);
    assert(old_children[i] < old_children[j]);
    if k > l {
        assert(new_children[l] < new_children[k]);
    }
}

/// An attribute that is found stands at its position under the name that
/// was looked for.
pub proof fn lemma_attribute_position(attributes: Seq<(Seq<char>, Seq<char>)>, name: Seq<char>)
    ensures
        0 <= attribute_position(attributes, name) <= attributes.len(),
        attribute_position(attributes, name) < attributes.len() ==> attributes[attribute_position(
            attributes,
            name,
        )].0 == name,
    decreases attributes.len(),
{
    if attributes.len() > 0 && attributes[0].0 != name {
        lemma_attribute_position(attributes.skip(1), name);
        let p = attribute_position(attributes.skip(1), name);
        if p < attributes.skip(1).len() {
            assert(attributes.skip(1)[p] == attributes[p + 1]);
        }
    }
}

/// Overwriting an attribute called `name` changes nothing among the others.
pub proof fn lemma_without_updated(
    attributes: Seq<(Seq<char>, Seq<char>)>,
    position: int,
    name: Seq<char>,
    value: Seq<char>,
)
    requires
        0 <= position < attributes.len(),
        attributes[position].0 == name,
    ensures
        without_attribute(attributes.update(position, (name, value)), name) == without_attribute(
            attributes,
            name,
        ),
    decreases attributes.len(),
{
    let updated = attributes.update(position, (name, value));
    if position == attributes.len() - 1 {
        assert(updated.drop_last() =~= attributes.drop_last());
    } else {
        assert(updated.drop_last() =~= attributes.drop_last().update(position, (name, value)));
        assert(updated.last() == attributes.last());
        lemma_without_updated(attributes.drop_last(), position, name, value);
    }
}

/// Taking an attribute away twice is taking it away once.
pub proof fn lemma_without_twice(attributes: Seq<(Seq<char>, Seq<char>)>, name: Seq<char>)
    ensures
        without_attribute(without_attribute(attributes, name), name) == without_attribute(
            attributes,
            name,
        ),
    decreases attributes.len(),
{
    if attributes.len() > 0 {
        lemma_without_twice(attributes.drop_last(), name);
        let before = without_attribute(attributes.drop_last(), name);
        if attributes.last().0 != name {
            assert(before.push(attributes.last()).drop_last() =~= before);
        }
    }
}

/// The attributes after `name` was set or removed.
pub open spec fn patched_attributes(
    attributes: Seq<(Seq<char>, Seq<char>)>,
    name: Seq<char>,
    value: Option<Seq<char>>,
) -> Seq<(Seq<char>, Seq<char>)> {
    match value {
        Some(v) => with_attribute(attributes, name, v),
        None => without_attribute(attributes, name),
    }
}

/// Setting or removing an attribute leaves the other attributes as they
/// are, each with its value and all in their order.
pub proof fn lemma_attribute_patch_keeps_others(
    attributes: Seq<(Seq<char>, Seq<char>)>,
    name: Seq<char>,
    value: Option<Seq<char>>,
)
    ensures
        without_attribute(patched_attributes(attributes, name, value), name) == without_attribute(
            attributes,
            name,
        ),
{
    match value {
        Some(v) => {
            lemma_attribute_position(attributes, name);
            let position = attribute_position(attributes, name);
            if position < attributes.len() {
                lemma_without_updated(attributes, position, name, v);
            } else {
                assert(attributes.push((name, v)).drop_last() =~= attributes);
            }
        },
        None => {
            lemma_without_twice(attributes, name);
        },
    }
}

/// Whether `after` is `before` with other children below the element
/// `node`, none of which is an element, and perhaps with more nodes at the
/// end.
pub open spec fn differs_below(before: TreeModel, after: TreeModel, node: usize) -> bool {
    &&& before.wf()
    &&& before.is_element(node)
    &&& after.is_element(node)
    &&& before.nodes.len() <= after.nodes.len()
    &&& after.nodes[node as int].parent == before.nodes[node as int].parent
    &&& after.element(node) == (ElementModel {
        children: after.element(node).children,
        ..before.element(node)
    })
    &&& forall|id: int|
        0 <= id < before.nodes.len() && id != node ==> #[trigger] after.nodes[id]
            == before.nodes[id]
    &&& forall|k: int|
        0 <= k < after.children(node).len() ==> !after.is_element(
            #[trigger] after.children(node)[k],
        )
}

/// Among nodes that are the same in two trees, the same carry a given name.
pub proof fn lemma_named_agrees(
    before: TreeModel,
    after: TreeModel,
    node: usize,
    ids: Seq<usize>,
    name: Seq<char>,
)
    requires
        differs_below(before, after, node),
        forall|k: int| 0 <= k < ids.len() ==> #[trigger] ids[k] < before.nodes.len(),
    ensures
        after.named(ids, name) == before.named(ids, name),
    decreases ids.len(),
{
    if ids.len() > 0 {
        let init = ids.drop_last();
        assert forall|k: int| 0 <= k < init.len() implies #[trigger] init[k]
            < before.nodes.len() by {
            assert(init[k] == ids[k]);
        }
        lemma_named_agrees(before, after, node, init, name);
        let last = ids[ids.len() - 1];
        assert(last < before.nodes.len());
        if last != node {
            assert(after.nodes[last as int] == before.nodes[last as int]);
        }
        assert(after.name(last) == before.name(last));
    }
}

/// A list without elements holds no element of any name.
pub proof fn lemma_named_of_no_elements(tree: TreeModel, ids: Seq<usize>, name: Seq<char>)
    requires
        forall|k: int| 0 <= k < ids.len() ==> !tree.is_element(#[trigger] ids[k]),
    ensures
        tree.named(ids, name).len() == 0,
    decreases ids.len(),
{
    if ids.len() > 0 {
        let init = ids.drop_last();
        assert forall|k: int| 0 <= k < init.len() implies !tree.is_element(#[trigger] init[k]) by {
            assert(init[k] == ids[k]);
        }
        lemma_named_of_no_elements(tree, init, name);
        assert(!tree.is_element(ids[ids.len() - 1]));
    }
}

/// A path that can be walked after the children of `node` were replaced by
/// nodes that are no elements could be walked before, and led to the same
/// node.
pub proof fn lemma_path_agrees(
    before: TreeModel,
    after: TreeModel,
    node: usize,
    current: usize,
    segments: Seq<Seq<char>>,
)
    requires
        differs_below(before, after, node),
        current < before.nodes.len(),
        after.resolve_path(current, segments, false) is Ok,
    ensures
        before.resolve_path(current, segments, false) matches Ok((_, target)) && target
            < before.nodes.len() && target == after.resolve_path(
            current,
            segments,
            false,
        )->Ok_0.1,
    decreases segments.len(),
{
    if segments.len() > 0 {
        let segment = segments[0];
        assert(before.holds(current));
        if current != node {
            assert(after.nodes[current as int] == before.nodes[current as int]);
        }
        assert(after.parent(current) == before.parent(current));
        if segment == seq!['.', '.'] {
            let p = before.parent(current)->Some_0;
            assert(p < current);
            lemma_path_agrees(before, after, node, p, segments.skip(1));
        } else if segment == seq!['.'] {
            lemma_path_agrees(before, after, node, current, segments.skip(1));
        } else {
            if current == node {
                lemma_named_of_no_elements(after, after.children(node), segment);
                assert(false);
            } else {
                assert(after.children(current) == before.children(current));
                before.lemma_children_in_bounds(current);
                assert forall|k: int| 0 <= k < before.children(current).len() implies (
                #[trigger] before.children(current)[k]) < before.nodes.len() by {}
                lemma_named_agrees(before, after, node, before.children(current), segment);
                before.lemma_named_subset(current, before.children(current), segment);
                let candidates = before.named(before.children(current), segment);
                assert(candidates.len() == 1);
                assert(current < candidates[0] < before.nodes.len());
                lemma_path_agrees(before, after, node, candidates[0], segments.skip(1));
            }
        }
    }
}

/// A reference that can be evaluated after the children of `node` were
/// replaced by nodes that are no elements stood for the same text before.
pub proof fn lemma_reference_agrees(
    before: TreeModel,
    after: TreeModel,
    node: usize,
    reference: ReferenceModel,
)
    requires
        differs_below(before, after, node),
        eval_reference(after, node, reference) is Ok,
    ensures
        eval_reference(before, node, reference) == eval_reference(after, node, reference),
{
    let path = split_seq(reference.path, '/');
    lemma_path_agrees(before, after, node, node, path);
    let target = before.resolve_path(node, path, false)->Ok_0.1;
    if target != node {
        assert(after.nodes[target as int] == before.nodes[target as int]);
    }
    assert(after.regex(target) == before.regex(target));
    assert(after.name(target) == before.name(target));
}

/// A template that can be evaluated after the children of `node` were
/// replaced by nodes that are no elements stood for the same text before.
pub proof fn lemma_expression_agrees(
    before: TreeModel,
    after: TreeModel,
    node: usize,
    segments: Seq<SegmentModel>,
)
    requires
        differs_below(before, after, node),
        eval_expression(after, node, segments) is Ok,
    ensures
        eval_expression(before, node, segments) == eval_expression(after, node, segments),
    decreases segments.len(),
{
    if segments.len() > 0 {
        lemma_expression_agrees(before, after, node, segments.drop_last());
        match segments.last() {
            SegmentModel::Text(_) => {},
            SegmentModel::Reference(reference) => {
                lemma_reference_agrees(before, after, node, reference);
            },
        }
        assert(eval_segment(before, node, segments.last()) == eval_segment(
            after,
            node,
            segments.last(),
        ));
    }
}

/// Whether `second` is `first` with the one child of the element `node`,
/// which is a text, replaced by another node with the same text.
pub open spec fn same_text_below(first: TreeModel, second: TreeModel, node: usize, bound: nat)
    -> bool {
    &&& node < bound
    &&& first.nodes.len() == bound + 1
    &&& second.nodes.len() == bound + 2
    &&& first.is_element(node)
    &&& second.is_element(node)
    &&& first.element(node).children == seq![bound as usize]
    &&& second.element(node).children == seq![(bound + 1) as usize]
    &&& second.element(node) == (ElementModel {
        children: second.element(node).children,
        ..first.element(node)
    })
    &&& first.nodes[bound as int].data is Text
    &&& second.nodes[bound as int + 1].data == first.nodes[bound as int].data
    &&& forall|id: int|
        0 <= id < bound && id != node ==> #[trigger] second.nodes[id] == first.nodes[id]
    &&& forall|id: usize, k: int|
        id < bound && id != node && 0 <= k < first.children(id).len() ==> id < (
        #[trigger] first.children(id)[k]) < bound
}

/// Two trees that differ only in which node holds the text of `node` stand
/// for the same document at every node that was there before the text was
/// written.
pub proof fn lemma_same_text_same_value(
    first: TreeModel,
    second: TreeModel,
    node: usize,
    bound: nat,
    id: usize,
)
    requires
        same_text_below(first, second, node, bound),
        bound + 2 <= usize::MAX,
        id < bound,
    ensures
        first.node_value(id) == second.node_value(id),
        first.element_value(id) == second.element_value(id),
    decreases bound - id,
{
    if id == node {
        let one = first.element_value(id).children;
        let other = second.element_value(id).children;
        assert(one.len() == 1 && other.len() == 1);
        assert(first.node_value(bound as usize) == second.node_value((bound + 1) as usize));
        assert(one[0] == first.node_value(bound as usize));
        assert(other[0] == second.node_value((bound + 1) as usize));
        assert(one =~= other);
    } else {
        assert(second.nodes[id as int] == first.nodes[id as int]);
        if first.is_element(id) {
            let children = first.element(id).children;
            assert(children == first.children(id));
            assert forall|k: int| 0 <= k < children.len() implies first.node_value(children[k])
                == second.node_value(children[k]) && id < children[k] < bound by {
                assert(id < first.children(id)[k] < bound);
                lemma_same_text_same_value(first, second, node, bound, children[k]);
            }
            assert(first.element_value(id).children =~= second.element_value(id).children);
        } else {
            assert(first.element_value(id).children =~= second.element_value(id).children);
        }
    }
}

/// Writing a simple value into an element twice gives the document that
/// writing it once gives, and so does removing an element twice: where the
/// second time succeeds, every node that was there at the start stands for
/// the same document after the second time as after the first.
pub proof fn lemma_simple_assignment_is_idempotent(
    tree: TreeModel,
    node: usize,
    value: SimpleValueModel,
    id: usize,
)
    requires
        tree.wf(),
        tree.holds(node),
        tree.holds(id),
        tree.nodes.len() + 2 <= usize::MAX,
        apply_simple(tree, node, value) is Ok,
        apply_simple(apply_simple(tree, node, value)->Ok_0, node, value) is Ok,
    ensures
        apply_simple(apply_simple(tree, node, value)->Ok_0, node, value)->Ok_0.node_value(id)
            == apply_simple(tree, node, value)->Ok_0.node_value(id),
{
    let once = apply_simple(tree, node, value)->Ok_0;
    let twice = apply_simple(once, node, value)->Ok_0;
    match eval_value(tree, node, value)->Ok_0 {
        None => {
            match tree.parent(node) {
                Some(p) => {
                    assert(p < node);
                    assert(once.parent(node) is None);
                },
                None => {},
            }
            assert(twice == once);
        },
        Some(text) => {
            let bound = tree.nodes.len();
            tree.lemma_clear_children_wf(node);
            let cleared = tree.clear_children(node);
            assert(once == cleared.append(node, DataModel::Text(text)));
            assert(once.nodes.len() == bound + 1);
            assert(once.element(node).children =~= seq![bound as usize]);
            assert(differs_below(tree, once, node)) by {
                assert forall|k: int| 0 <= k < once.children(node).len() implies !once.is_element(
                    #[trigger] once.children(node)[k],
                ) by {
                    assert(once.children(node)[k] == bound as usize);
                }
            }
            if value is Pattern {
                lemma_expression_agrees(tree, once, node, value->Pattern_0);
            }
            assert(eval_value(once, node, value) == eval_value(tree, node, value));
            let again = once.clear_children(node);
            assert(twice == again.append(node, DataModel::Text(text)));
            assert(twice.element(node).children =~= seq![(bound + 1) as usize]);
            assert(same_text_below(once, twice, node, bound)) by {
                assert forall|other: usize, k: int|
                    other < bound && other != node && 0 <= k < once.children(
                        other,
                    ).len() implies other < (#[trigger] once.children(other)[k]) < bound by {
                    assert(once.nodes[other as int] == tree.nodes[other as int]);
                    assert(once.children(other) == tree.children(other));
                    assert(tree.holds(other));
                    assert(other < tree.children(other)[k] < bound);
                }
            }
            lemma_same_text_same_value(once, twice, node, bound, id);
        },
    }
}

/// An empty patch leaves the document as it is: what is written is what the
/// writer makes of the document that was read.
pub proof fn lemma_empty_patch_changes_nothing(xml: Seq<char>)
    requires
        crate::xml_structure::document::xml_document(xml) matches Some(document)
            && crate::xml_structure::model::tree_of_document(document).nodes.len() <= usize::MAX,
    ensures
        crate::patched_text(xml, Seq::empty()) == (match crate::xml_structure::document::xml_text(
            crate::xml_structure::document::DocumentNodeModel::Element(
                crate::xml_structure::document::xml_document(xml)->Some_0,
            ),
        ) {
            Some(text) => Ok::<Seq<char>, PatchError>(text),
            None => Err::<Seq<char>, PatchError>(PatchError::UnwritableXml),
        }),
{
    crate::xml_structure::laws::lemma_tree_stands_for_document(
        crate::xml_structure::document::xml_document(xml)->Some_0,
    );
}

/// The selector that is matching an element is no part of the document:
/// noting one, or taking the note away, leaves every node standing for the
/// document that it stood for.
pub proof fn lemma_selector_is_no_part_of_document(
    tree: TreeModel,
    node: usize,
    regex: Option<Seq<char>>,
    id: usize,
)
    ensures
        tree.set_regex(node, regex).node_value(id) == tree.node_value(id),
        tree.holds(id) ==> tree.set_regex(node, regex).element_value(id) == tree.element_value(id),
    decreases tree.nodes.len() - id,
{
    let after = tree.set_regex(node, regex);
    if tree.holds(id) {
        if tree.is_element(id) {
            let children = tree.element(id).children;
            assert(after.element(id).children == children);
            assert forall|k: int| 0 <= k < children.len() && id < children[k]
                < tree.nodes.len() implies after.node_value(children[k]) == tree.node_value(
                children[k],
            ) by {
                lemma_selector_is_no_part_of_document(tree, node, regex, children[k]);
            }
            assert(after.element_value(id).children =~= tree.element_value(id).children);
        } else {
            assert(after.nodes[id as int] == tree.nodes[id as int]);
            assert(after.element_value(id).children =~= tree.element_value(id).children);
        }
    }
}

/// The patch that holds one selector with a simple value.
pub open spec fn assignment(selector: Seq<char>, value: SimpleValueModel) -> QueryModel {
    QueryModel::Complex(
        ComplexQueryModel {
            modifier: crate::patch_structure::modifier::ModifierModel {
                filter: None,
                move_to: None,
                copy: None,
            },
            modification: None,
            subqueries: seq![(selector, QueryModel::Simple(value))],
        },
    )
}

/// What the patch `selector: value` does to a tree whose synthetic element
/// has the root as its only child: nothing where the selector does not match
/// the name of the root; where it does, the value is assigned to the root
/// while the root carries the selector.
pub open spec fn assigned(tree: TreeModel, root: usize, selector: Seq<char>, value: SimpleValueModel)
    -> Result<TreeModel, (TreeModel, PatchError)> {
    if tree.name(root) matches Some(name) && regex_matches(selector, name) {
        match apply_simple(tree.set_regex(root, Some(selector)), root, value) {
            Ok(once) => Ok(once.set_regex(root, None)),
            Err(e) => Err(e),
        }
    } else {
        Ok(tree)
    }
}

/// Handing a simple value to the one child of the synthetic element is
/// assigning it to that child where the selector matches.
pub proof fn lemma_assignment_to_one_child(
    tree: TreeModel,
    root: usize,
    selector: Seq<char>,
    value: SimpleValueModel,
)
    requires
        tree.children(0) == seq![root],
    ensures
        apply_to_children(tree, tree.children(0), 0, selector, QueryModel::Simple(value))
            == assigned(tree, root, selector, value),
{
    let children = tree.children(0);
    let query = QueryModel::Simple(value);
    assert(children[0] == root);
    if tree.name(root) matches Some(name) && regex_matches(selector, name) {
        let noted = tree.set_regex(root, Some(selector));
        assert(crate::patch_processor::semantics::apply_query(noted, root, query) == apply_simple(
            noted,
            root,
            value,
        ));
        match apply_simple(noted, root, value) {
            Ok(once) => {
                let after = once.set_regex(root, None);
                assert(apply_to_children(after, children, 1, selector, query) == Ok::<
                    TreeModel,
                    (TreeModel, PatchError),
                >(after));
                assert(apply_to_children(tree, children, 0, selector, query) == Ok::<
                    TreeModel,
                    (TreeModel, PatchError),
                >(after));
            },
            Err(e) => {
                assert(apply_to_children(tree, children, 0, selector, query) == Err::<
                    TreeModel,
                    (TreeModel, PatchError),
                >(e));
            },
        }
    } else {
        assert(apply_to_children(tree, children, 1, selector, query) == Ok::<
            TreeModel,
            (TreeModel, PatchError),
        >(tree));
    }
}

/// The patch `selector: value` assigns the value to the root where the
/// selector matches the name of the root.
pub proof fn lemma_assignment_unfolds(
    tree: TreeModel,
    root: usize,
    selector: Seq<char>,
    value: SimpleValueModel,
)
    requires
        tree.holds(0),
    ensures
        apply_patch(tree, root, assignment(selector, value)) == assigned(
            tree.with_data(0, internal_root(root)),
            root,
            selector,
            value,
        ),
{
    let patch = assignment(selector, value);
    let query = patch->Complex_0;
    let start = tree.with_data(0, internal_root(root));
    assert(start.children(0) == seq![root]);
    lemma_assignment_to_one_child(start, root, selector, value);
    assert(query.subqueries[0] == (selector, QueryModel::Simple(value)));
    match assigned(start, root, selector, value) {
        Ok(after) => {
            assert(apply_subqueries(after, 0, query.subqueries, 1) == Ok::<TreeModel, (TreeModel, PatchError)>(
                after,
            ));
            assert(apply_subqueries(start, 0, query.subqueries, 0) == Ok::<TreeModel, (TreeModel, PatchError)>(
                after,
            ));
            assert(crate::patch_processor::semantics::apply_modifiers(after, 0, query) == Ok::<
                TreeModel,
                (TreeModel, PatchError),
            >(after));
        },
        Err(e) => {
            assert(apply_subqueries(start, 0, query.subqueries, 0) == Err::<
                TreeModel,
                (TreeModel, PatchError),
            >(e));
        },
    }
    assert(apply_complex_query(start, 0, query) == assigned(start, root, selector, value));
}

/// Applying the patch `selector: value` to a document twice gives the
/// document that applying it once gives, where the second time succeeds.
pub proof fn lemma_assignment_is_idempotent(
    tree: TreeModel,
    root: usize,
    selector: Seq<char>,
    value: SimpleValueModel,
)
    requires
        tree.wf(),
        0 < root < tree.nodes.len(),
        tree.is_element(root),
        tree.parent(root) is None,
        tree.nodes.len() + 2 <= usize::MAX,
        apply_patch(tree, root, assignment(selector, value)) is Ok,
        apply_patch(
            apply_patch(tree, root, assignment(selector, value))->Ok_0,
            root,
            assignment(selector, value),
        ) is Ok,
    ensures
        apply_patch(
            apply_patch(tree, root, assignment(selector, value))->Ok_0,
            root,
            assignment(selector, value),
        )->Ok_0.element_value(root) == apply_patch(
            tree,
            root,
            assignment(selector, value),
        )->Ok_0.element_value(root),
{
    let patch = assignment(selector, value);
    let first = apply_patch(tree, root, patch)->Ok_0;
    let second = apply_patch(first, root, patch)->Ok_0;
    let start = tree.with_data(0, internal_root(root));
    assert(are_children(tree, 0, seq![root]));
    assert(crate::xml_structure::model::are_linked(tree, 0, seq![root]));
    tree.lemma_with_data_wf(0, internal_root(root));
    assert(start.nodes[root as int] == tree.nodes[root as int]);
    let name = tree.element(root).name;
    assert(start.name(root) == Some(name));
    lemma_assignment_unfolds(tree, root, selector, value);
    if !regex_matches(selector, name) {
        assert(first == start);
        let restart = first.with_data(0, internal_root(root));
        assert(restart.nodes =~= first.nodes);
        lemma_assignment_unfolds(first, root, selector, value);
        assert(second == first);
    } else {
        let noted = start.set_regex(root, Some(selector));
        start.lemma_set_regex_wf(root, Some(selector));
        let once = apply_simple(noted, root, value)->Ok_0;
        assert(first == once.set_regex(root, None));
        assert(once.nodes[0] == start.nodes[0]);
        assert(once.is_element(root) && once.element(root).name == name && once.regex(root)
            == Some(selector));
        let restart = first.with_data(0, internal_root(root));
        assert(restart.nodes =~= first.nodes);
        assert(restart.name(root) == Some(name));
        let renoted = restart.set_regex(root, Some(selector));
        assert(renoted.nodes =~= once.nodes);
        lemma_assignment_unfolds(first, root, selector, value);
        let twice = apply_simple(once, root, value)->Ok_0;
        assert(second == twice.set_regex(root, None));
        lemma_simple_assignment_is_idempotent(noted, root, value, root);
        lemma_selector_is_no_part_of_document(once, root, None, root);
        lemma_selector_is_no_part_of_document(twice, root, None, root);
        assert(once.holds(root));
        assert(twice.holds(root));
    }
}

/// A node without a parent is neither moved nor copied. A `$move` or `$copy`
/// whose text names a path and no new name fails there and leaves the tree as
/// it was: the node stays where it is, no copy of it is made, and no element
/// of the path is made.
pub proof fn lemma_root_is_not_moved(
    tree: TreeModel,
    node: usize,
    expression: Seq<SegmentModel>,
    action: MoveCopyAction,
)
    requires
        tree.parent(node) is None,
        eval_expression(tree, node, expression) matches Ok(text) && split_seq(text, '/').len() > 1
            && split_seq(text, '/').last().len() == 0,
    ensures
        move_copy(tree, node, expression, action) == Err::<TreeModel, (TreeModel, PatchError)>(
            (tree, PatchError::MoveOfRoot),
        ),
{
}

/// Two children that were both left alone stand in the order in which they
/// stood: the one that came first still comes first.
pub proof fn lemma_spared_children_keep_their_order(
    before: TreeModel,
    after: TreeModel,
    parent: usize,
    i: int,
    j: int,
)
    requires
        before.wf(),
        after.wf(),
        before.holds(parent),
        after.holds(parent),
        0 <= i < j < before.children(parent).len(),
        spared(before, after, parent, before.children(parent)[i]),
        spared(before, after, parent, before.children(parent)[j]),
    ensures
        exists|k: int, l: int|
            0 <= k < l < after.children(parent).len() && #[trigger] after.children(parent)[k]
                == before.children(parent)[i] && #[trigger] after.children(parent)[l]
                == before.children(parent)[j],
{
    let list = after.children(parent);
    let k = choose|k: int| 0 <= k < list.len() && list[k] == before.children(parent)[i];
    let l = choose|l: int| 0 <= l < list.len() && list[l] == before.children(parent)[j];
    lemma_children_keep_their_order(before, after, parent, parent, i, j, k, l);
}

} // verus!
