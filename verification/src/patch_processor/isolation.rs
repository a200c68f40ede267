//! How far the work on one node reaches: what it may change, and what it
//! leaves alone.

use crate::patch_processor::semantics::move_copy;
use crate::patch_structure::query::ComplexQueryModel;
use crate::patch_structure::query::QueryModel;
use crate::patch_structure::reference_expression::eval_expression;
use crate::patch_structure::refex_segment::SegmentModel;
use crate::text::split_seq;
use crate::xml_structure::bidirectional_xml_tree::MoveCopyAction;
use crate::xml_structure::model::is_parent_of;
use crate::xml_structure::model::DataModel;
use crate::xml_structure::model::TreeModel;
use vstd::prelude::*;

verus! {

/// Whether the template of a `$move` or `$copy` names no path, whatever tree
/// it is evaluated in: such a key can only rename.
pub open spec fn names_no_path(expression: Seq<SegmentModel>) -> bool {
    forall|tree: TreeModel, node: usize|
        (#[trigger] eval_expression(tree, node, expression)) matches Ok(text) ==> split_seq(
            text,
            '/',
        ).len() == 1
}

/// Whether a `$move` or `$copy`, where one is written, names no path.
pub open spec fn stays_in_place(target: Option<Seq<SegmentModel>>) -> bool {
    target matches Some(expression) ==> names_no_path(expression)
}

/// Whether a query takes nothing to another place, at any depth: whether
/// each `$move` and `$copy` in it names no path.
pub open spec fn is_local(query: QueryModel) -> bool
    decreases query, 0nat,
{
    match query {
        QueryModel::Simple(_) => true,
        QueryModel::Complex(q) => is_local_complex(q),
        QueryModel::ComplexVec(queries) => forall|i: int|
            0 <= i < queries.len() ==> is_local_complex(#[trigger] queries[i]),
    }
}

/// Whether a complex query takes nothing to another place, at any depth.
pub open spec fn is_local_complex(query: ComplexQueryModel) -> bool
    decreases query, 1nat,
{
    &&& stays_in_place(query.modifier.copy)
    &&& stays_in_place(query.modifier.move_to)
    &&& forall|i: int|
        0 <= i < query.subqueries.len() ==> is_local((#[trigger] query.subqueries[i]).1)
}

/// Whether `after` is `before` but for what `node` itself holds: every other
/// node is as it was, and `node` has the parent and the children that it
/// had.
pub open spec fn touched_only(before: TreeModel, after: TreeModel, node: usize) -> bool {
    &&& after.nodes.len() == before.nodes.len()
    &&& forall|id: usize|
        before.holds(id) && id != node ==> #[trigger] after.nodes[id as int]
            == before.nodes[id as int]
    &&& before.holds(node) ==> after.nodes[node as int].parent == before.nodes[node as int].parent
    &&& after.children(node) == before.children(node)
}

/// Whether `id` was made after `tree`, or lies under `top` in it.
pub open spec fn in_reach(tree: TreeModel, top: usize, id: usize) -> bool {
    id >= tree.nodes.len() || tree.under(top, id)
}

/// Whether every node of `before` is a node of `after` with the parent that
/// it had, or with none.
pub open spec fn parents_kept(before: TreeModel, after: TreeModel) -> bool {
    forall|id: usize| #[trigger]
        before.holds(id) ==> after.holds(id) && (after.nodes[id as int].parent
            == before.nodes[id as int].parent || after.nodes[id as int].parent is None)
}

/// Whether all of `before` but `node` are in `after`.
pub open spec fn others_kept(before: Seq<usize>, after: Seq<usize>, node: usize) -> bool {
    forall|k: int| 0 <= k < before.len() && before[k] != node ==> after.contains(#[trigger] before[k])
}

/// Whether `after` came from `before` by work on `node` alone: no node is
/// lost; a parent link is kept or cut; a node that is neither under `node`
/// nor its parent is as it was; and the parent of `node`, unless it is the
/// synthetic element, lists the children that it listed, but perhaps for
/// `node`.
pub open spec fn confined(before: TreeModel, after: TreeModel, node: usize) -> bool {
    &&& before.nodes.len() <= after.nodes.len()
    &&& parents_kept(before, after)
    &&& forall|id: usize|
        before.holds(id) && !before.under(node, id) && before.parent(node) != Some(id)
            ==> #[trigger] after.nodes[id as int] == before.nodes[id as int]
    &&& (before.parent(node) matches Some(p) ==> p != 0 ==> others_kept(
        before.children(p),
        after.children(p),
        node,
    ))
}

/// Whether the subtree at `sibling`, a child of `parent`, is in `after` as it
/// was in `before`, node by node, and is still listed by `parent`.
pub open spec fn spared(before: TreeModel, after: TreeModel, parent: usize, sibling: usize)
    -> bool {
    &&& after.children(parent).contains(sibling)
    &&& forall|id: usize|
        before.holds(id) && before.under(sibling, id) ==> #[trigger] after.nodes[id as int]
            == before.nodes[id as int]
}

/// The nodes under a node stand at or after it.
pub proof fn lemma_under_is_later(tree: TreeModel, top: usize, id: usize)
    requires
        tree.under(top, id),
    ensures
        top <= id,
    decreases id,
{
    if id != top {
        lemma_under_is_later(tree, top, tree.nodes[id as int].parent->Some_0);
    }
}

/// What lies under a node after parent links were cut lay under it before.
pub proof fn lemma_under_before(before: TreeModel, after: TreeModel, top: usize, id: usize)
    requires
        parents_kept(before, after),
        before.holds(id),
        after.under(top, id),
    ensures
        before.under(top, id),
    decreases id,
{
    if id != top {
        let p = after.nodes[id as int].parent->Some_0;
        assert(before.holds(id));
        assert(before.nodes[id as int].parent == Some(p));
        assert(p < id);
        lemma_under_before(before, after, top, p);
    }
}

/// What lies, in a later tree, under a node within reach is within reach.
pub proof fn lemma_reach_is_closed(
    before: TreeModel,
    after: TreeModel,
    top: usize,
    inner: usize,
    id: usize,
)
    requires
        parents_kept(before, after),
        in_reach(before, top, inner),
        after.under(inner, id),
    ensures
        in_reach(before, top, id),
    decreases id,
{
    if before.holds(id) && id != inner {
        let p = after.nodes[id as int].parent->Some_0;
        assert(before.nodes[id as int].parent == Some(p));
        assert(p < id);
        lemma_reach_is_closed(before, after, top, inner, p);
        assert(before.under(top, p));
    }
}

/// Two children of one node have nothing under them in common.
pub proof fn lemma_siblings_are_apart(
    tree: TreeModel,
    parent: usize,
    one: usize,
    other: usize,
    id: usize,
)
    requires
        tree.holds(one),
        tree.holds(other),
        tree.parent(one) == Some(parent),
        tree.parent(other) == Some(parent),
        parent < one,
        parent < other,
        one != other,
        tree.under(one, id),
    ensures
        !tree.under(other, id),
    decreases id,
{
    if tree.under(other, id) {
        if id == one {
            assert(tree.under(other, parent));
            lemma_under_is_later(tree, other, parent);
        } else if id == other {
            assert(tree.under(one, parent));
            lemma_under_is_later(tree, one, parent);
        } else {
            lemma_siblings_are_apart(
                tree,
                parent,
                one,
                other,
                tree.nodes[id as int].parent->Some_0,
            );
        }
    }
}

/// Nothing is work on any node.
pub proof fn lemma_confined_unchanged(tree: TreeModel, node: usize)
    ensures
        confined(tree, tree, node),
{
    match tree.parent(node) {
        Some(p) => {
            assert forall|k: int|
                0 <= k < tree.children(p).len() && tree.children(p)[k]
                    != node implies tree.children(p).contains(#[trigger] tree.children(p)[k]) by {}
        },
        None => {},
    }
}

/// Work on a node and more work on the same node is work on that node.
pub proof fn lemma_confined_twice(first: TreeModel, second: TreeModel, third: TreeModel, node: usize)
    requires
        first.wf(),
        first.holds(node),
        confined(first, second, node),
        confined(second, third, node),
    ensures
        confined(first, third, node),
{
    assert forall|id: usize|
        first.holds(id) && !first.under(node, id) && first.parent(node) != Some(
            id,
        ) implies #[trigger] third.nodes[id as int] == first.nodes[id as int] by {
        assert(second.nodes[id as int] == first.nodes[id as int]);
        assert(second.holds(id));
        if second.under(node, id) {
            lemma_under_before(first, second, node, id);
        }
        assert(first.holds(node));
        assert(third.nodes[id as int] == second.nodes[id as int]);
    }
    assert forall|id: usize| #[trigger] first.holds(id) implies third.holds(id) && (
    third.nodes[id as int].parent == first.nodes[id as int].parent
        || third.nodes[id as int].parent is None) by {
        assert(second.holds(id));
    }
    match first.parent(node) {
        Some(p) => {
            if p != 0 {
                assert(first.holds(node));
                assert(p < node);
                let start = first.children(p);
                let middle = second.children(p);
                let end = third.children(p);
                if second.parent(node) == Some(p) {
                    assert forall|k: int| 0 <= k < start.len() && start[k] != node implies end.contains(
                        #[trigger] start[k],
                    ) by {
                        assert(middle.contains(start[k]));
                        let w = choose|w: int| 0 <= w < middle.len() && middle[w] == start[k];
                        assert(end.contains(middle[w]));
                    }
                } else {
                    assert(second.parent(node) is None);
                    assert(second.holds(p));
                    if second.under(node, p) {
                        lemma_under_is_later(second, node, p);
                    }
                    assert(third.nodes[p as int] == second.nodes[p as int]);
                    assert(end == middle);
                }
            }
        },
        None => {},
    }
}

/// Work on a node within reach of `node`, done after work on `node`, is work
/// on `node`.
pub proof fn lemma_confined_inner(
    first: TreeModel,
    second: TreeModel,
    third: TreeModel,
    node: usize,
    inner: usize,
)
    requires
        first.wf(),
        first.holds(node),
        confined(first, second, node),
        in_reach(first, node, inner),
        second.holds(inner),
        second.parent(inner) matches Some(x) ==> in_reach(first, node, x),
        confined(second, third, inner),
    ensures
        confined(first, third, node),
{
    assert forall|id: usize|
        first.holds(id) && !in_reach(first, node, id) implies #[trigger] third.nodes[id as int]
        == second.nodes[id as int] by {
        assert(second.holds(id));
        if second.under(inner, id) {
            lemma_reach_is_closed(first, second, node, inner, id);
        }
    }
    assert forall|id: usize|
        first.holds(id) && !first.under(node, id) && first.parent(node) != Some(
            id,
        ) implies #[trigger] third.nodes[id as int] == first.nodes[id as int] by {
        assert(second.nodes[id as int] == first.nodes[id as int]);
        assert(!in_reach(first, node, id));
        assert(third.nodes[id as int] == second.nodes[id as int]);
    }
    assert forall|id: usize| #[trigger] first.holds(id) implies third.holds(id) && (
    third.nodes[id as int].parent == first.nodes[id as int].parent
        || third.nodes[id as int].parent is None) by {
        assert(second.holds(id));
    }
    match first.parent(node) {
        Some(p) => {
            assert(first.holds(node));
            assert(p < node);
            if first.under(node, p) {
                lemma_under_is_later(first, node, p);
            }
            assert(first.holds(p) && !in_reach(first, node, p));
            assert(third.nodes[p as int] == second.nodes[p as int]);
            assert(third.children(p) == second.children(p));
        },
        None => {},
    }
}

/// Replacing what a node holds is work on that node.
pub proof fn lemma_confined_data(tree: TreeModel, node: usize, data: DataModel)
    requires
        tree.wf(),
    ensures
        confined(tree, tree.with_data(node, data), node),
{
    let after = tree.with_data(node, data);
    lemma_confined_unchanged(tree, node);
    match tree.parent(node) {
        Some(p) => {
            assert(tree.holds(node));
            assert(p < node);
            assert(after.children(p) == tree.children(p));
        },
        None => {},
    }
}

/// Adding a child to a node is work on that node.
pub proof fn lemma_confined_append(tree: TreeModel, node: usize, data: DataModel)
    requires
        tree.wf(),
        tree.holds(node),
        tree.nodes.len() < usize::MAX,
    ensures
        confined(tree, tree.append(node, data), node),
{
    let after = tree.append(node, data);
    lemma_confined_unchanged(tree, node);
    assert(tree.under(node, node));
    match tree.parent(node) {
        Some(p) => {
            assert(p < node);
            assert(after.children(p) == tree.children(p));
        },
        None => {},
    }
}

/// Detaching a node is work on that node.
pub proof fn lemma_confined_remove(tree: TreeModel, node: usize)
    requires
        tree.wf(),
        tree.holds(node),
    ensures
        confined(tree, tree.remove(node), node),
{
    let after = tree.remove(node);
    lemma_confined_unchanged(tree, node);
    assert(tree.under(node, node));
    match tree.parent(node) {
        Some(p) => {
            assert(p < node);
            let detached = tree.with_parent(node, None);
            assert forall|x: usize| detached.children(x) == tree.children(x) by {}
            tree.lemma_children_in_bounds(p);
            detached.lemma_attached_subset(p, detached.children(p));
            if p != 0 {
                let list = tree.children(p);
                assert forall|k: int| 0 <= k < list.len() && list[k] != node implies after.children(
                    p,
                ).contains(#[trigger] list[k]) by {
                    assert(is_parent_of(tree, p, list[k]));
                    assert(detached.parent(list[k]) is Some);
                    assert(detached.attached(list).contains(list[k]));
                    assert(tree.is_element(p));
                }
            }
        },
        None => {},
    }
}

/// Whether `selector` matches the name of the element `id`.
pub open spec fn is_selected(tree: TreeModel, id: usize, selector: Seq<char>) -> bool {
    tree.name(id) matches Some(name) && crate::patch_structure::regex::regex_matches(
        selector,
        name,
    )
}

/// A change to what one node holds is work on that node.
pub proof fn lemma_touched_is_confined(before: TreeModel, after: TreeModel, node: usize)
    requires
        before.wf(),
        touched_only(before, after, node),
    ensures
        confined(before, after, node),
{
    match before.parent(node) {
        Some(p) => {
            assert(before.holds(node));
            assert(p < node);
            assert(after.nodes[p as int] == before.nodes[p as int]);
            assert(after.children(p) == before.children(p));
            assert forall|k: int|
                0 <= k < before.children(p).len() && before.children(p)[k]
                    != node implies after.children(p).contains(#[trigger] before.children(p)[k]) by {}
        },
        None => {},
    }
}

/// A text without the separator is its own single piece.
pub proof fn lemma_split_whole(text: Seq<char>, sep: char)
    requires
        !text.contains(sep),
    ensures
        split_seq(text, sep) == seq![text],
    decreases text.len(),
{
    if text.len() > 0 {
        let init = text.drop_last();
        assert forall|k: int| 0 <= k < init.len() implies init[k] != sep by {
            assert(init[k] == text[k]);
            assert(text.contains(text[k]));
        }
        assert(!init.contains(sep));
        lemma_split_whole(init, sep);
        assert(text.contains(text.last()));
        assert(init.push(text.last()) =~= text);
        assert(split_seq(text, sep) =~= seq![text]);
    } else {
        assert(text =~= Seq::<char>::empty());
    }
}

/// Whether a template is written out, without a reference, and holds no `/`.
pub open spec fn is_written_name(expression: Seq<SegmentModel>) -> bool {
    forall|i: int|
        0 <= i < expression.len() ==> ((#[trigger] expression[i]) matches SegmentModel::Text(text)
            && !text.contains('/'))
}

/// A template that is written out stands for the same text in every tree,
/// and that text holds no `/` where the template holds none.
pub proof fn lemma_written_name_text(tree: TreeModel, node: usize, expression: Seq<SegmentModel>)
    requires
        is_written_name(expression),
    ensures
        eval_expression(tree, node, expression) matches Ok(text) && !text.contains('/'),
    decreases expression.len(),
{
    if expression.len() > 0 {
        let init = expression.drop_last();
        assert forall|i: int| 0 <= i < init.len() implies ((#[trigger] init[i]) matches SegmentModel::Text(
            text,
        ) && !text.contains('/')) by {
            assert(init[i] == expression[i]);
        }
        lemma_written_name_text(tree, node, init);
        let before = eval_expression(tree, node, init)->Ok_0;
        let last = expression.last();
        assert(last == expression[expression.len() - 1]);
        let piece = last->Text_0;
        let whole = before + piece;
        assert forall|k: int| 0 <= k < whole.len() implies whole[k] != '/' by {
            if k < before.len() {
                assert(before.contains(before[k]));
            } else {
                assert(piece.contains(piece[k - before.len()]));
            }
        }
    } else {
        assert(!Seq::<char>::empty().contains('/'));
    }
}

/// A `$move` or `$copy` that is written out, without a reference and without
/// `/`, names no path.
pub proof fn lemma_written_name_names_no_path(expression: Seq<SegmentModel>)
    requires
        is_written_name(expression),
    ensures
        names_no_path(expression),
{
    assert forall|tree: TreeModel, node: usize|
        (#[trigger] eval_expression(tree, node, expression)) is Ok implies split_seq(
        eval_expression(tree, node, expression)->Ok_0,
        '/',
    ).len() == 1 by {
        lemma_written_name_text(tree, node, expression);
        lemma_split_whole(eval_expression(tree, node, expression)->Ok_0, '/');
    }
}

/// A `$move` or `$copy` that names no path changes at most what `node`
/// itself holds, and where it fails it changes nothing.
pub proof fn lemma_rename_only(
    tree: TreeModel,
    node: usize,
    expression: Seq<SegmentModel>,
    action: MoveCopyAction,
)
    requires
        tree.wf(),
        tree.holds(node),
        names_no_path(expression),
    ensures
        match move_copy(tree, node, expression, action) {
            Ok(after) => touched_only(tree, after, node),
            Err((after, _)) => after == tree,
        },
{
    match eval_expression(tree, node, expression) {
        Ok(text) => {
            let parts = split_seq(text, '/');
            assert(parts.len() == 1);
            assert(parts.drop_last().len() == 0);
        },
        Err(_) => {},
    }
}

/// Whether none of the selectors of `subqueries` matches the name of `id`.
pub open spec fn is_unselected(
    tree: TreeModel,
    id: usize,
    subqueries: Seq<(Seq<char>, QueryModel)>,
) -> bool {
    forall|i: int|
        0 <= i < subqueries.len() ==> !is_selected(tree, id, (#[trigger] subqueries[i]).0)
}

/// What lay under a node lies under it as long as all of that is as it was.
pub proof fn lemma_spared_under(before: TreeModel, after: TreeModel, top: usize, id: usize)
    requires
        before.nodes.len() <= after.nodes.len(),
        forall|x: usize|
            before.holds(x) && before.under(top, x) ==> #[trigger] after.nodes[x as int]
                == before.nodes[x as int],
        before.holds(id),
        before.under(top, id),
    ensures
        after.under(top, id),
    decreases id,
{
    if id != top {
        let p = before.nodes[id as int].parent->Some_0;
        assert(after.nodes[id as int] == before.nodes[id as int]);
        lemma_spared_under(before, after, top, p);
    }
}

/// A child that was spared by one piece of work and then by another was
/// spared by both together.
pub proof fn lemma_spared_twice(
    first: TreeModel,
    second: TreeModel,
    third: TreeModel,
    parent: usize,
    sibling: usize,
)
    requires
        first.nodes.len() <= second.nodes.len(),
        spared(first, second, parent, sibling),
        spared(second, third, parent, sibling),
    ensures
        spared(first, third, parent, sibling),
{
    assert forall|id: usize|
        first.holds(id) && first.under(sibling, id) implies #[trigger] third.nodes[id as int]
        == first.nodes[id as int] by {
        assert(second.nodes[id as int] == first.nodes[id as int]);
        lemma_spared_under(first, second, sibling, id);
        assert(second.holds(id));
    }
}

/// Work on one child of a node spares every other child that was spared so
/// far.
pub proof fn lemma_step_spares_sibling(
    first: TreeModel,
    second: TreeModel,
    third: TreeModel,
    parent: usize,
    child: usize,
    sibling: usize,
)
    requires
        first.wf(),
        parent != 0,
        first.holds(child),
        first.holds(sibling),
        first.parent(child) == Some(parent),
        first.parent(sibling) == Some(parent),
        child != sibling,
        parents_kept(first, second),
        spared(first, second, parent, sibling),
        confined(second, third, child),
    ensures
        spared(first, third, parent, sibling),
{
    assert(parent < child && parent < sibling);
    assert(first.holds(parent));
    assert(second.holds(parent) && second.holds(child));
    if second.under(child, parent) {
        lemma_under_is_later(second, child, parent);
    }
    if second.parent(child) == Some(parent) {
        let middle = second.children(parent);
        let w = choose|w: int| 0 <= w < middle.len() && middle[w] == sibling;
        assert(third.children(parent).contains(middle[w]));
    } else {
        assert(third.nodes[parent as int] == second.nodes[parent as int]);
        assert(third.children(parent) == second.children(parent));
    }
    assert forall|id: usize|
        first.holds(id) && first.under(sibling, id) implies #[trigger] third.nodes[id as int]
        == first.nodes[id as int] by {
        assert(second.nodes[id as int] == first.nodes[id as int]);
        assert(second.holds(id));
        if second.under(child, id) {
            lemma_under_before(first, second, child, id);
            lemma_siblings_are_apart(first, parent, sibling, child, id);
        }
        lemma_under_is_later(first, sibling, id);
        assert(third.nodes[id as int] == second.nodes[id as int]);
    }
}

/// A subtree whose nodes are all as they were stands for the document that
/// it stood for.
pub proof fn lemma_spared_value(before: TreeModel, after: TreeModel, top: usize, id: usize)
    requires
        before.wf(),
        before.nodes.len() <= after.nodes.len(),
        0 < top,
        forall|x: usize|
            before.holds(x) && before.under(top, x) ==> #[trigger] after.nodes[x as int]
                == before.nodes[x as int],
        before.holds(id),
        before.under(top, id),
    ensures
        after.node_value(id) == before.node_value(id),
        after.element_value(id) == before.element_value(id),
    decreases before.nodes.len() - id,
{
    assert(after.nodes[id as int] == before.nodes[id as int]);
    lemma_under_is_later(before, top, id);
    if before.is_element(id) {
        let children = before.element(id).children;
        before.lemma_children_in_bounds(id);
        assert(children == before.children(id));
        assert forall|k: int| 0 <= k < children.len() implies after.node_value(children[k])
            == before.node_value(children[k]) && id < children[k] < before.nodes.len() by {
            assert(id < before.children(id)[k] < before.nodes.len());
            assert(is_parent_of(before, id, before.children(id)[k]));
            assert(before.holds(children[k]));
            assert(before.under(top, children[k]));
            lemma_spared_value(before, after, top, children[k]);
        }
        assert(after.element_value(id).children =~= before.element_value(id).children);
    } else {
        assert(after.element_value(id).children =~= before.element_value(id).children);
    }
}

/// A child that was left alone stands for the document that it stood for.
pub proof fn lemma_spared_child_keeps_its_document(
    before: TreeModel,
    after: TreeModel,
    parent: usize,
    child: usize,
)
    requires
        before.wf(),
        before.nodes.len() <= after.nodes.len(),
        0 < child,
        before.holds(child),
        spared(before, after, parent, child),
    ensures
        after.children(parent).contains(child),
        after.node_value(child) == before.node_value(child),
{
    lemma_spared_value(before, after, child, child);
}

/// Noting a selector on a node is work on that node.
pub proof fn lemma_confined_set_regex(tree: TreeModel, node: usize, regex: Option<Seq<char>>)
    requires
        tree.wf(),
    ensures
        confined(tree, tree.set_regex(node, regex), node),
{
    if tree.is_element(node) {
        lemma_confined_data(
            tree,
            node,
            DataModel::Element(
                crate::xml_structure::model::ElementModel {
                    applied_regexp: regex,
                    ..tree.element(node)
                },
            ),
        );
    } else {
        lemma_confined_unchanged(tree, node);
    }
}

/// Emptying a node is work on that node.
pub proof fn lemma_confined_clear(tree: TreeModel, node: usize)
    requires
        tree.wf(),
    ensures
        confined(tree, tree.clear_children(node), node),
{
    if tree.is_element(node) {
        lemma_confined_data(
            tree,
            node,
            DataModel::Element(
                crate::xml_structure::model::ElementModel {
                    children: Seq::empty(),
                    ..tree.element(node)
                },
            ),
        );
    } else {
        lemma_confined_unchanged(tree, node);
    }
}

/// Setting or removing an attribute of a node is work on that node.
pub proof fn lemma_confined_patch_attribute(
    tree: TreeModel,
    node: usize,
    name: Seq<char>,
    value: Option<Seq<char>>,
)
    requires
        tree.wf(),
    ensures
        confined(tree, tree.patch_attribute(node, name, value), node),
{
    let after = tree.patch_attribute(node, name, value);
    if tree.is_element(node) {
        lemma_confined_data(tree, node, after.nodes[node as int].data);
        assert(after.nodes =~= tree.with_data(node, after.nodes[node as int].data).nodes);
    } else {
        lemma_confined_unchanged(tree, node);
    }
}

/// Work on one child of a node, done after work on the node, is work on the
/// node, and spares every other child that was spared so far.
pub proof fn lemma_children_step(
    first: TreeModel,
    second: TreeModel,
    third: TreeModel,
    node: usize,
    children: Seq<usize>,
    k: int,
    selector: Seq<char>,
)
    requires
        first.wf(),
        node != 0,
        first.holds(node),
        children == first.children(node),
        0 <= k < children.len(),
        confined(first, second, node),
        confined(second, third, children[k]),
        forall|j: int|
            0 <= j < children.len() && (j >= k || !is_selected(first, children[j], selector))
                ==> spared(first, second, node, #[trigger] children[j]),
    ensures
        confined(first, third, node),
        forall|j: int|
            0 <= j < children.len() && j != k && (j >= k || !is_selected(
                first,
                children[j],
                selector,
            )) ==> spared(first, third, node, #[trigger] children[j]),
{
    let child = children[k];
    first.lemma_children_in_bounds(node);
    assert(node < first.children(node)[k] < first.nodes.len());
    assert(is_parent_of(first, node, first.children(node)[k]));
    assert(first.parent(child) == Some(node));
    assert(first.holds(child));
    assert(first.under(node, node));
    assert(first.under(node, child));
    assert(second.holds(child));
    lemma_confined_inner(first, second, third, node, child);
    assert forall|j: int|
        0 <= j < children.len() && j != k && (j >= k || !is_selected(
            first,
            children[j],
            selector,
        )) implies spared(first, third, node, #[trigger] children[j]) by {
        assert(node < first.children(node)[j] < first.nodes.len());
        assert(is_parent_of(first, node, first.children(node)[j]));
        if j < k {
            assert(children[j] < children[k]);
        } else {
            assert(children[k] < children[j]);
        }
        lemma_step_spares_sibling(first, second, third, node, child, children[j]);
    }
}

/// A child that was spared stands for the document that it stood for, and
/// is a child still.
pub proof fn lemma_spared_sibling_is_unchanged(
    before: TreeModel,
    after: TreeModel,
    parent: usize,
    sibling: usize,
)
    requires
        before.wf(),
        before.nodes.len() <= after.nodes.len(),
        before.holds(parent),
        before.children(parent).contains(sibling),
        spared(before, after, parent, sibling),
    ensures
        after.children(parent).contains(sibling),
        after.node_value(sibling) == before.node_value(sibling),
{
    before.lemma_children_in_bounds(parent);
    let w = choose|w: int|
        0 <= w < before.children(parent).len() && before.children(parent)[w] == sibling;
    assert(parent < before.children(parent)[w] < before.nodes.len());
    assert(before.under(sibling, sibling));
    lemma_spared_value(before, after, sibling, sibling);
}

} // verus!
