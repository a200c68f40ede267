//! What the tree owes to the documents that it stands for.

use crate::patch_processor::isolation::lemma_spared_value;
use crate::patch_processor::isolation::lemma_under_is_later;
use crate::xml_structure::document::DocumentElementModel;
use crate::xml_structure::document::DocumentNodeModel;
use crate::xml_structure::model::build_children;
use crate::xml_structure::model::build_node;
use crate::xml_structure::model::element_shell;
use crate::xml_structure::model::internal_root;
use crate::xml_structure::model::is_childless;
use crate::xml_structure::model::is_parent_of;
use crate::xml_structure::model::shallow;
use crate::xml_structure::model::tree_of_document;
use crate::xml_structure::model::DataModel;
use crate::xml_structure::model::ElementModel;
use crate::xml_structure::model::NodeModel;
use crate::xml_structure::model::TreeModel;
use vstd::prelude::*;

verus! {

/// The data with which a node that stands for `node` is made.
pub open spec fn node_shell(node: DocumentNodeModel) -> DataModel {
    match node {
        DocumentNodeModel::Element(e) => element_shell(e),
        DocumentNodeModel::Comment(s) => DataModel::Comment(s),
        DocumentNodeModel::CData(s) => DataModel::CData(s),
        DocumentNodeModel::Text(s) => DataModel::Text(s),
        DocumentNodeModel::ProcessingInstruction(target, data) => DataModel::ProcessingInstruction(
            target,
            data,
        ),
    }
}

/// Whether `after` is `before` with more children below the element
/// `parent`, and with nothing else changed among the nodes of `before`.
pub open spec fn grown_below(before: TreeModel, after: TreeModel, parent: usize) -> bool {
    &&& after.wf()
    &&& before.nodes.len() <= after.nodes.len()
    &&& after.is_element(parent)
    &&& after.nodes[parent as int].parent == before.nodes[parent as int].parent
    &&& after.element(parent) == (ElementModel {
        children: after.element(parent).children,
        ..before.element(parent)
    })
    &&& before.children(parent).len() <= after.children(parent).len()
    &&& forall|k: int|
        0 <= k < before.children(parent).len() ==> #[trigger] after.children(parent)[k]
            == before.children(parent)[k]
    &&& forall|k: int|
        before.children(parent).len() <= k < after.children(parent).len() ==> (
        #[trigger] after.children(parent)[k]) >= before.nodes.len()
    &&& forall|id: usize|
        before.holds(id) && id != parent ==> #[trigger] after.nodes[id as int]
            == before.nodes[id as int]
}

/// Building never makes a tree smaller, and building a node makes it larger.
pub proof fn lemma_build_node_grows(tree: TreeModel, parent: usize, node: DocumentNodeModel)
    ensures
        build_node(tree, parent, node).nodes.len() > tree.nodes.len(),
    decreases node, 0nat,
{
    match node {
        DocumentNodeModel::Element(e) => {
            lemma_build_children_grows(
                tree.append(parent, element_shell(e)),
                tree.nodes.len() as usize,
                e.children,
                0,
            );
        },
        _ => {},
    }
}

/// Building never makes a tree smaller.
pub proof fn lemma_build_children_grows(
    tree: TreeModel,
    parent: usize,
    children: Seq<DocumentNodeModel>,
    from: int,
)
    ensures
        build_children(tree, parent, children, from).nodes.len() >= tree.nodes.len(),
    decreases children, children.len() - from,
{
    if 0 <= from < children.len() {
        lemma_build_node_grows(tree, parent, children[from]);
        lemma_build_children_grows(
            build_node(tree, parent, children[from]),
            parent,
            children,
            from + 1,
        );
    }
}

/// Adding a child to an element grows the tree below that element.
pub proof fn lemma_append_grows_below(tree: TreeModel, parent: usize, data: DataModel)
    requires
        tree.wf(),
        tree.is_element(parent),
        tree.nodes.len() < usize::MAX,
        is_childless(data),
    ensures
        grown_below(tree, tree.append(parent, data), parent),
        tree.append(parent, data).children(parent) == tree.children(parent).push(
            tree.nodes.len() as usize,
        ),
        tree.append(parent, data).nodes[tree.nodes.len() as int] == (NodeModel {
            parent: Some(parent),
            data,
        }),
{
    tree.lemma_append_wf(parent, data);
}

/// Growing below an element, and growing further below it, is growing below
/// it.
pub proof fn lemma_grown_twice(first: TreeModel, second: TreeModel, third: TreeModel, parent: usize)
    requires
        first.holds(parent),
        grown_below(first, second, parent),
        grown_below(second, third, parent),
    ensures
        grown_below(first, third, parent),
{
    assert forall|k: int| 0 <= k < first.children(parent).len() implies #[trigger] third.children(
        parent,
    )[k] == first.children(parent)[k] by {
        assert(second.children(parent)[k] == first.children(parent)[k]);
    }
    assert forall|k: int|
        first.children(parent).len() <= k < third.children(parent).len() implies (
    #[trigger] third.children(parent)[k]) >= first.nodes.len() by {
        if k < second.children(parent).len() {
            assert(third.children(parent)[k] == second.children(parent)[k]);
        }
    }
    assert forall|id: usize| first.holds(id) && id != parent implies #[trigger] third.nodes[id as int]
        == first.nodes[id as int] by {
        assert(second.holds(id));
        assert(second.nodes[id as int] == first.nodes[id as int]);
    }
}

/// The document below a node that was left alone, with all that lies under
/// it, is the document that was below it.
pub proof fn lemma_value_kept_below(before: TreeModel, after: TreeModel, parent: usize, id: usize)
    requires
        before.wf(),
        grown_below(before, after, parent),
        before.holds(id),
        0 < id,
        !before.under(id, parent),
    ensures
        after.node_value(id) == before.node_value(id),
{
    assert forall|x: usize| before.holds(x) && before.under(id, x) implies #[trigger] after.nodes[x as int]
        == before.nodes[x as int] by {}
    assert(before.under(id, id));
    lemma_spared_value(before, after, id, id);
}

/// Building the subtree for a document node below an element adds one child
/// to the element, and that child stands for the node.
pub proof fn lemma_build_node(tree: TreeModel, parent: usize, node: DocumentNodeModel)
    requires
        tree.wf(),
        tree.is_element(parent),
        build_node(tree, parent, node).nodes.len() <= usize::MAX,
    ensures
        grown_below(tree, build_node(tree, parent, node), parent),
        build_node(tree, parent, node).children(parent) == tree.children(parent).push(
            tree.nodes.len() as usize,
        ),
        build_node(tree, parent, node).node_value(tree.nodes.len() as usize) == node,
    decreases node, 0nat,
{
    let made = tree.nodes.len() as usize;
    lemma_build_node_grows(tree, parent, node);
    let started = tree.append(parent, node_shell(node));
    lemma_append_grows_below(tree, parent, node_shell(node));
    match node {
        DocumentNodeModel::Element(e) => {
            let built = build_children(started, made, e.children, 0);
            assert(built == build_node(tree, parent, node));
            lemma_build_children(started, made, e.children, 0);
            assert(started.children(made) =~= Seq::empty());
            assert(built.nodes[parent as int] == started.nodes[parent as int]);
            let values = built.element_value(made).children;
            assert(values.len() == e.children.len());
            assert forall|k: int| 0 <= k < values.len() implies values[k] == e.children[k] by {
                built.lemma_children_in_bounds(made);
                assert(made < built.children(made)[k] < built.nodes.len());
                assert(built.element(made).children == built.children(made));
                let child = built.children(made)[started.children(made).len() + k - 0];
                assert(built.node_value(child) == e.children[k]);
                assert(child == built.children(made)[k]);
            }
            assert(values =~= e.children);
            assert(built.element_value(made) == e);
            assert forall|id: usize| tree.holds(id) && id != parent implies #[trigger] built.nodes[id as int]
                == tree.nodes[id as int] by {
                assert(started.holds(id));
                assert(started.nodes[id as int] == tree.nodes[id as int]);
            }
        },
        _ => {
            assert(started == build_node(tree, parent, node));
            assert(started.node_value(made) == node);
        },
    }
}

/// Building the subtrees for a list of document nodes below an element adds
/// as many children to the element, and each stands for its node.
pub proof fn lemma_build_children(
    tree: TreeModel,
    parent: usize,
    children: Seq<DocumentNodeModel>,
    from: int,
)
    requires
        tree.wf(),
        tree.is_element(parent),
        0 < parent,
        0 <= from <= children.len(),
        build_children(tree, parent, children, from).nodes.len() <= usize::MAX,
    ensures
        grown_below(tree, build_children(tree, parent, children, from), parent),
        build_children(tree, parent, children, from).children(parent).len() == tree.children(
            parent,
        ).len() + children.len() - from,
        forall|k: int|
            from <= k < children.len() ==> build_children(
                tree,
                parent,
                children,
                from,
            ).node_value(
                #[trigger] build_children(tree, parent, children, from).children(
                    parent,
                )[tree.children(parent).len() + k - from],
            ) == children[k],
    decreases children, children.len() - from,
{
    if from < children.len() {
        let made = tree.nodes.len() as usize;
        let first = build_node(tree, parent, children[from]);
        let all = build_children(first, parent, children, from + 1);
        lemma_build_children_grows(first, parent, children, from + 1);
        lemma_build_node(tree, parent, children[from]);
        lemma_build_children(first, parent, children, from + 1);
        lemma_grown_twice(tree, first, all, parent);
        let base = tree.children(parent).len() as int;
        assert(first.children(parent).len() == base + 1);
        assert forall|k: int| from <= k < children.len() implies all.node_value(
            #[trigger] all.children(parent)[base + k - from],
        ) == children[k] by {
            if k == from {
                assert(all.children(parent)[base] == first.children(parent)[base]);
                assert(first.children(parent)[base] == made);
                assert(first.holds(made));
                if first.under(made, parent) {
                    lemma_under_is_later(first, made, parent);
                }
                lemma_value_kept_below(first, all, parent, made);
            } else {
                assert(all.children(parent)[(base + 1) + k - (from + 1)] == all.children(
                    parent,
                )[base + k - from]);
            }
        }
    } else {
        tree.lemma_children_in_bounds(parent);
    }
}

/// The tree that is made for a document stands, at its root, for that
/// document.
pub proof fn lemma_tree_stands_for_document(root: DocumentElementModel)
    requires
        tree_of_document(root).nodes.len() <= usize::MAX,
    ensures
        tree_of_document(root).wf(),
        tree_of_document(root).is_element(1),
        tree_of_document(root).element_value(1) == root,
{
    let start = TreeModel {
        nodes: seq![
            NodeModel { parent: None, data: internal_root(1) },
            NodeModel { parent: None, data: element_shell(root) },
        ],
    };
    assert(start.wf()) by {
        assert forall|id: usize, k: int|
            start.holds(id) && 0 <= k < start.children(id).len() implies id < (
        #[trigger] start.children(id)[k]) < start.nodes.len() by {
            if id == 0 {
                assert(start.children(id) =~= seq![1usize]);
            } else {
                assert(start.children(id) =~= Seq::empty());
            }
        }
        assert forall|id: usize, k: int|
            start.holds(id) && 0 <= k < start.children(id).len() implies is_parent_of(
            start,
            id,
            #[trigger] start.children(id)[k],
        ) by {
            if id == 0 {
                assert(start.children(id) =~= seq![1usize]);
            } else {
                assert(start.children(id) =~= Seq::empty());
            }
        }
        assert forall|id: usize| start.holds(id) implies crate::xml_structure::model::is_increasing(
            #[trigger] start.children(id),
        ) by {
            if id == 0 {
                assert(start.children(id) =~= seq![1usize]);
            } else {
                assert(start.children(id) =~= Seq::empty());
            }
        }
    }
    let built = tree_of_document(root);
    lemma_build_children(start, 1, root.children, 0);
    assert(start.children(1) =~= Seq::empty());
    let values = built.element_value(1).children;
    assert(values.len() == root.children.len());
    assert forall|k: int| 0 <= k < values.len() implies values[k] == root.children[k] by {
        built.lemma_children_in_bounds(1);
        assert(1 < built.children(1)[k] < built.nodes.len());
        assert(built.element(1).children == built.children(1));
        let child = built.children(1)[start.children(1).len() + k - 0];
        assert(built.node_value(child) == root.children[k]);
        assert(child == built.children(1)[k]);
    }
    assert(values =~= root.children);
}

/// Whether the nodes before `bound` list only children before `bound`.
pub open spec fn is_closed(tree: TreeModel, bound: nat) -> bool {
    forall|id: usize, k: int|
        id < bound && tree.holds(id) && 0 <= k < tree.children(id).len() ==> id < (
        #[trigger] tree.children(id)[k]) < bound
}

/// Whether the nodes before `bound` are in `after` as they are in `before`.
pub open spec fn same_before(before: TreeModel, after: TreeModel, bound: nat) -> bool {
    &&& bound <= before.nodes.len() <= after.nodes.len()
    &&& forall|id: int| 0 <= id < bound ==> #[trigger] after.nodes[id] == before.nodes[id]
}

/// A node before a bound up to which nothing changed, and beyond which no
/// node before it reaches, stands for the document that it stood for.
pub proof fn lemma_value_before_bound(before: TreeModel, after: TreeModel, bound: nat, id: usize)
    requires
        is_closed(before, bound),
        same_before(before, after, bound),
        id < bound,
    ensures
        after.node_value(id) == before.node_value(id),
        after.element_value(id) == before.element_value(id),
    decreases bound - id,
{
    assert(after.nodes[id as int] == before.nodes[id as int]);
    if before.is_element(id) {
        let children = before.element(id).children;
        assert(children == before.children(id));
        assert forall|k: int| 0 <= k < children.len() implies after.node_value(children[k])
            == before.node_value(children[k]) && id < children[k] < bound by {
            assert(id < before.children(id)[k] < bound);
            lemma_value_before_bound(before, after, bound, children[k]);
        }
        assert(after.element_value(id).children =~= before.element_value(id).children);
    } else {
        assert(after.element_value(id).children =~= before.element_value(id).children);
    }
}

/// Copying never makes a tree smaller.
pub proof fn lemma_copy_into_grows(tree: TreeModel, bound: nat, source: usize, target: usize)
    ensures
        tree.copy_into(bound, source, target).nodes.len() >= tree.nodes.len(),
        source < bound && tree.holds(source) ==> tree.copy_into(bound, source, target).nodes.len()
            > tree.nodes.len(),
    decreases 2 * (bound - source) + 1, 0nat,
{
    if source < bound && tree.holds(source) {
        lemma_copy_children_grows(
            tree.append(target, shallow(tree.nodes[source as int].data)),
            bound,
            source,
            tree.children(source),
            tree.nodes.len() as usize,
        );
    }
}

/// Copying never makes a tree smaller.
pub proof fn lemma_copy_children_grows(
    tree: TreeModel,
    bound: nat,
    source: usize,
    children: Seq<usize>,
    target: usize,
)
    ensures
        tree.copy_children(bound, source, children, target).nodes.len() >= tree.nodes.len(),
    decreases 2 * (bound - source), children.len(),
{
    if children.len() > 0 {
        if source < children[0] < bound {
            lemma_copy_into_grows(tree, bound, children[0], target);
            lemma_copy_children_grows(
                tree.copy_into(bound, children[0], target),
                bound,
                source,
                children.skip(1),
                target,
            );
        } else {
            lemma_copy_children_grows(tree, bound, source, children.skip(1), target);
        }
    }
}

/// Copying a subtree below an element that was made after `bound` adds one
/// child to the element, and that child stands for the document that the
/// source stands for.
pub proof fn lemma_copy_into(tree: TreeModel, bound: nat, source: usize, target: usize)
    requires
        tree.wf(),
        is_closed(tree, bound),
        0 < bound <= target < tree.nodes.len(),
        tree.is_element(target),
        source < bound,
        tree.copy_into(bound, source, target).nodes.len() <= usize::MAX,
    ensures
        grown_below(tree, tree.copy_into(bound, source, target), target),
        tree.copy_into(bound, source, target).children(target) == tree.children(target).push(
            tree.nodes.len() as usize,
        ),
        tree.copy_into(bound, source, target).node_value(tree.nodes.len() as usize)
            == tree.node_value(source),
    decreases 2 * (bound - source) + 1, 0nat,
{
    let made = tree.nodes.len() as usize;
    let data = shallow(tree.nodes[source as int].data);
    let started = tree.append(target, data);
    let children = tree.children(source);
    let built = started.copy_children(bound, source, children, made);
    lemma_copy_into_grows(tree, bound, source, target);
    lemma_copy_children_grows(started, bound, source, children, made);
    lemma_append_grows_below(tree, target, data);
    assert(same_before(tree, started, bound));
    assert(is_closed(started, bound)) by {
        assert forall|id: usize, k: int|
            id < bound && started.holds(id) && 0 <= k < started.children(id).len() implies id < (
        #[trigger] started.children(id)[k]) < bound by {
            assert(started.nodes[id as int] == tree.nodes[id as int]);
            assert(started.children(id) == tree.children(id));
            assert(id < tree.children(id)[k] < bound);
        }
    }
    assert(started.children(made) =~= Seq::empty());
    assert forall|k: int| 0 <= k < children.len() implies source < #[trigger] children[k]
        < bound by {
        assert(source < tree.children(source)[k] < bound);
    }
    lemma_copy_children(started, bound, source, children, made);
    if tree.is_element(source) {
        assert(started.is_element(made));
        assert(built.nodes[target as int] == started.nodes[target as int]);
        let values = built.element_value(made).children;
        let sources = tree.element_value(source).children;
        assert(values.len() == sources.len());
        assert forall|k: int| 0 <= k < values.len() implies values[k] == sources[k] by {
            built.lemma_children_in_bounds(made);
            assert(made < built.children(made)[k] < built.nodes.len());
            assert(built.element(made).children == built.children(made));
            let child = built.children(made)[started.children(made).len() + k];
            assert(built.node_value(child) == started.node_value(children[k]));
            lemma_value_before_bound(tree, started, bound, children[k]);
            assert(source < tree.children(source)[k] < bound);
        }
        assert(values =~= sources);
    } else {
        assert(children.len() == 0);
        assert(built == started);
    }
    assert forall|id: usize| tree.holds(id) && id != target implies #[trigger] built.nodes[id as int]
        == tree.nodes[id as int] by {
        assert(started.holds(id));
        assert(started.nodes[id as int] == tree.nodes[id as int]);
    }
}

/// Copying the subtrees at some children of a source below an element that
/// was made after `bound` adds as many children to the element, and each
/// stands for the document that its source stands for.
pub proof fn lemma_copy_children(
    tree: TreeModel,
    bound: nat,
    source: usize,
    children: Seq<usize>,
    target: usize,
)
    requires
        tree.wf(),
        is_closed(tree, bound),
        0 < bound <= target < tree.nodes.len(),
        children.len() > 0 ==> tree.is_element(target),
        forall|k: int| 0 <= k < children.len() ==> source < #[trigger] children[k] < bound,
        tree.copy_children(bound, source, children, target).nodes.len() <= usize::MAX,
    ensures
        children.len() == 0 ==> tree.copy_children(bound, source, children, target) == tree,
        tree.is_element(target) ==> grown_below(
            tree,
            tree.copy_children(bound, source, children, target),
            target,
        ),
        tree.copy_children(bound, source, children, target).children(target).len()
            == tree.children(target).len() + children.len(),
        forall|k: int|
            0 <= k < children.len() ==> tree.copy_children(
                bound,
                source,
                children,
                target,
            ).node_value(
                #[trigger] tree.copy_children(bound, source, children, target).children(
                    target,
                )[tree.children(target).len() + k],
            ) == tree.node_value(children[k]),
    decreases 2 * (bound - source), children.len(),
{
    if children.len() > 0 {
        let made = tree.nodes.len() as usize;
        let first = tree.copy_into(bound, children[0], target);
        let rest = children.skip(1);
        let all = first.copy_children(bound, source, rest, target);
        assert(source < children[0] < bound);
        assert(all == tree.copy_children(bound, source, children, target));
        lemma_copy_children_grows(first, bound, source, rest, target);
        lemma_copy_into(tree, bound, children[0], target);
        assert(same_before(tree, first, bound));
        assert(is_closed(first, bound)) by {
            assert forall|id: usize, k: int|
                id < bound && first.holds(id) && 0 <= k < first.children(id).len() implies id < (
            #[trigger] first.children(id)[k]) < bound by {
                assert(first.nodes[id as int] == tree.nodes[id as int]);
                assert(first.children(id) == tree.children(id));
                assert(id < tree.children(id)[k] < bound);
            }
        }
        assert forall|k: int| 0 <= k < rest.len() implies source < #[trigger] rest[k] < bound by {
            assert(rest[k] == children[k + 1]);
        }
        lemma_copy_children(first, bound, source, rest, target);
        lemma_grown_twice(tree, first, all, target);
        let base = tree.children(target).len() as int;
        assert(first.children(target).len() == base + 1);
        assert forall|k: int| 0 <= k < children.len() implies all.node_value(
            #[trigger] all.children(target)[base + k],
        ) == tree.node_value(children[k]) by {
            if k == 0 {
                assert(all.children(target)[base] == first.children(target)[base]);
                assert(first.children(target)[base] == made);
                assert(first.holds(made));
                if first.under(made, target) {
                    lemma_under_is_later(first, made, target);
                }
                lemma_value_kept_below(first, all, target, made);
            } else {
                assert(all.children(target)[(base + 1) + (k - 1)] == all.children(target)[base
                    + k]);
                assert(rest[k - 1] == children[k]);
                lemma_value_before_bound(tree, first, bound, children[k]);
            }
        }
    } else {
        tree.lemma_children_in_bounds(target);
    }
}

/// A copy of a subtree stands for the document that the subtree stands for,
/// and making it leaves every node as it was.
pub proof fn lemma_deep_clone_value(tree: TreeModel, id: usize)
    requires
        tree.wf(),
        tree.holds(id),
        tree.deep_clone(id).nodes.len() <= usize::MAX,
    ensures
        tree.deep_clone(id).wf(),
        tree.deep_clone(id).nodes.len() > tree.nodes.len(),
        tree.deep_clone(id).node_value(tree.nodes.len() as usize) == tree.node_value(id),
        forall|other: int|
            0 <= other < tree.nodes.len() ==> #[trigger] tree.deep_clone(id).nodes[other]
                == tree.nodes[other],
{
    let bound = tree.nodes.len();
    let made = bound as usize;
    let data = shallow(tree.nodes[id as int].data);
    let started = tree.with_detached(data);
    let children = tree.children(id);
    let built = tree.deep_clone(id);
    lemma_copy_children_grows(started, bound, id, children, made);
    tree.lemma_with_detached_wf(data);
    assert(is_closed(tree, bound));
    assert(same_before(tree, started, bound));
    assert(is_closed(started, bound)) by {
        assert forall|x: usize, k: int|
            x < bound && started.holds(x) && 0 <= k < started.children(x).len() implies x < (
        #[trigger] started.children(x)[k]) < bound by {
            assert(started.nodes[x as int] == tree.nodes[x as int]);
            assert(started.children(x) == tree.children(x));
            assert(tree.holds(x));
            assert(x < tree.children(x)[k] < bound);
        }
    }
    assert(started.children(made) =~= Seq::empty());
    assert forall|k: int| 0 <= k < children.len() implies id < #[trigger] children[k] < bound by {
        assert(id < tree.children(id)[k] < bound);
    }
    lemma_copy_children(started, bound, id, children, made);
    if tree.is_element(id) {
        let values = built.element_value(made).children;
        let sources = tree.element_value(id).children;
        assert(values.len() == sources.len());
        assert forall|k: int| 0 <= k < values.len() implies values[k] == sources[k] by {
            built.lemma_children_in_bounds(made);
            assert(made < built.children(made)[k] < built.nodes.len());
            assert(built.element(made).children == built.children(made));
            let child = built.children(made)[started.children(made).len() + k];
            assert(built.node_value(child) == started.node_value(children[k]));
            lemma_value_before_bound(tree, started, bound, children[k]);
            assert(id < tree.children(id)[k] < bound);
        }
        assert(values =~= sources);
    } else {
        assert(children.len() == 0);
        assert(built == started);
    }
}

} // verus!
