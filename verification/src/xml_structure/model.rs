//! The mathematical model of the parent-linked tree: a sequence of nodes that
//! name each other by position, and the operations on it as functions.

use crate::error::PatchError;
use crate::xml_structure::document::DocumentElementModel;
use crate::xml_structure::document::DocumentNodeModel;
use vstd::prelude::*;

verus! {

/// An element node.
pub struct ElementModel {
    pub prefix: Option<Seq<char>>,
    pub name: Seq<char>,
    /// Attribute names and values in insertion order.
    pub attributes: Seq<(Seq<char>, Seq<char>)>,
    /// The selector that is matching this element right now, if any.
    pub applied_regexp: Option<Seq<char>>,
    /// The positions of the children, in document order.
    pub children: Seq<usize>,
}

/// What a node holds.
pub enum DataModel {
    Element(ElementModel),
    Comment(Seq<char>),
    CData(Seq<char>),
    Text(Seq<char>),
    ProcessingInstruction(Seq<char>, Option<Seq<char>>),
}

/// A node: what it holds, and the position of its parent.
pub struct NodeModel {
    pub parent: Option<usize>,
    pub data: DataModel,
}

/// A tree: every node that was ever made, each at a fixed position. Nodes are
/// only ever added at the end, so a child always stands after its parent.
pub struct TreeModel {
    pub nodes: Seq<NodeModel>,
}

/// A new element with the given name and nothing else.
pub open spec fn empty_element(name: Seq<char>) -> DataModel {
    DataModel::Element(
        ElementModel {
            prefix: None,
            name,
            attributes: Seq::empty(),
            applied_regexp: None,
            children: Seq::empty(),
        },
    )
}

/// The data of a node without what hangs below it and without its selector.
pub open spec fn shallow(data: DataModel) -> DataModel {
    match data {
        DataModel::Element(e) => DataModel::Element(
            ElementModel { applied_regexp: None, children: Seq::empty(), ..e },
        ),
        other => other,
    }
}

/// Whether `data` is an element without children, or no element at all.
pub open spec fn is_childless(data: DataModel) -> bool {
    data matches DataModel::Element(e) ==> e.children.len() == 0
}

/// The attributes without those called `name`.
pub open spec fn without_attribute(
    attributes: Seq<(Seq<char>, Seq<char>)>,
    name: Seq<char>,
) -> Seq<(Seq<char>, Seq<char>)>
    decreases attributes.len(),
{
    if attributes.len() == 0 {
        attributes
    } else {
        let before = without_attribute(attributes.drop_last(), name);
        if attributes.last().0 == name {
            before
        } else {
            before.push(attributes.last())
        }
    }
}

/// The position of the first attribute called `name`, or the number of
/// attributes if there is none.
pub open spec fn attribute_position(
    attributes: Seq<(Seq<char>, Seq<char>)>,
    name: Seq<char>,
) -> int
    decreases attributes.len(),
{
    if attributes.len() == 0 {
        0
    } else if attributes[0].0 == name {
        0
    } else {
        1 + attribute_position(attributes.skip(1), name)
    }
}

/// The attributes after `name` was given `value`: the first attribute of that
/// name is overwritten where it stands; without one, a new attribute is added
/// at the end.
pub open spec fn with_attribute(
    attributes: Seq<(Seq<char>, Seq<char>)>,
    name: Seq<char>,
    value: Seq<char>,
) -> Seq<(Seq<char>, Seq<char>)> {
    let position = attribute_position(attributes, name);
    if 0 <= position < attributes.len() {
        attributes.update(position, (name, value))
    } else {
        attributes.push((name, value))
    }
}

impl TreeModel {
    /// The number of nodes that were ever made.
    pub open spec fn len(self) -> nat {
        self.nodes.len()
    }

    /// Whether `id` is the position of a node.
    pub open spec fn holds(self, id: usize) -> bool {
        id < self.nodes.len()
    }

    /// Whether `id` is the position of an element.
    pub open spec fn is_element(self, id: usize) -> bool {
        self.holds(id) && self.nodes[id as int].data is Element
    }

    /// The element at `id`.
    pub open spec fn element(self, id: usize) -> ElementModel
        recommends
            self.is_element(id),
    {
        self.nodes[id as int].data->Element_0
    }

    /// The children of `id`; none where `id` is no element.
    pub open spec fn children(self, id: usize) -> Seq<usize> {
        if self.is_element(id) {
            self.element(id).children
        } else {
            Seq::empty()
        }
    }

    /// The name of the element at `id`; `None` where `id` is no element.
    pub open spec fn name(self, id: usize) -> Option<Seq<char>> {
        if self.is_element(id) {
            Some(self.element(id).name)
        } else {
            None
        }
    }

    /// The selector that is matching the element at `id`, if any.
    pub open spec fn regex(self, id: usize) -> Option<Seq<char>> {
        if self.is_element(id) {
            self.element(id).applied_regexp
        } else {
            None
        }
    }

    /// The parent of `id`, if it has one.
    pub open spec fn parent(self, id: usize) -> Option<usize> {
        if self.holds(id) {
            self.nodes[id as int].parent
        } else {
            None
        }
    }

    /// Every link points at a node, a parent stands before its children, a
    /// child after its parent, the children of a node in the order in which
    /// they were made, and every child names as its parent the node that
    /// lists it.
    pub open spec fn wf(self) -> bool {
        &&& self.nodes.len() <= usize::MAX
        &&& forall|id: usize| #[trigger]
            self.holds(id) ==> (self.nodes[id as int].parent matches Some(p) ==> p < id)
        &&& forall|id: usize, k: int|
            self.holds(id) && 0 <= k < self.children(id).len() ==> id < (
            #[trigger] self.children(id)[k]) < self.nodes.len()
        &&& forall|id: usize| self.holds(id) ==> is_increasing(#[trigger] self.children(id))
        &&& forall|id: usize, k: int|
            self.holds(id) && 0 <= k < self.children(id).len() ==> is_parent_of(
                self,
                id,
                #[trigger] self.children(id)[k],
            )
    }

    /// Whether `id` is listed among the children of no node.
    pub open spec fn is_unlisted(self, id: usize) -> bool {
        forall|other: usize, k: int|
            self.holds(other) && 0 <= k < self.children(other).len() ==> (
            #[trigger] self.children(other)[k]) != id
    }

    /// Whether `id` is `top` or lies below it: whether the parent links lead
    /// from `id` to `top`.
    pub open spec fn under(self, top: usize, id: usize) -> bool
        decreases id,
    {
        id == top || (self.holds(id) && (match self.nodes[id as int].parent {
            Some(p) => p < id && self.under(top, p),
            None => false,
        }))
    }

    /// The tree with the data of `id` replaced.
    pub open spec fn with_data(self, id: usize, data: DataModel) -> TreeModel {
        if self.holds(id) {
            TreeModel {
                nodes: self.nodes.update(
                    id as int,
                    NodeModel { parent: self.nodes[id as int].parent, data },
                ),
            }
        } else {
            self
        }
    }

    /// The tree with the parent link of `id` replaced.
    pub open spec fn with_parent(self, id: usize, parent: Option<usize>) -> TreeModel {
        if self.holds(id) {
            TreeModel {
                nodes: self.nodes.update(
                    id as int,
                    NodeModel { parent, data: self.nodes[id as int].data },
                ),
            }
        } else {
            self
        }
    }

    /// The tree with the children of the element `id` replaced.
    pub open spec fn with_children(self, id: usize, children: Seq<usize>) -> TreeModel {
        if self.is_element(id) {
            self.with_data(id, DataModel::Element(ElementModel { children, ..self.element(id) }))
        } else {
            self
        }
    }

    /// The tree with one more node, which has no parent.
    pub open spec fn with_detached(self, data: DataModel) -> TreeModel {
        TreeModel { nodes: self.nodes.push(NodeModel { parent: None, data }) }
    }

    /// The tree with `node` made the last child of the element `parent`.
    pub open spec fn attach(self, node: usize, parent: usize) -> TreeModel {
        self.with_parent(node, Some(parent)).with_children(
            parent,
            self.children(parent).push(node),
        )
    }

    /// The tree with a new node holding `data` as the last child of the
    /// element `parent`. The new node stands at position `self.len()`.
    pub open spec fn append(self, parent: usize, data: DataModel) -> TreeModel {
        self.with_detached(data).attach(self.nodes.len() as usize, parent)
    }

    /// The tree with the element `id` emptied of children.
    pub open spec fn clear_children(self, id: usize) -> TreeModel {
        self.with_children(id, Seq::empty())
    }

    /// Those of `ids` that still have a parent.
    pub open spec fn attached(self, ids: Seq<usize>) -> Seq<usize>
        decreases ids.len(),
    {
        if ids.len() == 0 {
            ids
        } else {
            let before = self.attached(ids.drop_last());
            if self.parent(ids.last()) is Some {
                before.push(ids.last())
            } else {
                before
            }
        }
    }

    /// The tree after the element `id` has dropped those of its children that
    /// have no parent any more.
    pub open spec fn cleanup_dependencies(self, id: usize) -> TreeModel {
        self.with_children(id, self.attached(self.children(id)))
    }

    /// The tree after `id` has been detached from its parent. A node without
    /// parent stays as it is.
    pub open spec fn remove(self, id: usize) -> TreeModel {
        match self.parent(id) {
            Some(p) => self.with_parent(id, None).cleanup_dependencies(p),
            None => self,
        }
    }

    /// The tree with the element `id` renamed.
    pub open spec fn set_name(self, id: usize, name: Seq<char>) -> TreeModel {
        if self.is_element(id) {
            self.with_data(id, DataModel::Element(ElementModel { name, ..self.element(id) }))
        } else {
            self
        }
    }

    /// The tree with the selector of the element `id` replaced.
    pub open spec fn set_regex(self, id: usize, regex: Option<Seq<char>>) -> TreeModel {
        if self.is_element(id) {
            self.with_data(
                id,
                DataModel::Element(ElementModel { applied_regexp: regex, ..self.element(id) }),
            )
        } else {
            self
        }
    }

    /// The tree with the attributes of the element `id` replaced.
    pub open spec fn with_attributes(
        self,
        id: usize,
        attributes: Seq<(Seq<char>, Seq<char>)>,
    ) -> TreeModel {
        if self.is_element(id) {
            self.with_data(id, DataModel::Element(ElementModel { attributes, ..self.element(id) }))
        } else {
            self
        }
    }

    /// The tree after the attribute `name` of the element `id` was given
    /// `value`, or was removed where `value` is `None`.
    pub open spec fn patch_attribute(
        self,
        id: usize,
        name: Seq<char>,
        value: Option<Seq<char>>,
    ) -> TreeModel {
        match value {
            Some(v) => self.with_attributes(
                id,
                with_attribute(self.element(id).attributes, name, v),
            ),
            None => self.with_attributes(id, without_attribute(self.element(id).attributes, name)),
        }
    }

    /// Those of `ids` that are elements called `name`.
    pub open spec fn named(self, ids: Seq<usize>, name: Seq<char>) -> Seq<usize>
        decreases ids.len(),
    {
        if ids.len() == 0 {
            ids
        } else {
            let before = self.named(ids.drop_last(), name);
            if self.name(ids.last()) == Some(name) {
                before.push(ids.last())
            } else {
                before
            }
        }
    }

    /// One step along a path from `current`: `..` climbs to the parent, `.`
    /// stays, and any other text descends into the one child of that name,
    /// which is made where it is missing and `auto_create` holds.
    pub open spec fn resolve_step(self, current: usize, segment: Seq<char>, auto_create: bool)
        -> Result<(TreeModel, usize), PatchError> {
        if segment == seq!['.', '.'] {
            match self.parent(current) {
                Some(p) => Ok((self, p)),
                None => Err(PatchError::PathAboveRoot),
            }
        } else if segment == seq!['.'] {
            Ok((self, current))
        } else {
            let candidates = self.named(self.children(current), segment);
            if candidates.len() == 1 {
                Ok((self, candidates[0]))
            } else if candidates.len() == 0 {
                if !auto_create {
                    Err(PatchError::PathNotFound)
                } else if !self.is_element(current) {
                    Err(PatchError::NotAnElement)
                } else {
                    Ok((self.append(current, empty_element(segment)), self.nodes.len() as usize))
                }
            } else {
                Err(PatchError::AmbiguousPath)
            }
        }
    }

    /// The node that `segments` lead to from `current`, and the tree with the
    /// elements that were made on the way. Where a step fails, the walk ends
    /// with that step's error and the tree as the step found it: the elements
    /// that the steps before it have made stay.
    pub open spec fn resolve_path(
        self,
        current: usize,
        segments: Seq<Seq<char>>,
        auto_create: bool,
    ) -> Result<(TreeModel, usize), (TreeModel, PatchError)>
        decreases segments.len(),
    {
        if segments.len() == 0 {
            Ok((self, current))
        } else {
            match self.resolve_step(current, segments[0], auto_create) {
                Ok((tree, next)) => tree.resolve_path(next, segments.skip(1), auto_create),
                Err(e) => Err((self, e)),
            }
        }
    }

    /// The tree that a walk along `segments` from `current` leaves behind,
    /// whether it arrives or fails.
    pub open spec fn walked(self, current: usize, segments: Seq<Seq<char>>, auto_create: bool)
        -> TreeModel {
        match self.resolve_path(current, segments, auto_create) {
            Ok((tree, _)) => tree,
            Err((tree, _)) => tree,
        }
    }

    /// The tree with a copy of the subtree at `source` hung below `target` as
    /// its last child. Only nodes before `bound` are copied.
    pub open spec fn copy_into(self, bound: nat, source: usize, target: usize) -> TreeModel
        decreases 2 * (bound - source) + 1, 0nat,
    {
        if source < bound && self.holds(source) {
            self.append(target, shallow(self.nodes[source as int].data)).copy_children(
                bound,
                source,
                self.children(source),
                self.nodes.len() as usize,
            )
        } else {
            self
        }
    }

    /// The tree with copies of the subtrees at `children`, which are children
    /// of `source`, hung below `target` in the same order.
    pub open spec fn copy_children(
        self,
        bound: nat,
        source: usize,
        children: Seq<usize>,
        target: usize,
    ) -> TreeModel
        decreases 2 * (bound - source), children.len(),
    {
        if children.len() == 0 {
            self
        } else if source < children[0] < bound {
            self.copy_into(bound, children[0], target).copy_children(
                bound,
                source,
                children.skip(1),
                target,
            )
        } else {
            self.copy_children(bound, source, children.skip(1), target)
        }
    }

    /// The tree with a copy of the subtree at `id` that hangs nowhere. The
    /// top of the copy stands at position `self.len()`.
    pub open spec fn deep_clone(self, id: usize) -> TreeModel {
        if self.holds(id) {
            self.with_detached(shallow(self.nodes[id as int].data)).copy_children(
                self.nodes.len(),
                id,
                self.children(id),
                self.nodes.len() as usize,
            )
        } else {
            self
        }
    }

    /// The document node that the subtree at `id` stands for.
    pub open spec fn node_value(self, id: usize) -> DocumentNodeModel
        decreases self.nodes.len() - id,
    {
        if !self.holds(id) {
            DocumentNodeModel::Text(Seq::empty())
        } else {
            match self.nodes[id as int].data {
                DataModel::Element(e) => DocumentNodeModel::Element(self.element_value(id)),
                DataModel::Comment(s) => DocumentNodeModel::Comment(s),
                DataModel::CData(s) => DocumentNodeModel::CData(s),
                DataModel::Text(s) => DocumentNodeModel::Text(s),
                DataModel::ProcessingInstruction(target, data) => {
                    DocumentNodeModel::ProcessingInstruction(target, data)
                },
            }
        }
    }

    /// The document element that the subtree at the element `id` stands for.
    pub open spec fn element_value(self, id: usize) -> DocumentElementModel
        decreases self.nodes.len() - id, 0nat,
    {
        let e = self.element(id);
        DocumentElementModel {
            prefix: e.prefix,
            name: e.name,
            attributes: e.attributes,
            children: if self.is_element(id) {
                Seq::new(
                    e.children.len(),
                    |k: int|
                        if 0 <= k < e.children.len() && id < e.children[k] < self.nodes.len() {
                            self.node_value(e.children[k])
                        } else {
                            DocumentNodeModel::Text(Seq::empty())
                        },
                )
            } else {
                Seq::empty()
            },
        }
    }
}

/// Whether the positions in `ids` grow from each to the next.
pub open spec fn is_increasing(ids: Seq<usize>) -> bool {
    forall|i: int, j: int| 0 <= i < j < ids.len() ==> ids[i] < ids[j]
}

/// Whether `child` names `parent` as its parent. The root of the document
/// names no parent, though the synthetic element at position 0 lists it.
pub open spec fn is_parent_of(tree: TreeModel, parent: usize, child: usize) -> bool {
    tree.parent(child) == Some(parent) || (parent == 0 && tree.parent(child) is None)
}

/// Whether each of `ids` names `parent` as its parent.
pub open spec fn are_linked(tree: TreeModel, parent: usize, ids: Seq<usize>) -> bool {
    forall|k: int| 0 <= k < ids.len() ==> is_parent_of(tree, parent, #[trigger] ids[k])
}

/// Whether every position in `ids` lies after `parent` and inside `tree`,
/// and the positions grow from each to the next.
pub open spec fn are_children(tree: TreeModel, parent: usize, ids: Seq<usize>) -> bool {
    &&& forall|k: int| 0 <= k < ids.len() ==> parent < #[trigger] ids[k] < tree.nodes.len()
    &&& is_increasing(ids)
}

impl TreeModel {
    /// In a well-formed tree the children of a node lie after it, in the
    /// order in which they were made, and name it as their parent.
    pub proof fn lemma_children_in_bounds(self, id: usize)
        requires
            self.wf(),
        ensures
            are_children(self, id, self.children(id)),
            are_linked(self, id, self.children(id)),
    {
        assert forall|k: int| 0 <= k < self.children(id).len() implies id < (
        #[trigger] self.children(id)[k]) < self.nodes.len() by {
            assert(self.holds(id));
        }
        assert forall|k: int| 0 <= k < self.children(id).len() implies is_parent_of(
            self,
            id,
            #[trigger] self.children(id)[k],
        ) by {
            assert(self.holds(id));
        }
        if self.holds(id) {
            assert(is_increasing(self.children(id)));
        }
    }

    /// A tree is well-formed where, at every node, it has the parent link and
    /// the children of a well-formed tree of no greater size, or children
    /// that are in order and linked to the node.
    pub proof fn lemma_wf_by_nodes(self, before: TreeModel)
        requires
            before.wf(),
            before.nodes.len() <= self.nodes.len() <= usize::MAX,
            forall|id: usize| #[trigger]
                self.holds(id) ==> (self.nodes[id as int].parent matches Some(p) ==> p < id),
            forall|id: usize| #[trigger]
                self.holds(id) ==> are_children(self, id, self.children(id)) && are_linked(
                    self,
                    id,
                    self.children(id),
                ),
        ensures
            self.wf(),
    {
        assert forall|id: usize, k: int|
            self.holds(id) && 0 <= k < self.children(id).len() implies id < (
        #[trigger] self.children(id)[k]) < self.nodes.len() by {
            assert(are_children(self, id, self.children(id)));
        }
        assert forall|id: usize, k: int|
            self.holds(id) && 0 <= k < self.children(id).len() implies is_parent_of(
            self,
            id,
            #[trigger] self.children(id)[k],
        ) by {
            assert(are_linked(self, id, self.children(id)));
        }
        assert forall|id: usize| self.holds(id) implies is_increasing(
            #[trigger] self.children(id),
        ) by {
            assert(are_children(self, id, self.children(id)));
        }
    }

    /// Replacing the data of a node keeps the tree well-formed when the new
    /// children, if any, lie after the node, grow, and name it as their
    /// parent.
    pub proof fn lemma_with_data_wf(self, id: usize, data: DataModel)
        requires
            self.wf(),
            data matches DataModel::Element(e) ==> are_children(self, id, e.children)
                && are_linked(self, id, e.children),
        ensures
            self.with_data(id, data).wf(),
            self.with_data(id, data).len() == self.len(),
    {
        let after = self.with_data(id, data);
        if self.holds(id) {
            assert forall|other: usize| #[trigger] after.holds(other) implies are_children(
                after,
                other,
                after.children(other),
            ) && are_linked(after, other, after.children(other)) by {
                self.lemma_children_in_bounds(other);
                let list = after.children(other);
                if other != id {
                    assert(list == self.children(other));
                }
                assert forall|k: int| 0 <= k < list.len() implies is_parent_of(
                    after,
                    other,
                    #[trigger] list[k],
                ) by {
                    assert(is_parent_of(self, other, list[k]));
                    assert(after.parent(list[k]) == self.parent(list[k]));
                }
            }
            assert forall|other: usize| #[trigger] after.holds(other) implies (
            after.nodes[other as int].parent matches Some(p) ==> p < other) by {
                assert(self.holds(other));
            }
            after.lemma_wf_by_nodes(self);
        }
    }

    /// Replacing the children of an element keeps the tree well-formed when
    /// the new children lie after the element, grow, and name it as their
    /// parent.
    pub proof fn lemma_with_children_wf(self, id: usize, children: Seq<usize>)
        requires
            self.wf(),
            are_children(self, id, children),
            are_linked(self, id, children),
        ensures
            self.with_children(id, children).wf(),
            self.with_children(id, children).len() == self.len(),
    {
        if self.is_element(id) {
            self.lemma_with_data_wf(
                id,
                DataModel::Element(ElementModel { children, ..self.element(id) }),
            );
        }
    }

    /// Changing an element without touching its children keeps the tree
    /// well-formed.
    pub proof fn lemma_same_children_wf(self, id: usize, element: ElementModel)
        requires
            self.wf(),
            self.is_element(id),
            element.children == self.element(id).children,
        ensures
            self.with_data(id, DataModel::Element(element)).wf(),
    {
        self.lemma_children_in_bounds(id);
        self.lemma_with_data_wf(id, DataModel::Element(element));
    }

    /// Adding a node that hangs nowhere keeps the tree well-formed. The new
    /// node is listed among the children of no node.
    pub proof fn lemma_with_detached_wf(self, data: DataModel)
        requires
            self.wf(),
            self.nodes.len() < usize::MAX,
            is_childless(data),
        ensures
            self.with_detached(data).wf(),
            self.with_detached(data).len() == self.len() + 1,
            self.with_detached(data).is_unlisted(self.nodes.len() as usize),
    {
        let after = self.with_detached(data);
        assert forall|other: usize| #[trigger] after.holds(other) implies are_children(
            after,
            other,
            after.children(other),
        ) && are_linked(after, other, after.children(other)) by {
            if other < self.nodes.len() {
                self.lemma_children_in_bounds(other);
                let list = after.children(other);
                assert(list == self.children(other));
                assert forall|k: int| 0 <= k < list.len() implies is_parent_of(
                    after,
                    other,
                    #[trigger] list[k],
                ) by {
                    assert(is_parent_of(self, other, list[k]));
                    assert(after.parent(list[k]) == self.parent(list[k]));
                }
            } else {
                assert(after.children(other) =~= Seq::empty());
            }
        }
        assert forall|other: usize| #[trigger] after.holds(other) implies (
        after.nodes[other as int].parent matches Some(p) ==> p < other) by {
            if other < self.nodes.len() {
                assert(self.holds(other));
            }
        }
        after.lemma_wf_by_nodes(self);
        assert forall|other: usize, k: int|
            after.holds(other) && 0 <= k < after.children(other).len() implies (
        #[trigger] after.children(other)[k]) != self.nodes.len() as usize by {
            assert(are_children(after, other, after.children(other)));
            if other < self.nodes.len() {
                assert(after.children(other) == self.children(other));
                self.lemma_children_in_bounds(other);
            }
        }
    }

    /// Hanging a node that is listed nowhere below an element that stands
    /// before it, after all the children that the element has, keeps the
    /// tree well-formed.
    pub proof fn lemma_attach_wf(self, node: usize, parent: usize)
        requires
            self.wf(),
            self.holds(node),
            parent < node,
            self.is_unlisted(node),
            forall|k: int|
                0 <= k < self.children(parent).len() ==> #[trigger] self.children(parent)[k] < node,
        ensures
            self.attach(node, parent).wf(),
            self.attach(node, parent).len() == self.len(),
    {
        let after = self.attach(node, parent);
        let linked = self.with_parent(node, Some(parent));
        assert forall|other: usize| linked.children(other) == self.children(other) by {}
        assert forall|other: usize| #[trigger] after.holds(other) implies are_children(
            after,
            other,
            after.children(other),
        ) && are_linked(after, other, after.children(other)) by {
            self.lemma_children_in_bounds(other);
            let list = after.children(other);
            let old_list = self.children(other);
            if other == parent && self.is_element(parent) {
                assert(list == old_list.push(node));
                assert forall|k: int| 0 <= k < list.len() implies other < #[trigger] list[k]
                    < after.nodes.len() by {
                    if k < old_list.len() {
                        assert(list[k] == old_list[k]);
                    }
                }
                assert forall|i: int, j: int| 0 <= i < j < list.len() implies list[i]
                    < list[j] by {
                    assert(list[i] == old_list[i]);
                    if j < old_list.len() {
                        assert(list[j] == old_list[j]);
                    }
                }
                assert forall|k: int| 0 <= k < list.len() implies is_parent_of(
                    after,
                    other,
                    #[trigger] list[k],
                ) by {
                    if k < old_list.len() {
                        assert(list[k] == old_list[k]);
                        assert(is_parent_of(self, other, old_list[k]));
                        assert(old_list[k] != node);
                        assert(after.parent(old_list[k]) == self.parent(old_list[k]));
                    }
                }
            } else {
                assert(list == old_list);
                assert forall|k: int| 0 <= k < list.len() implies is_parent_of(
                    after,
                    other,
                    #[trigger] list[k],
                ) by {
                    assert(is_parent_of(self, other, old_list[k]));
                    assert(old_list[k] != node);
                    assert(after.parent(old_list[k]) == self.parent(old_list[k]));
                }
            }
        }
        assert forall|other: usize| #[trigger] after.holds(other) implies (
        after.nodes[other as int].parent matches Some(p) ==> p < other) by {
            assert(self.holds(other));
        }
        after.lemma_wf_by_nodes(self);
    }

    /// Adding a child to an element keeps the tree well-formed.
    pub proof fn lemma_append_wf(self, parent: usize, data: DataModel)
        requires
            self.wf(),
            self.holds(parent),
            self.nodes.len() < usize::MAX,
            is_childless(data),
        ensures
            self.append(parent, data).wf(),
            self.append(parent, data).len() == self.len() + 1,
    {
        self.lemma_with_detached_wf(data);
        let grown = self.with_detached(data);
        assert forall|k: int| 0 <= k < grown.children(parent).len() implies (
        #[trigger] grown.children(parent)[k]) < self.nodes.len() by {
            assert(grown.children(parent) == self.children(parent));
            assert(self.holds(parent));
            assert(parent < self.children(parent)[k] < self.nodes.len());
        }
        grown.lemma_attach_wf(self.nodes.len() as usize, parent);
    }

    /// What is kept of a list of positions that grow is a list of positions
    /// that grow, all from the list and all with a parent; it ends no later
    /// than the list, and keeps whatever in the list has a parent.
    pub proof fn lemma_attached_subset(self, parent: usize, ids: Seq<usize>)
        requires
            are_children(self, parent, ids),
        ensures
            are_children(self, parent, self.attached(ids)),
            self.attached(ids).len() > 0 ==> ids.len() > 0 && self.attached(ids).last()
                <= ids.last(),
            forall|k: int|
                0 <= k < self.attached(ids).len() ==> ids.contains(
                    #[trigger] self.attached(ids)[k],
                ) && self.parent(self.attached(ids)[k]) is Some,
            forall|k: int|
                0 <= k < ids.len() && self.parent(ids[k]) is Some ==> self.attached(ids).contains(
                    #[trigger] ids[k],
                ),
        decreases ids.len(),
    {
        if ids.len() > 0 {
            let init = ids.drop_last();
            assert(are_children(self, parent, init)) by {
                assert forall|k: int| 0 <= k < init.len() implies parent < (#[trigger] init[k])
                    < self.nodes.len() by {
                    assert(init[k] == ids[k]);
                }
                assert forall|i: int, j: int| 0 <= i < j < init.len() implies init[i]
                    < init[j] by {
                    assert(init[i] == ids[i] && init[j] == ids[j]);
                }
            }
            self.lemma_attached_subset(parent, init);
            let before = self.attached(init);
            let kept = self.attached(ids);
            assert(parent < ids[ids.len() - 1] < self.nodes.len());
            if init.len() > 0 {
                assert(init.last() == ids[ids.len() - 2]);
                assert(ids[ids.len() - 2] < ids[ids.len() - 1]);
            }
            assert forall|k: int| 0 <= k < kept.len() implies parent < (#[trigger] kept[k])
                < self.nodes.len() by {
                if k < before.len() {
                    assert(kept[k] == before[k]);
                }
            }
            assert forall|i: int, j: int| 0 <= i < j < kept.len() implies kept[i] < kept[j] by {
                assert(kept[i] == before[i]);
                if j < before.len() {
                    assert(kept[j] == before[j]);
                } else {
                    assert(kept[j] == ids.last());
                    assert(before[i] <= before[before.len() - 1]) by {
                        if i < before.len() - 1 {
                            assert(before[i] < before[before.len() - 1]);
                        }
                    }
                }
            }
            assert forall|k: int| 0 <= k < kept.len() implies ids.contains(#[trigger] kept[k])
                && self.parent(kept[k]) is Some by {
                if k < before.len() {
                    assert(kept[k] == before[k]);
                    let w = choose|w: int| 0 <= w < init.len() && init[w] == before[k];
                    assert(ids[w] == before[k]);
                } else {
                    assert(kept[k] == ids[ids.len() - 1]);
                }
            }
            assert forall|k: int| 0 <= k < ids.len() && self.parent(ids[k]) is Some implies kept.contains(
                #[trigger] ids[k],
            ) by {
                if k < init.len() {
                    assert(init[k] == ids[k]);
                    let w = choose|w: int| 0 <= w < before.len() && before[w] == init[k];
                    assert(kept[w] == before[w]);
                } else {
                    assert(kept[kept.len() - 1] == ids[k]);
                }
            }
        }
    }

    /// Dropping detached children keeps the tree well-formed.
    pub proof fn lemma_cleanup_wf(self, id: usize)
        requires
            self.wf(),
        ensures
            self.cleanup_dependencies(id).wf(),
            self.cleanup_dependencies(id).len() == self.len(),
    {
        self.lemma_children_in_bounds(id);
        self.lemma_attached_subset(id, self.children(id));
        let kept = self.attached(self.children(id));
        assert forall|k: int| 0 <= k < kept.len() implies is_parent_of(
            self,
            id,
            #[trigger] kept[k],
        ) by {
            let w = choose|w: int|
                0 <= w < self.children(id).len() && self.children(id)[w] == kept[k];
            assert(is_parent_of(self, id, self.children(id)[w]));
        }
        self.lemma_with_children_wf(id, kept);
    }

    /// Detaching a node keeps the tree well-formed.
    pub proof fn lemma_remove_wf(self, id: usize)
        requires
            self.wf(),
        ensures
            self.remove(id).wf(),
            self.remove(id).len() == self.len(),
    {
        match self.parent(id) {
            None => {},
            Some(p) => {
                let detached = self.with_parent(id, None);
                let after = self.remove(id);
                assert(self.holds(id));
                assert(p < id);
                assert forall|other: usize| detached.children(other) == self.children(other) by {}
                self.lemma_children_in_bounds(p);
                assert(are_children(detached, p, detached.children(p)));
                detached.lemma_attached_subset(p, detached.children(p));
                let kept = detached.attached(detached.children(p));
                assert forall|other: usize| #[trigger] after.holds(other) implies are_children(
                    after,
                    other,
                    after.children(other),
                ) && are_linked(after, other, after.children(other)) by {
                    self.lemma_children_in_bounds(other);
                    let list = after.children(other);
                    if other == p && self.is_element(p) {
                        assert(list == kept);
                        assert forall|k: int| 0 <= k < list.len() implies is_parent_of(
                            after,
                            other,
                            #[trigger] list[k],
                        ) by {
                            let w = choose|w: int|
                                0 <= w < self.children(p).len() && self.children(p)[w] == kept[k];
                            assert(is_parent_of(self, p, self.children(p)[w]));
                            assert(detached.parent(kept[k]) is Some);
                            assert(kept[k] != id);
                            assert(after.parent(kept[k]) == self.parent(kept[k]));
                        }
                    } else {
                        assert(list == self.children(other));
                        assert forall|k: int| 0 <= k < list.len() implies is_parent_of(
                            after,
                            other,
                            #[trigger] list[k],
                        ) by {
                            assert(is_parent_of(self, other, list[k]));
                            if list[k] == id {
                                assert(other == p);
                                assert(!self.is_element(p));
                                assert(self.children(p).len() == 0);
                            }
                            assert(after.parent(list[k]) == self.parent(list[k]));
                        }
                    }
                }
                assert forall|other: usize| #[trigger] after.holds(other) implies (
                after.nodes[other as int].parent matches Some(q) ==> q < other) by {
                    assert(self.holds(other));
                }
                after.lemma_wf_by_nodes(self);
            },
        }
    }

    /// Emptying an element keeps the tree well-formed.
    pub proof fn lemma_clear_children_wf(self, id: usize)
        requires
            self.wf(),
        ensures
            self.clear_children(id).wf(),
            self.clear_children(id).len() == self.len(),
    {
        self.lemma_with_children_wf(id, Seq::empty());
    }

    /// Renaming an element keeps the tree well-formed.
    pub proof fn lemma_set_name_wf(self, id: usize, name: Seq<char>)
        requires
            self.wf(),
        ensures
            self.set_name(id, name).wf(),
            self.set_name(id, name).len() == self.len(),
    {
        if self.is_element(id) {
            self.lemma_same_children_wf(id, ElementModel { name, ..self.element(id) });
        }
    }

    /// Noting a selector keeps the tree well-formed.
    pub proof fn lemma_set_regex_wf(self, id: usize, regex: Option<Seq<char>>)
        requires
            self.wf(),
        ensures
            self.set_regex(id, regex).wf(),
            self.set_regex(id, regex).len() == self.len(),
    {
        if self.is_element(id) {
            self.lemma_same_children_wf(id, ElementModel { applied_regexp: regex, ..self.element(id) });
        }
    }

    /// Replacing the attributes of an element keeps the tree well-formed.
    pub proof fn lemma_with_attributes_wf(self, id: usize, attributes: Seq<(Seq<char>, Seq<char>)>)
        requires
            self.wf(),
        ensures
            self.with_attributes(id, attributes).wf(),
            self.with_attributes(id, attributes).len() == self.len(),
    {
        if self.is_element(id) {
            self.lemma_same_children_wf(id, ElementModel { attributes, ..self.element(id) });
        }
    }

    /// The children of a given name are children, and end no later than the
    /// list that they are taken from.
    pub proof fn lemma_named_subset(self, parent: usize, ids: Seq<usize>, name: Seq<char>)
        requires
            are_children(self, parent, ids),
        ensures
            are_children(self, parent, self.named(ids, name)),
            self.named(ids, name).len() > 0 ==> ids.len() > 0 && self.named(ids, name).last()
                <= ids.last(),
            forall|k: int|
                0 <= k < self.named(ids, name).len() ==> ids.contains(
                    #[trigger] self.named(ids, name)[k],
                ),
        decreases ids.len(),
    {
        if ids.len() > 0 {
            let init = ids.drop_last();
            assert(are_children(self, parent, init)) by {
                assert forall|k: int| 0 <= k < init.len() implies parent < (#[trigger] init[k])
                    < self.nodes.len() by {
                    assert(init[k] == ids[k]);
                }
                assert forall|i: int, j: int| 0 <= i < j < init.len() implies init[i]
                    < init[j] by {
                    assert(init[i] == ids[i] && init[j] == ids[j]);
                }
            }
            self.lemma_named_subset(parent, init, name);
            let before = self.named(init, name);
            let kept = self.named(ids, name);
            assert forall|k: int| 0 <= k < kept.len() implies ids.contains(#[trigger] kept[k]) by {
                if k < before.len() {
                    assert(kept[k] == before[k]);
                    let w = choose|w: int| 0 <= w < init.len() && init[w] == before[k];
                    assert(ids[w] == before[k]);
                } else {
                    assert(kept[k] == ids[ids.len() - 1]);
                }
            }
            assert(parent < ids[ids.len() - 1] < self.nodes.len());
            if init.len() > 0 {
                assert(init.last() == ids[ids.len() - 2]);
                assert(ids[ids.len() - 2] < ids[ids.len() - 1]);
            }
            assert forall|k: int| 0 <= k < kept.len() implies parent < (#[trigger] kept[k])
                < self.nodes.len() by {
                if k < before.len() {
                    assert(kept[k] == before[k]);
                }
            }
            assert forall|i: int, j: int| 0 <= i < j < kept.len() implies kept[i] < kept[j] by {
                assert(kept[i] == before[i]);
                if j < before.len() {
                    assert(kept[j] == before[j]);
                } else {
                    assert(kept[j] == ids.last());
                    assert(before[i] <= before[before.len() - 1]) by {
                        if i < before.len() - 1 {
                            assert(before[i] < before[before.len() - 1]);
                        }
                    }
                }
            }
        }
    }

    /// A walk that makes no elements leaves the tree as it is, whether it
    /// arrives or fails.
    pub proof fn lemma_walk_without_making(self, current: usize, segments: Seq<Seq<char>>)
        ensures
            self.walked(current, segments, false) == self,
        decreases segments.len(),
    {
        if segments.len() > 0 {
            match self.resolve_step(current, segments[0], false) {
                Ok((tree, next)) => {
                    assert(tree == self);
                    self.lemma_walk_without_making(next, segments.skip(1));
                },
                Err(_) => {},
            }
        }
    }

    /// A walk that begins with `..` at a node without a parent fails there and
    /// leaves the tree as it is, whether or not it may make elements.
    pub proof fn lemma_walk_above_root(
        self,
        current: usize,
        segments: Seq<Seq<char>>,
        auto_create: bool,
    )
        requires
            segments.len() > 0,
            segments[0] == seq!['.', '.'],
            self.parent(current) is None,
        ensures
            self.resolve_path(current, segments, auto_create) == Err::<
                (TreeModel, usize),
                (TreeModel, PatchError),
            >((self, PatchError::PathAboveRoot)),
    {
    }

    /// A step along a path ends at a node of a well-formed tree that is no
    /// smaller than before.
    pub proof fn lemma_resolve_step_wf(self, current: usize, segment: Seq<char>, auto_create: bool)
        requires
            self.wf(),
            self.holds(current),
            self.nodes.len() < usize::MAX || !auto_create,
        ensures
            self.resolve_step(current, segment, auto_create) matches Ok((tree, next)) ==> tree.wf()
                && tree.holds(next) && self.len() <= tree.len() <= self.len() + 1 && (!auto_create
                ==> tree == self),
    {
        if segment != seq!['.', '.'] && segment != seq!['.'] {
            self.lemma_children_in_bounds(current);
            self.lemma_named_subset(current, self.children(current), segment);
            let candidates = self.named(self.children(current), segment);
            if candidates.len() == 1 {
                assert(current < candidates[0] < self.nodes.len());
            } else if candidates.len() == 0 && auto_create && self.is_element(current) {
                self.lemma_append_wf(current, empty_element(segment));
            }
        } else if segment == seq!['.', '.'] {
            assert(self.holds(current));
        }
    }
}

impl TreeModel {
    /// What is kept of a list of positions that all lie before `limit` lies
    /// before `limit`.
    pub proof fn lemma_attached_below(self, ids: Seq<usize>, limit: usize)
        requires
            forall|k: int| 0 <= k < ids.len() ==> #[trigger] ids[k] < limit,
        ensures
            forall|k: int|
                0 <= k < self.attached(ids).len() ==> #[trigger] self.attached(ids)[k] < limit,
        decreases ids.len(),
    {
        if ids.len() > 0 {
            let init = ids.drop_last();
            assert forall|k: int| 0 <= k < init.len() implies #[trigger] init[k] < limit by {
                assert(init[k] == ids[k]);
            }
            self.lemma_attached_below(init, limit);
            let before = self.attached(init);
            assert(ids[ids.len() - 1] < limit);
            assert forall|k: int| 0 <= k < self.attached(ids).len() implies (
            #[trigger] self.attached(ids)[k]) < limit by {
                if k < before.len() {
                    assert(self.attached(ids)[k] == before[k]);
                }
            }
        }
    }

    /// Detaching a node makes no node a child that was none.
    pub proof fn lemma_remove_keeps_unlisted(self, id: usize, other: usize)
        requires
            self.wf(),
            self.is_unlisted(other),
        ensures
            self.remove(id).is_unlisted(other),
    {
        match self.parent(id) {
            None => {},
            Some(p) => {
                let detached = self.with_parent(id, None);
                let after = self.remove(id);
                assert forall|x: usize| detached.children(x) == self.children(x) by {}
                self.lemma_children_in_bounds(p);
                assert(are_children(detached, p, detached.children(p)));
                detached.lemma_attached_subset(p, detached.children(p));
                let kept = detached.attached(detached.children(p));
                assert forall|x: usize, k: int|
                    after.holds(x) && 0 <= k < after.children(x).len() implies (
                #[trigger] after.children(x)[k]) != other by {
                    if x == p && self.is_element(p) {
                        assert(after.children(x) == kept);
                        let w = choose|w: int|
                            0 <= w < self.children(p).len() && self.children(p)[w] == kept[k];
                        assert(self.children(p)[w] != other);
                    } else {
                        assert(after.children(x) == self.children(x));
                        assert(self.children(x)[k] != other);
                    }
                }
            },
        }
    }

    /// Detaching a node leaves the children of any element before `limit`
    /// where they were.
    pub proof fn lemma_remove_keeps_below(self, id: usize, element: usize, limit: usize)
        requires
            forall|k: int|
                0 <= k < self.children(element).len() ==> #[trigger] self.children(element)[k]
                    < limit,
        ensures
            forall|k: int|
                0 <= k < self.remove(id).children(element).len() ==> #[trigger] self.remove(
                    id,
                ).children(element)[k] < limit,
    {
        match self.parent(id) {
            Some(p) => {
                let detached = self.with_parent(id, None);
                assert(detached.children(element) == self.children(element));
                if p == element {
                    detached.lemma_attached_below(detached.children(element), limit);
                } else {
                    assert(self.remove(id).children(element) == self.children(element));
                }
            },
            None => {},
        }
    }

    /// Adding a child leaves every node that was there before where it was,
    /// with the parent it had.
    pub proof fn lemma_append_keeps_parents(self, parent: usize, data: DataModel)
        requires
            self.nodes.len() < usize::MAX,
        ensures
            forall|id: usize|
                self.holds(id) ==> #[trigger] self.append(parent, data).parent(id) == self.parent(
                    id,
                ),
            self.append(parent, data).parent(self.nodes.len() as usize) == Some(parent),
    {
    }
}

/// The name of the synthetic element above the root.
pub open spec fn internal_root_name() -> Seq<char> {
    seq!['i', 'n', 't', 'e', 'r', 'n', 'a', 'l', '_', 'r', 'o', 'o', 't']
}

/// The synthetic element above the root, as it is before a patch is applied:
/// its only child is the root.
pub open spec fn internal_root(root: usize) -> DataModel {
    DataModel::Element(
        ElementModel {
            prefix: None,
            name: internal_root_name(),
            attributes: Seq::empty(),
            applied_regexp: None,
            children: seq![root],
        },
    )
}

/// The data of a tree element that stands for a document element, before its
/// children are added.
pub open spec fn element_shell(element: DocumentElementModel) -> DataModel {
    DataModel::Element(
        ElementModel {
            prefix: element.prefix,
            name: element.name,
            attributes: element.attributes,
            applied_regexp: None,
            children: Seq::empty(),
        },
    )
}

/// The tree with the subtree that stands for `node` added as the last child
/// of `parent`.
pub open spec fn build_node(tree: TreeModel, parent: usize, node: DocumentNodeModel) -> TreeModel
    decreases node, 0nat,
{
    match node {
        DocumentNodeModel::Element(e) => build_children(
            tree.append(parent, element_shell(e)),
            tree.nodes.len() as usize,
            e.children,
            0,
        ),
        DocumentNodeModel::Comment(s) => tree.append(parent, DataModel::Comment(s)),
        DocumentNodeModel::CData(s) => tree.append(parent, DataModel::CData(s)),
        DocumentNodeModel::Text(s) => tree.append(parent, DataModel::Text(s)),
        DocumentNodeModel::ProcessingInstruction(target, data) => tree.append(
            parent,
            DataModel::ProcessingInstruction(target, data),
        ),
    }
}

/// The tree with the subtrees that stand for `children[from..]` added below
/// `parent`, in order.
pub open spec fn build_children(
    tree: TreeModel,
    parent: usize,
    children: Seq<DocumentNodeModel>,
    from: int,
) -> TreeModel
    decreases children, children.len() - from,
{
    if from < 0 || from >= children.len() {
        tree
    } else {
        build_children(build_node(tree, parent, children[from]), parent, children, from + 1)
    }
}

/// The tree that stands for a document: the synthetic element at position 0,
/// the root at position 1, and everything below the root after it.
pub open spec fn tree_of_document(root: DocumentElementModel) -> TreeModel {
    build_children(
        TreeModel {
            nodes: seq![
                NodeModel { parent: None, data: internal_root(1) },
                NodeModel { parent: None, data: element_shell(root) },
            ],
        },
        1,
        root.children,
        0,
    )
}

} // verus!
