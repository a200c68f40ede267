//! The tree that patches are applied to. Nodes live in one vector and name
//! each other by position, so that a node can be asked for its parent as well
//! as for its children.

use crate::error::PatchError;
use crate::patch_structure::reference_expression::ReferenceExpression;
use crate::patch_structure::regex::Regex;
use crate::xml_structure::document::attribute_texts;
use crate::xml_structure::document::DocumentElement;
use crate::xml_structure::document::DocumentNode;
use crate::xml_structure::document::optional_text;
use crate::xml_structure::model::shallow;
use crate::xml_structure::model::DataModel;
use crate::xml_structure::model::ElementModel;
use crate::xml_structure::model::NodeModel;
use crate::xml_structure::model::TreeModel;
use vstd::prelude::*;

verus! {

/// An element of the tree.
#[derive(Debug)]
pub struct Element {
    /// The namespace prefix, if any.
    pub prefix: Option<String>,
    /// The name, without prefix.
    pub name: String,
    /// Attribute names and values in insertion order.
    pub attributes: Vec<(String, String)>,
    /// The selector that is matching this element while the processor is
    /// below it.
    pub applied_regexp: Option<Regex>,
    /// The positions of the children in the tree's vector.
    pub children: Vec<usize>,
}

/// What a node holds.
#[derive(Debug)]
pub enum XmlNodeData {
    Element(Element),
    Comment(String),
    CData(String),
    Text(String),
    ProcessingInstruction(String, Option<String>),
}

/// A node of the tree.
#[derive(Debug)]
pub struct XmlNode {
    /// The position of the parent; `None` for a node that hangs nowhere.
    pub parent: Option<usize>,
    pub data: XmlNodeData,
}

/// Whether a node is taken away from where it was when it goes elsewhere.
#[derive(Debug, Clone, Copy, PartialEq, Eq, Structural)]
pub enum MoveCopyAction {
    Move,
    Copy,
}

/// The tree. Position 0 holds a synthetic element that stands above the
/// document's root, so that the root can be selected like any other element.
#[derive(Debug)]
pub struct XmlTree {
    pub nodes: Vec<XmlNode>,
    /// The position of the document's root element.
    pub root: usize,
}

/// The children of a node as they were when the walk began.
#[derive(Debug)]
pub struct XmlNodeIntoIterator {
    pub nodes: Vec<usize>,
    pub index: usize,
}

/// The view of an optional selector.
pub open spec fn optional_regex(regex: Option<Regex>) -> Option<Seq<char>> {
    match regex {
        Some(r) => Some(r@),
        None => None,
    }
}

impl View for Element {
    type V = ElementModel;

    open spec fn view(&self) -> ElementModel {
        ElementModel {
            prefix: optional_text(self.prefix),
            name: self.name@,
            attributes: attribute_texts(self.attributes@),
            applied_regexp: optional_regex(self.applied_regexp),
            children: self.children@,
        }
    }
}

impl View for XmlNodeData {
    type V = DataModel;

    open spec fn view(&self) -> DataModel {
        match self {
            XmlNodeData::Element(e) => DataModel::Element(e@),
            XmlNodeData::Comment(s) => DataModel::Comment(s@),
            XmlNodeData::CData(s) => DataModel::CData(s@),
            XmlNodeData::Text(s) => DataModel::Text(s@),
            XmlNodeData::ProcessingInstruction(target, data) => DataModel::ProcessingInstruction(
                target@,
                optional_text(*data),
            ),
        }
    }
}

impl View for XmlNode {
    type V = NodeModel;

    open spec fn view(&self) -> NodeModel {
        NodeModel { parent: self.parent, data: self.data@ }
    }
}

impl View for XmlTree {
    type V = TreeModel;

    open spec fn view(&self) -> TreeModel {
        TreeModel { nodes: Seq::new(self.nodes@.len(), |i: int| self.nodes@[i]@) }
    }
}

/// A copy of an optional string.
pub fn clone_optional_text(text: &Option<String>) -> (r: Option<String>)
    ensures
        optional_text(r) == optional_text(*text),
{
    match text {
        Some(s) => Some(s.clone()),
        None => None,
    }
}

/// A copy of a list of positions.
pub fn clone_positions(ids: &Vec<usize>) -> (r: Vec<usize>)
    ensures
        r@ == ids@,
{
    let mut r: Vec<usize> = Vec::new();
    let mut i: usize = 0;
    while i < ids.len()
        invariant
            i <= ids.len(),
            r@ =~= ids@.take(i as int),
        decreases ids.len() - i,
    {
        r.push(ids[i]);
        i += 1;
    }
    assert(ids@.take(ids@.len() as int) =~= ids@);
    r
}

/// A copy of a list of attributes.
pub fn clone_attributes(attributes: &Vec<(String, String)>) -> (r: Vec<(String, String)>)
    ensures
        r@ == attributes@,
{
    let mut r: Vec<(String, String)> = Vec::new();
    let mut i: usize = 0;
    while i < attributes.len()
        invariant
            i <= attributes.len(),
            r@ =~= attributes@.take(i as int),
        decreases attributes.len() - i,
    {
        let name = attributes[i].0.clone();
        let value = attributes[i].1.clone();
        r.push((name, value));
        i += 1;
    }
    assert(attributes@.take(attributes@.len() as int) =~= attributes@);
    r
}

impl Element {
    /// A new element with the given name and nothing else.
    pub fn new(name: String) -> (r: Element)
        ensures
            DataModel::Element(r@) == crate::xml_structure::model::empty_element(name@),
    {
        let r = Element {
            prefix: None,
            name,
            attributes: Vec::new(),
            applied_regexp: None,
            children: Vec::new(),
        };
        assert(r@.attributes =~= Seq::empty());
        assert(r@.children =~= Seq::empty());
        r
    }

    /// A copy of the element without its children and without its selector.
    pub fn deep_clone(&self) -> (r: Element)
        ensures
            DataModel::Element(r@) == shallow(DataModel::Element(self@)),
    {
        let r = Element {
            prefix: clone_optional_text(&self.prefix),
            name: self.name.clone(),
            attributes: clone_attributes(&self.attributes),
            applied_regexp: None,
            children: Vec::new(),
        };
        assert(r@.children =~= Seq::empty());
        r
    }
}

impl XmlNodeData {
    /// A copy of the data; of an element, without its children and without
    /// its selector.
    pub fn shallow_clone(&self) -> (r: XmlNodeData)
        ensures
            r@ == shallow(self@),
    {
        match self {
            XmlNodeData::Element(e) => XmlNodeData::Element(e.deep_clone()),
            XmlNodeData::Comment(s) => XmlNodeData::Comment(s.clone()),
            XmlNodeData::CData(s) => XmlNodeData::CData(s.clone()),
            XmlNodeData::Text(s) => XmlNodeData::Text(s.clone()),
            XmlNodeData::ProcessingInstruction(target, data) => XmlNodeData::ProcessingInstruction(
                target.clone(),
                clone_optional_text(data),
            ),
        }
    }
}

impl XmlNodeIntoIterator {
    /// The next child of the walk, or `None` when all have been handed out.
    pub fn next(&mut self) -> (r: Option<usize>)
        requires
            old(self).index <= old(self).nodes.len(),
        ensures
            final(self).nodes == old(self).nodes,
            final(self).index <= final(self).nodes.len(),
            old(self).index < old(self).nodes.len() ==> r == Some(
                old(self).nodes[old(self).index as int],
            ) && final(self).index == old(self).index + 1,
            old(self).index == old(self).nodes.len() ==> r is None && final(self).index == old(
                self,
            ).index,
    {
        if self.index < self.nodes.len() {
            let id = self.nodes[self.index];
            self.index += 1;
            Some(id)
        } else {
            None
        }
    }
}

impl XmlNode {
    /// The children of this node as they are now, to be walked in order. A
    /// node that is no element has none.
    pub fn children(&self) -> (r: XmlNodeIntoIterator)
        ensures
            r.index == 0,
            r.nodes@ == (match self@.data {
                DataModel::Element(e) => e.children,
                _ => Seq::empty(),
            }),
    {
        match &self.data {
            XmlNodeData::Element(e) => XmlNodeIntoIterator {
                nodes: clone_positions(&e.children),
                index: 0,
            },
            _ => XmlNodeIntoIterator { nodes: Vec::new(), index: 0 },
        }
    }

    /// Empties the list of children. Returns whether the node is an element;
    /// any other node is left as it is.
    pub fn clear_children(&mut self) -> (r: bool)
        ensures
            r == (old(self)@.data is Element),
            final(self)@.parent == old(self)@.parent,
            final(self)@.data == (match old(self)@.data {
                DataModel::Element(e) => DataModel::Element(
                    ElementModel { children: Seq::empty(), ..e },
                ),
                other => other,
            }),
    {
        match &mut self.data {
            XmlNodeData::Element(e) => {
                e.children.clear();
                true
            },
            _ => false,
        }
    }

    /// The name of the element; `None` for any other node.
    pub fn name(&self) -> (r: Option<String>)
        ensures
            optional_text(r) == (match self@.data {
                DataModel::Element(e) => Some(e.name),
                _ => None,
            }),
    {
        match &self.data {
            XmlNodeData::Element(e) => Some(e.name.clone()),
            _ => None,
        }
    }

    /// Renames the element. Returns whether the node is an element; any other
    /// node is left as it is.
    pub fn set_name(&mut self, new_name: &String) -> (r: bool)
        ensures
            r == (old(self)@.data is Element),
            final(self)@.parent == old(self)@.parent,
            final(self)@.data == (match old(self)@.data {
                DataModel::Element(e) => DataModel::Element(
                    ElementModel { name: new_name@, ..e },
                ),
                other => other,
            }),
    {
        match &mut self.data {
            XmlNodeData::Element(e) => {
                e.name = new_name.clone();
                true
            },
            _ => false,
        }
    }

    /// Notes the selector that is matching the element, or takes the note
    /// away. Any other node is left as it is.
    pub fn set_regex(&mut self, regex: Option<Regex>)
        ensures
            final(self)@.parent == old(self)@.parent,
            final(self)@.data == (match old(self)@.data {
                DataModel::Element(e) => DataModel::Element(
                    ElementModel { applied_regexp: optional_regex(regex), ..e },
                ),
                other => other,
            }),
    {
        match &mut self.data {
            XmlNodeData::Element(e) => {
                e.applied_regexp = regex;
            },
            _ => {},
        }
    }

    /// The selector that is matching the element, if any.
    pub fn get_regex(&self) -> (r: Option<Regex>)
        ensures
            optional_regex(r) == (match self@.data {
                DataModel::Element(e) => e.applied_regexp,
                _ => None,
            }),
    {
        match &self.data {
            XmlNodeData::Element(e) => match &e.applied_regexp {
                Some(regex) => Some(regex.clone()),
                None => None,
            },
            _ => None,
        }
    }
}

/// The views of a list of strings.
pub open spec fn texts(strings: Seq<String>) -> Seq<Seq<char>> {
    Seq::new(strings.len(), |i: int| strings[i]@)
}

impl XmlTree {
    /// The tree's links are in order, and the root is a node other than the
    /// synthetic element at position 0 and names no parent.
    pub open spec fn wf(&self) -> bool {
        &&& self@.wf()
        &&& 0 < self.root < self.nodes.len()
        &&& self@.parent(self.root) is None
    }

    /// Adds a node that hangs nowhere and returns its position.
    pub fn push_detached(&mut self, data: XmlNodeData) -> (id: usize)
        requires
            old(self).wf(),
            crate::xml_structure::model::is_childless(data@),
        ensures
            final(self).wf(),
            final(self).root == old(self).root,
            final(self)@ == old(self)@.with_detached(data@),
            id == old(self).nodes.len(),
            final(self)@.is_unlisted(id),
    {
        let id = self.nodes.len();
        self.nodes.push(XmlNode { parent: None, data });
        proof {
            assert(self.nodes.len() == old(self).nodes.len() + 1);
            assert(self@.nodes =~= old(self)@.with_detached(data@).nodes);
            old(self)@.lemma_with_detached_wf(data@);
        }
        id
    }

    /// Makes `node`, which is no child of any node, the last child of
    /// `parent`, which stands before `node` as do all the children that
    /// `parent` has. Where `parent` is no element, only the parent link of
    /// `node` changes.
    pub fn attach(&mut self, node: usize, parent: usize)
        requires
            old(self).wf(),
            node < old(self).nodes.len(),
            parent < node,
            node != old(self).root,
            old(self)@.is_unlisted(node),
            forall|k: int|
                0 <= k < old(self)@.children(parent).len() ==> #[trigger] old(self)@.children(
                    parent,
                )[k] < node,
        ensures
            final(self).wf(),
            final(self).root == old(self).root,
            final(self)@ == old(self)@.attach(node, parent),
            final(self).nodes.len() == old(self).nodes.len(),
    {
        self.nodes[node].parent = Some(parent);
        match &mut self.nodes[parent].data {
            XmlNodeData::Element(e) => {
                e.children.push(node);
            },
            _ => {},
        }
        proof {
            assert(self@.nodes =~= old(self)@.attach(node, parent).nodes);
            old(self)@.lemma_attach_wf(node, parent);
        }
    }

    /// Adds a node holding `data` as the last child of `parent` and returns
    /// its position. Where `parent` is no element, the new node hangs nowhere
    /// in the document.
    pub fn append_node(&mut self, parent: usize, data: XmlNodeData) -> (id: usize)
        requires
            old(self).wf(),
            parent < old(self).nodes.len(),
            crate::xml_structure::model::is_childless(data@),
        ensures
            final(self).wf(),
            final(self).root == old(self).root,
            final(self)@ == old(self)@.append(parent, data@),
            id == old(self).nodes.len(),
            final(self).nodes.len() == old(self).nodes.len() + 1,
    {
        let id = self.push_detached(data);
        proof {
            assert forall|k: int| 0 <= k < self@.children(parent).len() implies (
            #[trigger] self@.children(parent)[k]) < id by {
                assert(self@.children(parent) == old(self)@.children(parent));
                assert(old(self)@.holds(parent));
                assert(old(self)@.children(parent)[k] < old(self)@.nodes.len());
            }
        }
        self.attach(id, parent);
        id
    }

    /// Adds a node holding `data` as the last child of the element `parent`
    /// and returns its position. Only an element can get children: for any
    /// other parent the tree stays as it is.
    pub fn append(&mut self, parent: usize, data: XmlNodeData) -> (r: Result<usize, PatchError>)
        requires
            old(self).wf(),
            parent < old(self).nodes.len(),
            crate::xml_structure::model::is_childless(data@),
        ensures
            final(self).wf(),
            final(self).root == old(self).root,
            old(self)@.is_element(parent) ==> r == Ok::<usize, PatchError>(old(self).nodes.len())
                && final(self)@ == old(self)@.append(parent, data@),
            !old(self)@.is_element(parent) ==> r == Err::<usize, PatchError>(
                PatchError::NotAnElement,
            ) && final(self)@ == old(self)@,
    {
        let is_element = match &self.nodes[parent].data {
            XmlNodeData::Element(_) => true,
            _ => false,
        };
        if is_element {
            Ok(self.append_node(parent, data))
        } else {
            Err(PatchError::NotAnElement)
        }
    }

    /// Those children of `current` that are elements called `name`.
    pub fn children_named(&self, current: usize, name: &str) -> (r: Vec<usize>)
        requires
            self.wf(),
            current < self.nodes.len(),
        ensures
            r@ == self@.named(self@.children(current), name@),
    {
        let walk = self.nodes[current].children();
        let mut found: Vec<usize> = Vec::new();
        let mut k: usize = 0;
        proof {
            self@.lemma_children_in_bounds(current);
        }
        while k < walk.nodes.len()
            invariant
                k <= walk.nodes.len(),
                walk.nodes@ == self@.children(current),
                crate::xml_structure::model::are_children(self@, current, walk.nodes@),
                found@ == self@.named(walk.nodes@.take(k as int), name@),
            decreases walk.nodes.len() - k,
        {
            let child = walk.nodes[k];
            proof {
                let next = walk.nodes@.take(k + 1);
                assert(next.drop_last() =~= walk.nodes@.take(k as int));
                assert(next.last() == child);
                assert(current < walk.nodes@[k as int] < self.nodes.len());
            }
            let is_named = match &self.nodes[child].data {
                XmlNodeData::Element(e) => crate::text::same_text(e.name.as_str(), name),
                _ => false,
            };
            if is_named {
                found.push(child);
            }
            k += 1;
        }
        proof {
            assert(walk.nodes@.take(walk.nodes@.len() as int) =~= walk.nodes@);
        }
        found
    }

    /// One step along a path, in a tree that is only read: `..` climbs to the
    /// parent, `.` stays, any other text descends into the one child of that
    /// name.
    pub fn lookup_step(&self, current: usize, segment: &str) -> (r: Result<usize, PatchError>)
        requires
            self.wf(),
            current < self.nodes.len(),
        ensures
            r == (match self@.resolve_step(current, segment@, false) {
                Ok((_, next)) => Ok::<usize, PatchError>(next),
                Err(e) => Err::<usize, PatchError>(e),
            }),
            r matches Ok(next) ==> next < self.nodes.len(),
    {
        let chars = crate::text::chars_of(segment);
        proof {
            self@.lemma_resolve_step_wf(current, segment@, false);
        }
        if chars.len() == 2 && chars[0] == '.' && chars[1] == '.' {
            assert(segment@ =~= seq!['.', '.']);
            match self.nodes[current].parent {
                Some(p) => Ok(p),
                None => Err(PatchError::PathAboveRoot),
            }
        } else if chars.len() == 1 && chars[0] == '.' {
            assert(segment@ =~= seq!['.']);
            Ok(current)
        } else {
            proof {
                if segment@ == seq!['.', '.'] {
                    assert(chars@.len() == 2 && chars@[0] == '.' && chars@[1] == '.');
                }
                if segment@ == seq!['.'] {
                    assert(chars@.len() == 1 && chars@[0] == '.');
                }
            }
            let candidates = self.children_named(current, segment);
            if candidates.len() == 1 {
                Ok(candidates[0])
            } else if candidates.len() == 0 {
                Err(PatchError::PathNotFound)
            } else {
                Err(PatchError::AmbiguousPath)
            }
        }
    }

    /// The node that `path` leads to from `current`, in a tree that is only
    /// read.
    pub fn lookup_path(&self, current: usize, path: &Vec<String>) -> (r: Result<usize, PatchError>)
        requires
            self.wf(),
            current < self.nodes.len(),
        ensures
            r == (match self@.resolve_path(current, texts(path@), false) {
                Ok((_, target)) => Ok::<usize, PatchError>(target),
                Err((_, e)) => Err::<usize, PatchError>(e),
            }),
            r matches Ok(target) ==> target < self.nodes.len(),
    {
        let mut node = current;
        let mut i: usize = 0;
        assert(texts(path@).skip(0) =~= texts(path@));
        while i < path.len()
            invariant
                i <= path.len(),
                self.wf(),
                node < self.nodes.len(),
                self@.resolve_path(node, texts(path@).skip(i as int), false) == self@.resolve_path(
                    current,
                    texts(path@),
                    false,
                ),
            decreases path.len() - i,
        {
            proof {
                let rest = texts(path@).skip(i as int);
                assert(rest[0] == path@[i as int]@);
                assert(rest.skip(1) =~= texts(path@).skip(i + 1));
                self@.lemma_resolve_step_wf(node, path@[i as int]@, false);
            }
            match self.lookup_step(node, path[i].as_str()) {
                Ok(next) => {
                    node = next;
                },
                Err(e) => {
                    return Err(e);
                },
            }
            i += 1;
        }
        Ok(node)
    }
}

impl XmlNode {
    /// Lets the element `node` drop those of its children that have no parent
    /// any more. Returns whether `node` is an element.
    pub fn cleanup_dependencies(tree: &mut XmlTree, node: usize) -> (r: bool)
        requires
            old(tree).wf(),
            node < old(tree).nodes.len(),
        ensures
            final(tree).wf(),
            final(tree).root == old(tree).root,
            final(tree).nodes.len() == old(tree).nodes.len(),
            final(tree)@ == old(tree)@.cleanup_dependencies(node),
            r == old(tree)@.is_element(node),
    {
        let walk = tree.nodes[node].children();
        let mut kept: Vec<usize> = Vec::new();
        let mut k: usize = 0;
        proof {
            tree@.lemma_children_in_bounds(node);
        }
        while k < walk.nodes.len()
            invariant
                k <= walk.nodes.len(),
                tree == old(tree),
                walk.nodes@ == tree@.children(node),
                crate::xml_structure::model::are_children(tree@, node, walk.nodes@),
                kept@ == tree@.attached(walk.nodes@.take(k as int)),
            decreases walk.nodes.len() - k,
        {
            let child = walk.nodes[k];
            proof {
                let next = walk.nodes@.take(k + 1);
                assert(next.drop_last() =~= walk.nodes@.take(k as int));
                assert(next.last() == child);
                assert(node < walk.nodes@[k as int] < tree.nodes.len());
            }
            if tree.nodes[child].parent.is_some() {
                kept.push(child);
            }
            k += 1;
        }
        proof {
            assert(walk.nodes@.take(walk.nodes@.len() as int) =~= walk.nodes@);
        }
        let r = match &mut tree.nodes[node].data {
            XmlNodeData::Element(e) => {
                e.children = kept;
                true
            },
            _ => false,
        };
        proof {
            assert(tree@.nodes =~= old(tree)@.cleanup_dependencies(node).nodes);
            old(tree)@.lemma_cleanup_wf(node);
        }
        r
    }

    /// Detaches `node` from its parent. Returns `false`, and changes nothing,
    /// where `node` has no parent.
    pub fn remove(tree: &mut XmlTree, node: usize) -> (r: bool)
        requires
            old(tree).wf(),
            node < old(tree).nodes.len(),
        ensures
            final(tree).wf(),
            final(tree).root == old(tree).root,
            final(tree).nodes.len() == old(tree).nodes.len(),
            final(tree)@ == old(tree)@.remove(node),
            r == (old(tree)@.parent(node) is Some),
    {
        let parent = match tree.nodes[node].parent {
            None => {
                return false;
            },
            Some(p) => p,
        };
        proof {
            assert(old(tree)@.holds(node));
            old(tree)@.lemma_remove_wf(node);
        }
        tree.nodes[node].parent = None;
        let ghost detached = tree@;
        proof {
            assert(detached.nodes =~= old(tree)@.with_parent(node, None).nodes);
        }
        let walk = tree.nodes[parent].children();
        let mut kept: Vec<usize> = Vec::new();
        let mut k: usize = 0;
        proof {
            old(tree)@.lemma_children_in_bounds(parent);
            assert(detached.children(parent) == old(tree)@.children(parent));
        }
        while k < walk.nodes.len()
            invariant
                k <= walk.nodes.len(),
                tree@ == detached,
                tree.root == old(tree).root,
                tree.nodes.len() == old(tree).nodes.len(),
                parent < tree.nodes.len(),
                walk.nodes@ == detached.children(parent),
                forall|j: int|
                    0 <= j < walk.nodes@.len() ==> #[trigger] walk.nodes@[j] < tree.nodes.len(),
                kept@ == detached.attached(walk.nodes@.take(k as int)),
            decreases walk.nodes.len() - k,
        {
            let child = walk.nodes[k];
            proof {
                let next = walk.nodes@.take(k + 1);
                assert(next.drop_last() =~= walk.nodes@.take(k as int));
                assert(next.last() == child);
                assert(walk.nodes@[k as int] < tree.nodes.len());
            }
            if tree.nodes[child].parent.is_some() {
                kept.push(child);
            }
            k += 1;
        }
        proof {
            assert(walk.nodes@.take(walk.nodes@.len() as int) =~= walk.nodes@);
        }
        match &mut tree.nodes[parent].data {
            XmlNodeData::Element(e) => {
                e.children = kept;
            },
            _ => {},
        }
        proof {
            assert(tree@.nodes =~= old(tree)@.remove(node).nodes);
            assert(tree.root != node) by {
                assert(old(tree)@.parent(old(tree).root) is None);
            }
        }
        true
    }

    /// Walks `path` from `current`: `..` climbs to the parent, `.` stays, and
    /// any other text descends into the one child of that name. A missing
    /// child is made where `auto_create` holds. Where a step fails, the tree
    /// keeps the elements that the steps before it have made and gets nothing
    /// more; without `auto_create` it stays as it is in every case.
    pub fn get_node_info_by_path(
        tree: &mut XmlTree,
        current: usize,
        path: &Vec<String>,
        auto_create: bool,
    ) -> (r: Result<usize, PatchError>)
        requires
            old(tree).wf(),
            current < old(tree).nodes.len(),
        ensures
            final(tree).wf(),
            final(tree).root == old(tree).root,
            final(tree).nodes.len() >= old(tree).nodes.len(),
            match old(tree)@.resolve_path(current, texts(path@), auto_create) {
                Ok((after, target)) => r == Ok::<usize, PatchError>(target) && final(tree)@
                    == after && target < final(tree).nodes.len(),
                Err((after, e)) => r == Err::<usize, PatchError>(e) && final(tree)@ == after,
            },
            !auto_create ==> final(tree)@ == old(tree)@,
    {
        let mut node = current;
        let mut i: usize = 0;
        assert(texts(path@).skip(0) =~= texts(path@));
        while i < path.len()
            invariant
                i <= path.len(),
                tree.wf(),
                tree.root == old(tree).root,
                !auto_create ==> tree@ == old(tree)@,
                tree.nodes.len() >= old(tree).nodes.len(),
                node < tree.nodes.len(),
                tree@.resolve_path(node, texts(path@).skip(i as int), auto_create) == old(
                    tree,
                )@.resolve_path(current, texts(path@), auto_create),
            decreases path.len() - i,
        {
            proof {
                let rest = texts(path@).skip(i as int);
                assert(rest[0] == path@[i as int]@);
                assert(rest.skip(1) =~= texts(path@).skip(i + 1));
            }
            match tree.lookup_step(node, path[i].as_str()) {
                Ok(next) => {
                    node = next;
                },
                Err(e) => {
                    if auto_create && e == PatchError::PathNotFound {
                        match tree.append(node, XmlNodeData::Element(Element::new(path[i].clone()))) {
                            Ok(made) => {
                                node = made;
                            },
                            Err(e) => {
                                return Err(e);
                            },
                        }
                    } else {
                        return Err(e);
                    }
                },
            }
            i += 1;
        }
        Ok(node)
    }

    /// Copies the subtree at `source` below `target`, as its last child. Only
    /// nodes before `bound` are copied, and the target is not one of them.
    pub fn copy_into(tree: &mut XmlTree, bound: usize, source: usize, target: usize)
        requires
            old(tree).wf(),
            bound <= target < old(tree).nodes.len(),
        ensures
            final(tree).wf(),
            final(tree).root == old(tree).root,
            final(tree).nodes.len() >= old(tree).nodes.len(),
            final(tree)@ == old(tree)@.copy_into(bound as nat, source, target),
            forall|id: int|
                0 <= id < bound ==> #[trigger] final(tree)@.nodes[id] == old(tree)@.nodes[id],
            forall|id: usize|
                id < old(tree).nodes.len() ==> #[trigger] final(tree)@.parent(id) == old(
                    tree,
                )@.parent(id),
        decreases 2 * (bound - source) + 1, 0nat,
    {
        if source < bound {
            let data = tree.nodes[source].data.shallow_clone();
            let walk = tree.nodes[source].children();
            let copy = tree.append_node(target, data);
            proof {
                old(tree)@.lemma_append_keeps_parents(target, data@);
                assert(walk.nodes@.skip(0) =~= walk.nodes@);
            }
            XmlNode::copy_children(tree, bound, source, &walk.nodes, 0, copy);
        }
    }

    /// Copies the subtrees at `children[from..]`, which are children of
    /// `source`, below `target` in the same order.
    pub fn copy_children(
        tree: &mut XmlTree,
        bound: usize,
        source: usize,
        children: &Vec<usize>,
        from: usize,
        target: usize,
    )
        requires
            old(tree).wf(),
            bound <= target < old(tree).nodes.len(),
            from <= children.len(),
        ensures
            final(tree).wf(),
            final(tree).root == old(tree).root,
            final(tree).nodes.len() >= old(tree).nodes.len(),
            final(tree)@ == old(tree)@.copy_children(
                bound as nat,
                source,
                children@.skip(from as int),
                target,
            ),
            forall|id: int|
                0 <= id < bound ==> #[trigger] final(tree)@.nodes[id] == old(tree)@.nodes[id],
            forall|id: usize|
                id < old(tree).nodes.len() ==> #[trigger] final(tree)@.parent(id) == old(
                    tree,
                )@.parent(id),
        decreases 2 * (bound - source), children.len() - from,
    {
        if from < children.len() {
            let child = children[from];
            proof {
                let rest = children@.skip(from as int);
                assert(rest[0] == child);
                assert(rest.skip(1) =~= children@.skip(from + 1));
            }
            if source < child && child < bound {
                XmlNode::copy_into(tree, bound, child, target);
            }
            XmlNode::copy_children(tree, bound, source, children, from + 1, target);
        }
    }

    /// Makes a copy of the subtree at `node` that hangs nowhere, and returns
    /// the position of its top. The copy stands for the document that `node`
    /// stands for, and carries no selector; no node is changed.
    pub fn deep_clone(tree: &mut XmlTree, node: usize) -> (id: usize)
        requires
            old(tree).wf(),
            node < old(tree).nodes.len(),
        ensures
            final(tree).wf(),
            final(tree).root == old(tree).root,
            final(tree).nodes.len() > old(tree).nodes.len(),
            final(tree)@ == old(tree)@.deep_clone(node),
            id == old(tree).nodes.len(),
            final(tree)@.parent(id) is None,
            forall|other: int|
                0 <= other < old(tree).nodes.len() ==> #[trigger] final(tree)@.nodes[other] == old(
                    tree,
                )@.nodes[other],
            final(tree)@.is_unlisted(id),
            final(tree)@.node_value(id) == old(tree)@.node_value(node),
    {
        let bound = tree.nodes.len();
        let data = tree.nodes[node].data.shallow_clone();
        let walk = tree.nodes[node].children();
        let id = tree.push_detached(data);
        proof {
            assert(walk.nodes@.skip(0) =~= walk.nodes@);
            assert(tree@.parent(id) is None);
        }
        XmlNode::copy_children(tree, bound, node, &walk.nodes, 0, id);
        proof {
            assert(tree.nodes.len() <= usize::MAX);
            crate::xml_structure::laws::lemma_deep_clone_value(old(tree)@, node);
            let after = tree@;
            assert forall|other: usize, k: int|
                after.holds(other) && 0 <= k < after.children(other).len() implies (
            #[trigger] after.children(other)[k]) != id by {
                after.lemma_children_in_bounds(other);
                if other < bound {
                    assert(after.nodes[other as int] == old(tree)@.nodes[other as int]);
                    assert(after.children(other) == old(tree)@.children(other));
                    old(tree)@.lemma_children_in_bounds(other);
                }
            }
        }
        id
    }
}

impl XmlTree {
    /// Whether `node` is an element.
    pub fn is_element(&self, node: usize) -> (r: bool)
        requires
            node < self.nodes.len(),
        ensures
            r == self@.is_element(node),
    {
        match &self.nodes[node].data {
            XmlNodeData::Element(_) => true,
            _ => false,
        }
    }

    /// Renames the element `node`. Returns whether `node` is an element; any
    /// other node is left as it is.
    pub fn rename(&mut self, node: usize, new_name: &String) -> (r: bool)
        requires
            old(self).wf(),
            node < old(self).nodes.len(),
        ensures
            final(self).wf(),
            final(self).root == old(self).root,
            final(self).nodes.len() == old(self).nodes.len(),
            final(self)@ == old(self)@.set_name(node, new_name@),
            r == old(self)@.is_element(node),
    {
        let r = self.nodes[node].set_name(new_name);
        proof {
            assert(self@.nodes =~= old(self)@.set_name(node, new_name@).nodes);
            old(self)@.lemma_set_name_wf(node, new_name@);
        }
        r
    }

    /// Notes on the element `node` the selector that is matching it, or takes
    /// the note away.
    pub fn note_regex(&mut self, node: usize, regex: Option<Regex>)
        requires
            old(self).wf(),
            node < old(self).nodes.len(),
        ensures
            final(self).wf(),
            final(self).root == old(self).root,
            final(self).nodes.len() == old(self).nodes.len(),
            final(self)@ == old(self)@.set_regex(node, optional_regex(regex)),
    {
        self.nodes[node].set_regex(regex);
        proof {
            assert(self@.nodes =~= old(self)@.set_regex(node, optional_regex(regex)).nodes);
            old(self)@.lemma_set_regex_wf(node, optional_regex(regex));
        }
    }

    /// Empties the element `node` of children.
    pub fn clear(&mut self, node: usize)
        requires
            old(self).wf(),
            node < old(self).nodes.len(),
        ensures
            final(self).wf(),
            final(self).root == old(self).root,
            final(self).nodes.len() == old(self).nodes.len(),
            final(self)@ == old(self)@.clear_children(node),
    {
        self.nodes[node].clear_children();
        proof {
            assert(self@.nodes =~= old(self)@.clear_children(node).nodes);
            old(self)@.lemma_clear_children_wf(node);
        }
    }

    /// Gives the attribute `name` of the element `node` the value `value`, or
    /// takes the attribute away where `value` is `None`. A value overwrites
    /// the first attribute of that name where it stands, or goes to the end as
    /// a new attribute. Any node that is no element is left as it is.
    pub fn patch_attribute(&mut self, node: usize, name: &String, value: Option<String>)
        requires
            old(self).wf(),
            node < old(self).nodes.len(),
        ensures
            final(self).wf(),
            final(self).root == old(self).root,
            final(self).nodes.len() == old(self).nodes.len(),
            final(self)@ == old(self)@.patch_attribute(node, name@, optional_text(value)),
    {
        let ghost before = self@;
        match &mut self.nodes[node].data {
            XmlNodeData::Element(e) => {
                match value {
                    Some(v) => {
                        set_attribute(&mut e.attributes, name, v);
                    },
                    None => {
                        remove_attribute(&mut e.attributes, name);
                    },
                }
            },
            _ => {},
        }
        proof {
            assert(self@.nodes =~= before.patch_attribute(node, name@, optional_text(value)).nodes);
            if before.is_element(node) {
                before.lemma_with_attributes_wf(node, self@.element(node).attributes);
            }
        }
    }
}

/// Gives the attribute `name` the value `value`: the first attribute of that
/// name is overwritten where it stands; without one, a new attribute goes to
/// the end.
pub fn set_attribute(attributes: &mut Vec<(String, String)>, name: &String, value: String)
    ensures
        attribute_texts(final(attributes)@) == crate::xml_structure::model::with_attribute(
            attribute_texts(old(attributes)@),
            name@,
            value@,
        ),
{
    let mut i: usize = 0;
    let ghost all = attribute_texts(attributes@);
    assert(all.skip(0) =~= all);
    while i < attributes.len()
        invariant
            i <= attributes.len(),
            attributes == old(attributes),
            all == attribute_texts(attributes@),
            crate::xml_structure::model::attribute_position(all, name@) == i
                + crate::xml_structure::model::attribute_position(all.skip(i as int), name@),
        decreases attributes.len() - i,
    {
        proof {
            assert(all.skip(i as int)[0] == all[i as int]);
            assert(all.skip(i as int).skip(1) =~= all.skip(i + 1));
        }
        if attributes[i].0 == *name {
            attributes[i].1 = value;
            proof {
                assert(attribute_texts(attributes@) =~= all.update(i as int, (name@, value@)));
            }
            return ;
        }
        i += 1;
    }
    proof {
        assert(all.skip(all.len() as int) =~= Seq::empty());
    }
    attributes.push((name.clone(), value));
    proof {
        assert(attribute_texts(attributes@) =~= all.push((name@, value@)));
    }
}

/// Takes away every attribute called `name`; the others keep their order.
pub fn remove_attribute(attributes: &mut Vec<(String, String)>, name: &String)
    ensures
        attribute_texts(final(attributes)@) == crate::xml_structure::model::without_attribute(
            attribute_texts(old(attributes)@),
            name@,
        ),
{
    let mut kept: Vec<(String, String)> = Vec::new();
    let mut i: usize = 0;
    let ghost all = attribute_texts(attributes@);
    while i < attributes.len()
        invariant
            i <= attributes.len(),
            attributes == old(attributes),
            all == attribute_texts(attributes@),
            attribute_texts(kept@) == crate::xml_structure::model::without_attribute(
                all.take(i as int),
                name@,
            ),
        decreases attributes.len() - i,
    {
        proof {
            assert(all.take(i + 1).drop_last() =~= all.take(i as int));
            assert(all.take(i + 1).last() == all[i as int]);
        }
        if !(attributes[i].0 == *name) {
            let ghost before = attribute_texts(kept@);
            let key = attributes[i].0.clone();
            let value = attributes[i].1.clone();
            kept.push((key, value));
            proof {
                assert(attribute_texts(kept@) =~= before.push(all[i as int]));
            }
        }
        i += 1;
    }
    proof {
        assert(all.take(all.len() as int) =~= all);
    }
    *attributes = kept;
}

impl XmlNode {
    /// Renames, moves or copies `node` as `move_copy_expression` says when it
    /// is evaluated at `node`. The text is a path and a name with `/` between
    /// them. A name that is not empty renames `node`. A path that is not
    /// empty is walked from the parent of `node`, making what is missing, and
    /// a copy of `node` is hung at its end; a move also detaches `node` from
    /// where it was. Where it fails, nothing is detached and nothing copied.
    pub fn move_copy_node(
        tree: &mut XmlTree,
        node: usize,
        move_copy_expression: &ReferenceExpression,
        move_copy: MoveCopyAction,
    ) -> (r: Result<(), PatchError>)
        requires
            old(tree).wf(),
            node < old(tree).nodes.len(),
        ensures
            final(tree).wf(),
            final(tree).root == old(tree).root,
            final(tree).nodes.len() >= old(tree).nodes.len(),
            match crate::patch_processor::semantics::move_copy(
                old(tree)@,
                node,
                move_copy_expression@,
                move_copy,
            ) {
                Ok(after) => r is Ok && final(tree)@ == after,
                Err((after, e)) => r == Err::<(), PatchError>(e) && final(tree)@ == after,
            },
    {
        let move_expression = match move_copy_expression.evaluate(tree, node) {
            Ok(text) => text,
            Err(e) => {
                return Err(e);
            },
        };
        let mut path = crate::text::split_on(move_expression.as_str(), '/');
        proof {
            crate::text::lemma_split_nonempty(move_expression@, '/');
            assert(texts(path@) =~= crate::text::split_seq(move_expression@, '/'));
        }
        let ghost parts = texts(path@);
        let new_name = match path.pop() {
            Some(name) => name,
            None => {
                return Ok(());
            },
        };
        proof {
            assert(new_name@ == parts.last());
            assert(texts(path@) =~= parts.drop_last());
        }
        if !new_name.as_str().is_empty() {
            if !tree.rename(node, &new_name) {
                return Err(PatchError::NotAnElement);
            }
        }
        if path.len() > 0 {
            let parent = match tree.nodes[node].parent {
                None => {
                    return Err(PatchError::MoveOfRoot);
                },
                Some(p) => p,
            };
            proof {
                assert(tree@.holds(node));
            }
            let target = match XmlNode::get_node_info_by_path(tree, parent, &path, true) {
                Ok(target) => target,
                Err(e) => {
                    return Err(e);
                },
            };
            if !tree.is_element(target) {
                return Err(PatchError::NotAnElement);
            }
            let ghost resolved = tree@;
            let copy = XmlNode::deep_clone(tree, node);
            let ghost cloned = tree@;
            match move_copy {
                MoveCopyAction::Move => {
                    XmlNode::remove(tree, node);
                },
                MoveCopyAction::Copy => {},
            }
            proof {
                resolved.lemma_children_in_bounds(target);
                assert(cloned.nodes[target as int] == resolved.nodes[target as int]);
                assert(cloned.children(target) == resolved.children(target));
                cloned.lemma_children_in_bounds(target);
                cloned.lemma_remove_keeps_below(node, target, copy);
                cloned.lemma_remove_keeps_unlisted(node, copy);
            }
            tree.attach(copy, target);
        }
        Ok(())
    }
}

/// The name of the synthetic element above the root.
pub fn internal_root_name() -> (name: String)
    ensures
        name@ == crate::xml_structure::model::internal_root_name(),
{
    let mut name = String::new();
    crate::text::push_char(&mut name, 'i');
    crate::text::push_char(&mut name, 'n');
    crate::text::push_char(&mut name, 't');
    crate::text::push_char(&mut name, 'e');
    crate::text::push_char(&mut name, 'r');
    crate::text::push_char(&mut name, 'n');
    crate::text::push_char(&mut name, 'a');
    crate::text::push_char(&mut name, 'l');
    crate::text::push_char(&mut name, '_');
    crate::text::push_char(&mut name, 'r');
    crate::text::push_char(&mut name, 'o');
    crate::text::push_char(&mut name, 'o');
    crate::text::push_char(&mut name, 't');
    assert(name@ =~= crate::xml_structure::model::internal_root_name());
    name
}

/// The synthetic element above the root, with the root as its only child.
pub fn internal_root(root: usize) -> (data: XmlNodeData)
    ensures
        data@ == crate::xml_structure::model::internal_root(root),
{
    let mut children: Vec<usize> = Vec::new();
    children.push(root);
    let element = Element {
        prefix: None,
        name: internal_root_name(),
        attributes: Vec::new(),
        applied_regexp: None,
        children,
    };
    assert(element@.attributes =~= Seq::empty());
    assert(element@.children =~= seq![root]);
    XmlNodeData::Element(element)
}

impl XmlTree {
    /// The tree that stands for the document whose root is `parsed_tree`: the
    /// root of the tree stands for that document.
    pub fn new(parsed_tree: &DocumentElement) -> (tree: XmlTree)
        ensures
            tree.wf(),
            tree.root == 1,
            tree@ == crate::xml_structure::model::tree_of_document(parsed_tree@),
            tree@.is_element(tree.root),
            tree@.element_value(tree.root) == parsed_tree@,
    {
        let mut nodes: Vec<XmlNode> = Vec::new();
        nodes.push(XmlNode { parent: None, data: internal_root(1) });
        nodes.push(
            XmlNode { parent: None, data: XmlNodeData::Element(Self::parse_from_element(parsed_tree)) },
        );
        let mut xml_tree = XmlTree { nodes, root: 1 };
        proof {
            parsed_tree.lemma_view();
            let start = TreeModel {
                nodes: seq![
                    NodeModel {
                        parent: None,
                        data: crate::xml_structure::model::internal_root(1),
                    },
                    NodeModel {
                        parent: None,
                        data: crate::xml_structure::model::element_shell(parsed_tree@),
                    },
                ],
            };
            assert(xml_tree@.nodes =~= start.nodes);
            assert(xml_tree@.wf()) by {
                assert forall|id: usize, k: int|
                    xml_tree@.holds(id) && 0 <= k < xml_tree@.children(id).len() implies id < (
                #[trigger] xml_tree@.children(id)[k]) < xml_tree@.nodes.len() by {
                    if id == 0 {
                        assert(xml_tree@.children(id) =~= seq![1usize]);
                    } else {
                        assert(id == 1);
                        assert(xml_tree@.children(id) =~= Seq::empty());
                    }
                }
            }
        }
        Self::add_element_children(&mut xml_tree, 1, parsed_tree);
        proof {
            assert(xml_tree.nodes.len() <= usize::MAX);
            crate::xml_structure::laws::lemma_tree_stands_for_document(parsed_tree@);
        }
        xml_tree
    }

    /// The tree element that stands for a document element, before its
    /// children are added.
    pub fn parse_from_element(element: &DocumentElement) -> (r: Element)
        ensures
            DataModel::Element(r@) == crate::xml_structure::model::element_shell(element@),
    {
        proof {
            element.lemma_view();
        }
        let r = Element {
            prefix: clone_optional_text(&element.prefix),
            name: element.name.clone(),
            attributes: clone_attributes(&element.attributes),
            applied_regexp: None,
            children: Vec::new(),
        };
        assert(r@.children =~= Seq::empty());
        r
    }

    /// Adds what stands for the children of `element` below `parent`, in
    /// order.
    pub fn add_element_children(tree: &mut XmlTree, parent: usize, element: &DocumentElement)
        requires
            old(tree).wf(),
            parent < old(tree).nodes.len(),
        ensures
            final(tree).wf(),
            final(tree).root == old(tree).root,
            final(tree).nodes.len() >= old(tree).nodes.len(),
            final(tree)@ == crate::xml_structure::model::build_children(
                old(tree)@,
                parent,
                element@.children,
                0,
            ),
        decreases element,
    {
        let mut i: usize = 0;
        proof {
            element.lemma_view();
        }
        while i < element.children.len()
            invariant
                i <= element.children.len(),
                tree.wf(),
                tree.root == old(tree).root,
                tree.nodes.len() >= old(tree).nodes.len(),
                parent < tree.nodes.len(),
                element@.children.len() == element.children@.len(),
                forall|k: int|
                    0 <= k < element.children@.len() ==> #[trigger] element@.children[k]
                        == element.children@[k]@,
                crate::xml_structure::model::build_children(
                    tree@,
                    parent,
                    element@.children,
                    i as int,
                ) == crate::xml_structure::model::build_children(
                    old(tree)@,
                    parent,
                    element@.children,
                    0,
                ),
            decreases element.children.len() - i,
        {
            assert(element@.children[i as int] == element.children@[i as int]@);
            let ghost before = tree@;
            let ghost model = element@.children[i as int];
            match &element.children[i] {
                DocumentNode::Element(e) => {
                    let child = tree.append_node(
                        parent,
                        XmlNodeData::Element(Self::parse_from_element(e)),
                    );
                    Self::add_element_children(tree, child, e);
                },
                DocumentNode::Comment(c) => {
                    tree.append_node(parent, XmlNodeData::Comment(c.clone()));
                },
                DocumentNode::CData(c) => {
                    tree.append_node(parent, XmlNodeData::CData(c.clone()));
                },
                DocumentNode::Text(t) => {
                    tree.append_node(parent, XmlNodeData::Text(t.clone()));
                },
                DocumentNode::ProcessingInstruction(k, v) => {
                    tree.append_node(
                        parent,
                        XmlNodeData::ProcessingInstruction(k.clone(), clone_optional_text(v)),
                    );
                },
            }
            proof {
                assert(tree@ == crate::xml_structure::model::build_node(before, parent, model));
            }
            i += 1;
        }
    }

    /// The document node that the subtree at `node` stands for.
    pub fn node_to_xmltree_node(&self, node: usize) -> (r: DocumentNode)
        requires
            self.wf(),
            node < self.nodes.len(),
        ensures
            r@ == self@.node_value(node),
        decreases self.nodes.len() - node, 1nat,
    {
        match &self.nodes[node].data {
            XmlNodeData::Element(e) => DocumentNode::Element(
                self.element_to_xmltree_element(node),
            ),
            XmlNodeData::Comment(s) => DocumentNode::Comment(s.clone()),
            XmlNodeData::CData(s) => DocumentNode::CData(s.clone()),
            XmlNodeData::Text(s) => DocumentNode::Text(s.clone()),
            XmlNodeData::ProcessingInstruction(k, v) => DocumentNode::ProcessingInstruction(
                k.clone(),
                clone_optional_text(v),
            ),
        }
    }

    /// The document element that the subtree at the element `node` stands for.
    pub fn element_to_xmltree_element(&self, node: usize) -> (r: DocumentElement)
        requires
            self.wf(),
            node < self.nodes.len(),
            self@.is_element(node),
        ensures
            r@ == self@.element_value(node),
        decreases self.nodes.len() - node, 0nat,
    {
        let element = match &self.nodes[node].data {
            XmlNodeData::Element(e) => e,
            _ => {
                proof {
                    assert(false);
                }
                return DocumentElement {
                    prefix: None,
                    name: String::new(),
                    attributes: Vec::new(),
                    children: Vec::new(),
                };
            },
        };
        let mut children: Vec<DocumentNode> = Vec::new();
        let mut k: usize = 0;
        proof {
            self@.lemma_children_in_bounds(node);
        }
        while k < element.children.len()
            invariant
                k <= element.children.len(),
                self.wf(),
                node < self.nodes.len(),
                self@.is_element(node),
                element.children@ == self@.children(node),
                crate::xml_structure::model::are_children(self@, node, element.children@),
                children@.len() == k,
                forall|j: int|
                    0 <= j < k ==> (#[trigger] children@[j])@ == self@.node_value(
                        element.children@[j],
                    ),
            decreases element.children.len() - k,
        {
            assert(node < element.children@[k as int] < self.nodes.len());
            let child = self.node_to_xmltree_node(element.children[k]);
            children.push(child);
            k += 1;
        }
        let r = DocumentElement {
            prefix: clone_optional_text(&element.prefix),
            name: element.name.clone(),
            attributes: clone_attributes(&element.attributes),
            children,
        };
        proof {
            r.lemma_view();
            assert(r@.children =~= self@.element_value(node).children);
        }
        r
    }

    /// The document that the tree stands for. Only an element can be the root
    /// of a document.
    pub fn to_xmltree(&self) -> (r: Result<DocumentElement, PatchError>)
        requires
            self.wf(),
        ensures
            self@.is_element(self.root) ==> (r matches Ok(document) && document@
                == self@.element_value(self.root)),
            !self@.is_element(self.root) ==> (r matches Err(e) && e == PatchError::NotAnElement),
    {
        if self.is_element(self.root) {
            Ok(self.element_to_xmltree_element(self.root))
        } else {
            Err(PatchError::NotAnElement)
        }
    }
}

} // verus!
