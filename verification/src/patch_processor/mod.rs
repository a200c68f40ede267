//! The processor: applies a patch to a tree.

pub mod filtering;
pub mod isolation;
pub mod laws;
pub mod semantics;

use crate::error::PatchError;
use crate::patch_structure::query::ComplexQuery;
use crate::patch_structure::query::Query;
use crate::patch_structure::regex::Regex;
use crate::patch_structure::simple_value_type::SimpleValueType;
use crate::patch_structure::value::attribute_patches;
use crate::patch_structure::value::ComplexValue;
use crate::patch_structure::value::ModificationValue;
use crate::patch_structure::modification_type::ModificationIdentifier;
use crate::xml_structure::bidirectional_xml_tree::Element;
use crate::xml_structure::bidirectional_xml_tree::MoveCopyAction;
use crate::xml_structure::bidirectional_xml_tree::XmlNode;
use crate::xml_structure::bidirectional_xml_tree::XmlNodeData;
use crate::xml_structure::bidirectional_xml_tree::XmlTree;
use crate::xml_structure::document::parse_document;
use crate::xml_structure::document::xml_document;
use crate::patch_processor::isolation::confined;
use crate::patch_processor::isolation::is_local;
use crate::patch_processor::isolation::is_local_complex;
use crate::patch_processor::isolation::is_selected;
use crate::patch_processor::isolation::is_unselected;
use crate::patch_processor::isolation::lemma_rename_only;
use crate::patch_processor::isolation::lemma_spared_twice;
use crate::patch_processor::isolation::lemma_touched_is_confined;
use crate::patch_processor::isolation::lemma_under_is_later;
use crate::patch_processor::isolation::touched_only;
use crate::patch_processor::isolation::lemma_children_step;
use crate::patch_processor::isolation::lemma_confined_append;
use crate::patch_processor::isolation::lemma_confined_clear;
use crate::patch_processor::isolation::lemma_confined_inner;
use crate::patch_processor::isolation::lemma_confined_patch_attribute;
use crate::patch_processor::isolation::lemma_confined_remove;
use crate::patch_processor::isolation::lemma_confined_set_regex;
use crate::patch_processor::isolation::lemma_confined_twice;
use crate::patch_processor::isolation::lemma_confined_unchanged;
use crate::patch_processor::isolation::spared;
use crate::xml_structure::document::optional_text;
use crate::xml_structure::model::are_children;
use crate::xml_structure::model::are_linked;
use crate::xml_structure::model::is_parent_of;
use vstd::prelude::*;

verus! {

/// A document that patches can be applied to.
#[derive(Debug)]
pub struct PatchProcessor {
    pub xml_tree: XmlTree,
}

impl PatchProcessor {
    /// Reads an XML document and makes it ready for patches.
    pub fn new(xml_string: &str) -> (r: Result<PatchProcessor, PatchError>)
        ensures
            match xml_document(xml_string@) {
                Some(document) => r matches Ok(processor) && processor.xml_tree.wf()
                    && processor.xml_tree.root == 1 && processor.xml_tree@
                    == crate::xml_structure::model::tree_of_document(document),
                None => r matches Err(e) && e == PatchError::MalformedXml,
            },
    {
        match parse_document(xml_string) {
            Ok(document) => Ok(PatchProcessor { xml_tree: XmlTree::new(&document) }),
            Err(e) => Err(e),
        }
    }

    /// Applies `patch` to the document. The patch is applied to a synthetic
    /// element whose only child is the root, so that the selectors at the top
    /// of the patch are matched against the root. After an error the document
    /// is as the work before the error has left it.
    pub fn apply(&mut self, patch: &Query) -> (r: Result<(), PatchError>)
        requires
            old(self).xml_tree.wf(),
        ensures
            final(self).xml_tree.wf(),
            final(self).xml_tree.root == old(self).xml_tree.root,
            match semantics::apply_patch(old(self).xml_tree@, old(self).xml_tree.root, patch@) {
                Ok(after) => r is Ok && final(self).xml_tree@ == after,
                Err((after, e)) => r == Err::<(), PatchError>(e) && final(self).xml_tree@
                    == after,
            },
    {
        let root = self.xml_tree.root;
        let data = crate::xml_structure::bidirectional_xml_tree::internal_root(root);
        self.xml_tree.nodes[0] = XmlNode { parent: None, data };
        proof {
            let before = old(self).xml_tree@;
            assert(before.holds(0));
            assert(before.nodes[0].parent is None);
            assert(self.xml_tree@.nodes =~= before.with_data(
                0,
                crate::xml_structure::model::internal_root(root),
            ).nodes);
            assert(are_children(before, 0, seq![root]));
            assert(crate::xml_structure::model::are_linked(before, 0, seq![root]));
            before.lemma_with_data_wf(0, crate::xml_structure::model::internal_root(root));
        }
        Self::apply_query(&mut self.xml_tree, 0, patch)
    }

    /// Writes the text that `value` stands for into the element `node`, in
    /// place of its children; detaches `node` where `value` asks for removal.
    pub fn apply_simple(tree: &mut XmlTree, node: usize, value: &SimpleValueType) -> (r: Result<
        (),
        PatchError,
    >)
        requires
            old(tree).wf(),
            node < old(tree).nodes.len(),
        ensures
            final(tree).wf(),
            final(tree).root == old(tree).root,
            final(tree).nodes.len() >= old(tree).nodes.len(),
            match semantics::apply_simple(old(tree)@, node, value@) {
                Ok(after) => r is Ok && final(tree)@ == after,
                Err((after, e)) => r == Err::<(), PatchError>(e) && final(tree)@ == after,
            },
            confined(old(tree)@, final(tree)@, node),
    {
        proof {
            lemma_confined_unchanged(tree@, node);
        }
        match value.to_xml_node(tree, node) {
            Err(e) => Err(e),
            Ok(None) => {
                proof {
                    lemma_confined_remove(tree@, node);
                }
                XmlNode::remove(tree, node);
                Ok(())
            },
            Ok(Some(text)) => {
                if !tree.is_element(node) {
                    return Err(PatchError::NotAnElement);
                }
                tree.clear(node);
                let ghost cleared = tree@;
                tree.append_node(node, text);
                proof {
                    lemma_confined_clear(old(tree)@, node);
                    lemma_confined_append(cleared, node, text@);
                    lemma_confined_twice(old(tree)@, cleared, tree@, node);
                }
                Ok(())
            },
        }
    }

    /// Applies `query` to `node`. A query in which no `$move` or `$copy` names
    /// a path changes nothing but `node`, what lies under it, and the list in
    /// which its parent holds it.
    pub fn apply_query(tree: &mut XmlTree, node: usize, query: &Query) -> (r: Result<
        (),
        PatchError,
    >)
        requires
            old(tree).wf(),
            node < old(tree).nodes.len(),
        ensures
            final(tree).wf(),
            final(tree).root == old(tree).root,
            final(tree).nodes.len() >= old(tree).nodes.len(),
            match semantics::apply_query(old(tree)@, node, query@) {
                Ok(after) => r is Ok && final(tree)@ == after,
                Err((after, e)) => r == Err::<(), PatchError>(e) && final(tree)@ == after,
            },
            node != 0 && is_local(query@) ==> confined(old(tree)@, final(tree)@, node),
        decreases query, 0nat,
    {
        match query {
            Query::Simple(v) => Self::apply_simple(tree, node, v),
            Query::Complex(complex_query) => Self::apply_complex_query(tree, node, complex_query),
            Query::ComplexVec(queries) => {
                let mut i: usize = 0;
                proof {
                    lemma_confined_unchanged(tree@, node);
                }
                while i < queries.len()
                    invariant
                        i <= queries.len(),
                        query is ComplexVec,
                        query->ComplexVec_0 == queries,
                        tree.wf(),
                        old(tree).wf(),
                        tree.root == old(tree).root,
                        tree.nodes.len() >= old(tree).nodes.len(),
                        node < old(tree).nodes.len(),
                        semantics::apply_each(tree@, node, query@->ComplexVec_0, i as int)
                            == semantics::apply_each(old(tree)@, node, query@->ComplexVec_0, 0),
                        node != 0 && is_local(query@) ==> confined(old(tree)@, tree@, node),
                    decreases queries.len() - i,
                {
                    let ghost before = tree@;
                    let result = Self::apply_complex_query(tree, node, &queries[i]);
                    proof {
                        if node != 0 && is_local(query@) {
                            assert(is_local_complex(query@->ComplexVec_0[i as int]));
                            lemma_confined_twice(old(tree)@, before, tree@, node);
                        }
                    }
                    match result {
                        Ok(()) => {},
                        Err(e) => {
                            return Err(e);
                        },
                    }
                    i += 1;
                }
                Ok(())
            },
        }
    }

    /// Applies `query` to those children of `node` that are elements whose
    /// name `selector` matches. The children are those that `node` has when
    /// the walk begins; while the query is applied to a child, the child
    /// carries the selector. Where no `$move` or `$copy` in the query names
    /// a path, a child whose name the selector does not match is left as it
    /// is, with everything under it, and stays a child.
    pub fn apply_to_children(tree: &mut XmlTree, node: usize, selector: &Regex, query: &Query) -> (r:
        Result<(), PatchError>)
        requires
            old(tree).wf(),
            node < old(tree).nodes.len(),
        ensures
            final(tree).wf(),
            final(tree).root == old(tree).root,
            final(tree).nodes.len() >= old(tree).nodes.len(),
            match semantics::apply_to_children(
                old(tree)@,
                old(tree)@.children(node),
                0,
                selector@,
                query@,
            ) {
                Ok(after) => r is Ok && final(tree)@ == after,
                Err((after, e)) => r == Err::<(), PatchError>(e) && final(tree)@ == after,
            },
            node != 0 && is_local(query@) ==> confined(old(tree)@, final(tree)@, node),
            node != 0 && is_local(query@) ==> forall|j: int|
                0 <= j < old(tree)@.children(node).len() && !is_selected(
                    old(tree)@,
                    old(tree)@.children(node)[j],
                    selector@,
                ) ==> spared(old(tree)@, final(tree)@, node, #[trigger] old(tree)@.children(node)[j]),
        decreases query, 1nat,
    {
        let walk = tree.nodes[node].children();
        let mut k: usize = 0;
        let ghost start = tree@;
        proof {
            start.lemma_children_in_bounds(node);
            lemma_confined_unchanged(start, node);
            assert forall|j: int| 0 <= j < walk.nodes@.len() implies spared(
                start,
                start,
                node,
                #[trigger] walk.nodes@[j],
            ) by {}
        }
        while k < walk.nodes.len()
            invariant
                k <= walk.nodes.len(),
                start == old(tree)@,
                start.wf(),
                node < start.nodes.len(),
                walk.nodes@ == start.children(node),
                tree.wf(),
                tree.root == old(tree).root,
                tree.nodes.len() >= old(tree).nodes.len(),
                are_children(start, node, walk.nodes@),
                semantics::apply_to_children(tree@, walk.nodes@, k as int, selector@, query@)
                    == semantics::apply_to_children(start, walk.nodes@, 0, selector@, query@),
                node != 0 && is_local(query@) ==> confined(start, tree@, node),
                node != 0 && is_local(query@) ==> forall|j: int|
                    0 <= j < walk.nodes@.len() && (j >= k || !is_selected(
                        start,
                        walk.nodes@[j],
                        selector@,
                    )) ==> spared(start, tree@, node, #[trigger] walk.nodes@[j]),
            decreases walk.nodes.len() - k,
        {
            let child = walk.nodes[k];
            let ghost local = node != 0 && is_local(query@);
            assert(node < walk.nodes@[k as int] < start.nodes.len());
            proof {
                if local {
                    assert(spared(start, tree@, node, walk.nodes@[k as int]));
                    assert(start.under(child, child));
                    assert(tree@.nodes[child as int] == start.nodes[child as int]);
                }
            }
            let matched = match tree.nodes[child].name() {
                Some(name) => selector.is_match(name.as_str()),
                None => false,
            };
            if matched {
                let ghost before = tree@;
                tree.note_regex(child, Some(selector.clone()));
                let ghost noted = tree@;
                let result = Self::apply_query(tree, child, query);
                let ghost applied = tree@;
                proof {
                    if local {
                        lemma_confined_set_regex(before, child, Some(selector@));
                        lemma_confined_twice(before, noted, applied, child);
                        lemma_children_step(
                            start,
                            before,
                            applied,
                            node,
                            walk.nodes@,
                            k as int,
                            selector@,
                        );
                    }
                }
                match result {
                    Ok(()) => {},
                    Err(e) => {
                        return Err(e);
                    },
                }
                tree.note_regex(child, None);
                proof {
                    if local {
                        lemma_confined_set_regex(applied, child, None);
                        lemma_confined_twice(before, applied, tree@, child);
                        lemma_children_step(
                            start,
                            before,
                            tree@,
                            node,
                            walk.nodes@,
                            k as int,
                            selector@,
                        );
                    }
                }
            }
            k += 1;
        }
        Ok(())
    }

    /// Hands the subqueries of `complex_query` to the children of `node`, in
    /// the order in which they are written. Each subquery sees the children
    /// that `node` has when its turn comes. Where no `$move` or `$copy` in
    /// the query names a path, a child whose name none of the selectors
    /// matches is left as it is, with everything under it, and stays a child.
    pub fn apply_subqueries(tree: &mut XmlTree, node: usize, complex_query: &ComplexQuery) -> (r:
        Result<(), PatchError>)
        requires
            old(tree).wf(),
            node < old(tree).nodes.len(),
        ensures
            final(tree).wf(),
            final(tree).root == old(tree).root,
            final(tree).nodes.len() >= old(tree).nodes.len(),
            match semantics::apply_subqueries(old(tree)@, node, complex_query@.subqueries, 0) {
                Ok(after) => r is Ok && final(tree)@ == after,
                Err((after, e)) => r == Err::<(), PatchError>(e) && final(tree)@ == after,
            },
            node != 0 && is_local_complex(complex_query@) ==> confined(
                old(tree)@,
                final(tree)@,
                node,
            ),
            node != 0 && is_local_complex(complex_query@) ==> forall|j: int|
                0 <= j < old(tree)@.children(node).len() && is_unselected(
                    old(tree)@,
                    old(tree)@.children(node)[j],
                    complex_query@.subqueries,
                ) ==> spared(old(tree)@, final(tree)@, node, #[trigger] old(tree)@.children(node)[j]),
        decreases complex_query, 0nat,
    {
        let mut i: usize = 0;
        let ghost start = tree@;
        proof {
            lemma_confined_unchanged(tree@, node);
            assert forall|j: int| 0 <= j < start.children(node).len() implies spared(
                start,
                start,
                node,
                #[trigger] start.children(node)[j],
            ) by {}
        }
        while i < complex_query.subqueries.len()
            invariant
                i <= complex_query.subqueries.len(),
                start == old(tree)@,
                tree.wf(),
                old(tree).wf(),
                tree.root == old(tree).root,
                tree.nodes.len() >= old(tree).nodes.len(),
                node < old(tree).nodes.len(),
                semantics::apply_subqueries(tree@, node, complex_query@.subqueries, i as int)
                    == semantics::apply_subqueries(old(tree)@, node, complex_query@.subqueries, 0),
                node != 0 && is_local_complex(complex_query@) ==> confined(
                    old(tree)@,
                    tree@,
                    node,
                ),
                node != 0 && is_local_complex(complex_query@) ==> forall|j: int|
                    0 <= j < start.children(node).len() && is_unselected(
                        start,
                        start.children(node)[j],
                        complex_query@.subqueries,
                    ) ==> spared(start, tree@, node, #[trigger] start.children(node)[j]),
            decreases complex_query.subqueries.len() - i,
        {
            proof {
                complex_query.lemma_view();
            }
            let ghost before = tree@;
            let result = Self::apply_to_children(
                tree,
                node,
                &complex_query.subqueries[i].0,
                &complex_query.subqueries[i].1,
            );
            proof {
                if node != 0 && is_local_complex(complex_query@) {
                    assert(is_local(complex_query@.subqueries[i as int].1));
                    lemma_confined_twice(old(tree)@, before, tree@, node);
                    start.lemma_children_in_bounds(node);
                    assert forall|j: int|
                        0 <= j < start.children(node).len() && is_unselected(
                            start,
                            start.children(node)[j],
                            complex_query@.subqueries,
                        ) implies spared(start, tree@, node, #[trigger] start.children(node)[j]) by {
                        let child = start.children(node)[j];
                        assert(spared(start, before, node, child));
                        assert(start.holds(child) && start.under(child, child));
                        assert(before.nodes[child as int] == start.nodes[child as int]);
                        let selector = complex_query@.subqueries[i as int].0;
                        assert(!is_selected(start, child, selector));
                        assert(!is_selected(before, child, selector));
                        let w = choose|w: int|
                            0 <= w < before.children(node).len() && before.children(node)[w]
                                == child;
                        assert(spared(before, tree@, node, before.children(node)[w]));
                        lemma_spared_twice(start, before, tree@, node, child);
                    }
                }
            }
            match result {
                Ok(()) => {},
                Err(e) => {
                    return Err(e);
                },
            }
            i += 1;
        }
        proof {
            complex_query.lemma_view();
        }
        Ok(())
    }

    /// Carries out the reserved keys of `complex_query` on `node`: first
    /// `$modify`, then `$copy`, then `$move`. Without a `$modify`, and where
    /// `$copy` and `$move` name no path, nothing changes but what `node`
    /// itself holds.
    pub fn apply_modifiers(tree: &mut XmlTree, node: usize, complex_query: &ComplexQuery) -> (r:
        Result<(), PatchError>)
        requires
            old(tree).wf(),
            node < old(tree).nodes.len(),
        ensures
            final(tree).wf(),
            final(tree).root == old(tree).root,
            final(tree).nodes.len() >= old(tree).nodes.len(),
            match semantics::apply_modifiers(old(tree)@, node, complex_query@) {
                Ok(after) => r is Ok && final(tree)@ == after,
                Err((after, e)) => r == Err::<(), PatchError>(e) && final(tree)@ == after,
            },
            node != 0 && is_local_complex(complex_query@) ==> confined(
                old(tree)@,
                final(tree)@,
                node,
            ),
            is_local_complex(complex_query@) && complex_query@.modification is None
                ==> touched_only(old(tree)@, final(tree)@, node),
    {
        proof {
            complex_query.lemma_view();
            lemma_confined_unchanged(tree@, node);
        }
        match &complex_query.modification {
            None => {},
            Some(value_type) => {
                match Self::modify(tree, node, value_type) {
                    Ok(()) => {},
                    Err(e) => {
                        return Err(e);
                    },
                }
            },
        }
        let ghost modified = tree@;
        match &complex_query.modifier.copy {
            None => {},
            Some(copy_expression) => {
                let result = XmlNode::move_copy_node(
                    tree,
                    node,
                    copy_expression,
                    MoveCopyAction::Copy,
                );
                proof {
                    if is_local_complex(complex_query@) {
                        lemma_rename_only(modified, node, copy_expression@, MoveCopyAction::Copy);
                        lemma_touched_is_confined(modified, tree@, node);
                        if node != 0 {
                            lemma_confined_twice(old(tree)@, modified, tree@, node);
                        }
                    }
                }
                match result {
                    Ok(()) => {},
                    Err(e) => {
                        return Err(e);
                    },
                }
            },
        }
        let ghost copied = tree@;
        match &complex_query.modifier.move_to {
            None => {},
            Some(move_expression) => {
                let result = XmlNode::move_copy_node(
                    tree,
                    node,
                    move_expression,
                    MoveCopyAction::Move,
                );
                proof {
                    if is_local_complex(complex_query@) {
                        lemma_rename_only(copied, node, move_expression@, MoveCopyAction::Move);
                        lemma_touched_is_confined(copied, tree@, node);
                        if node != 0 {
                            lemma_confined_twice(old(tree)@, copied, tree@, node);
                        }
                    }
                }
                match result {
                    Ok(()) => {},
                    Err(e) => {
                        return Err(e);
                    },
                }
            },
        }
        Ok(())
    }

    /// Applies `complex_query` to `node`. A query whose filter does not hold
    /// of `node` changes nothing. A query that asks nothing empties `node`.
    /// Any other query first hands its subqueries to the children of `node`
    /// and then carries out its `$modify`, its `$copy` and its `$move`. Where
    /// the query has subqueries and no `$modify`, and no `$move` or `$copy`
    /// at any depth names a path, a child of `node` whose name none of the
    /// selectors matches is left as it is, with everything under it, and
    /// stays a child.
    pub fn apply_complex_query(tree: &mut XmlTree, node: usize, complex_query: &ComplexQuery) -> (r:
        Result<(), PatchError>)
        requires
            old(tree).wf(),
            node < old(tree).nodes.len(),
        ensures
            final(tree).wf(),
            final(tree).root == old(tree).root,
            final(tree).nodes.len() >= old(tree).nodes.len(),
            match semantics::apply_complex_query(old(tree)@, node, complex_query@) {
                Ok(after) => r is Ok && final(tree)@ == after,
                Err((after, e)) => r == Err::<(), PatchError>(e) && final(tree)@ == after,
            },
            node != 0 && is_local_complex(complex_query@) ==> confined(
                old(tree)@,
                final(tree)@,
                node,
            ),
            node != 0 && is_local_complex(complex_query@) && complex_query@.modification is None
                && complex_query@.subqueries.len() > 0 ==> forall|j: int|
                0 <= j < old(tree)@.children(node).len() && is_unselected(
                    old(tree)@,
                    old(tree)@.children(node)[j],
                    complex_query@.subqueries,
                ) ==> spared(old(tree)@, final(tree)@, node, #[trigger] old(tree)@.children(node)[j]),
        decreases complex_query, 1nat,
    {
        proof {
            complex_query.lemma_view();
            lemma_confined_unchanged(tree@, node);
            assert forall|j: int| 0 <= j < tree@.children(node).len() implies spared(
                tree@,
                tree@,
                node,
                #[trigger] tree@.children(node)[j],
            ) by {}
        }
        match &complex_query.modifier.filter {
            None => {},
            Some(filter) => match filter.holds(tree, node) {
                Err(e) => {
                    return Err(e);
                },
                Ok(false) => {
                    return Ok(());
                },
                Ok(true) => {},
            },
        }
        if complex_query.subqueries.len() == 0 && complex_query.modification.is_none()
            && complex_query.modifier.copy.is_none() && complex_query.modifier.move_to.is_none() {
            proof {
                lemma_confined_clear(tree@, node);
            }
            tree.clear(node);
            return Ok(());
        }
        let result = Self::apply_subqueries(tree, node, complex_query);
        let ghost handed = tree@;
        match result {
            Ok(()) => {},
            Err(e) => {
                return Err(e);
            },
        }
        let result = Self::apply_modifiers(tree, node, complex_query);
        proof {
            if node != 0 && is_local_complex(complex_query@) {
                lemma_confined_twice(old(tree)@, handed, tree@, node);
                if complex_query@.modification is None {
                    let start = old(tree)@;
                    handed.lemma_children_in_bounds(node);
                    assert forall|j: int|
                        0 <= j < start.children(node).len() && is_unselected(
                            start,
                            start.children(node)[j],
                            complex_query@.subqueries,
                        ) implies spared(start, tree@, node, #[trigger] start.children(node)[j]) by {
                        let child = start.children(node)[j];
                        assert(spared(start, handed, node, child));
                        let w = choose|w: int|
                            0 <= w < handed.children(node).len() && handed.children(node)[w]
                                == child;
                        assert(node < handed.children(node)[w]);
                        assert forall|id: usize|
                            handed.holds(id) && handed.under(child, id) implies #[trigger] tree@.nodes[id as int]
                            == handed.nodes[id as int] by {
                            lemma_under_is_later(handed, child, id);
                        }
                        assert(tree@.children(node).contains(handed.children(node)[w]));
                        lemma_spared_twice(start, handed, tree@, node, child);
                    }
                }
            }
        }
        result
    }

    /// Writes `value_type` into the element `current_node`. Nothing changes
    /// but `current_node` and what lies under it.
    pub fn modify(tree: &mut XmlTree, current_node: usize, value_type: &ModificationValue) -> (r:
        Result<(), PatchError>)
        requires
            old(tree).wf(),
            current_node < old(tree).nodes.len(),
        ensures
            final(tree).wf(),
            final(tree).root == old(tree).root,
            final(tree).nodes.len() >= old(tree).nodes.len(),
            match semantics::modify(old(tree)@, current_node, value_type@) {
                Ok(after) => r is Ok && final(tree)@ == after,
                Err((after, e)) => r == Err::<(), PatchError>(e) && final(tree)@ == after,
            },
            current_node != 0 ==> confined(old(tree)@, final(tree)@, current_node),
        decreases value_type, 0nat,
    {
        match value_type {
            ModificationValue::SimpleValue(v) => {
                proof {
                    lemma_confined_clear(tree@, current_node);
                }
                tree.clear(current_node);
                let ghost cleared = tree@;
                match v.to_xml_node(tree, current_node) {
                    Err(e) => Err(e),
                    Ok(None) => Ok(()),
                    Ok(Some(text)) => {
                        if !tree.is_element(current_node) {
                            return Err(PatchError::NotAnElement);
                        }
                        tree.append_node(current_node, text);
                        proof {
                            lemma_confined_append(cleared, current_node, text@);
                            lemma_confined_twice(old(tree)@, cleared, tree@, current_node);
                        }
                        Ok(())
                    },
                }
            },
            ModificationValue::ComplexValue(complex_value) => Self::modify_by_complex_value(
                tree,
                current_node,
                complex_value,
            ),
            ModificationValue::ComplexValueVec(values) => {
                let mut i: usize = 0;
                proof {
                    lemma_confined_unchanged(tree@, current_node);
                }
                while i < values.len()
                    invariant
                        i <= values.len(),
                        value_type is ComplexValueVec,
                        value_type->ComplexValueVec_0 == values,
                        tree.wf(),
                        old(tree).wf(),
                        tree.root == old(tree).root,
                        tree.nodes.len() >= old(tree).nodes.len(),
                        current_node < old(tree).nodes.len(),
                        semantics::modify_each(
                            tree@,
                            current_node,
                            value_type@->ComplexValueVec_0,
                            i as int,
                        ) == semantics::modify_each(
                            old(tree)@,
                            current_node,
                            value_type@->ComplexValueVec_0,
                            0,
                        ),
                        current_node != 0 ==> confined(old(tree)@, tree@, current_node),
                    decreases values.len() - i,
                {
                    let ghost before = tree@;
                    let result = Self::modify_by_complex_value(tree, current_node, &values[i]);
                    proof {
                        if current_node != 0 {
                            lemma_confined_twice(old(tree)@, before, tree@, current_node);
                        }
                    }
                    match result {
                        Ok(()) => {},
                        Err(e) => {
                            return Err(e);
                        },
                    }
                    i += 1;
                }
                Ok(())
            },
        }
    }

    /// Writes `value_type` into each of `children`, which are children of
    /// `parent`, in order.
    pub fn modify_children(
        tree: &mut XmlTree,
        parent: usize,
        children: &Vec<usize>,
        value_type: &ModificationValue,
    ) -> (r: Result<(), PatchError>)
        requires
            old(tree).wf(),
            parent < old(tree).nodes.len(),
            forall|k: int|
                0 <= k < children@.len() ==> old(tree)@.children(parent).contains(
                    #[trigger] children@[k],
                ),
        ensures
            final(tree).wf(),
            final(tree).root == old(tree).root,
            final(tree).nodes.len() >= old(tree).nodes.len(),
            match semantics::modify_children(old(tree)@, children@, 0, value_type@) {
                Ok(after) => r is Ok && final(tree)@ == after,
                Err((after, e)) => r == Err::<(), PatchError>(e) && final(tree)@ == after,
            },
            parent != 0 ==> confined(old(tree)@, final(tree)@, parent),
        decreases value_type, 1nat,
    {
        let mut k: usize = 0;
        let ghost start = tree@;
        proof {
            lemma_confined_unchanged(start, parent);
            start.lemma_children_in_bounds(parent);
        }
        while k < children.len()
            invariant
                k <= children.len(),
                start == old(tree)@,
                start.wf(),
                parent < start.nodes.len(),
                tree.wf(),
                tree.root == old(tree).root,
                tree.nodes.len() >= old(tree).nodes.len(),
                are_children(start, parent, start.children(parent)),
                are_linked(start, parent, start.children(parent)),
                forall|j: int|
                    0 <= j < children@.len() ==> start.children(parent).contains(
                        #[trigger] children@[j],
                    ),
                semantics::modify_children(tree@, children@, k as int, value_type@)
                    == semantics::modify_children(start, children@, 0, value_type@),
                parent != 0 ==> confined(start, tree@, parent),
            decreases children.len() - k,
        {
            let child = children[k];
            let ghost before = tree@;
            proof {
                assert(start.children(parent).contains(children@[k as int]));
                let w = choose|w: int|
                    0 <= w < start.children(parent).len() && start.children(parent)[w] == child;
                assert(parent < start.children(parent)[w] < start.nodes.len());
                assert(is_parent_of(start, parent, start.children(parent)[w]));
            }
            let result = Self::modify(tree, child, value_type);
            proof {
                if parent != 0 {
                    assert(start.under(parent, parent));
                    assert(start.under(parent, child));
                    assert(start.holds(child));
                    assert(before.holds(child));
                    lemma_confined_inner(start, before, tree@, parent, child);
                }
            }
            match result {
                Ok(()) => {},
                Err(e) => {
                    return Err(e);
                },
            }
            k += 1;
        }
        Ok(())
    }

    /// Writes one child below the element `current_node`. The name of the
    /// child is what `mod_type` stands for at `current_node`. `Modify` writes
    /// `value_type` into every child of that name and makes one where there is
    /// none; `Replace` leaves a child of that name alone and makes one where
    /// there is none; `Add` makes a new child in any case. A child that is
    /// made is written into.
    pub fn modify_subvalue(
        tree: &mut XmlTree,
        current_node: usize,
        mod_type: &ModificationIdentifier,
        value_type: &ModificationValue,
    ) -> (r: Result<(), PatchError>)
        requires
            old(tree).wf(),
            current_node < old(tree).nodes.len(),
        ensures
            final(tree).wf(),
            final(tree).root == old(tree).root,
            final(tree).nodes.len() >= old(tree).nodes.len(),
            match semantics::modify_subvalue(old(tree)@, current_node, mod_type@, value_type@) {
                Ok(after) => r is Ok && final(tree)@ == after,
                Err((after, e)) => r == Err::<(), PatchError>(e) && final(tree)@ == after,
            },
            current_node != 0 ==> confined(old(tree)@, final(tree)@, current_node),
        decreases value_type, 2nat,
    {
        proof {
            lemma_confined_unchanged(tree@, current_node);
        }
        let name = match mod_type.identifier.evaluate(tree, current_node) {
            Ok(name) => name,
            Err(e) => {
                return Err(e);
            },
        };
        let existing = tree.children_named(current_node, name.as_str());
        proof {
            tree@.lemma_children_in_bounds(current_node);
            tree@.lemma_named_subset(current_node, tree@.children(current_node), name@);
        }
        if mod_type.mod_type.is_modify() && existing.len() > 0 {
            Self::modify_children(tree, current_node, &existing, value_type)
        } else if mod_type.mod_type.is_replace() && existing.len() > 0 {
            Ok(())
        } else {
            if !tree.is_element(current_node) {
                return Err(PatchError::NotAnElement);
            }
            let ghost made = crate::xml_structure::model::empty_element(name@);
            let new_child = tree.append_node(current_node, XmlNodeData::Element(Element::new(name)));
            let ghost appended = tree@;
            let result = Self::modify(tree, new_child, value_type);
            proof {
                if current_node != 0 {
                    lemma_confined_append(old(tree)@, current_node, made);
                    assert(old(tree)@.under(current_node, current_node));
                    lemma_confined_inner(old(tree)@, appended, tree@, current_node, new_child);
                }
            }
            result
        }
    }

    /// Writes the children that `complex_value` names below the element
    /// `current_node`, in the order in which they are written.
    pub fn modify_subvalues(
        tree: &mut XmlTree,
        current_node: usize,
        complex_value: &ComplexValue,
    ) -> (r: Result<(), PatchError>)
        requires
            old(tree).wf(),
            current_node < old(tree).nodes.len(),
        ensures
            final(tree).wf(),
            final(tree).root == old(tree).root,
            final(tree).nodes.len() >= old(tree).nodes.len(),
            match semantics::modify_subvalues(
                old(tree)@,
                current_node,
                complex_value@.subvalues,
                0,
            ) {
                Ok(after) => r is Ok && final(tree)@ == after,
                Err((after, e)) => r == Err::<(), PatchError>(e) && final(tree)@ == after,
            },
            current_node != 0 ==> confined(old(tree)@, final(tree)@, current_node),
        decreases complex_value, 0nat,
    {
        let mut i: usize = 0;
        proof {
            lemma_confined_unchanged(tree@, current_node);
        }
        while i < complex_value.subvalues.len()
            invariant
                i <= complex_value.subvalues.len(),
                tree.wf(),
                old(tree).wf(),
                tree.root == old(tree).root,
                tree.nodes.len() >= old(tree).nodes.len(),
                current_node < old(tree).nodes.len(),
                semantics::modify_subvalues(
                    tree@,
                    current_node,
                    complex_value@.subvalues,
                    i as int,
                ) == semantics::modify_subvalues(
                    old(tree)@,
                    current_node,
                    complex_value@.subvalues,
                    0,
                ),
                current_node != 0 ==> confined(old(tree)@, tree@, current_node),
            decreases complex_value.subvalues.len() - i,
        {
            proof {
                complex_value.lemma_view();
            }
            let ghost before = tree@;
            let result = Self::modify_subvalue(
                tree,
                current_node,
                &complex_value.subvalues[i].0,
                &complex_value.subvalues[i].1,
            );
            proof {
                if current_node != 0 {
                    lemma_confined_twice(old(tree)@, before, tree@, current_node);
                }
            }
            match result {
                Ok(()) => {},
                Err(e) => {
                    return Err(e);
                },
            }
            i += 1;
        }
        proof {
            complex_value.lemma_view();
        }
        Ok(())
    }

    /// Sets or removes the attributes of the element `current_node` that
    /// `attributes` names, in the order in which they are written. A value
    /// without text removes the attribute.
    pub fn patch_attributes(
        tree: &mut XmlTree,
        current_node: usize,
        attributes: &Vec<(String, SimpleValueType)>,
    ) -> (r: Result<(), PatchError>)
        requires
            old(tree).wf(),
            current_node < old(tree).nodes.len(),
        ensures
            final(tree).wf(),
            final(tree).root == old(tree).root,
            final(tree).nodes.len() >= old(tree).nodes.len(),
            match semantics::patch_attributes(
                old(tree)@,
                current_node,
                attribute_patches(attributes@),
                0,
            ) {
                Ok(after) => r is Ok && final(tree)@ == after,
                Err((after, e)) => r == Err::<(), PatchError>(e) && final(tree)@ == after,
            },
            confined(old(tree)@, final(tree)@, current_node),
    {
        let ghost patches = attribute_patches(attributes@);
        let mut j: usize = 0;
        proof {
            lemma_confined_unchanged(tree@, current_node);
        }
        while j < attributes.len()
            invariant
                j <= attributes.len(),
                patches == attribute_patches(attributes@),
                tree.wf(),
                old(tree).wf(),
                tree.root == old(tree).root,
                tree.nodes.len() >= old(tree).nodes.len(),
                current_node < old(tree).nodes.len(),
                semantics::patch_attributes(tree@, current_node, patches, j as int)
                    == semantics::patch_attributes(old(tree)@, current_node, patches, 0),
                confined(old(tree)@, tree@, current_node),
            decreases attributes.len() - j,
        {
            let value = match attributes[j].1.eval_to_string(tree, current_node) {
                Ok(value) => value,
                Err(e) => {
                    return Err(e);
                },
            };
            let ghost before = tree@;
            proof {
                lemma_confined_patch_attribute(
                    before,
                    current_node,
                    attributes@[j as int].0@,
                    optional_text(value),
                );
            }
            tree.patch_attribute(current_node, &attributes[j].0, value);
            proof {
                lemma_confined_twice(old(tree)@, before, tree@, current_node);
            }
            j += 1;
        }
        Ok(())
    }

    /// Writes the children that `complex_value` names below the element
    /// `current_node`, and then sets or removes the attributes that it names.
    pub fn modify_by_complex_value(
        tree: &mut XmlTree,
        current_node: usize,
        complex_value: &ComplexValue,
    ) -> (r: Result<(), PatchError>)
        requires
            old(tree).wf(),
            current_node < old(tree).nodes.len(),
        ensures
            final(tree).wf(),
            final(tree).root == old(tree).root,
            final(tree).nodes.len() >= old(tree).nodes.len(),
            match semantics::modify_by_complex_value(old(tree)@, current_node, complex_value@) {
                Ok(after) => r is Ok && final(tree)@ == after,
                Err((after, e)) => r == Err::<(), PatchError>(e) && final(tree)@ == after,
            },
            current_node != 0 ==> confined(old(tree)@, final(tree)@, current_node),
        decreases complex_value, 1nat,
    {
        let result = Self::modify_subvalues(tree, current_node, complex_value);
        let ghost written = tree@;
        match result {
            Ok(()) => {},
            Err(e) => {
                return Err(e);
            },
        }
        match &complex_value.attributes {
            None => Ok(()),
            Some(attributes) => {
                let result = Self::patch_attributes(tree, current_node, attributes);
                proof {
                    if current_node != 0 {
                        lemma_confined_twice(old(tree)@, written, tree@, current_node);
                    }
                }
                result
            },
        }
    }
}

} // verus!
