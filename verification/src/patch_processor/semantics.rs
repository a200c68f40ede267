//! What a patch means: the tree that results from applying a query to a tree,
//! as a function of both.
//!
//! Every function here returns the new tree, or the error that makes the whole
//! patch fail, beside the tree as it stands when the error comes: the work
//! that was done before it is not undone. Lists are worked off from the
//! front; the functions that do so take the position at which to go on.

use crate::error::PatchError;
use crate::patch_processor::filtering::passes;
use crate::patch_structure::modification_type::ModificationIdentifierModel;
use crate::patch_structure::modification_type::ModificationType;
use crate::patch_structure::query::ComplexQueryModel;
use crate::patch_structure::query::QueryModel;
use crate::patch_structure::reference_expression::eval_expression;
use crate::patch_structure::refex_segment::SegmentModel;
use crate::patch_structure::regex::regex_matches;
use crate::patch_structure::simple_value_type::eval_value;
use crate::patch_structure::simple_value_type::SimpleValueModel;
use crate::patch_structure::value::ComplexValueModel;
use crate::patch_structure::value::ModificationValueModel;
use crate::text::split_seq;
use crate::xml_structure::bidirectional_xml_tree::MoveCopyAction;
use crate::xml_structure::model::empty_element;
use crate::xml_structure::model::internal_root;
use crate::xml_structure::model::DataModel;
use crate::xml_structure::model::TreeModel;
use vstd::prelude::*;

verus! {

/// The tree after `node` was renamed, moved or copied as the text of a
/// `$move` or `$copy` says. The text is a path and a name with `/` between
/// them. A name that is not empty renames `node`. A path that is not empty is
/// walked from the parent of `node`, making what is missing, and a copy of
/// `node` is hung at its end; a move also detaches `node` from where it was.
/// Where this fails, nothing is detached and nothing copied: `node` has its
/// new name where the text gives one and `node` is an element, and the
/// elements that the walk made before it failed stay. A node without a parent
/// cannot be moved, and for it no element is made.
pub open spec fn move_copy_to(tree: TreeModel, node: usize, text: Seq<char>, action: MoveCopyAction)
    -> Result<TreeModel, (TreeModel, PatchError)> {
    let parts = split_seq(text, '/');
    let new_name = parts.last();
    let path = parts.drop_last();
    if new_name.len() > 0 && !tree.is_element(node) {
        Err((tree, PatchError::NotAnElement))
    } else {
        let renamed = if new_name.len() > 0 {
            tree.set_name(node, new_name)
        } else {
            tree
        };
        if path.len() == 0 {
            Ok(renamed)
        } else {
            match renamed.parent(node) {
                None => Err((renamed, PatchError::MoveOfRoot)),
                Some(parent) => match renamed.resolve_path(parent, path, true) {
                    Err(failed) => Err(failed),
                    Ok((resolved, target)) => if !resolved.is_element(target) {
                        Err((resolved, PatchError::NotAnElement))
                    } else {
                        let copy = resolved.nodes.len() as usize;
                        let cloned = resolved.deep_clone(node);
                        match action {
                            MoveCopyAction::Move => Ok(cloned.remove(node).attach(copy, target)),
                            MoveCopyAction::Copy => Ok(cloned.attach(copy, target)),
                        }
                    },
                },
            }
        }
    }
}

/// The tree after `node` was renamed, moved or copied as `expression` says
/// when it is evaluated at `node`. Where `expression` cannot be evaluated,
/// the tree stays as it is.
pub open spec fn move_copy(
    tree: TreeModel,
    node: usize,
    expression: Seq<SegmentModel>,
    action: MoveCopyAction,
) -> Result<TreeModel, (TreeModel, PatchError)> {
    match eval_expression(tree, node, expression) {
        Ok(text) => move_copy_to(tree, node, text, action),
        Err(e) => Err((tree, e)),
    }
}

/// The tree after the text of the element `node` was replaced by what `value`
/// stands for, or after `node` was detached where `value` asks for removal.
pub open spec fn apply_simple(tree: TreeModel, node: usize, value: SimpleValueModel) -> Result<
    TreeModel,
    (TreeModel, PatchError),
> {
    match eval_value(tree, node, value) {
        Err(e) => Err((tree, e)),
        Ok(None) => Ok(tree.remove(node)),
        Ok(Some(text)) => if !tree.is_element(node) {
            Err((tree, PatchError::NotAnElement))
        } else {
            Ok(tree.clear_children(node).append(node, DataModel::Text(text)))
        },
    }
}

/// The tree after the children of the element `node` were replaced by the
/// text that `value` stands for; without children where `value` asks for
/// removal.
pub open spec fn modify_simple(tree: TreeModel, node: usize, value: SimpleValueModel) -> Result<
    TreeModel,
    (TreeModel, PatchError),
> {
    let cleared = tree.clear_children(node);
    match eval_value(cleared, node, value) {
        Err(e) => Err((cleared, e)),
        Ok(None) => Ok(cleared),
        Ok(Some(text)) => if !cleared.is_element(node) {
            Err((cleared, PatchError::NotAnElement))
        } else {
            Ok(cleared.append(node, DataModel::Text(text)))
        },
    }
}

/// The tree after the attributes `patches[from..]` of the element `node` were
/// set or removed, in order.
pub open spec fn patch_attributes(
    tree: TreeModel,
    node: usize,
    patches: Seq<(Seq<char>, SimpleValueModel)>,
    from: int,
) -> Result<TreeModel, (TreeModel, PatchError)>
    decreases patches.len() - from,
{
    if from < 0 || from >= patches.len() {
        Ok(tree)
    } else {
        match eval_value(tree, node, patches[from].1) {
            Err(e) => Err((tree, e)),
            Ok(value) => patch_attributes(
                tree.patch_attribute(node, patches[from].0, value),
                node,
                patches,
                from + 1,
            ),
        }
    }
}

/// The tree after `value` was written into the element `node`.
pub open spec fn modify(tree: TreeModel, node: usize, value: ModificationValueModel) -> Result<
    TreeModel,
    (TreeModel, PatchError),
>
    decreases value, 0nat, 0nat,
{
    match value {
        ModificationValueModel::SimpleValue(v) => modify_simple(tree, node, v),
        ModificationValueModel::ComplexValue(v) => modify_by_complex_value(tree, node, v),
        ModificationValueModel::ComplexValueVec(values) => modify_each(tree, node, values, 0),
    }
}

/// The tree after the values `values[from..]` were written into the element
/// `node`, one after the other.
pub open spec fn modify_each(
    tree: TreeModel,
    node: usize,
    values: Seq<ComplexValueModel>,
    from: int,
) -> Result<TreeModel, (TreeModel, PatchError)>
    decreases values, values.len() - from, 0nat,
{
    if from < 0 || from >= values.len() {
        Ok(tree)
    } else {
        match modify_by_complex_value(tree, node, values[from]) {
            Err(e) => Err(e),
            Ok(after) => modify_each(after, node, values, from + 1),
        }
    }
}

/// The tree after the children that `value` names were written below the
/// element `node`, and then its attributes were patched.
pub open spec fn modify_by_complex_value(tree: TreeModel, node: usize, value: ComplexValueModel)
    -> Result<TreeModel, (TreeModel, PatchError)>
    decreases value, 0nat, 0nat,
{
    match modify_subvalues(tree, node, value.subvalues, 0) {
        Err(e) => Err(e),
        Ok(after) => match value.attributes {
            None => Ok(after),
            Some(patches) => patch_attributes(after, node, patches, 0),
        },
    }
}

/// The tree after the children that `subvalues[from..]` name were written
/// below the element `node`, in order.
pub open spec fn modify_subvalues(
    tree: TreeModel,
    node: usize,
    subvalues: Seq<(ModificationIdentifierModel, ModificationValueModel)>,
    from: int,
) -> Result<TreeModel, (TreeModel, PatchError)>
    decreases subvalues, subvalues.len() - from, 0nat,
{
    if from < 0 || from >= subvalues.len() {
        Ok(tree)
    } else {
        match modify_subvalue(tree, node, subvalues[from].0, subvalues[from].1) {
            Err(e) => Err(e),
            Ok(after) => modify_subvalues(after, node, subvalues, from + 1),
        }
    }
}

/// The tree after one child was written below the element `node`. The name of
/// the child is what `identifier` stands for at `node`. `Modify` writes
/// `value` into every child of that name and makes one where there is none;
/// `Replace` leaves a child of that name alone and makes one where there is
/// none; `Add` makes a new child in any case. A child that is made is written
/// into.
pub open spec fn modify_subvalue(
    tree: TreeModel,
    node: usize,
    identifier: ModificationIdentifierModel,
    value: ModificationValueModel,
) -> Result<TreeModel, (TreeModel, PatchError)>
    decreases value, 2nat, 0nat,
{
    match eval_expression(tree, node, identifier.identifier) {
        Err(e) => Err((tree, e)),
        Ok(name) => {
            let existing = tree.named(tree.children(node), name);
            if identifier.mod_type == ModificationType::Modify && existing.len() > 0 {
                modify_children(tree, existing, 0, value)
            } else if identifier.mod_type == ModificationType::Replace && existing.len() > 0 {
                Ok(tree)
            } else if !tree.is_element(node) {
                Err((tree, PatchError::NotAnElement))
            } else {
                modify(tree.append(node, empty_element(name)), tree.nodes.len() as usize, value)
            }
        },
    }
}

/// The tree after `value` was written into each of `children[from..]`, in
/// order.
pub open spec fn modify_children(
    tree: TreeModel,
    children: Seq<usize>,
    from: int,
    value: ModificationValueModel,
) -> Result<TreeModel, (TreeModel, PatchError)>
    decreases value, 1nat, children.len() - from,
{
    if from < 0 || from >= children.len() {
        Ok(tree)
    } else {
        match modify(tree, children[from], value) {
            Err(e) => Err(e),
            Ok(after) => modify_children(after, children, from + 1, value),
        }
    }
}

/// Whether a complex query asks nothing at all: such a query empties the
/// element it is applied to.
pub open spec fn is_empty_query(query: ComplexQueryModel) -> bool {
    &&& query.subqueries.len() == 0
    &&& query.modification is None
    &&& query.modifier.copy is None
    &&& query.modifier.move_to is None
}

/// The tree after `query` was applied to `node`.
pub open spec fn apply_query(tree: TreeModel, node: usize, query: QueryModel) -> Result<
    TreeModel,
    (TreeModel, PatchError),
>
    decreases query, 0nat, 0nat,
{
    match query {
        QueryModel::Simple(value) => apply_simple(tree, node, value),
        QueryModel::Complex(q) => apply_complex_query(tree, node, q),
        QueryModel::ComplexVec(queries) => apply_each(tree, node, queries, 0),
    }
}

/// The tree after the queries `queries[from..]` were applied to `node`, one
/// after the other.
pub open spec fn apply_each(
    tree: TreeModel,
    node: usize,
    queries: Seq<ComplexQueryModel>,
    from: int,
) -> Result<TreeModel, (TreeModel, PatchError)>
    decreases queries, queries.len() - from, 0nat,
{
    if from < 0 || from >= queries.len() {
        Ok(tree)
    } else {
        match apply_complex_query(tree, node, queries[from]) {
            Err(e) => Err(e),
            Ok(after) => apply_each(after, node, queries, from + 1),
        }
    }
}

/// The tree after the reserved keys of `query` were carried out on `node`:
/// first `$modify`, then `$copy`, then `$move`.
pub open spec fn apply_modifiers(tree: TreeModel, node: usize, query: ComplexQueryModel) -> Result<
    TreeModel,
    (TreeModel, PatchError),
>
    decreases query, 0nat, 0nat,
{
    let modified = match query.modification {
        None => Ok(tree),
        Some(value) => modify(tree, node, value),
    };
    match modified {
        Err(e) => Err(e),
        Ok(modified) => {
            let copied = match query.modifier.copy {
                None => Ok(modified),
                Some(expression) => move_copy(modified, node, expression, MoveCopyAction::Copy),
            };
            match copied {
                Err(e) => Err(e),
                Ok(copied) => match query.modifier.move_to {
                    None => Ok(copied),
                    Some(expression) => move_copy(copied, node, expression, MoveCopyAction::Move),
                },
            }
        },
    }
}

/// The tree after `query` was applied to `node`. A query whose filter does
/// not hold of `node` changes nothing. A query that asks nothing empties
/// `node`. Any other query first hands its subqueries to the children of
/// `node` and then carries out its `$modify`, `$copy` and `$move`.
pub open spec fn apply_complex_query(tree: TreeModel, node: usize, query: ComplexQueryModel)
    -> Result<TreeModel, (TreeModel, PatchError)>
    decreases query, 1nat, 0nat,
{
    match passes(tree, node, query.modifier.filter) {
        Err(e) => Err((tree, e)),
        Ok(false) => Ok(tree),
        Ok(true) => if is_empty_query(query) {
            Ok(tree.clear_children(node))
        } else {
            match apply_subqueries(tree, node, query.subqueries, 0) {
                Err(e) => Err(e),
                Ok(after) => apply_modifiers(after, node, query),
            }
        },
    }
}

/// The tree after the subqueries `subqueries[from..]` were handed to the
/// children of `node`, in order. Each subquery sees the children that `node`
/// has when its turn comes.
pub open spec fn apply_subqueries(
    tree: TreeModel,
    node: usize,
    subqueries: Seq<(Seq<char>, QueryModel)>,
    from: int,
) -> Result<TreeModel, (TreeModel, PatchError)>
    decreases subqueries, subqueries.len() - from, 0nat,
{
    if from < 0 || from >= subqueries.len() {
        Ok(tree)
    } else {
        match apply_to_children(
            tree,
            tree.children(node),
            0,
            subqueries[from].0,
            subqueries[from].1,
        ) {
            Err(e) => Err(e),
            Ok(after) => apply_subqueries(after, node, subqueries, from + 1),
        }
    }
}

/// The tree after `query` was applied to those of `children[from..]` that are
/// elements whose name `selector` matches when their turn comes. While the
/// query is applied to a child, the child carries the selector.
pub open spec fn apply_to_children(
    tree: TreeModel,
    children: Seq<usize>,
    from: int,
    selector: Seq<char>,
    query: QueryModel,
) -> Result<TreeModel, (TreeModel, PatchError)>
    decreases query, 1nat, children.len() - from,
{
    if from < 0 || from >= children.len() {
        Ok(tree)
    } else {
        let child = children[from];
        match tree.name(child) {
            Some(name) => if regex_matches(selector, name) {
                match apply_query(tree.set_regex(child, Some(selector)), child, query) {
                    Err(e) => Err(e),
                    Ok(after) => apply_to_children(
                        after.set_regex(child, None),
                        children,
                        from + 1,
                        selector,
                        query,
                    ),
                }
            } else {
                apply_to_children(tree, children, from + 1, selector, query)
            },
            None => apply_to_children(tree, children, from + 1, selector, query),
        }
    }
}

/// The tree after `query` was applied to the whole document: the synthetic
/// element above the root is set up with the root as its only child, and the
/// query is applied to it.
pub open spec fn apply_patch(tree: TreeModel, root: usize, query: QueryModel) -> Result<
    TreeModel,
    (TreeModel, PatchError),
> {
    apply_query(tree.with_data(0, internal_root(root)), 0, query)
}

} // verus!
