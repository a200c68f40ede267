//! When a filter holds of an element.

use crate::error::PatchError;
use crate::patch_structure::filter::filter_models;
use crate::patch_structure::filter::Comparator;
use crate::patch_structure::filter::Filter;
use crate::patch_structure::filter::FilterModel;
use crate::patch_structure::regex::regex_matches;
use crate::patch_structure::regex::Regex;
use crate::patch_structure::simple_value_type::eval_value;
use crate::patch_structure::simple_value_type::SimpleValueModel;
use crate::text::integer_reading;
use crate::text::push_text;
use crate::text::read_integer;
use crate::text::same_text;
use crate::xml_structure::bidirectional_xml_tree::XmlNodeData;
use crate::xml_structure::bidirectional_xml_tree::XmlTree;
use crate::xml_structure::model::are_children;
use crate::xml_structure::model::DataModel;
use crate::xml_structure::model::TreeModel;
use vstd::prelude::*;

verus! {

/// The text of an element: what its text and character-data children hold,
/// one after the other. `children[..count]` are the children taken in.
pub open spec fn text_payload(tree: TreeModel, children: Seq<usize>, count: int) -> Seq<char>
    decreases count,
{
    if count <= 0 || count > children.len() {
        Seq::empty()
    } else {
        let before = text_payload(tree, children, count - 1);
        let child = children[count - 1];
        if tree.holds(child) {
            match tree.nodes[child as int].data {
                DataModel::Text(text) => before + text,
                DataModel::CData(text) => before + text,
                _ => before,
            }
        } else {
            before
        }
    }
}

/// The text of the element `node`.
pub open spec fn element_text(tree: TreeModel, node: usize) -> Seq<char> {
    text_payload(tree, tree.children(node), tree.children(node).len() as int)
}

/// Whether `text` compares to `value` as `comparator` says. Equality is that
/// of the two texts. The order is that of whole numbers: a text that is no
/// whole number is neither smaller nor greater than anything.
pub open spec fn compares(comparator: Comparator, text: Seq<char>, value: Seq<char>) -> bool {
    match comparator {
        Comparator::Equals => text == value,
        Comparator::EqualsNot => text != value,
        _ => match (integer_reading(text), integer_reading(value)) {
            (Some(a), Some(b)) => match comparator {
                Comparator::GreaterThan => a > b,
                Comparator::GreaterEqual => a >= b,
                Comparator::LesserThan => a < b,
                _ => a <= b,
            },
            _ => false,
        },
    }
}

/// Whether the text of `node` compares to what `value` stands for at `node`
/// as `comparator` says. A value without text stands for the empty text.
pub open spec fn expression_holds(
    tree: TreeModel,
    node: usize,
    comparator: Comparator,
    value: SimpleValueModel,
) -> Result<bool, PatchError> {
    match eval_value(tree, node, value) {
        Err(e) => Err(e),
        Ok(Some(text)) => Ok(compares(comparator, element_text(tree, node), text)),
        Ok(None) => Ok(compares(comparator, element_text(tree, node), Seq::empty())),
    }
}

/// Whether `filter` holds of `node`. A list of the kind `And` holds where all
/// its members hold, and is read up to the first that does not; a list of the
/// kind `Or` holds where one member holds, and is read up to the first that
/// does. A filter on children holds where a child whose name the selector
/// matches satisfies it. A regular expression holds of an element whose name
/// it matches. A filter that asks nothing holds of an element without text.
pub open spec fn filter_holds(tree: TreeModel, node: usize, filter: FilterModel) -> Result<
    bool,
    PatchError,
>
    decreases filter, 0nat, 0nat,
{
    match filter {
        FilterModel::And(filters) => all_hold(tree, node, filters, 0),
        FilterModel::Or(filters) => one_holds(tree, node, filters, 0),
        FilterModel::Child(selector, inner) => child_holds(
            tree,
            tree.children(node),
            0,
            selector,
            *inner,
        ),
        FilterModel::Regex(regex) => Ok(
            tree.name(node) matches Some(name) && regex_matches(regex, name),
        ),
        FilterModel::Expression(comparator, value) => expression_holds(
            tree,
            node,
            comparator,
            value,
        ),
        FilterModel::NotSet => Ok(element_text(tree, node).len() == 0),
    }
}

/// Whether all of `filters[from..]` hold of `node`.
pub open spec fn all_hold(tree: TreeModel, node: usize, filters: Seq<FilterModel>, from: int)
    -> Result<bool, PatchError>
    decreases filters, filters.len() - from, 0nat,
{
    if from < 0 || from >= filters.len() {
        Ok(true)
    } else {
        match filter_holds(tree, node, filters[from]) {
            Err(e) => Err(e),
            Ok(false) => Ok(false),
            Ok(true) => all_hold(tree, node, filters, from + 1),
        }
    }
}

/// Whether one of `filters[from..]` holds of `node`.
pub open spec fn one_holds(tree: TreeModel, node: usize, filters: Seq<FilterModel>, from: int)
    -> Result<bool, PatchError>
    decreases filters, filters.len() - from, 0nat,
{
    if from < 0 || from >= filters.len() {
        Ok(false)
    } else {
        match filter_holds(tree, node, filters[from]) {
            Err(e) => Err(e),
            Ok(true) => Ok(true),
            Ok(false) => one_holds(tree, node, filters, from + 1),
        }
    }
}

/// Whether `filter` holds of one of `children[from..]` whose name `selector`
/// matches.
pub open spec fn child_holds(
    tree: TreeModel,
    children: Seq<usize>,
    from: int,
    selector: Seq<char>,
    filter: FilterModel,
) -> Result<bool, PatchError>
    decreases filter, 1nat, children.len() - from,
{
    if from < 0 || from >= children.len() {
        Ok(false)
    } else {
        let child = children[from];
        match tree.name(child) {
            Some(name) => if regex_matches(selector, name) {
                match filter_holds(tree, child, filter) {
                    Err(e) => Err(e),
                    Ok(true) => Ok(true),
                    Ok(false) => child_holds(tree, children, from + 1, selector, filter),
                }
            } else {
                child_holds(tree, children, from + 1, selector, filter)
            },
            None => child_holds(tree, children, from + 1, selector, filter),
        }
    }
}

/// Whether a query with the filter `filter` is to be applied to `node`: a
/// query without filter always is.
pub open spec fn passes(tree: TreeModel, node: usize, filter: Option<FilterModel>) -> Result<
    bool,
    PatchError,
> {
    match filter {
        None => Ok(true),
        Some(f) => filter_holds(tree, node, f),
    }
}

/// Whether `text` compares to `value` as `comparator` says.
pub fn compare_texts(comparator: Comparator, text: &str, value: &str) -> (r: bool)
    ensures
        r == compares(comparator, text@, value@),
{
    match comparator {
        Comparator::Equals => same_text(text, value),
        Comparator::EqualsNot => !same_text(text, value),
        _ => match (read_integer(text), read_integer(value)) {
            (Some(a), Some(b)) => match comparator {
                Comparator::GreaterThan => a > b,
                Comparator::GreaterEqual => a >= b,
                Comparator::LesserThan => a < b,
                _ => a <= b,
            },
            _ => false,
        },
    }
}

impl XmlTree {
    /// The text of the element `node`: what its text and character-data
    /// children hold, one after the other.
    pub fn element_text(&self, node: usize) -> (r: String)
        requires
            self.wf(),
            node < self.nodes.len(),
        ensures
            r@ == element_text(self@, node),
    {
        let walk = self.nodes[node].children();
        let mut text = String::new();
        let mut k: usize = 0;
        proof {
            self@.lemma_children_in_bounds(node);
        }
        while k < walk.nodes.len()
            invariant
                k <= walk.nodes.len(),
                walk.nodes@ == self@.children(node),
                are_children(self@, node, walk.nodes@),
                text@ == text_payload(self@, walk.nodes@, k as int),
            decreases walk.nodes.len() - k,
        {
            let child = walk.nodes[k];
            assert(node < walk.nodes@[k as int] < self.nodes.len());
            match &self.nodes[child].data {
                XmlNodeData::Text(t) => {
                    push_text(&mut text, t.as_str());
                },
                XmlNodeData::CData(t) => {
                    push_text(&mut text, t.as_str());
                },
                _ => {},
            }
            k += 1;
        }
        text
    }
}

impl Filter {
    /// Whether `filter` holds of one of the children of `node` whose name
    /// `selector` matches.
    pub fn child_holds(tree: &XmlTree, node: usize, selector: &Regex, filter: &Filter) -> (r:
        Result<bool, PatchError>)
        requires
            tree.wf(),
            node < tree.nodes.len(),
        ensures
            r == child_holds(tree@, tree@.children(node), 0, selector@, filter@),
        decreases filter, 1nat,
    {
        let walk = tree.nodes[node].children();
        let mut k: usize = 0;
        proof {
            tree@.lemma_children_in_bounds(node);
        }
        while k < walk.nodes.len()
            invariant
                k <= walk.nodes.len(),
                tree.wf(),
                walk.nodes@ == tree@.children(node),
                are_children(tree@, node, walk.nodes@),
                child_holds(tree@, walk.nodes@, k as int, selector@, filter@) == child_holds(
                    tree@,
                    walk.nodes@,
                    0,
                    selector@,
                    filter@,
                ),
            decreases walk.nodes.len() - k,
        {
            let child = walk.nodes[k];
            assert(node < walk.nodes@[k as int] < tree.nodes.len());
            let matched = match tree.nodes[child].name() {
                Some(name) => selector.is_match(name.as_str()),
                None => false,
            };
            if matched {
                match filter.holds(tree, child) {
                    Err(e) => {
                        return Err(e);
                    },
                    Ok(true) => {
                        return Ok(true);
                    },
                    Ok(false) => {},
                }
            }
            k += 1;
        }
        Ok(false)
    }

    /// Whether the filter holds of the element `node`.
    pub fn holds(&self, tree: &XmlTree, node: usize) -> (r: Result<bool, PatchError>)
        requires
            tree.wf(),
            node < tree.nodes.len(),
        ensures
            r == filter_holds(tree@, node, self@),
        decreases self, 0nat,
    {
        proof {
            self.lemma_view();
        }
        match self {
            Filter::And(filters) => {
                let mut i: usize = 0;
                while i < filters.len()
                    invariant
                        i <= filters.len(),
                        self is And,
                        self->And_0 == filters,
                        self@ == FilterModel::And(filter_models(filters@)),
                        tree.wf(),
                        node < tree.nodes.len(),
                        all_hold(tree@, node, filter_models(filters@), i as int) == all_hold(
                            tree@,
                            node,
                            filter_models(filters@),
                            0,
                        ),
                    decreases filters.len() - i,
                {
                    match filters[i].holds(tree, node) {
                        Err(e) => {
                            return Err(e);
                        },
                        Ok(false) => {
                            return Ok(false);
                        },
                        Ok(true) => {},
                    }
                    i += 1;
                }
                Ok(true)
            },
            Filter::Or(filters) => {
                let mut i: usize = 0;
                while i < filters.len()
                    invariant
                        i <= filters.len(),
                        self is Or,
                        self->Or_0 == filters,
                        self@ == FilterModel::Or(filter_models(filters@)),
                        tree.wf(),
                        node < tree.nodes.len(),
                        one_holds(tree@, node, filter_models(filters@), i as int) == one_holds(
                            tree@,
                            node,
                            filter_models(filters@),
                            0,
                        ),
                    decreases filters.len() - i,
                {
                    match filters[i].holds(tree, node) {
                        Err(e) => {
                            return Err(e);
                        },
                        Ok(true) => {
                            return Ok(true);
                        },
                        Ok(false) => {},
                    }
                    i += 1;
                }
                Ok(false)
            },
            Filter::Child(pair) => {
                let r = Filter::child_holds(tree, node, &pair.0, &*pair.1);
                assert(self@ == FilterModel::Child(pair.0@, Box::new((*pair.1)@)));
                assert(r == filter_holds(tree@, node, self@));
                r
            },
            Filter::Regex(regex) => {
                let r = match tree.nodes[node].name() {
                    Some(name) => Ok(regex.is_match(name.as_str())),
                    None => Ok(false),
                };
                assert(self@ == FilterModel::Regex(regex@));
                assert(r == filter_holds(tree@, node, self@));
                r
            },
            Filter::Expression(comparator, value) => {
                let text = tree.element_text(node);
                match value.eval_to_string(tree, node) {
                    Err(e) => Err(e),
                    Ok(Some(value)) => Ok(compare_texts(*comparator, text.as_str(), value.as_str())),
                    Ok(None) => {
                        let nothing = String::new();
                        Ok(compare_texts(*comparator, text.as_str(), nothing.as_str()))
                    },
                }
            },
            Filter::NotSet => {
                let text = tree.element_text(node);
                Ok(text.as_str().is_empty())
            },
        }
    }
}

} // verus!
