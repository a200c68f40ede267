//! Filters: predicates on elements, written under `$if`.

use crate::error::PatchError;
use crate::patch_structure::regex::anchored;
use crate::patch_structure::regex::regex_compiles;
use crate::patch_structure::regex::Regex;
use crate::patch_structure::simple_value_type::decode_simple;
use crate::patch_structure::simple_value_type::SimpleValueModel;
use crate::patch_structure::simple_value_type::SimpleValueType;
use crate::text::chars_of;
use crate::text::string_of_range;
use crate::yaml::parse_yaml;
use crate::yaml::yaml_document;
use crate::yaml::YamlModel;
use crate::yaml::YamlNode;
use vstd::prelude::*;

verus! {

/// How the filters of a list are combined.
#[derive(Debug, Clone, Copy, PartialEq, Eq, Structural)]
pub enum FilterVariant {
    And,
    Or,
}

/// How a value is compared.
#[derive(Debug, Clone, Copy, PartialEq, Eq, Structural)]
pub enum Comparator {
    Equals,
    EqualsNot,
    GreaterThan,
    GreaterEqual,
    LesserThan,
    LesserEqual,
}

/// A predicate on an element.
#[derive(Debug, PartialEq, Eq)]
pub enum Filter {
    /// All of these hold.
    And(Vec<Filter>),
    /// One of these holds.
    Or(Vec<Filter>),
    /// A child whose name matches the selector satisfies the filter.
    Child((Regex, Box<Filter>)),
    /// The name matches the expression.
    Regex(Regex),
    /// The text compares to the value as the comparator says.
    Expression(Comparator, SimpleValueType),
    /// Nothing is asked.
    NotSet,
}

/// What a `Filter` stands for.
pub enum FilterModel {
    And(Seq<FilterModel>),
    Or(Seq<FilterModel>),
    Child(Seq<char>, Box<FilterModel>),
    Regex(Seq<char>),
    Expression(Comparator, SimpleValueModel),
    NotSet,
}

/// The views of the first `count` of `filters`.
pub open spec fn first_filter_models(filters: Seq<Filter>, count: nat) -> Seq<FilterModel>
    decreases filters, count,
{
    if count == 0 || count > filters.len() {
        Seq::empty()
    } else {
        first_filter_models(filters, (count - 1) as nat).push(filters[count - 1]@)
    }
}

impl View for Filter {
    type V = FilterModel;

    open spec fn view(&self) -> FilterModel
        decreases self,
    {
        match self {
            Filter::And(filters) => FilterModel::And(
                first_filter_models(filters@, filters@.len()),
            ),
            Filter::Or(filters) => FilterModel::Or(first_filter_models(filters@, filters@.len())),
            Filter::Child(pair) => FilterModel::Child(pair.0@, Box::new((*pair.1)@)),
            Filter::Regex(regex) => FilterModel::Regex(regex@),
            Filter::Expression(comparator, value) => FilterModel::Expression(*comparator, value@),
            Filter::NotSet => FilterModel::NotSet,
        }
    }
}

/// The views of a list of filters.
pub open spec fn filter_models(filters: Seq<Filter>) -> Seq<FilterModel> {
    Seq::new(filters.len(), |i: int| filters[i]@)
}

/// The views of the first filters of a list are the first of the views.
pub proof fn lemma_first_filter_models(filters: Seq<Filter>, count: nat)
    requires
        count <= filters.len(),
    ensures
        first_filter_models(filters, count) == filter_models(filters).take(count as int),
    decreases count,
{
    reveal_with_fuel(first_filter_models, 2);
    if count > 0 {
        lemma_first_filter_models(filters, (count - 1) as nat);
        assert(first_filter_models(filters, count) == first_filter_models(
            filters,
            (count - 1) as nat,
        ).push(filters[count - 1]@));
        assert(first_filter_models(filters, count) =~= filter_models(filters).take(count as int));
    } else {
        assert(first_filter_models(filters, count) =~= filter_models(filters).take(count as int));
    }
}

impl Filter {
    /// The view of a list of filters holds the views of the filters.
    pub proof fn lemma_view(&self)
        ensures
            self is And ==> self@ == FilterModel::And(filter_models(self->And_0@)),
            self is Or ==> self@ == FilterModel::Or(filter_models(self->Or_0@)),
    {
        if self is And {
            let filters = self->And_0@;
            lemma_first_filter_models(filters, filters.len());
            assert(filter_models(filters).take(filters.len() as int) =~= filter_models(filters));
        }
        if self is Or {
            let filters = self->Or_0@;
            lemma_first_filter_models(filters, filters.len());
            assert(filter_models(filters).take(filters.len() as int) =~= filter_models(filters));
        }
    }
}

/// What is left of a regular-expression literal when the `^` in front and a
/// `$` at the end are taken away.
pub open spec fn regex_literal_body(text: Seq<char>) -> Seq<char> {
    if text.len() >= 2 && text.last() == '$' {
        text.subrange(1, text.len() - 1)
    } else {
        text.subrange(1, text.len() as int)
    }
}

/// The comparator that a text begins with, and the number of characters that
/// it takes. A text without comparator in front means equality.
pub open spec fn comparator_prefix(text: Seq<char>) -> (Comparator, int) {
    if text.len() >= 2 && text[0] == '<' && text[1] == '=' {
        (Comparator::LesserEqual, 2)
    } else if text.len() >= 2 && text[0] == '>' && text[1] == '=' {
        (Comparator::GreaterEqual, 2)
    } else if text.len() >= 2 && text[0] == '!' && text[1] == '=' {
        (Comparator::EqualsNot, 2)
    } else if text.len() >= 1 && text[0] == '<' {
        (Comparator::LesserThan, 1)
    } else if text.len() >= 1 && text[0] == '>' {
        (Comparator::GreaterThan, 1)
    } else if text.len() >= 1 && text[0] == '=' {
        (Comparator::Equals, 1)
    } else {
        (Comparator::Equals, 0)
    }
}

/// The filter that a string stands for. A string that begins with `^` is a
/// regular expression. Any other string is a comparison: a comparator in
/// front, if there is one, and after it a scalar, which is read as YAML.
pub open spec fn filter_of_text(text: Seq<char>) -> Result<FilterModel, PatchError> {
    if text.len() > 0 && text[0] == '^' {
        let pattern = anchored(regex_literal_body(text));
        if regex_compiles(pattern) {
            Ok(FilterModel::Regex(pattern))
        } else {
            Err(PatchError::InvalidPattern)
        }
    } else {
        let (comparator, taken) = comparator_prefix(text);
        match yaml_document(text.subrange(taken, text.len() as int)) {
            None => Err(PatchError::MalformedYaml),
            Some(value) => match decode_simple(value) {
                Ok(v) => Ok(FilterModel::Expression(comparator, v)),
                Err(e) => Err(e),
            },
        }
    }
}

/// The list `filters` with `filter` added. A filter that is itself a list of
/// the kind `variant` is not added as one filter: its members are.
pub open spec fn merged(filters: Seq<FilterModel>, filter: FilterModel, variant: FilterVariant)
    -> Seq<FilterModel> {
    match (variant, filter) {
        (FilterVariant::And, FilterModel::And(members)) => filters + members,
        (FilterVariant::Or, FilterModel::Or(members)) => filters + members,
        _ => filters.push(filter),
    }
}

/// The list of the kind `variant` that holds `filters`.
pub open spec fn combined(filters: Seq<FilterModel>, variant: FilterVariant) -> FilterModel {
    match variant {
        FilterVariant::And => FilterModel::And(filters),
        FilterVariant::Or => FilterModel::Or(filters),
    }
}

/// The text `$and`.
pub open spec fn and_key() -> Seq<char> {
    seq!['$', 'a', 'n', 'd']
}

/// The text `$or`.
pub open spec fn or_key() -> Seq<char> {
    seq!['$', 'o', 'r']
}

/// The filter that a YAML value stands for, where lists met on the way are of
/// the kind `variant`.
pub open spec fn decode_filter(value: YamlModel, variant: FilterVariant) -> Result<
    FilterModel,
    PatchError,
>
    decreases value, 0nat,
{
    match value {
        YamlModel::Null => Ok(FilterModel::NotSet),
        YamlModel::Bool(b) => Ok(
            FilterModel::Expression(Comparator::Equals, SimpleValueModel::Boolean(b)),
        ),
        YamlModel::Unsigned(n) => Ok(
            FilterModel::Expression(Comparator::Equals, SimpleValueModel::UnsignedInteger(n)),
        ),
        YamlModel::Signed(n) => Ok(
            FilterModel::Expression(Comparator::Equals, SimpleValueModel::SignedInteger(n)),
        ),
        YamlModel::Float(_) => Err(PatchError::UnexpectedShape),
        YamlModel::Text(text) => filter_of_text(text),
        YamlModel::Sequence(items) => match decode_filter_items(items, 0, variant, Seq::empty()) {
            Ok(filters) => Ok(combined(filters, variant)),
            Err(e) => Err(e),
        },
        YamlModel::Mapping(entries) => match decode_filter_entries(
            entries,
            0,
            variant,
            Seq::empty(),
        ) {
            Ok(filters) => if filters.len() == 1 {
                Ok(filters[0])
            } else {
                Ok(combined(filters, variant))
            },
            Err(e) => Err(e),
        },
    }
}

/// The filters that `items[from..]` stand for, added to `filters` in order.
pub open spec fn decode_filter_items(
    items: Seq<YamlModel>,
    from: int,
    variant: FilterVariant,
    filters: Seq<FilterModel>,
) -> Result<Seq<FilterModel>, PatchError>
    decreases items, items.len() - from,
{
    if from < 0 || from >= items.len() {
        Ok(filters)
    } else {
        match decode_filter(items[from], variant) {
            Ok(filter) => decode_filter_items(
                items,
                from + 1,
                variant,
                merged(filters, filter, variant),
            ),
            Err(e) => Err(e),
        }
    }
}

/// The filters that the entries `entries[from..]` of a mapping stand for,
/// added to `filters` in order. The key `$and` holds filters that all have to
/// hold, the key `$or` filters of which one has to hold; any other key is a
/// selector, and its value a filter on the children that it matches.
pub open spec fn decode_filter_entries(
    entries: Seq<(YamlModel, YamlModel)>,
    from: int,
    variant: FilterVariant,
    filters: Seq<FilterModel>,
) -> Result<Seq<FilterModel>, PatchError>
    decreases entries, entries.len() - from,
{
    if from < 0 || from >= entries.len() {
        Ok(filters)
    } else {
        match entries[from].0 {
            YamlModel::Text(key) => if !regex_compiles(anchored(key)) {
                Err(PatchError::InvalidPattern)
            } else if key == and_key() {
                match decode_filter(entries[from].1, FilterVariant::And) {
                    Ok(filter) => decode_filter_entries(
                        entries,
                        from + 1,
                        variant,
                        if variant == FilterVariant::And {
                            merged(filters, filter, variant)
                        } else {
                            filters.push(filter)
                        },
                    ),
                    Err(e) => Err(e),
                }
            } else if key == or_key() {
                match decode_filter(entries[from].1, FilterVariant::Or) {
                    Ok(filter) => decode_filter_entries(
                        entries,
                        from + 1,
                        variant,
                        if variant == FilterVariant::Or {
                            merged(filters, filter, variant)
                        } else {
                            filters.push(filter)
                        },
                    ),
                    Err(e) => Err(e),
                }
            } else {
                match decode_filter(entries[from].1, variant) {
                    Ok(filter) => decode_filter_entries(
                        entries,
                        from + 1,
                        variant,
                        filters.push(FilterModel::Child(anchored(key), Box::new(filter))),
                    ),
                    Err(e) => Err(e),
                }
            },
            _ => Err(PatchError::UnexpectedShape),
        }
    }
}

/// Adds `filter` to `filters`. A filter that is itself a list of the kind
/// `variant` is not added as one filter: its members are.
fn merge_into(filters: &mut Vec<Filter>, filter: Filter, variant: FilterVariant)
    ensures
        filter_models(final(filters)@) == merged(filter_models(old(filters)@), filter@, variant),
{
    proof {
        filter.lemma_view();
    }
    let ghost before = filter_models(filters@);
    match (variant, filter) {
        (FilterVariant::And, Filter::And(mut members)) => {
            let ghost added = filter_models(members@);
            filters.append(&mut members);
            assert(filter_models(filters@) =~= before + added);
        },
        (FilterVariant::Or, Filter::Or(mut members)) => {
            let ghost added = filter_models(members@);
            filters.append(&mut members);
            assert(filter_models(filters@) =~= before + added);
        },
        (_, other) => {
            filters.push(other);
            assert(filter_models(filters@) =~= before.push(other@));
        },
    }
}

/// The list of the kind `variant` that holds `filters`.
fn combine(filters: Vec<Filter>, variant: FilterVariant) -> (r: Filter)
    ensures
        r@ == combined(filter_models(filters@), variant),
{
    let r = match variant {
        FilterVariant::And => Filter::And(filters),
        FilterVariant::Or => Filter::Or(filters),
    };
    proof {
        r.lemma_view();
    }
    r
}

impl Filter {
    /// The filter that a truth value stands for.
    pub fn visit_bool(v: bool) -> (r: Filter)
        ensures
            r@ == FilterModel::Expression(Comparator::Equals, SimpleValueModel::Boolean(v)),
    {
        Filter::Expression(Comparator::Equals, SimpleValueType::Boolean(v))
    }

    /// The filter that a signed number stands for.
    pub fn visit_i64(v: i64) -> (r: Filter)
        ensures
            r@ == FilterModel::Expression(Comparator::Equals, SimpleValueModel::SignedInteger(v)),
    {
        Filter::Expression(Comparator::Equals, SimpleValueType::SignedInteger(v))
    }

    /// The filter that an unsigned number stands for.
    pub fn visit_u64(v: u64) -> (r: Filter)
        ensures
            r@ == FilterModel::Expression(Comparator::Equals, SimpleValueModel::UnsignedInteger(v)),
    {
        Filter::Expression(Comparator::Equals, SimpleValueType::UnsignedInteger(v))
    }

    /// The filter that `null` stands for.
    pub fn visit_unit() -> (r: Filter)
        ensures
            r@ == FilterModel::NotSet,
    {
        Filter::NotSet
    }

    /// The filter that a string stands for. A string that begins with `^` is
    /// a regular expression. Any other string is a comparison: a comparator
    /// in front, if there is one, and after it a scalar, which is read as
    /// YAML.
    pub fn visit_str(s: &str) -> (r: Result<Filter, PatchError>)
        ensures
            match filter_of_text(s@) {
                Ok(model) => r matches Ok(filter) && filter@ == model,
                Err(e) => r matches Err(f) && f == e,
            },
    {
        let chars = chars_of(s);
        let n = chars.len();
        if n > 0 && chars[0] == '^' {
            let end = if n >= 2 && chars[n - 1] == '$' {
                n - 1
            } else {
                n
            };
            let body = string_of_range(&chars, 1, end);
            return match Regex::from(body.as_str()) {
                Ok(regex) => Ok(Filter::Regex(regex)),
                Err(e) => Err(e),
            };
        }
        let (comparator, taken): (Comparator, usize) = if n >= 2 && chars[0] == '<' && chars[1]
            == '=' {
            (Comparator::LesserEqual, 2)
        } else if n >= 2 && chars[0] == '>' && chars[1] == '=' {
            (Comparator::GreaterEqual, 2)
        } else if n >= 2 && chars[0] == '!' && chars[1] == '=' {
            (Comparator::EqualsNot, 2)
        } else if n >= 1 && chars[0] == '<' {
            (Comparator::LesserThan, 1)
        } else if n >= 1 && chars[0] == '>' {
            (Comparator::GreaterThan, 1)
        } else if n >= 1 && chars[0] == '=' {
            (Comparator::Equals, 1)
        } else {
            (Comparator::Equals, 0)
        };
        let rest = string_of_range(&chars, taken, n);
        let value = match parse_yaml(rest.as_str()) {
            Ok(value) => value,
            Err(e) => {
                return Err(e);
            },
        };
        match SimpleValueType::from_yaml(&value) {
            Ok(v) => Ok(Filter::Expression(comparator, v)),
            Err(e) => Err(e),
        }
    }

    /// The filter that a sequence stands for: a list of the kind
    /// `filter_variant` of what its items stand for.
    pub fn visit_seq(seq: &YamlNode, filter_variant: FilterVariant) -> (r: Result<
        Filter,
        PatchError,
    >)
        requires
            seq is Sequence,
        ensures
            match decode_filter(seq@, filter_variant) {
                Ok(model) => r matches Ok(filter) && filter@ == model,
                Err(e) => r matches Err(f) && f == e,
            },
        decreases seq, 0nat,
    {
        let mut filters: Vec<Filter> = Vec::new();
        match seq {
            YamlNode::Sequence(items) => {
                let mut i: usize = 0;
                proof {
                    seq.lemma_view();
                    assert(filter_models(filters@) =~= Seq::empty());
                }
                while i < items.len()
                    invariant
                        i <= items.len(),
                        seq is Sequence,
                        seq->Sequence_0 == items,
                        seq@ is Sequence,
                        seq@->Sequence_0.len() == items@.len(),
                        forall|k: int|
                            0 <= k < items@.len() ==> #[trigger] seq@->Sequence_0[k] == items@[k]@,
                        decode_filter_items(
                            seq@->Sequence_0,
                            i as int,
                            filter_variant,
                            filter_models(filters@),
                        ) == decode_filter_items(seq@->Sequence_0, 0, filter_variant, Seq::empty()),
                    decreases items.len() - i,
                {
                    assert(seq@->Sequence_0[i as int] == items@[i as int]@);
                    match Filter::from_yaml(&items[i], filter_variant) {
                        Ok(filter) => {
                            merge_into(&mut filters, filter, filter_variant);
                        },
                        Err(e) => {
                            return Err(e);
                        },
                    }
                    i += 1;
                }
            },
            _ => {},
        }
        Ok(combine(filters, filter_variant))
    }

    /// The filter that a mapping stands for. The key `$and` holds filters
    /// that all have to hold, the key `$or` filters of which one has to hold;
    /// any other key is a selector, and its value a filter on the children
    /// that it matches. A mapping that comes to one filter stands for that
    /// filter; any other for a list of the kind `filter_variant`.
    pub fn visit_map(map: &YamlNode, filter_variant: FilterVariant) -> (r: Result<
        Filter,
        PatchError,
    >)
        requires
            map is Mapping,
        ensures
            match decode_filter(map@, filter_variant) {
                Ok(model) => r matches Ok(filter) && filter@ == model,
                Err(e) => r matches Err(f) && f == e,
            },
        decreases map, 0nat,
    {
        let mut children: Vec<Filter> = Vec::new();
        match map {
            YamlNode::Mapping(entries) => {
                let mut i: usize = 0;
                proof {
                    map.lemma_view();
                    assert(filter_models(children@) =~= Seq::empty());
                }
                while i < entries.len()
                    invariant
                        i <= entries.len(),
                        map is Mapping,
                        map->Mapping_0 == entries,
                        map@ is Mapping,
                        map@->Mapping_0.len() == entries@.len(),
                        forall|k: int|
                            0 <= k < entries@.len() ==> #[trigger] map@->Mapping_0[k] == (
                                entries@[k].0@,
                                entries@[k].1@,
                            ),
                        decode_filter_entries(
                            map@->Mapping_0,
                            i as int,
                            filter_variant,
                            filter_models(children@),
                        ) == decode_filter_entries(
                            map@->Mapping_0,
                            0,
                            filter_variant,
                            Seq::empty(),
                        ),
                    decreases entries.len() - i,
                {
                    assert(map@->Mapping_0[i as int] == (entries@[i as int].0@, entries@[i as int].1@));
                    let key = match &entries[i].0 {
                        YamlNode::String(key) => key,
                        _ => {
                            return Err(PatchError::UnexpectedShape);
                        },
                    };
                    let regex = match Regex::from(key.as_str()) {
                        Ok(regex) => regex,
                        Err(e) => {
                            return Err(e);
                        },
                    };
                    let key_chars = chars_of(key.as_str());
                    let ghost before = filter_models(children@);
                    if is_and_key(&key_chars) {
                        match Filter::from_yaml(&entries[i].1, FilterVariant::And) {
                            Ok(filter) => match filter_variant {
                                FilterVariant::And => {
                                    merge_into(&mut children, filter, filter_variant);
                                },
                                FilterVariant::Or => {
                                    children.push(filter);
                                    assert(filter_models(children@) =~= before.push(filter@));
                                },
                            },
                            Err(e) => {
                                return Err(e);
                            },
                        }
                    } else if is_or_key(&key_chars) {
                        match Filter::from_yaml(&entries[i].1, FilterVariant::Or) {
                            Ok(filter) => match filter_variant {
                                FilterVariant::Or => {
                                    merge_into(&mut children, filter, filter_variant);
                                },
                                FilterVariant::And => {
                                    children.push(filter);
                                    assert(filter_models(children@) =~= before.push(filter@));
                                },
                            },
                            Err(e) => {
                                return Err(e);
                            },
                        }
                    } else {
                        match Filter::from_yaml(&entries[i].1, filter_variant) {
                            Ok(filter) => {
                                let child = Filter::Child((regex, Box::new(filter)));
                                children.push(child);
                                assert(filter_models(children@) =~= before.push(child@));
                            },
                            Err(e) => {
                                return Err(e);
                            },
                        }
                    }
                    i += 1;
                }
            },
            _ => {},
        }
        if children.len() == 1 {
            match children.pop() {
                Some(only) => Ok(only),
                None => Err(PatchError::UnexpectedShape),
            }
        } else {
            Ok(combine(children, filter_variant))
        }
    }

    /// Reads a filter from a YAML value, where lists met on the way are of
    /// the kind `filter_variant`.
    pub fn from_yaml(value: &YamlNode, filter_variant: FilterVariant) -> (r: Result<
        Filter,
        PatchError,
    >)
        ensures
            match decode_filter(value@, filter_variant) {
                Ok(model) => r matches Ok(filter) && filter@ == model,
                Err(e) => r matches Err(f) && f == e,
            },
        decreases value, 1nat,
    {
        match value {
            YamlNode::Null => Ok(Filter::visit_unit()),
            YamlNode::Bool(b) => Ok(Filter::visit_bool(*b)),
            YamlNode::Unsigned(n) => Ok(Filter::visit_u64(*n)),
            YamlNode::Signed(n) => Ok(Filter::visit_i64(*n)),
            YamlNode::Float(_) => Err(PatchError::UnexpectedShape),
            YamlNode::String(text) => Filter::visit_str(text.as_str()),
            YamlNode::Sequence(_) => Filter::visit_seq(value, filter_variant),
            YamlNode::Mapping(_) => Filter::visit_map(value, filter_variant),
        }
    }
}

/// Whether `key` is the text `$and`.
fn is_and_key(key: &Vec<char>) -> (r: bool)
    ensures
        r == (key@ == and_key()),
{
    let r = key.len() == 4 && key[0] == '$' && key[1] == 'a' && key[2] == 'n' && key[3] == 'd';
    proof {
        if r {
            assert(key@ =~= and_key());
        }
    }
    r
}

/// Whether `key` is the text `$or`.
fn is_or_key(key: &Vec<char>) -> (r: bool)
    ensures
        r == (key@ == or_key()),
{
    let r = key.len() == 3 && key[0] == '$' && key[1] == 'o' && key[2] == 'r';
    proof {
        if r {
            assert(key@ =~= or_key());
        }
    }
    r
}

} // verus!
