//! Queries: what a patch asks of the elements that its selectors match.

use crate::error::PatchError;
use crate::patch_structure::modifier::decode_modifier_entry;
use crate::patch_structure::modifier::empty_modifier_draft;
use crate::patch_structure::modifier::finish_modifier;
use crate::patch_structure::modifier::is_modifier_key;
use crate::patch_structure::modifier::Modifier;
use crate::patch_structure::modifier::ModifierBuilder;
use crate::patch_structure::modifier::ModifierDraft;
use crate::patch_structure::modifier::ModifierModel;
use crate::patch_structure::regex::anchored;
use crate::patch_structure::regex::regex_compiles;
use crate::patch_structure::regex::Regex;
use crate::patch_structure::simple_value_type::decode_simple;
use crate::patch_structure::simple_value_type::SimpleValueModel;
use crate::patch_structure::simple_value_type::SimpleValueType;
use crate::patch_structure::value::decode_value;
use crate::patch_structure::value::ModificationValue;
use crate::patch_structure::value::ModificationValueModel;
use crate::text::same_text;
use crate::yaml::parse_yaml;
use crate::yaml::yaml_document;
use crate::yaml::YamlModel;
use crate::yaml::YamlNode;
use vstd::prelude::*;

verus! {

/// A mapping of a patch: what it asks of the element it stands for, and
/// selectors with queries for the element's children.
#[derive(Debug, PartialEq, Eq)]
pub struct ComplexQuery {
    pub modifier: Modifier,
    pub modification: Option<ModificationValue>,
    /// The selectors and their queries, in the order in which they are
    /// written. A selector may occur several times.
    pub subqueries: Vec<(Regex, Query)>,
}

/// What a selector maps to.
#[derive(Debug, PartialEq, Eq)]
pub enum Query {
    /// Write this text into the element, or remove the element.
    Simple(SimpleValueType),
    Complex(ComplexQuery),
    /// Apply these one after the other.
    ComplexVec(Vec<ComplexQuery>),
}

/// What a `ComplexQuery` stands for.
pub struct ComplexQueryModel {
    pub modifier: ModifierModel,
    pub modification: Option<ModificationValueModel>,
    pub subqueries: Seq<(Seq<char>, QueryModel)>,
}

/// What a `Query` stands for.
pub enum QueryModel {
    Simple(SimpleValueModel),
    Complex(ComplexQueryModel),
    ComplexVec(Seq<ComplexQueryModel>),
}

/// A query that asks nothing.
pub open spec fn empty_query() -> ComplexQueryModel {
    ComplexQueryModel {
        modifier: ModifierModel { filter: None, move_to: None, copy: None },
        modification: None,
        subqueries: Seq::empty(),
    }
}

impl View for ComplexQuery {
    type V = ComplexQueryModel;

    open spec fn view(&self) -> ComplexQueryModel
        decreases self,
    {
        ComplexQueryModel {
            modifier: self.modifier@,
            modification: match self.modification {
                Some(m) => Some(m@),
                None => None,
            },
            subqueries: Seq::new(
                self.subqueries@.len(),
                |i: int|
                    if 0 <= i < self.subqueries@.len() {
                        (self.subqueries@[i].0@, self.subqueries@[i].1@)
                    } else {
                        (Seq::empty(), QueryModel::Simple(SimpleValueModel::Remove))
                    },
            ),
        }
    }
}

impl View for Query {
    type V = QueryModel;

    open spec fn view(&self) -> QueryModel
        decreases self,
    {
        match self {
            Query::Simple(v) => QueryModel::Simple(v@),
            Query::Complex(q) => QueryModel::Complex(q@),
            Query::ComplexVec(queries) => QueryModel::ComplexVec(
                Seq::new(
                    queries@.len(),
                    |i: int|
                        if 0 <= i < queries@.len() {
                            queries@[i]@
                        } else {
                            empty_query()
                        },
                ),
            ),
        }
    }
}

impl ComplexQuery {
    /// The view of a complex query holds the views of its parts.
    pub proof fn lemma_view(&self)
        ensures
            self@.modifier == self.modifier@,
            self@.modification == (match self.modification {
                Some(m) => Some(m@),
                None => None,
            }),
            self@.subqueries.len() == self.subqueries@.len(),
            forall|i: int|
                0 <= i < self.subqueries@.len() ==> #[trigger] self@.subqueries[i] == (
                    self.subqueries@[i].0@,
                    self.subqueries@[i].1@,
                ),
    {
        reveal_with_fuel(<ComplexQuery as View>::view, 2);
        let m = Seq::new(
                self.subqueries@.len(),
                |i: int|
                    if 0 <= i < self.subqueries@.len() {
                        (self.subqueries@[i].0@, self.subqueries@[i].1@)
                    } else {
                        (Seq::empty(), QueryModel::Simple(SimpleValueModel::Remove))
                    },
            );
        assert(m.len() == self.subqueries@.len());
        assert(self@.subqueries == m);
    }
}

impl Query {
    /// The query that asks nothing of an element but hands `subqueries` on to
    /// its children.
    pub fn from(subqueries: Vec<(Regex, Query)>) -> (r: Query)
        ensures
            r == Query::Complex(
                ComplexQuery { modifier: r->Complex_0.modifier, modification: None, subqueries },
            ),
            r->Complex_0.modifier@ == (ModifierModel { filter: None, move_to: None, copy: None }),
    {
        Query::Complex(ComplexQuery { modifier: Modifier::new(), modification: None, subqueries })
    }
}

/// The views of a list of subqueries.
pub open spec fn subquery_models(subqueries: Seq<(Regex, Query)>) -> Seq<(Seq<char>, QueryModel)> {
    Seq::new(subqueries.len(), |i: int| (subqueries[i].0@, subqueries[i].1@))
}

/// The views of a list of complex queries.
pub open spec fn complex_query_models(queries: Seq<ComplexQuery>) -> Seq<ComplexQueryModel> {
    Seq::new(queries.len(), |i: int| queries[i]@)
}

impl Query {
    /// The view of a list of queries holds the views of the queries.
    pub proof fn lemma_view(&self)
        ensures
            self is ComplexVec ==> self@ == QueryModel::ComplexVec(
                complex_query_models(self->ComplexVec_0@),
            ),
    {
        reveal_with_fuel(<Query as View>::view, 2);
        if self is ComplexVec {
            let queries = self->ComplexVec_0;
            assert(self@->ComplexVec_0.len() == queries@.len());
            assert forall|i: int| 0 <= i < queries@.len() implies self@->ComplexVec_0[i]
                == queries@[i]@ by {}
            assert(self@->ComplexVec_0 =~= complex_query_models(queries@));
        }
    }
}

/// What has been read so far of a mapping of a patch.
pub struct QueryDraft {
    pub modifier: ModifierDraft,
    pub modification: Option<Option<ModificationValueModel>>,
    pub subqueries: Seq<(Seq<char>, QueryModel)>,
}

/// The state before any entry is read.
pub open spec fn empty_query_draft() -> QueryDraft {
    QueryDraft { modifier: empty_modifier_draft(), modification: None, subqueries: Seq::empty() }
}

/// The complex query that a draft comes to.
pub open spec fn finish_query(draft: QueryDraft) -> ComplexQueryModel {
    ComplexQueryModel {
        modifier: finish_modifier(draft.modifier),
        modification: match draft.modification {
            Some(modification) => modification,
            None => None,
        },
        subqueries: draft.subqueries,
    }
}

/// The modification value that the value of `$modify` stands for; none for
/// `null`.
pub open spec fn decode_optional_value(value: YamlModel) -> Result<
    Option<ModificationValueModel>,
    PatchError,
> {
    match value {
        YamlModel::Null => Ok(None),
        _ => match decode_value(value) {
            Ok(v) => Ok(Some(v)),
            Err(e) => Err(e),
        },
    }
}

/// The query that a YAML value stands for: a scalar for itself, a mapping for
/// a complex query, and a sequence of mappings for a list of complex queries.
pub open spec fn decode_query(value: YamlModel) -> Result<QueryModel, PatchError>
    decreases value, 0nat,
{
    match value {
        YamlModel::Mapping(entries) => match decode_query_entries(entries, 0, empty_query_draft()) {
            Ok(draft) => Ok(QueryModel::Complex(finish_query(draft))),
            Err(e) => Err(e),
        },
        YamlModel::Sequence(items) => match decode_query_items(items, 0, Seq::empty()) {
            Ok(queries) => Ok(QueryModel::ComplexVec(queries)),
            Err(e) => Err(e),
        },
        _ => match decode_simple(value) {
            Ok(v) => Ok(QueryModel::Simple(v)),
            Err(e) => Err(e),
        },
    }
}

/// The complex queries that the items `items[from..]` of a sequence stand
/// for, added to `queries` in order. An item that is no mapping is an error.
pub open spec fn decode_query_items(
    items: Seq<YamlModel>,
    from: int,
    queries: Seq<ComplexQueryModel>,
) -> Result<Seq<ComplexQueryModel>, PatchError>
    decreases items, items.len() - from,
{
    if from < 0 || from >= items.len() {
        Ok(queries)
    } else {
        match items[from] {
            YamlModel::Mapping(entries) => match decode_query_entries(
                entries,
                0,
                empty_query_draft(),
            ) {
                Ok(draft) => decode_query_items(items, from + 1, queries.push(finish_query(draft))),
                Err(e) => Err(e),
            },
            _ => Err(PatchError::SimpleValueInSequence),
        }
    }
}

/// The draft after the entries `entries[from..]` of a mapping were read. The
/// keys `$if`, `$move`, `$copy` and `$modify` are reserved and may occur
/// once; any other key is a selector, which is anchored at both ends, and its
/// value the query for what it matches.
pub open spec fn decode_query_entries(
    entries: Seq<(YamlModel, YamlModel)>,
    from: int,
    draft: QueryDraft,
) -> Result<QueryDraft, PatchError>
    decreases entries, entries.len() - from,
{
    if from < 0 || from >= entries.len() {
        Ok(draft)
    } else {
        match entries[from].0 {
            YamlModel::Text(key) => if is_modifier_key(key) {
                match decode_modifier_entry(draft.modifier, key, entries[from].1) {
                    Ok(modifier) => decode_query_entries(
                        entries,
                        from + 1,
                        QueryDraft { modifier, ..draft },
                    ),
                    Err(e) => Err(e),
                }
            } else if key == "$modify"@ {
                if draft.modification is Some {
                    Err(PatchError::DuplicateKey)
                } else {
                    match decode_optional_value(entries[from].1) {
                        Ok(modification) => decode_query_entries(
                            entries,
                            from + 1,
                            QueryDraft { modification: Some(modification), ..draft },
                        ),
                        Err(e) => Err(e),
                    }
                }
            } else if !regex_compiles(anchored(key)) {
                Err(PatchError::InvalidPattern)
            } else {
                match decode_query(entries[from].1) {
                    Ok(query) => decode_query_entries(
                        entries,
                        from + 1,
                        QueryDraft {
                            subqueries: draft.subqueries.push((anchored(key), query)),
                            ..draft
                        },
                    ),
                    Err(e) => Err(e),
                }
            },
            _ => Err(PatchError::UnexpectedShape),
        }
    }
}

impl ComplexQuery {
    /// Reads a complex query from a mapping. The keys `$if`, `$move`, `$copy`
    /// and `$modify` are reserved and may occur once; any other key is a
    /// selector, and its value the query for what it matches.
    pub fn from_yaml(map: &YamlNode) -> (r: Result<ComplexQuery, PatchError>)
        requires
            map is Mapping,
        ensures
            match decode_query_entries(map@->Mapping_0, 0, empty_query_draft()) {
                Ok(draft) => r matches Ok(query) && query@ == finish_query(draft),
                Err(e) => r matches Err(f) && f == e,
            },
        decreases map, 0nat,
    {
        let mut modifier = ModifierBuilder::new();
        let mut modification_seen = false;
        let mut modification: Option<ModificationValue> = None;
        let mut subqueries: Vec<(Regex, Query)> = Vec::new();
        match map {
            YamlNode::Mapping(entries) => {
                let mut i: usize = 0;
                proof {
                    map.lemma_view();
                    assert(subquery_models(subqueries@) =~= Seq::empty());
                }
                while i < entries.len()
                    invariant
                        i <= entries.len(),
                        map is Mapping,
                        map->Mapping_0 == entries,
                        map@ is Mapping,
                        map@->Mapping_0.len() == entries@.len(),
                        forall|k: int|
                            0 <= k < entries@.len() ==> #[trigger] map@->Mapping_0[k] == (
                                entries@[k].0@,
                                entries@[k].1@,
                            ),
                        modifier.wf(),
                        !modification_seen ==> modification is None,
                        decode_query_entries(
                            map@->Mapping_0,
                            i as int,
                            QueryDraft {
                                modifier: modifier@,
                                modification: if modification_seen {
                                    Some(
                                        match modification {
                                            Some(m) => Some(m@),
                                            None => None,
                                        },
                                    )
                                } else {
                                    None
                                },
                                subqueries: subquery_models(subqueries@),
                            },
                        ) == decode_query_entries(map@->Mapping_0, 0, empty_query_draft()),
                    decreases entries.len() - i,
                {
                    assert(map@->Mapping_0[i as int] == (entries@[i as int].0@, entries@[i as int].1@));
                    let key = match &entries[i].0 {
                        YamlNode::String(key) => key,
                        _ => {
                            return Err(PatchError::UnexpectedShape);
                        },
                    };
                    if ModifierBuilder::is_key(key.as_str()) {
                        match modifier.read(key.as_str(), &entries[i].1) {
                            Ok(()) => {},
                            Err(e) => {
                                return Err(e);
                            },
                        }
                    } else if same_text(key.as_str(), "$modify") {
                        if modification_seen {
                            return Err(PatchError::DuplicateKey);
                        }
                        match &entries[i].1 {
                            YamlNode::Null => {
                                modification = None;
                            },
                            _ => match ModificationValue::from_yaml(&entries[i].1) {
                                Ok(value) => {
                                    modification = Some(value);
                                },
                                Err(e) => {
                                    return Err(e);
                                },
                            },
                        }
                        modification_seen = true;
                    } else {
                        let regex = match Regex::from(key.as_str()) {
                            Ok(regex) => regex,
                            Err(e) => {
                                return Err(e);
                            },
                        };
                        let query = match Query::from_yaml(&entries[i].1) {
                            Ok(query) => query,
                            Err(e) => {
                                return Err(e);
                            },
                        };
                        let ghost before = subquery_models(subqueries@);
                        subqueries.push((regex, query));
                        assert(subquery_models(subqueries@) =~= before.push((regex@, query@)));
                    }
                    i += 1;
                }
            },
            _ => {},
        }
        let query = ComplexQuery { modifier: modifier.finish(), modification, subqueries };
        proof {
            query.lemma_view();
            assert(query@.subqueries =~= subquery_models(query.subqueries@));
        }
        Ok(query)
    }
}

impl Query {
    /// Reads a query from a YAML value: a scalar for itself, a mapping for a
    /// complex query, and a sequence of mappings for a list of complex
    /// queries.
    pub fn from_yaml(value: &YamlNode) -> (r: Result<Query, PatchError>)
        ensures
            match decode_query(value@) {
                Ok(model) => r matches Ok(query) && query@ == model,
                Err(e) => r matches Err(f) && f == e,
            },
        decreases value, 1nat,
    {
        match value {
            YamlNode::Mapping(_) => {
                proof {
                    value.lemma_view();
                }
                match ComplexQuery::from_yaml(value) {
                    Ok(query) => Ok(Query::Complex(query)),
                    Err(e) => Err(e),
                }
            },
            YamlNode::Sequence(items) => {
                let mut queries: Vec<ComplexQuery> = Vec::new();
                let mut i: usize = 0;
                proof {
                    value.lemma_view();
                    assert(complex_query_models(queries@) =~= Seq::empty());
                }
                while i < items.len()
                    invariant
                        i <= items.len(),
                        value is Sequence,
                        value->Sequence_0 == items,
                        value@ is Sequence,
                        value@->Sequence_0.len() == items@.len(),
                        forall|k: int|
                            0 <= k < items@.len() ==> #[trigger] value@->Sequence_0[k]
                                == items@[k]@,
                        decode_query_items(
                            value@->Sequence_0,
                            i as int,
                            complex_query_models(queries@),
                        ) == decode_query_items(value@->Sequence_0, 0, Seq::empty()),
                    decreases items.len() - i,
                {
                    assert(value@->Sequence_0[i as int] == items@[i as int]@);
                    match &items[i] {
                        YamlNode::Mapping(_) => {
                            proof {
                                items@[i as int].lemma_view();
                            }
                            match ComplexQuery::from_yaml(&items[i]) {
                                Ok(query) => {
                                    let ghost before = complex_query_models(queries@);
                                    queries.push(query);
                                    assert(complex_query_models(queries@) =~= before.push(query@));
                                },
                                Err(e) => {
                                    return Err(e);
                                },
                            }
                        },
                        _ => {
                            return Err(PatchError::SimpleValueInSequence);
                        },
                    }
                    i += 1;
                }
                let r = Query::ComplexVec(queries);
                proof {
                    r.lemma_view();
                }
                Ok(r)
            },
            _ => match SimpleValueType::from_yaml(value) {
                Ok(v) => Ok(Query::Simple(v)),
                Err(e) => Err(e),
            },
        }
    }
}

/// The patch that `content` stands for: none for an empty text, and otherwise
/// the query that the YAML document in it stands for.
pub open spec fn parse_patch(content: Seq<char>) -> Result<Option<QueryModel>, PatchError> {
    if content.len() == 0 {
        Ok(None)
    } else {
        match yaml_document(content) {
            None => Err(PatchError::MalformedYaml),
            Some(value) => match decode_query(value) {
                Ok(query) => Ok(Some(query)),
                Err(e) => Err(e),
            },
        }
    }
}

/// Reads a patch. An empty text is no patch at all.
pub fn parse(content: &String) -> (r: Result<Option<Query>, PatchError>)
    ensures
        match parse_patch(content@) {
            Ok(Some(model)) => r matches Ok(Some(query)) && query@ == model,
            Ok(None) => r matches Ok(None),
            Err(e) => r matches Err(f) && f == e,
        },
{
    if content.as_str().is_empty() {
        return Ok(None);
    }
    let value = match parse_yaml(content.as_str()) {
        Ok(value) => value,
        Err(e) => {
            return Err(e);
        },
    };
    match Query::from_yaml(&value) {
        Ok(query) => Ok(Some(query)),
        Err(e) => Err(e),
    }
}

} // verus!
