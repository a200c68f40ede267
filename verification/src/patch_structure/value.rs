//! Modification values: what `$modify` asks to be written below an element.

use crate::error::PatchError;
use crate::patch_structure::modification_type::parse_identifier;
use crate::patch_structure::modification_type::ModificationIdentifier;
use crate::patch_structure::modification_type::ModificationIdentifierModel;
use crate::patch_structure::modification_type::ModificationType;
use crate::patch_structure::modifier::decode_modifier_entry;
use crate::patch_structure::modifier::empty_modifier_draft;
use crate::patch_structure::modifier::finish_modifier;
use crate::patch_structure::modifier::is_modifier_key;
use crate::patch_structure::modifier::Modifier;
use crate::patch_structure::modifier::ModifierBuilder;
use crate::patch_structure::modifier::ModifierDraft;
use crate::patch_structure::modifier::ModifierModel;
use crate::patch_structure::simple_value_type::decode_simple;
use crate::patch_structure::simple_value_type::SimpleValueModel;
use crate::patch_structure::simple_value_type::SimpleValueType;
use crate::text::same_text;
use crate::yaml::YamlModel;
use crate::yaml::YamlNode;
use vstd::prelude::*;

verus! {

/// A mapping under `$modify`: children to write, keyed by name and mode, and
/// attributes to set or to remove.
#[derive(Debug, PartialEq, Eq)]
pub struct ComplexValue {
    pub modifier: Modifier,
    /// Attribute names and their new values, in the order in which they are
    /// written; the value `Remove` takes the attribute away.
    pub attributes: Option<Vec<(String, SimpleValueType)>>,
    /// The children to write, in the order in which they are written. A key
    /// may occur several times.
    pub subvalues: Vec<(ModificationIdentifier, ModificationValue)>,
}

/// What stands under `$modify`, or under a key below it.
#[derive(Debug, PartialEq, Eq)]
pub enum ModificationValue {
    SimpleValue(SimpleValueType),
    ComplexValue(ComplexValue),
    ComplexValueVec(Vec<ComplexValue>),
}

/// What a `ComplexValue` stands for.
pub struct ComplexValueModel {
    pub modifier: ModifierModel,
    pub attributes: Option<Seq<(Seq<char>, SimpleValueModel)>>,
    pub subvalues: Seq<(ModificationIdentifierModel, ModificationValueModel)>,
}

/// What a `ModificationValue` stands for.
pub enum ModificationValueModel {
    SimpleValue(SimpleValueModel),
    ComplexValue(ComplexValueModel),
    ComplexValueVec(Seq<ComplexValueModel>),
}

/// A value that writes nothing.
pub open spec fn empty_value() -> ComplexValueModel {
    ComplexValueModel {
        modifier: ModifierModel { filter: None, move_to: None, copy: None },
        attributes: None,
        subvalues: Seq::empty(),
    }
}

/// The views of a list of attribute patches.
pub open spec fn attribute_patches(attributes: Seq<(String, SimpleValueType)>) -> Seq<
    (Seq<char>, SimpleValueModel),
> {
    Seq::new(attributes.len(), |i: int| (attributes[i].0@, attributes[i].1@))
}

impl View for ComplexValue {
    type V = ComplexValueModel;

    open spec fn view(&self) -> ComplexValueModel
        decreases self,
    {
        ComplexValueModel {
            modifier: self.modifier@,
            attributes: match self.attributes {
                Some(attributes) => Some(attribute_patches(attributes@)),
                None => None,
            },
            subvalues: Seq::new(
                self.subvalues@.len(),
                |i: int|
                    if 0 <= i < self.subvalues@.len() {
                        (self.subvalues@[i].0@, self.subvalues@[i].1@)
                    } else {
                        (
                            ModificationIdentifierModel {
                                mod_type: ModificationType::Modify,
                                identifier: Seq::empty(),
                            },
                            ModificationValueModel::SimpleValue(SimpleValueModel::Remove),
                        )
                    },
            ),
        }
    }
}

impl ComplexValue {
    /// The view of a complex value holds the views of its parts.
    pub proof fn lemma_view(&self)
        ensures
            self@.attributes == (match self.attributes {
                Some(attributes) => Some(attribute_patches(attributes@)),
                None => None,
            }),
            self@.subvalues.len() == self.subvalues@.len(),
            forall|i: int|
                0 <= i < self.subvalues@.len() ==> #[trigger] self@.subvalues[i] == (
                    self.subvalues@[i].0@,
                    self.subvalues@[i].1@,
                ),
    {
        reveal_with_fuel(<ComplexValue as View>::view, 2);
        let m = Seq::new(
            self.subvalues@.len(),
            |i: int|
                if 0 <= i < self.subvalues@.len() {
                    (self.subvalues@[i].0@, self.subvalues@[i].1@)
                } else {
                    (
                        ModificationIdentifierModel {
                            mod_type: ModificationType::Modify,
                            identifier: Seq::empty(),
                        },
                        ModificationValueModel::SimpleValue(SimpleValueModel::Remove),
                    )
                },
        );
        assert(m.len() == self.subvalues@.len());
        assert(self@.subvalues == m);
    }
}

impl View for ModificationValue {
    type V = ModificationValueModel;

    open spec fn view(&self) -> ModificationValueModel
        decreases self,
    {
        match self {
            ModificationValue::SimpleValue(v) => ModificationValueModel::SimpleValue(v@),
            ModificationValue::ComplexValue(v) => ModificationValueModel::ComplexValue(v@),
            ModificationValue::ComplexValueVec(values) => ModificationValueModel::ComplexValueVec(
                Seq::new(
                    values@.len(),
                    |i: int|
                        if 0 <= i < values@.len() {
                            values@[i]@
                        } else {
                            empty_value()
                        },
                ),
            ),
        }
    }
}

/// The views of a list of subvalues.
pub open spec fn subvalue_models(subvalues: Seq<(ModificationIdentifier, ModificationValue)>) -> Seq<
    (ModificationIdentifierModel, ModificationValueModel),
> {
    Seq::new(subvalues.len(), |i: int| (subvalues[i].0@, subvalues[i].1@))
}

/// The views of a list of complex values.
pub open spec fn complex_value_models(values: Seq<ComplexValue>) -> Seq<ComplexValueModel> {
    Seq::new(values.len(), |i: int| values[i]@)
}

impl ModificationValue {
    /// The view of a list of values holds the views of the values.
    pub proof fn lemma_view(&self)
        ensures
            self is ComplexValueVec ==> self@ == ModificationValueModel::ComplexValueVec(
                complex_value_models(self->ComplexValueVec_0@),
            ),
    {
        reveal_with_fuel(<ModificationValue as View>::view, 2);
        if self is ComplexValueVec {
            let values = self->ComplexValueVec_0;
            assert(self@->ComplexValueVec_0.len() == values@.len());
            assert forall|i: int| 0 <= i < values@.len() implies self@->ComplexValueVec_0[i]
                == values@[i]@ by {}
            assert(self@->ComplexValueVec_0 =~= complex_value_models(values@));
        }
    }
}

/// What has been read so far of a mapping under `$modify`.
pub struct ValueDraft {
    pub modifier: ModifierDraft,
    pub attributes: Option<Option<Seq<(Seq<char>, SimpleValueModel)>>>,
    pub subvalues: Seq<(ModificationIdentifierModel, ModificationValueModel)>,
}

/// The state before any entry is read.
pub open spec fn empty_value_draft() -> ValueDraft {
    ValueDraft { modifier: empty_modifier_draft(), attributes: None, subvalues: Seq::empty() }
}

/// The complex value that a draft comes to.
pub open spec fn finish_value(draft: ValueDraft) -> ComplexValueModel {
    ComplexValueModel {
        modifier: finish_modifier(draft.modifier),
        attributes: match draft.attributes {
            Some(attributes) => attributes,
            None => None,
        },
        subvalues: draft.subvalues,
    }
}

/// The attribute patches that the entries `entries[from..]` of a mapping
/// under `$attributes` stand for, added to `patches` in order.
pub open spec fn decode_attribute_entries(
    entries: Seq<(YamlModel, YamlModel)>,
    from: int,
    patches: Seq<(Seq<char>, SimpleValueModel)>,
) -> Result<Seq<(Seq<char>, SimpleValueModel)>, PatchError>
    decreases entries.len() - from,
{
    if from < 0 || from >= entries.len() {
        Ok(patches)
    } else {
        match entries[from].0 {
            YamlModel::Text(name) => match decode_simple(entries[from].1) {
                Ok(value) => decode_attribute_entries(
                    entries,
                    from + 1,
                    patches.push((name, value)),
                ),
                Err(e) => Err(e),
            },
            _ => Err(PatchError::UnexpectedShape),
        }
    }
}

/// The attribute patches that the value of `$attributes` stands for; none for
/// `null`.
pub open spec fn decode_attributes(value: YamlModel) -> Result<
    Option<Seq<(Seq<char>, SimpleValueModel)>>,
    PatchError,
> {
    match value {
        YamlModel::Null => Ok(None),
        YamlModel::Mapping(entries) => match decode_attribute_entries(entries, 0, Seq::empty()) {
            Ok(patches) => Ok(Some(patches)),
            Err(e) => Err(e),
        },
        _ => Err(PatchError::UnexpectedShape),
    }
}

/// The modification value that a YAML value stands for: a scalar for itself,
/// a mapping for a complex value, and a sequence of mappings for a list of
/// complex values.
pub open spec fn decode_value(value: YamlModel) -> Result<ModificationValueModel, PatchError>
    decreases value, 0nat,
{
    match value {
        YamlModel::Mapping(entries) => match decode_value_entries(entries, 0, empty_value_draft()) {
            Ok(draft) => Ok(ModificationValueModel::ComplexValue(finish_value(draft))),
            Err(e) => Err(e),
        },
        YamlModel::Sequence(items) => match decode_value_items(items, 0, Seq::empty()) {
            Ok(values) => Ok(ModificationValueModel::ComplexValueVec(values)),
            Err(e) => Err(e),
        },
        _ => match decode_simple(value) {
            Ok(v) => Ok(ModificationValueModel::SimpleValue(v)),
            Err(e) => Err(e),
        },
    }
}

/// The complex values that the items `items[from..]` of a sequence stand for,
/// added to `values` in order. An item that is no mapping is an error.
pub open spec fn decode_value_items(
    items: Seq<YamlModel>,
    from: int,
    values: Seq<ComplexValueModel>,
) -> Result<Seq<ComplexValueModel>, PatchError>
    decreases items, items.len() - from,
{
    if from < 0 || from >= items.len() {
        Ok(values)
    } else {
        match items[from] {
            YamlModel::Mapping(entries) => match decode_value_entries(
                entries,
                0,
                empty_value_draft(),
            ) {
                Ok(draft) => decode_value_items(items, from + 1, values.push(finish_value(draft))),
                Err(e) => Err(e),
            },
            _ => Err(PatchError::SimpleValueInSequence),
        }
    }
}

/// The draft after the entries `entries[from..]` of a mapping were read. The
/// keys `$if`, `$move`, `$copy` and `$attributes` are reserved and may occur
/// once; any other key names a child, with its mode in front.
pub open spec fn decode_value_entries(
    entries: Seq<(YamlModel, YamlModel)>,
    from: int,
    draft: ValueDraft,
) -> Result<ValueDraft, PatchError>
    decreases entries, entries.len() - from,
{
    if from < 0 || from >= entries.len() {
        Ok(draft)
    } else {
        match entries[from].0 {
            YamlModel::Text(key) => if is_modifier_key(key) {
                match decode_modifier_entry(draft.modifier, key, entries[from].1) {
                    Ok(modifier) => decode_value_entries(
                        entries,
                        from + 1,
                        ValueDraft { modifier, ..draft },
                    ),
                    Err(e) => Err(e),
                }
            } else if key == "$attributes"@ {
                if draft.attributes is Some {
                    Err(PatchError::DuplicateKey)
                } else {
                    match decode_attributes(entries[from].1) {
                        Ok(attributes) => decode_value_entries(
                            entries,
                            from + 1,
                            ValueDraft { attributes: Some(attributes), ..draft },
                        ),
                        Err(e) => Err(e),
                    }
                }
            } else {
                match parse_identifier(key) {
                    Ok(identifier) => match decode_value(entries[from].1) {
                        Ok(value) => decode_value_entries(
                            entries,
                            from + 1,
                            ValueDraft {
                                subvalues: draft.subvalues.push((identifier, value)),
                                ..draft
                            },
                        ),
                        Err(e) => Err(e),
                    },
                    Err(e) => Err(e),
                }
            },
            _ => Err(PatchError::UnexpectedShape),
        }
    }
}

/// Reads the value of `$attributes`.
pub fn attributes_from_yaml(value: &YamlNode) -> (r: Result<
    Option<Vec<(String, SimpleValueType)>>,
    PatchError,
>)
    ensures
        match decode_attributes(value@) {
            Ok(Some(model)) => r matches Ok(Some(attributes)) && attribute_patches(attributes@)
                == model,
            Ok(None) => r matches Ok(None),
            Err(e) => r matches Err(f) && f == e,
        },
{
    match value {
        YamlNode::Null => Ok(None),
        YamlNode::Mapping(entries) => {
            let mut patches: Vec<(String, SimpleValueType)> = Vec::new();
            let mut i: usize = 0;
            proof {
                value.lemma_view();
                assert(attribute_patches(patches@) =~= Seq::empty());
            }
            while i < entries.len()
                invariant
                    i <= entries.len(),
                    value@ is Mapping,
                    value@->Mapping_0.len() == entries@.len(),
                    forall|k: int|
                        0 <= k < entries@.len() ==> #[trigger] value@->Mapping_0[k] == (
                            entries@[k].0@,
                            entries@[k].1@,
                        ),
                    decode_attribute_entries(
                        value@->Mapping_0,
                        i as int,
                        attribute_patches(patches@),
                    ) == decode_attribute_entries(value@->Mapping_0, 0, Seq::empty()),
                decreases entries.len() - i,
            {
                assert(value@->Mapping_0[i as int] == (entries@[i as int].0@, entries@[i as int].1@));
                let name = match &entries[i].0 {
                    YamlNode::String(name) => name.clone(),
                    _ => {
                        return Err(PatchError::UnexpectedShape);
                    },
                };
                let patch = match SimpleValueType::from_yaml(&entries[i].1) {
                    Ok(patch) => patch,
                    Err(e) => {
                        return Err(e);
                    },
                };
                let ghost before = attribute_patches(patches@);
                patches.push((name, patch));
                assert(attribute_patches(patches@) =~= before.push((name@, patch@)));
                i += 1;
            }
            Ok(Some(patches))
        },
        _ => Err(PatchError::UnexpectedShape),
    }
}

impl ComplexValue {
    /// Reads a complex value from a mapping. The keys `$if`, `$move`, `$copy`
    /// and `$attributes` are reserved and may occur once; any other key names
    /// a child, with its mode in front.
    pub fn from_yaml(map: &YamlNode) -> (r: Result<ComplexValue, PatchError>)
        requires
            map is Mapping,
        ensures
            match decode_value_entries(map@->Mapping_0, 0, empty_value_draft()) {
                Ok(draft) => r matches Ok(value) && value@ == finish_value(draft),
                Err(e) => r matches Err(f) && f == e,
            },
        decreases map, 0nat,
    {
        let mut modifier = ModifierBuilder::new();
        let mut attributes_seen = false;
        let mut attributes: Option<Vec<(String, SimpleValueType)>> = None;
        let mut subvalues: Vec<(ModificationIdentifier, ModificationValue)> = Vec::new();
        match map {
            YamlNode::Mapping(entries) => {
                let mut i: usize = 0;
                proof {
                    map.lemma_view();
                    assert(subvalue_models(subvalues@) =~= Seq::empty());
                }
                while i < entries.len()
                    invariant
                        i <= entries.len(),
                        map is Mapping,
                        map->Mapping_0 == entries,
                        map@ is Mapping,
                        map@->Mapping_0.len() == entries@.len(),
                        forall|k: int|
                            0 <= k < entries@.len() ==> #[trigger] map@->Mapping_0[k] == (
                                entries@[k].0@,
                                entries@[k].1@,
                            ),
                        modifier.wf(),
                        !attributes_seen ==> attributes is None,
                        decode_value_entries(
                            map@->Mapping_0,
                            i as int,
                            ValueDraft {
                                modifier: modifier@,
                                attributes: if attributes_seen {
                                    Some(
                                        match attributes {
                                            Some(a) => Some(attribute_patches(a@)),
                                            None => None,
                                        },
                                    )
                                } else {
                                    None
                                },
                                subvalues: subvalue_models(subvalues@),
                            },
                        ) == decode_value_entries(map@->Mapping_0, 0, empty_value_draft()),
                    decreases entries.len() - i,
                {
                    assert(map@->Mapping_0[i as int] == (entries@[i as int].0@, entries@[i as int].1@));
                    let key = match &entries[i].0 {
                        YamlNode::String(key) => key,
                        _ => {
                            return Err(PatchError::UnexpectedShape);
                        },
                    };
                    if ModifierBuilder::is_key(key.as_str()) {
                        match modifier.read(key.as_str(), &entries[i].1) {
                            Ok(()) => {},
                            Err(e) => {
                                return Err(e);
                            },
                        }
                    } else if same_text(key.as_str(), "$attributes") {
                        if attributes_seen {
                            return Err(PatchError::DuplicateKey);
                        }
                        match attributes_from_yaml(&entries[i].1) {
                            Ok(read) => {
                                attributes = read;
                                attributes_seen = true;
                            },
                            Err(e) => {
                                return Err(e);
                            },
                        }
                    } else {
                        let identifier = match ModificationIdentifier::from(key.as_str()) {
                            Ok(identifier) => identifier,
                            Err(e) => {
                                return Err(e);
                            },
                        };
                        let value = match ModificationValue::from_yaml(&entries[i].1) {
                            Ok(value) => value,
                            Err(e) => {
                                return Err(e);
                            },
                        };
                        let ghost before = subvalue_models(subvalues@);
                        subvalues.push((identifier, value));
                        assert(subvalue_models(subvalues@) =~= before.push((identifier@, value@)));
                    }
                    i += 1;
                }
            },
            _ => {},
        }
        let value = ComplexValue { modifier: modifier.finish(), attributes, subvalues };
        proof {
            value.lemma_view();
            assert(value@.subvalues =~= subvalue_models(value.subvalues@));
        }
        Ok(value)
    }
}

impl ModificationValue {
    /// Reads a modification value from a YAML value: a scalar for itself, a
    /// mapping for a complex value, and a sequence of mappings for a list of
    /// complex values.
    pub fn from_yaml(value: &YamlNode) -> (r: Result<ModificationValue, PatchError>)
        ensures
            match decode_value(value@) {
                Ok(model) => r matches Ok(v) && v@ == model,
                Err(e) => r matches Err(f) && f == e,
            },
        decreases value, 1nat,
    {
        match value {
            YamlNode::Mapping(_) => {
                proof {
                    value.lemma_view();
                }
                match ComplexValue::from_yaml(value) {
                    Ok(v) => Ok(ModificationValue::ComplexValue(v)),
                    Err(e) => Err(e),
                }
            },
            YamlNode::Sequence(items) => {
                let mut values: Vec<ComplexValue> = Vec::new();
                let mut i: usize = 0;
                proof {
                    value.lemma_view();
                    assert(complex_value_models(values@) =~= Seq::empty());
                }
                while i < items.len()
                    invariant
                        i <= items.len(),
                        value is Sequence,
                        value->Sequence_0 == items,
                        value@ is Sequence,
                        value@->Sequence_0.len() == items@.len(),
                        forall|k: int|
                            0 <= k < items@.len() ==> #[trigger] value@->Sequence_0[k]
                                == items@[k]@,
                        decode_value_items(
                            value@->Sequence_0,
                            i as int,
                            complex_value_models(values@),
                        ) == decode_value_items(value@->Sequence_0, 0, Seq::empty()),
                    decreases items.len() - i,
                {
                    assert(value@->Sequence_0[i as int] == items@[i as int]@);
                    match &items[i] {
                        YamlNode::Mapping(_) => {
                            proof {
                                items@[i as int].lemma_view();
                            }
                            match ComplexValue::from_yaml(&items[i]) {
                                Ok(v) => {
                                    let ghost before = complex_value_models(values@);
                                    values.push(v);
                                    assert(complex_value_models(values@) =~= before.push(v@));
                                },
                                Err(e) => {
                                    return Err(e);
                                },
                            }
                        },
                        _ => {
                            return Err(PatchError::SimpleValueInSequence);
                        },
                    }
                    i += 1;
                }
                let r = ModificationValue::ComplexValueVec(values);
                proof {
                    r.lemma_view();
                }
                Ok(r)
            },
            _ => match SimpleValueType::from_yaml(value) {
                Ok(v) => Ok(ModificationValue::SimpleValue(v)),
                Err(e) => Err(e),
            },
        }
    }
}

} // verus!
