//! The declared schema: which types exist, and which attributes of which
//! type each of them has.
//!
//! The attribute and type tables are `indexmap::IndexMap`s. What they hold
//! is spoken of as a sequence of named entries in insertion order, and what
//! is stated about their methods is taken on trust from that crate.

use vstd::prelude::*;
use indexmap::IndexMap;
use ahash::RandomState;
use crate::crs::EpsgCode;
use crate::entries::{has_key, key_index, with_entry};

verus! {

/// `indexmap::IndexMap`, opaque to the verifier.
#[verifier::external_type_specification]
#[verifier::external_body]
#[verifier::reject_recursive_types(K)]
#[verifier::reject_recursive_types(V)]
#[verifier::reject_recursive_types(S)]
pub struct ExIndexMap<K, V, S>(IndexMap<K, V, S>);

/// The type of an attribute's values.
#[derive(Debug)]
pub enum TypeRef {
    Unknown,
    String,
    Code,
    Integer,
    NonNegativeInteger,
    Double,
    Boolean,
    JsonString,
    URI,
    Date,
    DateTime,
    Measure,
    Point,
    Named(String),
}

/// What a [`TypeRef`] holds.
pub enum TypeRefModel {
    Unknown,
    String,
    Code,
    Integer,
    NonNegativeInteger,
    Double,
    Boolean,
    JsonString,
    URI,
    Date,
    DateTime,
    Measure,
    Point,
    Named(Seq<char>),
}

impl View for TypeRef {
    type V = TypeRefModel;

    open spec fn view(&self) -> TypeRefModel {
        match self {
            TypeRef::Unknown => TypeRefModel::Unknown,
            TypeRef::String => TypeRefModel::String,
            TypeRef::Code => TypeRefModel::Code,
            TypeRef::Integer => TypeRefModel::Integer,
            TypeRef::NonNegativeInteger => TypeRefModel::NonNegativeInteger,
            TypeRef::Double => TypeRefModel::Double,
            TypeRef::Boolean => TypeRefModel::Boolean,
            TypeRef::JsonString => TypeRefModel::JsonString,
            TypeRef::URI => TypeRefModel::URI,
            TypeRef::Date => TypeRefModel::Date,
            TypeRef::DateTime => TypeRefModel::DateTime,
            TypeRef::Measure => TypeRefModel::Measure,
            TypeRef::Point => TypeRefModel::Point,
            TypeRef::Named(name) => TypeRefModel::Named(name@),
        }
    }
}

impl Default for TypeRef {
    fn default() -> (r: Self)
        ensures
            r@ == TypeRefModel::Unknown,
    {
        TypeRef::Unknown
    }
}

/// One attribute of a type: the type of its values and how often it may
/// occur (`max_occurs` of `None` is unbounded).
#[derive(Debug)]
pub struct Attribute {
    pub type_ref: TypeRef,
    pub min_occurs: u16,
    pub max_occurs: Option<u16>,
}

/// What an [`Attribute`] holds.
pub struct AttributeModel {
    pub type_ref: TypeRefModel,
    pub min_occurs: u16,
    pub max_occurs: Option<u16>,
}

impl View for Attribute {
    type V = AttributeModel;

    open spec fn view(&self) -> AttributeModel {
        AttributeModel {
            type_ref: self.type_ref@,
            min_occurs: self.min_occurs,
            max_occurs: self.max_occurs,
        }
    }
}

impl Default for Attribute {
    /// An attribute of unknown type that occurs at most once.
    fn default() -> (r: Self)
        ensures
            r@ == (AttributeModel {
                type_ref: TypeRefModel::Unknown,
                min_occurs: 0,
                max_occurs: Some(1u16),
            }),
    {
        Attribute { type_ref: TypeRef::Unknown, min_occurs: 0, max_occurs: Some(1) }
    }
}

/// The attributes of a type by name, in the order of their declaration.
pub type AttributeMap = IndexMap<String, Attribute, RandomState>;

/// The types of a schema by name, in the order of their declaration.
pub type TypeMap = IndexMap<String, TypeDef, RandomState>;

/// The definition of a feature type.
#[derive(Debug)]
pub struct FeatureTypeDef {
    pub attributes: AttributeMap,
    pub additional_attributes: bool,
}

/// The definition of a data type.
#[derive(Debug)]
pub struct DataTypeDef {
    pub attributes: AttributeMap,
    pub additional_attributes: bool,
}

/// The definition of an object type.
#[derive(Debug)]
pub struct ObjectTypeDef {
    pub attributes: AttributeMap,
    pub additional_attributes: bool,
}

/// The definition of a property type: a choice among its members.
#[derive(Debug)]
pub struct PropertyTypeDef {
    pub members: Vec<(String, Attribute)>,
}

/// The definition of a named type.
#[derive(Debug)]
pub enum TypeDef {
    Feature(FeatureTypeDef),
    Data(DataTypeDef),
    Property(PropertyTypeDef),
    Object(ObjectTypeDef),
}

/// The schema of a data set.
#[derive(Debug)]
pub struct Schema {
    pub types: TypeMap,
    /// The reference system of the output, once a transform has set it
    pub epsg: Option<EpsgCode>,
}

/// The entries of an attribute table, in insertion order.
pub uninterp spec fn attribute_map_entries(map: IndexMap<String, Attribute, RandomState>) -> Seq<
    (Seq<char>, Attribute),
>;

/// The entries of a type table, in insertion order.
pub uninterp spec fn type_map_entries(map: IndexMap<String, TypeDef, RandomState>) -> Seq<
    (Seq<char>, TypeDef),
>;

/// `IndexMap::default`: the new table holds nothing.
#[verifier::external_body]
pub(crate) fn attribute_map_new() -> (map: AttributeMap)
    ensures
        attribute_map_entries(map) == Seq::<(Seq<char>, Attribute)>::empty(),
{
    IndexMap::default()
}

/// `IndexMap::len`: the number of entries.
#[verifier::external_body]
pub(crate) fn attribute_map_len(map: &AttributeMap) -> (n: usize)
    ensures
        n == attribute_map_entries(*map).len(),
{
    map.len()
}

/// `IndexMap::get_index`: the entry at a place that exists. A map holds a
/// key once, so no entry at another place has the key of this entry.
#[verifier::external_body]
pub(crate) fn attribute_map_get_index(map: &AttributeMap, index: usize) -> (entry: (
    &String,
    &Attribute,
))
    requires
        index < attribute_map_entries(*map).len(),
    ensures
        entry.0@ == attribute_map_entries(*map)[index as int].0,
        *entry.1 == attribute_map_entries(*map)[index as int].1,
        forall|j: int|
            0 <= j < attribute_map_entries(*map).len() && j != index ==> (
            #[trigger] attribute_map_entries(*map)[j]).0 != entry.0@,
{
    map.get_index(index).unwrap()
}

/// `IndexMap::insert`: an entry of that name gets the new value and keeps
/// its place, otherwise the entry is appended; the value replaced, if any,
/// is returned.
#[verifier::external_body]
pub(crate) fn attribute_map_insert(map: &mut AttributeMap, key: String, value: Attribute) -> (old_value:
    Option<Attribute>)
    ensures
        attribute_map_entries(*final(map)) == with_entry(
            attribute_map_entries(*old(map)),
            key@,
            value,
        ),
        old_value is Some == has_key(attribute_map_entries(*old(map)), key@),
        old_value matches Some(v) ==> v == attribute_map_entries(*old(map))[key_index(
            attribute_map_entries(*old(map)),
            key@,
        )].1,
{
    map.insert(key, value)
}

/// `IndexMap::len`: the number of entries.
#[verifier::external_body]
pub(crate) fn type_map_len(map: &TypeMap) -> (n: usize)
    ensures
        n == type_map_entries(*map).len(),
{
    map.len()
}

/// `IndexMap::get_index_mut`: the value at a place that exists, for change
/// in place. The name at that place and all other entries stay as they are.
#[verifier::external_body]
pub(crate) fn type_map_value_mut(map: &mut TypeMap, index: usize) -> (value: &mut TypeDef)
    requires
        index < type_map_entries(*old(map)).len(),
    ensures
        *value == type_map_entries(*old(map))[index as int].1,
        type_map_entries(*final(map)) == type_map_entries(*old(map)).update(
            index as int,
            (type_map_entries(*old(map))[index as int].0, *final(value)),
        ),
{
    map.get_index_mut(index).unwrap().1
}

} // verus!
