//! From the attributes that a schema declares to the classes and property
//! tables of glTF structural metadata.

use vstd::prelude::*;
use indexmap::IndexMap;
use ahash::RandomState;
use crate::entries::{
    distinct_keys, has_key, insert_entry, lemma_viewed_with_entry, named, viewed, with_entry,
};
use crate::object::Value;
use crate::schema::{
    attribute_map_entries, attribute_map_get_index, attribute_map_len, Attribute, AttributeMap,
    TypeDef,
    TypeRef, TypeRefModel,
};
use crate::sink::gltf::metadata::{
    Class, ClassProperty, ClassPropertyComponentType, ClassPropertyModel, ClassPropertyType,
    PropertyTable, PropertyTableProperty,
};

verus! {

/// How one attribute is typed in glTF, and which property of which class
/// it is.
#[derive(Debug, Clone)]
pub struct GltfPropertyType {
    pub class_name: String,
    pub property_name: String,
    pub class_property_type: ClassPropertyType,
    pub component_type: Option<ClassPropertyComponentType>,
}

impl Default for GltfPropertyType {
    /// An unnamed scalar without a component type.
    fn default() -> (r: Self)
        ensures
            r.class_name@.len() == 0,
            r.property_name@.len() == 0,
            r.class_property_type == ClassPropertyType::Scalar,
            r.component_type is None,
    {
        GltfPropertyType {
            class_name: String::new(),
            property_name: String::new(),
            class_property_type: ClassPropertyType::Scalar,
            component_type: None,
        }
    }
}

/// The attributes of one feature, by vertex id.
#[derive(Debug)]
pub struct FeatureAttributes {
    pub class_name: String,
    pub feature_id: u32,
    pub attributes: IndexMap<String, Value, RandomState>,
}

/// The glTF element type of an attribute type: numbers are scalars, a point
/// is a vector of three, a boolean is a boolean, everything else is text.
pub open spec fn gltf_type(t: TypeRefModel) -> ClassPropertyType {
    match t {
        TypeRefModel::Integer
        | TypeRefModel::NonNegativeInteger
        | TypeRefModel::Double
        | TypeRefModel::Measure => ClassPropertyType::Scalar,
        TypeRefModel::Boolean => ClassPropertyType::Boolean,
        TypeRefModel::Point => ClassPropertyType::Vec3,
        _ => ClassPropertyType::String,
    }
}

/// The glTF component type of an attribute type, for those that are
/// numeric.
pub open spec fn gltf_component(t: TypeRefModel) -> Option<ClassPropertyComponentType> {
    match t {
        TypeRefModel::Integer => Some(ClassPropertyComponentType::Int64),
        TypeRefModel::NonNegativeInteger => Some(ClassPropertyComponentType::UInt64),
        TypeRefModel::Double | TypeRefModel::Measure | TypeRefModel::Point => Some(
            ClassPropertyComponentType::Float64,
        ),
        _ => None,
    }
}

/// The glTF typing of an attribute type. The names are left empty.
pub fn to_gltf_schema(type_ref: &TypeRef) -> (r: GltfPropertyType)
    requires
        type_ref@ != TypeRefModel::Unknown,
    ensures
        r.class_name@.len() == 0,
        r.property_name@.len() == 0,
        r.class_property_type == gltf_type(type_ref@),
        r.component_type == gltf_component(type_ref@),
{
    match type_ref {
        TypeRef::String => GltfPropertyType {
            class_name: String::new(),
            property_name: String::new(),
            class_property_type: ClassPropertyType::String,
            component_type: None,
        },
        TypeRef::Integer => GltfPropertyType {
            class_name: String::new(),
            property_name: String::new(),
            class_property_type: ClassPropertyType::Scalar,
            component_type: Some(ClassPropertyComponentType::Int64),
        },
        TypeRef::Double => GltfPropertyType {
            class_name: String::new(),
            property_name: String::new(),
            class_property_type: ClassPropertyType::Scalar,
            component_type: Some(ClassPropertyComponentType::Float64),
        },
        TypeRef::Boolean => GltfPropertyType {
            class_name: String::new(),
            property_name: String::new(),
            class_property_type: ClassPropertyType::Boolean,
            component_type: None,
        },
        TypeRef::Measure => GltfPropertyType {
            class_name: String::new(),
            property_name: String::new(),
            class_property_type: ClassPropertyType::Scalar,
            component_type: Some(ClassPropertyComponentType::Float64),
        },
        TypeRef::Code => GltfPropertyType {
            class_name: String::new(),
            property_name: String::new(),
            class_property_type: ClassPropertyType::String,
            component_type: None,
        },
        TypeRef::NonNegativeInteger => GltfPropertyType {
            class_name: String::new(),
            property_name: String::new(),
            class_property_type: ClassPropertyType::Scalar,
            component_type: Some(ClassPropertyComponentType::UInt64),
        },
        TypeRef::JsonString => GltfPropertyType {
            class_name: String::new(),
            property_name: String::new(),
            class_property_type: ClassPropertyType::String,
            component_type: None,
        },
        TypeRef::Point => GltfPropertyType {
            class_name: String::new(),
            property_name: String::new(),
            class_property_type: ClassPropertyType::Vec3,
            component_type: Some(ClassPropertyComponentType::Float64),
        },
        TypeRef::Named(_) => GltfPropertyType {
            class_name: String::new(),
            property_name: String::new(),
            class_property_type: ClassPropertyType::String,
            component_type: None,
        },
        TypeRef::URI => GltfPropertyType {
            class_name: String::new(),
            property_name: String::new(),
            class_property_type: ClassPropertyType::String,
            component_type: None,
        },
        TypeRef::Date => GltfPropertyType {
            class_name: String::new(),
            property_name: String::new(),
            class_property_type: ClassPropertyType::String,
            component_type: None,
        },
        TypeRef::DateTime => GltfPropertyType {
            class_name: String::new(),
            property_name: String::new(),
            class_property_type: ClassPropertyType::String,
            component_type: None,
        },
        TypeRef::Unknown => GltfPropertyType::default(),
    }
}

/// Every attribute has a known type.
pub open spec fn all_typed(entries: Seq<(Seq<char>, Attribute)>) -> bool {
    forall|i: int|
        0 <= i < entries.len() ==> (#[trigger] entries[i]).1.type_ref@ != TypeRefModel::Unknown
}

/// The class property that stands for an attribute: described by the
/// attribute's name and typed by its type.
pub open spec fn class_property_for(name: Seq<char>, t: TypeRefModel) -> ClassPropertyModel {
    ClassPropertyModel {
        description: Some(name),
        type_: gltf_type(t),
        component_type: gltf_component(t),
    }
}

/// The properties of the class that stands for a feature type with these
/// attributes.
pub open spec fn class_properties(entries: Seq<(Seq<char>, Attribute)>) -> Seq<
    (Seq<char>, ClassPropertyModel),
>
    decreases entries.len(),
{
    if entries.len() == 0 {
        Seq::empty()
    } else {
        with_entry(
            class_properties(entries.drop_last()),
            entries.last().0,
            class_property_for(entries.last().0, entries.last().1.type_ref@),
        )
    }
}

/// The attribute table of a feature type definition.
pub open spec fn feature_attributes(type_def: TypeDef) -> Seq<(Seq<char>, Attribute)>
    recommends
        type_def is Feature,
{
    attribute_map_entries(type_def->Feature_0.attributes)
}

/// The class of the glTF schema that stands for the feature type
/// `type_def`: one entry, named `class_name`, with one property for each
/// attribute.
pub fn to_gltf_class(class_name: &str, type_def: &TypeDef) -> (classes: Vec<(String, Class)>)
    requires
        type_def is Feature,
        all_typed(feature_attributes(*type_def)),
    ensures
        classes@.len() == 1,
        classes@[0].0@ == class_name@,
        classes@[0].1.name matches Some(n) && n@ == class_name@,
        classes@[0].1.description is None,
        viewed(named(classes@[0].1.properties@)) == class_properties(
            feature_attributes(*type_def),
        ),
        distinct_keys(feature_attributes(*type_def)),
        classes@[0].1.properties@.len() == feature_attributes(*type_def).len(),
{
    let mut gltf_property_types: Vec<GltfPropertyType> = Vec::new();
    let ghost entries = feature_attributes(*type_def);

    match type_def {
        TypeDef::Feature(f) => {
            let n = attribute_map_len(&f.attributes);
            let mut i: usize = 0;
            while i < n
                invariant
                    i <= n,
                    n == entries.len(),
                    entries == attribute_map_entries(f.attributes),
                    all_typed(entries),
                    gltf_property_types@.len() == i,
                    forall|a: int, b: int|
                        0 <= a < i && 0 <= b < n && a != b ==> (#[trigger] entries[a]).0 != (
                        #[trigger] entries[b]).0,
                    forall|k: int|
                        0 <= k < i ==> {
                            let p = #[trigger] gltf_property_types@[k];
                            &&& p.class_name@ == class_name@
                            &&& p.property_name@ == entries[k].0
                            &&& p.class_property_type == gltf_type(entries[k].1.type_ref@)
                            &&& p.component_type == gltf_component(entries[k].1.type_ref@)
                        },
                decreases n - i,
            {
                let (name, attr) = attribute_map_get_index(&f.attributes, i);
                assert(entries[i as int].1.type_ref@ != TypeRefModel::Unknown);
                let mut property_type = to_gltf_schema(&attr.type_ref);
                property_type.class_name = class_name.to_owned();
                property_type.property_name = name.clone();
                gltf_property_types.push(property_type);
                i += 1;
            }
        },
        _ => {},
    }

    let mut class_properties_list: Vec<(String, ClassProperty)> = Vec::new();
    let mut j: usize = 0;
    assert(entries.take(0) =~= Seq::empty());
    while j < gltf_property_types.len()
        invariant
            j <= gltf_property_types@.len(),
            gltf_property_types@.len() == entries.len(),
            forall|k: int|
                0 <= k < gltf_property_types@.len() ==> {
                    let p = #[trigger] gltf_property_types@[k];
                    &&& p.property_name@ == entries[k].0
                    &&& p.class_property_type == gltf_type(entries[k].1.type_ref@)
                    &&& p.component_type == gltf_component(entries[k].1.type_ref@)
                },
            viewed(named(class_properties_list@)) == class_properties(entries.take(j as int)),
        decreases gltf_property_types@.len() - j,
    {
        let gltf_property_type = &gltf_property_types[j];
        let ghost before = named(class_properties_list@);
        let property = ClassProperty {
            description: Some(gltf_property_type.property_name.clone()),
            type_: gltf_property_type.class_property_type,
            component_type: gltf_property_type.component_type,
        };
        let ghost property_seen = property;
        insert_entry(
            &mut class_properties_list,
            gltf_property_type.property_name.clone(),
            property,
        );
        proof {
            lemma_viewed_with_entry(before, entries[j as int].0, property_seen);
            assert(entries.take(j + 1).drop_last() =~= entries.take(j as int));
            assert(entries.take(j + 1).last() == entries[j as int]);
        }
        j += 1;
    }
    assert(entries.take(entries.len() as int) =~= entries);
    proof {
        lemma_class_properties_distinct(entries);
        assert(viewed(named(class_properties_list@)).len() == class_properties_list@.len());
    }

    let mut classes: Vec<(String, Class)> = Vec::new();
    classes.push(
        (
            class_name.to_owned(),
            Class {
                name: Some(class_name.to_owned()),
                description: None,
                properties: class_properties_list,
            },
        ),
    );
    classes
}

/// Whether a property table can hold attributes of this type: text,
/// numbers and booleans.
pub open spec fn tabular(t: TypeRefModel) -> bool {
    t != TypeRefModel::Unknown && t != TypeRefModel::Point
}

/// Every attribute can be held by a property table.
pub open spec fn all_tabular(entries: Seq<(Seq<char>, Attribute)>) -> bool {
    forall|i: int| 0 <= i < entries.len() ==> tabular((#[trigger] entries[i]).1.type_ref@)
}

/// The number of buffer views that the values of an attribute take: two
/// for text (values and offsets), one otherwise.
pub open spec fn views_needed(t: TypeRefModel) -> int {
    if gltf_type(t) == ClassPropertyType::String {
        2
    } else {
        1
    }
}

/// The number of buffer views that the values of all attributes take.
pub open spec fn views_needed_all(entries: Seq<(Seq<char>, Attribute)>) -> int
    decreases entries.len(),
{
    if entries.len() == 0 {
        0
    } else {
        views_needed_all(entries.drop_last()) + views_needed(entries.last().1.type_ref@)
    }
}

/// Where the values of an attribute are stored when `first` is the first
/// buffer view that is free.
pub open spec fn table_property_for(t: TypeRefModel, first: int) -> PropertyTableProperty {
    if gltf_type(t) == ClassPropertyType::String {
        PropertyTableProperty { values: first as u32, string_offsets: Some((first + 1) as u32) }
    } else {
        PropertyTableProperty { values: first as u32, string_offsets: None }
    }
}

/// The properties of the table for these attributes when `first` is the
/// first buffer view that is free: each attribute takes the views that
/// follow those of the attributes before it.
pub open spec fn table_properties(entries: Seq<(Seq<char>, Attribute)>, first: int) -> Seq<
    (Seq<char>, PropertyTableProperty),
>
    decreases entries.len(),
{
    if entries.len() == 0 {
        Seq::empty()
    } else {
        with_entry(
            table_properties(entries.drop_last(), first),
            entries.last().0,
            table_property_for(
                entries.last().1.type_ref@,
                first + views_needed_all(entries.drop_last()),
            ),
        )
    }
}

/// Of attributes with distinct names each has a property of its own in the
/// table, at its own place, and its values start at the buffer view that
/// follows those of the attributes before it: no two attributes share a
/// buffer view.
pub proof fn lemma_table_properties_distinct(entries: Seq<(Seq<char>, Attribute)>, first: int)
    requires
        distinct_keys(entries),
    ensures
        table_properties(entries, first).len() == entries.len(),
        forall|i: int|
            0 <= i < entries.len() ==> #[trigger] table_properties(entries, first)[i] == (
                entries[i].0,
                table_property_for(
                    entries[i].1.type_ref@,
                    first + views_needed_all(entries.take(i)),
                ),
            ),
    decreases entries.len(),
{
    if entries.len() > 0 {
        let rest = entries.drop_last();
        let head = table_properties(rest, first);
        let all = table_properties(entries, first);
        assert forall|i: int, j: int| 0 <= i < j < rest.len() implies (#[trigger] rest[i]).0 != (
        #[trigger] rest[j]).0 by {
            assert(rest[i] == entries[i] && rest[j] == entries[j]);
        }
        lemma_table_properties_distinct(rest, first);
        if has_key(head, entries.last().0) {
            let k = choose|k: int| 0 <= k < head.len() && (#[trigger] head[k]).0 == entries.last().0;
            assert(rest[k] == entries[k]);
            assert(entries[k].0 != entries[entries.len() - 1].0);
        }
        assert(all.len() == entries.len());
        assert forall|i: int| 0 <= i < entries.len() implies #[trigger] all[i] == (
            entries[i].0,
            table_property_for(entries[i].1.type_ref@, first + views_needed_all(entries.take(i))),
        ) by {
            if i < rest.len() {
                assert(all[i] == head[i]);
                assert(rest[i] == entries[i]);
                assert(rest.take(i) =~= entries.take(i));
            } else {
                assert(entries.take(i) =~= rest);
            }
        }
    }
}

/// The same for the properties of a class: of attributes with distinct
/// names each has a property of its own, at its own place.
pub proof fn lemma_class_properties_distinct(entries: Seq<(Seq<char>, Attribute)>)
    requires
        distinct_keys(entries),
    ensures
        class_properties(entries).len() == entries.len(),
        forall|i: int|
            0 <= i < entries.len() ==> #[trigger] class_properties(entries)[i] == (
                entries[i].0,
                class_property_for(entries[i].0, entries[i].1.type_ref@),
            ),
    decreases entries.len(),
{
    if entries.len() > 0 {
        let rest = entries.drop_last();
        let head = class_properties(rest);
        let all = class_properties(entries);
        assert forall|i: int, j: int| 0 <= i < j < rest.len() implies (#[trigger] rest[i]).0 != (
        #[trigger] rest[j]).0 by {
            assert(rest[i] == entries[i] && rest[j] == entries[j]);
        }
        lemma_class_properties_distinct(rest);
        if has_key(head, entries.last().0) {
            let k = choose|k: int| 0 <= k < head.len() && (#[trigger] head[k]).0 == entries.last().0;
            assert(rest[k] == entries[k]);
            assert(entries[k].0 != entries[entries.len() - 1].0);
        }
        assert(all.len() == entries.len());
        assert forall|i: int| 0 <= i < entries.len() implies #[trigger] all[i] == (
            entries[i].0,
            class_property_for(entries[i].0, entries[i].1.type_ref@),
        ) by {
            if i < rest.len() {
                assert(all[i] == head[i]);
                assert(rest[i] == entries[i]);
            }
        }
    }
}

/// The buffer views taken never decrease as attributes are added.
pub proof fn lemma_views_needed_monotonic(entries: Seq<(Seq<char>, Attribute)>, k: int)
    requires
        0 <= k <= entries.len(),
    ensures
        0 <= views_needed_all(entries.take(k)) <= views_needed_all(entries),
        views_needed_all(entries) <= 2 * entries.len(),
    decreases entries.len(),
{
    if entries.len() == 0 {
        assert(entries.take(k) =~= entries);
    } else if k == entries.len() {
        assert(entries.take(k) =~= entries);
        lemma_views_needed_monotonic(entries.drop_last(), 0);
    } else {
        lemma_views_needed_monotonic(entries.drop_last(), k);
        assert(entries.drop_last().take(k) =~= entries.take(k));
    }
}

/// The property table for `feature_count` features of the type
/// `schema`, and the first buffer view that is free after it.
/// `buffer_view_length` is the first buffer view that is free before.
pub fn to_gltf_property_table(
    class_name: &str,
    schema: &TypeDef,
    buffer_view_length: u32,
    feature_count: u32,
) -> (r: (PropertyTable, u32))
    requires
        schema is Feature,
        all_tabular(feature_attributes(*schema)),
        buffer_view_length + views_needed_all(feature_attributes(*schema)) <= u32::MAX,
    ensures
        r.0.class@ == class_name@,
        r.0.count == feature_count,
        named(r.0.properties@) == table_properties(
            feature_attributes(*schema),
            buffer_view_length as int,
        ),
        r.1 == buffer_view_length + views_needed_all(feature_attributes(*schema)),
        distinct_keys(feature_attributes(*schema)),
        r.0.properties@.len() == feature_attributes(*schema).len(),
        forall|i: int|
            0 <= i < feature_attributes(*schema).len() ==> {
                let entries = feature_attributes(*schema);
                &&& (#[trigger] r.0.properties@[i]).0@ == entries[i].0
                &&& r.0.properties@[i].1 == table_property_for(
                    entries[i].1.type_ref@,
                    buffer_view_length + views_needed_all(entries.take(i)),
                )
            },
{
    let mut property_table = PropertyTable {
        class: class_name.to_owned(),
        properties: Vec::new(),
        count: feature_count,
    };
    let ghost entries = feature_attributes(*schema);
    let ghost first = buffer_view_length as int;

    let mut buffer_view_length = buffer_view_length;
    match schema {
        TypeDef::Feature(f) => {
            let n = attribute_map_len(&f.attributes);
            let mut i: usize = 0;
            assert(entries.take(0) =~= Seq::empty());
            assert(named(property_table.properties@) =~= Seq::empty());
            while i < n
                invariant
                    i <= n,
                    n == entries.len(),
                    entries == attribute_map_entries(f.attributes),
                    all_tabular(entries),
                    first + views_needed_all(entries) <= u32::MAX,
                    forall|a: int, b: int|
                        0 <= a < i && 0 <= b < n && a != b ==> (#[trigger] entries[a]).0 != (
                        #[trigger] entries[b]).0,
                    buffer_view_length == first + views_needed_all(entries.take(i as int)),
                    property_table.class@ == class_name@,
                    property_table.count == feature_count,
                    named(property_table.properties@) == table_properties(
                        entries.take(i as int),
                        first,
                    ),
                decreases n - i,
            {
                let (name, attr) = attribute_map_get_index(&f.attributes, i);
                proof {
                    assert(tabular(entries[i as int].1.type_ref@));
                    assert(entries.take(i + 1).drop_last() =~= entries.take(i as int));
                    assert(entries.take(i + 1).last() == entries[i as int]);
                    lemma_views_needed_monotonic(entries, i + 1);
                }
                let property_type = to_gltf_schema(&attr.type_ref);
                match property_type.class_property_type {
                    ClassPropertyType::String => {
                        insert_entry(
                            &mut property_table.properties,
                            name.clone(),
                            PropertyTableProperty {
                                values: buffer_view_length,
                                string_offsets: Some(buffer_view_length + 1),
                            },
                        );
                        buffer_view_length += 2;
                    },
                    _ => {
                        insert_entry(
                            &mut property_table.properties,
                            name.clone(),
                            PropertyTableProperty {
                                values: buffer_view_length,
                                string_offsets: None,
                            },
                        );
                        buffer_view_length += 1;
                    },
                }
                i += 1;
            }
            assert(entries.take(entries.len() as int) =~= entries);
            proof {
                lemma_table_properties_distinct(entries, first);
                let properties = property_table.properties@;
                assert(named(properties).len() == properties.len());
                assert forall|i: int| 0 <= i < entries.len() implies (
                #[trigger] properties[i]).0@ == entries[i].0 && properties[i].1
                    == table_property_for(
                    entries[i].1.type_ref@,
                    first + views_needed_all(entries.take(i)),
                ) by {
                    assert(named(properties)[i] == table_properties(entries, first)[i]);
                }
            }
        },
        _ => {},
    }

    (property_table, buffer_view_length)
}

/// Whether every attribute of the table has a known type.
pub fn is_all_typed(attributes: &AttributeMap) -> (b: bool)
    ensures
        b == all_typed(attribute_map_entries(*attributes)),
{
    let ghost entries = attribute_map_entries(*attributes);
    let n = attribute_map_len(attributes);
    let mut i: usize = 0;
    while i < n
        invariant
            i <= n,
            n == entries.len(),
            entries == attribute_map_entries(*attributes),
            forall|k: int| 0 <= k < i ==> (#[trigger] entries[k]).1.type_ref@ != TypeRefModel::Unknown,
        decreases n - i,
    {
        let (_, attr) = attribute_map_get_index(attributes, i);
        match &attr.type_ref {
            TypeRef::Unknown => {
                assert(entries[i as int].1.type_ref@ == TypeRefModel::Unknown);
                return false;
            },
            _ => {},
        }
        i += 1;
    }
    true
}

/// Whether a property table can hold every attribute of the table.
pub fn is_all_tabular(attributes: &AttributeMap) -> (b: bool)
    ensures
        b == all_tabular(attribute_map_entries(*attributes)),
{
    let ghost entries = attribute_map_entries(*attributes);
    let n = attribute_map_len(attributes);
    let mut i: usize = 0;
    while i < n
        invariant
            i <= n,
            n == entries.len(),
            entries == attribute_map_entries(*attributes),
            forall|k: int| 0 <= k < i ==> tabular((#[trigger] entries[k]).1.type_ref@),
        decreases n - i,
    {
        let (_, attr) = attribute_map_get_index(attributes, i);
        match &attr.type_ref {
            TypeRef::Unknown | TypeRef::Point => {
                assert(!tabular(entries[i as int].1.type_ref@));
                return false;
            },
            _ => {},
        }
        i += 1;
    }
    true
}

/// The first buffer view that is free after the values of all attributes
/// of the table, if `first` is the first that is free before; none if the
/// views cannot be counted in 32 bits.
pub fn views_end(attributes: &AttributeMap, first: u32) -> (r: Option<u32>)
    ensures
        r is Some == (first + views_needed_all(attribute_map_entries(*attributes)) <= u32::MAX),
        r matches Some(end) ==> end == first + views_needed_all(
            attribute_map_entries(*attributes),
        ),
{
    let ghost entries = attribute_map_entries(*attributes);
    let n = attribute_map_len(attributes);
    let mut end: u32 = first;
    let mut i: usize = 0;
    assert(entries.take(0) =~= Seq::empty());
    while i < n
        invariant
            i <= n,
            n == entries.len(),
            entries == attribute_map_entries(*attributes),
            end == first + views_needed_all(entries.take(i as int)),
        decreases n - i,
    {
        let (_, attr) = attribute_map_get_index(attributes, i);
        proof {
            assert(entries.take(i + 1).drop_last() =~= entries.take(i as int));
            assert(entries.take(i + 1).last() == entries[i as int]);
            lemma_views_needed_monotonic(entries, i + 1);
        }
        let needed: u32 = match &attr.type_ref {
            TypeRef::Integer
            | TypeRef::NonNegativeInteger
            | TypeRef::Double
            | TypeRef::Measure
            | TypeRef::Boolean
            | TypeRef::Point => 1,
            _ => 2,
        };
        assert(needed == views_needed(entries[i as int].1.type_ref@));
        if end > u32::MAX - needed {
            return None;
        }
        end += needed;
        i += 1;
    }
    assert(entries.take(entries.len() as int) =~= entries);
    Some(end)
}

/// The class of the glTF schema that stands for `type_def`, as
/// `to_gltf_class` gives it, where `type_def` is a feature type of which
/// every attribute has a known type; none for any other type definition.
pub fn try_to_gltf_class(class_name: &str, type_def: &TypeDef) -> (r: Option<Vec<(String, Class)>>)
    ensures
        r is Some == (type_def is Feature && all_typed(feature_attributes(*type_def))),
        r matches Some(classes) ==> {
            &&& classes@.len() == 1
            &&& classes@[0].0@ == class_name@
            &&& classes@[0].1.name matches Some(n) && n@ == class_name@
            &&& classes@[0].1.description is None
            &&& viewed(named(classes@[0].1.properties@)) == class_properties(
                feature_attributes(*type_def),
            )
            &&& classes@[0].1.properties@.len() == feature_attributes(*type_def).len()
        },
{
    match type_def {
        TypeDef::Feature(f) => {
            if is_all_typed(&f.attributes) {
                Some(to_gltf_class(class_name, type_def))
            } else {
                None
            }
        },
        _ => None,
    }
}

/// The property table for `feature_count` features of the type `schema`,
/// as `to_gltf_property_table` gives it, where `schema` is a feature type
/// whose attributes a property table can hold and whose buffer views can
/// be counted in 32 bits; none otherwise.
pub fn try_to_gltf_property_table(
    class_name: &str,
    schema: &TypeDef,
    buffer_view_length: u32,
    feature_count: u32,
) -> (r: Option<(PropertyTable, u32)>)
    ensures
        r is Some == (schema is Feature && all_tabular(feature_attributes(*schema))
            && buffer_view_length + views_needed_all(feature_attributes(*schema)) <= u32::MAX),
        r matches Some(table) ==> {
            &&& table.0.class@ == class_name@
            &&& table.0.count == feature_count
            &&& named(table.0.properties@) == table_properties(
                feature_attributes(*schema),
                buffer_view_length as int,
            )
            &&& table.1 == buffer_view_length + views_needed_all(feature_attributes(*schema))
            &&& table.0.properties@.len() == feature_attributes(*schema).len()
            &&& forall|i: int|
                0 <= i < feature_attributes(*schema).len() ==> {
                    let entries = feature_attributes(*schema);
                    &&& (#[trigger] table.0.properties@[i]).0@ == entries[i].0
                    &&& table.0.properties@[i].1 == table_property_for(
                        entries[i].1.type_ref@,
                        buffer_view_length + views_needed_all(entries.take(i)),
                    )
                }
        },
{
    match schema {
        TypeDef::Feature(f) => {
            if is_all_tabular(&f.attributes) && views_end(
                &f.attributes,
                buffer_view_length,
            ).is_some() {
                Some(to_gltf_property_table(class_name, schema, buffer_view_length, feature_count))
            } else {
                None
            }
        },
        _ => None,
    }
}

} // verus!
