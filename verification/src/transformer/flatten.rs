//! Tree flattening: nested features, data and objects are promoted to
//! entities of their own, each kind as its option says.
//!
//! An object that is to be split off leaves the tree it was found in and is
//! emitted as a new entity, after the objects split off from below it. An
//! object split off from below an identified object carries that object's
//! id and type name as the attributes `parentId` and `parentType`.

use vstd::prelude::*;
use std::sync::Arc;
use crate::appearance::AppearanceStore;
use crate::entries::{
    distinct_keys, has_key, insert_entry, key_index, lemma_has_key, lemma_viewed_with_entry,
    named, viewed, with_entry,
};
use crate::geometry::{GeometryRef, GeometryStore};
use crate::object::{
    attributes_model, lemma_array_model, lemma_object_model, every_ref, lemma_with_entry_names, names_distinct, option_model,
    values_model, Entity, EntityModel, Object, ObjectModel, ObjectStereotype, StereotypeModel,
    Value, ValueModel,
};
use crate::schema::{
    attribute_map_entries, attribute_map_insert, type_map_entries, type_map_len,
    type_map_value_mut, Attribute, Schema, TypeDef, TypeRef,
};
use crate::text::{is_infix, is_suffix, reversed, share, str_contains, str_ends_with};

verus! {

/// Flattening option for the "feature" stereotype
#[derive(Debug, Copy, Clone, PartialEq, Eq, Structural)]
pub enum FeatureFlatteningOption {
    /// No feature flattening
    Off,
    /// Flatten all features except thematic surfaces
    AllExceptThematicSurfaces,
    /// Flatten all features
    All,
}

/// Flattening option for the "data" stereotype
#[derive(Debug, Copy, Clone, PartialEq, Eq, Structural)]
pub enum DataFlatteningOption {
    /// No data flattening
    Off,
    /// Flatten top-level data (i.e., data that is not a child of another data)
    TopLevelOnly,
    /// Flatten all data
    All,
}

/// Flattening option for the "object" stereotype
#[derive(Debug, Copy, Clone, PartialEq, Eq, Structural)]
pub enum ObjectFlatteningOption {
    /// No object flattening
    Off,
    /// Flatten all objects
    All,
}

/// The transform that flattens entity trees.
pub struct FlattenTreeTransform {
    feature: FeatureFlatteningOption,
    data: DataFlatteningOption,
    object: ObjectFlatteningOption,
}

/// The identified object below which a value was found.
pub struct Parent {
    pub id: String,
    pub typename: String,
}

/// What a [`Parent`] holds.
pub struct ParentModel {
    pub id: Seq<char>,
    pub typename: Seq<char>,
}

impl View for Parent {
    type V = ParentModel;

    open spec fn view(&self) -> ParentModel {
        ParentModel { id: self.id@, typename: self.typename@ }
    }
}

/// The model of an optional parent.
pub open spec fn parent_model(parent: Option<Parent>) -> Option<ParentModel> {
    match parent {
        Some(p) => Some(p@),
        None => None,
    }
}

/// The id that a stereotype carries, if it carries one.
pub open spec fn stereotype_id(s: StereotypeModel) -> Option<Seq<char>> {
    match s {
        StereotypeModel::Feature { id, .. } => Some(id),
        StereotypeModel::Data => None,
        StereotypeModel::Object { id } => Some(id),
    }
}

/// What an object is to the values below it: their parent, if it has an id.
pub open spec fn parent_of(obj: ObjectModel) -> Option<ParentModel> {
    match stereotype_id(obj.stereotype) {
        Some(id) => Some(ParentModel { id, typename: obj.typename }),
        None => None,
    }
}

/// Whether a type name is that of a thematic surface: it ends in
/// `Surface`, `Window` or `Door`, or holds `TrafficArea`.
pub open spec fn is_thematic_surface(typename: Seq<char>) -> bool {
    ||| is_suffix(typename, "Surface"@)
    ||| is_suffix(typename, "Window"@)
    ||| is_suffix(typename, "Door"@)
    ||| is_infix(typename, "TrafficArea"@)
}

/// How a tree is flattened at one place of it: the options for the three
/// kinds of objects, and whether the place lies within a data object, that
/// is, whether the innermost object around it is one.
pub struct Flattening {
    pub feature: FeatureFlatteningOption,
    pub data: DataFlatteningOption,
    pub object: ObjectFlatteningOption,
    pub within_data: bool,
}

/// The flattening of what lies within `obj`: the same options, within a
/// data object if `obj` is one.
pub open spec fn inside(option: Flattening, obj: ObjectModel) -> Flattening {
    Flattening { within_data: obj.stereotype is Data, ..option }
}

/// Whether an object is split off as an entity of its own under `option`.
/// A feature is split off as the option for features says, thematic
/// surfaces being known by their type names. A data object is split off
/// under `All`, and under `TopLevelOnly` unless it lies within a data
/// object. An object that is neither is split off under `All`.
pub open spec fn split_target(option: Flattening, obj: ObjectModel) -> bool {
    match obj.stereotype {
        StereotypeModel::Feature { .. } => match option.feature {
            FeatureFlatteningOption::Off => false,
            FeatureFlatteningOption::All => true,
            FeatureFlatteningOption::AllExceptThematicSurfaces => !is_thematic_surface(
                obj.typename,
            ),
        },
        StereotypeModel::Data => match option.data {
            DataFlatteningOption::Off => false,
            DataFlatteningOption::TopLevelOnly => !option.within_data,
            DataFlatteningOption::All => true,
        },
        StereotypeModel::Object { .. } => match option.object {
            ObjectFlatteningOption::Off => false,
            ObjectFlatteningOption::All => true,
        },
    }
}

/// An object with the id and type name of its parent set as attributes.
pub open spec fn with_parent(obj: ObjectModel, parent: Option<ParentModel>) -> ObjectModel {
    match parent {
        Some(p) => ObjectModel {
            attributes: with_entry(
                with_entry(obj.attributes, "parentId"@, ValueModel::String(p.id)),
                "parentType"@,
                ValueModel::String(p.typename),
            ),
            ..obj
        },
        None => obj,
    }
}

/// What flattening leaves of a value, and the objects split off from it in
/// the order in which they are emitted.
pub struct Flat {
    pub value: Option<ValueModel>,
    pub emitted: Seq<ObjectModel>,
}

/// What flattening leaves of a list of attributes, and the objects split
/// off from their values.
pub struct FlatAttributes {
    pub attributes: Seq<(Seq<char>, ValueModel)>,
    pub emitted: Seq<ObjectModel>,
}

/// What flattening leaves of the items of an array, and the objects split
/// off from them.
pub struct FlatItems {
    pub items: Seq<ValueModel>,
    pub emitted: Seq<ObjectModel>,
}

/// Flattening of one value found below `parent`.
///
/// An object is flattened attribute by attribute, itself being the parent
/// if it has an id; if it is to be split off, it is emitted last and
/// nothing of it stays. An array keeps the items of which something stays
/// and vanishes when none does. Any other value stays as it is.
pub open spec fn flat_value(
    option: Flattening,
    value: ValueModel,
    parent: Option<ParentModel>,
) -> Flat
    decreases value,
{
    match value {
        ValueModel::Object(obj) => {
            let inner = flat_attributes(inside(option, obj), obj.attributes, parent_of(obj));
            let kept = ObjectModel { attributes: inner.attributes, ..obj };
            if split_target(option, obj) {
                Flat { value: None, emitted: inner.emitted.push(with_parent(kept, parent)) }
            } else {
                Flat { value: Some(ValueModel::Object(kept)), emitted: inner.emitted }
            }
        },
        ValueModel::Array(items) => {
            let inner = flat_items(option, items, parent);
            Flat {
                value: if inner.items.len() == 0 {
                    None
                } else {
                    Some(ValueModel::Array(inner.items))
                },
                emitted: inner.emitted,
            }
        },
        _ => Flat { value: Some(value), emitted: Seq::empty() },
    }
}

/// Flattening of the values of a list of attributes, in order. An
/// attribute of whose value nothing stays is dropped.
pub open spec fn flat_attributes(
    option: Flattening,
    attributes: Seq<(Seq<char>, ValueModel)>,
    parent: Option<ParentModel>,
) -> FlatAttributes
    decreases attributes,
{
    if attributes.len() == 0 {
        FlatAttributes { attributes: Seq::empty(), emitted: Seq::empty() }
    } else {
        let head = flat_attributes(option, attributes.drop_last(), parent);
        let last = flat_value(option, attributes.last().1, parent);
        FlatAttributes {
            attributes: match last.value {
                Some(v) => with_entry(head.attributes, attributes.last().0, v),
                None => head.attributes,
            },
            emitted: head.emitted + last.emitted,
        }
    }
}

/// Flattening of the items of an array, in order. An item of which nothing
/// stays is dropped.
pub open spec fn flat_items(
    option: Flattening,
    items: Seq<ValueModel>,
    parent: Option<ParentModel>,
) -> FlatItems
    decreases items,
{
    if items.len() == 0 {
        FlatItems { items: Seq::empty(), emitted: Seq::empty() }
    } else {
        let head = flat_items(option, items.drop_last(), parent);
        let last = flat_value(option, items.last(), parent);
        FlatItems {
            items: match last.value {
                Some(v) => head.items.push(v),
                None => head.items,
            },
            emitted: head.emitted + last.emitted,
        }
    }
}

/// Setting an attribute keeps a property of all references of a list of
/// attributes, if the references of the value set have it.
proof fn lemma_with_entry_refs(
    attributes: Seq<(Seq<char>, ValueModel)>,
    key: Seq<char>,
    value: ValueModel,
    p: spec_fn(GeometryRef) -> bool,
)
    requires
        forall|i: int| 0 <= i < attributes.len() ==> every_ref((#[trigger] attributes[i]).1, p),
        every_ref(value, p),
    ensures
        forall|i: int|
            0 <= i < with_entry(attributes, key, value).len() ==> every_ref(
                (#[trigger] with_entry(attributes, key, value)[i]).1,
                p,
            ),
{
    let after = with_entry(attributes, key, value);
    if has_key(attributes, key) {
        lemma_has_key(attributes, key);
    }
    assert forall|i: int| 0 <= i < after.len() implies every_ref((#[trigger] after[i]).1, p) by {
        if i < attributes.len() && after[i] == attributes[i] {
            assert(every_ref(attributes[i].1, p));
        }
    }
}

/// Flattening moves geometry references and makes none: whatever holds of
/// every reference found in a value holds of every reference found in
/// what stays of the value and in each object split off from it.
pub proof fn lemma_flat_value_keeps_refs(
    option: Flattening,
    value: ValueModel,
    parent: Option<ParentModel>,
    p: spec_fn(GeometryRef) -> bool,
)
    requires
        every_ref(value, p),
    ensures
        flat_value(option, value, parent).value matches Some(v) ==> every_ref(v, p),
        forall|k: int|
            0 <= k < flat_value(option, value, parent).emitted.len() ==> every_ref(
                ValueModel::Object(#[trigger] flat_value(option, value, parent).emitted[k]),
                p,
            ),
    decreases value,
{
    match value {
        ValueModel::Object(obj) => {
            lemma_flat_attributes_keep_refs(inside(option, obj), obj.attributes, parent_of(obj), p);
            let inner = flat_attributes(inside(option, obj), obj.attributes, parent_of(obj));
            let kept = ObjectModel { attributes: inner.attributes, ..obj };
            assert(every_ref(ValueModel::Object(kept), p));
            if split_target(option, obj) {
                let sent = with_parent(kept, parent);
                match parent {
                    Some(q) => {
                        let first = with_entry(
                            kept.attributes,
                            "parentId"@,
                            ValueModel::String(q.id),
                        );
                        lemma_with_entry_refs(
                            kept.attributes,
                            "parentId"@,
                            ValueModel::String(q.id),
                            p,
                        );
                        lemma_with_entry_refs(
                            first,
                            "parentType"@,
                            ValueModel::String(q.typename),
                            p,
                        );
                    },
                    None => {},
                }
                assert(every_ref(ValueModel::Object(sent), p));
                let emitted = inner.emitted.push(sent);
                assert forall|k: int| 0 <= k < emitted.len() implies every_ref(
                    ValueModel::Object(#[trigger] emitted[k]),
                    p,
                ) by {
                    if k < inner.emitted.len() {
                        assert(emitted[k] == inner.emitted[k]);
                    }
                }
            }
        },
        ValueModel::Array(items) => {
            lemma_flat_items_keep_refs(option, items, parent, p);
        },
        _ => {},
    }
}

/// The same for a list of attributes.
pub proof fn lemma_flat_attributes_keep_refs(
    option: Flattening,
    attributes: Seq<(Seq<char>, ValueModel)>,
    parent: Option<ParentModel>,
    p: spec_fn(GeometryRef) -> bool,
)
    requires
        forall|i: int| 0 <= i < attributes.len() ==> every_ref((#[trigger] attributes[i]).1, p),
    ensures
        forall|i: int|
            0 <= i < flat_attributes(option, attributes, parent).attributes.len() ==> every_ref(
                (#[trigger] flat_attributes(option, attributes, parent).attributes[i]).1,
                p,
            ),
        forall|k: int|
            0 <= k < flat_attributes(option, attributes, parent).emitted.len() ==> every_ref(
                ValueModel::Object(#[trigger] flat_attributes(option, attributes, parent).emitted[k]),
                p,
            ),
    decreases attributes,
{
    if attributes.len() > 0 {
        let head = flat_attributes(option, attributes.drop_last(), parent);
        let last = flat_value(option, attributes.last().1, parent);
        assert forall|i: int| 0 <= i < attributes.drop_last().len() implies every_ref(
            (#[trigger] attributes.drop_last()[i]).1,
            p,
        ) by {
            assert(attributes.drop_last()[i] == attributes[i]);
        }
        lemma_flat_attributes_keep_refs(option, attributes.drop_last(), parent, p);
        assert(every_ref(attributes[attributes.len() - 1].1, p));
        lemma_flat_value_keeps_refs(option, attributes.last().1, parent, p);
        match last.value {
            Some(v) => {
                lemma_with_entry_refs(head.attributes, attributes.last().0, v, p);
            },
            None => {},
        }
        let emitted = head.emitted + last.emitted;
        assert forall|k: int| 0 <= k < emitted.len() implies every_ref(
            ValueModel::Object(#[trigger] emitted[k]),
            p,
        ) by {
            if k < head.emitted.len() {
                assert(emitted[k] == head.emitted[k]);
            } else {
                assert(emitted[k] == last.emitted[k - head.emitted.len()]);
            }
        }
    }
}

/// The same for the items of an array.
pub proof fn lemma_flat_items_keep_refs(
    option: Flattening,
    items: Seq<ValueModel>,
    parent: Option<ParentModel>,
    p: spec_fn(GeometryRef) -> bool,
)
    requires
        forall|i: int| 0 <= i < items.len() ==> every_ref(#[trigger] items[i], p),
    ensures
        forall|i: int|
            0 <= i < flat_items(option, items, parent).items.len() ==> every_ref(
                #[trigger] flat_items(option, items, parent).items[i],
                p,
            ),
        forall|k: int|
            0 <= k < flat_items(option, items, parent).emitted.len() ==> every_ref(
                ValueModel::Object(#[trigger] flat_items(option, items, parent).emitted[k]),
                p,
            ),
    decreases items,
{
    if items.len() > 0 {
        let head = flat_items(option, items.drop_last(), parent);
        let last = flat_value(option, items.last(), parent);
        assert forall|i: int| 0 <= i < items.drop_last().len() implies every_ref(
            #[trigger] items.drop_last()[i],
            p,
        ) by {
            assert(items.drop_last()[i] == items[i]);
        }
        lemma_flat_items_keep_refs(option, items.drop_last(), parent, p);
        assert(every_ref(items[items.len() - 1], p));
        lemma_flat_value_keeps_refs(option, items.last(), parent, p);
        let kept = flat_items(option, items, parent).items;
        assert forall|i: int| 0 <= i < kept.len() implies every_ref(#[trigger] kept[i], p) by {
            if i < head.items.len() {
                assert(kept[i] == head.items[i]);
            }
        }
        let emitted = head.emitted + last.emitted;
        assert forall|k: int| 0 <= k < emitted.len() implies every_ref(
            ValueModel::Object(#[trigger] emitted[k]),
            p,
        ) by {
            if k < head.emitted.len() {
                assert(emitted[k] == head.emitted[k]);
            } else {
                assert(emitted[k] == last.emitted[k - head.emitted.len()]);
            }
        }
    }
}

/// Flattening leaves no object with two attributes of the same name,
/// whatever it was given: neither in what stays of a value nor in an
/// object split off from it.
pub proof fn lemma_flat_value_names(
    option: Flattening,
    value: ValueModel,
    parent: Option<ParentModel>,
)
    ensures
        flat_value(option, value, parent).value matches Some(v) ==> names_distinct(v),
        forall|k: int|
            0 <= k < flat_value(option, value, parent).emitted.len() ==> names_distinct(
                ValueModel::Object(#[trigger] flat_value(option, value, parent).emitted[k]),
            ),
    decreases value,
{
    match value {
        ValueModel::Object(obj) => {
            lemma_flat_attributes_names(inside(option, obj), obj.attributes, parent_of(obj));
            let inner = flat_attributes(inside(option, obj), obj.attributes, parent_of(obj));
            let kept = ObjectModel { attributes: inner.attributes, ..obj };
            assert(names_distinct(ValueModel::Object(kept)));
            if split_target(option, obj) {
                let sent = with_parent(kept, parent);
                match parent {
                    Some(q) => {
                        let first = with_entry(
                            kept.attributes,
                            "parentId"@,
                            ValueModel::String(q.id),
                        );
                        lemma_with_entry_names(
                            kept.attributes,
                            "parentId"@,
                            ValueModel::String(q.id),
                        );
                        lemma_with_entry_names(
                            first,
                            "parentType"@,
                            ValueModel::String(q.typename),
                        );
                    },
                    None => {},
                }
                assert(names_distinct(ValueModel::Object(sent)));
                let emitted = inner.emitted.push(sent);
                assert forall|k: int| 0 <= k < emitted.len() implies names_distinct(
                    ValueModel::Object(#[trigger] emitted[k]),
                ) by {
                    if k < inner.emitted.len() {
                        assert(emitted[k] == inner.emitted[k]);
                    }
                }
            }
        },
        ValueModel::Array(items) => {
            lemma_flat_items_names(option, items, parent);
        },
        _ => {},
    }
}

/// The same for a list of attributes.
pub proof fn lemma_flat_attributes_names(
    option: Flattening,
    attributes: Seq<(Seq<char>, ValueModel)>,
    parent: Option<ParentModel>,
)
    ensures
        crate::entries::distinct_keys(flat_attributes(option, attributes, parent).attributes),
        forall|i: int|
            0 <= i < flat_attributes(option, attributes, parent).attributes.len()
                ==> names_distinct(
                (#[trigger] flat_attributes(option, attributes, parent).attributes[i]).1,
            ),
        forall|k: int|
            0 <= k < flat_attributes(option, attributes, parent).emitted.len() ==> names_distinct(
                ValueModel::Object(#[trigger] flat_attributes(option, attributes, parent).emitted[k]),
            ),
    decreases attributes,
{
    if attributes.len() > 0 {
        let head = flat_attributes(option, attributes.drop_last(), parent);
        let last = flat_value(option, attributes.last().1, parent);
        lemma_flat_attributes_names(option, attributes.drop_last(), parent);
        lemma_flat_value_names(option, attributes.last().1, parent);
        match last.value {
            Some(v) => {
                lemma_with_entry_names(head.attributes, attributes.last().0, v);
            },
            None => {},
        }
        let emitted = head.emitted + last.emitted;
        assert forall|k: int| 0 <= k < emitted.len() implies names_distinct(
            ValueModel::Object(#[trigger] emitted[k]),
        ) by {
            if k < head.emitted.len() {
                assert(emitted[k] == head.emitted[k]);
            } else {
                assert(emitted[k] == last.emitted[k - head.emitted.len()]);
            }
        }
    }
}

/// The same for the items of an array.
pub proof fn lemma_flat_items_names(
    option: Flattening,
    items: Seq<ValueModel>,
    parent: Option<ParentModel>,
)
    ensures
        forall|i: int|
            0 <= i < flat_items(option, items, parent).items.len() ==> names_distinct(
                #[trigger] flat_items(option, items, parent).items[i],
            ),
        forall|k: int|
            0 <= k < flat_items(option, items, parent).emitted.len() ==> names_distinct(
                ValueModel::Object(#[trigger] flat_items(option, items, parent).emitted[k]),
            ),
    decreases items,
{
    if items.len() > 0 {
        let head = flat_items(option, items.drop_last(), parent);
        let last = flat_value(option, items.last(), parent);
        lemma_flat_items_names(option, items.drop_last(), parent);
        lemma_flat_value_names(option, items.last(), parent);
        let kept = flat_items(option, items, parent).items;
        assert forall|i: int| 0 <= i < kept.len() implies names_distinct(#[trigger] kept[i]) by {
            if i < head.items.len() {
                assert(kept[i] == head.items[i]);
            }
        }
        let emitted = head.emitted + last.emitted;
        assert forall|k: int| 0 <= k < emitted.len() implies names_distinct(
            ValueModel::Object(#[trigger] emitted[k]),
        ) by {
            if k < head.emitted.len() {
                assert(emitted[k] == head.emitted[k]);
            } else {
                assert(emitted[k] == last.emitted[k - head.emitted.len()]);
            }
        }
    }
}

/// The attribute that holds the id or the type name of a parent: an
/// optional string.
pub open spec fn parent_attribute() -> Attribute {
    Attribute { type_ref: TypeRef::String, min_occurs: 0, max_occurs: Some(1u16) }
}

/// Whether the named type `after` is the named type `before` with the two
/// parent attributes declared: a feature type has `parentId` and
/// `parentType` set, in this order, and any other type is unchanged.
pub open spec fn with_parent_attributes(
    before: (Seq<char>, TypeDef),
    after: (Seq<char>, TypeDef),
) -> bool {
    &&& after.0 == before.0
    &&& match before.1 {
        TypeDef::Feature(f) => {
            &&& after.1 matches TypeDef::Feature(g)
            &&& g.additional_attributes == f.additional_attributes
            &&& attribute_map_entries(g.attributes) == with_entry(
                with_entry(attribute_map_entries(f.attributes), "parentId"@, parent_attribute()),
                "parentType"@,
                parent_attribute(),
            )
        },
        _ => after.1 == before.1,
    }
}

/// The entities that stand for objects split off: each object is the root
/// of one entity with the given base URL and stores.
pub open spec fn emitted_entities(
    objects: Seq<ObjectModel>,
    base_url: Seq<char>,
    geometry_store: GeometryStore,
    appearance_store: AppearanceStore,
) -> Seq<EntityModel> {
    Seq::new(
        objects.len(),
        |i: int|
            EntityModel {
                root: ValueModel::Object(objects[i]),
                base_url,
                geometry_store,
                appearance_store,
            },
    )
}

/// What flattening gives for one entity: an entity for each object split
/// off, in the order in which they are met, then what stays of the root, if
/// anything does. Each has the base URL and the stores of `entity`.
pub open spec fn flattened(
    option: Flattening,
    entity: EntityModel,
) -> Seq<EntityModel> {
    let flat = flat_value(option, entity.root, None);
    let split = emitted_entities(
        flat.emitted,
        entity.base_url,
        entity.geometry_store,
        entity.appearance_store,
    );
    match flat.value {
        Some(root) => split.push(EntityModel { root, ..entity }),
        None => split,
    }
}

/// Every entity that flattening gives has the base URL and the stores of
/// the entity flattened.
pub proof fn lemma_flattened_keeps_source(option: Flattening, entity: EntityModel)
    ensures
        forall|k: int|
            0 <= k < flattened(option, entity).len() ==> {
                let e = #[trigger] flattened(option, entity)[k];
                &&& e.base_url == entity.base_url
                &&& e.geometry_store == entity.geometry_store
                &&& e.appearance_store == entity.appearance_store
            },
{
}

/// Flattening loses no root: an entity whose root is an object comes out
/// last, with what stays of its attributes, whether it is split off or not.
pub proof fn lemma_flattened_keeps_root(option: Flattening, entity: EntityModel)
    requires
        entity.root is Object,
    ensures
        flattened(option, entity).len() >= 1,
        flattened(option, entity).last() == (EntityModel {
            root: ValueModel::Object(
                ObjectModel {
                    attributes: flat_attributes(
                        inside(option, entity.root->Object_0),
                        entity.root->Object_0.attributes,
                        parent_of(entity.root->Object_0),
                    ).attributes,
                    ..entity.root->Object_0
                },
            ),
            ..entity
        }),
{
}

/// Whether no kind of object is split off under `option`.
pub open spec fn all_off(option: Flattening) -> bool {
    option.feature is Off && option.data is Off && option.object is Off
}

/// With flattening off no object is split off from a value.
pub proof fn lemma_off_splits_nothing(
    option: Flattening,
    value: ValueModel,
    parent: Option<ParentModel>,
)
    requires
        all_off(option),
    ensures
        flat_value(option, value, parent).emitted == Seq::<ObjectModel>::empty(),
    decreases value,
{
    match value {
        ValueModel::Object(obj) => {
            lemma_off_splits_no_attribute(inside(option, obj), obj.attributes, parent_of(obj));
        },
        ValueModel::Array(items) => {
            lemma_off_splits_no_item(option, items, parent);
        },
        _ => {},
    }
}

/// The same for the values of a list of attributes.
pub proof fn lemma_off_splits_no_attribute(
    option: Flattening,
    attributes: Seq<(Seq<char>, ValueModel)>,
    parent: Option<ParentModel>,
)
    requires
        all_off(option),
    ensures
        flat_attributes(option, attributes, parent).emitted == Seq::<ObjectModel>::empty(),
    decreases attributes,
{
    if attributes.len() > 0 {
        lemma_off_splits_no_attribute(option, attributes.drop_last(), parent);
        lemma_off_splits_nothing(option, attributes.last().1, parent);
        assert(Seq::<ObjectModel>::empty() + Seq::<ObjectModel>::empty() =~= Seq::<
            ObjectModel,
        >::empty());
    }
}

/// The same for the items of an array.
pub proof fn lemma_off_splits_no_item(
    option: Flattening,
    items: Seq<ValueModel>,
    parent: Option<ParentModel>,
)
    requires
        all_off(option),
    ensures
        flat_items(option, items, parent).emitted == Seq::<ObjectModel>::empty(),
    decreases items,
{
    if items.len() > 0 {
        lemma_off_splits_no_item(option, items.drop_last(), parent);
        lemma_off_splits_nothing(option, items.last(), parent);
        assert(Seq::<ObjectModel>::empty() + Seq::<ObjectModel>::empty() =~= Seq::<
            ObjectModel,
        >::empty());
    }
}

/// The number of features found in a value, the value itself included.
pub open spec fn features_in(value: ValueModel) -> nat
    decreases value,
{
    match value {
        ValueModel::Object(obj) => (if obj.stereotype is Feature {
            1nat
        } else {
            0nat
        }) + features_in_attributes(obj.attributes),
        ValueModel::Array(items) => features_in_items(items),
        _ => 0,
    }
}

/// The number of features found in the values of a list of attributes.
pub open spec fn features_in_attributes(attributes: Seq<(Seq<char>, ValueModel)>) -> nat
    decreases attributes,
{
    if attributes.len() == 0 {
        0
    } else {
        features_in_attributes(attributes.drop_last()) + features_in(attributes.last().1)
    }
}

/// The number of features found in the items of an array.
pub open spec fn features_in_items(items: Seq<ValueModel>) -> nat
    decreases items,
{
    if items.len() == 0 {
        0
    } else {
        features_in_items(items.drop_last()) + features_in(items.last())
    }
}

/// The number of features found in a list of objects.
pub open spec fn features_in_objects(objects: Seq<ObjectModel>) -> nat
    decreases objects.len(),
{
    if objects.len() == 0 {
        0
    } else {
        features_in_objects(objects.drop_last()) + features_in(
            ValueModel::Object(objects.last()),
        )
    }
}

/// The number of features found in what may be a value.
pub open spec fn features_in_option(value: Option<ValueModel>) -> nat {
    match value {
        Some(v) => features_in(v),
        None => 0,
    }
}

/// No object found in `value` has an attribute named `parentId` or
/// `parentType`.
pub open spec fn parent_names_free(value: ValueModel) -> bool
    decreases value,
{
    match value {
        ValueModel::Object(obj) => {
            &&& !has_key(obj.attributes, "parentId"@)
            &&& !has_key(obj.attributes, "parentType"@)
            &&& forall|i: int|
                0 <= i < obj.attributes.len() ==> parent_names_free(
                    (#[trigger] obj.attributes[i]).1,
                )
        },
        ValueModel::Array(items) => forall|i: int|
            0 <= i < items.len() ==> parent_names_free(#[trigger] items[i]),
        _ => true,
    }
}

proof fn lemma_features_in_objects_sum(a: Seq<ObjectModel>, b: Seq<ObjectModel>)
    ensures
        features_in_objects(a + b) == features_in_objects(a) + features_in_objects(b),
    decreases b.len(),
{
    if b.len() == 0 {
        assert(a + b =~= a);
    } else {
        assert((a + b).drop_last() =~= a + b.drop_last());
        assert((a + b).last() == b.last());
        lemma_features_in_objects_sum(a, b.drop_last());
    }
}

proof fn lemma_with_entry_keys(
    entries: Seq<(Seq<char>, ValueModel)>,
    key: Seq<char>,
    value: ValueModel,
    other: Seq<char>,
)
    requires
        has_key(with_entry(entries, key, value), other),
    ensures
        other == key || has_key(entries, other),
{
    let after = with_entry(entries, key, value);
    let i = choose|i: int| 0 <= i < after.len() && (#[trigger] after[i]).0 == other;
    if has_key(entries, key) {
        lemma_has_key(entries, key);
        if i != key_index(entries, key) {
            assert(entries[i].0 == other);
        }
    } else {
        if i < entries.len() {
            assert(entries[i].0 == other);
        }
    }
}

/// Flattening gives no attribute a name that was not there.
proof fn lemma_flat_attributes_keys(
    option: Flattening,
    attributes: Seq<(Seq<char>, ValueModel)>,
    parent: Option<ParentModel>,
    key: Seq<char>,
)
    requires
        has_key(flat_attributes(option, attributes, parent).attributes, key),
    ensures
        has_key(attributes, key),
    decreases attributes,
{
    if attributes.len() > 0 {
        let head = flat_attributes(option, attributes.drop_last(), parent);
        let last = flat_value(option, attributes.last().1, parent);
        let inherited = match last.value {
            Some(v) => {
                lemma_with_entry_keys(head.attributes, attributes.last().0, v, key);
                key != attributes.last().0
            },
            None => true,
        };
        if inherited {
            lemma_flat_attributes_keys(option, attributes.drop_last(), parent, key);
            let i = choose|i: int|
                0 <= i < attributes.drop_last().len() && (#[trigger] attributes.drop_last()[i]).0
                    == key;
            assert(attributes[i].0 == key);
        } else {
            assert(attributes[attributes.len() - 1].0 == key);
        }
    }
}

/// Flattening loses no feature of a value in which no object has two
/// attributes of one name or an attribute named `parentId` or `parentType`:
/// the features found in what stays of the value and in the objects split
/// off are as many as the features found in the value.
pub proof fn lemma_flat_value_keeps_features(
    option: Flattening,
    value: ValueModel,
    parent: Option<ParentModel>,
)
    requires
        names_distinct(value),
        parent_names_free(value),
    ensures
        features_in(value) == features_in_option(flat_value(option, value, parent).value)
            + features_in_objects(flat_value(option, value, parent).emitted),
    decreases value,
{
    match value {
        ValueModel::Object(obj) => {
            lemma_flat_attributes_keep_features(inside(option, obj), obj.attributes, parent_of(obj));
            let inner = flat_attributes(inside(option, obj), obj.attributes, parent_of(obj));
            let kept = ObjectModel { attributes: inner.attributes, ..obj };
            if split_target(option, obj) {
                let sent = with_parent(kept, parent);
                match parent {
                    Some(q) => {
                        reveal_strlit("parentId");
                        reveal_strlit("parentType");
                        assert("parentId"@.len() != "parentType"@.len());
                        if has_key(kept.attributes, "parentId"@) {
                            lemma_flat_attributes_keys(
                                inside(option, obj),
                                obj.attributes,
                                parent_of(obj),
                                "parentId"@,
                            );
                        }
                        let first = kept.attributes.push(("parentId"@, ValueModel::String(q.id)));
                        assert(first == with_entry(
                            kept.attributes,
                            "parentId"@,
                            ValueModel::String(q.id),
                        ));
                        if has_key(first, "parentType"@) {
                            lemma_with_entry_keys(
                                kept.attributes,
                                "parentId"@,
                                ValueModel::String(q.id),
                                "parentType"@,
                            );
                            lemma_flat_attributes_keys(
                                inside(option, obj),
                                obj.attributes,
                                parent_of(obj),
                                "parentType"@,
                            );
                        }
                        let second = first.push(("parentType"@, ValueModel::String(q.typename)));
                        assert(sent.attributes == second);
                        assert(first.drop_last() =~= kept.attributes);
                        assert(second.drop_last() =~= first);
                        assert(first.last().1 == ValueModel::String(q.id));
                        assert(features_in(first.last().1) == 0);
                        assert(features_in_attributes(first) == features_in_attributes(
                            first.drop_last(),
                        ) + features_in(first.last().1));
                        assert(second.last().1 == ValueModel::String(q.typename));
                        assert(features_in(second.last().1) == 0);
                        assert(features_in_attributes(second) == features_in_attributes(
                            second.drop_last(),
                        ) + features_in(second.last().1));
                    },
                    None => {},
                }
                assert(features_in(ValueModel::Object(sent)) == features_in(
                    ValueModel::Object(kept),
                ));
                let emitted = inner.emitted.push(sent);
                assert(emitted.drop_last() =~= inner.emitted);
                assert(emitted.last() == sent);
            }
        },
        ValueModel::Array(items) => {
            lemma_flat_items_keep_features(option, items, parent);
        },
        _ => {},
    }
}

/// The same for the values of a list of attributes with distinct names.
pub proof fn lemma_flat_attributes_keep_features(
    option: Flattening,
    attributes: Seq<(Seq<char>, ValueModel)>,
    parent: Option<ParentModel>,
)
    requires
        distinct_keys(attributes),
        forall|i: int| 0 <= i < attributes.len() ==> names_distinct((#[trigger] attributes[i]).1),
        forall|i: int|
            0 <= i < attributes.len() ==> parent_names_free((#[trigger] attributes[i]).1),
    ensures
        features_in_attributes(attributes) == features_in_attributes(
            flat_attributes(option, attributes, parent).attributes,
        ) + features_in_objects(flat_attributes(option, attributes, parent).emitted),
    decreases attributes,
{
    if attributes.len() > 0 {
        let rest = attributes.drop_last();
        let head = flat_attributes(option, rest, parent);
        let last = flat_value(option, attributes.last().1, parent);
        assert forall|i: int, j: int| 0 <= i < j < rest.len() implies (#[trigger] rest[i]).0 != (
        #[trigger] rest[j]).0 by {
            assert(rest[i] == attributes[i] && rest[j] == attributes[j]);
        }
        assert forall|i: int| 0 <= i < rest.len() implies names_distinct((#[trigger] rest[i]).1)
            && parent_names_free(rest[i].1) by {
            assert(rest[i] == attributes[i]);
        }
        lemma_flat_attributes_keep_features(option, rest, parent);
        lemma_flat_value_keeps_features(option, attributes.last().1, parent);
        lemma_features_in_objects_sum(head.emitted, last.emitted);
        match last.value {
            Some(v) => {
                let key = attributes.last().0;
                if has_key(head.attributes, key) {
                    lemma_flat_attributes_keys(option, rest, parent, key);
                    let i = choose|i: int| 0 <= i < rest.len() && (#[trigger] rest[i]).0 == key;
                    assert(attributes[i].0 == key);
                    assert(attributes[attributes.len() - 1].0 == key);
                }
                let after = head.attributes.push((key, v));
                assert(after == with_entry(head.attributes, key, v));
                assert(after.drop_last() =~= head.attributes);
            },
            None => {},
        }
    }
}

/// The same for the items of an array.
pub proof fn lemma_flat_items_keep_features(
    option: Flattening,
    items: Seq<ValueModel>,
    parent: Option<ParentModel>,
)
    requires
        forall|i: int| 0 <= i < items.len() ==> names_distinct(#[trigger] items[i]),
        forall|i: int| 0 <= i < items.len() ==> parent_names_free(#[trigger] items[i]),
    ensures
        features_in_items(items) == features_in_items(flat_items(option, items, parent).items)
            + features_in_objects(flat_items(option, items, parent).emitted),
    decreases items,
{
    if items.len() > 0 {
        let rest = items.drop_last();
        let head = flat_items(option, rest, parent);
        let last = flat_value(option, items.last(), parent);
        assert forall|i: int| 0 <= i < rest.len() implies names_distinct(#[trigger] rest[i])
            && parent_names_free(rest[i]) by {
            assert(rest[i] == items[i]);
        }
        lemma_flat_items_keep_features(option, rest, parent);
        lemma_flat_value_keeps_features(option, items.last(), parent);
        lemma_features_in_objects_sum(head.emitted, last.emitted);
        match last.value {
            Some(v) => {
                assert(head.items.push(v).drop_last() =~= head.items);
            },
            None => {},
        }
    }
}

/// The number of features found in the roots of a list of entities.
pub open spec fn features_in_entities(entities: Seq<EntityModel>) -> nat
    decreases entities.len(),
{
    if entities.len() == 0 {
        0
    } else {
        features_in_entities(entities.drop_last()) + features_in(entities.last().root)
    }
}

proof fn lemma_features_in_emitted(
    objects: Seq<ObjectModel>,
    base_url: Seq<char>,
    geometry_store: GeometryStore,
    appearance_store: AppearanceStore,
)
    ensures
        features_in_entities(
            emitted_entities(objects, base_url, geometry_store, appearance_store),
        ) == features_in_objects(objects),
    decreases objects.len(),
{
    let entities = emitted_entities(objects, base_url, geometry_store, appearance_store);
    if objects.len() > 0 {
        lemma_features_in_emitted(
            objects.drop_last(),
            base_url,
            geometry_store,
            appearance_store,
        );
        assert(entities.drop_last() =~= emitted_entities(
            objects.drop_last(),
            base_url,
            geometry_store,
            appearance_store,
        ));
        assert(entities.last().root == ValueModel::Object(objects.last()));
    }
}

/// Flattening an entity loses no feature, where no object of the entity
/// has two attributes of one name or an attribute named `parentId` or
/// `parentType`: the features found in the entities that come out are as
/// many as the features found in the entity.
pub proof fn lemma_flattened_keeps_features(option: Flattening, entity: EntityModel)
    requires
        names_distinct(entity.root),
        parent_names_free(entity.root),
    ensures
        features_in_entities(flattened(option, entity)) == features_in(entity.root),
{
    let flat = flat_value(option, entity.root, None);
    let split = emitted_entities(
        flat.emitted,
        entity.base_url,
        entity.geometry_store,
        entity.appearance_store,
    );
    lemma_flat_value_keeps_features(option, entity.root, None);
    lemma_features_in_emitted(
        flat.emitted,
        entity.base_url,
        entity.geometry_store,
        entity.appearance_store,
    );
    match flat.value {
        Some(root) => {
            let all = split.push(EntityModel { root, ..entity });
            assert(all.drop_last() =~= split);
            assert(all.last().root == root);
        },
        None => {},
    }
}

/// The models of a list of entities.
pub open spec fn entity_models(entities: Seq<Entity>) -> Seq<EntityModel> {
    Seq::new(entities.len(), |i: int| entities[i]@)
}

/// Emits `obj` as an entity of its own, with the id and type name of
/// `parent` set as attributes if there is a parent.
fn emit(
    obj: Object,
    base_url: &String,
    geom_store: &Arc<GeometryStore>,
    appearance_store: &Arc<AppearanceStore>,
    out: &mut Vec<Entity>,
    parent: &Option<Parent>,
)
    ensures
        entity_models(final(out)@) == entity_models(old(out)@).push(
            EntityModel {
                root: ValueModel::Object(with_parent(obj@, parent_model(*parent))),
                base_url: base_url@,
                geometry_store: **geom_store,
                appearance_store: **appearance_store,
            },
        ),
{
    let ghost given = obj@;
    let mut obj = obj;
    // set parent id and type to attributes
    match parent {
        Some(p) => {
            let ghost entries = named(obj.attributes@);
            let id_value = Value::String(p.id.clone());
            insert_entry(&mut obj.attributes, "parentId".to_owned(), id_value);
            let ghost entries2 = named(obj.attributes@);
            let type_value = Value::String(p.typename.clone());
            insert_entry(&mut obj.attributes, "parentType".to_owned(), type_value);
            proof {
                lemma_viewed_with_entry(entries, "parentId"@, id_value);
                lemma_viewed_with_entry(entries2, "parentType"@, type_value);
                assert(obj@.attributes =~= viewed(named(obj.attributes@)));
                assert(given.attributes =~= viewed(entries));
            }
        },
        None => {},
    }
    proof {
        lemma_object_model(obj);
    }
    let entity = Entity {
        root: Value::Object(obj),
        base_url: base_url.clone(),
        geometry_store: share(geom_store),
        appearance_store: share(appearance_store),
    };
    out.push(entity);
    assert(entity_models(out@) =~= entity_models(old(out)@).push(entity@));
}

impl Default for FlattenTreeTransform {
    /// A transform that flattens nothing.
    fn default() -> (r: Self)
        ensures
            r.feature_option() == FeatureFlatteningOption::Off,
            r.data_option() == DataFlatteningOption::Off,
            r.object_option() == ObjectFlatteningOption::Off,
    {
        FlattenTreeTransform {
            feature: FeatureFlatteningOption::Off,
            data: DataFlatteningOption::Off,
            object: ObjectFlatteningOption::Off,
        }
    }
}

impl FlattenTreeTransform {
    /// The option set for features.
    pub closed spec fn feature_option(&self) -> FeatureFlatteningOption {
        self.feature
    }

    /// The option set for data.
    pub closed spec fn data_option(&self) -> DataFlatteningOption {
        self.data
    }

    /// The option set for objects.
    pub closed spec fn object_option(&self) -> ObjectFlatteningOption {
        self.object
    }

    /// How the transform flattens at a place that lies within a data
    /// object or not, as `within_data` says.
    pub open spec fn policy(&self, within_data: bool) -> Flattening {
        Flattening {
            feature: self.feature_option(),
            data: self.data_option(),
            object: self.object_option(),
            within_data,
        }
    }

    /// A transform that flattens nothing.
    pub fn new() -> (r: Self)
        ensures
            r.feature_option() == FeatureFlatteningOption::Off,
            r.data_option() == DataFlatteningOption::Off,
            r.object_option() == ObjectFlatteningOption::Off,
    {
        FlattenTreeTransform {
            feature: FeatureFlatteningOption::Off,
            data: DataFlatteningOption::Off,
            object: ObjectFlatteningOption::Off,
        }
    }

    /// A transform with the given options.
    pub fn with_options(
        feature: FeatureFlatteningOption,
        data: DataFlatteningOption,
        object: ObjectFlatteningOption,
    ) -> (r: Self)
        ensures
            r.feature_option() == feature,
            r.data_option() == data,
            r.object_option() == object,
    {
        FlattenTreeTransform { feature, data, object }
    }

    /// Sets the option for features and leaves the others.
    pub fn set_feature_option(&mut self, option: FeatureFlatteningOption)
        ensures
            final(self).feature_option() == option,
            final(self).data_option() == old(self).data_option(),
            final(self).object_option() == old(self).object_option(),
    {
        self.feature = option;
    }

    /// Sets the option for data and leaves the others.
    pub fn set_data_option(&mut self, option: DataFlatteningOption)
        ensures
            final(self).feature_option() == old(self).feature_option(),
            final(self).data_option() == option,
            final(self).object_option() == old(self).object_option(),
    {
        self.data = option;
    }

    /// Sets the option for objects and leaves the others.
    pub fn set_object_option(&mut self, option: ObjectFlatteningOption)
        ensures
            final(self).feature_option() == old(self).feature_option(),
            final(self).data_option() == old(self).data_option(),
            final(self).object_option() == option,
    {
        self.object = option;
    }

    /// Whether `obj` is split off as an entity of its own where it does
    /// not lie within a data object.
    pub fn is_split_target(&self, obj: &Object) -> (b: bool)
        ensures
            b == split_target(self.policy(false), obj@),
    {
        self.is_split_target_at(obj, false)
    }

    /// Whether `obj` is split off as an entity of its own, lying within a
    /// data object or not, as `within_data` says.
    pub fn is_split_target_at(&self, obj: &Object, within_data: bool) -> (b: bool)
        ensures
            b == split_target(self.policy(within_data), obj@),
    {
        match &obj.stereotype {
            ObjectStereotype::Feature { .. } => match self.feature {
                FeatureFlatteningOption::Off => false,
                FeatureFlatteningOption::All => true,
                FeatureFlatteningOption::AllExceptThematicSurfaces => {
                    let name = obj.typename.as_str();
                    !str_ends_with(name, "Surface") && !str_ends_with(name, "Window")
                        && !str_ends_with(name, "Door") && !str_contains(name, "TrafficArea")
                },
            },
            ObjectStereotype::Data => match self.data {
                DataFlatteningOption::Off => false,
                DataFlatteningOption::TopLevelOnly => !within_data,
                DataFlatteningOption::All => true,
            },
            ObjectStereotype::Object { .. } => match self.object {
                ObjectFlatteningOption::Off => false,
                ObjectFlatteningOption::All => true,
            },
        }
    }

    /// Flattens `value`, found below `parent`: returns what stays of it and
    /// appends to `out`, for each object split off, an entity that shares
    /// the given stores.
    pub fn flatten_feature(
        &self,
        value: Value,
        base_url: &String,
        geom_store: &Arc<GeometryStore>,
        appearance_store: &Arc<AppearanceStore>,
        out: &mut Vec<Entity>,
        parent: &Option<Parent>,
        within_data: bool,
    ) -> (r: Option<Value>)
        ensures
            option_model(r) == flat_value(
                self.policy(within_data),
                value@,
                parent_model(*parent),
            ).value,
            entity_models(final(out)@) == entity_models(old(out)@) + emitted_entities(
                flat_value(self.policy(within_data), value@, parent_model(*parent)).emitted,
                base_url@,
                **geom_store,
                **appearance_store,
            ),
        decreases value, 1nat,
    {
        let ghost option = self.policy(within_data);
        let ghost before = entity_models(out@);
        match value {
            Value::Object(obj) => {
                proof {
                    lemma_object_model(obj);
                }
                let ghost obj_model = obj@;
                let split = self.is_split_target_at(&obj, within_data);
                let Object { typename, attributes, stereotype } = obj;
                let inner_within = match &stereotype {
                    ObjectStereotype::Data => true,
                    _ => false,
                };
                let new_parent = match &stereotype {
                    ObjectStereotype::Feature { id, .. } => Some(
                        Parent { id: id.clone(), typename: typename.clone() },
                    ),
                    ObjectStereotype::Data => None,
                    ObjectStereotype::Object { id } => Some(
                        Parent { id: id.clone(), typename: typename.clone() },
                    ),
                };
                assert(parent_model(new_parent) == parent_of(obj_model));
                let ghost inner = flat_attributes(inside(option, obj_model), obj_model.attributes, parent_of(obj_model));

                // Attributes
                let new_attribs = self.flatten_attributes(
                    attributes,
                    base_url,
                    geom_store,
                    appearance_store,
                    out,
                    &new_parent,
                    inner_within,
                );
                let obj = Object { typename, attributes: new_attribs, stereotype };
                assert(obj@.attributes =~= inner.attributes);
                assert(obj@ == (ObjectModel { attributes: inner.attributes, ..obj_model }));

                // if this object is a feature
                if split {
                    emit(obj, base_url, geom_store, appearance_store, out, parent);
                    assert(entity_models(out@) =~= before + emitted_entities(
                        flat_value(option, value@, parent_model(*parent)).emitted,
                        base_url@,
                        **geom_store,
                        **appearance_store,
                    ));
                    return None;
                }
                proof {
                    lemma_object_model(obj);
                }
                Some(Value::Object(obj))
            },
            Value::Array(arr) => {
                proof {
                    lemma_array_model(arr);
                }
                let new_arr = self.flatten_items(
                    arr,
                    base_url,
                    geom_store,
                    appearance_store,
                    out,
                    parent,
                    within_data,
                );
                if new_arr.len() == 0 {
                    None
                } else {
                    proof {
                        lemma_array_model(new_arr);
                    }
                    Some(Value::Array(new_arr))
                }
            },
            _ => {
                assert(entity_models(out@) =~= before + emitted_entities(
                    Seq::empty(),
                    base_url@,
                    **geom_store,
                    **appearance_store,
                ));
                Some(value)
            },
        }
    }

    /// Flattens the values of `attributes`, found below `parent`, in order:
    /// returns the attributes of which something stays.
    #[verifier::loop_isolation(false)]
    fn flatten_attributes(
        &self,
        attributes: Vec<(String, Value)>,
        base_url: &String,
        geom_store: &Arc<GeometryStore>,
        appearance_store: &Arc<AppearanceStore>,
        out: &mut Vec<Entity>,
        parent: &Option<Parent>,
        within_data: bool,
    ) -> (r: Vec<(String, Value)>)
        ensures
            attributes_model(r@) == flat_attributes(
                self.policy(within_data),
                attributes_model(attributes@),
                parent_model(*parent),
            ).attributes,
            entity_models(final(out)@) == entity_models(old(out)@) + emitted_entities(
                flat_attributes(
                    self.policy(within_data),
                    attributes_model(attributes@),
                    parent_model(*parent),
                ).emitted,
                base_url@,
                **geom_store,
                **appearance_store,
            ),
        decreases attributes, 0nat,
    {
        let ghost option = self.policy(within_data);
        let ghost before = entity_models(out@);
        let ghost attrs = attributes@;
        let ghost models = attributes_model(attrs);
        let n = attributes.len();
        let mut rest = reversed(attributes);
        let mut new_attribs: Vec<(String, Value)> = Vec::new();
        let mut i: usize = 0;
        assert(models.take(0) =~= Seq::empty());
        assert(viewed(named(new_attribs@)) =~= Seq::empty());
        assert(entity_models(out@) =~= before + emitted_entities(
            Seq::empty(),
            base_url@,
            **geom_store,
            **appearance_store,
        ));
        while i < n
            invariant
                i <= n,
                rest@.len() == n - i,
                forall|j: int| 0 <= j < n - i ==> rest@[j] == attrs[n - 1 - j],
                viewed(named(new_attribs@)) == flat_attributes(
                    option,
                    models.take(i as int),
                    parent_model(*parent),
                ).attributes,
                entity_models(out@) == before + emitted_entities(
                    flat_attributes(option, models.take(i as int), parent_model(*parent)).emitted,
                    base_url@,
                    **geom_store,
                    **appearance_store,
                ),
            decreases n - i,
        {
            let ghost head = flat_attributes(option, models.take(i as int), parent_model(*parent));
            let (key, child) = rest.pop().unwrap();
            assert(child == attrs[i as int].1);
            assert(key == attrs[i as int].0);
            let ghost last = flat_value(option, child@, parent_model(*parent));
            let ghost entries = named(new_attribs@);
            proof {
                assert(models.take(i + 1).drop_last() =~= models.take(i as int));
                assert(models.take(i + 1).last() == (key@, child@));
            }
            match self.flatten_feature(
                child,
                base_url,
                geom_store,
                appearance_store,
                out,
                parent,
                within_data,
            ) {
                Some(v) => {
                    proof {
                        lemma_viewed_with_entry(entries, key@, v);
                    }
                    insert_entry(&mut new_attribs, key, v);
                },
                None => {},
            }
            proof {
                assert(entity_models(out@) =~= before + emitted_entities(
                    head.emitted + last.emitted,
                    base_url@,
                    **geom_store,
                    **appearance_store,
                ));
            }
            i += 1;
        }
        assert(models.take(n as int) =~= models);
        assert(attributes_model(new_attribs@) =~= viewed(named(new_attribs@)));
        new_attribs
    }

    /// Flattens the items of an array, found below `parent`, in order:
    /// returns the items of which something stays.
    #[verifier::loop_isolation(false)]
    fn flatten_items(
        &self,
        items: Vec<Value>,
        base_url: &String,
        geom_store: &Arc<GeometryStore>,
        appearance_store: &Arc<AppearanceStore>,
        out: &mut Vec<Entity>,
        parent: &Option<Parent>,
        within_data: bool,
    ) -> (r: Vec<Value>)
        ensures
            values_model(r@) == flat_items(
                self.policy(within_data),
                values_model(items@),
                parent_model(*parent),
            ).items,
            entity_models(final(out)@) == entity_models(old(out)@) + emitted_entities(
                flat_items(
                    self.policy(within_data),
                    values_model(items@),
                    parent_model(*parent),
                ).emitted,
                base_url@,
                **geom_store,
                **appearance_store,
            ),
        decreases items, 0nat,
    {
        let ghost option = self.policy(within_data);
        let ghost before = entity_models(out@);
        let ghost inputs = items@;
        let ghost models = values_model(inputs);
        let n = items.len();
        let mut rest = reversed(items);
        let mut new_arr: Vec<Value> = Vec::new();
        let mut i: usize = 0;
        assert(models.take(0) =~= Seq::empty());
        assert(values_model(new_arr@) =~= Seq::empty());
        assert(entity_models(out@) =~= before + emitted_entities(
            Seq::empty(),
            base_url@,
            **geom_store,
            **appearance_store,
        ));
        while i < n
            invariant
                i <= n,
                rest@.len() == n - i,
                forall|j: int| 0 <= j < n - i ==> rest@[j] == inputs[n - 1 - j],
                values_model(new_arr@) == flat_items(
                    option,
                    models.take(i as int),
                    parent_model(*parent),
                ).items,
                entity_models(out@) == before + emitted_entities(
                    flat_items(option, models.take(i as int), parent_model(*parent)).emitted,
                    base_url@,
                    **geom_store,
                    **appearance_store,
                ),
            decreases n - i,
        {
            let ghost head = flat_items(option, models.take(i as int), parent_model(*parent));
            let child = rest.pop().unwrap();
            assert(child == inputs[i as int]);
            let ghost last = flat_value(option, child@, parent_model(*parent));
            let ghost kept = values_model(new_arr@);
            proof {
                assert(models.take(i + 1).drop_last() =~= models.take(i as int));
                assert(models.take(i + 1).last() == child@);
            }
            match self.flatten_feature(
                child,
                base_url,
                geom_store,
                appearance_store,
                out,
                parent,
                within_data,
            ) {
                Some(v) => {
                    new_arr.push(v);
                    assert(values_model(new_arr@) =~= kept.push(v@));
                },
                None => {},
            }
            proof {
                assert(entity_models(out@) =~= before + emitted_entities(
                    head.emitted + last.emitted,
                    base_url@,
                    **geom_store,
                    **appearance_store,
                ));
            }
            i += 1;
        }
        assert(models.take(n as int) =~= models);
        new_arr
    }

    /// Declares, on every feature type of the schema, the two attributes
    /// that a feature split off carries. Names, order and all other types
    /// stay as they are.
    pub fn transform_schema(&self, schema: &mut Schema)
        ensures
            final(schema).epsg == old(schema).epsg,
            type_map_entries(final(schema).types).len() == type_map_entries(
                old(schema).types,
            ).len(),
            forall|i: int|
                0 <= i < type_map_entries(old(schema).types).len() ==> with_parent_attributes(
                    #[trigger] type_map_entries(old(schema).types)[i],
                    type_map_entries(final(schema).types)[i],
                ),
    {
        let ghost before = type_map_entries(schema.types);
        let n = type_map_len(&schema.types);
        let mut i: usize = 0;
        while i < n
            invariant
                i <= n,
                n == before.len(),
                schema.epsg == old(schema).epsg,
                type_map_entries(schema.types).len() == n,
                forall|k: int|
                    0 <= k < i ==> with_parent_attributes(
                        #[trigger] before[k],
                        type_map_entries(schema.types)[k],
                    ),
                forall|k: int| i <= k < n ==> type_map_entries(schema.types)[k] == before[k],
            decreases n - i,
        {
            let ty = type_map_value_mut(&mut schema.types, i);
            match ty {
                TypeDef::Feature(feature) => {
                    attribute_map_insert(
                        &mut feature.attributes,
                        "parentId".to_owned(),
                        Attribute { type_ref: TypeRef::String, min_occurs: 0, max_occurs: Some(1) },
                    );
                    attribute_map_insert(
                        &mut feature.attributes,
                        "parentType".to_owned(),
                        Attribute { type_ref: TypeRef::String, min_occurs: 0, max_occurs: Some(1) },
                    );
                },
                _ => {},
            }
            i += 1;
        }
    }

    /// Flattens the tree of `entity`: appends to `out` one entity for each
    /// object split off from it, and last what stays of the root, if
    /// anything does. All of them keep the base URL and the stores of
    /// `entity`.
    pub fn transform(&mut self, entity: Entity, out: &mut Vec<Entity>)
        ensures
            *final(self) == *old(self),
            entity_models(final(out)@) == entity_models(old(out)@) + flattened(
                old(self).policy(false),
                entity@,
            ),
            entity@.wf() ==> forall|k: int|
                old(out)@.len() <= k < final(out)@.len() ==> (#[trigger] final(out)@[k])@.wf(),
    {
        let ghost flat = flat_value(self.policy(false), entity.root@, None);
        let ghost store = entity@.geometry_store;
        let ghost given = entity@;
        let ghost sent = flattened(self.policy(false), given);
        let ghost before = entity_models(out@);
        let Entity { root, base_url, geometry_store, appearance_store } = entity;
        let kept = self.flatten_feature(
            root,
            &base_url,
            &geometry_store,
            &appearance_store,
            out,
            &None,
            false,
        );
        match kept {
            Some(root) => {
                let ghost split = entity_models(out@);
                let last = Entity { root, base_url, geometry_store, appearance_store };
                out.push(last);
                assert(entity_models(out@) =~= split.push(last@));
                assert(entity_models(out@) =~= before + sent);
            },
            None => {},
        }
        proof {
            if given.wf() {
                lemma_flat_value_keeps_refs(
                    self.policy(false),
                    given.root,
                    None,
                    |r: GeometryRef| store.spec_holds(r),
                );
                assert forall|k: int| old(out)@.len() <= k < out@.len() implies (
                #[trigger] out@[k])@.wf() by {
                    assert(entity_models(out@).len() == out@.len());
                    assert(before.len() == old(out)@.len());
                    assert(entity_models(out@)[k] == out@[k]@);
                    assert(entity_models(out@)[k] == sent[k - old(out)@.len()]);
                }
            }
        }
    }
}

} // verus!
