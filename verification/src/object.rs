//! The entity model: a tree of values whose objects carry a stereotype, and
//! the entity that ties such a tree to its geometry and appearance stores.

use vstd::prelude::*;
use std::sync::Arc;
use crate::appearance::AppearanceStore;
use crate::entries::{
    distinct_keys, has_key, lemma_has_key, lemma_with_entry_distinct, with_entry,
};
use crate::geometry::{GeometryRef, GeometryStore};
use crate::vertex_set::VertexBits;

verus! {

/// A coded value together with the code list it was taken from.
#[derive(Debug)]
pub struct Code {
    pub value: String,
    pub code_space: String,
}

/// The role an object plays in the model.
#[derive(Debug)]
pub enum ObjectStereotype {
    /// An identified object with geometries
    Feature { id: String, geometries: Vec<GeometryRef> },
    /// A bag of attributes
    Data,
    /// An identified object without geometries
    Object { id: String },
}

/// A typed object with named attributes, in the order they were set.
#[derive(Debug)]
pub struct Object {
    pub typename: String,
    pub attributes: Vec<(String, Value)>,
    pub stereotype: ObjectStereotype,
}

/// A node of an entity's tree. Floating-point payloads are held as their
/// IEEE-754 bit patterns.
#[derive(Debug)]
pub enum Value {
    Object(Object),
    Array(Vec<Value>),
    String(String),
    Integer(i64),
    Double(u64),
    Boolean(bool),
    Code(Code),
    Point(VertexBits),
    Measure(u64),
    URI(String),
    Date(String),
    DateTime(String),
    Null,
}

/// One city object on its way through the pipeline.
#[derive(Debug)]
pub struct Entity {
    /// The tree of the object and its attributes
    pub root: Value,
    /// The URL of the source document, the base for code list look-ups
    pub base_url: String,
    /// The store that the geometry references of `root` refer into
    pub geometry_store: Arc<GeometryStore>,
    /// The store of textures and materials
    pub appearance_store: Arc<AppearanceStore>,
}

/// What an [`ObjectStereotype`] holds.
pub enum StereotypeModel {
    Feature { id: Seq<char>, geometries: Seq<GeometryRef> },
    Data,
    Object { id: Seq<char> },
}

/// What an [`Object`] holds.
pub struct ObjectModel {
    pub typename: Seq<char>,
    pub attributes: Seq<(Seq<char>, ValueModel)>,
    pub stereotype: StereotypeModel,
}

/// What a [`Value`] holds.
pub enum ValueModel {
    Object(ObjectModel),
    Array(Seq<ValueModel>),
    String(Seq<char>),
    Integer(i64),
    Double(u64),
    Boolean(bool),
    Code { value: Seq<char>, code_space: Seq<char> },
    Point(VertexBits),
    Measure(u64),
    URI(Seq<char>),
    Date(Seq<char>),
    DateTime(Seq<char>),
    Null,
}

/// What an [`Entity`] holds.
pub struct EntityModel {
    pub root: ValueModel,
    pub base_url: Seq<char>,
    pub geometry_store: GeometryStore,
    pub appearance_store: AppearanceStore,
}

impl View for ObjectStereotype {
    type V = StereotypeModel;

    open spec fn view(&self) -> StereotypeModel {
        match self {
            ObjectStereotype::Feature { id, geometries } => StereotypeModel::Feature {
                id: id@,
                geometries: geometries@,
            },
            ObjectStereotype::Data => StereotypeModel::Data,
            ObjectStereotype::Object { id } => StereotypeModel::Object { id: id@ },
        }
    }
}

/// What a value holds.
pub open spec fn value_model(value: Value) -> ValueModel
    decreases value,
{
    match value {
        Value::Object(obj) => ValueModel::Object(
            ObjectModel {
                typename: obj.typename@,
                attributes: attributes_of(obj.attributes@),
                stereotype: obj.stereotype@,
            },
        ),
        Value::Array(items) => ValueModel::Array(values_of(items@)),
        Value::String(s) => ValueModel::String(s@),
        Value::Integer(n) => ValueModel::Integer(n),
        Value::Double(bits) => ValueModel::Double(bits),
        Value::Boolean(b) => ValueModel::Boolean(b),
        Value::Code(c) => ValueModel::Code { value: c.value@, code_space: c.code_space@ },
        Value::Point(p) => ValueModel::Point(p),
        Value::Measure(bits) => ValueModel::Measure(bits),
        Value::URI(s) => ValueModel::URI(s@),
        Value::Date(s) => ValueModel::Date(s@),
        Value::DateTime(s) => ValueModel::DateTime(s@),
        Value::Null => ValueModel::Null,
    }
}

/// What a list of attributes holds.
pub open spec fn attributes_of(attrs: Seq<(String, Value)>) -> Seq<(Seq<char>, ValueModel)>
    decreases attrs,
{
    if attrs.len() == 0 {
        Seq::empty()
    } else {
        attributes_of(attrs.drop_last()).push((attrs.last().0@, value_model(attrs.last().1)))
    }
}

/// What a list of values holds.
pub open spec fn values_of(items: Seq<Value>) -> Seq<ValueModel>
    decreases items,
{
    if items.len() == 0 {
        Seq::empty()
    } else {
        values_of(items.drop_last()).push(value_model(items.last()))
    }
}

impl View for Value {
    type V = ValueModel;

    open spec fn view(&self) -> ValueModel {
        value_model(*self)
    }
}

impl View for Object {
    type V = ObjectModel;

    open spec fn view(&self) -> ObjectModel {
        ObjectModel {
            typename: self.typename@,
            attributes: attributes_model(self.attributes@),
            stereotype: self.stereotype@,
        }
    }
}

impl View for Entity {
    type V = EntityModel;

    open spec fn view(&self) -> EntityModel {
        EntityModel {
            root: self.root@,
            base_url: self.base_url@,
            geometry_store: *self.geometry_store,
            appearance_store: *self.appearance_store,
        }
    }
}

/// The geometry references that a stereotype carries.
pub open spec fn stereotype_refs(s: StereotypeModel) -> Seq<GeometryRef> {
    match s {
        StereotypeModel::Feature { geometries, .. } => geometries,
        _ => Seq::empty(),
    }
}

/// The model of an optional value.
pub open spec fn option_model(value: Option<Value>) -> Option<ValueModel> {
    match value {
        Some(v) => Some(v@),
        None => None,
    }
}

/// The models of a list of attributes.
pub open spec fn attributes_model(attrs: Seq<(String, Value)>) -> Seq<(Seq<char>, ValueModel)> {
    Seq::new(attrs.len(), |i: int| (attrs[i].0@, attrs[i].1@))
}

/// The models of a list of values.
pub open spec fn values_model(items: Seq<Value>) -> Seq<ValueModel> {
    Seq::new(items.len(), |i: int| items[i]@)
}

/// Every geometry reference found in `value` satisfies `p`.
pub open spec fn every_ref(value: ValueModel, p: spec_fn(GeometryRef) -> bool) -> bool
    decreases value,
{
    match value {
        ValueModel::Object(obj) => {
            &&& obj.stereotype matches StereotypeModel::Feature { geometries, .. } ==> forall|
                k: int,
            |
                0 <= k < geometries.len() ==> p(#[trigger] geometries[k])
            &&& forall|i: int|
                0 <= i < obj.attributes.len() ==> every_ref((#[trigger] obj.attributes[i]).1, p)
        },
        ValueModel::Array(items) => forall|i: int|
            0 <= i < items.len() ==> every_ref(#[trigger] items[i], p),
        _ => true,
    }
}

/// No object found in `value` has two attributes of the same name.
pub open spec fn names_distinct(value: ValueModel) -> bool
    decreases value,
{
    match value {
        ValueModel::Object(obj) => {
            &&& distinct_keys(obj.attributes)
            &&& forall|i: int|
                0 <= i < obj.attributes.len() ==> names_distinct((#[trigger] obj.attributes[i]).1)
        },
        ValueModel::Array(items) => forall|i: int|
            0 <= i < items.len() ==> names_distinct(#[trigger] items[i]),
        _ => true,
    }
}

/// Setting an attribute keeps the names of a list of attributes distinct,
/// and distinct within every value of the list if they are distinct
/// within the value set.
pub proof fn lemma_with_entry_names(
    attributes: Seq<(Seq<char>, ValueModel)>,
    key: Seq<char>,
    value: ValueModel,
)
    requires
        distinct_keys(attributes),
        forall|i: int| 0 <= i < attributes.len() ==> names_distinct((#[trigger] attributes[i]).1),
        names_distinct(value),
    ensures
        distinct_keys(with_entry(attributes, key, value)),
        forall|i: int|
            0 <= i < with_entry(attributes, key, value).len() ==> names_distinct(
                (#[trigger] with_entry(attributes, key, value)[i]).1,
            ),
{
    lemma_with_entry_distinct(attributes, key, value);
    let after = with_entry(attributes, key, value);
    if has_key(attributes, key) {
        lemma_has_key(attributes, key);
    }
    assert forall|i: int| 0 <= i < after.len() implies names_distinct((#[trigger] after[i]).1) by {
        if i < attributes.len() && after[i] == attributes[i] {
            assert(names_distinct(attributes[i].1));
        }
    }
}

/// What holds of every reference found in a value under `p` holds under
/// any `q` that `p` implies.
pub proof fn lemma_every_ref_implies(
    value: ValueModel,
    p: spec_fn(GeometryRef) -> bool,
    q: spec_fn(GeometryRef) -> bool,
)
    requires
        every_ref(value, p),
        forall|r: GeometryRef| #[trigger] p(r) ==> q(r),
    ensures
        every_ref(value, q),
    decreases value,
{
    match value {
        ValueModel::Object(obj) => {
            assert forall|i: int| 0 <= i < obj.attributes.len() implies every_ref(
                (#[trigger] obj.attributes[i]).1,
                q,
            ) by {
                lemma_every_ref_implies(obj.attributes[i].1, p, q);
            }
        },
        ValueModel::Array(items) => {
            assert forall|i: int| 0 <= i < items.len() implies every_ref(
                #[trigger] items[i],
                q,
            ) by {
                lemma_every_ref_implies(items[i], p, q);
            }
        },
        _ => {},
    }
}

/// Every geometry reference found in `value` lies within the collection
/// of `store` that it refers to.
pub open spec fn refs_hold(value: ValueModel, store: GeometryStore) -> bool {
    every_ref(value, |r: GeometryRef| store.spec_holds(r))
}

impl EntityModel {
    /// Every geometry reference of the entity lies within its store.
    pub open spec fn wf(&self) -> bool {
        refs_hold(self.root, self.geometry_store)
    }
}

/// Whether every geometry reference found in `value` lies within the
/// collection of `store` that it refers to.
#[verifier::loop_isolation(false)]
pub fn check_refs(value: &Value, store: &GeometryStore) -> (b: bool)
    ensures
        b == refs_hold(value@, *store),
    decreases value,
{
    match value {
        Value::Object(obj) => {
            proof {
                lemma_object_model(*obj);
            }
            match &obj.stereotype {
                ObjectStereotype::Feature { geometries, .. } => {
                    if !store.holds_all(geometries) {
                        proof {
                            let k = choose|k: int|
                                0 <= k < geometries@.len() && !store.spec_holds(geometries@[k]);
                            assert(obj@.stereotype->Feature_geometries[k] == geometries@[k]);
                            assert(!store.spec_holds(obj@.stereotype->Feature_geometries[k]));
                        }
                        return false;
                    }
                },
                _ => {},
            }
            let ghost models = attributes_model(obj.attributes@);
            let mut i: usize = 0;
            while i < obj.attributes.len()
                invariant
                    i <= obj.attributes@.len(),
                    forall|k: int| 0 <= k < i ==> refs_hold((#[trigger] models[k]).1, *store),
                decreases obj.attributes@.len() - i,
            {
                if !check_refs(&obj.attributes[i].1, store) {
                    assert(!refs_hold(models[i as int].1, *store));
                    assert(obj@.attributes[i as int] == models[i as int]);
                    return false;
                }
                assert(refs_hold(models[i as int].1, *store));
                i += 1;
            }
            true
        },
        Value::Array(items) => {
            proof {
                lemma_array_model(*items);
            }
            let ghost models = values_model(items@);
            let mut i: usize = 0;
            while i < items.len()
                invariant
                    i <= items@.len(),
                    forall|k: int| 0 <= k < i ==> refs_hold(#[trigger] models[k], *store),
                decreases items@.len() - i,
            {
                if !check_refs(&items[i], store) {
                    assert(!refs_hold(models[i as int], *store));
                    assert(value@ == ValueModel::Array(models));
                    assert(value@->Array_0[i as int] == models[i as int]);
                    return false;
                }
                assert(refs_hold(models[i as int], *store));
                i += 1;
            }
            true
        },
        _ => true,
    }
}

impl Entity {
    /// Whether every geometry reference of the entity lies within its
    /// store.
    pub fn is_wf(&self) -> (b: bool)
        ensures
            b == self@.wf(),
    {
        check_refs(&self.root, &self.geometry_store)
    }
}

/// The model of a list of attributes is the list of the models of its
/// entries.
pub proof fn lemma_attributes_model(attrs: Seq<(String, Value)>)
    ensures
        attributes_of(attrs) == attributes_model(attrs),
    decreases attrs.len(),
{
    if attrs.len() > 0 {
        lemma_attributes_model(attrs.drop_last());
    }
    assert(attributes_of(attrs) =~= attributes_model(attrs));
}

/// The model of a list of values is the list of the models of its items.
pub proof fn lemma_values_model(items: Seq<Value>)
    ensures
        values_of(items) == values_model(items),
    decreases items.len(),
{
    if items.len() > 0 {
        lemma_values_model(items.drop_last());
    }
    assert(values_of(items) =~= values_model(items));
}

/// The model of an object value is the model of the object.
pub proof fn lemma_object_model(obj: Object)
    ensures
        Value::Object(obj)@ == ValueModel::Object(obj@),
{
    lemma_attributes_model(obj.attributes@);
}

/// The model of an array is the array of the models of its items.
pub proof fn lemma_array_model(items: Vec<Value>)
    ensures
        Value::Array(items)@ == ValueModel::Array(values_model(items@)),
{
    lemma_values_model(items@);
}

} // verus!
