//! Jsonify: the attributes of the root that hold an object or an array
//! become strings that hold the JSON text of what they held.
//!
//! The JSON text itself is made outside: what is decided here is which
//! attributes take a text, and that each takes its own.

use vstd::prelude::*;
use crate::geometry::GeometryRef;
use crate::object::{
    attributes_model, every_ref, lemma_object_model, Entity, EntityModel, Object, ObjectModel,
    Value, ValueModel,
};
use crate::text::{reversed, texts as texts_of};

verus! {

/// Whether a value is nested: an object or an array.
pub open spec fn is_nested(value: ValueModel) -> bool {
    value is Object || value is Array
}

/// The attributes of a root that is an object; none for any other root.
pub open spec fn root_attributes(root: ValueModel) -> Seq<(Seq<char>, ValueModel)> {
    match root {
        ValueModel::Object(obj) => obj.attributes,
        _ => Seq::empty(),
    }
}

/// The places of the attributes whose value is nested, in order.
pub open spec fn nested_among(attributes: Seq<(Seq<char>, ValueModel)>) -> Seq<int>
    decreases attributes.len(),
{
    if attributes.len() == 0 {
        Seq::empty()
    } else if is_nested(attributes.last().1) {
        nested_among(attributes.drop_last()).push(attributes.len() - 1)
    } else {
        nested_among(attributes.drop_last())
    }
}

/// A list of places as numbers.
pub open spec fn places(at: Seq<usize>) -> Seq<int> {
    Seq::new(at.len(), |k: int| at[k] as int)
}

/// The attributes with each nested value replaced by a string: the first
/// nested value by the first of `texts`, the second by the second, and so
/// on. Names, order and all other values stay.
pub open spec fn jsonified_attributes(
    attributes: Seq<(Seq<char>, ValueModel)>,
    texts: Seq<Seq<char>>,
) -> Seq<(Seq<char>, ValueModel)> {
    Seq::new(
        attributes.len(),
        |i: int|
            (
                attributes[i].0,
                if is_nested(attributes[i].1) {
                    ValueModel::String(texts[nested_among(attributes.take(i)).len() as int])
                } else {
                    attributes[i].1
                },
            ),
    )
}

/// The root with the nested values of its attributes replaced by strings
/// that hold `texts`; a root that is no object stays as it is.
pub open spec fn jsonified(root: ValueModel, texts: Seq<Seq<char>>) -> ValueModel {
    match root {
        ValueModel::Object(obj) => ValueModel::Object(
            ObjectModel { attributes: jsonified_attributes(obj.attributes, texts), ..obj },
        ),
        _ => root,
    }
}

/// The places of the nested attributes grow, and each is the place of a
/// nested attribute.
pub proof fn lemma_nested_among(attributes: Seq<(Seq<char>, ValueModel)>)
    ensures
        nested_among(attributes).len() <= attributes.len(),
        forall|k: int|
            0 <= k < nested_among(attributes).len() ==> 0 <= #[trigger] nested_among(
                attributes,
            )[k] < attributes.len() && is_nested(attributes[nested_among(attributes)[k]].1),
        forall|j: int, k: int|
            0 <= j < k < nested_among(attributes).len() ==> nested_among(attributes)[j]
                < nested_among(attributes)[k],
    decreases attributes.len(),
{
    if attributes.len() > 0 {
        let rest = attributes.drop_last();
        lemma_nested_among(rest);
        let all = nested_among(attributes);
        let head = nested_among(rest);
        assert forall|k: int| 0 <= k < all.len() implies 0 <= #[trigger] all[k] < attributes.len()
            && is_nested(attributes[all[k]].1) by {
            if k < head.len() {
                assert(all[k] == head[k]);
                assert(rest[head[k]] == attributes[head[k]]);
            }
        }
        assert forall|j: int, k: int| 0 <= j < k < all.len() implies all[j] < all[k] by {
            assert(all[j] == head[j]);
            if k < head.len() {
                assert(all[k] == head[k]);
            }
        }
    }
}

/// The places of the attributes of the root whose value is an object or an
/// array, in order. A root that is no object has none.
#[verifier::loop_isolation(false)]
pub fn nested_places(root: &Value) -> (at: Vec<usize>)
    ensures
        places(at@) == nested_among(root_attributes(root@)),
{
    let mut at: Vec<usize> = Vec::new();
    match root {
        Value::Object(obj) => {
            proof {
                lemma_object_model(*obj);
            }
            let ghost models = attributes_model(obj.attributes@);
            let mut i: usize = 0;
            assert(models.take(0) =~= Seq::empty());
            assert(places(at@) =~= Seq::<int>::empty());
            while i < obj.attributes.len()
                invariant
                    i <= obj.attributes@.len(),
                    places(at@) == nested_among(models.take(i as int)),
                decreases obj.attributes@.len() - i,
            {
                let ghost before = places(at@);
                proof {
                    assert(models.take(i + 1).drop_last() =~= models.take(i as int));
                    assert(models.take(i + 1).last() == models[i as int]);
                }
                let nested = match &obj.attributes[i].1 {
                    Value::Object(_) => true,
                    Value::Array(_) => true,
                    _ => false,
                };
                assert(nested == is_nested(models[i as int].1));
                if nested {
                    at.push(i);
                    assert(places(at@) =~= before.push(i as int));
                }
                i += 1;
            }
            assert(models.take(models.len() as int) =~= models);
        },
        _ => {
            assert(places(at@) =~= Seq::<int>::empty());
        },
    }
    at
}

/// Replacing nested values by strings keeps a property of all geometry
/// references of the attributes.
pub proof fn lemma_jsonified_keeps_refs(
    attributes: Seq<(Seq<char>, ValueModel)>,
    texts: Seq<Seq<char>>,
    p: spec_fn(GeometryRef) -> bool,
)
    requires
        forall|i: int| 0 <= i < attributes.len() ==> every_ref((#[trigger] attributes[i]).1, p),
    ensures
        forall|i: int|
            0 <= i < jsonified_attributes(attributes, texts).len() ==> every_ref(
                (#[trigger] jsonified_attributes(attributes, texts)[i]).1,
                p,
            ),
{
    let after = jsonified_attributes(attributes, texts);
    assert forall|i: int| 0 <= i < after.len() implies every_ref((#[trigger] after[i]).1, p) by {
        if !is_nested(attributes[i].1) {
            assert(after[i].1 == attributes[i].1);
        }
    }
}

/// Makes strings of the nested attributes of the root: each attribute
/// whose value is an object or an array gets the string that holds the
/// text for it, the texts being given in the order of these attributes.
/// Names, order, all other values, the stereotype and the stores stay.
#[verifier::loop_isolation(false)]
pub fn jsonify(entity: Entity, texts: Vec<String>) -> (r: Entity)
    requires
        texts@.len() == nested_among(root_attributes(entity.root@)).len(),
    ensures
        r@ == (EntityModel { root: jsonified(entity.root@, texts_of(texts@)), ..entity@ }),
        entity@.wf() ==> r@.wf(),
{
    let ghost given = entity@;
    let ghost store = entity@.geometry_store;
    let Entity { root, base_url, geometry_store, appearance_store } = entity;
    let root = match root {
        Value::Object(obj) => {
            proof {
                lemma_object_model(obj);
            }
            let ghost before = obj@;
            let Object { typename, attributes, stereotype } = obj;
            let ghost attrs = attributes@;
            let ghost models = attributes_model(attrs);
            let ghost wanted = jsonified_attributes(models, texts_of(texts@));
            let n = attributes.len();
            let mut rest = reversed(attributes);
            let mut made: Vec<(String, Value)> = Vec::new();
            let mut i: usize = 0;
            let mut j: usize = 0;
            assert(models.take(0) =~= Seq::empty());
            while i < n
                invariant
                    i <= n,
                    n == attrs.len(),
                    rest@.len() == n - i,
                    forall|k: int| 0 <= k < n - i ==> rest@[k] == attrs[n - 1 - k],
                    j == nested_among(models.take(i as int)).len(),
                    made@.len() == i,
                    forall|k: int|
                        0 <= k < i ==> (#[trigger] made@[k]).0@ == wanted[k].0 && made@[k].1@
                            == wanted[k].1,
                decreases n - i,
            {
                let (key, value) = rest.pop().unwrap();
                assert(key == attrs[i as int].0 && value == attrs[i as int].1);
                proof {
                    assert(models.take(i + 1).drop_last() =~= models.take(i as int));
                    assert(models.take(i + 1).last() == models[i as int]);
                    lemma_nested_among(models);
                    lemma_nested_among(models.take(i + 1));
                    assert(models.take(models.len() as int) =~= models);
                    lemma_nested_prefix(models, i + 1);
                }
                let nested = match &value {
                    Value::Object(_) => true,
                    Value::Array(_) => true,
                    _ => false,
                };
                assert(nested == is_nested(models[i as int].1));
                if nested {
                    let text = texts[j].clone();
                    made.push((key, Value::String(text)));
                    j += 1;
                } else {
                    made.push((key, value));
                }
                i += 1;
            }
            let obj = Object { typename, attributes: made, stereotype };
            proof {
                lemma_object_model(obj);
                assert(obj@.attributes =~= wanted);
                assert(obj@ == (ObjectModel { attributes: wanted, ..before }));
            }
            Value::Object(obj)
        },
        other => other,
    };
    let r = Entity { root, base_url, geometry_store, appearance_store };
    proof {
        if given.wf() {
            match given.root {
                ValueModel::Object(obj) => {
                    lemma_jsonified_keeps_refs(
                        obj.attributes,
                        texts_of(texts@),
                        |g: GeometryRef| store.spec_holds(g),
                    );
                },
                _ => {},
            }
        }
    }
    r
}

/// The nested attributes among the first `k` are the first of the nested
/// attributes among all.
pub proof fn lemma_nested_prefix(attributes: Seq<(Seq<char>, ValueModel)>, k: int)
    requires
        0 <= k <= attributes.len(),
    ensures
        nested_among(attributes.take(k)).len() <= nested_among(attributes).len(),
    decreases attributes.len() - k,
{
    if k < attributes.len() {
        lemma_nested_prefix(attributes, k + 1);
        assert(attributes.take(k + 1).drop_last() =~= attributes.take(k));
    } else {
        assert(attributes.take(k) =~= attributes);
    }
}

} // verus!
