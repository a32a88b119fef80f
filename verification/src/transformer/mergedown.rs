//! Mergedown: the geometry references of the features below the root are
//! merged into the root, and the features below it are retained or removed.

use vstd::prelude::*;
use crate::geometry::GeometryRef;
use crate::object::{
    attributes_model, every_ref, lemma_array_model, lemma_object_model, option_model,
    stereotype_refs, values_model, Entity,
    EntityModel, Object, ObjectModel, ObjectStereotype, StereotypeModel, Value, ValueModel,
};
use crate::text::reversed;

verus! {

/// The geometry references of all features found in `value`, itself
/// included, in the order in which they are met: those of an object first,
/// then those found in its attributes.
pub open spec fn all_refs(value: ValueModel) -> Seq<GeometryRef>
    decreases value,
{
    match value {
        ValueModel::Object(obj) => stereotype_refs(obj.stereotype) + attributes_refs(
            obj.attributes,
        ),
        ValueModel::Array(items) => items_refs(items),
        _ => Seq::empty(),
    }
}

/// The same for the values of a list of attributes.
pub open spec fn attributes_refs(attributes: Seq<(Seq<char>, ValueModel)>) -> Seq<GeometryRef>
    decreases attributes,
{
    if attributes.len() == 0 {
        Seq::empty()
    } else {
        attributes_refs(attributes.drop_last()) + all_refs(attributes.last().1)
    }
}

/// The same for the items of an array.
pub open spec fn items_refs(items: Seq<ValueModel>) -> Seq<GeometryRef>
    decreases items,
{
    if items.len() == 0 {
        Seq::empty()
    } else {
        items_refs(items.drop_last()) + all_refs(items.last())
    }
}

/// What stays of `value` when the features found in it are removed: a
/// feature vanishes, an array keeps the items of which something stays and
/// vanishes when none does, any other object keeps the attributes of which
/// something stays, and any other value stays as it is.
pub open spec fn without_features(value: ValueModel) -> Option<ValueModel>
    decreases value,
{
    match value {
        ValueModel::Object(obj) => if obj.stereotype is Feature {
            None
        } else {
            Some(
                ValueModel::Object(
                    ObjectModel { attributes: attributes_without_features(obj.attributes), ..obj },
                ),
            )
        },
        ValueModel::Array(items) => {
            let kept = items_without_features(items);
            if kept.len() == 0 {
                None
            } else {
                Some(ValueModel::Array(kept))
            }
        },
        _ => Some(value),
    }
}

/// The attributes of whose values something stays, with what stays.
pub open spec fn attributes_without_features(attributes: Seq<(Seq<char>, ValueModel)>) -> Seq<
    (Seq<char>, ValueModel),
>
    decreases attributes,
{
    if attributes.len() == 0 {
        Seq::empty()
    } else {
        let head = attributes_without_features(attributes.drop_last());
        match without_features(attributes.last().1) {
            Some(v) => head.push((attributes.last().0, v)),
            None => head,
        }
    }
}

/// The items of which something stays, with what stays.
pub open spec fn items_without_features(items: Seq<ValueModel>) -> Seq<ValueModel>
    decreases items,
{
    if items.len() == 0 {
        Seq::empty()
    } else {
        let head = items_without_features(items.drop_last());
        match without_features(items.last()) {
            Some(v) => head.push(v),
            None => head,
        }
    }
}

/// What mergedown makes of the root of an entity. A root that is a feature
/// gets, after its own geometry references, those of all features below
/// it; the features below it are removed unless they are retained. Any
/// other root stays as it is.
pub open spec fn merged_down(root: ValueModel, retain_descendants: bool) -> ValueModel {
    match root {
        ValueModel::Object(obj) => match obj.stereotype {
            StereotypeModel::Feature { id, geometries } => ValueModel::Object(
                ObjectModel {
                    typename: obj.typename,
                    attributes: if retain_descendants {
                        obj.attributes
                    } else {
                        attributes_without_features(obj.attributes)
                    },
                    stereotype: StereotypeModel::Feature {
                        id,
                        geometries: geometries + attributes_refs(obj.attributes),
                    },
                },
            ),
            _ => root,
        },
        _ => root,
    }
}

/// Appends the references of `more` to `refs`.
fn append_refs(refs: &mut Vec<GeometryRef>, more: &Vec<GeometryRef>)
    ensures
        final(refs)@ == old(refs)@ + more@,
{
    let mut i: usize = 0;
    while i < more.len()
        invariant
            i <= more@.len(),
            refs@ == old(refs)@ + more@.take(i as int),
        decreases more@.len() - i,
    {
        refs.push(more[i]);
        assert(refs@ =~= old(refs)@ + more@.take(i + 1));
        i += 1;
    }
    assert(more@.take(more@.len() as int) =~= more@);
}

/// The transform that merges geometry references down into the root.
pub struct GeometricMergedownTransform {
    retain_descendants: bool,
}

impl GeometricMergedownTransform {
    /// Whether the features below the root are retained.
    pub closed spec fn retains(&self) -> bool {
        self.retain_descendants
    }

    /// A transform that retains or removes the features below the root.
    pub fn new(retain_descendants: bool) -> (r: Self)
        ensures
            r.retains() == retain_descendants,
    {
        GeometricMergedownTransform { retain_descendants }
    }

    /// Appends to `refs` the geometry references of all features found in
    /// `value`.
    #[verifier::loop_isolation(false)]
    pub fn collect_refs(&self, value: &Value, refs: &mut Vec<GeometryRef>)
        ensures
            final(refs)@ == old(refs)@ + all_refs(value@),
        decreases value,
    {
        match value {
            Value::Object(obj) => {
                proof {
                    lemma_object_model(*obj);
                }
                match &obj.stereotype {
                    ObjectStereotype::Feature { geometries, .. } => {
                        append_refs(refs, geometries);
                    },
                    _ => {
                        assert(refs@ =~= old(refs)@ + Seq::empty());
                    },
                }
                let ghost own = refs@;
                let ghost models = attributes_model(obj.attributes@);
                let mut i: usize = 0;
                assert(models.take(0) =~= Seq::empty());
                assert(refs@ =~= own + attributes_refs(models.take(0)));
                while i < obj.attributes.len()
                    invariant
                        i <= obj.attributes@.len(),
                        refs@ == own + attributes_refs(models.take(i as int)),
                    decreases obj.attributes@.len() - i,
                {
                    let ghost before = refs@;
                    self.collect_refs(&obj.attributes[i].1, refs);
                    proof {
                        assert(models.take(i + 1).drop_last() =~= models.take(i as int));
                        assert(models.take(i + 1).last() == models[i as int]);
                        assert(refs@ =~= own + attributes_refs(models.take(i + 1)));
                    }
                    i += 1;
                }
                assert(models.take(models.len() as int) =~= models);
                assert(refs@ =~= old(refs)@ + all_refs(value@));
            },
            Value::Array(items) => {
                proof {
                    lemma_array_model(*items);
                }
                let ghost models = values_model(items@);
                let mut i: usize = 0;
                assert(models.take(0) =~= Seq::empty());
                assert(refs@ =~= old(refs)@ + items_refs(models.take(0)));
                while i < items.len()
                    invariant
                        i <= items@.len(),
                        refs@ == old(refs)@ + items_refs(models.take(i as int)),
                    decreases items@.len() - i,
                {
                    self.collect_refs(&items[i], refs);
                    proof {
                        assert(models.take(i + 1).drop_last() =~= models.take(i as int));
                        assert(models.take(i + 1).last() == models[i as int]);
                        assert(refs@ =~= old(refs)@ + items_refs(models.take(i + 1)));
                    }
                    i += 1;
                }
                assert(models.take(models.len() as int) =~= models);
            },
            _ => {
                assert(refs@ =~= old(refs)@ + Seq::empty());
            },
        }
    }

    /// What stays of `value` when the features found in it are removed.
    pub fn remove_features(&self, value: Value) -> (r: Option<Value>)
        ensures
            option_model(r) == without_features(value@),
        decreases value, 1nat,
    {
        match value {
            Value::Object(obj) => {
                proof {
                    lemma_object_model(obj);
                }
                let Object { typename, attributes, stereotype } = obj;
                match stereotype {
                    ObjectStereotype::Feature { .. } => None,
                    stereotype => {
                        let attributes = self.remove_from_attributes(attributes);
                        let obj = Object { typename, attributes, stereotype };
                        proof {
                            lemma_object_model(obj);
                        }
                        Some(Value::Object(obj))
                    },
                }
            },
            Value::Array(items) => {
                proof {
                    lemma_array_model(items);
                }
                let kept = self.remove_from_items(items);
                if kept.len() == 0 {
                    None
                } else {
                    proof {
                        lemma_array_model(kept);
                    }
                    Some(Value::Array(kept))
                }
            },
            other => Some(other),
        }
    }

    /// The attributes of whose values something stays, with what stays.
    #[verifier::loop_isolation(false)]
    fn remove_from_attributes(&self, attributes: Vec<(String, Value)>) -> (r: Vec<(String, Value)>)
        ensures
            attributes_model(r@) == attributes_without_features(attributes_model(attributes@)),
        decreases attributes, 0nat,
    {
        let ghost inputs = attributes@;
        let ghost models = attributes_model(inputs);
        let n = attributes.len();
        let mut rest = reversed(attributes);
        let mut kept: Vec<(String, Value)> = Vec::new();
        let mut i: usize = 0;
        assert(models.take(0) =~= Seq::empty());
        assert(attributes_model(kept@) =~= Seq::empty());
        while i < n
            invariant
                i <= n,
                rest@.len() == n - i,
                forall|j: int| 0 <= j < n - i ==> rest@[j] == inputs[n - 1 - j],
                attributes_model(kept@) == attributes_without_features(models.take(i as int)),
            decreases n - i,
        {
            let ghost done = attributes_model(kept@);
            let (key, child) = rest.pop().unwrap();
            assert(child == inputs[i as int].1);
            assert(key == inputs[i as int].0);
            proof {
                assert(models.take(i + 1).drop_last() =~= models.take(i as int));
                assert(models.take(i + 1).last() == (key@, child@));
            }
            match self.remove_features(child) {
                Some(v) => {
                    kept.push((key, v));
                    assert(attributes_model(kept@) =~= done.push((key@, v@)));
                },
                None => {},
            }
            i += 1;
        }
        assert(models.take(n as int) =~= models);
        kept
    }

    /// The items of which something stays, with what stays.
    #[verifier::loop_isolation(false)]
    fn remove_from_items(&self, items: Vec<Value>) -> (r: Vec<Value>)
        ensures
            values_model(r@) == items_without_features(values_model(items@)),
        decreases items, 0nat,
    {
        let ghost inputs = items@;
        let ghost models = values_model(inputs);
        let n = items.len();
        let mut rest = reversed(items);
        let mut kept: Vec<Value> = Vec::new();
        let mut i: usize = 0;
        assert(models.take(0) =~= Seq::empty());
        assert(values_model(kept@) =~= Seq::empty());
        while i < n
            invariant
                i <= n,
                rest@.len() == n - i,
                forall|j: int| 0 <= j < n - i ==> rest@[j] == inputs[n - 1 - j],
                values_model(kept@) == items_without_features(models.take(i as int)),
            decreases n - i,
        {
            let ghost done = values_model(kept@);
            let child = rest.pop().unwrap();
            assert(child == inputs[i as int]);
            proof {
                assert(models.take(i + 1).drop_last() =~= models.take(i as int));
                assert(models.take(i + 1).last() == child@);
            }
            match self.remove_features(child) {
                Some(v) => {
                    kept.push(v);
                    assert(values_model(kept@) =~= done.push(v@));
                },
                None => {},
            }
            i += 1;
        }
        assert(models.take(n as int) =~= models);
        kept
    }

    /// What mergedown makes of the root of an entity.
    pub fn merge_root(&self, root: Value) -> (r: Value)
        ensures
            r@ == merged_down(root@, self.retains()),
    {
        match root {
            Value::Object(obj) => {
                proof {
                    lemma_object_model(obj);
                }
                let Object { typename, attributes, stereotype } = obj;
                match stereotype {
                    ObjectStereotype::Feature { id, geometries } => {
                        let ghost models = attributes_model(attributes@);
                        let mut geometries = geometries;
                        let ghost own = geometries@;
                        let mut i: usize = 0;
                        assert(models.take(0) =~= Seq::empty());
                        assert(geometries@ =~= own + attributes_refs(models.take(0)));
                        while i < attributes.len()
                            invariant
                                i <= attributes@.len(),
                                models == attributes_model(attributes@),
                                geometries@ == own + attributes_refs(models.take(i as int)),
                            decreases attributes@.len() - i,
                        {
                            self.collect_refs(&attributes[i].1, &mut geometries);
                            proof {
                                assert(models.take(i + 1).drop_last() =~= models.take(i as int));
                                assert(models.take(i + 1).last() == models[i as int]);
                                assert(geometries@ =~= own + attributes_refs(models.take(i + 1)));
                            }
                            i += 1;
                        }
                        assert(models.take(models.len() as int) =~= models);
                        let attributes = if self.retain_descendants {
                            attributes
                        } else {
                            self.remove_from_attributes(attributes)
                        };
                        let obj = Object {
                            typename,
                            attributes,
                            stereotype: ObjectStereotype::Feature { id, geometries },
                        };
                        proof {
                            lemma_object_model(obj);
                        }
                        Value::Object(obj)
                    },
                    stereotype => {
                        let obj = Object { typename, attributes, stereotype };
                        Value::Object(obj)
                    },
                }
            },
            other => other,
        }
    }

    /// Passes `entity` on to `out` with the geometry references of the
    /// features below its root merged into the root. The stores and the
    /// base URL stay as they are.
    pub fn transform(&mut self, entity: Entity, out: &mut Vec<Entity>)
        ensures
            *final(self) == *old(self),
            final(out)@.len() == old(out)@.len() + 1,
            final(out)@.drop_last() == old(out)@,
            final(out)@.last()@ == (EntityModel {
                root: merged_down(entity.root@, old(self).retains()),
                ..entity@
            }),
            entity@.wf() ==> final(out)@.last()@.wf(),
    {
        let ghost store = entity@.geometry_store;
        let Entity { root, base_url, geometry_store, appearance_store } = entity;
        let root = self.merge_root(root);
        proof {
            if entity@.wf() {
                lemma_merged_down_keeps_refs(
                    entity.root@,
                    self.retains(),
                    |r: GeometryRef| store.spec_holds(r),
                );
            }
        }
        out.push(Entity { root, base_url, geometry_store, appearance_store });
        assert(out@.drop_last() =~= old(out)@);
    }
}

/// Whatever holds of every reference found in a value holds of each of
/// the references gathered from it.
pub proof fn lemma_all_refs(value: ValueModel, p: spec_fn(GeometryRef) -> bool)
    requires
        every_ref(value, p),
    ensures
        forall|k: int| 0 <= k < all_refs(value).len() ==> p(#[trigger] all_refs(value)[k]),
    decreases value,
{
    match value {
        ValueModel::Object(obj) => {
            lemma_attributes_refs(obj.attributes, p);
            let own = stereotype_refs(obj.stereotype);
            let below = attributes_refs(obj.attributes);
            assert(all_refs(value) == own + below);
            assert forall|k: int| 0 <= k < all_refs(value).len() implies p(
                #[trigger] all_refs(value)[k],
            ) by {
                if k < own.len() {
                    assert(all_refs(value)[k] == own[k]);
                    assert(p(own[k]));
                } else {
                    assert(all_refs(value)[k] == below[k - own.len()]);
                    assert(p(below[k - own.len()]));
                }
            }
        },
        ValueModel::Array(items) => {
            lemma_items_refs(items, p);
            assert(all_refs(value) == items_refs(items));
        },
        _ => {},
    }
}

/// The same for the values of a list of attributes.
pub proof fn lemma_attributes_refs(
    attributes: Seq<(Seq<char>, ValueModel)>,
    p: spec_fn(GeometryRef) -> bool,
)
    requires
        forall|i: int| 0 <= i < attributes.len() ==> every_ref((#[trigger] attributes[i]).1, p),
    ensures
        forall|k: int|
            0 <= k < attributes_refs(attributes).len() ==> p(
                #[trigger] attributes_refs(attributes)[k],
            ),
    decreases attributes,
{
    if attributes.len() > 0 {
        assert forall|i: int| 0 <= i < attributes.drop_last().len() implies every_ref(
            (#[trigger] attributes.drop_last()[i]).1,
            p,
        ) by {
            assert(attributes.drop_last()[i] == attributes[i]);
        }
        lemma_attributes_refs(attributes.drop_last(), p);
        assert(every_ref(attributes[attributes.len() - 1].1, p));
        lemma_all_refs(attributes.last().1, p);
        let head = attributes_refs(attributes.drop_last());
        let last = all_refs(attributes.last().1);
        assert forall|k: int| 0 <= k < attributes_refs(attributes).len() implies p(
            #[trigger] attributes_refs(attributes)[k],
        ) by {
            if k < head.len() {
                assert(attributes_refs(attributes)[k] == head[k]);
            } else {
                assert(attributes_refs(attributes)[k] == last[k - head.len()]);
            }
        }
    }
}

/// The same for the items of an array.
pub proof fn lemma_items_refs(items: Seq<ValueModel>, p: spec_fn(GeometryRef) -> bool)
    requires
        forall|i: int| 0 <= i < items.len() ==> every_ref(#[trigger] items[i], p),
    ensures
        forall|k: int| 0 <= k < items_refs(items).len() ==> p(#[trigger] items_refs(items)[k]),
    decreases items,
{
    if items.len() > 0 {
        assert forall|i: int| 0 <= i < items.drop_last().len() implies every_ref(
            #[trigger] items.drop_last()[i],
            p,
        ) by {
            assert(items.drop_last()[i] == items[i]);
        }
        lemma_items_refs(items.drop_last(), p);
        assert(every_ref(items[items.len() - 1], p));
        lemma_all_refs(items.last(), p);
        let head = items_refs(items.drop_last());
        let last = all_refs(items.last());
        assert forall|k: int| 0 <= k < items_refs(items).len() implies p(
            #[trigger] items_refs(items)[k],
        ) by {
            if k < head.len() {
                assert(items_refs(items)[k] == head[k]);
            } else {
                assert(items_refs(items)[k] == last[k - head.len()]);
            }
        }
    }
}

/// Removing features makes no reference: whatever holds of every
/// reference found in a value holds of every reference found in what stays
/// of it.
pub proof fn lemma_without_features_keeps_refs(value: ValueModel, p: spec_fn(GeometryRef) -> bool)
    requires
        every_ref(value, p),
    ensures
        without_features(value) matches Some(v) ==> every_ref(v, p),
    decreases value,
{
    match value {
        ValueModel::Object(obj) => {
            if !(obj.stereotype is Feature) {
                lemma_attributes_without_features_keep_refs(obj.attributes, p);
                let kept = ObjectModel {
                    attributes: attributes_without_features(obj.attributes),
                    ..obj
                };
                assert(kept.stereotype == obj.stereotype);
                assert(every_ref(ValueModel::Object(kept), p));
                assert(without_features(value) == Some(ValueModel::Object(kept)));
            } else {
                assert(without_features(value) is None);
            }
        },
        ValueModel::Array(items) => {
            lemma_items_without_features_keep_refs(items, p);
            let kept = items_without_features(items);
            if kept.len() > 0 {
                assert(every_ref(ValueModel::Array(kept), p));
            }
        },
        _ => {},
    }
}

/// The same for a list of attributes.
pub proof fn lemma_attributes_without_features_keep_refs(
    attributes: Seq<(Seq<char>, ValueModel)>,
    p: spec_fn(GeometryRef) -> bool,
)
    requires
        forall|i: int| 0 <= i < attributes.len() ==> every_ref((#[trigger] attributes[i]).1, p),
    ensures
        forall|i: int|
            0 <= i < attributes_without_features(attributes).len() ==> every_ref(
                (#[trigger] attributes_without_features(attributes)[i]).1,
                p,
            ),
    decreases attributes,
{
    if attributes.len() > 0 {
        assert forall|i: int| 0 <= i < attributes.drop_last().len() implies every_ref(
            (#[trigger] attributes.drop_last()[i]).1,
            p,
        ) by {
            assert(attributes.drop_last()[i] == attributes[i]);
        }
        lemma_attributes_without_features_keep_refs(attributes.drop_last(), p);
        assert(every_ref(attributes[attributes.len() - 1].1, p));
        lemma_without_features_keeps_refs(attributes.last().1, p);
        let head = attributes_without_features(attributes.drop_last());
        let all = attributes_without_features(attributes);
        assert forall|i: int| 0 <= i < all.len() implies every_ref((#[trigger] all[i]).1, p) by {
            if i < head.len() {
                assert(all[i] == head[i]);
            }
        }
    }
}

/// The same for the items of an array.
pub proof fn lemma_items_without_features_keep_refs(
    items: Seq<ValueModel>,
    p: spec_fn(GeometryRef) -> bool,
)
    requires
        forall|i: int| 0 <= i < items.len() ==> every_ref(#[trigger] items[i], p),
    ensures
        forall|i: int|
            0 <= i < items_without_features(items).len() ==> every_ref(
                #[trigger] items_without_features(items)[i],
                p,
            ),
    decreases items,
{
    if items.len() > 0 {
        assert forall|i: int| 0 <= i < items.drop_last().len() implies every_ref(
            #[trigger] items.drop_last()[i],
            p,
        ) by {
            assert(items.drop_last()[i] == items[i]);
        }
        lemma_items_without_features_keep_refs(items.drop_last(), p);
        assert(every_ref(items[items.len() - 1], p));
        lemma_without_features_keeps_refs(items.last(), p);
        let head = items_without_features(items.drop_last());
        let all = items_without_features(items);
        assert forall|i: int| 0 <= i < all.len() implies every_ref(#[trigger] all[i], p) by {
            if i < head.len() {
                assert(all[i] == head[i]);
            }
        }
    }
}

/// Mergedown moves references and makes none: whatever holds of every
/// reference found in the root holds of every reference found in what
/// mergedown makes of it.
pub proof fn lemma_merged_down_keeps_refs(
    root: ValueModel,
    retain_descendants: bool,
    p: spec_fn(GeometryRef) -> bool,
)
    requires
        every_ref(root, p),
    ensures
        every_ref(merged_down(root, retain_descendants), p),
{
    match root {
        ValueModel::Object(obj) => match obj.stereotype {
            StereotypeModel::Feature { id, geometries } => {
                lemma_attributes_refs(obj.attributes, p);
                lemma_attributes_without_features_keep_refs(obj.attributes, p);
                let below = attributes_refs(obj.attributes);
                let merged = geometries + below;
                assert forall|k: int| 0 <= k < merged.len() implies p(#[trigger] merged[k]) by {
                    if k < geometries.len() {
                        assert(merged[k] == geometries[k]);
                    } else {
                        assert(merged[k] == below[k - geometries.len()]);
                    }
                }
            },
            _ => {},
        },
        _ => {},
    }
}

} // verus!
