//! The LoD filter: of the geometry references of an entity, only those of
//! the selected level of detail stay. The geometry store is left as it is.

use vstd::prelude::*;
use crate::entries::{named, viewed};
use crate::geometry::{GeometryRef, GeometryStore};
use crate::object::{
    attributes_model, every_ref, lemma_array_model, lemma_every_ref_implies, stereotype_refs, lemma_object_model, values_model, Entity,
    EntityModel, Object, ObjectModel, ObjectStereotype, StereotypeModel, Value, ValueModel,
};
use crate::text::reversed;

verus! {

/// A set of levels of detail from 0 to 7: bit `k` stands for level `k`.
#[derive(Debug, Clone, Copy, PartialEq, Eq, Structural)]
pub struct LodMask(pub u8);

impl LodMask {
    /// Whether the level `lod` is in the set.
    pub open spec fn spec_has_lod(&self, lod: u8) -> bool {
        lod < 8 && (self.0 >> lod) & 1 == 1
    }

    /// The set of all levels.
    pub fn all() -> (r: Self)
        ensures
            forall|lod: u8| lod < 8 ==> r.spec_has_lod(lod),
    {
        assert(forall|lod: u8| lod < 8 ==> (0xffu8 >> lod) & 1 == 1) by (bit_vector);
        LodMask(0xff)
    }

    /// Whether the level `lod` is in the set.
    pub fn has_lod(&self, lod: u8) -> (b: bool)
        ensures
            b == self.spec_has_lod(lod),
    {
        lod < 8 && (self.0 >> lod) & 1 == 1
    }
}

/// Which level of detail the filter selects.
#[derive(Debug, Clone, Copy, PartialEq, Eq, Structural)]
pub enum LodFilterMode {
    /// The highest level that the entity has
    Highest,
    /// The lowest level that the entity has
    Lowest,
    /// Every level
    All,
    /// The given level
    Specific(u8),
}

/// Of two levels the higher, or the lower, as `highest` says; of a level
/// and none, the level.
pub open spec fn better(a: Option<u8>, b: Option<u8>, highest: bool) -> Option<u8> {
    match (a, b) {
        (None, _) => b,
        (_, None) => a,
        (Some(x), Some(y)) => if highest == (x >= y) {
            Some(x)
        } else {
            Some(y)
        },
    }
}

/// The level if it is in the mask.
pub open spec fn masked(mask: LodMask, lod: u8) -> Option<u8> {
    if mask.spec_has_lod(lod) {
        Some(lod)
    } else {
        None
    }
}

/// The highest, or lowest, level within the mask among `refs`.
pub open spec fn refs_extreme(refs: Seq<GeometryRef>, mask: LodMask, highest: bool) -> Option<u8>
    decreases refs.len(),
{
    if refs.len() == 0 {
        None
    } else {
        better(
            refs_extreme(refs.drop_last(), mask, highest),
            masked(mask, refs.last().lod),
            highest,
        )
    }
}

/// The highest, or lowest, level within the mask among all geometry
/// references found in `value`.
pub open spec fn extreme(value: ValueModel, mask: LodMask, highest: bool) -> Option<u8>
    decreases value,
{
    match value {
        ValueModel::Object(obj) => better(
            refs_extreme(stereotype_refs(obj.stereotype), mask, highest),
            attributes_extreme(obj.attributes, mask, highest),
            highest,
        ),
        ValueModel::Array(items) => items_extreme(items, mask, highest),
        _ => None,
    }
}

/// The same among the values of a list of attributes.
pub open spec fn attributes_extreme(
    attributes: Seq<(Seq<char>, ValueModel)>,
    mask: LodMask,
    highest: bool,
) -> Option<u8>
    decreases attributes,
{
    if attributes.len() == 0 {
        None
    } else {
        better(
            attributes_extreme(attributes.drop_last(), mask, highest),
            extreme(attributes.last().1, mask, highest),
            highest,
        )
    }
}

/// The same among the items of an array.
pub open spec fn items_extreme(items: Seq<ValueModel>, mask: LodMask, highest: bool) -> Option<u8>
    decreases items,
{
    if items.len() == 0 {
        None
    } else {
        better(
            items_extreme(items.drop_last(), mask, highest),
            extreme(items.last(), mask, highest),
            highest,
        )
    }
}

/// The level that the filter looks for in `value`: the highest or lowest
/// level within the mask that `value` has, or the given level if it is
/// within the mask. Where every level is wanted there is none to look for.
pub open spec fn target_lod(mode: LodFilterMode, mask: LodMask, value: ValueModel) -> Option<u8> {
    match mode {
        LodFilterMode::Highest => extreme(value, mask, true),
        LodFilterMode::Lowest => extreme(value, mask, false),
        LodFilterMode::All => None,
        LodFilterMode::Specific(k) => masked(mask, k),
    }
}

/// Whether a reference of level `lod` stays: its level is within the mask
/// and is the one looked for, if one is.
pub open spec fn keeps(mode: LodFilterMode, mask: LodMask, target: Option<u8>, lod: u8) -> bool {
    mask.spec_has_lod(lod) && (mode is All || target == Some(lod))
}

/// The references of `refs` that stay, in order.
pub open spec fn kept_refs(
    refs: Seq<GeometryRef>,
    mode: LodFilterMode,
    mask: LodMask,
    target: Option<u8>,
) -> Seq<GeometryRef>
    decreases refs.len(),
{
    if refs.len() == 0 {
        Seq::empty()
    } else if keeps(mode, mask, target, refs.last().lod) {
        kept_refs(refs.drop_last(), mode, mask, target).push(refs.last())
    } else {
        kept_refs(refs.drop_last(), mode, mask, target)
    }
}

/// A stereotype with only the references that stay.
pub open spec fn filtered_stereotype(
    s: StereotypeModel,
    mode: LodFilterMode,
    mask: LodMask,
    target: Option<u8>,
) -> StereotypeModel {
    match s {
        StereotypeModel::Feature { id, geometries } => StereotypeModel::Feature {
            id,
            geometries: kept_refs(geometries, mode, mask, target),
        },
        _ => s,
    }
}

/// `value` with only the references that stay. Nothing else changes.
pub open spec fn filtered(
    value: ValueModel,
    mode: LodFilterMode,
    mask: LodMask,
    target: Option<u8>,
) -> ValueModel
    decreases value,
{
    match value {
        ValueModel::Object(obj) => ValueModel::Object(
            ObjectModel {
                typename: obj.typename,
                attributes: filtered_attributes(obj.attributes, mode, mask, target),
                stereotype: filtered_stereotype(obj.stereotype, mode, mask, target),
            },
        ),
        ValueModel::Array(items) => ValueModel::Array(filtered_items(items, mode, mask, target)),
        _ => value,
    }
}

/// The attributes with their values filtered.
pub open spec fn filtered_attributes(
    attributes: Seq<(Seq<char>, ValueModel)>,
    mode: LodFilterMode,
    mask: LodMask,
    target: Option<u8>,
) -> Seq<(Seq<char>, ValueModel)>
    decreases attributes,
{
    if attributes.len() == 0 {
        Seq::empty()
    } else {
        filtered_attributes(attributes.drop_last(), mode, mask, target).push(
            (attributes.last().0, filtered(attributes.last().1, mode, mask, target)),
        )
    }
}

/// The items of an array, each filtered.
pub open spec fn filtered_items(
    items: Seq<ValueModel>,
    mode: LodFilterMode,
    mask: LodMask,
    target: Option<u8>,
) -> Seq<ValueModel>
    decreases items,
{
    if items.len() == 0 {
        Seq::empty()
    } else {
        filtered_items(items.drop_last(), mode, mask, target).push(
            filtered(items.last(), mode, mask, target),
        )
    }
}

/// The transform that filters geometry references by level of detail.
pub struct FilterLodTransform {
    mask: LodMask,
    mode: LodFilterMode,
}

/// Of two levels the higher, or the lower, as `highest` says.
fn choose_better(a: Option<u8>, b: Option<u8>, highest: bool) -> (r: Option<u8>)
    ensures
        r == better(a, b, highest),
{
    match (a, b) {
        (None, _) => b,
        (_, None) => a,
        (Some(x), Some(y)) => if highest == (x >= y) {
            Some(x)
        } else {
            Some(y)
        },
    }
}

impl FilterLodTransform {
    /// The levels that the filter considers.
    pub closed spec fn mask(&self) -> LodMask {
        self.mask
    }

    /// The mode of the filter.
    pub closed spec fn mode(&self) -> LodFilterMode {
        self.mode
    }

    /// A filter that considers the levels of `mask` and selects by `mode`.
    pub fn new(mask: LodMask, mode: LodFilterMode) -> (r: Self)
        ensures
            r.mask() == mask,
            r.mode() == mode,
    {
        FilterLodTransform { mask, mode }
    }

    /// The highest, or lowest, level within the mask among `refs`.
    fn find_in_refs(&self, refs: &Vec<GeometryRef>, highest: bool) -> (r: Option<u8>)
        ensures
            r == refs_extreme(refs@, self.mask(), highest),
    {
        let mut best: Option<u8> = None;
        let mut i: usize = 0;
        assert(refs@.take(0) =~= Seq::empty());
        while i < refs.len()
            invariant
                i <= refs@.len(),
                best == refs_extreme(refs@.take(i as int), self.mask(), highest),
            decreases refs@.len() - i,
        {
            let lod = refs[i].lod;
            let here = if self.mask.has_lod(lod) {
                Some(lod)
            } else {
                None
            };
            proof {
                assert(refs@.take(i + 1).drop_last() =~= refs@.take(i as int));
                assert(refs@.take(i + 1).last() == refs@[i as int]);
            }
            best = choose_better(best, here, highest);
            i += 1;
        }
        assert(refs@.take(refs@.len() as int) =~= refs@);
        best
    }

    /// The highest, or lowest, level within the mask among all geometry
    /// references found in `value`.
    #[verifier::loop_isolation(false)]
    pub fn find_extreme(&self, value: &Value, highest: bool) -> (r: Option<u8>)
        ensures
            r == extreme(value@, self.mask(), highest),
        decreases value,
    {
        match value {
            Value::Object(obj) => {
                proof {
                    lemma_object_model(*obj);
                }
                let ghost models = attributes_model(obj.attributes@);
                let own = match &obj.stereotype {
                    ObjectStereotype::Feature { geometries, .. } => self.find_in_refs(
                        geometries,
                        highest,
                    ),
                    _ => None,
                };
                let mut below: Option<u8> = None;
                let mut i: usize = 0;
                assert(models.take(0) =~= Seq::empty());
                while i < obj.attributes.len()
                    invariant
                        i <= obj.attributes@.len(),
                        models == attributes_model(obj.attributes@),
                        below == attributes_extreme(models.take(i as int), self.mask(), highest),
                    decreases obj.attributes@.len() - i,
                {
                    let here = self.find_extreme(&obj.attributes[i].1, highest);
                    proof {
                        assert(models.take(i + 1).drop_last() =~= models.take(i as int));
                        assert(models.take(i + 1).last() == models[i as int]);
                    }
                    below = choose_better(below, here, highest);
                    i += 1;
                }
                assert(models.take(models.len() as int) =~= models);
                choose_better(own, below, highest)
            },
            Value::Array(items) => {
                proof {
                    lemma_array_model(*items);
                }
                let ghost models = values_model(items@);
                let mut below: Option<u8> = None;
                let mut i: usize = 0;
                assert(models.take(0) =~= Seq::empty());
                while i < items.len()
                    invariant
                        i <= items@.len(),
                        models == values_model(items@),
                        below == items_extreme(models.take(i as int), self.mask(), highest),
                    decreases items@.len() - i,
                {
                    let here = self.find_extreme(&items[i], highest);
                    proof {
                        assert(models.take(i + 1).drop_last() =~= models.take(i as int));
                        assert(models.take(i + 1).last() == models[i as int]);
                    }
                    below = choose_better(below, here, highest);
                    i += 1;
                }
                assert(models.take(models.len() as int) =~= models);
                below
            },
            _ => None,
        }
    }

    /// The level that the filter looks for in `value`.
    pub fn find_target(&self, value: &Value) -> (r: Option<u8>)
        ensures
            r == target_lod(self.mode(), self.mask(), value@),
    {
        match self.mode {
            LodFilterMode::Highest => self.find_extreme(value, true),
            LodFilterMode::Lowest => self.find_extreme(value, false),
            LodFilterMode::All => None,
            LodFilterMode::Specific(k) => if self.mask.has_lod(k) {
                Some(k)
            } else {
                None
            },
        }
    }

    /// Whether a reference of level `lod` stays.
    fn keeps_lod(&self, target: Option<u8>, lod: u8) -> (b: bool)
        ensures
            b == keeps(self.mode(), self.mask(), target, lod),
    {
        if !self.mask.has_lod(lod) {
            return false;
        }
        match self.mode {
            LodFilterMode::All => true,
            _ => match target {
                Some(t) => t == lod,
                None => false,
            },
        }
    }

    /// The references of `refs` that stay, in order.
    fn filter_refs(&self, refs: Vec<GeometryRef>, target: Option<u8>) -> (r: Vec<GeometryRef>)
        ensures
            r@ == kept_refs(refs@, self.mode(), self.mask(), target),
    {
        let mut kept: Vec<GeometryRef> = Vec::new();
        let mut i: usize = 0;
        assert(refs@.take(0) =~= Seq::empty());
        while i < refs.len()
            invariant
                i <= refs@.len(),
                kept@ == kept_refs(refs@.take(i as int), self.mode(), self.mask(), target),
            decreases refs@.len() - i,
        {
            let r = refs[i];
            proof {
                assert(refs@.take(i + 1).drop_last() =~= refs@.take(i as int));
                assert(refs@.take(i + 1).last() == refs@[i as int]);
            }
            if self.keeps_lod(target, r.lod) {
                kept.push(r);
            }
            i += 1;
        }
        assert(refs@.take(refs@.len() as int) =~= refs@);
        kept
    }

    /// `value` with only the references that stay.
    pub fn edit_tree(&self, value: Value, target: Option<u8>) -> (r: Value)
        ensures
            r@ == filtered(value@, self.mode(), self.mask(), target),
        decreases value, 1nat,
    {
        match value {
            Value::Object(obj) => {
                proof {
                    lemma_object_model(obj);
                }
                let Object { typename, attributes, stereotype } = obj;
                let stereotype = match stereotype {
                    ObjectStereotype::Feature { id, geometries } => ObjectStereotype::Feature {
                        id,
                        geometries: self.filter_refs(geometries, target),
                    },
                    other => other,
                };
                let attributes = self.edit_attributes(attributes, target);
                let obj = Object { typename, attributes, stereotype };
                proof {
                    lemma_object_model(obj);
                }
                Value::Object(obj)
            },
            Value::Array(items) => {
                proof {
                    lemma_array_model(items);
                }
                let items = self.edit_items(items, target);
                proof {
                    lemma_array_model(items);
                }
                Value::Array(items)
            },
            other => other,
        }
    }

    /// The attributes with their values filtered.
    #[verifier::loop_isolation(false)]
    fn edit_attributes(&self, attributes: Vec<(String, Value)>, target: Option<u8>) -> (r: Vec<
        (String, Value),
    >)
        ensures
            attributes_model(r@) == filtered_attributes(
                attributes_model(attributes@),
                self.mode(),
                self.mask(),
                target,
            ),
        decreases attributes, 0nat,
    {
        let ghost inputs = attributes@;
        let ghost models = attributes_model(inputs);
        let n = attributes.len();
        let mut rest = reversed(attributes);
        let mut edited: Vec<(String, Value)> = Vec::new();
        let mut i: usize = 0;
        assert(models.take(0) =~= Seq::empty());
        assert(attributes_model(edited@) =~= Seq::empty());
        while i < n
            invariant
                i <= n,
                rest@.len() == n - i,
                forall|j: int| 0 <= j < n - i ==> rest@[j] == inputs[n - 1 - j],
                attributes_model(edited@) == filtered_attributes(
                    models.take(i as int),
                    self.mode(),
                    self.mask(),
                    target,
                ),
            decreases n - i,
        {
            let ghost done = attributes_model(edited@);
            let (key, child) = rest.pop().unwrap();
            assert(child == inputs[i as int].1);
            assert(key == inputs[i as int].0);
            proof {
                assert(models.take(i + 1).drop_last() =~= models.take(i as int));
                assert(models.take(i + 1).last() == (key@, child@));
            }
            let child = self.edit_tree(child, target);
            edited.push((key, child));
            assert(attributes_model(edited@) =~= done.push((key@, child@)));
            i += 1;
        }
        assert(models.take(n as int) =~= models);
        edited
    }

    /// The items of an array, each filtered.
    #[verifier::loop_isolation(false)]
    fn edit_items(&self, items: Vec<Value>, target: Option<u8>) -> (r: Vec<Value>)
        ensures
            values_model(r@) == filtered_items(
                values_model(items@),
                self.mode(),
                self.mask(),
                target,
            ),
        decreases items, 0nat,
    {
        let ghost inputs = items@;
        let ghost models = values_model(inputs);
        let n = items.len();
        let mut rest = reversed(items);
        let mut edited: Vec<Value> = Vec::new();
        let mut i: usize = 0;
        assert(models.take(0) =~= Seq::empty());
        assert(values_model(edited@) =~= Seq::empty());
        while i < n
            invariant
                i <= n,
                rest@.len() == n - i,
                forall|j: int| 0 <= j < n - i ==> rest@[j] == inputs[n - 1 - j],
                values_model(edited@) == filtered_items(
                    models.take(i as int),
                    self.mode(),
                    self.mask(),
                    target,
                ),
            decreases n - i,
        {
            let ghost done = values_model(edited@);
            let child = rest.pop().unwrap();
            assert(child == inputs[i as int]);
            proof {
                assert(models.take(i + 1).drop_last() =~= models.take(i as int));
                assert(models.take(i + 1).last() == child@);
            }
            let child = self.edit_tree(child, target);
            edited.push(child);
            assert(values_model(edited@) =~= done.push(child@));
            i += 1;
        }
        assert(models.take(n as int) =~= models);
        edited
    }

    /// Passes `entity` on to `out` with only the geometry references of the
    /// selected level. The stores and the base URL stay as they are.
    pub fn transform(&mut self, entity: Entity, out: &mut Vec<Entity>)
        ensures
            *final(self) == *old(self),
            final(out)@.len() == old(out)@.len() + 1,
            final(out)@.drop_last() == old(out)@,
            final(out)@.last()@ == (EntityModel {
                root: filtered(
                    entity.root@,
                    old(self).mode(),
                    old(self).mask(),
                    target_lod(old(self).mode(), old(self).mask(), entity.root@),
                ),
                ..entity@
            }),
            entity@.wf() ==> final(out)@.last()@.wf(),
    {
        let ghost store = entity@.geometry_store;
        let ghost target = target_lod(self.mode(), self.mask(), entity.root@);
        let Entity { root, base_url, geometry_store, appearance_store } = entity;
        let target_lod = self.find_target(&root);
        let root = self.edit_tree(root, target_lod);
        proof {
            if entity@.wf() {
                lemma_filtered_keeps_refs(
                    entity.root@,
                    self.mode(),
                    self.mask(),
                    target,
                    |r: GeometryRef| store.spec_holds(r),
                );
            }
        }
        out.push(Entity { root, base_url, geometry_store, appearance_store });
        assert(out@.drop_last() =~= old(out)@);
    }
}

/// The references that stay are references that were there: whatever holds
/// of all of `refs` holds of those kept, and each of those kept stays by
/// the rule.
pub proof fn lemma_kept_refs(
    refs: Seq<GeometryRef>,
    mode: LodFilterMode,
    mask: LodMask,
    target: Option<u8>,
    p: spec_fn(GeometryRef) -> bool,
)
    requires
        forall|k: int| 0 <= k < refs.len() ==> p(#[trigger] refs[k]),
    ensures
        forall|k: int|
            0 <= k < kept_refs(refs, mode, mask, target).len() ==> p(
                #[trigger] kept_refs(refs, mode, mask, target)[k],
            ) && keeps(mode, mask, target, kept_refs(refs, mode, mask, target)[k].lod),
    decreases refs.len(),
{
    if refs.len() > 0 {
        assert forall|k: int| 0 <= k < refs.drop_last().len() implies p(
            #[trigger] refs.drop_last()[k],
        ) by {
            assert(refs.drop_last()[k] == refs[k]);
        }
        lemma_kept_refs(refs.drop_last(), mode, mask, target, p);
        assert(p(refs[refs.len() - 1]));
    }
}

/// Filtering makes no reference: whatever holds of every reference found
/// in a value holds of every reference found in the filtered value.
pub proof fn lemma_filtered_keeps_refs(
    value: ValueModel,
    mode: LodFilterMode,
    mask: LodMask,
    target: Option<u8>,
    p: spec_fn(GeometryRef) -> bool,
)
    requires
        every_ref(value, p),
    ensures
        every_ref(filtered(value, mode, mask, target), p),
    decreases value,
{
    match value {
        ValueModel::Object(obj) => {
            lemma_kept_refs(stereotype_refs(obj.stereotype), mode, mask, target, p);
            lemma_filtered_attributes_keep_refs(obj.attributes, mode, mask, target, p);
        },
        ValueModel::Array(items) => {
            lemma_filtered_items_keep_refs(items, mode, mask, target, p);
        },
        _ => {},
    }
}

/// The same for a list of attributes.
pub proof fn lemma_filtered_attributes_keep_refs(
    attributes: Seq<(Seq<char>, ValueModel)>,
    mode: LodFilterMode,
    mask: LodMask,
    target: Option<u8>,
    p: spec_fn(GeometryRef) -> bool,
)
    requires
        forall|i: int| 0 <= i < attributes.len() ==> every_ref((#[trigger] attributes[i]).1, p),
    ensures
        filtered_attributes(attributes, mode, mask, target).len() == attributes.len(),
        forall|i: int|
            0 <= i < attributes.len() ==> every_ref(
                (#[trigger] filtered_attributes(attributes, mode, mask, target)[i]).1,
                p,
            ),
    decreases attributes,
{
    if attributes.len() > 0 {
        assert forall|i: int| 0 <= i < attributes.drop_last().len() implies every_ref(
            (#[trigger] attributes.drop_last()[i]).1,
            p,
        ) by {
            assert(attributes.drop_last()[i] == attributes[i]);
        }
        lemma_filtered_attributes_keep_refs(attributes.drop_last(), mode, mask, target, p);
        assert(every_ref(attributes[attributes.len() - 1].1, p));
        lemma_filtered_keeps_refs(attributes.last().1, mode, mask, target, p);
    }
}

/// The same for the items of an array.
pub proof fn lemma_filtered_items_keep_refs(
    items: Seq<ValueModel>,
    mode: LodFilterMode,
    mask: LodMask,
    target: Option<u8>,
    p: spec_fn(GeometryRef) -> bool,
)
    requires
        forall|i: int| 0 <= i < items.len() ==> every_ref(#[trigger] items[i], p),
    ensures
        filtered_items(items, mode, mask, target).len() == items.len(),
        forall|i: int|
            0 <= i < items.len() ==> every_ref(
                #[trigger] filtered_items(items, mode, mask, target)[i],
                p,
            ),
    decreases items,
{
    if items.len() > 0 {
        assert forall|i: int| 0 <= i < items.drop_last().len() implies every_ref(
            #[trigger] items.drop_last()[i],
            p,
        ) by {
            assert(items.drop_last()[i] == items[i]);
        }
        lemma_filtered_items_keep_refs(items.drop_last(), mode, mask, target, p);
        assert(every_ref(items[items.len() - 1], p));
        lemma_filtered_keeps_refs(items.last(), mode, mask, target, p);
    }
}

/// The property of a reference that the filter let it stay.
pub open spec fn stays(mode: LodFilterMode, mask: LodMask, target: Option<u8>) -> spec_fn(
    GeometryRef,
) -> bool {
    |r: GeometryRef| keeps(mode, mask, target, r.lod)
}

/// Every reference found in a filtered value stays by the rule.
pub proof fn lemma_filtered_selected(
    value: ValueModel,
    mode: LodFilterMode,
    mask: LodMask,
    target: Option<u8>,
)
    ensures
        every_ref(filtered(value, mode, mask, target), stays(mode, mask, target)),
    decreases value,
{
    let q = stays(mode, mask, target);
    match value {
        ValueModel::Object(obj) => {
            lemma_kept_refs(
                stereotype_refs(obj.stereotype),
                mode,
                mask,
                target,
                |r: GeometryRef| true,
            );
            lemma_filtered_attributes_selected(obj.attributes, mode, mask, target);
        },
        ValueModel::Array(items) => {
            lemma_filtered_items_selected(items, mode, mask, target);
        },
        _ => {},
    }
}

/// The same for a list of attributes.
pub proof fn lemma_filtered_attributes_selected(
    attributes: Seq<(Seq<char>, ValueModel)>,
    mode: LodFilterMode,
    mask: LodMask,
    target: Option<u8>,
)
    ensures
        filtered_attributes(attributes, mode, mask, target).len() == attributes.len(),
        forall|i: int|
            0 <= i < attributes.len() ==> every_ref(
                (#[trigger] filtered_attributes(attributes, mode, mask, target)[i]).1,
                stays(mode, mask, target),
            ),
    decreases attributes,
{
    if attributes.len() > 0 {
        lemma_filtered_attributes_selected(attributes.drop_last(), mode, mask, target);
        lemma_filtered_selected(attributes.last().1, mode, mask, target);
    }
}

/// The same for the items of an array.
pub proof fn lemma_filtered_items_selected(
    items: Seq<ValueModel>,
    mode: LodFilterMode,
    mask: LodMask,
    target: Option<u8>,
)
    ensures
        filtered_items(items, mode, mask, target).len() == items.len(),
        forall|i: int|
            0 <= i < items.len() ==> every_ref(
                #[trigger] filtered_items(items, mode, mask, target)[i],
                stays(mode, mask, target),
            ),
    decreases items,
{
    if items.len() > 0 {
        lemma_filtered_items_selected(items.drop_last(), mode, mask, target);
        lemma_filtered_selected(items.last(), mode, mask, target);
    }
}

/// Whether the level `lod` is no better than `bound`: no higher, or no
/// lower, as `highest` says.
pub open spec fn no_better(lod: u8, bound: u8, highest: bool) -> bool {
    if highest {
        lod <= bound
    } else {
        lod >= bound
    }
}

/// The property of a reference that its level, if within the mask, is no
/// better than what `bound` allows; with no bound, that it is outside the
/// mask.
pub open spec fn bounded(mask: LodMask, bound: Option<u8>, highest: bool) -> spec_fn(
    GeometryRef,
) -> bool {
    |r: GeometryRef|
        mask.spec_has_lod(r.lod) ==> (bound matches Some(h) && no_better(r.lod, h, highest))
}

/// The property of a reference that its level is not `lod`.
pub open spec fn misses(lod: u8) -> spec_fn(GeometryRef) -> bool {
    |r: GeometryRef| r.lod != lod
}

proof fn lemma_refs_extreme(refs: Seq<GeometryRef>, mask: LodMask, highest: bool)
    ensures
        forall|k: int|
            0 <= k < refs.len() ==> bounded(mask, refs_extreme(refs, mask, highest), highest)(
                #[trigger] refs[k],
            ),
        refs_extreme(refs, mask, highest) matches Some(h) ==> mask.spec_has_lod(h) && exists|
            k: int,
        |
            0 <= k < refs.len() && (#[trigger] refs[k]).lod == h,
    decreases refs.len(),
{
    if refs.len() > 0 {
        lemma_refs_extreme(refs.drop_last(), mask, highest);
        let head = refs_extreme(refs.drop_last(), mask, highest);
        let all = refs_extreme(refs, mask, highest);
        assert forall|k: int| 0 <= k < refs.len() implies bounded(mask, all, highest)(
            #[trigger] refs[k],
        ) by {
            if k < refs.len() - 1 {
                assert(refs[k] == refs.drop_last()[k]);
                assert(bounded(mask, head, highest)(refs.drop_last()[k]));
            }
        }
        if all is Some {
            let h = all->Some_0;
            if head == Some(h) {
                let k = choose|k: int|
                    0 <= k < refs.drop_last().len() && (#[trigger] refs.drop_last()[k]).lod == h;
                assert(refs[k].lod == h);
            } else {
                assert(refs[refs.len() - 1].lod == h);
            }
        }
    }
}

/// Loosening the bound keeps what is bounded.
proof fn lemma_bounded_by_better(
    value: ValueModel,
    mask: LodMask,
    a: Option<u8>,
    b: Option<u8>,
    highest: bool,
)
    requires
        every_ref(value, bounded(mask, a, highest)),
    ensures
        every_ref(value, bounded(mask, better(a, b, highest), highest)),
        every_ref(value, bounded(mask, better(b, a, highest), highest)),
{
    lemma_every_ref_implies(
        value,
        bounded(mask, a, highest),
        bounded(mask, better(a, b, highest), highest),
    );
    lemma_every_ref_implies(
        value,
        bounded(mask, a, highest),
        bounded(mask, better(b, a, highest), highest),
    );
}

/// The level that `extreme` finds is the best within the mask: the level of
/// every reference found in the value is outside the mask or no better,
/// and some reference found in the value has that very level. Where it
/// finds none, every reference is outside the mask.
pub proof fn lemma_extreme(value: ValueModel, mask: LodMask, highest: bool)
    ensures
        every_ref(value, bounded(mask, extreme(value, mask, highest), highest)),
        extreme(value, mask, highest) matches Some(h) ==> mask.spec_has_lod(h) && !every_ref(
            value,
            misses(h),
        ),
    decreases value,
{
    match value {
        ValueModel::Object(obj) => {
            let refs = stereotype_refs(obj.stereotype);
            let own = refs_extreme(refs, mask, highest);
            let below = attributes_extreme(obj.attributes, mask, highest);
            let all = better(own, below, highest);
            lemma_refs_extreme(refs, mask, highest);
            lemma_attributes_extreme(obj.attributes, mask, highest);
            assert forall|i: int| 0 <= i < obj.attributes.len() implies every_ref(
                (#[trigger] obj.attributes[i]).1,
                bounded(mask, all, highest),
            ) by {
                lemma_bounded_by_better(obj.attributes[i].1, mask, below, own, highest);
            }
            assert forall|k: int| 0 <= k < refs.len() implies bounded(mask, all, highest)(
                #[trigger] refs[k],
            ) by {
                assert(bounded(mask, own, highest)(refs[k]));
            }
            if all is Some {
                let h = all->Some_0;
                if own == Some(h) {
                    let k = choose|k: int| 0 <= k < refs.len() && (#[trigger] refs[k]).lod == h;
                    assert(!misses(h)(refs[k]));
                } else {
                    assert(below == Some(h));
                    let i = choose|i: int|
                        0 <= i < obj.attributes.len() && !every_ref(
                            (#[trigger] obj.attributes[i]).1,
                            misses(h),
                        );
                    assert(!every_ref(obj.attributes[i].1, misses(h)));
                }
            }
        },
        ValueModel::Array(items) => {
            lemma_items_extreme(items, mask, highest);
            if extreme(value, mask, highest) is Some {
                let h = extreme(value, mask, highest)->Some_0;
                let i = choose|i: int|
                    0 <= i < items.len() && !every_ref(#[trigger] items[i], misses(h));
                assert(!every_ref(items[i], misses(h)));
            }
        },
        _ => {},
    }
}

/// The same for the values of a list of attributes.
pub proof fn lemma_attributes_extreme(
    attributes: Seq<(Seq<char>, ValueModel)>,
    mask: LodMask,
    highest: bool,
)
    ensures
        forall|i: int|
            0 <= i < attributes.len() ==> every_ref(
                (#[trigger] attributes[i]).1,
                bounded(mask, attributes_extreme(attributes, mask, highest), highest),
            ),
        attributes_extreme(attributes, mask, highest) matches Some(h) ==> mask.spec_has_lod(h)
            && exists|i: int|
            0 <= i < attributes.len() && !every_ref((#[trigger] attributes[i]).1, misses(h)),
    decreases attributes,
{
    if attributes.len() > 0 {
        let head = attributes_extreme(attributes.drop_last(), mask, highest);
        let last = extreme(attributes.last().1, mask, highest);
        let all = better(head, last, highest);
        lemma_attributes_extreme(attributes.drop_last(), mask, highest);
        lemma_extreme(attributes.last().1, mask, highest);
        assert forall|i: int| 0 <= i < attributes.len() implies every_ref(
            (#[trigger] attributes[i]).1,
            bounded(mask, all, highest),
        ) by {
            if i < attributes.len() - 1 {
                assert(attributes[i] == attributes.drop_last()[i]);
                lemma_bounded_by_better(attributes.drop_last()[i].1, mask, head, last, highest);
            } else {
                lemma_bounded_by_better(attributes[i].1, mask, last, head, highest);
            }
        }
        if all is Some {
            let h = all->Some_0;
            if head == Some(h) {
                let i = choose|i: int|
                    0 <= i < attributes.drop_last().len() && !every_ref(
                        (#[trigger] attributes.drop_last()[i]).1,
                        misses(h),
                    );
                assert(attributes[i] == attributes.drop_last()[i]);
                assert(!every_ref(attributes[i].1, misses(h)));
            } else {
                assert(!every_ref(attributes[attributes.len() - 1].1, misses(h)));
            }
        }
    }
}

/// The same for the items of an array.
pub proof fn lemma_items_extreme(items: Seq<ValueModel>, mask: LodMask, highest: bool)
    ensures
        forall|i: int|
            0 <= i < items.len() ==> every_ref(
                #[trigger] items[i],
                bounded(mask, items_extreme(items, mask, highest), highest),
            ),
        items_extreme(items, mask, highest) matches Some(h) ==> mask.spec_has_lod(h) && exists|
            i: int,
        |
            0 <= i < items.len() && !every_ref(#[trigger] items[i], misses(h)),
    decreases items,
{
    if items.len() > 0 {
        let head = items_extreme(items.drop_last(), mask, highest);
        let last = extreme(items.last(), mask, highest);
        let all = better(head, last, highest);
        lemma_items_extreme(items.drop_last(), mask, highest);
        lemma_extreme(items.last(), mask, highest);
        assert forall|i: int| 0 <= i < items.len() implies every_ref(
            #[trigger] items[i],
            bounded(mask, all, highest),
        ) by {
            if i < items.len() - 1 {
                assert(items[i] == items.drop_last()[i]);
                lemma_bounded_by_better(items.drop_last()[i], mask, head, last, highest);
            } else {
                lemma_bounded_by_better(items[i], mask, last, head, highest);
            }
        }
        if all is Some {
            let h = all->Some_0;
            if head == Some(h) {
                let i = choose|i: int|
                    0 <= i < items.drop_last().len() && !every_ref(
                        #[trigger] items.drop_last()[i],
                        misses(h),
                    );
                assert(items[i] == items.drop_last()[i]);
                assert(!every_ref(items[i], misses(h)));
            } else {
                assert(!every_ref(items[items.len() - 1], misses(h)));
            }
        }
    }
}

/// The property of a reference that its level is `lod`.
pub open spec fn has_level(lod: u8) -> spec_fn(GeometryRef) -> bool {
    |r: GeometryRef| r.lod == lod
}

/// The property that no reference has.
pub open spec fn never() -> spec_fn(GeometryRef) -> bool {
    |r: GeometryRef| false
}

/// The highest level wins: under the mode `Highest`, every geometry
/// reference that stays has one and the same level; this level is within
/// the mask, some reference of the value given has it, and no reference of
/// the value given has a higher level within the mask. Where the value
/// given has no reference within the mask, none stays.
pub proof fn lemma_highest_wins(value: ValueModel, mask: LodMask)
    ensures
        ({
            let target = target_lod(LodFilterMode::Highest, mask, value);
            let out = filtered(value, LodFilterMode::Highest, mask, target);
            match target {
                Some(h) => {
                    &&& every_ref(out, has_level(h))
                    &&& mask.spec_has_lod(h)
                    &&& !every_ref(value, misses(h))
                    &&& every_ref(value, bounded(mask, Some(h), true))
                },
                None => every_ref(out, never()),
            }
        }),
{
    let target = target_lod(LodFilterMode::Highest, mask, value);
    let out = filtered(value, LodFilterMode::Highest, mask, target);
    lemma_filtered_selected(value, LodFilterMode::Highest, mask, target);
    lemma_extreme(value, mask, true);
    match target {
        Some(h) => {
            lemma_every_ref_implies(
                out,
                stays(LodFilterMode::Highest, mask, target),
                has_level(h),
            );
        },
        None => {
            lemma_every_ref_implies(out, stays(LodFilterMode::Highest, mask, target), never());
        },
    }
}

} // verus!
