//! Dot notation: nested objects and arrays become attributes of the root
//! whose names are the path to each value, split by dots
//! (e.g. `buildingDisasterRiskAttribute.0.rankOrg`).

use vstd::prelude::*;
use vstd::string::StringExecFns;
use crate::entries::{
    distinct_keys, has_key, insert_entry, lemma_has_key, lemma_viewed_with_entry,
    lemma_with_entry_distinct, named, viewed, with_entry,
};
use crate::geometry::GeometryRef;
use crate::object::{
    attributes_model, every_ref, lemma_array_model, lemma_object_model, names_distinct,
    values_model, Entity,
    EntityModel, Object, ObjectModel, Value, ValueModel,
};
use crate::text::{decimal, decimal_bytes, reversed};

verus! {

/// The text of a decimal digit.
pub open spec fn digit_text(d: int) -> Seq<char> {
    if d == 0 {
        "0"@
    } else if d == 1 {
        "1"@
    } else if d == 2 {
        "2"@
    } else if d == 3 {
        "3"@
    } else if d == 4 {
        "4"@
    } else if d == 5 {
        "5"@
    } else if d == 6 {
        "6"@
    } else if d == 7 {
        "7"@
    } else if d == 8 {
        "8"@
    } else {
        "9"@
    }
}

/// The text of a number in decimal notation.
pub open spec fn decimal_text(n: nat) -> Seq<char>
    decreases n,
{
    if n < 10 {
        digit_text(n as int)
    } else {
        decimal_text(n / 10) + digit_text((n % 10) as int)
    }
}

/// The text of a sequence of ASCII digits.
pub open spec fn digits_text(digits: Seq<u8>) -> Seq<char>
    decreases digits.len(),
{
    if digits.len() == 0 {
        Seq::empty()
    } else {
        digits_text(digits.drop_last()) + digit_text(digits.last() - 48)
    }
}

proof fn lemma_decimal_text(n: nat)
    ensures
        digits_text(decimal(n)) == decimal_text(n),
    decreases n,
{
    if n < 10 {
        let d = decimal(n);
        assert(d.drop_last() =~= Seq::<u8>::empty());
        assert(digits_text(d.drop_last()) =~= Seq::<char>::empty());
        assert(digits_text(d) =~= digit_text(n as int));
    } else {
        lemma_decimal_text(n / 10);
        let d = decimal(n);
        assert(d.drop_last() =~= decimal(n / 10));
    }
}

/// The text of a decimal digit.
fn digit_str(d: u8) -> (s: &'static str)
    requires
        d < 10,
    ensures
        s@ == digit_text(d as int),
{
    if d == 0 {
        "0"
    } else if d == 1 {
        "1"
    } else if d == 2 {
        "2"
    } else if d == 3 {
        "3"
    } else if d == 4 {
        "4"
    } else if d == 5 {
        "5"
    } else if d == 6 {
        "6"
    } else if d == 7 {
        "7"
    } else if d == 8 {
        "8"
    } else {
        "9"
    }
}

/// Every byte is an ASCII digit.
proof fn lemma_decimal_digits(n: nat)
    ensures
        forall|i: int| 0 <= i < decimal(n).len() ==> 48 <= #[trigger] decimal(n)[i] < 58,
    decreases n,
{
    if n >= 10 {
        lemma_decimal_digits(n / 10);
        let head = decimal(n / 10);
        let all = decimal(n);
        assert forall|i: int| 0 <= i < all.len() implies 48 <= #[trigger] all[i] < 58 by {
            if i < head.len() {
                assert(all[i] == head[i]);
            }
        }
    }
}

/// Appends the decimal notation of `n` to `text`.
pub fn append_decimal(text: &mut String, n: usize)
    ensures
        final(text)@ == old(text)@ + decimal_text(n as nat),
{
    let digits = decimal_bytes(n);
    proof {
        lemma_decimal_text(n as nat);
        lemma_decimal_digits(n as nat);
    }
    let mut i: usize = 0;
    assert(digits@.take(0) =~= Seq::empty());
    assert(text@ =~= old(text)@ + digits_text(digits@.take(0)));
    while i < digits.len()
        invariant
            i <= digits@.len(),
            forall|k: int| 0 <= k < digits@.len() ==> 48 <= #[trigger] digits@[k] < 58,
            text@ == old(text)@ + digits_text(digits@.take(i as int)),
        decreases digits@.len() - i,
    {
        let d = digits[i] - 48;
        text.append(digit_str(d));
        proof {
            assert(digits@.take(i + 1).drop_last() =~= digits@.take(i as int));
            assert(digits@.take(i + 1).last() == digits@[i as int]);
            assert(text@ =~= old(text)@ + digits_text(digits@.take(i + 1)));
        }
        i += 1;
    }
    assert(digits@.take(digits@.len() as int) =~= digits@);
}

/// The values found in `value` that are neither objects nor arrays, each
/// with the path to it: the path of `value` itself is `path`, the path of
/// an attribute is that of its object, a dot and its name, and the path of
/// an item is that of its array, a dot and its place.
pub open spec fn leaves(path: Seq<char>, value: ValueModel) -> Seq<(Seq<char>, ValueModel)>
    decreases value,
{
    match value {
        ValueModel::Object(obj) => attribute_leaves(path, obj.attributes),
        ValueModel::Array(items) => item_leaves(path, items),
        _ => seq![(path, value)],
    }
}

/// The leaves of the values of the attributes of an object at `path`.
pub open spec fn attribute_leaves(path: Seq<char>, attributes: Seq<(Seq<char>, ValueModel)>) -> Seq<
    (Seq<char>, ValueModel),
>
    decreases attributes,
{
    if attributes.len() == 0 {
        Seq::empty()
    } else {
        attribute_leaves(path, attributes.drop_last()) + leaves(
            path + "."@ + attributes.last().0,
            attributes.last().1,
        )
    }
}

/// The leaves of the items of an array at `path`.
pub open spec fn item_leaves(path: Seq<char>, items: Seq<ValueModel>) -> Seq<
    (Seq<char>, ValueModel),
>
    decreases items,
{
    if items.len() == 0 {
        Seq::empty()
    } else {
        item_leaves(path, items.drop_last()) + leaves(
            path + "."@ + decimal_text((items.len() - 1) as nat),
            items.last(),
        )
    }
}

/// The leaves of the values of the attributes of the root, whose paths
/// start with the names of the attributes.
pub open spec fn root_leaves(attributes: Seq<(Seq<char>, ValueModel)>) -> Seq<
    (Seq<char>, ValueModel),
>
    decreases attributes,
{
    if attributes.len() == 0 {
        Seq::empty()
    } else {
        root_leaves(attributes.drop_last()) + leaves(attributes.last().0, attributes.last().1)
    }
}

/// The attributes that a list of leaves makes: each leaf is set in turn,
/// so of two leaves with the same path the first gives the place and the
/// last gives the value.
pub open spec fn set_all(leaves: Seq<(Seq<char>, ValueModel)>) -> Seq<(Seq<char>, ValueModel)>
    decreases leaves.len(),
{
    if leaves.len() == 0 {
        Seq::empty()
    } else {
        with_entry(set_all(leaves.drop_last()), leaves.last().0, leaves.last().1)
    }
}

/// What dot notation makes of the root of an entity: an object gets the
/// leaves found in its attributes as its attributes, and any other root
/// stays as it is.
pub open spec fn dotted(root: ValueModel) -> ValueModel {
    match root {
        ValueModel::Object(obj) => ValueModel::Object(
            ObjectModel { attributes: set_all(root_leaves(obj.attributes)), ..obj },
        ),
        _ => root,
    }
}

/// The transform that turns nested values into attributes with dot-split
/// names.
pub struct DotNotationTransform {}

impl Default for DotNotationTransform {
    fn default() -> Self {
        DotNotationTransform {  }
    }
}

impl DotNotationTransform {
    /// Appends to `out` the leaves found in `value`, which stands at
    /// `path`.
    pub fn collect_leaves(&self, path: String, value: Value, out: &mut Vec<(String, Value)>)
        ensures
            attributes_model(final(out)@) == attributes_model(old(out)@) + leaves(path@, value@),
        decreases value, 1nat,
    {
        match value {
            Value::Object(obj) => {
                proof {
                    lemma_object_model(obj);
                }
                self.collect_attribute_leaves(path, obj.attributes, out);
            },
            Value::Array(items) => {
                proof {
                    lemma_array_model(items);
                }
                self.collect_item_leaves(path, items, out);
            },
            other => {
                let ghost before = attributes_model(out@);
                out.push((path, other));
                assert(attributes_model(out@) =~= before + seq![(path@, other@)]);
            },
        }
    }

    /// Appends to `out` the leaves of the values of the attributes of an
    /// object at `path`.
    #[verifier::loop_isolation(false)]
    fn collect_attribute_leaves(
        &self,
        path: String,
        attributes: Vec<(String, Value)>,
        out: &mut Vec<(String, Value)>,
    )
        ensures
            attributes_model(final(out)@) == attributes_model(old(out)@) + attribute_leaves(
                path@,
                attributes_model(attributes@),
            ),
        decreases attributes, 0nat,
    {
        let ghost before = attributes_model(out@);
        let ghost inputs = attributes@;
        let ghost models = attributes_model(inputs);
        let n = attributes.len();
        let mut rest = reversed(attributes);
        let mut i: usize = 0;
        assert(models.take(0) =~= Seq::empty());
        assert(attributes_model(out@) =~= before + attribute_leaves(path@, models.take(0)));
        while i < n
            invariant
                i <= n,
                rest@.len() == n - i,
                forall|j: int| 0 <= j < n - i ==> rest@[j] == inputs[n - 1 - j],
                attributes_model(out@) == before + attribute_leaves(path@, models.take(i as int)),
            decreases n - i,
        {
            let (key, child) = rest.pop().unwrap();
            assert(child == inputs[i as int].1);
            assert(key == inputs[i as int].0);
            proof {
                assert(models.take(i + 1).drop_last() =~= models.take(i as int));
                assert(models.take(i + 1).last() == (key@, child@));
            }
            let mut child_path = path.clone();
            child_path.append(".");
            child_path.append(key.as_str());
            self.collect_leaves(child_path, child, out);
            assert(attributes_model(out@) =~= before + attribute_leaves(
                path@,
                models.take(i + 1),
            ));
            i += 1;
        }
        assert(models.take(n as int) =~= models);
    }

    /// Appends to `out` the leaves of the items of an array at `path`.
    #[verifier::loop_isolation(false)]
    fn collect_item_leaves(&self, path: String, items: Vec<Value>, out: &mut Vec<(String, Value)>)
        ensures
            attributes_model(final(out)@) == attributes_model(old(out)@) + item_leaves(
                path@,
                values_model(items@),
            ),
        decreases items, 0nat,
    {
        let ghost before = attributes_model(out@);
        let ghost inputs = items@;
        let ghost models = values_model(inputs);
        let n = items.len();
        let mut rest = reversed(items);
        let mut i: usize = 0;
        assert(models.take(0) =~= Seq::empty());
        assert(attributes_model(out@) =~= before + item_leaves(path@, models.take(0)));
        while i < n
            invariant
                i <= n,
                rest@.len() == n - i,
                forall|j: int| 0 <= j < n - i ==> rest@[j] == inputs[n - 1 - j],
                attributes_model(out@) == before + item_leaves(path@, models.take(i as int)),
            decreases n - i,
        {
            let child = rest.pop().unwrap();
            assert(child == inputs[i as int]);
            proof {
                assert(models.take(i + 1).drop_last() =~= models.take(i as int));
                assert(models.take(i + 1).last() == child@);
            }
            let mut child_path = path.clone();
            child_path.append(".");
            append_decimal(&mut child_path, i);
            self.collect_leaves(child_path, child, out);
            assert(attributes_model(out@) =~= before + item_leaves(path@, models.take(i + 1)));
            i += 1;
        }
        assert(models.take(n as int) =~= models);
    }

    /// What dot notation makes of the root of an entity.
    pub fn edit_root(&self, root: Value) -> (r: Value)
        ensures
            r@ == dotted(root@),
    {
        match root {
            Value::Object(obj) => {
                proof {
                    lemma_object_model(obj);
                }
                let Object { typename, attributes, stereotype } = obj;
                let ghost models = attributes_model(attributes@);
                let ghost inputs = attributes@;
                let n = attributes.len();
                let mut rest = reversed(attributes);
                let mut found: Vec<(String, Value)> = Vec::new();
                let mut i: usize = 0;
                assert(models.take(0) =~= Seq::empty());
                assert(attributes_model(found@) =~= root_leaves(models.take(0)));
                while i < n
                    invariant
                        i <= n,
                        n == inputs.len(),
                        models == attributes_model(inputs),
                        rest@.len() == n - i,
                        forall|j: int| 0 <= j < n - i ==> rest@[j] == inputs[n - 1 - j],
                        attributes_model(found@) == root_leaves(models.take(i as int)),
                    decreases n - i,
                {
                    let (key, child) = rest.pop().unwrap();
                    proof {
                        assert(child == inputs[i as int].1);
                        assert(key == inputs[i as int].0);
                        assert(models.take(i + 1).drop_last() =~= models.take(i as int));
                        assert(models.take(i + 1).last() == (key@, child@));
                    }
                    self.collect_leaves(key, child, &mut found);
                    i += 1;
                }
                assert(models.take(n as int) =~= models);

                let ghost all = attributes_model(found@);
                let ghost found_items = found@;
                let m = found.len();
                let mut rest = reversed(found);
                let mut flat: Vec<(String, Value)> = Vec::new();
                let mut k: usize = 0;
                assert(all.take(0) =~= Seq::empty());
                assert(viewed(named(flat@)) =~= set_all(all.take(0)));
                while k < m
                    invariant
                        k <= m,
                        m == found_items.len(),
                        all == attributes_model(found_items),
                        rest@.len() == m - k,
                        forall|j: int| 0 <= j < m - k ==> rest@[j] == found_items[m - 1 - j],
                        viewed(named(flat@)) == set_all(all.take(k as int)),
                    decreases m - k,
                {
                    let ghost done = named(flat@);
                    let (key, value) = rest.pop().unwrap();
                    proof {
                        assert(value == found_items[k as int].1);
                        assert(key == found_items[k as int].0);
                        assert(all.take(k + 1).drop_last() =~= all.take(k as int));
                        assert(all.take(k + 1).last() == (key@, value@));
                        lemma_viewed_with_entry(done, key@, value);
                    }
                    insert_entry(&mut flat, key, value);
                    k += 1;
                }
                assert(all.take(m as int) =~= all);
                assert(attributes_model(flat@) =~= viewed(named(flat@)));
                let obj = Object { typename, attributes: flat, stereotype };
                proof {
                    lemma_object_model(obj);
                }
                Value::Object(obj)
            },
            other => other,
        }
    }

    /// Passes `entity` on to `out` with the nested values of its root
    /// turned into attributes of the root. The geometry references of
    /// the root, the stores and the base URL stay as they are.
    pub fn transform(&mut self, entity: Entity, out: &mut Vec<Entity>)
        ensures
            final(out)@.len() == old(out)@.len() + 1,
            final(out)@.drop_last() == old(out)@,
            final(out)@.last()@ == (EntityModel { root: dotted(entity.root@), ..entity@ }),
            entity@.wf() ==> final(out)@.last()@.wf(),
    {
        let ghost store = entity@.geometry_store;
        proof {
            if entity@.wf() {
                lemma_dotted(entity.root@, |r: GeometryRef| store.spec_holds(r));
            }
        }
        let Entity { root, base_url, geometry_store, appearance_store } = entity;
        let root = self.edit_root(root);
        out.push(Entity { root, base_url, geometry_store, appearance_store });
        assert(out@.drop_last() =~= old(out)@);
    }
}

/// Whether a value is neither an object nor an array.
pub open spec fn is_plain(value: ValueModel) -> bool {
    !(value is Object) && !(value is Array)
}

/// Every leaf is a plain value.
pub proof fn lemma_leaves_are_plain(path: Seq<char>, value: ValueModel)
    ensures
        forall|k: int|
            0 <= k < leaves(path, value).len() ==> is_plain((#[trigger] leaves(path, value)[k]).1),
    decreases value,
{
    let all = leaves(path, value);
    match value {
        ValueModel::Object(obj) => {
            lemma_attribute_leaves_are_plain(path, obj.attributes);
            assert(all == attribute_leaves(path, obj.attributes));
            assert forall|k: int| 0 <= k < all.len() implies is_plain((#[trigger] all[k]).1) by {
                assert(is_plain(attribute_leaves(path, obj.attributes)[k].1));
            }
        },
        ValueModel::Array(items) => {
            lemma_item_leaves_are_plain(path, items);
            assert(all == item_leaves(path, items));
            assert forall|k: int| 0 <= k < all.len() implies is_plain((#[trigger] all[k]).1) by {
                assert(is_plain(item_leaves(path, items)[k].1));
            }
        },
        _ => {
            assert(all =~= seq![(path, value)]);
            assert forall|k: int| 0 <= k < all.len() implies is_plain((#[trigger] all[k]).1) by {
                assert(all[k] == (path, value));
            }
        },
    }
}

/// The same for the attributes of an object.
pub proof fn lemma_attribute_leaves_are_plain(
    path: Seq<char>,
    attributes: Seq<(Seq<char>, ValueModel)>,
)
    ensures
        forall|k: int|
            0 <= k < attribute_leaves(path, attributes).len() ==> is_plain(
                (#[trigger] attribute_leaves(path, attributes)[k]).1,
            ),
    decreases attributes,
{
    if attributes.len() > 0 {
        let head = attribute_leaves(path, attributes.drop_last());
        let last = leaves(path + "."@ + attributes.last().0, attributes.last().1);
        lemma_attribute_leaves_are_plain(path, attributes.drop_last());
        lemma_leaves_are_plain(path + "."@ + attributes.last().0, attributes.last().1);
        let all = attribute_leaves(path, attributes);
        assert forall|k: int| 0 <= k < all.len() implies is_plain((#[trigger] all[k]).1) by {
            if k < head.len() {
                assert(all[k] == head[k]);
            } else {
                assert(all[k] == last[k - head.len()]);
            }
        }
    }
}

/// The same for the items of an array.
pub proof fn lemma_item_leaves_are_plain(path: Seq<char>, items: Seq<ValueModel>)
    ensures
        forall|k: int|
            0 <= k < item_leaves(path, items).len() ==> is_plain(
                (#[trigger] item_leaves(path, items)[k]).1,
            ),
    decreases items,
{
    if items.len() > 0 {
        let here = path + "."@ + decimal_text((items.len() - 1) as nat);
        let head = item_leaves(path, items.drop_last());
        let last = leaves(here, items.last());
        lemma_item_leaves_are_plain(path, items.drop_last());
        lemma_leaves_are_plain(here, items.last());
        let all = item_leaves(path, items);
        assert forall|k: int| 0 <= k < all.len() implies is_plain((#[trigger] all[k]).1) by {
            if k < head.len() {
                assert(all[k] == head[k]);
            } else {
                assert(all[k] == last[k - head.len()]);
            }
        }
    }
}

/// The same for the attributes of the root.
pub proof fn lemma_root_leaves_are_plain(attributes: Seq<(Seq<char>, ValueModel)>)
    ensures
        forall|k: int|
            0 <= k < root_leaves(attributes).len() ==> is_plain(
                (#[trigger] root_leaves(attributes)[k]).1,
            ),
    decreases attributes,
{
    if attributes.len() > 0 {
        let head = root_leaves(attributes.drop_last());
        let last = leaves(attributes.last().0, attributes.last().1);
        lemma_root_leaves_are_plain(attributes.drop_last());
        lemma_leaves_are_plain(attributes.last().0, attributes.last().1);
        let all = root_leaves(attributes);
        assert forall|k: int| 0 <= k < all.len() implies is_plain((#[trigger] all[k]).1) by {
            if k < head.len() {
                assert(all[k] == head[k]);
            } else {
                assert(all[k] == last[k - head.len()]);
            }
        }
    }
}

/// The attributes that leaves make have distinct names and plain values.
pub proof fn lemma_set_all(found: Seq<(Seq<char>, ValueModel)>)
    requires
        forall|k: int| 0 <= k < found.len() ==> is_plain((#[trigger] found[k]).1),
    ensures
        distinct_keys(set_all(found)),
        forall|k: int| 0 <= k < set_all(found).len() ==> is_plain((#[trigger] set_all(found)[k]).1),
    decreases found.len(),
{
    if found.len() > 0 {
        let head = set_all(found.drop_last());
        assert forall|k: int| 0 <= k < found.drop_last().len() implies is_plain(
            (#[trigger] found.drop_last()[k]).1,
        ) by {
            assert(found.drop_last()[k] == found[k]);
        }
        lemma_set_all(found.drop_last());
        lemma_with_entry_distinct(head, found.last().0, found.last().1);
        let all = set_all(found);
        if has_key(head, found.last().0) {
            lemma_has_key(head, found.last().0);
        }
        assert(is_plain(found[found.len() - 1].1));
        assert forall|k: int| 0 <= k < all.len() implies is_plain((#[trigger] all[k]).1) by {
            if k < head.len() && all[k] == head[k] {
                assert(is_plain(head[k].1));
            }
        }
    }
}

/// Dot notation leaves an object without nested values: the attributes of
/// the root have distinct names and plain values. So every geometry
/// reference found in what it makes of a root is a reference of the root
/// itself.
pub proof fn lemma_dotted(root: ValueModel, p: spec_fn(GeometryRef) -> bool)
    requires
        every_ref(root, p),
    ensures
        names_distinct(dotted(root)) || !(root is Object),
        every_ref(dotted(root), p),
{
    match root {
        ValueModel::Object(obj) => {
            lemma_root_leaves_are_plain(obj.attributes);
            lemma_set_all(root_leaves(obj.attributes));
            let flat = set_all(root_leaves(obj.attributes));
            assert forall|i: int| 0 <= i < flat.len() implies names_distinct(
                (#[trigger] flat[i]).1,
            ) && every_ref(flat[i].1, p) by {
                assert(is_plain(flat[i].1));
            }
            let after = ObjectModel { attributes: flat, ..obj };
            assert(after.stereotype == obj.stereotype);
            assert(every_ref(ValueModel::Object(obj), p));
            assert(every_ref(ValueModel::Object(after), p));
        },
        _ => {},
    }
}

} // verus!
