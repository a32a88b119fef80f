//! Renaming of attributes: a table of rules from old names to new names is
//! applied to the attribute names of an entity, at every depth, and to the
//! attribute names that the schema declares.
//!
//! Rules are set one after another, and a rule set later for the same old
//! name replaces the earlier one. So rules given by the user, which are set
//! after a preset table, win over the preset.

use vstd::prelude::*;
use vstd::string::StringSliceAdditionalSpecFns;
use vstd::utf8::encode_utf8;
use crate::entries::{
    find_entry, has_key, insert_entry, key_index, lemma_has_key, lemma_key_index,
    lemma_viewed_with_entry, named, viewed, with_entry,
};
use crate::geometry::GeometryRef;
use crate::object::{
    attributes_model, every_ref, lemma_array_model, lemma_object_model,
    lemma_with_entry_names, names_distinct, values_model, Entity,
    EntityModel, Object, ObjectModel, Value, ValueModel,
};
use crate::schema::{
    attribute_map_entries, attribute_map_get_index, attribute_map_insert, attribute_map_len,
    attribute_map_new, type_map_entries, type_map_len, type_map_value_mut, Attribute,
    AttributeMap, AttributeModel, Schema, TypeDef, TypeRef,
};
use crate::text::reversed;

verus! {

/// A table of rules, each from an old name to a new name.
pub type Rules = Seq<(Seq<char>, Seq<char>)>;

/// Rules that the user gives in a rules file.
#[derive(Debug)]
pub struct MappingRules {
    pub rename: Vec<(String, String)>,
}

/// The longest name, in bytes, that a column of a Shapefile may have.
pub const SHAPEFILE_NAME_LIMIT: usize = 10;

/// Whether every new name of a table of rules is short enough for a
/// Shapefile.
pub open spec fn fits_shapefile(rules: Rules) -> bool {
    forall|i: int|
        0 <= i < rules.len() ==> encode_utf8((#[trigger] rules[i]).1).len() <= SHAPEFILE_NAME_LIMIT
}

/// Whether every new name of a preset table is short enough for a
/// Shapefile: at most ten bytes long.
pub fn shortens_for_shapefile(preset: &Vec<(String, String)>) -> (b: bool)
    ensures
        b == fits_shapefile(viewed(named(preset@))),
{
    let ghost rules = viewed(named(preset@));
    let mut i: usize = 0;
    while i < preset.len()
        invariant
            i <= preset@.len(),
            rules == viewed(named(preset@)),
            forall|k: int|
                0 <= k < i ==> encode_utf8((#[trigger] rules[k]).1).len() <= SHAPEFILE_NAME_LIMIT,
        decreases preset@.len() - i,
    {
        let name = preset[i].1.as_str();
        let bytes = name.as_bytes();
        assert(rules[i as int].1 == name@);
        assert(bytes@ == encode_utf8(name@));
        if bytes.len() > SHAPEFILE_NAME_LIMIT {
            return false;
        }
        i += 1;
    }
    true
}

/// The name that `name` gets under `rules`: the new name of the first rule
/// for it, or `name` itself where there is no rule.
pub open spec fn new_name(rules: Rules, name: Seq<char>) -> Seq<char> {
    if has_key(rules, name) {
        rules[key_index(rules, name)].1
    } else {
        name
    }
}

/// `rules` after each rule of `more` was set, in order.
pub open spec fn extended(rules: Rules, more: Rules) -> Rules
    decreases more.len(),
{
    if more.len() == 0 {
        rules
    } else {
        with_entry(extended(rules, more.drop_last()), more.last().0, more.last().1)
    }
}

/// After a rule was set, its old name gets its new name, and every other
/// name gets what it got before.
pub proof fn lemma_new_name_with_entry(
    rules: Rules,
    old_name: Seq<char>,
    renamed: Seq<char>,
    name: Seq<char>,
)
    ensures
        new_name(with_entry(rules, old_name, renamed), name) == if name == old_name {
            renamed
        } else {
            new_name(rules, name)
        },
{
    let after = with_entry(rules, old_name, renamed);
    if has_key(rules, old_name) {
        lemma_has_key(rules, old_name);
        let k = key_index(rules, old_name);
        if name == old_name {
            assert forall|j: int| 0 <= j < k implies (#[trigger] after[j]).0 != name by {
                assert(after[j] == rules[j]);
            }
            lemma_key_index(after, name, k);
        } else if has_key(rules, name) {
            lemma_has_key(rules, name);
            let m = key_index(rules, name);
            assert(after[m] == rules[m]);
            assert forall|j: int| 0 <= j < m implies (#[trigger] after[j]).0 != name by {
                if j != k {
                    assert(after[j] == rules[j]);
                }
            }
            lemma_key_index(after, name, m);
        } else {
            if has_key(after, name) {
                let m = choose|m: int| 0 <= m < after.len() && (#[trigger] after[m]).0 == name;
                assert(rules[m].0 == name);
            }
        }
    } else {
        let n = rules.len() as int;
        if name == old_name {
            assert forall|j: int| 0 <= j < n implies (#[trigger] after[j]).0 != name by {
                assert(after[j] == rules[j]);
            }
            lemma_key_index(after, name, n);
        } else if has_key(rules, name) {
            lemma_has_key(rules, name);
            let m = key_index(rules, name);
            assert(after[m] == rules[m]);
            assert forall|j: int| 0 <= j < m implies (#[trigger] after[j]).0 != name by {
                assert(after[j] == rules[j]);
            }
            lemma_key_index(after, name, m);
        } else {
            if has_key(after, name) {
                let m = choose|m: int| 0 <= m < after.len() && (#[trigger] after[m]).0 == name;
                if m < n {
                    assert(rules[m].0 == name);
                }
            }
        }
    }
}

/// Rules set later win: after the rules of `more`, none of which shares
/// its old name with another, were set on top of `rules`, every old name of
/// `more` gets the new name that `more` gives it, whatever `rules` said,
/// and every other name gets what it got under `rules`.
pub proof fn lemma_later_rules_win(rules: Rules, more: Rules, name: Seq<char>)
    requires
        crate::entries::distinct_keys(more),
    ensures
        has_key(more, name) ==> new_name(extended(rules, more), name) == more[key_index(
            more,
            name,
        )].1,
        !has_key(more, name) ==> new_name(extended(rules, more), name) == new_name(rules, name),
    decreases more.len(),
{
    if more.len() > 0 {
        let head = more.drop_last();
        let last = more.last();
        assert forall|i: int, j: int| 0 <= i < j < head.len() implies (#[trigger] head[i]).0 != (
        #[trigger] head[j]).0 by {
            assert(head[i] == more[i]);
            assert(head[j] == more[j]);
        }
        lemma_later_rules_win(rules, head, name);
        lemma_new_name_with_entry(extended(rules, head), last.0, last.1, name);
        if name == last.0 {
            assert(more[more.len() - 1].0 == name);
            assert forall|j: int| 0 <= j < more.len() - 1 implies (#[trigger] more[j]).0
                != name by {}
            lemma_key_index(more, name, more.len() - 1);
        } else if has_key(head, name) {
            lemma_has_key(head, name);
            let k = key_index(head, name);
            assert(more[k] == head[k]);
            assert forall|j: int| 0 <= j < k implies (#[trigger] more[j]).0 != name by {
                assert(more[j] == head[j]);
            }
            lemma_key_index(more, name, k);
        } else {
            if has_key(more, name) {
                let m = choose|m: int| 0 <= m < more.len() && (#[trigger] more[m]).0 == name;
                assert(head[m].0 == name);
            }
        }
    } else {
        if has_key(more, name) {
            let m = choose|m: int| 0 <= m < more.len() && (#[trigger] more[m]).0 == name;
        }
    }
}

/// `value` with the names of its attributes, at every depth, replaced by
/// what they get under `rules`. Where two attributes of one object get the
/// same name, the first keeps its place and the last gives the value.
pub open spec fn renamed_value(rules: Rules, value: ValueModel) -> ValueModel
    decreases value,
{
    match value {
        ValueModel::Object(obj) => ValueModel::Object(
            ObjectModel { attributes: renamed_attributes(rules, obj.attributes), ..obj },
        ),
        ValueModel::Array(items) => ValueModel::Array(renamed_items(rules, items)),
        _ => value,
    }
}

/// The attributes renamed, and their values with them.
pub open spec fn renamed_attributes(rules: Rules, attributes: Seq<(Seq<char>, ValueModel)>) -> Seq<
    (Seq<char>, ValueModel),
>
    decreases attributes,
{
    if attributes.len() == 0 {
        Seq::empty()
    } else {
        with_entry(
            renamed_attributes(rules, attributes.drop_last()),
            new_name(rules, attributes.last().0),
            renamed_value(rules, attributes.last().1),
        )
    }
}

/// The items of an array, each renamed.
pub open spec fn renamed_items(rules: Rules, items: Seq<ValueModel>) -> Seq<ValueModel>
    decreases items,
{
    if items.len() == 0 {
        Seq::empty()
    } else {
        renamed_items(rules, items.drop_last()).push(renamed_value(rules, items.last()))
    }
}

/// The declared attributes renamed.
pub open spec fn renamed_declarations(
    rules: Rules,
    attributes: Seq<(Seq<char>, AttributeModel)>,
) -> Seq<(Seq<char>, AttributeModel)>
    decreases attributes.len(),
{
    if attributes.len() == 0 {
        Seq::empty()
    } else {
        with_entry(
            renamed_declarations(rules, attributes.drop_last()),
            new_name(rules, attributes.last().0),
            attributes.last().1,
        )
    }
}

/// A copy of a type reference.
pub fn copy_type_ref(t: &TypeRef) -> (r: TypeRef)
    ensures
        r@ == t@,
{
    match t {
        TypeRef::Unknown => TypeRef::Unknown,
        TypeRef::String => TypeRef::String,
        TypeRef::Code => TypeRef::Code,
        TypeRef::Integer => TypeRef::Integer,
        TypeRef::NonNegativeInteger => TypeRef::NonNegativeInteger,
        TypeRef::Double => TypeRef::Double,
        TypeRef::Boolean => TypeRef::Boolean,
        TypeRef::JsonString => TypeRef::JsonString,
        TypeRef::URI => TypeRef::URI,
        TypeRef::Date => TypeRef::Date,
        TypeRef::DateTime => TypeRef::DateTime,
        TypeRef::Measure => TypeRef::Measure,
        TypeRef::Point => TypeRef::Point,
        TypeRef::Named(name) => TypeRef::Named(name.clone()),
    }
}

/// A copy of an attribute declaration.
pub fn copy_attribute(a: &Attribute) -> (r: Attribute)
    ensures
        r@ == a@,
{
    Attribute {
        type_ref: copy_type_ref(&a.type_ref),
        min_occurs: a.min_occurs,
        max_occurs: a.max_occurs,
    }
}

/// The transform that renames attributes.
pub struct EditFieldNamesTransform {
    rename_map: Vec<(String, String)>,
}

impl Default for EditFieldNamesTransform {
    /// A transform without rules, which renames nothing.
    fn default() -> (r: Self)
        ensures
            r.rules() == Seq::<(Seq<char>, Seq<char>)>::empty(),
    {
        let r = EditFieldNamesTransform { rename_map: Vec::new() };
        assert(r.rules() =~= Seq::empty());
        r
    }
}

impl EditFieldNamesTransform {
    /// The rules of the transform.
    pub closed spec fn rules(&self) -> Rules {
        viewed(named(self.rename_map@))
    }

    /// Sets the rules of `more`, in order, on top of those that the
    /// transform has.
    pub fn extend_rename_map(&mut self, more: Vec<(String, String)>)
        ensures
            final(self).rules() == extended(old(self).rules(), viewed(named(more@))),
    {
        let ghost given = viewed(named(more@));
        let ghost inputs = more@;
        let n = more.len();
        let mut rest = reversed(more);
        let mut i: usize = 0;
        assert(given.take(0) =~= Seq::empty());
        while i < n
            invariant
                i <= n,
                n == inputs.len(),
                given == viewed(named(inputs)),
                rest@.len() == n - i,
                forall|j: int| 0 <= j < n - i ==> rest@[j] == inputs[n - 1 - j],
                self.rules() == extended(old(self).rules(), given.take(i as int)),
            decreases n - i,
        {
            let ghost before = named(self.rename_map@);
            let (old_name, renamed) = rest.pop().unwrap();
            proof {
                assert(given.take(i + 1).drop_last() =~= given.take(i as int));
                assert(given.take(i + 1).last() == (old_name@, renamed@));
                lemma_viewed_with_entry(before, old_name@, renamed);
            }
            insert_entry(&mut self.rename_map, old_name, renamed);
            i += 1;
        }
        assert(given.take(n as int) =~= given);
    }

    /// Sets the rules of a preset table, for output that bounds the length
    /// of names, on top of those that the transform has.
    pub fn load_default_map_for_shape(&mut self, preset: Vec<(String, String)>)
        ensures
            final(self).rules() == extended(old(self).rules(), viewed(named(preset@))),
    {
        self.extend_rename_map(preset);
    }

    /// The name that `name` gets.
    pub fn rename(&self, name: String) -> (r: String)
        ensures
            r@ == new_name(self.rules(), name@),
    {
        proof {
            lemma_viewed_with_entry(named(self.rename_map@), name@, name);
        }
        match find_entry(&self.rename_map, &name) {
            Some(i) => self.rename_map[i].1.clone(),
            None => name,
        }
    }

    /// `value` with the names of its attributes replaced, at every depth.
    pub fn edit_tree(&self, value: Value) -> (r: Value)
        ensures
            r@ == renamed_value(self.rules(), value@),
        decreases value, 1nat,
    {
        match value {
            Value::Object(obj) => {
                proof {
                    lemma_object_model(obj);
                }
                let Object { typename, attributes, stereotype } = obj;
                let attributes = self.edit_attributes(attributes);
                let obj = Object { typename, attributes, stereotype };
                proof {
                    lemma_object_model(obj);
                }
                Value::Object(obj)
            },
            Value::Array(items) => {
                proof {
                    lemma_array_model(items);
                }
                let items = self.edit_items(items);
                proof {
                    lemma_array_model(items);
                }
                Value::Array(items)
            },
            other => other,
        }
    }

    /// The attributes renamed, and their values with them.
    #[verifier::loop_isolation(false)]
    fn edit_attributes(&self, attributes: Vec<(String, Value)>) -> (r: Vec<(String, Value)>)
        ensures
            attributes_model(r@) == renamed_attributes(self.rules(), attributes_model(attributes@)),
        decreases attributes, 0nat,
    {
        let ghost inputs = attributes@;
        let ghost models = attributes_model(inputs);
        let n = attributes.len();
        let mut rest = reversed(attributes);
        let mut edited: Vec<(String, Value)> = Vec::new();
        let mut i: usize = 0;
        assert(models.take(0) =~= Seq::empty());
        assert(viewed(named(edited@)) =~= Seq::empty());
        while i < n
            invariant
                i <= n,
                rest@.len() == n - i,
                forall|j: int| 0 <= j < n - i ==> rest@[j] == inputs[n - 1 - j],
                viewed(named(edited@)) == renamed_attributes(self.rules(), models.take(i as int)),
            decreases n - i,
        {
            let ghost done = named(edited@);
            let (key, child) = rest.pop().unwrap();
            assert(child == inputs[i as int].1);
            assert(key == inputs[i as int].0);
            proof {
                assert(models.take(i + 1).drop_last() =~= models.take(i as int));
                assert(models.take(i + 1).last() == (key@, child@));
            }
            let child = self.edit_tree(child);
            let key = self.rename(key);
            proof {
                lemma_viewed_with_entry(done, key@, child);
            }
            insert_entry(&mut edited, key, child);
            i += 1;
        }
        assert(models.take(n as int) =~= models);
        assert(attributes_model(edited@) =~= viewed(named(edited@)));
        edited
    }

    /// The items of an array, each renamed.
    #[verifier::loop_isolation(false)]
    fn edit_items(&self, items: Vec<Value>) -> (r: Vec<Value>)
        ensures
            values_model(r@) == renamed_items(self.rules(), values_model(items@)),
        decreases items, 0nat,
    {
        let ghost inputs = items@;
        let ghost models = values_model(inputs);
        let n = items.len();
        let mut rest = reversed(items);
        let mut edited: Vec<Value> = Vec::new();
        let mut i: usize = 0;
        assert(models.take(0) =~= Seq::empty());
        assert(values_model(edited@) =~= Seq::empty());
        while i < n
            invariant
                i <= n,
                rest@.len() == n - i,
                forall|j: int| 0 <= j < n - i ==> rest@[j] == inputs[n - 1 - j],
                values_model(edited@) == renamed_items(self.rules(), models.take(i as int)),
            decreases n - i,
        {
            let ghost done = values_model(edited@);
            let child = rest.pop().unwrap();
            assert(child == inputs[i as int]);
            proof {
                assert(models.take(i + 1).drop_last() =~= models.take(i as int));
                assert(models.take(i + 1).last() == child@);
            }
            let child = self.edit_tree(child);
            edited.push(child);
            assert(values_model(edited@) =~= done.push(child@));
            i += 1;
        }
        assert(models.take(n as int) =~= models);
        edited
    }

    /// Passes `entity` on to `out` with its attributes renamed. The
    /// geometry references, the stores and the base URL stay as they are.
    pub fn transform(&mut self, entity: Entity, out: &mut Vec<Entity>)
        ensures
            *final(self) == *old(self),
            final(out)@.len() == old(out)@.len() + 1,
            final(out)@.drop_last() == old(out)@,
            final(out)@.last()@ == (EntityModel {
                root: renamed_value(old(self).rules(), entity.root@),
                ..entity@
            }),
            entity@.wf() ==> final(out)@.last()@.wf(),
    {
        let ghost store = entity@.geometry_store;
        let Entity { root, base_url, geometry_store, appearance_store } = entity;
        let root = self.edit_tree(root);
        proof {
            if entity@.wf() {
                lemma_renamed_keeps_refs(
                    self.rules(),
                    entity.root@,
                    |r: GeometryRef| store.spec_holds(r),
                );
            }
        }
        out.push(Entity { root, base_url, geometry_store, appearance_store });
        assert(out@.drop_last() =~= old(out)@);
    }

    /// The attribute table with its names replaced.
    pub fn rename_declarations(&self, attributes: &AttributeMap) -> (r: AttributeMap)
        ensures
            viewed(attribute_map_entries(r)) == renamed_declarations(
                self.rules(),
                viewed(attribute_map_entries(*attributes)),
            ),
    {
        let ghost given = viewed(attribute_map_entries(*attributes));
        let n = attribute_map_len(attributes);
        let mut renamed = attribute_map_new();
        let mut i: usize = 0;
        assert(given.take(0) =~= Seq::empty());
        assert(viewed(attribute_map_entries(renamed)) =~= Seq::empty());
        while i < n
            invariant
                i <= n,
                n == given.len(),
                given == viewed(attribute_map_entries(*attributes)),
                viewed(attribute_map_entries(renamed)) == renamed_declarations(
                    self.rules(),
                    given.take(i as int),
                ),
            decreases n - i,
        {
            let ghost done = attribute_map_entries(renamed);
            let (name, attribute) = attribute_map_get_index(attributes, i);
            let name = self.rename(name.clone());
            let attribute = copy_attribute(attribute);
            proof {
                assert(given.take(i + 1).drop_last() =~= given.take(i as int));
                assert(given.take(i + 1).last() == given[i as int]);
                lemma_viewed_with_entry(done, name@, attribute);
            }
            attribute_map_insert(&mut renamed, name, attribute);
            i += 1;
        }
        assert(given.take(n as int) =~= given);
        renamed
    }

    /// Renames the attributes that the feature, data and object types of
    /// the schema declare. The names and the order of the types, and the
    /// property types, stay as they are.
    pub fn transform_schema(&self, schema: &mut Schema)
        ensures
            final(schema).epsg == old(schema).epsg,
            type_map_entries(final(schema).types).len() == type_map_entries(
                old(schema).types,
            ).len(),
            forall|i: int|
                0 <= i < type_map_entries(old(schema).types).len() ==> renamed_type(
                    self.rules(),
                    #[trigger] type_map_entries(old(schema).types)[i],
                    type_map_entries(final(schema).types)[i],
                ),
    {
        let ghost before = type_map_entries(schema.types);
        let n = type_map_len(&schema.types);
        let mut i: usize = 0;
        while i < n
            invariant
                i <= n,
                n == before.len(),
                schema.epsg == old(schema).epsg,
                type_map_entries(schema.types).len() == n,
                forall|k: int|
                    0 <= k < i ==> renamed_type(
                        self.rules(),
                        #[trigger] before[k],
                        type_map_entries(schema.types)[k],
                    ),
                forall|k: int| i <= k < n ==> type_map_entries(schema.types)[k] == before[k],
            decreases n - i,
        {
            let ty = type_map_value_mut(&mut schema.types, i);
            match ty {
                TypeDef::Feature(def) => {
                    def.attributes = self.rename_declarations(&def.attributes);
                },
                TypeDef::Data(def) => {
                    def.attributes = self.rename_declarations(&def.attributes);
                },
                TypeDef::Object(def) => {
                    def.attributes = self.rename_declarations(&def.attributes);
                },
                TypeDef::Property(_) => {},
            }
            i += 1;
        }
    }
}

/// The attribute table of a type definition that has one.
pub open spec fn declared_attributes(def: TypeDef) -> Seq<(Seq<char>, AttributeModel)> {
    match def {
        TypeDef::Feature(d) => viewed(attribute_map_entries(d.attributes)),
        TypeDef::Data(d) => viewed(attribute_map_entries(d.attributes)),
        TypeDef::Object(d) => viewed(attribute_map_entries(d.attributes)),
        TypeDef::Property(_) => Seq::empty(),
    }
}

/// Whether attributes beyond those declared are allowed by a type
/// definition that has an attribute table.
pub open spec fn allows_additional(def: TypeDef) -> bool {
    match def {
        TypeDef::Feature(d) => d.additional_attributes,
        TypeDef::Data(d) => d.additional_attributes,
        TypeDef::Object(d) => d.additional_attributes,
        TypeDef::Property(_) => false,
    }
}

/// Whether the named type `after` is the named type `before` with its
/// declared attributes renamed: a property type is unchanged, and any other
/// type is of the same kind, with the same name and the attributes renamed.
pub open spec fn renamed_type(
    rules: Rules,
    before: (Seq<char>, TypeDef),
    after: (Seq<char>, TypeDef),
) -> bool {
    &&& after.0 == before.0
    &&& match before.1 {
        TypeDef::Property(_) => after.1 == before.1,
        TypeDef::Feature(_) => after.1 is Feature,
        TypeDef::Data(_) => after.1 is Data,
        TypeDef::Object(_) => after.1 is Object,
    }
    &&& !(before.1 is Property) ==> {
        &&& allows_additional(after.1) == allows_additional(before.1)
        &&& declared_attributes(after.1) == renamed_declarations(
            rules,
            declared_attributes(before.1),
        )
    }
}

/// Renaming leaves no object with two attributes of the same name,
/// whatever it was given and whatever the rules are.
pub proof fn lemma_renamed_names(rules: Rules, value: ValueModel)
    ensures
        names_distinct(renamed_value(rules, value)),
    decreases value,
{
    match value {
        ValueModel::Object(obj) => {
            lemma_renamed_attributes_names(rules, obj.attributes);
        },
        ValueModel::Array(items) => {
            lemma_renamed_items_names(rules, items);
        },
        _ => {},
    }
}

/// The same for a list of attributes.
pub proof fn lemma_renamed_attributes_names(rules: Rules, attributes: Seq<(Seq<char>, ValueModel)>)
    ensures
        crate::entries::distinct_keys(renamed_attributes(rules, attributes)),
        forall|i: int|
            0 <= i < renamed_attributes(rules, attributes).len() ==> names_distinct(
                (#[trigger] renamed_attributes(rules, attributes)[i]).1,
            ),
    decreases attributes,
{
    if attributes.len() > 0 {
        lemma_renamed_attributes_names(rules, attributes.drop_last());
        lemma_renamed_names(rules, attributes.last().1);
        lemma_with_entry_names(
            renamed_attributes(rules, attributes.drop_last()),
            new_name(rules, attributes.last().0),
            renamed_value(rules, attributes.last().1),
        );
    }
}

/// The same for the items of an array.
pub proof fn lemma_renamed_items_names(rules: Rules, items: Seq<ValueModel>)
    ensures
        renamed_items(rules, items).len() == items.len(),
        forall|i: int|
            0 <= i < items.len() ==> names_distinct(#[trigger] renamed_items(rules, items)[i]),
    decreases items,
{
    if items.len() > 0 {
        lemma_renamed_items_names(rules, items.drop_last());
        lemma_renamed_names(rules, items.last());
    }
}

/// Renaming moves values and makes no geometry reference: whatever holds
/// of every reference found in a value holds of every reference found in
/// the renamed value.
pub proof fn lemma_renamed_keeps_refs(
    rules: Rules,
    value: ValueModel,
    p: spec_fn(GeometryRef) -> bool,
)
    requires
        every_ref(value, p),
    ensures
        every_ref(renamed_value(rules, value), p),
    decreases value,
{
    match value {
        ValueModel::Object(obj) => {
            lemma_renamed_attributes_keep_refs(rules, obj.attributes, p);
            let after = ObjectModel { attributes: renamed_attributes(rules, obj.attributes), ..obj };
            assert(every_ref(ValueModel::Object(obj), p));
            assert(after.stereotype == obj.stereotype);
            assert(every_ref(ValueModel::Object(after), p));
        },
        ValueModel::Array(items) => {
            lemma_renamed_items_keep_refs(rules, items, p);
        },
        _ => {},
    }
}

/// The same for a list of attributes.
pub proof fn lemma_renamed_attributes_keep_refs(
    rules: Rules,
    attributes: Seq<(Seq<char>, ValueModel)>,
    p: spec_fn(GeometryRef) -> bool,
)
    requires
        forall|i: int| 0 <= i < attributes.len() ==> every_ref((#[trigger] attributes[i]).1, p),
    ensures
        forall|i: int|
            0 <= i < renamed_attributes(rules, attributes).len() ==> every_ref(
                (#[trigger] renamed_attributes(rules, attributes)[i]).1,
                p,
            ),
    decreases attributes,
{
    if attributes.len() > 0 {
        let head = renamed_attributes(rules, attributes.drop_last());
        assert forall|i: int| 0 <= i < attributes.drop_last().len() implies every_ref(
            (#[trigger] attributes.drop_last()[i]).1,
            p,
        ) by {
            assert(attributes.drop_last()[i] == attributes[i]);
        }
        lemma_renamed_attributes_keep_refs(rules, attributes.drop_last(), p);
        assert(every_ref(attributes[attributes.len() - 1].1, p));
        lemma_renamed_keeps_refs(rules, attributes.last().1, p);
        let key = new_name(rules, attributes.last().0);
        let value = renamed_value(rules, attributes.last().1);
        let after = with_entry(head, key, value);
        if has_key(head, key) {
            lemma_has_key(head, key);
        }
        assert forall|i: int| 0 <= i < after.len() implies every_ref((#[trigger] after[i]).1, p) by {
            if i < head.len() && after[i] == head[i] {
                assert(every_ref(head[i].1, p));
            }
        }
    }
}

/// The same for the items of an array.
pub proof fn lemma_renamed_items_keep_refs(
    rules: Rules,
    items: Seq<ValueModel>,
    p: spec_fn(GeometryRef) -> bool,
)
    requires
        forall|i: int| 0 <= i < items.len() ==> every_ref(#[trigger] items[i], p),
    ensures
        renamed_items(rules, items).len() == items.len(),
        forall|i: int|
            0 <= i < items.len() ==> every_ref(#[trigger] renamed_items(rules, items)[i], p),
    decreases items,
{
    if items.len() > 0 {
        assert forall|i: int| 0 <= i < items.drop_last().len() implies every_ref(
            #[trigger] items.drop_last()[i],
            p,
        ) by {
            assert(items.drop_last()[i] == items[i]);
        }
        lemma_renamed_items_keep_refs(rules, items.drop_last(), p);
        assert(every_ref(items[items.len() - 1], p));
        lemma_renamed_keeps_refs(rules, items.last(), p);
    }
}

} // verus!
