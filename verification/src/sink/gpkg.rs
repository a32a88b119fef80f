//! GeoPackage output: which record an entity becomes, what the writer does
//! with each record that arrives, and the text of the statements.

use vstd::prelude::*;
use vstd::string::StringExecFns;
use crate::entries::{find_entry, has_key, key_index, named};
use crate::geometry::{all_hold, is_polygonal, GeometryRef, GeometryStore, GeometryType};
use crate::object::{Entity, Object, ObjectStereotype, Value};
use crate::parameters::Parameters;
use crate::sink::info::{output_parameters, SinkInfo};
use crate::text::{
    is_prefix, str_starts_with, text_set_insert_full, text_set_items, text_set_new,
    text_set_to_vec, texts, TextSet,
};
use crate::transformer::builder::{Requirements, TreeFlatteningSpec};
use crate::transformer::flatten::{
    DataFlatteningOption, FeatureFlatteningOption, ObjectFlatteningOption,
};

verus! {

/// The provider of the GeoPackage sink.
pub struct GpkgSinkProvider {}

impl GpkgSinkProvider {
    /// The id and the name of the sink.
    pub fn info(&self) -> (info: SinkInfo)
        ensures
            info.id_name@ == "gpkg"@,
            info.name@ == "GeoPackage"@,
    {
        SinkInfo { id_name: "gpkg".to_owned(), name: "GeoPackage".to_owned() }
    }

    /// The options of the sink: the output path.
    pub fn parameters(&self) -> (params: Parameters)
        ensures
            params.entries@.len() == 1,
            params.entries@[0].0@ == "@output"@,
            params.entries@[0].1.description@ == "Output file path"@,
            params.entries@[0].1.required,
            params.entries@[0].1.parameter == crate::parameters::ParameterType::FileSystemPath(
                crate::parameters::FileSystemPathParameter { value: None, must_exist: false },
            ),
    {
        output_parameters()
    }

    /// The sink that writes to the path that the option `@output` holds.
    pub fn create(&self, params: &Parameters) -> (sink: GpkgSink)
        requires
            params.spec_path_value("@output"@) is Some,
        ensures
            Some(sink.output_path) == params.spec_path_value("@output"@),
    {
        let output_path = params.path_value("@output");
        GpkgSink { output_path: output_path.unwrap().clone() }
    }
}

/// The GeoPackage sink.
pub struct GpkgSink {
    pub output_path: String,
}

impl GpkgSink {
    /// What the sink requires of the transform chain: all features but
    /// thematic surfaces, and top-level data, as entities of their own;
    /// everything else as by default.
    pub fn make_transform_requirements(&self) -> (r: Requirements)
        ensures
            r.tree_flattening == (TreeFlatteningSpec::Flatten {
                feature: FeatureFlatteningOption::AllExceptThematicSurfaces,
                data: DataFlatteningOption::TopLevelOnly,
                object: ObjectFlatteningOption::Off,
            }),
            !r.shorten_names_for_shapefile,
            r.mapping_rules is None,
            !r.resolve_appearance,
            r.mergedown is RemoveDescendantFeatures,
            r.key_value is Jsonify,
            r.lod_filter.mode is Highest,
            forall|lod: u8| lod < 8 ==> r.lod_filter.mask.spec_has_lod(lod),
    {
        let mut r = Requirements::default();
        r.tree_flattening = TreeFlatteningSpec::Flatten {
            feature: FeatureFlatteningOption::AllExceptThematicSurfaces,
            data: DataFlatteningOption::TopLevelOnly,
            object: ObjectFlatteningOption::Off,
        };
        r
    }
}

/// The EPSG code that every geometry blob is tagged with.
pub const GPKG_GEOMETRY_SRS_ID: u16 = 4326;

/// The record that an entity becomes.
#[derive(Debug)]
pub enum RecordPlan {
    /// The entity is not written
    Skip,
    /// A row of the feature table `table_name` for the feature `obj_id`,
    /// with the polygons of the store at the places `polygons`
    Feature { table_name: String, obj_id: String, polygons: Vec<usize> },
    /// A row of the attribute table `table_name`
    Attribute { table_name: String },
}

/// What a [`RecordPlan`] holds.
pub enum RecordPlanModel {
    Skip,
    Feature { table_name: Seq<char>, obj_id: Seq<char>, polygons: Seq<usize> },
    Attribute { table_name: Seq<char> },
}

impl View for RecordPlan {
    type V = RecordPlanModel;

    open spec fn view(&self) -> RecordPlanModel {
        match self {
            RecordPlan::Skip => RecordPlanModel::Skip,
            RecordPlan::Feature { table_name, obj_id, polygons } => RecordPlanModel::Feature {
                table_name: table_name@,
                obj_id: obj_id@,
                polygons: polygons@,
            },
            RecordPlan::Attribute { table_name } => RecordPlanModel::Attribute {
                table_name: table_name@,
            },
        }
    }
}

/// The places `pos..pos + len`.
pub open spec fn places(pos: int, len: int) -> Seq<usize> {
    Seq::new(len as nat, |k: int| (pos + k) as usize)
}

/// The places in the store of the polygons that the references select, in
/// the order of the references.
pub open spec fn polygon_places(refs: Seq<GeometryRef>) -> Seq<usize>
    decreases refs.len(),
{
    if refs.len() == 0 {
        Seq::empty()
    } else {
        polygon_places(refs.drop_last()) + (if is_polygonal(refs.last().ty) {
            places(refs.last().pos as int, refs.last().len as int)
        } else {
            Seq::empty()
        })
    }
}

/// The places in the store of the polygons that the references select.
pub fn select_polygons(store: &GeometryStore, refs: &Vec<GeometryRef>) -> (r: Vec<usize>)
    requires
        all_hold(*store, refs@),
    ensures
        r@ == polygon_places(refs@),
        forall|k: int| 0 <= k < r@.len() ==> (#[trigger] r@[k]) < store.multipolygon.polygons@.len(),
{
    let n = store.multipolygon.polygons.len();
    let mut selected: Vec<usize> = Vec::new();
    let mut i: usize = 0;
    assert(refs@.take(0) =~= Seq::empty());
    while i < refs.len()
        invariant
            i <= refs@.len(),
            n == store.multipolygon.polygons@.len(),
            all_hold(*store, refs@),
            selected@ == polygon_places(refs@.take(i as int)),
            forall|k: int| 0 <= k < selected@.len() ==> (#[trigger] selected@[k]) < n,
        decreases refs@.len() - i,
    {
        let entry = refs[i];
        let ghost before = selected@;
        proof {
            assert(refs@.take(i + 1).drop_last() =~= refs@.take(i as int));
            assert(refs@.take(i + 1).last() == entry);
            assert(store.spec_holds(refs@[i as int]));
        }
        match entry.ty {
            GeometryType::Solid | GeometryType::Surface | GeometryType::Triangle => {
                let mut k: u32 = 0;
                assert(selected@ =~= before + places(entry.pos as int, 0));
                while k < entry.len
                    invariant
                        k <= entry.len,
                        entry.pos + entry.len <= n,
                        selected@ == before + places(entry.pos as int, k as int),
                        forall|j: int| 0 <= j < selected@.len() ==> (#[trigger] selected@[j]) < n,
                    decreases entry.len - k,
                {
                    selected.push(entry.pos as usize + k as usize);
                    k += 1;
                    assert(selected@ =~= before + places(entry.pos as int, k as int));
                }
            },
            _ => {
                assert(selected@ =~= before + Seq::empty());
            },
        }
        i += 1;
    }
    assert(refs@.take(refs@.len() as int) =~= refs@);
    selected
}

/// The record that an object becomes: a feature with polygons becomes a
/// row of the feature table named after its type, data becomes a row of
/// the attribute table named after its type, and anything else is not
/// written.
pub open spec fn planned_record(root: Value) -> RecordPlanModel {
    match root {
        Value::Object(obj) => match obj.stereotype {
            ObjectStereotype::Feature { id, geometries } => if polygon_places(geometries@).len()
                == 0 {
                RecordPlanModel::Skip
            } else {
                RecordPlanModel::Feature {
                    table_name: obj.typename@,
                    obj_id: id@,
                    polygons: polygon_places(geometries@),
                }
            },
            ObjectStereotype::Data => RecordPlanModel::Attribute { table_name: obj.typename@ },
            ObjectStereotype::Object { .. } => RecordPlanModel::Skip,
        },
        _ => RecordPlanModel::Skip,
    }
}

/// The record that an entity becomes. Of the geometries of a feature only
/// the polygons are written.
pub fn plan_record(entity: &Entity) -> (plan: RecordPlan)
    requires
        entity.root matches Value::Object(obj) ==> (obj.stereotype matches ObjectStereotype::Feature {
            geometries,
            ..
        } ==> all_hold(entity@.geometry_store, geometries@)),
    ensures
        plan@ == planned_record(entity.root),
        plan matches RecordPlan::Feature { polygons, .. } ==> forall|k: int|
            0 <= k < polygons@.len() ==> (#[trigger] polygons@[k])
                < entity@.geometry_store.multipolygon.polygons@.len(),
{
    let geom_store: &GeometryStore = &entity.geometry_store;
    let Value::Object(obj) = &entity.root else {
        return RecordPlan::Skip;
    };
    match &obj.stereotype {
        ObjectStereotype::Feature { id, geometries } => {
            let polygons = select_polygons(geom_store, geometries);
            if polygons.len() == 0 {
                return RecordPlan::Skip;
            }
            RecordPlan::Feature { table_name: obj.typename.clone(), obj_id: id.clone(), polygons }
        },
        ObjectStereotype::Data => RecordPlan::Attribute { table_name: obj.typename.clone() },
        ObjectStereotype::Object { .. } => RecordPlan::Skip,
    }
}

/// The kind of a record that arrives at the writer.
#[derive(Debug, Clone, Copy, PartialEq, Eq, Structural)]
pub enum RecordKind {
    Feature,
    Attribute,
}

/// What the writer does with a record.
#[derive(Debug, Clone, Copy, PartialEq, Eq, Structural)]
pub struct RecordActions {
    /// Whether the table of the record is created first
    pub create_table: bool,
    /// The kind of row that is inserted
    pub insert: RecordKind,
    /// For a feature, the place of its table among the tables with a
    /// bounding box, into which the box of the feature is merged
    pub bbox_slot: Option<usize>,
}

/// What the writer remembers between records: the tables it has created,
/// and the tables that have a bounding box, each in the order of their
/// first record, and the columns that each table has got for attributes, in
/// the order in which they were added.
pub struct GpkgWriterState {
    created_tables: Vec<String>,
    bbox_tables: TextSet,
    columns: Vec<(String, String)>,
}

/// The texts of a list of pairs of a table and a column.
pub open spec fn pairs_view(pairs: Seq<(String, String)>) -> Seq<(Seq<char>, Seq<char>)> {
    Seq::new(pairs.len(), |i: int| (pairs[i].0@, pairs[i].1@))
}

/// The names among `names` for which the table `table` has no column
/// among `held`, each once, in the order in which they are first met.
pub open spec fn fresh_columns(
    held: Seq<(Seq<char>, Seq<char>)>,
    table: Seq<char>,
    names: Seq<Seq<char>>,
) -> Seq<Seq<char>>
    decreases names.len(),
{
    if names.len() == 0 {
        Seq::empty()
    } else {
        let head = fresh_columns(held, table, names.drop_last());
        if held.contains((table, names.last())) || head.contains(names.last()) {
            head
        } else {
            head.push(names.last())
        }
    }
}

/// The columns `names` as columns of the table `table`.
pub open spec fn columns_in(table: Seq<char>, names: Seq<Seq<char>>) -> Seq<
    (Seq<char>, Seq<char>),
> {
    Seq::new(names.len(), |i: int| (table, names[i]))
}

/// No table gets a column twice: the names that are new to a table are
/// distinct and none of them is a column of the table already, so the
/// columns stay distinct when they are added.
pub proof fn lemma_fresh_columns_distinct(
    held: Seq<(Seq<char>, Seq<char>)>,
    table: Seq<char>,
    names: Seq<Seq<char>>,
)
    ensures
        fresh_columns(held, table, names).no_duplicates(),
        forall|k: int|
            0 <= k < fresh_columns(held, table, names).len() ==> !held.contains(
                (table, #[trigger] fresh_columns(held, table, names)[k]),
            ),
        held.no_duplicates() ==> (held + columns_in(
            table,
            fresh_columns(held, table, names),
        )).no_duplicates(),
    decreases names.len(),
{
    let fresh = fresh_columns(held, table, names);
    if names.len() > 0 {
        let head = fresh_columns(held, table, names.drop_last());
        lemma_fresh_columns_distinct(held, table, names.drop_last());
        assert forall|k: int| 0 <= k < fresh.len() implies !held.contains(
            (table, #[trigger] fresh[k]),
        ) by {
            if k < head.len() {
                assert(fresh[k] == head[k]);
            }
        }
        assert forall|i: int, j: int| 0 <= i < fresh.len() && 0 <= j < fresh.len() && i
            != j implies fresh[i] != fresh[j] by {
            if i < head.len() && j < head.len() {
                assert(fresh[i] == head[i] && fresh[j] == head[j]);
            } else if i < head.len() {
                assert(head[i] == fresh[i]);
            } else if j < head.len() {
                assert(head[j] == fresh[j]);
            }
        }
    }
    if held.no_duplicates() {
        let all = held + columns_in(table, fresh);
        assert forall|i: int, j: int| 0 <= i < all.len() && 0 <= j < all.len() && i
            != j implies all[i] != all[j] by {
            if i >= held.len() && j >= held.len() {
                assert(all[i] == (table, fresh[i - held.len()]));
                assert(all[j] == (table, fresh[j - held.len()]));
            } else if i >= held.len() {
                assert(all[i] == (table, fresh[i - held.len()]));
                assert(held[j] == all[j]);
            } else if j >= held.len() {
                assert(all[j] == (table, fresh[j - held.len()]));
                assert(held[i] == all[i]);
            }
        }
    }
}

/// Whether the table has the column among `pairs`.
fn find_column(pairs: &Vec<(String, String)>, table: &String, name: &String) -> (found: bool)
    ensures
        found == pairs_view(pairs@).contains((table@, name@)),
{
    let mut i: usize = 0;
    while i < pairs.len()
        invariant
            i <= pairs@.len(),
            forall|j: int| 0 <= j < i ==> pairs_view(pairs@)[j] != (table@, name@),
        decreases pairs@.len() - i,
    {
        if pairs[i].0 == *table && pairs[i].1 == *name {
            assert(pairs_view(pairs@)[i as int] == (table@, name@));
            return true;
        }
        i += 1;
    }
    false
}

/// The texts of a list of names.
pub open spec fn names_view(names: Seq<String>) -> Seq<Seq<char>> {
    Seq::new(names.len(), |i: int| names[i]@)
}

/// `names` with `name` appended unless it is there already.
pub open spec fn with_name(names: Seq<Seq<char>>, name: Seq<char>) -> Seq<Seq<char>> {
    if names.contains(name) {
        names
    } else {
        names.push(name)
    }
}

/// The place of a name among `names`, if it is there.
fn find_name(names: &Vec<String>, name: &String) -> (at: Option<usize>)
    ensures
        at is Some == names_view(names@).contains(name@),
        at matches Some(i) ==> i < names@.len() && names@[i as int]@ == name@,
{
    let mut i: usize = 0;
    while i < names.len()
        invariant
            i <= names@.len(),
            forall|j: int| 0 <= j < i ==> names@[j]@ != name@,
        decreases names@.len() - i,
    {
        if names[i] == *name {
            assert(names_view(names@)[i as int] == name@);
            return Some(i);
        }
        i += 1;
    }
    proof {
        if names_view(names@).contains(name@) {
            let k = choose|k: int|
                0 <= k < names_view(names@).len() && names_view(names@)[k] == name@;
            assert(names@[k]@ == name@);
        }
    }
    None
}

impl GpkgWriterState {
    /// The names of the tables created so far.
    pub closed spec fn created(&self) -> Seq<Seq<char>> {
        names_view(self.created_tables@)
    }

    /// The names of the tables that have a bounding box so far.
    pub closed spec fn boxed(&self) -> Seq<Seq<char>> {
        text_set_items(self.bbox_tables)
    }

    /// The columns that the tables have got for attributes so far, each
    /// with its table.
    pub closed spec fn columns(&self) -> Seq<(Seq<char>, Seq<char>)> {
        pairs_view(self.columns@)
    }

    /// The state before the first record.
    pub fn new() -> (r: Self)
        ensures
            r.created() == Seq::<Seq<char>>::empty(),
            r.boxed() == Seq::<Seq<char>>::empty(),
            r.columns() == Seq::<(Seq<char>, Seq<char>)>::empty(),
    {
        let r = GpkgWriterState {
            created_tables: Vec::new(),
            bbox_tables: text_set_new(),
            columns: Vec::new(),
        };
        assert(r.created() =~= Seq::empty());
        assert(r.boxed() =~= Seq::empty());
        assert(r.columns() =~= Seq::empty());
        r
    }

    /// Takes the names of the attributes of a record for the table
    /// `table_name`: returns the names for which the table has no column
    /// yet, each once and in their order, and remembers them as columns of
    /// that table. The columns of the other tables stay as they are.
    pub fn take_columns(&mut self, table_name: &String, names: &Vec<String>) -> (added: Vec<
        String,
    >)
        ensures
            names_view(added@) == fresh_columns(
                old(self).columns(),
                table_name@,
                names_view(names@),
            ),
            final(self).columns() == old(self).columns() + columns_in(
                table_name@,
                names_view(added@),
            ),
            final(self).created() == old(self).created(),
            final(self).boxed() == old(self).boxed(),
    {
        let ghost held = self.columns();
        let ghost texts = names_view(names@);
        let mut added: Vec<String> = Vec::new();
        let mut i: usize = 0;
        assert(texts.take(0) =~= Seq::empty());
        assert(names_view(added@) =~= Seq::empty());
        assert(self.columns() =~= held + columns_in(table_name@, names_view(added@)));
        while i < names.len()
            invariant
                i <= names@.len(),
                texts == names_view(names@),
                names_view(added@) == fresh_columns(held, table_name@, texts.take(i as int)),
                self.columns() == held + columns_in(table_name@, names_view(added@)),
                self.created() == old(self).created(),
                self.boxed() == old(self).boxed(),
            decreases names@.len() - i,
        {
            let ghost before = names_view(added@);
            let ghost pairs = self.columns();
            proof {
                assert(texts.take(i + 1).drop_last() =~= texts.take(i as int));
                assert(texts.take(i + 1).last() == names@[i as int]@);
            }
            let known = find_column(&self.columns, table_name, &names[i]);
            proof {
                // the table has the column if it had it before or got it just now
                let name = names@[i as int]@;
                if pairs.contains((table_name@, name)) {
                    let k = choose|k: int| 0 <= k < pairs.len() && pairs[k] == (table_name@, name);
                    if k < held.len() {
                        assert(held[k] == (table_name@, name));
                    } else {
                        assert(before[k - held.len()] == name);
                    }
                } else {
                    if held.contains((table_name@, name)) {
                        let k = choose|k: int|
                            0 <= k < held.len() && held[k] == (table_name@, name);
                        assert(pairs[k] == (table_name@, name));
                    }
                    if before.contains(name) {
                        let k = choose|k: int| 0 <= k < before.len() && before[k] == name;
                        assert(pairs[held.len() + k] == (table_name@, name));
                    }
                }
            }
            if !known {
                self.columns.push((table_name.clone(), names[i].clone()));
                added.push(names[i].clone());
                assert(names_view(added@) =~= before.push(names@[i as int]@));
                assert(self.columns() =~= pairs.push((table_name@, names@[i as int]@)));
                assert(columns_in(table_name@, before.push(names@[i as int]@))
                    =~= columns_in(table_name@, before).push((table_name@, names@[i as int]@)));
                assert(self.columns() =~= held + columns_in(table_name@, names_view(added@)));
            }
            i += 1;
        }
        assert(texts.take(names@.len() as int) =~= texts);
        added
    }

    /// Takes a record for the table `table_name`: the table is created if
    /// this is its first record, a row of the kind of the record is
    /// inserted, and for a feature the table gets a bounding box, if it has
    /// none yet, into which the box of the feature is merged.
    pub fn on_record(&mut self, table_name: &String, kind: RecordKind) -> (actions: RecordActions)
        ensures
            actions.create_table == !old(self).created().contains(table_name@),
            final(self).created() == with_name(old(self).created(), table_name@),
            old(self).created().no_duplicates() ==> final(self).created().no_duplicates(),
            old(self).boxed().no_duplicates() ==> final(self).boxed().no_duplicates(),
            actions.insert == kind,
            final(self).columns() == old(self).columns(),
            kind is Attribute ==> actions.bbox_slot is None && final(self).boxed() == old(
                self,
            ).boxed(),
            kind is Feature ==> {
                &&& final(self).boxed() == with_name(old(self).boxed(), table_name@)
                &&& actions.bbox_slot matches Some(slot)
                &&& slot < final(self).boxed().len()
                &&& final(self).boxed()[slot as int] == table_name@
            },
    {
        let ghost created = self.created();
        let ghost boxed = self.boxed();
        proof {
            if created.no_duplicates() {
                lemma_with_name_distinct(created, table_name@);
            }
            if boxed.no_duplicates() {
                lemma_with_name_distinct(boxed, table_name@);
            }
        }
        let create_table = find_name(&self.created_tables, table_name).is_none();
        if create_table {
            self.created_tables.push(table_name.clone());
            assert(self.created() =~= created.push(table_name@));
        }
        let bbox_slot = match kind {
            RecordKind::Attribute => None,
            RecordKind::Feature => {
                let (slot, _) = text_set_insert_full(&mut self.bbox_tables, table_name.clone());
                Some(slot)
            },
        };
        RecordActions { create_table, insert: kind, bbox_slot }
    }

    /// Ends the run: returns the tables whose bounding box is to be
    /// written, in the order of their first feature.
    pub fn finish(self) -> (tables: Vec<String>)
        ensures
            names_view(tables@) == self.boxed(),
    {
        let tables = text_set_to_vec(&self.bbox_tables);
        assert(names_view(tables@) =~= texts(tables@));
        tables
    }
}

/// The tables created never hold a name twice.
pub proof fn lemma_with_name_distinct(names: Seq<Seq<char>>, name: Seq<char>)
    requires
        names.no_duplicates(),
    ensures
        with_name(names, name).no_duplicates(),
        with_name(names, name).contains(name),
        names.is_prefix_of(with_name(names, name)),
{
    if !names.contains(name) {
        assert(with_name(names, name)[names.len() as int] == name);
    }
}

/// The URL of the database for an output path, and whether a file at that
/// path is removed first: a path that is a `sqlite:` URL already is taken
/// as it is and nothing is removed; any other path is a file, which is
/// replaced.
pub fn database_url(output_path: &str) -> (r: (String, bool))
    ensures
        is_prefix(output_path@, "sqlite:"@) ==> r.0@ == output_path@ && !r.1,
        !is_prefix(output_path@, "sqlite:"@) ==> r.0@ == "sqlite://"@ + output_path@ && r.1,
{
    if str_starts_with(output_path, "sqlite:") {
        (String::from_str(output_path), false)
    } else {
        let mut url = String::from_str("sqlite://");
        url.append(output_path);
        (url, true)
    }
}

/// The list of `", name"` for each of the first `count` names.
pub open spec fn column_list(names: Seq<Seq<char>>, count: int) -> Seq<char>
    decreases count,
{
    if count <= 0 {
        Seq::empty()
    } else {
        column_list(names, count - 1) + ", "@ + names[count - 1]
    }
}

/// The list of `", ?"`, `count` times.
pub open spec fn mark_list(count: int) -> Seq<char>
    decreases count,
{
    if count <= 0 {
        Seq::empty()
    } else {
        mark_list(count - 1) + ", ?"@
    }
}

/// The statement that inserts a feature with a geometry and a value for
/// each of the named columns.
pub open spec fn insert_feature_sql(names: Seq<Seq<char>>) -> Seq<char> {
    "INSERT INTO mpoly3d (geometry"@ + column_list(names, names.len() as int) + ") VALUES (?"@
        + mark_list(names.len() as int) + ")"@
}

/// The statement that inserts a feature with a geometry and a value for
/// each of the named columns, in their order.
pub fn insert_feature_query(names: &Vec<String>) -> (sql: String)
    ensures
        sql@ == insert_feature_sql(names_view(names@)),
{
    let ghost texts = names_view(names@);
    let mut sql = String::from_str("INSERT INTO mpoly3d (geometry");
    let mut i: usize = 0;
    while i < names.len()
        invariant
            i <= names@.len(),
            texts == names_view(names@),
            sql@ == "INSERT INTO mpoly3d (geometry"@ + column_list(texts, i as int),
        decreases names@.len() - i,
    {
        sql.append(", ");
        sql.append(names[i].as_str());
        assert(sql@ =~= "INSERT INTO mpoly3d (geometry"@ + column_list(texts, i + 1));
        i += 1;
    }
    sql.append(") VALUES (?");
    let ghost head = sql@;
    let mut j: usize = 0;
    assert(sql@ =~= head + mark_list(0));
    while j < names.len()
        invariant
            j <= names@.len(),
            sql@ == head + mark_list(j as int),
        decreases names@.len() - j,
    {
        sql.append(", ?");
        assert(sql@ =~= head + mark_list(j + 1));
        j += 1;
    }
    sql.append(")");
    assert(sql@ =~= insert_feature_sql(texts));
    sql
}

/// The statement that adds a column of the given type to the feature
/// table.
pub fn add_column_query(column_name: &str, column_type: &str) -> (sql: String)
    ensures
        sql@ == "ALTER TABLE mpoly3d ADD COLUMN "@ + column_name@ + " "@ + column_type@ + ";"@,
{
    let mut sql = String::from_str("ALTER TABLE mpoly3d ADD COLUMN ");
    sql.append(column_name);
    sql.append(" ");
    sql.append(column_type);
    sql.append(";");
    sql
}

/// The statement that asks for the columns of a table.
pub fn table_info_query(table_name: &str) -> (sql: String)
    ensures
        sql@ == "PRAGMA table_info("@ + table_name@ + ");"@,
{
    let mut sql = String::from_str("PRAGMA table_info(");
    sql.append(table_name);
    sql.append(");");
    sql
}

} // verus!
