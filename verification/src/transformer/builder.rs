//! What a sink may ask of the transform chain, and how the chain is put
//! together from what was asked.

use vstd::prelude::*;
use crate::crs::{EpsgCode, EPSG_WGS84_GEOGRAPHIC_3D};
use crate::entries::{named, viewed};
use crate::object::{Entity, EntityModel};
use crate::schema::Schema;
use crate::transformer::appearance::ApplyAppearanceTransform;
use crate::transformer::dot::{dotted, DotNotationTransform};
use crate::transformer::flatten::{
    entity_models, flattened, with_parent_attributes, DataFlatteningOption,
    FeatureFlatteningOption, FlattenTreeTransform, Flattening, ObjectFlatteningOption,
};
use crate::transformer::lod::{filtered, target_lod, FilterLodTransform, LodFilterMode, LodMask};
use crate::transformer::mergedown::{merged_down, GeometricMergedownTransform};
use crate::transformer::projection::ProjectionTransform;
use crate::transformer::rename::{
    extended, renamed_type, renamed_value, EditFieldNamesTransform, MappingRules, Rules,
};
use crate::schema::type_map_entries;

verus! {

/// What a sink requires of the entities it is given.
pub struct Requirements {
    /// Whether to shorten field names to 10 characters or less for Shapefiles.
    pub shorten_names_for_shapefile: bool,
    /// Mapping rules defined by the user
    pub mapping_rules: Option<MappingRules>,
    pub tree_flattening: TreeFlatteningSpec,
    pub resolve_appearance: bool,
    pub mergedown: MergedownSpec,
    pub key_value: KeyValueSpec,
    pub lod_filter: LodFilterSpec,
}

impl Default for Requirements {
    /// No renaming, no flattening and no appearances; descendants merged
    /// down and removed; nested values as JSON; the highest level of
    /// detail.
    fn default() -> (r: Self)
        ensures
            !r.shorten_names_for_shapefile,
            r.mapping_rules is None,
            r.tree_flattening is Off,
            !r.resolve_appearance,
            r.mergedown is RemoveDescendantFeatures,
            r.key_value is Jsonify,
            r.lod_filter.mode is Highest,
            forall|lod: u8| lod < 8 ==> r.lod_filter.mask.spec_has_lod(lod),
    {
        Requirements {
            shorten_names_for_shapefile: false,
            mapping_rules: None,
            tree_flattening: TreeFlatteningSpec::Off,
            resolve_appearance: false,
            mergedown: MergedownSpec::RemoveDescendantFeatures,
            key_value: KeyValueSpec::Jsonify,
            lod_filter: LodFilterSpec::default(),
        }
    }
}

/// What the transform chain is asked to do.
pub struct Request {
    pub shorten_names_for_shapefile: bool,
    pub mapping_rules: Option<MappingRules>,
    pub tree_flattening: TreeFlatteningSpec,
    pub apply_appearance: bool,
    pub mergedown: MergedownSpec,
    pub key_value: KeyValueSpec,
    pub lod_filter: LodFilterSpec,
}

impl From<Requirements> for Request {
    fn from(req: Requirements) -> (r: Self) {
        Request {
            shorten_names_for_shapefile: req.shorten_names_for_shapefile,
            mapping_rules: req.mapping_rules,
            tree_flattening: req.tree_flattening,
            apply_appearance: req.resolve_appearance,
            mergedown: req.mergedown,
            key_value: req.key_value,
            lod_filter: req.lod_filter,
        }
    }
}

impl vstd::std_specs::convert::FromSpecImpl<Requirements> for Request {
    open spec fn obeys_from_spec() -> bool {
        true
    }

    /// What is required is asked for, item by item.
    open spec fn from_spec(req: Requirements) -> Request {
        Request {
            shorten_names_for_shapefile: req.shorten_names_for_shapefile,
            mapping_rules: req.mapping_rules,
            tree_flattening: req.tree_flattening,
            apply_appearance: req.resolve_appearance,
            mergedown: req.mergedown,
            key_value: req.key_value,
            lod_filter: req.lod_filter,
        }
    }
}

impl Request {
    /// Sets the mapping rules of the user and leaves everything else.
    pub fn set_mapping_rules(&mut self, rules: Option<MappingRules>)
        ensures
            *final(self) == (Request { mapping_rules: rules, ..*old(self) }),
    {
        self.mapping_rules = rules;
    }
}

/// Which levels of detail stay.
#[derive(Debug, Clone, Copy)]
pub struct LodFilterSpec {
    pub mask: LodMask,
    pub mode: LodFilterMode,
}

impl Default for LodFilterSpec {
    /// The highest of all levels.
    fn default() -> (r: Self)
        ensures
            r.mode is Highest,
            forall|lod: u8| lod < 8 ==> r.mask.spec_has_lod(lod),
    {
        LodFilterSpec { mask: LodMask::all(), mode: LodFilterMode::Highest }
    }
}

/// Whether and how entity trees are flattened.
#[derive(Debug, Clone, Copy)]
pub enum TreeFlatteningSpec {
    /// No flattening at all
    Off,
    // Flatten with the given options
    Flatten {
        feature: FeatureFlatteningOption,
        data: DataFlatteningOption,
        object: ObjectFlatteningOption,
    },
}

/// Whether and how the geometries of descendants are merged into the root.
#[derive(Debug, Clone, Copy)]
pub enum MergedownSpec {
    /// No mergedown
    NoMergedown,
    /// merge the children's geometries into the root and retain the children features
    RetainDescendantFeatures,
    /// merge the children's geometries into the root and remove the children features
    RemoveDescendantFeatures,
}

/// Specifies how to transform nested objects and arrays
#[derive(Debug, Clone, Copy)]
pub enum KeyValueSpec {
    Off,
    // JSONify nested objects and arrays
    Jsonify,
    // Flatten nested objects and arrays as dot-split keys (e.g. `buildingDisasterRiskAttribute.0.rankOrg`)
    DotNotation,
}

/// One transform of the chain.
pub enum TransformStep {
    /// Transform the coordinate system
    Projection(ProjectionTransform),
    /// Apply appearance to geometries
    ApplyAppearance(ApplyAppearanceTransform),
    /// Rename attributes
    EditFieldNames(EditFieldNamesTransform),
    /// Filter geometry references by level of detail
    FilterLod(FilterLodTransform),
    /// Flatten the entity tree
    FlattenTree(FlattenTreeTransform),
    /// Merge the geometries of descendants into the root
    GeometricMergedown(GeometricMergedownTransform),
    /// Turn nested objects and arrays into JSON strings
    Jsonify,
    /// Turn nested objects and arrays into attributes with dot-split names
    DotNotation(DotNotationTransform),
}

/// What a [`TransformStep`] holds.
pub enum StepModel {
    Projection { output: EpsgCode },
    ApplyAppearance,
    EditFieldNames { rules: Rules },
    FilterLod { mask: LodMask, mode: LodFilterMode },
    FlattenTree {
        feature: FeatureFlatteningOption,
        data: DataFlatteningOption,
        object: ObjectFlatteningOption,
    },
    GeometricMergedown { retain_descendants: bool },
    Jsonify,
    DotNotation,
}

impl View for TransformStep {
    type V = StepModel;

    open spec fn view(&self) -> StepModel {
        match self {
            TransformStep::Projection(t) => StepModel::Projection { output: t.output() },
            TransformStep::ApplyAppearance(_) => StepModel::ApplyAppearance,
            TransformStep::EditFieldNames(t) => StepModel::EditFieldNames { rules: t.rules() },
            TransformStep::FilterLod(t) => StepModel::FilterLod { mask: t.mask(), mode: t.mode() },
            TransformStep::FlattenTree(t) => StepModel::FlattenTree {
                feature: t.feature_option(),
                data: t.data_option(),
                object: t.object_option(),
            },
            TransformStep::GeometricMergedown(t) => StepModel::GeometricMergedown {
                retain_descendants: t.retains(),
            },
            TransformStep::Jsonify => StepModel::Jsonify,
            TransformStep::DotNotation(_) => StepModel::DotNotation,
        }
    }
}

/// Transforms applied one after another: what one gives is what the next
/// is given.
pub struct SerialTransform {
    pub steps: Vec<TransformStep>,
}

/// The models of a list of steps.
pub open spec fn step_models(steps: Seq<TransformStep>) -> Seq<StepModel> {
    Seq::new(steps.len(), |i: int| steps[i]@)
}

/// Whether `after` is what the step makes of the schema `before`.
///
/// The projection sets the reference system. Renaming renames the declared
/// attributes. Flattening declares the two parent attributes on every
/// feature type. The other steps leave the schema as it is.
pub open spec fn step_schema(step: StepModel, before: Schema, after: Schema) -> bool {
    match step {
        StepModel::Projection { output } => after.epsg == Some(output) && after.types
            == before.types,
        StepModel::EditFieldNames { rules } => {
            &&& after.epsg == before.epsg
            &&& type_map_entries(after.types).len() == type_map_entries(before.types).len()
            &&& forall|i: int|
                0 <= i < type_map_entries(before.types).len() ==> renamed_type(
                    rules,
                    #[trigger] type_map_entries(before.types)[i],
                    type_map_entries(after.types)[i],
                )
        },
        StepModel::FlattenTree { .. } => {
            &&& after.epsg == before.epsg
            &&& type_map_entries(after.types).len() == type_map_entries(before.types).len()
            &&& forall|i: int|
                0 <= i < type_map_entries(before.types).len() ==> with_parent_attributes(
                    #[trigger] type_map_entries(before.types)[i],
                    type_map_entries(after.types)[i],
                )
        },
        _ => after == before,
    }
}

/// Whether `trail` holds the schema before the first step and, after it,
/// the schema that each step in turn makes of the one before it.
pub open spec fn schema_trail(steps: Seq<StepModel>, trail: Seq<Schema>) -> bool {
    &&& trail.len() == steps.len() + 1
    &&& forall|i: int|
        0 <= i < steps.len() ==> step_schema(#[trigger] steps[i], trail[i], trail[i + 1])
}

/// Whether `after` is what the steps, applied in order, make of the
/// schema `before`.
pub open spec fn chain_schema(steps: Seq<StepModel>, before: Schema, after: Schema) -> bool {
    exists|trail: Seq<Schema>|
        #[trigger] schema_trail(steps, trail) && trail.first() == before && trail.last() == after
}

/// What a step makes of an entity, where the library does the step alone:
/// the entities that take the place of the entity, in order. `None` for a
/// step that needs work from outside: the conversion of coordinates for a
/// projection, the store itself for the appearances, the JSON texts for
/// jsonify.
pub open spec fn step_entities(step: StepModel, entity: EntityModel) -> Option<Seq<EntityModel>> {
    match step {
        StepModel::EditFieldNames { rules } => Some(
            seq![EntityModel { root: renamed_value(rules, entity.root), ..entity }],
        ),
        StepModel::FilterLod { mask, mode } => Some(
            seq![
                EntityModel {
                    root: filtered(entity.root, mode, mask, target_lod(mode, mask, entity.root)),
                    ..entity
                },
            ],
        ),
        StepModel::FlattenTree { feature, data, object } => Some(
            flattened(Flattening { feature, data, object, within_data: false }, entity),
        ),
        StepModel::GeometricMergedown { retain_descendants } => Some(
            seq![EntityModel { root: merged_down(entity.root, retain_descendants), ..entity }],
        ),
        StepModel::DotNotation => Some(seq![EntityModel { root: dotted(entity.root), ..entity }]),
        _ => None,
    }
}

impl TransformStep {
    /// Applies the step to an entity, where the library does the step
    /// alone: the entities that it makes of the entity are appended to
    /// `out`, and nothing is handed back. For a step that needs work from
    /// outside the entity is handed back as it is and `out` is left. A
    /// well-formed entity gives well-formed entities.
    pub fn transform_entity(&mut self, entity: Entity, out: &mut Vec<Entity>) -> (rest: Option<
        Entity,
    >)
        ensures
            final(self)@ == old(self)@,
            match step_entities(old(self)@, entity@) {
                Some(made) => rest is None && entity_models(final(out)@) == entity_models(
                    old(out)@,
                ) + made,
                None => rest == Some(entity) && final(out)@ == old(out)@,
            },
            entity@.wf() ==> forall|k: int|
                old(out)@.len() <= k < final(out)@.len() ==> (#[trigger] final(out)@[k])@.wf(),
    {
        let ghost before = entity_models(out@);
        match self {
            TransformStep::EditFieldNames(t) => {
                t.transform(entity, out);
                assert(entity_models(out@) =~= before + seq![out@.last()@]);
                None
            },
            TransformStep::FilterLod(t) => {
                t.transform(entity, out);
                assert(entity_models(out@) =~= before + seq![out@.last()@]);
                None
            },
            TransformStep::FlattenTree(t) => {
                t.transform(entity, out);
                None
            },
            TransformStep::GeometricMergedown(t) => {
                t.transform(entity, out);
                assert(entity_models(out@) =~= before + seq![out@.last()@]);
                None
            },
            TransformStep::DotNotation(t) => {
                t.transform(entity, out);
                assert(entity_models(out@) =~= before + seq![out@.last()@]);
                None
            },
            _ => Some(entity),
        }
    }

    /// Makes of the schema what this step makes of it.
    pub fn transform_schema(&self, schema: &mut Schema)
        ensures
            step_schema(self@, *old(schema), *final(schema)),
    {
        match self {
            TransformStep::Projection(t) => t.transform_schema(schema),
            TransformStep::EditFieldNames(t) => t.transform_schema(schema),
            TransformStep::FlattenTree(t) => t.transform_schema(schema),
            _ => {},
        }
    }
}

impl Default for SerialTransform {
    /// The empty chain.
    fn default() -> (r: Self)
        ensures
            r.steps@.len() == 0,
    {
        SerialTransform { steps: Vec::new() }
    }
}

impl SerialTransform {
    /// Appends a step to the chain.
    pub fn push(&mut self, step: TransformStep)
        ensures
            final(self).steps@ == old(self).steps@.push(step),
    {
        self.steps.push(step);
    }

    /// Makes of the schema what the steps of the chain, applied in order,
    /// make of it.
    pub fn transform_schema(&self, schema: &mut Schema)
        ensures
            chain_schema(step_models(self.steps@), *old(schema), *final(schema)),
    {
        let ghost models = step_models(self.steps@);
        let ghost mut trail: Seq<Schema> = seq![*schema];
        let mut i: usize = 0;
        while i < self.steps.len()
            invariant
                i <= self.steps@.len(),
                models == step_models(self.steps@),
                trail.len() == i + 1,
                trail.first() == *old(schema),
                trail.last() == *schema,
                forall|k: int|
                    0 <= k < i ==> step_schema(#[trigger] models[k], trail[k], trail[k + 1]),
            decreases self.steps@.len() - i,
        {
            let ghost before = trail;
            self.steps[i].transform_schema(schema);
            proof {
                trail = trail.push(*schema);
                assert forall|k: int| 0 <= k < i + 1 implies step_schema(
                    #[trigger] models[k],
                    trail[k],
                    trail[k + 1],
                ) by {
                    if k < i {
                        assert(trail[k] == before[k]);
                        assert(trail[k + 1] == before[k + 1]);
                    }
                }
            }
            i += 1;
        }
        assert(schema_trail(models, trail));
    }
}

/// A maker of transform chains.
pub trait TransformBuilder {
    /// The steps of the chains that this builder makes.
    spec fn chain(&self) -> Seq<StepModel>;

    /// A new chain.
    fn build(&self) -> (transforms: SerialTransform)
        ensures
            step_models(transforms.steps@) == self.chain(),
    ;

    /// Makes of the schema what the chain makes of it.
    fn transform_schema(&self, schema: &mut Schema)
        ensures
            chain_schema(self.chain(), *old(schema), *final(schema)),
    {
        self.build().transform_schema(schema);
    }
}

/// The rules of an optional set of mapping rules.
pub open spec fn user_rules(rules: Option<MappingRules>) -> Rules {
    match rules {
        Some(m) => viewed(named(m.rename@)),
        None => Seq::empty(),
    }
}

/// The chain that is built for `request`: the steps in their fixed order,
/// each only if it is asked for.
///
/// The projection into `output` comes first. Appearances are applied if
/// asked for. Renaming is always there: its rules are the `preset`, if
/// names are to be shortened, with the rules of the user set on top. The
/// filter by level of detail is always there. Flattening, mergedown and
/// the treatment of nested values follow, each as asked for.
pub open spec fn planned_chain(request: Request, preset: Rules, output: EpsgCode) -> Seq<
    StepModel,
> {
    seq![StepModel::Projection { output }] + (if request.apply_appearance {
        seq![StepModel::ApplyAppearance]
    } else {
        Seq::empty()
    }) + seq![
        StepModel::EditFieldNames {
            rules: extended(
                if request.shorten_names_for_shapefile {
                    extended(Seq::empty(), preset)
                } else {
                    Seq::empty()
                },
                user_rules(request.mapping_rules),
            ),
        },
        StepModel::FilterLod { mask: request.lod_filter.mask, mode: request.lod_filter.mode },
    ] + (match request.tree_flattening {
        TreeFlatteningSpec::Off => Seq::empty(),
        TreeFlatteningSpec::Flatten { feature, data, object } => seq![
            StepModel::FlattenTree { feature, data, object },
        ],
    }) + (match request.mergedown {
        MergedownSpec::NoMergedown => Seq::empty(),
        MergedownSpec::RemoveDescendantFeatures => seq![
            StepModel::GeometricMergedown { retain_descendants: false },
        ],
        MergedownSpec::RetainDescendantFeatures => seq![
            StepModel::GeometricMergedown { retain_descendants: true },
        ],
    }) + (match request.key_value {
        KeyValueSpec::Jsonify => seq![StepModel::Jsonify],
        KeyValueSpec::DotNotation => seq![StepModel::DotNotation],
        KeyValueSpec::Off => Seq::empty(),
    })
}

/// The maker of the chains of this converter.
pub struct NusamaiTransformBuilder {
    request: Request,
    shapefile_names: Vec<(String, String)>,
    output_epsg: EpsgCode,
}

/// A copy of a list of rules.
pub fn copy_rules(rules: &Vec<(String, String)>) -> (r: Vec<(String, String)>)
    ensures
        viewed(named(r@)) == viewed(named(rules@)),
{
    let mut r: Vec<(String, String)> = Vec::new();
    let mut i: usize = 0;
    while i < rules.len()
        invariant
            i <= rules@.len(),
            r@.len() == i,
            forall|k: int|
                0 <= k < i ==> (#[trigger] r@[k]).0@ == rules@[k].0@ && r@[k].1@ == rules@[k].1@,
        decreases rules@.len() - i,
    {
        r.push((rules[i].0.clone(), rules[i].1.clone()));
        i += 1;
    }
    assert(viewed(named(r@)) =~= viewed(named(rules@)));
    r
}

impl NusamaiTransformBuilder {
    /// What the chains are asked to do.
    pub closed spec fn request(&self) -> Request {
        self.request
    }

    /// The preset table of short names.
    pub closed spec fn preset(&self) -> Rules {
        viewed(named(self.shapefile_names@))
    }

    /// The reference system of the output.
    pub closed spec fn output(&self) -> EpsgCode {
        self.output_epsg
    }

    /// A builder for `req`, with an empty preset table and with output in
    /// WGS 84 geographic 3D.
    pub fn new(req: Request) -> (r: Self)
        ensures
            r.request() == req,
            r.preset() == Seq::<(Seq<char>, Seq<char>)>::empty(),
            r.output() == EPSG_WGS84_GEOGRAPHIC_3D,
    {
        let r = NusamaiTransformBuilder {
            request: req,
            shapefile_names: Vec::new(),
            output_epsg: EPSG_WGS84_GEOGRAPHIC_3D,
        };
        assert(r.preset() =~= Seq::empty());
        r
    }

    /// The builder with `names` as its preset table of short names.
    pub fn with_shapefile_names(self, names: Vec<(String, String)>) -> (r: Self)
        ensures
            r.request() == self.request(),
            r.preset() == viewed(named(names@)),
            r.output() == self.output(),
    {
        NusamaiTransformBuilder {
            request: self.request,
            shapefile_names: names,
            output_epsg: self.output_epsg,
        }
    }

    /// The builder with output in the reference system `epsg`.
    pub fn with_output_epsg(self, epsg: EpsgCode) -> (r: Self)
        ensures
            r.request() == self.request(),
            r.preset() == self.preset(),
            r.output() == epsg,
    {
        NusamaiTransformBuilder {
            request: self.request,
            shapefile_names: self.shapefile_names,
            output_epsg: epsg,
        }
    }
}

impl TransformBuilder for NusamaiTransformBuilder {
    /// The chain that is planned for the request of this builder.
    open spec fn chain(&self) -> Seq<StepModel> {
        planned_chain(self.request(), self.preset(), self.output())
    }

    /// The chain for the request of this builder.
    fn build(&self) -> (transforms: SerialTransform) {
        let mut transforms = SerialTransform::default();

        // Transform the coordinate system
        transforms.push(TransformStep::Projection(ProjectionTransform::new(self.output_epsg)));

        // Apply appearance to geometries
        if self.request.apply_appearance {
            transforms.push(TransformStep::ApplyAppearance(ApplyAppearanceTransform::new()));
        }

        let mut renamer = EditFieldNamesTransform::default();
        if self.request.shorten_names_for_shapefile {
            renamer.load_default_map_for_shape(copy_rules(&self.shapefile_names));
        }
        // Rename rules by the user are set after the preset, therefore they
        // override the preset where the two conflict
        match &self.request.mapping_rules {
            Some(mapping_rules) => {
                renamer.extend_rename_map(copy_rules(&mapping_rules.rename));
            },
            None => {},
        }
        transforms.push(TransformStep::EditFieldNames(renamer));

        transforms.push(
            TransformStep::FilterLod(
                FilterLodTransform::new(self.request.lod_filter.mask, self.request.lod_filter.mode),
            ),
        );

        match self.request.tree_flattening {
            TreeFlatteningSpec::Off => {},
            TreeFlatteningSpec::Flatten { feature, data, object } => {
                transforms.push(
                    TransformStep::FlattenTree(
                        FlattenTreeTransform::with_options(feature, data, object),
                    ),
                );
            },
        }

        match self.request.mergedown {
            MergedownSpec::NoMergedown => {},
            MergedownSpec::RemoveDescendantFeatures => {
                transforms.push(
                    TransformStep::GeometricMergedown(GeometricMergedownTransform::new(false)),
                );
            },
            MergedownSpec::RetainDescendantFeatures => {
                transforms.push(
                    TransformStep::GeometricMergedown(GeometricMergedownTransform::new(true)),
                );
            },
        }

        match self.request.key_value {
            KeyValueSpec::Jsonify => {
                transforms.push(TransformStep::Jsonify);
            },
            KeyValueSpec::DotNotation => {
                transforms.push(TransformStep::DotNotation(DotNotationTransform::default()));
            },
            KeyValueSpec::Off => {
                // No-op
            },
        }

        assert(step_models(transforms.steps@) =~= planned_chain(
            self.request(),
            self.preset(),
            self.output(),
        ));
        transforms
    }
}

} // verus!
