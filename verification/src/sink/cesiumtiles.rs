//! 3D Tiles output: sliced features, keyed by the id of their tile, and
//! their grouping by tile once they are sorted.

use vstd::prelude::*;
use itertools::Itertools;
use crate::parameters::Parameters;
use crate::sink::info::{output_parameters, SinkInfo};
use crate::transformer::builder::Requirements;

verus! {

/// The provider of the 3D Tiles sink.
pub struct CesiumTilesSinkProvider {}

impl CesiumTilesSinkProvider {
    /// The id and the name of the sink.
    pub fn info(&self) -> (info: SinkInfo)
        ensures
            info.id_name@ == "3dtiles"@,
            info.name@ == "3D Tiles"@,
    {
        SinkInfo { id_name: "3dtiles".to_owned(), name: "3D Tiles".to_owned() }
    }

    /// The options of the sink: the output path.
    pub fn parameters(&self) -> (params: Parameters)
        ensures
            params.entries@.len() == 1,
            params.entries@[0].0@ == "@output"@,
            params.entries@[0].1.description@ == "Output file path"@,
            params.entries@[0].1.required,
            params.entries@[0].1.parameter == crate::parameters::ParameterType::FileSystemPath(
                crate::parameters::FileSystemPathParameter { value: None, must_exist: false },
            ),
    {
        output_parameters()
    }

    /// The sink that writes to the path that the option `@output` holds.
    pub fn create(&self, params: &Parameters) -> (sink: CesiumTilesSink)
        requires
            params.spec_path_value("@output"@) is Some,
        ensures
            Some(sink.output_path) == params.spec_path_value("@output"@),
    {
        let output_path = params.path_value("@output");
        CesiumTilesSink { output_path: output_path.unwrap().clone() }
    }
}

/// The 3D Tiles sink.
pub struct CesiumTilesSink {
    pub output_path: String,
}

impl CesiumTilesSink {
    /// What the sink requires of the transform chain: the geometries of
    /// descendants merged into the root and the descendants removed, as by
    /// default; everything else as by default too.
    pub fn make_transform_requirements(&self) -> (r: Requirements)
        ensures
            r.mergedown is RemoveDescendantFeatures,
            !r.shorten_names_for_shapefile,
            r.mapping_rules is None,
            r.tree_flattening is Off,
            !r.resolve_appearance,
            r.key_value is Jsonify,
            r.lod_filter.mode is Highest,
            forall|lod: u8| lod < 8 ==> r.lod_filter.mask.spec_has_lod(lod),
    {
        Requirements::default()
    }
}

/// The lowest zoom level at which features are sliced.
pub const MIN_ZOOM: u8 = 7;

/// The highest zoom level at which features are sliced.
pub const MAX_ZOOM: u8 = 16;

/// One feature clipped to one tile, serialized.
#[derive(Debug)]
pub struct SerializedSlicedFeature {
    pub tile_id: u64,
    pub body: Vec<u8>,
}

/// The features of one tile.
pub struct TileGroup {
    pub tile_id: u64,
    pub features: Seq<SerializedSlicedFeature>,
}

/// The runs of a sequence of features: consecutive features of the same
/// tile form one group, in order.
pub open spec fn tile_runs(features: Seq<SerializedSlicedFeature>) -> Seq<TileGroup>
    decreases features.len(),
{
    if features.len() == 0 {
        Seq::empty()
    } else {
        let head = tile_runs(features.drop_last());
        let x = features.last();
        if head.len() > 0 && head.last().tile_id == x.tile_id {
            head.drop_last().push(
                TileGroup { tile_id: x.tile_id, features: head.last().features.push(x) },
            )
        } else {
            head.push(TileGroup { tile_id: x.tile_id, features: seq![x] })
        }
    }
}

/// What a list of groups holds.
pub open spec fn groups_view(groups: Seq<(u64, Vec<SerializedSlicedFeature>)>) -> Seq<TileGroup> {
    Seq::new(groups.len(), |i: int| TileGroup { tile_id: groups[i].0, features: groups[i].1@ })
}

/// `itertools::Itertools::group_by` keyed by the tile id, each group
/// collected: the runs of consecutive features of the same tile, in order,
/// each with its tile id.
#[verifier::external_body]
pub(crate) fn group_runs(features: Vec<SerializedSlicedFeature>) -> (groups: Vec<
    (u64, Vec<SerializedSlicedFeature>),
>)
    ensures
        groups_view(groups@) == tile_runs(features@),
{
    let grouped = features.into_iter().group_by(|ser_feat| ser_feat.tile_id);
    let mut groups = Vec::new();
    for (tile_id, ser_feats) in &grouped {
        groups.push((tile_id, ser_feats.collect()));
    }
    groups
}

/// The features of all groups laid end to end.
pub open spec fn ungrouped(groups: Seq<TileGroup>) -> Seq<SerializedSlicedFeature>
    decreases groups.len(),
{
    if groups.len() == 0 {
        Seq::empty()
    } else {
        ungrouped(groups.drop_last()) + groups.last().features
    }
}

/// The tile ids never decrease along the sequence.
pub open spec fn sorted_by_tile(features: Seq<SerializedSlicedFeature>) -> bool {
    forall|i: int, j: int|
        0 <= i <= j < features.len() ==> (#[trigger] features[i]).tile_id <= (
        #[trigger] features[j]).tile_id
}

/// Whether the tile ids never decrease along the sequence.
pub fn is_sorted_by_tile(features: &Vec<SerializedSlicedFeature>) -> (b: bool)
    ensures
        b == sorted_by_tile(features@),
{
    if features.len() == 0 {
        return true;
    }
    let mut i: usize = 1;
    while i < features.len()
        invariant
            1 <= i <= features@.len(),
            forall|a: int, b: int|
                0 <= a <= b < i ==> (#[trigger] features@[a]).tile_id <= (
                #[trigger] features@[b]).tile_id,
        decreases features@.len() - i,
    {
        if features[i - 1].tile_id > features[i].tile_id {
            return false;
        }
        assert forall|a: int, b: int| 0 <= a <= b < i + 1 implies (
        #[trigger] features@[a]).tile_id <= (#[trigger] features@[b]).tile_id by {
            if b == i && a < i {
                assert(features@[a].tile_id <= features@[i - 1].tile_id);
            }
        }
        i += 1;
    }
    true
}

/// Grouping loses and reorders nothing: the groups are not empty, each
/// holds features of its own tile only, neighbouring groups are of
/// different tiles, and the groups laid end to end are the features given.
pub proof fn lemma_tile_runs(features: Seq<SerializedSlicedFeature>)
    ensures
        ungrouped(tile_runs(features)) == features,
        forall|g: int|
            0 <= g < tile_runs(features).len() ==> (#[trigger] tile_runs(features)[g]).features.len()
                > 0,
        forall|g: int, k: int|
            0 <= g < tile_runs(features).len() && 0 <= k < tile_runs(features)[g].features.len()
                ==> (#[trigger] tile_runs(features)[g].features[k]).tile_id == tile_runs(
                features,
            )[g].tile_id,
        forall|g: int|
            0 <= g < tile_runs(features).len() - 1 ==> (#[trigger] tile_runs(features)[g]).tile_id
                != tile_runs(features)[g + 1].tile_id,
        features.len() > 0 ==> tile_runs(features).len() > 0 && tile_runs(
            features,
        ).last().tile_id == features.last().tile_id,
    decreases features.len(),
{
    if features.len() > 0 {
        let head = tile_runs(features.drop_last());
        let x = features.last();
        let all = tile_runs(features);
        lemma_tile_runs(features.drop_last());
        if head.len() > 0 && head.last().tile_id == x.tile_id {
            let merged = TileGroup { tile_id: x.tile_id, features: head.last().features.push(x) };
            assert(all.drop_last() =~= head.drop_last());
            assert(head =~= head.drop_last().push(head.last()));
            assert(ungrouped(head) == ungrouped(head.drop_last()) + head.last().features);
            assert(ungrouped(all) =~= features.drop_last().push(x));
            assert(features.drop_last().push(x) =~= features);
            assert forall|g: int, k: int|
                0 <= g < all.len() && 0 <= k < all[g].features.len() implies (
            #[trigger] all[g].features[k]).tile_id == all[g].tile_id by {
                if g < all.len() - 1 {
                    assert(all[g] == head[g]);
                } else if k < head.last().features.len() {
                    assert(all[g].features[k] == head[g].features[k]);
                }
            }
            assert forall|g: int| 0 <= g < all.len() - 1 implies (#[trigger] all[g]).tile_id
                != all[g + 1].tile_id by {
                assert(all[g] == head[g]);
                assert(all[g + 1].tile_id == head[g + 1].tile_id);
            }
            assert forall|g: int| 0 <= g < all.len() implies (#[trigger] all[g]).features.len()
                > 0 by {
                if g < all.len() - 1 {
                    assert(all[g] == head[g]);
                }
            }
        } else {
            assert(all.drop_last() =~= head);
            assert(ungrouped(all) =~= features.drop_last().push(x));
            assert(features.drop_last().push(x) =~= features);
            assert forall|g: int, k: int|
                0 <= g < all.len() && 0 <= k < all[g].features.len() implies (
            #[trigger] all[g].features[k]).tile_id == all[g].tile_id by {
                if g < all.len() - 1 {
                    assert(all[g] == head[g]);
                }
            }
            assert forall|g: int| 0 <= g < all.len() - 1 implies (#[trigger] all[g]).tile_id
                != all[g + 1].tile_id by {
                assert(all[g] == head[g]);
                if g + 1 < all.len() - 1 {
                    assert(all[g + 1] == head[g + 1]);
                }
            }
            assert forall|g: int| 0 <= g < all.len() implies (#[trigger] all[g]).features.len()
                > 0 by {
                if g < all.len() - 1 {
                    assert(all[g] == head[g]);
                }
            }
        }
    }
}

/// Of sorted features every tile gets one group: the tile ids of the
/// groups increase strictly.
pub proof fn lemma_sorted_runs(features: Seq<SerializedSlicedFeature>)
    requires
        sorted_by_tile(features),
    ensures
        forall|g: int, h: int|
            0 <= g < h < tile_runs(features).len() ==> (#[trigger] tile_runs(features)[g]).tile_id < (
            #[trigger] tile_runs(features)[h]).tile_id,
        forall|g: int|
            0 <= g < tile_runs(features).len() && features.len() > 0 ==> (#[trigger] tile_runs(
                features,
            )[g]).tile_id <= features.last().tile_id,
    decreases features.len(),
{
    if features.len() > 0 {
        let rest = features.drop_last();
        let head = tile_runs(rest);
        let x = features.last();
        let all = tile_runs(features);
        assert forall|i: int, j: int| 0 <= i <= j < rest.len() implies (#[trigger] rest[i]).tile_id
            <= (#[trigger] rest[j]).tile_id by {
            assert(rest[i] == features[i]);
            assert(rest[j] == features[j]);
        }
        lemma_sorted_runs(rest);
        lemma_tile_runs(rest);
        if rest.len() > 0 {
            assert(rest.last() == features[features.len() - 2]);
            assert(features[features.len() - 2].tile_id <= features[features.len() - 1].tile_id);
        }
        assert forall|g: int, h: int| 0 <= g < h < all.len() implies (#[trigger] all[g]).tile_id < (
        #[trigger] all[h]).tile_id by {
            if head.len() > 0 && head.last().tile_id == x.tile_id {
                assert(all[g] == head[g]);
                assert(all[h].tile_id == head[h].tile_id);
            } else {
                assert(all[g] == head[g]);
                if h < all.len() - 1 {
                    assert(all[h] == head[h]);
                } else {
                    assert(head[g].tile_id <= rest.last().tile_id);
                    assert(head[g].tile_id <= head.last().tile_id) by {
                        if g < head.len() - 1 {
                            assert(head[g].tile_id < head[head.len() - 1].tile_id);
                        }
                    }
                }
            }
        }
        assert forall|g: int| 0 <= g < all.len() implies (#[trigger] all[g]).tile_id
            <= x.tile_id by {
            if g < all.len() - 1 {
                assert(all[g] == head[g]);
            }
        }
    }
}

/// Groups sorted features by tile: one group for each tile that has
/// features, in the order of the tile ids, each with the features of its
/// tile in the order given. Features that are not sorted are given back.
pub fn group_sorted(features: Vec<SerializedSlicedFeature>) -> (r: Result<
    Vec<(u64, Vec<SerializedSlicedFeature>)>,
    Vec<SerializedSlicedFeature>,
>)
    ensures
        r is Ok == sorted_by_tile(features@),
        r matches Err(given) ==> given == features,
        r matches Ok(groups) ==> {
            &&& groups_view(groups@) == tile_runs(features@)
            &&& ungrouped(groups_view(groups@)) == features@
            &&& forall|g: int, h: int|
                0 <= g < h < groups@.len() ==> (#[trigger] groups@[g]).0 < (#[trigger] groups@[h]).0
        },
{
    if !is_sorted_by_tile(&features) {
        return Err(features);
    }
    let groups = group_runs(features);
    proof {
        lemma_tile_runs(features@);
        lemma_sorted_runs(features@);
        assert forall|g: int, h: int| 0 <= g < h < groups@.len() implies (#[trigger] groups@[g]).0 < (
        #[trigger] groups@[h]).0 by {
            assert(groups_view(groups@)[g].tile_id == groups@[g].0);
            assert(groups_view(groups@)[h].tile_id == groups@[h].0);
        }
    }
    Ok(groups)
}

/// The features of one tile form one run.
pub proof fn lemma_single_run(features: Seq<SerializedSlicedFeature>)
    requires
        features.len() > 0,
        forall|k: int|
            0 <= k < features.len() ==> (#[trigger] features[k]).tile_id == features[0].tile_id,
    ensures
        tile_runs(features).len() == 1,
        tile_runs(features)[0] == (TileGroup { tile_id: features[0].tile_id, features }),
    decreases features.len(),
{
    let rest = features.drop_last();
    let x = features.last();
    let head = tile_runs(rest);
    assert(features[features.len() - 1].tile_id == features[0].tile_id);
    if rest.len() > 0 {
        assert forall|k: int| 0 <= k < rest.len() implies (#[trigger] rest[k]).tile_id
            == rest[0].tile_id by {
            assert(rest[k] == features[k]);
            assert(rest[0] == features[0]);
        }
        lemma_single_run(rest);
        assert(rest[0] == features[0]);
        assert(rest.push(x) =~= features);
        assert(head.last() == head[0]);
        let merged = TileGroup { tile_id: x.tile_id, features: head.last().features.push(x) };
        assert(tile_runs(features) == head.drop_last().push(merged));
    } else {
        assert(seq![x] =~= features);
        assert(head.len() == 0);
        let single = TileGroup { tile_id: x.tile_id, features: seq![x] };
        assert(tile_runs(features) == head.push(single));
    }
}

/// Grouping can go on where it stopped: the runs of a sequence that is
/// continued are the runs of the sequence but the last, followed by the
/// runs of the features of that last run and the continuation.
pub proof fn lemma_tile_runs_continued(
    a: Seq<SerializedSlicedFeature>,
    b: Seq<SerializedSlicedFeature>,
)
    requires
        a.len() > 0,
    ensures
        tile_runs(a).len() > 0,
        tile_runs(a + b) == tile_runs(a).drop_last() + tile_runs(tile_runs(a).last().features + b),
    decreases b.len(),
{
    lemma_tile_runs(a);
    let runs = tile_runs(a);
    let open = runs.last().features;
    if b.len() == 0 {
        assert(a + b =~= a);
        assert(open + b =~= open);
        assert forall|k: int| 0 <= k < open.len() implies (#[trigger] open[k]).tile_id
            == open[0].tile_id by {
            assert(runs[runs.len() - 1].features[k].tile_id == runs[runs.len() - 1].tile_id);
            assert(runs[runs.len() - 1].features[0].tile_id == runs[runs.len() - 1].tile_id);
        }
        lemma_single_run(open);
        assert(runs[runs.len() - 1].features[0].tile_id == runs[runs.len() - 1].tile_id);
        assert(tile_runs(open)[0] == runs.last());
        assert(runs =~= runs.drop_last() + tile_runs(open));
    } else {
        let x = b.last();
        lemma_tile_runs_continued(a, b.drop_last());
        assert((a + b).drop_last() =~= a + b.drop_last());
        assert((open + b).drop_last() =~= open + b.drop_last());
        assert((a + b).last() == x);
        assert((open + b).last() == x);
        let tail = tile_runs(open + b.drop_last());
        lemma_tile_runs(open + b.drop_last());
        let head = runs.drop_last() + tail;
        assert(head.last() == tail.last());
        if tail.last().tile_id == x.tile_id {
            assert(head.drop_last() =~= runs.drop_last() + tail.drop_last());
            assert(tile_runs(a + b) =~= runs.drop_last() + tile_runs(open + b));
        } else {
            assert(tile_runs(a + b) =~= runs.drop_last() + tile_runs(open + b));
        }
    }
}

/// Groups a piece of a stream of sorted features. `carry` holds the
/// features of the tile that the stream was at when the piece before
/// ended, and `chunk` the piece that follows. The tiles that are complete
/// are returned as groups, and with them the features of the tile that the
/// stream is at now, which are the carry of the next piece. Features that
/// are not sorted are given back.
pub fn group_sorted_chunk(
    carry: Vec<SerializedSlicedFeature>,
    chunk: Vec<SerializedSlicedFeature>,
) -> (r: Result<
    (Vec<(u64, Vec<SerializedSlicedFeature>)>, Vec<SerializedSlicedFeature>),
    Vec<SerializedSlicedFeature>,
>)
    ensures
        r is Ok == sorted_by_tile(carry@ + chunk@),
        r matches Err(given) ==> given@ == carry@ + chunk@,
        r matches Ok(parts) ==> if carry@.len() + chunk@.len() == 0 {
            parts.0@.len() == 0 && parts.1@.len() == 0
        } else {
            &&& groups_view(parts.0@).push(
                TileGroup { tile_id: (carry@ + chunk@).last().tile_id, features: parts.1@ },
            ) == tile_runs(carry@ + chunk@)
            &&& forall|g: int, h: int|
                0 <= g < h < parts.0@.len() ==> (#[trigger] parts.0@[g]).0 < (
                #[trigger] parts.0@[h]).0
            &&& forall|g: int|
                0 <= g < parts.0@.len() ==> (#[trigger] parts.0@[g]).0 < (carry@
                    + chunk@).last().tile_id
        },
{
    let mut all = carry;
    let mut chunk = chunk;
    all.append(&mut chunk);
    let ghost given = all@;
    match group_sorted(all) {
        Err(features) => Err(features),
        Ok(groups) => {
            let mut groups = groups;
            let ghost runs = groups_view(groups@);
            let ghost before = groups@;
            proof {
                lemma_tile_runs(given);
            }
            match groups.pop() {
                Some(last) => {
                    proof {
                        assert(runs[runs.len() - 1].tile_id == last.0);
                        assert(groups_view(groups@).push(
                            TileGroup { tile_id: last.0, features: last.1@ },
                        ) =~= runs);
                        assert forall|g: int| 0 <= g < groups@.len() implies (
                        #[trigger] groups@[g]).0 < last.0 by {
                            assert(groups@[g] == before[g]);
                            assert(before[g].0 < before[before.len() - 1].0);
                        }
                    }
                    Ok((groups, last.1))
                },
                None => Ok((groups, Vec::new())),
            }
        },
    }
}

} // verus!
