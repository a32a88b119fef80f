//! What the command line is read with: options of the form `key=value`,
//! and the choice of a sink by its id.

use vstd::prelude::*;
use vstd::string::{StrSliceExecFns, StringExecFns};
use crate::sink::cesiumtiles::CesiumTilesSinkProvider;
use crate::sink::geojson::GeoJsonSinkProvider;
use crate::sink::gpkg::GpkgSinkProvider;
use crate::sink::info::SinkInfo;
use crate::sink::ply::StanfordPlySinkProvider;
use crate::text::str_eq;

verus! {

/// The place of the first `=` in `s`, if there is one.
pub open spec fn first_equals(s: Seq<char>) -> Option<int> {
    if exists|i: int| 0 <= i < s.len() && s[i] == '=' {
        Some(
            choose|i: int|
                0 <= i < s.len() && s[i] == '=' && forall|j: int| 0 <= j < i ==> s[j] != '=',
        )
    } else {
        None
    }
}

/// Where `=` occurs, there is a first place at which it does.
proof fn lemma_first_equals(s: Seq<char>, at: int)
    requires
        0 <= at < s.len(),
        s[at] == '=',
        forall|j: int| 0 <= j < at ==> s[j] != '=',
    ensures
        first_equals(s) == Some(at),
{
    let k = choose|i: int|
        0 <= i < s.len() && s[i] == '=' && forall|j: int| 0 <= j < i ==> s[j] != '=';
    if k < at {
        assert(s[k] != '=');
    }
    if at < k {
        assert(s[at] != '=');
    }
}

/// Splits an option of the form `key=value` at its first `=`: the key is
/// what stands before it and the value is what stands after it. An option
/// without `=` is an error, whose message quotes the option.
pub fn parse_key_val(s: &str) -> (r: Result<(String, String), String>)
    ensures
        r is Ok == first_equals(s@) is Some,
        r matches Ok(kv) ==> {
            let pos = first_equals(s@)->Some_0;
            kv.0@ == s@.subrange(0, pos) && kv.1@ == s@.subrange(pos + 1, s@.len() as int)
        },
        r matches Err(msg) ==> msg@ == "invalid KEY=value: no `=` found in `"@ + s@ + "`"@,
{
    let n = s.unicode_len();
    let mut pos: usize = 0;
    while pos < n
        invariant
            pos <= n,
            n == s@.len(),
            forall|j: int| 0 <= j < pos ==> s@[j] != '=',
        decreases n - pos,
    {
        if s.get_char(pos) == '=' {
            proof {
                lemma_first_equals(s@, pos as int);
            }
            let key = s.substring_char(0, pos);
            let value = s.substring_char(pos + 1, n);
            return Ok((key.to_owned(), value.to_owned()));
        }
        pos += 1;
    }
    let mut msg = "invalid KEY=value: no `=` found in `".to_owned();
    msg.append(s);
    msg.append("`");
    Err(msg)
}

/// A sink that is built in.
#[derive(Debug, Clone, Copy, PartialEq, Eq, Structural)]
pub enum SinkKind {
    CesiumTiles,
    Gpkg,
    GeoJson,
    StanfordPly,
}

/// The number of built-in sinks.
pub const BUILTIN_SINK_COUNT: usize = 4;

/// The built-in sinks, in the order in which they are offered.
pub open spec fn spec_builtin_sink(index: int) -> SinkKind {
    if index == 0 {
        SinkKind::CesiumTiles
    } else if index == 1 {
        SinkKind::Gpkg
    } else if index == 2 {
        SinkKind::GeoJson
    } else {
        SinkKind::StanfordPly
    }
}

/// The `index`-th built-in sink.
pub fn builtin_sink(index: usize) -> (kind: SinkKind)
    requires
        index < BUILTIN_SINK_COUNT,
    ensures
        kind == spec_builtin_sink(index as int),
{
    if index == 0 {
        SinkKind::CesiumTiles
    } else if index == 1 {
        SinkKind::Gpkg
    } else if index == 2 {
        SinkKind::GeoJson
    } else {
        SinkKind::StanfordPly
    }
}

impl SinkKind {
    /// The id by which the sink is chosen.
    pub open spec fn spec_id_name(&self) -> Seq<char> {
        match self {
            SinkKind::CesiumTiles => "3dtiles"@,
            SinkKind::Gpkg => "gpkg"@,
            SinkKind::GeoJson => "geojson"@,
            SinkKind::StanfordPly => "ply"@,
        }
    }

    /// The name of the sink for readers.
    pub open spec fn spec_name(&self) -> Seq<char> {
        match self {
            SinkKind::CesiumTiles => "3D Tiles"@,
            SinkKind::Gpkg => "GeoPackage"@,
            SinkKind::GeoJson => "GeoJSON"@,
            SinkKind::StanfordPly => "Stanford PLY"@,
        }
    }

    /// What the provider of the sink tells of it.
    pub fn info(&self) -> (info: SinkInfo)
        ensures
            info.id_name@ == self.spec_id_name(),
            info.name@ == self.spec_name(),
    {
        match self {
            SinkKind::CesiumTiles => (CesiumTilesSinkProvider {}).info(),
            SinkKind::Gpkg => (GpkgSinkProvider {}).info(),
            SinkKind::GeoJson => (GeoJsonSinkProvider {}).info(),
            SinkKind::StanfordPly => (StanfordPlySinkProvider {}).info(),
        }
    }
}

/// The choice of a sink by its id.
#[derive(Debug, Clone)]
pub struct SinkChoice(pub String);

/// Whether some built-in sink has the id `id`.
pub open spec fn is_builtin(id: Seq<char>) -> bool {
    exists|k: int| 0 <= k < BUILTIN_SINK_COUNT && (#[trigger] spec_builtin_sink(k)).spec_id_name()
        == id
}

impl SinkChoice {
    /// The choices that there are: one for each built-in sink, in order.
    pub fn value_variants() -> (choices: Vec<SinkChoice>)
        ensures
            choices@.len() == BUILTIN_SINK_COUNT,
            forall|k: int|
                0 <= k < BUILTIN_SINK_COUNT ==> (#[trigger] choices@[k]).0@ == spec_builtin_sink(
                    k,
                ).spec_id_name(),
    {
        let mut choices: Vec<SinkChoice> = Vec::new();
        let mut k: usize = 0;
        while k < BUILTIN_SINK_COUNT
            invariant
                k <= BUILTIN_SINK_COUNT,
                choices@.len() == k,
                forall|j: int|
                    0 <= j < k ==> (#[trigger] choices@[j]).0@ == spec_builtin_sink(
                        j,
                    ).spec_id_name(),
            decreases BUILTIN_SINK_COUNT - k,
        {
            choices.push(SinkChoice(builtin_sink(k).info().id_name));
            k += 1;
        }
        choices
    }

    /// The first built-in sink that has the id chosen, if one has.
    pub fn find_sink(&self) -> (kind: Option<SinkKind>)
        ensures
            kind is Some == is_builtin(self.0@),
            kind matches Some(s) ==> s.spec_id_name() == self.0@,
    {
        let mut k: usize = 0;
        while k < BUILTIN_SINK_COUNT
            invariant
                k <= BUILTIN_SINK_COUNT,
                forall|j: int|
                    0 <= j < k ==> (#[trigger] spec_builtin_sink(j)).spec_id_name() != self.0@,
            decreases BUILTIN_SINK_COUNT - k,
        {
            let kind = builtin_sink(k);
            if str_eq(kind.info().id_name.as_str(), self.0.as_str()) {
                return Some(kind);
            }
            k += 1;
        }
        None
    }

    /// The id and the help text under which the choice is offered; `None`
    /// for a choice that names no built-in sink.
    pub fn to_possible_value(&self) -> (r: Option<(String, String)>)
        ensures
            r is Some == is_builtin(self.0@),
            r matches Some(v) ==> v.0@ == self.0@ && exists|k: int|
                0 <= k < BUILTIN_SINK_COUNT && (#[trigger] spec_builtin_sink(k)).spec_id_name()
                    == self.0@ && v.1@ == spec_builtin_sink(k).spec_name(),
    {
        match self.find_sink() {
            Some(kind) => {
                let info = kind.info();
                assert(kind == spec_builtin_sink(0) || kind == spec_builtin_sink(1) || kind
                    == spec_builtin_sink(2) || kind == spec_builtin_sink(3));
                Some((info.id_name, info.name))
            },
            None => None,
        }
    }

    /// The sink that was chosen. The choice must name a built-in sink.
    pub fn create_sink(&self) -> (kind: SinkKind)
        requires
            is_builtin(self.0@),
        ensures
            kind.spec_id_name() == self.0@,
    {
        match self.find_sink() {
            Some(kind) => kind,
            None => vstd::pervasive::unreached(),
        }
    }
}

/// The exit code of a run that ended well.
pub const EXIT_SUCCESS: i32 = 0;

/// The exit code of a run that failed: options that are not valid, or a
/// fatal error of the pipeline.
pub const EXIT_FAILURE: i32 = 1;

/// The exit code of a run that was interrupted and ended by cancellation.
pub const EXIT_INTERRUPTED: i32 = 130;

/// The exit code of a run: a failure counts before an interruption, and an
/// interruption before success.
pub fn exit_code(failed: bool, canceled: bool) -> (code: i32)
    ensures
        code == (if failed {
            EXIT_FAILURE
        } else if canceled {
            EXIT_INTERRUPTED
        } else {
            EXIT_SUCCESS
        }),
{
    if failed {
        EXIT_FAILURE
    } else if canceled {
        EXIT_INTERRUPTED
    } else {
        EXIT_SUCCESS
    }
}

} // verus!
