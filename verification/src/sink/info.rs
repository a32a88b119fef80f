//! What every sink tells of itself, and the option that all of them take.

use vstd::prelude::*;
use crate::entries::{lemma_key_index, named, with_entry};
use crate::parameters::{
    FileSystemPathParameter, ParameterEntry, ParameterType, Parameters,
};

verus! {

/// The id and the name of a sink.
#[derive(Debug)]
pub struct SinkInfo {
    /// The id by which the sink is chosen
    pub id_name: String,
    /// The name of the sink for readers
    pub name: String,
}

/// The options of a sink that writes to one path: the required option
/// `@output`, a path that need not exist, without a value.
pub fn output_parameters() -> (params: Parameters)
    ensures
        params.entries@.len() == 1,
        params.entries@[0].0@ == "@output"@,
        params.entries@[0].1.description@ == "Output file path"@,
        params.entries@[0].1.required,
        params.entries@[0].1.parameter == ParameterType::FileSystemPath(
            FileSystemPathParameter { value: None, must_exist: false },
        ),
        params.spec_path_value("@output"@) is None,
        !params.spec_valid(),
{
    let mut params = Parameters::new();
    params.define(
        "@output".to_owned(),
        ParameterEntry {
            description: "Output file path".to_owned(),
            required: true,
            parameter: ParameterType::FileSystemPath(
                FileSystemPathParameter { value: None, must_exist: false },
            ),
        },
    );
    proof {
        let entries = named(params.entries@);
        assert(entries.len() == 1);
        assert(entries[0].0 == "@output"@);
        lemma_key_index(entries, "@output"@, 0);
        assert(params.entries@[0].1.required && !params.entries@[0].1.parameter.spec_has_value());
    }
    params
}

} // verus!
