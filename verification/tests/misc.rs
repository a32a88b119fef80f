use nusamai::cli::{
    exit_code, parse_key_val, SinkChoice, SinkKind, EXIT_FAILURE, EXIT_INTERRUPTED, EXIT_SUCCESS,
};
use nusamai::codelist::{labelled, CodeResolver, NoopResolver};
use nusamai::models::{element_path, find_kind, TopLevelCityObject};
use nusamai::object::{Code, Object, ObjectStereotype};
use nusamai::parameters::{
    FileSystemPathParameter, ParameterEntry, ParameterError, ParameterType, Parameters,
};
use nusamai::pipeline::{
    ensure_not_canceled, is_fatal, ParseError, PipelineError, SOURCE_OUTPUT_CHANNEL_BOUND,
    TRANSFORMER_OUTPUT_CHANNEL_BOUND,
};

#[test]
fn options_are_split_at_the_first_equals_sign() {
    assert_eq!(parse_key_val("key=value"), Ok(("key".to_string(), "value".to_string())));
    assert_eq!(parse_key_val("a=b=c"), Ok(("a".to_string(), "b=c".to_string())));
    assert_eq!(parse_key_val("=x"), Ok(("".to_string(), "x".to_string())));
    assert_eq!(parse_key_val("x="), Ok(("x".to_string(), "".to_string())));
    assert_eq!(parse_key_val("="), Ok(("".to_string(), "".to_string())));
    assert_eq!(
        parse_key_val("出力=東京都"),
        Ok(("出力".to_string(), "東京都".to_string()))
    );
    assert_eq!(
        parse_key_val("novalue"),
        Err("invalid KEY=value: no `=` found in `novalue`".to_string())
    );
    assert_eq!(
        parse_key_val(""),
        Err("invalid KEY=value: no `=` found in ``".to_string())
    );
}

#[test]
fn sinks_are_chosen_by_their_id() {
    let ids: Vec<String> = SinkChoice::value_variants().into_iter().map(|c| c.0).collect();
    assert_eq!(ids, vec!["3dtiles", "gpkg", "geojson", "ply"]);
    assert_eq!(SinkChoice("ply".to_string()).find_sink(), Some(SinkKind::StanfordPly));
    assert_eq!(SinkChoice("gpkg".to_string()).create_sink(), SinkKind::Gpkg);
    assert_eq!(SinkChoice("geojson".to_string()).create_sink(), SinkKind::GeoJson);
    assert_eq!(SinkChoice("noop".to_string()).find_sink(), None);
    assert_eq!(SinkChoice("PLY".to_string()).find_sink(), None);
    assert_eq!(
        SinkChoice("ply".to_string()).to_possible_value(),
        Some(("ply".to_string(), "Stanford PLY".to_string()))
    );
    assert_eq!(SinkChoice("".to_string()).to_possible_value(), None);
    assert_eq!(SinkKind::Gpkg.info().name, "GeoPackage");
}

#[test]
fn noop_resolver_knows_no_label() {
    let resolver = NoopResolver {};
    let label = resolver.resolve("file:///city.gml", "../../codelists/Building_usage.xml", "411");
    assert!(matches!(label, Ok(None)));
}

fn some_object(typename: &str) -> Object {
    Object {
        typename: typename.to_string(),
        attributes: vec![],
        stereotype: ObjectStereotype::Feature { id: "x".to_string(), geometries: vec![] },
    }
}

#[test]
fn top_level_city_objects_are_read_from_their_elements() {
    assert_eq!(element_path(0), "bldg:Building");
    assert_eq!(element_path(3), "tran:Track");
    assert_eq!(element_path(18), "urf:SedimentDisasterProneArea");
    assert_eq!(find_kind("tran:Track"), Some(3));
    assert_eq!(find_kind("grp:CityObjectGroup"), Some(15));
    assert_eq!(find_kind("gml:boundedBy"), None);

    let track = TopLevelCityObject::from_element("tran:Track", some_object("tran:Track"));
    assert!(matches!(&track, Ok(TopLevelCityObject::Track(obj)) if obj.typename == "tran:Track"));
    let building = TopLevelCityObject::from_element("bldg:Building", some_object("b")).unwrap();
    assert!(matches!(building, TopLevelCityObject::Building(_)));
    assert_eq!(building.into_object().unwrap().typename, "b");
    let unknown = TopLevelCityObject::from_element("app:Appearance", some_object("a"));
    assert!(matches!(unknown, Err(ParseError::SchemaViolation(path)) if path == "app:Appearance"));
    assert!(matches!(TopLevelCityObject::default(), TopLevelCityObject::Unknown));
    assert!(TopLevelCityObject::Unknown.into_object().is_none());
    for k in 0..19 {
        let path = element_path(k);
        assert_eq!(find_kind(path), Some(k));
        assert!(TopLevelCityObject::from_element(path, some_object(path)).is_ok());
    }
}

#[test]
fn stages_end_on_cancellation_without_a_fatal_error() {
    assert!(ensure_not_canceled(false).is_ok());
    assert!(matches!(ensure_not_canceled(true), Err(PipelineError::Canceled)));
    assert!(!is_fatal(&Ok(())));
    assert!(!is_fatal(&Err(PipelineError::Canceled)));
    assert!(is_fatal(&Err(PipelineError::Other("boom".to_string()))));
    assert!(is_fatal(&Err(PipelineError::IoError("disk full".to_string()))));
    assert!(is_fatal(&Err(PipelineError::ParseError(ParseError::Xml("<".to_string())))));
    assert!(is_fatal(&Err(PipelineError::UnsupportedCrs { input: 1, output: 2 })));
    assert!(PipelineError::Canceled.is_canceled());
    assert!(!PipelineError::Other(String::new()).is_canceled());
    assert_eq!(SOURCE_OUTPUT_CHANNEL_BOUND, 10000);
    assert_eq!(TRANSFORMER_OUTPUT_CHANNEL_BOUND, 10000);
}

fn entry(required: bool, parameter: ParameterType) -> ParameterEntry {
    ParameterEntry { description: String::new(), required, parameter }
}

fn sample_parameters() -> Parameters {
    let mut params = Parameters::new();
    params.define("name".to_string(), entry(true, ParameterType::String(None)));
    params.define("zoom".to_string(), entry(false, ParameterType::Integer(None)));
    params.define("scale".to_string(), entry(false, ParameterType::Double(None)));
    params.define("compress".to_string(), entry(false, ParameterType::Boolean(Some(false))));
    params.define(
        "input".to_string(),
        entry(
            false,
            ParameterType::FileSystemPath(FileSystemPathParameter {
                value: None,
                must_exist: true,
            }),
        ),
    );
    params.define(
        "format".to_string(),
        entry(
            true,
            ParameterType::Enum {
                choices: vec!["png".to_string(), "webp".to_string()],
                value: None,
            },
        ),
    );
    params
}

#[test]
fn parameters_take_values_of_their_type() {
    let mut params = sample_parameters();
    assert!(params.update_value_with_str("name", "tokyo").is_ok());
    assert!(params.update_value_with_str("zoom", "-12").is_ok());
    assert!(params.update_value_with_str("compress", "true").is_ok());
    assert!(params.update_value_with_str("input", "/data/in.gml").is_ok());
    assert!(params.update_value_with_str("format", "webp").is_ok());
    assert!(params.set_double("scale", 1.5f64.to_bits()).is_ok());

    let names: Vec<&str> = params.entries.iter().map(|(k, _)| k.as_str()).collect();
    assert_eq!(names, vec!["name", "zoom", "scale", "compress", "input", "format"]);
    assert!(matches!(&params.entries[0].1.parameter, ParameterType::String(Some(s)) if s == "tokyo"));
    assert!(params.entries[0].1.required);
    assert!(matches!(params.entries[1].1.parameter, ParameterType::Integer(Some(-12))));
    assert!(matches!(
        params.entries[2].1.parameter,
        ParameterType::Double(Some(b)) if b == 1.5f64.to_bits()
    ));
    assert!(matches!(params.entries[3].1.parameter, ParameterType::Boolean(Some(true))));
    assert!(matches!(
        &params.entries[4].1.parameter,
        ParameterType::FileSystemPath(p) if p.must_exist && p.value.as_deref() == Some("/data/in.gml")
    ));
    assert!(matches!(
        &params.entries[5].1.parameter,
        ParameterType::Enum { choices, value: Some(v) } if choices.len() == 2 && v == "webp"
    ));
    assert_eq!(params.path_value("input").map(|s| s.as_str()), Some("/data/in.gml"));
    assert_eq!(params.path_value("name"), None);
    assert_eq!(params.path_value("nothing"), None);
    assert!(params.validate().is_ok());
}

#[test]
fn parameters_refuse_what_is_no_value_of_their_type() {
    let mut params = sample_parameters();
    assert!(matches!(
        params.update_value_with_str("nothing", "1"),
        Err(ParameterError::Unknown(k)) if k == "nothing"
    ));
    assert!(matches!(
        params.update_value_with_str("zoom", "twelve"),
        Err(ParameterError::InvalidValue(k)) if k == "zoom"
    ));
    assert!(matches!(
        params.update_value_with_str("zoom", "99999999999999999999"),
        Err(ParameterError::InvalidValue(_))
    ));
    assert!(matches!(
        params.update_value_with_str("compress", "yes"),
        Err(ParameterError::InvalidValue(k)) if k == "compress"
    ));
    assert!(matches!(
        params.update_value_with_str("format", "gif"),
        Err(ParameterError::InvalidValue(k)) if k == "format"
    ));
    assert!(matches!(
        params.update_value_with_str("scale", "1.5"),
        Err(ParameterError::DoubleAsText(k)) if k == "scale"
    ));
    assert!(matches!(params.set_double("zoom", 0), Err(ParameterError::InvalidValue(_))));
    assert!(matches!(params.set_double("nothing", 0), Err(ParameterError::Unknown(_))));
    // nothing was taken
    assert!(matches!(params.entries[1].1.parameter, ParameterType::Integer(None)));
    assert!(matches!(params.entries[3].1.parameter, ParameterType::Boolean(Some(false))));

    // the first required option without a value is named
    assert!(matches!(params.validate(), Err(ParameterError::Missing(k)) if k == "name"));
    params.update_value_with_str("name", "x").unwrap();
    assert!(matches!(params.validate(), Err(ParameterError::Missing(k)) if k == "format"));
    params.update_value_with_str("format", "png").unwrap();
    assert!(params.validate().is_ok());
}

#[test]
fn parameters_defined_twice_keep_their_place() {
    let mut params = sample_parameters();
    params.define("zoom".to_string(), entry(true, ParameterType::String(None)));
    assert_eq!(params.entries.len(), 6);
    assert_eq!(params.entries[1].0, "zoom");
    assert!(matches!(params.entries[1].1.parameter, ParameterType::String(None)));
    assert_eq!(params.find("zoom"), Some(1));
    assert_eq!(params.find("format"), Some(5));
    assert_eq!(params.find("zooms"), None);
}

#[test]
fn an_integer_option_takes_the_number_that_its_text_reads_as() {
    let mut params = sample_parameters();
    assert!(params.update_value("zoom", "12", Some(12)).is_ok());
    assert!(matches!(params.entries[1].1.parameter, ParameterType::Integer(Some(12))));
    assert!(params.update_value("zoom", "-7", Some(-7)).is_ok());
    assert!(matches!(params.entries[1].1.parameter, ParameterType::Integer(Some(-7))));
    // text that reads as no number leaves the option as it was
    assert!(matches!(
        params.update_value("zoom", "seven", None),
        Err(ParameterError::InvalidValue(k)) if k == "zoom"
    ));
    assert!(matches!(params.entries[1].1.parameter, ParameterType::Integer(Some(-7))));
    // the number is not asked where the option is no integer
    assert!(params.update_value("name", "12", None).is_ok());
    assert!(matches!(&params.entries[0].1.parameter, ParameterType::String(Some(s)) if s == "12"));
    assert!(params.update_value("compress", "false", Some(0)).is_ok());
    assert!(matches!(params.entries[3].1.parameter, ParameterType::Boolean(Some(false))));
    assert!(matches!(
        params.update_value("nothing", "1", Some(1)),
        Err(ParameterError::Unknown(k)) if k == "nothing"
    ));
    // the text is read as a whole number by the function that asks for none
    assert!(params.update_value_with_str("zoom", "+15").is_ok());
    assert!(matches!(params.entries[1].1.parameter, ParameterType::Integer(Some(15))));
}

#[test]
fn a_label_takes_the_place_of_the_value_of_a_code() {
    let code = || Code { value: "1001".to_string(), code_space: "codes/usage.xml".to_string() };
    let shown = labelled(code(), Some("residential".to_string()));
    assert_eq!(shown.value, "residential");
    assert_eq!(shown.code_space, "codes/usage.xml");
    let shown = labelled(code(), None);
    assert_eq!(shown.value, "1001");
    assert_eq!(shown.code_space, "codes/usage.xml");
    // the resolver that knows nothing leaves every code as it is
    let label = NoopResolver {}.resolve("file:///city.gml", "codes/usage.xml", "1001").unwrap();
    assert_eq!(labelled(code(), label).value, "1001");
}

#[test]
fn a_run_ends_with_the_exit_code_of_its_outcome() {
    assert_eq!(exit_code(false, false), 0);
    assert_eq!(exit_code(true, false), 1);
    assert_eq!(exit_code(false, true), 130);
    assert_eq!(exit_code(true, true), 1);
    assert_eq!((EXIT_SUCCESS, EXIT_FAILURE, EXIT_INTERRUPTED), (0, 1, 130));
}
