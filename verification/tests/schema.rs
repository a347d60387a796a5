use famdo::cli::{Cli, Commands, ValidateArgs};
use famdo::json::parse_json;
use famdo::schema::{
    assemble_cache, parse_failure_message, parse_schema, read_download, SchemaCache, SchemaType,
    SchemaVersion, SCHEMA_BASE_URL,
};
use famdo::validate::{all_valid, record_check, validate_document, SchemaCheck, SectionReport};

const ALL_TYPES: [SchemaType; 6] = [
    SchemaType::General,
    SchemaType::Customer,
    SchemaType::Tool,
    SchemaType::Method,
    SchemaType::DataEvaluation,
    SchemaType::History,
];

fn json(text: &str) -> serde_json::Value {
    parse_json(text).unwrap()
}

fn cache(general: &str, method: &str) -> SchemaCache {
    SchemaCache {
        general: json(general),
        customer: json("1"),
        tool: json("2"),
        method: json(method),
        data_evaluation: json("4"),
        history: json("5"),
    }
}

#[test]
fn url_for_each_version() {
    assert_eq!(
        SchemaVersion::V2.url_for(SchemaType::General),
        "https://raw.githubusercontent.com/Failure-Analysis-Metadata-Header/fa-metadata-schema/refs/heads/schema-v2/schema/v2/generalSection.json"
    );
    assert_eq!(
        SchemaVersion::V1.url_for(SchemaType::History),
        "https://raw.githubusercontent.com/Failure-Analysis-Metadata-Header/fa-metadata-schema/refs/heads/master/schema/v1/historySection.json"
    );
    for version in [SchemaVersion::V1, SchemaVersion::V2] {
        for t in ALL_TYPES {
            assert_eq!(
                version.url_for(t),
                format!(
                    "{}/{}/schema/{}/{}",
                    SCHEMA_BASE_URL,
                    version.branch(),
                    version.folder(),
                    t.file_name()
                )
            );
        }
    }
}

#[test]
fn names_of_versions_and_sections() {
    assert_eq!(SchemaVersion::V1.branch(), "master");
    assert_eq!(SchemaVersion::V2.branch(), "schema-v2");
    assert_eq!(SchemaVersion::V1.folder(), "v1");
    assert_eq!(SchemaVersion::V2.folder(), "v2");
    assert_eq!(SchemaVersion::V1.cache_dir_name(), "v1");
    assert_eq!(SchemaVersion::V2.cache_dir_name(), "v2");
    let files: Vec<&str> = ALL_TYPES.iter().map(|t| t.file_name()).collect();
    assert_eq!(
        files,
        vec![
            "generalSection.json",
            "customerSection.json",
            "toolSpecific.json",
            "methodSpecific.json",
            "dataEvaluation.json",
            "historySection.json",
        ]
    );
    let labels: Vec<&str> = ALL_TYPES.iter().map(|t| t.label()).collect();
    assert_eq!(labels, vec!["general", "customer", "tool", "method", "data evaluation", "history"]);
}

#[test]
fn cache_gives_the_document_of_each_section() {
    let c = SchemaCache {
        general: json("\"g\""),
        customer: json("\"c\""),
        tool: json("\"t\""),
        method: json("\"m\""),
        data_evaluation: json("\"d\""),
        history: json("\"h\""),
    };
    let got: Vec<&str> = ALL_TYPES.iter().map(|t| c.get(*t).as_str().unwrap()).collect();
    assert_eq!(got, vec!["g", "c", "t", "m", "d", "h"]);
}

#[test]
fn test_load_json_valid_file() {
    let test_json = r#"{"name": "test", "value": 42}"#;

    let result = parse_json(test_json);
    assert!(result.is_ok());

    let json = result.unwrap();
    assert_eq!(json["name"], "test");
    assert_eq!(json["value"], 42);
}

#[test]
fn test_load_json_invalid_json() {
    let result = parse_json("not valid json");
    assert!(result.is_err());
}

#[test]
fn parse_json_reads_what_serde_reads() {
    for text in ["null", "true", "[1, 2.5, \"x\"]", "{\"a\": {\"b\": []}}", " 7 ", "\"\""] {
        assert_eq!(
            parse_json(text).ok(),
            serde_json::from_str::<serde_json::Value>(text).ok(),
            "{:?}",
            text
        );
        assert!(parse_json(text).is_ok());
    }
    for text in ["", "{", "[1,]", "{\"a\" 1}", "nul", "1 2", "'x'"] {
        let err = parse_json(text).unwrap_err();
        assert_eq!(
            err,
            serde_json::from_str::<serde_json::Value>(text).unwrap_err().to_string(),
            "{:?}",
            text
        );
    }
}

#[test]
fn parse_json_keeps_the_order_of_members() {
    let v = parse_json(r#"{"z": 1, "a": 2, "m": 3}"#).unwrap();
    let keys: Vec<&str> = v.as_object().unwrap().keys().map(|k| k.as_str()).collect();
    assert_eq!(keys, vec!["z", "a", "m"]);
}

#[test]
fn parse_schema_reads_json() {
    let schema = parse_schema(SchemaType::General, r#"{"type": "object"}"#, SchemaVersion::V2);
    assert_eq!(schema.unwrap()["type"], "object");
}

#[test]
fn parse_schema_failure_names_section_and_address() {
    let err = parse_schema(SchemaType::DataEvaluation, "{", SchemaVersion::V1).unwrap_err();
    let detail = serde_json::from_str::<serde_json::Value>("{").unwrap_err().to_string();
    assert_eq!(
        err,
        format!(
            "Failed to parse data evaluation schema downloaded from {}: {}",
            "https://raw.githubusercontent.com/Failure-Analysis-Metadata-Header/fa-metadata-schema/refs/heads/master/schema/v1/dataEvaluation.json",
            detail
        )
    );
    assert_eq!(
        parse_failure_message(SchemaType::Tool, SchemaVersion::V2, "why"),
        format!(
            "Failed to parse tool schema downloaded from {}: why",
            SchemaVersion::V2.url_for(SchemaType::Tool)
        )
    );
}

#[test]
fn valid_document() {
    let c = cache(
        r#"{"type": "object", "required": ["generalSection"]}"#,
        r#"{"type": "object"}"#,
    );
    let reports = validate_document(&c, &json(r#"{"generalSection": {}}"#)).ok().unwrap();
    assert_eq!(reports.len(), 2);
    assert_eq!(reports[0].schema_type, SchemaType::General);
    assert_eq!(reports[0].error, None);
    assert_eq!(reports[1].schema_type, SchemaType::Method);
    assert_eq!(reports[1].error, None);
    assert!(all_valid(&reports));
}

#[test]
fn invalid_document_is_reported_and_the_run_goes_on() {
    let c = cache(
        r#"{"type": "object", "required": ["generalSection"]}"#,
        r#"{"type": "object", "required": ["methodSpecific"]}"#,
    );
    let reports = validate_document(&c, &json(r#"{"methodSpecific": 1}"#)).ok().unwrap();
    assert_eq!(reports.len(), 2);
    assert_eq!(reports[0].schema_type, SchemaType::General);
    assert!(reports[0].error.as_ref().unwrap().contains("generalSection"));
    assert_eq!(reports[1].schema_type, SchemaType::Method);
    assert_eq!(reports[1].error, None);
    assert!(!all_valid(&reports));

    let reports = validate_document(&c, &json("[]")).ok().unwrap();
    assert!(reports[0].error.is_some());
    assert!(reports[1].error.is_some());
    assert!(!all_valid(&reports));
}

#[test]
fn only_general_and_method_are_checked() {
    let c = SchemaCache {
        general: json("true"),
        customer: json("false"),
        tool: json("false"),
        method: json("true"),
        data_evaluation: json("false"),
        history: json("false"),
    };
    let reports = validate_document(&c, &json("{}")).ok().unwrap();
    assert!(all_valid(&reports));
}

#[test]
fn unusable_schema_ends_the_run() {
    let c = cache(r#"{"type": 12}"#, r#"{"type": "object"}"#);
    let failure = validate_document(&c, &json("{}")).err().unwrap();
    assert_eq!(failure.schema_type, SchemaType::General);
    assert!(!failure.message.is_empty());
    assert!(failure.checked.is_empty());

    let c = cache(r#"{"type": "array"}"#, r#"{"minimum": "x"}"#);
    let failure = validate_document(&c, &json("{}")).err().unwrap();
    assert_eq!(failure.schema_type, SchemaType::Method);
    assert_eq!(failure.checked.len(), 1);
    assert_eq!(failure.checked[0].schema_type, SchemaType::General);
    assert!(failure.checked[0].error.is_some());
}

#[test]
fn record_check_for_each_outcome() {
    let r = record_check(SchemaType::Tool, SchemaCheck::Valid).ok().unwrap();
    assert_eq!(r.schema_type, SchemaType::Tool);
    assert_eq!(r.error, None);
    let r = record_check(SchemaType::Tool, SchemaCheck::Invalid("why".to_string())).ok().unwrap();
    assert_eq!(r.error, Some("why".to_string()));
    let e = record_check(SchemaType::Tool, SchemaCheck::BadSchema("bad".to_string())).err();
    assert_eq!(e, Some("bad".to_string()));
}

#[test]
fn all_valid_needs_every_report_clean() {
    let ok = |t| SectionReport { schema_type: t, error: None };
    let bad = |t| SectionReport { schema_type: t, error: Some("x".to_string()) };
    assert!(all_valid(&vec![]));
    assert!(all_valid(&vec![ok(SchemaType::General), ok(SchemaType::Method)]));
    assert!(!all_valid(&vec![bad(SchemaType::General), ok(SchemaType::Method)]));
    assert!(!all_valid(&vec![ok(SchemaType::General), bad(SchemaType::Method)]));
}

#[test]
fn validate_arguments_by_default() {
    let args = ValidateArgs::new("header.json".to_string());
    assert_eq!(args.path, "header.json");
    assert_eq!(args.version, SchemaVersion::V2);
    assert!(!args.no_cache);
    assert!(args.use_cache());
    let cli = Cli { command: Commands::Validate(ValidateArgs { no_cache: true, ..args }) };
    match cli.command {
        Commands::Validate(a) => assert!(!a.use_cache()),
        _ => unreachable!(),
    }
}

fn six(texts: [&str; 6]) -> Vec<Result<String, String>> {
    texts.iter().map(|t| Ok(t.to_string())).collect()
}

#[test]
fn assemble_cache_holds_each_document_in_its_place() {
    let cache = assemble_cache(
        SchemaVersion::V2,
        six(["\"g\"", "\"c\"", "\"t\"", "\"m\"", "\"d\"", "\"h\""]),
    )
    .ok()
    .unwrap();
    let got: Vec<&str> = ALL_TYPES.iter().map(|t| cache.get(*t).as_str().unwrap()).collect();
    assert_eq!(got, vec!["g", "c", "t", "m", "d", "h"]);
}

#[test]
fn assemble_cache_fails_with_the_first_failure() {
    let mut downloads = six(["1", "2", "{", "4", "[", "6"]);
    downloads[3] = Err("no method".to_string());
    let detail = serde_json::from_str::<serde_json::Value>("{").unwrap_err().to_string();
    assert_eq!(
        assemble_cache(SchemaVersion::V1, downloads).err(),
        Some(parse_failure_message(SchemaType::Tool, SchemaVersion::V1, &detail))
    );

    let mut downloads = six(["1", "2", "3", "4", "[", "6"]);
    downloads[1] = Err("no customer".to_string());
    assert_eq!(
        assemble_cache(SchemaVersion::V1, downloads).err(),
        Some("no customer".to_string())
    );

    let mut downloads = six(["1", "2", "3", "4", "5", "6"]);
    downloads[5] = Err("no history".to_string());
    assert_eq!(assemble_cache(SchemaVersion::V2, downloads).err(), Some("no history".to_string()));
}

#[test]
fn read_download_for_each_outcome() {
    let ok = read_download(SchemaType::General, SchemaVersion::V2, &Ok("{\"a\": 1}".to_string()));
    assert_eq!(ok.unwrap()["a"], 1);
    let failed = read_download(SchemaType::General, SchemaVersion::V2, &Err("why".to_string()));
    assert_eq!(failed, Err("why".to_string()));
    let broken = read_download(SchemaType::General, SchemaVersion::V2, &Ok("nope".to_string()));
    assert!(broken
        .unwrap_err()
        .starts_with("Failed to parse general schema downloaded from https://"));
}

#[test]
fn the_other_four_schemas_do_not_matter() {
    let document = json(r#"{"generalSection": {}}"#);
    let general = r#"{"type": "object", "required": ["generalSection"]}"#;
    let method = r#"{"type": "object", "required": ["methodSpecific"]}"#;
    let one = SchemaCache {
        general: json(general),
        customer: json("false"),
        tool: json("{\"type\": 12}"),
        method: json(method),
        data_evaluation: json("false"),
        history: json("false"),
    };
    let other = SchemaCache {
        general: json(general),
        customer: json("true"),
        tool: json("true"),
        method: json(method),
        data_evaluation: json("true"),
        history: json("true"),
    };
    let a = validate_document(&one, &document).ok().unwrap();
    let b = validate_document(&other, &document).ok().unwrap();
    assert_eq!(a.len(), 2);
    assert_eq!(a[0].error, b[0].error);
    assert_eq!(a[1].error.is_some(), b[1].error.is_some());
    assert_eq!(a[0].error, None);
    assert!(a[1].error.is_some());
    assert_eq!(all_valid(&a), all_valid(&b));
}
