use delta_sharing::endpoint::{
    all_tables_target, metadata_target, query_body, query_target, schemas_target, shares_target,
    table_target, tables_target, user_agent, user_agent_for, Endpoint,
};
use delta_sharing::error::SharingError;
use delta_sharing::json_map::JsonMap;
use delta_sharing::protocol::{
    File, Format, Metadata, Protocol, ProviderConfig, Schema, Share, Table, TableMetadata,
};
use delta_sharing::responses::{
    assemble_table_files, assemble_table_metadata, parse_decimal_i32, split_records,
    table_version, ResponseRecord,
};
use delta_sharing::store::{data_file_path_in, join_path, sidecar_path_in, table_dir_path};

fn table() -> Table {
    Table {
        name: "table_1".to_string(),
        share: "share_1".to_string(),
        schema: "schema_1".to_string(),
    }
}

fn metadata(schema_string: &str) -> Metadata {
    Metadata {
        id: "cf9c9342-b773-4c7b-a217-037d02ffe5d8".to_string(),
        name: None,
        description: None,
        format: Format { provider: "parquet".to_string(), options: None },
        schema_string: schema_string.to_string(),
        configuration: JsonMap::from_pairs(vec![(
            "conf_1_name".to_string(),
            "\"conf_1_value\"".to_string(),
        )]),
        partition_columns: vec![],
    }
}

fn file(id: &str) -> File {
    File {
        id: id.to_string(),
        url: "<url>".to_string(),
        partition_values: JsonMap::new(),
        size: 2350,
        stats: Some("{\"numRecords\":1}".to_string()),
    }
}

fn config(version: i32, endpoint: &str) -> ProviderConfig {
    ProviderConfig {
        share_credentials_version: version,
        endpoint: endpoint.to_string(),
        bearer_token: "token-123".to_string(),
    }
}

#[test]
fn qualified_name_joins_with_dots() {
    assert_eq!(table().fully_qualified_name(), "share_1.schema_1.table_1");
}

#[test]
fn json_map_later_pair_wins_and_order_is_ignored() {
    let a = JsonMap::from_pairs(vec![
        ("k".to_string(), "1".to_string()),
        ("j".to_string(), "2".to_string()),
        ("k".to_string(), "3".to_string()),
    ]);
    assert_eq!(a.entries().len(), 2);
    assert_eq!(a.get(&"k".to_string()), Some(&"3".to_string()));
    assert_eq!(a.get(&"x".to_string()), None);
    let b = JsonMap::from_pairs(vec![("j".to_string(), "2".to_string()), ("k".to_string(), "3".to_string())]);
    assert!(a.equals(&b));
    let c = JsonMap::from_pairs(vec![("j".to_string(), "2".to_string())]);
    assert!(!a.equals(&c));
    assert!(!c.equals(&a));
}

#[test]
fn manifest_equality_covers_every_metadata_field() {
    let base = || TableMetadata { protocol: Protocol { min_reader_version: 1 }, metadata: metadata("s") };
    assert!(base() == base());
    let mut other = base();
    other.metadata.schema_string = "t".to_string();
    assert!(base() != other);
    let mut other = base();
    other.protocol.min_reader_version = 2;
    assert!(base() != other);
    let mut other = base();
    other.metadata.partition_columns = vec!["date".to_string()];
    assert!(base() != other);
    let mut other = base();
    other.metadata.name = Some("n".to_string());
    assert!(base() != other);
    let mut other = base();
    other.metadata.format.options = Some(JsonMap::new());
    assert!(base() != other);
    let mut other = base();
    other.metadata.configuration = JsonMap::new();
    assert!(base() != other);
}

#[test]
fn records_are_the_non_blank_lines() {
    let body = b"{ \"protocol\": {} }\n           { \"metaData\": {} }\r\n\n   \n{ \"file\": 1 }\n";
    let lines = split_records(body);
    assert_eq!(lines.len(), 3);
    assert_eq!(lines[0], b"{ \"protocol\": {} }".to_vec());
    assert_eq!(lines[1], b"           { \"metaData\": {} }\r".to_vec());
    assert_eq!(lines[2], b"{ \"file\": 1 }".to_vec());
    assert!(split_records(b"").is_empty());
    assert!(split_records(b"\n \t\n").is_empty());
    assert_eq!(split_records(b"x").len(), 1);
}

#[test]
fn list_all_table_files() {
    let records = vec![
        ResponseRecord::Protocol(Protocol { min_reader_version: 1 }),
        ResponseRecord::Metadata(metadata("s")),
        ResponseRecord::File(file("1")),
        ResponseRecord::File(file("2")),
    ];
    let files = assemble_table_files(records).unwrap();
    assert_eq!(files.files.len(), 2, "File count mismatch");
    assert_eq!(files.files[1].id, "2", "File id mismatch");
    assert_eq!(files.metadata.protocol.min_reader_version, 1);
    assert_eq!(files.metadata.metadata.schema_string, "s");
}

#[test]
fn query_records_out_of_order_are_protocol_errors() {
    let out_of_order = vec![
        ResponseRecord::Metadata(metadata("s")),
        ResponseRecord::Protocol(Protocol { min_reader_version: 1 }),
    ];
    assert!(matches!(assemble_table_files(out_of_order), Err(SharingError::Protocol { .. })));
    let short = vec![ResponseRecord::Protocol(Protocol { min_reader_version: 1 })];
    assert!(matches!(assemble_table_files(short), Err(SharingError::Protocol { .. })));
    let trailing = vec![
        ResponseRecord::Protocol(Protocol { min_reader_version: 1 }),
        ResponseRecord::Metadata(metadata("s")),
        ResponseRecord::File(file("1")),
        ResponseRecord::Protocol(Protocol { min_reader_version: 1 }),
    ];
    assert!(matches!(assemble_table_files(trailing), Err(SharingError::Protocol { .. })));
    let no_files = vec![
        ResponseRecord::Protocol(Protocol { min_reader_version: 3 }),
        ResponseRecord::Metadata(metadata("s")),
    ];
    let t = assemble_table_files(no_files).unwrap();
    assert!(t.files.is_empty());
    assert_eq!(t.metadata.protocol.min_reader_version, 3);
}

#[test]
fn get_table_metadata() {
    let records = vec![
        ResponseRecord::Protocol(Protocol { min_reader_version: 1 }),
        ResponseRecord::Metadata(metadata("s")),
    ];
    let meta = assemble_table_metadata(records).unwrap();
    assert_eq!(meta.protocol.min_reader_version, 1, "Protocol mismatch");
    assert_eq!(meta.metadata.id, "cf9c9342-b773-4c7b-a217-037d02ffe5d8", "Metadata ID mismatch");
    assert_eq!(meta.metadata.format.provider, "parquet", "Metadata format provider mismatch");
    assert_eq!(meta.metadata.name, None, "Metadata name value should be missing");
    assert_eq!(meta.metadata.partition_columns.len(), 0, "There should be no partitions");
    assert_eq!(
        meta.metadata.configuration.get(&"conf_1_name".to_string()),
        Some(&"\"conf_1_value\"".to_string()),
        "Configuration value expected"
    );
    let wrong = vec![ResponseRecord::Metadata(metadata("s")), ResponseRecord::Metadata(metadata("s"))];
    assert!(matches!(assemble_table_metadata(wrong), Err(SharingError::Protocol { .. })));
}

#[test]
fn get_table_version() {
    assert_eq!(table_version(Some(b"3")).unwrap(), 3, "Table version mismatch");
}

#[test]
fn missing_version_header_is_minus_one() {
    assert_eq!(table_version(None).unwrap(), -1);
}

#[test]
fn malformed_version_header_is_a_protocol_error() {
    assert!(matches!(table_version(Some(b"three")), Err(SharingError::Protocol { .. })));
    assert!(matches!(table_version(Some(b"")), Err(SharingError::Protocol { .. })));
    assert!(matches!(table_version(Some(b"2147483648")), Err(SharingError::Protocol { .. })));
}

#[test]
fn decimal_parsing_follows_signs_and_range() {
    assert_eq!(parse_decimal_i32(b"0"), Some(0));
    assert_eq!(parse_decimal_i32(b"+42"), Some(42));
    assert_eq!(parse_decimal_i32(b"-42"), Some(-42));
    assert_eq!(parse_decimal_i32(b"2147483647"), Some(i32::MAX));
    assert_eq!(parse_decimal_i32(b"-2147483648"), Some(i32::MIN));
    assert_eq!(parse_decimal_i32(b"-2147483649"), None);
    assert_eq!(parse_decimal_i32(b"99999999999999999999"), None);
    assert_eq!(parse_decimal_i32(b"-"), None);
    assert_eq!(parse_decimal_i32(b"+"), None);
    assert_eq!(parse_decimal_i32(b"1 "), None);
    assert_eq!(parse_decimal_i32(b"--1"), None);
}

#[test]
fn newer_credentials_are_refused() {
    let r = Endpoint::new(&config(2, "https://sharing.example/delta-sharing"));
    assert!(matches!(r, Err(SharingError::Config { .. })));
}

#[test]
fn endpoint_that_is_not_a_url_is_refused() {
    let r = Endpoint::new(&config(1, "not a url"));
    assert!(matches!(r, Err(SharingError::Config { .. })));
}

#[test]
fn operation_urls_resolve_below_the_endpoint() {
    let e = Endpoint::new(&config(1, "https://sharing.example/delta-sharing//")).unwrap();
    assert_eq!(e.url_for(&shares_target()).unwrap(), "https://sharing.example/delta-sharing/shares");
    let e = Endpoint::new(&config(1, "http://127.0.0.1:8080")).unwrap();
    assert_eq!(
        e.url_for(&query_target(&table())).unwrap(),
        "http://127.0.0.1:8080/shares/share_1/schemas/schema_1/tables/table_1/query"
    );
    assert_eq!(e.authorization(), "Bearer token-123");
}

#[test]
fn operation_paths() {
    let share = Share { name: "share_1".to_string() };
    let schema = Schema { name: "schema_1".to_string(), share: "share_1".to_string() };
    assert_eq!(shares_target(), "shares");
    assert_eq!(schemas_target(&share), "shares/share_1/schemas");
    assert_eq!(tables_target(&schema), "shares/share_1/schemas/schema_1/tables");
    assert_eq!(all_tables_target(&share), "shares/share_1/all-tables");
    assert_eq!(table_target(&table()), "shares/share_1/schemas/schema_1/tables/table_1");
    assert_eq!(metadata_target(&table()), "shares/share_1/schemas/schema_1/tables/table_1/metadata");
    assert_eq!(query_target(&table()), "shares/share_1/schemas/schema_1/tables/table_1/query");
}

#[test]
fn query_body_holds_the_given_hints() {
    assert_eq!(query_body(&None, None, None), "{}");
    assert_eq!(query_body(&None, Some(-5), None), "{\"limitHint\":-5}");
    assert_eq!(
        query_body(&Some(vec!["a = 1".to_string(), "b\"c".to_string()]), Some(10), Some(3)),
        "{\"limitHint\":10,\"predicateHints\":[\"a = 1\",\"b\\\"c\"],\"version\":3}"
    );
    assert_eq!(query_body(&Some(vec![]), None, Some(0)), "{\"predicateHints\":[],\"version\":0}");
}

#[test]
fn user_agent_names_library_and_compiler() {
    assert_eq!(user_agent_for("1.80.0"), "Delta-Sharing-Rust/1 Rust/1.80.0");
    let ua = user_agent();
    assert!(ua.starts_with("Delta-Sharing-Rust/1 Rust/"));
    assert!(ua.len() > "Delta-Sharing-Rust/1 Rust/".len());
}

#[test]
fn local_paths_follow_the_layout() {
    let dir = table_dir_path(&"/var/cache".to_string(), &"s.sc.t".to_string());
    assert_eq!(dir, "/var/cache/s.sc.t");
    assert_eq!(data_file_path_in(&dir, &"f1".to_string()), "/var/cache/s.sc.t/f1.snappy.parquet");
    assert_eq!(sidecar_path_in(&dir), "/var/cache/s.sc.t/metadata.json");
    assert_eq!(join_path(&"/var/cache/".to_string(), "x"), "/var/cache/x");
    assert_eq!(join_path(&"".to_string(), "x"), "x");
}

#[test]
fn endpoint_is_normalized_by_the_url_parser() {
    let e = Endpoint::new(&config(1, "HTTP://Sharing.Example:80/x")).unwrap();
    assert_eq!(e.url_for(&shares_target()).unwrap(), "http://sharing.example/x/shares");
    assert_eq!(
        e.url_for(&"../y".to_string()).unwrap(),
        "http://sharing.example/y",
        "targets resolve as relative references"
    );
}

#[test]
fn errors_carry_their_description() {
    let e = SharingError::CacheIo { message: "disk full".to_string() };
    assert_eq!(e.message(), "disk full");
    let e = SharingError::Transport { message: "timed out".to_string() };
    assert_eq!(e.message(), "timed out");
}
