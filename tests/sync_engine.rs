use std::collections::HashMap;

use delta_sharing::error::SharingError;
use delta_sharing::json_map::JsonMap;
use delta_sharing::protocol::{File, Format, Metadata, Protocol, Table, TableFiles, TableMetadata};
use delta_sharing::sync::{Event, Phase, Progress, Step, SyncEngine};

/// A directory tree in memory: file path -> content. A sidecar holds the
/// schema string of the manifest written to it.
struct Disk {
    files: HashMap<String, String>,
    downloads: Vec<String>,
    sidecar_writes: usize,
    fail_downloads: bool,
}

impl Disk {
    fn new() -> Disk {
        Disk { files: HashMap::new(), downloads: Vec::new(), sidecar_writes: 0, fail_downloads: false }
    }
}

fn table() -> Table {
    Table {
        name: "table1".to_string(),
        share: "shareA".to_string(),
        schema: "schemaA".to_string(),
    }
}

fn manifest(schema_string: &str) -> TableMetadata {
    TableMetadata {
        protocol: Protocol { min_reader_version: 1 },
        metadata: Metadata {
            id: "cf9c9342-b773-4c7b-a217-037d02ffe5d8".to_string(),
            name: None,
            description: None,
            format: Format { provider: "parquet".to_string(), options: None },
            schema_string: schema_string.to_string(),
            configuration: JsonMap::from_pairs(vec![(
                "conf_1_name".to_string(),
                "\"conf_1_value\"".to_string(),
            )]),
            partition_columns: vec![],
        },
    }
}

fn file(id: &str, url: &str) -> File {
    File {
        id: id.to_string(),
        url: url.to_string(),
        partition_values: JsonMap::new(),
        size: 2350,
        stats: Some("{\"numRecords\":1}".to_string()),
    }
}

fn listing(schema_string: &str, url_base: &str) -> TableFiles {
    TableFiles {
        metadata: manifest(schema_string),
        files: vec![
            file("f1", &format!("{}/f1?sig=1", url_base)),
            file("f2", &format!("{}/f2?sig=1", url_base)),
        ],
    }
}

/// Runs one resolution to its end, performing each step on `disk`.
fn resolve(engine: &mut SyncEngine, fetched: TableFiles, disk: &mut Disk) -> Result<Vec<String>, SharingError> {
    let mut progress = engine.begin(&table(), fetched);
    loop {
        let (resolution, step) = match progress {
            Progress::Done { paths } => return Ok(paths),
            Progress::Failed { error } => return Err(error),
            Progress::Continue { resolution, step } => (resolution, step),
        };
        let event = match step {
            Step::ReadSidecar { path } => Event::SidecarRead {
                manifest: disk.files.get(&path).map(|s| manifest(s)),
            },
            Step::CheckFiles { paths } => Event::FilesChecked {
                all_present: paths.iter().all(|p| disk.files.contains_key(p)),
            },
            Step::ResetDirectory { dir } => {
                let prefix = format!("{}/", dir);
                disk.files.retain(|k, _| !k.starts_with(&prefix));
                Event::Completed
            }
            Step::Download { url, path } => {
                if disk.fail_downloads {
                    Event::Failed { error: SharingError::Transport { message: "refused".to_string() } }
                } else {
                    disk.downloads.push(url.clone());
                    disk.files.insert(path, format!("content of {}", url));
                    Event::Completed
                }
            }
            Step::WriteSidecar { path } => {
                disk.sidecar_writes += 1;
                let schema = resolution.table_files().metadata.metadata.schema_string.clone();
                disk.files.insert(path, schema);
                Event::Completed
            }
        };
        assert!(resolution.accepts(&event));
        progress = engine.advance(resolution, event);
    }
}

const ROOT: &str = "/data/root";

#[test]
fn end_to_end_downloads_then_reuses() {
    let mut disk = Disk::new();
    let mut engine = SyncEngine::new(ROOT.to_string());
    let first = resolve(&mut engine, listing("schemaA-v1", "https://files.example"), &mut disk).unwrap();
    let expected = vec![
        "/data/root/shareA.schemaA.table1/f1.snappy.parquet".to_string(),
        "/data/root/shareA.schemaA.table1/f2.snappy.parquet".to_string(),
    ];
    assert_eq!(first, expected);
    assert_eq!(disk.downloads.len(), 2);
    assert!(disk.files.contains_key("/data/root/shareA.schemaA.table1/metadata.json"));
    assert_eq!(disk.sidecar_writes, 1);

    let second = resolve(&mut engine, listing("schemaA-v1", "https://files.example"), &mut disk).unwrap();
    assert_eq!(second, expected);
    assert_eq!(disk.downloads.len(), 2, "no file is fetched again");
    assert_eq!(disk.sidecar_writes, 1);
}

#[test]
fn changed_schema_downloads_everything_again() {
    let mut disk = Disk::new();
    let mut engine = SyncEngine::new(ROOT.to_string());
    let first = resolve(&mut engine, listing("schema-v1", "https://old.example"), &mut disk).unwrap();
    let before: Vec<String> = first.iter().map(|p| disk.files[p].clone()).collect();
    let second = resolve(&mut engine, listing("schema-v2", "https://new.example"), &mut disk).unwrap();
    assert_eq!(first, second, "file ids are reused, so the paths coincide");
    let after: Vec<String> = second.iter().map(|p| disk.files[p].clone()).collect();
    assert_ne!(before, after, "the content was fetched again");
    assert_eq!(disk.downloads.len(), 4);
    assert_eq!(disk.sidecar_writes, 2);
    assert_eq!(disk.files["/data/root/shareA.schemaA.table1/metadata.json"], "schema-v2");
}

#[test]
fn missing_file_is_detected_after_restart() {
    let mut disk = Disk::new();
    let mut engine = SyncEngine::new(ROOT.to_string());
    resolve(&mut engine, listing("s", "https://a.example"), &mut disk).unwrap();
    disk.files.remove("/data/root/shareA.schemaA.table1/f2.snappy.parquet");

    let mut restarted = SyncEngine::new(ROOT.to_string());
    let paths = resolve(&mut restarted, listing("s", "https://a.example"), &mut disk).unwrap();
    assert_eq!(disk.downloads.len(), 4, "the whole set is fetched again");
    for p in &paths {
        assert!(disk.files.contains_key(p));
    }
}

#[test]
fn intact_copy_is_adopted_after_restart() {
    let mut disk = Disk::new();
    let mut engine = SyncEngine::new(ROOT.to_string());
    let first = resolve(&mut engine, listing("s", "https://a.example"), &mut disk).unwrap();

    let mut restarted = SyncEngine::new(ROOT.to_string());
    let again = resolve(&mut restarted, listing("s", "https://b.example"), &mut disk).unwrap();
    assert_eq!(first, again);
    assert_eq!(disk.downloads.len(), 2);
    assert!(restarted.record(&"shareA.schemaA.table1".to_string()).is_some());
}

#[test]
fn rotated_urls_do_not_trigger_downloads() {
    let mut disk = Disk::new();
    let mut engine = SyncEngine::new(ROOT.to_string());
    let a = listing("s", "https://signed.example/token-a");
    let b = listing("s", "https://signed.example/token-b");
    assert!(a.metadata == b.metadata, "URLs are not part of the manifest");
    assert_ne!(a.files[0].url, b.files[0].url);
    let first = resolve(&mut engine, a, &mut disk).unwrap();
    let second = resolve(&mut engine, b, &mut disk).unwrap();
    assert_eq!(first, second);
    assert_eq!(disk.downloads.len(), 2);
}

#[test]
fn failed_download_surfaces_and_records_nothing() {
    let mut disk = Disk::new();
    disk.fail_downloads = true;
    let mut engine = SyncEngine::new(ROOT.to_string());
    let r = resolve(&mut engine, listing("s", "https://a.example"), &mut disk);
    assert!(matches!(r, Err(SharingError::Transport { .. })));
    assert!(engine.record(&"shareA.schemaA.table1".to_string()).is_none());
    assert!(!disk.files.contains_key("/data/root/shareA.schemaA.table1/metadata.json"));

    disk.fail_downloads = false;
    let paths = resolve(&mut engine, listing("s", "https://a.example"), &mut disk).unwrap();
    assert_eq!(paths.len(), 2);
    assert_eq!(disk.downloads.len(), 2);
}

#[test]
fn first_step_reads_the_sidecar() {
    let engine = SyncEngine::new("/tmp/cache/".to_string());
    match engine.begin(&table(), listing("s", "u")) {
        Progress::Continue { resolution, step: Step::ReadSidecar { path } } => {
            assert_eq!(path, "/tmp/cache/shareA.schemaA.table1/metadata.json");
            assert_eq!(resolution.phase(), Phase::AwaitingSidecar);
            assert_eq!(resolution.dir(), "/tmp/cache/shareA.schemaA.table1");
            assert_eq!(resolution.key(), "shareA.schemaA.table1");
        }
        _ => panic!("expected a sidecar read"),
    }
}

#[test]
fn events_out_of_turn_are_refused() {
    let engine = SyncEngine::new(ROOT.to_string());
    match engine.begin(&table(), listing("s", "u")) {
        Progress::Continue { resolution, .. } => {
            assert!(!resolution.accepts(&Event::Completed));
            assert!(!resolution.accepts(&Event::FilesChecked { all_present: true }));
            assert!(resolution.accepts(&Event::SidecarRead { manifest: None }));
            assert!(resolution.accepts(&Event::Failed {
                error: SharingError::CacheIo { message: "x".to_string() }
            }));
        }
        _ => panic!("expected a resolution"),
    }
}

#[test]
fn empty_listing_writes_only_the_sidecar() {
    let mut disk = Disk::new();
    let mut engine = SyncEngine::new(ROOT.to_string());
    let fetched = TableFiles { metadata: manifest("s"), files: vec![] };
    let paths = resolve(&mut engine, fetched, &mut disk).unwrap();
    assert!(paths.is_empty());
    assert_eq!(disk.sidecar_writes, 1);
    assert!(disk.downloads.is_empty());
}

#[test]
fn data_root_can_move() {
    let mut engine = SyncEngine::new(ROOT.to_string());
    engine.set_data_root("relative".to_string());
    assert_eq!(engine.data_root(), "relative");
    let mut disk = Disk::new();
    let paths = resolve(&mut engine, listing("s", "u"), &mut disk).unwrap();
    assert_eq!(paths[0], "relative/shareA.schemaA.table1/f1.snappy.parquet");
}
