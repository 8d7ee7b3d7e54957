//! Delta Sharing protocol message types.

use vstd::prelude::*;

use crate::json_map::JsonMap;

verus! {

/// The settings needed to reach a sharing server.
pub struct ProviderConfig {
    pub share_credentials_version: i32,
    pub endpoint: String,
    pub bearer_token: String,
}

/// A share: the unit of publication on a server.
pub struct Share {
    pub name: String,
}

/// A schema inside a share.
pub struct Schema {
    pub name: String,
    pub share: String,
}

/// A table inside a schema of a share.
pub struct Table {
    pub name: String,
    pub share: String,
    pub schema: String,
}

/// `share.schema.name`: the key of a table in the cache and the name of its
/// directory on disk.
pub open spec fn qualified_name(share: Seq<char>, schema: Seq<char>, name: Seq<char>) -> Seq<char> {
    share + seq!['.'] + schema + seq!['.'] + name
}

impl Table {
    pub open spec fn key(&self) -> Seq<char> {
        qualified_name(self.share@, self.schema@, self.name@)
    }

    /// The table's identity as one string, `share.schema.name`.
    pub fn fully_qualified_name(&self) -> (r: String)
        ensures
            r@ == self.key(),
    {
        let mut r = self.share.clone();
        r.append(".");
        r.append(self.schema.as_str());
        r.append(".");
        r.append(self.name.as_str());
        proof {
            reveal_strlit(".");
        }
        r
    }
}

/// The reader features a table requires.
#[derive(PartialEq, Eq, Structural, Clone, Copy, Debug)]
pub struct Protocol {
    pub min_reader_version: i32,
}

/// The file format of a table's data files.
pub struct Format {
    pub provider: String,
    pub options: Option<JsonMap>,
}

/// A table's metadata: identity, format, schema and partitioning.
pub struct Metadata {
    pub id: String,
    pub name: Option<String>,
    pub description: Option<String>,
    pub format: Format,
    pub schema_string: String,
    pub configuration: JsonMap,
    pub partition_columns: Vec<String>,
}

/// The manifest of a table: protocol and metadata. It says nothing of the
/// files that hold the data.
pub struct TableMetadata {
    pub protocol: Protocol,
    pub metadata: Metadata,
}

/// One data file of a table. `id` is stable; `url` is a signed link that may
/// change from one listing to the next.
pub struct File {
    pub id: String,
    pub url: String,
    pub partition_values: JsonMap,
    pub size: i32,
    pub stats: Option<String>,
}

/// A table's manifest together with its data files, in the server's order.
pub struct TableFiles {
    pub metadata: TableMetadata,
    pub files: Vec<File>,
}

pub struct FormatView {
    pub provider: Seq<char>,
    pub options: Option<Map<Seq<char>, Seq<char>>>,
}

pub struct MetadataView {
    pub id: Seq<char>,
    pub name: Option<Seq<char>>,
    pub description: Option<Seq<char>>,
    pub format: FormatView,
    pub schema_string: Seq<char>,
    pub configuration: Map<Seq<char>, Seq<char>>,
    pub partition_columns: Seq<Seq<char>>,
}

pub struct ManifestView {
    pub min_reader_version: i32,
    pub metadata: MetadataView,
}

pub struct FileView {
    pub id: Seq<char>,
    pub url: Seq<char>,
    pub partition_values: Map<Seq<char>, Seq<char>>,
    pub size: i32,
    pub stats: Option<Seq<char>>,
}

pub struct TableFilesView {
    pub metadata: ManifestView,
    pub files: Seq<FileView>,
}

pub open spec fn opt_text(o: Option<String>) -> Option<Seq<char>> {
    match o {
        Some(s) => Some(s@),
        None => None,
    }
}

pub open spec fn texts(v: Seq<String>) -> Seq<Seq<char>> {
    v.map_values(|s: String| s@)
}

impl View for Format {
    type V = FormatView;

    open spec fn view(&self) -> FormatView {
        FormatView {
            provider: self.provider@,
            options: match self.options {
                Some(m) => Some(m@),
                None => None,
            },
        }
    }
}

impl View for Metadata {
    type V = MetadataView;

    open spec fn view(&self) -> MetadataView {
        MetadataView {
            id: self.id@,
            name: opt_text(self.name),
            description: opt_text(self.description),
            format: self.format@,
            schema_string: self.schema_string@,
            configuration: self.configuration@,
            partition_columns: texts(self.partition_columns@),
        }
    }
}

impl View for TableMetadata {
    type V = ManifestView;

    open spec fn view(&self) -> ManifestView {
        ManifestView { min_reader_version: self.protocol.min_reader_version, metadata: self.metadata@ }
    }
}

impl View for File {
    type V = FileView;

    open spec fn view(&self) -> FileView {
        FileView {
            id: self.id@,
            url: self.url@,
            partition_values: self.partition_values@,
            size: self.size,
            stats: opt_text(self.stats),
        }
    }
}

pub open spec fn file_views(v: Seq<File>) -> Seq<FileView> {
    v.map_values(|f: File| f@)
}

impl View for TableFiles {
    type V = TableFilesView;

    open spec fn view(&self) -> TableFilesView {
        TableFilesView { metadata: self.metadata@, files: file_views(self.files@) }
    }
}

fn opt_text_eq(a: &Option<String>, b: &Option<String>) -> (r: bool)
    ensures
        r == (opt_text(*a) == opt_text(*b)),
{
    match (a, b) {
        (Some(x), Some(y)) => *x == *y,
        (None, None) => true,
        _ => false,
    }
}

fn texts_eq(a: &Vec<String>, b: &Vec<String>) -> (r: bool)
    ensures
        r == (texts(a@) == texts(b@)),
{
    if a.len() != b.len() {
        proof {
            assert(texts(a@).len() != texts(b@).len());
        }
        return false;
    }
    let mut i: usize = 0;
    while i < a.len()
        invariant
            i <= a.len() == b.len(),
            forall|j: int| 0 <= j < i ==> #[trigger] a@[j]@ == b@[j]@,
        decreases a.len() - i,
    {
        if a[i] != b[i] {
            proof {
                assert(texts(a@)[i as int] != texts(b@)[i as int]);
            }
            return false;
        }
        i = i + 1;
    }
    proof {
        assert(texts(a@) =~= texts(b@));
    }
    true
}

impl Format {
    pub fn equals(&self, other: &Format) -> (r: bool)
        ensures
            r == (self@ == other@),
    {
        let options_eq = match (&self.options, &other.options) {
            (Some(x), Some(y)) => x.equals(y),
            (None, None) => true,
            _ => false,
        };
        self.provider == other.provider && options_eq
    }
}

impl Metadata {
    pub fn equals(&self, other: &Metadata) -> (r: bool)
        ensures
            r == (self@ == other@),
    {
        self.id == other.id && opt_text_eq(&self.name, &other.name) && opt_text_eq(
            &self.description,
            &other.description,
        ) && self.format.equals(&other.format) && self.schema_string == other.schema_string
            && self.configuration.equals(&other.configuration) && texts_eq(
            &self.partition_columns,
            &other.partition_columns,
        )
    }
}

impl PartialEq for TableMetadata {
    /// Structural equality of two manifests: protocol and every metadata field.
    fn eq(&self, other: &TableMetadata) -> (r: bool) {
        self.protocol.min_reader_version == other.protocol.min_reader_version
            && self.metadata.equals(&other.metadata)
    }
}

impl vstd::std_specs::cmp::PartialEqSpecImpl for TableMetadata {
    open spec fn obeys_eq_spec() -> bool {
        true
    }

    open spec fn eq_spec(&self, other: &TableMetadata) -> bool {
        self@ == other@
    }
}

} // verus!
