//! The synchronization engine. For one table it decides, step by step,
//! whether the local copy can be reused or must be fetched again. It does no
//! I/O itself: each call names the next step to perform, and the caller
//! reports how that step went.
//!
//! A resolution starts with [`SyncEngine::begin`], given a fresh listing of
//! the table, and goes on with [`SyncEngine::advance`] until it is done or
//! has failed:
//! - a table whose record in the index has the listed manifest is done at
//!   once, with the recorded paths;
//! - a table with no record reads its sidecar; if it holds the listed
//!   manifest and every data file is present, the copy is adopted;
//! - otherwise the table's directory is reset, every file is downloaded in
//!   listing order, the sidecar is written last, and the index records the
//!   result.

use vstd::prelude::*;

use crate::error::SharingError;
use crate::index::{CacheIndex, CacheRecordView, FileCache};
use crate::protocol::{file_views, texts, FileView, ManifestView, Table, TableFiles, TableFilesView, TableMetadata};
use crate::store::{data_file_path, data_file_path_in, sidecar_path, sidecar_path_in, table_dir, table_dir_path};

verus! {

/// Where a resolution stands: which report it waits for.
#[derive(PartialEq, Eq, Structural, Clone, Copy, Debug)]
pub enum Phase {
    /// The sidecar is being read.
    AwaitingSidecar,
    /// The presence of every data file is being checked.
    AwaitingPresence,
    /// The table's directory is being purged and made again.
    Resetting,
    /// The data file at this position of the listing is being downloaded.
    Downloading(usize),
    /// The sidecar is being written.
    WritingSidecar,
}

/// One table's synchronization in progress.
pub struct Resolution {
    key: String,
    dir: String,
    files: TableFiles,
    paths: Vec<String>,
    phase: Phase,
}

pub struct ResolutionView {
    pub key: Seq<char>,
    pub dir: Seq<char>,
    pub files: TableFilesView,
    pub paths: Seq<Seq<char>>,
    pub phase: Phase,
}

impl View for Resolution {
    type V = ResolutionView;

    closed spec fn view(&self) -> ResolutionView {
        ResolutionView {
            key: self.key@,
            dir: self.dir@,
            files: self.files@,
            paths: texts(self.paths@),
            phase: self.phase,
        }
    }
}

/// What the caller reports of the step it was asked to perform.
pub enum Event {
    /// The sidecar's manifest; `None` when it is missing or unreadable.
    SidecarRead { manifest: Option<TableMetadata> },
    /// Whether every data file asked about exists.
    FilesChecked { all_present: bool },
    /// The step succeeded.
    Completed,
    /// The step failed.
    Failed { error: SharingError },
}

pub enum EventView {
    SidecarRead { manifest: Option<ManifestView> },
    FilesChecked { all_present: bool },
    Completed,
    Failed { error: SharingError },
}

impl View for Event {
    type V = EventView;

    open spec fn view(&self) -> EventView {
        match self {
            Event::SidecarRead { manifest } => EventView::SidecarRead {
                manifest: match manifest {
                    Some(m) => Some(m@),
                    None => None,
                },
            },
            Event::FilesChecked { all_present } => EventView::FilesChecked { all_present: *all_present },
            Event::Completed => EventView::Completed,
            Event::Failed { error } => EventView::Failed { error: *error },
        }
    }
}

/// A step for the caller to perform.
pub enum Step {
    /// Read the sidecar at `path`.
    ReadSidecar { path: String },
    /// Check that every one of `paths` exists.
    CheckFiles { paths: Vec<String> },
    /// Delete `dir` with all it holds (if it exists) and create it empty.
    ResetDirectory { dir: String },
    /// Download `url` to `path`.
    Download { url: String, path: String },
    /// Write the resolution's manifest to `path`.
    WriteSidecar { path: String },
}

pub enum StepView {
    ReadSidecar { path: Seq<char> },
    CheckFiles { paths: Seq<Seq<char>> },
    ResetDirectory { dir: Seq<char> },
    Download { url: Seq<char>, path: Seq<char> },
    WriteSidecar { path: Seq<char> },
}

impl View for Step {
    type V = StepView;

    open spec fn view(&self) -> StepView {
        match self {
            Step::ReadSidecar { path } => StepView::ReadSidecar { path: path@ },
            Step::CheckFiles { paths } => StepView::CheckFiles { paths: texts(paths@) },
            Step::ResetDirectory { dir } => StepView::ResetDirectory { dir: dir@ },
            Step::Download { url, path } => StepView::Download { url: url@, path: path@ },
            Step::WriteSidecar { path } => StepView::WriteSidecar { path: path@ },
        }
    }
}

/// Where a resolution goes next.
pub enum Progress {
    /// Perform `step`, then report on it to `advance` with `resolution`.
    Continue { resolution: Resolution, step: Step },
    /// The table's local copy is current; these are its files.
    Done { paths: Vec<String> },
    /// The resolution failed; the index is as it was.
    Failed { error: SharingError },
}

pub enum ProgressView {
    Continue { resolution: ResolutionView, step: StepView },
    Done { paths: Seq<Seq<char>> },
    Failed { error: SharingError },
}

impl View for Progress {
    type V = ProgressView;

    open spec fn view(&self) -> ProgressView {
        match self {
            Progress::Continue { resolution, step } => ProgressView::Continue {
                resolution: resolution@,
                step: step@,
            },
            Progress::Done { paths } => ProgressView::Done { paths: texts(paths@) },
            Progress::Failed { error } => ProgressView::Failed { error: *error },
        }
    }
}

/// The local paths of a listing's files, in the listing's order.
pub open spec fn local_paths(dir: Seq<char>, files: Seq<FileView>) -> Seq<Seq<char>> {
    files.map_values(|f: FileView| data_file_path(dir, f.id))
}

pub open spec fn with_phase(r: ResolutionView, phase: Phase) -> ResolutionView {
    ResolutionView { key: r.key, dir: r.dir, files: r.files, paths: r.paths, phase }
}

/// A new resolution of the table `key` against the listing `fetched`.
pub open spec fn new_resolution(
    root: Seq<char>,
    key: Seq<char>,
    fetched: TableFilesView,
    phase: Phase,
) -> ResolutionView {
    let dir = table_dir(root, key);
    ResolutionView { key, dir, files: fetched, paths: local_paths(dir, fetched.files), phase }
}

/// The record that a finished resolution leaves in the index.
pub open spec fn record_of(r: ResolutionView) -> CacheRecordView {
    CacheRecordView { files: r.files, paths: r.paths }
}

/// How a resolution starts, given the index, the cache root, the table's key
/// and a fresh listing of the table.
pub open spec fn begin_model(
    index: Map<Seq<char>, CacheRecordView>,
    root: Seq<char>,
    key: Seq<char>,
    fetched: TableFilesView,
) -> ProgressView {
    if index.contains_key(key) {
        if index[key].files.metadata == fetched.metadata {
            ProgressView::Done { paths: index[key].paths }
        } else {
            let r = new_resolution(root, key, fetched, Phase::Resetting);
            ProgressView::Continue { resolution: r, step: StepView::ResetDirectory { dir: r.dir } }
        }
    } else {
        let r = new_resolution(root, key, fetched, Phase::AwaitingSidecar);
        ProgressView::Continue {
            resolution: r,
            step: StepView::ReadSidecar { path: sidecar_path(r.dir) },
        }
    }
}

/// The download of the file at position `i`, or the sidecar's write once
/// every file is down.
pub open spec fn download_from(r: ResolutionView, i: int) -> ProgressView {
    if 0 <= i < r.files.files.len() {
        ProgressView::Continue {
            resolution: with_phase(r, Phase::Downloading(i as usize)),
            step: StepView::Download { url: r.files.files[i].url, path: r.paths[i] },
        }
    } else {
        ProgressView::Continue {
            resolution: with_phase(r, Phase::WritingSidecar),
            step: StepView::WriteSidecar { path: sidecar_path(r.dir) },
        }
    }
}

/// The events that a resolution in `phase` waits for.
pub open spec fn accepts(phase: Phase, event: EventView) -> bool {
    match event {
        EventView::SidecarRead { .. } => phase == Phase::AwaitingSidecar,
        EventView::FilesChecked { .. } => phase == Phase::AwaitingPresence,
        EventView::Completed => phase == Phase::Resetting || phase is Downloading || phase
            == Phase::WritingSidecar,
        EventView::Failed { .. } => true,
    }
}

/// How a resolution goes on after `event`: the new index and what follows.
pub open spec fn advance_model(
    index: Map<Seq<char>, CacheRecordView>,
    r: ResolutionView,
    event: EventView,
) -> (Map<Seq<char>, CacheRecordView>, ProgressView) {
    match event {
        EventView::Failed { error } => (index, ProgressView::Failed { error }),
        EventView::SidecarRead { manifest } => {
            if manifest == Some(r.files.metadata) {
                (
                    index,
                    ProgressView::Continue {
                        resolution: with_phase(r, Phase::AwaitingPresence),
                        step: StepView::CheckFiles { paths: r.paths },
                    },
                )
            } else {
                (
                    index,
                    ProgressView::Continue {
                        resolution: with_phase(r, Phase::Resetting),
                        step: StepView::ResetDirectory { dir: r.dir },
                    },
                )
            }
        },
        EventView::FilesChecked { all_present } => {
            if all_present {
                (index.insert(r.key, record_of(r)), ProgressView::Done { paths: r.paths })
            } else {
                (
                    index,
                    ProgressView::Continue {
                        resolution: with_phase(r, Phase::Resetting),
                        step: StepView::ResetDirectory { dir: r.dir },
                    },
                )
            }
        },
        EventView::Completed => match r.phase {
            Phase::Resetting => (index, download_from(r, 0)),
            Phase::Downloading(i) => (index, download_from(r, i + 1)),
            _ => (index.insert(r.key, record_of(r)), ProgressView::Done { paths: r.paths }),
        },
    }
}

/// A copy of a list of strings.
pub fn copy_texts(v: &Vec<String>) -> (r: Vec<String>)
    ensures
        r@ == v@,
{
    let mut out: Vec<String> = Vec::new();
    let mut i: usize = 0;
    while i < v.len()
        invariant
            i <= v.len(),
            out@ == v@.subrange(0, i as int),
        decreases v.len() - i,
    {
        out.push(v[i].clone());
        proof {
            assert(out@ =~= v@.subrange(0, i + 1));
        }
        i = i + 1;
    }
    proof {
        assert(v@.subrange(0, v.len() as int) =~= v@);
    }
    out
}

impl Resolution {
    #[verifier::type_invariant]
    spec fn inv(&self) -> bool {
        self.paths@.len() == self.files.files@.len()
    }

    /// The key of the table being resolved.
    pub fn key(&self) -> (r: &String)
        ensures
            r@ == self@.key,
    {
        &self.key
    }

    /// The table's directory.
    pub fn dir(&self) -> (r: &String)
        ensures
            r@ == self@.dir,
    {
        &self.dir
    }

    /// The listing being resolved against; its manifest is what the sidecar
    /// receives.
    pub fn table_files(&self) -> (r: &TableFiles)
        ensures
            r@ == self@.files,
    {
        &self.files
    }

    /// Where the resolution stands.
    pub fn phase(&self) -> (r: Phase)
        ensures
            r == self@.phase,
    {
        self.phase
    }

    /// Whether `event` is one that this resolution waits for.
    pub fn accepts(&self, event: &Event) -> (r: bool)
        ensures
            r == accepts(self@.phase, event@),
    {
        match event {
            Event::SidecarRead { .. } => self.phase == Phase::AwaitingSidecar,
            Event::FilesChecked { .. } => self.phase == Phase::AwaitingPresence,
            Event::Completed => match self.phase {
                Phase::Resetting | Phase::Downloading(_) | Phase::WritingSidecar => true,
                _ => false,
            },
            Event::Failed { .. } => true,
        }
    }

    fn with_phase(self, phase: Phase) -> (r: Resolution)
        ensures
            r@ == with_phase(self@, phase),
    {
        proof {
            use_type_invariant(&self);
        }
        let Resolution { key, dir, files, paths, phase: _ } = self;
        Resolution { key, dir, files, paths, phase }
    }

    fn download_from(self, i: usize) -> (r: Progress)
        ensures
            r@ == download_from(self@, i as int),
    {
        proof {
            use_type_invariant(&self);
        }
        if i < self.files.files.len() {
            let url = self.files.files[i].url.clone();
            let path = self.paths[i].clone();
            let resolution = self.with_phase(Phase::Downloading(i));
            Progress::Continue { resolution, step: Step::Download { url, path } }
        } else {
            let path = sidecar_path_in(&self.dir);
            let resolution = self.with_phase(Phase::WritingSidecar);
            Progress::Continue { resolution, step: Step::WriteSidecar { path } }
        }
    }
}

/// The engine: a cache root and the index of the tables synchronized so far.
pub struct SyncEngine {
    data_root: String,
    index: CacheIndex,
}

impl SyncEngine {
    /// The directory under which tables are kept.
    pub closed spec fn root(&self) -> Seq<char> {
        self.data_root@
    }

    /// What the index holds.
    pub closed spec fn cache(&self) -> Map<Seq<char>, CacheRecordView> {
        self.index@
    }

    /// An engine with an empty index, keeping its copies under `data_root`.
    pub fn new(data_root: String) -> (r: SyncEngine)
        ensures
            r.root() == data_root@,
            r.cache() == Map::<Seq<char>, CacheRecordView>::empty(),
    {
        SyncEngine { data_root, index: CacheIndex::new() }
    }

    /// The directory under which tables are kept.
    pub fn data_root(&self) -> (r: &String)
        ensures
            r@ == self.root(),
    {
        &self.data_root
    }

    /// Moves the cache to `data_root`; resolutions begun from now on use it.
    pub fn set_data_root(&mut self, data_root: String)
        ensures
            final(self).root() == data_root@,
            final(self).cache() == old(self).cache(),
    {
        self.data_root = data_root;
    }

    /// The index's record of `key`, if there is one.
    pub fn record(&self, key: &String) -> (r: Option<&FileCache>)
        ensures
            r matches Some(c) ==> self.cache().contains_key(key@) && self.cache()[key@] == c@,
            r is None ==> !self.cache().contains_key(key@),
    {
        self.index.get(key)
    }

    fn new_resolution(&self, key: String, fetched: TableFiles, phase: Phase) -> (r: Resolution)
        ensures
            r@ == new_resolution(self.data_root@, key@, fetched@, phase),
    {
        let dir = table_dir_path(&self.data_root, &key);
        let mut paths: Vec<String> = Vec::new();
        let mut i: usize = 0;
        while i < fetched.files.len()
            invariant
                i <= fetched.files.len(),
                paths@.len() == i,
                texts(paths@) == local_paths(dir@, file_views(fetched.files@)).subrange(0, i as int),
            decreases fetched.files.len() - i,
        {
            let p = data_file_path_in(&dir, &fetched.files[i].id);
            let ghost prev = paths@;
            paths.push(p);
            proof {
                let local = local_paths(dir@, file_views(fetched.files@));
                assert(local[i as int] == p@);
                assert forall|j: int| 0 <= j < i + 1 implies #[trigger] texts(paths@)[j] == local[j] by {
                    if j < i {
                        assert(paths@[j] == prev[j]);
                        assert(texts(prev)[j] == local.subrange(0, i as int)[j]);
                    }
                }
                assert(texts(paths@) =~= local.subrange(0, i + 1));
            }
            i = i + 1;
        }
        proof {
            assert(local_paths(dir@, file_views(fetched.files@)).subrange(
                0,
                fetched.files.len() as int,
            ) =~= local_paths(dir@, file_views(fetched.files@)));
        }
        Resolution { key, dir, files: fetched, paths, phase }
    }

    /// Starts the resolution of `table` against `fetched`, a listing just
    /// obtained from the server.
    pub fn begin(&self, table: &Table, fetched: TableFiles) -> (r: Progress)
        ensures
            r@ == begin_model(self.cache(), self.root(), table.key(), fetched@),
    {
        let key = table.fully_qualified_name();
        match self.index.get(&key) {
            Some(record) => {
                if record.table_files.metadata == fetched.metadata {
                    Progress::Done { paths: copy_texts(&record.file_paths) }
                } else {
                    let resolution = self.new_resolution(key, fetched, Phase::Resetting);
                    let dir = resolution.dir.clone();
                    Progress::Continue { resolution, step: Step::ResetDirectory { dir } }
                }
            },
            None => {
                let resolution = self.new_resolution(key, fetched, Phase::AwaitingSidecar);
                let path = sidecar_path_in(&resolution.dir);
                Progress::Continue { resolution, step: Step::ReadSidecar { path } }
            },
        }
    }

    fn install(&mut self, res: Resolution) -> (r: Progress)
        ensures
            final(self).root() == old(self).root(),
            final(self).cache() == old(self).cache().insert(res@.key, record_of(res@)),
            r@ == (ProgressView::Done { paths: res@.paths }),
    {
        let Resolution { key, dir: _, files, paths, phase: _ } = res;
        let out = copy_texts(&paths);
        self.index.insert(key, FileCache { table_files: files, file_paths: paths });
        Progress::Done { paths: out }
    }

    /// Goes on with `res` after the caller's report `event` on the last step.
    pub fn advance(&mut self, res: Resolution, event: Event) -> (r: Progress)
        requires
            accepts(res@.phase, event@),
        ensures
            final(self).root() == old(self).root(),
            (final(self).cache(), r@) == advance_model(old(self).cache(), res@, event@),
    {
        proof {
            use_type_invariant(&res);
        }
        match event {
            Event::Failed { error } => Progress::Failed { error },
            Event::SidecarRead { manifest } => {
                let current = match &manifest {
                    Some(m) => *m == res.files.metadata,
                    None => false,
                };
                if current {
                    let paths = copy_texts(&res.paths);
                    let resolution = res.with_phase(Phase::AwaitingPresence);
                    Progress::Continue { resolution, step: Step::CheckFiles { paths } }
                } else {
                    let dir = res.dir.clone();
                    let resolution = res.with_phase(Phase::Resetting);
                    Progress::Continue { resolution, step: Step::ResetDirectory { dir } }
                }
            },
            Event::FilesChecked { all_present } => {
                if all_present {
                    self.install(res)
                } else {
                    let dir = res.dir.clone();
                    let resolution = res.with_phase(Phase::Resetting);
                    Progress::Continue { resolution, step: Step::ResetDirectory { dir } }
                }
            },
            Event::Completed => match res.phase {
                Phase::Resetting => res.download_from(0),
                Phase::Downloading(i) => {
                    if i < res.files.files.len() {
                        res.download_from(i + 1)
                    } else {
                        let n = res.files.files.len();
                        res.download_from(n)
                    }
                },
                _ => self.install(res),
            },
        }
    }
}

/// Feeds `k` reports of success, one after another, to a resolution in
/// progress; stops early when it is done or has failed.
pub open spec fn after_completions(
    index: Map<Seq<char>, CacheRecordView>,
    p: ProgressView,
    k: nat,
) -> (Map<Seq<char>, CacheRecordView>, ProgressView)
    decreases k,
{
    if k == 0 {
        (index, p)
    } else {
        match p {
            ProgressView::Continue { resolution, .. } => {
                let (next_index, next) = advance_model(index, resolution, EventView::Completed);
                after_completions(next_index, next, (k - 1) as nat)
            },
            _ => (index, p),
        }
    }
}

proof fn lemma_downloads_continue(
    index: Map<Seq<char>, CacheRecordView>,
    r: ResolutionView,
    j: int,
    m: nat,
    t: nat,
)
    requires
        0 <= j,
        j + m <= r.files.files.len(),
        r.files.files.len() <= usize::MAX,
    ensures
        after_completions(index, download_from(r, j), m + t) == after_completions(
            index,
            download_from(r, j + m),
            t,
        ),
    decreases m,
{
    if m > 0 {
        let next = with_phase(r, Phase::Downloading(j as usize));
        assert(download_from(next, j + 1) == download_from(r, j + 1));
        lemma_downloads_continue(index, r, j + 1, (m - 1) as nat, t);
    }
}

/// Once a table's directory has been reset, success after success downloads
/// every file of the listing, in the listing's order, to its local path;
/// then the sidecar is written; then the index records the listing with its
/// paths, and the resolution is done with those paths.
pub proof fn lemma_full_download(index: Map<Seq<char>, CacheRecordView>, r: ResolutionView, step: StepView)
    requires
        r.phase == Phase::Resetting,
        r.paths.len() == r.files.files.len(),
        r.files.files.len() <= usize::MAX,
    ensures
        forall|i: int|
            #![trigger r.files.files[i]]
            0 <= i < r.files.files.len() ==> after_completions(
                index,
                ProgressView::Continue { resolution: r, step },
                (i + 1) as nat,
            ) == (index, ProgressView::Continue {
                resolution: with_phase(r, Phase::Downloading(i as usize)),
                step: StepView::Download { url: r.files.files[i].url, path: r.paths[i] },
            }),
        after_completions(
            index,
            ProgressView::Continue { resolution: r, step },
            (r.files.files.len() + 1) as nat,
        ) == (index, ProgressView::Continue {
            resolution: with_phase(r, Phase::WritingSidecar),
            step: StepView::WriteSidecar { path: sidecar_path(r.dir) },
        }),
        after_completions(
            index,
            ProgressView::Continue { resolution: r, step },
            (r.files.files.len() + 2) as nat,
        ) == (index.insert(r.key, record_of(r)), ProgressView::Done { paths: r.paths }),
{
    let n = r.files.files.len();
    let start = ProgressView::Continue { resolution: r, step };
    assert forall|i: int|
        #![trigger r.files.files[i]]
        0 <= i < n implies after_completions(index, start, (i + 1) as nat) == (
        index,
        download_from(r, i),
    ) by {
        lemma_downloads_continue(index, r, 0, i as nat, 0);
    }
    lemma_downloads_continue(index, r, 0, n, 0);
    lemma_downloads_continue(index, r, 0, n, 1);
    let last = with_phase(r, Phase::WritingSidecar);
    assert(record_of(last) == record_of(r));
    assert(after_completions(index, download_from(r, n as int), 1) == after_completions(
        index.insert(r.key, record_of(r)),
        ProgressView::Done { paths: r.paths },
        0,
    ));
}

/// A resolution that ends with the index updated leaves the table current:
/// resolving it again against a listing with the same manifest is done at
/// once, with the same paths, and asks for no download.
pub proof fn lemma_resolve_again_reuses(
    index: Map<Seq<char>, CacheRecordView>,
    r: ResolutionView,
    event: EventView,
    root: Seq<char>,
    fetched: TableFilesView,
)
    requires
        accepts(r.phase, event),
        advance_model(index, r, event).1 is Done,
        fetched.metadata == r.files.metadata,
    ensures
        advance_model(index, r, event).1 == (ProgressView::Done { paths: r.paths }),
        begin_model(advance_model(index, r, event).0, root, r.key, fetched) == (ProgressView::Done {
            paths: r.paths,
        }),
{
}

/// A table that is current stays current: when a resolution is done at once,
/// any later one against a listing with the same manifest is done at once
/// with the same paths.
pub proof fn lemma_current_stays_current(
    index: Map<Seq<char>, CacheRecordView>,
    root: Seq<char>,
    key: Seq<char>,
    first: TableFilesView,
    second: TableFilesView,
)
    requires
        begin_model(index, root, key, first) is Done,
        first.metadata == second.metadata,
    ensures
        begin_model(index, root, key, second) == begin_model(index, root, key, first),
{
}

/// When the manifest has changed since the table was recorded, the
/// directory is reset and every file of the new listing is downloaded in
/// order, then the sidecar is written, then the new listing is recorded.
pub proof fn lemma_changed_manifest_refetches(
    index: Map<Seq<char>, CacheRecordView>,
    root: Seq<char>,
    key: Seq<char>,
    fetched: TableFilesView,
)
    requires
        index.contains_key(key),
        index[key].files.metadata != fetched.metadata,
        fetched.files.len() <= usize::MAX,
    ensures
        ({
            let dir = table_dir(root, key);
            let paths = local_paths(dir, fetched.files);
            let start = begin_model(index, root, key, fetched);
            let n = fetched.files.len();
            &&& start == ProgressView::Continue {
                resolution: new_resolution(root, key, fetched, Phase::Resetting),
                step: StepView::ResetDirectory { dir },
            }
            &&& forall|i: int|
                #![trigger fetched.files[i]]
                0 <= i < n ==> after_completions(index, start, (i + 1) as nat).1->step
                    == StepView::Download { url: fetched.files[i].url, path: paths[i] }
            &&& after_completions(index, start, (n + 1) as nat).1->step == StepView::WriteSidecar {
                path: sidecar_path(dir),
            }
            &&& after_completions(index, start, (n + 2) as nat) == (
                index.insert(key, CacheRecordView { files: fetched, paths }),
                ProgressView::Done { paths },
            )
        }),
{
    let r = new_resolution(root, key, fetched, Phase::Resetting);
    lemma_full_download(index, r, StepView::ResetDirectory { dir: r.dir });
}

/// When the index has no record of a table and its sidecar holds the listed
/// manifest but a data file is missing, the directory is reset and every
/// file is downloaded again, in order, before the sidecar is rewritten and
/// the listing recorded.
pub proof fn lemma_missing_file_refetches(
    index: Map<Seq<char>, CacheRecordView>,
    root: Seq<char>,
    key: Seq<char>,
    fetched: TableFilesView,
)
    requires
        !index.contains_key(key),
        fetched.files.len() <= usize::MAX,
    ensures
        ({
            let dir = table_dir(root, key);
            let paths = local_paths(dir, fetched.files);
            let r = new_resolution(root, key, fetched, Phase::AwaitingSidecar);
            let checking = with_phase(r, Phase::AwaitingPresence);
            let reset = advance_model(index, checking, EventView::FilesChecked { all_present: false });
            let n = fetched.files.len();
            &&& begin_model(index, root, key, fetched) == ProgressView::Continue {
                resolution: r,
                step: StepView::ReadSidecar { path: sidecar_path(dir) },
            }
            &&& advance_model(
                index,
                r,
                EventView::SidecarRead { manifest: Some(fetched.metadata) },
            ) == (index, ProgressView::Continue {
                resolution: checking,
                step: StepView::CheckFiles { paths },
            })
            &&& reset == (index, ProgressView::Continue {
                resolution: with_phase(r, Phase::Resetting),
                step: StepView::ResetDirectory { dir },
            })
            &&& forall|i: int|
                #![trigger fetched.files[i]]
                0 <= i < n ==> after_completions(index, reset.1, (i + 1) as nat).1->step
                    == StepView::Download { url: fetched.files[i].url, path: paths[i] }
            &&& after_completions(index, reset.1, (n + 1) as nat).1->step
                == StepView::WriteSidecar { path: sidecar_path(dir) }
            &&& after_completions(index, reset.1, (n + 2) as nat) == (
                index.insert(key, CacheRecordView { files: fetched, paths }),
                ProgressView::Done { paths },
            )
        }),
{
    let r = new_resolution(root, key, fetched, Phase::AwaitingSidecar);
    let reset = with_phase(r, Phase::Resetting);
    lemma_full_download(index, reset, StepView::ResetDirectory { dir: r.dir });
    assert(record_of(reset) == CacheRecordView { files: fetched, paths: r.paths });
}

/// Freshness ignores file URLs: a table recorded from one listing is current
/// for any listing with the same manifest, whatever its files' URLs.
pub proof fn lemma_url_change_reuses(
    index: Map<Seq<char>, CacheRecordView>,
    root: Seq<char>,
    key: Seq<char>,
    second: TableFilesView,
)
    requires
        index.contains_key(key),
        index[key].files.metadata == second.metadata,
    ensures
        begin_model(index, root, key, second) == (ProgressView::Done { paths: index[key].paths }),
{
}

/// Local paths depend on file ids alone: two listings whose files have the
/// same ids in the same order, whatever their URLs, map to the same paths.
pub proof fn lemma_paths_ignore_urls(dir: Seq<char>, a: Seq<FileView>, b: Seq<FileView>)
    requires
        a.len() == b.len(),
        forall|i: int| 0 <= i < a.len() ==> #[trigger] a[i].id == b[i].id,
    ensures
        local_paths(dir, a) == local_paths(dir, b),
{
    assert(local_paths(dir, a) =~= local_paths(dir, b));
}

} // verus!
