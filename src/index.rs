//! The in-memory index of synchronized tables, valid for the life of one
//! engine.

use vstd::prelude::*;

use crate::keyed::{find_key, keyed_map, keys_unique, lemma_keyed_map, put_key};
use crate::protocol::{texts, TableFiles, TableFilesView};

verus! {

/// What is known of one synchronized table: the listing it was synchronized
/// against and the local paths of its files, in the listing's order.
pub struct FileCache {
    pub table_files: TableFiles,
    pub file_paths: Vec<String>,
}

pub struct CacheRecordView {
    pub files: TableFilesView,
    pub paths: Seq<Seq<char>>,
}

impl View for FileCache {
    type V = CacheRecordView;

    open spec fn view(&self) -> CacheRecordView {
        CacheRecordView { files: self.table_files@, paths: texts(self.file_paths@) }
    }
}

/// One record per table key, replaced whole when the table changes.
pub struct CacheIndex {
    records: Vec<(String, FileCache)>,
}

impl View for CacheIndex {
    type V = Map<Seq<char>, CacheRecordView>;

    closed spec fn view(&self) -> Map<Seq<char>, CacheRecordView> {
        keyed_map(self.records@)
    }
}

impl CacheIndex {
    #[verifier::type_invariant]
    spec fn inv(&self) -> bool {
        keys_unique(self.records@)
    }

    /// An index with no records.
    pub fn new() -> (r: CacheIndex)
        ensures
            r@ == Map::<Seq<char>, CacheRecordView>::empty(),
    {
        CacheIndex { records: Vec::new() }
    }

    /// The record of `key`, if there is one.
    pub fn get(&self, key: &String) -> (r: Option<&FileCache>)
        ensures
            r matches Some(c) ==> self@.contains_key(key@) && self@[key@] == c@,
            r is None ==> !self@.contains_key(key@),
    {
        proof {
            use_type_invariant(self);
            lemma_keyed_map(self.records@);
        }
        match find_key(&self.records, key) {
            Some(i) => Some(&self.records[i].1),
            None => None,
        }
    }

    /// Installs `record` as the record of `key`, replacing any earlier one.
    pub fn insert(&mut self, key: String, record: FileCache)
        ensures
            final(self)@ == old(self)@.insert(key@, record@),
    {
        proof {
            use_type_invariant(&*self);
        }
        let mut records: Vec<(String, FileCache)> = Vec::new();
        std::mem::swap(&mut records, &mut self.records);
        put_key(&mut records, key, record);
        self.records = records;
    }
}

} // verus!
