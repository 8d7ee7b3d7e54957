//! Where the local copy of a table lives: one directory per table under a
//! root, holding a sidecar with the last manifest and one file per data file.

use vstd::prelude::*;

verus! {

/// `base/name`, without a second separator when `base` already ends in one,
/// and just `name` when `base` is empty.
pub open spec fn joined(base: Seq<char>, name: Seq<char>) -> Seq<char> {
    if base.len() == 0 || base.last() == '/' {
        base + name
    } else {
        base + seq!['/'] + name
    }
}

/// The directory of the table with key `key`.
pub open spec fn table_dir(root: Seq<char>, key: Seq<char>) -> Seq<char> {
    joined(root, key)
}

/// The local copy of the data file with id `id`: `{id}.snappy.parquet`.
pub open spec fn data_file_path(dir: Seq<char>, id: Seq<char>) -> Seq<char> {
    joined(dir, id + ".snappy.parquet"@)
}

/// The sidecar of a table directory: `metadata.json`.
pub open spec fn sidecar_path(dir: Seq<char>) -> Seq<char> {
    joined(dir, "metadata.json"@)
}

/// Appends `name` to `base` as a path component.
pub fn join_path(base: &String, name: &str) -> (r: String)
    ensures
        r@ == joined(base@, name@),
{
    let mut r = base.clone();
    let n = base.as_str().unicode_len();
    if n > 0 && base.as_str().get_char(n - 1) != '/' {
        r.append("/");
        proof {
            reveal_strlit("/");
        }
    }
    r.append(name);
    r
}

/// The directory of the table with key `key` under `root`.
pub fn table_dir_path(root: &String, key: &String) -> (r: String)
    ensures
        r@ == table_dir(root@, key@),
{
    join_path(root, key.as_str())
}

/// The local path of the data file with id `id` in directory `dir`.
pub fn data_file_path_in(dir: &String, id: &String) -> (r: String)
    ensures
        r@ == data_file_path(dir@, id@),
{
    let mut name = id.clone();
    name.append(".snappy.parquet");
    join_path(dir, name.as_str())
}

/// The sidecar path of directory `dir`.
pub fn sidecar_path_in(dir: &String) -> (r: String)
    ensures
        r@ == sidecar_path(dir@),
{
    join_path(dir, "metadata.json")
}

} // verus!
