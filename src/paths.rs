//! Where the backends keep their files under the storage path.

use vstd::prelude::*;
use crate::crypto::{chars_of, string_of};

verus! {

/// Name of the JSON backend's store file.
pub const STORE_FILE_NAME: &'static str = "store.json";

/// Name of the file backend's metadata file.
pub const META_DATA_FILE_NAME: &'static str = "kvsd-meta-data.json";

/// The path of the file `name` in the directory `dir`.
pub fn file_in(dir: &str, name: &str) -> (r: String)
    ensures
        r@ == dir@ + seq!['/'] + name@,
{
    let mut cs = chars_of(dir);
    cs.push('/');
    let ns = chars_of(name);
    cs.extend_from_slice(ns.as_slice());
    proof {
        assert(cs@ =~= dir@ + seq!['/'] + name@);
    }
    string_of(cs.as_slice())
}

/// The path of the JSON backend's store file under `path`.
pub fn store_file_path(path: &str) -> (r: String)
    ensures
        r@ == path@ + seq!['/'] + STORE_FILE_NAME@,
{
    file_in(path, STORE_FILE_NAME)
}

/// The path of the file backend's metadata file under `path`.
pub fn meta_data_file_path(path: &str) -> (r: String)
    ensures
        r@ == path@ + seq!['/'] + META_DATA_FILE_NAME@,
{
    file_in(path, META_DATA_FILE_NAME)
}

} // verus!
