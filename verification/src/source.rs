//! The connector seam: given a scoped load, produce a local parquet path.
//!
//! The development connector points at `<dataset>.parquet` under a base directory.
use std::path::PathBuf;
use vstd::prelude::*;

use crate::error::DropletError;

verus! {

#[verifier::external_type_specification]
#[verifier::external_body]
pub struct ExPathBuf(PathBuf);

/// A scoped load; for now only the dataset's name.
pub struct LoadRequest {
    pub dataset: String,
}

/// The development connector: a dataset `d` is the file `d.parquet` under `base`.
pub struct LocalParquetSource {
    base: PathBuf,
}

/// The file name a dataset resolves to: the dataset name followed by `.parquet`.
pub open spec fn parquet_file_name(dataset: Seq<char>) -> Seq<char> {
    dataset + ".parquet"@
}

/// The file name of a dataset is the whole dataset name followed by `.parquet`: the name is
/// its prefix, `.parquet` the rest, and different datasets get different files.
pub proof fn law_file_name_keeps_whole_name(d: Seq<char>, e: Seq<char>)
    ensures
        parquet_file_name(d).len() == d.len() + 8,
        parquet_file_name(d).take(d.len() as int) == d,
        parquet_file_name(d).skip(d.len() as int) == ".parquet"@,
        d != e ==> parquet_file_name(d) != parquet_file_name(e),
{
    reveal_strlit(".parquet");
    assert(parquet_file_name(d).take(d.len() as int) == d);
    assert(parquet_file_name(d).skip(d.len() as int) == ".parquet"@);
    if d != e && parquet_file_name(d) == parquet_file_name(e) {
        assert(d.len() == e.len());
        assert(parquet_file_name(e).take(e.len() as int) == e);
    }
}

/// The path std's `Path::join` gives for `base` and the relative or absolute `name`.
pub uninterp spec fn joined_path(base: PathBuf, name: Seq<char>) -> PathBuf;

/// `base.join(name)`, from std's `Path::join`: a function of the base and the name alone,
/// which is all that is claimed of it.
#[verifier::external_body]
fn path_join(base: &PathBuf, name: &str) -> (r: PathBuf)
    ensures
        r == joined_path(*base, name@),
{
    base.join(name)
}

impl LocalParquetSource {
    /// The directory the connector looks in.
    pub closed spec fn base(&self) -> PathBuf {
        self.base
    }

    /// A connector that looks for datasets under `base`.
    pub fn new(base: PathBuf) -> (r: Self)
        ensures
            r.base() == base,
    {
        LocalParquetSource { base }
    }

    /// The file name that `req` resolves to.
    pub fn file_name(req: &LoadRequest) -> (r: String)
        ensures
            r@ == parquet_file_name(req.dataset@),
    {
        let mut name = req.dataset.clone();
        name.append(".parquet");
        name
    }

    /// The path that `req` resolves to: the base directory joined with the file name.
    pub fn candidate(&self, req: &LoadRequest) -> (r: PathBuf)
        ensures
            r == joined_path(self.base(), parquet_file_name(req.dataset@)),
    {
        let name = Self::file_name(req);
        path_join(&self.base, name.as_str())
    }

    /// The outcome of a load once the caller has looked on disk: the candidate path when the
    /// file exists, else `NotFound` naming the dataset.
    pub fn resolve(req: &LoadRequest, candidate: PathBuf, exists: bool) -> (r: Result<PathBuf, DropletError>)
        ensures
            exists ==> r == Ok::<PathBuf, DropletError>(candidate),
            !exists ==> (r matches Err(DropletError::NotFound(d)) && d@ == req.dataset@),
    {
        if exists {
            Ok(candidate)
        } else {
            Err(DropletError::NotFound(req.dataset.clone()))
        }
    }
}

} // verus!
