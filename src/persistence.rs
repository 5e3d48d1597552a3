use crate::domain::{ChangelistEntry, LevelInfo};
use vstd::prelude::*;

verus! {

/// anyhow's error type, carried through unchanged.
#[verifier::external_type_specification]
#[verifier::external_body]
pub struct ExAnyhowError(anyhow::Error);

/// Why stored data could not be loaded.
#[derive(Debug)]
pub enum LoadError {
    /// Nothing was stored yet.
    DoesNotExist,
    /// The data is there but could not be read or parsed.
    Other(anyhow::Error),
}

/// Durable storage of the last snapshot and of the changelist.
pub trait Persistence {
    fn load_query_results(&self) -> Result<Vec<LevelInfo>, LoadError>;

    fn save_query_results(&self, query_results: &[LevelInfo]) -> Result<(), anyhow::Error>;

    fn load_changelist(&self) -> Result<Vec<ChangelistEntry>, LoadError>;

    fn save_changelist(&self, changelist: &[ChangelistEntry]) -> Result<(), anyhow::Error>;
}

/// Storage as two JSON files: the snapshot's and the changelist's.
#[derive(Debug, Clone)]
pub struct FileJson {
    pub query_results_path: String,
    pub changelist_path: String,
}

impl FileJson {
    pub fn new(query_results_path: String, changelist_path: String) -> (r: Self)
        ensures
            r.query_results_path@ == query_results_path@,
            r.changelist_path@ == changelist_path@,
    {
        FileJson { query_results_path, changelist_path }
    }
}

} // verus!
