//! Plain records that handlers return to clients.

use vstd::prelude::*;

verus! {

/// One stored file, as listed to its owner: the storage identifier and
/// the name it was uploaded under.
#[derive(Debug)]
pub struct FileEntry {
    pub id: String,
    pub filename: String,
}

impl FileEntry {
    /// An entry with the given identifier and name.
    pub fn new(id: String, filename: String) -> (e: FileEntry)
        ensures
            e.id@ == id@,
            e.filename@ == filename@,
    {
        FileEntry { id, filename }
    }
}

} // verus!
