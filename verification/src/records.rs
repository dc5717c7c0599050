//! The record of one scanned file.

use vstd::prelude::*;

verus! {

/// One scanned file: its path and the timestamp the sort mode selected for
/// it, in whole seconds since the epoch.
#[derive(Debug)]
pub struct FileRecord {
    pub path: String,
    pub timestamp: u64,
}

impl Clone for FileRecord {
    fn clone(&self) -> (r: Self)
        ensures
            r == *self,
    {
        FileRecord { path: self.path.clone(), timestamp: self.timestamp }
    }
}

/// Records in ascending timestamp order (oldest first).
pub open spec fn sorted_by_time(s: Seq<FileRecord>) -> bool {
    forall|i: int, j: int|
        0 <= i <= j < s.len() ==> #[trigger] s[i].timestamp <= #[trigger] s[j].timestamp
}

} // verus!
