//! Handles on the cells an activity opens.

use vstd::prelude::*;

verus! {

/// A handle on a cell an activity opened: the job that opened it and which of its cells it is.
#[derive(Clone, Copy, Debug, PartialEq, Eq, Hash, Structural)]
pub struct CellRef {
    job: u64,
    index: u32,
}

impl CellRef {
    /// The `index`-th cell opened by job `job`.
    pub fn new(job: u64, index: u32) -> (cell: CellRef)
        ensures
            cell.job_of() == job,
            cell.index_of() == index,
    {
        CellRef { job, index }
    }

    /// The job that opened the cell.
    pub closed spec fn job_of(self) -> u64 {
        self.job
    }

    /// Which of the job's cells it is.
    pub closed spec fn index_of(self) -> u32 {
        self.index
    }
}

} // verus!
