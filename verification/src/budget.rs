//! Division of the worker budget between files and the entries of one file.

use vstd::prelude::*;

verus! {

/// The number of entries of one file that may be in flight at once: the
/// total worker budget divided by the number of files handled at once,
/// rounded down, and at least one.
pub open spec fn entry_budget_of(jobs: int, files: int) -> int {
    if jobs / files < 1 {
        1
    } else {
        jobs / files
    }
}

/// Derives the entry-level budget from the total budget `jobs` and the
/// file-level budget `files`.
pub fn entry_budget(jobs: usize, files: usize) -> (entries: usize)
    requires
        files > 0,
    ensures
        entries == entry_budget_of(jobs as int, files as int),
        entries >= 1,
{
    let share: usize = jobs / files;
    if share < 1 {
        1
    } else {
        share
    }
}

/// The worker budget of a machine with `cores` cores where none is asked
/// for: one less than there are cores, and at least one.
pub open spec fn default_jobs_of(cores: int) -> int {
    if cores - 1 < 1 {
        1
    } else {
        cores - 1
    }
}

/// The worker budget of a machine with `cores` cores where none is asked
/// for.
pub fn jobs_for(cores: usize) -> (jobs: usize)
    ensures
        jobs == default_jobs_of(cores as int),
        jobs >= 1,
{
    if cores <= 1 {
        1
    } else {
        cores - 1
    }
}

/// `num_cpus::get_physical`: the number of physical cores of this machine.
/// It depends on the machine, so nothing is stated of it.
#[verifier::external_body]
fn physical_cores() -> usize {
    num_cpus::get_physical()
}

/// The worker budget of this machine where none is asked for: what
/// `jobs_for` makes of the number of its cores.
pub fn default_jobs() -> (jobs: usize)
    ensures
        jobs >= 1,
        exists|cores: int| cores >= 0 && jobs == #[trigger] default_jobs_of(cores),
{
    let cores = physical_cores();
    let jobs = jobs_for(cores);
    assert(jobs == default_jobs_of(cores as int));
    jobs
}

} // verus!
