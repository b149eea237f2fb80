//! Thread pools: a capability for offloading one-shot jobs.  A spawned
//! job must satisfy its own precondition; a verified job therefore
//! cannot panic, and the pool keeps running whatever a job does.

use vstd::prelude::*;

use crate::error::Error;
use rayon::ThreadPool as RayonPool;

verus! {

/// A pool of workers that runs one-shot jobs to completion.
pub trait ThreadPool: Sized {
    /// Create a pool, immediately provisioning the requested number of
    /// worker threads.  Fails if provisioning fails.
    fn new(threads: u32) -> Result<Self, Error>;

    /// Hand a job to the pool.  Spawning always succeeds; the job runs
    /// exactly once, on some worker, at some later time.
    fn spawn<F: FnOnce() + Send + 'static>(&self, job: F)
        requires
            job.requires(()),
    ;
}

/// Declares the work-stealing pool of the `rayon` crate.
#[verifier::external_type_specification]
#[verifier::external_body]
pub struct ExRayonPool(RayonPool);

/// Declares rayon's pool-provisioning error so a wrapper can return
/// it.
#[verifier::external_type_specification]
#[verifier::external_body]
pub struct ExRayonBuildError(rayon::ThreadPoolBuildError);

/// Relies on rayon::ThreadPoolBuilder::build: provisions a
/// work-stealing pool with the requested number of threads, or reports
/// why it could not.
#[verifier::external_body]
fn rayon_build(threads: usize) -> Result<rayon::ThreadPool, rayon::ThreadPoolBuildError> {
    rayon::ThreadPoolBuilder::new().num_threads(threads).build()
}

/// Relies on rayon::ThreadPool::spawn: hands the job to the pool,
/// which runs it exactly once on some worker.
#[verifier::external_body]
fn rayon_spawn<F: FnOnce() + Send + 'static>(pool: &rayon::ThreadPool, job: F)
    requires
        job.requires(()),
{
    pool.spawn(job)
}

/// The delegating pool: forwards construction and spawning to an
/// external work-stealing pool.
pub struct RayonThreadPool {
    pool: rayon::ThreadPool,
}

impl ThreadPool for RayonThreadPool {
    /// Provision the external pool; a provisioning failure is reported
    /// as the pool-build error.
    fn new(threads: u32) -> (r: Result<Self, Error>)
        ensures
            r matches Err(e) ==> e is ThreadPoolBuild,
    {
        match rayon_build(threads as usize) {
            Ok(pool) => Ok(RayonThreadPool { pool }),
            Err(e) => Err(Error::ThreadPoolBuild(e.to_string())),
        }
    }

    fn spawn<F: FnOnce() + Send + 'static>(&self, job: F) {
        rayon_spawn(&self.pool, job)
    }
}

} // verus!
