//! The pool contract the server runs its handlers on, and the
//! implementation that delegates to rayon's work-stealing pool.  The naive
//! thread-per-task pool and the shared-queue pool live outside the library:
//! one spawns raw threads, the other's task queue carries boxed closures,
//! and the verifier takes neither.

use vstd::prelude::*;

use crate::error::KvsError;

verus! {

/// A pool of workers that run submitted tasks.
pub trait ThreadPool: Sized {
    /// Create a pool of `size` workers.
    fn new(size: u32) -> Result<Self, KvsError>;

    /// Hand a task to the pool.
    fn spawn<F: FnOnce() + Send + 'static>(&self, f: F)
        requires
            f.requires(()),
    ;

    /// Stop the workers; tasks may no longer be submitted.
    fn shutdown(&self);
}

/// rayon's pool-construction error, declared so that it can be classified.
#[verifier::external_type_specification]
#[verifier::external_body]
pub struct ExRayonBuildError(rayon::ThreadPoolBuildError);

/// rayon's pool, held whole behind an opaque handle.
#[verifier::external_body]
struct RayonPoolHandle {
    pool: rayon::ThreadPool,
}

/// Relies on rayon's ThreadPoolBuilder: build a pool of `threads` workers
/// (a count of zero asks rayon for its own default).
#[verifier::external_body]
fn rayon_build(threads: usize) -> (r: Result<RayonPoolHandle, rayon::ThreadPoolBuildError>) {
    rayon::ThreadPoolBuilder::new().num_threads(threads).build().map(
        |pool| RayonPoolHandle { pool },
    )
}

/// Relies on rayon's ThreadPool::spawn: run the task on some worker of the
/// pool.
#[verifier::external_body]
fn rayon_spawn<F: FnOnce() + Send + 'static>(handle: &RayonPoolHandle, f: F)
    requires
        f.requires(()),
{
    handle.pool.spawn(f)
}

/// The pool that delegates to rayon: a fixed worker set behind rayon's own
/// queue; rayon drains and joins its workers when the pool is dropped.
pub struct RayonThreadPool {
    pool: RayonPoolHandle,
}

impl ThreadPool for RayonThreadPool {
    fn new(size: u32) -> Result<Self, KvsError> {
        match rayon_build(size as usize) {
            Ok(pool) => Ok(RayonThreadPool { pool }),
            Err(e) => Err(KvsError::from(e)),
        }
    }

    fn spawn<F: FnOnce() + Send + 'static>(&self, f: F) {
        rayon_spawn(&self.pool, f);
    }

    fn shutdown(&self) {
    }
}

} // verus!
