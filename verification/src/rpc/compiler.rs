//! A compiler that only so many callers use at a time.
use std::sync::{Arc, MutexGuard};
use vstd::prelude::*;

use crate::shared::share;
use crate::sync::semaphore::{Semaphore, SemaphorePermit};

verus! {

/// Sierra to CASM compiler wrapper for the RPC layer. The resource limits and the setting for
/// library functions are the compiler's own and are handed to it as they are.
pub struct PathfinderCompiler<R, L> {
    concurrency_limit: Arc<Semaphore>,
    resource_limits: R,
    blockifier_libfuncs: L,
}

impl<R: Copy, L: Copy> PathfinderCompiler<R, L> {
    /// The number of callers that compile at a time.
    pub closed spec fn limit(self) -> usize {
        self.concurrency_limit.capacity()
    }

    /// The semaphore that callers take their permits from.
    pub closed spec fn permits(self) -> Semaphore {
        *self.concurrency_limit
    }

    /// The resource limits that the compiler is given.
    pub closed spec fn resource_limits(self) -> R {
        self.resource_limits
    }

    /// The setting for library functions that the compiler is given.
    pub closed spec fn blockifier_libfuncs(self) -> L {
        self.blockifier_libfuncs
    }

    /// Creates a new Sierra to CASM compiler.
    pub fn new(concurrency_limit: usize, resource_limits: R, blockifier_libfuncs: L) -> (r: Self)
        requires
            concurrency_limit > 0,
        ensures
            r.limit() == concurrency_limit,
            r.resource_limits() == resource_limits,
            r.blockifier_libfuncs() == blockifier_libfuncs,
    {
        PathfinderCompiler {
            concurrency_limit: Arc::new(Semaphore::new(concurrency_limit)),
            resource_limits,
            blockifier_libfuncs,
        }
    }

    /// The same compiler, under the same limit.
    pub fn copy(&self) -> (r: Self)
        ensures
            r == *self,
    {
        PathfinderCompiler {
            concurrency_limit: share(&self.concurrency_limit),
            resource_limits: self.resource_limits,
            blockifier_libfuncs: self.blockifier_libfuncs,
        }
    }

    /// Compiles a Sierra definition to CASM with the given compiler, while a permit is held.
    ///
    /// This is a blocking function. When used inside an async runtime, it should be called on a
    /// blocking thread.
    pub fn compile_sierra_to_casm<F: Fn(&Vec<u8>, R, L) -> Result<Vec<u8>, String>>(
        &self,
        sierra_definition: &Vec<u8>,
        compile: F,
    ) -> (r: Result<Vec<u8>, String>)
        requires
            call_requires(
                compile,
                (sierra_definition, self.resource_limits(), self.blockifier_libfuncs()),
            ),
        ensures
            call_ensures(
                compile,
                (sierra_definition, self.resource_limits(), self.blockifier_libfuncs()),
                r,
            ),
            exists|before: MutexGuard<'_, usize>, after: MutexGuard<'_, usize>|
                self.permits().takes_permit(before, after),
    {
        let permit: SemaphorePermit<'_> = self.concurrency_limit.acquire();
        assert(permit.origin() == self.permits());
        self.compile_with_permit(&permit, sierra_definition, compile)
    }

    /// Compiles for the holder of a permit.
    fn compile_with_permit<F: Fn(&Vec<u8>, R, L) -> Result<Vec<u8>, String>>(
        &self,
        permit: &SemaphorePermit<'_>,
        sierra_definition: &Vec<u8>,
        compile: F,
    ) -> (r: Result<Vec<u8>, String>)
        requires
            permit.origin() == self.permits(),
            call_requires(
                compile,
                (sierra_definition, self.resource_limits(), self.blockifier_libfuncs()),
            ),
        ensures
            call_ensures(
                compile,
                (sierra_definition, self.resource_limits(), self.blockifier_libfuncs()),
                r,
            ),
    {
        compile(sierra_definition, self.resource_limits, self.blockifier_libfuncs)
    }
}

/// The limit on the callers is the number of permits that there are to take.
pub proof fn law_limit_is_the_number_of_permits<R: Copy, L: Copy>(c: PathfinderCompiler<R, L>)
    ensures
        c.limit() == c.permits().capacity(),
{
}

} // verus!
