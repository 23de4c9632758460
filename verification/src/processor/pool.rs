//! The processor: how many jobs may run at once.

use vstd::prelude::*;

verus! {

/// A processor of audio, with the number of jobs that may run at once.
pub struct Processor {
    pub max_concurrent: usize,
}

/// `num_cpus::get`: the number of processors of the machine, at least one.
#[verifier::external_body]
fn available_cpus() -> (n: usize)
    ensures
        n >= 1,
{
    num_cpus::get()
}

impl Processor {
    /// At least one job may run.
    pub open spec fn wf(self) -> bool {
        self.max_concurrent >= 1
    }

    /// A processor with the configured concurrency, or with one job for each of `cpus`
    /// processors.
    pub fn with_cpus(concurrency: Option<usize>, cpus: usize) -> (p: Processor)
        requires
            concurrency != Some(0usize),
            cpus >= 1,
        ensures
            p.wf(),
            p.max_concurrent == match concurrency {
                Some(n) => n,
                None => cpus,
            },
    {
        match concurrency {
            Some(n) => Processor { max_concurrent: n },
            None => Processor { max_concurrent: cpus },
        }
    }

    /// A processor with the configured concurrency, or with one job for each processor
    /// of the machine.
    pub fn new(concurrency: Option<usize>) -> (p: Processor)
        requires
            concurrency != Some(0usize),
        ensures
            p.wf(),
            concurrency is Some ==> p.max_concurrent == concurrency->Some_0,
    {
        Processor::with_cpus(concurrency, available_cpus())
    }
}

} // verus!
