//! The per-worker scan step: matching, batching and the flush policy.
//!
//! Each worker derives one candidate per iteration and hands it to its
//! scanner, which tests the candidate's address against the shared index,
//! keeps matches in a private bounded batch, and decides when the batch
//! must be handed over for durable recording: when it has reached its size
//! bound, or at every reporting-interval boundary, whichever comes first.
//! An empty batch is never handed over. The unbounded loop itself, the
//! clock and the file live outside; the library owns every decision.

use crate::index::AddressIndex;
use crate::keys::KeyMaterial;
use vstd::prelude::*;

verus! {

/// What one scan step decided: a batch to record durably now, if any, and
/// whether the worker is due for its periodic progress observation.
pub struct StepOutcome {
    pub flush: Option<Vec<KeyMaterial>>,
    pub report: bool,
}

/// One worker's scan state: its private match batch and its counters.
pub struct Scanner {
    /// Flush the batch once it holds this many matches.
    pub batch_bound: usize,
    /// Flush and report at every multiple of this many iterations.
    pub report_interval: u64,
    /// Iterations performed so far.
    pub count: u64,
    /// Matches found and not yet handed over for recording.
    pub batch: Vec<KeyMaterial>,
}

impl Scanner {
    /// Well-formedness: positive configuration, a batch below its bound
    /// whose entries are all well-formed records-to-be.
    pub open spec fn wf(&self) -> bool {
        &&& self.batch_bound >= 1
        &&& self.report_interval >= 1
        &&& self.batch@.len() < self.batch_bound
        &&& forall|i: int| 0 <= i < self.batch@.len() ==> (#[trigger] self.batch@[i])@.wf()
    }

    /// A fresh scanner; `None` exactly when a bound is zero.
    pub fn new(batch_bound: usize, report_interval: u64) -> (r: Option<Scanner>)
        ensures
            r is Some <==> batch_bound >= 1 && report_interval >= 1,
            r matches Some(s) ==> s.wf() && s.batch_bound == batch_bound && s.report_interval
                == report_interval && s.count == 0 && s.batch@.len() == 0,
    {
        if batch_bound >= 1 && report_interval >= 1 {
            Some(Scanner { batch_bound, report_interval, count: 0, batch: Vec::new() })
        } else {
            None
        }
    }

    /// The batch after one candidate was tested: grown by the candidate
    /// iff its address is in the index.
    pub open spec fn grown_batch(
        self,
        km: KeyMaterial,
        index_set: Set<Seq<u8>>,
    ) -> Seq<KeyMaterial> {
        if index_set.contains(km@.address) {
            self.batch@.push(km)
        } else {
            self.batch@
        }
    }

    /// Whether a step that ends with `len` buffered matches at iteration
    /// `count` must hand the batch over.
    pub open spec fn must_flush(self, len: int, count: int) -> bool {
        (len >= self.batch_bound || count % (self.report_interval as int) == 0) && len > 0
    }

    /// One scan iteration: count it, keep the candidate iff its address
    /// is a target, and hand the batch over when the flush policy says so.
    pub fn step(&mut self, km: KeyMaterial, index: &AddressIndex) -> (out: StepOutcome)
        requires
            old(self).wf(),
            km.wf(),
            old(self).count < u64::MAX,
        ensures
            final (self).wf(),
            final (self).batch_bound == old(self).batch_bound,
            final (self).report_interval == old(self).report_interval,
            final (self).count == old(self).count + 1,
            out.report == ((old(self).count + 1) % (old(self).report_interval as int) == 0),
            ({
                let grown = old(self).grown_batch(km, index@);
                if old(self).must_flush(grown.len() as int, old(self).count + 1) {
                    &&& out.flush matches Some(b) && b@ == grown
                    &&& final (self).batch@.len() == 0
                } else {
                    &&& out.flush is None
                    &&& final (self).batch@ == grown
                }
            }),
    {
        self.count = self.count + 1;
        let matched = index.contains(&km.address);
        if matched {
            self.batch.push(km);
        }
        let boundary = self.count % self.report_interval == 0;
        let full = self.batch.len() >= self.batch_bound;
        let flush = if (full || boundary) && self.batch.len() > 0 {
            let mut b: Vec<KeyMaterial> = Vec::new();
            core::mem::swap(&mut b, &mut self.batch);
            Some(b)
        } else {
            None
        };
        StepOutcome { flush, report: boundary }
    }

    /// Hand over whatever the batch still holds, for a final flush before
    /// an orderly stop; `None` iff the batch is empty, which keeps empty
    /// batches out of the log.
    pub fn take_batch(&mut self) -> (r: Option<Vec<KeyMaterial>>)
        requires
            old(self).wf(),
        ensures
            final (self).wf(),
            final (self).batch_bound == old(self).batch_bound,
            final (self).report_interval == old(self).report_interval,
            final (self).count == old(self).count,
            final (self).batch@.len() == 0,
            old(self).batch@.len() == 0 ==> r is None,
            old(self).batch@.len() > 0 ==> (r matches Some(b) && b@ == old(self).batch@),
    {
        if self.batch.len() > 0 {
            let mut b: Vec<KeyMaterial> = Vec::new();
            core::mem::swap(&mut b, &mut self.batch);
            Some(b)
        } else {
            None
        }
    }
}

/// The worker count the orchestrator runs with: an explicit positive
/// override wins; otherwise one worker per logical core, and at least one.
pub fn worker_count(requested: Option<usize>, cores: usize) -> (n: usize)
    ensures
        n >= 1,
        requested matches Some(k) ==> (k >= 1 ==> n == k),
        (requested is None || requested == Some(0usize)) ==> n == (if cores >= 1 {
            cores
        } else {
            1
        }),
{
    match requested {
        Some(k) => if k >= 1 {
            k
        } else if cores >= 1 {
            cores
        } else {
            1
        },
        None => if cores >= 1 {
            cores
        } else {
            1
        },
    }
}

} // verus!
