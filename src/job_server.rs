use vstd::prelude::*;

verus! {

/// Picks workers in turn: each job goes to the worker after the one before it.
pub struct WorkerRotation {
    pub next_worker: u32,
    pub worker_count: u32,
}

impl WorkerRotation {
    pub open spec fn wf(self) -> bool {
        self.next_worker < self.worker_count
    }

    pub fn new(worker_count: u32) -> (r: WorkerRotation)
        requires
            worker_count > 0,
        ensures
            r.wf(),
            r.next_worker == 0,
            r.worker_count == worker_count,
    {
        WorkerRotation { next_worker: 0, worker_count }
    }

    /// The worker to hand the next job to.
    pub fn select(&mut self) -> (w: u32)
        requires
            old(self).wf(),
        ensures
            final(self).wf(),
            w == old(self).next_worker,
            final(self).worker_count == old(self).worker_count,
            final(self).next_worker == (old(self).next_worker + 1) % (old(self).worker_count as int),
    {
        let w = self.next_worker;
        proof {
            let n = self.worker_count as int;
            if w + 1 == n {
                vstd::arithmetic::div_mod::lemma_fundamental_div_mod_converse_mod(w + 1, n, 1, 0);
            } else {
                vstd::arithmetic::div_mod::lemma_fundamental_div_mod_converse_mod(w + 1, n, 0, w + 1);
            }
        }
        self.next_worker = if w + 1 == self.worker_count { 0 } else { w + 1 };
        w
    }
}

} // verus!
