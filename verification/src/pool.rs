//! Worker pools: interchangeable execution backends that drive a pipeline
//! to a terminal aggregate. The local pool is the single-threaded
//! correctness baseline; the thread and process pools split the input into
//! per-worker batches, hand each batch to an independent unit of work, and
//! join the results in order. Every backend is proved to return exactly
//! what the pipeline's specification names, so the three agree.

use vstd::prelude::*;

use crate::pipeline::{
    item_view, items_of, ops_of, run_ops, lemma_run_ops_append, Item, Pipeline,
};

verus! {

/// The worker count a pool is given when its caller names none.
pub const DEFAULT_WORKERS: usize = 10;

/// A pool cannot be built without at least one worker.
#[derive(Debug, PartialEq, Eq, Structural, Clone, Copy)]
pub enum PoolError {
    NoWorkers,
}

/// The single-thread cooperative backend.
pub struct LocalPool;

impl LocalPool {
    /// A fresh local pool.
    pub fn new() -> LocalPool {
        LocalPool
    }

    /// Consume the whole pipeline into an owned sequence.
    pub fn collect(&self, p: &Pipeline, input: Vec<Item>) -> (r: Vec<Item>)
        ensures
            items_of(r@) == run_ops(ops_of(p.ops@), items_of(input@)),
    {
        p.run(input)
    }

    /// Consume the whole pipeline and return the item count.
    pub fn count(&self, p: &Pipeline, input: Vec<Item>) -> (n: usize)
        ensures
            n == run_ops(ops_of(p.ops@), items_of(input@)).len(),
    {
        let r = self.collect(p, input);
        r.len()
    }
}

/// Split the input into per-worker batches, run each batch as an
/// independent unit of work, and join the results in batch order. This is
/// the verified split/join logic every parallel backend shares; the
/// parallel execution of the units themselves — threads, processes — is
/// transport the library does not hold, and cannot change the result
/// because each unit is a function of the shared descriptors and its own
/// batch alone.
fn run_batched(workers: usize, p: &Pipeline, input: Vec<Item>) -> (r: Vec<Item>)
    requires
        workers >= 1,
    ensures
        items_of(r@) == run_ops(ops_of(p.ops@), items_of(input@)),
{
    let ghost opsv = ops_of(p.ops@);
    let ghost g0 = items_of(input@);
    let n = input.len();
    let mut step = n / workers;
    if step == 0 {
        step = 1;
    }
    let mut rest = input;
    let mut out: Vec<Item> = Vec::new();
    let mut done: usize = 0;
    proof {
        assert(g0.subrange(0, 0) =~= Seq::<crate::pipeline::ItemV>::empty());
        assert(run_ops(opsv, Seq::empty()).len() == 0) by {
            lemma_run_ops_append(opsv, Seq::empty(), Seq::empty());
            assert(Seq::<crate::pipeline::ItemV>::empty() + Seq::<
                crate::pipeline::ItemV,
            >::empty() =~= Seq::<crate::pipeline::ItemV>::empty());
        }
        assert(items_of(out@) =~= run_ops(opsv, g0.subrange(0, 0)));
    }
    while rest.len() > 0
        invariant
            step >= 1,
            done + rest@.len() == n,
            n == g0.len(),
            opsv == ops_of(p.ops@),
            forall|j: int| 0 <= j < rest@.len() ==> item_view(rest@[j]) == g0[done + j],
            items_of(out@) == run_ops(opsv, g0.subrange(0, done as int)),
        decreases rest@.len(),
    {
        let take = if step < rest.len() {
            step
        } else {
            rest.len()
        };
        let ghost rest_pre = rest@;
        let tail = rest.split_off(take);
        let batch = rest;
        rest = tail;
        let ghost batch_v = items_of(batch@);
        proof {
            assert(batch_v =~= g0.subrange(done as int, done as int + take as int));
        }
        let mut part = worker_unit(p, batch);
        let ghost out_pre = out@;
        let ghost part_v = part@;
        out.append(&mut part);
        proof {
            assert(items_of(out@) =~= items_of(out_pre) + items_of(part_v));
            lemma_run_ops_append(opsv, g0.subrange(0, done as int), batch_v);
            assert(g0.subrange(0, done as int) + batch_v =~= g0.subrange(
                0,
                done as int + take as int,
            ));
            assert forall|j: int| 0 <= j < rest@.len() implies item_view(rest@[j]) == g0[done
                + take + j] by {
                assert(rest@[j] == rest_pre[take + j]);
            }
        }
        done = done + take;
    }
    proof {
        assert(g0.subrange(0, done as int) =~= g0);
    }
    out
}

/// One self-contained unit of work: a worker takes the shared pipeline
/// definition and its batch, and pulls the batch through the whole chain.
/// It captures nothing but its arguments, so any worker — a thread or a
/// separate process replaying the same descriptors — computes the same
/// items.
pub fn worker_unit(p: &Pipeline, batch: Vec<Item>) -> (r: Vec<Item>)
    ensures
        items_of(r@) == run_ops(ops_of(p.ops@), items_of(batch@)),
{
    p.run(batch)
}

/// The fixed-size worker-thread backend: shared memory, work split across
/// workers, each worker running `worker_unit` on its batch. What is
/// verified here is the batch split/join logic and the per-unit result;
/// the thread scheduling itself lives outside the library.
pub struct ThreadPool {
    workers: usize,
}

impl ThreadPool {
    /// Whether this pool was built by `new`.
    pub closed spec fn wf(self) -> bool {
        self.workers >= 1
    }

    /// The worker count this pool was built with.
    pub closed spec fn spec_workers(self) -> int {
        self.workers as int
    }

    /// A pool with the default worker count.
    pub fn new_default() -> (p: ThreadPool)
        ensures
            p.wf(),
            p.spec_workers() == DEFAULT_WORKERS as int,
    {
        ThreadPool { workers: DEFAULT_WORKERS }
    }

    /// A pool of `workers` threads; at least one worker is required.
    pub fn new(workers: usize) -> (r: Result<ThreadPool, PoolError>)
        ensures
            workers == 0 <==> r is Err,
            r matches Ok(p) ==> p.wf() && p.spec_workers() == workers,
            r matches Err(e) ==> e == PoolError::NoWorkers,
    {
        if workers == 0 {
            Result::Err(PoolError::NoWorkers)
        } else {
            Result::Ok(ThreadPool { workers })
        }
    }

    /// Consume the whole pipeline into an owned sequence; equal to the
    /// local pool's result.
    pub fn collect(&self, p: &Pipeline, input: Vec<Item>) -> (r: Vec<Item>)
        requires
            self.wf(),
        ensures
            items_of(r@) == run_ops(ops_of(p.ops@), items_of(input@)),
    {
        run_batched(self.workers, p, input)
    }

    /// Consume the whole pipeline and return the item count; equal to the
    /// local pool's count.
    pub fn count(&self, p: &Pipeline, input: Vec<Item>) -> (n: usize)
        requires
            self.wf(),
        ensures
            n == run_ops(ops_of(p.ops@), items_of(input@)).len(),
    {
        let r = self.collect(p, input);
        r.len()
    }
}

/// The multi-process backend: a configurable number of isolated worker
/// processes with a per-worker resource budget. A worker receives only the
/// pipeline's operator descriptors and its batch — both plain data, fit to
/// cross a process boundary — and runs the same `worker_unit`, so the
/// terminal aggregate equals the other backends'. As with the thread pool,
/// the verified part is the batch split/join logic and each unit's result;
/// the process plumbing lives outside the library.
pub struct ProcessPool {
    workers: usize,
    budget: usize,
}

impl ProcessPool {
    /// Whether this pool was built by `new`.
    pub closed spec fn wf(self) -> bool {
        self.workers >= 1
    }

    /// The worker count this pool was built with.
    pub closed spec fn spec_workers(self) -> int {
        self.workers as int
    }

    /// The per-worker resource budget this pool was built with.
    pub closed spec fn spec_budget(self) -> int {
        self.budget as int
    }

    /// A pool with the default worker count, each worker granted `budget`
    /// resource units.
    pub fn new_default(budget: usize) -> (p: ProcessPool)
        ensures
            p.wf(),
            p.spec_workers() == DEFAULT_WORKERS as int,
            p.spec_budget() == budget,
    {
        ProcessPool { workers: DEFAULT_WORKERS, budget }
    }

    /// A pool of `workers` processes, each granted `budget` resource
    /// units; at least one worker is required.
    pub fn new(workers: usize, budget: usize) -> (r: Result<ProcessPool, PoolError>)
        ensures
            workers == 0 <==> r is Err,
            r matches Ok(p) ==> p.wf() && p.spec_workers() == workers && p.spec_budget()
                == budget,
            r matches Err(e) ==> e == PoolError::NoWorkers,
    {
        if workers == 0 {
            Result::Err(PoolError::NoWorkers)
        } else {
            Result::Ok(ProcessPool { workers, budget })
        }
    }

    /// Consume the whole pipeline into an owned sequence; equal to the
    /// local pool's result.
    pub fn collect(&self, p: &Pipeline, input: Vec<Item>) -> (r: Vec<Item>)
        requires
            self.wf(),
        ensures
            items_of(r@) == run_ops(ops_of(p.ops@), items_of(input@)),
    {
        run_batched(self.workers, p, input)
    }

    /// Consume the whole pipeline and return the item count; equal to the
    /// local pool's count.
    pub fn count(&self, p: &Pipeline, input: Vec<Item>) -> (n: usize)
        requires
            self.wf(),
        ensures
            n == run_ops(ops_of(p.ops@), items_of(input@)).len(),
    {
        let r = self.collect(p, input);
        r.len()
    }
}

/// The backend-equivalence law: whatever the split into worker batches, the
/// joined output of per-batch runs equals the one-batch run, so every
/// backend's terminal `count` and `collect` agree with the local baseline.
/// This is `lemma_run_ops_append` read as a statement about two workers; a
/// pool applies it once per batch boundary.
pub proof fn lemma_backend_equivalence(
    ops: Seq<crate::pipeline::OpV>,
    a: Seq<crate::pipeline::ItemV>,
    b: Seq<crate::pipeline::ItemV>,
)
    ensures
        run_ops(ops, a + b) == run_ops(ops, a) + run_ops(ops, b),
        run_ops(ops, a + b).len() == run_ops(ops, a).len() + run_ops(ops, b).len(),
{
    lemma_run_ops_append(ops, a, b);
}

} // verus!
