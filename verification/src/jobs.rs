//! The job engine: job identifiers and status, the running/failed job
//! registries, and the elastic worker pool.
//!
//! The pool here is the bookkeeping core of the runtime pool: which workers
//! exist, which are available, and which are started.  The surrounding
//! runtime owns the threads and channels and drives them exactly as the
//! contracts of these operations say.

use crate::models::app;
use crate::models::backup::Backup;
use crate::ssh;
use vstd::prelude::*;
use vstd::string::*;

pub mod backup;
pub mod maintenance;

verus! {

/// Errors of the job engine.
#[derive(Debug)]
pub enum Error {
    App(app::Error),
    Ssh(ssh::Error),
    NotFound(String),
    Send(String),
    Terminate(String),
    Pattern(String),
    Command(String),
    Failed(String),
}

/// The kind of a job derived from a backup: a one-shot transfer or a
/// continuous watch.
#[derive(Clone, Copy, PartialEq, Eq, Structural)]
pub enum Kind {
    BackupOnChange,
    Backup,
}

/// The status of a job id: running, failed, or completed (no record).
#[derive(Clone, Copy, PartialEq, Eq, Structural)]
pub enum Status {
    Running,
    Failed,
    Completed,
}

/// The actions arbitrating a watch kernel's loop: start it, let it take
/// another turn, or terminate it.
#[derive(Clone, Copy, PartialEq, Eq, Structural)]
pub enum ThreadAction {
    Start,
    Continue,
    Terminate,
}

/// A message on the pool's shared dispatch channel: a new job, named by its
/// id, or a terminate order for one worker.
pub enum Message {
    New(String),
    Terminate(usize),
}

/// What a worker thread sees of itself while running a job: its id.  The
/// runtime pairs it with the worker's local action channel.
#[derive(Clone, Copy, PartialEq, Eq, Structural)]
pub struct Arguments {
    pub id: usize,
}

/// What a worker does with one message from the shared channel: run the
/// named job, exit its loop, or drop the message.
pub enum WorkerStep {
    Run(String),
    Exit,
    Ignore,
}

/// The dispatch rule of a worker thread's loop: a new job is run; a
/// terminate order is obeyed when addressed to this worker and dropped
/// otherwise.
pub fn worker_step(worker_id: usize, message: Message) -> (s: WorkerStep)
    ensures
        s == match message {
            Message::New(job) => WorkerStep::Run(job),
            Message::Terminate(t) => if t == worker_id {
                WorkerStep::Exit
            } else {
                WorkerStep::Ignore
            },
        },
{
    match message {
        Message::New(job) => WorkerStep::Run(job),
        Message::Terminate(t) => if t == worker_id {
            WorkerStep::Exit
        } else {
            WorkerStep::Ignore
        },
    }
}

/// The turn-taking rule of a watch kernel: only `Terminate` stops the loop;
/// `Start` and `Continue` let it consume the next filesystem event.
pub fn thread_action_stops(action: &ThreadAction) -> (stop: bool)
    ensures
        stop == (action is Terminate),
{
    match action {
        ThreadAction::Terminate => true,
        ThreadAction::Start => false,
        ThreadAction::Continue => false,
    }
}

/// A registry mapping job ids to worker ids; the running and the failed
/// jobs each live in one of these.  Keys are unique.
pub struct JobTable {
    entries: Vec<(String, usize)>,
}

impl View for JobTable {
    type V = Seq<(Seq<char>, usize)>;

    closed spec fn view(&self) -> Seq<(Seq<char>, usize)> {
        self.entries@.map_values(|p: (String, usize)| (p.0@, p.1))
    }
}

impl JobTable {
    /// Keys are pairwise distinct.
    pub open spec fn wf(&self) -> bool {
        forall|i: int, j: int| 0 <= i < j < self@.len() ==> self@[i].0 != self@[j].0
    }

    /// The registry holds the id.
    pub open spec fn spec_contains(&self, id: Seq<char>) -> bool {
        exists|i: int| 0 <= i < self@.len() && self@[i].0 == id
    }

    /// An index at which the id stands.
    pub open spec fn spec_index_of(&self, id: Seq<char>) -> int {
        choose|i: int| 0 <= i < self@.len() && self@[i].0 == id
    }

    /// The worker id recorded for the job id.
    pub open spec fn spec_get(&self, id: Seq<char>) -> usize {
        self@[self.spec_index_of(id)].1
    }

    /// In a well-formed registry, any index holding `id` is the index of
    /// `id`, and the value there is what the registry records for it.
    pub proof fn lemma_get_at(&self, i: int)
        requires
            self.wf(),
            0 <= i < self@.len(),
        ensures
            self.spec_contains(self@[i].0),
            self.spec_index_of(self@[i].0) == i,
            self.spec_get(self@[i].0) == self@[i].1,
    {
        let id = self@[i].0;
        assert(self.spec_contains(id));
        let j = self.spec_index_of(id);
        if i < j {
            assert(self@[i].0 != self@[j].0);
        } else if j < i {
            assert(self@[j].0 != self@[i].0);
        }
    }

    /// An empty registry.
    pub fn new() -> (r: JobTable)
        ensures
            r@ =~= Seq::<(Seq<char>, usize)>::empty(),
            r.wf(),
            forall|k: Seq<char>| !r.spec_contains(k),
    {
        JobTable { entries: Vec::new() }
    }

    /// The number of recorded jobs.
    pub fn len(&self) -> (n: usize)
        ensures
            n == self@.len(),
    {
        self.entries.len()
    }

    /// The pair at one index, for walking the registry.
    pub fn entry_at(&self, i: usize) -> (r: (String, usize))
        requires
            i < self@.len(),
        ensures
            (r.0@, r.1) == self@[i as int],
    {
        let pair: &(String, usize) = &self.entries[i];
        (pair.0.clone(), pair.1)
    }

    /// Whether the registry holds the id, as `spec_contains` says.
    pub fn contains(&self, id: &String) -> (r: bool)
        ensures
            r == self.spec_contains(id@),
    {
        let n: usize = self.entries.len();
        let mut i: usize = 0;
        while i < n
            invariant
                n == self@.len(),
                0 <= i <= n,
                forall|j: int| 0 <= j < i ==> self@[j].0 != id@,
            decreases n - i,
        {
            if self.entries[i].0.eq(id) {
                assert(self@[i as int].0 == id@);
                return true;
            }
            i = i + 1;
        }
        false
    }

    /// The worker id recorded for the job id, if any.
    pub fn get(&self, id: &String) -> (r: Option<usize>)
        requires
            self.wf(),
        ensures
            r == if self.spec_contains(id@) {
                Some(self.spec_get(id@))
            } else {
                Option::<usize>::None
            },
    {
        let n: usize = self.entries.len();
        let mut i: usize = 0;
        while i < n
            invariant
                self.wf(),
                n == self@.len(),
                0 <= i <= n,
                forall|j: int| 0 <= j < i ==> self@[j].0 != id@,
            decreases n - i,
        {
            if self.entries[i].0.eq(id) {
                proof {
                    self.lemma_get_at(i as int);
                }
                return Some(self.entries[i].1);
            }
            i = i + 1;
        }
        None
    }

    /// Records `wid` for `id`, replacing any prior record of `id`.
    pub fn insert(&mut self, id: String, wid: usize)
        requires
            old(self).wf(),
        ensures
            final(self).wf(),
            final(self).spec_contains(id@),
            final(self).spec_get(id@) == wid,
            forall|k: Seq<char>|
                #[trigger] final(self).spec_contains(k) <==> old(self).spec_contains(k) || k == id@,
            forall|k: Seq<char>|
                k != id@ && old(self).spec_contains(k) ==> final(self).spec_get(k) == old(
                    self,
                ).spec_get(k),
            final(self)@.len() == old(self)@.len() + if old(self).spec_contains(id@) {
                0int
            } else {
                1int
            },
    {
        let ghost pre = *self;
        let n: usize = self.entries.len();
        let mut i: usize = 0;
        while i < n
            invariant
                *self == pre,
                pre == *old(self),
                pre.wf(),
                n == pre@.len(),
                0 <= i <= n,
                forall|j: int| 0 <= j < i ==> pre@[j].0 != id@,
            decreases n - i,
        {
            if self.entries[i].0.eq(&id) {
                proof {
                    pre.lemma_get_at(i as int);
                }
                self.entries[i] = (id, wid);
                proof {
                    assert(pre@[i as int].0 == id@);
                    assert(self@ =~= pre@.update(i as int, (pre@[i as int].0, wid)));
                    assert forall|k: Seq<char>|
                        #[trigger] self.spec_contains(k) <==> pre.spec_contains(k) || k
                        == pre@[i as int].0 by {
                        if self.spec_contains(k) {
                            let w = choose|w: int|
                                0 <= w < self@.len() && self@[w].0 == k;
                            assert(pre@[w].0 == k);
                            assert(pre.spec_contains(k));
                        }
                        if pre.spec_contains(k) {
                            let w = choose|w: int| 0 <= w < pre@.len() && pre@[w].0 == k;
                            assert(self@[w].0 == k);
                            assert(self.spec_contains(k));
                        }
                    }
                    assert forall|w: int, v: int|
                        0 <= w < v < self@.len() implies self@[w].0 != self@[v].0 by {
                        assert(pre@[w].0 != pre@[v].0);
                    }
                    assert forall|k: Seq<char>|
                        k != pre@[i as int].0 && pre.spec_contains(k) implies self.spec_get(k) == pre.spec_get(k) by {
                        let w = choose|w: int| 0 <= w < pre@.len() && pre@[w].0 == k;
                        assert(self@[w].0 == k);
                        pre.lemma_get_at(w);
                        self.lemma_get_at(w);
                    }
                    self.lemma_get_at(i as int);
                }
                return ;
            }
            i = i + 1;
        }
        self.entries.push((id, wid));
        proof {
            assert(self@ =~= pre@.push((id@, wid)));
            let last = pre@.len() as int;
            assert(self@[last].0 == id@);
            assert forall|w: int, v: int| 0 <= w < v < self@.len() implies self@[w].0 != self@[v].0 by {
                if v < last {
                    assert(pre@[w].0 != pre@[v].0);
                } else {
                    assert(pre@[w].0 != id@);
                }
            }
            assert forall|k: Seq<char>|
                #[trigger] self.spec_contains(k) <==> pre.spec_contains(k) || k == id@ by {
                if self.spec_contains(k) {
                    let w = choose|w: int| 0 <= w < self@.len() && self@[w].0 == k;
                    if w < last {
                        assert(pre@[w].0 == k);
                    }
                }
                if pre.spec_contains(k) {
                    let w = choose|w: int| 0 <= w < pre@.len() && pre@[w].0 == k;
                    assert(self@[w].0 == k);
                }
            }
            assert forall|k: Seq<char>|
                k != id@ && pre.spec_contains(k) implies self.spec_get(k) == pre.spec_get(
                k,
            ) by {
                let w = choose|w: int| 0 <= w < pre@.len() && pre@[w].0 == k;
                assert(self@[w].0 == k);
                pre.lemma_get_at(w);
                self.lemma_get_at(w);
            }
            self.lemma_get_at(last);
        }
    }

    /// Removes the record of `id`, returning the worker id it held.
    pub fn remove(&mut self, id: &String) -> (r: Option<usize>)
        requires
            old(self).wf(),
        ensures
            final(self).wf(),
            r == if old(self).spec_contains(id@) {
                Some(old(self).spec_get(id@))
            } else {
                Option::<usize>::None
            },
            !final(self).spec_contains(id@),
            forall|k: Seq<char>|
                k != id@ ==> (#[trigger] final(self).spec_contains(k) <==> old(
                    self,
                ).spec_contains(k)),
            forall|k: Seq<char>|
                k != id@ && old(self).spec_contains(k) ==> final(self).spec_get(k) == old(
                    self,
                ).spec_get(k),
            final(self)@.len() == old(self)@.len() - if old(self).spec_contains(id@) {
                1int
            } else {
                0int
            },
    {
        let ghost pre = *self;
        let n: usize = self.entries.len();
        let mut i: usize = 0;
        while i < n
            invariant
                *self == pre,
                pre == *old(self),
                pre.wf(),
                n == pre@.len(),
                0 <= i <= n,
                forall|j: int| 0 <= j < i ==> pre@[j].0 != id@,
            decreases n - i,
        {
            if self.entries[i].0.eq(id) {
                proof {
                    pre.lemma_get_at(i as int);
                }
                let removed: (String, usize) = self.entries.remove(i);
                proof {
                    assert(self@ =~= pre@.remove(i as int));
                    assert forall|w: int, v: int| 0 <= w < v < self@.len() implies self@[w].0 != self@[v].0 by {
                        let pw = if w < i as int {
                            w
                        } else {
                            w + 1
                        };
                        let pv = if v < i as int {
                            v
                        } else {
                            v + 1
                        };
                        assert(self@[w] == pre@[pw]);
                        assert(self@[v] == pre@[pv]);
                        assert(pre@[pw].0 != pre@[pv].0);
                    }
                    assert forall|k: Seq<char>| k != id@ implies (#[trigger] self.spec_contains(k) <==> pre.spec_contains(k)) by {
                        if self.spec_contains(k) {
                            let w = choose|w: int|
                                0 <= w < self@.len() && self@[w].0 == k;
                            let pw = if w < i as int {
                                w
                            } else {
                                w + 1
                            };
                            assert(pre@[pw].0 == k);
                        }
                        if pre.spec_contains(k) {
                            let w = choose|w: int| 0 <= w < pre@.len() && pre@[w].0 == k;
                            assert(w != i as int);
                            let nw = if w < i as int {
                                w
                            } else {
                                w - 1
                            };
                            assert(self@[nw].0 == k);
                        }
                    }
                    assert forall|k: Seq<char>|
                        k != id@ && pre.spec_contains(k) implies self.spec_get(k)
                        == pre.spec_get(k) by {
                        let w = choose|w: int| 0 <= w < pre@.len() && pre@[w].0 == k;
                        assert(w != i as int);
                        let nw = if w < i as int {
                            w
                        } else {
                            w - 1
                        };
                        assert(self@[nw].0 == k);
                        assert(self@[nw].1 == pre@[w].1);
                        pre.lemma_get_at(w);
                        self.lemma_get_at(nw);
                    }
                    if self.spec_contains(id@) {
                        let w = choose|w: int|
                            0 <= w < self@.len() && self@[w].0 == id@;
                        let pw = if w < i as int {
                            w
                        } else {
                            w + 1
                        };
                        assert(pre@[pw].0 == id@);
                        assert(pw != i as int);
                        pre.lemma_get_at(pw);
                    }
                }
                return Some(removed.1);
            }
            i = i + 1;
        }
        None
    }

    /// Removes every record.
    pub fn clear(&mut self)
        ensures
            final(self)@ =~= Seq::<(Seq<char>, usize)>::empty(),
            final(self).wf(),
            forall|k: Seq<char>| !final(self).spec_contains(k),
    {
        self.entries.clear();
    }
}

/// The bookkeeping state of one worker: its id, whether it is free for a
/// job, and whether its thread is running.  The thread itself and the local
/// action channel are owned by the runtime.
#[derive(Clone, Copy, PartialEq, Eq, Structural)]
pub struct Worker {
    pub id: usize,
    pub is_available: bool,
    pub started: bool,
}

impl Worker {
    /// A fresh worker: available, its thread not yet started.
    pub fn new(id: usize) -> (w: Worker)
        ensures
            w == (Worker { id, is_available: true, started: false }),
    {
        Worker { id, is_available: true, started: false }
    }

    /// Starting a worker spins its thread up and primes its local channel
    /// with `Start`; the bookkeeping records only that it is started.
    pub fn start(&mut self)
        ensures
            *final(self) == (Worker { started: true, ..*old(self) }),
    {
        self.started = true;
    }
}

/// The number of available workers in a sequence.
pub open spec fn count_available(ws: Seq<Worker>) -> nat
    decreases ws.len(),
{
    if ws.len() == 0 {
        0
    } else {
        count_available(ws.drop_last()) + if ws.last().is_available {
            1nat
        } else {
            0nat
        }
    }
}

/// Flipping one worker changes the count by exactly its own contribution.
pub proof fn lemma_count_available_update(ws: Seq<Worker>, i: int, w: Worker)
    requires
        0 <= i < ws.len(),
    ensures
        count_available(ws.update(i, w)) == count_available(ws) - (if ws[i].is_available {
            1int
        } else {
            0int
        }) + (if w.is_available {
            1int
        } else {
            0int
        }),
    decreases ws.len(),
{
    let upd = ws.update(i, w);
    if i == ws.len() - 1 {
        assert(upd.drop_last() =~= ws.drop_last());
        assert(upd.last() == w);
    } else {
        lemma_count_available_update(ws.drop_last(), i, w);
        assert(upd.drop_last() =~= ws.drop_last().update(i, w));
        assert(upd.last() == ws.last());
    }
}

pub proof fn lemma_count_available_push(ws: Seq<Worker>, w: Worker)
    ensures
        count_available(ws.push(w)) == count_available(ws) + if w.is_available {
            1int
        } else {
            0int
        },
{
    assert(ws.push(w).drop_last() =~= ws);
}

/// A positive count names an available worker, and conversely.
pub proof fn lemma_count_available_pos(ws: Seq<Worker>)
    ensures
        count_available(ws) > 0 <==> exists|i: int| 0 <= i < ws.len() && ws[i].is_available,
    decreases ws.len(),
{
    if ws.len() > 0 {
        lemma_count_available_pos(ws.drop_last());
        if ws.last().is_available {
            assert(ws[ws.len() - 1].is_available);
        } else {
            if exists|i: int| 0 <= i < ws.len() && ws[i].is_available {
                let i = choose|i: int| 0 <= i < ws.len() && ws[i].is_available;
                assert(ws.drop_last()[i].is_available);
            }
        }
    }
}

/// The elastic pool of workers, as bookkeeping: the runtime owns the
/// threads and the shared dispatch channel.
pub struct Pool {
    pub workers: Vec<Worker>,
}

impl Pool {
    /// Worker ids are pairwise distinct and never exceed the pool size.
    pub open spec fn wf(&self) -> bool {
        &&& forall|i: int, j: int|
            0 <= i < j < self.workers@.len() ==> self.workers@[i].id != self.workers@[j].id
        &&& forall|i: int| 0 <= i < self.workers@.len() ==> #[trigger] self.workers@[i].id
            <= self.workers@.len()
    }

    /// The pool holds a worker with this id.
    pub open spec fn has_worker(&self, id: usize) -> bool {
        exists|i: int| 0 <= i < self.workers@.len() && self.workers@[i].id == id
    }

    /// The index of the worker with this id.
    pub open spec fn spec_worker_index(&self, id: usize) -> int {
        choose|i: int| 0 <= i < self.workers@.len() && self.workers@[i].id == id
    }

    /// A pool with `size` preallocated workers (none when `size` is
    /// absent), their threads not yet started.
    pub fn new(size: Option<usize>) -> (r: Pool)
        ensures
            r.wf(),
            r.workers@.len() == match size {
                Some(n) => n as int,
                None => 0int,
            },
            forall|i: int|
                0 <= i < r.workers@.len() ==> r.workers@[i] == (Worker {
                    id: i as usize,
                    is_available: true,
                    started: false,
                }),
            count_available(r.workers@) == r.workers@.len(),
    {
        let mut workers: Vec<Worker> = Vec::new();
        let n: usize = match size {
            Some(n) => n,
            None => 0,
        };
        let mut id: usize = 0;
        while id < n
            invariant
                0 <= id <= n,
                workers@.len() == id as int,
                forall|i: int|
                    0 <= i < id as int ==> workers@[i] == (Worker {
                        id: i as usize,
                        is_available: true,
                        started: false,
                    }),
                count_available(workers@) == id as int,
            decreases n - id,
        {
            let w = Worker { id, is_available: true, started: false };
            proof {
                lemma_count_available_push(workers@, w);
            }
            workers.push(w);
            id = id + 1;
        }
        Pool { workers }
    }

    /// The number of available workers, as `count_available` says.
    pub fn available_workers(&self) -> (n: usize)
        ensures
            n == count_available(self.workers@),
    {
        let len: usize = self.workers.len();
        let mut n: usize = 0;
        let mut i: usize = 0;
        while i < len
            invariant
                len == self.workers@.len(),
                0 <= i <= len,
                n == count_available(self.workers@.subrange(0, i as int)),
                n <= i,
            decreases len - i,
        {
            proof {
                assert(self.workers@.subrange(0, i + 1).drop_last() =~= self.workers@.subrange(
                    0,
                    i as int,
                ));
                assert(self.workers@.subrange(0, i + 1).last() == self.workers@[i as int]);
            }
            if self.workers[i].is_available {
                n = n + 1;
            }
            i = i + 1;
        }
        proof {
            assert(self.workers@.subrange(0, len as int) =~= self.workers@);
        }
        n
    }

    /// Adds and starts `size` workers; each new worker's id is one more
    /// than the pool size at its creation.  Adding none is a no-op.
    pub fn create_workers(&mut self, size: usize)
        requires
            old(self).wf(),
            old(self).workers@.len() + size <= usize::MAX,
        ensures
            final(self).wf(),
            final(self).workers@.len() == old(self).workers@.len() + size,
            forall|i: int|
                0 <= i < old(self).workers@.len() ==> final(self).workers@[i] == old(
                    self,
                ).workers@[i],
            forall|k: int|
                0 <= k < size ==> #[trigger] final(self).workers@[old(self).workers@.len() + k]
                    == (Worker {
                    id: (old(self).workers@.len() + k + 1) as usize,
                    is_available: true,
                    started: true,
                }),
            count_available(final(self).workers@) == count_available(old(self).workers@) + size,
    {
        let ghost pre = self.workers@;
        let mut k: usize = 0;
        while k < size
            invariant
                old(self).workers@.len() + size <= usize::MAX,
                pre == old(self).workers@,
                old(self).wf(),
                0 <= k <= size,
                self.workers@.len() == pre.len() + k,
                forall|i: int| 0 <= i < pre.len() ==> self.workers@[i] == pre[i],
                forall|m: int|
                    0 <= m < k ==> #[trigger] self.workers@[pre.len() + m] == (Worker {
                        id: (pre.len() + m + 1) as usize,
                        is_available: true,
                        started: true,
                    }),
                count_available(self.workers@) == count_available(pre) + k,
            decreases size - k,
        {
            let id: usize = self.workers.len() + 1;
            let w = Worker { id, is_available: true, started: true };
            proof {
                lemma_count_available_push(self.workers@, w);
            }
            self.workers.push(w);
            k = k + 1;
        }
        proof {
            assert forall|i: int, j: int|
                0 <= i < j < self.workers@.len() implies self.workers@[i].id
                != self.workers@[j].id by {
                if j < pre.len() {
                    assert(self.workers@[i] == pre[i]);
                    assert(self.workers@[j] == pre[j]);
                    assert(old(self).workers@[i].id != old(self).workers@[j].id);
                } else if i < pre.len() {
                    assert(self.workers@[i] == pre[i]);
                    assert(old(self).workers@[i].id <= old(self).workers@.len());
                    assert(self.workers@[pre.len() + (j - pre.len())].id == pre.len() + (j
                        - pre.len()) + 1);
                } else {
                    assert(self.workers@[pre.len() + (i - pre.len())].id == pre.len() + (i
                        - pre.len()) + 1);
                    assert(self.workers@[pre.len() + (j - pre.len())].id == pre.len() + (j
                        - pre.len()) + 1);
                }
            }
            assert forall|i: int| 0 <= i < self.workers@.len() implies #[trigger] self.workers@[i].id <= self.workers@.len() by {
                if i < pre.len() {
                    assert(self.workers@[i] == pre[i]);
                    assert(old(self).workers@[i].id <= old(self).workers@.len());
                } else {
                    assert(self.workers@[pre.len() + (i - pre.len())].id == pre.len() + (i
                        - pre.len()) + 1);
                }
            }
        }
    }

    /// Starts the thread of every worker that is available but stopped.
    pub fn start_all_stopped_workers(&mut self)
        ensures
            final(self).workers@.len() == old(self).workers@.len(),
            forall|i: int|
                0 <= i < old(self).workers@.len() ==> final(self).workers@[i] == (Worker {
                    started: old(self).workers@[i].started || old(self).workers@[i].is_available,
                    ..old(self).workers@[i]
                }),
            count_available(final(self).workers@) == count_available(old(self).workers@),
            old(self).wf() ==> final(self).wf(),
    {
        let ghost pre = self.workers@;
        let len: usize = self.workers.len();
        let mut i: usize = 0;
        while i < len
            invariant
                len == pre.len(),
                self.workers@.len() == pre.len(),
                0 <= i <= len,
                forall|j: int|
                    0 <= j < i as int ==> self.workers@[j] == (Worker {
                        started: pre[j].started || pre[j].is_available,
                        ..pre[j]
                    }),
                forall|j: int| i as int <= j < pre.len() ==> self.workers@[j] == pre[j],
                count_available(self.workers@) == count_available(pre),
            decreases len - i,
        {
            let ghost before = self.workers@;
            if self.workers[i].is_available && !self.workers[i].started {
                let id: usize = self.workers[i].id;
                self.workers[i] = Worker { id, is_available: true, started: true };
                proof {
                    lemma_count_available_update(before, i as int, self.workers@[i as int]);
                }
            }
            i = i + 1;
        }
    }

    /// Stops every worker: each terminate order is observed at the end of
    /// the current job, the loop sets the flag back to available, and the
    /// thread is joined.
    pub fn stop_all_workers(&mut self)
        ensures
            final(self).workers@.len() == old(self).workers@.len(),
            forall|i: int|
                0 <= i < old(self).workers@.len() ==> final(self).workers@[i] == (Worker {
                    id: old(self).workers@[i].id,
                    is_available: true,
                    started: false,
                }),
            old(self).wf() ==> final(self).wf(),
    {
        let ghost pre = self.workers@;
        let len: usize = self.workers.len();
        let mut i: usize = 0;
        while i < len
            invariant
                len == pre.len(),
                self.workers@.len() == pre.len(),
                0 <= i <= len,
                forall|j: int|
                    0 <= j < i as int ==> self.workers@[j] == (Worker {
                        id: pre[j].id,
                        is_available: true,
                        started: false,
                    }),
                forall|j: int| i as int <= j < pre.len() ==> self.workers@[j] == pre[j],
            decreases len - i,
        {
            let id: usize = self.workers[i].id;
            self.workers[i] = Worker { id, is_available: true, started: false };
            i = i + 1;
        }
    }

    /// Dispatches one job: an available worker takes it, a stopped one
    /// being started first; when none is available the pool grows by one.
    /// Returns the id of the worker that runs the job.
    pub fn execute(&mut self) -> (wid: usize)
        requires
            old(self).wf(),
            old(self).workers@.len() < usize::MAX,
        ensures
            final(self).wf(),
            final(self).has_worker(wid),
            count_available(old(self).workers@) > 0 ==> {
                let i = old(self).spec_available_index();
                &&& final(self).workers@ == old(self).workers@.update(
                    i,
                    Worker { id: old(self).workers@[i].id, is_available: false, started: true },
                )
                &&& wid == old(self).workers@[i].id
                &&& final(self).workers@.len() == old(self).workers@.len()
            },
            count_available(old(self).workers@) == 0 ==> {
                &&& final(self).workers@ == old(self).workers@.push(
                    Worker {
                        id: (old(self).workers@.len() + 1) as usize,
                        is_available: false,
                        started: true,
                    },
                )
                &&& wid == old(self).workers@.len() + 1
                &&& final(self).workers@.len() == old(self).workers@.len() + 1
            },
            count_available(final(self).workers@) == if count_available(old(self).workers@) > 0 {
                count_available(old(self).workers@) - 1
            } else {
                0int
            },
    {
        let ghost pre = *self;
        let len: usize = self.workers.len();
        let mut i: usize = 0;
        while i < len
            invariant
                *self == pre,
                pre == *old(self),
                pre.wf(),
                len == pre.workers@.len(),
                0 <= i <= len,
                forall|j: int| 0 <= j < i as int ==> !pre.workers@[j].is_available,
            decreases len - i,
        {
            if self.workers[i].is_available {
                let id: usize = self.workers[i].id;
                let w = Worker { id, is_available: false, started: true };
                self.workers[i] = w;
                proof {
                    lemma_count_available_update(pre.workers@, i as int, w);
                    lemma_count_available_pos(pre.workers@);
                    assert(exists|m: int| 0 <= m < pre.workers@.len()
                        && pre.workers@[m].is_available) by {
                        assert(pre.workers@[i as int].is_available);
                    }
                    assert(count_available(pre.workers@) > 0);
                    assert(exists|m: int|
                        0 <= m < pre.workers@.len() && pre.workers@[m].is_available && (forall|
                            j: int,
                        | 0 <= j < m ==> !pre.workers@[j].is_available)) by {
                        assert(0 <= (i as int) && (i as int) < pre.workers@.len()
                            && pre.workers@[i as int].is_available && (forall|j: int|
                            0 <= j < i as int ==> !pre.workers@[j].is_available));
                    }
                    let k = pre.spec_available_index();
                    assert(0 <= k < pre.workers@.len() && pre.workers@[k].is_available && (forall|
                        j: int,
                    | 0 <= j < k ==> !pre.workers@[j].is_available));
                    if k < i as int {
                        assert(!pre.workers@[k].is_available);
                    }
                    if (i as int) < k {
                        assert(!pre.workers@[i as int].is_available);
                    }
                    assert(k == i as int);
                    assert(self.workers@[i as int].id == id);
                    assert(self.has_worker(id));
                    assert forall|a: int, b: int|
                        0 <= a < b < self.workers@.len() implies self.workers@[a].id != self.workers@[b].id by {
                        assert(pre.workers@[a].id != pre.workers@[b].id);
                    }
                }
                return id;
            }
            i = i + 1;
        }
        proof {
            lemma_count_available_pos(pre.workers@);
            assert(count_available(pre.workers@) == 0);
        }
        let id: usize = self.workers.len() + 1;
        let w = Worker { id, is_available: false, started: true };
        proof {
            lemma_count_available_push(self.workers@, w);
        }
        self.workers.push(w);
        proof {
            let last = pre.workers@.len() as int;
            assert(self.workers@[last].id == id);
            assert(self.has_worker(id));
            assert forall|a: int, b: int| 0 <= a < b < self.workers@.len() implies self.workers@[a].id != self.workers@[b].id by {
                if b < last {
                    assert(pre.workers@[a].id != pre.workers@[b].id);
                } else {
                    assert(pre.workers@[a].id <= last);
                }
            }
        }
        id
    }

    /// The first available worker's index.
    pub open spec fn spec_available_index(&self) -> int {
        choose|i: int|
            0 <= i < self.workers@.len() && self.workers@[i].is_available && forall|j: int|
                0 <= j < i ==> !self.workers@[j].is_available
    }

    /// The bookkeeping of a worker finishing its job: its own thread sets
    /// the availability flag back as it returns to the dispatch loop.  A
    /// worker id the pool does not hold is a no-op.
    pub fn release_worker(&mut self, id: usize)
        requires
            old(self).wf(),
        ensures
            final(self).wf(),
            final(self).workers@.len() == old(self).workers@.len(),
            forall|w: int|
                0 <= w < old(self).workers@.len() ==> #[trigger] final(self).workers@[w]
                    == (Worker {
                    is_available: old(self).workers@[w].is_available || old(self).workers@[w].id
                        == id,
                    ..old(self).workers@[w]
                }),
    {
        let ghost pre = *self;
        let len: usize = self.workers.len();
        let mut i: usize = 0;
        while i < len
            invariant
                *self == pre,
                pre == *old(self),
                pre.wf(),
                len == pre.workers@.len(),
                0 <= i <= len,
                forall|j: int| 0 <= j < i as int ==> pre.workers@[j].id != id,
            decreases len - i,
        {
            if self.workers[i].id == id {
                let started: bool = self.workers[i].started;
                self.workers[i] = Worker { id, is_available: true, started };
                proof {
                    assert forall|a: int, b: int|
                        0 <= a < b < self.workers@.len() implies self.workers@[a].id
                        != self.workers@[b].id by {
                        assert(pre.workers@[a].id != pre.workers@[b].id);
                    }
                    assert forall|w: int| 0 <= w < pre.workers@.len() implies #[trigger] self.workers@[w] == (Worker {
                        is_available: pre.workers@[w].is_available || pre.workers@[w].id == id,
                        ..pre.workers@[w]
                    }) by {
                        if w != i as int {
                            assert(pre.workers@[w].id != id);
                        }
                    }
                }
                return ;
            }
            i = i + 1;
        }
    }

    /// Orders one worker's job to terminate; the worker becomes available
    /// when the order is observed.  The caller must additionally cause a
    /// filesystem event under the watched root, so that a blocked watch
    /// loop wakes and sees the order.
    pub fn terminate_job(&mut self, id: usize) -> (r: Result<(), String>)
        requires
            old(self).wf(),
        ensures
            final(self).wf(),
            r is Ok <==> old(self).has_worker(id),
            old(self).has_worker(id) ==> final(self).workers@ == old(self).workers@.update(
                old(self).spec_worker_index(id),
                Worker {
                    id,
                    is_available: true,
                    started: old(self).workers@[old(self).spec_worker_index(id)].started,
                },
            ),
            !old(self).has_worker(id) ==> *final(self) == *old(self),
            final(self).workers@.len() == old(self).workers@.len(),
            forall|w: int|
                0 <= w < old(self).workers@.len() ==> final(self).workers@[w] == (Worker {
                    is_available: old(self).workers@[w].is_available || old(self).workers@[w].id
                        == id,
                    ..old(self).workers@[w]
                }),
    {
        let ghost pre = *self;
        let len: usize = self.workers.len();
        let mut i: usize = 0;
        while i < len
            invariant
                *self == pre,
                pre == *old(self),
                pre.wf(),
                len == pre.workers@.len(),
                0 <= i <= len,
                forall|j: int| 0 <= j < i as int ==> pre.workers@[j].id != id,
            decreases len - i,
        {
            if self.workers[i].id == id {
                let started: bool = self.workers[i].started;
                self.workers[i] = Worker { id, is_available: true, started };
                proof {
                    assert(pre.has_worker(id)) by {
                        assert(pre.workers@[i as int].id == id);
                    }
                    let k = pre.spec_worker_index(id);
                    assert(0 <= k < pre.workers@.len() && pre.workers@[k].id == id);
                    if k < i as int {
                        assert(pre.workers@[k].id != pre.workers@[i as int].id);
                    } else if (i as int) < k {
                        assert(pre.workers@[i as int].id != pre.workers@[k].id);
                    }
                    assert(k == i as int);
                    assert forall|a: int, b: int|
                        0 <= a < b < self.workers@.len() implies self.workers@[a].id != self.workers@[b].id by {
                        assert(pre.workers@[a].id != pre.workers@[b].id);
                    }
                    assert forall|w: int| 0 <= w < pre.workers@.len() implies self.workers@[w] == (Worker {
                        is_available: pre.workers@[w].is_available || pre.workers@[w].id == id,
                        ..pre.workers@[w]
                    }) by {
                        if w != i as int {
                            assert(pre.workers@[w].id != id);
                        }
                    }
                }
                return Ok(());
            }
            i = i + 1;
        }
        proof {
            if pre.has_worker(id) {
                let k = pre.spec_worker_index(id);
                assert(0 <= k < pre.workers@.len() && pre.workers@[k].id == id);
                assert(false);
            }
        }
        Err(String::from_str("Could not find worker"))
    }
}

/// The deterministic identifier of a job: the client path and the server
/// path joined by an underscore, with a suffix naming the kind.
pub open spec fn spec_job_id(b: Backup, kind: Kind) -> Seq<char> {
    b.client_location.path@ + "_"@ + b.server_location.path@ + if kind is Backup {
        "_backup"@
    } else {
        "_backup_on_change"@
    }
}

/// The job id of a backup and a kind, as `spec_job_id` says.
pub fn id_from_backup(backup: &Backup, kind: &Kind) -> (r: String)
    ensures
        r@ == spec_job_id(*backup, *kind),
{
    let mut r = backup.client_location.path.clone();
    r.append("_");
    r.append(backup.server_location.path.as_str());
    match kind {
        Kind::Backup => r.append("_backup"),
        Kind::BackupOnChange => r.append("_backup_on_change"),
    }
    proof {
        assert(r@ =~= spec_job_id(*backup, *kind));
    }
    r
}

/// The status of a job id: `Failed` when the failed registry holds it,
/// else `Running` when the running registry holds it, else `Completed`.
/// Completed is the absence of a record, not a positive signal.
pub fn check_status(id: &String, running_jobs: &JobTable, failed_jobs: &JobTable) -> (s: Status)
    ensures
        s == if failed_jobs.spec_contains(id@) {
            Status::Failed
        } else if running_jobs.spec_contains(id@) {
            Status::Running
        } else {
            Status::Completed
        },
{
    if failed_jobs.contains(id) {
        Status::Failed
    } else if running_jobs.contains(id) {
        Status::Running
    } else {
        Status::Completed
    }
}

/// No id is recorded twice: in a well-formed registry the entries holding a
/// given id number at most one.
pub proof fn lemma_no_duplicate_jobs(t: JobTable, id: Seq<char>)
    requires
        t.wf(),
    ensures
        t@.filter(|p: (Seq<char>, usize)| p.0 == id).len() <= 1,
{
    lemma_filter_distinct(t@, id, t@.len() as int);
    assert(t@.subrange(0, t@.len() as int) =~= t@);
}

proof fn lemma_filter_distinct(s: Seq<(Seq<char>, usize)>, id: Seq<char>, n: int)
    requires
        0 <= n <= s.len(),
        forall|i: int, j: int| 0 <= i < j < s.len() ==> s[i].0 != s[j].0,
    ensures
        s.subrange(0, n).filter(|p: (Seq<char>, usize)| p.0 == id).len() <= 1,
        (exists|i: int| 0 <= i < n && s[i].0 == id) ==> s.subrange(0, n).filter(
            |p: (Seq<char>, usize)| p.0 == id,
        ).len() == 1,
        (forall|i: int| 0 <= i < n ==> s[i].0 != id) ==> s.subrange(0, n).filter(
            |p: (Seq<char>, usize)| p.0 == id,
        ).len() == 0,
    decreases n,
{
    let pred = |p: (Seq<char>, usize)| p.0 == id;
    if n == 0 {
        assert(s.subrange(0, 0) =~= Seq::<(Seq<char>, usize)>::empty());
        assert(s.subrange(0, 0).filter(pred).len() == 0);
    } else {
        lemma_filter_distinct(s, id, n - 1);
        let prefix = s.subrange(0, n - 1);
        let cur = s.subrange(0, n);
        assert(cur.drop_last() =~= prefix);
        assert(cur.last() == s[n - 1]);
        reveal_with_fuel(Seq::filter, 2);
        if pred(s[n - 1]) {
            assert(cur.filter(pred).len() == prefix.filter(pred).len() + 1);
            assert(forall|i: int| 0 <= i < n - 1 ==> s[i].0 != id);
        } else {
            assert(cur.filter(pred).len() == prefix.filter(pred).len());
        }
    }
}

} // verus!
