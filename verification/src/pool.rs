//! The pool manager: a fixed set of workers drawing from one shared queue.

use crate::queue::{jobs_of, lemma_pop_message, lemma_push_message, terminations_in};
use crate::queue::{JobQueue, Message, QueueClosed};
use crate::worker::{lemma_running_count_all, lemma_running_count_none};
use crate::worker::{lemma_running_count_update, lemma_running_positive, running_count};
use crate::worker::{Action, JobOutcome, Worker, WorkerState};
use vstd::prelude::*;

verus! {

/// Why a pool could not be built.
#[derive(Debug, Clone, Copy, PartialEq, Eq, Structural)]
pub enum PoolError {
    /// A pool needs at least one worker.
    ZeroSize,
}

/// One entry of the pool's history: a job, the worker it was handed to, and
/// how it ended, once that worker has reported it.
pub struct HandOut<J> {
    /// The position of the worker that took the job.
    pub worker: usize,
    /// The job.
    pub job: J,
    /// How the job ended; `None` while the worker still holds it.
    pub outcome: Option<JobOutcome>,
}

/// The jobs of a history of hand-outs, in the order they were handed out.
pub open spec fn jobs_handed_out<J>(history: Seq<HandOut<J>>) -> Seq<J> {
    history.map_values(|entry: HandOut<J>| entry.job)
}

/// A fixed set of workers and the queue they share.
///
/// The pool remembers, for the sake of its contracts only, every job it
/// accepted, every job it handed to a worker, and how each of those ended.
pub struct ThreadPool<J> {
    workers: Vec<Worker>,
    queue: JobQueue<J>,
    accepted: Ghost<Seq<J>>,
    dispatched: Ghost<Seq<HandOut<J>>>,
    in_hand: Ghost<Seq<int>>,
}

impl<J> ThreadPool<J> {
    /// The workers' records, by position.
    pub closed spec fn workers(&self) -> Seq<Worker> {
        self.workers@
    }

    /// The queued messages, oldest first.
    pub closed spec fn queue(&self) -> Seq<Message<J>> {
        self.queue@
    }

    /// Whether `shutdown` has been called.
    pub closed spec fn is_shut_down(&self) -> bool {
        self.queue.is_closed()
    }

    /// Every job that `execute` accepted, in the order of acceptance.
    pub closed spec fn accepted(&self) -> Seq<J> {
        self.accepted@
    }

    /// Every job handed to a worker so far, each with the position of the
    /// worker that took it and with its outcome, in the order of the
    /// hand-outs.
    pub closed spec fn dispatched(&self) -> Seq<HandOut<J>> {
        self.dispatched@
    }

    /// For each worker, the place in `dispatched` of the job it took last.
    /// It tells which job a busy worker holds.
    pub closed spec fn in_hand(&self) -> Seq<int> {
        self.in_hand@
    }

    /// The number of workers.
    pub open spec fn spec_size(&self) -> nat {
        self.workers().len()
    }

    /// The accepted jobs that no worker has taken yet, oldest first.
    pub open spec fn pending(&self) -> Seq<J> {
        jobs_of(self.queue())
    }

    /// What holds of every pool between two calls.
    ///
    /// There is at least one worker, and a worker's identity is its
    /// position. The accepted jobs are those handed out followed by those
    /// still queued, in one order, and each was handed to a worker of this
    /// pool. A busy worker holds one job, the one job handed to it that has
    /// no outcome yet; every other job handed out has its outcome. Before
    /// `shutdown` every worker runs and no `Terminate` is queued; after it
    /// there is one queued `Terminate` for each worker that still runs.
    pub open spec fn wf(&self) -> bool {
        &&& self.spec_size() > 0
        &&& self.in_hand().len() == self.spec_size()
        &&& forall|i: int|
            0 <= i < self.spec_size() ==> {
                &&& (#[trigger] self.workers()[i]).spec_id() == i
                &&& self.workers()[i].wf()
                &&& self.workers()[i].spec_busy() ==> {
                    &&& 0 <= self.in_hand()[i] < self.dispatched().len()
                    &&& self.dispatched()[self.in_hand()[i]].worker == i
                    &&& self.dispatched()[self.in_hand()[i]].outcome is None
                }
            }
        &&& self.accepted() == jobs_handed_out(self.dispatched()) + self.pending()
        &&& forall|k: int|
            0 <= k < self.dispatched().len() ==> {
                &&& (#[trigger] self.dispatched()[k]).worker < self.spec_size()
                &&& self.dispatched()[k].outcome is None ==> {
                    &&& self.workers()[self.dispatched()[k].worker as int].spec_busy()
                    &&& self.in_hand()[self.dispatched()[k].worker as int] == k
                }
            }
        &&& terminations_in(self.queue()) == if self.is_shut_down() {
            running_count(self.workers())
        } else {
            0
        }
        &&& !self.is_shut_down() ==> running_count(self.workers()) == self.spec_size()
    }

    /// Builds a pool of `size` workers, numbered from zero, all running and
    /// between jobs, with nothing queued.
    pub fn new(size: usize) -> (pool: Self)
        requires
            size > 0,
        ensures
            pool.wf(),
            pool.spec_size() == size,
            forall|i: int|
                0 <= i < size ==> {
                    &&& (#[trigger] pool.workers()[i]).spec_id() == i
                    &&& pool.workers()[i].is_idle()
                    &&& !pool.workers()[i].spec_faulted()
                },
            pool.queue() == Seq::<Message<J>>::empty(),
            !pool.is_shut_down(),
            pool.accepted() == Seq::<J>::empty(),
            pool.dispatched() == Seq::<HandOut<J>>::empty(),
    {
        let mut workers: Vec<Worker> = Vec::new();
        let mut worker_id: usize = 0;
        while worker_id < size
            invariant
                worker_id <= size,
                workers@.len() == worker_id,
                forall|i: int|
                    0 <= i < worker_id ==> {
                        &&& (#[trigger] workers@[i]).spec_id() == i
                        &&& workers@[i].is_idle()
                        &&& !workers@[i].spec_faulted()
                        &&& workers@[i].wf()
                    },
            decreases size - worker_id,
        {
            workers.push(Worker::new(worker_id));
            worker_id = worker_id + 1;
        }
        let pool = ThreadPool {
            workers,
            queue: JobQueue::new(),
            accepted: Ghost(Seq::empty()),
            dispatched: Ghost(Seq::empty()),
            in_hand: Ghost(Seq::new(size as nat, |i: int| -1int)),
        };
        proof {
            lemma_running_count_all(pool.workers());
            assert(jobs_handed_out(pool.dispatched()) + pool.pending() =~= Seq::<J>::empty());
        }
        pool
    }

    /// Builds a pool of `size` workers as `new` does, or reports that
    /// `size` is zero.
    pub fn try_new(size: usize) -> (built: Result<Self, PoolError>)
        ensures
            size == 0 <==> built == Err::<Self, PoolError>(PoolError::ZeroSize),
            size > 0 <==> built.is_ok(),
            built.is_ok() ==> {
                let pool = built.unwrap();
                &&& pool.wf()
                &&& pool.spec_size() == size
                &&& forall|i: int|
                    0 <= i < size ==> {
                        &&& (#[trigger] pool.workers()[i]).spec_id() == i
                        &&& pool.workers()[i].is_idle()
                        &&& !pool.workers()[i].spec_faulted()
                    }
                &&& pool.queue() == Seq::<Message<J>>::empty()
                &&& !pool.is_shut_down()
                &&& pool.accepted() == Seq::<J>::empty()
                &&& pool.dispatched() == Seq::<HandOut<J>>::empty()
            },
    {
        if size == 0 {
            Err(PoolError::ZeroSize)
        } else {
            Ok(ThreadPool::new(size))
        }
    }

    /// The number of workers.
    pub fn size(&self) -> (size: usize)
        ensures
            size == self.spec_size(),
    {
        self.workers.len()
    }

    /// Whether `shutdown` has been called.
    pub fn shut_down(&self) -> (shut_down: bool)
        ensures
            shut_down == self.is_shut_down(),
    {
        self.queue.closed()
    }

    /// The number of queued messages, jobs and `Terminate`s alike.
    pub fn queued(&self) -> (n: usize)
        ensures
            n == self.queue().len(),
    {
        self.queue.len()
    }

    /// The record of the worker at `index`, if there is one.
    pub fn worker(&self, index: usize) -> (found: Option<Worker>)
        ensures
            found == if index < self.spec_size() {
                Some(self.workers()[index as int])
            } else {
                None
            },
    {
        if index < self.workers.len() {
            Some(self.workers[index])
        } else {
            None
        }
    }

    /// Submits a job: it is queued behind everything queued before it. Never
    /// waits, however many jobs are queued. After `shutdown` the job is
    /// refused and dropped, and the pool stays as it is.
    pub fn execute(&mut self, job: J) -> (submitted: Result<(), QueueClosed>)
        requires
            old(self).wf(),
        ensures
            final(self).wf(),
            submitted.is_err() <==> old(self).is_shut_down(),
            final(self).workers() == old(self).workers(),
            final(self).is_shut_down() == old(self).is_shut_down(),
            final(self).dispatched() == old(self).dispatched(),
            submitted.is_ok() ==> {
                &&& final(self).queue() == old(self).queue().push(Message::NewJob(job))
                &&& final(self).accepted() == old(self).accepted().push(job)
                &&& final(self).pending() == old(self).pending().push(job)
            },
            submitted.is_err() ==> {
                &&& final(self).queue() == old(self).queue()
                &&& final(self).accepted() == old(self).accepted()
            },
    {
        proof {
            lemma_push_message(self.queue(), Message::NewJob(job));
        }
        let sent = self.queue.send(Message::NewJob(job));
        if sent.is_ok() {
            self.accepted = Ghost(self.accepted@.push(job));
            assert(jobs_handed_out(self.dispatched()) + old(self).pending().push(job) =~= (
            jobs_handed_out(old(self).dispatched()) + old(self).pending()).push(job));
        }
        sent
    }

    /// The next action of the worker at position `worker`.
    ///
    /// A retired worker is told to exit and a busy one to wait; neither
    /// touches the queue. An idle worker takes the oldest message: a job
    /// makes it busy and is handed over to be run, and is recorded as handed
    /// to this worker; a `Terminate` retires it. With nothing queued it is
    /// told to wait, which cannot happen once the pool is shut down. No other
    /// worker's record changes.
    pub fn next_action(&mut self, worker: usize) -> (action: Action<J>)
        requires
            old(self).wf(),
            worker < old(self).spec_size(),
        ensures
            final(self).wf(),
            final(self).spec_size() == old(self).spec_size(),
            final(self).is_shut_down() == old(self).is_shut_down(),
            final(self).accepted() == old(self).accepted(),
            forall|i: int|
                0 <= i < old(self).spec_size() && i != worker ==> final(self).workers()[i] == old(
                    self,
                ).workers()[i],
            final(self).workers()[worker as int].spec_faulted() == old(
                self,
            ).workers()[worker as int].spec_faulted(),
            !old(self).workers()[worker as int].is_idle() ==> {
                &&& action == if old(self).workers()[worker as int].is_running() {
                    Action::<J>::Wait
                } else {
                    Action::<J>::Exit
                }
                &&& final(self).workers() == old(self).workers()
                &&& final(self).queue() == old(self).queue()
                &&& final(self).dispatched() == old(self).dispatched()
            },
            old(self).workers()[worker as int].is_idle() && old(self).queue().len() == 0 ==> {
                &&& !old(self).is_shut_down()
                &&& action == Action::<J>::Wait
                &&& final(self).workers() == old(self).workers()
                &&& final(self).queue() == old(self).queue()
                &&& final(self).dispatched() == old(self).dispatched()
            },
            old(self).workers()[worker as int].is_idle() && old(self).queue().len() > 0 ==> {
                &&& final(self).queue() == old(self).queue().subrange(
                    1,
                    old(self).queue().len() as int,
                )
                &&& match old(self).queue()[0] {
                    Message::NewJob(job) => {
                        &&& action == Action::Run(job)
                        &&& final(self).workers()[worker as int].is_running()
                        &&& final(self).workers()[worker as int].spec_busy()
                        &&& final(self).dispatched() == old(self).dispatched().push(
                            (HandOut { worker, job, outcome: None }),
                        )
                    },
                    Message::Terminate => {
                        &&& action == Action::<J>::Exit
                        &&& !final(self).workers()[worker as int].is_running()
                        &&& final(self).dispatched() == old(self).dispatched()
                    },
                }
            },
    {
        let mut record = self.workers[worker];
        if record.state() != WorkerState::Running {
            return Action::Exit;
        }
        if record.busy() {
            return Action::Wait;
        }
        proof {
            lemma_running_count_update(
                self.workers(),
                worker as int,
                self.workers()[worker as int],
            );
            if self.queue().len() > 0 {
                lemma_pop_message(self.queue());
            }
            if self.is_shut_down() {
                lemma_running_positive(self.workers(), worker as int);
            }
        }
        let received = self.queue.try_recv();
        let action = record.receive(received);
        self.workers.set(worker, record);
        let ghost history = if action is Run {
            old(self).dispatched().push(
                HandOut { worker, job: action->Run_0, outcome: None },
            )
        } else {
            old(self).dispatched()
        };
        let ghost holding = if action is Run {
            old(self).in_hand().update(worker as int, old(self).dispatched().len() as int)
        } else {
            old(self).in_hand()
        };
        self.dispatched = Ghost(history);
        self.in_hand = Ghost(holding);
        proof {
            lemma_running_count_update(old(self).workers(), worker as int, record);
            assert(self.workers() =~= old(self).workers().update(worker as int, record));
            if action is Run {
                assert(jobs_handed_out(history) =~= jobs_handed_out(old(self).dispatched()).push(
                    action->Run_0,
                ));
                assert(jobs_handed_out(history) + self.pending() =~= jobs_handed_out(
                    old(self).dispatched(),
                ) + old(self).pending());
            }
            if action is Wait {
                assert(self.workers() =~= old(self).workers());
            }
        }
        action
    }

    /// Records how the job held by the worker at position `worker` ended.
    ///
    /// The worker goes back to taking messages whether the job completed or
    /// faulted, and a fault is remembered. A worker that holds no job is left
    /// as it is. Nothing else changes.
    pub fn finish(&mut self, worker: usize, outcome: JobOutcome)
        requires
            old(self).wf(),
            worker < old(self).spec_size(),
        ensures
            final(self).wf(),
            final(self).spec_size() == old(self).spec_size(),
            final(self).is_shut_down() == old(self).is_shut_down(),
            final(self).queue() == old(self).queue(),
            final(self).accepted() == old(self).accepted(),
            final(self).dispatched() == if old(self).workers()[worker as int].spec_busy() {
                old(self).dispatched().update(
                    old(self).in_hand()[worker as int],
                    (HandOut {
                        outcome: Some(outcome),
                        ..old(self).dispatched()[old(self).in_hand()[worker as int]]
                    }),
                )
            } else {
                old(self).dispatched()
            },
            forall|i: int|
                0 <= i < old(self).spec_size() && i != worker ==> final(self).workers()[i] == old(
                    self,
                ).workers()[i],
            final(self).workers()[worker as int].spec_state() == old(
                self,
            ).workers()[worker as int].spec_state(),
            old(self).workers()[worker as int].spec_busy() ==> {
                &&& final(self).workers()[worker as int].is_idle()
                &&& final(self).workers()[worker as int].spec_faulted() == (old(
                    self,
                ).workers()[worker as int].spec_faulted() || outcome == JobOutcome::Faulted)
            },
            !old(self).workers()[worker as int].spec_busy() ==> final(self).workers() == old(
                self,
            ).workers(),
    {
        let mut record = self.workers[worker];
        let ghost place = self.in_hand()[worker as int];
        let ghost history = if record.spec_busy() {
            self.dispatched().update(
                place,
                HandOut { outcome: Some(outcome), ..self.dispatched()[place] },
            )
        } else {
            self.dispatched()
        };
        record.finish(outcome);
        self.workers.set(worker, record);
        self.dispatched = Ghost(history);
        proof {
            lemma_running_count_update(old(self).workers(), worker as int, record);
            assert(self.workers() =~= old(self).workers().update(worker as int, record));
            if !old(self).workers()[worker as int].spec_busy() {
                assert(self.workers() =~= old(self).workers());
            }
            assert(jobs_handed_out(history) =~= jobs_handed_out(old(self).dispatched()));
        }
    }

    /// Begins the teardown: queues one `Terminate` for each worker, behind
    /// everything already queued, and closes the pool to new jobs. A second
    /// call changes nothing.
    pub fn shutdown(&mut self)
        requires
            old(self).wf(),
        ensures
            final(self).wf(),
            final(self).is_shut_down(),
            final(self).workers() == old(self).workers(),
            final(self).accepted() == old(self).accepted(),
            final(self).dispatched() == old(self).dispatched(),
            final(self).pending() == old(self).pending(),
            final(self).queue() == if old(self).is_shut_down() {
                old(self).queue()
            } else {
                old(self).queue() + Seq::new(
                    old(self).spec_size(),
                    |i: int| Message::<J>::Terminate,
                )
            },
    {
        if self.queue.closed() {
            return;
        }
        let size = self.workers.len();
        let mut sent: usize = 0;
        while sent < size
            invariant
                sent <= size,
                size == self.workers().len(),
                !self.is_shut_down(),
                self.workers() == old(self).workers(),
                self.accepted() == old(self).accepted(),
                self.dispatched() == old(self).dispatched(),
                self.in_hand() == old(self).in_hand(),
                self.pending() == old(self).pending(),
                terminations_in(self.queue()) == sent,
                self.queue() == old(self).queue() + Seq::new(
                    sent as nat,
                    |i: int| Message::<J>::Terminate,
                ),
            decreases size - sent,
        {
            proof {
                lemma_push_message(self.queue(), Message::Terminate);
            }
            let _ = self.queue.send(Message::Terminate);
            sent = sent + 1;
            assert(self.queue() =~= old(self).queue() + Seq::new(
                sent as nat,
                |i: int| Message::<J>::Terminate,
            ));
        }
        self.queue.close();
    }

    /// Whether every worker has left its loop, so that nothing is left to
    /// wait for.
    pub fn all_retired(&self) -> (done: bool)
        requires
            self.wf(),
        ensures
            done == (running_count(self.workers()) == 0),
            done <==> forall|i: int|
                0 <= i < self.spec_size() ==> !(#[trigger] self.workers()[i]).is_running(),
    {
        proof {
            lemma_running_count_none(self.workers());
        }
        let mut index: usize = 0;
        while index < self.workers.len()
            invariant
                index <= self.workers().len(),
                forall|i: int| 0 <= i < index ==> !(#[trigger] self.workers()[i]).is_running(),
            decreases self.workers().len() - index,
        {
            if self.workers[index].state() == WorkerState::Running {
                proof {
                    lemma_running_positive(self.workers(), index as int);
                }
                return false;
            }
            index = index + 1;
        }
        true
    }

    /// The positions of the workers that had a job fault, in rising order:
    /// what the teardown has to report.
    pub fn faulted_workers(&self) -> (faulted: Vec<usize>)
        requires
            self.wf(),
        ensures
            forall|k: int, l: int| 0 <= k < l < faulted@.len() ==> faulted@[k] < faulted@[l],
            forall|i: usize|
                faulted@.contains(i) <==> i < self.spec_size()
                    && self.workers()[i as int].spec_faulted(),
    {
        let mut faulted: Vec<usize> = Vec::new();
        let mut index: usize = 0;
        while index < self.workers.len()
            invariant
                index <= self.workers().len(),
                forall|k: int, l: int| 0 <= k < l < faulted@.len() ==> faulted@[k] < faulted@[l],
                forall|k: int| 0 <= k < faulted@.len() ==> (#[trigger] faulted@[k]) < index,
                forall|i: usize|
                    faulted@.contains(i) <==> i < index && self.workers()[i as int].spec_faulted(),
            decreases self.workers().len() - index,
        {
            if self.workers[index].faulted() {
                let ghost before = faulted@;
                faulted.push(index);
                proof {
                    assert forall|i: usize|
                        faulted@.contains(i) <==> i < index + 1
                            && self.workers()[i as int].spec_faulted() by {
                        if faulted@.contains(i) {
                            let k = choose|k: int| 0 <= k < faulted@.len() && faulted@[k] == i;
                            if k < before.len() {
                                assert(before[k] == i);
                                assert(before.contains(i));
                            }
                        }
                        if i < index + 1 && self.workers()[i as int].spec_faulted() {
                            if i < index {
                                assert(before.contains(i));
                                let k = choose|k: int| 0 <= k < before.len() && before[k] == i;
                                assert(faulted@[k] == i);
                            } else {
                                assert(faulted@[before.len() as int] == i);
                            }
                        }
                    }
                }
            }
            index = index + 1;
        }
        faulted
    }
}

/// The workers' identities are the numbers below the pool's size: each
/// identity is below the size, no two workers share one, and each number
/// below the size is the identity of the worker at that position.
pub proof fn lemma_worker_ids_unique<J>(pool: ThreadPool<J>)
    requires
        pool.wf(),
    ensures
        forall|i: int|
            0 <= i < pool.spec_size() ==> (#[trigger] pool.workers()[i]).spec_id()
                < pool.spec_size(),
        forall|i: int, j: int|
            0 <= i < pool.spec_size() && 0 <= j < pool.spec_size() && i != j ==> (
            #[trigger] pool.workers()[i]).spec_id() != (#[trigger] pool.workers()[j]).spec_id(),
        forall|id: int|
            0 <= id < pool.spec_size() ==> (#[trigger] pool.workers()[id]).spec_id() == id,
{
}

/// Every accepted job is either handed out or still queued, never both and
/// never twice: the `k`-th accepted job is the `k`-th job handed out, to one
/// worker of the pool, or else waits in the queue at the place that its turn
/// gives it. A job handed out and not yet ended is held by a busy worker,
/// and no worker holds two. Once nothing is queued, every accepted job has
/// been handed out.
pub proof fn lemma_every_job_once<J>(pool: ThreadPool<J>)
    requires
        pool.wf(),
    ensures
        pool.accepted().len() == pool.dispatched().len() + pool.pending().len(),
        forall|k: int|
            0 <= k < pool.dispatched().len() ==> {
                &&& (#[trigger] pool.dispatched()[k]).job == pool.accepted()[k]
                &&& pool.dispatched()[k].worker < pool.spec_size()
                &&& pool.dispatched()[k].outcome is None ==> pool.workers()[
                    pool.dispatched()[k].worker as int].spec_busy()
            },
        forall|k: int, l: int|
            0 <= k < l < pool.dispatched().len()
                && (#[trigger] pool.dispatched()[k]).outcome is None
                && (#[trigger] pool.dispatched()[l]).outcome is None
                ==> pool.dispatched()[k].worker != pool.dispatched()[l].worker,
        forall|k: int|
            0 <= k < pool.pending().len() ==> (#[trigger] pool.pending()[k]) == pool.accepted()[
                pool.dispatched().len() + k],
        pool.pending().len() == 0 ==> jobs_handed_out(pool.dispatched()) == pool.accepted(),
{
    let handed = jobs_handed_out(pool.dispatched());
    assert(handed.len() == pool.dispatched().len());
    assert forall|k: int| 0 <= k < pool.dispatched().len() implies (
    #[trigger] pool.dispatched()[k]).job == pool.accepted()[k] by {
        assert(handed[k] == pool.dispatched()[k].job);
        assert((handed + pool.pending())[k] == handed[k]);
    }
    assert forall|k: int| 0 <= k < pool.pending().len() implies (#[trigger] pool.pending()[k])
        == pool.accepted()[pool.dispatched().len() + k] by {
        assert((handed + pool.pending())[handed.len() + k] == pool.pending()[k]);
    }
    if pool.pending().len() == 0 {
        assert(handed + pool.pending() =~= handed);
    }
}

/// After `shutdown` the queue holds one `Terminate` for each worker that
/// still runs. So a running worker always finds a message, and once the
/// queue is empty every worker has retired and every accepted job has been
/// handed out and has ended.
pub proof fn lemma_shutdown_reaches_every_worker<J>(pool: ThreadPool<J>)
    requires
        pool.wf(),
        pool.is_shut_down(),
    ensures
        terminations_in(pool.queue()) == running_count(pool.workers()),
        forall|i: int|
            0 <= i < pool.spec_size() && (#[trigger] pool.workers()[i]).is_running()
                ==> pool.queue().len() > 0,
        pool.queue().len() == 0 ==> {
            &&& forall|i: int|
                0 <= i < pool.spec_size() ==> !(#[trigger] pool.workers()[i]).is_running()
            &&& jobs_handed_out(pool.dispatched()) == pool.accepted()
            &&& forall|k: int|
                0 <= k < pool.dispatched().len() ==> (
                #[trigger] pool.dispatched()[k]).outcome is Some
        },
{
    lemma_running_count_none(pool.workers());
    lemma_every_job_once(pool);
}

} // verus!
