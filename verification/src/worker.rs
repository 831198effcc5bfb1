//! A worker's life: it runs jobs one at a time until it is told to stop.

use crate::queue::{Message, Received};
use vstd::prelude::*;

verus! {

/// The two states of a worker's life. A worker starts `Running` and never
/// leaves `Retired`.
#[derive(Debug, Clone, Copy, PartialEq, Eq, Structural)]
pub enum WorkerState {
    /// Taking messages and running jobs.
    Running,
    /// Out of its loop for good.
    Retired,
}

/// How a job ended.
#[derive(Debug, Clone, Copy, PartialEq, Eq, Structural)]
pub enum JobOutcome {
    /// The job ran to its end.
    Completed,
    /// The job stopped with an unhandled fault.
    Faulted,
}

/// What a worker does next.
#[derive(Debug, PartialEq, Eq)]
pub enum Action<J> {
    /// Run this job to completion, then report how it ended.
    Run(J),
    /// Nothing to do for now: ask again later.
    Wait,
    /// Leave the loop; the worker has retired.
    Exit,
}

/// A worker's record: its identity, where it is in its life, whether it is
/// in the middle of a job, and whether any job of its has faulted.
#[derive(Debug, Clone, Copy, PartialEq, Eq, Structural)]
pub struct Worker {
    id: usize,
    state: WorkerState,
    busy: bool,
    faulted: bool,
}

impl Worker {
    /// The identity given at construction.
    pub closed spec fn spec_id(&self) -> usize {
        self.id
    }

    /// Where the worker is in its life.
    pub closed spec fn spec_state(&self) -> WorkerState {
        self.state
    }

    /// Whether the worker holds a job that has not been reported finished.
    pub closed spec fn spec_busy(&self) -> bool {
        self.busy
    }

    /// Whether any job run by this worker has faulted.
    pub closed spec fn spec_faulted(&self) -> bool {
        self.faulted
    }

    /// Whether the worker is still in its loop.
    pub open spec fn is_running(&self) -> bool {
        self.spec_state() == WorkerState::Running
    }

    /// Whether the worker can take a message: in its loop and between jobs.
    pub open spec fn is_idle(&self) -> bool {
        self.is_running() && !self.spec_busy()
    }

    /// A worker that has left its loop holds no job.
    pub open spec fn wf(&self) -> bool {
        self.spec_busy() ==> self.is_running()
    }

    /// A fresh worker: running, between jobs, without a fault.
    pub fn new(id: usize) -> (worker: Worker)
        ensures
            worker.spec_id() == id,
            worker.is_idle(),
            !worker.spec_faulted(),
            worker.wf(),
    {
        Worker { id, state: WorkerState::Running, busy: false, faulted: false }
    }

    /// The identity given at construction.
    #[verifier::when_used_as_spec(spec_id)]
    pub fn id(&self) -> (id: usize)
        ensures
            id == self.spec_id(),
    {
        self.id
    }

    /// Where the worker is in its life.
    #[verifier::when_used_as_spec(spec_state)]
    pub fn state(&self) -> (state: WorkerState)
        ensures
            state == self.spec_state(),
    {
        self.state
    }

    /// Whether the worker holds a job that has not been reported finished.
    #[verifier::when_used_as_spec(spec_busy)]
    pub fn busy(&self) -> (busy: bool)
        ensures
            busy == self.spec_busy(),
    {
        self.busy
    }

    /// Whether any job run by this worker has faulted.
    #[verifier::when_used_as_spec(spec_faulted)]
    pub fn faulted(&self) -> (faulted: bool)
        ensures
            faulted == self.spec_faulted(),
    {
        self.faulted
    }

    /// One turn of the worker's loop, given what the queue handed over.
    ///
    /// A job makes the worker busy and is passed on to be run. `Terminate`
    /// and a closed queue retire the worker. An empty queue changes nothing.
    /// The identity and the fault record never change.
    pub fn receive<J>(&mut self, received: Received<J>) -> (action: Action<J>)
        requires
            old(self).is_idle(),
        ensures
            final(self).spec_id() == old(self).spec_id(),
            final(self).spec_faulted() == old(self).spec_faulted(),
            final(self).wf(),
            match received {
                Received::Message(Message::NewJob(job)) => {
                    &&& action == Action::Run(job)
                    &&& final(self).is_running()
                    &&& final(self).spec_busy()
                },
                Received::Message(Message::Terminate) => {
                    &&& action == Action::<J>::Exit
                    &&& final(self).spec_state() == WorkerState::Retired
                    &&& !final(self).spec_busy()
                },
                Received::Empty => {
                    &&& action == Action::<J>::Wait
                    &&& *final(self) == *old(self)
                },
                Received::Closed => {
                    &&& action == Action::<J>::Exit
                    &&& final(self).spec_state() == WorkerState::Retired
                    &&& !final(self).spec_busy()
                },
            },
    {
        match received {
            Received::Message(Message::NewJob(job)) => {
                self.busy = true;
                Action::Run(job)
            },
            Received::Message(Message::Terminate) => {
                self.state = WorkerState::Retired;
                Action::Exit
            },
            Received::Empty => Action::Wait,
            Received::Closed => {
                self.state = WorkerState::Retired;
                Action::Exit
            },
        }
    }

    /// Records how the job in hand ended. The worker goes back to taking
    /// messages whether the job completed or faulted; a fault is remembered.
    /// A worker that holds no job is left as it is.
    pub fn finish(&mut self, outcome: JobOutcome)
        ensures
            final(self).spec_id() == old(self).spec_id(),
            final(self).spec_state() == old(self).spec_state(),
            old(self).spec_busy() ==> {
                &&& !final(self).spec_busy()
                &&& final(self).spec_faulted() == (old(self).spec_faulted() || outcome
                    == JobOutcome::Faulted)
            },
            !old(self).spec_busy() ==> *final(self) == *old(self),
            old(self).wf() ==> final(self).wf(),
    {
        if self.busy {
            self.busy = false;
            match outcome {
                JobOutcome::Faulted => {
                    self.faulted = true;
                },
                JobOutcome::Completed => {},
            }
        }
    }
}

/// How many of the given workers are still in their loops.
pub open spec fn running_count(workers: Seq<Worker>) -> nat
    decreases workers.len(),
{
    if workers.len() == 0 {
        0
    } else {
        running_count(workers.drop_last()) + if workers.last().is_running() {
            1nat
        } else {
            0nat
        }
    }
}

/// No more workers run than there are.
pub proof fn lemma_running_count_bound(workers: Seq<Worker>)
    ensures
        running_count(workers) <= workers.len(),
    decreases workers.len(),
{
    if workers.len() > 0 {
        lemma_running_count_bound(workers.drop_last());
    }
}

/// All workers run exactly when as many run as there are.
pub proof fn lemma_running_count_all(workers: Seq<Worker>)
    ensures
        running_count(workers) == workers.len() <==> forall|i: int|
            0 <= i < workers.len() ==> (#[trigger] workers[i]).is_running(),
    decreases workers.len(),
{
    if workers.len() > 0 {
        let front = workers.drop_last();
        lemma_running_count_all(front);
        lemma_running_count_bound(front);
        if running_count(workers) == workers.len() {
            assert forall|i: int| 0 <= i < workers.len() implies (
            #[trigger] workers[i]).is_running() by {
                if i < front.len() {
                    assert(front[i] == workers[i]);
                }
            }
        }
        if forall|i: int| 0 <= i < workers.len() ==> (#[trigger] workers[i]).is_running() {
            assert forall|i: int| 0 <= i < front.len() implies (
            #[trigger] front[i]).is_running() by {
                assert(front[i] == workers[i]);
            }
        }
    }
}

/// No worker runs exactly when the count of running workers is zero.
pub proof fn lemma_running_count_none(workers: Seq<Worker>)
    ensures
        running_count(workers) == 0 <==> forall|i: int|
            0 <= i < workers.len() ==> !(#[trigger] workers[i]).is_running(),
    decreases workers.len(),
{
    if workers.len() > 0 {
        let front = workers.drop_last();
        lemma_running_count_none(front);
        if running_count(workers) == 0 {
            assert forall|i: int| 0 <= i < workers.len() implies !(
            #[trigger] workers[i]).is_running() by {
                if i < front.len() {
                    assert(front[i] == workers[i]);
                }
            }
        }
        if forall|i: int| 0 <= i < workers.len() ==> !(#[trigger] workers[i]).is_running() {
            assert forall|i: int| 0 <= i < front.len() implies !(
            #[trigger] front[i]).is_running() by {
                assert(front[i] == workers[i]);
            }
        }
    }
}

/// Replacing one worker's record changes the count of running workers by
/// the change in that worker alone.
pub proof fn lemma_running_count_update(workers: Seq<Worker>, index: int, worker: Worker)
    requires
        0 <= index < workers.len(),
    ensures
        running_count(workers.update(index, worker)) + (if workers[index].is_running() {
            1nat
        } else {
            0nat
        }) == running_count(workers) + (if worker.is_running() {
            1nat
        } else {
            0nat
        }),
    decreases workers.len(),
{
    let updated = workers.update(index, worker);
    if index == workers.len() - 1 {
        assert(updated.drop_last() =~= workers.drop_last());
    } else {
        lemma_running_count_update(workers.drop_last(), index, worker);
        assert(updated.drop_last() =~= workers.drop_last().update(index, worker));
    }
}

/// Where some worker runs, the count of running workers is positive.
pub proof fn lemma_running_positive(workers: Seq<Worker>, index: int)
    requires
        0 <= index < workers.len(),
        workers[index].is_running(),
    ensures
        running_count(workers) > 0,
{
    lemma_running_count_none(workers);
}

} // verus!
