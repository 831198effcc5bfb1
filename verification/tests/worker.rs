use hello::queue::{Message, Received};
use hello::worker::{Action, JobOutcome, Worker, WorkerState};

#[test]
fn new_worker_runs_and_holds_no_job() {
    let worker = Worker::new(3);
    assert_eq!(worker.id(), 3);
    assert_eq!(worker.state(), WorkerState::Running);
    assert!(!worker.busy());
    assert!(!worker.faulted());
}

#[test]
fn worker_takes_a_job_and_is_busy() {
    let mut worker = Worker::new(0);
    assert_eq!(worker.receive(Received::Message(Message::NewJob(9u32))), Action::Run(9));
    assert_eq!(worker.state(), WorkerState::Running);
    assert!(worker.busy());
    assert_eq!(worker.id(), 0);
}

#[test]
fn worker_retires_on_terminate() {
    let mut worker = Worker::new(1);
    assert_eq!(worker.receive(Received::<u32>::Message(Message::Terminate)), Action::Exit);
    assert_eq!(worker.state(), WorkerState::Retired);
    assert!(!worker.busy());
    assert_eq!(worker.id(), 1);
}

#[test]
fn worker_retires_on_a_closed_queue() {
    let mut worker = Worker::new(2);
    assert_eq!(worker.receive(Received::<u32>::Closed), Action::Exit);
    assert_eq!(worker.state(), WorkerState::Retired);
}

#[test]
fn worker_waits_on_an_empty_queue() {
    let mut worker = Worker::new(2);
    let before = worker;
    assert_eq!(worker.receive(Received::<u32>::Empty), Action::Wait);
    assert_eq!(worker, before);
}

#[test]
fn worker_goes_on_after_a_completed_job() {
    let mut worker = Worker::new(0);
    assert_eq!(worker.receive(Received::Message(Message::NewJob(1u32))), Action::Run(1));
    worker.finish(JobOutcome::Completed);
    assert!(!worker.busy());
    assert!(!worker.faulted());
    assert_eq!(worker.state(), WorkerState::Running);
    assert_eq!(worker.receive(Received::Message(Message::NewJob(2u32))), Action::Run(2));
}

#[test]
fn worker_goes_on_after_a_faulted_job() {
    let mut worker = Worker::new(0);
    assert_eq!(worker.receive(Received::Message(Message::NewJob(1u32))), Action::Run(1));
    worker.finish(JobOutcome::Faulted);
    assert!(!worker.busy());
    assert!(worker.faulted());
    assert_eq!(worker.state(), WorkerState::Running);
    assert_eq!(worker.receive(Received::Message(Message::NewJob(2u32))), Action::Run(2));
    worker.finish(JobOutcome::Completed);
    assert!(worker.faulted());
    assert_eq!(worker.receive(Received::<u32>::Message(Message::Terminate)), Action::Exit);
    assert!(worker.faulted());
}

#[test]
fn finish_on_an_idle_worker_changes_nothing() {
    let mut worker = Worker::new(4);
    let before = worker;
    worker.finish(JobOutcome::Faulted);
    assert_eq!(worker, before);
}
