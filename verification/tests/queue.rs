use hello::queue::{JobQueue, Message, QueueClosed, Received};

#[test]
fn new_queue_is_open_and_empty() {
    let mut queue: JobQueue<u32> = JobQueue::new();
    assert_eq!(queue.len(), 0);
    assert!(!queue.closed());
    assert_eq!(queue.try_recv(), Received::Empty);
}

#[test]
fn messages_come_out_in_the_order_sent() {
    let mut queue: JobQueue<u32> = JobQueue::new();
    assert_eq!(queue.send(Message::NewJob(1)), Ok(()));
    assert_eq!(queue.send(Message::Terminate), Ok(()));
    assert_eq!(queue.send(Message::NewJob(2)), Ok(()));
    assert_eq!(queue.len(), 3);
    assert_eq!(queue.try_recv(), Received::Message(Message::NewJob(1)));
    assert_eq!(queue.try_recv(), Received::Message(Message::Terminate));
    assert_eq!(queue.len(), 1);
    assert_eq!(queue.try_recv(), Received::Message(Message::NewJob(2)));
    assert_eq!(queue.try_recv(), Received::Empty);
    assert_eq!(queue.len(), 0);
}

#[test]
fn closed_queue_refuses_a_message() {
    let mut queue: JobQueue<u32> = JobQueue::new();
    assert_eq!(queue.send(Message::NewJob(1)), Ok(()));
    queue.close();
    assert!(queue.closed());
    assert_eq!(queue.send(Message::NewJob(2)), Err(QueueClosed));
    assert_eq!(queue.send(Message::Terminate), Err(QueueClosed));
    assert_eq!(queue.len(), 1);
}

#[test]
fn closed_queue_still_hands_out_what_it_holds() {
    let mut queue: JobQueue<u32> = JobQueue::new();
    assert_eq!(queue.send(Message::NewJob(5)), Ok(()));
    assert_eq!(queue.send(Message::NewJob(6)), Ok(()));
    queue.close();
    assert_eq!(queue.try_recv(), Received::Message(Message::NewJob(5)));
    assert_eq!(queue.try_recv(), Received::Message(Message::NewJob(6)));
    assert_eq!(queue.try_recv(), Received::Closed);
    assert_eq!(queue.try_recv(), Received::Closed);
}

#[test]
fn queue_holds_many_messages() {
    let mut queue: JobQueue<u32> = JobQueue::new();
    for tag in 0..1000 {
        assert_eq!(queue.send(Message::NewJob(tag)), Ok(()));
    }
    assert_eq!(queue.len(), 1000);
    for tag in 0..1000 {
        assert_eq!(queue.try_recv(), Received::Message(Message::NewJob(tag)));
    }
    assert_eq!(queue.try_recv(), Received::Empty);
}
