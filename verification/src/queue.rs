//! The shared job queue: an unbounded first-in, first-out channel of control
//! messages that can be closed.

use std::collections::VecDeque;
use vstd::prelude::*;

verus! {

/// A control message travelling from the pool to its workers.
#[derive(Debug, PartialEq, Eq)]
pub enum Message<J> {
    /// A unit of work to run exactly once.
    NewJob(J),
    /// A request that the receiving worker leave its loop.
    Terminate,
}

/// The condition reported when a message is offered to a closed queue.
#[derive(Debug, Clone, Copy, PartialEq, Eq, Structural)]
pub struct QueueClosed;

/// What a single attempt to take a message from the queue yields.
#[derive(Debug, PartialEq, Eq)]
pub enum Received<J> {
    /// The oldest message, now removed from the queue.
    Message(Message<J>),
    /// Nothing is queued yet, but more may still arrive.
    Empty,
    /// Nothing is queued and nothing will ever arrive.
    Closed,
}

/// The jobs carried by a sequence of messages, oldest first.
pub open spec fn jobs_of<J>(messages: Seq<Message<J>>) -> Seq<J>
    decreases messages.len(),
{
    if messages.len() == 0 {
        Seq::empty()
    } else {
        match messages.last() {
            Message::NewJob(job) => jobs_of(messages.drop_last()).push(job),
            Message::Terminate => jobs_of(messages.drop_last()),
        }
    }
}

/// How many `Terminate` messages a sequence of messages holds.
pub open spec fn terminations_in<J>(messages: Seq<Message<J>>) -> nat
    decreases messages.len(),
{
    if messages.len() == 0 {
        0
    } else {
        match messages.last() {
            Message::NewJob(_) => terminations_in(messages.drop_last()),
            Message::Terminate => terminations_in(messages.drop_last()) + 1,
        }
    }
}

/// Appending a message appends its job, if it carries one, and counts it, if
/// it is a `Terminate`.
pub proof fn lemma_push_message<J>(messages: Seq<Message<J>>, message: Message<J>)
    ensures
        jobs_of(messages.push(message)) == match message {
            Message::NewJob(job) => jobs_of(messages).push(job),
            Message::Terminate => jobs_of(messages),
        },
        terminations_in(messages.push(message)) == match message {
            Message::NewJob(_) => terminations_in(messages),
            Message::Terminate => terminations_in(messages) + 1,
        },
{
    let extended = messages.push(message);
    assert(extended.last() == message);
    assert(extended.drop_last() =~= messages);
}

/// Removing the oldest message removes its job from the front, if it carries
/// one, and uncounts it, if it is a `Terminate`.
pub proof fn lemma_pop_message<J>(messages: Seq<Message<J>>)
    requires
        messages.len() > 0,
    ensures
        jobs_of(messages) == match messages[0] {
            Message::NewJob(job) => seq![job] + jobs_of(
                messages.subrange(1, messages.len() as int),
            ),
            Message::Terminate => jobs_of(messages.subrange(1, messages.len() as int)),
        },
        terminations_in(messages) == match messages[0] {
            Message::NewJob(_) => terminations_in(messages.subrange(1, messages.len() as int)),
            Message::Terminate => terminations_in(messages.subrange(1, messages.len() as int)) + 1,
        },
    decreases messages.len(),
{
    let rest = messages.subrange(1, messages.len() as int);
    if messages.len() == 1 {
        assert(messages.drop_last() =~= Seq::<Message<J>>::empty());
        assert(rest =~= Seq::<Message<J>>::empty());
        assert(jobs_of(messages.drop_last()) =~= Seq::<J>::empty());
        match messages[0] {
            Message::NewJob(job) => {
                assert(jobs_of(messages) =~= seq![job] + jobs_of(rest));
            },
            Message::Terminate => {},
        }
    } else {
        let front = messages.drop_last();
        lemma_pop_message(front);
        assert(front[0] == messages[0]);
        assert(front.subrange(1, front.len() as int) =~= rest.drop_last());
        assert(rest.last() == messages.last());
        match messages[0] {
            Message::NewJob(job) => {
                match messages.last() {
                    Message::NewJob(last) => {
                        assert((seq![job] + jobs_of(rest.drop_last())).push(last) =~= seq![job]
                            + jobs_of(rest.drop_last()).push(last));
                    },
                    Message::Terminate => {},
                }
            },
            Message::Terminate => {},
        }
    }
}

/// An unbounded first-in, first-out queue of messages with a closed flag.
pub struct JobQueue<J> {
    messages: VecDeque<Message<J>>,
    closed: bool,
}

impl<J> JobQueue<J> {
    /// The queued messages, oldest first.
    pub closed spec fn view(&self) -> Seq<Message<J>> {
        self.messages@
    }

    /// Whether the queue has been closed to further messages.
    pub closed spec fn is_closed(&self) -> bool {
        self.closed
    }

    /// An open queue that holds nothing.
    pub fn new() -> (queue: Self)
        ensures
            queue@ == Seq::<Message<J>>::empty(),
            !queue.is_closed(),
    {
        JobQueue { messages: VecDeque::new(), closed: false }
    }

    /// The number of queued messages.
    pub fn len(&self) -> (n: usize)
        ensures
            n == self@.len(),
    {
        self.messages.len()
    }

    /// Whether the queue has been closed to further messages.
    pub fn closed(&self) -> (closed: bool)
        ensures
            closed == self.is_closed(),
    {
        self.closed
    }

    /// Appends a message behind all queued ones. A closed queue refuses the
    /// message and stays as it is; the message is dropped.
    pub fn send(&mut self, message: Message<J>) -> (sent: Result<(), QueueClosed>)
        ensures
            sent.is_err() <==> old(self).is_closed(),
            final(self).is_closed() == old(self).is_closed(),
            final(self)@ == if old(self).is_closed() {
                old(self)@
            } else {
                old(self)@.push(message)
            },
    {
        if self.closed {
            Err(QueueClosed)
        } else {
            self.messages.push_back(message);
            Ok(())
        }
    }

    /// Takes the oldest message, if there is one. Otherwise reports whether
    /// one may still arrive. Never waits.
    pub fn try_recv(&mut self) -> (received: Received<J>)
        ensures
            final(self).is_closed() == old(self).is_closed(),
            match received {
                Received::Message(message) => {
                    &&& old(self)@.len() > 0
                    &&& message == old(self)@[0]
                    &&& final(self)@ == old(self)@.subrange(1, old(self)@.len() as int)
                },
                Received::Empty => {
                    &&& old(self)@.len() == 0
                    &&& !old(self).is_closed()
                    &&& final(self)@ == old(self)@
                },
                Received::Closed => {
                    &&& old(self)@.len() == 0
                    &&& old(self).is_closed()
                    &&& final(self)@ == old(self)@
                },
            },
    {
        match self.messages.pop_front() {
            Some(message) => Received::Message(message),
            None => {
                if self.closed {
                    Received::Closed
                } else {
                    Received::Empty
                }
            },
        }
    }

    /// Closes the queue: every later `send` is refused. Messages already
    /// queued stay and are still handed out in order.
    pub fn close(&mut self)
        ensures
            final(self).is_closed(),
            final(self)@ == old(self)@,
    {
        self.closed = true;
    }
}

} // verus!
