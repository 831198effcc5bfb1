//! The control-signal channel, by which a running job asks the accept loop
//! to stop, and the accept loop's decision at each turn.

use std::collections::VecDeque;
use vstd::prelude::*;

verus! {

/// A request from a job to the loop that drives the pool.
#[derive(Debug, Clone, Copy, PartialEq, Eq, Structural)]
pub enum ServerMessage {
    /// Stop accepting new work.
    ShutDown,
}

/// The condition reported when a signal is sent and nobody is left to
/// receive it.
#[derive(Debug, Clone, Copy, PartialEq, Eq, Structural)]
pub struct Disconnected;

/// What the accept loop does with the connection attempt it has in hand.
#[derive(Debug, Clone, Copy, PartialEq, Eq, Structural)]
pub enum AcceptAction {
    /// A shutdown was requested: stop accepting.
    Stop,
    /// Submit one job for the connection.
    Submit,
    /// The attempt failed: report it and go on to the next one.
    Skip,
}

/// The signals waiting after one more is sent, given whether the receiver
/// is still there.
pub open spec fn after_send(
    waiting: Seq<ServerMessage>,
    connected: bool,
    signal: ServerMessage,
) -> Seq<ServerMessage> {
    if connected {
        waiting.push(signal)
    } else {
        waiting
    }
}

/// Whether a check of the channel finds a shutdown requested.
pub open spec fn shutdown_requested(waiting: Seq<ServerMessage>) -> bool {
    waiting.len() > 0
}

/// The signals waiting after `count` more are sent.
pub open spec fn after_sends(
    waiting: Seq<ServerMessage>,
    connected: bool,
    signal: ServerMessage,
    count: nat,
) -> Seq<ServerMessage>
    decreases count,
{
    if count == 0 {
        waiting
    } else {
        after_send(after_sends(waiting, connected, signal, (count - 1) as nat), connected, signal)
    }
}

/// A signal sent while the receiver is there is found by the next check,
/// and so is any number of them sent in a row: sending again only adds to
/// what waits and takes nothing back.
pub proof fn lemma_signal_is_observed(
    waiting: Seq<ServerMessage>,
    signal: ServerMessage,
    count: nat,
)
    requires
        count > 0,
    ensures
        shutdown_requested(after_send(waiting, true, signal)),
        shutdown_requested(after_sends(waiting, true, signal, count)),
        after_sends(waiting, true, signal, count).len() == waiting.len() + count,
    decreases count,
{
    if count > 1 {
        lemma_signal_is_observed(waiting, signal, (count - 1) as nat);
    } else {
        assert(after_sends(waiting, true, signal, 0) == waiting);
    }
}

/// An unbounded channel of signals from the jobs to the accept loop.
pub struct ControlChannel {
    waiting: VecDeque<ServerMessage>,
    connected: bool,
}

impl ControlChannel {
    /// The signals sent and not yet received, oldest first.
    pub closed spec fn view(&self) -> Seq<ServerMessage> {
        self.waiting@
    }

    /// Whether the receiving side is still there.
    pub closed spec fn is_connected(&self) -> bool {
        self.connected
    }

    /// Once the receiver is gone nothing waits for it.
    pub open spec fn wf(&self) -> bool {
        !self.is_connected() ==> self@.len() == 0
    }

    /// A connected channel with nothing waiting.
    pub fn new() -> (channel: Self)
        ensures
            channel@ == Seq::<ServerMessage>::empty(),
            channel.is_connected(),
            channel.wf(),
    {
        ControlChannel { waiting: VecDeque::new(), connected: true }
    }

    /// Whether the receiving side is still there.
    pub fn connected(&self) -> (connected: bool)
        ensures
            connected == self.is_connected(),
    {
        self.connected
    }

    /// Sends a signal behind those already waiting. Never waits, whatever
    /// has been sent before. With the receiver gone the signal is refused
    /// and the channel stays as it is.
    pub fn send(&mut self, signal: ServerMessage) -> (sent: Result<(), Disconnected>)
        ensures
            sent.is_ok() <==> old(self).is_connected(),
            final(self).is_connected() == old(self).is_connected(),
            final(self)@ == after_send(old(self)@, old(self).is_connected(), signal),
            old(self).wf() ==> final(self).wf(),
    {
        if self.connected {
            self.waiting.push_back(signal);
            Ok(())
        } else {
            Err(Disconnected)
        }
    }

    /// Takes the oldest waiting signal, if there is one. Never waits.
    pub fn try_recv(&mut self) -> (received: Option<ServerMessage>)
        ensures
            final(self).is_connected() == old(self).is_connected(),
            received == if old(self)@.len() > 0 {
                Some(old(self)@[0])
            } else {
                None
            },
            final(self)@ == if old(self)@.len() > 0 {
                old(self)@.subrange(1, old(self)@.len() as int)
            } else {
                old(self)@
            },
            old(self).wf() ==> final(self).wf(),
    {
        self.waiting.pop_front()
    }

    /// Gives up the receiving side: what waits is discarded and every later
    /// `send` is refused.
    pub fn disconnect(&mut self)
        ensures
            !final(self).is_connected(),
            final(self)@ == Seq::<ServerMessage>::empty(),
            final(self).wf(),
    {
        self.waiting.clear();
        self.connected = false;
    }

    /// One turn of the accept loop, made when a connection attempt has
    /// returned.
    ///
    /// The channel is checked first, without waiting: a waiting signal is
    /// taken and the loop stops, whatever the attempt gave. Otherwise a
    /// connection is submitted as a job and a failed attempt is skipped.
    pub fn accept_step(&mut self, connection_ok: bool) -> (action: AcceptAction)
        ensures
            final(self).is_connected() == old(self).is_connected(),
            action == if shutdown_requested(old(self)@) {
                AcceptAction::Stop
            } else if connection_ok {
                AcceptAction::Submit
            } else {
                AcceptAction::Skip
            },
            final(self)@ == if shutdown_requested(old(self)@) {
                old(self)@.subrange(1, old(self)@.len() as int)
            } else {
                old(self)@
            },
            old(self).wf() ==> final(self).wf(),
    {
        match self.try_recv() {
            Some(ServerMessage::ShutDown) => AcceptAction::Stop,
            None => {
                if connection_ok {
                    AcceptAction::Submit
                } else {
                    AcceptAction::Skip
                }
            },
        }
    }
}

} // verus!
