//! What a connection's job computes: the route that a request's first bytes
//! select, and the bytes of the response.

use crate::signal::{after_send, ControlChannel, ServerMessage};
use vstd::prelude::*;
use vstd::string::StringSliceAdditionalSpecFns;

verus! {

/// The routes of the server. Each request selects one.
#[derive(Debug, Clone, Copy, PartialEq, Eq, Structural)]
pub enum Route {
    /// The home page.
    Home,
    /// A page that takes its time.
    Foo,
    /// The page that asks the server to stop.
    Shutdown,
    /// Whatever matches no other route.
    NotFound,
}

/// What became of one request: the route it selected and, where the route
/// asks for a shutdown, whether the signal found a receiver.
#[derive(Debug, Clone, Copy, PartialEq, Eq, Structural)]
pub struct Handled {
    /// The route that the request selected.
    pub route: Route,
    /// Whether a shutdown signal was sent and refused.
    pub signal_lost: bool,
}

/// The route that a request selects: the first in the table whose request
/// line the request begins with, or `NotFound`.
pub open spec fn route_of(request: Seq<u8>) -> Route {
    if "GET / HTTP/1.1".spec_bytes().is_prefix_of(request) {
        Route::Home
    } else if "GET /foo HTTP/1.1".spec_bytes().is_prefix_of(request) {
        Route::Foo
    } else if "GET /shutdown HTTP/1.1".spec_bytes().is_prefix_of(request) {
        Route::Shutdown
    } else {
        Route::NotFound
    }
}

/// The bytes of a response: the protocol version, the status, an empty
/// line, then the payload as it is.
pub open spec fn response_bytes(status: Seq<u8>, contents: Seq<u8>) -> Seq<u8> {
    "HTTP/1.1 ".spec_bytes() + status + "\r\n\r\n".spec_bytes() + contents
}

/// Whether `buffer` begins with `prefix`.
pub fn starts_with(buffer: &[u8], prefix: &[u8]) -> (found: bool)
    ensures
        found == prefix@.is_prefix_of(buffer@),
{
    if prefix.len() > buffer.len() {
        return false;
    }
    let mut index: usize = 0;
    while index < prefix.len()
        invariant
            index <= prefix@.len() <= buffer@.len(),
            forall|i: int| 0 <= i < index ==> prefix@[i] == buffer@[i],
        decreases prefix@.len() - index,
    {
        if prefix[index] != buffer[index] {
            assert(buffer@.subrange(0, prefix@.len() as int)[index as int]
                != prefix@[index as int]);
            return false;
        }
        index = index + 1;
    }
    assert(prefix@ =~= buffer@.subrange(0, prefix@.len() as int));
    true
}

impl Route {
    /// The route that a request selects.
    pub fn of(request: &[u8]) -> (route: Route)
        ensures
            route == route_of(request@),
    {
        if starts_with(request, "GET / HTTP/1.1".as_bytes()) {
            Route::Home
        } else if starts_with(request, "GET /foo HTTP/1.1".as_bytes()) {
            Route::Foo
        } else if starts_with(request, "GET /shutdown HTTP/1.1".as_bytes()) {
            Route::Shutdown
        } else {
            Route::NotFound
        }
    }

    /// The status of the response.
    pub fn status(&self) -> (status: &'static str)
        ensures
            status@ == if *self == Route::NotFound {
                "404 NOT FOUND"@
            } else {
                "200 OK"@
            },
    {
        match self {
            Route::NotFound => "404 NOT FOUND",
            _ => "200 OK",
        }
    }

    /// The name of the file that holds the payload.
    pub fn file_name(&self) -> (name: &'static str)
        ensures
            name@ == match *self {
                Route::Home => "index.html"@,
                Route::Foo => "foo.html"@,
                Route::Shutdown => "shutdown.html"@,
                Route::NotFound => "404.html"@,
            },
    {
        match self {
            Route::Home => "index.html",
            Route::Foo => "foo.html",
            Route::Shutdown => "shutdown.html",
            Route::NotFound => "404.html",
        }
    }

    /// How many seconds the job rests before it answers.
    pub fn delay_seconds(&self) -> (seconds: u64)
        ensures
            seconds == if *self == Route::Foo {
                5u64
            } else {
                0u64
            },
    {
        match self {
            Route::Foo => 5,
            _ => 0,
        }
    }

    /// Whether the route asks the server to stop accepting.
    pub fn requests_shutdown(&self) -> (requested: bool)
        ensures
            requested == (*self == Route::Shutdown),
    {
        match self {
            Route::Shutdown => true,
            _ => false,
        }
    }
}

/// Handles one request: selects its route and, for the shutdown route,
/// sends the shutdown signal. Any other route leaves the channel alone. A
/// signal that finds no receiver is reported and changes nothing else.
pub fn handle_client(request: &[u8], control: &mut ControlChannel) -> (handled: Handled)
    ensures
        handled.route == route_of(request@),
        handled.signal_lost == (handled.route == Route::Shutdown && !old(control).is_connected()),
        final(control).is_connected() == old(control).is_connected(),
        final(control)@ == if handled.route == Route::Shutdown {
            after_send(old(control)@, old(control).is_connected(), ServerMessage::ShutDown)
        } else {
            old(control)@
        },
        old(control).wf() ==> final(control).wf(),
{
    let route = Route::of(request);
    let mut signal_lost = false;
    if route.requests_shutdown() {
        signal_lost = control.send(ServerMessage::ShutDown).is_err();
    }
    Handled { route, signal_lost }
}

/// Builds the response for a route's status and the payload read for it.
pub fn response(status: &str, contents: &str) -> (bytes: Vec<u8>)
    ensures
        bytes@ == response_bytes(status.spec_bytes(), contents.spec_bytes()),
{
    let mut bytes: Vec<u8> = Vec::new();
    bytes.extend_from_slice("HTTP/1.1 ".as_bytes());
    bytes.extend_from_slice(status.as_bytes());
    bytes.extend_from_slice("\r\n\r\n".as_bytes());
    bytes.extend_from_slice(contents.as_bytes());
    assert(bytes@ =~= response_bytes(status.spec_bytes(), contents.spec_bytes()));
    bytes
}

} // verus!
