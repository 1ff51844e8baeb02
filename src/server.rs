use vstd::prelude::*;

verus! {

/// What one attempt to accept a connection gave.
#[derive(Clone, Copy, Debug, PartialEq, Eq, Structural)]
pub enum AcceptEvent {
    /// A connection came in.
    Accepted,
    /// No connection was pending.
    WouldBlock,
    /// Any other error of the listening socket.
    Failed,
}

/// What the accept loop does next.
#[derive(Clone, Copy, Debug, PartialEq, Eq, Structural)]
pub enum ListenAction {
    /// The server is shutting down: leave the loop.
    Stop,
    /// Try to accept a connection.
    Accept,
    /// Hand the accepted connection to the worker pool, then go on.
    Dispatch,
    /// Sleep for the poll interval, then go on.
    Wait,
    /// Leave the loop with the error.
    Abort,
}

/// The poll interval of the accept loop, in milliseconds.
pub const POLL_INTERVAL_MS: u64 = 10;

/// The read timeout of a connection, in milliseconds.
pub const READ_TIMEOUT_MS: u64 = 500;

/// The number of workers in the server's pool.
pub const WORKERS: usize = 4;

/// At the top of each round: stop once the shutdown flag is set, else accept.
pub fn round_start(shutdown: bool) -> (r: ListenAction)
    ensures
        r == (if shutdown {
            ListenAction::Stop
        } else {
            ListenAction::Accept
        }),
{
    if shutdown {
        ListenAction::Stop
    } else {
        ListenAction::Accept
    }
}

/// After an attempt to accept: dispatch a connection, wait when none was
/// pending, abort on any other error.
pub fn after_accept(event: AcceptEvent) -> (r: ListenAction)
    ensures
        event == AcceptEvent::Accepted <==> r == ListenAction::Dispatch,
        event == AcceptEvent::WouldBlock <==> r == ListenAction::Wait,
        event == AcceptEvent::Failed <==> r == ListenAction::Abort,
{
    match event {
        AcceptEvent::Accepted => ListenAction::Dispatch,
        AcceptEvent::WouldBlock => ListenAction::Wait,
        AcceptEvent::Failed => ListenAction::Abort,
    }
}

} // verus!
