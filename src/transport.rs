use vstd::prelude::*;

verus! {

/// What one wait on a listener brought.
#[derive(PartialEq, Eq, Structural, Debug, Clone, Copy)]
pub enum AcceptEvent {
    /// A connection came in.
    Accepted,
    /// The listener can accept no further connection.
    ListenerFailed,
}

/// What the accept loop does next.
#[derive(PartialEq, Eq, Structural, Debug, Clone, Copy)]
pub enum LoopAction {
    /// Serve the connection in a unit of its own and wait for the next one.
    Spawn,
    /// Stop the loop and report the failure as fatal to the process.
    Fatal,
}

/// The accept loop's decision: only a listener failure ends it. A failure
/// inside a connection is never an event of this loop: it ends that
/// connection's unit alone.
pub fn on_accept(event: AcceptEvent) -> (r: LoopAction)
    ensures
        r == LoopAction::Fatal <==> event == AcceptEvent::ListenerFailed,
{
    match event {
        AcceptEvent::Accepted => LoopAction::Spawn,
        AcceptEvent::ListenerFailed => LoopAction::Fatal,
    }
}

/// Where a connection came from, as request logs name it.
pub enum Origin {
    /// The peer's socket address on the network transport.
    Peer(String),
    /// The local-socket transport, whose peers have no address.
    LocalSocket,
}

/// The label of a connection's origin in request logs.
pub fn origin_label(origin: &Origin) -> (r: String)
    ensures
        origin matches Origin::Peer(a) ==> r@ == a@,
        origin is LocalSocket ==> r@ == "unix-socket"@,
{
    match origin {
        Origin::Peer(a) => a.clone(),
        Origin::LocalSocket => "unix-socket".to_owned(),
    }
}

} // verus!
