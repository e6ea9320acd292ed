//! The events that reach the server's control loop, by category, and what the
//! loop asks of its collaborators in answer.
//!
//! The payloads that the server only passes on are type parameters: `S` is an
//! accepted connection, `E` the error of a failed accept, `A` an application
//! identifier and `R` a one-shot reply channel that takes a string.

use vstd::prelude::*;

verus! {

/// Tells which payload queue has an event ready.
#[derive(Clone, Copy, Debug, PartialEq, Eq, Structural)]
pub enum IpcServerEventCategory {
    IpcListenerEvent,
    IpcSessionEvent,
    ExternalEvent,
}

/// What the acceptor reports.
#[derive(Clone, Debug, PartialEq, Eq)]
pub enum IpcListenerEvent<S, E> {
    /// Accepting failed; the acceptor has stopped.
    IpcListenerAborted(E),
    /// A client has connected.
    SpawnIpcSession(S),
}

/// What a running session reports.
#[derive(Clone, Debug, PartialEq, Eq)]
pub enum IpcSessionEvent<A> {
    /// Writing to the session of this application failed; `None` stands for a
    /// session that no application is known for yet.
    IpcSessionWriteFailed(Option<A>),
}

/// What the owning process asks for.
#[derive(Clone, Debug, PartialEq, Eq)]
pub enum ExternalEvent<A, R> {
    /// Allow or revoke an application's access to the drive.
    ChangeSafeDriveAccess(A, bool),
    /// Send the listener's endpoint over this reply channel.
    GetListenerEndpoint(R),
    /// Leave the control loop.
    Terminate,
}

/// What the control loop asks of its surroundings in answer to one event.
#[derive(Clone, Debug, PartialEq, Eq)]
pub enum IpcServerAction<S, E, A, R> {
    /// Hand the accepted connection to session establishment.
    EstablishSession(S),
    /// Tell the owning process that the listener is gone for good.
    ReportListenerAborted(E),
    /// Tell the session registry that writing to a session failed.
    ReportSessionWriteFailed(Option<A>),
    /// Pass the access change on to access control.
    ChangeSafeDriveAccess(A, bool),
    /// Send this endpoint over the reply channel; a failure to send is logged
    /// and otherwise ignored.
    SendListenerEndpoint(R, String),
}

/// The event that could not be sent because nobody receives any more.
#[derive(Clone, Debug, PartialEq, Eq)]
pub struct SendError<P>(pub P);

} // verus!
