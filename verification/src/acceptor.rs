//! What the acceptor does with the outcome of one blocking accept.
//!
//! The acceptor owns the listening socket and accepts in a loop. After every
//! accept it decides, from the outcome and from the shutdown flag as it reads
//! it then, whether to report a connection and go on, to report the failure
//! and end, or to end in silence.

use vstd::prelude::*;
use crate::events::IpcListenerEvent;
use crate::server::IpcServer;

verus! {

/// What the acceptor does after one accept.
#[derive(Clone, Debug, PartialEq, Eq)]
pub enum AcceptorStep<S, E> {
    /// Send the event; accept again if it was sent, end if it was not.
    Forward(IpcListenerEvent<S, E>),
    /// Send the event, whether it arrives or not, and end.
    Abort(IpcListenerEvent<S, E>),
    /// End without sending anything.
    Exit,
}

impl<S, E> AcceptorStep<S, E> {
    /// The event that this step sends, if it sends one.
    pub open spec fn emitted(self) -> Option<IpcListenerEvent<S, E>> {
        match self {
            AcceptorStep::Forward(event) => Some(event),
            AcceptorStep::Abort(event) => Some(event),
            AcceptorStep::Exit => None,
        }
    }

    /// Whether the acceptor accepts again after this step, given whether the
    /// step's event was sent.
    pub open spec fn continues(self, sent: bool) -> bool {
        self is Forward && sent
    }
}

/// The step that follows an accept with this outcome, `stop_requested` being
/// the shutdown flag as read after the accept returned. A failed accept is
/// reported and ends the acceptor, whatever the flag says. A connection
/// accepted under a raised flag is the wake-up call of a shutdown: it is
/// dropped and the acceptor ends. Any other connection is forwarded.
pub open spec fn accept_decision<S, E>(accepted: Result<S, E>, stop_requested: bool)
    -> AcceptorStep<S, E> {
    match accepted {
        Ok(ipc_stream) => if stop_requested {
            AcceptorStep::Exit
        } else {
            AcceptorStep::Forward(IpcListenerEvent::SpawnIpcSession(ipc_stream))
        },
        Err(accept_error) => AcceptorStep::Abort(IpcListenerEvent::IpcListenerAborted(accept_error)),
    }
}

impl IpcServer {
    /// Decides what the acceptor does after one accept; `stop_requested` is
    /// the shutdown flag as read after the accept returned.
    pub fn handle_accept<S, E>(accepted: Result<S, E>, stop_requested: bool) -> (step:
        AcceptorStep<S, E>)
        ensures
            step == accept_decision(accepted, stop_requested),
            stop_requested ==> !step.continues(true),
    {
        match accepted {
            Ok(ipc_stream) => {
                if stop_requested {
                    AcceptorStep::Exit
                } else {
                    AcceptorStep::Forward(IpcListenerEvent::SpawnIpcSession(ipc_stream))
                }
            },
            Err(accept_error) => AcceptorStep::Abort(
                IpcListenerEvent::IpcListenerAborted(accept_error),
            ),
        }
    }
}


/// One turn of the acceptor's loop: the outcome of the accept, the shutdown
/// flag as read after it, and whether the event of that turn, if it had
/// one, could be sent.
pub struct AcceptRound<S, E> {
    pub accepted: Result<S, E>,
    pub stop_requested: bool,
    pub sent: bool,
}

impl<S, E> AcceptRound<S, E> {
    /// What the acceptor does in this turn.
    pub open spec fn step(self) -> AcceptorStep<S, E> {
        accept_decision(self.accepted, self.stop_requested)
    }

    /// Whether the acceptor takes another turn after this one.
    pub open spec fn continues(self) -> bool {
        self.step().continues(self.sent)
    }

    /// The event that reaches the router in this turn, if one does.
    pub open spec fn delivered(self) -> Seq<IpcListenerEvent<S, E>> {
        match self.step().emitted() {
            Some(event) => if self.sent {
                seq![event]
            } else {
                Seq::empty()
            },
            None => Seq::empty(),
        }
    }
}

/// The events that reach the router while an acceptor lives, `rounds` being
/// what its accepts would bring, in order: it takes turn after turn until one
/// of them ends it, and never looks at the turns after that.
pub open spec fn delivered_events<S, E>(rounds: Seq<AcceptRound<S, E>>) -> Seq<
    IpcListenerEvent<S, E>,
>
    decreases rounds.len(),
{
    if rounds.len() == 0 {
        Seq::empty()
    } else if rounds[0].continues() {
        rounds[0].delivered() + delivered_events(rounds.drop_first())
    } else {
        rounds[0].delivered()
    }
}

/// An acceptor never reports a connection after it has reported that it
/// aborted, and never reports twice that it aborted: among the events that
/// reach the router, only the last can be `IpcListenerAborted`.
pub proof fn lemma_abort_is_last<S, E>(rounds: Seq<AcceptRound<S, E>>, i: int)
    requires
        0 <= i < delivered_events(rounds).len(),
        delivered_events(rounds)[i] is IpcListenerAborted,
    ensures
        i == delivered_events(rounds).len() - 1,
    decreases rounds.len(),
{
    if rounds.len() > 0 && rounds[0].continues() {
        assert(rounds[0].delivered() =~= seq![rounds[0].step()->Forward_0]);
        lemma_abort_is_last(rounds.drop_first(), i - 1);
    }
}

/// An acceptor whose accepts succeed `at` times, each connection being
/// forwarded, and then fail, reports those `at` connections in order and
/// then, once, that it aborted with the error of the failed accept; provided
/// that report can be sent, nothing else ever reaches the router from it.
pub proof fn lemma_failed_accept_reported_once<S, E>(rounds: Seq<AcceptRound<S, E>>, at: int)
    requires
        0 <= at < rounds.len(),
        forall|j: int| 0 <= j < at ==> (#[trigger] rounds[j]).continues(),
        rounds[at].accepted is Err,
        rounds[at].sent,
    ensures
        delivered_events(rounds).len() == at + 1,
        delivered_events(rounds)[at] == IpcListenerEvent::<S, E>::IpcListenerAborted(
            rounds[at].accepted->Err_0,
        ),
        forall|j: int|
            0 <= j < at ==> #[trigger] delivered_events(rounds)[j] == IpcListenerEvent::<
                S,
                E,
            >::SpawnIpcSession(rounds[j].accepted->Ok_0),
    decreases at,
{
    if at > 0 {
        let rest = rounds.drop_first();
        assert(rounds[0].continues());
        assert forall|j: int| 0 <= j < at - 1 implies (#[trigger] rest[j]).continues() by {
            assert(rest[j] == rounds[j + 1]);
        }
        assert(rest[at - 1] == rounds[at]);
        lemma_failed_accept_reported_once(rest, at - 1);
        assert forall|j: int| 0 <= j < at implies #[trigger] delivered_events(rounds)[j]
            == IpcListenerEvent::<S, E>::SpawnIpcSession(rounds[j].accepted->Ok_0) by {
            if j > 0 {
                assert(delivered_events(rest)[j - 1] == IpcListenerEvent::<
                    S,
                    E,
                >::SpawnIpcSession(rest[j - 1].accepted->Ok_0));
                assert(rest[j - 1] == rounds[j]);
            }
        }
    }
}

/// Once the acceptor reads a raised shutdown flag it ends in that very turn
/// and forwards no connection, in that turn or later: a connection accepted
/// then is dropped in silence, and only a failed accept is still reported.
pub proof fn lemma_raised_flag_ends_acceptor<S, E>(rounds: Seq<AcceptRound<S, E>>, at: int)
    requires
        0 <= at < rounds.len(),
        forall|j: int| 0 <= j < at ==> (#[trigger] rounds[j]).continues(),
        rounds[at].stop_requested,
    ensures
        delivered_events(rounds).len() == at + rounds[at].delivered().len(),
        rounds[at].accepted is Ok ==> delivered_events(rounds).len() == at,
        forall|j: int|
            at <= j < delivered_events(rounds).len() ==> #[trigger] delivered_events(
                rounds,
            )[j] is IpcListenerAborted,
    decreases at,
{
    if at > 0 {
        let rest = rounds.drop_first();
        assert(rounds[0].continues());
        assert forall|j: int| 0 <= j < at - 1 implies (#[trigger] rest[j]).continues() by {
            assert(rest[j] == rounds[j + 1]);
        }
        assert(rest[at - 1] == rounds[at]);
        lemma_raised_flag_ends_acceptor(rest, at - 1);
    }
}

} // verus!
