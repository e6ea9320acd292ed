//! The server's state and its control loop.
//!
//! The control loop is the only consumer of the event router. It takes the
//! tags in order, looks for a payload in the queue that each tag names, and
//! answers every payload with at most one action for the server's
//! surroundings. It leaves the loop for good on `Terminate`.

use vstd::prelude::*;
use crate::endpoint::ListenEndpoint;
use crate::events::{
    ExternalEvent, IpcListenerEvent, IpcServerAction, IpcServerEventCategory, IpcSessionEvent,
};
use crate::router::{count_tags, EventRouter, RouterState};

verus! {

/// The state that the control loop owns.
pub struct IpcServer {
    endpoint: ListenEndpoint,
    listener_endpoint: String,
    listener_aborted: bool,
    running: bool,
}

/// The server's state as contracts see it.
pub struct ServerState {
    /// The endpoint that the listener is bound to.
    pub endpoint: ListenEndpoint,
    /// That endpoint as the string sent to those who ask for it.
    pub listener_endpoint: String,
    /// Whether the listener has reported that it is gone.
    pub listener_aborted: bool,
    /// Whether the control loop still handles events.
    pub running: bool,
}

/// What handling events leads to: the states afterwards and the actions asked
/// for, in order.
pub struct Dispatch<S, E, A, R> {
    pub server: ServerState,
    pub router: RouterState<S, E, A, R>,
    pub actions: Seq<IpcServerAction<S, E, A, R>>,
}

impl ServerState {
    /// The cached string is the endpoint's text.
    pub open spec fn wf(self) -> bool {
        self.listener_endpoint@ == self.endpoint.text()
    }

    /// Handling one event of the listener category.
    pub open spec fn after_listener_event<S, E, A, R>(
        self,
        event: IpcListenerEvent<S, E>,
    ) -> (ServerState, IpcServerAction<S, E, A, R>) {
        match event {
            IpcListenerEvent::IpcListenerAborted(error) => (
                ServerState { listener_aborted: true, ..self },
                IpcServerAction::ReportListenerAborted(error),
            ),
            IpcListenerEvent::SpawnIpcSession(stream) => (
                self,
                IpcServerAction::EstablishSession(stream),
            ),
        }
    }

    /// Handling one event of the session category.
    pub open spec fn after_session_event<S, E, A, R>(
        self,
        event: IpcSessionEvent<A>,
    ) -> (ServerState, IpcServerAction<S, E, A, R>) {
        match event {
            IpcSessionEvent::IpcSessionWriteFailed(app_id) => (
                self,
                IpcServerAction::ReportSessionWriteFailed(app_id),
            ),
        }
    }

    /// Handling one event of the external category: `Terminate` stops the
    /// loop and asks for nothing, the others ask for one action each.
    pub open spec fn after_external_event<S, E, A, R>(
        self,
        event: ExternalEvent<A, R>,
    ) -> (ServerState, Seq<IpcServerAction<S, E, A, R>>) {
        match event {
            ExternalEvent::ChangeSafeDriveAccess(app_id, is_allowed) => (
                self,
                seq![IpcServerAction::ChangeSafeDriveAccess(app_id, is_allowed)],
            ),
            ExternalEvent::GetListenerEndpoint(reply) => (
                self,
                seq![IpcServerAction::SendListenerEndpoint(reply, self.listener_endpoint)],
            ),
            ExternalEvent::Terminate => (ServerState { running: false, ..self }, Seq::empty()),
        }
    }

    /// Taking the oldest tag off the tag queue and handling the oldest
    /// payload of the category that it names. Where that payload queue is
    /// empty the tag is dropped and nothing else changes. `Terminate` also
    /// disconnects the router: nobody receives after it.
    pub open spec fn step<S, E, A, R>(self, router: RouterState<S, E, A, R>) -> Dispatch<
        S,
        E,
        A,
        R,
    >
        recommends
            router.categories.len() > 0,
    {
        let rest = RouterState { categories: router.categories.drop_first(), ..router };
        match router.categories[0] {
            IpcServerEventCategory::IpcListenerEvent => {
                if router.listener_events.len() == 0 {
                    Dispatch { server: self, router: rest, actions: Seq::empty() }
                } else {
                    let (server, action) = self.after_listener_event::<S, E, A, R>(
                        router.listener_events[0],
                    );
                    Dispatch {
                        server,
                        router: RouterState {
                            listener_events: router.listener_events.drop_first(),
                            ..rest
                        },
                        actions: seq![action],
                    }
                }
            },
            IpcServerEventCategory::IpcSessionEvent => {
                if router.session_events.len() == 0 {
                    Dispatch { server: self, router: rest, actions: Seq::empty() }
                } else {
                    let (server, action) = self.after_session_event::<S, E, A, R>(
                        router.session_events[0],
                    );
                    Dispatch {
                        server,
                        router: RouterState {
                            session_events: router.session_events.drop_first(),
                            ..rest
                        },
                        actions: seq![action],
                    }
                }
            },
            IpcServerEventCategory::ExternalEvent => {
                if router.external_events.len() == 0 {
                    Dispatch { server: self, router: rest, actions: Seq::empty() }
                } else {
                    let (server, actions) = self.after_external_event::<S, E, A, R>(
                        router.external_events[0],
                    );
                    Dispatch {
                        server,
                        router: RouterState {
                            external_events: router.external_events.drop_first(),
                            connected: rest.connected && server.running,
                            ..rest
                        },
                        actions,
                    }
                }
            },
        }
    }

    /// Handling the tags in order until the tag queue is empty or the loop
    /// has stopped. A stopped loop handles nothing.
    pub open spec fn drain<S, E, A, R>(self, router: RouterState<S, E, A, R>) -> Dispatch<
        S,
        E,
        A,
        R,
    >
        decreases router.categories.len(),
    {
        if !self.running || router.categories.len() == 0 {
            Dispatch { server: self, router, actions: Seq::empty() }
        } else {
            let first = self.step(router);
            let rest = first.server.drain(first.router);
            Dispatch {
                server: rest.server,
                router: rest.router,
                actions: first.actions + rest.actions,
            }
        }
    }
}

impl View for IpcServer {
    type V = ServerState;

    closed spec fn view(&self) -> ServerState {
        ServerState {
            endpoint: self.endpoint,
            listener_endpoint: self.listener_endpoint,
            listener_aborted: self.listener_aborted,
            running: self.running,
        }
    }
}

impl IpcServer {
    /// The state of a server whose listener has just been bound to
    /// `endpoint`: running, with a listener that has reported nothing.
    pub fn new(endpoint: ListenEndpoint) -> (server: IpcServer)
        ensures
            server@.endpoint == endpoint,
            server@.listener_endpoint@ == endpoint.text(),
            server@.wf(),
            server@.running,
            !server@.listener_aborted,
    {
        IpcServer {
            endpoint,
            listener_endpoint: endpoint.to_endpoint_string(),
            listener_aborted: false,
            running: true,
        }
    }

    /// The endpoint that the listener is bound to.
    pub fn endpoint(&self) -> (endpoint: ListenEndpoint)
        ensures
            endpoint == self@.endpoint,
    {
        self.endpoint
    }

    /// The endpoint as the string that clients connect to.
    pub fn listener_endpoint(&self) -> (text: &String)
        ensures
            *text == self@.listener_endpoint,
    {
        &self.listener_endpoint
    }

    /// Whether the control loop still handles events.
    pub fn is_running(&self) -> (running: bool)
        ensures
            running == self@.running,
    {
        self.running
    }

    /// Whether the listener has reported that it is gone, so that no new
    /// session can come any more.
    pub fn is_listener_aborted(&self) -> (aborted: bool)
        ensures
            aborted == self@.listener_aborted,
    {
        self.listener_aborted
    }

    /// A client has connected: its connection goes to session establishment.
    pub fn on_spawn_ipc_session<S, E, A, R>(&self, ipc_stream: S) -> (action: IpcServerAction<
        S,
        E,
        A,
        R,
    >)
        ensures
            action == IpcServerAction::<S, E, A, R>::EstablishSession(ipc_stream),
    {
        IpcServerAction::EstablishSession(ipc_stream)
    }

    /// The listener is gone: the server records it and reports the error to
    /// the owning process. It keeps running.
    pub fn on_ipc_listener_aborted<S, E, A, R>(&mut self, error: E) -> (action: IpcServerAction<
        S,
        E,
        A,
        R,
    >)
        ensures
            action == IpcServerAction::<S, E, A, R>::ReportListenerAborted(error),
            final(self)@ == (ServerState { listener_aborted: true, ..old(self)@ }),
    {
        self.listener_aborted = true;
        IpcServerAction::ReportListenerAborted(error)
    }

    /// Writing to a session failed: the failure goes to the session
    /// registry, under the application's identifier if there is one.
    pub fn on_ipc_session_write_failed<S, E, A, R>(&self, app_id: Option<A>) -> (action:
        IpcServerAction<S, E, A, R>)
        ensures
            action == IpcServerAction::<S, E, A, R>::ReportSessionWriteFailed(app_id),
    {
        IpcServerAction::ReportSessionWriteFailed(app_id)
    }

    /// An access change was asked for: it goes to access control as it came.
    pub fn on_change_safe_drive_access<S, E, A, R>(&self, app_id: A, is_allowed: bool) -> (action:
        IpcServerAction<S, E, A, R>)
        ensures
            action == IpcServerAction::<S, E, A, R>::ChangeSafeDriveAccess(app_id, is_allowed),
    {
        IpcServerAction::ChangeSafeDriveAccess(app_id, is_allowed)
    }

    /// The endpoint was asked for: the server's endpoint string is to be
    /// sent over the reply channel that came with the question.
    pub fn on_get_listener_endpoint<S, E, A, R>(&self, sender: R) -> (action: IpcServerAction<
        S,
        E,
        A,
        R,
    >)
        ensures
            action == IpcServerAction::<S, E, A, R>::SendListenerEndpoint(
                sender,
                self@.listener_endpoint,
            ),
    {
        IpcServerAction::SendListenerEndpoint(sender, self.listener_endpoint.clone())
    }

    /// Runs the control loop on what the router holds: handles the tags in
    /// order until none is left or `Terminate` was handled, and returns the
    /// actions asked for, in order. A tag whose payload queue is empty is
    /// dropped. After `Terminate` the server has stopped, the router is
    /// disconnected and what is left in the queues stays there.
    pub fn activate_ipc_server<S, E, A, R>(
        &mut self,
        router: &mut EventRouter<S, E, A, R>,
    ) -> (actions: Vec<IpcServerAction<S, E, A, R>>)
        ensures
            final(self)@ == old(self)@.drain(old(router)@).server,
            final(router)@ == old(self)@.drain(old(router)@).router,
            actions@ == old(self)@.drain(old(router)@).actions,
    {
        let ghost server_at_entry = self@;
        let ghost router_at_entry = router@;
        let mut actions: Vec<IpcServerAction<S, E, A, R>> = Vec::new();
        while self.running && router.categories.len() > 0
            invariant
                server_at_entry.drain(router_at_entry).server == self@.drain(router@).server,
                server_at_entry.drain(router_at_entry).router == self@.drain(router@).router,
                server_at_entry.drain(router_at_entry).actions == actions@ + self@.drain(
                    router@,
                ).actions,
            decreases router.categories.len(),
        {
            let ghost server_before = self@;
            let ghost router_before = router@;
            let ghost actions_before = actions@;
            let category = router.categories.remove(0);
            match category {
                IpcServerEventCategory::IpcListenerEvent => {
                    if router.listener_events.len() > 0 {
                        match router.listener_events.remove(0) {
                            IpcListenerEvent::IpcListenerAborted(error) => {
                                let action = self.on_ipc_listener_aborted(error);
                                actions.push(action);
                            },
                            IpcListenerEvent::SpawnIpcSession(ipc_stream) => {
                                let action = self.on_spawn_ipc_session(ipc_stream);
                                actions.push(action);
                            },
                        }
                    }
                },
                IpcServerEventCategory::IpcSessionEvent => {
                    if router.session_events.len() > 0 {
                        match router.session_events.remove(0) {
                            IpcSessionEvent::IpcSessionWriteFailed(app_id) => {
                                let action = self.on_ipc_session_write_failed(app_id);
                                actions.push(action);
                            },
                        }
                    }
                },
                IpcServerEventCategory::ExternalEvent => {
                    if router.external_events.len() > 0 {
                        match router.external_events.remove(0) {
                            ExternalEvent::ChangeSafeDriveAccess(app_id, is_allowed) => {
                                let action = self.on_change_safe_drive_access(app_id, is_allowed);
                                actions.push(action);
                            },
                            ExternalEvent::GetListenerEndpoint(sender) => {
                                let action = self.on_get_listener_endpoint(sender);
                                actions.push(action);
                            },
                            ExternalEvent::Terminate => {
                                self.running = false;
                                router.connected = false;
                            },
                        }
                    }
                },
            }
            proof {
                let first = server_before.step(router_before);
                assert(first.router.categories =~= router@.categories);
                assert(first.router.listener_events =~= router@.listener_events);
                assert(first.router.session_events =~= router@.session_events);
                assert(first.router.external_events =~= router@.external_events);
                assert(first.router == router@);
                assert(first.server == self@);
                assert(actions@ =~= actions_before + first.actions);
                assert(actions_before + (first.actions + self@.drain(router@).actions)
                    =~= actions@ + self@.drain(router@).actions);
            }
        }
        actions
    }
}

/// Whatever is asked of a server, and however often, its endpoint stays what
/// it was, and every answer to a question for the endpoint carries that same
/// string: asking twice gives the same answer twice.
pub proof fn lemma_endpoint_answers_agree<S, E, A, R>(
    server: ServerState,
    router: RouterState<S, E, A, R>,
)
    ensures
        server.drain(router).server.endpoint == server.endpoint,
        server.drain(router).server.listener_endpoint == server.listener_endpoint,
        server.wf() ==> server.drain(router).server.wf(),
        forall|i: int|
            0 <= i < server.drain(router).actions.len() && (#[trigger] server.drain(
                router,
            ).actions[i]) is SendListenerEndpoint ==> server.drain(router).actions[i]
                ->SendListenerEndpoint_1 == server.listener_endpoint,
    decreases router.categories.len(),
{
    if server.running && router.categories.len() > 0 {
        let first = server.step(router);
        lemma_endpoint_answers_agree(first.server, first.router);
    }
}

/// The control loop returns when it has stopped or when no tag is left, and
/// not before. A stopped server never runs again, and a listener once
/// recorded as gone stays so.
pub proof fn lemma_drain_runs_to_the_end<S, E, A, R>(
    server: ServerState,
    router: RouterState<S, E, A, R>,
)
    ensures
        !server.drain(router).server.running || server.drain(router).router.categories.len() == 0,
        server.drain(router).server.running ==> server.running,
        server.listener_aborted ==> server.drain(router).server.listener_aborted,
        !server.running ==> server.drain(router).server == server && server.drain(router).router
            == router && server.drain(router).actions.len() == 0,
    decreases router.categories.len(),
{
    if server.running && router.categories.len() > 0 {
        let first = server.step(router);
        lemma_drain_runs_to_the_end(first.server, first.router);
    }
}

/// A running server stops on `Terminate` and on nothing else: if the control
/// loop has stopped it, a `Terminate` was waiting among the external events.
/// The router is disconnected by the loop exactly when the loop stops the
/// server.
pub proof fn lemma_stops_only_on_terminate<S, E, A, R>(
    server: ServerState,
    router: RouterState<S, E, A, R>,
)
    requires
        server.running,
    ensures
        !server.drain(router).server.running ==> exists|i: int|
            0 <= i < router.external_events.len() && #[trigger] router.external_events[i]
                == ExternalEvent::<A, R>::Terminate,
        server.drain(router).router.connected == (router.connected && server.drain(
            router,
        ).server.running),
    decreases router.categories.len(),
{
    if router.categories.len() > 0 {
        let first = server.step(router);
        if first.server.running {
            lemma_stops_only_on_terminate(first.server, first.router);
            if !server.drain(router).server.running {
                let i = choose|i: int|
                    0 <= i < first.router.external_events.len()
                        && #[trigger] first.router.external_events[i] == ExternalEvent::<
                        A,
                        R,
                    >::Terminate;
                if first.router.external_events.len() == router.external_events.len() {
                    assert(router.external_events[i] == ExternalEvent::<A, R>::Terminate);
                } else {
                    assert(router.external_events[i + 1] == ExternalEvent::<A, R>::Terminate);
                }
            }
        } else {
            lemma_drain_runs_to_the_end(first.server, first.router);
            assert(router.external_events[0] == ExternalEvent::<A, R>::Terminate);
        }
    }
}

/// Dropping the oldest tag lowers the count of its own category by one and
/// leaves the others.
proof fn lemma_count_tags_drop_first(
    tags: Seq<IpcServerEventCategory>,
    category: IpcServerEventCategory,
)
    requires
        tags.len() > 0,
    ensures
        count_tags(tags, category) == count_tags(tags.drop_first(), category) + if tags[0]
            == category {
            1nat
        } else {
            0nat
        },
{
}

/// Handling one tag keeps every tag that is left backed by a payload.
pub proof fn lemma_step_keeps_backed<S, E, A, R>(
    server: ServerState,
    router: RouterState<S, E, A, R>,
)
    requires
        router.backed(),
        router.categories.len() > 0,
    ensures
        server.step(router).router.backed(),
        server.step(router).actions.len() <= 1,
        server.step(router).actions.len() == 0 ==> router.external_events.len() > 0
            && router.external_events[0] == ExternalEvent::<A, R>::Terminate,
{
    lemma_count_tags_drop_first(router.categories, IpcServerEventCategory::IpcListenerEvent);
    lemma_count_tags_drop_first(router.categories, IpcServerEventCategory::IpcSessionEvent);
    lemma_count_tags_drop_first(router.categories, IpcServerEventCategory::ExternalEvent);
}

/// Sent to a running server whose external tags and payloads are in step,
/// `Terminate` stops it: once a `Terminate` waits among the external events
/// and as many external tags are queued as external payloads, the control
/// loop ends stopped and the router disconnected.
pub proof fn lemma_terminate_stops<S, E, A, R>(server: ServerState, router: RouterState<S, E, A, R>)
    requires
        server.running,
        router.announced(IpcServerEventCategory::ExternalEvent) == router.waiting(
            IpcServerEventCategory::ExternalEvent,
        ),
        exists|i: int|
            0 <= i < router.external_events.len() && #[trigger] router.external_events[i]
                == ExternalEvent::<A, R>::Terminate,
    ensures
        !server.drain(router).server.running,
        !server.drain(router).router.connected,
    decreases router.categories.len(),
{
    let i = choose|i: int|
        0 <= i < router.external_events.len() && #[trigger] router.external_events[i]
            == ExternalEvent::<A, R>::Terminate;
    if router.categories.len() > 0 {
        lemma_count_tags_drop_first(router.categories, IpcServerEventCategory::ExternalEvent);
        let first = server.step(router);
        if first.server.running {
            if router.categories[0] == IpcServerEventCategory::ExternalEvent {
                assert(first.router.external_events[i - 1] == router.external_events[i]);
            } else {
                assert(first.router.external_events[i] == router.external_events[i]);
            }
            lemma_terminate_stops(first.server, first.router);
        } else {
            lemma_drain_runs_to_the_end(first.server, first.router);
        }
    }
}

} // verus!
