//! The event router: one queue of category tags and one payload queue per
//! category, all first in, first out.
//!
//! A sender puts the payload into its category's queue first and the tag into
//! the tag queue second, so a tag never announces a payload that is not there
//! yet. The consumer still treats a tag as a hint: it looks into the payload
//! queue that the tag names and goes on if that queue is empty.

use vstd::prelude::*;
use crate::events::{
    ExternalEvent, IpcListenerEvent, IpcServerEventCategory, IpcSessionEvent, SendError,
};

verus! {

/// The queues between the producers of events and the control loop.
pub struct EventRouter<S, E, A, R> {
    /// The tags, oldest first.
    pub categories: Vec<IpcServerEventCategory>,
    /// The payloads of the listener category, oldest first.
    pub listener_events: Vec<IpcListenerEvent<S, E>>,
    /// The payloads of the session category, oldest first.
    pub session_events: Vec<IpcSessionEvent<A>>,
    /// The payloads of the external category, oldest first.
    pub external_events: Vec<ExternalEvent<A, R>>,
    /// Whether the control loop still receives.
    pub connected: bool,
}

/// The queues as sequences.
pub struct RouterState<S, E, A, R> {
    pub categories: Seq<IpcServerEventCategory>,
    pub listener_events: Seq<IpcListenerEvent<S, E>>,
    pub session_events: Seq<IpcSessionEvent<A>>,
    pub external_events: Seq<ExternalEvent<A, R>>,
    pub connected: bool,
}

/// How many of `tags` name `category`.
pub open spec fn count_tags(tags: Seq<IpcServerEventCategory>, category: IpcServerEventCategory)
    -> nat
    decreases tags.len(),
{
    if tags.len() == 0 {
        0
    } else if tags[0] == category {
        1 + count_tags(tags.drop_first(), category)
    } else {
        count_tags(tags.drop_first(), category)
    }
}

impl<S, E, A, R> RouterState<S, E, A, R> {
    /// How many tags in the tag queue name `category`.
    pub open spec fn announced(self, category: IpcServerEventCategory) -> nat {
        count_tags(self.categories, category)
    }

    /// How many payloads wait in the queue of `category`.
    pub open spec fn waiting(self, category: IpcServerEventCategory) -> nat {
        match category {
            IpcServerEventCategory::IpcListenerEvent => self.listener_events.len(),
            IpcServerEventCategory::IpcSessionEvent => self.session_events.len(),
            IpcServerEventCategory::ExternalEvent => self.external_events.len(),
        }
    }

    /// No tag outlives its payload: in every category at least as many
    /// payloads wait as tags announce.
    pub open spec fn backed(self) -> bool {
        &&& self.announced(IpcServerEventCategory::IpcListenerEvent) <= self.waiting(
            IpcServerEventCategory::IpcListenerEvent,
        )
        &&& self.announced(IpcServerEventCategory::IpcSessionEvent) <= self.waiting(
            IpcServerEventCategory::IpcSessionEvent,
        )
        &&& self.announced(IpcServerEventCategory::ExternalEvent) <= self.waiting(
            IpcServerEventCategory::ExternalEvent,
        )
    }

    /// The state after a payload of the listener category and its tag were
    /// enqueued.
    pub open spec fn with_listener_event(self, event: IpcListenerEvent<S, E>) -> Self {
        RouterState {
            listener_events: self.listener_events.push(event),
            categories: self.categories.push(IpcServerEventCategory::IpcListenerEvent),
            ..self
        }
    }

    /// The state after a payload of the session category and its tag were
    /// enqueued.
    pub open spec fn with_session_event(self, event: IpcSessionEvent<A>) -> Self {
        RouterState {
            session_events: self.session_events.push(event),
            categories: self.categories.push(IpcServerEventCategory::IpcSessionEvent),
            ..self
        }
    }

    /// The state after a payload of the external category and its tag were
    /// enqueued.
    pub open spec fn with_external_event(self, event: ExternalEvent<A, R>) -> Self {
        RouterState {
            external_events: self.external_events.push(event),
            categories: self.categories.push(IpcServerEventCategory::ExternalEvent),
            ..self
        }
    }
}

impl<S, E, A, R> View for EventRouter<S, E, A, R> {
    type V = RouterState<S, E, A, R>;

    open spec fn view(&self) -> RouterState<S, E, A, R> {
        RouterState {
            categories: self.categories@,
            listener_events: self.listener_events@,
            session_events: self.session_events@,
            external_events: self.external_events@,
            connected: self.connected,
        }
    }
}

impl<S, E, A, R> EventRouter<S, E, A, R> {
    /// A router with empty queues whose control loop receives.
    pub fn new() -> (router: Self)
        ensures
            router@.categories.len() == 0,
            router@.listener_events.len() == 0,
            router@.session_events.len() == 0,
            router@.external_events.len() == 0,
            router@.connected,
            router@.backed(),
    {
        let router = EventRouter {
            categories: Vec::new(),
            listener_events: Vec::new(),
            session_events: Vec::new(),
            external_events: Vec::new(),
            connected: true,
        };
        router
    }

    /// Sends an event of the listener category: the payload first, then its
    /// tag. Fails, handing the event back, once the control loop has stopped
    /// receiving.
    pub fn send_listener_event(&mut self, event: IpcListenerEvent<S, E>) -> (sent: Result<
        (),
        SendError<IpcListenerEvent<S, E>>,
    >)
        ensures
            old(self)@.connected ==> sent is Ok && final(self)@ == old(self)@.with_listener_event(
                event,
            ),
            !old(self)@.connected ==> sent == Err::<(), SendError<IpcListenerEvent<S, E>>>(
                SendError(event),
            ) && final(self)@ == old(self)@,
    {
        if !self.connected {
            return Err(SendError(event));
        }
        self.listener_events.push(event);
        self.categories.push(IpcServerEventCategory::IpcListenerEvent);
        Ok(())
    }

    /// Sends an event of the session category: the payload first, then its
    /// tag. Fails, handing the event back, once the control loop has stopped
    /// receiving.
    pub fn send_session_event(&mut self, event: IpcSessionEvent<A>) -> (sent: Result<
        (),
        SendError<IpcSessionEvent<A>>,
    >)
        ensures
            old(self)@.connected ==> sent is Ok && final(self)@ == old(self)@.with_session_event(
                event,
            ),
            !old(self)@.connected ==> sent == Err::<(), SendError<IpcSessionEvent<A>>>(
                SendError(event),
            ) && final(self)@ == old(self)@,
    {
        if !self.connected {
            return Err(SendError(event));
        }
        self.session_events.push(event);
        self.categories.push(IpcServerEventCategory::IpcSessionEvent);
        Ok(())
    }

    /// Sends an event of the external category: the payload first, then its
    /// tag. Fails, handing the event back, once the control loop has stopped
    /// receiving.
    pub fn send_external_event(&mut self, event: ExternalEvent<A, R>) -> (sent: Result<
        (),
        SendError<ExternalEvent<A, R>>,
    >)
        ensures
            old(self)@.connected ==> sent is Ok && final(self)@ == old(self)@.with_external_event(
                event,
            ),
            !old(self)@.connected ==> sent == Err::<(), SendError<ExternalEvent<A, R>>>(
                SendError(event),
            ) && final(self)@ == old(self)@,
    {
        if !self.connected {
            return Err(SendError(event));
        }
        self.external_events.push(event);
        self.categories.push(IpcServerEventCategory::ExternalEvent);
        Ok(())
    }
}


/// A tag put at the end of the tag queue counts once, for the category that
/// it names.
pub proof fn lemma_count_tags_push(
    tags: Seq<IpcServerEventCategory>,
    tag: IpcServerEventCategory,
    category: IpcServerEventCategory,
)
    ensures
        count_tags(tags.push(tag), category) == count_tags(tags, category) + if tag == category {
            1nat
        } else {
            0nat
        },
    decreases tags.len(),
{
    if tags.len() == 0 {
        assert(tags.push(tag).drop_first() =~= tags);
    } else {
        assert(tags.push(tag).drop_first() =~= tags.drop_first().push(tag));
        lemma_count_tags_push(tags.drop_first(), tag, category);
    }
}

/// Sending keeps every tag backed by a payload: the payload is enqueued
/// before its tag, so no tag outlives the payload that it announces.
pub proof fn lemma_send_keeps_backed<S, E, A, R>(
    router: RouterState<S, E, A, R>,
    listener_event: IpcListenerEvent<S, E>,
    session_event: IpcSessionEvent<A>,
    external_event: ExternalEvent<A, R>,
)
    requires
        router.backed(),
    ensures
        router.with_listener_event(listener_event).backed(),
        router.with_session_event(session_event).backed(),
        router.with_external_event(external_event).backed(),
{
    let listener = IpcServerEventCategory::IpcListenerEvent;
    let session = IpcServerEventCategory::IpcSessionEvent;
    let external = IpcServerEventCategory::ExternalEvent;
    lemma_count_tags_push(router.categories, listener, listener);
    lemma_count_tags_push(router.categories, listener, session);
    lemma_count_tags_push(router.categories, listener, external);
    lemma_count_tags_push(router.categories, session, listener);
    lemma_count_tags_push(router.categories, session, session);
    lemma_count_tags_push(router.categories, session, external);
    lemma_count_tags_push(router.categories, external, listener);
    lemma_count_tags_push(router.categories, external, session);
    lemma_count_tags_push(router.categories, external, external);
}

/// In a backed router the oldest tag always finds a payload waiting.
pub proof fn lemma_backed_tag_finds_payload<S, E, A, R>(router: RouterState<S, E, A, R>)
    requires
        router.backed(),
        router.categories.len() > 0,
    ensures
        router.waiting(router.categories[0]) > 0,
{
}

} // verus!
