use ipc_server::acceptor::AcceptorStep;
use ipc_server::endpoint::ListenEndpoint;
use ipc_server::events::{
    ExternalEvent, IpcListenerEvent, IpcServerAction, IpcServerEventCategory, IpcSessionEvent,
    SendError,
};
use ipc_server::router::EventRouter;
use ipc_server::server::IpcServer;

type Router = EventRouter<u32, String, u64, u8>;
type Action = IpcServerAction<u32, String, u64, u8>;

fn bound_to(third_octet: u8, fourth_octet: u8, port: u16) -> IpcServer {
    IpcServer::new(ListenEndpoint { third_octet, fourth_octet, port })
}

#[test]
fn new_server_runs_and_knows_its_endpoint() {
    let server = bound_to(9, 9, 30000);
    assert!(server.is_running());
    assert!(!server.is_listener_aborted());
    assert_eq!(server.endpoint(), ListenEndpoint::first());
    assert_eq!(server.listener_endpoint(), "127.0.9.9:30000");
}

#[test]
fn new_router_is_empty_and_connected() {
    let router = Router::new();
    assert!(router.categories.is_empty());
    assert!(router.listener_events.is_empty());
    assert!(router.session_events.is_empty());
    assert!(router.external_events.is_empty());
    assert!(router.connected);
}

#[test]
fn send_enqueues_payload_and_tag() {
    let mut router = Router::new();
    assert_eq!(router.send_listener_event(IpcListenerEvent::SpawnIpcSession(5)), Ok(()));
    assert_eq!(
        router.send_session_event(IpcSessionEvent::IpcSessionWriteFailed(Some(77))),
        Ok(())
    );
    assert_eq!(router.send_external_event(ExternalEvent::GetListenerEndpoint(3)), Ok(()));
    assert_eq!(router.send_listener_event(IpcListenerEvent::SpawnIpcSession(6)), Ok(()));
    assert_eq!(
        router.categories,
        vec![
            IpcServerEventCategory::IpcListenerEvent,
            IpcServerEventCategory::IpcSessionEvent,
            IpcServerEventCategory::ExternalEvent,
            IpcServerEventCategory::IpcListenerEvent,
        ]
    );
    assert_eq!(
        router.listener_events,
        vec![IpcListenerEvent::SpawnIpcSession(5), IpcListenerEvent::SpawnIpcSession(6)]
    );
    assert_eq!(router.session_events, vec![IpcSessionEvent::IpcSessionWriteFailed(Some(77))]);
    assert_eq!(router.external_events, vec![ExternalEvent::GetListenerEndpoint(3)]);
}

#[test]
fn send_to_a_disconnected_router_hands_the_event_back() {
    let mut router = Router::new();
    router.connected = false;
    assert_eq!(
        router.send_listener_event(IpcListenerEvent::SpawnIpcSession(5)),
        Err(SendError(IpcListenerEvent::SpawnIpcSession(5)))
    );
    assert_eq!(
        router.send_session_event(IpcSessionEvent::IpcSessionWriteFailed(None)),
        Err(SendError(IpcSessionEvent::IpcSessionWriteFailed(None)))
    );
    assert_eq!(
        router.send_external_event(ExternalEvent::Terminate),
        Err(SendError(ExternalEvent::Terminate))
    );
    assert!(router.categories.is_empty());
    assert!(router.listener_events.is_empty());
    assert!(router.session_events.is_empty());
    assert!(router.external_events.is_empty());
}

#[test]
fn handlers_ask_for_one_action_each() {
    let mut server = bound_to(12, 34, 45678);
    let spawned: Action = server.on_spawn_ipc_session(8);
    assert_eq!(spawned, IpcServerAction::EstablishSession(8));
    let failed: Action = server.on_ipc_session_write_failed(Some(99));
    assert_eq!(failed, IpcServerAction::ReportSessionWriteFailed(Some(99)));
    let unknown: Action = server.on_ipc_session_write_failed(None);
    assert_eq!(unknown, IpcServerAction::ReportSessionWriteFailed(None));
    let allowed: Action = server.on_change_safe_drive_access(4, true);
    assert_eq!(allowed, IpcServerAction::ChangeSafeDriveAccess(4, true));
    let revoked: Action = server.on_change_safe_drive_access(4, false);
    assert_eq!(revoked, IpcServerAction::ChangeSafeDriveAccess(4, false));
    let asked: Action = server.on_get_listener_endpoint(2);
    assert_eq!(
        asked,
        IpcServerAction::SendListenerEndpoint(2, "127.0.12.34:45678".to_string())
    );
    assert!(!server.is_listener_aborted());
    let aborted: Action = server.on_ipc_listener_aborted("closed".to_string());
    assert_eq!(aborted, IpcServerAction::ReportListenerAborted("closed".to_string()));
    assert!(server.is_listener_aborted());
    assert!(server.is_running());
}

#[test]
fn endpoint_query_answers_with_the_bound_endpoint() {
    let bound = ListenEndpoint { third_octet: 9, fourth_octet: 9, port: 30007 };
    let mut server = IpcServer::new(bound);
    let mut router = Router::new();
    router.send_external_event(ExternalEvent::GetListenerEndpoint(1)).unwrap();
    let actions = server.activate_ipc_server(&mut router);
    assert_eq!(
        actions,
        vec![IpcServerAction::SendListenerEndpoint(1, "127.0.9.9:30007".to_string())]
    );
    assert_eq!(bound.to_endpoint_string(), "127.0.9.9:30007");
    assert!(server.is_running());
}

#[test]
fn endpoint_query_twice_gives_the_same_string() {
    let mut server = bound_to(9, 10, 30000);
    let mut router = Router::new();
    router.send_external_event(ExternalEvent::GetListenerEndpoint(1)).unwrap();
    let first = server.activate_ipc_server(&mut router);
    router.send_listener_event(IpcListenerEvent::SpawnIpcSession(4)).unwrap();
    router.send_external_event(ExternalEvent::GetListenerEndpoint(2)).unwrap();
    let second = server.activate_ipc_server(&mut router);
    assert_eq!(
        first,
        vec![IpcServerAction::SendListenerEndpoint(1, "127.0.9.10:30000".to_string())]
    );
    assert_eq!(
        second,
        vec![
            IpcServerAction::EstablishSession(4),
            IpcServerAction::SendListenerEndpoint(2, "127.0.9.10:30000".to_string()),
        ]
    );
    assert_eq!(server.listener_endpoint(), "127.0.9.10:30000");
}

#[test]
fn connection_is_delivered_once_and_terminate_stops_the_loop() {
    let mut server = bound_to(9, 9, 30000);
    let mut router = Router::new();
    match IpcServer::handle_accept::<u32, String>(Ok(21), false) {
        AcceptorStep::Forward(event) => router.send_listener_event(event).unwrap(),
        other => panic!("unexpected step {:?}", other),
    }
    let delivered = server.activate_ipc_server(&mut router);
    assert_eq!(delivered, vec![IpcServerAction::EstablishSession(21)]);
    assert!(router.categories.is_empty());
    assert!(router.listener_events.is_empty());

    router.send_external_event(ExternalEvent::Terminate).unwrap();
    let stopped = server.activate_ipc_server(&mut router);
    assert_eq!(stopped, Vec::<Action>::new());
    assert!(!server.is_running());
    assert!(!router.connected);
    assert_eq!(
        router.send_listener_event(IpcListenerEvent::SpawnIpcSession(22)),
        Err(SendError(IpcListenerEvent::SpawnIpcSession(22)))
    );
}

#[test]
fn spawn_and_shut_ipc_server() {
    let mut server = IpcServer::new(ListenEndpoint::first());
    let mut router = Router::new();

    router.send_external_event(ExternalEvent::GetListenerEndpoint(0)).unwrap();
    let answers = server.activate_ipc_server(&mut router);
    let listener_ep = match &answers[..] {
        [IpcServerAction::SendListenerEndpoint(0, text)] => text.clone(),
        other => panic!("unexpected actions {:?}", other),
    };
    assert_eq!(listener_ep, "127.0.9.9:30000");

    router.send_external_event(ExternalEvent::Terminate).unwrap();
    assert_eq!(server.activate_ipc_server(&mut router), Vec::<Action>::new());
    assert!(!server.is_running());

    let wake_up = IpcServer::handle_accept::<u32, String>(Ok(1), true);
    assert_eq!(wake_up, AcceptorStep::Exit);
}

#[test]
fn terminate_leaves_later_events_unhandled() {
    let mut server = bound_to(9, 9, 30000);
    let mut router = Router::new();
    router.send_external_event(ExternalEvent::ChangeSafeDriveAccess(5, true)).unwrap();
    router.send_external_event(ExternalEvent::Terminate).unwrap();
    router.send_listener_event(IpcListenerEvent::SpawnIpcSession(9)).unwrap();
    router.send_external_event(ExternalEvent::GetListenerEndpoint(1)).unwrap();
    let actions = server.activate_ipc_server(&mut router);
    assert_eq!(actions, vec![IpcServerAction::ChangeSafeDriveAccess(5, true)]);
    assert!(!server.is_running());
    assert!(!router.connected);
    assert_eq!(
        router.categories,
        vec![IpcServerEventCategory::IpcListenerEvent, IpcServerEventCategory::ExternalEvent]
    );
    assert_eq!(router.listener_events, vec![IpcListenerEvent::SpawnIpcSession(9)]);
    assert_eq!(router.external_events, vec![ExternalEvent::GetListenerEndpoint(1)]);
}

#[test]
fn stopped_server_handles_nothing() {
    let mut server = bound_to(9, 9, 30000);
    let mut router = Router::new();
    router.send_external_event(ExternalEvent::Terminate).unwrap();
    server.activate_ipc_server(&mut router);
    assert!(!server.is_running());

    let mut other = Router::new();
    other.send_listener_event(IpcListenerEvent::SpawnIpcSession(1)).unwrap();
    let actions = server.activate_ipc_server(&mut other);
    assert_eq!(actions, Vec::<Action>::new());
    assert_eq!(other.categories, vec![IpcServerEventCategory::IpcListenerEvent]);
    assert_eq!(other.listener_events, vec![IpcListenerEvent::SpawnIpcSession(1)]);
    assert!(other.connected);
    assert!(!server.is_running());
}

#[test]
fn tag_without_payload_is_dropped() {
    let mut server = bound_to(9, 9, 30000);
    let mut router = Router::new();
    router.categories.push(IpcServerEventCategory::IpcSessionEvent);
    router.categories.push(IpcServerEventCategory::ExternalEvent);
    router.categories.push(IpcServerEventCategory::IpcListenerEvent);
    router.send_listener_event(IpcListenerEvent::SpawnIpcSession(3)).unwrap();
    let actions = server.activate_ipc_server(&mut router);
    assert_eq!(actions, vec![IpcServerAction::EstablishSession(3)]);
    assert!(router.categories.is_empty());
    assert!(router.listener_events.is_empty());
    assert!(server.is_running());
    assert!(router.connected);
}

#[test]
fn payload_without_tag_stays_queued() {
    let mut server = bound_to(9, 9, 30000);
    let mut router = Router::new();
    router.session_events.push(IpcSessionEvent::IpcSessionWriteFailed(Some(1)));
    router.external_events.push(ExternalEvent::Terminate);
    let actions = server.activate_ipc_server(&mut router);
    assert_eq!(actions, Vec::<Action>::new());
    assert_eq!(router.session_events.len(), 1);
    assert_eq!(router.external_events.len(), 1);
    assert!(server.is_running());
}

#[test]
fn tag_takes_the_oldest_payload_of_its_category() {
    let mut server = bound_to(9, 9, 30000);
    let mut router = Router::new();
    router.listener_events.push(IpcListenerEvent::SpawnIpcSession(1));
    router.send_listener_event(IpcListenerEvent::SpawnIpcSession(2)).unwrap();
    let actions = server.activate_ipc_server(&mut router);
    assert_eq!(actions, vec![IpcServerAction::EstablishSession(1)]);
    assert_eq!(router.listener_events, vec![IpcListenerEvent::SpawnIpcSession(2)]);
}

#[test]
fn listener_abort_is_recorded_and_the_server_keeps_running() {
    let mut server = bound_to(9, 9, 30000);
    let mut router = Router::new();
    router.send_listener_event(IpcListenerEvent::IpcListenerAborted("bad".to_string())).unwrap();
    router.send_session_event(IpcSessionEvent::IpcSessionWriteFailed(None)).unwrap();
    router.send_external_event(ExternalEvent::ChangeSafeDriveAccess(7, false)).unwrap();
    let actions = server.activate_ipc_server(&mut router);
    assert_eq!(
        actions,
        vec![
            IpcServerAction::ReportListenerAborted("bad".to_string()),
            IpcServerAction::ReportSessionWriteFailed(None),
            IpcServerAction::ChangeSafeDriveAccess(7, false),
        ]
    );
    assert!(server.is_listener_aborted());
    assert!(server.is_running());
    assert!(router.connected);
    assert!(router.categories.is_empty());
}
