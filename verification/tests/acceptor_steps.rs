use ipc_server::acceptor::AcceptorStep;
use ipc_server::events::IpcListenerEvent;
use ipc_server::server::IpcServer;

#[test]
fn accepted_connection_is_forwarded() {
    let step = IpcServer::handle_accept::<u32, String>(Ok(17), false);
    assert_eq!(step, AcceptorStep::Forward(IpcListenerEvent::SpawnIpcSession(17)));
}

#[test]
fn connection_accepted_under_raised_flag_is_dropped() {
    let step = IpcServer::handle_accept::<u32, String>(Ok(17), true);
    assert_eq!(step, AcceptorStep::Exit);
}

#[test]
fn failed_accept_is_reported_and_ends_the_acceptor() {
    let step = IpcServer::handle_accept::<u32, String>(Err("closed".to_string()), false);
    assert_eq!(
        step,
        AcceptorStep::Abort(IpcListenerEvent::IpcListenerAborted("closed".to_string()))
    );
}

#[test]
fn failed_accept_is_reported_under_raised_flag_too() {
    let step = IpcServer::handle_accept::<u32, String>(Err("reset".to_string()), true);
    assert_eq!(
        step,
        AcceptorStep::Abort(IpcListenerEvent::IpcListenerAborted("reset".to_string()))
    );
}

#[test]
fn aborted_accept_gives_one_report_and_no_connection_after_it() {
    let outcomes: Vec<Result<u32, String>> =
        vec![Ok(1), Ok(2), Err("gone".to_string()), Ok(3), Err("again".to_string())];
    let mut delivered: Vec<IpcListenerEvent<u32, String>> = Vec::new();
    for outcome in outcomes {
        match IpcServer::handle_accept(outcome, false) {
            AcceptorStep::Forward(event) => delivered.push(event),
            AcceptorStep::Abort(event) => {
                delivered.push(event);
                break;
            }
            AcceptorStep::Exit => break,
        }
    }
    assert_eq!(
        delivered,
        vec![
            IpcListenerEvent::SpawnIpcSession(1),
            IpcListenerEvent::SpawnIpcSession(2),
            IpcListenerEvent::IpcListenerAborted("gone".to_string()),
        ]
    );
}
