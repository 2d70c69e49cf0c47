use malai_client::listener::{Listener, ListenerAction, ListenerEvent};
use malai_client::sessions::ClientAddr;

#[test]
fn port_is_reported_before_traffic() {
    let mut l = Listener::new();
    assert_eq!(l.on_event(ListenerEvent::Accepted), ListenerAction::Ignore);
    assert_eq!(l.on_event(ListenerEvent::Bound(49152)), ListenerAction::ReportPort(49152));
    assert_eq!(l.port(), Some(49152));
    assert_eq!(l.on_event(ListenerEvent::Accepted), ListenerAction::Serve);
}

#[test]
fn shutdown_stops_taking_connections() {
    let mut l = Listener::new();
    l.on_event(ListenerEvent::Bound(8080));
    assert_eq!(l.on_event(ListenerEvent::Accepted), ListenerAction::Serve);
    assert_eq!(l.on_event(ListenerEvent::Shutdown), ListenerAction::Exit);
    assert!(l.is_stopped());
    assert_eq!(l.on_event(ListenerEvent::Accepted), ListenerAction::Ignore);
    let a = ClientAddr { ip: 1, port: 2, v6: false };
    assert_eq!(l.on_event(ListenerEvent::Datagram(a)), ListenerAction::Ignore);
    assert_eq!(l.port(), None);
}

#[test]
fn failures_keep_the_loop_running() {
    let mut l = Listener::new();
    l.on_event(ListenerEvent::Bound(1));
    assert_eq!(l.on_event(ListenerEvent::AcceptFailed), ListenerAction::Continue);
    assert_eq!(l.on_event(ListenerEvent::RecvFailed), ListenerAction::Continue);
    let a = ClientAddr { ip: 1, port: 2, v6: false };
    assert_eq!(l.on_event(ListenerEvent::Datagram(a)), ListenerAction::Route(a));
    assert!(!l.is_stopped());
}

#[test]
fn bind_failure_is_reported() {
    let mut l = Listener::new();
    assert_eq!(l.on_event(ListenerEvent::BindFailed), ListenerAction::ReportFailure);
    assert!(l.is_stopped());
    assert_eq!(l.on_event(ListenerEvent::Bound(1)), ListenerAction::Ignore);
}
