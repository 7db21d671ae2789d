use socks_tunnel::dispatch::{dispatch, Dispatch};
use socks_tunnel::tunnel::{
    Action, Direction, ErrorKind, Event, Failure, HandshakeFault, Phase, Tunnel,
};

#[test]
fn connect_scenario_dials_handshakes_and_relays() {
    assert_eq!(dispatch("CONNECT", Some("example.org:443")), Dispatch::BadRequest);
    assert!(matches!(dispatch("CONNECT", Some("93.184.216.34:443")), Dispatch::Tunnel(_)));

    let mut t = Tunnel::new();
    assert_eq!(t.phase(), Phase::Dialing);
    assert_eq!(t.step(Event::Dialed), Action::Handshake);
    assert_eq!(t.phase(), Phase::Handshaking);
    assert_eq!(t.step(Event::HandshakeDone), Action::Relay);
    assert_eq!(t.phase(), Phase::Relaying { to_upstream: true, to_client: true });
}

#[test]
fn relay_closes_when_both_directions_finish() {
    let mut t = Tunnel::new();
    t.step(Event::Dialed);
    t.step(Event::HandshakeDone);
    assert_eq!(t.step(Event::Finished(Direction::UpstreamToClient)), Action::Wait);
    assert_eq!(t.step(Event::Finished(Direction::ClientToUpstream)), Action::Close);
    assert_eq!(t.phase(), Phase::Closed);
}

#[test]
fn half_close_keeps_other_direction_running() {
    let mut t = Tunnel::new();
    t.step(Event::Dialed);
    t.step(Event::HandshakeDone);
    assert_eq!(t.step(Event::Finished(Direction::ClientToUpstream)), Action::Wait);
    assert_eq!(t.phase(), Phase::Relaying { to_upstream: false, to_client: true });
    // A repeated end of the finished direction changes nothing.
    assert_eq!(t.step(Event::Finished(Direction::ClientToUpstream)), Action::Wait);
    assert_eq!(t.phase(), Phase::Relaying { to_upstream: false, to_client: true });
    assert_eq!(t.step(Event::Finished(Direction::UpstreamToClient)), Action::Close);
    assert_eq!(t.phase(), Phase::Closed);
}

#[test]
fn rejected_credentials_fail_as_auth_error() {
    let mut t = Tunnel::new();
    t.step(Event::Dialed);
    let a = t.step(Event::HandshakeFailed(HandshakeFault::CredentialsRejected));
    assert_eq!(a, Action::Close);
    let f = Failure::Handshake(HandshakeFault::CredentialsRejected);
    assert_eq!(t.phase(), Phase::Failed(f));
    assert_eq!(f.kind(), ErrorKind::Auth);
    // Nothing is relayed afterwards.
    assert_eq!(t.step(Event::HandshakeDone), Action::Wait);
    assert_eq!(t.phase(), Phase::Failed(f));
}

#[test]
fn unsupported_method_fails_as_auth_error() {
    let f = Failure::Handshake(HandshakeFault::NoAcceptableMethod);
    assert_eq!(f.kind(), ErrorKind::Auth);
}

#[test]
fn connect_reply_failure_is_handshake_error() {
    let mut t = Tunnel::new();
    t.step(Event::Dialed);
    assert_eq!(t.step(Event::HandshakeFailed(HandshakeFault::Reply(5))), Action::Close);
    match t.phase() {
        Phase::Failed(f) => {
            assert_eq!(f, Failure::Handshake(HandshakeFault::Reply(5)));
            assert_eq!(f.kind(), ErrorKind::Handshake);
        }
        p => panic!("unexpected phase {:?}", p),
    }
    assert_eq!(Failure::Handshake(HandshakeFault::Io).kind(), ErrorKind::Handshake);
    assert_eq!(Failure::Handshake(HandshakeFault::Protocol).kind(), ErrorKind::Handshake);
}

#[test]
fn unreachable_upstream_fails_as_dial_error() {
    let mut t = Tunnel::new();
    assert_eq!(t.step(Event::DialFailed), Action::Close);
    assert_eq!(t.phase(), Phase::Failed(Failure::Dial));
    assert_eq!(Failure::Dial.kind(), ErrorKind::Dial);
    // No handshake is ever started.
    assert_eq!(t.step(Event::Dialed), Action::Wait);
    assert_eq!(t.step(Event::HandshakeDone), Action::Wait);
    assert_eq!(t.phase(), Phase::Failed(Failure::Dial));
}

#[test]
fn relay_io_error_fails_the_tunnel() {
    let mut t = Tunnel::new();
    t.step(Event::Dialed);
    t.step(Event::HandshakeDone);
    t.step(Event::Finished(Direction::ClientToUpstream));
    assert_eq!(t.step(Event::IoError(Direction::UpstreamToClient)), Action::Close);
    let f = Failure::Relay(Direction::UpstreamToClient);
    assert_eq!(t.phase(), Phase::Failed(f));
    assert_eq!(f.kind(), ErrorKind::RelayIo);
}

#[test]
fn events_out_of_order_change_nothing() {
    let mut t = Tunnel::new();
    assert_eq!(t.step(Event::HandshakeDone), Action::Wait);
    assert_eq!(t.step(Event::Finished(Direction::ClientToUpstream)), Action::Wait);
    assert_eq!(t.step(Event::IoError(Direction::ClientToUpstream)), Action::Wait);
    assert_eq!(t.phase(), Phase::Dialing);
    t.step(Event::Dialed);
    assert_eq!(t.step(Event::Dialed), Action::Wait);
    assert_eq!(t.phase(), Phase::Handshaking);
}
