use sshttp::auth::{Attempt, AuthFailure, Authentication};
use sshttp::cli::{Args, Keepalive, SshTarget};
use sshttp::session::{connect, session_keepalive, Session, SessionEvent};
use sshttp::ssh::{AuthMethod, AuthPlan};

fn target() -> SshTarget {
    Args::new("alice@bastion:2222".to_string()).parse_target().unwrap()
}

fn plan(n: usize) -> AuthPlan {
    AuthPlan {
        user: "alice".to_string(),
        methods: (0..n).map(|_| AuthMethod::Agent).collect(),
    }
}

fn run(n: usize, events: Vec<SessionEvent<&'static str>>) -> Session<&'static str> {
    let plan = plan(n);
    let mut s = connect(&target(), None);
    for e in events {
        s = s.step(&plan, e);
    }
    s
}

#[test]
fn session_keepalives() {
    let ka = session_keepalive(Some(Keepalive { interval_secs: 15, max_missed: 3 })).unwrap();
    assert_eq!(ka.interval_secs, 15);
    assert_eq!(ka.max_missed, 3);
    assert!(session_keepalive(None).is_none());
}

#[test]
fn a_session_starts_by_dialing() {
    let s: Session<&'static str> =
        connect(&target(), Some(Keepalive { interval_secs: 9, max_missed: 2 }));
    match s {
        Session::Dialing { host, port, keepalive } => {
            assert_eq!((host.as_str(), port), ("bastion", 2222));
            assert_eq!(keepalive.unwrap().interval_secs, 9);
        }
        other => panic!("{other:?}"),
    }
}

#[test]
fn an_unreachable_server() {
    match run(1, vec![SessionEvent::ConnectFailed("refused")]) {
        Session::Unreachable { message, cause } => {
            assert_eq!(message, "SSH connect to bastion:2222 failed");
            assert_eq!(cause, "refused");
        }
        other => panic!("{other:?}"),
    }
}

#[test]
fn a_session_is_ready_once_logged_in() {
    let s = run(2, vec![SessionEvent::Connected]);
    match &s {
        Session::LoggingIn(Authentication::Trying { user, index, total, last_error }) => {
            assert_eq!((user.as_str(), *index, *total), ("alice", 0, 2));
            assert!(last_error.is_none());
        }
        other => panic!("{other:?}"),
    }
    let s = run(
        2,
        vec![
            SessionEvent::Connected,
            SessionEvent::Attempted(Ok(false)),
            SessionEvent::Attempted(Ok(true)),
        ],
    );
    assert!(matches!(s, Session::Ready));
    // An attempt before the server was reached counts for nothing.
    let s = run(2, vec![SessionEvent::Attempted(Ok(true))]);
    assert!(matches!(s, Session::Dialing { .. }));
}

#[test]
fn attempts_are_made_as_the_user_of_the_plan() {
    let plan = AuthPlan {
        user: "bob".to_string(),
        methods: vec![AuthMethod::Agent, AuthMethod::Password("pw".to_string())],
    };
    let s: Session<&'static str> = connect(&target(), None);
    assert!(s.attempt::<()>(&plan).is_none());
    let s = s.step(&plan, SessionEvent::Connected);
    match s.attempt::<()>(&plan) {
        Some(Attempt::AskingAgent { user }) => assert_eq!(user, "bob"),
        other => panic!("{other:?}"),
    }
    let s = s.step(&plan, SessionEvent::Attempted(Ok(false)));
    match s.attempt::<()>(&plan) {
        Some(Attempt::OfferingPassword { user, password }) => {
            assert_eq!((user.as_str(), password.as_str()), ("bob", "pw"))
        }
        other => panic!("{other:?}"),
    }
    let s = s.step(&plan, SessionEvent::Attempted(Ok(true)));
    assert!(s.attempt::<()>(&plan).is_none());
}

#[test]
fn a_session_may_be_rejected() {
    let s = run(0, vec![SessionEvent::Connected]);
    assert!(matches!(s, Session::Rejected(AuthFailure::NoMethods)));
    let s = run(1, vec![SessionEvent::Connected, SessionEvent::Attempted(Err("no key"))]);
    assert!(matches!(s, Session::Rejected(AuthFailure::LastError("no key"))));
    let s = run(1, vec![SessionEvent::Connected, SessionEvent::Attempted(Ok(false))]);
    assert!(matches!(s, Session::Rejected(AuthFailure::AllRejected)));
}
