use sshttp::cli::{Args, Keepalive};
use sshttp::server::{keepalive_probes, serve, tcp_keepalive, Server, ServerEvent, Stage};
use sshttp::session::session_keepalive;

fn up(keepalive: Option<Keepalive>) -> Server {
    serve("127.0.0.1:8080".to_string(), keepalive).step(ServerEvent::Bound)
}

#[test]
fn first_probe_after_four_intervals() {
    let probes = keepalive_probes(Keepalive { interval_secs: 15, max_missed: 3 });
    assert_eq!((probes.idle_secs, probes.idle_nanos), (60, 0));
    assert_eq!(probes.interval_secs, 15);
    assert_eq!(probes.retries, 3);
}

#[test]
fn idle_time_saturates() {
    let fits = keepalive_probes(Keepalive { interval_secs: u64::MAX / 4, max_missed: 1 });
    assert_eq!((fits.idle_secs, fits.idle_nanos), (u64::MAX / 4 * 4, 0));
    let over = keepalive_probes(Keepalive { interval_secs: u64::MAX / 4 + 1, max_missed: 1 });
    assert_eq!((over.idle_secs, over.idle_nanos), (u64::MAX, 999_999_999));
    let max = std::time::Duration::from_secs(u64::MAX / 4 + 1).saturating_mul(4);
    assert_eq!(std::time::Duration::new(over.idle_secs, over.idle_nanos), max);
}

#[test]
fn socket_settings_hold_the_probes() {
    let settings = tcp_keepalive(Keepalive { interval_secs: 7, max_missed: 5 });
    let want = socket2::TcpKeepalive::new()
        .with_time(std::time::Duration::from_secs(28))
        .with_interval(std::time::Duration::from_secs(7))
        .with_retries(5);
    assert_eq!(format!("{settings:?}"), format!("{want:?}"));
    let other = tcp_keepalive(Keepalive { interval_secs: 7, max_missed: 6 });
    assert_ne!(format!("{settings:?}"), format!("{other:?}"));
}

#[test]
fn binding_may_fail() {
    let server = serve("127.0.0.1:8080".to_string(), None);
    match &server.stage {
        Stage::Binding { listen } => assert_eq!(listen, "127.0.0.1:8080"),
        other => panic!("{other:?}"),
    }
    match server.step(ServerEvent::BindFailed).stage {
        Stage::Failed { message } => assert_eq!(message, "bind 127.0.0.1:8080 failed"),
        other => panic!("{other:?}"),
    }
}

#[test]
fn accepted_connections_are_tuned_and_served() {
    let ka = Keepalive { interval_secs: 15, max_missed: 3 };
    for tuned in [ServerEvent::Tuned, ServerEvent::TuneFailed] {
        let server = up(Some(ka)).step(ServerEvent::Accepted);
        match &server.stage {
            Stage::Tuning { keepalive } => assert_eq!(keepalive.interval_secs, 15),
            other => panic!("{other:?}"),
        }
        let server = server.step(tuned);
        assert!(matches!(server.stage, Stage::Spawning));
        assert!(matches!(server.step(ServerEvent::Spawned).stage, Stage::Accepting));
    }
    let server = up(None).step(ServerEvent::Accepted);
    assert!(matches!(server.stage, Stage::Spawning));
}

#[test]
fn a_failed_accept_ends_nothing() {
    let mut server = up(None);
    for event in [ServerEvent::AcceptFailed, ServerEvent::BindFailed, ServerEvent::Spawned] {
        server = server.step(event);
        assert!(matches!(server.stage, Stage::Accepting));
    }
}

#[test]
fn a_disabled_keepalive_is_off_on_both_sides() {
    let mut by_flag = Args::new("alice@host".to_string());
    by_flag.no_keepalive = true;
    let mut by_zero = Args::new("alice@host".to_string());
    by_zero.keepalive_interval = 0;
    for args in [by_flag, by_zero] {
        assert!(session_keepalive(args.keepalive()).is_none());
        let server = up(args.keepalive()).step(ServerEvent::Accepted);
        assert!(matches!(server.stage, Stage::Spawning));
    }
}
