use sshttp::ssh::{
    check_server_key, describe, tunnel_failure, tunnel_request, AuthMethod, HostKeyCheck,
    HostKeyEvent, HostKeyPolicy,
};

#[test]
fn method_names() {
    let key = AuthMethod::Key { path: "/k".into(), passphrase: None };
    assert_eq!(describe(&key), "publickey");
    assert_eq!(describe(&AuthMethod::Agent), "agent");
    assert_eq!(describe(&AuthMethod::Password("x".to_string())), "password");
}

fn check(policy: HostKeyPolicy) -> HostKeyCheck {
    check_server_key("bastion", 2222, &"/kh".into(), policy)
}

fn settled(accepted: bool) -> HostKeyCheck {
    HostKeyCheck::Settled { accepted }
}

#[test]
fn strict_policy_accepts_known_keys_only() {
    let check = || check(HostKeyPolicy::StrictKnownHosts);
    assert_eq!(
        check(),
        HostKeyCheck::LookingUp {
            host: "bastion".to_string(),
            port: 2222,
            known_hosts: "/kh".into(),
            policy: HostKeyPolicy::StrictKnownHosts,
        }
    );
    assert_eq!(check().step(HostKeyEvent::Known), settled(true));
    assert_eq!(check().step(HostKeyEvent::Unknown), settled(false));
    assert_eq!(check().step(HostKeyEvent::LookupFailed), settled(false));
}

#[test]
fn new_keys_are_recorded_and_accepted() {
    let check = || check(HostKeyPolicy::AcceptNew);
    assert_eq!(check().step(HostKeyEvent::Known), settled(true));
    assert_eq!(
        check().step(HostKeyEvent::Unknown),
        HostKeyCheck::Recording {
            host: "bastion".to_string(),
            port: 2222,
            known_hosts: "/kh".into(),
        }
    );
    for recorded in [HostKeyEvent::Recorded, HostKeyEvent::RecordFailed] {
        assert_eq!(check().step(HostKeyEvent::Unknown).step(recorded), settled(true));
    }
    assert_eq!(check().step(HostKeyEvent::LookupFailed), settled(false));
    assert_eq!(check().step(HostKeyEvent::Recorded), check());
}

#[test]
fn tunnels() {
    let request = tunnel_request("example.com", 443);
    assert_eq!(request.host, "example.com");
    assert_eq!(request.port, 443);
    assert_eq!(request.originator, "127.0.0.1");
    assert_eq!(request.originator_port, 0);
    assert_eq!(tunnel_failure("::1", 65535), "SSH direct-tcpip to ::1:65535 failed");
}
