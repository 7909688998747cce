use std::path::PathBuf;

use sshttp::cli::{Args, CliError};
use sshttp::ssh::HostKeyPolicy;
use sshttp::text::PortFault;

fn args_with_target(target: &str) -> Args {
    Args::new(target.to_string())
}

#[test]
fn parses_user_host_default_port() {
    let t = args_with_target("alice@bastion.example.com")
        .parse_target()
        .unwrap();
    assert_eq!(t.user, "alice");
    assert_eq!(t.host, "bastion.example.com");
    assert_eq!(t.port, 22);
}

#[test]
fn parses_user_host_explicit_port() {
    let t = args_with_target("bob@1.2.3.4:2222").parse_target().unwrap();
    assert_eq!(t.user, "bob");
    assert_eq!(t.host, "1.2.3.4");
    assert_eq!(t.port, 2222);
}

#[test]
fn parses_ipv6_with_port() {
    let t = args_with_target("carol@[::1]:2200").parse_target().unwrap();
    assert_eq!(t.host, "::1");
    assert_eq!(t.port, 2200);
}

#[test]
fn rejects_target_without_user() {
    assert!(args_with_target("bastion.example.com")
        .parse_target()
        .is_err());
}

#[test]
fn keepalive_default_is_15s_3() {
    let ka = args_with_target("alice@host").keepalive().unwrap();
    assert_eq!(ka.interval_secs, 15);
    assert_eq!(ka.max_missed, 3);
}

#[test]
fn keepalive_disabled_by_no_keepalive_flag() {
    // sshttp --no-keepalive alice@host
    let mut args = args_with_target("alice@host");
    args.no_keepalive = true;
    assert!(args.keepalive().is_none());
}

#[test]
fn keepalive_disabled_by_zero_interval() {
    // sshttp --keepalive-interval 0 alice@host
    let mut args = args_with_target("alice@host");
    args.keepalive_interval = 0;
    assert!(args.keepalive().is_none());
}

#[test]
fn keepalive_custom_values() {
    // sshttp --keepalive-interval 30 --keepalive-max 5 alice@host
    let mut args = args_with_target("alice@host");
    args.keepalive_interval = 30;
    args.keepalive_max = 5;
    let ka = args.keepalive().unwrap();
    assert_eq!(ka.interval_secs, 30);
    assert_eq!(ka.max_missed, 5);
}

#[test]
fn defaults_of_a_bare_target() {
    let args = args_with_target("alice@host");
    assert_eq!(args.target, "alice@host");
    assert_eq!(args.listen, "127.0.0.1:8080");
    assert!(args.identity.is_empty());
    assert!(!args.agent && !args.password && !args.passphrase_stdin && !args.password_stdin);
    assert!(args.known_hosts.is_none());
    assert!(!args.accept_new_host_keys);
    assert_eq!(args.verbose, 0);
}

#[test]
fn targets_with_odd_hosts() {
    let bare = args_with_target("dave@2001:db8::1").parse_target().unwrap();
    assert_eq!(bare.host, "2001:db8::1");
    assert_eq!(bare.port, 22);

    let trimmed = args_with_target("dave@[[fe80::1]]:22000").parse_target().unwrap();
    assert_eq!(trimmed.host, "fe80::1");
    assert_eq!(trimmed.port, 22000);

    let defaulted = args_with_target("carol@[::1]").parse_target().unwrap();
    assert_eq!(defaulted.user, "carol");
    assert_eq!(defaulted.host, "::1");
    assert_eq!(defaulted.port, 22);

    let at = args_with_target("a@b@c").parse_target().unwrap();
    assert_eq!(at.user, "a");
    assert_eq!(at.host, "b@c");

    let wide = args_with_target("jörg@bücher.example:+0022").parse_target().unwrap();
    assert_eq!(wide.user, "jörg");
    assert_eq!(wide.host, "bücher.example");
    assert_eq!(wide.port, 22);
}

#[test]
fn target_errors() {
    assert_eq!(args_with_target("nobody").parse_target().unwrap_err(), CliError::TargetForm);
    assert_eq!(args_with_target("@host").parse_target().unwrap_err(), CliError::TargetForm);
    assert_eq!(args_with_target("alice@").parse_target().unwrap_err(), CliError::TargetForm);
    assert_eq!(args_with_target("alice@:22").parse_target().unwrap_err(), CliError::TargetForm);
    assert_eq!(args_with_target("alice@[]:22").parse_target().unwrap_err(), CliError::TargetForm);
    for target in [
        "u@[a]:b]",
        "u@[::1]:22]",
        "u@[::1]]",
        "u@[[::1]]",
        "u@[[::1]",
        "u@[a:22]",
        "u@[a]:",
        "u@[::1]:x",
    ] {
        assert!(
            matches!(args_with_target(target).parse_target(), Err(CliError::InvalidPort(_))),
            "{target}"
        );
    }
    // A bad port is reported before a missing user.
    assert_eq!(
        args_with_target("@h:x").parse_target().unwrap_err(),
        CliError::InvalidPort(PortFault::InvalidDigit)
    );
}

#[test]
fn faults_of_a_port() {
    for port in ["", "+", "-1", "x", "2 2", "65536", "99999x", "9x9999", "00000065536", "+70000"] {
        let e = args_with_target(&format!("alice@h:{port}")).parse_target().unwrap_err();
        assert_eq!(e.message(), "invalid SSH port");
        let cause = port.parse::<u16>().unwrap_err().to_string();
        assert_eq!(e.cause().unwrap(), cause, "{port}");
    }
    assert_eq!(
        args_with_target("alice@h:").parse_target().unwrap_err(),
        CliError::InvalidPort(PortFault::Empty)
    );
    assert_eq!(
        args_with_target("alice@h:65536").parse_target().unwrap_err(),
        CliError::InvalidPort(PortFault::TooLarge)
    );
    assert!(CliError::TargetForm.cause().is_none());
}

#[test]
fn error_texts() {
    assert_eq!(CliError::TargetForm.message(), "SSH target must be `user@host[:port]`");
    assert_eq!(CliError::InvalidPort(PortFault::Empty).message(), "invalid SSH port");
    assert_eq!(CliError::NoHome.message(), "could not locate home directory");
}

#[test]
fn known_hosts_file() {
    let mut args = args_with_target("alice@host");
    assert_eq!(
        args.known_hosts_in(Some(PathBuf::from("/home/alice"))).unwrap(),
        PathBuf::from("/home/alice/.ssh/known_hosts")
    );
    assert_eq!(args.known_hosts_in(None).unwrap_err(), CliError::NoHome);
    match args.known_hosts_path() {
        Ok(p) => assert!(p.ends_with(".ssh/known_hosts")),
        Err(e) => assert_eq!(e, CliError::NoHome),
    }

    args.known_hosts = Some(PathBuf::from("/etc/hosts.known"));
    assert_eq!(args.known_hosts_in(None).unwrap(), PathBuf::from("/etc/hosts.known"));
    assert_eq!(args.known_hosts_path().unwrap(), PathBuf::from("/etc/hosts.known"));
}

#[test]
fn known_hosts_path_asks_for_the_home_directory() {
    let args = args_with_target("alice@host");
    let want = dirs::home_dir().map(|h| h.join(".ssh").join("known_hosts"));
    assert_eq!(args.known_hosts_path().ok(), want);
}

#[test]
fn log_levels() {
    let mut args = args_with_target("alice@host");
    for (verbose, level) in [(0, "warn"), (1, "info"), (2, "debug"), (3, "trace"), (255, "trace")] {
        args.verbose = verbose;
        assert_eq!(args.log_level(), level);
        assert_eq!(args.log_filter(), format!("sshttp={level}"));
    }
}

#[test]
fn host_key_policies() {
    let mut args = args_with_target("alice@host");
    assert_eq!(args.host_key_policy(), HostKeyPolicy::StrictKnownHosts);
    args.accept_new_host_keys = true;
    assert_eq!(args.host_key_policy(), HostKeyPolicy::AcceptNew);
}
