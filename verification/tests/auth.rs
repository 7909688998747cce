use std::path::PathBuf;

use sshttp::auth::{
    agent_auth, authenticate, try_one, AgentAuth, AgentEvent, AgentFailure, Attempt, AttemptEvent,
    AttemptFailure, AuthFailure, Authentication, HashAlg,
};
use sshttp::ssh::{AuthMethod, AuthPlan};

fn plan(n: usize) -> AuthPlan {
    AuthPlan {
        user: "alice".to_string(),
        methods: (0..n).map(|_| AuthMethod::Agent).collect(),
    }
}

fn outcome(n: usize, results: Vec<Result<bool, &'static str>>) -> Authentication<&'static str> {
    let mut auth = authenticate(&plan(n));
    for r in results {
        auth = auth.step(r);
    }
    auth
}

#[test]
fn methods_are_tried_in_order() {
    match outcome(3, vec![]) {
        Authentication::Trying { user, index, total, last_error } => {
            assert_eq!((user.as_str(), index, total, last_error), ("alice", 0, 3, None))
        }
        other => panic!("{other:?}"),
    }
    match outcome(3, vec![Err("first"), Ok(false)]) {
        Authentication::Trying { user, index, total, last_error } => {
            assert_eq!((user.as_str(), index, total, last_error), ("alice", 2, 3, Some("first")))
        }
        other => panic!("{other:?}"),
    }
    assert!(matches!(outcome(3, vec![Ok(false), Ok(true)]), Authentication::Succeeded));
    assert!(matches!(outcome(2, vec![Err("x"), Ok(true), Err("y")]), Authentication::Succeeded));
}

#[test]
fn failures_to_log_in() {
    match outcome(0, vec![]) {
        Authentication::Failed(f) => {
            assert!(matches!(f, AuthFailure::NoMethods));
            assert_eq!(
                f.message().unwrap(),
                "no authentication methods configured (pass -i, --agent, or --password)"
            );
        }
        other => panic!("{other:?}"),
    }
    match outcome(2, vec![Ok(false), Ok(false)]) {
        Authentication::Failed(f) => {
            assert!(matches!(f, AuthFailure::AllRejected));
            assert_eq!(f.message().unwrap(), "all SSH authentication methods were rejected");
        }
        other => panic!("{other:?}"),
    }
    match outcome(3, vec![Err("one"), Err("two"), Ok(false)]) {
        Authentication::Failed(f) => {
            assert!(f.message().is_none());
            assert!(matches!(f, AuthFailure::LastError("two")));
        }
        other => panic!("{other:?}"),
    }
}

fn key_attempt() -> Attempt<&'static str> {
    let method = AuthMethod::Key {
        path: PathBuf::from("/k"),
        passphrase: Some("pw".to_string()),
    };
    try_one("alice", &method)
}

#[test]
fn a_key_is_loaded_and_offered() {
    let attempt = key_attempt();
    match &attempt {
        Attempt::LoadingKey { user, path, passphrase } => {
            assert_eq!(user, "alice");
            assert_eq!(path, &PathBuf::from("/k"));
            assert_eq!(passphrase.as_deref(), Some("pw"));
        }
        other => panic!("{other:?}"),
    }
    let attempt = attempt.step(AttemptEvent::KeyLoaded);
    assert!(matches!(attempt, Attempt::AskingRsaHash { .. }));
    let attempt = attempt.step(AttemptEvent::RsaHash(Some(Some(HashAlg::Sha512))));
    match &attempt {
        Attempt::OfferingKey { user, hash_alg } => {
            assert_eq!((user.as_str(), *hash_alg), ("alice", Some(HashAlg::Sha512)))
        }
        other => panic!("{other:?}"),
    }
    let attempt = attempt.step(AttemptEvent::Reply { success: true });
    assert!(matches!(attempt, Attempt::Settled(Ok(true))));
}

#[test]
fn the_hash_of_a_key_falls_back_to_sha256() {
    for event in [
        AttemptEvent::RsaHash(None),
        AttemptEvent::RsaHash(Some(None)),
        AttemptEvent::Failed("no answer"),
    ] {
        let attempt = key_attempt().step(AttemptEvent::KeyLoaded).step(event);
        assert!(matches!(attempt, Attempt::OfferingKey { hash_alg: Some(HashAlg::Sha256), .. }));
        assert!(matches!(
            attempt.step(AttemptEvent::Failed("lost")),
            Attempt::Settled(Err(AttemptFailure::Other("lost")))
        ));
    }
}

#[test]
fn a_key_that_cannot_be_loaded_is_named() {
    let event = AttemptEvent::LoadFailed { shown: "/k".to_string(), cause: "no file" };
    match key_attempt().step(event) {
        Attempt::Settled(Err(AttemptFailure::KeyNotLoaded { message, cause })) => {
            assert_eq!(message, "failed to load key /k");
            assert_eq!(cause, "no file");
        }
        other => panic!("{other:?}"),
    }
}

#[test]
fn passwords_and_agents() {
    let attempt: Attempt<&'static str> = 
        try_one("alice", &AuthMethod::Password("s3".to_string()));
    match &attempt {
        Attempt::OfferingPassword { user, password } => {
            assert_eq!((user.as_str(), password.as_str()), ("alice", "s3"))
        }
        other => panic!("{other:?}"),
    }
    assert!(matches!(
        attempt.step(AttemptEvent::Reply { success: false }),
        Attempt::Settled(Ok(false))
    ));
    let attempt: Attempt<&'static str> = try_one("alice", &AuthMethod::Agent);
    match &attempt {
        Attempt::AskingAgent { user } => assert_eq!(user, "alice"),
        other => panic!("{other:?}"),
    }
    let attempt = attempt.step(AttemptEvent::KeyLoaded);
    assert!(matches!(attempt, Attempt::AskingAgent { .. }));
    assert!(matches!(
        attempt.step(AttemptEvent::Failed("x")),
        Attempt::Settled(Err(AttemptFailure::Other("x")))
    ));
}

fn agent_run(events: Vec<AgentEvent<&'static str>>) -> AgentAuth<&'static str> {
    let mut agent = agent_auth("alice");
    for e in events {
        agent = agent.step(e);
    }
    agent
}

#[test]
fn agent_keys_are_offered_in_order() {
    let start = || {
        vec![
            AgentEvent::Connected,
            AgentEvent::Identities(2),
            AgentEvent::RsaHash(Some(Some(HashAlg::Sha512))),
        ]
    };
    match agent_run(start()) {
        AgentAuth::Offering { user, index: 0, count: 2, hash_alg: Some(HashAlg::Sha512) } => {
            assert_eq!(user, "alice")
        }
        other => panic!("{other:?}"),
    }
    let mut events = start();
    events.push(AgentEvent::Failed("refused"));
    assert!(matches!(
        agent_run(events),
        AgentAuth::Offering { index: 1, count: 2, hash_alg: Some(HashAlg::Sha512), .. }
    ));
    let mut events = start();
    events.push(AgentEvent::Reply { success: false });
    events.push(AgentEvent::Reply { success: true });
    assert!(matches!(agent_run(events), AgentAuth::Settled(Ok(true))));
    let mut events = start();
    events.push(AgentEvent::Reply { success: false });
    events.push(AgentEvent::Failed("refused"));
    assert!(matches!(agent_run(events), AgentAuth::Settled(Ok(false))));
}

#[test]
fn the_hash_of_agent_keys_has_no_fallback() {
    for event in [
        AgentEvent::RsaHash(None),
        AgentEvent::RsaHash(Some(None)),
        AgentEvent::Failed("no answer"),
    ] {
        let agent = agent_run(vec![AgentEvent::Connected, AgentEvent::Identities(1), event]);
        assert!(matches!(agent, AgentAuth::Offering { index: 0, count: 1, hash_alg: None, .. }));
    }
}

#[test]
fn agent_failures() {
    let text = |events| match agent_run(events) {
        AgentAuth::Settled(Err(f)) => f.message(),
        other => panic!("{other:?}"),
    };
    assert_eq!(
        text(vec![AgentEvent::Failed("x")]),
        "could not reach ssh-agent (is SSH_AUTH_SOCK set?)"
    );
    assert_eq!(
        text(vec![AgentEvent::Connected, AgentEvent::Failed("x")]),
        "ssh-agent: request_identities failed"
    );
    assert_eq!(
        text(vec![AgentEvent::Connected, AgentEvent::Identities(0)]),
        "ssh-agent has no identities loaded"
    );
    assert!(matches!(
        agent_run(vec![AgentEvent::Failed("x")]),
        AgentAuth::Settled(Err(AgentFailure::Unreachable("x")))
    ));
}

#[test]
fn success_is_never_handed_out_unasked() {
    let attempt = key_attempt().step(AttemptEvent::Reply { success: true });
    assert!(matches!(attempt, Attempt::LoadingKey { .. }));
    let attempt = attempt.step(AttemptEvent::KeyLoaded).step(AttemptEvent::Reply { success: true });
    assert!(matches!(attempt, Attempt::AskingRsaHash { .. }));
    let login: AgentAuth<&'static str> = agent_auth("alice");
    let login = login.step(AgentEvent::Reply { success: true });
    assert!(matches!(login, AgentAuth::Connecting { .. }));
}
