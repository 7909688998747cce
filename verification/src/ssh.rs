//! The SSH side: whom to trust, how to log in, and what a tunnel is asked for.
//!
//! The things that alternate with the network are written as states: each
//! state is what has to be done next, and `step` takes in what came of it.

use std::path::PathBuf;

use vstd::prelude::*;

use crate::cli;
use crate::text;

verus! {

/// One way to log in.
#[derive(Debug, Clone)]
pub enum AuthMethod {
    Key { path: PathBuf, passphrase: Option<String> },
    Agent,
    Password(String),
}

/// What an `AuthMethod` says.
pub enum AuthMethodView {
    Key { path: PathBuf, passphrase: Option<Seq<char>> },
    Agent,
    Password(Seq<char>),
}

impl View for AuthMethod {
    type V = AuthMethodView;

    open spec fn view(&self) -> AuthMethodView {
        match *self {
            AuthMethod::Key { path, passphrase } => AuthMethodView::Key {
                path,
                passphrase: text::optional_text(passphrase),
            },
            AuthMethod::Agent => AuthMethodView::Agent,
            AuthMethod::Password(pw) => AuthMethodView::Password(pw@),
        }
    }
}

/// What to do about a server key that known_hosts does not list.
#[derive(Debug, Clone, Copy, PartialEq, Eq, Structural)]
pub enum HostKeyPolicy {
    StrictKnownHosts,
    AcceptNew,
}

/// Who logs in, and the ways to try, in order.
pub struct AuthPlan {
    pub user: String,
    pub methods: Vec<AuthMethod>,
}

/// What an `AuthPlan` says.
pub struct AuthPlanView {
    pub user: Seq<char>,
    pub methods: Seq<AuthMethodView>,
}

/// The methods of a list.
pub open spec fn methods_view(methods: Seq<AuthMethod>) -> Seq<AuthMethodView> {
    methods.map_values(|m: AuthMethod| m@)
}

impl View for AuthPlan {
    type V = AuthPlanView;

    open spec fn view(&self) -> AuthPlanView {
        AuthPlanView { user: self.user@, methods: methods_view(self.methods@) }
    }
}

impl cli::Args {
    /// What the options say about unknown server keys.
    pub fn host_key_policy(&self) -> (policy: HostKeyPolicy)
        ensures
            policy == (if self.accept_new_host_keys {
                HostKeyPolicy::AcceptNew
            } else {
                HostKeyPolicy::StrictKnownHosts
            }),
    {
        if self.accept_new_host_keys {
            HostKeyPolicy::AcceptNew
        } else {
            HostKeyPolicy::StrictKnownHosts
        }
    }
}

/// The name of a method.
pub open spec fn method_name(method: AuthMethodView) -> Seq<char> {
    match method {
        AuthMethodView::Key { .. } => "publickey"@,
        AuthMethodView::Agent => "agent"@,
        AuthMethodView::Password(_) => "password"@,
    }
}

/// The name of a method.
pub fn describe(method: &AuthMethod) -> (name: &'static str)
    ensures
        name@ == method_name(method@),
        method is Key ==> name@ == "publickey"@,
        method is Agent ==> name@ == "agent"@,
        method is Password ==> name@ == "password"@,
{
    match method {
        AuthMethod::Key { .. } => "publickey",
        AuthMethod::Agent => "agent",
        AuthMethod::Password(_) => "password",
    }
}

/// What the check of a server key waits for.
#[derive(Debug, PartialEq, Eq)]
pub enum HostKeyCheck {
    /// Look the key of `host:port` up in `known_hosts`.
    LookingUp { host: String, port: u16, known_hosts: PathBuf, policy: HostKeyPolicy },
    /// Append the key of `host:port` to `known_hosts`.
    Recording { host: String, port: u16, known_hosts: PathBuf },
    /// Nothing more: the key is accepted or it is not.
    Settled { accepted: bool },
}

/// What a `HostKeyCheck` says.
pub enum HostKeyCheckView {
    LookingUp { host: Seq<char>, port: u16, known_hosts: PathBuf, policy: HostKeyPolicy },
    Recording { host: Seq<char>, port: u16, known_hosts: PathBuf },
    Settled { accepted: bool },
}

impl View for HostKeyCheck {
    type V = HostKeyCheckView;

    open spec fn view(&self) -> HostKeyCheckView {
        match *self {
            HostKeyCheck::LookingUp { host, port, known_hosts, policy } => {
                HostKeyCheckView::LookingUp { host: host@, port, known_hosts, policy }
            },
            HostKeyCheck::Recording { host, port, known_hosts } => HostKeyCheckView::Recording {
                host: host@,
                port,
                known_hosts,
            },
            HostKeyCheck::Settled { accepted } => HostKeyCheckView::Settled { accepted },
        }
    }
}

/// What came of it.
#[derive(Debug, Clone, Copy, PartialEq, Eq, Structural)]
pub enum HostKeyEvent {
    /// known_hosts lists the key.
    Known,
    /// known_hosts lists no key of this host.
    Unknown,
    /// known_hosts lists another key, or could not be read.
    LookupFailed,
    /// The key was appended.
    Recorded,
    /// The key could not be appended.
    RecordFailed,
}

/// What the check does next. An event that does not answer what it waits for
/// changes nothing.
pub open spec fn next_host_key_check(c: HostKeyCheckView, event: HostKeyEvent) -> HostKeyCheckView {
    match (c, event) {
        (HostKeyCheckView::LookingUp { .. }, HostKeyEvent::Known) => HostKeyCheckView::Settled {
            accepted: true,
        },
        (
            HostKeyCheckView::LookingUp { host, port, known_hosts, policy },
            HostKeyEvent::Unknown,
        ) => match policy {
            HostKeyPolicy::AcceptNew => HostKeyCheckView::Recording { host, port, known_hosts },
            HostKeyPolicy::StrictKnownHosts => HostKeyCheckView::Settled { accepted: false },
        },
        (HostKeyCheckView::LookingUp { .. }, HostKeyEvent::LookupFailed) =>
            HostKeyCheckView::Settled { accepted: false },
        (HostKeyCheckView::Recording { .. }, HostKeyEvent::Recorded) => HostKeyCheckView::Settled {
            accepted: true,
        },
        (HostKeyCheckView::Recording { .. }, HostKeyEvent::RecordFailed) =>
            HostKeyCheckView::Settled { accepted: true },
        _ => c,
    }
}

/// Starts the check of the key of `host:port` against the file `known_hosts`.
pub fn check_server_key(
    host: &str,
    port: u16,
    known_hosts: &PathBuf,
    policy: HostKeyPolicy,
) -> (c: HostKeyCheck)
    ensures
        c@ == (HostKeyCheckView::LookingUp { host: host@, port, known_hosts: *known_hosts, policy }),
{
    HostKeyCheck::LookingUp {
        host: host.to_owned(),
        port,
        known_hosts: known_hosts.clone(),
        policy,
    }
}

impl HostKeyCheck {
    /// Takes in what came of the thing that was waited for.
    pub fn step(self, event: HostKeyEvent) -> (c: HostKeyCheck)
        ensures
            c@ == next_host_key_check(self@, event),
    {
        match (self, event) {
            (HostKeyCheck::LookingUp { .. }, HostKeyEvent::Known) => HostKeyCheck::Settled {
                accepted: true,
            },
            (
                HostKeyCheck::LookingUp { host, port, known_hosts, policy },
                HostKeyEvent::Unknown,
            ) => match policy {
                HostKeyPolicy::AcceptNew => HostKeyCheck::Recording { host, port, known_hosts },
                HostKeyPolicy::StrictKnownHosts => HostKeyCheck::Settled { accepted: false },
            },
            (HostKeyCheck::LookingUp { .. }, HostKeyEvent::LookupFailed) => {
                HostKeyCheck::Settled { accepted: false }
            },
            (HostKeyCheck::Recording { .. }, HostKeyEvent::Recorded) => HostKeyCheck::Settled {
                accepted: true,
            },
            (HostKeyCheck::Recording { .. }, HostKeyEvent::RecordFailed) => {
                HostKeyCheck::Settled { accepted: true }
            },
            (c, _) => c,
        }
    }
}

/// `host:port` in words.
pub open spec fn host_port(host: Seq<char>, port: u16) -> Seq<char> {
    host + ":"@ + text::decimal(port as nat)
}

/// Appends `host:port` to `out`.
pub fn push_host_port(out: &mut String, host: &str, port: u16)
    ensures
        final(out)@ == old(out)@ + host_port(host@, port),
        final(out)@ == old(out)@ + (host@ + ":"@ + text::decimal(port as nat)),
{
    let ghost start = out@;
    out.append(host);
    out.append(":");
    text::push_decimal(out, port as u64);
    assert(out@ =~= start + host_port(host@, port));
}

/// A channel to ask the server for.
#[derive(Debug, PartialEq, Eq)]
pub struct TunnelRequest {
    pub host: String,
    pub port: u32,
    pub originator: String,
    pub originator_port: u32,
}

/// The channel that leads to `host:port`.
pub fn tunnel_request(host: &str, port: u16) -> (request: TunnelRequest)
    ensures
        request.host@ == host@,
        request.port == port,
        request.originator@ == "127.0.0.1"@,
        request.originator_port == 0,
{
    TunnelRequest {
        host: host.to_owned(),
        port: port as u32,
        originator: "127.0.0.1".to_owned(),
        originator_port: 0,
    }
}

/// What is said when the server does not open the channel.
pub open spec fn tunnel_failure_text(host: Seq<char>, port: u16) -> Seq<char> {
    "SSH direct-tcpip to "@ + host_port(host, port) + " failed"@
}

/// What is said when the server does not open the channel.
pub fn tunnel_failure(host: &str, port: u16) -> (message: String)
    ensures
        message@ == tunnel_failure_text(host@, port),
        message@ == "SSH direct-tcpip to "@ + (host@ + ":"@ + text::decimal(port as nat))
            + " failed"@,
{
    let mut message = "SSH direct-tcpip to ".to_owned();
    push_host_port(&mut message, host, port);
    message.append(" failed");
    message
}

/// What the check of a server key does after a series of events.
pub open spec fn host_key_run(c: HostKeyCheckView, events: Seq<HostKeyEvent>) -> HostKeyCheckView
    decreases events.len(),
{
    if events.len() == 0 {
        c
    } else {
        next_host_key_check(host_key_run(c, events.drop_last()), events.last())
    }
}

/// A key that known_hosts lists is accepted. A key of an unlisted host is
/// accepted exactly if new keys are, whether or not it could be recorded, and
/// it is recorded for the host and in the file in which it was looked up. A key
/// that differs from the listed one is never accepted.
pub proof fn law_host_key_verdict(
    host: Seq<char>,
    port: u16,
    known_hosts: PathBuf,
    policy: HostKeyPolicy,
    recording: HostKeyEvent,
)
    requires
        recording is Recorded || recording is RecordFailed,
    ensures
        ({
            let start = HostKeyCheckView::LookingUp { host, port, known_hosts, policy };
            let unknown = next_host_key_check(start, HostKeyEvent::Unknown);
            let accepted = HostKeyCheckView::Settled { accepted: true };
            let refused = HostKeyCheckView::Settled { accepted: false };
            &&& next_host_key_check(start, HostKeyEvent::Known) == accepted
            &&& next_host_key_check(start, HostKeyEvent::LookupFailed) == refused
            &&& policy is StrictKnownHosts ==> unknown == refused
            &&& policy is AcceptNew ==> {
                &&& unknown == (HostKeyCheckView::Recording { host, port, known_hosts })
                &&& next_host_key_check(unknown, recording) == accepted
            }
        }),
{
}

/// However the check goes, it is about one host, one port and one file, and a
/// key is accepted or recorded only if it was found in known_hosts, or found
/// missing while new keys are accepted.
pub proof fn law_host_key_is_vouched_for(
    host: Seq<char>,
    port: u16,
    known_hosts: PathBuf,
    policy: HostKeyPolicy,
    events: Seq<HostKeyEvent>,
)
    ensures
        ({
            let start = HostKeyCheckView::LookingUp { host, port, known_hosts, policy };
            let c = host_key_run(start, events);
            let known = events.contains(HostKeyEvent::Known);
            let unknown = events.contains(HostKeyEvent::Unknown);
            &&& c is LookingUp ==> c == start
            &&& c is Recording ==> {
                &&& c == (HostKeyCheckView::Recording { host, port, known_hosts })
                &&& unknown
                &&& policy is AcceptNew
            }
            &&& c == (HostKeyCheckView::Settled { accepted: true }) ==> known || (unknown
                && policy is AcceptNew)
        }),
    decreases events.len(),
{
    if events.len() > 0 {
        let before = events.drop_last();
        law_host_key_is_vouched_for(host, port, known_hosts, policy, before);
        assert(events[events.len() - 1] == events.last());
        if before.contains(HostKeyEvent::Known) {
            let i = choose|i: int| 0 <= i < before.len() && before[i] == HostKeyEvent::Known;
            assert(events[i] == HostKeyEvent::Known);
        }
        if before.contains(HostKeyEvent::Unknown) {
            let i = choose|i: int| 0 <= i < before.len() && before[i] == HostKeyEvent::Unknown;
            assert(events[i] == HostKeyEvent::Unknown);
        }
    }
}

/// What a method says is what stands in it: the path, the passphrase if there is
/// one, the password.
pub proof fn law_method_view(method: AuthMethod)
    ensures
        match method {
            AuthMethod::Key { path, passphrase: Some(secret) } => method@ == (AuthMethodView::Key {
                path,
                passphrase: Some(secret@),
            }),
            AuthMethod::Key { path, passphrase: None } => method@ == (AuthMethodView::Key {
                path,
                passphrase: None,
            }),
            AuthMethod::Agent => method@ == AuthMethodView::Agent,
            AuthMethod::Password(secret) => method@ == AuthMethodView::Password(secret@),
        },
{
}

/// A plan is its user and its methods, each of them and in their order.
pub proof fn law_plan_view(plan: AuthPlan, i: int)
    ensures
        plan@.user == plan.user@,
        plan@.methods.len() == plan.methods@.len(),
        methods_view(plan.methods@) == plan@.methods,
        0 <= i < plan.methods@.len() ==> plan@.methods[i] == plan.methods@[i]@,
{
}

/// What the check of a server key says is what stands in it.
pub proof fn law_host_key_check_view(c: HostKeyCheck)
    ensures
        match c {
            HostKeyCheck::LookingUp { host, port, known_hosts, policy } => c@ == (
            HostKeyCheckView::LookingUp { host: host@, port, known_hosts, policy }),
            HostKeyCheck::Recording { host, port, known_hosts } => c@ == (
            HostKeyCheckView::Recording { host: host@, port, known_hosts }),
            HostKeyCheck::Settled { accepted } => c@ == (HostKeyCheckView::Settled { accepted }),
        },
{
}

/// Whether or not the new key could be recorded, it is accepted once that was
/// tried, and an event that is no answer to what is waited for changes nothing.
pub proof fn law_host_key_events(c: HostKeyCheckView, event: HostKeyEvent)
    ensures
        c is Recording && (event is Recorded || event is RecordFailed) ==> next_host_key_check(
            c,
            event,
        ) == (HostKeyCheckView::Settled { accepted: true }),
        c is LookingUp && (event is Recorded || event is RecordFailed) ==> next_host_key_check(
            c,
            event,
        ) == c,
        c is Recording && (event is Known || event is Unknown || event is LookupFailed)
            ==> next_host_key_check(c, event) == c,
        c is Settled ==> next_host_key_check(c, event) == c,
{
}

} // verus!
