//! The SSH session: reach the server, then log in.

use vstd::prelude::*;

use crate::auth;
use crate::auth::{Attempt, AuthFailure, Authentication};
use crate::cli::{Keepalive, SshTarget};
use crate::ssh;
use crate::ssh::AuthPlan;
use crate::text;

verus! {

/// The keepalive of an SSH session.
#[derive(Debug, Clone, Copy, PartialEq, Eq, Structural)]
pub struct SessionKeepalive {
    pub interval_secs: u64,
    pub max_missed: usize,
}

/// The keepalive of an SSH session, where one was asked for.
pub open spec fn session_keepalive_of(keepalive: Option<Keepalive>) -> Option<SessionKeepalive> {
    match keepalive {
        Some(ka) => Some(
            SessionKeepalive {
                interval_secs: ka.interval_secs,
                max_missed: ka.max_missed as usize,
            },
        ),
        None => None,
    }
}

/// The keepalive of an SSH session, where one was asked for.
pub fn session_keepalive(keepalive: Option<Keepalive>) -> (session: Option<SessionKeepalive>)
    ensures
        session == session_keepalive_of(keepalive),
        session is None <==> keepalive is None,
        keepalive matches Some(ka) ==> session->0.interval_secs == ka.interval_secs,
        keepalive matches Some(ka) ==> session->0.max_missed == ka.max_missed,
{
    match keepalive {
        Some(ka) => Some(
            SessionKeepalive {
                interval_secs: ka.interval_secs,
                max_missed: ka.max_missed as usize,
            },
        ),
        None => None,
    }
}

/// What is said when the server cannot be reached.
pub open spec fn unreachable_text(host: Seq<char>, port: u16) -> Seq<char> {
    "SSH connect to "@ + ssh::host_port(host, port) + " failed"@
}

/// What is said when the server cannot be reached.
pub fn connect_failure(host: &str, port: u16) -> (message: String)
    ensures
        message@ == unreachable_text(host@, port),
        message@ == "SSH connect to "@ + (host@ + ":"@ + text::decimal(port as nat)) + " failed"@,
{
    let mut message = "SSH connect to ".to_owned();
    ssh::push_host_port(&mut message, host, port);
    message.append(" failed");
    message
}

/// What the start of a session waits for. `E` is what a failure reports.
#[derive(Debug)]
pub enum Session<E> {
    /// Connect to `host:port`, with this keepalive.
    Dialing { host: String, port: u16, keepalive: Option<SessionKeepalive> },
    /// Try the method that `Authentication` names.
    LoggingIn(Authentication<E>),
    /// Nothing more: the session is there, and the user logged in.
    Ready,
    /// Nothing more: the server cannot be reached.
    Unreachable { message: String, cause: E },
    /// Nothing more: the user could not log in.
    Rejected(AuthFailure<E>),
}

/// What came of it.
#[derive(Debug)]
pub enum SessionEvent<E> {
    Connected,
    ConnectFailed(E),
    /// An attempt to log in was accepted, rejected, or failed.
    Attempted(Result<bool, E>),
}

/// What a `Session` says.
pub enum SessionView<E> {
    Dialing { host: Seq<char>, port: u16, keepalive: Option<SessionKeepalive> },
    LoggingIn(auth::AuthenticationView<E>),
    Ready,
    Unreachable { message: Seq<char>, cause: E },
    Rejected(AuthFailure<E>),
}

impl<E> View for Session<E> {
    type V = SessionView<E>;

    open spec fn view(&self) -> SessionView<E> {
        match *self {
            Session::Dialing { host, port, keepalive } => SessionView::Dialing {
                host: host@,
                port,
                keepalive,
            },
            Session::LoggingIn(a) => SessionView::LoggingIn(a@),
            Session::Ready => SessionView::Ready,
            Session::Unreachable { message, cause } => SessionView::Unreachable {
                message: message@,
                cause,
            },
            Session::Rejected(failure) => SessionView::Rejected(failure),
        }
    }
}

/// What the state of logging in means for the session.
pub open spec fn logging_in<E>(a: auth::AuthenticationView<E>) -> SessionView<E> {
    match a {
        auth::AuthenticationView::Trying { .. } => SessionView::LoggingIn(a),
        auth::AuthenticationView::Succeeded => SessionView::Ready,
        auth::AuthenticationView::Failed(failure) => SessionView::Rejected(failure),
    }
}

/// What the start of a session does next, with `plan` to log in by. An event
/// that does not answer what it waits for changes nothing.
pub open spec fn session_next<E>(
    plan: ssh::AuthPlanView,
    s: SessionView<E>,
    event: SessionEvent<E>,
) -> SessionView<E> {
    match (s, event) {
        (SessionView::Dialing { .. }, SessionEvent::Connected) => logging_in(
            auth::auth_start::<E>(plan.user, plan.methods.len() as usize),
        ),
        (SessionView::Dialing { host, port, .. }, SessionEvent::ConnectFailed(cause)) =>
            SessionView::Unreachable { message: unreachable_text(host, port), cause },
        (SessionView::LoggingIn(a), SessionEvent::Attempted(outcome)) => logging_in(
            auth::auth_next(a, outcome),
        ),
        _ => s,
    }
}

/// What the start of a session does after a series of events.
pub open spec fn session_run<E>(
    plan: ssh::AuthPlanView,
    s: SessionView<E>,
    events: Seq<SessionEvent<E>>,
) -> SessionView<E>
    decreases events.len(),
{
    if events.len() == 0 {
        s
    } else {
        session_next(plan, session_run(plan, s, events.drop_last()), events.last())
    }
}

/// How the session with `host:port` starts.
pub open spec fn session_start<E>(
    host: Seq<char>,
    port: u16,
    keepalive: Option<Keepalive>,
) -> SessionView<E> {
    SessionView::Dialing { host, port, keepalive: session_keepalive_of(keepalive) }
}

/// Starts a session with `target`.
pub fn connect<E>(target: &SshTarget, keepalive: Option<Keepalive>) -> (s: Session<E>)
    ensures
        s@ == session_start::<E>(target.host@, target.port, keepalive),
        s matches Session::Dialing { host, port, keepalive: probed } && {
            &&& host@ == target.host@
            &&& port == target.port
            &&& probed is None <==> keepalive is None
            &&& keepalive matches Some(ka) ==> {
                &&& probed->0.interval_secs == ka.interval_secs
                &&& probed->0.max_missed == ka.max_missed
            }
        },
{
    Session::Dialing {
        host: target.host.clone(),
        port: target.port,
        keepalive: session_keepalive(keepalive),
    }
}

fn log_in<E>(a: Authentication<E>) -> (s: Session<E>)
    ensures
        s@ == logging_in(a@),
{
    match a {
        Authentication::Succeeded => Session::Ready,
        Authentication::Failed(failure) => Session::Rejected(failure),
        a => Session::LoggingIn(a),
    }
}

/// The attempt to log in that a session waits for, if it waits for one.
pub open spec fn attempt_due<E, C>(
    plan: ssh::AuthPlanView,
    s: SessionView<E>,
) -> Option<auth::AttemptView<C>> {
    match s {
        SessionView::LoggingIn(a) => auth::attempt_due::<E, C>(plan, a),
        _ => None,
    }
}

impl<E> Session<E> {
    /// Takes in what came of the thing that was waited for. `plan` holds the
    /// user and the methods to log in.
    pub fn step(self, plan: &AuthPlan, event: SessionEvent<E>) -> (s: Session<E>)
        ensures
            s@ == session_next(plan@, self@, event),
    {
        assert(plan@.methods.len() == plan.methods@.len());
        match (self, event) {
            (Session::Dialing { .. }, SessionEvent::Connected) => log_in(auth::authenticate(plan)),
            (Session::Dialing { host, port, .. }, SessionEvent::ConnectFailed(cause)) => {
                Session::Unreachable { message: connect_failure(host.as_str(), port), cause }
            },
            (Session::LoggingIn(a), SessionEvent::Attempted(outcome)) => log_in(a.step(outcome)),
            (s, _) => s,
        }
    }

    /// The attempt to log in that is waited for, if one is.
    pub fn attempt<C>(&self, plan: &AuthPlan) -> (attempt: Option<Attempt<C>>)
        ensures
            match attempt {
                Some(a) => attempt_due::<E, C>(plan@, self@) == Some(a@),
                None => attempt_due::<E, C>(plan@, self@) is None,
            },
    {
        match self {
            Session::LoggingIn(a) => a.attempt(plan),
            _ => None,
        }
    }
}

/// A session is handed out only if the server was reached and accepted one of
/// the attempts to log in.
pub proof fn law_ready_means_logged_in<E>(
    plan: ssh::AuthPlanView,
    host: Seq<char>,
    port: u16,
    keepalive: Option<Keepalive>,
    events: Seq<SessionEvent<E>>,
)
    ensures
        ({
            let s = session_run(plan, session_start::<E>(host, port, keepalive), events);
            &&& s is LoggingIn || s is Ready ==> events.contains(SessionEvent::<E>::Connected)
            &&& s is Ready ==> events.contains(SessionEvent::<E>::Attempted(Ok(true)))
            &&& s matches SessionView::LoggingIn(a) ==> a is Trying
        }),
    decreases events.len(),
{
    if events.len() > 0 {
        let before = events.drop_last();
        law_ready_means_logged_in(plan, host, port, keepalive, before);
        assert(events[events.len() - 1] == events.last());
        if before.contains(SessionEvent::<E>::Connected) {
            let i = choose|i: int|
                0 <= i < before.len() && before[i] == SessionEvent::<E>::Connected;
            assert(events[i] == SessionEvent::<E>::Connected);
        }
        if before.contains(SessionEvent::<E>::Attempted(Ok(true))) {
            let i = choose|i: int|
                0 <= i < before.len() && before[i] == SessionEvent::<E>::Attempted(Ok(true));
            assert(events[i] == SessionEvent::<E>::Attempted(Ok(true)));
        }
    }
}

/// Whatever has happened, a session that is logging in has an attempt to make,
/// and it is made as the user of the plan, with one of the methods of the plan.
pub proof fn law_attempts_are_the_users<E, C>(
    plan: ssh::AuthPlanView,
    host: Seq<char>,
    port: u16,
    keepalive: Option<Keepalive>,
    events: Seq<SessionEvent<E>>,
)
    requires
        plan.methods.len() <= usize::MAX,
    ensures
        session_run(plan, session_start::<E>(host, port, keepalive), events) matches
            SessionView::LoggingIn(a) ==> {
            &&& a matches auth::AuthenticationView::Trying { user, index, total, .. }
            &&& user == plan.user
            &&& index < total == plan.methods.len()
            &&& attempt_due::<E, C>(plan, SessionView::LoggingIn(a)) == Some(
                auth::attempt_start::<C>(plan.user, plan.methods[index as int]),
            )
        },
    decreases events.len(),
{
    if events.len() > 0 {
        law_attempts_are_the_users::<E, C>(plan, host, port, keepalive, events.drop_last());
    }
}

/// The attempts of a session that was reached are those of `authenticate`: the
/// same outcomes lead to the same state of logging in.
pub proof fn law_session_follows_authentication<E>(
    plan: ssh::AuthPlanView,
    host: Seq<char>,
    port: u16,
    keepalive: Option<Keepalive>,
    outcomes: Seq<Result<bool, E>>,
)
    requires
        outcomes.len() <= plan.methods.len() <= usize::MAX,
    ensures
        session_run(
            plan,
            session_next(plan, session_start::<E>(host, port, keepalive), SessionEvent::Connected),
            outcomes.map_values(|outcome: Result<bool, E>| SessionEvent::Attempted(outcome)),
        ) == logging_in(
            auth::auth_run(
                auth::auth_start::<E>(plan.user, plan.methods.len() as usize),
                outcomes,
            ),
        ),
    decreases outcomes.len(),
{
    let f = |outcome: Result<bool, E>| SessionEvent::Attempted(outcome);
    if outcomes.len() > 0 {
        let before = outcomes.drop_last();
        law_session_follows_authentication(plan, host, port, keepalive, before);
        assert(outcomes.map_values(f).drop_last() =~= before.map_values(f));
        auth::law_authentication(plan.user, plan.methods.len() as usize, before);
    }
}

/// A session starts by dialing the host and the port that it is for, and no
/// other, with the keepalive that was asked for, interval and count alike.
pub proof fn law_session_dials_its_target<E>(
    host: Seq<char>,
    port: u16,
    keepalive: Option<Keepalive>,
)
    ensures
        session_start::<E>(host, port, keepalive) matches SessionView::Dialing {
            host: h,
            port: p,
            keepalive: probed,
        } && {
            &&& h == host
            &&& p == port
            &&& probed is None <==> keepalive is None
            &&& keepalive matches Some(ka) ==> {
                &&& probed->0.interval_secs == ka.interval_secs
                &&& probed->0.max_missed == ka.max_missed
            }
        },
{
}

/// What a session says is what stands in it.
pub proof fn law_session_view<E>(s: Session<E>)
    ensures
        match s {
            Session::Dialing { host, port, keepalive } => s@ == (SessionView::<E>::Dialing {
                host: host@,
                port,
                keepalive,
            }),
            Session::LoggingIn(a) => s@ == SessionView::<E>::LoggingIn(a@),
            Session::Ready => s@ == SessionView::<E>::Ready,
            Session::Unreachable { message, cause } => s@ == (SessionView::<E>::Unreachable {
                message: message@,
                cause,
            }),
            Session::Rejected(failure) => s@ == SessionView::<E>::Rejected(failure),
        },
{
}

/// A server that is reached is asked to let the user of the plan in, by the
/// first method; with no methods there is nothing to ask. One that is not is
/// reported under its name, with the cause.
pub proof fn law_dialing_leads_on<E>(
    plan: ssh::AuthPlanView,
    host: Seq<char>,
    port: u16,
    keepalive: Option<SessionKeepalive>,
    cause: E,
)
    requires
        plan.methods.len() <= usize::MAX,
    ensures
        ({
            let dialing = SessionView::<E>::Dialing { host, port, keepalive };
            &&& plan.methods.len() > 0 ==> session_next(plan, dialing, SessionEvent::Connected)
                == SessionView::<E>::LoggingIn(
                auth::AuthenticationView::Trying {
                    user: plan.user,
                    index: 0,
                    total: plan.methods.len() as usize,
                    last_error: None,
                },
            )
            &&& plan.methods.len() == 0 ==> session_next(plan, dialing, SessionEvent::Connected)
                == SessionView::<E>::Rejected(AuthFailure::NoMethods)
            &&& session_next(plan, dialing, SessionEvent::ConnectFailed(cause)) == (
            SessionView::<E>::Unreachable {
                message: "SSH connect to "@ + (host + ":"@ + text::decimal(port as nat))
                    + " failed"@,
                cause,
            })
        }),
{
}

/// The first attempt that the server accepts makes the session ready. One that
/// it does not leads to the next method, and after the last to the report of
/// the last error, or of a general rejection if there was none.
pub proof fn law_attempts_lead_on<E>(
    plan: ssh::AuthPlanView,
    user: Seq<char>,
    index: usize,
    total: usize,
    last_error: Option<E>,
    outcome: Result<bool, E>,
)
    requires
        index < total,
    ensures
        ({
            let trying = SessionView::LoggingIn(
                auth::AuthenticationView::Trying { user, index, total, last_error },
            );
            let after = session_next(plan, trying, SessionEvent::Attempted(outcome));
            let error = match outcome {
                Err(e) => Some(e),
                Ok(_) => last_error,
            };
            &&& outcome == Ok::<bool, E>(true) ==> after is Ready
            &&& outcome != Ok::<bool, E>(true) && index + 1 < total ==> after
                == SessionView::LoggingIn(
                auth::AuthenticationView::Trying {
                    user,
                    index: (index + 1) as usize,
                    total,
                    last_error: error,
                },
            )
            &&& outcome != Ok::<bool, E>(true) && index + 1 == total ==> match error {
                Some(e) => after == SessionView::Rejected(AuthFailure::LastError(e)),
                None => after == SessionView::<E>::Rejected(AuthFailure::AllRejected),
            }
        }),
{
}

/// An event that is no answer to what a session waits for changes nothing.
pub proof fn law_only_answers_count<E>(
    plan: ssh::AuthPlanView,
    s: SessionView<E>,
    event: SessionEvent<E>,
)
    requires
        match s {
            SessionView::Dialing { .. } => event is Attempted,
            SessionView::LoggingIn(_) => !(event is Attempted),
            _ => true,
        },
    ensures
        session_next(plan, s, event) == s,
{
}

/// A series of events is taken in one by one, in order.
pub proof fn law_session_run<E>(
    plan: ssh::AuthPlanView,
    s: SessionView<E>,
    events: Seq<SessionEvent<E>>,
    event: SessionEvent<E>,
)
    ensures
        session_run(plan, s, Seq::empty()) == s,
        session_run(plan, s, events.push(event)) == session_next(
            plan,
            session_run(plan, s, events),
            event,
        ),
{
    assert(events.push(event).drop_last() =~= events);
}

/// Whatever `connect` gives for a target waits to dial the host of that target
/// on the port of that target.
pub proof fn law_connect_dials_its_target<E>(
    target: SshTarget,
    keepalive: Option<Keepalive>,
    s: Session<E>,
)
    requires
        call_ensures(connect::<E>, (&target, keepalive), s),
    ensures
        s matches Session::Dialing { host, port, .. } && host@ == target.host@ && port
            == target.port,
{
}

} // verus!
