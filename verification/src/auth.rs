//! Logging in: the methods of a plan are tried in order until one succeeds.

use std::path::PathBuf;

use vstd::prelude::*;

use crate::ssh;
use crate::ssh::{AuthMethod, AuthPlan};
use crate::text;

verus! {

/// What logging in waits for. `E` is what a failed attempt reports.
#[derive(Debug)]
pub enum Authentication<E> {
    /// Try the method at `index` of the `total` methods of the plan, as `user`.
    Trying { user: String, index: usize, total: usize, last_error: Option<E> },
    /// Nothing more: the user is logged in.
    Succeeded,
    /// Nothing more: no method let the user in.
    Failed(AuthFailure<E>),
}

/// Why no method let the user in.
#[derive(Debug)]
pub enum AuthFailure<E> {
    /// The plan has no methods.
    NoMethods,
    /// The last attempt that failed with an error.
    LastError(E),
    /// Every method was rejected, none with an error.
    AllRejected,
}

impl<E> AuthFailure<E> {
    /// The text of a failure that is no attempt's own.
    pub open spec fn text(self) -> Option<Seq<char>> {
        match self {
            AuthFailure::NoMethods => Some(
                "no authentication methods configured (pass -i, --agent, or --password)"@,
            ),
            AuthFailure::LastError(_) => None,
            AuthFailure::AllRejected => Some("all SSH authentication methods were rejected"@),
        }
    }

    /// The text of a failure that is no attempt's own.
    pub fn message(&self) -> (message: Option<String>)
        ensures
            text::optional_text(message) == self.text(),
    {
        match self {
            AuthFailure::NoMethods => Some(
                "no authentication methods configured (pass -i, --agent, or --password)".to_owned(),
            ),
            AuthFailure::LastError(_) => None,
            AuthFailure::AllRejected => Some(
                "all SSH authentication methods were rejected".to_owned(),
            ),
        }
    }
}

/// What an `Authentication` says.
pub enum AuthenticationView<E> {
    Trying { user: Seq<char>, index: usize, total: usize, last_error: Option<E> },
    Succeeded,
    Failed(AuthFailure<E>),
}

impl<E> View for Authentication<E> {
    type V = AuthenticationView<E>;

    open spec fn view(&self) -> AuthenticationView<E> {
        match *self {
            Authentication::Trying { user, index, total, last_error } => {
                AuthenticationView::Trying { user: user@, index, total, last_error }
            },
            Authentication::Succeeded => AuthenticationView::Succeeded,
            Authentication::Failed(failure) => AuthenticationView::Failed(failure),
        }
    }
}

/// How logging in as `user` starts with `total` methods.
pub open spec fn auth_start<E>(user: Seq<char>, total: usize) -> AuthenticationView<E> {
    if total == 0 {
        AuthenticationView::Failed(AuthFailure::NoMethods)
    } else {
        AuthenticationView::Trying { user, index: 0, total, last_error: None }
    }
}

/// What follows an attempt that did not succeed.
pub open spec fn auth_advance<E>(
    user: Seq<char>,
    index: usize,
    total: usize,
    last_error: Option<E>,
) -> AuthenticationView<E> {
    if index + 1 < total {
        AuthenticationView::Trying { user, index: (index + 1) as usize, total, last_error }
    } else {
        match last_error {
            Some(e) => AuthenticationView::Failed(AuthFailure::LastError(e)),
            None => AuthenticationView::Failed(AuthFailure::AllRejected),
        }
    }
}

/// What logging in does after an attempt: it was accepted, rejected, or failed.
pub open spec fn auth_next<E>(
    a: AuthenticationView<E>,
    outcome: Result<bool, E>,
) -> AuthenticationView<E> {
    match a {
        AuthenticationView::Trying { user, index, total, last_error } => match outcome {
            Ok(true) => AuthenticationView::Succeeded,
            Ok(false) => auth_advance(user, index, total, last_error),
            Err(e) => auth_advance(user, index, total, Some(e)),
        },
        _ => a,
    }
}

/// What logging in does after a series of attempts.
pub open spec fn auth_run<E>(
    a: AuthenticationView<E>,
    outcomes: Seq<Result<bool, E>>,
) -> AuthenticationView<E>
    decreases outcomes.len(),
{
    if outcomes.len() == 0 {
        a
    } else {
        auth_next(auth_run(a, outcomes.drop_last()), outcomes.last())
    }
}

/// Starts to log in.
pub fn authenticate<E>(plan: &AuthPlan) -> (a: Authentication<E>)
    ensures
        a@ == auth_start::<E>(plan.user@, plan.methods@.len() as usize),
        plan.methods@.len() == 0 ==> a == Authentication::<E>::Failed(AuthFailure::NoMethods),
        plan.methods@.len() > 0 ==> a@ == (AuthenticationView::<E>::Trying {
            user: plan.user@,
            index: 0,
            total: plan.methods@.len() as usize,
            last_error: None,
        }),
        plan.methods@.len() <= usize::MAX,
{
    let total: usize = plan.methods.len();
    if total == 0 {
        Authentication::Failed(AuthFailure::NoMethods)
    } else {
        Authentication::Trying { user: plan.user.clone(), index: 0, total, last_error: None }
    }
}

impl<E> Authentication<E> {
    /// Takes in what came of an attempt.
    pub fn step(self, outcome: Result<bool, E>) -> (a: Authentication<E>)
        ensures
            a@ == auth_next(self@, outcome),
    {
        match self {
            Authentication::Trying { user, index, total, last_error } => {
                let last_error = match outcome {
                    Ok(true) => return Authentication::Succeeded,
                    Ok(false) => last_error,
                    Err(e) => Some(e),
                };
                if index < total && total - index > 1 {
                    Authentication::Trying { user, index: index + 1, total, last_error }
                } else {
                    match last_error {
                        Some(e) => Authentication::Failed(AuthFailure::LastError(e)),
                        None => Authentication::Failed(AuthFailure::AllRejected),
                    }
                }
            },
            a => a,
        }
    }

    /// The attempt to make next: the method of `plan` whose turn it is, as the
    /// user who logs in.
    pub fn attempt<C>(&self, plan: &AuthPlan) -> (attempt: Option<Attempt<C>>)
        ensures
            match attempt {
                Some(a) => attempt_due::<E, C>(plan@, self@) == Some(a@),
                None => attempt_due::<E, C>(plan@, self@) is None,
            },
    {
        match self {
            Authentication::Trying { user, index, .. } => {
                if *index < plan.methods.len() {
                    Some(try_one(user.as_str(), &plan.methods[*index]))
                } else {
                    None
                }
            },
            _ => None,
        }
    }
}

/// The attempt that is to be made next, if one is.
pub open spec fn attempt_due<E, C>(
    plan: ssh::AuthPlanView,
    a: AuthenticationView<E>,
) -> Option<AttemptView<C>> {
    match a {
        AuthenticationView::Trying { user, index, .. } => if index < plan.methods.len() {
            Some(attempt_start::<C>(user, plan.methods[index as int]))
        } else {
            None
        },
        _ => None,
    }
}

/// Whether some attempt was accepted.
pub open spec fn some_accepted<E>(outcomes: Seq<Result<bool, E>>) -> bool {
    exists|i: int| 0 <= i < outcomes.len() && #[trigger] outcomes[i] == Ok::<bool, E>(true)
}

/// The last error among the attempts.
pub open spec fn last_error<E>(outcomes: Seq<Result<bool, E>>) -> Option<E>
    decreases outcomes.len(),
{
    if outcomes.len() == 0 {
        None
    } else {
        match outcomes.last() {
            Err(e) => Some(e),
            Ok(_) => last_error(outcomes.drop_last()),
        }
    }
}

/// The methods are tried in order, all as the user of the plan. The first that
/// is accepted ends it; if all have been tried in vain, the last error is
/// reported, and a general rejection if there was none.
pub proof fn law_authentication<E>(
    user: Seq<char>,
    total: usize,
    outcomes: Seq<Result<bool, E>>,
)
    requires
        outcomes.len() <= total,
    ensures
        auth_run(auth_start::<E>(user, total), outcomes) == (if some_accepted(outcomes) {
            AuthenticationView::Succeeded
        } else if outcomes.len() < total {
            AuthenticationView::Trying {
                user,
                index: outcomes.len() as usize,
                total,
                last_error: last_error(outcomes),
            }
        } else if total == 0 {
            AuthenticationView::Failed(AuthFailure::NoMethods)
        } else {
            match last_error(outcomes) {
                Some(e) => AuthenticationView::Failed(AuthFailure::LastError(e)),
                None => AuthenticationView::Failed(AuthFailure::AllRejected),
            }
        }),
    decreases outcomes.len(),
{
    if outcomes.len() > 0 {
        let before = outcomes.drop_last();
        law_authentication(user, total, before);
        if some_accepted(before) {
            let i = choose|i: int|
                0 <= i < before.len() && #[trigger] before[i] == Ok::<bool, E>(true);
            assert(outcomes[i] == Ok::<bool, E>(true));
        } else if some_accepted(outcomes) {
            let i = choose|i: int|
                0 <= i < outcomes.len() && #[trigger] outcomes[i] == Ok::<bool, E>(true);
            if i < before.len() {
                assert(before[i] == Ok::<bool, E>(true));
            }
        } else {
            assert(outcomes[outcomes.len() - 1] != Ok::<bool, E>(true));
        }
    }
}

/// A hash for RSA signatures.
#[derive(Debug, Clone, Copy, PartialEq, Eq, Structural)]
pub enum HashAlg {
    Sha256,
    Sha512,
}

/// What a server says about RSA hashes: the best one it names, if it says
/// anything at all (outer) and names one that is known (inner).
pub type RsaHashAnswer = Option<Option<HashAlg>>;

/// What one attempt waits for. `E` is what a failure reports.
#[derive(Debug)]
pub enum Attempt<E> {
    /// Load the key at `path`.
    LoadingKey { user: String, path: PathBuf, passphrase: Option<String> },
    /// Ask the server for the best RSA hash.
    AskingRsaHash { user: String },
    /// Offer the key that was loaded as `user`, with this hash if it is an RSA
    /// key.
    OfferingKey { user: String, hash_alg: Option<HashAlg> },
    /// Offer the password as `user`.
    OfferingPassword { user: String, password: String },
    /// Let ssh-agent offer its keys as `user`.
    AskingAgent { user: String },
    /// Nothing more: whether the server let the user in, or what went wrong.
    Settled(Result<bool, AttemptFailure<E>>),
}

/// What came of it.
#[derive(Debug)]
pub enum AttemptEvent<E> {
    KeyLoaded,
    /// The key could not be loaded. `shown` is its path in words.
    LoadFailed { shown: String, cause: E },
    RsaHash(RsaHashAnswer),
    Reply { success: bool },
    Failed(E),
}

/// Why an attempt has no outcome.
#[derive(Debug)]
pub enum AttemptFailure<E> {
    /// The key could not be loaded.
    KeyNotLoaded { message: String, cause: E },
    /// Something else went wrong.
    Other(E),
}

/// What an `Attempt` says.
pub enum AttemptView<E> {
    LoadingKey { user: Seq<char>, path: PathBuf, passphrase: Option<Seq<char>> },
    AskingRsaHash { user: Seq<char> },
    OfferingKey { user: Seq<char>, hash_alg: Option<HashAlg> },
    OfferingPassword { user: Seq<char>, password: Seq<char> },
    AskingAgent { user: Seq<char> },
    Settled(Result<bool, AttemptFailureView<E>>),
}

/// What an `AttemptEvent` says.
pub enum AttemptEventView<E> {
    KeyLoaded,
    LoadFailed { shown: Seq<char>, cause: E },
    RsaHash(RsaHashAnswer),
    Reply { success: bool },
    Failed(E),
}

/// What an `AttemptFailure` says.
pub enum AttemptFailureView<E> {
    KeyNotLoaded { message: Seq<char>, cause: E },
    Other(E),
}

impl<E> View for AttemptFailure<E> {
    type V = AttemptFailureView<E>;

    open spec fn view(&self) -> AttemptFailureView<E> {
        match *self {
            AttemptFailure::KeyNotLoaded { message, cause } => AttemptFailureView::KeyNotLoaded {
                message: message@,
                cause,
            },
            AttemptFailure::Other(e) => AttemptFailureView::Other(e),
        }
    }
}

impl<E> View for AttemptEvent<E> {
    type V = AttemptEventView<E>;

    open spec fn view(&self) -> AttemptEventView<E> {
        match *self {
            AttemptEvent::KeyLoaded => AttemptEventView::KeyLoaded,
            AttemptEvent::LoadFailed { shown, cause } => AttemptEventView::LoadFailed {
                shown: shown@,
                cause,
            },
            AttemptEvent::RsaHash(answer) => AttemptEventView::RsaHash(answer),
            AttemptEvent::Reply { success } => AttemptEventView::Reply { success },
            AttemptEvent::Failed(e) => AttemptEventView::Failed(e),
        }
    }
}

impl<E> View for Attempt<E> {
    type V = AttemptView<E>;

    open spec fn view(&self) -> AttemptView<E> {
        match *self {
            Attempt::LoadingKey { user, path, passphrase } => AttemptView::LoadingKey {
                user: user@,
                path,
                passphrase: text::optional_text(passphrase),
            },
            Attempt::AskingRsaHash { user } => AttemptView::AskingRsaHash { user: user@ },
            Attempt::OfferingKey { user, hash_alg } => AttemptView::OfferingKey {
                user: user@,
                hash_alg,
            },
            Attempt::OfferingPassword { user, password } => AttemptView::OfferingPassword {
                user: user@,
                password: password@,
            },
            Attempt::AskingAgent { user } => AttemptView::AskingAgent { user: user@ },
            Attempt::Settled(Ok(success)) => AttemptView::Settled(Ok(success)),
            Attempt::Settled(Err(failure)) => AttemptView::Settled(Err(failure@)),
        }
    }
}

/// How an attempt starts.
pub open spec fn attempt_start<E>(user: Seq<char>, method: ssh::AuthMethodView) -> AttemptView<E> {
    match method {
        ssh::AuthMethodView::Key { path, passphrase } => AttemptView::LoadingKey {
            user,
            path,
            passphrase,
        },
        ssh::AuthMethodView::Password(password) => AttemptView::OfferingPassword {
            user,
            password,
        },
        ssh::AuthMethodView::Agent => AttemptView::AskingAgent { user },
    }
}

/// The hash to sign with: the best that the server named, or else `fallback`.
pub open spec fn chosen_hash(answer: RsaHashAnswer, fallback: Option<HashAlg>) -> Option<HashAlg> {
    match answer {
        Some(Some(hash)) => Some(hash),
        _ => fallback,
    }
}

/// What is said of a key that cannot be loaded.
pub open spec fn load_failure_text(shown: Seq<char>) -> Seq<char> {
    "failed to load key "@ + shown
}

/// What an attempt does next. An event that does not answer what it waits for
/// changes nothing.
pub open spec fn attempt_next<E>(a: AttemptView<E>, event: AttemptEventView<E>) -> AttemptView<E> {
    match (a, event) {
        (AttemptView::LoadingKey { user, .. }, AttemptEventView::KeyLoaded) =>
            AttemptView::AskingRsaHash { user },
        (AttemptView::LoadingKey { .. }, AttemptEventView::LoadFailed { shown, cause }) =>
            AttemptView::Settled(
            Err(AttemptFailureView::KeyNotLoaded { message: load_failure_text(shown), cause }),
        ),
        (AttemptView::AskingRsaHash { user }, AttemptEventView::RsaHash(answer)) =>
            AttemptView::OfferingKey { user, hash_alg: chosen_hash(answer, Some(HashAlg::Sha256)) },
        (AttemptView::AskingRsaHash { user }, AttemptEventView::Failed(_)) =>
            AttemptView::OfferingKey { user, hash_alg: Some(HashAlg::Sha256) },
        (AttemptView::OfferingKey { .. }, AttemptEventView::Reply { success }) =>
            AttemptView::Settled(Ok(success)),
        (AttemptView::OfferingKey { .. }, AttemptEventView::Failed(e)) => AttemptView::Settled(
            Err(AttemptFailureView::Other(e)),
        ),
        (AttemptView::OfferingPassword { .. }, AttemptEventView::Reply { success }) =>
            AttemptView::Settled(Ok(success)),
        (AttemptView::OfferingPassword { .. }, AttemptEventView::Failed(e)) => AttemptView::Settled(
            Err(AttemptFailureView::Other(e)),
        ),
        (AttemptView::AskingAgent { .. }, AttemptEventView::Reply { success }) =>
            AttemptView::Settled(Ok(success)),
        (AttemptView::AskingAgent { .. }, AttemptEventView::Failed(e)) => AttemptView::Settled(
            Err(AttemptFailureView::Other(e)),
        ),
        _ => a,
    }
}

/// Starts an attempt to log in as `user`.
pub fn try_one<E>(user: &str, method: &AuthMethod) -> (a: Attempt<E>)
    ensures
        a@ == attempt_start::<E>(user@, method@),
        match *method {
            AuthMethod::Key { path, passphrase } => a@ == (AttemptView::<E>::LoadingKey {
                user: user@,
                path,
                passphrase: text::optional_text(passphrase),
            }),
            AuthMethod::Password(secret) => a@ == (AttemptView::<E>::OfferingPassword {
                user: user@,
                password: secret@,
            }),
            AuthMethod::Agent => a@ == (AttemptView::<E>::AskingAgent { user: user@ }),
        },
{
    let user = user.to_owned();
    match method {
        AuthMethod::Key { path, passphrase } => Attempt::LoadingKey {
            user,
            path: path.clone(),
            passphrase: passphrase.clone(),
        },
        AuthMethod::Password(pw) => Attempt::OfferingPassword { user, password: pw.clone() },
        AuthMethod::Agent => Attempt::AskingAgent { user },
    }
}

fn choose_hash(answer: RsaHashAnswer, fallback: Option<HashAlg>) -> (hash: Option<HashAlg>)
    ensures
        hash == chosen_hash(answer, fallback),
{
    match answer {
        Some(Some(hash)) => Some(hash),
        _ => fallback,
    }
}

impl<E> Attempt<E> {
    /// Takes in what came of the thing that was waited for.
    pub fn step(self, event: AttemptEvent<E>) -> (a: Attempt<E>)
        ensures
            a@ == attempt_next(self@, event@),
    {
        match (self, event) {
            (Attempt::LoadingKey { user, .. }, AttemptEvent::KeyLoaded) => {
                Attempt::AskingRsaHash { user }
            },
            (Attempt::LoadingKey { .. }, AttemptEvent::LoadFailed { shown, cause }) => {
                let mut message = "failed to load key ".to_owned();
                message.append(shown.as_str());
                Attempt::Settled(Err(AttemptFailure::KeyNotLoaded { message, cause }))
            },
            (Attempt::AskingRsaHash { user }, AttemptEvent::RsaHash(answer)) => {
                Attempt::OfferingKey { user, hash_alg: choose_hash(answer, Some(HashAlg::Sha256)) }
            },
            (Attempt::AskingRsaHash { user }, AttemptEvent::Failed(_)) => {
                Attempt::OfferingKey { user, hash_alg: Some(HashAlg::Sha256) }
            },
            (Attempt::OfferingKey { .. }, AttemptEvent::Reply { success }) => {
                Attempt::Settled(Ok(success))
            },
            (Attempt::OfferingKey { .. }, AttemptEvent::Failed(e)) => {
                Attempt::Settled(Err(AttemptFailure::Other(e)))
            },
            (Attempt::OfferingPassword { .. }, AttemptEvent::Reply { success }) => {
                Attempt::Settled(Ok(success))
            },
            (Attempt::OfferingPassword { .. }, AttemptEvent::Failed(e)) => {
                Attempt::Settled(Err(AttemptFailure::Other(e)))
            },
            (Attempt::AskingAgent { .. }, AttemptEvent::Reply { success }) => {
                Attempt::Settled(Ok(success))
            },
            (Attempt::AskingAgent { .. }, AttemptEvent::Failed(e)) => {
                Attempt::Settled(Err(AttemptFailure::Other(e)))
            },
            (a, _) => a,
        }
    }
}

/// What an attempt does after a series of events.
pub open spec fn attempt_run<E>(
    a: AttemptView<E>,
    events: Seq<AttemptEventView<E>>,
) -> AttemptView<E>
    decreases events.len(),
{
    if events.len() == 0 {
        a
    } else {
        attempt_next(attempt_run(a, events.drop_last()), events.last())
    }
}

/// Whether an attempt acts as `user` and with `method`, where it does anything.
pub open spec fn true_to<E>(
    a: AttemptView<E>,
    user: Seq<char>,
    method: ssh::AuthMethodView,
) -> bool {
    match a {
        AttemptView::LoadingKey { user: u, path, passphrase } => {
            &&& u == user
            &&& method == (ssh::AuthMethodView::Key { path, passphrase })
        },
        AttemptView::AskingRsaHash { user: u } => u == user && method is Key,
        AttemptView::OfferingKey { user: u, hash_alg } => {
            &&& u == user
            &&& method is Key
            &&& hash_alg is Some
        },
        AttemptView::OfferingPassword { user: u, password } => {
            &&& u == user
            &&& method == ssh::AuthMethodView::Password(password)
        },
        AttemptView::AskingAgent { user: u } => {
            &&& u == user
            &&& method == ssh::AuthMethodView::Agent
        },
        AttemptView::Settled(_) => true,
    }
}

/// However an attempt goes, all of it is done as the user and with the method
/// that it was started with. A key is offered only after it was loaded, always
/// with a hash, and the attempt succeeds only if the server said so.
pub proof fn law_attempt<E>(
    user: Seq<char>,
    method: ssh::AuthMethodView,
    events: Seq<AttemptEventView<E>>,
)
    ensures
        ({
            let a = attempt_run(attempt_start::<E>(user, method), events);
            &&& true_to(a, user, method)
            &&& a is AskingRsaHash || a is OfferingKey ==> events.contains(
                AttemptEventView::<E>::KeyLoaded,
            )
            &&& a == AttemptView::<E>::Settled(Ok(true)) ==> events.contains(
                AttemptEventView::<E>::Reply { success: true },
            )
        }),
    decreases events.len(),
{
    if events.len() > 0 {
        let before = events.drop_last();
        law_attempt(user, method, before);
        assert(events[events.len() - 1] == events.last());
        if before.contains(AttemptEventView::<E>::KeyLoaded) {
            let i = choose|i: int|
                0 <= i < before.len() && before[i] == AttemptEventView::<E>::KeyLoaded;
            assert(events[i] == AttemptEventView::<E>::KeyLoaded);
        }
        if before.contains(AttemptEventView::<E>::Reply { success: true }) {
            let i = choose|i: int|
                0 <= i < before.len() && before[i] == (AttemptEventView::<E>::Reply {
                    success: true,
                });
            assert(events[i] == (AttemptEventView::<E>::Reply { success: true }));
        }
    }
}

/// A key that cannot be loaded ends the attempt, with a text that names it, and
/// nothing is offered. A key that is loaded is offered with the best hash that
/// the server names, or SHA-256, and the answer to the offer is the outcome.
pub proof fn law_key_attempt<E>(
    user: Seq<char>,
    path: PathBuf,
    passphrase: Option<Seq<char>>,
    shown: Seq<char>,
    cause: E,
    answer: RsaHashAnswer,
    success: bool,
)
    ensures
        ({
            let start = attempt_start::<E>(user, ssh::AuthMethodView::Key { path, passphrase });
            let asking = attempt_next(start, AttemptEventView::KeyLoaded);
            let named = attempt_next(asking, AttemptEventView::RsaHash(answer));
            let unnamed = attempt_next(asking, AttemptEventView::Failed(cause));
            &&& attempt_next(start, AttemptEventView::LoadFailed { shown, cause })
                == AttemptView::<E>::Settled(
                Err(
                    AttemptFailureView::KeyNotLoaded {
                        message: "failed to load key "@ + shown,
                        cause,
                    },
                ),
            )
            &&& named == (AttemptView::<E>::OfferingKey {
                user,
                hash_alg: chosen_hash(answer, Some(HashAlg::Sha256)),
            })
            &&& unnamed == (AttemptView::<E>::OfferingKey {
                user,
                hash_alg: Some(HashAlg::Sha256),
            })
            &&& attempt_next(named, AttemptEventView::Reply { success }) == AttemptView::<
                E,
            >::Settled(Ok(success))
            &&& attempt_next(named, AttemptEventView::Failed(cause)) == AttemptView::<E>::Settled(
                Err(AttemptFailureView::Other(cause)),
            )
        }),
{
}

/// What the login through ssh-agent waits for.
#[derive(Debug)]
pub enum AgentAuth<E> {
    /// Connect to the agent.
    Connecting { user: String },
    /// Ask the agent for its keys.
    Listing { user: String },
    /// Ask the server for the best RSA hash.
    AskingRsaHash { user: String, count: usize },
    /// Offer the key at `index` of the `count` keys of the agent as `user`.
    Offering { user: String, index: usize, count: usize, hash_alg: Option<HashAlg> },
    /// Nothing more: whether the server let the user in, or what went wrong.
    Settled(Result<bool, AgentFailure<E>>),
}

/// What came of it.
#[derive(Debug)]
pub enum AgentEvent<E> {
    Connected,
    /// The agent holds this many keys.
    Identities(usize),
    RsaHash(RsaHashAnswer),
    Reply { success: bool },
    Failed(E),
}

/// Why the agent was of no use.
#[derive(Debug)]
pub enum AgentFailure<E> {
    Unreachable(E),
    ListFailed(E),
    NoIdentities,
}

impl<E> AgentFailure<E> {
    /// The text of the failure.
    pub open spec fn text(self) -> Seq<char> {
        match self {
            AgentFailure::Unreachable(_) => "could not reach ssh-agent (is SSH_AUTH_SOCK set?)"@,
            AgentFailure::ListFailed(_) => "ssh-agent: request_identities failed"@,
            AgentFailure::NoIdentities => "ssh-agent has no identities loaded"@,
        }
    }

    /// The text of the failure.
    pub fn message(&self) -> (message: String)
        ensures
            message@ == self.text(),
    {
        let text: &str = match self {
            AgentFailure::Unreachable(_) => "could not reach ssh-agent (is SSH_AUTH_SOCK set?)",
            AgentFailure::ListFailed(_) => "ssh-agent: request_identities failed",
            AgentFailure::NoIdentities => "ssh-agent has no identities loaded",
        };
        text.to_owned()
    }
}

/// What an `AgentAuth` says.
pub enum AgentAuthView<E> {
    Connecting { user: Seq<char> },
    Listing { user: Seq<char> },
    AskingRsaHash { user: Seq<char>, count: usize },
    Offering { user: Seq<char>, index: usize, count: usize, hash_alg: Option<HashAlg> },
    Settled(Result<bool, AgentFailure<E>>),
}

impl<E> View for AgentAuth<E> {
    type V = AgentAuthView<E>;

    open spec fn view(&self) -> AgentAuthView<E> {
        match *self {
            AgentAuth::Connecting { user } => AgentAuthView::Connecting { user: user@ },
            AgentAuth::Listing { user } => AgentAuthView::Listing { user: user@ },
            AgentAuth::AskingRsaHash { user, count } => AgentAuthView::AskingRsaHash {
                user: user@,
                count,
            },
            AgentAuth::Offering { user, index, count, hash_alg } => AgentAuthView::Offering {
                user: user@,
                index,
                count,
                hash_alg,
            },
            AgentAuth::Settled(outcome) => AgentAuthView::Settled(outcome),
        }
    }
}

/// What follows a key that the server did not take.
pub open spec fn agent_advance<E>(
    user: Seq<char>,
    index: usize,
    count: usize,
    hash_alg: Option<HashAlg>,
) -> AgentAuthView<E> {
    if index + 1 < count {
        AgentAuthView::Offering { user, index: (index + 1) as usize, count, hash_alg }
    } else {
        AgentAuthView::Settled(Ok(false))
    }
}

/// What the login through ssh-agent does next. An event that does not answer
/// what it waits for changes nothing.
pub open spec fn agent_next<E>(a: AgentAuthView<E>, event: AgentEvent<E>) -> AgentAuthView<E> {
    match (a, event) {
        (AgentAuthView::Connecting { user }, AgentEvent::Connected) => AgentAuthView::Listing {
            user,
        },
        (AgentAuthView::Connecting { .. }, AgentEvent::Failed(e)) => AgentAuthView::Settled(
            Err(AgentFailure::Unreachable(e)),
        ),
        (AgentAuthView::Listing { user }, AgentEvent::Identities(count)) => if count == 0 {
            AgentAuthView::Settled(Err(AgentFailure::NoIdentities))
        } else {
            AgentAuthView::AskingRsaHash { user, count }
        },
        (AgentAuthView::Listing { .. }, AgentEvent::Failed(e)) => AgentAuthView::Settled(
            Err(AgentFailure::ListFailed(e)),
        ),
        (AgentAuthView::AskingRsaHash { user, count }, AgentEvent::RsaHash(answer)) =>
            AgentAuthView::Offering { user, index: 0, count, hash_alg: chosen_hash(answer, None) },
        (AgentAuthView::AskingRsaHash { user, count }, AgentEvent::Failed(_)) =>
            AgentAuthView::Offering { user, index: 0, count, hash_alg: None },
        (
            AgentAuthView::Offering { user, index, count, hash_alg },
            AgentEvent::Reply { success },
        ) => if success {
            AgentAuthView::Settled(Ok(true))
        } else {
            agent_advance(user, index, count, hash_alg)
        },
        (AgentAuthView::Offering { user, index, count, hash_alg }, AgentEvent::Failed(_)) =>
            agent_advance(user, index, count, hash_alg),
        _ => a,
    }
}

/// What the login through ssh-agent does after a series of events.
pub open spec fn agent_run<E>(a: AgentAuthView<E>, events: Seq<AgentEvent<E>>) -> AgentAuthView<E>
    decreases events.len(),
{
    if events.len() == 0 {
        a
    } else {
        agent_next(agent_run(a, events.drop_last()), events.last())
    }
}

/// Starts to log in as `user` through ssh-agent.
pub fn agent_auth<E>(user: &str) -> (a: AgentAuth<E>)
    ensures
        a@ == (AgentAuthView::<E>::Connecting { user: user@ }),
{
    AgentAuth::Connecting { user: user.to_owned() }
}

impl<E> AgentAuth<E> {
    /// Takes in what came of the thing that was waited for.
    pub fn step(self, event: AgentEvent<E>) -> (a: AgentAuth<E>)
        ensures
            a@ == agent_next(self@, event),
    {
        match (self, event) {
            (AgentAuth::Connecting { user }, AgentEvent::Connected) => AgentAuth::Listing { user },
            (AgentAuth::Connecting { .. }, AgentEvent::Failed(e)) => {
                AgentAuth::Settled(Err(AgentFailure::Unreachable(e)))
            },
            (AgentAuth::Listing { user }, AgentEvent::Identities(count)) => {
                if count == 0 {
                    AgentAuth::Settled(Err(AgentFailure::NoIdentities))
                } else {
                    AgentAuth::AskingRsaHash { user, count }
                }
            },
            (AgentAuth::Listing { .. }, AgentEvent::Failed(e)) => {
                AgentAuth::Settled(Err(AgentFailure::ListFailed(e)))
            },
            (AgentAuth::AskingRsaHash { user, count }, AgentEvent::RsaHash(answer)) => {
                AgentAuth::Offering { user, index: 0, count, hash_alg: choose_hash(answer, None) }
            },
            (AgentAuth::AskingRsaHash { user, count }, AgentEvent::Failed(_)) => {
                AgentAuth::Offering { user, index: 0, count, hash_alg: None }
            },
            (
                AgentAuth::Offering { user, index, count, hash_alg },
                AgentEvent::Reply { success },
            ) => {
                if success {
                    AgentAuth::Settled(Ok(true))
                } else {
                    Self::advance(user, index, count, hash_alg)
                }
            },
            (AgentAuth::Offering { user, index, count, hash_alg }, AgentEvent::Failed(_)) => {
                Self::advance(user, index, count, hash_alg)
            },
            (a, _) => a,
        }
    }

    fn advance(user: String, index: usize, count: usize, hash_alg: Option<HashAlg>) -> (a:
        AgentAuth<E>)
        ensures
            a@ == agent_advance::<E>(user@, index, count, hash_alg),
    {
        if index < count && count - index > 1 {
            AgentAuth::Offering { user, index: index + 1, count, hash_alg }
        } else {
            AgentAuth::Settled(Ok(false))
        }
    }
}

/// Whether an event is the outcome of offering a key.
pub open spec fn is_offer_outcome<E>(event: AgentEvent<E>) -> bool {
    event is Reply || event is Failed
}

/// Whether some key was taken.
pub open spec fn some_taken<E>(events: Seq<AgentEvent<E>>) -> bool {
    exists|i: int|
        0 <= i < events.len() && #[trigger] events[i] == (AgentEvent::<E>::Reply { success: true })
}

/// The keys of the agent are offered in order, as one user and with one hash
/// for all. The first that is taken ends it; a key that is turned down or fails
/// does not.
pub proof fn law_agent_offers<E>(
    user: Seq<char>,
    count: usize,
    hash_alg: Option<HashAlg>,
    outcomes: Seq<AgentEvent<E>>,
)
    requires
        0 < count,
        outcomes.len() <= count,
        forall|i: int| 0 <= i < outcomes.len() ==> is_offer_outcome(#[trigger] outcomes[i]),
    ensures
        agent_run(AgentAuthView::<E>::Offering { user, index: 0, count, hash_alg }, outcomes) == (
        if some_taken(outcomes) {
            AgentAuthView::<E>::Settled(Ok(true))
        } else if outcomes.len() < count {
            AgentAuthView::<E>::Offering { user, index: outcomes.len() as usize, count, hash_alg }
        } else {
            AgentAuthView::<E>::Settled(Ok(false))
        }),
    decreases outcomes.len(),
{
    if outcomes.len() > 0 {
        let before = outcomes.drop_last();
        assert forall|i: int| 0 <= i < before.len() implies is_offer_outcome(
            #[trigger] before[i],
        ) by {
            assert(is_offer_outcome(outcomes[i]));
        }
        law_agent_offers(user, count, hash_alg, before);
        assert(is_offer_outcome(outcomes[outcomes.len() - 1]));
        if some_taken(before) {
            let i = choose|i: int|
                0 <= i < before.len() && #[trigger] before[i] == (AgentEvent::<E>::Reply {
                    success: true,
                });
            assert(outcomes[i] == (AgentEvent::<E>::Reply { success: true }));
        } else if some_taken(outcomes) {
            let i = choose|i: int|
                0 <= i < outcomes.len() && #[trigger] outcomes[i] == (AgentEvent::<E>::Reply {
                    success: true,
                });
            if i < before.len() {
                assert(before[i] == (AgentEvent::<E>::Reply { success: true }));
            }
        } else {
            assert(outcomes[outcomes.len() - 1] != (AgentEvent::<E>::Reply { success: true }));
        }
    }
}

/// Once the agent is reached and has listed its keys, and the server has been
/// asked for a hash, the first key is offered. The lack of an answer about the
/// hash stops nothing.
pub proof fn law_agent_reaches_offers<E>(
    user: Seq<char>,
    count: usize,
    answer: RsaHashAnswer,
    failure: E,
)
    requires
        0 < count,
    ensures
        ({
            let start = AgentAuthView::<E>::Connecting { user };
            let listing = agent_next(start, AgentEvent::Connected);
            let asking = agent_next(listing, AgentEvent::Identities(count));
            &&& agent_next(asking, AgentEvent::RsaHash(answer)) == (AgentAuthView::<E>::Offering {
                user,
                index: 0,
                count,
                hash_alg: chosen_hash(answer, None),
            })
            &&& agent_next(asking, AgentEvent::Failed(failure)) == (AgentAuthView::<E>::Offering {
                user,
                index: 0,
                count,
                hash_alg: None,
            })
        }),
{
}

/// However it goes, a login through ssh-agent offers keys only as the user that
/// it was started with, and only keys that the agent has, and it succeeds only
/// if the server took one of them.
pub proof fn law_agent_success_is_earned<E>(user: Seq<char>, events: Seq<AgentEvent<E>>)
    ensures
        match agent_run(AgentAuthView::<E>::Connecting { user }, events) {
            AgentAuthView::Connecting { user: u } => u == user,
            AgentAuthView::Listing { user: u } => u == user,
            AgentAuthView::AskingRsaHash { user: u, count } => u == user && 0 < count,
            AgentAuthView::Offering { user: u, index, count, .. } => u == user && index < count,
            AgentAuthView::Settled(Ok(true)) => some_taken(events),
            AgentAuthView::Settled(_) => true,
        },
    decreases events.len(),
{
    if events.len() > 0 {
        let before = events.drop_last();
        law_agent_success_is_earned(user, before);
        assert(events[events.len() - 1] == events.last());
        if some_taken(before) {
            let i = choose|i: int|
                0 <= i < before.len() && #[trigger] before[i] == (AgentEvent::<E>::Reply {
                    success: true,
                });
            assert(events[i] == (AgentEvent::<E>::Reply { success: true }));
        }
    }
}

/// What a login says is what stands in it.
pub proof fn law_authentication_view<E>(a: Authentication<E>)
    ensures
        match a {
            Authentication::Trying { user, index, total, last_error } => a@ == (
            AuthenticationView::<E>::Trying { user: user@, index, total, last_error }),
            Authentication::Succeeded => a@ == AuthenticationView::<E>::Succeeded,
            Authentication::Failed(failure) => a@ == AuthenticationView::<E>::Failed(failure),
        },
{
}

/// What an attempt says is what stands in it.
pub proof fn law_attempt_view<E>(a: Attempt<E>)
    ensures
        match a {
            Attempt::LoadingKey { user, path, passphrase } => a@ == (AttemptView::<E>::LoadingKey {
                user: user@,
                path,
                passphrase: text::optional_text(passphrase),
            }),
            Attempt::AskingRsaHash { user } => a@ == (AttemptView::<E>::AskingRsaHash {
                user: user@,
            }),
            Attempt::OfferingKey { user, hash_alg } => a@ == (AttemptView::<E>::OfferingKey {
                user: user@,
                hash_alg,
            }),
            Attempt::OfferingPassword { user, password } => a@ == (
            AttemptView::<E>::OfferingPassword { user: user@, password: password@ }),
            Attempt::AskingAgent { user } => a@ == (AttemptView::<E>::AskingAgent { user: user@ }),
            Attempt::Settled(Ok(success)) => a@ == AttemptView::<E>::Settled(Ok(success)),
            Attempt::Settled(Err(AttemptFailure::KeyNotLoaded { message, cause })) => a@
                == AttemptView::<E>::Settled(
                Err(AttemptFailureView::KeyNotLoaded { message: message@, cause }),
            ),
            Attempt::Settled(Err(AttemptFailure::Other(e))) => a@ == AttemptView::<E>::Settled(
                Err(AttemptFailureView::Other(e)),
            ),
        },
{
}

/// What an event of an attempt says is what stands in it.
pub proof fn law_attempt_event_view<E>(event: AttemptEvent<E>)
    ensures
        match event {
            AttemptEvent::KeyLoaded => event@ == AttemptEventView::<E>::KeyLoaded,
            AttemptEvent::LoadFailed { shown, cause } => event@ == (
            AttemptEventView::<E>::LoadFailed { shown: shown@, cause }),
            AttemptEvent::RsaHash(answer) => event@ == AttemptEventView::<E>::RsaHash(answer),
            AttemptEvent::Reply { success } => event@ == (AttemptEventView::<E>::Reply { success }),
            AttemptEvent::Failed(e) => event@ == AttemptEventView::<E>::Failed(e),
        },
{
}

/// What a login through ssh-agent says is what stands in it.
pub proof fn law_agent_auth_view<E>(a: AgentAuth<E>)
    ensures
        match a {
            AgentAuth::Connecting { user } => a@ == (AgentAuthView::<E>::Connecting {
                user: user@,
            }),
            AgentAuth::Listing { user } => a@ == (AgentAuthView::<E>::Listing { user: user@ }),
            AgentAuth::AskingRsaHash { user, count } => a@ == (AgentAuthView::<E>::AskingRsaHash {
                user: user@,
                count,
            }),
            AgentAuth::Offering { user, index, count, hash_alg } => a@ == (
            AgentAuthView::<E>::Offering { user: user@, index, count, hash_alg }),
            AgentAuth::Settled(outcome) => a@ == AgentAuthView::<E>::Settled(outcome),
        },
{
}

/// A login starts with the first method, as the user that it is for. An
/// attempt that is accepted ends it; one that is not leads to the next method,
/// and after the last to the report of the last error, or of a general
/// rejection if there was none. Once it has ended nothing changes.
pub proof fn law_login_goes_on<E>(
    user: Seq<char>,
    index: usize,
    total: usize,
    last_error: Option<E>,
    outcome: Result<bool, E>,
    failure: AuthFailure<E>,
)
    requires
        index < total,
    ensures
        auth_start::<E>(user, 0) == AuthenticationView::<E>::Failed(AuthFailure::NoMethods),
        auth_start::<E>(user, total) == (AuthenticationView::<E>::Trying {
            user,
            index: 0,
            total,
            last_error: None,
        }),
        ({
            let trying = AuthenticationView::Trying { user, index, total, last_error };
            let error = match outcome {
                Err(e) => Some(e),
                Ok(_) => last_error,
            };
            &&& outcome == Ok::<bool, E>(true) ==> auth_next(trying, outcome) is Succeeded
            &&& outcome != Ok::<bool, E>(true) && index + 1 < total ==> auth_next(trying, outcome)
                == (AuthenticationView::Trying {
                user,
                index: (index + 1) as usize,
                total,
                last_error: error,
            })
            &&& outcome != Ok::<bool, E>(true) && index + 1 == total ==> match error {
                Some(e) => auth_next(trying, outcome) == AuthenticationView::Failed(
                    AuthFailure::LastError(e),
                ),
                None => auth_next(trying, outcome) == AuthenticationView::<E>::Failed(
                    AuthFailure::AllRejected,
                ),
            }
        }),
        auth_next(AuthenticationView::<E>::Succeeded, outcome)
            == AuthenticationView::<E>::Succeeded,
        auth_next(AuthenticationView::Failed(failure), outcome) == AuthenticationView::Failed(
            failure,
        ),
{
}

/// One accepted attempt among the methods logs the user in, wherever it stands.
/// Where none is accepted, the error that no other error followed is the one
/// that is reported, and where there was no error either, all were rejected.
pub proof fn law_login_outcome<E>(
    user: Seq<char>,
    outcomes: Seq<Result<bool, E>>,
    k: int,
)
    requires
        0 <= k < outcomes.len() <= usize::MAX,
    ensures
        ({
            let end = auth_run(auth_start::<E>(user, outcomes.len() as usize), outcomes);
            &&& outcomes[k] == Ok::<bool, E>(true) ==> end is Succeeded
            &&& (forall|i: int|
                0 <= i < outcomes.len() ==> #[trigger] outcomes[i] != Ok::<bool, E>(true)) && (
            forall|i: int| k < i < outcomes.len() ==> #[trigger] outcomes[i] is Ok) && outcomes[k] is Err
                ==> end == AuthenticationView::Failed(AuthFailure::LastError(outcomes[k]->Err_0))
            &&& (forall|i: int|
                0 <= i < outcomes.len() ==> #[trigger] outcomes[i] == Ok::<bool, E>(false)) ==> end
                == AuthenticationView::<E>::Failed(AuthFailure::AllRejected)
        }),
{
    law_authentication(user, outcomes.len() as usize, outcomes);
    lemma_last_error(outcomes, k);
}

proof fn lemma_last_error<E>(outcomes: Seq<Result<bool, E>>, k: int)
    requires
        0 <= k < outcomes.len(),
    ensures
        (forall|i: int| k < i < outcomes.len() ==> #[trigger] outcomes[i] is Ok) && outcomes[k] is Err
            ==> last_error(outcomes) == Some(outcomes[k]->Err_0),
        (forall|i: int| 0 <= i < outcomes.len() ==> #[trigger] outcomes[i] is Ok) ==> last_error(
            outcomes,
        ) is None,
    decreases outcomes.len(),
{
    let before = outcomes.drop_last();
    assert(forall|i: int| 0 <= i < before.len() ==> #[trigger] before[i] == outcomes[i]);
    assert(outcomes.last() == outcomes[outcomes.len() - 1]);
    if k < before.len() {
        lemma_last_error(before, k);
    } else if before.len() > 0 {
        lemma_last_error(before, before.len() - 1);
    }
}

/// The attempt to make next is the one with the method of the plan whose turn
/// it is, as the user who logs in. Where no method is left there is none.
pub proof fn law_attempt_due<E, C>(
    plan: ssh::AuthPlanView,
    user: Seq<char>,
    index: usize,
    total: usize,
    last_error: Option<E>,
)
    ensures
        ({
            let due = attempt_due::<E, C>(
                plan,
                AuthenticationView::Trying { user, index, total, last_error },
            );
            if index < plan.methods.len() {
                match plan.methods[index as int] {
                    ssh::AuthMethodView::Key { path, passphrase } => due == Some(
                        AttemptView::<C>::LoadingKey { user, path, passphrase },
                    ),
                    ssh::AuthMethodView::Agent => due == Some(
                        AttemptView::<C>::AskingAgent { user },
                    ),
                    ssh::AuthMethodView::Password(password) => due == Some(
                        AttemptView::<C>::OfferingPassword { user, password },
                    ),
                }
            } else {
                due is None
            }
        }),
        attempt_due::<E, C>(plan, AuthenticationView::Succeeded) is None,
{
}

/// A password is offered as it is, as the user, and the answer of the server is
/// the outcome, yes or no. What goes wrong is reported.
pub proof fn law_password_attempt<E>(
    user: Seq<char>,
    password: Seq<char>,
    success: bool,
    cause: E,
)
    ensures
        ({
            let offering = attempt_start::<E>(user, ssh::AuthMethodView::Password(password));
            &&& offering == (AttemptView::<E>::OfferingPassword { user, password })
            &&& attempt_next(offering, AttemptEventView::Reply { success }) == AttemptView::<
                E,
            >::Settled(Ok(success))
            &&& attempt_next(offering, AttemptEventView::Failed(cause)) == AttemptView::<
                E,
            >::Settled(Err(AttemptFailureView::Other(cause)))
        }),
{
}

/// The outcome of a login through ssh-agent is the outcome of the attempt, yes
/// or no. What goes wrong is reported.
pub proof fn law_agent_attempt<E>(user: Seq<char>, success: bool, cause: E)
    ensures
        ({
            let asking = attempt_start::<E>(user, ssh::AuthMethodView::Agent);
            &&& asking == (AttemptView::<E>::AskingAgent { user })
            &&& attempt_next(asking, AttemptEventView::Reply { success }) == AttemptView::<
                E,
            >::Settled(Ok(success))
            &&& attempt_next(asking, AttemptEventView::Failed(cause)) == AttemptView::<
                E,
            >::Settled(Err(AttemptFailureView::Other(cause)))
        }),
{
}

/// A key is loaded from its own path with its own passphrase. Once it is
/// loaded the hash is the one that the server names, and SHA-256 if it names
/// none, and the answer of the server to the offer is the outcome, yes or no.
pub proof fn law_key_is_offered<E>(
    user: Seq<char>,
    path: PathBuf,
    passphrase: Option<Seq<char>>,
    hash_alg: Option<HashAlg>,
    named: HashAlg,
    success: bool,
    cause: E,
)
    ensures
        attempt_start::<E>(user, ssh::AuthMethodView::Key { path, passphrase }) == (AttemptView::<
            E,
        >::LoadingKey { user, path, passphrase }),
        attempt_next(
            AttemptView::<E>::LoadingKey { user, path, passphrase },
            AttemptEventView::KeyLoaded,
        ) == (AttemptView::<E>::AskingRsaHash { user }),
        attempt_next(
            AttemptView::<E>::AskingRsaHash { user },
            AttemptEventView::RsaHash(Some(Some(named))),
        ) == (AttemptView::<E>::OfferingKey { user, hash_alg: Some(named) }),
        attempt_next(
            AttemptView::<E>::AskingRsaHash { user },
            AttemptEventView::RsaHash(Some(None)),
        ) == (AttemptView::<E>::OfferingKey { user, hash_alg: Some(HashAlg::Sha256) }),
        attempt_next(AttemptView::<E>::AskingRsaHash { user }, AttemptEventView::RsaHash(None)) == (
        AttemptView::<E>::OfferingKey { user, hash_alg: Some(HashAlg::Sha256) }),
        attempt_next(AttemptView::<E>::AskingRsaHash { user }, AttemptEventView::Failed(cause)) == (
        AttemptView::<E>::OfferingKey { user, hash_alg: Some(HashAlg::Sha256) }),
        attempt_next(
            AttemptView::<E>::OfferingKey { user, hash_alg },
            AttemptEventView::Reply { success },
        ) == AttemptView::<E>::Settled(Ok(success)),
        attempt_next(
            AttemptView::<E>::OfferingKey { user, hash_alg },
            AttemptEventView::Failed(cause),
        ) == AttemptView::<E>::Settled(Err(AttemptFailureView::Other(cause))),
{
}

/// An event that is no answer to what an attempt waits for changes nothing.
pub proof fn law_attempt_only_answers_count<E>(a: AttemptView<E>, event: AttemptEventView<E>)
    requires
        match a {
            AttemptView::LoadingKey { .. } => !(event is KeyLoaded) && !(event is LoadFailed),
            AttemptView::AskingRsaHash { .. } => !(event is RsaHash) && !(event is Failed),
            AttemptView::OfferingKey { .. }
            | AttemptView::OfferingPassword { .. }
            | AttemptView::AskingAgent { .. } => !(event is Reply) && !(event is Failed),
            AttemptView::Settled(_) => true,
        },
    ensures
        attempt_next(a, event) == a,
{
}

/// The agent is reached, asked for its keys, and then the server for a hash,
/// which there need not be. Each key is offered in its turn with that hash, the
/// answer yes ends it well, and any other leads to the next key, or after the
/// last to no. What goes wrong before the first key is reported as what it is.
pub proof fn law_agent_goes_on<E>(
    user: Seq<char>,
    index: usize,
    count: usize,
    hash_alg: Option<HashAlg>,
    named: HashAlg,
    cause: E,
    refusal: AgentEvent<E>,
)
    requires
        index < count,
        refusal is Failed || refusal == (AgentEvent::<E>::Reply { success: false }),
    ensures
        agent_next(AgentAuthView::<E>::Connecting { user }, AgentEvent::Connected) == (
        AgentAuthView::<E>::Listing { user }),
        agent_next(AgentAuthView::<E>::Connecting { user }, AgentEvent::Failed(cause))
            == AgentAuthView::<E>::Settled(Err(AgentFailure::Unreachable(cause))),
        agent_next(AgentAuthView::<E>::Listing { user }, AgentEvent::Identities(count)) == (
        AgentAuthView::<E>::AskingRsaHash { user, count }),
        agent_next(AgentAuthView::<E>::Listing { user }, AgentEvent::Identities(0))
            == AgentAuthView::<E>::Settled(Err(AgentFailure::NoIdentities)),
        agent_next(AgentAuthView::<E>::Listing { user }, AgentEvent::Failed(cause))
            == AgentAuthView::<E>::Settled(Err(AgentFailure::ListFailed(cause))),
        agent_next(
            AgentAuthView::<E>::AskingRsaHash { user, count },
            AgentEvent::RsaHash(Some(Some(named))),
        ) == (AgentAuthView::<E>::Offering { user, index: 0, count, hash_alg: Some(named) }),
        agent_next(
            AgentAuthView::<E>::AskingRsaHash { user, count },
            AgentEvent::RsaHash(Some(None)),
        ) == (AgentAuthView::<E>::Offering { user, index: 0, count, hash_alg: None }),
        agent_next(AgentAuthView::<E>::AskingRsaHash { user, count }, AgentEvent::RsaHash(None))
            == (AgentAuthView::<E>::Offering { user, index: 0, count, hash_alg: None }),
        agent_next(AgentAuthView::<E>::AskingRsaHash { user, count }, AgentEvent::Failed(cause))
            == (AgentAuthView::<E>::Offering { user, index: 0, count, hash_alg: None }),
        ({
            let offering = AgentAuthView::<E>::Offering { user, index, count, hash_alg };
            &&& agent_next(offering, AgentEvent::Reply { success: true }) == AgentAuthView::<
                E,
            >::Settled(Ok(true))
            &&& agent_next(offering, refusal) == (if index + 1 < count {
                AgentAuthView::<E>::Offering { user, index: (index + 1) as usize, count, hash_alg }
            } else {
                AgentAuthView::<E>::Settled(Ok(false))
            })
        }),
{
}

/// An event that is no answer to what a login through ssh-agent waits for
/// changes nothing.
pub proof fn law_agent_only_answers_count<E>(a: AgentAuthView<E>, event: AgentEvent<E>)
    requires
        match a {
            AgentAuthView::Connecting { .. } => !(event is Connected) && !(event is Failed),
            AgentAuthView::Listing { .. } => !(event is Identities) && !(event is Failed),
            AgentAuthView::AskingRsaHash { .. } => !(event is RsaHash) && !(event is Failed),
            AgentAuthView::Offering { .. } => !(event is Reply) && !(event is Failed),
            AgentAuthView::Settled(_) => true,
        },
    ensures
        agent_next(a, event) == a,
{
}

} // verus!
