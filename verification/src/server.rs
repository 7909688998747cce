//! The listener: accept connections, for as long as the process runs.

use vstd::prelude::*;

use crate::cli;
use crate::cli::Keepalive;
use crate::session;

verus! {

/// How the kernel probes an idle connection.
#[derive(Debug, Clone, Copy, PartialEq, Eq, Structural)]
pub struct KeepaliveProbes {
    /// Idle time before the first probe: whole seconds, and nanoseconds on top.
    pub idle_secs: u64,
    pub idle_nanos: u32,
    /// Seconds between probes.
    pub interval_secs: u64,
    /// Unanswered probes that end the connection.
    pub retries: u32,
}

/// The probes for a keepalive. The first comes after four intervals, which
/// keeps healthy idle connections quiet, or after the longest time that can
/// be expressed if four intervals are longer than that.
pub open spec fn probes_of(ka: Keepalive) -> KeepaliveProbes {
    if 4 * ka.interval_secs <= u64::MAX {
        KeepaliveProbes {
            idle_secs: (4 * ka.interval_secs) as u64,
            idle_nanos: 0,
            interval_secs: ka.interval_secs,
            retries: ka.max_missed,
        }
    } else {
        KeepaliveProbes {
            idle_secs: u64::MAX,
            idle_nanos: 999_999_999,
            interval_secs: ka.interval_secs,
            retries: ka.max_missed,
        }
    }
}

/// The probes for a keepalive.
pub fn keepalive_probes(ka: Keepalive) -> (probes: KeepaliveProbes)
    ensures
        probes == probes_of(ka),
        probes.interval_secs == ka.interval_secs,
        probes.retries == ka.max_missed,
        4 * ka.interval_secs <= u64::MAX ==> probes.idle_secs == 4 * ka.interval_secs
            && probes.idle_nanos == 0,
        4 * ka.interval_secs > u64::MAX ==> probes.idle_secs == u64::MAX && probes.idle_nanos
            == 999_999_999,
{
    let (idle_secs, idle_nanos): (u64, u32) = match ka.interval_secs.checked_mul(4) {
        Some(idle) => (idle, 0),
        None => (u64::MAX, 999_999_999),
    };
    KeepaliveProbes {
        idle_secs,
        idle_nanos,
        interval_secs: ka.interval_secs,
        retries: ka.max_missed,
    }
}

/// `socket2::TcpKeepalive`, the settings of a socket.
#[verifier::external_type_specification]
#[verifier::external_body]
pub struct ExTcpKeepalive(socket2::TcpKeepalive);

/// The idle time before the first probe that the settings hold, in whole
/// seconds and nanoseconds on top.
pub uninterp spec fn settings_time(settings: socket2::TcpKeepalive) -> Option<(u64, u32)>;

/// The time between probes that the settings hold, in whole seconds and
/// nanoseconds on top.
pub uninterp spec fn settings_interval(settings: socket2::TcpKeepalive) -> Option<(u64, u32)>;

/// The number of unanswered probes that the settings hold.
pub uninterp spec fn settings_retries(settings: socket2::TcpKeepalive) -> Option<u32>;

/// Calls `socket2::TcpKeepalive::new`: nothing is set.
#[verifier::external_body]
fn no_settings() -> (settings: socket2::TcpKeepalive)
    ensures
        settings_time(settings) is None,
        settings_interval(settings) is None,
        settings_retries(settings) is None,
{
    socket2::TcpKeepalive::new()
}

/// Calls `socket2::TcpKeepalive::with_time`: sets the idle time, and leaves the
/// rest as it was.
#[verifier::external_body]
fn with_time(before: socket2::TcpKeepalive, secs: u64, nanos: u32) -> (settings:
    socket2::TcpKeepalive)
    requires
        nanos < 1_000_000_000,
    ensures
        settings_time(settings) == Some((secs, nanos)),
        settings_interval(settings) == settings_interval(before),
        settings_retries(settings) == settings_retries(before),
{
    before.with_time(std::time::Duration::new(secs, nanos))
}

/// Calls `socket2::TcpKeepalive::with_interval`: sets the time between probes,
/// and leaves the rest as it was.
#[verifier::external_body]
fn with_interval(before: socket2::TcpKeepalive, secs: u64, nanos: u32) -> (settings:
    socket2::TcpKeepalive)
    requires
        nanos < 1_000_000_000,
    ensures
        settings_time(settings) == settings_time(before),
        settings_interval(settings) == Some((secs, nanos)),
        settings_retries(settings) == settings_retries(before),
{
    before.with_interval(std::time::Duration::new(secs, nanos))
}

/// Calls `socket2::TcpKeepalive::with_retries`: sets the number of unanswered
/// probes, and leaves the rest as it was.
#[verifier::external_body]
fn with_retries(before: socket2::TcpKeepalive, retries: u32) -> (settings: socket2::TcpKeepalive)
    ensures
        settings_time(settings) == settings_time(before),
        settings_interval(settings) == settings_interval(before),
        settings_retries(settings) == Some(retries),
{
    before.with_retries(retries)
}

/// The socket settings for a keepalive.
pub fn tcp_keepalive(ka: Keepalive) -> (settings: socket2::TcpKeepalive)
    ensures
        ({
            let probes = probes_of(ka);
            &&& settings_time(settings) == Some((probes.idle_secs, probes.idle_nanos))
            &&& settings_interval(settings) == Some((probes.interval_secs, 0u32))
            &&& settings_retries(settings) == Some(probes.retries)
        }),
        settings_interval(settings) == Some((ka.interval_secs, 0u32)),
        settings_retries(settings) == Some(ka.max_missed),
        4 * ka.interval_secs <= u64::MAX ==> settings_time(settings) == Some(
            ((4 * ka.interval_secs) as u64, 0u32),
        ),
        4 * ka.interval_secs > u64::MAX ==> settings_time(settings) == Some(
            (u64::MAX, 999_999_999u32),
        ),
{
    let probes = keepalive_probes(ka);
    let timed = with_time(no_settings(), probes.idle_secs, probes.idle_nanos);
    with_retries(with_interval(timed, probes.interval_secs, 0), probes.retries)
}

/// What the listener waits for.
#[derive(Debug)]
pub enum Stage {
    /// Bind the socket to `listen`.
    Binding { listen: String },
    /// Accept a connection.
    Accepting,
    /// Set the probes of `keepalive` on the connection that was accepted.
    Tuning { keepalive: Keepalive },
    /// Serve the connection that was accepted, beside everything else.
    Spawning,
    /// Nothing more: the socket could not be bound.
    Failed { message: String },
}

/// What came of it.
#[derive(Debug, Clone, Copy, PartialEq, Eq, Structural)]
pub enum ServerEvent {
    Bound,
    BindFailed,
    Accepted,
    AcceptFailed,
    Tuned,
    TuneFailed,
    Spawned,
}

/// The listener.
#[derive(Debug)]
pub struct Server {
    pub keepalive: Option<Keepalive>,
    pub stage: Stage,
}

/// What a `Stage` says.
pub enum StageView {
    Binding { listen: Seq<char> },
    Accepting,
    Tuning { keepalive: Keepalive },
    Spawning,
    Failed { message: Seq<char> },
}

impl View for Stage {
    type V = StageView;

    open spec fn view(&self) -> StageView {
        match *self {
            Stage::Binding { listen } => StageView::Binding { listen: listen@ },
            Stage::Accepting => StageView::Accepting,
            Stage::Tuning { keepalive } => StageView::Tuning { keepalive },
            Stage::Spawning => StageView::Spawning,
            Stage::Failed { message } => StageView::Failed { message: message@ },
        }
    }
}

/// What the listener does next. An event that does not answer what it waits
/// for changes nothing.
pub open spec fn next_stage(
    keepalive: Option<Keepalive>,
    stage: StageView,
    event: ServerEvent,
) -> StageView {
    match (stage, event) {
        (StageView::Binding { .. }, ServerEvent::Bound) => StageView::Accepting,
        (StageView::Binding { listen }, ServerEvent::BindFailed) => StageView::Failed {
            message: "bind "@ + listen + " failed"@,
        },
        (StageView::Accepting, ServerEvent::Accepted) => match keepalive {
            Some(ka) => StageView::Tuning { keepalive: ka },
            None => StageView::Spawning,
        },
        (StageView::Tuning { .. }, ServerEvent::Tuned) => StageView::Spawning,
        (StageView::Tuning { .. }, ServerEvent::TuneFailed) => StageView::Spawning,
        (StageView::Spawning, ServerEvent::Spawned) => StageView::Accepting,
        _ => stage,
    }
}

/// What the listener does after a series of events.
pub open spec fn run(
    keepalive: Option<Keepalive>,
    stage: StageView,
    events: Seq<ServerEvent>,
) -> StageView
    decreases events.len(),
{
    if events.len() == 0 {
        stage
    } else {
        next_stage(keepalive, run(keepalive, stage, events.drop_last()), events.last())
    }
}

/// A listener for `listen`, which probes what it accepts as `keepalive` says.
pub fn serve(listen: String, keepalive: Option<Keepalive>) -> (server: Server)
    ensures
        server.keepalive == keepalive,
        server.stage@ == (StageView::Binding { listen: listen@ }),
{
    Server { keepalive, stage: Stage::Binding { listen } }
}

impl Server {
    /// Takes in what came of the thing that was waited for.
    pub fn step(self, event: ServerEvent) -> (server: Server)
        ensures
            server.keepalive == self.keepalive,
            server.stage@ == next_stage(self.keepalive, self.stage@, event),
    {
        let keepalive = self.keepalive;
        let stage = match (self.stage, event) {
            (Stage::Binding { .. }, ServerEvent::Bound) => Stage::Accepting,
            (Stage::Binding { listen }, ServerEvent::BindFailed) => {
                let mut message = "bind ".to_owned();
                message.append(listen.as_str());
                message.append(" failed");
                Stage::Failed { message }
            },
            (Stage::Accepting, ServerEvent::Accepted) => match keepalive {
                Some(ka) => Stage::Tuning { keepalive: ka },
                None => Stage::Spawning,
            },
            (Stage::Tuning { .. }, ServerEvent::Tuned) => Stage::Spawning,
            (Stage::Tuning { .. }, ServerEvent::TuneFailed) => Stage::Spawning,
            (Stage::Spawning, ServerEvent::Spawned) => Stage::Accepting,
            (stage, _) => stage,
        };
        Server { keepalive, stage }
    }
}

/// Whether the listener is up.
pub open spec fn is_up(stage: StageView) -> bool {
    stage is Accepting || stage is Tuning || stage is Spawning
}

/// Once it is bound, the listener stays up: no failed accept, no connection
/// whose probes cannot be set, and nothing else ends it.
pub proof fn law_listener_stays_up(
    keepalive: Option<Keepalive>,
    stage: StageView,
    events: Seq<ServerEvent>,
)
    requires
        is_up(stage),
    ensures
        is_up(run(keepalive, stage, events)),
    decreases events.len(),
{
    if events.len() > 0 {
        law_listener_stays_up(keepalive, stage, events.drop_last());
    }
}

/// Every connection that is accepted is served, whether or not its probes
/// could be set, and the listener then accepts the next one.
pub proof fn law_accepted_is_served(keepalive: Option<Keepalive>, tuned: bool)
    ensures
        ({
            let accepted = next_stage(keepalive, StageView::Accepting, ServerEvent::Accepted);
            let outcome = if tuned {
                ServerEvent::Tuned
            } else {
                ServerEvent::TuneFailed
            };
            &&& keepalive is None ==> accepted == StageView::Spawning
            &&& keepalive matches Some(ka) ==> {
                &&& accepted == (StageView::Tuning { keepalive: ka })
                &&& next_stage(keepalive, accepted, outcome) == StageView::Spawning
            }
            &&& next_stage(keepalive, StageView::Spawning, ServerEvent::Spawned)
                == StageView::Accepting
        }),
{
}

/// Options that disable the keepalive disable it on both sides: the SSH
/// session has none, and no accepted connection is probed.
pub proof fn law_keepalive_off(args: cli::Args, listen: Seq<char>, events: Seq<ServerEvent>)
    requires
        args.no_keepalive || args.keepalive_interval == 0,
    ensures
        session::session_keepalive_of(args.wanted_keepalive()) is None,
        !(run(args.wanted_keepalive(), StageView::Binding { listen }, events) is Tuning),
    decreases events.len(),
{
    if events.len() > 0 {
        law_keepalive_off(args, listen, events.drop_last());
    }
}

/// The first probe comes after four intervals, or after the longest time there
/// is, the others one interval apart, and as many as were asked for end the
/// connection if none is answered.
pub proof fn law_probes(ka: Keepalive)
    ensures
        probes_of(ka).interval_secs == ka.interval_secs,
        probes_of(ka).retries == ka.max_missed,
        4 * ka.interval_secs <= u64::MAX ==> probes_of(ka).idle_secs == 4 * ka.interval_secs
            && probes_of(ka).idle_nanos == 0,
        4 * ka.interval_secs > u64::MAX ==> probes_of(ka).idle_secs == u64::MAX && probes_of(
            ka,
        ).idle_nanos == 999_999_999,
{
}

/// What a stage says is what stands in it.
pub proof fn law_stage_view(stage: Stage)
    ensures
        match stage {
            Stage::Binding { listen } => stage@ == (StageView::Binding { listen: listen@ }),
            Stage::Accepting => stage@ == StageView::Accepting,
            Stage::Tuning { keepalive } => stage@ == (StageView::Tuning { keepalive }),
            Stage::Spawning => stage@ == StageView::Spawning,
            Stage::Failed { message } => stage@ == (StageView::Failed { message: message@ }),
        },
{
}

/// A listener that is bound accepts; one that is not names the address that it
/// could not have. A failed accept is followed by the next.
pub proof fn law_listener_starts(
    keepalive: Option<Keepalive>,
    listen: Seq<char>,
)
    ensures
        next_stage(keepalive, StageView::Binding { listen }, ServerEvent::Bound)
            == StageView::Accepting,
        next_stage(keepalive, StageView::Binding { listen }, ServerEvent::BindFailed) == (
        StageView::Failed { message: "bind "@ + listen + " failed"@ }),
        next_stage(keepalive, StageView::Accepting, ServerEvent::AcceptFailed)
            == StageView::Accepting,
{
}

/// An event that is no answer to what the listener waits for changes nothing.
pub proof fn law_only_answers_count(
    keepalive: Option<Keepalive>,
    stage: StageView,
    event: ServerEvent,
)
    requires
        match stage {
            StageView::Binding { .. } => !(event is Bound) && !(event is BindFailed),
            StageView::Accepting => !(event is Accepted),
            StageView::Tuning { .. } => !(event is Tuned) && !(event is TuneFailed),
            StageView::Spawning => !(event is Spawned),
            StageView::Failed { .. } => true,
        },
    ensures
        next_stage(keepalive, stage, event) == stage,
{
}

/// A connection is served once its probes are set or could not be, whatever the
/// probes were to be.
pub proof fn law_tuning_never_stops(keepalive: Option<Keepalive>, ka: Keepalive)
    ensures
        next_stage(keepalive, StageView::Tuning { keepalive: ka }, ServerEvent::Tuned)
            == StageView::Spawning,
        next_stage(keepalive, StageView::Tuning { keepalive: ka }, ServerEvent::TuneFailed)
            == StageView::Spawning,
{
}

} // verus!
