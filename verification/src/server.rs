//! The life of a relay: it listens, lets peers in, and stops.
use crate::stats::{RelayStats, StatsView};
use vstd::prelude::*;

verus! {

/// How long to pause after a connection could not be accepted.
pub const ACCEPT_PAUSE_MILLIS: u64 = 50;

/// How far a relay has come.
#[derive(Debug, Clone, Copy, PartialEq, Eq, Structural)]
pub enum ServerPhase {
    /// About to listen.
    Binding,
    /// Listening.
    Accepting,
    /// Over.
    Stopped,
}

/// What happens to a relay.
#[derive(Debug)]
pub enum ServerEvent {
    /// It listens.
    Bound,
    /// It cannot listen, for this reason.
    BindFailed(String),
    /// A peer connected.
    Accepted,
    /// A peer could not connect.
    AcceptFailed,
    /// It was told to stop.
    Shutdown,
}

/// What to do with a relay next.
#[derive(Debug)]
pub enum ServerAction {
    /// Wait for the next peer, or to be told to stop.
    Accept,
    /// Serve the new peer on the side, and wait for the next.
    Serve,
    /// Pause for so many milliseconds, and wait for the next peer.
    Pause(u64),
    /// End, well or with this error.
    Finish(Result<(), String>),
}

pub enum ServerActionView {
    Accept,
    Serve,
    Pause(u64),
    Finish(Result<(), Seq<char>>),
}

impl View for ServerAction {
    type V = ServerActionView;

    open spec fn view(&self) -> ServerActionView {
        match self {
            ServerAction::Accept => ServerActionView::Accept,
            ServerAction::Serve => ServerActionView::Serve,
            ServerAction::Pause(millis) => ServerActionView::Pause(*millis),
            ServerAction::Finish(Ok(())) => ServerActionView::Finish(Ok(())),
            ServerAction::Finish(Err(e)) => ServerActionView::Finish(Err(e@)),
        }
    }
}

/// The error of a relay that cannot listen on `bind`.
pub open spec fn bind_error(bind: Seq<char>, cause: Seq<char>) -> Seq<char> {
    "bind "@ + bind + ": "@ + cause
}

/// The error of a relay that cannot listen on `bind`.
pub fn bind_error_text(bind: &str, cause: &str) -> (s: String)
    ensures
        s@ == bind_error(bind@, cause@),
{
    "bind ".to_owned().concat(bind).concat(": ").concat(cause)
}

/// Whether an event can happen in a phase.
pub open spec fn server_expects(phase: ServerPhase, event: ServerEvent) -> bool {
    match event {
        ServerEvent::Bound | ServerEvent::BindFailed(_) => phase == ServerPhase::Binding,
        _ => phase == ServerPhase::Accepting,
    }
}

/// The phase after an event.
pub open spec fn server_phase(event: ServerEvent) -> ServerPhase {
    match event {
        ServerEvent::Bound | ServerEvent::Accepted
        | ServerEvent::AcceptFailed => ServerPhase::Accepting,
        ServerEvent::BindFailed(_) | ServerEvent::Shutdown => ServerPhase::Stopped,
    }
}

/// The figures after an event.
pub open spec fn server_stats(stats: StatsView, bind: Seq<char>, event: ServerEvent) -> StatsView {
    match event {
        ServerEvent::Bound => stats.set_running(true, bind),
        ServerEvent::Shutdown => stats.set_running(false, bind),
        _ => stats,
    }
}

/// What to do after an event.
pub open spec fn server_action(bind: Seq<char>, event: ServerEvent) -> ServerActionView {
    match event {
        ServerEvent::Bound => ServerActionView::Accept,
        ServerEvent::BindFailed(cause) => ServerActionView::Finish(Err(bind_error(bind, cause@))),
        ServerEvent::Accepted => ServerActionView::Serve,
        ServerEvent::AcceptFailed => ServerActionView::Pause(ACCEPT_PAUSE_MILLIS),
        ServerEvent::Shutdown => ServerActionView::Finish(Ok(())),
    }
}

/// Takes up one event of a relay that is to listen on `bind`.
pub fn run(
    phase: &mut ServerPhase,
    event: ServerEvent,
    bind: &str,
    stats: &mut RelayStats,
) -> (action: ServerAction)
    requires
        old(stats).wf(),
        server_expects(*old(phase), event),
    ensures
        final(stats).wf(),
        *final(phase) == server_phase(event),
        final(stats)@ == server_stats(old(stats)@, bind@, event),
        action@ == server_action(bind@, event),
{
    match event {
        ServerEvent::Bound => {
            stats.set_running(true, bind);
            *phase = ServerPhase::Accepting;
            ServerAction::Accept
        },
        ServerEvent::BindFailed(cause) => {
            *phase = ServerPhase::Stopped;
            ServerAction::Finish(Err(bind_error_text(bind, cause.as_str())))
        },
        ServerEvent::Accepted => {
            *phase = ServerPhase::Accepting;
            ServerAction::Serve
        },
        ServerEvent::AcceptFailed => {
            *phase = ServerPhase::Accepting;
            ServerAction::Pause(ACCEPT_PAUSE_MILLIS)
        },
        ServerEvent::Shutdown => {
            stats.set_running(false, bind);
            *phase = ServerPhase::Stopped;
            ServerAction::Finish(Ok(()))
        },
    }
}

// ---------------------------------------------------------------------------
// Laws
// ---------------------------------------------------------------------------

/// A relay ends with an error only where it could not listen in the first
/// place.
pub proof fn law_only_binding_fails(bind: Seq<char>, event: ServerEvent)
    requires
        server_action(bind, event) matches ServerActionView::Finish(Err(_)),
    ensures
        event is BindFailed,
        forall|phase: ServerPhase| #[trigger]
            server_expects(phase, event) ==> phase == ServerPhase::Binding,
{
}

/// A relay counts as running exactly while it listens, if it did not count as
/// running before.
pub proof fn law_running_while_listening(
    stats: StatsView,
    bind: Seq<char>,
    phase: ServerPhase,
    event: ServerEvent,
)
    requires
        server_expects(phase, event),
        stats.running == (phase == ServerPhase::Accepting),
    ensures
        server_stats(stats, bind, event).running == (server_phase(event)
            == ServerPhase::Accepting),
{
}

/// Starting and stopping leaves the hosts, the sessions and the counts alone.
pub proof fn law_life_keeps_the_figures(stats: StatsView, bind: Seq<char>, event: ServerEvent)
    ensures
        ({
            let then = server_stats(stats, bind, event);
            &&& then.waiting == stats.waiting
            &&& then.sessions == stats.sessions
            &&& then.total_sessions == stats.total_sessions
            &&& then.total_rejections == stats.total_rejections
            &&& then.session_seq == stats.session_seq
        }),
{
}

/// A relay that listens says so in the figures, with its address, and waits for
/// peers.
pub proof fn law_listening(stats: StatsView, bind: Seq<char>)
    ensures
        server_action(bind, ServerEvent::Bound) == ServerActionView::Accept,
        server_phase(ServerEvent::Bound) == ServerPhase::Accepting,
        server_stats(stats, bind, ServerEvent::Bound).running,
        server_stats(stats, bind, ServerEvent::Bound).bind == bind,
{
}

/// A relay that cannot listen ends with an error that names its address and the
/// reason, and leaves the figures alone.
pub proof fn law_cannot_listen(stats: StatsView, bind: Seq<char>, cause: String)
    ensures
        server_action(bind, ServerEvent::BindFailed(cause)) == ServerActionView::Finish(
            Err("bind "@ + bind + ": "@ + cause@),
        ),
        server_phase(ServerEvent::BindFailed(cause)) == ServerPhase::Stopped,
        server_stats(stats, bind, ServerEvent::BindFailed(cause)) == stats,
{
}

/// A peer that connects is served, and the relay listens on. One that cannot
/// costs a pause of fifty milliseconds. Neither shows in the figures.
pub proof fn law_peers_come(stats: StatsView, bind: Seq<char>)
    ensures
        server_action(bind, ServerEvent::Accepted) == ServerActionView::Serve,
        server_phase(ServerEvent::Accepted) == ServerPhase::Accepting,
        server_stats(stats, bind, ServerEvent::Accepted) == stats,
        server_action(bind, ServerEvent::AcceptFailed) == ServerActionView::Pause(50),
        server_phase(ServerEvent::AcceptFailed) == ServerPhase::Accepting,
        server_stats(stats, bind, ServerEvent::AcceptFailed) == stats,
{
}

/// A relay that is told to stop ends well, counts as running no more, and keeps
/// its address in the figures.
pub proof fn law_stopping(stats: StatsView, bind: Seq<char>)
    ensures
        server_action(bind, ServerEvent::Shutdown) == ServerActionView::Finish(Ok(())),
        server_phase(ServerEvent::Shutdown) == ServerPhase::Stopped,
        !server_stats(stats, bind, ServerEvent::Shutdown).running,
        server_stats(stats, bind, ServerEvent::Shutdown).bind == bind,
{
}

/// Listening is tried once, at the start. Peers come and the relay is stopped
/// only while it listens, and then at any time. Nothing happens afterwards.
pub proof fn law_what_can_happen(phase: ServerPhase, event: ServerEvent)
    ensures
        phase == ServerPhase::Binding ==> (server_expects(phase, event) <==> event is Bound || event
            is BindFailed),
        phase == ServerPhase::Accepting ==> (server_expects(phase, event) <==> event is Accepted
            || event is AcceptFailed || event is Shutdown),
        phase == ServerPhase::Stopped ==> !server_expects(phase, event),
{
}

/// An action is what its variant says, with the characters of its error.
pub proof fn law_action_view(millis: u64, e: String)
    ensures
        ServerAction::Accept@ == ServerActionView::Accept,
        ServerAction::Serve@ == ServerActionView::Serve,
        ServerAction::Pause(millis)@ == ServerActionView::Pause(millis),
        ServerAction::Finish(Ok(()))@ == ServerActionView::Finish(Ok(())),
        ServerAction::Finish(Err(e))@ == ServerActionView::Finish(Err(e@)),
{
}

} // verus!
