//! The rendezvous: hosts wait under their codes, and clients are joined to
//! them.
use crate::clock::now_unix;
use crate::handshake::Reply;
use crate::stats::{RelayStats, StatsView};
use crate::table::CodeTable;
use vstd::prelude::*;

verus! {

// ---------------------------------------------------------------------------
// The hosts that can be joined
// ---------------------------------------------------------------------------

/// A host that can be joined. `channel` is what hands it a client.
pub struct WaitingHost<T> {
    pub channel: T,
    /// The host's address.
    pub from: String,
}

pub struct WaitingHostView<T> {
    pub channel: T,
    pub from: Seq<char>,
}

impl<T> View for WaitingHost<T> {
    type V = WaitingHostView<T>;

    open spec fn view(&self) -> WaitingHostView<T> {
        WaitingHostView { channel: self.channel, from: self.from@ }
    }
}

/// The hosts that can be joined, by code.
pub struct WaitingHosts<T> {
    table: CodeTable<WaitingHost<T>>,
}

impl<T> View for WaitingHosts<T> {
    type V = Map<Seq<char>, WaitingHostView<T>>;

    closed spec fn view(&self) -> Map<Seq<char>, WaitingHostView<T>> {
        self.table@.map_values(|h: WaitingHost<T>| h@)
    }
}

impl<T> WaitingHosts<T> {
    /// No code is filed twice.
    pub closed spec fn wf(&self) -> bool {
        self.table.wf()
    }

    /// No host waits.
    pub fn new() -> (w: Self)
        ensures
            w.wf(),
            w@ == Map::<Seq<char>, WaitingHostView<T>>::empty(),
    {
        let w = WaitingHosts { table: CodeTable::new() };
        proof {
            assert(w@ == Map::<Seq<char>, WaitingHostView<T>>::empty());
        }
        w
    }

    /// Whether a host waits under `code`.
    pub fn contains(&self, code: &str) -> (r: bool)
        requires
            self.wf(),
        ensures
            r == self@.contains_key(code@),
    {
        self.table.contains(code)
    }

    /// Lets a host wait under `code`. One that waited there before is out, and
    /// its channel comes back.
    pub fn insert(&mut self, code: &str, channel: T, from: &str) -> (displaced: Option<T>)
        requires
            old(self).wf(),
        ensures
            final(self).wf(),
            final(self)@ == old(self)@.insert(code@, WaitingHostView { channel, from: from@ }),
            displaced == channel_under(old(self)@, code@),
    {
        let host = WaitingHost { channel, from: from.to_owned() };
        let ghost view = host@;
        let displaced = self.table.insert(code.to_owned(), host);
        proof {
            assert(self@ == old(self)@.insert(code@, view));
        }
        match displaced {
            Some(h) => Some(h.channel),
            None => None,
        }
    }

    /// Takes the host under `code` out, and returns its channel.
    pub fn remove(&mut self, code: &str) -> (channel: Option<T>)
        requires
            old(self).wf(),
        ensures
            final(self).wf(),
            final(self)@ == old(self)@.remove(code@),
            channel == channel_under(old(self)@, code@),
    {
        let removed = self.table.remove(code);
        proof {
            assert(self@ == old(self)@.remove(code@));
        }
        match removed {
            Some(h) => Some(h.channel),
            None => None,
        }
    }
}

/// The channel of the host that waits under `code`.
pub open spec fn channel_under<T>(
    waiting: Map<Seq<char>, WaitingHostView<T>>,
    code: Seq<char>,
) -> Option<T> {
    if waiting.contains_key(code) {
        Some(waiting[code].channel)
    } else {
        None
    }
}

/// What all connections of a relay share.
pub struct SharedView<T> {
    pub waiting: Map<Seq<char>, WaitingHostView<T>>,
    pub stats: StatsView,
}

// ---------------------------------------------------------------------------
// A host's connection
// ---------------------------------------------------------------------------

/// How far a host's connection has come.
#[derive(Debug, Clone, Copy, PartialEq, Eq, Structural)]
pub enum HostPhase {
    /// Let in, not yet registered.
    Arriving,
    /// Being told to wait.
    Announcing,
    /// Waiting for a client.
    Waiting,
    /// Being told that a client is there.
    Accepting,
    /// Talking to the client, in the session of this number.
    Piping(u64),
    /// Over.
    Closed,
}

/// A host's connection.
#[derive(Debug)]
pub struct HostConn {
    pub code: String,
    /// The host's address.
    pub from: String,
    /// How long the host may wait.
    pub ttl_secs: u64,
    pub phase: HostPhase,
}

pub struct HostConnView {
    pub code: Seq<char>,
    pub from: Seq<char>,
    pub ttl_secs: u64,
    pub phase: HostPhase,
}

impl View for HostConn {
    type V = HostConnView;

    open spec fn view(&self) -> HostConnView {
        HostConnView {
            code: self.code@,
            from: self.from@,
            ttl_secs: self.ttl_secs,
            phase: self.phase,
        }
    }
}

/// Why a waiting host wakes.
#[derive(Debug, Clone, Copy, PartialEq, Eq, Structural)]
pub enum Wake {
    /// A client came through the channel.
    Matched,
    /// The channel's other end is gone.
    ChannelClosed,
    /// The host sent something, which it must not.
    PeerSpoke,
    /// The host closed the connection, or it failed.
    PeerGone,
    /// The host has waited long enough.
    Expired,
}

/// What happens to a host's connection.
pub enum HostEvent<T> {
    /// The connection can begin; clients will come through this channel.
    Start(T),
    /// The reply was sent, or could not be.
    Sent(bool),
    /// The wait is over.
    Woken(Wake),
    /// The talk with the client is over.
    PipeEnded,
}

/// What to do with a host's connection next.
#[derive(Debug, Clone, Copy, PartialEq, Eq, Structural)]
pub enum HostAction {
    /// Send this reply.
    Send(Reply),
    /// Wait for a client, the host's end, or so many seconds.
    Await(u64),
    /// Pass bytes between host and client both ways until one side ends.
    Pipe,
    /// Close the connection.
    Close,
}

/// The outcome of one event.
pub struct HostStep<T> {
    pub action: HostAction,
    /// A channel that is out of use from now on and must be dropped.
    pub released: Option<T>,
}

/// The outcome of one event, with the state that it leaves.
pub struct HostOutcome<T> {
    pub conn: HostConnView,
    pub shared: SharedView<T>,
    pub step: HostStep<T>,
}

/// Whether an event can happen in a phase.
pub open spec fn host_expects<T>(phase: HostPhase, event: HostEvent<T>) -> bool {
    match event {
        HostEvent::Start(_) => phase == HostPhase::Arriving,
        HostEvent::Sent(_) => phase == HostPhase::Announcing || phase == HostPhase::Accepting,
        HostEvent::Woken(_) => phase == HostPhase::Waiting,
        HostEvent::PipeEnded => phase is Piping,
    }
}

/// What an event does to a host's connection and to what all connections
/// share. A host that is joined stays in the list of waiting hosts until it
/// wakes. A host that cannot be told to wait stays registered.
pub open spec fn host_outcome<T>(
    conn: HostConnView,
    shared: SharedView<T>,
    event: HostEvent<T>,
    now: u64,
) -> HostOutcome<T> {
    let SharedView { waiting, stats } = shared;
    match event {
        HostEvent::Start(channel) => HostOutcome {
            conn: HostConnView { phase: HostPhase::Announcing, ..conn },
            shared: SharedView {
                waiting: waiting.insert(conn.code, WaitingHostView { channel, from: conn.from }),
                stats: stats.add_waiting(conn.code, conn.from, now),
            },
            step: HostStep {
                action: HostAction::Send(Reply::Wait),
                released: channel_under(waiting, conn.code),
            },
        },
        HostEvent::Sent(true) => if conn.phase == HostPhase::Announcing {
            HostOutcome {
                conn: HostConnView { phase: HostPhase::Waiting, ..conn },
                shared,
                step: HostStep { action: HostAction::Await(conn.ttl_secs), released: None },
            }
        } else {
            HostOutcome {
                conn: HostConnView { phase: HostPhase::Piping(stats.session_seq), ..conn },
                shared: SharedView {
                    waiting,
                    stats: stats.add_session(conn.code, conn.from, conn.from, now),
                },
                step: HostStep { action: HostAction::Pipe, released: None },
            }
        },
        HostEvent::Sent(false) => HostOutcome {
            conn: HostConnView { phase: HostPhase::Closed, ..conn },
            shared,
            step: HostStep { action: HostAction::Close, released: None },
        },
        HostEvent::Woken(Wake::Matched) => HostOutcome {
            conn: HostConnView { phase: HostPhase::Accepting, ..conn },
            shared: SharedView { waiting, stats: stats.remove_waiting(conn.code) },
            step: HostStep { action: HostAction::Send(Reply::Joined), released: None },
        },
        HostEvent::Woken(_) => HostOutcome {
            conn: HostConnView { phase: HostPhase::Closed, ..conn },
            shared: SharedView {
                waiting: waiting.remove(conn.code),
                stats: stats.remove_waiting(conn.code),
            },
            step: HostStep {
                action: HostAction::Close,
                released: channel_under(waiting, conn.code),
            },
        },
        HostEvent::PipeEnded => HostOutcome {
            conn: HostConnView { phase: HostPhase::Closed, ..conn },
            shared: SharedView {
                waiting,
                stats: match conn.phase {
                    HostPhase::Piping(id) => stats.remove_session(id),
                    _ => stats,
                },
            },
            step: HostStep { action: HostAction::Close, released: None },
        },
    }
}

impl HostConn {
    /// The connection of a host that was let in under `code`.
    pub fn new(code: String, from: String, ttl_secs: u64) -> (c: Self)
        ensures
            c@ == (HostConnView {
                code: code@,
                from: from@,
                ttl_secs,
                phase: HostPhase::Arriving,
            }),
    {
        HostConn { code, from, ttl_secs, phase: HostPhase::Arriving }
    }
}

/// Takes up one event of a host's connection at the time `now`.
pub fn handle_host_at<T>(
    conn: &mut HostConn,
    event: HostEvent<T>,
    waiting: &mut WaitingHosts<T>,
    stats: &mut RelayStats,
    now: u64,
) -> (step: HostStep<T>)
    requires
        old(waiting).wf(),
        old(stats).wf(),
        host_expects(old(conn)@.phase, event),
    ensures
        final(waiting).wf(),
        final(stats).wf(),
        (HostOutcome {
            conn: final(conn)@,
            shared: SharedView { waiting: final(waiting)@, stats: final(stats)@ },
            step,
        }) == host_outcome(
            old(conn)@,
            SharedView { waiting: old(waiting)@, stats: old(stats)@ },
            event,
            now,
        ),
{
    match event {
        HostEvent::Start(channel) => {
            let released = waiting.insert(conn.code.as_str(), channel, conn.from.as_str());
            stats.add_waiting_at(conn.code.as_str(), conn.from.as_str(), now);
            conn.phase = HostPhase::Announcing;
            HostStep { action: HostAction::Send(Reply::Wait), released }
        },
        HostEvent::Sent(sent) => {
            if !sent {
                conn.phase = HostPhase::Closed;
                HostStep { action: HostAction::Close, released: None }
            } else {
                match conn.phase {
                    HostPhase::Announcing => {
                        conn.phase = HostPhase::Waiting;
                        HostStep { action: HostAction::Await(conn.ttl_secs), released: None }
                    },
                    _ => {
                        // The client's address is not known on this side, so
                        // the host's stands for both.
                        let id: u64 = stats.add_session_at(
                            conn.code.as_str(),
                            conn.from.as_str(),
                            conn.from.as_str(),
                            now,
                        );
                        conn.phase = HostPhase::Piping(id);
                        HostStep { action: HostAction::Pipe, released: None }
                    },
                }
            }
        },
        HostEvent::Woken(wake) => {
            match wake {
                Wake::Matched => {
                    stats.remove_waiting(conn.code.as_str());
                    conn.phase = HostPhase::Accepting;
                    HostStep { action: HostAction::Send(Reply::Joined), released: None }
                },
                _ => {
                    let released = waiting.remove(conn.code.as_str());
                    stats.remove_waiting(conn.code.as_str());
                    conn.phase = HostPhase::Closed;
                    HostStep { action: HostAction::Close, released }
                },
            }
        },
        HostEvent::PipeEnded => {
            match conn.phase {
                HostPhase::Piping(id) => {
                    stats.remove_session(id);
                },
                _ => {},
            }
            conn.phase = HostPhase::Closed;
            HostStep { action: HostAction::Close, released: None }
        },
    }
}

/// Takes up one event of a host's connection, now.
pub fn handle_host<T>(
    conn: &mut HostConn,
    event: HostEvent<T>,
    waiting: &mut WaitingHosts<T>,
    stats: &mut RelayStats,
) -> (step: HostStep<T>)
    requires
        old(waiting).wf(),
        old(stats).wf(),
        host_expects(old(conn)@.phase, event),
    ensures
        final(waiting).wf(),
        final(stats).wf(),
        exists|now: u64|
            crate::clock::is_clock_reading(now) && (HostOutcome {
                conn: final(conn)@,
                shared: SharedView { waiting: final(waiting)@, stats: final(stats)@ },
                step,
            }) == #[trigger] host_outcome(
                old(conn)@,
                SharedView { waiting: old(waiting)@, stats: old(stats)@ },
                event,
                now,
            ),
{
    let now: u64 = now_unix();
    handle_host_at(conn, event, waiting, stats, now)
}

// ---------------------------------------------------------------------------
// A client's connection
// ---------------------------------------------------------------------------

/// What becomes of a client.
pub enum RcVerdict<T> {
    /// It is joined to the host with this channel.
    Joined(T),
    /// No host waits under its code.
    NoHost,
}

impl<T> RcVerdict<T> {
    /// The reply to the client.
    pub open spec fn reply_of(self) -> Reply {
        match self {
            RcVerdict::Joined(_) => Reply::Joined,
            RcVerdict::NoHost => Reply::NoHost,
        }
    }

    /// The reply to the client.
    pub fn reply(&self) -> (r: Reply)
        ensures
            r == self.reply_of(),
    {
        match self {
            RcVerdict::Joined(_) => Reply::Joined,
            RcVerdict::NoHost => Reply::NoHost,
        }
    }

    /// Once the reply was sent, or could not be: the channel through which to
    /// hand the client to its host. A client that is not joined, or that the
    /// reply did not reach, is closed.
    pub fn answered(self, sent: bool) -> (channel: Option<T>)
        ensures
            channel == (match self {
                RcVerdict::Joined(channel) => if sent {
                    Some(channel)
                } else {
                    None
                },
                RcVerdict::NoHost => None,
            }),
    {
        match self {
            RcVerdict::Joined(channel) => if sent {
                Some(channel)
            } else {
                None
            },
            RcVerdict::NoHost => None,
        }
    }
}

/// What becomes of a client that asks for `code`.
pub open spec fn rc_verdict<T>(shared: SharedView<T>, code: Seq<char>) -> RcVerdict<T> {
    match channel_under(shared.waiting, code) {
        Some(channel) => RcVerdict::Joined(channel),
        None => RcVerdict::NoHost,
    }
}

/// What a client that asks for `code` leaves behind: the host it is joined to
/// waits no more, and one that finds no host counts as a rejection.
pub open spec fn rc_outcome<T>(shared: SharedView<T>, code: Seq<char>) -> SharedView<T> {
    SharedView {
        waiting: shared.waiting.remove(code),
        stats: if shared.waiting.contains_key(code) {
            shared.stats
        } else {
            shared.stats.bump_rejections()
        },
    }
}

/// Joins a client to the host that waits under `code`.
pub fn handle_rc<T>(code: &str, waiting: &mut WaitingHosts<T>, stats: &mut RelayStats) -> (r:
    RcVerdict<T>)
    requires
        old(waiting).wf(),
        old(stats).wf(),
    ensures
        final(waiting).wf(),
        final(stats).wf(),
        r == rc_verdict(SharedView { waiting: old(waiting)@, stats: old(stats)@ }, code@),
        (SharedView { waiting: final(waiting)@, stats: final(stats)@ }) == rc_outcome(
            SharedView { waiting: old(waiting)@, stats: old(stats)@ },
            code@,
        ),
{
    match waiting.remove(code) {
        Some(channel) => RcVerdict::Joined(channel),
        None => {
            stats.bump_rejections();
            RcVerdict::NoHost
        },
    }
}

// ---------------------------------------------------------------------------
// Laws
// ---------------------------------------------------------------------------

/// A client that asks for a code is joined to the host that registered under
/// it last. A host that waited there before is out, and its channel is
/// released.
pub proof fn law_client_gets_the_host<T>(
    conn: HostConnView,
    shared: SharedView<T>,
    channel: T,
    now: u64,
)
    ensures
        ({
            let start = host_outcome(conn, shared, HostEvent::Start(channel), now);
            &&& rc_verdict(start.shared, conn.code) == RcVerdict::Joined(channel)
            &&& start.step.released == channel_under(shared.waiting, conn.code)
        }),
{
}

/// A host is joined to one client at most: the next one that asks for the code
/// finds nobody.
pub proof fn law_one_client_per_host<T>(shared: SharedView<T>, code: Seq<char>)
    ensures
        rc_verdict(rc_outcome(shared, code), code) == RcVerdict::<T>::NoHost,
{
}

/// A host that gave up waiting is joined to nobody.
pub proof fn law_gone_host_is_not_joined<T>(
    conn: HostConnView,
    shared: SharedView<T>,
    wake: Wake,
    now: u64,
)
    requires
        wake != Wake::Matched,
    ensures
        ({
            let gone = host_outcome(conn, shared, HostEvent::Woken(wake), now);
            &&& rc_verdict(gone.shared, conn.code) == RcVerdict::<T>::NoHost
            &&& !gone.shared.stats.waiting.contains_key(conn.code)
        }),
{
}

/// What happens under one code does not touch the hosts under another.
pub proof fn law_codes_are_apart<T>(
    conn: HostConnView,
    shared: SharedView<T>,
    event: HostEvent<T>,
    now: u64,
    other: Seq<char>,
)
    requires
        other != conn.code,
    ensures
        ({
            let host = host_outcome(conn, shared, event, now).shared;
            &&& rc_verdict(host, other) == rc_verdict(shared, other)
            &&& host.stats.waiting.contains_key(other) == shared.stats.waiting.contains_key(other)
            &&& host.stats.waiting[other] == shared.stats.waiting[other]
        }),
        ({
            let client = rc_outcome(shared, conn.code);
            &&& rc_verdict(client, other) == rc_verdict(shared, other)
            &&& client.stats.waiting == shared.stats.waiting
        }),
{
}

/// A host's connection never counts as a rejection, and counts as a session
/// exactly when bytes begin to pass. A client counts as a rejection exactly
/// when it finds no host.
pub proof fn law_what_is_counted<T>(
    conn: HostConnView,
    shared: SharedView<T>,
    event: HostEvent<T>,
    now: u64,
    code: Seq<char>,
)
    ensures
        ({
            let host = host_outcome(conn, shared, event, now);
            let before = shared.stats;
            let then = host.shared.stats;
            &&& then.total_rejections == before.total_rejections
            &&& host.step.action == HostAction::Pipe ==> then.total_sessions == crate::stats::after(
                before.total_sessions,
            )
            &&& host.step.action != HostAction::Pipe ==> then.total_sessions
                == before.total_sessions
        }),
        ({
            let before = shared.stats;
            let then = rc_outcome(shared, code).stats;
            &&& then.total_sessions == before.total_sessions
            &&& rc_verdict(shared, code) is NoHost ==> then.total_rejections
                == crate::stats::after(before.total_rejections)
            &&& rc_verdict(shared, code) is Joined ==> then.total_rejections
                == before.total_rejections
        }),
{
}

/// Every action leads to an event that the connection then expects, and a
/// closed connection expects none.
pub proof fn law_action_leads_on<T>(
    conn: HostConnView,
    shared: SharedView<T>,
    event: HostEvent<T>,
    now: u64,
    sent: bool,
    wake: Wake,
    later: HostEvent<T>,
)
    requires
        host_expects(conn.phase, event),
    ensures
        ({
            let outcome = host_outcome(conn, shared, event, now);
            let phase = outcome.conn.phase;
            match outcome.step.action {
                HostAction::Send(_) => host_expects(phase, HostEvent::<T>::Sent(sent)),
                HostAction::Await(_) => host_expects(phase, HostEvent::<T>::Woken(wake)),
                HostAction::Pipe => host_expects(phase, HostEvent::<T>::PipeEnded),
                HostAction::Close => phase == HostPhase::Closed && !host_expects(phase, later),
            }
        }),
{
}

/// Whether every host that can be joined is in the list of waiting hosts, with
/// its address.
pub open spec fn joinable_hosts_are_shown<T>(shared: SharedView<T>) -> bool {
    forall|code: Seq<char>| #[trigger]
        shared.waiting.contains_key(code) ==> shared.stats.waiting.contains_key(code)
            && shared.stats.waiting[code].from == shared.waiting[code].from
}

/// Every host that can be joined is shown: this is so at the start, and every
/// event keeps it, except that a host which wakes with its client takes a
/// newcomer under the same code off the list.
pub proof fn law_joinable_hosts_are_shown<T>(
    conn: HostConnView,
    shared: SharedView<T>,
    event: HostEvent<T>,
    now: u64,
    code: Seq<char>,
    fresh: StatsView,
)
    requires
        joinable_hosts_are_shown(shared),
    ensures
        joinable_hosts_are_shown(SharedView::<T> { waiting: Map::empty(), stats: fresh }),
        event == HostEvent::<T>::Woken(Wake::Matched) && shared.waiting.contains_key(conn.code)
            || joinable_hosts_are_shown(host_outcome(conn, shared, event, now).shared),
        joinable_hosts_are_shown(rc_outcome(shared, code)),
{
}

/// A host that registers under a free code, is joined to a client, talks to it
/// and leaves: the client gets its channel, and all that remains of the visit
/// is one more session in the count.
pub proof fn law_whole_visit<T>(
    conn: HostConnView,
    shared: SharedView<T>,
    channel: T,
    arrival: u64,
    joining: u64,
)
    requires
        conn.phase == HostPhase::Arriving,
        !shared.waiting.contains_key(conn.code),
        !shared.stats.waiting.contains_key(conn.code),
        shared.stats.sessions_numbered(),
    ensures
        ({
            let start = host_outcome(conn, shared, HostEvent::Start(channel), arrival);
            let wait = host_outcome(start.conn, start.shared, HostEvent::Sent(true), arrival);
            let joined = rc_outcome(wait.shared, conn.code);
            let woken = host_outcome(wait.conn, joined, HostEvent::Woken(Wake::Matched), joining);
            let pipe = host_outcome(woken.conn, woken.shared, HostEvent::Sent(true), joining);
            let end = host_outcome(pipe.conn, pipe.shared, HostEvent::PipeEnded, joining);
            &&& start.step.action == HostAction::Send(Reply::Wait)
            &&& wait.step.action == HostAction::Await(conn.ttl_secs)
            &&& rc_verdict(wait.shared, conn.code) == RcVerdict::Joined(channel)
            &&& woken.step.action == HostAction::Send(Reply::Joined)
            &&& pipe.step.action == HostAction::Pipe
            &&& pipe.shared.stats.sessions == shared.stats.sessions.insert(
                shared.stats.session_seq,
                crate::stats::SessionEntryView {
                    code: conn.code,
                    host_from: conn.from,
                    rc_from: conn.from,
                    since_unix: joining,
                },
            )
            &&& end.step.action == HostAction::Close
            &&& end.conn.phase == HostPhase::Closed
            &&& end.shared.waiting == shared.waiting
            &&& end.shared.stats == (StatsView {
                total_sessions: crate::stats::after(shared.stats.total_sessions),
                session_seq: crate::stats::after(shared.stats.session_seq),
                ..shared.stats
            })
        }),
{
    let start = host_outcome(conn, shared, HostEvent::Start(channel), arrival);
    let wait = host_outcome(start.conn, start.shared, HostEvent::Sent(true), arrival);
    let joined = rc_outcome(wait.shared, conn.code);
    let woken = host_outcome(wait.conn, joined, HostEvent::Woken(Wake::Matched), joining);
    let pipe = host_outcome(woken.conn, woken.shared, HostEvent::Sent(true), joining);
    let end = host_outcome(pipe.conn, pipe.shared, HostEvent::PipeEnded, joining);
    crate::stats::law_host_comes_and_goes(shared.stats, conn.code, conn.from, arrival);
    crate::stats::law_session_comes_and_goes(shared.stats, conn.code, conn.from, conn.from, joining);
    assert(end.shared.waiting == shared.waiting);
    assert(woken.shared.stats == shared.stats);
    assert(end.shared.stats.sessions == shared.stats.sessions);
}

// ---------------------------------------------------------------------------
// Laws on whole histories
// ---------------------------------------------------------------------------

/// One thing that happens at a relay: an event of a host's connection, at a
/// time, or a client that asks for a code.
pub enum Deed<T> {
    Host(HostConnView, HostEvent<T>, u64),
    Client(Seq<char>),
}

impl<T> Deed<T> {
    /// The code that it is about.
    pub open spec fn code(self) -> Seq<char> {
        match self {
            Deed::Host(conn, _, _) => conn.code,
            Deed::Client(code) => code,
        }
    }

    /// Whether a host registers under `code` with `channel`.
    pub open spec fn registers(self, code: Seq<char>, channel: T) -> bool {
        self matches Deed::Host(conn, HostEvent::Start(c), _) && conn.code == code && c == channel
    }

    /// Whether it leaves no host of an earlier registration under `code`:
    /// another one registers there, a client is joined there, or a host gives
    /// up there.
    pub open spec fn clears(self, code: Seq<char>) -> bool {
        &&& self.code() == code
        &&& match self {
            Deed::Host(_, HostEvent::Start(_), _) => true,
            Deed::Host(_, HostEvent::Woken(wake), _) => wake != Wake::Matched,
            Deed::Host(_, _, _) => false,
            Deed::Client(_) => true,
        }
    }

    /// What it leaves behind.
    pub open spec fn outcome(self, shared: SharedView<T>) -> SharedView<T> {
        match self {
            Deed::Host(conn, event, now) => host_outcome(conn, shared, event, now).shared,
            Deed::Client(code) => rc_outcome(shared, code),
        }
    }
}

/// What many things, one after the other, leave behind.
pub open spec fn history<T>(shared: SharedView<T>, deeds: Seq<Deed<T>>) -> SharedView<T>
    decreases deeds.len(),
{
    if deeds.len() == 0 {
        shared
    } else {
        deeds.last().outcome(history(shared, deeds.drop_last()))
    }
}

/// A host that registered is joined to the first client that asks for its
/// code, whatever happened under other codes in between, and whatever happened
/// under its own that clears nothing.
pub proof fn law_host_waits_for_its_client<T>(
    conn: HostConnView,
    shared: SharedView<T>,
    channel: T,
    now: u64,
    deeds: Seq<Deed<T>>,
)
    requires
        forall|i: int| 0 <= i < deeds.len() ==> !(#[trigger] deeds[i]).clears(conn.code),
    ensures
        ({
            let start = host_outcome(conn, shared, HostEvent::Start(channel), now);
            rc_verdict(history(start.shared, deeds), conn.code) == RcVerdict::Joined(channel)
        }),
    decreases deeds.len(),
{
    if deeds.len() > 0 {
        let before = deeds.drop_last();
        assert forall|i: int| 0 <= i < before.len() implies !(#[trigger] before[i]).clears(
            conn.code,
        ) by {
            assert(before[i] == deeds[i]);
        }
        law_host_waits_for_its_client(conn, shared, channel, now, before);
        assert(!deeds[deeds.len() - 1].clears(conn.code));
    }
}

/// A client of a relay that began with no hosts is joined only to a host that
/// registered under the very code that the client asks for, and only where
/// nothing cleared that code since.
pub proof fn law_client_is_joined_by_code<T>(
    fresh: StatsView,
    deeds: Seq<Deed<T>>,
    code: Seq<char>,
    channel: T,
)
    requires
        rc_verdict(
            history(SharedView { waiting: Map::empty(), stats: fresh }, deeds),
            code,
        ) == RcVerdict::Joined(channel),
    ensures
        exists|i: int|
            0 <= i < deeds.len() && (#[trigger] deeds[i]).registers(code, channel) && (forall|j: int|
                i < j < deeds.len() ==> !(#[trigger] deeds[j]).clears(code)),
    decreases deeds.len(),
{
    if deeds.len() > 0 {
        let last = deeds.len() - 1;
        let before = deeds.drop_last();
        if !deeds[last].registers(code, channel) {
            law_client_is_joined_by_code(fresh, before, code, channel);
            let i = choose|i: int|
                0 <= i < before.len() && (#[trigger] before[i]).registers(code, channel) && (forall|
                    j: int,
                | i < j < before.len() ==> !(#[trigger] before[j]).clears(code));
            assert(deeds[i] == before[i]);
            assert forall|j: int| i < j < deeds.len() implies !(#[trigger] deeds[j]).clears(code) by {
                if j < last {
                    assert(deeds[j] == before[j]);
                }
            }
        }
    }
}

/// A session is in the list for as long as it lasts, whatever else happens: it
/// leaves the list only when its own talk is over. This holds as long as the
/// numbers of sessions last.
pub proof fn law_session_is_shown_while_it_lasts<T>(
    conn: HostConnView,
    shared: SharedView<T>,
    now: u64,
    deeds: Seq<Deed<T>>,
)
    requires
        conn.phase == HostPhase::Accepting,
        shared.stats.session_seq + deeds.len() < u64::MAX,
        forall|i: int|
            0 <= i < deeds.len() ==> !((#[trigger] deeds[i]) matches Deed::Host(c, e, _)
                && e is PipeEnded && c.phase == HostPhase::Piping(shared.stats.session_seq)),
    ensures
        ({
            let id = shared.stats.session_seq;
            let pipe = host_outcome(conn, shared, HostEvent::Sent(true), now);
            let then = history(pipe.shared, deeds).stats;
            &&& pipe.conn.phase == HostPhase::Piping(id)
            &&& then.sessions.contains_key(id)
            &&& then.sessions[id] == (crate::stats::SessionEntryView {
                code: conn.code,
                host_from: conn.from,
                rc_from: conn.from,
                since_unix: now,
            })
            &&& id < then.session_seq <= id + 1 + deeds.len()
        }),
    decreases deeds.len(),
{
    if deeds.len() > 0 {
        let before = deeds.drop_last();
        assert forall|i: int| 0 <= i < before.len() implies !((#[trigger] before[i]) matches
            Deed::Host(c, e, _) && e is PipeEnded && c.phase == HostPhase::Piping(
            shared.stats.session_seq,
        )) by {
            assert(before[i] == deeds[i]);
        }
        law_session_is_shown_while_it_lasts(conn, shared, now, before);
        assert(deeds[deeds.len() - 1] == deeds.last());
    }
}

// ---------------------------------------------------------------------------
// Laws on single events
// ---------------------------------------------------------------------------

/// A host that arrives can be joined through its channel from then on, is
/// listed with its address and the time, and is told to wait. One that waited
/// under its code before is out. Nothing else changes.
pub proof fn law_arrival<T>(
    conn: HostConnView,
    shared: SharedView<T>,
    channel: T,
    now: u64,
    other: Seq<char>,
)
    requires
        other != conn.code,
    ensures
        ({
            let then = host_outcome(conn, shared, HostEvent::Start(channel), now);
            let stats = then.shared.stats;
            &&& then.step.action == HostAction::Send(Reply::Wait)
            &&& then.conn.phase == HostPhase::Announcing
            &&& then.shared.waiting.contains_key(conn.code)
            &&& then.shared.waiting[conn.code].channel == channel
            &&& then.shared.waiting[conn.code].from == conn.from
            &&& stats.waiting.contains_key(conn.code)
            &&& stats.waiting[conn.code].code == conn.code
            &&& stats.waiting[conn.code].from == conn.from
            &&& stats.waiting[conn.code].since_unix == now
            &&& then.step.released is Some <==> shared.waiting.contains_key(conn.code)
            &&& then.step.released matches Some(c) ==> c == shared.waiting[conn.code].channel
            &&& then.shared.waiting.contains_key(other) == shared.waiting.contains_key(other)
            &&& then.shared.waiting[other] == shared.waiting[other]
            &&& stats.waiting.contains_key(other) == shared.stats.waiting.contains_key(other)
            &&& stats.waiting[other] == shared.stats.waiting[other]
            &&& stats.sessions == shared.stats.sessions
            &&& stats.session_seq == shared.stats.session_seq
            &&& stats.running == shared.stats.running
            &&& stats.bind == shared.stats.bind
        }),
{
}

/// A host that was told to wait waits as long as it may, and nothing else
/// changes.
pub proof fn law_host_waits<T>(conn: HostConnView, shared: SharedView<T>, now: u64)
    requires
        conn.phase == HostPhase::Announcing,
    ensures
        ({
            let then = host_outcome(conn, shared, HostEvent::Sent(true), now);
            &&& then.step.action == HostAction::Await(conn.ttl_secs)
            &&& then.conn.phase == HostPhase::Waiting
            &&& then.step.released is None
            &&& then.shared == shared
        }),
{
}

/// A host that a reply does not reach is dropped, and nothing else changes.
pub proof fn law_unreached_host_is_dropped<T>(conn: HostConnView, shared: SharedView<T>, now: u64)
    ensures
        ({
            let then = host_outcome(conn, shared, HostEvent::Sent(false), now);
            &&& then.step.action == HostAction::Close
            &&& then.conn.phase == HostPhase::Closed
            &&& then.step.released is None
            &&& then.shared == shared
        }),
{
}

/// A host that is over its time, speaks, leaves or loses its channel is
/// dropped at once, however long it may wait: nobody waits under its code any
/// more, the code is off the list, and the channel that was there is released.
/// Nothing else changes.
pub proof fn law_host_gives_up<T>(
    conn: HostConnView,
    shared: SharedView<T>,
    wake: Wake,
    now: u64,
    other: Seq<char>,
)
    requires
        wake == Wake::Expired || wake == Wake::PeerSpoke || wake == Wake::PeerGone || wake
            == Wake::ChannelClosed,
        other != conn.code,
    ensures
        ({
            let then = host_outcome(conn, shared, HostEvent::Woken(wake), now);
            let stats = then.shared.stats;
            &&& then.step.action == HostAction::Close
            &&& then.conn.phase == HostPhase::Closed
            &&& then.step.released is Some <==> shared.waiting.contains_key(conn.code)
            &&& then.step.released matches Some(c) ==> c == shared.waiting[conn.code].channel
            &&& !then.shared.waiting.contains_key(conn.code)
            &&& !stats.waiting.contains_key(conn.code)
            &&& then.shared.waiting.contains_key(other) == shared.waiting.contains_key(other)
            &&& then.shared.waiting[other] == shared.waiting[other]
            &&& stats.waiting.contains_key(other) == shared.stats.waiting.contains_key(other)
            &&& stats.waiting[other] == shared.stats.waiting[other]
            &&& stats.sessions == shared.stats.sessions
            &&& stats.session_seq == shared.stats.session_seq
            &&& stats.total_sessions == shared.stats.total_sessions
            &&& stats.total_rejections == shared.stats.total_rejections
            &&& stats.running == shared.stats.running
            &&& stats.bind == shared.stats.bind
        }),
{
}

/// A host whose client came is told so and is off the list. Who can be joined
/// does not change.
pub proof fn law_client_came<T>(
    conn: HostConnView,
    shared: SharedView<T>,
    now: u64,
    other: Seq<char>,
)
    requires
        other != conn.code,
    ensures
        ({
            let then = host_outcome(conn, shared, HostEvent::Woken(Wake::Matched), now);
            let stats = then.shared.stats;
            &&& then.step.action == HostAction::Send(Reply::Joined)
            &&& then.conn.phase == HostPhase::Accepting
            &&& then.step.released is None
            &&& then.shared.waiting == shared.waiting
            &&& !stats.waiting.contains_key(conn.code)
            &&& stats.waiting.contains_key(other) == shared.stats.waiting.contains_key(other)
            &&& stats.waiting[other] == shared.stats.waiting[other]
            &&& stats.sessions == shared.stats.sessions
            &&& stats.session_seq == shared.stats.session_seq
            &&& stats.running == shared.stats.running
            &&& stats.bind == shared.stats.bind
        }),
{
}

/// A host that was told of its client begins to talk: the session gets the next
/// number, is listed under its code with the host's address on both sides and
/// the time, and is counted. Nothing else changes.
pub proof fn law_talk_begins<T>(conn: HostConnView, shared: SharedView<T>, now: u64, other: u64)
    requires
        conn.phase == HostPhase::Accepting,
        other != shared.stats.session_seq,
    ensures
        ({
            let id = shared.stats.session_seq;
            let then = host_outcome(conn, shared, HostEvent::Sent(true), now);
            let stats = then.shared.stats;
            &&& then.step.action == HostAction::Pipe
            &&& then.conn.phase == HostPhase::Piping(id)
            &&& then.step.released is None
            &&& stats.sessions.contains_key(id)
            &&& stats.sessions[id].code == conn.code
            &&& stats.sessions[id].host_from == conn.from
            &&& stats.sessions[id].rc_from == conn.from
            &&& stats.sessions[id].since_unix == now
            &&& id < u64::MAX ==> stats.session_seq == id + 1
            &&& shared.stats.total_sessions < u64::MAX ==> stats.total_sessions
                == shared.stats.total_sessions + 1
            &&& stats.sessions.contains_key(other) == shared.stats.sessions.contains_key(other)
            &&& stats.sessions[other] == shared.stats.sessions[other]
            &&& then.shared.waiting == shared.waiting
            &&& stats.waiting == shared.stats.waiting
            &&& stats.running == shared.stats.running
            &&& stats.bind == shared.stats.bind
        }),
{
}

/// A host whose talk is over is dropped, and its session, and no other, is off
/// the list.
pub proof fn law_talk_ends<T>(
    conn: HostConnView,
    shared: SharedView<T>,
    now: u64,
    id: u64,
    other: u64,
)
    requires
        conn.phase == HostPhase::Piping(id),
        other != id,
    ensures
        ({
            let then = host_outcome(conn, shared, HostEvent::PipeEnded, now);
            let stats = then.shared.stats;
            &&& then.step.action == HostAction::Close
            &&& then.conn.phase == HostPhase::Closed
            &&& then.step.released is None
            &&& !stats.sessions.contains_key(id)
            &&& stats.sessions.contains_key(other) == shared.stats.sessions.contains_key(other)
            &&& stats.sessions[other] == shared.stats.sessions[other]
            &&& then.shared.waiting == shared.waiting
            &&& stats.waiting == shared.stats.waiting
            &&& stats.session_seq == shared.stats.session_seq
            &&& stats.total_sessions == shared.stats.total_sessions
            &&& stats.running == shared.stats.running
            &&& stats.bind == shared.stats.bind
        }),
{
}

/// A host keeps its code, its address and its waiting time, whatever happens.
pub proof fn law_host_keeps_its_code<T>(
    conn: HostConnView,
    shared: SharedView<T>,
    event: HostEvent<T>,
    now: u64,
)
    ensures
        ({
            let then = host_outcome(conn, shared, event, now).conn;
            &&& then.code == conn.code
            &&& then.from == conn.from
            &&& then.ttl_secs == conn.ttl_secs
        }),
{
}

/// A client is joined exactly where a host waits under its code, through that
/// host's channel. It hears `OK` and takes the host away; else it hears that
/// there is none and is counted as refused. No other host is touched, and
/// nothing else changes.
pub proof fn law_client_asks<T>(shared: SharedView<T>, code: Seq<char>, other: Seq<char>)
    requires
        other != code,
    ensures
        ({
            let verdict = rc_verdict(shared, code);
            let then = rc_outcome(shared, code);
            &&& verdict is Joined <==> shared.waiting.contains_key(code)
            &&& verdict matches RcVerdict::Joined(c) ==> c == shared.waiting[code].channel
            &&& verdict is Joined ==> verdict.reply_of() == Reply::Joined && then.stats
                == shared.stats
            &&& verdict is NoHost ==> verdict.reply_of() == Reply::NoHost
            &&& verdict is NoHost && shared.stats.total_rejections < u64::MAX
                ==> then.stats.total_rejections == shared.stats.total_rejections + 1
            &&& !then.waiting.contains_key(code)
            &&& then.waiting.contains_key(other) == shared.waiting.contains_key(other)
            &&& then.waiting[other] == shared.waiting[other]
            &&& then.stats.waiting == shared.stats.waiting
            &&& then.stats.sessions == shared.stats.sessions
            &&& then.stats.session_seq == shared.stats.session_seq
            &&& then.stats.total_sessions == shared.stats.total_sessions
            &&& then.stats.running == shared.stats.running
            &&& then.stats.bind == shared.stats.bind
        }),
{
}

/// What can happen to a host in each phase.
pub proof fn law_what_can_happen<T>(phase: HostPhase, event: HostEvent<T>)
    ensures
        phase == HostPhase::Arriving ==> (host_expects(phase, event) <==> event is Start),
        phase == HostPhase::Announcing || phase == HostPhase::Accepting ==> (host_expects(
            phase,
            event,
        ) <==> event is Sent),
        phase == HostPhase::Waiting ==> (host_expects(phase, event) <==> event is Woken),
        phase is Piping ==> (host_expects(phase, event) <==> event is PipeEnded),
        phase == HostPhase::Closed ==> !host_expects(phase, event),
{
}

/// A connection and a waiting host are what their fields say.
pub proof fn law_host_views<T>(conn: HostConn, host: WaitingHost<T>)
    ensures
        conn@.code == conn.code@,
        conn@.from == conn.from@,
        conn@.ttl_secs == conn.ttl_secs,
        conn@.phase == conn.phase,
        host@.channel == host.channel,
        host@.from == host.from@,
{
}

} // verus!
