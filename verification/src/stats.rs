//! Live figures of a relay: who waits, who talks, and how often.
use crate::clock::now_unix;
use crate::table::CodeTable;
use crate::text;
use crate::text::sorts_before;
use std::collections::HashMap;
use vstd::prelude::*;
use vstd::utf8::*;

verus! {

broadcast use vstd::std_specs::hash::group_hash_axioms;

// ---------------------------------------------------------------------------
// What is shown
// ---------------------------------------------------------------------------

/// A host that waits for a client.
#[derive(Debug)]
pub struct HostEntry {
    pub code: String,
    /// The host's address.
    pub from: String,
    /// When it registered.
    pub since_unix: u64,
}

pub struct HostEntryView {
    pub code: Seq<char>,
    pub from: Seq<char>,
    pub since_unix: u64,
}

impl View for HostEntry {
    type V = HostEntryView;

    open spec fn view(&self) -> HostEntryView {
        HostEntryView { code: self.code@, from: self.from@, since_unix: self.since_unix }
    }
}

impl Clone for HostEntry {
    fn clone(&self) -> (r: Self)
        ensures
            r@ == self@,
    {
        HostEntry {
            code: self.code.clone(),
            from: self.from.clone(),
            since_unix: self.since_unix,
        }
    }
}

/// A host and a client that talk through the relay.
#[derive(Debug)]
pub struct SessionEntry {
    pub code: String,
    pub host_from: String,
    pub rc_from: String,
    /// When they were joined.
    pub since_unix: u64,
}

pub struct SessionEntryView {
    pub code: Seq<char>,
    pub host_from: Seq<char>,
    pub rc_from: Seq<char>,
    pub since_unix: u64,
}

impl View for SessionEntry {
    type V = SessionEntryView;

    open spec fn view(&self) -> SessionEntryView {
        SessionEntryView {
            code: self.code@,
            host_from: self.host_from@,
            rc_from: self.rc_from@,
            since_unix: self.since_unix,
        }
    }
}

impl Clone for SessionEntry {
    fn clone(&self) -> (r: Self)
        ensures
            r@ == self@,
    {
        SessionEntry {
            code: self.code.clone(),
            host_from: self.host_from.clone(),
            rc_from: self.rc_from.clone(),
            since_unix: self.since_unix,
        }
    }
}

/// All figures at one moment.
#[derive(Debug)]
pub struct StatsSnapshot {
    pub running: bool,
    pub bind: String,
    pub waiting_hosts: Vec<HostEntry>,
    pub active_sessions: Vec<SessionEntry>,
    /// Sessions since the start.
    pub total_sessions: u64,
    /// Refused peers since the start.
    pub total_rejections: u64,
}

pub struct StatsSnapshotView {
    pub running: bool,
    pub bind: Seq<char>,
    pub waiting_hosts: Seq<HostEntryView>,
    pub active_sessions: Seq<SessionEntryView>,
    pub total_sessions: u64,
    pub total_rejections: u64,
}

/// The entries of a list of hosts.
pub open spec fn hosts_view(v: Seq<HostEntry>) -> Seq<HostEntryView> {
    v.map_values(|e: HostEntry| e@)
}

/// The entries of a list of sessions.
pub open spec fn sessions_view(v: Seq<SessionEntry>) -> Seq<SessionEntryView> {
    v.map_values(|e: SessionEntry| e@)
}

impl View for StatsSnapshot {
    type V = StatsSnapshotView;

    open spec fn view(&self) -> StatsSnapshotView {
        StatsSnapshotView {
            running: self.running,
            bind: self.bind@,
            waiting_hosts: hosts_view(self.waiting_hosts@),
            active_sessions: sessions_view(self.active_sessions@),
            total_sessions: self.total_sessions,
            total_rejections: self.total_rejections,
        }
    }
}

impl Clone for StatsSnapshot {
    fn clone(&self) -> (r: Self)
        ensures
            r@ == self@,
    {
        let r = StatsSnapshot {
            running: self.running,
            bind: self.bind.clone(),
            waiting_hosts: self.waiting_hosts.clone(),
            active_sessions: self.active_sessions.clone(),
            total_sessions: self.total_sessions,
            total_rejections: self.total_rejections,
        };
        proof {
            assert(r@.waiting_hosts == self@.waiting_hosts);
            assert(r@.active_sessions == self@.active_sessions);
        }
        r
    }
}

impl Default for StatsSnapshot {
    fn default() -> (s: Self)
        ensures
            s@ == (StatsSnapshotView {
                running: false,
                bind: Seq::empty(),
                waiting_hosts: Seq::empty(),
                active_sessions: Seq::empty(),
                total_sessions: 0,
                total_rejections: 0,
            }),
    {
        let s = StatsSnapshot {
            running: false,
            bind: String::new(),
            waiting_hosts: Vec::new(),
            active_sessions: Vec::new(),
            total_sessions: 0,
            total_rejections: 0,
        };
        proof {
            assert(s@.waiting_hosts == Seq::<HostEntryView>::empty());
            assert(s@.active_sessions == Seq::<SessionEntryView>::empty());
        }
        s
    }
}

// ---------------------------------------------------------------------------
// What is kept
// ---------------------------------------------------------------------------

/// The figures of a relay, as mathematical values.
pub struct StatsView {
    pub running: bool,
    pub bind: Seq<char>,
    /// The waiting hosts, by code.
    pub waiting: Map<Seq<char>, HostEntryView>,
    /// The sessions, by number.
    pub sessions: Map<u64, SessionEntryView>,
    pub total_sessions: u64,
    pub total_rejections: u64,
    /// The number of the next session.
    pub session_seq: u64,
}

/// The number after `n`; after the last one comes zero.
pub open spec fn after(n: u64) -> u64 {
    if n == u64::MAX {
        0
    } else {
        (n + 1) as u64
    }
}

impl StatsView {
    /// The figures of a relay that was never started.
    pub open spec fn fresh() -> StatsView {
        StatsView {
            running: false,
            bind: Seq::empty(),
            waiting: Map::empty(),
            sessions: Map::empty(),
            total_sessions: 0,
            total_rejections: 0,
            session_seq: 1,
        }
    }

    pub open spec fn set_running(self, running: bool, bind: Seq<char>) -> StatsView {
        StatsView { running, bind, ..self }
    }

    pub open spec fn add_waiting(self, code: Seq<char>, from: Seq<char>, now: u64) -> StatsView {
        StatsView {
            waiting: self.waiting.insert(code, HostEntryView { code, from, since_unix: now }),
            ..self
        }
    }

    pub open spec fn remove_waiting(self, code: Seq<char>) -> StatsView {
        StatsView { waiting: self.waiting.remove(code), ..self }
    }

    pub open spec fn add_session(
        self,
        code: Seq<char>,
        host_from: Seq<char>,
        rc_from: Seq<char>,
        now: u64,
    ) -> StatsView {
        StatsView {
            sessions: self.sessions.insert(
                self.session_seq,
                SessionEntryView { code, host_from, rc_from, since_unix: now },
            ),
            total_sessions: after(self.total_sessions),
            session_seq: after(self.session_seq),
            ..self
        }
    }

    pub open spec fn remove_session(self, id: u64) -> StatsView {
        StatsView { sessions: self.sessions.remove(id), ..self }
    }

    pub open spec fn bump_rejections(self) -> StatsView {
        StatsView { total_rejections: after(self.total_rejections), ..self }
    }

    /// Every waiting host is kept under its own code.
    pub open spec fn waiting_by_code(self) -> bool {
        forall|code: Seq<char>|
            self.waiting.contains_key(code) ==> (#[trigger] self.waiting[code]).code == code
    }

    /// Every session was numbered before the next one will be.
    pub open spec fn sessions_numbered(self) -> bool {
        forall|id: u64| #[trigger] self.sessions.contains_key(id) ==> id < self.session_seq
    }
}

/// Whether `list` is in the strict order of its codes.
pub open spec fn sorted_hosts(list: Seq<HostEntryView>) -> bool {
    forall|i: int, j: int|
        0 <= i < j < list.len() ==> text::text_before(
            (#[trigger] list[i]).code,
            (#[trigger] list[j]).code,
        )
}

/// Whether `list` shows the hosts of `waiting`, each once, in the order of
/// their codes.
pub open spec fn lists_hosts(
    list: Seq<HostEntryView>,
    waiting: Map<Seq<char>, HostEntryView>,
) -> bool {
    &&& sorted_hosts(list)
    &&& forall|i: int|
        0 <= i < list.len() ==> waiting.contains_key((#[trigger] list[i]).code)
            && waiting[list[i].code] == list[i]
    &&& forall|code: Seq<char>| #[trigger]
        waiting.contains_key(code) ==> list.contains(waiting[code])
}

/// Whether `list` runs from the oldest session to the newest.
pub open spec fn oldest_first(list: Seq<SessionEntryView>) -> bool {
    forall|i: int, j: int|
        0 <= i < j < list.len() ==> (#[trigger] list[i]).since_unix <= (
        #[trigger] list[j]).since_unix
}

/// Whether `list` shows the sessions numbered `ids`, in that order, which are
/// all sessions, each once.
pub open spec fn shows_sessions(
    list: Seq<SessionEntryView>,
    ids: Seq<u64>,
    sessions: Map<u64, SessionEntryView>,
) -> bool {
    &&& ids.no_duplicates()
    &&& forall|id: u64| #[trigger] ids.contains(id) <==> sessions.contains_key(id)
    &&& list.len() == ids.len()
    &&& forall|i: int| 0 <= i < list.len() ==> #[trigger] list[i] == sessions[ids[i]]
}

/// Whether `list` shows all sessions, each once, from the oldest to the newest.
/// Sessions of one second stand in any order.
pub open spec fn lists_sessions(
    list: Seq<SessionEntryView>,
    sessions: Map<u64, SessionEntryView>,
) -> bool {
    &&& oldest_first(list)
    &&& exists|ids: Seq<u64>| #[trigger] shows_sessions(list, ids, sessions)
}

/// Whether `s` shows the figures `v`.
pub open spec fn is_snapshot(s: StatsSnapshotView, v: StatsView) -> bool {
    &&& s.running == v.running
    &&& s.bind == v.bind
    &&& lists_hosts(s.waiting_hosts, v.waiting)
    &&& lists_sessions(s.active_sessions, v.sessions)
    &&& s.total_sessions == v.total_sessions
    &&& s.total_rejections == v.total_rejections
}

/// Different strings have different bytes, so one sorts before the other.
proof fn lemma_codes_ordered(a: Seq<char>, b: Seq<char>)
    requires
        a != b,
    ensures
        text::text_before(a, b) || text::text_before(b, a),
{
    encode_utf8_decode_utf8(a);
    encode_utf8_decode_utf8(b);
    text::lemma_bytes_before_total(encode_utf8(a), encode_utf8(b));
}

/// Puts a host with a new code into a sorted list.
fn place_host(list: &mut Vec<HostEntry>, entry: HostEntry)
    requires
        sorted_hosts(hosts_view(old(list)@)),
        forall|i: int| 0 <= i < old(list)@.len() ==> (#[trigger] old(list)@[i])@.code != entry@.code,
    ensures
        sorted_hosts(hosts_view(final(list)@)),
        exists|p: int|
            0 <= p <= old(list)@.len() && hosts_view(final(list)@) == #[trigger] hosts_view(
                old(list)@,
            ).insert(p, entry@),
{
    let mut p: usize = 0;
    let ghost before = hosts_view(list@);
    while p < list.len() && sorts_before(list[p].code.as_str(), entry.code.as_str())
        invariant
            before == hosts_view(list@),
            p <= list@.len(),
            forall|i: int|
                0 <= i < p ==> text::text_before((#[trigger] before[i]).code, entry@.code),
        decreases list@.len() - p,
    {
        proof {
            assert(before[p as int] == list@[p as int]@);
        }
        p = p + 1;
    }
    proof {
        if p < list@.len() {
            assert(before[p as int] == list@[p as int]@);
            lemma_codes_ordered(before[p as int].code, entry@.code);
            assert forall|j: int| p <= j < before.len() implies text::text_before(
                entry@.code,
                (#[trigger] before[j]).code,
            ) by {
                if j > p {
                    text::lemma_bytes_before_transitive(
                        encode_utf8(entry@.code),
                        encode_utf8(before[p as int].code),
                        encode_utf8(before[j].code),
                    );
                }
            }
        }
    }
    let ghost view = entry@;
    list.insert(p, entry);
    proof {
        let after = hosts_view(list@);
        assert(after == before.insert(p as int, view));
        assert forall|i: int, j: int| 0 <= i < j < after.len() implies text::text_before(
            (#[trigger] after[i]).code,
            (#[trigger] after[j]).code,
        ) by {
            let a = if i < p {
                before[i]
            } else if i == p {
                view
            } else {
                before[i - 1]
            };
            let b = if j < p {
                before[j]
            } else if j == p {
                view
            } else {
                before[j - 1]
            };
            assert(after[i] == a && after[j] == b);
        }
    }
}

/// Puts a session into a list that runs from the oldest to the newest, behind
/// those of its own second. Returns the position.
fn place_session(list: &mut Vec<SessionEntry>, entry: SessionEntry) -> (p: usize)
    requires
        oldest_first(sessions_view(old(list)@)),
    ensures
        oldest_first(sessions_view(final(list)@)),
        p <= old(list)@.len(),
        sessions_view(final(list)@) == sessions_view(old(list)@).insert(p as int, entry@),
{
    let mut p: usize = list.len();
    let ghost before = sessions_view(list@);
    while p > 0 && entry.since_unix < list[p - 1].since_unix
        invariant
            before == sessions_view(list@),
            p <= list@.len(),
            forall|i: int|
                p <= i < list@.len() ==> entry@.since_unix < (#[trigger] before[i]).since_unix,
        decreases p,
    {
        proof {
            assert(before[p - 1] == list@[p - 1]@);
        }
        p = p - 1;
    }
    proof {
        if p > 0 {
            assert(before[p - 1] == list@[p - 1]@);
            assert forall|i: int| 0 <= i < p implies (#[trigger] before[i]).since_unix
                <= entry@.since_unix by {
                if i < p - 1 {
                    assert(before[i].since_unix <= before[p - 1].since_unix);
                }
            }
        }
    }
    let ghost view = entry@;
    list.insert(p, entry);
    proof {
        let after = sessions_view(list@);
        assert(after == before.insert(p as int, view));
        assert forall|i: int, j: int| 0 <= i < j < after.len() implies (
        #[trigger] after[i]).since_unix <= (#[trigger] after[j]).since_unix by {
            let a = if i < p {
                before[i]
            } else if i == p {
                view
            } else {
                before[i - 1]
            };
            let b = if j < p {
                before[j]
            } else if j == p {
                view
            } else {
                before[j - 1]
            };
            assert(after[i] == a && after[j] == b);
        }
    }
    p
}

/// The figures of a relay.
pub struct RelayStats {
    running: bool,
    bind: String,
    waiting: CodeTable<HostEntry>,
    sessions: HashMap<u64, SessionEntry>,
    total_sessions: u64,
    total_rejections: u64,
    session_seq: u64,
}

impl View for RelayStats {
    type V = StatsView;

    closed spec fn view(&self) -> StatsView {
        StatsView {
            running: self.running,
            bind: self.bind@,
            waiting: self.waiting@.map_values(|e: HostEntry| e@),
            sessions: self.sessions@.map_values(|e: SessionEntry| e@),
            total_sessions: self.total_sessions,
            total_rejections: self.total_rejections,
            session_seq: self.session_seq,
        }
    }
}

impl Default for RelayStats {
    fn default() -> (s: Self)
        ensures
            s.wf(),
            s@ == StatsView::fresh(),
    {
        RelayStats::new()
    }
}

impl RelayStats {
    /// Every waiting host is kept once, under its own code.
    pub closed spec fn wf(&self) -> bool {
        self.waiting.wf() && self@.waiting_by_code()
    }

    /// In every state that the operations reach, each waiting host is kept
    /// under its own code.
    pub proof fn law_waiting_by_code(&self)
        requires
            self.wf(),
        ensures
            self@.waiting_by_code(),
            forall|code: Seq<char>|
                self@.waiting.contains_key(code) ==> (#[trigger] self@.waiting[code]).code == code,
    {
    }

    /// Figures of a relay that was never started.
    pub fn new() -> (s: Self)
        ensures
            s.wf(),
            s@ == StatsView::fresh(),
    {
        let s = RelayStats {
            running: false,
            bind: String::new(),
            waiting: CodeTable::new(),
            sessions: HashMap::new(),
            total_sessions: 0,
            total_rejections: 0,
            session_seq: 1,
        };
        proof {
            assert(s@.waiting == Map::<Seq<char>, HostEntryView>::empty());
            assert(s@.sessions == Map::<u64, SessionEntryView>::empty());
        }
        s
    }

    /// Notes whether the relay listens, and where.
    pub fn set_running(&mut self, running: bool, bind: &str)
        requires
            old(self).wf(),
        ensures
            final(self).wf(),
            final(self)@ == old(self)@.set_running(running, bind@),
    {
        self.running = running;
        self.bind = bind.to_owned();
        proof {
            assert(self@.waiting == old(self)@.waiting);
            assert(self@.sessions == old(self)@.sessions);
        }
    }

    /// Notes a host that began to wait at `now`.
    pub fn add_waiting_at(&mut self, code: &str, from: &str, now: u64)
        requires
            old(self).wf(),
        ensures
            final(self).wf(),
            final(self)@ == old(self)@.add_waiting(code@, from@, now),
    {
        let entry = HostEntry { code: code.to_owned(), from: from.to_owned(), since_unix: now };
        let ghost view = entry@;
        self.waiting.insert(code.to_owned(), entry);
        proof {
            assert(self@.waiting == old(self)@.waiting.insert(code@, view));
            assert(self@.sessions == old(self)@.sessions);
        }
    }

    /// Notes a host that begins to wait now.
    pub fn add_waiting(&mut self, code: &str, from: &str)
        requires
            old(self).wf(),
        ensures
            final(self).wf(),
            exists|now: u64|
                crate::clock::is_clock_reading(now) && final(self)@
                    == #[trigger] old(self)@.add_waiting(code@, from@, now),
    {
        let now: u64 = now_unix();
        self.add_waiting_at(code, from, now);
    }

    /// Notes that no host waits under `code` any more.
    pub fn remove_waiting(&mut self, code: &str)
        requires
            old(self).wf(),
        ensures
            final(self).wf(),
            final(self)@ == old(self)@.remove_waiting(code@),
    {
        self.waiting.remove(code);
        proof {
            assert(self@.waiting == old(self)@.waiting.remove(code@));
            assert(self@.sessions == old(self)@.sessions);
        }
    }

    /// Notes a session that began at `now`, and returns its number.
    pub fn add_session_at(&mut self, code: &str, host_from: &str, rc_from: &str, now: u64) -> (id:
        u64)
        requires
            old(self).wf(),
        ensures
            final(self).wf(),
            id == old(self)@.session_seq,
            final(self)@ == old(self)@.add_session(code@, host_from@, rc_from@, now),
    {
        let id: u64 = self.session_seq;
        self.session_seq = self.session_seq.wrapping_add(1);
        self.total_sessions = self.total_sessions.wrapping_add(1);
        let entry = SessionEntry {
            code: code.to_owned(),
            host_from: host_from.to_owned(),
            rc_from: rc_from.to_owned(),
            since_unix: now,
        };
        let ghost view = entry@;
        self.sessions.insert(id, entry);
        proof {
            assert(self@.sessions == old(self)@.sessions.insert(id, view));
            assert(self@.waiting == old(self)@.waiting);
        }
        id
    }

    /// Notes a session that begins now, and returns its number.
    pub fn add_session(&mut self, code: &str, host_from: &str, rc_from: &str) -> (id: u64)
        requires
            old(self).wf(),
        ensures
            final(self).wf(),
            id == old(self)@.session_seq,
            exists|now: u64|
                crate::clock::is_clock_reading(now) && final(self)@
                    == #[trigger] old(self)@.add_session(
                    code@,
                    host_from@,
                    rc_from@,
                    now,
                ),
    {
        let now: u64 = now_unix();
        self.add_session_at(code, host_from, rc_from, now)
    }

    /// Notes that a session is over.
    pub fn remove_session(&mut self, id: u64)
        requires
            old(self).wf(),
        ensures
            final(self).wf(),
            final(self)@ == old(self)@.remove_session(id),
    {
        self.sessions.remove(&id);
        proof {
            assert(self@.sessions == old(self)@.sessions.remove(id));
            assert(self@.waiting == old(self)@.waiting);
        }
    }

    /// Notes that a peer was refused.
    pub fn bump_rejections(&mut self)
        requires
            old(self).wf(),
        ensures
            final(self).wf(),
            final(self)@ == old(self)@.bump_rejections(),
    {
        self.total_rejections = self.total_rejections.wrapping_add(1);
    }

    /// The waiting hosts, in the order of their codes.
    fn list_hosts(&self) -> (list: Vec<HostEntry>)
        requires
            self.wf(),
        ensures
            lists_hosts(hosts_view(list@), self@.waiting),
    {
        let mut list: Vec<HostEntry> = Vec::new();
        let mut i: usize = 0;
        let ghost keys = self.waiting.keys();
        proof {
            self.waiting.lemma_keys();
        }
        while i < self.waiting.len()
            invariant
                self.wf(),
                keys == self.waiting.keys(),
                keys.no_duplicates(),
                forall|code: Seq<char>| #[trigger]
                    keys.contains(code) <==> self@.waiting.contains_key(code),
                i <= keys.len(),
                sorted_hosts(hosts_view(list@)),
                forall|k: int|
                    0 <= k < list@.len() ==> self@.waiting.contains_key(
                        (#[trigger] hosts_view(list@)[k]).code,
                    ) && self@.waiting[hosts_view(list@)[k].code] == hosts_view(list@)[k]
                        && keys.take(i as int).contains(hosts_view(list@)[k].code),
                forall|q: int|
                    0 <= q < i ==> hosts_view(list@).contains(
                        self@.waiting[#[trigger] keys[q]],
                    ),
            decreases keys.len() - i,
        {
            let entry = self.waiting.value_at(i).clone();
            let ghost view = entry@;
            let ghost before = hosts_view(list@);
            proof {
                assert(keys.contains(keys[i as int]));
                assert(self@.waiting[keys[i as int]] == view);
                assert(view.code == keys[i as int]);
                assert forall|k: int| 0 <= k < list@.len() implies (#[trigger] list@[k])@.code
                    != entry@.code by {
                    let code = before[k].code;
                    assert(before[k] == list@[k]@);
                    let q = choose|q: int|
                        0 <= q < keys.take(i as int).len() && keys.take(i as int)[q] == code;
                    assert(keys[q] == code);
                }
            }
            place_host(&mut list, entry);
            proof {
                let after = hosts_view(list@);
                let p = choose|p: int|
                    0 <= p <= before.len() && after == #[trigger] before.insert(p, view);
                let sofar = keys.take(i + 1);
                assert forall|k: int| 0 <= k < after.len() implies self@.waiting.contains_key(
                    (#[trigger] after[k]).code,
                ) && self@.waiting[after[k].code] == after[k] && sofar.contains(after[k].code) by {
                    if k == p {
                        assert(sofar[i as int] == view.code);
                    } else {
                        let h = if k < p {
                            k
                        } else {
                            k - 1
                        };
                        assert(after[k] == before[h]);
                        let code = before[h].code;
                        let q = choose|q: int|
                            0 <= q < keys.take(i as int).len() && keys.take(i as int)[q] == code;
                        assert(sofar[q] == code);
                    }
                }
                assert forall|q: int| 0 <= q < i + 1 implies after.contains(
                    self@.waiting[#[trigger] keys[q]],
                ) by {
                    if q == i {
                        assert(after[p] == view);
                    } else {
                        let e = self@.waiting[keys[q]];
                        let h = choose|h: int| 0 <= h < before.len() && before[h] == e;
                        if h < p {
                            assert(after[h] == e);
                        } else {
                            assert(after[h + 1] == e);
                        }
                    }
                }
            }
            i = i + 1;
        }
        proof {
            assert forall|code: Seq<char>| #[trigger]
                self@.waiting.contains_key(code) implies hosts_view(list@).contains(
                self@.waiting[code],
            ) by {
                assert(keys.contains(code));
                let q = choose|q: int| 0 <= q < keys.len() && keys[q] == code;
                assert(keys[q] == code);
            }
        }
        list
    }

    /// The sessions, from the oldest to the newest.
    fn list_sessions(&self) -> (list: Vec<SessionEntry>)
        ensures
            lists_sessions(sessions_view(list@), self@.sessions),
    {
        let mut list: Vec<SessionEntry> = Vec::new();
        let ghost mut ids: Seq<u64> = Seq::empty();
        for (id, entry) in it: self.sessions.iter()
            invariant
                it.seq().no_duplicates(),
                forall|i: int|
                    0 <= i < it.seq().len() ==> self.sessions@.contains_key(
                        *(#[trigger] it.seq()[i]).0,
                    ) && self.sessions@[*it.seq()[i].0] == *it.seq()[i].1,
                forall|k: u64| #[trigger]
                    self.sessions@.contains_key(k) ==> it.seq().contains(
                        (&k, &self.sessions@[k]),
                    ),
                oldest_first(sessions_view(list@)),
                ids.no_duplicates(),
                list@.len() == ids.len(),
                forall|i: int|
                    0 <= i < list@.len() ==> #[trigger] sessions_view(list@)[i]
                        == self@.sessions[ids[i]],
                forall|k: u64| #[trigger]
                    ids.contains(k) <==> exists|q: int|
                        0 <= q < it.index() && *(#[trigger] it.seq()[q]).0 == k,
        {
            let ghost before = sessions_view(list@);
            let ghost old_ids = ids;
            let ghost at = it.index();
            let p: usize = place_session(&mut list, entry.clone());
            proof {
                assert(it.seq()[at] == (id, entry));
                ids = old_ids.insert(p as int, *id);
                if old_ids.contains(*id) {
                    let q = choose|q: int| 0 <= q < at && *(#[trigger] it.seq()[q]).0 == *id;
                    assert(it.seq()[q] == it.seq()[at]);
                }
                let after = sessions_view(list@);
                assert(after == before.insert(p as int, entry@));
                assert(after.len() == list@.len());
                assert(self@.sessions[*id] == entry@);
                assert forall|i: int| 0 <= i < list@.len() implies #[trigger] after[i]
                    == self@.sessions[ids[i]] by {
                    if i < p {
                        assert(after[i] == before[i] && ids[i] == old_ids[i]);
                    } else if i > p {
                        assert(after[i] == before[i - 1] && ids[i] == old_ids[i - 1]);
                    }
                }
                assert forall|k: u64| #[trigger] ids.contains(k) <==> exists|q: int|
                    0 <= q < at + 1 && *(#[trigger] it.seq()[q]).0 == k by {
                    if ids.contains(k) {
                        let h = choose|h: int| 0 <= h < ids.len() && ids[h] == k;
                        if h == p {
                            assert(*it.seq()[at].0 == k);
                        } else {
                            let g = if h < p {
                                h
                            } else {
                                h - 1
                            };
                            assert(old_ids[g] == k);
                            assert(old_ids.contains(k));
                        }
                    }
                    if exists|q: int| 0 <= q < at + 1 && *(#[trigger] it.seq()[q]).0 == k {
                        let q = choose|q: int| 0 <= q < at + 1 && *(#[trigger] it.seq()[q]).0 == k;
                        if q == at {
                            assert(ids[p as int] == k);
                        } else {
                            assert(old_ids.contains(k));
                            let g = choose|g: int| 0 <= g < old_ids.len() && old_ids[g] == k;
                            if g < p {
                                assert(ids[g] == k);
                            } else {
                                assert(ids[g + 1] == k);
                            }
                        }
                    }
                }
            }
        }
        proof {
            assert forall|id: u64| #[trigger] ids.contains(id) <==> self@.sessions.contains_key(
                id,
            ) by {
                if self@.sessions.contains_key(id) {
                    assert(self.sessions@.contains_key(id));
                }
            }
            assert(shows_sessions(sessions_view(list@), ids, self@.sessions));
        }
        list
    }

    /// All figures at this moment.
    pub fn snapshot(&self) -> (s: StatsSnapshot)
        requires
            self.wf(),
        ensures
            is_snapshot(s@, self@),
    {
        StatsSnapshot {
            running: self.running,
            bind: self.bind.clone(),
            waiting_hosts: self.list_hosts(),
            active_sessions: self.list_sessions(),
            total_sessions: self.total_sessions,
            total_rejections: self.total_rejections,
        }
    }
}

// ---------------------------------------------------------------------------
// Laws
// ---------------------------------------------------------------------------

/// Two lists that show the same hosts agree up to position `n`.
proof fn lemma_same_hosts(
    a: Seq<HostEntryView>,
    b: Seq<HostEntryView>,
    waiting: Map<Seq<char>, HostEntryView>,
    n: int,
)
    requires
        lists_hosts(a, waiting),
        lists_hosts(b, waiting),
        0 <= n <= a.len(),
    ensures
        n <= b.len(),
        a.take(n) == b.take(n),
    decreases n,
{
    if n > 0 {
        let i = n - 1;
        lemma_same_hosts(a, b, waiting, i);
        assert forall|k: int| 0 <= k < i implies a[k] == b[k] by {
            assert(a.take(i)[k] == b.take(i)[k]);
        }
        assert(waiting.contains_key(a[i].code));
        let j = choose|j: int| 0 <= j < b.len() && b[j] == a[i];
        text::lemma_bytes_before_irreflexive(encode_utf8(a[i].code));
        if j < i {
            assert(a[j] == b[j]);
            assert(text::text_before(a[j].code, a[i].code));
        }
        if j > i {
            assert(waiting.contains_key(b[i].code));
            let k = choose|k: int| 0 <= k < a.len() && a[k] == b[i];
            text::lemma_bytes_before_irreflexive(encode_utf8(b[i].code));
            if k < i {
                assert(a[k] == b[k]);
                assert(text::text_before(b[k].code, b[i].code));
            } else if k > i {
                assert(text::text_before(a[i].code, a[k].code));
                assert(text::text_before(b[i].code, b[j].code));
                text::lemma_bytes_before_transitive(
                    encode_utf8(a[i].code),
                    encode_utf8(b[i].code),
                    encode_utf8(a[i].code),
                );
            }
        }
        assert(a[i] == b[i]);
        assert(a.take(n) == a.take(i).push(a[i]));
        assert(b.take(n) == b.take(i).push(b[i]));
    }
}

/// The list of hosts in a snapshot is fixed by who waits.
pub proof fn law_one_list_of_hosts(
    a: Seq<HostEntryView>,
    b: Seq<HostEntryView>,
    waiting: Map<Seq<char>, HostEntryView>,
)
    requires
        lists_hosts(a, waiting),
        lists_hosts(b, waiting),
    ensures
        a == b,
{
    lemma_same_hosts(a, b, waiting, a.len() as int);
    lemma_same_hosts(b, a, waiting, b.len() as int);
    assert(a.take(a.len() as int) == a);
    assert(b.take(b.len() as int) == b);
}

/// Two lists that show the same sessions hold the same entries.
proof fn lemma_same_sessions(
    a: Seq<SessionEntryView>,
    ids_a: Seq<u64>,
    b: Seq<SessionEntryView>,
    ids_b: Seq<u64>,
    sessions: Map<u64, SessionEntryView>,
)
    requires
        shows_sessions(a, ids_a, sessions),
        shows_sessions(b, ids_b, sessions),
    ensures
        a.to_multiset() == b.to_multiset(),
    decreases a.len(),
{
    broadcast use vstd::multiset::group_multiset_axioms;

    a.to_multiset_ensures();
    b.to_multiset_ensures();
    if a.len() == 0 {
        if b.len() > 0 {
            assert(ids_b.contains(ids_b[0]));
            assert(ids_a.contains(ids_b[0]));
        }
        assert(a == b);
    } else {
        let n = a.len() - 1;
        let id = ids_a[n];
        assert(ids_a.contains(id));
        assert(ids_b.contains(id));
        let k = ids_b.index_of(id);
        let rest = sessions.remove(id);
        assert(shows_sessions(a.remove(n), ids_a.remove(n), rest)) by {
            lemma_one_session_less(a, ids_a, sessions, n);
        }
        assert(shows_sessions(b.remove(k), ids_b.remove(k), rest)) by {
            lemma_one_session_less(b, ids_b, sessions, k);
        }
        lemma_same_sessions(a.remove(n), ids_a.remove(n), b.remove(k), ids_b.remove(k), rest);
        assert(a[n] == b[k]);
        assert(a.contains(a[n]));
        assert(b.contains(b[k]));
        assert(a.to_multiset() == a.remove(n).to_multiset().insert(a[n]));
        assert(b.to_multiset() == b.remove(k).to_multiset().insert(b[k]));
    }
}

/// A list that shows sessions shows all but one of them without its entry.
proof fn lemma_one_session_less(
    list: Seq<SessionEntryView>,
    ids: Seq<u64>,
    sessions: Map<u64, SessionEntryView>,
    k: int,
)
    requires
        shows_sessions(list, ids, sessions),
        0 <= k < ids.len(),
    ensures
        shows_sessions(list.remove(k), ids.remove(k), sessions.remove(ids[k])),
{
    let rest = ids.remove(k);
    assert(forall|i: int| 0 <= i < rest.len() ==> rest[i] == ids[if i < k { i } else { i + 1 }]);
    assert forall|id: u64| #[trigger] rest.contains(id) <==> sessions.remove(
        ids[k],
    ).contains_key(id) by {
        if rest.contains(id) {
            let i = rest.index_of(id);
            assert(ids.contains(id));
        }
        if sessions.remove(ids[k]).contains_key(id) {
            assert(ids.contains(id));
            let j = ids.index_of(id);
            assert(rest[if j < k { j } else { j - 1 }] == id);
        }
    }
    let less = list.remove(k);
    assert forall|i: int| 0 <= i < less.len() implies #[trigger] less[i] == sessions.remove(
        ids[k],
    )[rest[i]] by {
        let j = if i < k { i } else { i + 1 };
        assert(less[i] == list[j]);
        assert(rest[i] == ids[j]);
    }
}

/// Taking a snapshot changes nothing, so two snapshots of the same figures
/// agree. Only sessions of one second may stand in another order.
pub proof fn law_snapshots_agree(a: StatsSnapshotView, b: StatsSnapshotView, v: StatsView)
    requires
        is_snapshot(a, v),
        is_snapshot(b, v),
    ensures
        a.running == b.running,
        a.bind == b.bind,
        a.waiting_hosts == b.waiting_hosts,
        a.active_sessions.to_multiset() == b.active_sessions.to_multiset(),
        oldest_first(a.active_sessions),
        oldest_first(b.active_sessions),
        a.total_sessions == b.total_sessions,
        a.total_rejections == b.total_rejections,
{
    law_one_list_of_hosts(a.waiting_hosts, b.waiting_hosts, v.waiting);
    let ids_a = choose|ids: Seq<u64>| #[trigger] shows_sessions(a.active_sessions, ids, v.sessions);
    let ids_b = choose|ids: Seq<u64>| #[trigger] shows_sessions(b.active_sessions, ids, v.sessions);
    lemma_same_sessions(a.active_sessions, ids_a, b.active_sessions, ids_b, v.sessions);
}

/// As long as the numbers last, every session is numbered below the next one:
/// this is so at the start, and every operation keeps it.
pub proof fn law_sessions_numbered(
    v: StatsView,
    code: Seq<char>,
    from: Seq<char>,
    rc_from: Seq<char>,
    now: u64,
    id: u64,
    running: bool,
)
    requires
        v.sessions_numbered(),
    ensures
        StatsView::fresh().sessions_numbered(),
        v.session_seq < u64::MAX ==> v.add_session(code, from, rc_from, now).sessions_numbered(),
        v.remove_session(id).sessions_numbered(),
        v.add_waiting(code, from, now).sessions_numbered(),
        v.remove_waiting(code).sessions_numbered(),
        v.bump_rejections().sessions_numbered(),
        v.set_running(running, from).sessions_numbered(),
{
}

/// A new session displaces no other, and once it is over the list of sessions
/// is what it was before.
pub proof fn law_session_comes_and_goes(
    v: StatsView,
    code: Seq<char>,
    host_from: Seq<char>,
    rc_from: Seq<char>,
    now: u64,
)
    requires
        v.sessions_numbered(),
    ensures
        !v.sessions.contains_key(v.session_seq),
        v.add_session(code, host_from, rc_from, now).sessions.contains_key(v.session_seq),
        v.add_session(code, host_from, rc_from, now).remove_session(v.session_seq).sessions
            == v.sessions,
{
    assert(v.sessions.insert(
        v.session_seq,
        SessionEntryView { code, host_from, rc_from, since_unix: now },
    ).remove(v.session_seq) == v.sessions);
}

/// A host that came and went under a code that was free leaves the list of
/// waiting hosts as it was.
pub proof fn law_host_comes_and_goes(v: StatsView, code: Seq<char>, from: Seq<char>, now: u64)
    requires
        !v.waiting.contains_key(code),
    ensures
        v.add_waiting(code, from, now).remove_waiting(code) == v,
{
    assert(v.waiting.insert(code, HostEntryView { code, from, since_unix: now }).remove(code)
        == v.waiting);
}

/// A relay that was never started shows nothing.
pub proof fn law_fresh_figures()
    ensures
        ({
            let v = StatsView::fresh();
            &&& !v.running
            &&& v.bind == Seq::<char>::empty()
            &&& v.waiting == Map::<Seq<char>, HostEntryView>::empty()
            &&& v.sessions == Map::<u64, SessionEntryView>::empty()
            &&& v.total_sessions == 0
            &&& v.total_rejections == 0
            &&& v.session_seq == 1
        }),
{
}

/// Counts go up by one, and start again at zero behind the last number.
pub proof fn law_counting(n: u64)
    ensures
        n < u64::MAX ==> after(n) == n + 1,
        after(u64::MAX) == 0,
{
}

/// A host that begins to wait is noted under its code with its address and the
/// time, and takes the place of one noted there before. Every other figure
/// stays.
pub proof fn law_host_is_noted(
    v: StatsView,
    code: Seq<char>,
    from: Seq<char>,
    now: u64,
    other: Seq<char>,
)
    requires
        other != code,
    ensures
        ({
            let then = v.add_waiting(code, from, now);
            &&& then.waiting.contains_key(code)
            &&& then.waiting[code].code == code
            &&& then.waiting[code].from == from
            &&& then.waiting[code].since_unix == now
            &&& then.waiting.contains_key(other) == v.waiting.contains_key(other)
            &&& then.waiting[other] == v.waiting[other]
            &&& then == StatsView { waiting: then.waiting, ..v }
        }),
        ({
            let then = v.remove_waiting(code);
            &&& !then.waiting.contains_key(code)
            &&& then.waiting.contains_key(other) == v.waiting.contains_key(other)
            &&& then.waiting[other] == v.waiting[other]
            &&& then == StatsView { waiting: then.waiting, ..v }
        }),
{
}

/// A session that begins is noted under the next number with its code, both
/// addresses and the time, and is counted. Every other session and figure
/// stays.
pub proof fn law_session_is_noted(
    v: StatsView,
    code: Seq<char>,
    host_from: Seq<char>,
    rc_from: Seq<char>,
    now: u64,
    other: u64,
)
    requires
        other != v.session_seq,
    ensures
        ({
            let id = v.session_seq;
            let then = v.add_session(code, host_from, rc_from, now);
            &&& then.sessions.contains_key(id)
            &&& then.sessions[id].code == code
            &&& then.sessions[id].host_from == host_from
            &&& then.sessions[id].rc_from == rc_from
            &&& then.sessions[id].since_unix == now
            &&& then.sessions.contains_key(other) == v.sessions.contains_key(other)
            &&& then.sessions[other] == v.sessions[other]
            &&& id < u64::MAX ==> then.session_seq == id + 1
            &&& id == u64::MAX ==> then.session_seq == 0
            &&& v.total_sessions < u64::MAX ==> then.total_sessions == v.total_sessions + 1
            &&& v.total_sessions == u64::MAX ==> then.total_sessions == 0
            &&& then.running == v.running
            &&& then.bind == v.bind
            &&& then.waiting == v.waiting
            &&& then.total_rejections == v.total_rejections
        }),
{
}

/// A session that is over is forgotten, and no other.
pub proof fn law_session_is_forgotten(v: StatsView, id: u64, other: u64)
    requires
        other != id,
    ensures
        ({
            let then = v.remove_session(id);
            &&& !then.sessions.contains_key(id)
            &&& then.sessions.contains_key(other) == v.sessions.contains_key(other)
            &&& then.sessions[other] == v.sessions[other]
            &&& then == StatsView { sessions: then.sessions, ..v }
        }),
{
}

/// A refused peer is counted, and whether and where the relay listens is noted.
/// Every other figure stays.
pub proof fn law_refusal_and_running(v: StatsView, running: bool, bind: Seq<char>)
    ensures
        v.total_rejections < u64::MAX ==> v.bump_rejections().total_rejections
            == v.total_rejections + 1,
        v.total_rejections == u64::MAX ==> v.bump_rejections().total_rejections == 0,
        v.bump_rejections() == (StatsView {
            total_rejections: v.bump_rejections().total_rejections,
            ..v
        }),
        v.set_running(running, bind).running == running,
        v.set_running(running, bind).bind == bind,
        v.set_running(running, bind) == (StatsView { running, bind, ..v }),
{
}

/// A snapshot shows every figure. Its hosts are those that wait and no others,
/// each once, in the order of their codes: of two, the bytes of the first sort
/// before those of the second. Its sessions are all that there are, each once,
/// and none is older than one before it.
pub proof fn law_snapshot_shows_all(s: StatsSnapshotView, v: StatsView)
    requires
        is_snapshot(s, v),
    ensures
        s.running == v.running,
        s.bind == v.bind,
        s.total_sessions == v.total_sessions,
        s.total_rejections == v.total_rejections,
        forall|i: int|
            0 <= i < s.waiting_hosts.len() ==> v.waiting.contains_key(
                (#[trigger] s.waiting_hosts[i]).code,
            ) && v.waiting[s.waiting_hosts[i].code] == s.waiting_hosts[i],
        forall|code: Seq<char>| #[trigger]
            v.waiting.contains_key(code) ==> exists|i: int|
                0 <= i < s.waiting_hosts.len() && #[trigger] s.waiting_hosts[i] == v.waiting[code],
        forall|i: int, j: int|
            0 <= i < j < s.waiting_hosts.len() ==> text::bytes_before(
                encode_utf8((#[trigger] s.waiting_hosts[i]).code),
                encode_utf8((#[trigger] s.waiting_hosts[j]).code),
            ),
        forall|i: int, j: int|
            0 <= i < j < s.active_sessions.len() ==> (#[trigger] s.active_sessions[i]).since_unix
                <= (#[trigger] s.active_sessions[j]).since_unix,
        exists|ids: Seq<u64>|
            {
                &&& #[trigger] ids.no_duplicates()
                &&& ids.to_set() == v.sessions.dom()
                &&& s.active_sessions == ids.map_values(|id: u64| v.sessions[id])
            },
{
    let ids = choose|ids: Seq<u64>| #[trigger]
        shows_sessions(s.active_sessions, ids, v.sessions);
    assert forall|id: u64| #[trigger] ids.to_set().contains(id) <==> v.sessions.dom().contains(
        id,
    ) by {
        assert(ids.contains(id) <==> v.sessions.contains_key(id));
    }
    assert(ids.to_set() == v.sessions.dom());
    assert(s.active_sessions == ids.map_values(|id: u64| v.sessions[id]));
    assert(ids.no_duplicates());
    assert forall|code: Seq<char>| #[trigger] v.waiting.contains_key(code) implies exists|i: int|
        0 <= i < s.waiting_hosts.len() && #[trigger] s.waiting_hosts[i] == v.waiting[code] by {
        assert(s.waiting_hosts.contains(v.waiting[code]));
    }
}

/// What is shown is what the fields say.
pub proof fn law_entry_views(h: HostEntry, e: SessionEntry, s: StatsSnapshot, i: int)
    ensures
        h@.code == h.code@,
        h@.from == h.from@,
        h@.since_unix == h.since_unix,
        e@.code == e.code@,
        e@.host_from == e.host_from@,
        e@.rc_from == e.rc_from@,
        e@.since_unix == e.since_unix,
        s@.running == s.running,
        s@.bind == s.bind@,
        s@.total_sessions == s.total_sessions,
        s@.total_rejections == s.total_rejections,
        s@.waiting_hosts.len() == s.waiting_hosts@.len(),
        0 <= i < s.waiting_hosts@.len() ==> s@.waiting_hosts[i] == s.waiting_hosts@[i]@,
        s@.active_sessions.len() == s.active_sessions@.len(),
        0 <= i < s.active_sessions@.len() ==> s@.active_sessions[i] == s.active_sessions@[i]@,
{
}

} // verus!
