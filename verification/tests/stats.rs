use tnsm_relay::clock::{now_unix, unix_seconds};
use tnsm_relay::stats::{RelayStats, StatsSnapshot};

#[test]
fn fresh_figures_are_empty() {
    let s = RelayStats::default().snapshot();
    assert!(!s.running);
    assert_eq!(s.bind, "");
    assert!(s.waiting_hosts.is_empty());
    assert!(s.active_sessions.is_empty());
    assert_eq!(s.total_sessions, 0);
    assert_eq!(s.total_rejections, 0);
}

#[test]
fn default_snapshot_is_empty() {
    let s = StatsSnapshot::default();
    assert!(!s.running);
    assert_eq!(s.bind, "");
    assert!(s.waiting_hosts.is_empty());
    assert!(s.active_sessions.is_empty());
    assert_eq!(s.total_sessions, 0);
    assert_eq!(s.total_rejections, 0);
}

#[test]
fn hosts_are_listed_by_code() {
    let mut stats = RelayStats::new();
    for code in ["pear", "Zoo", "apple", "\u{e9}clair", "pea", "10", "9"] {
        stats.add_waiting_at(code, "h", 5);
    }
    let codes: Vec<String> =
        stats.snapshot().waiting_hosts.iter().map(|h| h.code.clone()).collect();
    assert_eq!(codes, vec!["10", "9", "Zoo", "apple", "pea", "pear", "\u{e9}clair"]);
}

#[test]
fn host_under_a_code_is_replaced() {
    let mut stats = RelayStats::new();
    stats.add_waiting_at("a", "old", 1);
    stats.add_waiting_at("a", "new", 2);
    let s = stats.snapshot();
    assert_eq!(s.waiting_hosts.len(), 1);
    assert_eq!(s.waiting_hosts[0].from, "new");
    assert_eq!(s.waiting_hosts[0].since_unix, 2);
    stats.remove_waiting("b");
    assert_eq!(stats.snapshot().waiting_hosts.len(), 1);
    stats.remove_waiting("a");
    assert!(stats.snapshot().waiting_hosts.is_empty());
}

#[test]
fn sessions_are_listed_from_the_oldest() {
    let mut stats = RelayStats::new();
    assert_eq!(stats.add_session_at("c", "h", "r", 30), 1);
    assert_eq!(stats.add_session_at("a", "h", "r", 10), 2);
    assert_eq!(stats.add_session_at("b", "h", "r", 20), 3);
    assert_eq!(stats.add_session_at("d", "h", "r", 20), 4);
    let s = stats.snapshot();
    let times: Vec<u64> = s.active_sessions.iter().map(|e| e.since_unix).collect();
    assert_eq!(times, vec![10, 20, 20, 30]);
    assert_eq!(s.active_sessions[0].code, "a");
    assert_eq!(s.active_sessions[3].code, "c");
    assert_eq!(s.total_sessions, 4);
    stats.remove_session(2);
    stats.remove_session(99);
    let s = stats.snapshot();
    assert_eq!(s.active_sessions.len(), 3);
    assert_eq!(s.total_sessions, 4);
}

#[test]
fn session_comes_and_goes() {
    let mut stats = RelayStats::new();
    let id = stats.add_session("a", "h:1", "r:2");
    let s = stats.snapshot();
    assert_eq!(s.active_sessions.len(), 1);
    assert_eq!(s.active_sessions[0].host_from, "h:1");
    assert_eq!(s.active_sessions[0].rc_from, "r:2");
    assert!(s.active_sessions[0].since_unix > 1_600_000_000);
    stats.remove_session(id);
    assert!(stats.snapshot().active_sessions.is_empty());
    assert_eq!(stats.add_session("a", "h:1", "r:2"), id + 1);
}

#[test]
fn rejections_are_counted() {
    let mut stats = RelayStats::new();
    stats.bump_rejections();
    stats.bump_rejections();
    assert_eq!(stats.snapshot().total_rejections, 2);
}

#[test]
fn snapshot_stays_as_it_was() {
    let mut stats = RelayStats::new();
    stats.add_waiting("a", "h");
    let s = stats.snapshot();
    let copy = s.clone();
    stats.remove_waiting("a");
    stats.set_running(true, "0.0.0.0:7800");
    assert_eq!(copy.waiting_hosts[0].code, "a");
    assert_eq!(copy.waiting_hosts[0].from, "h");
    assert!(!s.running);
    let later = stats.snapshot();
    assert!(later.running);
    assert_eq!(later.bind, "0.0.0.0:7800");
    assert!(later.waiting_hosts.is_empty());
}

#[test]
fn clock_shows_unix_time() {
    assert!(now_unix() > 1_600_000_000);
    assert_eq!(unix_seconds(Some(1_700_000_000)), 1_700_000_000);
    assert_eq!(unix_seconds(None), 0);
}

#[test]
fn snapshots_of_the_same_figures_agree() {
    let mut stats = RelayStats::new();
    for i in 0..20u64 {
        stats.add_session_at(&format!("s{}", i), "h", "r", i / 5);
        stats.add_waiting_at(&format!("w{}", i), "h", i);
    }
    let (a, b) = (stats.snapshot(), stats.snapshot());
    let hosts = |s: &StatsSnapshot| -> Vec<(String, u64)> {
        s.waiting_hosts.iter().map(|h| (h.code.clone(), h.since_unix)).collect()
    };
    let sessions = |s: &StatsSnapshot| -> Vec<(u64, String)> {
        let mut v: Vec<(u64, String)> =
            s.active_sessions.iter().map(|e| (e.since_unix, e.code.clone())).collect();
        v.sort();
        v
    };
    assert_eq!(hosts(&a), hosts(&b));
    assert_eq!(sessions(&a), sessions(&b));
    assert_eq!(a.active_sessions.len(), 20);
}
