use tnsm_relay::handshake::Reply;
use tnsm_relay::rendezvous::{
    handle_host, handle_host_at, handle_rc, HostAction, HostConn, HostEvent, HostPhase, RcVerdict,
    WaitingHosts, Wake,
};
use tnsm_relay::stats::RelayStats;

fn host(code: &str, from: &str) -> HostConn {
    HostConn::new(code.to_string(), from.to_string(), 600)
}

fn joined<T>(v: RcVerdict<T>) -> Option<T> {
    match v {
        RcVerdict::Joined(channel) => Some(channel),
        RcVerdict::NoHost => None,
    }
}

fn waiting_codes(stats: &RelayStats) -> Vec<String> {
    stats.snapshot().waiting_hosts.iter().map(|h| h.code.clone()).collect()
}

#[test]
fn table_of_waiting_hosts() {
    let mut waiting: WaitingHosts<u32> = WaitingHosts::new();
    assert!(!waiting.contains("a"));
    assert_eq!(waiting.insert("a", 1, "x"), None);
    assert_eq!(waiting.insert("b", 2, "y"), None);
    assert_eq!(waiting.insert("a", 3, "z"), Some(1));
    assert!(waiting.contains("a"));
    assert_eq!(waiting.remove("a"), Some(3));
    assert_eq!(waiting.remove("a"), None);
    assert!(waiting.contains("b"));
    assert_eq!(waiting.remove("b"), Some(2));
}

#[test]
fn host_waits_is_joined_talks_and_leaves() {
    let mut waiting: WaitingHosts<u32> = WaitingHosts::new();
    let mut stats = RelayStats::new();
    let mut h = host("room", "1.2.3.4:5");

    let step = handle_host_at(&mut h, HostEvent::Start(7), &mut waiting, &mut stats, 100);
    assert_eq!(step.action, HostAction::Send(Reply::Wait));
    assert_eq!(step.released, None);
    let s = stats.snapshot();
    assert_eq!(s.waiting_hosts.len(), 1);
    assert_eq!(s.waiting_hosts[0].code, "room");
    assert_eq!(s.waiting_hosts[0].from, "1.2.3.4:5");
    assert_eq!(s.waiting_hosts[0].since_unix, 100);

    let step = handle_host_at(&mut h, HostEvent::Sent(true), &mut waiting, &mut stats, 101);
    assert_eq!(step.action, HostAction::Await(600));
    assert_eq!(h.phase, HostPhase::Waiting);

    let verdict = handle_rc("room", &mut waiting, &mut stats);
    assert_eq!(verdict.reply(), Reply::Joined);
    assert_eq!(verdict.answered(true), Some(7));
    assert!(!waiting.contains("room"));
    assert_eq!(waiting_codes(&stats), vec!["room"]);

    let step =
        handle_host_at(&mut h, HostEvent::Woken(Wake::Matched), &mut waiting, &mut stats, 200);
    assert_eq!(step.action, HostAction::Send(Reply::Joined));
    assert!(waiting_codes(&stats).is_empty());

    let step = handle_host_at(&mut h, HostEvent::Sent(true), &mut waiting, &mut stats, 201);
    assert_eq!(step.action, HostAction::Pipe);
    assert_eq!(h.phase, HostPhase::Piping(1));
    let s = stats.snapshot();
    assert_eq!(s.total_sessions, 1);
    assert_eq!(s.active_sessions.len(), 1);
    assert_eq!(s.active_sessions[0].code, "room");
    assert_eq!(s.active_sessions[0].host_from, "1.2.3.4:5");
    assert_eq!(s.active_sessions[0].rc_from, "1.2.3.4:5");
    assert_eq!(s.active_sessions[0].since_unix, 201);

    let step = handle_host_at(&mut h, HostEvent::PipeEnded, &mut waiting, &mut stats, 300);
    assert_eq!(step.action, HostAction::Close);
    assert_eq!(h.phase, HostPhase::Closed);
    let s = stats.snapshot();
    assert!(s.active_sessions.is_empty());
    assert_eq!(s.total_sessions, 1);
    assert_eq!(s.total_rejections, 0);
}

#[test]
fn client_without_host_is_turned_away() {
    let mut waiting: WaitingHosts<u32> = WaitingHosts::new();
    let mut stats = RelayStats::new();
    let verdict = handle_rc("room", &mut waiting, &mut stats);
    assert_eq!(verdict.reply(), Reply::NoHost);
    assert_eq!(verdict.answered(true), None);
    assert_eq!(stats.snapshot().total_rejections, 1);
}

#[test]
fn host_takes_one_client() {
    let mut waiting: WaitingHosts<u32> = WaitingHosts::new();
    let mut stats = RelayStats::new();
    let mut h = host("room", "h");
    handle_host_at(&mut h, HostEvent::Start(7), &mut waiting, &mut stats, 1);
    assert_eq!(joined(handle_rc("room", &mut waiting, &mut stats)), Some(7));
    assert_eq!(joined(handle_rc("room", &mut waiting, &mut stats)), None);
    assert_eq!(stats.snapshot().total_rejections, 1);
}

#[test]
fn codes_do_not_mix() {
    let mut waiting: WaitingHosts<u32> = WaitingHosts::new();
    let mut stats = RelayStats::new();
    let mut a = host("a", "1");
    let mut b = host("b", "2");
    handle_host_at(&mut a, HostEvent::Start(1), &mut waiting, &mut stats, 1);
    handle_host_at(&mut b, HostEvent::Start(2), &mut waiting, &mut stats, 2);
    assert_eq!(joined(handle_rc("b", &mut waiting, &mut stats)), Some(2));
    assert!(waiting.contains("a"));
    assert_eq!(joined(handle_rc("a", &mut waiting, &mut stats)), Some(1));
}

#[test]
fn client_that_the_reply_does_not_reach_is_dropped() {
    let mut waiting: WaitingHosts<u32> = WaitingHosts::new();
    let mut stats = RelayStats::new();
    waiting.insert("room", 7, "h");
    let verdict = handle_rc("room", &mut waiting, &mut stats);
    assert_eq!(verdict.answered(false), None);
    assert!(!waiting.contains("room"));
}

#[test]
fn host_that_gives_up_is_forgotten() {
    let wakes = [Wake::ChannelClosed, Wake::PeerSpoke, Wake::PeerGone, Wake::Expired];
    for wake in wakes {
        let mut waiting: WaitingHosts<u32> = WaitingHosts::new();
        let mut stats = RelayStats::new();
        let mut h = host("room", "h");
        handle_host_at(&mut h, HostEvent::Start(7), &mut waiting, &mut stats, 1);
        handle_host_at(&mut h, HostEvent::Sent(true), &mut waiting, &mut stats, 1);
        let step = handle_host_at(&mut h, HostEvent::Woken(wake), &mut waiting, &mut stats, 2);
        assert_eq!(step.action, HostAction::Close);
        assert_eq!(step.released, Some(7));
        assert_eq!(h.phase, HostPhase::Closed);
        assert!(waiting_codes(&stats).is_empty());
        assert_eq!(joined(handle_rc("room", &mut waiting, &mut stats)), None);
    }
}

#[test]
fn newcomer_displaces_the_host_under_its_code() {
    let mut waiting: WaitingHosts<u32> = WaitingHosts::new();
    let mut stats = RelayStats::new();
    let mut first = host("room", "first");
    let mut second = host("room", "second");
    handle_host_at(&mut first, HostEvent::Start(1), &mut waiting, &mut stats, 1);
    handle_host_at(&mut first, HostEvent::Sent(true), &mut waiting, &mut stats, 1);
    let step = handle_host_at(&mut second, HostEvent::Start(2), &mut waiting, &mut stats, 2);
    assert_eq!(step.released, Some(1));
    assert_eq!(stats.snapshot().waiting_hosts[0].from, "second");

    // The displaced host wakes because its channel is gone, and clears the code.
    let step = handle_host_at(
        &mut first,
        HostEvent::Woken(Wake::ChannelClosed),
        &mut waiting,
        &mut stats,
        3,
    );
    assert_eq!(step.released, Some(2));
    assert!(!waiting.contains("room"));
    assert!(waiting_codes(&stats).is_empty());
}

#[test]
fn host_that_cannot_be_told_to_wait_stays_registered() {
    let mut waiting: WaitingHosts<u32> = WaitingHosts::new();
    let mut stats = RelayStats::new();
    let mut h = host("room", "h");
    handle_host_at(&mut h, HostEvent::Start(7), &mut waiting, &mut stats, 1);
    let step = handle_host_at(&mut h, HostEvent::Sent(false), &mut waiting, &mut stats, 1);
    assert_eq!(step.action, HostAction::Close);
    assert!(waiting.contains("room"));
    assert_eq!(waiting_codes(&stats), vec!["room"]);
}

#[test]
fn host_that_cannot_be_told_of_its_client_has_no_session() {
    let mut waiting: WaitingHosts<u32> = WaitingHosts::new();
    let mut stats = RelayStats::new();
    let mut h = host("room", "h");
    handle_host_at(&mut h, HostEvent::Start(7), &mut waiting, &mut stats, 1);
    handle_host_at(&mut h, HostEvent::Sent(true), &mut waiting, &mut stats, 1);
    assert_eq!(joined(handle_rc("room", &mut waiting, &mut stats)), Some(7));
    handle_host_at(&mut h, HostEvent::Woken(Wake::Matched), &mut waiting, &mut stats, 2);
    let step = handle_host_at(&mut h, HostEvent::Sent(false), &mut waiting, &mut stats, 2);
    assert_eq!(step.action, HostAction::Close);
    let s = stats.snapshot();
    assert_eq!(s.total_sessions, 0);
    assert!(s.active_sessions.is_empty());
    assert!(s.waiting_hosts.is_empty());
}

#[test]
fn waking_host_takes_a_newcomer_off_the_list() {
    let mut waiting: WaitingHosts<u32> = WaitingHosts::new();
    let mut stats = RelayStats::new();
    let mut first = host("room", "first");
    let mut second = host("room", "second");
    handle_host_at(&mut first, HostEvent::Start(1), &mut waiting, &mut stats, 1);
    handle_host_at(&mut first, HostEvent::Sent(true), &mut waiting, &mut stats, 1);
    assert_eq!(joined(handle_rc("room", &mut waiting, &mut stats)), Some(1));
    handle_host_at(&mut second, HostEvent::Start(2), &mut waiting, &mut stats, 2);
    handle_host_at(&mut first, HostEvent::Woken(Wake::Matched), &mut waiting, &mut stats, 3);
    assert!(waiting.contains("room"));
    assert!(waiting_codes(&stats).is_empty());
}

#[test]
fn host_events_are_stamped_by_the_clock() {
    let mut waiting: WaitingHosts<u32> = WaitingHosts::new();
    let mut stats = RelayStats::new();
    let mut h = host("room", "h");
    handle_host(&mut h, HostEvent::Start(7), &mut waiting, &mut stats);
    assert!(stats.snapshot().waiting_hosts[0].since_unix > 1_600_000_000);
}

#[test]
fn host_stays_joinable_while_others_come_and_go() {
    let mut waiting: WaitingHosts<u32> = WaitingHosts::new();
    let mut stats = RelayStats::new();
    let mut h = host("room", "h");
    handle_host_at(&mut h, HostEvent::Start(7), &mut waiting, &mut stats, 1);
    for i in 0..5u32 {
        let mut other = host(&format!("other{}", i), "o");
        handle_host_at(&mut other, HostEvent::Start(100 + i), &mut waiting, &mut stats, 2);
        handle_host_at(&mut other, HostEvent::Sent(true), &mut waiting, &mut stats, 2);
        assert_eq!(joined(handle_rc("elsewhere", &mut waiting, &mut stats)), None);
        handle_host_at(&mut other, HostEvent::Woken(Wake::Expired), &mut waiting, &mut stats, 3);
    }
    handle_host_at(&mut h, HostEvent::Sent(true), &mut waiting, &mut stats, 4);
    assert_eq!(joined(handle_rc("room", &mut waiting, &mut stats)), Some(7));
    assert_eq!(stats.snapshot().total_rejections, 5);
}

#[test]
fn session_is_shown_while_it_lasts() {
    let mut waiting: WaitingHosts<u32> = WaitingHosts::new();
    let mut stats = RelayStats::new();
    let mut talking = Vec::new();
    for i in 0..3u32 {
        let code = format!("room{}", i);
        let mut h = host(&code, "h");
        handle_host_at(&mut h, HostEvent::Start(i), &mut waiting, &mut stats, 1);
        handle_host_at(&mut h, HostEvent::Sent(true), &mut waiting, &mut stats, 1);
        assert_eq!(joined(handle_rc(&code, &mut waiting, &mut stats)), Some(i));
        handle_host_at(&mut h, HostEvent::Woken(Wake::Matched), &mut waiting, &mut stats, 1);
        handle_host_at(&mut h, HostEvent::Sent(true), &mut waiting, &mut stats, 10 + i as u64);
        talking.push(h);
    }
    let mut second = talking.remove(1);
    handle_host_at(&mut second, HostEvent::PipeEnded, &mut waiting, &mut stats, 20);
    let left: Vec<String> =
        stats.snapshot().active_sessions.iter().map(|s| s.code.clone()).collect();
    assert_eq!(left, vec!["room0", "room2"]);
    assert_eq!(stats.snapshot().total_sessions, 3);
}
