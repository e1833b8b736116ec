use tnsm_relay::cli::{config_line, end_line, parse_args, start_line, stats_line, Command};
use tnsm_relay::config::RelayConfig;
use tnsm_relay::panel::{config_path, Panel, Probe, CONFIG_FILE};
use tnsm_relay::server::{
    bind_error_text, run, ServerAction, ServerEvent, ServerPhase, ACCEPT_PAUSE_MILLIS,
};
use tnsm_relay::stats::RelayStats;

fn args(list: &[&str]) -> Vec<String> {
    list.iter().map(|s| s.to_string()).collect()
}

#[test]
fn relay_listens_serves_and_stops() {
    let mut phase = ServerPhase::Binding;
    let mut stats = RelayStats::new();
    let bind = "127.0.0.1:7800";
    let action = run(&mut phase, ServerEvent::Bound, bind, &mut stats);
    assert!(matches!(action, ServerAction::Accept));
    assert_eq!(phase, ServerPhase::Accepting);
    assert!(stats.snapshot().running);
    assert_eq!(stats.snapshot().bind, bind);
    let action = run(&mut phase, ServerEvent::Accepted, bind, &mut stats);
    assert!(matches!(action, ServerAction::Serve));
    let action = run(&mut phase, ServerEvent::AcceptFailed, bind, &mut stats);
    assert!(matches!(action, ServerAction::Pause(50)));
    assert_eq!(ACCEPT_PAUSE_MILLIS, 50);
    assert!(stats.snapshot().running);
    let action = run(&mut phase, ServerEvent::Shutdown, bind, &mut stats);
    assert!(matches!(action, ServerAction::Finish(Ok(()))));
    assert_eq!(phase, ServerPhase::Stopped);
    assert!(!stats.snapshot().running);
    assert_eq!(stats.snapshot().bind, bind);
}

#[test]
fn relay_that_cannot_listen_fails() {
    let mut phase = ServerPhase::Binding;
    let mut stats = RelayStats::new();
    let event = ServerEvent::BindFailed("address in use".to_string());
    match run(&mut phase, event, "0.0.0.0:1", &mut stats) {
        ServerAction::Finish(Err(e)) => assert_eq!(e, "bind 0.0.0.0:1: address in use"),
        _ => panic!("it cannot go on"),
    }
    assert_eq!(phase, ServerPhase::Stopped);
    assert!(!stats.snapshot().running);
    assert_eq!(stats.snapshot().bind, "");
    assert_eq!(bind_error_text("x", "y"), "bind x: y");
}

#[test]
fn panel_starts_and_stops_one_relay() {
    let mut panel: Panel<u32> = Panel::new();
    assert_eq!(panel.stop_relay(), Err("relay not running".to_string()));
    assert_eq!(panel.start_relay(), Ok(()));
    assert_eq!(panel.relay_probed("b", Probe::Free, 5), Ok(()));
    assert_eq!(panel.start_relay(), Err("relay already running".to_string()));
    assert_eq!(panel.stop_relay(), Ok(5));
    assert_eq!(panel.start_relay(), Ok(()));
}

#[test]
fn panel_reports_a_failed_start() {
    let mut panel: Panel<u32> = Panel::new();
    let probe = Probe::Taken("denied".to_string());
    assert_eq!(panel.relay_probed("1.2.3.4:80", probe, 5), Err("bind 1.2.3.4:80: denied".to_string()));
    assert_eq!(panel.start_relay(), Ok(()));
    assert_eq!(
        panel.relay_probed("1.2.3.4:80", Probe::Lost, 6),
        Err("relay task failed to start".to_string())
    );
    assert_eq!(panel.stop_relay(), Err("relay not running".to_string()));
}

#[test]
fn panel_keeps_its_file_beside_the_program() {
    assert_eq!(CONFIG_FILE, "relay.toml");
    assert_eq!(config_path(None), "relay.toml");
    assert_eq!(config_path(Some("/opt/relay/relay.toml".to_string())), "/opt/relay/relay.toml");
}

#[test]
fn commands() {
    assert!(matches!(parse_args(&args(&["relay"])), Command::Serve(p) if p == "relay.toml"));
    assert!(matches!(parse_args(&args(&[])), Command::Serve(p) if p == "relay.toml"));
    assert!(matches!(parse_args(&args(&["relay", "my.toml", "x"])), Command::Serve(p) if p == "my.toml"));
    assert!(matches!(parse_args(&args(&["relay", "gen-hash"])), Command::GenHash(None)));
    assert!(matches!(
        parse_args(&args(&["relay", "gen-hash", "mypass"])),
        Command::GenHash(Some(p)) if p == "mypass"
    ));
}

#[test]
fn logged_lines() {
    let mut cfg = RelayConfig::default();
    assert_eq!(config_line(&cfg), "[relay] config: bind=0.0.0.0:7800 secret=off");
    assert_eq!(start_line(&cfg), "[relay] starting on 0.0.0.0:7800");
    assert_eq!(end_line(&Ok(())), "[relay] stopped");
    assert_eq!(end_line(&Err("bind x: y".to_string())), "[relay] fatal: bind x: y");
    cfg.shared_secret = "s3cret".to_string();
    assert_eq!(config_line(&cfg), "[relay] config: bind=0.0.0.0:7800 secret=on");
    let mut stats = RelayStats::new();
    stats.add_waiting("a", "h");
    stats.add_waiting("b", "h");
    stats.add_session("c", "h", "r");
    stats.bump_rejections();
    assert_eq!(
        stats_line(&stats.snapshot()),
        "[relay] waiting_hosts=2 active_sessions=1 total_sessions=1 rejections=1"
    );
}
