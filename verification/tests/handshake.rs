use tnsm_relay::config::RelayConfig;
use tnsm_relay::handshake::{handle_conn, read_request, Reply, Request};
use tnsm_relay::line::{read_line, LineError};
use tnsm_relay::stats::RelayStats;

fn refusal(r: Request) -> Option<Reply> {
    match r {
        Request::Refuse(reply) => Some(reply),
        _ => None,
    }
}

fn host_code(r: Request) -> Option<String> {
    match r {
        Request::Host(code) => Some(code),
        _ => None,
    }
}

fn rc_code(r: Request) -> Option<String> {
    match r {
        Request::Rc(code) => Some(code),
        _ => None,
    }
}

fn config_with_secret(secret: &str) -> RelayConfig {
    let mut cfg = RelayConfig::default();
    cfg.shared_secret = secret.to_string();
    cfg
}

#[test]
fn replies_on_the_wire() {
    assert_eq!(Reply::Wait.text(), "WAIT\n");
    assert_eq!(Reply::Joined.text(), "OK\n");
    assert_eq!(Reply::BadHandshake.text(), "ERR bad handshake\n");
    assert_eq!(Reply::BadCode.text(), "ERR missing or oversized code\n");
    assert_eq!(Reply::Unauthorized.text(), "ERR unauthorized\n");
    assert_eq!(Reply::UnknownRole.text(), "ERR unknown role\n");
    assert_eq!(Reply::NoHost.text(), "ERR no host online for that code\n");
}

#[test]
fn roles_and_codes() {
    assert_eq!(host_code(read_request("HOST abc", "")), Some("abc".to_string()));
    assert_eq!(rc_code(read_request("RC abc", "")), Some("abc".to_string()));
    assert_eq!(host_code(read_request("  HOST \t abc  ignored words ", "")), Some("abc".to_string()));
    assert_eq!(refusal(read_request("host abc", "")), Some(Reply::UnknownRole));
    assert_eq!(refusal(read_request("GET /", "")), Some(Reply::UnknownRole));
}

#[test]
fn code_must_be_there_and_not_too_long() {
    assert_eq!(refusal(read_request("", "")), Some(Reply::BadCode));
    assert_eq!(refusal(read_request("HOST", "")), Some(Reply::BadCode));
    let longest = "c".repeat(128);
    assert_eq!(host_code(read_request(&format!("HOST {}", longest), "")), Some(longest));
    let too_long = "c".repeat(129);
    assert_eq!(refusal(read_request(&format!("HOST {}", too_long), "")), Some(Reply::BadCode));
    let sixty_four = "\u{e9}".repeat(64);
    assert_eq!(rc_code(read_request(&format!("RC {}", sixty_four), "")), Some(sixty_four));
    let sixty_five = "\u{e9}".repeat(65);
    assert_eq!(refusal(read_request(&format!("RC {}", sixty_five), "")), Some(Reply::BadCode));
}

#[test]
fn secret_is_the_third_word() {
    assert_eq!(host_code(read_request("HOST abc s3cret", "s3cret")), Some("abc".to_string()));
    assert_eq!(refusal(read_request("HOST abc", "s3cret")), Some(Reply::Unauthorized));
    assert_eq!(refusal(read_request("HOST abc s3cretX", "s3cret")), Some(Reply::Unauthorized));
    assert_eq!(refusal(read_request("HOST abc S3CRET", "s3cret")), Some(Reply::Unauthorized));
    assert_eq!(host_code(read_request("HOST abc anything", "")), Some("abc".to_string()));
    assert_eq!(refusal(read_request("HOST abc two words", "two words")), Some(Reply::Unauthorized));
}

#[test]
fn code_is_looked_at_first_and_the_role_last() {
    assert_eq!(refusal(read_request("WHO", "s3cret")), Some(Reply::BadCode));
    assert_eq!(refusal(read_request("WHO abc wrong", "s3cret")), Some(Reply::Unauthorized));
    assert_eq!(refusal(read_request("WHO abc s3cret", "s3cret")), Some(Reply::UnknownRole));
}

#[test]
fn refused_lines_are_counted() {
    let cfg = config_with_secret("s3cret");
    let mut stats = RelayStats::new();
    let lines = ["HOST", "HOST abc", "WHO abc s3cret"];
    for (i, line) in lines.iter().enumerate() {
        assert!(refusal(handle_conn(Ok(line.to_string()), &cfg, &mut stats)).is_some());
        assert_eq!(stats.snapshot().total_rejections, i as u64 + 1);
    }
    assert_eq!(
        rc_code(handle_conn(Ok("RC abc s3cret".to_string()), &cfg, &mut stats)),
        Some("abc".to_string())
    );
    assert_eq!(stats.snapshot().total_rejections, 3);
}

#[test]
fn missing_line_is_not_counted() {
    let cfg = RelayConfig::default();
    let mut stats = RelayStats::new();
    let errors = [
        LineError::Eof,
        LineError::TooLong,
        LineError::NotUtf8,
        LineError::TimedOut,
        LineError::Failed,
    ];
    for e in errors {
        assert_eq!(refusal(handle_conn(Err(e), &cfg, &mut stats)), Some(Reply::BadHandshake));
    }
    assert_eq!(stats.snapshot().total_rejections, 0);
}

#[test]
fn bytes_become_a_request() {
    let cfg = config_with_secret("k");
    let mut stats = RelayStats::new();
    let (line, _) = read_line(b"HOST room-7 k\r\nhello");
    assert_eq!(host_code(handle_conn(line, &cfg, &mut stats)), Some("room-7".to_string()));
    let (line, _) = read_line(b"HOST room-7");
    assert_eq!(refusal(handle_conn(line, &cfg, &mut stats)), Some(Reply::BadHandshake));
}

#[test]
fn refusals_say_err() {
    let refusals = [
        Reply::BadHandshake,
        Reply::BadCode,
        Reply::Unauthorized,
        Reply::UnknownRole,
        Reply::NoHost,
    ];
    for reply in refusals {
        assert!(reply.text().starts_with("ERR "));
    }
    for reply in [Reply::Wait, Reply::Joined] {
        assert!(!reply.text().starts_with("ERR "));
    }
    for reply in refusals.into_iter().chain([Reply::Wait, Reply::Joined]) {
        assert_eq!(reply.text().find('\n'), Some(reply.text().len() - 1));
    }
}
