use tnsm_relay::config::{
    default_bind, default_handshake_timeout, default_host_ttl, RelayConfig, SaveError,
};
use tnsm_relay::settings::Setting;

fn same(a: &RelayConfig, b: &RelayConfig) -> bool {
    a.bind == b.bind
        && a.host_ttl_secs == b.host_ttl_secs
        && a.handshake_timeout_secs == b.handshake_timeout_secs
        && a.shared_secret == b.shared_secret
}

fn config(bind: &str, ttl: u64, timeout: u64, secret: &str) -> RelayConfig {
    RelayConfig {
        bind: bind.to_string(),
        host_ttl_secs: ttl,
        handshake_timeout_secs: timeout,
        shared_secret: secret.to_string(),
    }
}

#[test]
fn defaults() {
    assert_eq!(default_bind(), "0.0.0.0:7800");
    assert_eq!(default_host_ttl(), 600);
    assert_eq!(default_handshake_timeout(), 15);
    assert!(same(&RelayConfig::default(), &config("0.0.0.0:7800", 600, 15, "")));
}

#[test]
fn documented_file_gives_the_defaults() {
    let text = "bind = \"0.0.0.0:7800\"\nhost_ttl_secs = 600\nhandshake_timeout_secs = 15\nshared_secret = \"\"\n";
    assert!(same(&RelayConfig::load(Some(text)), &RelayConfig::default()));
}

#[test]
fn missing_or_invalid_file_gives_the_defaults() {
    let d = RelayConfig::default();
    assert!(same(&RelayConfig::load(None), &d));
    assert!(same(&RelayConfig::load(Some("")), &d));
    assert!(same(&RelayConfig::load(Some("this is not toml")), &d));
    assert!(same(&RelayConfig::load(Some("bind = \"a\"\nbind = \"b\"\n")), &d));
}

#[test]
fn missing_settings_have_their_defaults() {
    let c = RelayConfig::load(Some("host_ttl_secs = 30\nunknown = [1, 2]\n"));
    assert!(same(&c, &config("0.0.0.0:7800", 30, 15, "")));
    let c = RelayConfig::load(Some("shared_secret = 's'\nbind = '[::]:1'\n[other]\nbind = 'x'\n"));
    assert!(same(&c, &config("[::]:1", 600, 15, "s")));
}

#[test]
fn one_setting_of_the_wrong_kind_spoils_the_file() {
    let d = RelayConfig::default();
    let rest = "shared_secret = \"s\"\n";
    let wrong = [
        "bind = 7800\n",
        "bind = 1979-05-27\n",
        "host_ttl_secs = \"600\"\n",
        "host_ttl_secs = -1\n",
        "host_ttl_secs = 1.5\n",
        "handshake_timeout_secs = true\n",
        "handshake_timeout_secs = 9223372036854775808\n",
    ];
    for w in wrong {
        let text = format!("{}{}", w, rest);
        assert!(same(&RelayConfig::load(Some(&text)), &d), "{}", text);
    }
    assert!(same(
        &RelayConfig::load(Some("host_ttl_secs = 9223372036854775807\n")),
        &config("0.0.0.0:7800", 9223372036854775807, 15, "")
    ));
}

#[test]
fn settings_make_a_configuration() {
    let entries = vec![
        ("bind".to_string(), Some(Setting::Text("x".to_string()))),
        ("host_ttl_secs".to_string(), Some(Setting::Integer(0))),
        ("color".to_string(), None),
    ];
    let c = RelayConfig::from_settings(&entries);
    assert!(matches!(c, Some(c) if same(&c, &config("x", 0, 15, ""))));
    let entries = vec![("bind".to_string(), None)];
    assert!(RelayConfig::from_settings(&entries).is_none());
    let entries = vec![("host_ttl_secs".to_string(), Some(Setting::Integer(-5)))];
    assert!(RelayConfig::from_settings(&entries).is_none());
}

#[test]
fn saved_file_in_full() {
    let text = config("1.2.3.4:5", 30, 7, "s3cret").save();
    assert_eq!(
        text,
        Ok("bind = \"1.2.3.4:5\"\nhost_ttl_secs = 30\nhandshake_timeout_secs = 7\nshared_secret = \"s3cret\"\n".to_string())
    );
}

#[test]
fn saved_file_loads_back() {
    let texts = [
        "",
        "plain",
        "it's",
        "say \"hi\"",
        "both ' and \"",
        "triple ''' and \"\"\"",
        "\"\"",
        "''",
        "back\\slash",
        "line\nfeed",
        "\nleading",
        "cr\r\nlf\r",
        "tab\tbell\u{7}del\u{7f}",
        "ends with quotes \"\"\nand more \"\"",
        "\\\n  spaced",
        "caf\u{e9} \u{1F600} \u{85}\u{2028}",
        "#comment = 'no'",
        "'\"\\\n'''\"\"\"\"\"",
    ];
    for a in texts {
        for b in texts {
            let c = config(a, 0, i64::MAX as u64, b);
            match c.save() {
                Ok(text) => assert!(same(&RelayConfig::load(Some(&text)), &c), "{}", text),
                Err(_) => panic!("{:?} can be saved", c),
            }
        }
    }
}

#[test]
fn number_beyond_toml_is_not_saved() {
    let limit = i64::MAX as u64;
    assert!(config("b", limit, limit, "").save().is_ok());
    assert_eq!(config("b", limit + 1, 1, "").save(), Err(SaveError::OutOfRange));
    assert_eq!(config("b", 1, u64::MAX, "").save(), Err(SaveError::OutOfRange));
}

#[test]
fn runs_of_quotes() {
    assert!(config(&"'".repeat(255), 1, 1, &"\"".repeat(255)).quotes_fit());
    assert!(config(&"x'".repeat(300), 1, 1, "").quotes_fit());
    assert!(!config(&"'".repeat(256), 1, 1, "").quotes_fit());
    assert!(!config("", 1, 1, &format!("a{}b", "\"".repeat(256))).quotes_fit());
    let c = config(&"'".repeat(255), 1, 1, &"\"".repeat(255));
    match c.save() {
        Ok(text) => assert!(same(&RelayConfig::load(Some(&text)), &c)),
        Err(_) => panic!("the runs fit"),
    }
}

#[test]
fn copy_is_the_same() {
    let c = config("b", 1, 2, "s");
    assert!(same(&c.clone(), &c));
}

#[test]
fn save_error_message() {
    assert_eq!(SaveError::OutOfRange.message(), "out-of-range value for u64 type");
}

#[test]
fn unknown_settings_of_any_kind_are_ignored() {
    let unknown = [
        "x = true",
        "x = 1.5",
        "x = nan",
        "x = -inf",
        "x = 1979-05-27T07:32:00Z",
        "x = [1, 'two', { three = 3 }]",
        "x = {}",
        "[x]\n\"$__toml_private_datetime\" = 'no date'",
        "[x]\n\"$__toml_private_datetime\" = 5",
        "[[x]]\ny.\"$__toml_private_datetime\" = 'no date'\n[[x]]",
        "\"$__toml_private_datetime\" = 'no date'",
    ];
    for u in unknown {
        let text = format!("bind = 'b'\nhost_ttl_secs = 30\n{}\n", u);
        assert!(same(&RelayConfig::load(Some(&text)), &config("b", 30, 15, "")), "{}", text);
    }
}

#[test]
fn settings_that_are_tables_spoil_the_file() {
    let d = RelayConfig::default();
    for w in ["[bind]\n", "[shared_secret]\n\"$__toml_private_datetime\" = '1979-05-27'\n"] {
        let text = format!("host_ttl_secs = 30\n{}", w);
        assert!(same(&RelayConfig::load(Some(&text)), &d), "{}", text);
    }
    let text = "bind = 'b'\nhost_ttl_secs = 5.0\n";
    assert!(same(&RelayConfig::load(Some(text)), &d));
}
