//! The command line of the relay, and the lines that it logs.
use crate::config::{RelayConfig, RelayConfigView};
use crate::stats::{StatsSnapshot, StatsSnapshotView};
use crate::text;
use crate::text::{decimal_text, same_text};
use vstd::prelude::*;

verus! {

/// How often the figures are logged.
pub const LOG_INTERVAL_SECS: u64 = 60;

/// What the program was asked to do.
#[derive(Debug)]
pub enum Command {
    /// Hash a password, given or to be typed.
    GenHash(Option<String>),
    /// Run the relay with the configuration in this file.
    Serve(String),
}

pub enum CommandView {
    GenHash(Option<Seq<char>>),
    Serve(Seq<char>),
}

impl View for Command {
    type V = CommandView;

    open spec fn view(&self) -> CommandView {
        match self {
            Command::GenHash(Some(p)) => CommandView::GenHash(Some(p@)),
            Command::GenHash(None) => CommandView::GenHash(None),
            Command::Serve(path) => CommandView::Serve(path@),
        }
    }
}

/// What the arguments ask for. The first of them is the program itself.
pub open spec fn command_of(args: Seq<Seq<char>>) -> CommandView {
    if args.len() >= 2 && args[1] == "gen-hash"@ {
        CommandView::GenHash(
            if args.len() >= 3 {
                Some(args[2])
            } else {
                None
            },
        )
    } else if args.len() >= 2 {
        CommandView::Serve(args[1])
    } else {
        CommandView::Serve("relay.toml"@)
    }
}

/// What the arguments ask for.
pub fn parse_args(args: &Vec<String>) -> (c: Command)
    ensures
        c@ == command_of(args@.map_values(|a: String| a@)),
{
    if args.len() >= 2 && same_text(args[1].as_str(), "gen-hash") {
        if args.len() >= 3 {
            Command::GenHash(Some(args[2].clone()))
        } else {
            Command::GenHash(None)
        }
    } else if args.len() >= 2 {
        Command::Serve(args[1].clone())
    } else {
        Command::Serve("relay.toml".to_owned())
    }
}

/// The logged line on the configuration. The secret itself is not in it.
pub open spec fn config_line_of(cfg: RelayConfigView) -> Seq<char> {
    "[relay] config: bind="@ + cfg.bind + " secret="@ + (if cfg.shared_secret.len() == 0 {
        "off"@
    } else {
        "on"@
    })
}

/// The logged line on the configuration.
pub fn config_line(cfg: &RelayConfig) -> (s: String)
    ensures
        s@ == config_line_of(cfg@),
{
    let head = "[relay] config: bind=".to_owned().concat(cfg.bind.as_str()).concat(" secret=");
    if cfg.shared_secret.as_str().is_empty() {
        head.concat("off")
    } else {
        head.concat("on")
    }
}

/// The logged line on a relay that is about to listen.
pub fn start_line(cfg: &RelayConfig) -> (s: String)
    ensures
        s@ == "[relay] starting on "@ + cfg@.bind,
{
    "[relay] starting on ".to_owned().concat(cfg.bind.as_str())
}

/// The logged line on how a relay ended.
pub open spec fn end_line_of(end: Result<(), String>) -> Seq<char> {
    match end {
        Ok(()) => "[relay] stopped"@,
        Err(e) => "[relay] fatal: "@ + e@,
    }
}

/// The logged line on how a relay ended.
pub fn end_line(end: &Result<(), String>) -> (s: String)
    ensures
        s@ == end_line_of(*end),
{
    match end {
        Ok(()) => "[relay] stopped".to_owned(),
        Err(e) => "[relay] fatal: ".to_owned().concat(e.as_str()),
    }
}

/// The logged line on the figures.
pub open spec fn stats_line_of(s: StatsSnapshotView) -> Seq<char> {
    "[relay] waiting_hosts="@ + text::decimal(s.waiting_hosts.len()) + " active_sessions="@
        + text::decimal(s.active_sessions.len()) + " total_sessions="@ + text::decimal(
        s.total_sessions as nat,
    ) + " rejections="@ + text::decimal(s.total_rejections as nat)
}

/// The logged line on the figures.
pub fn stats_line(s: &StatsSnapshot) -> (line: String)
    ensures
        line@ == stats_line_of(s@),
{
    let hosts: u64 = s.waiting_hosts.len() as u64;
    let sessions: u64 = s.active_sessions.len() as u64;
    "[relay] waiting_hosts=".to_owned().concat(decimal_text(hosts).as_str()).concat(
        " active_sessions=",
    ).concat(decimal_text(sessions).as_str()).concat(" total_sessions=").concat(
        decimal_text(s.total_sessions).as_str(),
    ).concat(" rejections=").concat(decimal_text(s.total_rejections).as_str())
}

/// The secret is not logged: two configurations that differ only in a secret
/// that each of them has are logged alike.
pub proof fn law_secret_is_not_logged(a: RelayConfigView, b: RelayConfigView)
    requires
        a.bind == b.bind,
        a.shared_secret.len() > 0,
        b.shared_secret.len() > 0,
    ensures
        config_line_of(a) == config_line_of(b),
{
}

/// The first argument that is not the program says what to do. `gen-hash` asks
/// for a hash, of the argument behind it if there is one. Anything else names
/// the configuration file, whatever follows it. With no such argument the file
/// is `relay.toml`.
pub proof fn law_command(args: Seq<Seq<char>>, path: Seq<char>, more: Seq<Seq<char>>)
    requires
        args.len() <= 1,
    ensures
        command_of(args) == CommandView::Serve("relay.toml"@),
        args.len() == 1 && path != "gen-hash"@ ==> command_of(args + seq![path] + more)
            == CommandView::Serve(path),
        args.len() == 1 && more.len() == 0 ==> command_of(args + seq!["gen-hash"@] + more)
            == CommandView::GenHash(None),
        args.len() == 1 && more.len() > 0 ==> command_of(args + seq!["gen-hash"@] + more)
            == CommandView::GenHash(Some(more[0])),
{
    if args.len() == 1 {
        let named = args + seq![path] + more;
        assert(named[1] == path);
        let hash = args + seq!["gen-hash"@] + more;
        assert(hash[1] == "gen-hash"@);
        if more.len() > 0 {
            assert(hash[2] == more[0]);
        }
    }
}

/// A command is what its variant says, with the characters of its text.
pub proof fn law_command_view(t: String)
    ensures
        Command::GenHash(Some(t))@ == CommandView::GenHash(Some(t@)),
        Command::GenHash(None)@ == CommandView::GenHash(None),
        Command::Serve(t)@ == CommandView::Serve(t@),
{
}

/// The configuration is logged with its address, and with `on` where a secret
/// is set and `off` where none is.
pub proof fn law_config_line(cfg: RelayConfigView)
    ensures
        cfg.shared_secret.len() > 0 ==> config_line_of(cfg) == "[relay] config: bind="@ + cfg.bind
            + " secret=on"@,
        cfg.shared_secret.len() == 0 ==> config_line_of(cfg) == "[relay] config: bind="@ + cfg.bind
            + " secret=off"@,
{
    reveal_strlit(" secret=");
    reveal_strlit("on");
    reveal_strlit("off");
    reveal_strlit(" secret=on");
    reveal_strlit(" secret=off");
    assert(" secret="@ + "on"@ == " secret=on"@);
    assert(" secret="@ + "off"@ == " secret=off"@);
    let head = "[relay] config: bind="@ + cfg.bind;
    assert(head + " secret="@ + "on"@ == head + (" secret="@ + "on"@));
    assert(head + " secret="@ + "off"@ == head + (" secret="@ + "off"@));
}

/// A relay that stopped, and one that could not listen, are logged as such.
pub proof fn law_end_line(end: Result<(), String>)
    ensures
        end is Ok ==> end_line_of(end) == "[relay] stopped"@,
        end is Err ==> end_line_of(end) == "[relay] fatal: "@ + end->Err_0@,
{
}

/// The figures are logged with how many hosts wait, how many sessions there
/// are, how many there were and how many peers were refused, in this order.
pub proof fn law_stats_line(
    s: StatsSnapshotView,
    hosts: Seq<char>,
    sessions: Seq<char>,
    total: Seq<char>,
    refused: Seq<char>,
)
    requires
        hosts == text::decimal(s.waiting_hosts.len()),
        sessions == text::decimal(s.active_sessions.len()),
        total == text::decimal(s.total_sessions as nat),
        refused == text::decimal(s.total_rejections as nat),
    ensures
        stats_line_of(s) == "[relay] waiting_hosts="@ + hosts + " active_sessions="@ + sessions
            + " total_sessions="@ + total + " rejections="@ + refused,
        LOG_INTERVAL_SECS == 60,
{
}

} // verus!
