//! The control panel: a relay that is started and stopped by hand.
use crate::server;
use crate::server::bind_error_text;
use vstd::prelude::*;

verus! {

/// The file that holds the panel's configuration.
pub const CONFIG_FILE: &'static str = "relay.toml";

/// Where the panel keeps its configuration: beside the program, if that place
/// is known, else in the working directory.
pub fn config_path(beside_program: Option<String>) -> (path: String)
    ensures
        path@ == (match beside_program {
            Some(p) => p@,
            None => "relay.toml"@,
        }),
{
    match beside_program {
        Some(p) => p,
        None => "relay.toml".to_owned(),
    }
}

/// What trying out the listening address of a new relay gave.
#[derive(Debug)]
pub enum Probe {
    /// The address is free.
    Free,
    /// The address cannot be used, for this reason.
    Taken(String),
    /// Nothing was heard of the attempt.
    Lost,
}

/// The panel. While it has a relay running, it holds what stops it.
pub struct Panel<T> {
    shutdown: Option<T>,
}

impl<T> View for Panel<T> {
    type V = Option<T>;

    /// What stops the running relay.
    closed spec fn view(&self) -> Option<T> {
        self.shutdown
    }
}

/// Whether a panel that holds `running` may start a relay.
pub open spec fn may_start<T>(running: Option<T>) -> Result<(), Seq<char>> {
    match running {
        Some(_) => Err("relay already running"@),
        None => Ok(()),
    }
}

/// What trying out the address `bind` says about starting.
pub open spec fn probe_result(bind: Seq<char>, probe: Probe) -> Result<(), Seq<char>> {
    match probe {
        Probe::Free => Ok(()),
        Probe::Taken(cause) => Err(server::bind_error(bind, cause@)),
        Probe::Lost => Err("relay task failed to start"@),
    }
}

/// What a panel with nothing running holds after a probe.
pub open spec fn after_probe<T>(probe: Probe, shutdown: T) -> Option<T> {
    match probe {
        Probe::Free => Some(shutdown),
        _ => None,
    }
}

/// What stopping gives on a panel that holds `running`.
pub open spec fn stopped<T>(running: Option<T>) -> Result<T, Seq<char>> {
    match running {
        Some(shutdown) => Ok(shutdown),
        None => Err("relay not running"@),
    }
}

/// A result with the characters of its error.
pub open spec fn result_view<T>(r: Result<T, String>) -> Result<T, Seq<char>> {
    match r {
        Ok(t) => Ok(t),
        Err(e) => Err(e@),
    }
}

impl<T> Panel<T> {
    /// A panel with nothing running.
    pub fn new() -> (p: Self)
        ensures
            p@ is None,
    {
        Panel { shutdown: None }
    }

    /// Whether a relay may be started: not while one is running.
    pub fn start_relay(&self) -> (r: Result<(), String>)
        ensures
            result_view(r) == may_start(self@),
    {
        match self.shutdown {
            Some(_) => Err("relay already running".to_owned()),
            None => Ok(()),
        }
    }

    /// Takes up what trying out the address `bind` gave. Only where it is free
    /// is the relay running from now on, and `shutdown` stops it.
    pub fn relay_probed(&mut self, bind: &str, probe: Probe, shutdown: T) -> (r: Result<
        (),
        String,
    >)
        requires
            old(self)@ is None,
        ensures
            result_view(r) == probe_result(bind@, probe),
            final(self)@ == after_probe(probe, shutdown),
    {
        match probe {
            Probe::Free => {
                self.shutdown = Some(shutdown);
                Ok(())
            },
            Probe::Taken(cause) => Err(bind_error_text(bind, cause.as_str())),
            Probe::Lost => Err("relay task failed to start".to_owned()),
        }
    }

    /// Stops the running relay: hands out what stops it.
    pub fn stop_relay(&mut self) -> (r: Result<T, String>)
        ensures
            final(self)@ is None,
            result_view(r) == stopped(old(self)@),
    {
        match self.shutdown.take() {
            Some(shutdown) => Ok(shutdown),
            None => Err("relay not running".to_owned()),
        }
    }
}

// ---------------------------------------------------------------------------
// Laws
// ---------------------------------------------------------------------------

/// A relay that was started cannot be started again, and stopping it hands out
/// what it was started with. One whose start failed is not running, can be
/// started again, and cannot be stopped.
pub proof fn law_start_then_stop<T>(bind: Seq<char>, probe: Probe, shutdown: T)
    ensures
        ({
            let panel = after_probe(probe, shutdown);
            if probe_result(bind, probe) is Ok {
                &&& may_start(panel) is Err
                &&& stopped(panel) == Ok::<T, Seq<char>>(shutdown)
            } else {
                &&& may_start(panel) is Ok
                &&& stopped(panel) is Err
            }
        }),
{
}

/// Of starting and stopping, exactly one is possible at any time.
pub proof fn law_start_or_stop<T>(running: Option<T>)
    ensures
        may_start(running) is Ok <==> stopped(running) is Err,
{
}

/// What the user is told. A relay that runs cannot be started, one that does
/// not run cannot be stopped, and a start that fails says why.
pub proof fn law_what_the_user_is_told<T>(handle: T, bind: Seq<char>, cause: String, e: String)
    ensures
        may_start(Some(handle)) == Err::<(), Seq<char>>("relay already running"@),
        may_start(None::<T>) == Ok::<(), Seq<char>>(()),
        stopped(Some(handle)) == Ok::<T, Seq<char>>(handle),
        stopped(None::<T>) == Err::<T, Seq<char>>("relay not running"@),
        probe_result(bind, Probe::Free) == Ok::<(), Seq<char>>(()),
        probe_result(bind, Probe::Taken(cause)) == Err::<(), Seq<char>>(
            "bind "@ + bind + ": "@ + cause@,
        ),
        probe_result(bind, Probe::Lost) == Err::<(), Seq<char>>("relay task failed to start"@),
        result_view(Err::<T, String>(e)) == Err::<T, Seq<char>>(e@),
        result_view(Ok::<T, String>(handle)) == Ok::<T, Seq<char>>(handle),
{
}

/// Only a probe that finds the address free makes the relay run, and it is then
/// stopped with the very handle that it was started with.
pub proof fn law_handle_is_kept<T>(handle: T, cause: String)
    ensures
        after_probe(Probe::Free, handle) == Some(handle),
        after_probe(Probe::Taken(cause), handle) == None::<T>,
        after_probe(Probe::Lost, handle) == None::<T>,
{
}

} // verus!
