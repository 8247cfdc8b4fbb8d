//! What the daemon does on start-up and on each event.

use vstd::prelude::*;
use vstd::string::StringExecFns;

use crate::backends::IoErrorKind;
use crate::text::same_text;

verus! {

/// Something that wakes the daemon.
#[derive(Debug, Clone, Copy, PartialEq, Eq, Structural)]
pub enum DaemonEvent {
    /// The poll timer fired.
    PollTimer,
    /// A watched backend path changed.
    PathChanged,
    /// An operator request came in.
    Request,
    /// A signal asked the daemon to end.
    Signal,
}

/// Something that the daemon does.
#[derive(Debug, Clone, Copy, PartialEq, Eq, Structural)]
pub enum DaemonAction {
    /// Refresh the fleet, evaluate it and apply eligible work.
    Tick,
    /// Discover the VMs of all backends and reconcile the inventory.
    Rediscover,
    /// Serve the operator request.
    Serve,
    /// End.
    Stop,
}

/// What an event makes the daemon do, in order.
pub open spec fn actions_on(event: DaemonEvent) -> Seq<DaemonAction> {
    match event {
        DaemonEvent::PollTimer => seq![DaemonAction::Tick, DaemonAction::Rediscover],
        DaemonEvent::PathChanged => seq![DaemonAction::Rediscover],
        DaemonEvent::Request => seq![DaemonAction::Serve],
        DaemonEvent::Signal => seq![DaemonAction::Stop],
    }
}

/// What an event makes the daemon do, in order.
pub fn react(event: DaemonEvent) -> (r: Vec<DaemonAction>)
    ensures
        r@ == actions_on(event),
{
    let mut actions: Vec<DaemonAction> = Vec::new();
    match event {
        DaemonEvent::PollTimer => {
            actions.push(DaemonAction::Tick);
            actions.push(DaemonAction::Rediscover);
        },
        DaemonEvent::PathChanged => {
            actions.push(DaemonAction::Rediscover);
        },
        DaemonEvent::Request => {
            actions.push(DaemonAction::Serve);
        },
        DaemonEvent::Signal => {
            actions.push(DaemonAction::Stop);
        },
    }
    assert(actions@ =~= actions_on(event));
    actions
}

/// A path that a backend wants watched.
#[derive(Debug, Clone)]
pub struct WatchPath {
    /// The path.
    pub path: String,
    /// Whether it is a directory.
    pub is_dir: bool,
}

/// Whether a path is not a directory and those before it are.
pub open spec fn first_invalid(paths: Seq<WatchPath>, k: int) -> bool {
    &&& 0 <= k < paths.len()
    &&& !paths[k].is_dir
    &&& forall|i: int| 0 <= i < k ==> (#[trigger] paths[i]).is_dir
}

/// Check that every path to be watched is a directory; the error names the first
/// that is not.
pub fn check_watch_paths(paths: &Vec<WatchPath>) -> (r: Result<(), String>)
    ensures
        match r {
            Ok(_) => forall|i: int| 0 <= i < paths@.len() ==> (#[trigger] paths@[i]).is_dir,
            Err(text) => exists|k: int| #[trigger]
                first_invalid(paths@, k) && text@ == "backend watch path `"@ + paths@[k].path@
                    + "` is not a directory"@,
        },
{
    let mut i: usize = 0;
    while i < paths.len()
        invariant
            i <= paths.len(),
            forall|j: int| 0 <= j < i ==> (#[trigger] paths@[j]).is_dir,
        decreases paths.len() - i,
    {
        if !paths[i].is_dir {
            assert(first_invalid(paths@, i as int));
            return Err(
                "backend watch path `".to_owned().concat(paths[i].path.as_str()).concat(
                    "` is not a directory",
                ),
            );
        }
        i += 1;
    }
    Ok(())
}

/// Where the daemon's configuration comes from.
#[derive(Debug, Clone, Copy, PartialEq, Eq, Structural)]
pub enum ConfigSource {
    /// The file.
    File,
    /// The built-in defaults.
    Defaults,
    /// Nowhere: opening the file failed.
    Failure,
}

/// Load defaults only for an absent file; every other failure to open it counts.
pub fn load_daemon_config(opened: Result<(), IoErrorKind>) -> (r: ConfigSource)
    ensures
        r == match opened {
            Ok(_) => ConfigSource::File,
            Err(kind) => if kind == IoErrorKind::NotFound {
                ConfigSource::Defaults
            } else {
                ConfigSource::Failure
            },
        },
{
    match opened {
        Ok(_) => ConfigSource::File,
        Err(kind) => if kind == IoErrorKind::NotFound {
            ConfigSource::Defaults
        } else {
            ConfigSource::Failure
        },
    }
}

/// Whether a backend offers a subcommand by this name.
pub open spec fn offers(offered: Option<String>, name: Seq<char>) -> bool {
    match offered {
        Some(subcommand) => subcommand@ == name,
        None => false,
    }
}

/// The first backend whose subcommand has the name, or the complaint that there is
/// none. `offered` is the subcommand of each backend, if it has one.
pub fn find_cli_backend(offered: &Vec<Option<String>>, name: &str) -> (r: Result<usize, String>)
    ensures
        match r {
            Ok(k) => k < offered@.len() && offers(offered@[k as int], name@) && forall|i: int|
                0 <= i < k ==> !offers(#[trigger] offered@[i], name@),
            Err(text) => text@ == "no backend `"@ + name@ + "`"@ && forall|i: int|
                0 <= i < offered@.len() ==> !offers(#[trigger] offered@[i], name@),
        },
{
    let mut i: usize = 0;
    while i < offered.len()
        invariant
            i <= offered.len(),
            forall|j: int| 0 <= j < i ==> !offers(#[trigger] offered@[j], name@),
        decreases offered.len() - i,
    {
        let found: bool = match &offered[i] {
            Some(subcommand) => same_text(subcommand.as_str(), name),
            None => false,
        };
        if found {
            return Ok(i);
        }
        i += 1;
    }
    Err("no backend `".to_owned().concat(name).concat("`"))
}

// ---------------------------------------------------------------------
// Laws
// ---------------------------------------------------------------------

/// Only a signal ends the daemon, only a request is served, only the poll timer makes it tick,
/// and both the timer and a changed path have it discover the VMs anew, after any tick.
pub proof fn law_events_have_their_actions(event: DaemonEvent)
    ensures
        actions_on(event).contains(DaemonAction::Stop) <==> event is Signal,
        actions_on(event).contains(DaemonAction::Serve) <==> event is Request,
        actions_on(event).contains(DaemonAction::Tick) <==> event is PollTimer,
        actions_on(event).contains(DaemonAction::Rediscover) <==> event is PollTimer || event
            is PathChanged,
        actions_on(event).contains(DaemonAction::Rediscover) ==> actions_on(event).last()
            == DaemonAction::Rediscover,
        actions_on(event).no_duplicates(),
{
    let actions = actions_on(event);
    assert(actions[0] == actions.first());
    if event is PollTimer {
        assert(actions[1] == DaemonAction::Rediscover);
    }
}

/// Of several paths at most one is the first that is not a directory, and there is one unless
/// all of them are directories.
pub proof fn law_first_invalid_path_is_one(paths: Seq<WatchPath>, a: int, b: int)
    requires
        first_invalid(paths, a),
        first_invalid(paths, b),
    ensures
        a == b,
        0 <= a < paths.len(),
        !paths[a].is_dir,
{
    if a < b {
        assert(paths[a].is_dir);
    }
    if b < a {
        assert(paths[b].is_dir);
    }
}

} // verus!
