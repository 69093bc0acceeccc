//! Reloading configuration and plugins while the proxy runs.
//!
//! Any change in the directory of the configuration leads to a reload of the
//! whole. One save often shows as several changes, so a reload waits until
//! nothing has changed for a while. A reload that fails leaves everything as it
//! was.
use vstd::prelude::*;

use crate::config::Config;
use crate::plugin::{binary_module, file_fault, load_plugins, plugin_sources, PluginError};
use crate::proxy::{ProxySnapshot, ProxyState};
use crate::sandbox::bytes_in;

verus! {

/// How long nothing must change before a reload, in milliseconds.
pub const QUIET_PERIOD_MS: u64 = 200;

/// The directory to watch, given the parent of the configuration's path: the
/// current directory where there is none or it is empty.
pub fn watch_dir(parent: Option<&str>) -> (r: &str)
    ensures
        r@ == match parent {
            Some(dir) => if dir@.len() > 0 {
                dir@
            } else {
                "."@
            },
            None => "."@,
        },
{
    match parent {
        Some(dir) => if dir.is_empty() {
            "."
        } else {
            dir
        },
        None => ".",
    }
}

// ---------------------------------------------------------------------------
// Waiting for changes to settle
// ---------------------------------------------------------------------------
/// What the watcher waits for.
#[derive(Clone, Copy, Debug, PartialEq, Eq, Structural)]
pub enum WatchState {
    /// A change.
    Idle,
    /// The end of a run of changes.
    Settling,
}

/// What the watcher sees.
#[derive(Clone, Copy, Debug, PartialEq, Eq, Structural)]
pub enum WatchEvent {
    /// Something changed.
    Changed,
    /// Watching failed for once.
    Fault,
    /// Nothing happened for the quiet period.
    Quiet,
    /// Watching has ended.
    Closed,
}

/// What the watcher does.
#[derive(Clone, Copy, Debug, PartialEq, Eq, Structural)]
pub enum WatchAction {
    /// Wait for the next event, however long it takes.
    Wait,
    /// Wait for the next event, for the quiet period.
    WaitForQuiet,
    /// Reload, then wait for the next event.
    Reload,
    /// Stop.
    Stop,
}

impl WatchState {
    /// The state after an event.
    pub open spec fn after(self, event: WatchEvent) -> WatchState {
        match (self, event) {
            (WatchState::Idle, WatchEvent::Changed) => WatchState::Settling,
            (WatchState::Settling, WatchEvent::Changed | WatchEvent::Fault) => WatchState::Settling,
            _ => WatchState::Idle,
        }
    }

    /// What is done on an event.
    pub open spec fn action(self, event: WatchEvent) -> WatchAction {
        match (self, event) {
            (WatchState::Idle, WatchEvent::Closed) => WatchAction::Stop,
            (WatchState::Settling, WatchEvent::Quiet | WatchEvent::Closed) => WatchAction::Reload,
            _ => if self.after(event) == WatchState::Settling {
                WatchAction::WaitForQuiet
            } else {
                WatchAction::Wait
            },
        }
    }

    /// Takes an event: moves on and says what to do. A change starts the wait
    /// for quiet; whatever arrives meanwhile prolongs it; quiet, or the end of
    /// watching, leads to a reload.
    pub fn watch(self, event: WatchEvent) -> (r: (WatchState, WatchAction))
        ensures
            r.0 == self.after(event),
            r.1 == self.action(event),
    {
        match self {
            WatchState::Idle => match event {
                WatchEvent::Changed => (WatchState::Settling, WatchAction::WaitForQuiet),
                WatchEvent::Fault | WatchEvent::Quiet => (WatchState::Idle, WatchAction::Wait),
                WatchEvent::Closed => (WatchState::Idle, WatchAction::Stop),
            },
            WatchState::Settling => match event {
                WatchEvent::Changed | WatchEvent::Fault => (
                    WatchState::Settling,
                    WatchAction::WaitForQuiet,
                ),
                WatchEvent::Quiet | WatchEvent::Closed => (WatchState::Idle, WatchAction::Reload),
            },
        }
    }

    /// The state after several events.
    pub open spec fn after_all(self, events: Seq<WatchEvent>) -> WatchState
        decreases events.len(),
    {
        if events.len() == 0 {
            self
        } else {
            self.after_all(events.drop_last()).after(events.last())
        }
    }

    /// How many reloads several events lead to.
    pub open spec fn reloads(self, events: Seq<WatchEvent>) -> nat
        decreases events.len(),
    {
        if events.len() == 0 {
            0
        } else {
            self.reloads(events.drop_last()) + if self.after_all(events.drop_last()).action(
                events.last(),
            ) == WatchAction::Reload {
                1nat
            } else {
                0nat
            }
        }
    }
}

/// A run of changes and faults that begins with a change keeps the watcher
/// settling and leads to no reload.
proof fn lemma_run_settles(run: Seq<WatchEvent>)
    requires
        run.len() > 0,
        run[0] == WatchEvent::Changed,
        forall|i: int|
            0 <= i < run.len() ==> #[trigger] run[i] == WatchEvent::Changed || run[i]
                == WatchEvent::Fault,
    ensures
        WatchState::Idle.after_all(run) == WatchState::Settling,
        WatchState::Idle.reloads(run) == 0,
    decreases run.len(),
{
    let front = run.drop_last();
    if front.len() > 0 {
        assert forall|i: int| 0 <= i < front.len() implies #[trigger] front[i]
            == WatchEvent::Changed || front[i] == WatchEvent::Fault by {
            assert(front[i] == run[i]);
        }
        lemma_run_settles(front);
        assert(run[run.len() - 1] == WatchEvent::Changed || run[run.len() - 1]
            == WatchEvent::Fault);
    } else {
        assert(WatchState::Idle.after_all(front) == WatchState::Idle);
        assert(WatchState::Idle.reloads(front) == 0);
    }
}

/// A run of changes, however long, leads to one reload once it has settled, and
/// to none before.
pub proof fn law_a_burst_reloads_once(run: Seq<WatchEvent>)
    requires
        run.len() > 0,
        run[0] == WatchEvent::Changed,
        forall|i: int|
            0 <= i < run.len() ==> #[trigger] run[i] == WatchEvent::Changed || run[i]
                == WatchEvent::Fault,
    ensures
        WatchState::Idle.reloads(run) == 0,
        WatchState::Idle.reloads(run.push(WatchEvent::Quiet)) == 1,
        WatchState::Idle.after_all(run.push(WatchEvent::Quiet)) == WatchState::Idle,
{
    lemma_run_settles(run);
    assert(run.push(WatchEvent::Quiet).drop_last() =~= run);
}

/// Nothing is reloaded where nothing changed.
pub proof fn law_no_change_no_reload(events: Seq<WatchEvent>)
    requires
        forall|i: int| 0 <= i < events.len() ==> #[trigger] events[i] != WatchEvent::Changed,
    ensures
        WatchState::Idle.after_all(events) == WatchState::Idle,
        WatchState::Idle.reloads(events) == 0,
    decreases events.len(),
{
    if events.len() > 0 {
        let front = events.drop_last();
        assert forall|i: int| 0 <= i < front.len() implies #[trigger] front[i]
            != WatchEvent::Changed by {
            assert(front[i] == events[i]);
        }
        law_no_change_no_reload(front);
        assert(events[events.len() - 1] != WatchEvent::Changed);
    }
}

// ---------------------------------------------------------------------------
// Reloading
// ---------------------------------------------------------------------------
/// What a reload came to.
#[derive(Clone, Copy, Debug, PartialEq, Eq, Structural)]
pub enum ReloadOutcome {
    /// The new configuration and the new plugins are active.
    Reloaded { routes: usize, plugins: usize },
    /// There is no valid new configuration; the old state stays.
    ConfigRejected,
    /// A plugin could not be loaded; the old state stays.
    PluginRejected(PluginError),
}

/// Whether the plugins of a snapshot are those that its configuration names, as
/// they were read.
pub open spec fn holds_named_plugins(
    snapshot: ProxySnapshot,
    contents: Seq<Option<Vec<u8>>>,
) -> bool {
    let paths = snapshot.config.plugins@;
    &&& snapshot.plugins@.len() == paths.len()
    &&& paths.len() <= contents.len()
    &&& forall|i: int|
        0 <= i < paths.len() ==> {
            &&& (#[trigger] snapshot.plugins@[i]).path() == paths[i]@
            &&& contents[i] matches Some(code)
            &&& file_fault(paths[i]@, Some(code@)) is None
            &&& binary_module(paths[i]@, code@) == Some(snapshot.plugins@[i].code())
        }
}

/// Why the plugin at a position cannot be loaded, if so.
pub open spec fn fault_at(
    paths: Seq<String>,
    contents: Seq<Option<Vec<u8>>>,
    i: int,
) -> Option<PluginError> {
    file_fault(
        paths[i]@,
        if i < contents.len() {
            bytes_in(contents[i])
        } else {
            None
        },
    )
}

/// Makes a new configuration and the plugins that it names active, both or
/// neither. `config` is `None` where the configuration could not be loaded;
/// `contents` is what was read of its plugins, in order.
pub fn reload(
    state: &mut ProxyState,
    config: Option<Config>,
    contents: &Vec<Option<Vec<u8>>>,
) -> (r: ReloadOutcome)
    ensures
        final(state).metrics == old(state).metrics,
        old(state).snapshot.config.valid() && (config matches Some(c) ==> c.valid())
            ==> final(state).snapshot.config.valid(),
        match r {
            ReloadOutcome::Reloaded { routes, plugins } => {
                &&& config is Some
                &&& final(state).snapshot.config == config->0
                &&& holds_named_plugins(*final(state).snapshot, contents@)
                &&& routes == config->0.routes@.len()
                &&& plugins == config->0.plugins@.len()
            },
            ReloadOutcome::ConfigRejected => config is None && *final(state) == *old(state),
            ReloadOutcome::PluginRejected(e) => {
                &&& config is Some
                &&& *final(state) == *old(state)
                &&& exists|k: int|
                    {
                        &&& 0 <= k < config->0.plugins@.len()
                        &&& #[trigger] fault_at(config->0.plugins@, contents@, k) == Some(e)
                        &&& forall|i: int|
                            0 <= i < k ==> #[trigger] fault_at(
                                config->0.plugins@,
                                contents@,
                                i,
                            ) is None
                    }
            },
        },
{
    let new_config = match config {
        Some(config) => config,
        None => {
            return ReloadOutcome::ConfigRejected;
        },
    };
    let ghost named = new_config.plugins@;
    let sources = plugin_sources(&new_config.plugins, contents);
    assert forall|i: int| 0 <= i < sources@.len() implies #[trigger] fault_at(
        named,
        contents@,
        i,
    ) == sources@[i].fault() by {
        assert(sources@[i].path@ == named[i]@);
        assert(bytes_in(sources@[i].code) == (if i < contents@.len() {
            bytes_in(contents@[i])
        } else {
            None
        }));
    }
    match load_plugins(&sources) {
        Ok(new_plugins) => {
            let routes: usize = new_config.routes.len();
            let plugins: usize = new_plugins.len();
            state.replace_snapshot(ProxySnapshot { config: new_config, plugins: new_plugins });
            proof {
                let snapshot = *state.snapshot;
                let paths = snapshot.config.plugins@;
                assert forall|i: int| 0 <= i < paths.len() implies i < contents@.len() && {
                    &&& (#[trigger] snapshot.plugins@[i]).path() == paths[i]@
                    &&& contents@[i] matches Some(code)
                    &&& file_fault(paths[i]@, Some(code@)) is None
                    &&& binary_module(paths[i]@, code@) == Some(snapshot.plugins@[i].code())
                } by {
                    assert(sources@[i].fault() is None);
                    assert(sources@[i].path@ == named[i]@);
                    assert(new_plugins@[i].loaded_from(sources@[i]));
                }
                if paths.len() > 0 {
                    assert(snapshot.plugins@[paths.len() - 1].path() == paths[paths.len() - 1]@);
                }
            }
            ReloadOutcome::Reloaded { routes, plugins }
        },
        Err(e) => {
            proof {
                let k = choose|k: int|
                    {
                        &&& 0 <= k < sources@.len()
                        &&& (#[trigger] sources@[k]).fault() == Some(e)
                        &&& forall|i: int| 0 <= i < k ==> (#[trigger] sources@[i]).fault() is None
                    };
                assert(fault_at(named, contents@, k) == Some(e));
                assert forall|i: int| 0 <= i < k implies #[trigger] fault_at(
                    named,
                    contents@,
                    i,
                ) is None by {
                    assert(sources@[i].fault() is None);
                }
            }
            ReloadOutcome::PluginRejected(e)
        },
    }
}

} // verus!
