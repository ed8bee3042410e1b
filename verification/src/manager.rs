//! The model servers: how each is started, which of them run, and when one is stopped.
//!
//! The manager decides; its caller spawns, probes and kills. A moment is given in nanoseconds
//! since some fixed start.
use crate::config;
use crate::config::{ExeLookup, ModelEntry};
use crate::text;
use std::collections::HashMap;
use vstd::prelude::*;
use vstd::string::*;

verus! {

broadcast use vstd::std_specs::hash::group_hash_axioms;

// ── The command of a server ─────────────────────────────────────────────────

/// Whether `arg` is a flag that the manager sets itself, or that would stop a server behind its
/// back. A value follows each.
pub open spec fn own_flag(arg: Seq<char>) -> bool {
    arg == "--port"@ || arg == "--host"@ || arg == "--sleep-idle-seconds"@
}

/// The configured arguments, without the manager's own flags and their values.
pub open spec fn kept_args(args: Seq<Seq<char>>) -> Seq<Seq<char>>
    decreases args.len(),
{
    if args.len() == 0 {
        seq![]
    } else if own_flag(args[0]) {
        if args.len() == 1 {
            seq![]
        } else {
            kept_args(args.skip(2))
        }
    } else {
        seq![args[0]] + kept_args(args.drop_first())
    }
}

/// The arguments that a server is started with: what is kept, then its port and its host.
pub open spec fn launch_args(args: Seq<Seq<char>>, port: u16) -> Seq<Seq<char>> {
    kept_args(args) + seq!["--port"@, text::decimal(port as nat), "--host"@, "0.0.0.0"@]
}

/// The program and the arguments of a server.
pub open spec fn command_of(m: config::ModelView, lookup: ExeLookup) -> (
    Seq<char>,
    Seq<Seq<char>>,
) {
    (config::resolved_exe(m.executable, lookup), launch_args(m.arguments, m.port))
}

/// The commands of all servers, by port; of two models with one port the later counts.
pub open spec fn command_table(models: Seq<config::ModelView>, lookups: Seq<ExeLookup>) -> Map<
    u16,
    (Seq<char>, Seq<Seq<char>>),
>
    decreases models.len(),
{
    if models.len() == 0 {
        Map::empty()
    } else {
        command_table(models.drop_last(), lookups.drop_last()).insert(
            models.last().port,
            command_of(models.last(), lookups.last()),
        )
    }
}

/// Whether `arg` is a flag that the manager sets itself.
fn is_own_flag(arg: &str) -> (res: bool)
    ensures
        res == own_flag(arg@),
{
    text::same_text(arg, "--port") || text::same_text(arg, "--host") || text::same_text(
        arg,
        "--sleep-idle-seconds",
    )
}

/// The arguments that a server is started with.
pub fn build_args(args: &[String], port: u16) -> (res: Vec<String>)
    ensures
        config::texts(res@) == launch_args(config::texts(args@), port),
{
    let mut res: Vec<String> = Vec::new();
    let mut i: usize = 0;
    let ghost all = config::texts(args@);
    assert(all.skip(0) == all);
    assert(config::texts(res@) + kept_args(all) == kept_args(all));
    while i < args.len()
        invariant
            i <= args.len(),
            all == config::texts(args@),
            kept_args(all) == config::texts(res@) + kept_args(all.skip(i as int)),
        decreases args.len() - i,
    {
        let ghost rest = all.skip(i as int);
        assert(rest[0] == args@[i as int]@);
        if is_own_flag(args[i].as_str()) {
            if args.len() - i == 1 {
                assert(all.skip(i + 1).len() == 0);
                i += 1;
            } else {
                assert(rest.skip(2) == all.skip(i + 2));
                i += 2;
            }
        } else {
            let arg = args[i].clone();
            assert(rest.drop_first() == all.skip(i + 1));
            assert(config::texts(res@.push(arg)) == config::texts(res@).push(arg@));
            assert(config::texts(res@) + (seq![arg@] + kept_args(all.skip(i + 1)))
                == config::texts(res@).push(arg@) + kept_args(all.skip(i + 1)));
            res.push(arg);
            i += 1;
        }
    }
    assert(all.skip(i as int).len() == 0);
    assert(config::texts(res@) == kept_args(all));
    res.push("--port".to_string());
    res.push(text::decimal_string(port as u64));
    res.push("--host".to_string());
    res.push("0.0.0.0".to_string());
    assert(config::texts(res@) =~= launch_args(all, port));
    res
}

// ── The manager ─────────────────────────────────────────────────────────────

/// How many times a started server is probed before it is given up.
pub const START_TRIES: u32 = 120;

/// Nanoseconds in a second.
pub const NANOS: u128 = 1_000_000_000;

/// Which servers run, when each was last used, and how each is started.
pub struct ProcessManager {
    procs: HashMap<u16, u128>,
    cmd_cache: HashMap<u16, (String, Vec<String>)>,
    idle_timeout: u64,
}

/// What happened on the way to starting a server.
pub enum StartEvent {
    /// A start was asked for.
    Requested,
    /// The process was spawned.
    Spawned,
    /// The process could not be spawned.
    SpawnFailed(String),
    /// The port was probed, after so many earlier probes.
    Probed { tries: u32, alive: bool },
    /// The pause after that probe is over.
    Paused { tries: u32 },
}

/// What to do next to start a server.
pub enum StartAction {
    /// Spawn this process.
    Spawn { exe: String, args: Vec<String> },
    /// Probe the port.
    Probe { tries: u32 },
    /// Wait a second.
    Pause { tries: u32 },
    /// Nothing: this is how it went.
    Done(Result<(), String>),
}

/// What a `StartEvent` says.
pub enum StartEventView {
    Requested,
    Spawned,
    SpawnFailed(Seq<char>),
    Probed { tries: u32, alive: bool },
    Paused { tries: u32 },
}

/// What a `StartAction` says.
pub enum StartActionView {
    Spawn { exe: Seq<char>, args: Seq<Seq<char>> },
    Probe { tries: u32 },
    Pause { tries: u32 },
    Done(Result<(), Seq<char>>),
}

impl DeepView for StartEvent {
    type V = StartEventView;

    open spec fn deep_view(&self) -> StartEventView {
        match self {
            StartEvent::Requested => StartEventView::Requested,
            StartEvent::Spawned => StartEventView::Spawned,
            StartEvent::SpawnFailed(e) => StartEventView::SpawnFailed(e@),
            StartEvent::Probed { tries, alive } => StartEventView::Probed {
                tries: *tries,
                alive: *alive,
            },
            StartEvent::Paused { tries } => StartEventView::Paused { tries: *tries },
        }
    }
}

impl DeepView for StartAction {
    type V = StartActionView;

    open spec fn deep_view(&self) -> StartActionView {
        match self {
            StartAction::Spawn { exe, args } => StartActionView::Spawn {
                exe: exe@,
                args: config::texts(args@),
            },
            StartAction::Probe { tries } => StartActionView::Probe { tries: *tries },
            StartAction::Pause { tries } => StartActionView::Pause { tries: *tries },
            StartAction::Done(Ok(())) => StartActionView::Done(Ok(())),
            StartAction::Done(Err(e)) => StartActionView::Done(Err(e@)),
        }
    }
}

/// What to do next to start the server on `port`.
pub open spec fn start_action(
    running: Map<u16, u128>,
    commands: Map<u16, (Seq<char>, Seq<Seq<char>>)>,
    port: u16,
    event: StartEventView,
) -> StartActionView {
    match event {
        StartEventView::Requested => if running.contains_key(port) {
            StartActionView::Done(Ok(()))
        } else if commands.contains_key(port) {
            StartActionView::Spawn { exe: commands[port].0, args: commands[port].1 }
        } else {
            StartActionView::Done(Err("No config for port "@ + text::decimal(port as nat)))
        },
        StartEventView::Spawned => StartActionView::Probe { tries: 0 },
        StartEventView::SpawnFailed(e) => StartActionView::Done(
            Err("Spawn "@ + text::decimal(port as nat) + ": "@ + e),
        ),
        StartEventView::Probed { tries, alive } => if alive {
            StartActionView::Done(Ok(()))
        } else {
            StartActionView::Pause { tries }
        },
        StartEventView::Paused { tries } => if tries + 1 < START_TRIES {
            StartActionView::Probe { tries: (tries + 1) as u32 }
        } else {
            StartActionView::Done(
                Err("Timeout waiting for port "@ + text::decimal(port as nat)),
            )
        },
    }
}

/// Which servers run after that, and since when each is unused: one that was asked for while it
/// runs is in use now, and so is one that was spawned now.
pub open spec fn start_running(
    running: Map<u16, u128>,
    port: u16,
    event: StartEventView,
    now: u128,
) -> Map<u16, u128> {
    match event {
        StartEventView::Requested => touched(running, port, now),
        StartEventView::Spawned => running.insert(port, now),
        _ => running,
    }
}

/// What happened on the way to stopping a server.
pub enum StopEvent {
    /// A stop was asked for.
    Requested,
    /// The process that listens on the port was looked for, by the process `own_pid`.
    Owner { found: Option<u32>, own_pid: u32 },
    /// That process was told to end.
    Killed { pid: u32, outcome: Result<(), String> },
}

/// What to do next to stop a server.
pub enum StopAction {
    /// Kill the process that was started for the port; the stop is then done, with this message.
    KillTracked { message: String },
    /// Find out which process listens on the port.
    FindOwner,
    /// Kill that process.
    KillOwner { pid: u32 },
    /// Nothing: this is how it went.
    Done(Result<String, String>),
}

/// What a `StopEvent` says.
pub enum StopEventView {
    Requested,
    Owner { found: Option<u32>, own_pid: u32 },
    Killed { pid: u32, outcome: Result<(), Seq<char>> },
}

/// What a `StopAction` says.
pub enum StopActionView {
    KillTracked { message: Seq<char> },
    FindOwner,
    KillOwner { pid: u32 },
    Done(Result<Seq<char>, Seq<char>>),
}

impl DeepView for StopEvent {
    type V = StopEventView;

    open spec fn deep_view(&self) -> StopEventView {
        match self {
            StopEvent::Requested => StopEventView::Requested,
            StopEvent::Owner { found, own_pid } => StopEventView::Owner {
                found: *found,
                own_pid: *own_pid,
            },
            StopEvent::Killed { pid, outcome } => StopEventView::Killed {
                pid: *pid,
                outcome: match outcome {
                    Ok(()) => Ok(()),
                    Err(e) => Err(e@),
                },
            },
        }
    }
}

impl DeepView for StopAction {
    type V = StopActionView;

    open spec fn deep_view(&self) -> StopActionView {
        match self {
            StopAction::KillTracked { message } => StopActionView::KillTracked {
                message: message@,
            },
            StopAction::FindOwner => StopActionView::FindOwner,
            StopAction::KillOwner { pid } => StopActionView::KillOwner { pid: *pid },
            StopAction::Done(Ok(message)) => StopActionView::Done(Ok(message@)),
            StopAction::Done(Err(message)) => StopActionView::Done(Err(message@)),
        }
    }
}

/// What to do next to stop the server on `port`: a server that was started here is killed; for
/// another, the process that listens on the port is, unless it is this one.
pub open spec fn stop_action(
    running: Map<u16, u128>,
    port: u16,
    event: StopEventView,
) -> StopActionView {
    let p = text::decimal(port as nat);
    match event {
        StopEventView::Requested => if running.contains_key(port) {
            StopActionView::KillTracked { message: "Stopped port "@ + p }
        } else {
            StopActionView::FindOwner
        },
        StopEventView::Owner { found: None, .. } => StopActionView::Done(
            Err("Port "@ + p + " not running"@),
        ),
        StopEventView::Owner { found: Some(pid), own_pid } => if pid == own_pid {
            StopActionView::Done(
                Err("Port "@ + p + " is owned by the current process but is not tracked"@),
            )
        } else {
            StopActionView::KillOwner { pid }
        },
        StopEventView::Killed { pid, outcome: Ok(()) } => StopActionView::Done(
            Ok("Killed external process "@ + text::decimal(pid as nat) + " on port "@ + p),
        ),
        StopEventView::Killed { pid, outcome: Err(e) } => StopActionView::Done(
            Err("Port "@ + p + " owner PID "@ + text::decimal(pid as nat) + ": "@ + e),
        ),
    }
}

/// Which servers run after that: one that was asked to stop does not.
pub open spec fn stop_running(
    running: Map<u16, u128>,
    port: u16,
    event: StopEventView,
) -> Map<u16, u128> {
    match event {
        StopEventView::Requested => running.remove(port),
        _ => running,
    }
}

/// The servers that run, that on `port` used now, if it runs.
pub open spec fn touched(running: Map<u16, u128>, port: u16, now: u128) -> Map<u16, u128> {
    if running.contains_key(port) {
        running.insert(port, now)
    } else {
        running
    }
}

/// Whether a server is idle: unused for longer than the timeout. Without a timeout none is.
pub open spec fn is_idle(last: u128, idle_secs: u64, now: u128) -> bool {
    idle_secs > 0 && now - last > idle_secs * NANOS
}

/// The servers that run and are not idle.
pub open spec fn awake(running: Map<u16, u128>, idle_secs: u64, now: u128) -> Map<u16, u128> {
    Map::new(
        |p: u16| running.contains_key(p) && !is_idle(running[p], idle_secs, now),
        |p: u16| running[p],
    )
}

impl ProcessManager {
    /// The servers that run, by port, each with the moment at which it was last used.
    pub closed spec fn running(&self) -> Map<u16, u128> {
        self.procs@
    }

    /// The command of each server, by port.
    pub closed spec fn commands(&self) -> Map<u16, (Seq<char>, Seq<Seq<char>>)> {
        self.cmd_cache@.map_values(|c: (String, Vec<String>)| (c.0@, config::texts(c.1@)))
    }

    /// The idle timeout in seconds; 0 is none.
    pub closed spec fn idle_secs(&self) -> u64 {
        self.idle_timeout
    }

    /// Whether only servers run whose command is known.
    pub open spec fn wf(&self) -> bool {
        self.running().dom().subset_of(self.commands().dom())
    }

    /// A manager for `models`, none of whose servers runs; `lookups` says for each model what was
    /// found of its executable.
    pub fn new(idle_secs: u64, models: &Vec<ModelEntry>, lookups: &Vec<ExeLookup>) -> (pm: Self)
        requires
            lookups.len() == models.len(),
        ensures
            pm.wf(),
            pm.running() == Map::<u16, u128>::empty(),
            pm.commands() == command_table(models.deep_view(), lookups@),
            pm.idle_secs() == idle_secs,
    {
        let mut cmd_cache: HashMap<u16, (String, Vec<String>)> = HashMap::new();
        let ghost all = models.deep_view();
        let ghost view = |c: (String, Vec<String>)| (c.0@, config::texts(c.1@));
        let mut i: usize = 0;
        assert(all.take(0).len() == 0);
        assert(cmd_cache@.map_values(view) =~= Map::<u16, (Seq<char>, Seq<Seq<char>>)>::empty());
        while i < models.len()
            invariant
                i <= models.len(),
                lookups.len() == models.len(),
                all == models.deep_view(),
                view == |c: (String, Vec<String>)| (c.0@, config::texts(c.1@)),
                cmd_cache@.map_values(view) == command_table(
                    all.take(i as int),
                    lookups@.take(i as int),
                ),
            decreases models.len() - i,
        {
            let m = &models[i];
            assert(all[i as int] == m.deep_view());
            assert(m.arguments.deep_view() =~= config::texts(m.arguments@));
            let exe = config::resolve_exe(m.executable.as_str(), &lookups[i]);
            let args = build_args(m.arguments.as_slice(), m.port);
            let ghost before = cmd_cache@;
            let command = (exe, args);
            let _ = cmd_cache.insert(m.port, command);
            proof {
                assert(all.take(i + 1).drop_last() == all.take(i as int));
                assert(lookups@.take(i + 1).drop_last() == lookups@.take(i as int));
                assert(before.insert(m.port, command).map_values(view) =~= before.map_values(
                    view,
                ).insert(m.port, view(command)));
            }
            i += 1;
        }
        assert(all.take(all.len() as int) == all);
        assert(lookups@.take(lookups@.len() as int) == lookups@);
        ProcessManager { procs: HashMap::new(), cmd_cache, idle_timeout: idle_secs }
    }

    /// Whether the server on `port` runs.
    pub fn is_running(&self, port: u16) -> (res: bool)
        ensures
            res == self.running().contains_key(port),
    {
        self.procs.contains_key(&port)
    }

    /// The server on `port`, if it runs, is used now.
    pub fn touch(&mut self, port: u16, now: u128)
        ensures
            final(self).running() == touched(old(self).running(), port, now),
            final(self).commands() == old(self).commands(),
            final(self).idle_secs() == old(self).idle_secs(),
            old(self).wf() ==> final(self).wf(),
    {
        if self.procs.contains_key(&port) {
            let _ = self.procs.insert(port, now);
        }
        assert(self.commands() == old(self).commands());
    }

    /// The next step of starting the server on `port`.
    pub fn start(&mut self, port: u16, event: StartEvent, now: u128) -> (action: StartAction)
        ensures
            action.deep_view() == start_action(
                old(self).running(),
                old(self).commands(),
                port,
                event.deep_view(),
            ),
            final(self).running() == start_running(
                old(self).running(),
                port,
                event.deep_view(),
                now,
            ),
            final(self).commands() == old(self).commands(),
            final(self).idle_secs() == old(self).idle_secs(),
            old(self).wf() && (event is Spawned ==> old(self).commands().contains_key(port))
                ==> final(self).wf(),
    {
        match event {
            StartEvent::Requested => {
                if self.is_running(port) {
                    self.touch(port, now);
                    return StartAction::Done(Ok(()));
                }
                match self.cmd_cache.get(&port) {
                    Some(command) => {
                        let exe = command.0.clone();
                        let args = copy_texts(&command.1);
                        assert(self.commands()[port] == (command.0@, config::texts(command.1@)));
                        StartAction::Spawn { exe, args }
                    },
                    None => {
                        let message = "No config for port ".to_string().concat(
                            text::decimal_string(port as u64).as_str(),
                        );
                        StartAction::Done(Err(message))
                    },
                }
            },
            StartEvent::Spawned => {
                let _ = self.procs.insert(port, now);
                assert(self.commands() == old(self).commands());
                StartAction::Probe { tries: 0 }
            },
            StartEvent::SpawnFailed(e) => {
                let message = "Spawn ".to_string().concat(
                    text::decimal_string(port as u64).as_str(),
                ).concat(": ").concat(e.as_str());
                StartAction::Done(Err(message))
            },
            StartEvent::Probed { tries, alive } => {
                if alive {
                    StartAction::Done(Ok(()))
                } else {
                    StartAction::Pause { tries }
                }
            },
            StartEvent::Paused { tries } => {
                if tries < START_TRIES - 1 {
                    StartAction::Probe { tries: tries + 1 }
                } else {
                    let message = "Timeout waiting for port ".to_string().concat(
                        text::decimal_string(port as u64).as_str(),
                    );
                    StartAction::Done(Err(message))
                }
            },
        }
    }

    /// The next step of stopping the server on `port`.
    pub fn stop(&mut self, port: u16, event: StopEvent) -> (action: StopAction)
        ensures
            action.deep_view() == stop_action(old(self).running(), port, event.deep_view()),
            final(self).running() == stop_running(old(self).running(), port, event.deep_view()),
            final(self).commands() == old(self).commands(),
            final(self).idle_secs() == old(self).idle_secs(),
            old(self).wf() ==> final(self).wf(),
    {
        match event {
            StopEvent::Requested => {
                if self.is_running(port) {
                    let _ = self.procs.remove(&port);
                    assert(self.running() =~= old(self).running().remove(port));
                    assert(self.commands() == old(self).commands());
                    let message = "Stopped port ".to_string().concat(
                        text::decimal_string(port as u64).as_str(),
                    );
                    StopAction::KillTracked { message }
                } else {
                    assert(self.running() =~= old(self).running().remove(port));
                    StopAction::FindOwner
                }
            },
            StopEvent::Owner { found, own_pid } => {
                match found {
                    None => {
                        let message = "Port ".to_string().concat(
                            text::decimal_string(port as u64).as_str(),
                        ).concat(" not running");
                        StopAction::Done(Err(message))
                    },
                    Some(pid) => {
                        if pid == own_pid {
                            let message = "Port ".to_string().concat(
                                text::decimal_string(port as u64).as_str(),
                            ).concat(" is owned by the current process but is not tracked");
                            StopAction::Done(Err(message))
                        } else {
                            StopAction::KillOwner { pid }
                        }
                    },
                }
            },
            StopEvent::Killed { pid, outcome } => {
                match outcome {
                    Ok(()) => {
                        let message = "Killed external process ".to_string().concat(
                            text::decimal_string(pid as u64).as_str(),
                        ).concat(" on port ").concat(text::decimal_string(port as u64).as_str());
                        StopAction::Done(Ok(message))
                    },
                    Err(e) => {
                        let message = "Port ".to_string().concat(
                            text::decimal_string(port as u64).as_str(),
                        ).concat(" owner PID ").concat(
                            text::decimal_string(pid as u64).as_str(),
                        ).concat(": ").concat(e.as_str());
                        StopAction::Done(Err(message))
                    },
                }
            },
        }
    }

    /// The ports of the servers that run, in no particular order.
    pub fn running_ports(&self) -> (ports: Vec<u16>)
        ensures
            ports@.no_duplicates(),
            forall|p: u16| ports@.contains(p) <==> self.running().contains_key(p),
    {
        let mut ports: Vec<u16> = Vec::new();
        let ghost keys = vstd::std_specs::iter::IteratorSpec::remaining(
            &vstd::std_specs::hash::spec_keys_iter(&self.procs),
        );
        for port in it: self.procs.keys()
            invariant
                it.seq() == keys,
                ports.len() == it.index(),
                forall|i: int| 0 <= i < ports.len() ==> ports@[i] == *(#[trigger] keys[i]),
        {
            ports.push(*port);
        }
        proof {
            assert(ports@ =~= keys.unref());
            assert forall|i: int, j: int|
                0 <= i < ports.len() && 0 <= j < ports.len() && i != j implies ports@[i]
                != ports@[j] by {
                assert(keys[i] != keys[j]);
            }
            assert forall|p: u16| ports@.contains(p) <==> self.running().contains_key(p) by {
                assert(ports@.to_set().contains(p) <==> self.procs@.dom().contains(p));
            }
        }
        ports
    }

    /// Forgets the idle servers and tells their ports, for their processes to be killed.
    pub fn stop_idle(&mut self, now: u128) -> (idle: Vec<u16>)
        ensures
            idle@.no_duplicates(),
            forall|p: u16|
                idle@.contains(p) <==> old(self).running().contains_key(p) && is_idle(
                    old(self).running()[p],
                    old(self).idle_secs(),
                    now,
                ),
            final(self).running() == awake(old(self).running(), old(self).idle_secs(), now),
            final(self).commands() == old(self).commands(),
            final(self).idle_secs() == old(self).idle_secs(),
            old(self).wf() ==> final(self).wf(),
    {
        let mut idle: Vec<u16> = Vec::new();
        if self.idle_timeout == 0 {
            assert(self.running() =~= awake(self.running(), 0, now));
            return idle;
        }
        let ports = self.running_ports();
        let limit: u128 = self.idle_timeout as u128 * NANOS;
        let ghost before = self.procs@;
        let ghost secs = self.idle_timeout;
        let mut i: usize = 0;
        while i < ports.len()
            invariant
                i <= ports.len(),
                secs > 0,
                secs == self.idle_timeout,
                limit == secs * NANOS,
                ports@.no_duplicates(),
                forall|p: u16| ports@.contains(p) <==> before.contains_key(p),
                self.commands() == old(self).commands(),
                idle@.no_duplicates(),
                forall|p: u16| #[trigger]
                    idle@.contains(p) <==> ports@.take(i as int).contains(p) && is_idle(
                        before[p],
                        secs,
                        now,
                    ),
                forall|p: u16| #[trigger]
                    self.procs@.contains_key(p) <==> before.contains_key(p) && !idle@.contains(p),
                forall|p: u16| #[trigger]
                    self.procs@.contains_key(p) ==> self.procs@[p] == before[p],
            decreases ports.len() - i,
        {
            let port = ports[i];
            let ghost seen = ports@.take(i as int);
            assert(ports@.contains(port));
            assert(!seen.contains(port)) by {
                if seen.contains(port) {
                    let k = choose|k: int| 0 <= k < seen.len() && seen[k] == port;
                    assert(ports@[k] == ports@[i as int]);
                }
            }
            assert(ports@.take(i + 1) == seen.push(port));
            let ghost idle_before = idle@;
            assert(!idle@.contains(port));
            assert(self.procs@.contains_key(port));
            let last: u128 = match self.procs.get(&port) {
                Some(t) => *t,
                None => now,
            };
            assert(last == before[port]);
            if now > last && now - last > limit {
                assert forall|p: u16| #[trigger]
                    idle@.push(port).contains(p) <==> idle@.contains(p) || p == port by {
                    lemma_push_contains(idle@, port, p);
                }
                let _ = self.procs.remove(&port);
                idle.push(port);
                assert(self.commands() == old(self).commands());
            }
            assert forall|p: u16| #[trigger]
                idle@.contains(p) <==> ports@.take(i + 1).contains(p) && is_idle(
                    before[p],
                    secs,
                    now,
                ) by {
                lemma_push_contains(seen, port, p);
                lemma_push_contains(idle_before, port, p);
            }
            i += 1;
        }
        assert(ports@.take(ports@.len() as int) == ports@);
        assert(self.running() =~= awake(before, secs, now));
        idle
    }

    /// Forgets all servers and tells their ports, for their processes to be killed.
    pub fn kill_all(&mut self) -> (ports: Vec<u16>)
        ensures
            ports@.no_duplicates(),
            forall|p: u16| ports@.contains(p) <==> old(self).running().contains_key(p),
            final(self).running() == Map::<u16, u128>::empty(),
            final(self).commands() == old(self).commands(),
            final(self).idle_secs() == old(self).idle_secs(),
            final(self).wf(),
    {
        let ports = self.running_ports();
        self.procs.clear();
        assert(self.commands() == old(self).commands());
        ports
    }
}

/// What a sequence holds once one more port stands behind it.
proof fn lemma_push_contains(s: Seq<u16>, x: u16, p: u16)
    ensures
        s.push(x).contains(p) <==> s.contains(p) || p == x,
{
    if s.contains(p) {
        let k = choose|k: int| 0 <= k < s.len() && s[k] == p;
        assert(s.push(x)[k] == p);
    }
    assert(s.push(x)[s.len() as int] == x);
    if s.push(x).contains(p) && p != x {
        let k = choose|k: int| 0 <= k < s.push(x).len() && s.push(x)[k] == p;
        assert(s[k] == p);
    }
}

/// A copy of some texts.
pub fn copy_texts(items: &Vec<String>) -> (res: Vec<String>)
    ensures
        config::texts(res@) == config::texts(items@),
{
    let mut res: Vec<String> = Vec::new();
    let mut i: usize = 0;
    while i < items.len()
        invariant
            i <= items.len(),
            config::texts(res@) == config::texts(items@).take(i as int),
        decreases items.len() - i,
    {
        let item = items[i].clone();
        assert(config::texts(res@.push(item)) == config::texts(res@).push(item@));
        assert(config::texts(items@).take(i + 1) == config::texts(items@).take(i as int).push(
            items@[i as int]@,
        ));
        res.push(item);
        i += 1;
    }
    assert(config::texts(items@).take(items@.len() as int) == config::texts(items@));
    res
}

// ── Laws ────────────────────────────────────────────────────────────────────

/// A server is started with its port and its host, each given once, and nothing puts it to
/// sleep: what a configuration says of the three flags does not count.
pub proof fn law_launch_names_port_and_host(args: Seq<Seq<char>>, port: u16)
    ensures
        config::arg_value(launch_args(args, port), "--port"@) == Some(text::decimal(port as nat)),
        config::arg_value(launch_args(args, port), "--host"@) == Some("0.0.0.0"@),
        forall|i: int| 0 <= i < kept_args(args).len() ==> !own_flag(#[trigger] kept_args(args)[i]),
        !launch_args(args, port).contains("--sleep-idle-seconds"@),
{
    let kept = kept_args(args);
    let added = seq!["--port"@, text::decimal(port as nat), "--host"@, "0.0.0.0"@];
    lemma_kept_args(args);
    lemma_flags();
    text::lemma_decimal(port as nat);
    let d = text::decimal(port as nat);
    assert(text::is_digit(d[0]));
    lemma_arg_value_skips(kept, added, "--port"@);
    lemma_arg_value_skips(kept, added, "--host"@);
    let a1 = added.drop_first();
    let a2 = a1.drop_first();
    assert(added[0] == "--port"@ && a1[0] == d && a2[0] == "--host"@ && a2[1] == "0.0.0.0"@);
    assert(config::arg_value(a2, "--host"@) == Some("0.0.0.0"@));
    assert(config::arg_value(a1, "--host"@) == Some("0.0.0.0"@));
    let all = launch_args(args, port);
    if all.contains("--sleep-idle-seconds"@) {
        let i = choose|i: int| 0 <= i < all.len() && all[i] == "--sleep-idle-seconds"@;
        if i < kept.len() {
            assert(own_flag(kept[i]));
        } else {
            assert(all[i] == added[i - kept.len()]);
        }
    }
}

/// Arguments without any of the three flags are kept as they are.
pub proof fn law_other_arguments_stay(args: Seq<Seq<char>>)
    requires
        forall|i: int| 0 <= i < args.len() ==> !own_flag(#[trigger] args[i]),
    ensures
        kept_args(args) == args,
    decreases args.len(),
{
    if args.len() > 0 {
        let rest = args.drop_first();
        assert(!own_flag(args[0]));
        assert forall|i: int| 0 <= i < rest.len() implies !own_flag(#[trigger] rest[i]) by {
            assert(rest[i] == args[i + 1]);
        }
        law_other_arguments_stay(rest);
        assert(seq![args[0]] + rest == args);
    }
}

/// The port of every model has a command, and no other port has; where no later model has the
/// same port, it is the command of that model.
pub proof fn law_every_model_has_its_command(
    models: Seq<config::ModelView>,
    lookups: Seq<ExeLookup>,
)
    requires
        lookups.len() == models.len(),
    ensures
        forall|p: u16| #[trigger]
            command_table(models, lookups).contains_key(p) <==> exists|i: int|
                0 <= i < models.len() && (#[trigger] models[i]).port == p,
        forall|i: int|
            0 <= i < models.len() && (forall|j: int|
                i < j < models.len() ==> (#[trigger] models[j]).port != models[i].port)
                ==> command_table(models, lookups)[(#[trigger] models[i]).port] == command_of(
                models[i],
                lookups[i],
            ),
    decreases models.len(),
{
    if models.len() > 0 {
        let before = models.drop_last();
        let found = lookups.drop_last();
        law_every_model_has_its_command(before, found);
        let all = command_table(models, lookups);
        let m = models.last();
        assert forall|p: u16| #[trigger] all.contains_key(p) <==> exists|i: int|
            0 <= i < models.len() && (#[trigger] models[i]).port == p by {
            if p == m.port {
                assert(models[models.len() - 1].port == p);
            } else if command_table(before, found).contains_key(p) {
                let i = choose|i: int| 0 <= i < before.len() && (#[trigger] before[i]).port == p;
                assert(models[i].port == p);
            } else if exists|i: int| 0 <= i < models.len() && (#[trigger] models[i]).port == p {
                let i = choose|i: int| 0 <= i < models.len() && (#[trigger] models[i]).port == p;
                assert(before[i].port == p);
            }
        }
        assert forall|i: int|
            0 <= i < models.len() && (forall|j: int|
                i < j < models.len() ==> (#[trigger] models[j]).port
                    != models[i].port) implies all[(#[trigger] models[i]).port] == command_of(
            models[i],
            lookups[i],
        ) by {
            if i < models.len() - 1 {
                assert(before[i] == models[i]);
                assert(models[models.len() - 1].port != models[i].port);
                assert forall|j: int| i < j < before.len() implies (#[trigger] before[j]).port
                    != before[i].port by {
                    assert(models[j] == before[j]);
                }
            }
        }
    }
}

/// No step on one port changes anything about the server on another.
pub proof fn law_ports_are_apart(
    running: Map<u16, u128>,
    port: u16,
    other: u16,
    start: StartEventView,
    stop: StopEventView,
    now: u128,
)
    requires
        other != port,
    ensures
        start_running(running, port, start, now).contains_key(other) == running.contains_key(
            other,
        ),
        start_running(running, port, start, now)[other] == running[other],
        stop_running(running, port, stop).contains_key(other) == running.contains_key(other),
        stop_running(running, port, stop)[other] == running[other],
        touched(running, port, now).contains_key(other) == running.contains_key(other),
        touched(running, port, now)[other] == running[other],
{
}

/// A spawned server runs, and an order to start it once more is done at once. An order to stop it
/// kills it; it then runs no more, and an order to start it spawns it anew.
pub proof fn law_start_and_stop(
    running: Map<u16, u128>,
    commands: Map<u16, (Seq<char>, Seq<Seq<char>>)>,
    port: u16,
    now: u128,
)
    requires
        commands.contains_key(port),
    ensures
        ({
            let up = start_running(running, port, StartEventView::Spawned, now);
            let down = stop_running(up, port, StopEventView::Requested);
            &&& up.contains_key(port)
            &&& start_action(up, commands, port, StartEventView::Requested)
                == StartActionView::Done(Ok(()))
            &&& stop_action(up, port, StopEventView::Requested) is KillTracked
            &&& !down.contains_key(port)
            &&& start_action(down, commands, port, StartEventView::Requested) is Spawn
            &&& stop_action(down, port, StopEventView::Requested) is FindOwner
        }),
{
}

/// Only a server whose command is known, and which does not run, is spawned; when it is, still
/// only servers run whose command is known.
pub proof fn law_only_configured_servers_run(
    running: Map<u16, u128>,
    commands: Map<u16, (Seq<char>, Seq<Seq<char>>)>,
    port: u16,
    event: StartEventView,
    now: u128,
)
    requires
        running.dom().subset_of(commands.dom()),
        start_action(running, commands, port, event) is Spawn,
    ensures
        !running.contains_key(port),
        start_action(running, commands, port, event) == (StartActionView::Spawn {
            exe: commands[port].0,
            args: commands[port].1,
        }),
        start_running(
            start_running(running, port, event, now),
            port,
            StartEventView::Spawned,
            now,
        ).dom().subset_of(commands.dom()),
{
}

/// A start that succeeds leaves its server running, unless it was stopped while it was probed.
pub proof fn law_started_server_runs(
    running: Map<u16, u128>,
    commands: Map<u16, (Seq<char>, Seq<Seq<char>>)>,
    port: u16,
    event: StartEventView,
    now: u128,
)
    requires
        event is Probed ==> running.contains_key(port),
        start_action(running, commands, port, event) == StartActionView::Done(Ok(())),
    ensures
        start_running(running, port, event, now).contains_key(port),
{
}

/// The wait for a started server ends: a port is probed at most as often as `START_TRIES` says,
/// each probe counting one more.
pub proof fn law_wait_ends(
    running: Map<u16, u128>,
    commands: Map<u16, (Seq<char>, Seq<Seq<char>>)>,
    port: u16,
    tries: u32,
)
    ensures
        start_action(running, commands, port, StartEventView::Paused { tries }) matches
            StartActionView::Probe { tries: next } ==> next == tries + 1 && next < START_TRIES,
        tries + 1 >= START_TRIES ==> start_action(
            running,
            commands,
            port,
            StartEventView::Paused { tries },
        ) matches StartActionView::Done(Err(_)),
{
}

/// Without an idle timeout no server is stopped for being idle.
pub proof fn law_no_timeout_stops_nothing(running: Map<u16, u128>, now: u128)
    ensures
        awake(running, 0, now) == running,
{
    assert(awake(running, 0, now) =~= running);
}

/// A server that was used at `used` is not stopped before the timeout has run out since, and is
/// stopped after that if nothing used it again.
pub proof fn law_used_server_stays(
    running: Map<u16, u128>,
    port: u16,
    used: u128,
    idle_secs: u64,
    now: u128,
)
    requires
        running.contains_key(port),
        idle_secs > 0,
    ensures
        awake(touched(running, port, used), idle_secs, now).contains_key(port) <==> now - used
            <= idle_secs * NANOS,
{
}

/// Stopping the idle servers twice at one moment stops no more than stopping them once.
pub proof fn law_idle_again_stops_nothing(running: Map<u16, u128>, idle_secs: u64, now: u128)
    ensures
        awake(awake(running, idle_secs, now), idle_secs, now) == awake(running, idle_secs, now),
{
    assert(awake(awake(running, idle_secs, now), idle_secs, now) =~= awake(
        running,
        idle_secs,
        now,
    ));
}

/// No kept argument is one of the manager's own flags.
proof fn lemma_kept_args(args: Seq<Seq<char>>)
    ensures
        forall|i: int| 0 <= i < kept_args(args).len() ==> !own_flag(#[trigger] kept_args(args)[i]),
    decreases args.len(),
{
    if args.len() > 1 && own_flag(args[0]) {
        lemma_kept_args(args.skip(2));
        assert(kept_args(args) == kept_args(args.skip(2)));
    } else if args.len() > 0 && !own_flag(args[0]) {
        let rest = kept_args(args.drop_first());
        lemma_kept_args(args.drop_first());
        let all = kept_args(args);
        assert(all == seq![args[0]] + rest);
        assert forall|i: int| 0 <= i < all.len() implies !own_flag(#[trigger] all[i]) by {
            if i > 0 {
                assert(all[i] == rest[i - 1]);
            }
        }
    }
}

/// The value of a flag is not looked for among arguments that do not hold it.
proof fn lemma_arg_value_skips(kept: Seq<Seq<char>>, added: Seq<Seq<char>>, name: Seq<char>)
    requires
        added.len() > 0,
        forall|i: int| 0 <= i < kept.len() ==> #[trigger] kept[i] != name,
    ensures
        config::arg_value(kept + added, name) == config::arg_value(added, name),
    decreases kept.len(),
{
    if kept.len() == 0 {
        assert(kept + added == added);
    } else {
        let rest = kept.drop_first();
        assert(kept[0] != name);
        assert((kept + added)[0] == kept[0]);
        assert((kept + added).drop_first() == rest + added);
        assert forall|i: int| 0 <= i < rest.len() implies #[trigger] rest[i] != name by {
            assert(rest[i] == kept[i + 1]);
        }
        lemma_arg_value_skips(rest, added, name);
    }
}

/// The flags differ, and none is a number or an address.
proof fn lemma_flags()
    ensures
        "--port"@.len() == 6,
        "--port"@[0] == '-',
        "--port"@ != "--host"@,
        "--host"@[0] == '-',
        "--host"@.len() == 6,
        "--sleep-idle-seconds"@.len() == 20,
        "--sleep-idle-seconds"@[0] == '-',
        "0.0.0.0"@.len() == 7,
{
    reveal_strlit("--port");
    reveal_strlit("--host");
    reveal_strlit("--sleep-idle-seconds");
    reveal_strlit("0.0.0.0");
    assert("--port"@[2] != "--host"@[2]);
}

// ── What the manager decides, event by event ────────────────────────────────

/// A server is killed where it was started here. Elsewhere the process that listens on its port is
/// killed, whichever it is, unless it is this one: only then, or where there is none, or where the
/// kill failed, does the stop end with an error.
pub proof fn law_stop_kills_whoever_listens(
    running: Map<u16, u128>,
    port: u16,
    pid: u32,
    own_pid: u32,
    cause: Seq<char>,
)
    ensures
        running.contains_key(port) <==> stop_action(running, port, StopEventView::Requested)
            is KillTracked,
        !running.contains_key(port) <==> stop_action(running, port, StopEventView::Requested)
            is FindOwner,
        pid != own_pid <==> stop_action(
            running,
            port,
            StopEventView::Owner { found: Some(pid), own_pid },
        ) == (StopActionView::KillOwner { pid }),
        pid == own_pid <==> (stop_action(
            running,
            port,
            StopEventView::Owner { found: Some(pid), own_pid },
        ) matches StopActionView::Done(Err(_))),
        stop_action(
            running,
            port,
            StopEventView::Owner { found: None, own_pid },
        ) matches StopActionView::Done(Err(_)),
        stop_action(
            running,
            port,
            StopEventView::Killed { pid, outcome: Ok(()) },
        ) matches StopActionView::Done(Ok(_)),
        stop_action(
            running,
            port,
            StopEventView::Killed { pid, outcome: Err(cause) },
        ) matches StopActionView::Done(Err(_)),
{
}

/// What a stop says at its end names the port, and the process where there is one.
pub proof fn law_stop_messages(
    running: Map<u16, u128>,
    port: u16,
    pid: u32,
    own_pid: u32,
    cause: Seq<char>,
)
    ensures
        ({
            let p = text::decimal(port as nat);
            let q = text::decimal(pid as nat);
            &&& running.contains_key(port) ==> stop_action(running, port, StopEventView::Requested)
                == (StopActionView::KillTracked { message: "Stopped port "@ + p })
            &&& stop_action(running, port, StopEventView::Owner { found: None, own_pid })
                == StopActionView::Done(Err("Port "@ + p + " not running"@))
            &&& stop_action(running, port, StopEventView::Owner { found: Some(pid), own_pid: pid })
                == StopActionView::Done(
                Err("Port "@ + p + " is owned by the current process but is not tracked"@),
            )
            &&& stop_action(running, port, StopEventView::Killed { pid, outcome: Ok(()) })
                == StopActionView::Done(Ok("Killed external process "@ + q + " on port "@ + p))
            &&& stop_action(running, port, StopEventView::Killed { pid, outcome: Err(cause) })
                == StopActionView::Done(
                Err("Port "@ + p + " owner PID "@ + q + ": "@ + cause),
            )
        }),
{
}

/// Only an order to stop takes a server out of those that run, and it takes that one alone.
pub proof fn law_stop_forgets_one_server(
    running: Map<u16, u128>,
    port: u16,
    event: StopEventView,
    p: u16,
)
    ensures
        stop_running(running, port, event).contains_key(p) <==> running.contains_key(p) && !(p
            == port && event is Requested),
        stop_running(running, port, event).contains_key(p) ==> stop_running(
            running,
            port,
            event,
        )[p] == running[p],
{
}

/// An order to start is done where the server runs, spawns its command where it does not and the
/// command is known, and fails where it is not; nothing else counts.
pub proof fn law_start_spawns_what_does_not_run(
    running: Map<u16, u128>,
    commands: Map<u16, (Seq<char>, Seq<Seq<char>>)>,
    port: u16,
)
    ensures
        ({
            let action = start_action(running, commands, port, StartEventView::Requested);
            &&& running.contains_key(port) ==> action == StartActionView::Done(Ok(()))
            &&& !running.contains_key(port) && commands.contains_key(port) ==> action == (
            StartActionView::Spawn { exe: commands[port].0, args: commands[port].1 })
            &&& !running.contains_key(port) && !commands.contains_key(port) ==> action
                == StartActionView::Done(
                Err("No config for port "@ + text::decimal(port as nat)),
            )
        }),
{
}

/// A spawned server is probed at once, and then each second until it lives: a probe that finds it
/// alive ends the wait well, whichever probe it is, and only the last of 120 ends it badly.
pub proof fn law_start_waits_for_life(
    running: Map<u16, u128>,
    commands: Map<u16, (Seq<char>, Seq<Seq<char>>)>,
    port: u16,
    tries: u32,
    cause: Seq<char>,
)
    ensures
        start_action(running, commands, port, StartEventView::Spawned) == (StartActionView::Probe {
            tries: 0,
        }),
        start_action(running, commands, port, StartEventView::SpawnFailed(cause))
            == StartActionView::Done(
            Err("Spawn "@ + text::decimal(port as nat) + ": "@ + cause),
        ),
        start_action(running, commands, port, StartEventView::Probed { tries, alive: true })
            == StartActionView::Done(Ok(())),
        start_action(running, commands, port, StartEventView::Probed { tries, alive: false }) == (
        StartActionView::Pause { tries }),
        tries < 119 ==> start_action(running, commands, port, StartEventView::Paused { tries }) == (
        StartActionView::Probe { tries: (tries + 1) as u32 }),
        tries >= 119 ==> start_action(running, commands, port, StartEventView::Paused { tries })
            == StartActionView::Done(
            Err("Timeout waiting for port "@ + text::decimal(port as nat)),
        ),
{
}

/// A step of a start changes what runs in two ways only: a spawned server runs, used now, and a
/// server that is asked for while it runs is used now.
pub proof fn law_start_notes_use(
    running: Map<u16, u128>,
    port: u16,
    event: StartEventView,
    now: u128,
    p: u16,
)
    ensures
        ({
            let after = start_running(running, port, event, now);
            let used = p == port && (event is Spawned || event is Requested && running.contains_key(
                p,
            ));
            &&& after.contains_key(p) <==> running.contains_key(p) || used
            &&& used ==> after[p] == now
            &&& !used && running.contains_key(p) ==> after[p] == running[p]
        }),
{
}

/// Noting a use gives the server the moment where it runs, and does nothing else.
pub proof fn law_touch_notes_use(running: Map<u16, u128>, port: u16, now: u128, p: u16)
    ensures
        touched(running, port, now).contains_key(p) <==> running.contains_key(p),
        running.contains_key(p) ==> touched(running, port, now)[p] == (if p == port {
            now
        } else {
            running[p]
        }),
{
}

/// A server is stopped for being idle exactly where there is a timeout and it was last used longer
/// ago than that; the others stay, with the moment of their last use.
pub proof fn law_idle_is_longer_than_the_timeout(
    running: Map<u16, u128>,
    idle_secs: u64,
    now: u128,
    p: u16,
)
    ensures
        is_idle(running[p], idle_secs, now) <==> idle_secs > 0 && now as int - running[p] as int
            > idle_secs as int * 1_000_000_000,
        awake(running, idle_secs, now).contains_key(p) <==> running.contains_key(p) && !(idle_secs
            > 0 && now as int - running[p] as int > idle_secs as int * 1_000_000_000),
        awake(running, idle_secs, now).contains_key(p) ==> awake(running, idle_secs, now)[p]
            == running[p],
{
}

/// Each of the three flags goes with the argument behind it, wherever it first stands, and every
/// argument before it stays.
pub proof fn law_flag_goes_with_its_value(
    before: Seq<Seq<char>>,
    flag: Seq<char>,
    value: Seq<char>,
    after: Seq<Seq<char>>,
)
    requires
        flag == "--port"@ || flag == "--host"@ || flag == "--sleep-idle-seconds"@,
        forall|i: int|
            0 <= i < before.len() ==> #[trigger] before[i] != "--port"@ && before[i] != "--host"@
                && before[i] != "--sleep-idle-seconds"@,
    ensures
        kept_args(before) == before,
        kept_args(before + seq![flag]) == before,
        kept_args(before + seq![flag, value] + after) == before + kept_args(after),
    decreases before.len(),
{
    let all = before + seq![flag, value] + after;
    let cut = before + seq![flag];
    if before.len() == 0 {
        assert(all.skip(2) == after);
        assert(all[0] == flag && cut[0] == flag && cut.len() == 1);
        assert(before + kept_args(after) == kept_args(after));
        assert(kept_args(cut) =~= before);
        assert(kept_args(before) =~= before);
    } else {
        let rest = before.drop_first();
        assert(before[0] != "--port"@);
        assert(!own_flag(before[0]));
        assert forall|i: int| 0 <= i < rest.len() implies #[trigger] rest[i] != "--port"@ && rest[i]
            != "--host"@ && rest[i] != "--sleep-idle-seconds"@ by {
            assert(rest[i] == before[i + 1]);
        }
        law_flag_goes_with_its_value(rest, flag, value, after);
        assert(all.drop_first() == rest + seq![flag, value] + after);
        assert(cut.drop_first() == rest + seq![flag]);
        assert(all[0] == before[0] && cut[0] == before[0]);
        assert(seq![before[0]] + rest == before);
        assert(seq![before[0]] + (rest + kept_args(after)) == before + kept_args(after));
    }
}

/// A server is started by the path of its executable, with the arguments that are kept and then
/// its own port and host.
pub proof fn law_command_of_a_server(m: config::ModelView, lookup: ExeLookup)
    ensures
        command_of(m, lookup).0 == config::resolved_exe(m.executable, lookup),
        command_of(m, lookup).1 == kept_args(m.arguments).push("--port"@).push(
            text::decimal(m.port as nat),
        ).push("--host"@).push("0.0.0.0"@),
{
    assert(command_of(m, lookup).1 =~= kept_args(m.arguments).push("--port"@).push(
        text::decimal(m.port as nat),
    ).push("--host"@).push("0.0.0.0"@));
}

/// The views of the manager's events and actions say what they hold.
pub proof fn law_manager_views(
    exe: String,
    args: Vec<String>,
    message: String,
    pid: u32,
    own_pid: u32,
    found: Option<u32>,
    tries: u32,
    alive: bool,
)
    ensures
        StartEvent::Requested.deep_view() == StartEventView::Requested,
        StartEvent::Spawned.deep_view() == StartEventView::Spawned,
        (StartEvent::SpawnFailed(message)).deep_view() == StartEventView::SpawnFailed(message@),
        (StartEvent::Probed { tries, alive }).deep_view() == (StartEventView::Probed {
            tries,
            alive,
        }),
        (StartEvent::Paused { tries }).deep_view() == (StartEventView::Paused { tries }),
        (StartAction::Spawn { exe, args }).deep_view() == (StartActionView::Spawn {
            exe: exe@,
            args: config::texts(args@),
        }),
        (StartAction::Probe { tries }).deep_view() == (StartActionView::Probe { tries }),
        (StartAction::Pause { tries }).deep_view() == (StartActionView::Pause { tries }),
        (StartAction::Done(Ok(()))).deep_view() == StartActionView::Done(Ok(())),
        (StartAction::Done(Err(message))).deep_view() == StartActionView::Done(Err(message@)),
        StopEvent::Requested.deep_view() == StopEventView::Requested,
        (StopEvent::Owner { found, own_pid }).deep_view() == (StopEventView::Owner {
            found,
            own_pid,
        }),
        (StopEvent::Killed { pid, outcome: Ok(()) }).deep_view() == (StopEventView::Killed {
            pid,
            outcome: Ok(()),
        }),
        (StopEvent::Killed { pid, outcome: Err(message) }).deep_view() == (StopEventView::Killed {
            pid,
            outcome: Err(message@),
        }),
        (StopAction::KillTracked { message }).deep_view() == (StopActionView::KillTracked {
            message: message@,
        }),
        StopAction::FindOwner.deep_view() == StopActionView::FindOwner,
        (StopAction::KillOwner { pid }).deep_view() == (StopActionView::KillOwner { pid }),
        (StopAction::Done(Ok(message))).deep_view() == StopActionView::Done(Ok(message@)),
        (StopAction::Done(Err(message))).deep_view() == StopActionView::Done(Err(message@)),
{
}

} // verus!
