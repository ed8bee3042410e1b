use wakeupllm::config::{ExeLookup, ModelEntry};
use wakeupllm::manager::{
    build_args, copy_texts, ProcessManager, StartAction, StartEvent, StopAction, StopEvent, NANOS,
    START_TRIES,
};

fn strings(items: &[&str]) -> Vec<String> {
    items.iter().map(|s| s.to_string()).collect()
}

fn model(id: &str, port: u16, args: &[&str]) -> ModelEntry {
    ModelEntry {
        id: id.to_string(),
        port,
        executable: "llama-server".to_string(),
        name: None,
        alias: None,
        arguments: strings(args),
        profiles: Vec::new(),
    }
}

fn lookup(local: Option<&str>) -> ExeLookup {
    ExeLookup { usable: false, local: local.map(|s| s.to_string()) }
}

fn manager(idle_secs: u64) -> ProcessManager {
    let models = vec![model("a", 8003, &["--model", "a.gguf"]), model("b", 8004, &[])];
    ProcessManager::new(idle_secs, &models, &vec![lookup(None), lookup(Some("/app/s"))])
}

fn spawn_of(action: StartAction) -> (String, Vec<String>) {
    match action {
        StartAction::Spawn { exe, args } => (exe, args),
        _ => panic!("no spawn"),
    }
}

fn start_result(action: StartAction) -> Result<(), String> {
    match action {
        StartAction::Done(outcome) => outcome,
        _ => panic!("not done"),
    }
}

fn stop_result(action: StopAction) -> Result<String, String> {
    match action {
        StopAction::Done(outcome) => outcome,
        _ => panic!("not done"),
    }
}

#[test]
fn own_flags_are_replaced() {
    assert_eq!(
        build_args(
            &strings(&["--port", "1", "--ngl", "99", "--host", "h", "--sleep-idle-seconds", "5", "--fa"]),
            8003
        ),
        strings(&["--ngl", "99", "--fa", "--port", "8003", "--host", "0.0.0.0"])
    );
    assert_eq!(
        build_args(&strings(&["--fa", "--port"]), 1),
        strings(&["--fa", "--port", "1", "--host", "0.0.0.0"])
    );
    assert_eq!(
        build_args(&strings(&["--port", "--host", "--host", "x", "y"]), 1),
        strings(&["y", "--port", "1", "--host", "0.0.0.0"])
    );
    assert_eq!(build_args(&[], 65535), strings(&["--port", "65535", "--host", "0.0.0.0"]));
}

#[test]
fn other_arguments_are_kept() {
    let args = strings(&["-c", "4096", "-c", "4096", ""]);
    assert_eq!(&build_args(&args, 2)[..5], &args[..]);
    assert_eq!(copy_texts(&args), args);
}

#[test]
fn server_is_started_by_its_command() {
    let mut pm = manager(0);
    let (exe, args) = spawn_of(pm.start(8003, StartEvent::Requested, 0));
    assert_eq!(exe, "llama-server");
    assert_eq!(args, strings(&["--model", "a.gguf", "--port", "8003", "--host", "0.0.0.0"]));
    assert!(!pm.is_running(8003));
    let (exe, _) = spawn_of(pm.start(8004, StartEvent::Requested, 0));
    assert_eq!(exe, "/app/s");
}

#[test]
fn later_model_has_the_port() {
    let models = vec![model("a", 1, &["x"]), model("b", 1, &["y"])];
    let mut pm = ProcessManager::new(0, &models, &vec![lookup(None), lookup(None)]);
    let (_, args) = spawn_of(pm.start(1, StartEvent::Requested, 0));
    assert_eq!(args[0], "y");
}

#[test]
fn unknown_port_is_not_started() {
    let mut pm = manager(0);
    assert_eq!(
        start_result(pm.start(1, StartEvent::Requested, 0)),
        Err("No config for port 1".to_string())
    );
}

#[test]
fn failed_spawn_is_told() {
    let mut pm = manager(0);
    assert_eq!(
        start_result(pm.start(8003, StartEvent::SpawnFailed("no file".to_string()), 0)),
        Err("Spawn 8003: no file".to_string())
    );
    assert!(!pm.is_running(8003));
}

#[test]
fn spawned_server_is_probed_until_it_lives() {
    let mut pm = manager(0);
    let action = pm.start(8003, StartEvent::Spawned, 5);
    assert!(matches!(action, StartAction::Probe { tries: 0 }));
    assert!(pm.is_running(8003));
    let action = pm.start(8003, StartEvent::Probed { tries: 0, alive: false }, 6);
    assert!(matches!(action, StartAction::Pause { tries: 0 }));
    let action = pm.start(8003, StartEvent::Paused { tries: 0 }, 7);
    assert!(matches!(action, StartAction::Probe { tries: 1 }));
    let action = pm.start(8003, StartEvent::Probed { tries: 1, alive: true }, 8);
    assert_eq!(start_result(action), Ok(()));
}

#[test]
fn server_that_never_lives_is_given_up() {
    let mut pm = manager(0);
    let mut action = pm.start(8003, StartEvent::Spawned, 0);
    let mut probes = 0;
    let outcome = loop {
        let event = match action {
            StartAction::Probe { tries } => {
                probes += 1;
                StartEvent::Probed { tries, alive: false }
            }
            StartAction::Pause { tries } => StartEvent::Paused { tries },
            StartAction::Done(outcome) => break outcome,
            StartAction::Spawn { .. } => panic!("spawned again"),
        };
        action = pm.start(8003, event, 0);
    };
    assert_eq!(probes, START_TRIES);
    assert_eq!(probes, 120);
    assert_eq!(outcome, Err("Timeout waiting for port 8003".to_string()));
    assert!(pm.is_running(8003));
}

#[test]
fn running_server_is_not_started_again() {
    let mut pm = manager(10);
    let _ = pm.start(8003, StartEvent::Spawned, 0);
    assert_eq!(start_result(pm.start(8003, StartEvent::Requested, 8 * NANOS)), Ok(()));
    assert!(pm.stop_idle(18 * NANOS).is_empty());
    assert_eq!(pm.stop_idle(18 * NANOS + 1), vec![8003]);
}

#[test]
fn stopped_server_can_be_started_again() {
    let mut pm = manager(0);
    let _ = pm.start(8003, StartEvent::Spawned, 0);
    let _ = pm.start(8004, StartEvent::Spawned, 0);
    match pm.stop(8003, StopEvent::Requested) {
        StopAction::KillTracked { message } => assert_eq!(message, "Stopped port 8003"),
        _ => panic!("not killed"),
    }
    assert!(!pm.is_running(8003));
    assert!(pm.is_running(8004));
    let _ = spawn_of(pm.start(8003, StartEvent::Requested, 0));
}

#[test]
fn other_process_on_the_port_is_killed() {
    let mut pm = manager(0);
    assert!(matches!(pm.stop(8003, StopEvent::Requested), StopAction::FindOwner));
    let found = StopEvent::Owner { found: Some(7), own_pid: 8 };
    assert!(matches!(pm.stop(8003, found), StopAction::KillOwner { pid: 7 }));
    assert_eq!(
        stop_result(pm.stop(8003, StopEvent::Killed { pid: 7, outcome: Ok(()) })),
        Ok("Killed external process 7 on port 8003".to_string())
    );
    let failed = StopEvent::Killed { pid: 7, outcome: Err("kill failed for PID 7".to_string()) };
    assert_eq!(
        stop_result(pm.stop(8003, failed)),
        Err("Port 8003 owner PID 7: kill failed for PID 7".to_string())
    );
}

#[test]
fn nothing_on_the_port_is_told() {
    let mut pm = manager(0);
    assert_eq!(
        stop_result(pm.stop(8003, StopEvent::Owner { found: None, own_pid: 8 })),
        Err("Port 8003 not running".to_string())
    );
    assert_eq!(
        stop_result(pm.stop(8003, StopEvent::Owner { found: Some(8), own_pid: 8 })),
        Err("Port 8003 is owned by the current process but is not tracked".to_string())
    );
}

#[test]
fn idle_servers_are_stopped() {
    let mut pm = manager(60);
    let _ = pm.start(8003, StartEvent::Spawned, 0);
    let _ = pm.start(8004, StartEvent::Spawned, 0);
    pm.touch(8004, 30 * NANOS);
    assert!(pm.stop_idle(60 * NANOS).is_empty());
    assert_eq!(pm.stop_idle(60 * NANOS + 1), vec![8003]);
    assert!(pm.stop_idle(60 * NANOS + 1).is_empty());
    assert_eq!(pm.running_ports(), vec![8004]);
    assert_eq!(pm.stop_idle(200 * NANOS), vec![8004]);
    assert!(pm.running_ports().is_empty());
}

#[test]
fn no_timeout_stops_nothing() {
    let mut pm = manager(0);
    let _ = pm.start(8003, StartEvent::Spawned, 0);
    assert!(pm.stop_idle(u128::MAX).is_empty());
    assert!(pm.is_running(8003));
}

#[test]
fn clock_that_goes_back_stops_nothing() {
    let mut pm = manager(1);
    let _ = pm.start(8003, StartEvent::Spawned, 50 * NANOS);
    assert!(pm.stop_idle(0).is_empty());
}

#[test]
fn touch_starts_nothing() {
    let mut pm = manager(1);
    pm.touch(8003, 7);
    assert!(!pm.is_running(8003));
}

#[test]
fn all_servers_are_killed() {
    let mut pm = manager(0);
    let _ = pm.start(8003, StartEvent::Spawned, 0);
    let _ = pm.start(8004, StartEvent::Spawned, 0);
    let mut ports = pm.running_ports();
    ports.sort();
    assert_eq!(ports, vec![8003, 8004]);
    let mut killed = pm.kill_all();
    killed.sort();
    assert_eq!(killed, vec![8003, 8004]);
    assert!(pm.running_ports().is_empty());
    let _ = spawn_of(pm.start(8003, StartEvent::Requested, 0));
}
