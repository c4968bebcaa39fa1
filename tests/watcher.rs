use wust::config::{default_interval, Config, Task};
use wust::detector::{Sample, Watcher};
use wust::rules::SpawnRequest;

fn task(pattern: &str, command: &str) -> Task {
    Task { pattern: pattern.to_string(), command: command.to_string() }
}

fn notepad_rules() -> Vec<Task> {
    vec![task("notepad\\.exe", "calc.exe")]
}

fn programs(requests: &[SpawnRequest]) -> Vec<String> {
    requests.iter().map(|q| q.program.clone()).collect()
}

/// Runs one tick the way the poll loop does, with `resolve` standing in for
/// the lookup of an executable path.
fn tick(
    w: &mut Watcher,
    sample: Sample,
    resolve: &dyn Fn(u32) -> Option<String>,
    tasks: &Vec<Task>,
    resolutions: &mut usize,
) -> Vec<SpawnRequest> {
    match w.observe(&sample) {
        Some(pid) => {
            *resolutions += 1;
            let exe = resolve(pid);
            w.complete(pid, exe.as_deref(), tasks)
        }
        None => Vec::new(),
    }
}

fn notepad(pid: u32) -> Option<String> {
    if pid == 10 {
        Some("C:\\Windows\\notepad.exe".to_string())
    } else {
        Some("C:\\Windows\\explorer.exe".to_string())
    }
}

#[test]
fn default_interval_is_zero() {
    assert_eq!(default_interval(), 0);
    let c = Config::with_tasks(notepad_rules());
    assert_eq!(c.interval, 0);
    assert_eq!(c.tasks.len(), 1);
}

#[test]
fn absent_then_notepad_spawns_calc_once() {
    let tasks = notepad_rules();
    let mut w = Watcher::new();
    let mut n = 0;
    let first = tick(&mut w, Sample::NoWindow, &notepad, &tasks, &mut n);
    assert!(first.is_empty());
    let second = tick(&mut w, Sample::Process(10), &notepad, &tasks, &mut n);
    assert_eq!(second.len(), 1);
    assert_eq!(second[0].program, "calc.exe");
    assert!(second[0].args.is_empty());
    assert_eq!(n, 1);
}

#[test]
fn same_process_twice_dispatches_once() {
    let tasks = notepad_rules();
    let mut w = Watcher::new();
    let mut n = 0;
    let a = tick(&mut w, Sample::Process(10), &notepad, &tasks, &mut n);
    let b = tick(&mut w, Sample::Process(10), &notepad, &tasks, &mut n);
    assert_eq!(a.len() + b.len(), 1);
    assert!(b.is_empty());
    assert_eq!(n, 1);
}

#[test]
fn two_command_lines_give_two_requests() {
    let tasks = vec![task("notepad\\.exe", "tool.exe --flag\nhelper.exe")];
    let mut w = Watcher::new();
    let mut n = 0;
    let r = tick(&mut w, Sample::Process(10), &notepad, &tasks, &mut n);
    assert_eq!(r.len(), 2);
    assert_eq!(r[0].program, "tool.exe");
    assert_eq!(r[0].args, vec!["--flag".to_string()]);
    assert_eq!(r[1].program, "helper.exe");
    assert!(r[1].args.is_empty());
}

#[test]
fn no_window_after_match_changes_nothing() {
    let tasks = notepad_rules();
    let mut w = Watcher::new();
    let mut n = 0;
    let r = tick(&mut w, Sample::Process(10), &notepad, &tasks, &mut n);
    assert_eq!(r.len(), 1);
    for _ in 0..5 {
        let r = tick(&mut w, Sample::NoWindow, &notepad, &tasks, &mut n);
        assert!(r.is_empty());
        assert_eq!(w.last_process_id(), Some(10));
    }
    assert_eq!(n, 1);
}

#[test]
fn long_run_of_one_process_resolves_once() {
    let tasks = notepad_rules();
    let mut w = Watcher::new();
    let mut n = 0;
    let mut total = 0;
    for _ in 0..8 {
        total += tick(&mut w, Sample::Process(10), &notepad, &tasks, &mut n).len();
    }
    assert_eq!(total, 1);
    assert_eq!(n, 1);
    // a new run of the same process after another one fires again
    total += tick(&mut w, Sample::Process(20), &notepad, &tasks, &mut n).len();
    total += tick(&mut w, Sample::Process(10), &notepad, &tasks, &mut n).len();
    assert_eq!(total, 2);
    assert_eq!(n, 3);
}

#[test]
fn probe_error_changes_nothing() {
    let tasks = notepad_rules();
    let mut w = Watcher::new();
    let mut n = 0;
    tick(&mut w, Sample::Process(20), &notepad, &tasks, &mut n);
    let r = tick(&mut w, Sample::ProbeError("0x5".to_string()), &notepad, &tasks, &mut n);
    assert!(r.is_empty());
    assert_eq!(w.last_process_id(), Some(20));
    assert_eq!(n, 1);
}

#[test]
fn failed_resolution_is_retried() {
    let tasks = notepad_rules();
    let mut w = Watcher::new();
    let mut n = 0;
    tick(&mut w, Sample::Process(20), &notepad, &tasks, &mut n);
    let fail = |_: u32| -> Option<String> { None };
    let r = tick(&mut w, Sample::Process(10), &fail, &tasks, &mut n);
    assert!(r.is_empty());
    assert_eq!(w.last_process_id(), Some(20));
    let r = tick(&mut w, Sample::Process(10), &notepad, &tasks, &mut n);
    assert_eq!(programs(&r), vec!["calc.exe".to_string()]);
    assert_eq!(w.last_process_id(), Some(10));
    assert_eq!(n, 3);
}

#[test]
fn new_watcher_has_no_process() {
    let w = Watcher::new();
    assert_eq!(w.last_process_id(), None);
    assert_eq!(w.observe(&Sample::NoWindow), None);
    assert_eq!(w.observe(&Sample::Process(0)), Some(0));
}

#[test]
fn complete_without_path_requests_nothing() {
    let tasks = notepad_rules();
    let mut w = Watcher::new();
    let r = w.complete(10, None, &tasks);
    assert!(r.is_empty());
    assert_eq!(w.last_process_id(), None);
}
