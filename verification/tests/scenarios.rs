use subreaper::listing::children_path;
use subreaper::pid::Pid;
use subreaper::pid::Signal;
use subreaper::supervisor::interrupt_report;
use subreaper::supervisor::interrupt_response;
use subreaper::supervisor::Action;
use subreaper::supervisor::Diagnostic;
use subreaper::supervisor::Event;
use subreaper::supervisor::FatalError;
use subreaper::supervisor::Phase;
use subreaper::supervisor::Supervisor;

const NO_SUCH_PROCESS: i32 = 3;
const NO_CHILD: i32 = 10;
const SUPERVISOR: i32 = 1;

/// A process of the simulated table.
#[derive(Clone, Debug, PartialEq)]
struct Process {
    pid: i32,
    parent: i32,
    argv: Vec<String>,
    running: bool,
    heeds_terminate: bool,
}

/// A stand-in for the kernel's process table in which the supervisor is the
/// adoption point of orphans.
struct Table {
    processes: Vec<Process>,
    next_pid: i32,
    launches: Vec<(Vec<u8>, Vec<String>)>,
    fail_fork: bool,
}

fn table() -> Table {
    Table { processes: Vec::new(), next_pid: 100, launches: Vec::new(), fail_fork: false }
}

fn spawn(table: &mut Table, parent: i32, argv: &[&str]) -> i32 {
    let pid = table.next_pid;
    table.next_pid += 1;
    table.processes.push(Process {
        pid,
        parent,
        argv: argv.iter().map(|word| word.to_string()).collect(),
        running: true,
        heeds_terminate: true,
    });
    pid
}

fn end(table: &mut Table, pid: i32) {
    for process in table.processes.iter_mut() {
        if process.pid == pid {
            process.running = false;
        }
        if process.parent == pid {
            process.parent = SUPERVISOR;
        }
    }
}

fn deliver(table: &mut Table, pid: i32, signal: Signal) -> Result<(), i32> {
    let found = table.processes.iter().find(|process| process.pid == pid).cloned();
    match found {
        None => Err(NO_SUCH_PROCESS),
        Some(process) => {
            if process.running && (signal == Signal::Kill || process.heeds_terminate) {
                end(table, pid);
            }
            Ok(())
        },
    }
}

fn reap(table: &mut Table, pid: i32) -> Result<(), i32> {
    let at = table
        .processes
        .iter()
        .position(|process| process.pid == pid && process.parent == SUPERVISOR);
    match at {
        None => Err(NO_CHILD),
        Some(at) => {
            if table.processes[at].running {
                end(table, pid);
            }
            table.processes.remove(at);
            Ok(())
        },
    }
}

fn listing(table: &Table, parent: i32) -> Vec<u8> {
    let mut text = String::new();
    for process in table.processes.iter() {
        if process.parent == parent {
            text.push_str(&process.pid.to_string());
            text.push(' ');
        }
    }
    text.into_bytes()
}

fn live(table: &Table) -> Vec<i32> {
    table.processes.iter().filter(|process| process.running).map(|process| process.pid).collect()
}

fn words(argv: &[Vec<u8>]) -> Vec<String> {
    argv.iter().map(|word| String::from_utf8(word.clone()).unwrap()).collect()
}

/// Performs the pending action on the table and hands the outcome to the
/// supervisor. `offspring` are started by the primary child as soon as it
/// runs.
fn perform(
    supervisor: &mut Supervisor,
    table: &mut Table,
    offspring: &[&[&str]],
) -> (Action, Option<Diagnostic>) {
    let action = supervisor.action();
    let event = match action {
        Action::RegisterSubreaper => Event::Registered(Ok(())),
        Action::Launch => {
            if table.fail_fork {
                Event::Launched(Err(11))
            } else {
                let target = supervisor.target().unwrap();
                let argv = words(&target.argv().unwrap());
                table.launches.push((target.program.clone(), argv.clone()));
                let borrowed: Vec<&str> = argv.iter().map(|word| word.as_str()).collect();
                let primary = spawn(table, SUPERVISOR, &borrowed);
                for child in offspring {
                    spawn(table, primary, child);
                }
                Event::Launched(Ok(Pid::from_raw(primary).unwrap()))
            }
        },
        Action::InstallRelay { .. } => Event::RelayInstalled(true),
        Action::Signal { pid, signal } => Event::Signalled(deliver(table, pid.as_raw(), signal)),
        Action::Wait { pid } => Event::Waited(reap(table, pid.as_raw())),
        Action::Scan { parent } => {
            assert_eq!(
                children_path(parent),
                format!("/proc/{0}/task/{0}/children", parent.as_raw()).into_bytes()
            );
            Event::Scanned(Ok(listing(table, parent.as_raw())))
        },
        Action::Exit | Action::Abort(_) => unreachable!("the run has ended"),
    };
    (action, supervisor.step(event))
}

/// Drives the supervisor to the end of its run and returns what it asked
/// for on the way.
fn drive(supervisor: &mut Supervisor, table: &mut Table, offspring: &[&[&str]]) -> Vec<Action> {
    let mut asked: Vec<Action> = Vec::new();
    while supervisor.exit_status().is_none() {
        assert!(asked.len() < 1000, "the run does not end");
        let (action, report) = perform(supervisor, table, offspring);
        assert_eq!(report, None);
        asked.push(action);
    }
    asked.push(supervisor.action());
    asked
}

fn command_line_of(words: &[&str]) -> Vec<Vec<u8>> {
    words.iter().map(|word| word.as_bytes().to_vec()).collect()
}

fn handle(raw: i32) -> Pid {
    Pid::from_raw(raw).unwrap()
}

fn kill(raw: i32) -> Action {
    Action::Signal { pid: handle(raw), signal: Signal::Kill }
}

fn wait(raw: i32) -> Action {
    Action::Wait { pid: handle(raw) }
}

fn scan() -> Action {
    Action::Scan { parent: handle(SUPERVISOR) }
}

#[test]
fn primary_child_alone() {
    let mut table = table();
    let mut supervisor =
        Supervisor::new(false, handle(SUPERVISOR), command_line_of(&["supervisor", "/bin/true"]));
    let asked = drive(&mut supervisor, &mut table, &[]);
    assert_eq!(
        asked,
        vec![Action::RegisterSubreaper, Action::Launch, wait(100), scan(), Action::Exit]
    );
    assert_eq!(table.launches, vec![(b"/bin/true".to_vec(), vec!["true".to_string()])]);
    assert_eq!(supervisor.exit_status(), Some(0));
    assert!(table.processes.is_empty());
}

#[test]
fn orphaned_grandchild_is_killed_before_the_supervisor_exits() {
    let mut table = table();
    let mut supervisor = Supervisor::new(
        true,
        handle(SUPERVISOR),
        command_line_of(&["supervisor", "/bin/sh", "-c", "sleep 1000 & exit"]),
    );
    let asked = drive(&mut supervisor, &mut table, &[&["sleep", "1000"]]);
    assert_eq!(
        asked,
        vec![
            Action::RegisterSubreaper,
            Action::Launch,
            Action::InstallRelay { primary: handle(100) },
            wait(100),
            scan(),
            kill(101),
            wait(101),
            scan(),
            Action::Exit,
        ]
    );
    assert_eq!(supervisor.exit_status(), Some(0));
    assert_eq!(live(&table), Vec::<i32>::new());
    assert!(table.processes.is_empty());
}

#[test]
fn several_orphans_are_killed_in_one_round() {
    let mut table = table();
    let mut supervisor =
        Supervisor::new(false, handle(SUPERVISOR), command_line_of(&["supervisor", "./spawner"]));
    let asked = drive(&mut supervisor, &mut table, &[&["a"], &["b"], &["c"]]);
    assert_eq!(
        asked,
        vec![
            Action::RegisterSubreaper,
            Action::Launch,
            wait(100),
            scan(),
            kill(101),
            wait(101),
            kill(102),
            wait(102),
            kill(103),
            wait(103),
            scan(),
            Action::Exit,
        ]
    );
    assert!(table.processes.is_empty());
}

#[test]
fn orphan_that_appears_after_a_scan_is_killed_in_the_next_round() {
    let mut table = table();
    let mut supervisor =
        Supervisor::new(false, handle(SUPERVISOR), command_line_of(&["supervisor", "./nest"]));
    let mut asked: Vec<Action> = Vec::new();
    while supervisor.exit_status().is_none() {
        assert!(asked.len() < 100);
        let (action, report) = perform(&mut supervisor, &mut table, &[&["middle"]]);
        assert_eq!(report, None);
        if action == Action::Launch {
            // The grandchild 101 has a child of its own, which the scan of
            // the supervisor's children does not show while 101 lives.
            assert_eq!(spawn(&mut table, 101, &["innermost"]), 102);
        }
        if action == kill(101) {
            assert_eq!(listing(&table, SUPERVISOR), b"101 102 ".to_vec());
        }
        asked.push(action);
    }
    assert_eq!(
        asked,
        vec![
            Action::RegisterSubreaper,
            Action::Launch,
            wait(100),
            scan(),
            kill(101),
            wait(101),
            scan(),
            kill(102),
            wait(102),
            scan(),
        ]
    );
    assert_eq!(supervisor.action(), Action::Exit);
    assert!(table.processes.is_empty());
}

#[test]
fn orphan_that_appears_during_a_round_is_not_touched_in_that_round() {
    let mut table = table();
    let mut supervisor =
        Supervisor::new(false, handle(SUPERVISOR), command_line_of(&["supervisor", "./forker"]));
    let mut asked: Vec<Action> = Vec::new();
    let mut late = 0;
    while supervisor.exit_status().is_none() {
        assert!(asked.len() < 100);
        let (action, _) = perform(&mut supervisor, &mut table, &[&["one"], &["two"]]);
        if action == wait(101) {
            // An unrelated orphan is handed to the supervisor in the middle
            // of the round.
            late = spawn(&mut table, SUPERVISOR, &["late"]);
        }
        asked.push(action);
    }
    assert_eq!(late, 103);
    assert_eq!(
        asked,
        vec![
            Action::RegisterSubreaper,
            Action::Launch,
            wait(100),
            scan(),
            kill(101),
            wait(101),
            kill(102),
            wait(102),
            scan(),
            kill(103),
            wait(103),
            scan(),
        ]
    );
    assert!(table.processes.is_empty());
}

#[test]
fn interrupt_reaches_the_primary_child_and_nobody_else() {
    let mut table = table();
    let mut supervisor = Supervisor::new(
        true,
        handle(SUPERVISOR),
        command_line_of(&["supervisor", "/usr/bin/server", "--workers", "2"]),
    );
    let mut relayed_for: Option<Pid> = None;
    while !matches!(supervisor.phase(), Phase::AwaitingPrimary { .. }) {
        let (action, report) =
            perform(&mut supervisor, &mut table, &[&["worker", "1"], &["worker", "2"]]);
        assert_eq!(report, None);
        if let Action::InstallRelay { primary } = action {
            relayed_for = Some(primary);
        }
    }
    let primary = relayed_for.unwrap();
    assert_eq!(primary, handle(100));
    assert_eq!(live(&table), vec![100, 101, 102]);

    // The interrupt arrives while the supervisor waits for the primary child.
    let response = interrupt_response(primary);
    assert_eq!(response, Action::Signal { pid: handle(100), signal: Signal::Terminate });
    let outcome = match response {
        Action::Signal { pid, signal } => deliver(&mut table, pid.as_raw(), signal),
        _ => unreachable!(),
    };
    assert_eq!(interrupt_report(primary, outcome), None);
    assert_eq!(live(&table), vec![101, 102]);
    assert_eq!(supervisor.phase(), Phase::AwaitingPrimary { primary });
    assert_eq!(supervisor.action(), wait(100));

    // The run then goes on as after any end of the primary child.
    let asked = drive(&mut supervisor, &mut table, &[]);
    assert_eq!(
        asked,
        vec![wait(100), scan(), kill(101), wait(101), kill(102), wait(102), scan(), Action::Exit]
    );
    assert!(table.processes.is_empty());
}

#[test]
fn interrupt_that_the_primary_child_ignores_changes_nothing() {
    let mut table = table();
    let mut supervisor =
        Supervisor::new(true, handle(SUPERVISOR), command_line_of(&["supervisor", "./stubborn"]));
    while !matches!(supervisor.phase(), Phase::AwaitingPrimary { .. }) {
        perform(&mut supervisor, &mut table, &[&["helper"]]);
    }
    table.processes[0].heeds_terminate = false;
    for _ in 0..3 {
        match interrupt_response(handle(100)) {
            Action::Signal { pid, signal } => {
                assert_eq!(deliver(&mut table, pid.as_raw(), signal), Ok(()));
            },
            _ => unreachable!(),
        }
        assert_eq!(live(&table), vec![100, 101]);
        assert_eq!(supervisor.action(), wait(100));
    }
}

#[test]
fn interrupt_after_the_primary_child_is_gone_is_reported() {
    let mut table = table();
    let mut supervisor =
        Supervisor::new(true, handle(SUPERVISOR), command_line_of(&["supervisor", "/bin/true"]));
    let asked = drive(&mut supervisor, &mut table, &[]);
    assert_eq!(asked.last(), Some(&Action::Exit));
    let outcome = match interrupt_response(handle(100)) {
        Action::Signal { pid, signal } => deliver(&mut table, pid.as_raw(), signal),
        _ => unreachable!(),
    };
    assert_eq!(outcome, Err(NO_SUCH_PROCESS));
    assert_eq!(
        interrupt_report(handle(100), outcome),
        Some(Diagnostic::SignalFailed {
            pid: handle(100),
            signal: Signal::Terminate,
            errno: NO_SUCH_PROCESS
        })
    );
    assert_eq!(supervisor.action(), Action::Exit);
}

#[test]
fn sleep_is_launched_watched_and_cleaned_up() {
    let mut table = table();
    let mut supervisor = Supervisor::new(
        true,
        handle(SUPERVISOR),
        command_line_of(&["supervisor", "sleep", "100"]),
    );
    while !matches!(supervisor.phase(), Phase::AwaitingPrimary { .. }) {
        let (_, report) = perform(&mut supervisor, &mut table, &[]);
        assert_eq!(report, None);
    }
    assert_eq!(
        table.launches,
        vec![(b"sleep".to_vec(), vec!["sleep".to_string(), "100".to_string()])]
    );
    assert_eq!(
        table.processes,
        vec![Process {
            pid: 100,
            parent: SUPERVISOR,
            argv: vec!["sleep".to_string(), "100".to_string()],
            running: true,
            heeds_terminate: true,
        }]
    );
    let asked = drive(&mut supervisor, &mut table, &[]);
    assert_eq!(asked, vec![wait(100), scan(), Action::Exit]);
    assert_eq!(supervisor.exit_status(), Some(0));
    assert!(table.processes.is_empty());
}

#[test]
fn child_that_was_reaped_elsewhere_does_not_stop_the_run() {
    let mut table = table();
    let mut supervisor =
        Supervisor::new(false, handle(SUPERVISOR), command_line_of(&["supervisor", "./pair"]));
    let mut reports: Vec<Option<Diagnostic>> = Vec::new();
    let mut asked: Vec<Action> = Vec::new();
    while supervisor.exit_status().is_none() {
        assert!(asked.len() < 100);
        if supervisor.action() == kill(101) {
            // The child vanishes between the scan and the signal.
            table.processes.retain(|process| process.pid != 101);
        }
        let (action, report) = perform(&mut supervisor, &mut table, &[&["one"], &["two"]]);
        asked.push(action);
        reports.push(report);
    }
    assert_eq!(
        asked,
        vec![
            Action::RegisterSubreaper,
            Action::Launch,
            wait(100),
            scan(),
            kill(101),
            wait(101),
            kill(102),
            wait(102),
            scan(),
        ]
    );
    assert_eq!(
        reports,
        vec![
            None,
            None,
            None,
            None,
            Some(Diagnostic::SignalFailed {
                pid: handle(101),
                signal: Signal::Kill,
                errno: NO_SUCH_PROCESS
            }),
            Some(Diagnostic::WaitFailed { pid: handle(101), errno: NO_CHILD }),
            None,
            None,
            None,
        ]
    );
    assert_eq!(supervisor.exit_status(), Some(0));
}

#[test]
fn nothing_is_forked_without_a_program() {
    let mut table = table();
    let mut supervisor =
        Supervisor::new(true, handle(SUPERVISOR), command_line_of(&["supervisor"]));
    let asked = drive(&mut supervisor, &mut table, &[]);
    assert_eq!(
        asked,
        vec![Action::RegisterSubreaper, Action::Abort(FatalError::NotEnoughArguments)]
    );
    assert!(table.launches.is_empty());
    assert!(table.processes.is_empty());
    assert_eq!(supervisor.exit_status(), Some(1));
}

#[test]
fn failed_fork_leaves_nothing_to_clean_up() {
    let mut table = table();
    table.fail_fork = true;
    let mut supervisor =
        Supervisor::new(true, handle(SUPERVISOR), command_line_of(&["supervisor", "sleep", "1"]));
    let asked = drive(&mut supervisor, &mut table, &[]);
    assert_eq!(
        asked,
        vec![
            Action::RegisterSubreaper,
            Action::Launch,
            Action::Abort(FatalError::ForkFailed(11)),
        ]
    );
    assert!(table.processes.is_empty());
}
