//! The supervisor as a state machine.
//!
//! The machine always has one [`Action`] pending. The driver performs it and
//! hands what came of it to [`Supervisor::step`] as an [`Event`]; the machine
//! then moves on and the next action is pending. The run ends when the
//! pending action is [`Action::Exit`] or [`Action::Abort`].
//!
//! The order of a run is fixed: register as the adoption point of orphans,
//! launch the program, relay interrupts to it if so configured, wait for it
//! to end, then scan for children and kill and reap each one, round after
//! round, until a scan finds none.

use crate::listing::children;
use crate::listing::parse_children;
use crate::pid::Pid;
use crate::pid::Signal;
use crate::target::contents;
use crate::target::target_of;
use crate::target::Target;
use crate::target::TargetSpec;
use vstd::prelude::*;

verus! {

/// The status of a process that leaves after it did what it was there for.
pub const EXIT_SUCCESS: i32 = 0;

/// The status of a process that gave up: the supervisor after a fatal error,
/// and the child in which the program could not be started.
pub const EXIT_FAILURE: i32 = 1;

/// A failure that ends the supervisor.
#[derive(Clone, Copy, Debug, PartialEq, Eq, Structural)]
pub enum FatalError {
    /// The command line names no program to launch.
    NotEnoughArguments,
    /// No child process could be created; the number is the system's error
    /// code.
    ForkFailed(i32),
    /// The relay for interrupts could not be installed.
    RelayFailed,
    /// The listing of children could not be read; the number is the system's
    /// error code.
    ListingUnreadable(i32),
    /// The listing of children holds a word that is no process number.
    ListingMalformed,
}

/// A failure that is reported and otherwise passed over.
#[derive(Clone, Copy, Debug, PartialEq, Eq, Structural)]
pub enum Diagnostic {
    /// The supervisor could not register as the adoption point of orphans.
    SubreaperFailed { errno: i32 },
    /// A signal could not be sent.
    SignalFailed { pid: Pid, signal: Signal, errno: i32 },
    /// A process could not be waited for.
    WaitFailed { pid: Pid, errno: i32 },
    /// The event does not answer the pending action and was ignored.
    UnexpectedEvent,
}

/// Where a run stands.
#[derive(Clone, Copy, Debug, PartialEq, Eq, Structural)]
pub enum Phase {
    /// About to register as the adoption point of orphans.
    Registering,
    /// About to launch the program.
    Launching,
    /// About to install the relay that forwards interrupts to the primary
    /// child.
    InstallingRelay { primary: Pid },
    /// Waiting for the primary child to end.
    AwaitingPrimary { primary: Pid },
    /// About to list the children that are left.
    Scanning,
    /// About to kill a child that the last scan found.
    Signalling { pid: Pid },
    /// Waiting for a child that was just sent the kill signal.
    Reaping { pid: Pid },
    /// A scan found no child: nothing is left to do.
    Done,
    /// The run was given up.
    Failed(FatalError),
}

/// What the driver is asked to do.
#[derive(Clone, Copy, Debug, PartialEq, Eq, Structural)]
pub enum Action {
    /// Register the supervisor as the adoption point of orphans.
    RegisterSubreaper,
    /// Create a child process that runs the target.
    Launch,
    /// Arrange that each interrupt is answered as [`interrupt_response`]
    /// says.
    InstallRelay { primary: Pid },
    /// Send `signal` to the process `pid`.
    Signal { pid: Pid, signal: Signal },
    /// Block until the process `pid` has ended, and reap it.
    Wait { pid: Pid },
    /// Read the listing of the direct children of `parent`.
    Scan { parent: Pid },
    /// Leave with success.
    Exit,
    /// Leave with a failure.
    Abort(FatalError),
}

/// What came of an action.
#[derive(Debug)]
pub enum Event {
    /// Answer to [`Action::RegisterSubreaper`]; on failure, the system's
    /// error code.
    Registered(Result<(), i32>),
    /// Answer to [`Action::Launch`], as seen in the parent: the child's
    /// handle, or the system's error code.
    Launched(Result<Pid, i32>),
    /// Answer to [`Action::InstallRelay`]: whether the relay is in place.
    RelayInstalled(bool),
    /// Answer to [`Action::Signal`]; on failure, the system's error code.
    Signalled(Result<(), i32>),
    /// Answer to [`Action::Wait`]; on failure, the system's error code.
    Waited(Result<(), i32>),
    /// Answer to [`Action::Scan`]: the bytes of the listing, or the system's
    /// error code.
    Scanned(Result<Vec<u8>, i32>),
}

/// The state of a run.
pub struct State {
    /// Whether interrupts are relayed to the primary child.
    pub relay: bool,
    /// The supervisor's own process.
    pub own: Pid,
    /// The program to launch, if the command line names one.
    pub target: Option<Target>,
    /// Where the run stands.
    pub phase: Phase,
    /// The children that the last scan found and that are still to be
    /// killed and reaped, after the one in hand.
    pub queue: Seq<Pid>,
}

impl State {
    /// Whether the run is in a round of killing and reaping.
    pub open spec fn in_round(self) -> bool {
        self.phase is Signalling || self.phase is Reaping
    }

    /// The states that a run can be in: a launch is pending only where
    /// there is something to launch, and children are queued only during a
    /// round.
    pub open spec fn wf(self) -> bool {
        &&& self.phase is Launching ==> self.target is Some
        &&& !self.in_round() ==> self.queue.len() == 0
    }

    /// This state in another phase.
    pub open spec fn enter(self, phase: Phase) -> State {
        State { phase, ..self }
    }

    /// Takes the next child from the queue in hand; with none left, enters
    /// `otherwise`.
    pub open spec fn take_next(self, otherwise: Phase) -> State {
        if self.queue.len() > 0 {
            State {
                phase: Phase::Signalling { pid: self.queue[0] },
                queue: self.queue.skip(1),
                ..self
            }
        } else {
            self.enter(otherwise)
        }
    }
}

/// The state in which a run starts.
pub open spec fn initial(relay: bool, own: Pid, args: Seq<Seq<u8>>) -> State {
    State {
        relay,
        own,
        target: target_of(args),
        phase: Phase::Registering,
        queue: Seq::empty(),
    }
}

/// The action that is pending in state `s`.
pub open spec fn pending(s: State) -> Action {
    match s.phase {
        Phase::Registering => Action::RegisterSubreaper,
        Phase::Launching => Action::Launch,
        Phase::InstallingRelay { primary } => Action::InstallRelay { primary },
        Phase::AwaitingPrimary { primary } => Action::Wait { pid: primary },
        Phase::Scanning => Action::Scan { parent: s.own },
        Phase::Signalling { pid } => Action::Signal { pid, signal: Signal::Kill },
        Phase::Reaping { pid } => Action::Wait { pid },
        Phase::Done => Action::Exit,
        Phase::Failed(error) => Action::Abort(error),
    }
}

/// Whether `event` is of the kind that answers `action`.
pub open spec fn answers(action: Action, event: Event) -> bool {
    match action {
        Action::RegisterSubreaper => event is Registered,
        Action::Launch => event is Launched,
        Action::InstallRelay { .. } => event is RelayInstalled,
        Action::Signal { .. } => event is Signalled,
        Action::Wait { .. } => event is Waited,
        Action::Scan { .. } => event is Scanned,
        Action::Exit => false,
        Action::Abort(_) => false,
    }
}

/// The state that follows `s` on `event`. An event that does not answer the
/// pending action changes nothing.
pub open spec fn next(s: State, event: Event) -> State {
    if !answers(pending(s), event) {
        s
    } else {
        match event {
            Event::Registered(_) => s.enter(
                if s.target is Some {
                    Phase::Launching
                } else {
                    Phase::Failed(FatalError::NotEnoughArguments)
                },
            ),
            Event::Launched(Ok(primary)) => s.enter(
                if s.relay {
                    Phase::InstallingRelay { primary }
                } else {
                    Phase::AwaitingPrimary { primary }
                },
            ),
            Event::Launched(Err(errno)) => s.enter(Phase::Failed(FatalError::ForkFailed(errno))),
            Event::RelayInstalled(installed) => s.enter(
                if installed {
                    Phase::AwaitingPrimary { primary: s.phase->InstallingRelay_primary }
                } else {
                    Phase::Failed(FatalError::RelayFailed)
                },
            ),
            Event::Signalled(_) => s.enter(Phase::Reaping { pid: s.phase->Signalling_pid }),
            Event::Waited(_) => if s.phase is AwaitingPrimary {
                s.enter(Phase::Scanning)
            } else {
                s.take_next(Phase::Scanning)
            },
            Event::Scanned(Ok(listing)) => match children(listing@) {
                Some(found) => State { queue: found, ..s }.take_next(Phase::Done),
                None => s.enter(Phase::Failed(FatalError::ListingMalformed)),
            },
            Event::Scanned(Err(errno)) => s.enter(
                Phase::Failed(FatalError::ListingUnreadable(errno)),
            ),
        }
    }
}

/// What is reported when `event` arrives in state `s`: the failure of an
/// action that the run survives, or that the event was not expected.
pub open spec fn diagnosis(s: State, event: Event) -> Option<Diagnostic> {
    if !answers(pending(s), event) {
        Some(Diagnostic::UnexpectedEvent)
    } else {
        match event {
            Event::Registered(Err(errno)) => Some(Diagnostic::SubreaperFailed { errno }),
            Event::Signalled(Err(errno)) => Some(
                Diagnostic::SignalFailed {
                    pid: s.phase->Signalling_pid,
                    signal: Signal::Kill,
                    errno,
                },
            ),
            Event::Waited(Err(errno)) => Some(
                Diagnostic::WaitFailed { pid: pending(s)->Wait_pid, errno },
            ),
            _ => None,
        }
    }
}

/// The status that the supervisor leaves with once the run has ended:
/// success after a scan that found no child, failure after a fatal error.
/// How the primary child ended has no part in it.
pub open spec fn exit_status_of(phase: Phase) -> Option<i32> {
    match phase {
        Phase::Done => Some(EXIT_SUCCESS),
        Phase::Failed(_) => Some(EXIT_FAILURE),
        _ => None,
    }
}

/// The answer to an interrupt: the primary child, and no other process, is
/// asked to shut down.
pub open spec fn relayed(primary: Pid) -> Action {
    Action::Signal { pid: primary, signal: Signal::Terminate }
}

/// What is reported of an attempt to answer an interrupt: nothing where the
/// signal was sent, the failure where it was not. The run goes on either
/// way.
pub open spec fn relay_diagnosis(primary: Pid, outcome: Result<(), i32>) -> Option<Diagnostic> {
    match outcome {
        Ok(_) => None,
        Err(errno) => Some(
            Diagnostic::SignalFailed { pid: primary, signal: Signal::Terminate, errno },
        ),
    }
}

/// A run of the supervisor.
#[derive(Debug)]
pub struct Supervisor {
    relay: bool,
    own: Pid,
    target: Option<TargetSpec>,
    phase: Phase,
    found: Vec<Pid>,
    taken: usize,
}

impl View for Supervisor {
    type V = State;

    closed spec fn view(&self) -> State {
        State {
            relay: self.relay,
            own: self.own,
            target: match self.target {
                Some(target) => Some(target@),
                None => None,
            },
            phase: self.phase,
            queue: self.found@.skip(self.taken as int),
        }
    }
}

impl Supervisor {
    #[verifier::type_invariant]
    spec fn inv(&self) -> bool {
        &&& self.taken <= self.found@.len()
        &&& self@.wf()
    }

    /// Starts a run. `relay_interrupt` says whether interrupts are relayed to
    /// the primary child, `own` is the supervisor's own process, and `args`
    /// is its command line, its own name first.
    pub fn new(relay_interrupt: bool, own: Pid, args: Vec<Vec<u8>>) -> (supervisor: Supervisor)
        ensures
            supervisor@ == initial(relay_interrupt, own, contents(args@)),
    {
        let target: Option<TargetSpec> = match TargetSpec::from_args(args) {
            Ok(target) => Some(target),
            Err(_) => None,
        };
        let supervisor = Supervisor {
            relay: relay_interrupt,
            own,
            target,
            phase: Phase::Registering,
            found: Vec::new(),
            taken: 0,
        };
        proof {
            assert(supervisor@.queue =~= Seq::empty());
        }
        supervisor
    }

    /// The action that is pending.
    pub fn action(&self) -> (action: Action)
        ensures
            action == pending(self@),
    {
        match self.phase {
            Phase::Registering => Action::RegisterSubreaper,
            Phase::Launching => Action::Launch,
            Phase::InstallingRelay { primary } => Action::InstallRelay { primary },
            Phase::AwaitingPrimary { primary } => Action::Wait { pid: primary },
            Phase::Scanning => Action::Scan { parent: self.own },
            Phase::Signalling { pid } => Action::Signal { pid, signal: Signal::Kill },
            Phase::Reaping { pid } => Action::Wait { pid },
            Phase::Done => Action::Exit,
            Phase::Failed(error) => Action::Abort(error),
        }
    }

    /// Where the run stands.
    pub fn phase(&self) -> (phase: Phase)
        ensures
            phase == self@.phase,
    {
        self.phase
    }

    /// The program to launch. There is one whenever a launch is pending.
    pub fn target(&self) -> (target: Option<&TargetSpec>)
        ensures
            match target {
                Some(t) => self@.target == Some(t@),
                None => self@.target is None,
            },
            self@.phase is Launching ==> target is Some,
    {
        proof {
            use_type_invariant(self);
        }
        self.target.as_ref()
    }

    /// The status to leave with, once the run has ended.
    pub fn exit_status(&self) -> (status: Option<i32>)
        ensures
            status == exit_status_of(self@.phase),
    {
        match self.phase {
            Phase::Done => Some(EXIT_SUCCESS),
            Phase::Failed(_) => Some(EXIT_FAILURE),
            _ => None,
        }
    }

    /// Takes in what came of the pending action and moves on. Returns what
    /// is to be reported of it, if anything.
    pub fn step(&mut self, event: Event) -> (report: Option<Diagnostic>)
        ensures
            final(self)@ == next(old(self)@, event),
            report == diagnosis(old(self)@, event),
    {
        proof {
            use_type_invariant(&*self);
        }
        match (self.phase, event) {
            (Phase::Registering, Event::Registered(outcome)) => {
                self.phase = if self.target.is_some() {
                    Phase::Launching
                } else {
                    Phase::Failed(FatalError::NotEnoughArguments)
                };
                match outcome {
                    Ok(_) => None,
                    Err(errno) => Some(Diagnostic::SubreaperFailed { errno }),
                }
            },
            (Phase::Launching, Event::Launched(Ok(primary))) => {
                self.phase = if self.relay {
                    Phase::InstallingRelay { primary }
                } else {
                    Phase::AwaitingPrimary { primary }
                };
                None
            },
            (Phase::Launching, Event::Launched(Err(errno))) => {
                self.phase = Phase::Failed(FatalError::ForkFailed(errno));
                None
            },
            (Phase::InstallingRelay { primary }, Event::RelayInstalled(installed)) => {
                self.phase = if installed {
                    Phase::AwaitingPrimary { primary }
                } else {
                    Phase::Failed(FatalError::RelayFailed)
                };
                None
            },
            (Phase::AwaitingPrimary { primary }, Event::Waited(outcome)) => {
                self.phase = Phase::Scanning;
                match outcome {
                    Ok(_) => None,
                    Err(errno) => Some(Diagnostic::WaitFailed { pid: primary, errno }),
                }
            },
            (Phase::Scanning, Event::Scanned(Ok(listing))) => {
                match parse_children(listing.as_slice()) {
                    Some(found) => {
                        if found.len() > 0 {
                            let ghost all = found@;
                            self.phase = Phase::Signalling { pid: found[0] };
                            self.taken = 0;
                            self.found = found;
                            self.taken = 1;
                            proof {
                                assert(self@.queue =~= all.skip(1));
                            }
                        } else {
                            self.phase = Phase::Done;
                            proof {
                                assert(self@.queue =~= found@);
                            }
                        }
                    },
                    None => {
                        self.phase = Phase::Failed(FatalError::ListingMalformed);
                    },
                }
                None
            },
            (Phase::Scanning, Event::Scanned(Err(errno))) => {
                self.phase = Phase::Failed(FatalError::ListingUnreadable(errno));
                None
            },
            (Phase::Signalling { pid }, Event::Signalled(outcome)) => {
                self.phase = Phase::Reaping { pid };
                match outcome {
                    Ok(_) => None,
                    Err(errno) => Some(
                        Diagnostic::SignalFailed { pid, signal: Signal::Kill, errno },
                    ),
                }
            },
            (Phase::Reaping { pid }, Event::Waited(outcome)) => {
                if self.taken < self.found.len() {
                    self.phase = Phase::Signalling { pid: self.found[self.taken] };
                    self.taken = self.taken + 1;
                    proof {
                        assert(self@.queue =~= old(self)@.queue.skip(1));
                    }
                } else {
                    self.phase = Phase::Scanning;
                }
                match outcome {
                    Ok(_) => None,
                    Err(errno) => Some(Diagnostic::WaitFailed { pid, errno }),
                }
            },
            _ => Some(Diagnostic::UnexpectedEvent),
        }
    }
}

/// What to do when an interrupt arrives: ask the primary child, and no
/// other process, to shut down.
pub fn interrupt_response(primary: Pid) -> (action: Action)
    ensures
        action == relayed(primary),
{
    Action::Signal { pid: primary, signal: Signal::Terminate }
}

/// What to report once the answer to an interrupt was attempted; `outcome`
/// holds the system's error code where the signal could not be sent.
pub fn interrupt_report(primary: Pid, outcome: Result<(), i32>) -> (report: Option<Diagnostic>)
    ensures
        report == relay_diagnosis(primary, outcome),
{
    match outcome {
        Ok(_) => None,
        Err(errno) => Some(
            Diagnostic::SignalFailed { pid: primary, signal: Signal::Terminate, errno },
        ),
    }
}

} // verus!
