//! What holds of every run of the supervisor, whatever the driver reports.

use crate::listing::children;
use crate::listing::lemma_children;
use crate::pid::Pid;
use crate::pid::Signal;
use crate::supervisor::initial;
use crate::supervisor::next;
use crate::supervisor::pending;
use crate::supervisor::Action;
use crate::supervisor::Event;
use crate::supervisor::FatalError;
use crate::supervisor::Phase;
use crate::supervisor::State;
use vstd::prelude::*;

verus! {

/// The state that `s` has become once `events` have arrived, one after
/// another.
pub open spec fn run(s: State, events: Seq<Event>) -> State
    decreases events.len(),
{
    if events.len() == 0 {
        s
    } else {
        run(next(s, events[0]), events.skip(1))
    }
}

/// The actions that the driver was asked for while `events` arrived: the
/// action pending at the start, then the one pending after each event but
/// the last.
pub open spec fn asked(s: State, events: Seq<Event>) -> Seq<Action>
    decreases events.len(),
{
    if events.len() == 0 {
        Seq::empty()
    } else {
        seq![pending(s)] + asked(next(s, events[0]), events.skip(1))
    }
}

/// Whether `events` answer a round over `n` children: for each child an
/// answer to the signal, then an answer to the wait, whatever their
/// outcomes.
pub open spec fn answers_round(events: Seq<Event>, n: nat) -> bool {
    &&& events.len() == 2 * n
    &&& forall|i: int|
        0 <= i < events.len() ==> if i % 2 == 0 {
            #[trigger] events[i] is Signalled
        } else {
            events[i] is Waited
        }
}

/// What a round over the children `found` asks for: for each child in turn,
/// the kill signal and then a wait.
pub open spec fn round_actions(found: Seq<Pid>) -> Seq<Action> {
    Seq::new(
        2 * found.len(),
        |i: int|
            if i % 2 == 0 {
                Action::Signal { pid: found[i / 2], signal: Signal::Kill }
            } else {
                Action::Wait { pid: found[i / 2] }
            },
    )
}

/// Whether the primary child has not been waited for yet.
pub open spec fn before_reaping(phase: Phase) -> bool {
    phase is Registering || phase is Launching || phase is InstallingRelay
        || phase is AwaitingPrimary
}

/// Whether `event` tells the supervisor of the process `pid`: as the child
/// that a launch created, or as a child that a scan found.
pub open spec fn tells_of(event: Event, pid: Pid) -> bool {
    match event {
        Event::Launched(Ok(child)) => child == pid,
        Event::Scanned(Ok(listing)) => children(listing@) is Some && children(
            listing@,
        )->0.contains(pid),
        _ => false,
    }
}

/// Whether one of `events` tells of `pid`.
pub open spec fn told_of(events: Seq<Event>, pid: Pid) -> bool {
    exists|i: int| 0 <= i < events.len() && tells_of(#[trigger] events[i], pid)
}

/// The process that `action` is aimed at, where it is aimed at another
/// process.
pub open spec fn aim(action: Action) -> Option<Pid> {
    match action {
        Action::InstallRelay { primary } => Some(primary),
        Action::Signal { pid, .. } => Some(pid),
        Action::Wait { pid } => Some(pid),
        _ => None,
    }
}

/// Whether the state `s` holds the process `pid`: as the process in hand or
/// in the queue.
pub open spec fn holds(s: State, pid: Pid) -> bool {
    aim(pending(s)) == Some(pid) || s.queue.contains(pid)
}

/// A run starts in a state that a run can be in.
pub proof fn lemma_initial_wf(relay: bool, own: Pid, args: Seq<Seq<u8>>)
    ensures
        initial(relay, own, args).wf(),
{
}

/// No event leads out of the states that a run can be in.
pub proof fn lemma_next_wf(s: State, event: Event)
    requires
        s.wf(),
    ensures
        next(s, event).wf(),
{
}

/// A command line that names no program never leads to a launch: the first
/// answer to the registration fails the run, and whatever events arrive, the
/// run is either still about to register or has failed for want of
/// arguments.
pub proof fn lemma_no_program_no_launch(
    relay: bool,
    own: Pid,
    args: Seq<Seq<u8>>,
    events: Seq<Event>,
)
    requires
        args.len() < 2,
    ensures
        forall|outcome: Result<(), i32>|
            #[trigger] next(initial(relay, own, args), Event::Registered(outcome)).phase
                == Phase::Failed(FatalError::NotEnoughArguments),
        ({
            let end = run(initial(relay, own, args), events);
            end.phase is Registering || end.phase == Phase::Failed(
                FatalError::NotEnoughArguments,
            )
        }),
        forall|i: int|
            0 <= i < events.len() ==> {
                let action = #[trigger] asked(initial(relay, own, args), events)[i];
                action is RegisterSubreaper || action is Abort
            },
{
    lemma_stuck_without_program(initial(relay, own, args), events);
}

proof fn lemma_stuck_without_program(s: State, events: Seq<Event>)
    requires
        s.target is None,
        s.phase is Registering || s.phase == Phase::Failed(FatalError::NotEnoughArguments),
    ensures
        run(s, events).phase is Registering || run(s, events).phase == Phase::Failed(
            FatalError::NotEnoughArguments,
        ),
        asked(s, events).len() == events.len(),
        forall|i: int|
            0 <= i < events.len() ==> {
                let action = #[trigger] asked(s, events)[i];
                action is RegisterSubreaper || action is Abort
            },
    decreases events.len(),
{
    if events.len() > 0 {
        lemma_stuck_without_program(next(s, events[0]), events.skip(1));
    }
}

/// The supervisor leaves with success only after a scan that found no
/// child: the one step into [`Phase::Done`] is from [`Phase::Scanning`], on
/// a listing that names nothing.
pub proof fn lemma_exit_only_after_empty_scan(s: State, event: Event)
    requires
        s.phase !is Done,
        next(s, event).phase is Done,
    ensures
        s.phase is Scanning,
        event matches Event::Scanned(Ok(listing)) && children(listing@) == Some(
            Seq::<Pid>::empty(),
        ),
{
    if let Event::Scanned(Ok(listing)) = event {
        assert(children(listing@)->0 =~= Seq::<Pid>::empty());
    }
}

/// A scan that finds children starts a round, and the round deals with each
/// of them once: whatever comes of the signals and the waits, the supervisor
/// asks for the kill signal to each child that the scan found and then for a
/// wait for that child, in the order of the listing and no child twice, and
/// after the last wait it is about to scan again, with no other change to
/// its state.
pub proof fn lemma_round(s: State, listing: Vec<u8>, answers: Seq<Event>)
    requires
        s.wf(),
        s.phase is Scanning,
        children(listing@) is Some,
        children(listing@)->0.len() > 0,
        answers_round(answers, children(listing@)->0.len()),
    ensures
        children(listing@)->0.no_duplicates(),
        asked(next(s, Event::Scanned(Ok(listing))), answers) == round_actions(
            children(listing@)->0,
        ),
        run(next(s, Event::Scanned(Ok(listing))), answers) == s,
{
    lemma_children(listing@);
    let found = children(listing@)->0;
    let start = next(s, Event::Scanned(Ok(listing)));
    lemma_rest_of_round(start, answers);
    assert(seq![found[0]] + found.skip(1) =~= found);
    assert(s.queue =~= Seq::<Pid>::empty());
}

proof fn lemma_rest_of_round(s: State, answers: Seq<Event>)
    requires
        s.phase is Signalling,
        answers_round(answers, 1 + s.queue.len()),
    ensures
        asked(s, answers) == round_actions(seq![s.phase->Signalling_pid] + s.queue),
        run(s, answers) == (State { phase: Phase::Scanning, queue: Seq::empty(), ..s }),
    decreases s.queue.len(),
{
    let pid = s.phase->Signalling_pid;
    let signalled = next(s, answers[0]);
    let waited = next(signalled, answers[1]);
    let rest = answers.skip(2);
    assert(answers[0] is Signalled && answers[1] is Waited);
    assert(answers.skip(1).skip(1) =~= rest);
    assert(answers.skip(1)[0] == answers[1]);
    assert(asked(signalled, answers.skip(1)) == seq![pending(signalled)] + asked(waited, rest));
    assert(asked(s, answers) == seq![pending(s)] + asked(signalled, answers.skip(1)));
    assert(run(signalled, answers.skip(1)) == run(waited, rest));
    assert(run(s, answers) == run(signalled, answers.skip(1)));
    if s.queue.len() > 0 {
        assert forall|i: int| 0 <= i < rest.len() implies if i % 2 == 0 {
            #[trigger] rest[i] is Signalled
        } else {
            rest[i] is Waited
        } by {
            assert(rest[i] == answers[i + 2]);
        }
        lemma_rest_of_round(waited, rest);
        assert(seq![s.queue[0]] + s.queue.skip(1) =~= s.queue);
        assert(asked(s, answers) =~= round_actions(seq![pid] + s.queue));
    } else {
        assert(rest.len() == 0);
        assert(asked(s, answers) =~= round_actions(seq![pid] + s.queue));
        assert(waited.queue =~= Seq::<Pid>::empty());
    }
}

/// Nothing is signalled before the primary child has been waited for: as
/// long as a run has not come to its first scan, the driver was asked for no
/// signal.
pub proof fn lemma_no_signal_before_reaping(s: State, events: Seq<Event>)
    requires
        before_reaping(run(s, events).phase),
    ensures
        before_reaping(s.phase),
        asked(s, events).len() == events.len(),
        forall|i: int| 0 <= i < events.len() ==> !(#[trigger] asked(s, events)[i] is Signal),
    decreases events.len(),
{
    if events.len() > 0 {
        lemma_no_signal_before_reaping(next(s, events[0]), events.skip(1));
    }
}

/// A run that ends with success has seen a scan that found no child.
pub proof fn lemma_success_after_empty_scan(s: State, events: Seq<Event>)
    requires
        s.phase !is Done,
        run(s, events).phase is Done,
    ensures
        exists|i: int|
            0 <= i < events.len() && (#[trigger] events[i] matches Event::Scanned(Ok(listing))
                && children(listing@) == Some(Seq::<Pid>::empty())),
    decreases events.len(),
{
    let after = next(s, events[0]);
    if after.phase is Done {
        lemma_exit_only_after_empty_scan(s, events[0]);
    } else {
        lemma_success_after_empty_scan(after, events.skip(1));
        let i = choose|i: int|
            0 <= i < events.skip(1).len() && (#[trigger] events.skip(1)[i] matches Event::Scanned(
                Ok(listing),
            ) && children(listing@) == Some(Seq::<Pid>::empty()));
        assert(events[i + 1] == events.skip(1)[i]);
    }
}

/// The supervisor aims at no process that it was not told of: whenever it
/// asks for a signal to a process, for a wait for it or for a relay to it,
/// an earlier event of the run has named that process, as the child that
/// the launch created or as a child that a scan found.
pub proof fn lemma_aims_at_the_told(
    relay: bool,
    own: Pid,
    args: Seq<Seq<u8>>,
    events: Seq<Event>,
    i: int,
)
    requires
        0 <= i < events.len(),
    ensures
        asked(initial(relay, own, args), events).len() == events.len(),
        aim(asked(initial(relay, own, args), events)[i]) matches Some(pid) ==> told_of(
            events.take(i),
            pid,
        ),
{
    let start = initial(relay, own, args);
    assert forall|pid: Pid| holds(start, pid) implies told_of(Seq::<Event>::empty(), pid) by {}
    lemma_aims_from(start, Seq::empty(), events, i);
    assert(Seq::<Event>::empty() + events.take(i) =~= events.take(i));
}

proof fn lemma_told_later(history: Seq<Event>, event: Event, pid: Pid)
    requires
        told_of(history, pid) || tells_of(event, pid),
    ensures
        told_of(history.push(event), pid),
{
    let longer = history.push(event);
    if told_of(history, pid) {
        let k = choose|k: int| 0 <= k < history.len() && tells_of(#[trigger] history[k], pid);
        assert(tells_of(longer[k], pid));
    } else {
        assert(tells_of(longer[history.len() as int], pid));
    }
}

proof fn lemma_holds_the_told(s: State, history: Seq<Event>, event: Event)
    requires
        forall|pid: Pid| holds(s, pid) ==> told_of(history, pid),
    ensures
        forall|pid: Pid| holds(next(s, event), pid) ==> told_of(history.push(event), pid),
{
    let after = next(s, event);
    assert forall|pid: Pid| holds(after, pid) implies told_of(history.push(event), pid) by {
        if holds(s, pid) {
            lemma_told_later(history, event, pid);
        } else if tells_of(event, pid) {
            lemma_told_later(history, event, pid);
        } else {
            if after.queue.contains(pid) {
                let k = choose|k: int| 0 <= k < after.queue.len() && after.queue[k] == pid;
                if let Event::Scanned(Ok(listing)) = event {
                    if s.phase is Scanning {
                        let found = children(listing@)->0;
                        assert(found[k + 1] == pid);
                    }
                }
                if s.phase is Reaping {
                    assert(s.queue[k + 1] == pid);
                }
            }
            if let Event::Scanned(Ok(listing)) = event {
                if s.phase is Scanning && children(listing@) is Some {
                    let found = children(listing@)->0;
                    if found.len() > 0 {
                        assert(found[0] == after.phase->Signalling_pid);
                    }
                }
            }
            if s.phase is Reaping && s.queue.len() > 0 {
                assert(s.queue[0] == after.phase->Signalling_pid);
            }
            assert(false);
        }
    }
}

proof fn lemma_aims_from(s: State, history: Seq<Event>, events: Seq<Event>, i: int)
    requires
        forall|pid: Pid| holds(s, pid) ==> told_of(history, pid),
        0 <= i < events.len(),
    ensures
        asked(s, events).len() == events.len(),
        aim(asked(s, events)[i]) matches Some(pid) ==> told_of(history + events.take(i), pid),
    decreases events.len(),
{
    lemma_asked_len(s, events);
    if i == 0 {
        assert(history + events.take(0) =~= history);
    } else {
        lemma_holds_the_told(s, history, events[0]);
        lemma_aims_from(next(s, events[0]), history.push(events[0]), events.skip(1), i - 1);
        assert(history.push(events[0]) + events.skip(1).take(i - 1) =~= history + events.take(i));
    }
}

proof fn lemma_asked_len(s: State, events: Seq<Event>)
    ensures
        asked(s, events).len() == events.len(),
    decreases events.len(),
{
    if events.len() > 0 {
        lemma_asked_len(next(s, events[0]), events.skip(1));
    }
}

} // verus!
