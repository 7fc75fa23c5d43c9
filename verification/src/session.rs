//! The decisions around the run of a command: what to do with its signals, when to report, and how to
//! end.

use vstd::prelude::*;

verus! {

/// How many milliseconds pass between two snapshots.
pub const OBSERVATION_INTERVAL_MILLIS: u64 = 50;

/// A message for the user, and the status to exit with.
pub struct Failure {
    pub message: String,
    pub exit_code: i32,
}

/// What became of the command since it was last asked after.
pub enum WaitEvent {
    /// It runs.
    Running,
    /// It has ended, with a code or by a signal.
    Ended { exit_code: Option<i32>, termination_signal: Option<i32> },
    /// It could not be asked after.
    Lost,
}

/// A signal for a process.
#[derive(Clone, Copy)]
pub struct Delivery {
    pub pid: i32,
    pub signal: i32,
}

/// What to do after an event.
pub enum Step {
    /// Deliver the signal, take a snapshot in which the command is expected, and wait.
    Sample { delivery: Option<Delivery> },
    /// Take a last snapshot, report, and end.
    Report { exit_code: Option<i32>, termination_signal: Option<i32> },
    /// Say that the command was lost, and end.
    GiveUp,
}

/// How to end after the report.
pub enum Ending {
    /// Exit with a code.
    Exit { code: i32 },
    /// End by the signal that ended the command; where that fails, exit with a code.
    Signal { signal: i32, fallback: i32 },
}

/// The signals that are passed on to the command: hangup, interrupt, quit and termination.
pub open spec fn forwarded_signals() -> Seq<i32> {
    seq![1, 2, 3, 15]
}

/// The signals for which a handler is installed before the command starts.
pub fn install_signal_handlers() -> (signals: Vec<i32>)
    ensures
        signals@ == forwarded_signals(),
{
    let mut signals: Vec<i32> = Vec::new();
    signals.push(1);
    signals.push(2);
    signals.push(3);
    signals.push(15);
    assert(signals@ =~= forwarded_signals());
    signals
}

/// The signal that waits after one was received: the first of several that were received since one
/// was last passed on. Zero stands for none.
pub open spec fn waiting_after(pending_signal: i32, received: i32) -> i32 {
    if pending_signal == 0 {
        received
    } else {
        pending_signal
    }
}

/// Takes in that a signal was received. A signal that waits already keeps its place.
pub fn record_signal(pending_signal: &mut i32, received: i32)
    ensures
        *final(pending_signal) == waiting_after(*old(pending_signal), received),
{
    if *pending_signal == 0 {
        *pending_signal = received;
    }
}

/// A signal that waits is delivered to the command, unless its identifier is out of the range of
/// those that can be addressed.
pub open spec fn delivery_of(pending_signal: i32, child_pid: u32) -> Option<Delivery> {
    if pending_signal == 0 || child_pid > i32::MAX {
        None
    } else {
        Some(Delivery { pid: child_pid as i32, signal: pending_signal })
    }
}

/// Takes the signal that may wait, so that none waits any more, and tells where to deliver it.
pub fn forward_pending_signal(pending_signal: &mut i32, child_pid: u32) -> (delivery: Option<
    Delivery,
>)
    ensures
        delivery == delivery_of(*old(pending_signal), child_pid),
        *final(pending_signal) == 0,
{
    let signal: i32 = *pending_signal;
    *pending_signal = 0;
    if signal == 0 || child_pid > 0x7fff_ffff {
        None
    } else {
        Some(Delivery { pid: child_pid as i32, signal })
    }
}

/// What to do after an event.
pub open spec fn step_of(event: WaitEvent, pending_signal: i32, child_pid: u32) -> Step {
    match event {
        WaitEvent::Running => Step::Sample { delivery: delivery_of(pending_signal, child_pid) },
        WaitEvent::Ended { exit_code, termination_signal } => Step::Report {
            exit_code,
            termination_signal,
        },
        WaitEvent::Lost => Step::GiveUp,
    }
}

/// The signal that waits after an event: none where the command runs, for it was taken.
pub open spec fn waiting_after_event(event: WaitEvent, pending_signal: i32) -> i32 {
    if event is Running {
        0
    } else {
        pending_signal
    }
}

/// What to do after an event. Where the command runs, the signal that waits is taken.
pub fn next_step(event: WaitEvent, pending_signal: &mut i32, child_pid: u32) -> (step: Step)
    ensures
        step == step_of(event, *old(pending_signal), child_pid),
        *final(pending_signal) == waiting_after_event(event, *old(pending_signal)),
{
    match event {
        WaitEvent::Running => Step::Sample {
            delivery: forward_pending_signal(pending_signal, child_pid),
        },
        WaitEvent::Ended { exit_code, termination_signal } => Step::Report {
            exit_code,
            termination_signal,
        },
        WaitEvent::Lost => Step::GiveUp,
    }
}

/// A signal that was taken is not sent again: whatever waited, the step after the next one delivers
/// nothing to any process unless another signal was received in between.
pub proof fn taken_signals_are_not_sent_again(pending_signal: i32, child_pid: u32)
    ensures
        delivery_of(0, child_pid) is None,
        ({
            let left = waiting_after_event(WaitEvent::Running, pending_signal);
            &&& step_of(WaitEvent::Running, pending_signal, child_pid) == (Step::Sample {
                delivery: delivery_of(pending_signal, child_pid),
            })
            &&& left == 0
            &&& step_of(WaitEvent::Running, left, child_pid) == (Step::Sample { delivery: None })
            &&& waiting_after_event(WaitEvent::Running, left) == 0
        }),
{
}

/// Something that happens to the signal that waits.
pub enum SignalMoment {
    /// A signal is received.
    Received { signal: i32 },
    /// The signal that waits is passed on.
    Forwarding,
}

/// The signal that waits after all this.
pub open spec fn waiting_at_end(history: Seq<SignalMoment>) -> i32
    decreases history.len(),
{
    if history.len() == 0 {
        0
    } else {
        match history.last() {
            SignalMoment::Received { signal } => waiting_after(
                waiting_at_end(history.drop_last()),
                signal,
            ),
            SignalMoment::Forwarding => 0,
        }
    }
}

/// What was delivered during all this.
pub open spec fn deliveries(history: Seq<SignalMoment>, child_pid: u32) -> Seq<Delivery>
    decreases history.len(),
{
    if history.len() == 0 {
        seq![]
    } else {
        let before = deliveries(history.drop_last(), child_pid);
        match history.last() {
            SignalMoment::Received { .. } => before,
            SignalMoment::Forwarding => match delivery_of(
                waiting_at_end(history.drop_last()),
                child_pid,
            ) {
                Some(delivery) => before.push(delivery),
                None => before,
            },
        }
    }
}

/// How many signals were received during all this.
pub open spec fn receipts(history: Seq<SignalMoment>) -> nat
    decreases history.len(),
{
    if history.len() == 0 {
        0
    } else {
        receipts(history.drop_last()) + if history.last() is Received {
            1nat
        } else {
            0nat
        }
    }
}

/// The signal was received during all this.
pub open spec fn was_received(history: Seq<SignalMoment>, signal: i32) -> bool {
    history.contains(SignalMoment::Received { signal })
}

/// A signal that waits is delivered once, the next time that one is passed on, where the command can
/// be addressed; after that nothing waits, and passing on once more delivers nothing.
pub proof fn waiting_signals_are_delivered_next(history: Seq<SignalMoment>, child_pid: u32)
    ensures
        ({
            let once = history.push(SignalMoment::Forwarding);
            let twice = once.push(SignalMoment::Forwarding);
            let before = deliveries(history, child_pid);
            let signal = waiting_at_end(history);
            &&& waiting_at_end(once) == 0
            &&& signal != 0 && child_pid <= i32::MAX ==> deliveries(once, child_pid) == before.push(
                Delivery { pid: child_pid as i32, signal },
            )
            &&& signal == 0 || child_pid > i32::MAX ==> deliveries(once, child_pid) == before
            &&& deliveries(twice, child_pid) == deliveries(once, child_pid)
        }),
{
    let once = history.push(SignalMoment::Forwarding);
    let twice = once.push(SignalMoment::Forwarding);
    assert(once.drop_last() =~= history);
    assert(twice.drop_last() =~= once);
}

/// Over any history, no more signals are delivered than were received, every delivery goes to the
/// command, and every signal that is delivered or waits was received.
pub proof fn signals_are_sent_once(history: Seq<SignalMoment>, child_pid: u32)
    ensures
        deliveries(history, child_pid).len() + (if waiting_at_end(history) != 0 {
            1nat
        } else {
            0nat
        }) <= receipts(history),
        forall|i: int|
            #![trigger deliveries(history, child_pid)[i]]
            0 <= i < deliveries(history, child_pid).len() ==> deliveries(history, child_pid)[i].pid
                == child_pid && was_received(history, deliveries(history, child_pid)[i].signal),
        waiting_at_end(history) != 0 ==> was_received(history, waiting_at_end(history)),
    decreases history.len(),
{
    if history.len() > 0 {
        let front = history.drop_last();
        let before = deliveries(front, child_pid);
        signals_are_sent_once(front, child_pid);
        assert forall|signal: i32| was_received(front, signal) implies #[trigger] was_received(
            history,
            signal,
        ) by {
            let k = choose|k: int|
                0 <= k < front.len() && front[k] == (SignalMoment::Received { signal });
            assert(history[k] == (SignalMoment::Received { signal }));
        }
        assert(history[history.len() - 1] == history.last());
        let sent = deliveries(history, child_pid);
        assert forall|i: int| 0 <= i < sent.len() implies (#[trigger] sent[i]).pid == child_pid
            && was_received(history, sent[i].signal) by {
            if i < before.len() {
                assert(sent[i] == before[i]);
                assert(was_received(front, before[i].signal));
            }
        }
    }
}

/// How to end: as the command did.
pub open spec fn ending_of(exit_code: Option<i32>, termination_signal: Option<i32>) -> Ending {
    match termination_signal {
        Some(signal) => Ending::Signal { signal, fallback: (128 + signal) as i32 },
        None => match exit_code {
            Some(code) => Ending::Exit { code },
            None => Ending::Exit { code: 1 },
        },
    }
}

/// How to end: as the command did.
pub fn choose_ending(exit_code: Option<i32>, termination_signal: Option<i32>) -> (ending: Ending)
    requires
        termination_signal matches Some(signal) ==> signal <= i32::MAX - 128,
    ensures
        ending == ending_of(exit_code, termination_signal),
{
    match termination_signal {
        Some(signal) => Ending::Signal { signal, fallback: 128 + signal },
        None => match exit_code {
            Some(code) => Ending::Exit { code },
            None => Ending::Exit { code: 1 },
        },
    }
}

/// Without a program to run there is nothing to do but to say how the command is used.
pub fn check_arguments(count: usize) -> (checked: Result<(), Failure>)
    ensures
        checked is Ok <==> count > 0,
        checked matches Err(failure) ==> failure.message@
            == "usage: runlens <executable> [args...]"@ && failure.exit_code == 2,
{
    if count == 0 {
        Err(
            Failure {
                message: "usage: runlens <executable> [args...]".to_owned(),
                exit_code: 2,
            },
        )
    } else {
        Ok(())
    }
}

/// The command could not be started, so there is no report.
pub fn launch_failure(program: &str, error: &str) -> (failure: Failure)
    ensures
        failure.message@ == "runlens: failed to launch "@ + program@ + ": "@ + error@
            + " (launch failure; report not produced)"@,
        failure.exit_code == 1,
{
    let mut message = "runlens: failed to launch ".to_owned();
    message.append(program);
    message.append(": ");
    message.append(error);
    message.append(" (launch failure; report not produced)");
    Failure { message, exit_code: 1 }
}

/// The command could not be waited for, so there is no report.
pub fn wait_failure(program: &str, error: &str) -> (failure: Failure)
    ensures
        failure.message@ == "runlens: failed to wait for "@ + program@ + ": "@ + error@,
        failure.exit_code == 1,
{
    let mut message = "runlens: failed to wait for ".to_owned();
    message.append(program);
    message.append(": ");
    message.append(error);
    Failure { message, exit_code: 1 }
}

/// The status of the command is handed on: a code as that code, a signal as that signal.
pub proof fn exit_status_is_returned(exit_code: Option<i32>, termination_signal: Option<i32>)
    ensures
        termination_signal is None && exit_code is Some ==> ending_of(exit_code, termination_signal)
            == (Ending::Exit { code: exit_code->0 }),
        termination_signal matches Some(signal) ==> (ending_of(
            exit_code,
            termination_signal,
        ) matches Ending::Signal { signal: same, .. } && same == signal),
{
}

} // verus!
