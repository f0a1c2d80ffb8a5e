//! The decisions of the process supervisor.
//!
//! The supervisor runs the engine invocation as the leader of its own
//! process group and, when asked to stop, signals that group with growing
//! force. Sending signals, probing and sleeping are the caller's part; what
//! to do next is decided here, one step at a time.

use crate::text::strings_view;
use vstd::prelude::*;

verus! {

/// The value of the child process handle while no child is supervised.
pub const NO_CHILD: i32 = -1;

/// The exit code reported where the child's own is not available, as
/// when a signal killed it.
pub const FALLBACK_EXIT_CODE: i32 = 1;

/// How long to sleep between two probes while waiting, in milliseconds.
pub const PROBE_INTERVAL_MS: u64 = 100;

/// Whether a value of the child process handle names a process group to signal.
pub fn names_child(handle: i32) -> (r: bool)
    ensures
        r == (handle > 0),
{
    handle > 0
}

/// The exit code to relay: the child's own, or the fallback.
pub fn exit_code_or_fallback(code: Option<i32>) -> (r: i32)
    ensures
        r == (match code {
            Some(c) => c,
            None => FALLBACK_EXIT_CODE,
        }),
{
    match code {
        Some(c) => c,
        None => FALLBACK_EXIT_CODE,
    }
}

/// The program and arguments that run `shell_command` through the shell.
pub fn shell_invocation(shell_command: &str) -> (r: (String, Vec<String>))
    ensures
        r.0@ == "/bin/sh"@,
        strings_view(r.1@) == seq!["-c"@, shell_command@],
{
    let mut args: Vec<String> = Vec::new();
    args.push(String::from_str("-c"));
    args.push(String::from_str(shell_command));
    proof {
        assert(strings_view(args@) =~= seq!["-c"@, shell_command@]);
    }
    (String::from_str("/bin/sh"), args)
}

/// A signal for a whole process group.
#[derive(Clone, Copy, Debug, PartialEq, Eq, Structural)]
pub enum GroupSignal {
    Interrupt,
    Terminate,
    Kill,
}

/// What the supervisor does next.
#[derive(Clone, Copy, Debug, PartialEq, Eq, Structural)]
pub enum EscalationAction {
    /// Send the signal to the group and start measuring time anew.
    Send(GroupSignal),
    /// Sleep for so many milliseconds, then probe again.
    Sleep(u64),
    /// Stop: the group is gone, or nothing stronger is left to send.
    Done,
}

/// How far an escalation has got.
#[derive(Clone, Copy, Debug, PartialEq, Eq, Structural)]
pub struct Escalation {
    /// How many signals were sent.
    pub sent: u8,
    /// Whether the escalation has ended.
    pub finished: bool,
}

/// The signal of each stage, in the order of escalation.
pub open spec fn stage_signal(stage: int) -> GroupSignal {
    if stage <= 0 {
        GroupSignal::Interrupt
    } else if stage == 1 {
        GroupSignal::Terminate
    } else {
        GroupSignal::Kill
    }
}

/// How long the group gets to disappear after the signal of a stage, in
/// milliseconds.
pub open spec fn stage_timeout_ms(stage: int) -> int {
    if stage <= 1 {
        1000
    } else {
        500
    }
}

/// The next step of an escalation, given whether the group is still alive
/// and how long ago the last signal was sent.
///
/// A group that is gone is left alone. Before any signal, the first one is
/// sent. After a signal the supervisor sleeps and probes until the time of
/// the stage is up; then the next stronger signal is sent, or the
/// escalation ends where none is left.
pub open spec fn escalation_step(e: Escalation, alive: bool, elapsed_ms: int) -> (
    Escalation,
    EscalationAction,
) {
    if e.finished || !alive {
        (Escalation { sent: e.sent, finished: true }, EscalationAction::Done)
    } else if e.sent == 0 {
        (Escalation { sent: 1, finished: false }, EscalationAction::Send(stage_signal(0)))
    } else if elapsed_ms < stage_timeout_ms(e.sent - 1) {
        (e, EscalationAction::Sleep(PROBE_INTERVAL_MS))
    } else if e.sent >= 3 {
        (Escalation { sent: e.sent, finished: true }, EscalationAction::Done)
    } else {
        (
            Escalation { sent: (e.sent + 1) as u8, finished: false },
            EscalationAction::Send(stage_signal(e.sent as int)),
        )
    }
}

impl Escalation {
    /// An escalation that has sent nothing yet.
    pub fn new() -> (e: Escalation)
        ensures
            e == (Escalation { sent: 0, finished: false }),
    {
        Escalation { sent: 0, finished: false }
    }

    /// Decides the next step and moves on. The caller probes the group
    /// before each call and performs the action it gets.
    pub fn next(&mut self, alive: bool, elapsed_ms: u64) -> (action: EscalationAction)
        ensures
            (*final(self), action) == escalation_step(*old(self), alive, elapsed_ms as int),
    {
        if self.finished || !alive {
            self.finished = true;
            EscalationAction::Done
        } else if self.sent == 0 {
            self.sent = 1;
            EscalationAction::Send(GroupSignal::Interrupt)
        } else if elapsed_ms < (if self.sent <= 2 {
            1000
        } else {
            500
        }) {
            EscalationAction::Sleep(PROBE_INTERVAL_MS)
        } else if self.sent >= 3 {
            self.finished = true;
            EscalationAction::Done
        } else {
            let signal = if self.sent == 1 {
                GroupSignal::Terminate
            } else {
                GroupSignal::Kill
            };
            self.sent = self.sent + 1;
            EscalationAction::Send(signal)
        }
    }
}

/// The signals that an escalation sends from state `e` on, given what
/// each probe from the one at `i` on observes: whether the group is alive,
/// and the time since the last signal.
pub open spec fn signals_sent(e: Escalation, probes: Seq<(bool, int)>, i: int) -> Seq<GroupSignal>
    decreases probes.len() - i,
{
    if i < 0 || i >= probes.len() {
        Seq::empty()
    } else {
        let (next, action) = escalation_step(e, probes[i].0, probes[i].1);
        match action {
            EscalationAction::Done => Seq::empty(),
            EscalationAction::Send(s) => seq![s] + signals_sent(next, probes, i + 1),
            EscalationAction::Sleep(_) => signals_sent(next, probes, i + 1),
        }
    }
}

/// The state before any signal.
pub open spec fn fresh() -> Escalation {
    Escalation { sent: 0, finished: false }
}

/// A group that is gone at the first probe after the first signal gets
/// that one signal and no other.
pub proof fn lemma_exit_after_first_signal(probes: Seq<(bool, int)>)
    requires
        probes.len() >= 2,
        probes[0].0,
        !probes[1].0,
    ensures
        signals_sent(fresh(), probes, 0) == seq![GroupSignal::Interrupt],
{
    let e1 = Escalation { sent: 1, finished: false };
    assert(escalation_step(fresh(), probes[0].0, probes[0].1) == (
        e1,
        EscalationAction::Send(GroupSignal::Interrupt),
    ));
    assert(escalation_step(e1, probes[1].0, probes[1].1).1 == EscalationAction::Done);
    assert(signals_sent(e1, probes, 1) =~= Seq::<GroupSignal>::empty());
    assert(signals_sent(fresh(), probes, 0) =~= seq![GroupSignal::Interrupt]);
}

/// A group that is gone at the first probe gets no signal at all.
pub proof fn lemma_dead_group_left_alone(probes: Seq<(bool, int)>)
    requires
        probes.len() >= 1,
        !probes[0].0,
    ensures
        signals_sent(fresh(), probes, 0) == Seq::<GroupSignal>::empty(),
{
}

/// The signals in the order of escalation, from stage `from` on.
pub open spec fn escalation_order(from: int) -> Seq<GroupSignal> {
    if from <= 0 {
        seq![GroupSignal::Interrupt, GroupSignal::Terminate, GroupSignal::Kill]
    } else if from == 1 {
        seq![GroupSignal::Terminate, GroupSignal::Kill]
    } else if from == 2 {
        seq![GroupSignal::Kill]
    } else {
        Seq::empty()
    }
}

/// Whatever the probes observe, the signals sent are the first ones of
/// the order interrupt, terminate, kill: never more than three, never out
/// of order, none twice.
pub proof fn lemma_signals_in_order(e: Escalation, probes: Seq<(bool, int)>, i: int)
    requires
        0 <= i <= probes.len(),
        e.sent <= 3,
    ensures
        signals_sent(e, probes, i).len() <= escalation_order(e.sent as int).len(),
        signals_sent(e, probes, i) == escalation_order(e.sent as int).subrange(
            0,
            signals_sent(e, probes, i).len() as int,
        ),
    decreases probes.len() - i,
{
    let order = escalation_order(e.sent as int);
    if i >= probes.len() {
        assert(signals_sent(e, probes, i) =~= order.subrange(0, 0));
    } else {
        let (next, action) = escalation_step(e, probes[i].0, probes[i].1);
        match action {
            EscalationAction::Done => {
                assert(signals_sent(e, probes, i) =~= order.subrange(0, 0));
            },
            EscalationAction::Send(s) => {
                lemma_signals_in_order(next, probes, i + 1);
                let rest = signals_sent(next, probes, i + 1);
                let next_order = escalation_order(next.sent as int);
                assert(order =~= seq![s] + next_order);
                assert(signals_sent(e, probes, i) =~= order.subrange(
                    0,
                    (rest.len() + 1) as int,
                ));
            },
            EscalationAction::Sleep(_) => {
                lemma_signals_in_order(next, probes, i + 1);
            },
        }
    }
}

} // verus!
