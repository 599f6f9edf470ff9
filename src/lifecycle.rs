use vstd::prelude::*;

verus! {

/// Whether a background loop is still running.
#[derive(Debug, Clone, Copy, PartialEq, Eq, Structural)]
pub enum LoopState {
    Running,
    Stopped,
}

/// What the tick supervisor woke up for.
#[derive(Debug, Clone, Copy, PartialEq, Eq, Structural)]
pub enum TickEvent {
    /// The tick interval elapsed; `lock_available` tells whether the world's
    /// lock could be taken (it cannot once a holder panicked).
    TimerElapsed { lock_available: bool },
    ShutdownSignal,
}

#[derive(Debug, Clone, Copy, PartialEq, Eq, Structural)]
pub enum SupervisorAction {
    RunTick,
    SkipTick,
    Stop,
}

/// What the session acceptor woke up for.
#[derive(Debug, Clone, Copy, PartialEq, Eq, Structural)]
pub enum AcceptEvent {
    Connection,
    AcceptFailed,
    ShutdownSignal,
}

#[derive(Debug, Clone, Copy, PartialEq, Eq, Structural)]
pub enum AcceptAction {
    SpawnHandler,
    Continue,
    Stop,
}

/// The outcome of reading one line from a connection.
#[derive(Debug, Clone)]
pub enum ReadOutcome {
    Line(String),
    Closed,
    Failed,
}

/// What a connection handler does next.
#[derive(Debug, Clone)]
pub enum HandlerStep {
    /// Hand `publish` to the mailbox and write `reply` back.
    Respond { publish: String, reply: String },
    Finish,
}

pub open spec fn supervisor_next(state: LoopState, event: TickEvent) -> (LoopState, SupervisorAction) {
    match state {
        LoopState::Stopped => (LoopState::Stopped, SupervisorAction::Stop),
        LoopState::Running => match event {
            TickEvent::ShutdownSignal => (LoopState::Stopped, SupervisorAction::Stop),
            TickEvent::TimerElapsed { lock_available } => if lock_available {
                (LoopState::Running, SupervisorAction::RunTick)
            } else {
                (LoopState::Running, SupervisorAction::SkipTick)
            },
        },
    }
}

/// The tick supervisor's decision: tick when the interval elapses and the
/// world can be locked, skip the cycle when it cannot, stop on shutdown.
pub fn supervisor_step(state: LoopState, event: TickEvent) -> (r: (LoopState, SupervisorAction))
    ensures
        r == supervisor_next(state, event),
{
    match state {
        LoopState::Stopped => (LoopState::Stopped, SupervisorAction::Stop),
        LoopState::Running => match event {
            TickEvent::ShutdownSignal => (LoopState::Stopped, SupervisorAction::Stop),
            TickEvent::TimerElapsed { lock_available } => {
                if lock_available {
                    (LoopState::Running, SupervisorAction::RunTick)
                } else {
                    (LoopState::Running, SupervisorAction::SkipTick)
                }
            },
        },
    }
}

/// The actions of the supervisor over a run of events.
pub open spec fn supervisor_actions(state: LoopState, events: Seq<TickEvent>) -> Seq<SupervisorAction>
    decreases events.len(),
{
    if events.len() == 0 {
        Seq::empty()
    } else {
        let (next, action) = supervisor_next(state, events[0]);
        seq![action] + supervisor_actions(next, events.drop_first())
    }
}

proof fn lemma_actions_len(state: LoopState, events: Seq<TickEvent>)
    ensures
        supervisor_actions(state, events).len() == events.len(),
    decreases events.len(),
{
    if events.len() > 0 {
        lemma_actions_len(supervisor_next(state, events[0]).0, events.drop_first());
    }
}

/// Once the supervisor has stopped, no event makes it tick again.
pub proof fn lemma_stopped_never_ticks(events: Seq<TickEvent>)
    ensures
        forall|i: int|
            0 <= i < events.len() ==> #[trigger] supervisor_actions(LoopState::Stopped, events)[i]
                == SupervisorAction::Stop,
    decreases events.len(),
{
    if events.len() > 0 {
        lemma_stopped_never_ticks(events.drop_first());
        let rest = supervisor_actions(LoopState::Stopped, events.drop_first());
        lemma_actions_len(LoopState::Stopped, events.drop_first());
        assert(supervisor_actions(LoopState::Stopped, events) == seq![SupervisorAction::Stop] + rest);
        assert forall|i: int| 0 <= i < events.len() implies #[trigger] supervisor_actions(LoopState::Stopped, events)[i]
            == SupervisorAction::Stop by {
            if i > 0 {
                assert(supervisor_actions(LoopState::Stopped, events)[i] == rest[i - 1]);
            }
        }
    }
}

/// After a shutdown signal, every later action of a running supervisor is
/// to stop: no tick follows it.
pub proof fn lemma_no_tick_after_shutdown(events: Seq<TickEvent>, k: int)
    requires
        0 <= k < events.len(),
        events[k] == TickEvent::ShutdownSignal,
    ensures
        forall|i: int|
            k <= i < events.len() ==> #[trigger] supervisor_actions(LoopState::Running, events)[i]
                == SupervisorAction::Stop,
    decreases events.len(),
{
    let (next, action) = supervisor_next(LoopState::Running, events[0]);
    let rest = supervisor_actions(next, events.drop_first());
    lemma_actions_len(next, events.drop_first());
    assert(supervisor_actions(LoopState::Running, events) == seq![action] + rest);
    if k == 0 {
        lemma_stopped_never_ticks(events.drop_first());
        assert forall|i: int| k <= i < events.len() implies #[trigger] supervisor_actions(LoopState::Running, events)[i]
            == SupervisorAction::Stop by {
            if i > 0 {
                assert(supervisor_actions(LoopState::Running, events)[i] == rest[i - 1]);
            }
        }
    } else {
        if next == LoopState::Running {
            lemma_no_tick_after_shutdown(events.drop_first(), k - 1);
        } else {
            lemma_stopped_never_ticks(events.drop_first());
        }
        assert forall|i: int| k <= i < events.len() implies #[trigger] supervisor_actions(LoopState::Running, events)[i]
            == SupervisorAction::Stop by {
            assert(supervisor_actions(LoopState::Running, events)[i] == rest[i - 1]);
        }
    }
}

pub open spec fn acceptor_next(state: LoopState, event: AcceptEvent) -> (LoopState, AcceptAction) {
    match state {
        LoopState::Stopped => (LoopState::Stopped, AcceptAction::Stop),
        LoopState::Running => match event {
            AcceptEvent::Connection => (LoopState::Running, AcceptAction::SpawnHandler),
            AcceptEvent::AcceptFailed => (LoopState::Running, AcceptAction::Continue),
            AcceptEvent::ShutdownSignal => (LoopState::Stopped, AcceptAction::Stop),
        },
    }
}

/// The session acceptor's decision: a new connection gets a handler, a
/// failed accept is passed over, a shutdown stops the loop.
pub fn acceptor_step(state: LoopState, event: AcceptEvent) -> (r: (LoopState, AcceptAction))
    ensures
        r == acceptor_next(state, event),
{
    match state {
        LoopState::Stopped => (LoopState::Stopped, AcceptAction::Stop),
        LoopState::Running => match event {
            AcceptEvent::Connection => (LoopState::Running, AcceptAction::SpawnHandler),
            AcceptEvent::AcceptFailed => (LoopState::Running, AcceptAction::Continue),
            AcceptEvent::ShutdownSignal => (LoopState::Stopped, AcceptAction::Stop),
        },
    }
}

/// The echo handler's decision on one read: a line is queued and written
/// back unchanged; end of stream or a failed read ends the connection.
pub fn echo_step(read: ReadOutcome) -> (r: HandlerStep)
    ensures
        match read {
            ReadOutcome::Line(l) => r == echo_reply(l),
            _ => r is Finish,
        },
{
    match read {
        ReadOutcome::Line(l) => {
            let publish = l.clone();
            HandlerStep::Respond { publish, reply: l }
        },
        ReadOutcome::Closed => HandlerStep::Finish,
        ReadOutcome::Failed => HandlerStep::Finish,
    }
}

/// The replies an echo handler writes for lines read in turn.
pub open spec fn echo_replies(lines: Seq<String>) -> Seq<String> {
    lines.map_values(
        |l: String|
            match echo_reply(l) {
                HandlerStep::Respond { reply, .. } => reply,
                HandlerStep::Finish => l,
            },
    )
}

/// What the echo handler does with a line it read.
pub open spec fn echo_reply(l: String) -> HandlerStep {
    HandlerStep::Respond { publish: l, reply: l }
}

/// Over one connection, an echo handler writes back every line it reads,
/// unchanged and in the order read.
pub proof fn lemma_echo_keeps_order(lines: Seq<String>)
    ensures
        echo_replies(lines) == lines,
{
    assert(echo_replies(lines) =~= lines);
}

/// The one-shot shutdown signal of a server handle.
#[derive(Debug)]
pub struct ShutdownTrigger {
    fired: bool,
}

/// Firing a shutdown signal that was already fired.
#[derive(Debug, Clone, Copy, PartialEq, Eq, Structural)]
pub struct ShutdownError;

impl ShutdownTrigger {
    pub closed spec fn spec_fired(&self) -> bool {
        self.fired
    }

    pub fn new() -> (r: Self)
        ensures
            !r.spec_fired(),
    {
        ShutdownTrigger { fired: false }
    }

    pub fn is_fired(&self) -> (r: bool)
        ensures
            r == self.spec_fired(),
    {
        self.fired
    }

    /// Fires the signal: succeeds the first time only.
    pub fn fire(&mut self) -> (r: Result<(), ShutdownError>)
        ensures
            final(self).spec_fired(),
            r is Ok <==> !old(self).spec_fired(),
    {
        if self.fired {
            Err(ShutdownError)
        } else {
            self.fired = true;
            Ok(())
        }
    }
}

/// Of two shutdowns on one handle, the first succeeds and the second fails.
pub proof fn lemma_second_shutdown_fails(
    t0: ShutdownTrigger,
    t1: ShutdownTrigger,
    t2: ShutdownTrigger,
    r1: Result<(), ShutdownError>,
    r2: Result<(), ShutdownError>,
)
    requires
        !t0.spec_fired(),
        t1.spec_fired(),
        r1 is Ok <==> !t0.spec_fired(),
        t2.spec_fired(),
        r2 is Ok <==> !t1.spec_fired(),
    ensures
        r1 is Ok,
        r2 is Err,
{
}

} // verus!
