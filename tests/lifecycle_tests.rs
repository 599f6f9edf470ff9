use multiplayer::lifecycle::{
    acceptor_step, echo_step, supervisor_step, AcceptAction, AcceptEvent, HandlerStep, LoopState, ReadOutcome,
    ShutdownTrigger, SupervisorAction, TickEvent,
};

#[test]
fn second_shutdown_fails() {
    let mut t = ShutdownTrigger::new();
    assert!(!t.is_fired());
    assert!(t.fire().is_ok());
    assert!(t.fire().is_err());
    assert!(t.is_fired());
}

#[test]
fn supervisor_ticks_until_shutdown() {
    let (s, a) = supervisor_step(LoopState::Running, TickEvent::TimerElapsed { lock_available: true });
    assert_eq!((s, a), (LoopState::Running, SupervisorAction::RunTick));
    let (s, a) = supervisor_step(s, TickEvent::TimerElapsed { lock_available: false });
    assert_eq!((s, a), (LoopState::Running, SupervisorAction::SkipTick));
    let (s, a) = supervisor_step(s, TickEvent::ShutdownSignal);
    assert_eq!((s, a), (LoopState::Stopped, SupervisorAction::Stop));
    let (s, a) = supervisor_step(s, TickEvent::TimerElapsed { lock_available: true });
    assert_eq!((s, a), (LoopState::Stopped, SupervisorAction::Stop));
}

#[test]
fn acceptor_spawns_until_shutdown() {
    assert_eq!(
        acceptor_step(LoopState::Running, AcceptEvent::Connection),
        (LoopState::Running, AcceptAction::SpawnHandler)
    );
    assert_eq!(
        acceptor_step(LoopState::Running, AcceptEvent::AcceptFailed),
        (LoopState::Running, AcceptAction::Continue)
    );
    assert_eq!(
        acceptor_step(LoopState::Running, AcceptEvent::ShutdownSignal),
        (LoopState::Stopped, AcceptAction::Stop)
    );
    assert_eq!(
        acceptor_step(LoopState::Stopped, AcceptEvent::Connection),
        (LoopState::Stopped, AcceptAction::Stop)
    );
}

#[test]
fn echo_returns_the_line() {
    match echo_step(ReadOutcome::Line("hello\n".to_string())) {
        HandlerStep::Respond { publish, reply } => {
            assert_eq!(reply, "hello\n");
            assert_eq!(publish, "hello\n");
        }
        HandlerStep::Finish => panic!("a line must be answered"),
    }
    assert!(matches!(echo_step(ReadOutcome::Closed), HandlerStep::Finish));
    assert!(matches!(echo_step(ReadOutcome::Failed), HandlerStep::Finish));
}

#[test]
fn echo_keeps_a_hundred_lines_in_order() {
    let lines: Vec<String> = (0..100).map(|i| format!("line number {i}\n")).collect();
    let mut replies = Vec::new();
    for l in &lines {
        match echo_step(ReadOutcome::Line(l.clone())) {
            HandlerStep::Respond { reply, .. } => replies.push(reply),
            HandlerStep::Finish => panic!("a line must be answered"),
        }
    }
    assert_eq!(replies, lines);
}
