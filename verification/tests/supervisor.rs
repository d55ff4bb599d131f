use apt_cli_wrappers::{
    classify_exit, Activity, AptUpgradeEvent, ChildExit, CommandResult, Failure, ReadOutcome,
    Supervisor, SupervisorAction, SupervisorEvent, SupervisorState,
};

fn exited(code: i32) -> ChildExit {
    ChildExit { code: Some(code), signal: None }
}

fn data(text: &str) -> SupervisorEvent {
    SupervisorEvent::Read(ReadOutcome::Data(text.as_bytes().to_vec()))
}

/// Reports the events one after the other, checking before each that the
/// supervisor asks for the action that goes with it, and collects the
/// progress events.
fn report(supervisor: &mut Supervisor, script: Vec<SupervisorEvent>) -> Vec<AptUpgradeEvent> {
    let mut progress = Vec::new();
    for event in script {
        let fits = match (supervisor.action(), &event) {
            (SupervisorAction::Spawn, SupervisorEvent::Spawned) => true,
            (SupervisorAction::Spawn, SupervisorEvent::SpawnFailed) => true,
            (SupervisorAction::Spawn, SupervisorEvent::LockTimedOut) => true,
            (SupervisorAction::Sleep(16), SupervisorEvent::Woke) => true,
            (SupervisorAction::Read, SupervisorEvent::Read(_)) => true,
            (SupervisorAction::Poll, SupervisorEvent::StillRunning) => true,
            (SupervisorAction::Poll, SupervisorEvent::Exited(_)) => true,
            _ => false,
        };
        assert!(fits, "{:?} does not answer {:?}", event, supervisor.action());
        progress.extend(supervisor.step(event));
    }
    progress
}

/// The reports of a child that prints three progress lines over two
/// polling rounds and then exits.
fn three_lines_then_exit(exit: ChildExit) -> Vec<SupervisorEvent> {
    vec![
        SupervisorEvent::Spawned,
        SupervisorEvent::Woke,
        data("Get:1 http://a\n1/1 he"),
        SupervisorEvent::Read(ReadOutcome::WouldBlock),
        SupervisorEvent::StillRunning,
        SupervisorEvent::Woke,
        data("llo\n"),
        SupervisorEvent::Read(ReadOutcome::WouldBlock),
        SupervisorEvent::Exited(exit),
        data("100% done\n"),
        SupervisorEvent::Read(ReadOutcome::EndOfData),
    ]
}

fn the_three_events() -> Vec<AptUpgradeEvent> {
    vec![
        AptUpgradeEvent::Fetched { file: "http://a".to_string() },
        AptUpgradeEvent::PackageCounts { current: 1, total: 1, package: "hello".to_string() },
        AptUpgradeEvent::Percent { percent: 100 },
    ]
}

#[test]
fn a_new_supervisor_asks_for_the_launch() {
    let supervisor = Supervisor::new();
    assert_eq!(supervisor.state(), SupervisorState::Spawning);
    assert_eq!(supervisor.action(), SupervisorAction::Spawn);
    assert_eq!(supervisor.result(), None);
    assert!(supervisor.pending().is_empty());
}

#[test]
fn exit_code_zero_after_three_lines_is_a_success() {
    let mut supervisor = Supervisor::new();
    let progress = report(&mut supervisor, three_lines_then_exit(exited(0)));
    assert_eq!(progress, the_three_events());
    assert_eq!(supervisor.result(), Some(CommandResult::Succeeded));
    assert_eq!(supervisor.action(), SupervisorAction::Finish(CommandResult::Succeeded));
}

#[test]
fn exit_code_one_after_three_lines_is_a_failure_with_the_code() {
    let mut supervisor = Supervisor::new();
    let progress = report(&mut supervisor, three_lines_then_exit(exited(1)));
    assert_eq!(progress, the_three_events());
    let failed = CommandResult::Failed(Failure::Exit { code: 1 });
    assert_eq!(supervisor.result(), Some(failed));
    assert_eq!(supervisor.action(), SupervisorAction::Finish(failed));
}

#[test]
fn garbage_between_progress_lines_brings_no_event() {
    let mut supervisor = Supervisor::new();
    let progress = report(
        &mut supervisor,
        vec![
            SupervisorEvent::Spawned,
            SupervisorEvent::Woke,
            data("garbage\n"),
            data("75% done\n"),
            SupervisorEvent::Read(ReadOutcome::WouldBlock),
        ],
    );
    assert_eq!(progress, vec![AptUpgradeEvent::Percent { percent: 75 }]);
    assert_eq!(supervisor.state(), SupervisorState::Running(Activity::Polling));
}

#[test]
fn the_rounds_go_from_sleeping_to_draining_to_polling() {
    let mut supervisor = Supervisor::new();
    supervisor.step(SupervisorEvent::Spawned);
    assert_eq!(supervisor.state(), SupervisorState::Running(Activity::Sleeping));
    assert_eq!(supervisor.action(), SupervisorAction::Sleep(16));
    supervisor.step(SupervisorEvent::Woke);
    assert_eq!(supervisor.state(), SupervisorState::Running(Activity::Draining));
    assert_eq!(supervisor.action(), SupervisorAction::Read);
    supervisor.step(data("1"));
    assert_eq!(supervisor.state(), SupervisorState::Running(Activity::Draining));
    supervisor.step(SupervisorEvent::Read(ReadOutcome::EndOfData));
    assert_eq!(supervisor.state(), SupervisorState::Running(Activity::Polling));
    assert_eq!(supervisor.action(), SupervisorAction::Poll);
    supervisor.step(SupervisorEvent::StillRunning);
    assert_eq!(supervisor.state(), SupervisorState::Running(Activity::Sleeping));
    supervisor.step(SupervisorEvent::Woke);
    supervisor.step(SupervisorEvent::Read(ReadOutcome::WouldBlock));
    supervisor.step(SupervisorEvent::Exited(exited(3)));
    assert_eq!(supervisor.state(), SupervisorState::Running(Activity::Flushing(exited(3))));
    assert_eq!(supervisor.action(), SupervisorAction::Read);
    assert_eq!(supervisor.result(), None);
}

#[test]
fn a_fragment_without_a_line_feed_is_never_decoded() {
    let mut supervisor = Supervisor::new();
    let progress = report(
        &mut supervisor,
        vec![
            SupervisorEvent::Spawned,
            SupervisorEvent::Woke,
            SupervisorEvent::Read(ReadOutcome::WouldBlock),
            SupervisorEvent::Exited(exited(0)),
            data("100% done"),
            SupervisorEvent::Read(ReadOutcome::EndOfData),
        ],
    );
    assert_eq!(progress, Vec::new());
    assert_eq!(supervisor.pending().as_slice(), b"100% done");
    assert_eq!(supervisor.result(), Some(CommandResult::Succeeded));
}

#[test]
fn the_lines_come_out_undecoded_on_request() {
    let mut supervisor = Supervisor::new();
    assert_eq!(supervisor.advance(SupervisorEvent::Spawned), Vec::<String>::new());
    assert_eq!(supervisor.advance(SupervisorEvent::Woke), Vec::<String>::new());
    assert_eq!(
        supervisor.advance(data("garbage\n75% done\nrest")),
        vec!["garbage".to_string(), "75% done".to_string()]
    );
    assert_eq!(supervisor.pending().as_slice(), b"rest");
    assert_eq!(supervisor.state(), SupervisorState::Running(Activity::Draining));
    assert_eq!(
        supervisor.advance(SupervisorEvent::Read(ReadOutcome::WouldBlock)),
        Vec::<String>::new()
    );
    assert_eq!(supervisor.state(), SupervisorState::Running(Activity::Polling));
}

#[test]
fn a_launch_that_fails_ends_the_operation() {
    let mut supervisor = Supervisor::new();
    let progress = report(&mut supervisor, vec![SupervisorEvent::SpawnFailed]);
    assert_eq!(progress, Vec::new());
    assert_eq!(supervisor.result(), Some(CommandResult::Failed(Failure::Spawn)));
}

#[test]
fn a_lock_that_stays_held_ends_the_operation_before_the_launch() {
    let mut supervisor = Supervisor::new();
    report(&mut supervisor, vec![SupervisorEvent::LockTimedOut]);
    assert_eq!(supervisor.result(), Some(CommandResult::LockTimeout));
    assert_eq!(supervisor.action(), SupervisorAction::Finish(CommandResult::LockTimeout));
}

#[test]
fn a_lock_timeout_after_the_launch_is_ignored() {
    let mut supervisor = Supervisor::new();
    supervisor.step(SupervisorEvent::Spawned);
    supervisor.step(SupervisorEvent::LockTimedOut);
    assert_eq!(supervisor.state(), SupervisorState::Running(Activity::Sleeping));
}

#[test]
fn a_failed_read_ends_the_operation_and_drops_the_fragment() {
    let mut supervisor = Supervisor::new();
    let progress = report(
        &mut supervisor,
        vec![
            SupervisorEvent::Spawned,
            SupervisorEvent::Woke,
            data("10%\n20"),
            SupervisorEvent::Read(ReadOutcome::Failed),
        ],
    );
    assert_eq!(progress, vec![AptUpgradeEvent::Percent { percent: 10 }]);
    assert_eq!(supervisor.result(), Some(CommandResult::Failed(Failure::Read)));
    assert!(supervisor.pending().is_empty());
}

#[test]
fn a_failed_read_after_the_exit_ends_the_operation_as_a_read_failure() {
    let mut supervisor = Supervisor::new();
    report(
        &mut supervisor,
        vec![
            SupervisorEvent::Spawned,
            SupervisorEvent::Woke,
            SupervisorEvent::Read(ReadOutcome::WouldBlock),
            SupervisorEvent::Exited(exited(0)),
            SupervisorEvent::Read(ReadOutcome::Failed),
        ],
    );
    assert_eq!(supervisor.result(), Some(CommandResult::Failed(Failure::Read)));
}

#[test]
fn an_event_that_is_not_awaited_changes_nothing() {
    let mut supervisor = Supervisor::new();
    assert_eq!(supervisor.step(data("10%\n")), Vec::new());
    assert_eq!(supervisor.step(SupervisorEvent::Woke), Vec::new());
    assert_eq!(supervisor.step(SupervisorEvent::StillRunning), Vec::new());
    assert_eq!(supervisor.step(SupervisorEvent::Exited(exited(0))), Vec::new());
    assert_eq!(supervisor.state(), SupervisorState::Spawning);
    assert!(supervisor.pending().is_empty());
    supervisor.step(SupervisorEvent::Spawned);
    assert_eq!(supervisor.step(data("10%\n")), Vec::new());
    assert_eq!(supervisor.step(SupervisorEvent::Exited(exited(0))), Vec::new());
    assert_eq!(supervisor.step(SupervisorEvent::Spawned), Vec::new());
    assert_eq!(supervisor.state(), SupervisorState::Running(Activity::Sleeping));
    supervisor.step(SupervisorEvent::Woke);
    assert_eq!(supervisor.step(SupervisorEvent::StillRunning), Vec::new());
    assert_eq!(supervisor.step(SupervisorEvent::Woke), Vec::new());
    assert_eq!(supervisor.state(), SupervisorState::Running(Activity::Draining));
    supervisor.step(SupervisorEvent::Read(ReadOutcome::WouldBlock));
    assert_eq!(supervisor.step(data("10%\n")), Vec::new());
    assert_eq!(supervisor.state(), SupervisorState::Running(Activity::Polling));
    assert!(supervisor.pending().is_empty());
}

#[test]
fn nothing_changes_after_the_end() {
    let mut supervisor = Supervisor::new();
    report(&mut supervisor, three_lines_then_exit(exited(0)));
    for event in three_lines_then_exit(exited(1)) {
        assert_eq!(supervisor.step(event), Vec::new());
        assert_eq!(supervisor.result(), Some(CommandResult::Succeeded));
    }
    assert_eq!(supervisor.step(SupervisorEvent::SpawnFailed), Vec::new());
    assert_eq!(supervisor.step(SupervisorEvent::LockTimedOut), Vec::new());
    assert_eq!(supervisor.result(), Some(CommandResult::Succeeded));
}

#[test]
fn an_exit_is_classified_by_its_code_and_signal() {
    assert_eq!(classify_exit(exited(0)), CommandResult::Succeeded);
    assert_eq!(
        classify_exit(ChildExit { code: Some(0), signal: Some(9) }),
        CommandResult::Succeeded
    );
    assert_eq!(classify_exit(exited(1)), CommandResult::Failed(Failure::Exit { code: 1 }));
    assert_eq!(classify_exit(exited(100)), CommandResult::Failed(Failure::Exit { code: 100 }));
    assert_eq!(classify_exit(exited(-1)), CommandResult::Failed(Failure::Exit { code: -1 }));
    assert_eq!(
        classify_exit(ChildExit { code: None, signal: Some(9) }),
        CommandResult::Failed(Failure::Abnormal { signal: Some(9) })
    );
    assert_eq!(
        classify_exit(ChildExit { code: None, signal: None }),
        CommandResult::Failed(Failure::Abnormal { signal: None })
    );
}

#[test]
fn a_child_killed_by_a_signal_is_an_abnormal_failure() {
    let mut supervisor = Supervisor::new();
    let killed = ChildExit { code: None, signal: Some(15) };
    let progress = report(&mut supervisor, three_lines_then_exit(killed));
    assert_eq!(progress, the_three_events());
    assert_eq!(
        supervisor.result(),
        Some(CommandResult::Failed(Failure::Abnormal { signal: Some(15) }))
    );
}

#[test]
fn a_lock_timeout_differs_from_every_failure_of_the_command() {
    assert_ne!(CommandResult::LockTimeout, CommandResult::Failed(Failure::Spawn));
    assert_ne!(CommandResult::LockTimeout, CommandResult::Failed(Failure::Read));
    assert_ne!(CommandResult::LockTimeout, CommandResult::Failed(Failure::Exit { code: 1 }));
    assert_ne!(
        CommandResult::LockTimeout,
        CommandResult::Failed(Failure::Abnormal { signal: None })
    );
    assert_ne!(CommandResult::LockTimeout, CommandResult::Succeeded);
}
