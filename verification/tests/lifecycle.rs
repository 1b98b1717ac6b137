use otty_surface::block::id::{BlockId, ProtocolSequence, ShellInstanceId, TerminalSessionId};
use otty_surface::block::lifecycle::{
    DegradedReason, IntegrationStatus, LifecycleDiagnostic, LifecycleEvent, LifecycleInput,
    LifecycleReducer,
};
use otty_surface::block::model::{BlockOutcome, BlockState};

fn session_id() -> TerminalSessionId {
    TerminalSessionId::new("session")
}

fn shell_id() -> ShellInstanceId {
    ShellInstanceId::new("shell")
}

fn block_id(sequence: u64) -> BlockId {
    BlockId::terminal(&session_id(), &shell_id(), sequence)
}

fn input(sequence: u64, event: LifecycleEvent) -> LifecycleInput {
    LifecycleInput::new(
        session_id(),
        shell_id(),
        ProtocolSequence::new(sequence),
        event,
    )
}

fn hello(sequence: u64) -> LifecycleInput {
    input(
        sequence,
        LifecycleEvent::ShellHello {
            parent_shell_instance_id: None,
            shell: "bash".to_string(),
            shell_version: Some("5.2".to_string()),
        },
    )
}

#[test]
fn normal_lifecycle_preserves_start_metadata_on_completion() {
    let mut reducer = LifecycleReducer::new(session_id());
    let id = block_id(1);
    let next_id = block_id(2);

    reducer.apply(hello(1));
    reducer.apply(input(
        2,
        LifecycleEvent::PromptPrepare {
            block_id: id.clone(),
            cwd: Some("/before".to_string()),
            prepared_at: Some(10),
        },
    ));
    reducer.apply(input(
        3,
        LifecycleEvent::CommandStart {
            block_id: id.clone(),
            command: Some("printf ok".to_string()),
            cwd: Some("/before".to_string()),
            started_at: Some(11),
        },
    ));
    reducer.apply(input(
        4,
        LifecycleEvent::CommandEnd {
            block_id: id.clone(),
            outcome: BlockOutcome::Exited(7),
            cwd: Some("/after".to_string()),
            finished_at: Some(20),
        },
    ));
    reducer.apply(input(
        5,
        LifecycleEvent::PromptPrepare {
            block_id: next_id.clone(),
            cwd: Some(String::from("/after")),
            prepared_at: Some(21),
        },
    ));

    let block = reducer.block(&id).expect("block should exist");
    assert_eq!(
        block.state(),
        &BlockState::Finished(BlockOutcome::Exited(7))
    );
    assert_eq!(block.metadata().command(), Some("printf ok"));
    assert_eq!(block.metadata().cwd_before(), Some("/before"));
    assert_eq!(block.metadata().cwd_after(), Some("/after"));
    assert_eq!(block.metadata().started_at(), Some(11));
    assert_eq!(block.metadata().finished_at(), Some(20));
    assert_eq!(
        reducer.block(&next_id).map(|block| block.state()),
        Some(&BlockState::BeforeExecution),
    );
}

#[test]
fn empty_enter_without_command_start_finishes_only_its_own_block() {
    let mut reducer = LifecycleReducer::new(session_id());
    let previous = block_id(1);
    let empty = block_id(2);
    let next = block_id(3);

    reducer.apply(hello(1));
    reducer.apply(input(
        2,
        LifecycleEvent::PromptPrepare {
            block_id: previous.clone(),
            cwd: Some(String::from("/before-true")),
            prepared_at: Some(2),
        },
    ));
    reducer.apply(input(
        3,
        LifecycleEvent::CommandStart {
            block_id: previous.clone(),
            command: Some(String::from("true")),
            cwd: None,
            started_at: Some(3),
        },
    ));
    reducer.apply(input(
        4,
        LifecycleEvent::CommandEnd {
            block_id: previous.clone(),
            outcome: BlockOutcome::Exited(0),
            cwd: Some(String::from("/after-true")),
            finished_at: Some(4),
        },
    ));
    let previous_after_completion = reducer
        .block(&previous)
        .cloned()
        .expect("previous command block should exist");

    reducer.apply(input(
        5,
        LifecycleEvent::PromptPrepare {
            block_id: empty.clone(),
            cwd: Some(String::from("/after-true")),
            prepared_at: Some(5),
        },
    ));
    let completion = reducer.apply(input(
        6,
        LifecycleEvent::CommandEnd {
            block_id: empty.clone(),
            outcome: BlockOutcome::Exited(0),
            cwd: Some(String::from("/after-empty")),
            finished_at: Some(6),
        },
    ));
    reducer.apply(input(
        7,
        LifecycleEvent::PromptPrepare {
            block_id: next.clone(),
            cwd: Some(String::from("/after-empty")),
            prepared_at: Some(7),
        },
    ));

    assert!(!completion.is_ignored());
    assert_eq!(completion.changed_blocks(), std::slice::from_ref(&empty));
    assert_eq!(reducer.block(&previous), Some(&previous_after_completion));

    let empty_block = reducer
        .block(&empty)
        .expect("empty command block should exist");
    assert_eq!(
        empty_block.state(),
        &BlockState::Finished(BlockOutcome::Exited(0))
    );
    assert_eq!(empty_block.metadata().command(), None);
    assert_eq!(empty_block.metadata().started_at(), None);
    assert_eq!(empty_block.metadata().finished_at(), Some(6));
    assert_eq!(empty_block.metadata().exit_code(), Some(0));
    assert_eq!(
        reducer.block(&next).map(|block| block.state()),
        Some(&BlockState::BeforeExecution)
    );
}

#[test]
fn duplicate_and_stale_sequences_do_not_change_a_finished_block() {
    let mut reducer = LifecycleReducer::new(session_id());
    let id = block_id(1);

    reducer.apply(hello(1));
    reducer.apply(input(
        2,
        LifecycleEvent::CommandStart {
            block_id: id.clone(),
            command: Some("true".to_string()),
            cwd: None,
            started_at: Some(2),
        },
    ));
    reducer.apply(input(
        3,
        LifecycleEvent::CommandEnd {
            block_id: id.clone(),
            outcome: BlockOutcome::Exited(0),
            cwd: None,
            finished_at: Some(3),
        },
    ));
    reducer.apply(input(
        3,
        LifecycleEvent::CommandEnd {
            block_id: id.clone(),
            outcome: BlockOutcome::Exited(99),
            cwd: None,
            finished_at: Some(99),
        },
    ));
    reducer.apply(input(
        2,
        LifecycleEvent::CommandEnd {
            block_id: id.clone(),
            outcome: BlockOutcome::Exited(98),
            cwd: None,
            finished_at: Some(98),
        },
    ));

    let block = reducer.block(&id).expect("block should exist");
    assert_eq!(
        block.state(),
        &BlockState::Finished(BlockOutcome::Exited(0))
    );
    assert_eq!(block.metadata().finished_at(), Some(3));
    assert!(reducer.diagnostics().iter().any(|diagnostic| matches!(
        diagnostic,
        LifecycleDiagnostic::DuplicateSequence { received, .. }
            if received.value() == 3
    )));
    assert!(reducer.diagnostics().iter().any(|diagnostic| matches!(
        diagnostic,
        LifecycleDiagnostic::StaleSequence { received, .. }
            if received.value() == 2
    )));
}

#[test]
fn sequence_gap_marks_integration_degraded_but_applies_event() {
    let mut reducer = LifecycleReducer::new(session_id());
    let id = block_id(1);

    reducer.apply(hello(1));
    reducer.apply(input(
        3,
        LifecycleEvent::PromptPrepare {
            block_id: id.clone(),
            cwd: Some("/tmp".to_string()),
            prepared_at: Some(3),
        },
    ));

    assert!(reducer.block(&id).is_some());
    assert_eq!(
        reducer.status(),
        &IntegrationStatus::Degraded(DegradedReason::SequenceGap {
            expected: ProtocolSequence::new(2),
            received: ProtocolSequence::new(3),
        })
    );
}

#[test]
fn prompt_prepare_recovers_missing_command_end() {
    let mut reducer = LifecycleReducer::new(session_id());
    let running = block_id(1);
    let next = block_id(2);

    reducer.apply(hello(1));
    reducer.apply(input(
        2,
        LifecycleEvent::CommandStart {
            block_id: running.clone(),
            command: Some("sleep 1".to_string()),
            cwd: None,
            started_at: Some(2),
        },
    ));
    reducer.apply(input(
        3,
        LifecycleEvent::PromptPrepare {
            block_id: next.clone(),
            cwd: None,
            prepared_at: Some(3),
        },
    ));

    assert_eq!(
        reducer.block(&running).map(|block| block.state()),
        Some(&BlockState::Finished(BlockOutcome::Unknown))
    );
    assert_eq!(
        reducer.block(&next).map(|block| block.state()),
        Some(&BlockState::BeforeExecution)
    );
    assert!(reducer.diagnostics().iter().any(|diagnostic| matches!(
        diagnostic,
        LifecycleDiagnostic::SynthesizedCompletion { block_id }
            if block_id == &running
    )));
}

#[test]
fn stale_prepared_block_id_does_not_finish_active_neighbor() {
    let mut reducer = LifecycleReducer::new(session_id());
    let stale = block_id(1);
    let active = block_id(2);

    reducer.apply(hello(1));
    reducer.apply(input(
        2,
        LifecycleEvent::PromptPrepare {
            block_id: stale.clone(),
            cwd: None,
            prepared_at: None,
        },
    ));
    reducer.apply(input(
        3,
        LifecycleEvent::PromptPrepare {
            block_id: active.clone(),
            cwd: None,
            prepared_at: None,
        },
    ));
    reducer.apply(input(
        4,
        LifecycleEvent::CommandStart {
            block_id: active.clone(),
            command: Some(String::from("sleep 10")),
            cwd: None,
            started_at: None,
        },
    ));

    let update = reducer.apply(input(
        5,
        LifecycleEvent::PromptPrepare {
            block_id: stale.clone(),
            cwd: None,
            prepared_at: None,
        },
    ));

    assert!(update.is_ignored());
    assert_eq!(
        reducer.block(&active).map(|block| block.state()),
        Some(&BlockState::Executing),
    );
    assert_eq!(
        reducer.block(&stale).map(|block| block.state()),
        Some(&BlockState::BeforeExecution),
    );
    assert!(matches!(
        reducer.diagnostics().last(),
        Some(LifecycleDiagnostic::InvalidTransition {
            block_id,
            state: BlockState::BeforeExecution,
        }) if block_id == &stale
    ));

    let update = reducer.apply(input(
        6,
        LifecycleEvent::CommandStart {
            block_id: stale.clone(),
            command: Some(String::from("must stay stale")),
            cwd: None,
            started_at: None,
        },
    ));

    assert!(update.is_ignored());
    assert_eq!(
        reducer.block(&active).map(|block| block.state()),
        Some(&BlockState::Executing),
    );
    assert_eq!(
        reducer.block(&stale).map(|block| block.state()),
        Some(&BlockState::BeforeExecution),
    );
}

#[test]
fn command_start_recovers_missing_end_and_prepare_together() {
    let mut reducer = LifecycleReducer::new(session_id());
    let previous = block_id(1);
    let recovered = block_id(2);

    reducer.apply(hello(1));
    reducer.apply(input(
        2,
        LifecycleEvent::CommandStart {
            block_id: previous.clone(),
            command: Some(String::from("first")),
            cwd: None,
            started_at: Some(2),
        },
    ));

    let update = reducer.apply(input(
        4,
        LifecycleEvent::CommandStart {
            block_id: recovered.clone(),
            command: Some(String::from("second")),
            cwd: None,
            started_at: Some(4),
        },
    ));

    assert_eq!(
        reducer.block(&previous).map(|block| block.state()),
        Some(&BlockState::Finished(BlockOutcome::Unknown)),
    );
    assert_eq!(
        reducer.block(&recovered).map(|block| block.state()),
        Some(&BlockState::Executing),
    );
    assert_eq!(
        update.changed_blocks(),
        &[previous.clone(), recovered.clone()],
    );
    assert!(reducer.diagnostics().iter().any(|diagnostic| matches!(
        diagnostic,
        LifecycleDiagnostic::SynthesizedCompletion { block_id }
            if block_id == &previous
    )));
    assert!(reducer.diagnostics().iter().any(|diagnostic| matches!(
        diagnostic,
        LifecycleDiagnostic::RecoveredCommandStart { block_id }
            if block_id == &recovered
    )));
}

#[test]
fn command_start_without_prepare_creates_recovered_block() {
    let mut reducer = LifecycleReducer::new(session_id());
    let id = block_id(1);

    reducer.apply(hello(1));
    reducer.apply(input(
        2,
        LifecycleEvent::CommandStart {
            block_id: id.clone(),
            command: Some("echo recovered".to_string()),
            cwd: None,
            started_at: Some(2),
        },
    ));

    assert_eq!(
        reducer.block(&id).map(|block| block.state()),
        Some(&BlockState::Executing)
    );
    assert!(reducer.diagnostics().iter().any(|diagnostic| matches!(
        diagnostic,
        LifecycleDiagnostic::RecoveredCommandStart { block_id }
            if block_id == &id
    )));
}

#[test]
fn command_end_for_unknown_id_does_not_finish_neighbor() {
    let mut reducer = LifecycleReducer::new(session_id());
    let running = block_id(1);
    let unknown = block_id(999);

    reducer.apply(hello(1));
    reducer.apply(input(
        2,
        LifecycleEvent::CommandStart {
            block_id: running.clone(),
            command: Some("sleep 1".to_string()),
            cwd: None,
            started_at: Some(2),
        },
    ));
    reducer.apply(input(
        3,
        LifecycleEvent::CommandEnd {
            block_id: unknown.clone(),
            outcome: BlockOutcome::Exited(0),
            cwd: None,
            finished_at: Some(3),
        },
    ));

    assert_eq!(
        reducer.block(&running).map(|block| block.state()),
        Some(&BlockState::Executing)
    );
    assert!(reducer.diagnostics().iter().any(|diagnostic| matches!(
        diagnostic,
        LifecycleDiagnostic::OrphanCommandEnd { block_id }
            if block_id == &unknown
    )));
}

#[test]
fn shell_exit_finishes_active_block() {
    let mut reducer = LifecycleReducer::new(session_id());
    let id = block_id(1);

    reducer.apply(hello(1));
    reducer.apply(input(
        2,
        LifecycleEvent::CommandStart {
            block_id: id.clone(),
            command: Some("exec false".to_string()),
            cwd: None,
            started_at: Some(2),
        },
    ));
    reducer.apply(input(
        3,
        LifecycleEvent::ShellExit {
            status: Some(1),
            finished_at: Some(3),
        },
    ));

    assert_eq!(
        reducer.block(&id).map(|block| block.state()),
        Some(&BlockState::Finished(BlockOutcome::ShellExited))
    );
}

#[test]
fn event_from_another_terminal_session_is_rejected() {
    let mut reducer = LifecycleReducer::new(session_id());
    let foreign = LifecycleInput::new(
        TerminalSessionId::new("foreign"),
        shell_id(),
        ProtocolSequence::new(1),
        LifecycleEvent::ShellHello {
            parent_shell_instance_id: None,
            shell: "bash".to_string(),
            shell_version: None,
        },
    );

    reducer.apply(foreign);

    assert_eq!(reducer.status(), &IntegrationStatus::Pending);
    assert!(matches!(
        reducer.diagnostics().last(),
        Some(LifecycleDiagnostic::ForeignSession { .. })
    ));
}

#[test]
fn unsupported_version_status_requires_the_registered_session() {
    let mut reducer = LifecycleReducer::new(session_id());

    assert!(!reducer.mark_unsupported_version(
        TerminalSessionId::new("foreign"),
        7,
    ));
    assert_eq!(reducer.status(), &IntegrationStatus::Pending);

    assert!(reducer.mark_unsupported_version(session_id(), 7));
    assert_eq!(reducer.status(), &IntegrationStatus::UnsupportedVersion(7));
}

#[test]
fn integration_status_transition_matrix_is_explicit() {
    struct Case {
        name: &'static str,
        send_hello: bool,
        event: LifecycleEvent,
        expected: IntegrationStatus,
    }

    let cases = [
        Case {
            name: "event before hello degrades integration",
            send_hello: false,
            event: LifecycleEvent::ContextUpdate {
                cwd: Some(String::from("/tmp")),
            },
            expected: IntegrationStatus::Degraded(
                DegradedReason::MissingShellHello,
            ),
        },
        Case {
            name: "integration error degrades active integration",
            send_hello: true,
            event: LifecycleEvent::IntegrationError {
                code: String::from("hook-lost"),
            },
            expected: IntegrationStatus::Degraded(
                DegradedReason::IntegrationError(String::from("hook-lost")),
            ),
        },
    ];

    for case in cases {
        let mut reducer = LifecycleReducer::new(session_id());
        let sequence = if case.send_hello {
            reducer.apply(hello(1));
            2
        } else {
            1
        };

        reducer.apply(input(sequence, case.event));

        assert_eq!(reducer.status(), &case.expected, "{}", case.name);
    }
}

#[test]
fn interruption_transition_matrix_is_deterministic() {
    struct Case {
        name: &'static str,
        start_command: bool,
        outcome: Option<BlockOutcome>,
        expected_state: BlockState,
    }

    let cases = [
        Case {
            name: "ctrl-c before command start",
            start_command: false,
            outcome: None,
            expected_state: BlockState::BeforeExecution,
        },
        Case {
            name: "ctrl-c after command start",
            start_command: true,
            outcome: Some(BlockOutcome::Signaled(2)),
            expected_state: BlockState::Finished(BlockOutcome::Signaled(2)),
        },
    ];

    for case in cases {
        let mut reducer = LifecycleReducer::new(session_id());
        let current = block_id(1);
        let next = block_id(2);
        let mut sequence = 1;
        reducer.apply(hello(sequence));
        sequence += 1;
        reducer.apply(input(
            sequence,
            LifecycleEvent::PromptPrepare {
                block_id: current.clone(),
                cwd: Some(String::from("/before")),
                prepared_at: Some(sequence as i64),
            },
        ));

        if case.start_command {
            sequence += 1;
            reducer.apply(input(
                sequence,
                LifecycleEvent::CommandStart {
                    block_id: current.clone(),
                    command: Some(String::from("sleep 10")),
                    cwd: None,
                    started_at: Some(sequence as i64),
                },
            ));
        }
        if let Some(outcome) = case.outcome {
            sequence += 1;
            reducer.apply(input(
                sequence,
                LifecycleEvent::CommandEnd {
                    block_id: current.clone(),
                    outcome,
                    cwd: None,
                    finished_at: Some(sequence as i64),
                },
            ));
        }

        sequence += 1;
        reducer.apply(input(
            sequence,
            LifecycleEvent::PromptPrepare {
                block_id: next.clone(),
                cwd: None,
                prepared_at: Some(sequence as i64),
            },
        ));

        assert_eq!(
            reducer.block(&current).map(|block| block.state()),
            Some(&case.expected_state),
            "{}",
            case.name,
        );
        assert_eq!(
            reducer.block(&next).map(|block| block.state()),
            Some(&BlockState::BeforeExecution),
            "{}",
            case.name,
        );
    }
}

#[test]
fn invalid_transition_matrix_emits_payload_free_diagnostics() {
    enum InvalidEvent {
        EndBeforeStart,
        StartAfterFinish,
        PrepareAfterFinish,
    }

    for case in [
        InvalidEvent::EndBeforeStart,
        InvalidEvent::StartAfterFinish,
        InvalidEvent::PrepareAfterFinish,
    ] {
        let mut reducer = LifecycleReducer::new(session_id());
        let id = block_id(1);
        reducer.apply(hello(1));
        reducer.apply(input(
            2,
            LifecycleEvent::PromptPrepare {
                block_id: id.clone(),
                cwd: None,
                prepared_at: None,
            },
        ));

        let invalid = match case {
            InvalidEvent::EndBeforeStart => LifecycleEvent::CommandEnd {
                block_id: id.clone(),
                outcome: BlockOutcome::Cancelled,
                cwd: None,
                finished_at: None,
            },
            InvalidEvent::StartAfterFinish
            | InvalidEvent::PrepareAfterFinish => {
                reducer.apply(input(
                    3,
                    LifecycleEvent::CommandStart {
                        block_id: id.clone(),
                        command: Some(String::from("secret command")),
                        cwd: None,
                        started_at: None,
                    },
                ));
                reducer.apply(input(
                    4,
                    LifecycleEvent::CommandEnd {
                        block_id: id.clone(),
                        outcome: BlockOutcome::Exited(0),
                        cwd: None,
                        finished_at: None,
                    },
                ));
                match case {
                    InvalidEvent::StartAfterFinish => {
                        LifecycleEvent::CommandStart {
                            block_id: id.clone(),
                            command: Some(String::from(
                                "must not be logged",
                            )),
                            cwd: None,
                            started_at: None,
                        }
                    },
                    InvalidEvent::PrepareAfterFinish => {
                        LifecycleEvent::PromptPrepare {
                            block_id: id.clone(),
                            cwd: None,
                            prepared_at: None,
                        }
                    },
                    InvalidEvent::EndBeforeStart => unreachable!(),
                }
            },
        };
        let sequence = match case {
            InvalidEvent::EndBeforeStart => 3,
            _ => 5,
        };

        let update = reducer.apply(input(sequence, invalid));

        assert!(update.is_ignored());
        assert!(matches!(
            reducer.diagnostics().last(),
            Some(LifecycleDiagnostic::InvalidTransition {
                block_id,
                ..
            }) if block_id == &id
        ));
    }
}

#[test]
fn block_events_cannot_cross_shell_ownership() {
    let mut reducer = LifecycleReducer::new(session_id());
    let root = ShellInstanceId::new("root");
    let child = ShellInstanceId::new("child");
    let root_block = BlockId::terminal(&session_id(), &root, 1);

    reducer.apply(LifecycleInput::new(
        session_id(),
        root.clone(),
        ProtocolSequence::new(1),
        LifecycleEvent::ShellHello {
            parent_shell_instance_id: None,
            shell: String::from("bash"),
            shell_version: None,
        },
    ));
    reducer.apply(LifecycleInput::new(
        session_id(),
        root.clone(),
        ProtocolSequence::new(2),
        LifecycleEvent::CommandStart {
            block_id: root_block.clone(),
            command: Some(String::from("sleep 10")),
            cwd: None,
            started_at: None,
        },
    ));
    reducer.apply(LifecycleInput::new(
        session_id(),
        child.clone(),
        ProtocolSequence::new(1),
        LifecycleEvent::ShellHello {
            parent_shell_instance_id: Some(root.clone()),
            shell: String::from("bash"),
            shell_version: None,
        },
    ));

    let update = reducer.apply(LifecycleInput::new(
        session_id(),
        child.clone(),
        ProtocolSequence::new(2),
        LifecycleEvent::CommandEnd {
            block_id: root_block.clone(),
            outcome: BlockOutcome::Exited(0),
            cwd: None,
            finished_at: None,
        },
    ));

    assert!(update.is_ignored());
    assert_eq!(
        reducer.block(&root_block).map(|block| block.state()),
        Some(&BlockState::Executing),
    );
    assert!(matches!(
        reducer.diagnostics().last(),
        Some(LifecycleDiagnostic::ForeignShellBlock {
            block_id,
            expected_shell_instance_id,
            received_shell_instance_id,
        }) if block_id == &root_block
            && expected_shell_instance_id == &root
            && received_shell_instance_id == &child
    ));
}

#[test]
fn nested_and_root_shell_exit_finish_only_owned_active_blocks() {
    let mut reducer = LifecycleReducer::new(session_id());
    let root = ShellInstanceId::new("root");
    let child = ShellInstanceId::new("child");
    let root_block = BlockId::terminal(&session_id(), &root, 1);
    let child_block = BlockId::terminal(&session_id(), &child, 1);

    for (shell, parent, block) in [
        (root.clone(), None, root_block.clone()),
        (child.clone(), Some(root.clone()), child_block.clone()),
    ] {
        reducer.apply(LifecycleInput::new(
            session_id(),
            shell.clone(),
            ProtocolSequence::new(1),
            LifecycleEvent::ShellHello {
                parent_shell_instance_id: parent,
                shell: String::from("bash"),
                shell_version: None,
            },
        ));
        reducer.apply(LifecycleInput::new(
            session_id(),
            shell,
            ProtocolSequence::new(2),
            LifecycleEvent::CommandStart {
                block_id: block,
                command: Some(String::from("sleep 10")),
                cwd: None,
                started_at: None,
            },
        ));
    }

    reducer.apply(LifecycleInput::new(
        session_id(),
        child.clone(),
        ProtocolSequence::new(3),
        LifecycleEvent::ShellExit {
            status: Some(1),
            finished_at: Some(30),
        },
    ));

    assert_eq!(
        reducer.block(&child_block).map(|block| block.state()),
        Some(&BlockState::Finished(BlockOutcome::ShellExited)),
    );
    assert_eq!(
        reducer.block(&root_block).map(|block| block.state()),
        Some(&BlockState::Executing),
    );

    reducer.apply(LifecycleInput::new(
        session_id(),
        root,
        ProtocolSequence::new(3),
        LifecycleEvent::ShellExit {
            status: Some(0),
            finished_at: Some(31),
        },
    ));

    assert_eq!(
        reducer.block(&root_block).map(|block| block.state()),
        Some(&BlockState::Finished(BlockOutcome::ShellExited)),
    );
}

