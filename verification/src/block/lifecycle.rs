//! Deterministic reducer for ordered shell lifecycle events.
//!
//! The reducer's state is modelled by [`ReducerModel`]: maps from shell and
//! block identities to their records, an append-only diagnostic log and the
//! integration status. [`step`] is the transition function of that model;
//! [`LifecycleReducer::apply`] is proved to implement it exactly.

use vstd::prelude::*;

use super::id::{
    lemma_sequence_from_value, lemma_sequence_value_injective, BlockId, ProtocolSequence,
    ShellInstanceId, TerminalSessionId,
};
use super::model::{clone_opt_string, BlockOutcome, BlockRecord, BlockState, RecordView};

verus! {

broadcast use {lemma_sequence_value_injective, lemma_sequence_from_value};

/// Current shell-integration capability state.
#[derive(Clone, Debug, Default, PartialEq, Eq)]
pub enum IntegrationStatus {
    /// No successful protocol handshake has arrived yet.
    #[default]
    Pending,
    /// A supported protocol version is active.
    Active(u16),
    /// Events remain usable, but lifecycle recovery was required.
    Degraded(DegradedReason),
    /// The shell reported a protocol version the model cannot apply.
    UnsupportedVersion(u16),
    /// The configured shell has no lifecycle integration.
    Unsupported(String),
}

/// User-visible reason for a degraded shell integration.
#[derive(Clone, Debug, PartialEq, Eq)]
pub enum DegradedReason {
    /// One or more ordered shell events were not observed.
    SequenceGap {
        /// Sequence that should have arrived next.
        expected: ProtocolSequence,
        /// Sequence that was actually received.
        received: ProtocolSequence,
    },
    /// A lifecycle event arrived before the shell handshake.
    MissingShellHello,
    /// The shell integration explicitly reported an error code.
    IntegrationError(String),
}

/// Typed shell lifecycle event after transport decoding.
#[derive(Clone, Debug, PartialEq, Eq)]
pub enum LifecycleEvent {
    /// Register a root or nested shell context.
    ShellHello {
        /// Parent shell for a nested context.
        parent_shell_instance_id: Option<ShellInstanceId>,
        /// Shell implementation name.
        shell: String,
        /// Optional implementation version.
        shell_version: Option<String>,
    },
    /// Prepare the stable block that will own the next command.
    PromptPrepare {
        /// Stable block identity.
        block_id: BlockId,
        /// Working directory before command execution.
        cwd: Option<String>,
        /// Timestamp at which prompt preparation began.
        prepared_at: Option<i64>,
    },
    /// Start execution in a prepared block.
    CommandStart {
        /// Stable block identity.
        block_id: BlockId,
        /// Best available canonical command text.
        command: Option<String>,
        /// Working directory before command execution.
        cwd: Option<String>,
        /// Execution start timestamp.
        started_at: Option<i64>,
    },
    /// Finish one exact command block, including a successful empty submission.
    CommandEnd {
        /// Stable block identity.
        block_id: BlockId,
        /// Process completion result.
        outcome: BlockOutcome,
        /// Working directory after command execution.
        cwd: Option<String>,
        /// Execution finish timestamp.
        finished_at: Option<i64>,
    },
    /// Patch context fields that changed outside a normal prompt transition.
    ContextUpdate {
        /// Current shell working directory.
        cwd: Option<String>,
    },
    /// Close the current shell context.
    ShellExit {
        /// Shell process status, when available.
        status: Option<i32>,
        /// Shell exit timestamp.
        finished_at: Option<i64>,
    },
    /// Record a safe shell-side integration error code.
    IntegrationError {
        /// Stable reason code without command or output contents.
        code: String,
    },
}

/// Non-fatal lifecycle anomaly retained for diagnostics.
#[derive(Clone, Debug, PartialEq, Eq)]
pub enum LifecycleDiagnostic {
    /// The event belongs to another terminal session.
    ForeignSession {
        /// Rejected session identity.
        received: TerminalSessionId,
    },
    /// The same sequence was received more than once.
    DuplicateSequence {
        /// Shell that emitted the event.
        shell_instance_id: ShellInstanceId,
        /// Repeated sequence.
        received: ProtocolSequence,
    },
    /// A sequence older than the latest applied event was received.
    StaleSequence {
        /// Shell that emitted the event.
        shell_instance_id: ShellInstanceId,
        /// Stale sequence.
        received: ProtocolSequence,
    },
    /// The ordered event stream contains a gap.
    SequenceGap {
        /// Shell that emitted the event.
        shell_instance_id: ShellInstanceId,
        /// Sequence expected next.
        expected: ProtocolSequence,
        /// Sequence actually received.
        received: ProtocolSequence,
    },
    /// A missing command completion was synthesized at the next prompt.
    SynthesizedCompletion {
        /// Block completed with an unknown outcome.
        block_id: BlockId,
    },
    /// A command start created a missing prepared block.
    RecoveredCommandStart {
        /// Recovered block identity.
        block_id: BlockId,
    },
    /// Completion referenced a block that is not retained.
    OrphanCommandEnd {
        /// Unknown block identity.
        block_id: BlockId,
    },
    /// A lifecycle event could not be applied in the current block state.
    InvalidTransition {
        /// Block targeted by the invalid transition.
        block_id: BlockId,
        /// State observed by the reducer.
        state: BlockState,
    },
    /// An event targeted a block owned by another shell context.
    ForeignShellBlock {
        /// Stable identity of the rejected block target.
        block_id: BlockId,
        /// Shell context that owns the block.
        expected_shell_instance_id: ShellInstanceId,
        /// Shell context that emitted the rejected event.
        received_shell_instance_id: ShellInstanceId,
    },
    /// A non-handshake event arrived before shell registration.
    MissingShellHello {
        /// Unregistered shell identity.
        shell_instance_id: ShellInstanceId,
    },
}

/// Protocol envelope fields paired with one semantic lifecycle event.
#[derive(Clone, Debug, PartialEq, Eq)]
pub struct LifecycleInput {
    session_id: TerminalSessionId,
    shell_instance_id: ShellInstanceId,
    sequence: ProtocolSequence,
    event: LifecycleEvent,
}

/// Abstract content of a [`LifecycleInput`].
pub ghost struct InputView {
    pub session_id: TerminalSessionId,
    pub shell_instance_id: ShellInstanceId,
    pub sequence: ProtocolSequence,
    pub event: LifecycleEvent,
}

impl View for LifecycleInput {
    type V = InputView;

    closed spec fn view(&self) -> InputView {
        InputView {
            session_id: self.session_id,
            shell_instance_id: self.shell_instance_id,
            sequence: self.sequence,
            event: self.event,
        }
    }
}

impl LifecycleInput {
    /// Build reducer input from a decoded protocol envelope.
    pub fn new(
        session_id: TerminalSessionId,
        shell_instance_id: ShellInstanceId,
        sequence: ProtocolSequence,
        event: LifecycleEvent,
    ) -> (input: Self)
        ensures
            input@ == (InputView { session_id, shell_instance_id, sequence, event }),
    {
        LifecycleInput { session_id, shell_instance_id, sequence, event }
    }
}

/// Summary of model changes caused by one lifecycle event.
#[derive(Clone, Debug, Default, PartialEq, Eq)]
pub struct LifecycleUpdate {
    changed_blocks: Vec<BlockId>,
    ignored: bool,
}

/// Abstract content of a [`LifecycleUpdate`].
pub ghost struct UpdateView {
    pub changed_blocks: Seq<BlockId>,
    pub ignored: bool,
}

impl UpdateView {
    /// The event was rejected or idempotently ignored.
    pub open spec fn ignored() -> UpdateView {
        UpdateView { changed_blocks: Seq::empty(), ignored: true }
    }

    /// The event was applied without changing any block.
    pub open spec fn unchanged() -> UpdateView {
        UpdateView { changed_blocks: Seq::empty(), ignored: false }
    }

    /// The event was applied and changed exactly the listed blocks.
    pub open spec fn changed(blocks: Seq<BlockId>) -> UpdateView {
        UpdateView { changed_blocks: blocks, ignored: false }
    }
}

impl View for LifecycleUpdate {
    type V = UpdateView;

    closed spec fn view(&self) -> UpdateView {
        UpdateView { changed_blocks: self.changed_blocks@, ignored: self.ignored }
    }
}

impl LifecycleUpdate {
    /// Return block identities whose state or metadata changed.
    pub fn changed_blocks(&self) -> (blocks: &[BlockId])
        ensures
            blocks@ == self@.changed_blocks,
    {
        self.changed_blocks.as_slice()
    }

    /// Return whether the event was rejected or idempotently ignored.
    pub fn is_ignored(&self) -> (ignored: bool)
        ensures
            ignored == self@.ignored,
    {
        self.ignored
    }

    fn ignored() -> (update: Self)
        ensures
            update@ == UpdateView::ignored(),
    {
        LifecycleUpdate { changed_blocks: Vec::new(), ignored: true }
    }

    fn unchanged() -> (update: Self)
        ensures
            update@ == UpdateView::unchanged(),
    {
        LifecycleUpdate { changed_blocks: Vec::new(), ignored: false }
    }

    fn changed(block_id: BlockId) -> (update: Self)
        ensures
            update@ == UpdateView::changed(seq![block_id]),
    {
        let mut changed_blocks = Vec::new();
        changed_blocks.push(block_id);
        proof {
            assert(changed_blocks@ =~= seq![block_id]);
        }
        LifecycleUpdate { changed_blocks, ignored: false }
    }
}

/// Per-shell protocol context tracked by the reducer.
#[derive(Debug, PartialEq, Eq)]
pub struct ShellLifecycle {
    /// Parent shell of a nested context.
    pub parent_shell_instance_id: Option<ShellInstanceId>,
    /// Shell implementation name.
    pub shell: Option<String>,
    /// Shell implementation version.
    pub shell_version: Option<String>,
    /// Latest accepted protocol sequence.
    pub last_sequence: Option<ProtocolSequence>,
    /// Block currently owned by this shell's command, if any.
    pub active_block_id: Option<BlockId>,
    /// Latest known working directory.
    pub cwd: Option<String>,
    /// Whether the shell handshake was seen.
    pub did_hello: bool,
    /// Whether the shell reported its exit.
    pub did_exit: bool,
}

fn clone_opt_shell(value: &Option<ShellInstanceId>) -> (copy: Option<ShellInstanceId>)
    ensures
        copy == *value,
{
    match value {
        Some(id) => Some(id.clone()),
        None => None,
    }
}

fn clone_opt_block(value: &Option<BlockId>) -> (copy: Option<BlockId>)
    ensures
        copy == *value,
{
    match value {
        Some(id) => Some(id.clone()),
        None => None,
    }
}

impl Clone for ShellLifecycle {
    fn clone(&self) -> (copy: Self)
        ensures
            copy == *self,
    {
        ShellLifecycle {
            parent_shell_instance_id: clone_opt_shell(&self.parent_shell_instance_id),
            shell: clone_opt_string(&self.shell),
            shell_version: clone_opt_string(&self.shell_version),
            last_sequence: self.last_sequence,
            active_block_id: clone_opt_block(&self.active_block_id),
            cwd: clone_opt_string(&self.cwd),
            did_hello: self.did_hello,
            did_exit: self.did_exit,
        }
    }
}

/// The context of a shell that has not sent any event yet.
pub open spec fn fresh_shell() -> ShellLifecycle {
    ShellLifecycle {
        parent_shell_instance_id: None,
        shell: None,
        shell_version: None,
        last_sequence: None,
        active_block_id: None,
        cwd: None,
        did_hello: false,
        did_exit: false,
    }
}

impl ShellLifecycle {
    fn new() -> (shell: Self)
        ensures
            shell == fresh_shell(),
    {
        ShellLifecycle {
            parent_shell_instance_id: None,
            shell: None,
            shell_version: None,
            last_sequence: None,
            active_block_id: None,
            cwd: None,
            did_hello: false,
            did_exit: false,
        }
    }
}

/// Mathematical state of a [`LifecycleReducer`].
pub ghost struct ReducerModel {
    /// The only terminal session whose events are accepted.
    pub session_id: Seq<char>,
    /// Context of every shell that sent an accepted event, by identity.
    pub shells: Map<Seq<char>, ShellLifecycle>,
    /// Every retained block, by identity.
    pub blocks: Map<Seq<char>, RecordView>,
    /// Diagnostics in the order they were recorded.
    pub diagnostics: Seq<LifecycleDiagnostic>,
    /// Current integration status.
    pub status: IntegrationStatus,
}

/// A present patch value replaces the current one.
pub open spec fn keep_or<T>(current: Option<T>, update: Option<T>) -> Option<T> {
    if update.is_some() { update } else { current }
}

/// The list form of an optional block identity.
pub open spec fn opt_seq(value: Option<BlockId>) -> Seq<BlockId> {
    match value {
        Some(id) => seq![id],
        None => Seq::empty(),
    }
}

/// The sequence expected after `previous`; an exhausted or missing previous restarts at one.
pub open spec fn expected_after(previous: Option<ProtocolSequence>) -> ProtocolSequence {
    match previous {
        Some(p) => if p.spec_value() < u64::MAX {
            ProtocolSequence::from_value((p.spec_value() + 1) as u64)
        } else {
            ProtocolSequence::from_value(1)
        },
        None => ProtocolSequence::from_value(1),
    }
}

impl ReducerModel {
    /// Append a diagnostic.
    pub open spec fn log(self, diagnostic: LifecycleDiagnostic) -> ReducerModel {
        ReducerModel { diagnostics: self.diagnostics.push(diagnostic), ..self }
    }

    /// Replace the integration status.
    pub open spec fn with_status(self, status: IntegrationStatus) -> ReducerModel {
        ReducerModel { status, ..self }
    }

    /// Context of `shell`, or a fresh one when the shell is unknown.
    pub open spec fn shell(self, shell: Seq<char>) -> ShellLifecycle {
        if self.shells.contains_key(shell) { self.shells[shell] } else { fresh_shell() }
    }

    /// Store the context of `shell`.
    pub open spec fn with_shell(self, shell: Seq<char>, context: ShellLifecycle) -> ReducerModel {
        ReducerModel { shells: self.shells.insert(shell, context), ..self }
    }

    /// Store the record of block `id`.
    pub open spec fn with_block(self, id: Seq<char>, record: RecordView) -> ReducerModel {
        ReducerModel { blocks: self.blocks.insert(id, record), ..self }
    }

    /// Whether `block` is the active block of `shell`.
    pub open spec fn is_active(self, shell: Seq<char>, block: Seq<char>) -> bool {
        match self.shell(shell).active_block_id {
            Some(active) => active@ == block,
            None => false,
        }
    }

    /// Make `block_id` the active block of `shell`, adopting a present working directory.
    pub open spec fn activate(self, shell: Seq<char>, block_id: BlockId, cwd: Option<String>) -> ReducerModel {
        let context = self.shell(shell);
        self.with_shell(
            shell,
            ShellLifecycle { active_block_id: Some(block_id), cwd: keep_or(context.cwd, cwd), ..context },
        )
    }

    /// Whether `block` is retained and owned by a shell other than `shell`.
    pub open spec fn owned_elsewhere(self, shell: ShellInstanceId, block: BlockId) -> bool {
        self.blocks.contains_key(block@) && self.blocks[block@].shell_instance_id@ != shell@
    }

    /// Log the rejection of an event of `shell` that targets another shell's block.
    pub open spec fn reject_foreign(self, shell: ShellInstanceId, block: BlockId) -> ReducerModel {
        self.log(
            LifecycleDiagnostic::ForeignShellBlock {
                block_id: block,
                expected_shell_instance_id: self.blocks[block@].shell_instance_id,
                received_shell_instance_id: shell,
            },
        )
    }
}


/// Ordering check of one received sequence: duplicates and stale sequences are
/// rejected and logged; a gap degrades the integration but the event is applied;
/// an accepted sequence becomes the shell's latest.
pub open spec fn accept_sequence(
    m: ReducerModel,
    shell: ShellInstanceId,
    received: ProtocolSequence,
) -> (ReducerModel, bool) {
    let previous = m.shell(shell@).last_sequence;
    if previous.is_some() && received.spec_value() == previous.unwrap().spec_value() {
        (m.log(LifecycleDiagnostic::DuplicateSequence { shell_instance_id: shell, received }), false)
    } else if previous.is_some() && received.spec_value() < previous.unwrap().spec_value() {
        (m.log(LifecycleDiagnostic::StaleSequence { shell_instance_id: shell, received }), false)
    } else {
        let expected = expected_after(previous);
        let gapped = if received.spec_value() > expected.spec_value() {
            m.with_status(
                IntegrationStatus::Degraded(DegradedReason::SequenceGap { expected, received }),
            ).log(LifecycleDiagnostic::SequenceGap { shell_instance_id: shell, expected, received })
        } else {
            m
        };
        (
            gapped.with_shell(
                shell@,
                ShellLifecycle { last_sequence: Some(received), ..gapped.shell(shell@) },
            ),
            true,
        )
    }
}

/// Finish the active executing block of `shell` with an unknown outcome when a
/// new block `next` arrives without the previous completion.
pub open spec fn finish_active_for_recovery(
    m: ReducerModel,
    shell: ShellInstanceId,
    next: BlockId,
    finished_at: Option<i64>,
) -> (ReducerModel, Option<BlockId>) {
    match m.shell(shell@).active_block_id {
        None => (m, None),
        Some(active) => if active@ == next@ || !m.blocks.contains_key(active@)
            || m.blocks[active@].state != BlockState::Executing {
            (m, None)
        } else {
            (
                m.with_block(
                    active@,
                    m.blocks[active@].finished(BlockOutcome::Unknown, None, finished_at),
                ).log(LifecycleDiagnostic::SynthesizedCompletion { block_id: active }),
                Some(active),
            )
        },
    }
}

/// Register (or re-register) a shell context.
pub open spec fn shell_hello(
    m: ReducerModel,
    shell: ShellInstanceId,
    parent: Option<ShellInstanceId>,
    name: String,
    version: Option<String>,
) -> (ReducerModel, UpdateView) {
    let registered = m.with_shell(
        shell@,
        ShellLifecycle {
            parent_shell_instance_id: parent,
            shell: Some(name),
            shell_version: version,
            did_hello: true,
            did_exit: false,
            ..m.shell(shell@)
        },
    );
    let status = match m.status {
        IntegrationStatus::Degraded(reason) => IntegrationStatus::Degraded(reason),
        _ => IntegrationStatus::Active(2),
    };
    (registered.with_status(status), UpdateView::unchanged())
}

/// Prepare `block_id` as the block of the next command of `shell`.
pub open spec fn prompt_prepare(
    m: ReducerModel,
    shell: ShellInstanceId,
    block_id: BlockId,
    cwd: Option<String>,
    prepared_at: Option<i64>,
) -> (ReducerModel, UpdateView) {
    if m.owned_elsewhere(shell, block_id) {
        (m.reject_foreign(shell, block_id), UpdateView::ignored())
    } else if m.blocks.contains_key(block_id@) {
        let block = m.blocks[block_id@];
        if block.state == BlockState::BeforeExecution && m.is_active(shell@, block_id@) {
            (
                m.with_block(block_id@, block.with_prompt(cwd)).activate(shell@, block_id, cwd),
                UpdateView::changed(seq![block_id]),
            )
        } else {
            (
                m.log(LifecycleDiagnostic::InvalidTransition { block_id, state: block.state }),
                UpdateView::ignored(),
            )
        }
    } else {
        let (recovered, finished) = finish_active_for_recovery(m, shell, block_id, prepared_at);
        (
            recovered.with_block(block_id@, RecordView::prepared(block_id, shell, cwd)).activate(
                shell@,
                block_id,
                cwd,
            ),
            UpdateView::changed(opt_seq(finished).push(block_id)),
        )
    }
}

/// Start the command of `block_id`.
pub open spec fn command_start(
    m: ReducerModel,
    shell: ShellInstanceId,
    block_id: BlockId,
    command: Option<String>,
    cwd: Option<String>,
    started_at: Option<i64>,
) -> (ReducerModel, UpdateView) {
    if m.owned_elsewhere(shell, block_id) {
        (m.reject_foreign(shell, block_id), UpdateView::ignored())
    } else if m.blocks.contains_key(block_id@) {
        let block = m.blocks[block_id@];
        if block.state == BlockState::BeforeExecution {
            if m.is_active(shell@, block_id@) {
                (
                    m.with_block(block_id@, block.started(command, cwd, started_at)).activate(
                        shell@,
                        block_id,
                        cwd,
                    ),
                    UpdateView::changed(seq![block_id]),
                )
            } else {
                (
                    m.log(LifecycleDiagnostic::InvalidTransition { block_id, state: block.state }),
                    UpdateView::ignored(),
                )
            }
        } else if block.state == BlockState::Executing {
            (m, UpdateView::ignored())
        } else {
            (
                m.log(LifecycleDiagnostic::InvalidTransition { block_id, state: block.state }),
                UpdateView::ignored(),
            )
        }
    } else {
        let (recovered, finished) = finish_active_for_recovery(m, shell, block_id, started_at);
        (
            recovered.log(LifecycleDiagnostic::RecoveredCommandStart { block_id }).with_block(
                block_id@,
                RecordView::prepared(block_id, shell, None).started(command, cwd, started_at),
            ).activate(shell@, block_id, cwd),
            UpdateView::changed(opt_seq(finished).push(block_id)),
        )
    }
}

/// Whether a command end may finish a block in `state`.
pub open spec fn end_applies(state: BlockState, empty_success: bool) -> bool {
    match state {
        BlockState::Executing | BlockState::BackgroundRunning => true,
        BlockState::BeforeExecution => empty_success,
        _ => false,
    }
}

/// Finish the command of `block_id`.
pub open spec fn command_end(
    m: ReducerModel,
    shell: ShellInstanceId,
    block_id: BlockId,
    outcome: BlockOutcome,
    cwd: Option<String>,
    finished_at: Option<i64>,
) -> (ReducerModel, UpdateView) {
    if m.owned_elsewhere(shell, block_id) {
        (m.reject_foreign(shell, block_id), UpdateView::ignored())
    } else if !m.blocks.contains_key(block_id@) {
        (m.log(LifecycleDiagnostic::OrphanCommandEnd { block_id }), UpdateView::ignored())
    } else {
        let block = m.blocks[block_id@];
        let empty_success = m.is_active(shell@, block_id@) && outcome == BlockOutcome::Exited(0);
        if end_applies(block.state, empty_success) {
            let finished = m.with_block(block_id@, block.finished(outcome, cwd, finished_at));
            let updated = if finished.shells.contains_key(shell@) {
                let context = finished.shells[shell@];
                finished.with_shell(
                    shell@,
                    ShellLifecycle {
                        active_block_id: if finished.is_active(shell@, block_id@) {
                            None
                        } else {
                            context.active_block_id
                        },
                        cwd: keep_or(context.cwd, cwd),
                        ..context
                    },
                )
            } else {
                finished
            };
            (updated, UpdateView::changed(seq![block_id]))
        } else if block.state is Finished || block.state is BackgroundFinished {
            (m, UpdateView::ignored())
        } else {
            (
                m.log(LifecycleDiagnostic::InvalidTransition { block_id, state: block.state }),
                UpdateView::ignored(),
            )
        }
    }
}

/// Adopt a present working directory for a known shell.
pub open spec fn context_update(m: ReducerModel, shell: ShellInstanceId, cwd: Option<String>) -> (
    ReducerModel,
    UpdateView,
) {
    if !m.shells.contains_key(shell@) {
        (m, UpdateView::ignored())
    } else {
        let context = m.shells[shell@];
        (
            m.with_shell(shell@, ShellLifecycle { cwd: keep_or(context.cwd, cwd), ..context }),
            UpdateView::unchanged(),
        )
    }
}

/// Close a known shell; its unfinished active block finishes as shell-exited.
pub open spec fn shell_exit(m: ReducerModel, shell: ShellInstanceId, finished_at: Option<i64>) -> (
    ReducerModel,
    UpdateView,
) {
    if !m.shells.contains_key(shell@) {
        (m, UpdateView::ignored())
    } else {
        let context = m.shells[shell@];
        let closed = m.with_shell(
            shell@,
            ShellLifecycle { did_exit: true, active_block_id: None, ..context },
        );
        match context.active_block_id {
            None => (closed, UpdateView::unchanged()),
            Some(active) => if !closed.blocks.contains_key(active@)
                || closed.blocks[active@].state is Finished {
                (closed, UpdateView::unchanged())
            } else {
                (
                    closed.with_block(
                        active@,
                        closed.blocks[active@].finished(BlockOutcome::ShellExited, None, finished_at),
                    ),
                    UpdateView::changed(seq![active]),
                )
            },
        }
    }
}

/// Apply one semantic event of `shell` after its sequence was accepted.
pub open spec fn apply_event(m: ReducerModel, shell: ShellInstanceId, event: LifecycleEvent) -> (
    ReducerModel,
    UpdateView,
) {
    match event {
        LifecycleEvent::ShellHello { parent_shell_instance_id, shell: name, shell_version } =>
            shell_hello(m, shell, parent_shell_instance_id, name, shell_version),
        LifecycleEvent::PromptPrepare { block_id, cwd, prepared_at } =>
            prompt_prepare(m, shell, block_id, cwd, prepared_at),
        LifecycleEvent::CommandStart { block_id, command, cwd, started_at } =>
            command_start(m, shell, block_id, command, cwd, started_at),
        LifecycleEvent::CommandEnd { block_id, outcome, cwd, finished_at } =>
            command_end(m, shell, block_id, outcome, cwd, finished_at),
        LifecycleEvent::ContextUpdate { cwd } => context_update(m, shell, cwd),
        LifecycleEvent::ShellExit { status: _, finished_at } => shell_exit(m, shell, finished_at),
        LifecycleEvent::IntegrationError { code } => (
            m.with_status(IntegrationStatus::Degraded(DegradedReason::IntegrationError(code))),
            UpdateView::unchanged(),
        ),
    }
}

/// Transition function of the reducer: the state after `input` and the
/// update reported for it.
pub open spec fn step(m: ReducerModel, input: InputView) -> (ReducerModel, UpdateView) {
    let shell = input.shell_instance_id;
    if input.session_id@ != m.session_id {
        (m.log(LifecycleDiagnostic::ForeignSession { received: input.session_id }), UpdateView::ignored())
    } else {
        let (sequenced, accepted) = accept_sequence(m, shell, input.sequence);
        if !accepted {
            (sequenced, UpdateView::ignored())
        } else {
            let checked = if !(input.event is ShellHello) && !sequenced.shell(shell@).did_hello {
                sequenced.with_status(
                    IntegrationStatus::Degraded(DegradedReason::MissingShellHello),
                ).log(LifecycleDiagnostic::MissingShellHello { shell_instance_id: shell })
            } else {
                sequenced
            };
            apply_event(checked, shell, input.event)
        }
    }
}

/// Well-formedness of a reducer state: records are stored under their own
/// identity, and a shell's active block is retained and belongs to that shell.
pub open spec fn model_wf(m: ReducerModel) -> bool {
    &&& forall|k: Seq<char>| #[trigger] m.blocks.contains_key(k) ==> m.blocks[k].id@ == k
    &&& forall|k: Seq<char>|
        #![trigger m.shells.contains_key(k)]
        m.shells.contains_key(k) && m.shells[k].active_block_id is Some ==> {
            &&& m.blocks.contains_key(m.shells[k].active_block_id.unwrap()@)
            &&& m.blocks[m.shells[k].active_block_id.unwrap()@].shell_instance_id@ == k
        }
}


/// One shell context stored under its identity.
struct ShellEntry {
    id: ShellInstanceId,
    context: ShellLifecycle,
}

spec fn shell_keys_unique(entries: Seq<ShellEntry>) -> bool {
    forall|i: int, j: int|
        #![trigger entries[i], entries[j]]
        0 <= i < entries.len() && 0 <= j < entries.len() && i != j ==> entries[i].id@ != entries[j].id@
}

spec fn shells_map(entries: Seq<ShellEntry>) -> Map<Seq<char>, ShellLifecycle> {
    Map::new(
        |k: Seq<char>| exists|i: int| 0 <= i < entries.len() && entries[i].id@ == k,
        |k: Seq<char>| entries[choose|i: int| 0 <= i < entries.len() && entries[i].id@ == k].context,
    )
}

spec fn block_keys_unique(records: Seq<BlockRecord>) -> bool {
    forall|i: int, j: int|
        #![trigger records[i], records[j]]
        0 <= i < records.len() && 0 <= j < records.len() && i != j ==> records[i]@.id@
            != records[j]@.id@
}

spec fn blocks_map(records: Seq<BlockRecord>) -> Map<Seq<char>, RecordView> {
    Map::new(
        |k: Seq<char>| exists|i: int| 0 <= i < records.len() && records[i]@.id@ == k,
        |k: Seq<char>| records[choose|i: int| 0 <= i < records.len() && records[i]@.id@ == k]@,
    )
}

proof fn lemma_shells_map_index(entries: Seq<ShellEntry>, i: int)
    requires
        shell_keys_unique(entries),
        0 <= i < entries.len(),
    ensures
        shells_map(entries).contains_key(entries[i].id@),
        shells_map(entries)[entries[i].id@] == entries[i].context,
{
    let k = entries[i].id@;
    assert(exists|j: int| 0 <= j < entries.len() && entries[j].id@ == k);
    let j = choose|j: int| 0 <= j < entries.len() && entries[j].id@ == k;
    assert(i == j);
}

proof fn lemma_shells_map_absent(entries: Seq<ShellEntry>, k: Seq<char>)
    requires
        forall|i: int| 0 <= i < entries.len() ==> entries[i].id@ != k,
    ensures
        !shells_map(entries).contains_key(k),
{
}

proof fn lemma_shells_map_update(entries: Seq<ShellEntry>, i: int, entry: ShellEntry)
    requires
        shell_keys_unique(entries),
        0 <= i < entries.len(),
        entry.id@ == entries[i].id@,
    ensures
        shell_keys_unique(entries.update(i, entry)),
        shells_map(entries.update(i, entry)) == shells_map(entries).insert(entry.id@, entry.context),
{
    let updated = entries.update(i, entry);
    assert forall|a: int, b: int|
        #![trigger updated[a], updated[b]]
        0 <= a < updated.len() && 0 <= b < updated.len() && a != b implies updated[a].id@
        != updated[b].id@ by {
        assert(entries[a].id@ != entries[b].id@);
    }
    let new_map = shells_map(updated);
    let expected = shells_map(entries).insert(entry.id@, entry.context);
    assert forall|k: Seq<char>| #[trigger] new_map.contains_key(k) <==> expected.contains_key(k) by {
        if new_map.contains_key(k) {
            let j = choose|j: int| 0 <= j < updated.len() && updated[j].id@ == k;
            if j != i {
                assert(entries[j].id@ == k);
            }
        }
        if expected.contains_key(k) && k != entry.id@ {
            let j = choose|j: int| 0 <= j < entries.len() && entries[j].id@ == k;
            assert(updated[j].id@ == k);
        }
        if k == entry.id@ {
            assert(updated[i].id@ == k);
        }
    }
    assert forall|k: Seq<char>| #[trigger] new_map.contains_key(k) implies new_map[k] == expected[k] by {
        let j = choose|j: int| 0 <= j < updated.len() && updated[j].id@ == k;
        lemma_shells_map_index(updated, j);
        if j != i {
            lemma_shells_map_index(entries, j);
        }
    }
    assert(new_map =~= expected);
}

proof fn lemma_shells_map_push(entries: Seq<ShellEntry>, entry: ShellEntry)
    requires
        shell_keys_unique(entries),
        !shells_map(entries).contains_key(entry.id@),
    ensures
        shell_keys_unique(entries.push(entry)),
        shells_map(entries.push(entry)) == shells_map(entries).insert(entry.id@, entry.context),
{
    let pushed = entries.push(entry);
    let n = entries.len() as int;
    assert forall|a: int, b: int|
        #![trigger pushed[a], pushed[b]]
        0 <= a < pushed.len() && 0 <= b < pushed.len() && a != b implies pushed[a].id@
        != pushed[b].id@ by {
        if a < n && b < n {
            assert(entries[a].id@ != entries[b].id@);
        } else if a < n {
            assert(pushed[a] == entries[a]);
        } else {
            assert(pushed[b] == entries[b]);
        }
    }
    let new_map = shells_map(pushed);
    let expected = shells_map(entries).insert(entry.id@, entry.context);
    assert forall|k: Seq<char>| #[trigger] new_map.contains_key(k) <==> expected.contains_key(k) by {
        if new_map.contains_key(k) {
            let j = choose|j: int| 0 <= j < pushed.len() && pushed[j].id@ == k;
            if j < n {
                assert(entries[j].id@ == k);
            }
        }
        if expected.contains_key(k) && k != entry.id@ {
            let j = choose|j: int| 0 <= j < entries.len() && entries[j].id@ == k;
            assert(pushed[j].id@ == k);
        }
        if k == entry.id@ {
            assert(pushed[n].id@ == k);
        }
    }
    assert forall|k: Seq<char>| #[trigger] new_map.contains_key(k) implies new_map[k] == expected[k] by {
        let j = choose|j: int| 0 <= j < pushed.len() && pushed[j].id@ == k;
        lemma_shells_map_index(pushed, j);
        if j < n {
            assert(pushed[j] == entries[j]);
            lemma_shells_map_index(entries, j);
        }
    }
    assert(new_map =~= expected);
}

proof fn lemma_blocks_map_index(records: Seq<BlockRecord>, i: int)
    requires
        block_keys_unique(records),
        0 <= i < records.len(),
    ensures
        blocks_map(records).contains_key(records[i]@.id@),
        blocks_map(records)[records[i]@.id@] == records[i]@,
{
    let k = records[i]@.id@;
    assert(exists|j: int| 0 <= j < records.len() && records[j]@.id@ == k);
    let j = choose|j: int| 0 <= j < records.len() && records[j]@.id@ == k;
    assert(i == j);
}

proof fn lemma_blocks_map_update(records: Seq<BlockRecord>, i: int, record: BlockRecord)
    requires
        block_keys_unique(records),
        0 <= i < records.len(),
        record@.id@ == records[i]@.id@,
    ensures
        block_keys_unique(records.update(i, record)),
        blocks_map(records.update(i, record)) == blocks_map(records).insert(record@.id@, record@),
{
    let updated = records.update(i, record);
    assert forall|a: int, b: int|
        #![trigger updated[a], updated[b]]
        0 <= a < updated.len() && 0 <= b < updated.len() && a != b implies updated[a]@.id@
        != updated[b]@.id@ by {
        assert(records[a]@.id@ != records[b]@.id@);
    }
    let new_map = blocks_map(updated);
    let expected = blocks_map(records).insert(record@.id@, record@);
    assert forall|k: Seq<char>| #[trigger] new_map.contains_key(k) <==> expected.contains_key(k) by {
        if new_map.contains_key(k) {
            let j = choose|j: int| 0 <= j < updated.len() && updated[j]@.id@ == k;
            if j != i {
                assert(records[j]@.id@ == k);
            }
        }
        if expected.contains_key(k) && k != record@.id@ {
            let j = choose|j: int| 0 <= j < records.len() && records[j]@.id@ == k;
            assert(updated[j]@.id@ == k);
        }
        if k == record@.id@ {
            assert(updated[i]@.id@ == k);
        }
    }
    assert forall|k: Seq<char>| #[trigger] new_map.contains_key(k) implies new_map[k] == expected[k] by {
        let j = choose|j: int| 0 <= j < updated.len() && updated[j]@.id@ == k;
        lemma_blocks_map_index(updated, j);
        if j != i {
            lemma_blocks_map_index(records, j);
        }
    }
    assert(new_map =~= expected);
}

proof fn lemma_blocks_map_push(records: Seq<BlockRecord>, record: BlockRecord)
    requires
        block_keys_unique(records),
        !blocks_map(records).contains_key(record@.id@),
    ensures
        block_keys_unique(records.push(record)),
        blocks_map(records.push(record)) == blocks_map(records).insert(record@.id@, record@),
{
    let pushed = records.push(record);
    let n = records.len() as int;
    assert forall|a: int, b: int|
        #![trigger pushed[a], pushed[b]]
        0 <= a < pushed.len() && 0 <= b < pushed.len() && a != b implies pushed[a]@.id@
        != pushed[b]@.id@ by {
        if a < n && b < n {
            assert(records[a]@.id@ != records[b]@.id@);
        } else if a < n {
            assert(pushed[a] == records[a]);
        } else {
            assert(pushed[b] == records[b]);
        }
    }
    let new_map = blocks_map(pushed);
    let expected = blocks_map(records).insert(record@.id@, record@);
    assert forall|k: Seq<char>| #[trigger] new_map.contains_key(k) <==> expected.contains_key(k) by {
        if new_map.contains_key(k) {
            let j = choose|j: int| 0 <= j < pushed.len() && pushed[j]@.id@ == k;
            if j < n {
                assert(records[j]@.id@ == k);
            }
        }
        if expected.contains_key(k) && k != record@.id@ {
            let j = choose|j: int| 0 <= j < records.len() && records[j]@.id@ == k;
            assert(pushed[j]@.id@ == k);
        }
        if k == record@.id@ {
            assert(pushed[n]@.id@ == k);
        }
    }
    assert forall|k: Seq<char>| #[trigger] new_map.contains_key(k) implies new_map[k] == expected[k] by {
        let j = choose|j: int| 0 <= j < pushed.len() && pushed[j]@.id@ == k;
        lemma_blocks_map_index(pushed, j);
        if j < n {
            assert(pushed[j] == records[j]);
            lemma_blocks_map_index(records, j);
        }
    }
    assert(new_map =~= expected);
}


/// Deterministic state machine for ordered shell lifecycle events.
pub struct LifecycleReducer {
    session_id: TerminalSessionId,
    shells: Vec<ShellEntry>,
    blocks: Vec<BlockRecord>,
    diagnostics: Vec<LifecycleDiagnostic>,
    status: IntegrationStatus,
}

impl View for LifecycleReducer {
    type V = ReducerModel;

    closed spec fn view(&self) -> ReducerModel {
        ReducerModel {
            session_id: self.session_id@,
            shells: shells_map(self.shells@),
            blocks: blocks_map(self.blocks@),
            diagnostics: self.diagnostics@,
            status: self.status,
        }
    }
}

impl LifecycleReducer {
    /// The reducer's storage is consistent with its model.
    pub closed spec fn wf(&self) -> bool {
        &&& self.keys_ok()
        &&& model_wf(self@)
    }

    closed spec fn keys_ok(&self) -> bool {
        &&& shell_keys_unique(self.shells@)
        &&& block_keys_unique(self.blocks@)
    }

    fn find_shell(&self, shell: &ShellInstanceId) -> (found: Option<usize>)
        requires
            self.keys_ok(),
        ensures
            found matches Some(i) ==> i < self.shells@.len() && self.shells@[i as int].id@ == shell@
                && self@.shells.contains_key(shell@) && self@.shells[shell@]
                == self.shells@[i as int].context,
            found is None ==> !self@.shells.contains_key(shell@),
    {
        let mut i: usize = 0;
        while i < self.shells.len()
            invariant
                self.keys_ok(),
                i <= self.shells@.len(),
                forall|j: int| 0 <= j < i ==> self.shells@[j].id@ != shell@,
            decreases self.shells@.len() - i,
        {
            if self.shells[i].id.same_as(shell) {
                proof {
                    lemma_shells_map_index(self.shells@, i as int);
                }
                return Some(i);
            }
            i = i + 1;
        }
        proof {
            lemma_shells_map_absent(self.shells@, shell@);
        }
        None
    }

    fn find_block(&self, id: &BlockId) -> (found: Option<usize>)
        requires
            self.keys_ok(),
        ensures
            found matches Some(i) ==> i < self.blocks@.len() && self.blocks@[i as int]@.id@ == id@
                && self@.blocks.contains_key(id@) && self@.blocks[id@] == self.blocks@[i as int]@,
            found is None ==> !self@.blocks.contains_key(id@),
    {
        let mut i: usize = 0;
        while i < self.blocks.len()
            invariant
                self.keys_ok(),
                i <= self.blocks@.len(),
                forall|j: int| 0 <= j < i ==> self.blocks@[j]@.id@ != id@,
            decreases self.blocks@.len() - i,
        {
            if self.blocks[i].id().same_as(id) {
                proof {
                    lemma_blocks_map_index(self.blocks@, i as int);
                }
                return Some(i);
            }
            i = i + 1;
        }
        assert(!blocks_map(self.blocks@).contains_key(id@));
        None
    }

    fn shell_context(&self, shell: &ShellInstanceId) -> (context: ShellLifecycle)
        requires
            self.keys_ok(),
        ensures
            context == self@.shell(shell@),
    {
        match self.find_shell(shell) {
            Some(i) => self.shells[i].context.clone(),
            None => ShellLifecycle::new(),
        }
    }

    fn store_shell(&mut self, shell: &ShellInstanceId, context: ShellLifecycle)
        requires
            old(self).keys_ok(),
        ensures
            final(self).keys_ok(),
            final(self)@ == old(self)@.with_shell(shell@, context),
    {
        let entry = ShellEntry { id: shell.clone(), context };
        match self.find_shell(shell) {
            Some(i) => {
                proof {
                    lemma_shells_map_update(self.shells@, i as int, entry);
                }
                self.shells.set(i, entry);
            },
            None => {
                proof {
                    lemma_shells_map_push(self.shells@, entry);
                }
                self.shells.push(entry);
            },
        }
    }

    fn store_block(&mut self, record: BlockRecord)
        requires
            old(self).keys_ok(),
        ensures
            final(self).keys_ok(),
            final(self)@ == old(self)@.with_block(record@.id@, record@),
    {
        match self.find_block(record.id()) {
            Some(i) => {
                proof {
                    lemma_blocks_map_update(self.blocks@, i as int, record);
                }
                self.blocks.set(i, record);
            },
            None => {
                proof {
                    lemma_blocks_map_push(self.blocks@, record);
                }
                self.blocks.push(record);
            },
        }
    }

    fn log(&mut self, diagnostic: LifecycleDiagnostic)
        requires
            old(self).keys_ok(),
        ensures
            final(self).keys_ok(),
            final(self)@ == old(self)@.log(diagnostic),
    {
        self.diagnostics.push(diagnostic);
    }

    fn is_active(&self, shell: &ShellInstanceId, block_id: &BlockId) -> (active: bool)
        requires
            self.keys_ok(),
        ensures
            active == self@.is_active(shell@, block_id@),
    {
        match self.find_shell(shell) {
            Some(i) => match &self.shells[i].context.active_block_id {
                Some(current) => current.same_as(block_id),
                None => false,
            },
            None => false,
        }
    }

    fn activate(&mut self, shell: &ShellInstanceId, block_id: BlockId, cwd: Option<String>)
        requires
            old(self).keys_ok(),
        ensures
            final(self).keys_ok(),
            final(self)@ == old(self)@.activate(shell@, block_id, cwd),
    {
        let mut context = self.shell_context(shell);
        context.active_block_id = Some(block_id);
        if cwd.is_some() {
            context.cwd = cwd;
        }
        self.store_shell(shell, context);
    }

    /// Return a retained block by stable identity.
    pub fn block(&self, block_id: &BlockId) -> (record: Option<&BlockRecord>)
        requires
            self.wf(),
        ensures
            record matches Some(r) ==> self@.blocks.contains_key(block_id@) && r@
                == self@.blocks[block_id@],
            record is None ==> !self@.blocks.contains_key(block_id@),
    {
        match self.find_block(block_id) {
            Some(i) => Some(&self.blocks[i]),
            None => None,
        }
    }

    /// Return non-fatal lifecycle diagnostics without command or output data.
    pub fn diagnostics(&self) -> (diagnostics: &[LifecycleDiagnostic])
        ensures
            diagnostics@ == self@.diagnostics,
    {
        self.diagnostics.as_slice()
    }

    /// Return current integration status.
    pub fn status(&self) -> (status: &IntegrationStatus)
        ensures
            *status == self@.status,
    {
        &self.status
    }

    /// Create a reducer accepting only one registered terminal session.
    pub fn new(session_id: TerminalSessionId) -> (reducer: Self)
        ensures
            reducer.wf(),
            reducer@ == (ReducerModel {
                session_id: session_id@,
                shells: Map::empty(),
                blocks: Map::empty(),
                diagnostics: Seq::empty(),
                status: IntegrationStatus::Pending,
            }),
    {
        let reducer = LifecycleReducer {
            session_id,
            shells: Vec::new(),
            blocks: Vec::new(),
            diagnostics: Vec::new(),
            status: IntegrationStatus::Pending,
        };
        proof {
            assert(reducer@.shells =~= Map::empty());
            assert(reducer@.blocks =~= Map::empty());
        }
        reducer
    }

    /// Record an unsupported protocol version, only for this reducer's session.
    pub fn mark_unsupported_version(
        &mut self,
        received_session_id: TerminalSessionId,
        version: u16,
    ) -> (accepted: bool)
        requires
            old(self).wf(),
        ensures
            final(self).wf(),
            accepted == (received_session_id@ == old(self)@.session_id),
            accepted ==> final(self)@ == old(self)@.with_status(
                IntegrationStatus::UnsupportedVersion(version),
            ),
            !accepted ==> final(self)@ == old(self)@.log(
                LifecycleDiagnostic::ForeignSession { received: received_session_id },
            ),
    {
        if !received_session_id.same_as(&self.session_id) {
            self.log(LifecycleDiagnostic::ForeignSession { received: received_session_id });
            return false;
        }
        self.status = IntegrationStatus::UnsupportedVersion(version);
        true
    }

    fn accept_sequence(&mut self, shell: &ShellInstanceId, received: ProtocolSequence) -> (accepted:
        bool)
        requires
            old(self).keys_ok(),
        ensures
            final(self).keys_ok(),
            (final(self)@, accepted) == accept_sequence(old(self)@, *shell, received),
    {
        let previous = match self.find_shell(shell) {
            Some(i) => self.shells[i].context.last_sequence,
            None => None,
        };
        if let Some(previous) = previous {
            if received.value() == previous.value() {
                self.log(
                    LifecycleDiagnostic::DuplicateSequence {
                        shell_instance_id: shell.clone(),
                        received,
                    },
                );
                return false;
            }
            if received.value() < previous.value() {
                self.log(
                    LifecycleDiagnostic::StaleSequence { shell_instance_id: shell.clone(), received },
                );
                return false;
            }
        }
        let expected = match previous {
            Some(previous) => match previous.next() {
                Some(next) => next,
                None => ProtocolSequence::new(1),
            },
            None => ProtocolSequence::new(1),
        };
        if received.value() > expected.value() {
            self.status = IntegrationStatus::Degraded(
                DegradedReason::SequenceGap { expected, received },
            );
            self.log(
                LifecycleDiagnostic::SequenceGap {
                    shell_instance_id: shell.clone(),
                    expected,
                    received,
                },
            );
        }
        let mut context = self.shell_context(shell);
        context.last_sequence = Some(received);
        self.store_shell(shell, context);
        true
    }

    fn apply_shell_hello(
        &mut self,
        shell: ShellInstanceId,
        parent: Option<ShellInstanceId>,
        name: String,
        version: Option<String>,
    ) -> (update: LifecycleUpdate)
        requires
            old(self).keys_ok(),
        ensures
            final(self).keys_ok(),
            (final(self)@, update@) == shell_hello(old(self)@, shell, parent, name, version),
    {
        let mut context = self.shell_context(&shell);
        context.parent_shell_instance_id = parent;
        context.shell = Some(name);
        context.shell_version = version;
        context.did_hello = true;
        context.did_exit = false;
        self.store_shell(&shell, context);
        match &self.status {
            IntegrationStatus::Degraded(_) => {},
            _ => {
                self.status = IntegrationStatus::Active(2);
            },
        }
        LifecycleUpdate::unchanged()
    }

    fn reject_foreign_shell_block(&mut self, shell: &ShellInstanceId, block_id: &BlockId) -> (rejected:
        bool)
        requires
            old(self).keys_ok(),
        ensures
            final(self).keys_ok(),
            rejected == old(self)@.owned_elsewhere(*shell, *block_id),
            rejected ==> final(self)@ == old(self)@.reject_foreign(*shell, *block_id),
            !rejected ==> final(self)@ == old(self)@,
    {
        match self.find_block(block_id) {
            Some(i) => {
                let owner = self.blocks[i].shell_instance_id();
                if owner.same_as(shell) {
                    false
                } else {
                    let expected_shell_instance_id = owner.clone();
                    self.log(
                        LifecycleDiagnostic::ForeignShellBlock {
                            block_id: block_id.clone(),
                            expected_shell_instance_id,
                            received_shell_instance_id: shell.clone(),
                        },
                    );
                    true
                }
            },
            None => false,
        }
    }

    fn finish_active_for_recovery(
        &mut self,
        shell: &ShellInstanceId,
        next: &BlockId,
        finished_at: Option<i64>,
    ) -> (finished: Option<BlockId>)
        requires
            old(self).keys_ok(),
        ensures
            final(self).keys_ok(),
            (final(self)@, finished) == finish_active_for_recovery(
                old(self)@,
                *shell,
                *next,
                finished_at,
            ),
    {
        let active = match self.find_shell(shell) {
            Some(i) => clone_opt_block(&self.shells[i].context.active_block_id),
            None => None,
        };
        let active = match active {
            Some(active) => active,
            None => return None,
        };
        if active.same_as(next) {
            return None;
        }
        match self.find_block(&active) {
            None => None,
            Some(i) => {
                if !matches!(self.blocks[i].state(), BlockState::Executing) {
                    return None;
                }
                let mut record = self.blocks[i].clone();
                record.finish(BlockOutcome::Unknown, None, finished_at);
                self.store_block(record);
                self.log(LifecycleDiagnostic::SynthesizedCompletion { block_id: active.clone() });
                Some(active)
            },
        }
    }

    fn apply_prompt_prepare(
        &mut self,
        shell: ShellInstanceId,
        block_id: BlockId,
        cwd: Option<String>,
        prepared_at: Option<i64>,
    ) -> (update: LifecycleUpdate)
        requires
            old(self).keys_ok(),
        ensures
            final(self).keys_ok(),
            (final(self)@, update@) == prompt_prepare(old(self)@, shell, block_id, cwd, prepared_at),
    {
        if self.reject_foreign_shell_block(&shell, &block_id) {
            return LifecycleUpdate::ignored();
        }
        match self.find_block(&block_id) {
            Some(i) => {
                let prepared = matches!(self.blocks[i].state(), BlockState::BeforeExecution);
                if prepared && self.is_active(&shell, &block_id) {
                    let mut record = self.blocks[i].clone();
                    record.patch_prompt(clone_opt_string(&cwd));
                    self.store_block(record);
                    self.activate(&shell, block_id.clone(), cwd);
                    LifecycleUpdate::changed(block_id)
                } else {
                    let state = self.blocks[i].state().clone();
                    self.log(LifecycleDiagnostic::InvalidTransition { block_id, state });
                    LifecycleUpdate::ignored()
                }
            },
            None => {
                let recovered = self.finish_active_for_recovery(&shell, &block_id, prepared_at);
                let record = BlockRecord::prepared(
                    block_id.clone(),
                    shell.clone(),
                    clone_opt_string(&cwd),
                );
                self.store_block(record);
                self.activate(&shell, block_id.clone(), cwd);
                let mut changed_blocks = Vec::new();
                if let Some(recovered) = recovered {
                    changed_blocks.push(recovered);
                }
                changed_blocks.push(block_id);
                proof {
                    assert(changed_blocks@ =~= opt_seq(recovered).push(block_id));
                }
                LifecycleUpdate { changed_blocks, ignored: false }
            },
        }
    }

    fn apply_command_start(
        &mut self,
        shell: ShellInstanceId,
        block_id: BlockId,
        command: Option<String>,
        cwd: Option<String>,
        started_at: Option<i64>,
    ) -> (update: LifecycleUpdate)
        requires
            old(self).keys_ok(),
        ensures
            final(self).keys_ok(),
            (final(self)@, update@) == command_start(
                old(self)@,
                shell,
                block_id,
                command,
                cwd,
                started_at,
            ),
    {
        if self.reject_foreign_shell_block(&shell, &block_id) {
            return LifecycleUpdate::ignored();
        }
        match self.find_block(&block_id) {
            Some(i) => {
                match self.blocks[i].state() {
                    BlockState::BeforeExecution => {
                        if self.is_active(&shell, &block_id) {
                            let mut record = self.blocks[i].clone();
                            record.start(command, clone_opt_string(&cwd), started_at);
                            self.store_block(record);
                            self.activate(&shell, block_id.clone(), cwd);
                            LifecycleUpdate::changed(block_id)
                        } else {
                            self.log(
                                LifecycleDiagnostic::InvalidTransition {
                                    block_id,
                                    state: BlockState::BeforeExecution,
                                },
                            );
                            LifecycleUpdate::ignored()
                        }
                    },
                    BlockState::Executing => LifecycleUpdate::ignored(),
                    _ => {
                        let state = self.blocks[i].state().clone();
                        self.log(LifecycleDiagnostic::InvalidTransition { block_id, state });
                        LifecycleUpdate::ignored()
                    },
                }
            },
            None => {
                let recovered = self.finish_active_for_recovery(&shell, &block_id, started_at);
                self.log(LifecycleDiagnostic::RecoveredCommandStart { block_id: block_id.clone() });
                let record = BlockRecord::executing(
                    block_id.clone(),
                    shell.clone(),
                    command,
                    clone_opt_string(&cwd),
                    started_at,
                );
                self.store_block(record);
                self.activate(&shell, block_id.clone(), cwd);
                let mut changed_blocks = Vec::new();
                if let Some(recovered) = recovered {
                    changed_blocks.push(recovered);
                }
                changed_blocks.push(block_id);
                proof {
                    assert(changed_blocks@ =~= opt_seq(recovered).push(block_id));
                }
                LifecycleUpdate { changed_blocks, ignored: false }
            },
        }
    }

    fn apply_command_end(
        &mut self,
        shell: ShellInstanceId,
        block_id: BlockId,
        outcome: BlockOutcome,
        cwd: Option<String>,
        finished_at: Option<i64>,
    ) -> (update: LifecycleUpdate)
        requires
            old(self).keys_ok(),
        ensures
            final(self).keys_ok(),
            (final(self)@, update@) == command_end(
                old(self)@,
                shell,
                block_id,
                outcome,
                cwd,
                finished_at,
            ),
    {
        if self.reject_foreign_shell_block(&shell, &block_id) {
            return LifecycleUpdate::ignored();
        }
        let i = match self.find_block(&block_id) {
            Some(i) => i,
            None => {
                self.log(LifecycleDiagnostic::OrphanCommandEnd { block_id });
                return LifecycleUpdate::ignored();
            },
        };
        let empty_success = self.is_active(&shell, &block_id) && outcome == BlockOutcome::Exited(0);
        let applies = match self.blocks[i].state() {
            BlockState::Executing | BlockState::BackgroundRunning => true,
            BlockState::BeforeExecution => empty_success,
            _ => false,
        };
        if applies {
            let mut record = self.blocks[i].clone();
            record.finish(outcome, clone_opt_string(&cwd), finished_at);
            self.store_block(record);
            match self.find_shell(&shell) {
                Some(k) => {
                    let mut context = self.shells[k].context.clone();
                    if self.is_active(&shell, &block_id) {
                        context.active_block_id = None;
                    }
                    if cwd.is_some() {
                        context.cwd = cwd;
                    }
                    self.store_shell(&shell, context);
                },
                None => {},
            }
            LifecycleUpdate::changed(block_id)
        } else {
            match self.blocks[i].state() {
                BlockState::Finished(_) | BlockState::BackgroundFinished => LifecycleUpdate::ignored(),
                _ => {
                    let state = self.blocks[i].state().clone();
                    self.log(LifecycleDiagnostic::InvalidTransition { block_id, state });
                    LifecycleUpdate::ignored()
                },
            }
        }
    }

    fn apply_context_update(&mut self, shell: &ShellInstanceId, cwd: Option<String>) -> (update:
        LifecycleUpdate)
        requires
            old(self).keys_ok(),
        ensures
            final(self).keys_ok(),
            (final(self)@, update@) == context_update(old(self)@, *shell, cwd),
    {
        match self.find_shell(shell) {
            None => LifecycleUpdate::ignored(),
            Some(k) => {
                let mut context = self.shells[k].context.clone();
                if cwd.is_some() {
                    context.cwd = cwd;
                }
                self.store_shell(shell, context);
                LifecycleUpdate::unchanged()
            },
        }
    }

    fn apply_shell_exit(&mut self, shell: &ShellInstanceId, finished_at: Option<i64>) -> (update:
        LifecycleUpdate)
        requires
            old(self).keys_ok(),
        ensures
            final(self).keys_ok(),
            (final(self)@, update@) == shell_exit(old(self)@, *shell, finished_at),
    {
        let k = match self.find_shell(shell) {
            None => return LifecycleUpdate::ignored(),
            Some(k) => k,
        };
        let mut context = self.shells[k].context.clone();
        context.did_exit = true;
        let active = context.active_block_id.take();
        self.store_shell(shell, context);
        let active = match active {
            None => return LifecycleUpdate::unchanged(),
            Some(active) => active,
        };
        match self.find_block(&active) {
            None => LifecycleUpdate::unchanged(),
            Some(i) => {
                if matches!(self.blocks[i].state(), BlockState::Finished(_)) {
                    LifecycleUpdate::unchanged()
                } else {
                    let mut record = self.blocks[i].clone();
                    record.finish(BlockOutcome::ShellExited, None, finished_at);
                    self.store_block(record);
                    LifecycleUpdate::changed(active)
                }
            },
        }
    }

    /// Validate ordering and apply one semantic lifecycle event.
    pub fn apply(&mut self, input: LifecycleInput) -> (update: LifecycleUpdate)
        requires
            old(self).wf(),
        ensures
            final(self).wf(),
            (final(self)@, update@) == step(old(self)@, input@),
    {
        let ghost input_view = input@;
        let LifecycleInput { session_id, shell_instance_id, sequence, event } = input;
        if !session_id.same_as(&self.session_id) {
            self.log(LifecycleDiagnostic::ForeignSession { received: session_id });
            proof {
                lemma_step_preserves_wf(old(self)@, input_view);
            }
            return LifecycleUpdate::ignored();
        }
        if !self.accept_sequence(&shell_instance_id, sequence) {
            proof {
                lemma_step_preserves_wf(old(self)@, input_view);
            }
            return LifecycleUpdate::ignored();
        }
        let is_hello = matches!(event, LifecycleEvent::ShellHello { .. });
        if !is_hello && !self.shell_context(&shell_instance_id).did_hello {
            self.status = IntegrationStatus::Degraded(DegradedReason::MissingShellHello);
            self.log(
                LifecycleDiagnostic::MissingShellHello {
                    shell_instance_id: shell_instance_id.clone(),
                },
            );
        }
        let update = match event {
            LifecycleEvent::ShellHello { parent_shell_instance_id, shell, shell_version } =>
                self.apply_shell_hello(
                shell_instance_id,
                parent_shell_instance_id,
                shell,
                shell_version,
            ),
            LifecycleEvent::PromptPrepare { block_id, cwd, prepared_at } =>
                self.apply_prompt_prepare(shell_instance_id, block_id, cwd, prepared_at),
            LifecycleEvent::CommandStart { block_id, command, cwd, started_at } =>
                self.apply_command_start(shell_instance_id, block_id, command, cwd, started_at),
            LifecycleEvent::CommandEnd { block_id, outcome, cwd, finished_at } =>
                self.apply_command_end(shell_instance_id, block_id, outcome, cwd, finished_at),
            LifecycleEvent::ContextUpdate { cwd } => self.apply_context_update(&shell_instance_id, cwd),
            LifecycleEvent::ShellExit { status: _, finished_at } =>
                self.apply_shell_exit(&shell_instance_id, finished_at),
            LifecycleEvent::IntegrationError { code } => {
                self.status = IntegrationStatus::Degraded(DegradedReason::IntegrationError(code));
                LifecycleUpdate::unchanged()
            },
        };
        proof {
            lemma_step_preserves_wf(old(self)@, input_view);
        }
        update
    }
}

/// Every transition keeps the reducer state well formed.
pub proof fn lemma_step_preserves_wf(m: ReducerModel, input: InputView)
    requires
        model_wf(m),
    ensures
        model_wf(step(m, input).0),
{
}

/// An event of another terminal session changes nothing but the diagnostic
/// log, which records the rejected session, and is reported as ignored.
pub proof fn lemma_foreign_session_only_logged(m: ReducerModel, input: InputView)
    requires
        input.session_id@ != m.session_id,
    ensures
        step(m, input) == (
            m.log(LifecycleDiagnostic::ForeignSession { received: input.session_id }),
            UpdateView::ignored(),
        ),
{
}

/// A sequence that repeats or precedes the latest accepted sequence of its
/// shell changes nothing but the diagnostic log (one entry) and is reported
/// as ignored.
pub proof fn lemma_replayed_sequence_only_logged(m: ReducerModel, input: InputView)
    requires
        m.shells.contains_key(input.shell_instance_id@),
        m.shells[input.shell_instance_id@].last_sequence is Some,
        input.sequence.spec_value() <= m.shells[input.shell_instance_id@].last_sequence.unwrap().spec_value(),
    ensures
        step(m, input).1 == UpdateView::ignored(),
        step(m, input).0 == (ReducerModel { diagnostics: step(m, input).0.diagnostics, ..m }),
        step(m, input).0.diagnostics.len() == m.diagnostics.len() + 1,
        step(m, input).0.diagnostics.subrange(0, m.diagnostics.len() as int) == m.diagnostics,
{
    assert(step(m, input).0.diagnostics.subrange(0, m.diagnostics.len() as int) =~= m.diagnostics);
}

/// The diagnostic log is append-only: every transition keeps the earlier
/// diagnostics as a prefix.
pub proof fn lemma_diagnostics_append_only(m: ReducerModel, input: InputView)
    ensures
        step(m, input).0.diagnostics.len() >= m.diagnostics.len(),
        step(m, input).0.diagnostics.subrange(0, m.diagnostics.len() as int) == m.diagnostics,
{
    assert(step(m, input).0.diagnostics.subrange(0, m.diagnostics.len() as int) =~= m.diagnostics);
}

/// Blocks are never dropped, and a block keeps its identity and owning shell.
pub proof fn lemma_blocks_retained(m: ReducerModel, input: InputView)
    requires
        model_wf(m),
    ensures
        forall|k: Seq<char>|
            #[trigger] m.blocks.contains_key(k) ==> {
                &&& step(m, input).0.blocks.contains_key(k)
                &&& step(m, input).0.blocks[k].id == m.blocks[k].id
                &&& step(m, input).0.blocks[k].shell_instance_id == m.blocks[k].shell_instance_id
            },
{
}

/// A finished block is final: no event changes its state or metadata.
pub proof fn lemma_finished_blocks_final(m: ReducerModel, input: InputView)
    requires
        model_wf(m),
    ensures
        forall|k: Seq<char>|
            #[trigger] m.blocks.contains_key(k) && m.blocks[k].state is Finished ==> step(
                m,
                input,
            ).0.blocks[k] == m.blocks[k],
{
}

/// Events of one shell never change a block owned by another shell.
pub proof fn lemma_foreign_blocks_untouched(m: ReducerModel, input: InputView)
    requires
        model_wf(m),
    ensures
        forall|k: Seq<char>|
            #[trigger] m.blocks.contains_key(k) && m.blocks[k].shell_instance_id@
                != input.shell_instance_id@ ==> step(m, input).0.blocks[k] == m.blocks[k],
{
}

/// The latest accepted sequence of every shell never decreases, and the
/// accepted session never changes.
pub proof fn lemma_sequences_monotone(m: ReducerModel, input: InputView)
    ensures
        step(m, input).0.session_id == m.session_id,
        forall|k: Seq<char>|
            #[trigger] m.shells.contains_key(k) && m.shells[k].last_sequence is Some ==> {
                &&& step(m, input).0.shells.contains_key(k)
                &&& step(m, input).0.shells[k].last_sequence is Some
                &&& step(m, input).0.shells[k].last_sequence.unwrap().spec_value()
                    >= m.shells[k].last_sequence.unwrap().spec_value()
            },
{
}

/// An event of the registered session whose sequence is newer than its
/// shell's latest (or the shell's first event) becomes that shell's latest.
pub proof fn lemma_new_sequence_recorded(m: ReducerModel, input: InputView)
    requires
        input.session_id@ == m.session_id,
        m.shell(input.shell_instance_id@).last_sequence matches Some(previous)
            ==> previous.spec_value() < input.sequence.spec_value(),
    ensures
        step(m, input).0.shells.contains_key(input.shell_instance_id@),
        step(m, input).0.shells[input.shell_instance_id@].last_sequence == Some(input.sequence),
{

}

/// A well-formed reducer has a well-formed model.
pub proof fn lemma_reducer_model_wf(reducer: &LifecycleReducer)
    requires
        reducer.wf(),
    ensures
        model_wf(reducer@),
{
}

/// Whether `update` names the block `k` among the changed ones.
pub open spec fn names_changed(update: UpdateView, k: Seq<char>) -> bool {
    exists|i: int| 0 <= i < update.changed_blocks.len() && (#[trigger] update.changed_blocks[i])@ == k
}

/// No block is named twice in `update`.
pub open spec fn names_distinct(update: UpdateView) -> bool {
    forall|i: int, j: int|
        0 <= i < j < update.changed_blocks.len() ==> (#[trigger] update.changed_blocks[i])@
            != (#[trigger] update.changed_blocks[j])@
}

/// Every block that `update` does not name keeps its presence and record
/// from `before` to `after`.
pub open spec fn unnamed_untouched(before: ReducerModel, after: ReducerModel, update: UpdateView) -> bool {
    forall|k: Seq<char>|
        !names_changed(update, k) ==> {
            &&& #[trigger] after.blocks.contains_key(k) == before.blocks.contains_key(k)
            &&& before.blocks.contains_key(k) ==> after.blocks[k] == before.blocks[k]
        }
}

proof fn lemma_recovery_untouched(
    m: ReducerModel,
    shell: ShellInstanceId,
    next: BlockId,
    finished_at: Option<i64>,
    record: RecordView,
    rest: ReducerModel,
)
    requires
        rest.blocks == finish_active_for_recovery(m, shell, next, finished_at).0.blocks.insert(
            next@,
            record,
        ),
    ensures
        unnamed_untouched(
            m,
            rest,
            UpdateView::changed(opt_seq(finish_active_for_recovery(m, shell, next, finished_at).1).push(next)),
        ),
        names_distinct(
            UpdateView::changed(opt_seq(finish_active_for_recovery(m, shell, next, finished_at).1).push(next)),
        ),
{
    let (recovered, finished) = finish_active_for_recovery(m, shell, next, finished_at);
    let update = UpdateView::changed(opt_seq(finished).push(next));
    match finished {
        Some(active) => {
            assert(update.changed_blocks[0] == active);
            assert(update.changed_blocks[1] == next);
            assert(names_changed(update, active@));
        },
        None => {
            assert(update.changed_blocks[0] == next);
        },
    }
    assert(names_changed(update, next@));
}

proof fn lemma_event_untouched(m: ReducerModel, shell: ShellInstanceId, event: LifecycleEvent)
    ensures
        apply_event(m, shell, event).1.ignored ==> apply_event(m, shell, event).1.changed_blocks.len() == 0,
        names_distinct(apply_event(m, shell, event).1),
        unnamed_untouched(m, apply_event(m, shell, event).0, apply_event(m, shell, event).1),
{
    match event {
        LifecycleEvent::PromptPrepare { block_id, cwd, prepared_at } => {
            let single = UpdateView::changed(seq![block_id]);
            assert(single.changed_blocks[0] == block_id);
            assert(names_changed(single, block_id@));
            if !m.owned_elsewhere(shell, block_id) && !m.blocks.contains_key(block_id@) {
                let (recovered, finished) = finish_active_for_recovery(m, shell, block_id, prepared_at);
                lemma_recovery_untouched(
                    m,
                    shell,
                    block_id,
                    prepared_at,
                    RecordView::prepared(block_id, shell, cwd),
                    apply_event(m, shell, event).0,
                );
            }
        },
        LifecycleEvent::CommandStart { block_id, command, cwd, started_at } => {
            let single = UpdateView::changed(seq![block_id]);
            assert(single.changed_blocks[0] == block_id);
            assert(names_changed(single, block_id@));
            if !m.owned_elsewhere(shell, block_id) && !m.blocks.contains_key(block_id@) {
                lemma_recovery_untouched(
                    m,
                    shell,
                    block_id,
                    started_at,
                    RecordView::prepared(block_id, shell, None).started(command, cwd, started_at),
                    apply_event(m, shell, event).0,
                );
            }
        },
        LifecycleEvent::CommandEnd { block_id, outcome, cwd, finished_at } => {
            let single = UpdateView::changed(seq![block_id]);
            assert(single.changed_blocks[0] == block_id);
            assert(names_changed(single, block_id@));
        },
        LifecycleEvent::ShellExit { status: _, finished_at } => {
            if m.shells.contains_key(shell@) {
                match m.shells[shell@].active_block_id {
                    Some(active) => {
                        let single = UpdateView::changed(seq![active]);
                        assert(single.changed_blocks[0] == active);
                        assert(names_changed(single, active@));
                    },
                    None => {},
                }
            }
        },
        _ => {},
    }
}

/// A block that the update does not name as changed is untouched: it is
/// present afterwards exactly when it was before, with the same record.
/// An ignored update names no block, and no block is named twice.
pub proof fn lemma_unnamed_blocks_unchanged(m: ReducerModel, input: InputView)
    ensures
        step(m, input).1.ignored ==> step(m, input).1.changed_blocks.len() == 0,
        names_distinct(step(m, input).1),
        unnamed_untouched(m, step(m, input).0, step(m, input).1),
{
    let shell = input.shell_instance_id;
    if input.session_id@ == m.session_id {
        let (sequenced, accepted) = accept_sequence(m, shell, input.sequence);
        if accepted {
            let checked = if !(input.event is ShellHello) && !sequenced.shell(shell@).did_hello {
                sequenced.with_status(
                    IntegrationStatus::Degraded(DegradedReason::MissingShellHello),
                ).log(LifecycleDiagnostic::MissingShellHello { shell_instance_id: shell })
            } else {
                sequenced
            };
            assert(checked.blocks == m.blocks);
            lemma_event_untouched(checked, shell, input.event);
        }
    }
}

} // verus!
