//! Canonical block state, outcomes and metadata.

use vstd::prelude::*;

use super::id::{BlockId, ShellInstanceId};

verus! {

/// Kind of a terminal block.
#[derive(Clone, Debug, Default, PartialEq, Eq, Structural)]
pub enum BlockKind {
    /// Command input and its output.
    #[default]
    Command,
    /// Prompt content without a started command.
    Prompt,
    /// Full-screen terminal application content.
    FullScreen,
}

/// Terminal execution state governed by the lifecycle reducer.
#[derive(Debug, PartialEq, Eq, Structural)]
pub enum BlockState {
    /// Prompt and command input exist, but execution has not started.
    BeforeExecution,
    /// The command currently owns ordinary PTY output.
    Executing,
    /// The command completed with a stable outcome.
    Finished(BlockOutcome),
    /// A background command is still producing output.
    BackgroundRunning,
    /// A background command has stopped producing output.
    BackgroundFinished,
    /// Content is not connected to a running shell command.
    Static,
}

/// Stable completion result for a terminal block.
#[derive(Debug, PartialEq, Eq, Structural)]
pub enum BlockOutcome {
    /// The process exited with the supplied status code.
    Exited(i32),
    /// The process was terminated by the supplied signal number.
    Signaled(i32),
    /// Execution was cancelled before a process outcome was available.
    Cancelled,
    /// The owning shell exited before sending command completion.
    ShellExited,
    /// Completion was recovered without an exact process outcome.
    Unknown,
}

impl Clone for BlockOutcome {
    fn clone(&self) -> (copy: Self)
        ensures
            copy == *self,
    {
        match self {
            BlockOutcome::Exited(code) => BlockOutcome::Exited(*code),
            BlockOutcome::Signaled(signal) => BlockOutcome::Signaled(*signal),
            BlockOutcome::Cancelled => BlockOutcome::Cancelled,
            BlockOutcome::ShellExited => BlockOutcome::ShellExited,
            BlockOutcome::Unknown => BlockOutcome::Unknown,
        }
    }
}

impl Clone for BlockState {
    fn clone(&self) -> (copy: Self)
        ensures
            copy == *self,
    {
        match self {
            BlockState::BeforeExecution => BlockState::BeforeExecution,
            BlockState::Executing => BlockState::Executing,
            BlockState::Finished(outcome) => BlockState::Finished(outcome.clone()),
            BlockState::BackgroundRunning => BlockState::BackgroundRunning,
            BlockState::BackgroundFinished => BlockState::BackgroundFinished,
            BlockState::Static => BlockState::Static,
        }
    }
}

/// Minimal metadata associated with a terminal block.
#[derive(Clone, Debug, Default, PartialEq, Eq)]
pub struct BlockMeta {
    /// Unique identifier reported by the escape handler for this block.
    pub id: String,
    /// Semantic category (prompt, command, fullscreen) of the block.
    pub kind: BlockKind,
    /// Command line (if known) that generated the block.
    pub cmd: Option<String>,
    /// Working directory captured when the block started.
    pub cwd: Option<String>,
    /// Shell executable responsible for the block.
    pub shell: Option<String>,
    /// Exit status of the command, once finished.
    pub exit_code: Option<i32>,
    /// Timestamp marking when the block started executing.
    pub started_at: Option<i64>,
    /// Timestamp marking when the block finished executing.
    pub finished_at: Option<i64>,
    /// Whether the block ever entered alt-screen mode.
    pub is_alt_screen: bool,
    /// Whether the block has finished producing output.
    pub is_finished: bool,
}

/// Snapshot entry describing a block's extent within the viewport.
#[derive(Clone, Debug, Default, PartialEq, Eq)]
pub struct BlockSnapshot {
    /// Metadata describing the block captured in this snapshot entry.
    pub meta: BlockMeta,
    /// Viewport-relative line where this block begins.
    pub start_line: i32,
    /// Number of visible lines contributed by this block.
    pub line_count: usize,
    /// Cached full textual contents for finished blocks, detached from the
    /// viewport so that copying can include scrollback lines.
    pub cached_text: Option<String>,
    /// Prompt section captured from prompt boundaries.
    pub prompt_text: Option<String>,
    /// Output section captured independently from prompt and command text.
    pub output_text: Option<String>,
    /// Whether this block snapshot corresponds to an alt screen.
    pub is_alt_screen: bool,
}

/// The six sparse metadata fields shared by patches and accumulated metadata.
pub ghost struct MetadataFields {
    pub command: Option<String>,
    pub cwd_before: Option<String>,
    pub cwd_after: Option<String>,
    pub started_at: Option<i64>,
    pub finished_at: Option<i64>,
    pub exit_code: Option<i32>,
}

/// A field of a patch overrides the accumulated value only when present.
pub open spec fn overlay<T>(current: Option<T>, patch: Option<T>) -> Option<T> {
    if patch.is_some() { patch } else { current }
}

impl MetadataFields {
    /// Metadata with every field unknown.
    pub open spec fn empty() -> MetadataFields {
        MetadataFields {
            command: None,
            cwd_before: None,
            cwd_after: None,
            started_at: None,
            finished_at: None,
            exit_code: None,
        }
    }

    /// Merge a sparse patch: present fields replace, absent fields are kept.
    pub open spec fn patched(self, patch: MetadataFields) -> MetadataFields {
        MetadataFields {
            command: overlay(self.command, patch.command),
            cwd_before: overlay(self.cwd_before, patch.cwd_before),
            cwd_after: overlay(self.cwd_after, patch.cwd_after),
            started_at: overlay(self.started_at, patch.started_at),
            finished_at: overlay(self.finished_at, patch.finished_at),
            exit_code: overlay(self.exit_code, patch.exit_code),
        }
    }

    /// Patch recorded when a prompt is prepared.
    pub open spec fn prompt(cwd: Option<String>) -> MetadataFields {
        MetadataFields { cwd_before: cwd, ..MetadataFields::empty() }
    }

    /// Patch recorded when a command starts.
    pub open spec fn command_start(
        command: Option<String>,
        cwd: Option<String>,
        started_at: Option<i64>,
    ) -> MetadataFields {
        MetadataFields { command, cwd_before: cwd, started_at, ..MetadataFields::empty() }
    }

    /// Patch recorded when a command completes; only an exit status yields an exit code.
    pub open spec fn completion(
        outcome: BlockOutcome,
        cwd: Option<String>,
        finished_at: Option<i64>,
    ) -> MetadataFields {
        MetadataFields {
            cwd_after: cwd,
            finished_at,
            exit_code: match outcome {
                BlockOutcome::Exited(code) => Some(code),
                _ => None,
            },
            ..MetadataFields::empty()
        }
    }
}

/// Textual view of an optional owned string.
pub open spec fn opt_text(value: Option<String>) -> Option<Seq<char>> {
    match value {
        Some(text) => Some(text@),
        None => None,
    }
}

/// Textual view of an optional borrowed string.
pub open spec fn opt_str_text(value: Option<&str>) -> Option<Seq<char>> {
    match value {
        Some(text) => Some(text@),
        None => None,
    }
}

/// Copy an optional string, keeping its value.
pub fn clone_opt_string(value: &Option<String>) -> (copy: Option<String>)
    ensures
        copy == *value,
{
    match value {
        Some(text) => Some(text.clone()),
        None => None,
    }
}

fn opt_as_str(value: &Option<String>) -> (text: Option<&str>)
    ensures
        opt_str_text(text) == opt_text(*value),
{
    match value {
        Some(inner) => Some(inner.as_str()),
        None => None,
    }
}

/// Sparse metadata change applied by one lifecycle transition.
#[derive(Clone, Debug, Default, PartialEq, Eq)]
pub struct MetadataPatch {
    command: Option<String>,
    cwd_before: Option<String>,
    cwd_after: Option<String>,
    started_at: Option<i64>,
    finished_at: Option<i64>,
    exit_code: Option<i32>,
}

impl View for MetadataPatch {
    type V = MetadataFields;

    closed spec fn view(&self) -> MetadataFields {
        MetadataFields {
            command: self.command,
            cwd_before: self.cwd_before,
            cwd_after: self.cwd_after,
            started_at: self.started_at,
            finished_at: self.finished_at,
            exit_code: self.exit_code,
        }
    }
}

impl MetadataPatch {
    /// Patch for a prepared prompt.
    pub fn prompt(cwd: Option<String>) -> (patch: Self)
        ensures
            patch@ == MetadataFields::prompt(cwd),
    {
        MetadataPatch {
            command: None,
            cwd_before: cwd,
            cwd_after: None,
            started_at: None,
            finished_at: None,
            exit_code: None,
        }
    }

    /// Patch for a started command.
    pub fn command_start(
        command: Option<String>,
        cwd: Option<String>,
        started_at: Option<i64>,
    ) -> (patch: Self)
        ensures
            patch@ == MetadataFields::command_start(command, cwd, started_at),
    {
        MetadataPatch {
            command,
            cwd_before: cwd,
            cwd_after: None,
            started_at,
            finished_at: None,
            exit_code: None,
        }
    }

    /// Patch for a completed command.
    pub fn completion(
        outcome: &BlockOutcome,
        cwd: Option<String>,
        finished_at: Option<i64>,
    ) -> (patch: Self)
        ensures
            patch@ == MetadataFields::completion(*outcome, cwd, finished_at),
    {
        let exit_code = match outcome {
            BlockOutcome::Exited(exit_code) => Some(*exit_code),
            _ => None,
        };
        MetadataPatch {
            command: None,
            cwd_before: None,
            cwd_after: cwd,
            started_at: None,
            finished_at,
            exit_code,
        }
    }
}

/// Metadata accumulated by sparse lifecycle patches.
#[derive(Debug, Default, PartialEq, Eq)]
pub struct BlockMetadata {
    command: Option<String>,
    cwd_before: Option<String>,
    cwd_after: Option<String>,
    started_at: Option<i64>,
    finished_at: Option<i64>,
    exit_code: Option<i32>,
}

impl View for BlockMetadata {
    type V = MetadataFields;

    closed spec fn view(&self) -> MetadataFields {
        MetadataFields {
            command: self.command,
            cwd_before: self.cwd_before,
            cwd_after: self.cwd_after,
            started_at: self.started_at,
            finished_at: self.finished_at,
            exit_code: self.exit_code,
        }
    }
}

impl Clone for BlockMetadata {
    fn clone(&self) -> (copy: Self)
        ensures
            copy@ == self@,
    {
        BlockMetadata {
            command: clone_opt_string(&self.command),
            cwd_before: clone_opt_string(&self.cwd_before),
            cwd_after: clone_opt_string(&self.cwd_after),
            started_at: self.started_at,
            finished_at: self.finished_at,
            exit_code: self.exit_code,
        }
    }
}

impl BlockMetadata {
    /// Metadata with no known field.
    pub fn empty() -> (metadata: Self)
        ensures
            metadata@ == MetadataFields::empty(),
    {
        BlockMetadata {
            command: None,
            cwd_before: None,
            cwd_after: None,
            started_at: None,
            finished_at: None,
            exit_code: None,
        }
    }

    /// Return the canonical command text when known.
    pub fn command(&self) -> (command: Option<&str>)
        ensures
            opt_str_text(command) == opt_text(self@.command),
    {
        opt_as_str(&self.command)
    }

    /// Return the working directory captured before execution.
    pub fn cwd_before(&self) -> (cwd: Option<&str>)
        ensures
            opt_str_text(cwd) == opt_text(self@.cwd_before),
    {
        opt_as_str(&self.cwd_before)
    }

    /// Return the working directory captured after execution.
    pub fn cwd_after(&self) -> (cwd: Option<&str>)
        ensures
            opt_str_text(cwd) == opt_text(self@.cwd_after),
    {
        opt_as_str(&self.cwd_after)
    }

    /// Return the execution start timestamp.
    pub fn started_at(&self) -> (started_at: Option<i64>)
        ensures
            started_at == self@.started_at,
    {
        self.started_at
    }

    /// Return the execution finish timestamp.
    pub fn finished_at(&self) -> (finished_at: Option<i64>)
        ensures
            finished_at == self@.finished_at,
    {
        self.finished_at
    }

    /// Return the process exit code when completion used an exit status.
    pub fn exit_code(&self) -> (exit_code: Option<i32>)
        ensures
            exit_code == self@.exit_code,
    {
        self.exit_code
    }

    /// Merge a sparse patch into the accumulated metadata.
    pub fn apply_patch(&mut self, patch: MetadataPatch)
        ensures
            final(self)@ == old(self)@.patched(patch@),
    {
        let MetadataPatch { command, cwd_before, cwd_after, started_at, finished_at, exit_code } =
            patch;
        if let Some(command) = command {
            self.command = Some(command);
        }
        if let Some(cwd) = cwd_before {
            self.cwd_before = Some(cwd);
        }
        if let Some(cwd) = cwd_after {
            self.cwd_after = Some(cwd);
        }
        if let Some(started_at) = started_at {
            self.started_at = Some(started_at);
        }
        if let Some(finished_at) = finished_at {
            self.finished_at = Some(finished_at);
        }
        if let Some(exit_code) = exit_code {
            self.exit_code = Some(exit_code);
        }
    }
}

/// Abstract content of a block record.
pub ghost struct RecordView {
    pub id: BlockId,
    pub shell_instance_id: ShellInstanceId,
    pub state: BlockState,
    pub metadata: MetadataFields,
}

impl RecordView {
    /// A block prepared for the next command.
    pub open spec fn prepared(id: BlockId, shell: ShellInstanceId, cwd: Option<String>) -> RecordView {
        RecordView {
            id,
            shell_instance_id: shell,
            state: BlockState::BeforeExecution,
            metadata: MetadataFields::empty().patched(MetadataFields::prompt(cwd)),
        }
    }

    /// The record after its prompt metadata is patched.
    pub open spec fn with_prompt(self, cwd: Option<String>) -> RecordView {
        RecordView { metadata: self.metadata.patched(MetadataFields::prompt(cwd)), ..self }
    }

    /// The record after its command starts executing.
    pub open spec fn started(
        self,
        command: Option<String>,
        cwd: Option<String>,
        started_at: Option<i64>,
    ) -> RecordView {
        RecordView {
            state: BlockState::Executing,
            metadata: self.metadata.patched(MetadataFields::command_start(command, cwd, started_at)),
            ..self
        }
    }

    /// The record after its command finishes with `outcome`.
    pub open spec fn finished(
        self,
        outcome: BlockOutcome,
        cwd: Option<String>,
        finished_at: Option<i64>,
    ) -> RecordView {
        RecordView {
            state: BlockState::Finished(outcome),
            metadata: self.metadata.patched(MetadataFields::completion(outcome, cwd, finished_at)),
            ..self
        }
    }
}

/// Canonical lifecycle record for one terminal block.
#[derive(Debug, PartialEq, Eq)]
pub struct BlockRecord {
    id: BlockId,
    shell_instance_id: ShellInstanceId,
    state: BlockState,
    metadata: BlockMetadata,
}

impl View for BlockRecord {
    type V = RecordView;

    closed spec fn view(&self) -> RecordView {
        RecordView {
            id: self.id,
            shell_instance_id: self.shell_instance_id,
            state: self.state,
            metadata: self.metadata@,
        }
    }
}

impl Clone for BlockRecord {
    fn clone(&self) -> (copy: Self)
        ensures
            copy@ == self@,
    {
        BlockRecord {
            id: self.id.clone(),
            shell_instance_id: self.shell_instance_id.clone(),
            state: self.state.clone(),
            metadata: self.metadata.clone(),
        }
    }
}

impl BlockRecord {
    /// Return the stable block identity.
    pub fn id(&self) -> (id: &BlockId)
        ensures
            *id == self@.id,
    {
        &self.id
    }

    /// Return the shell context that owns this block.
    pub fn shell_instance_id(&self) -> (shell: &ShellInstanceId)
        ensures
            *shell == self@.shell_instance_id,
    {
        &self.shell_instance_id
    }

    /// Return the current lifecycle state.
    pub fn state(&self) -> (state: &BlockState)
        ensures
            *state == self@.state,
    {
        &self.state
    }

    /// Return the merged block metadata.
    pub fn metadata(&self) -> (metadata: &BlockMetadata)
        ensures
            metadata@ == self@.metadata,
    {
        &self.metadata
    }

    /// A block prepared to own the next command of `shell_instance_id`.
    pub fn prepared(id: BlockId, shell_instance_id: ShellInstanceId, cwd: Option<String>) -> (record: Self)
        ensures
            record@ == RecordView::prepared(id, shell_instance_id, cwd),
    {
        let mut metadata = BlockMetadata::empty();
        metadata.apply_patch(MetadataPatch::prompt(cwd));
        BlockRecord { id, shell_instance_id, state: BlockState::BeforeExecution, metadata }
    }

    /// A block created directly in the executing state.
    pub fn executing(
        id: BlockId,
        shell_instance_id: ShellInstanceId,
        command: Option<String>,
        cwd: Option<String>,
        started_at: Option<i64>,
    ) -> (record: Self)
        ensures
            record@ == RecordView::prepared(id, shell_instance_id, None).started(command, cwd, started_at),
    {
        let mut record = Self::prepared(id, shell_instance_id, None);
        record.start(command, cwd, started_at);
        record
    }

    /// Patch prompt metadata without changing the state.
    pub fn patch_prompt(&mut self, cwd: Option<String>)
        ensures
            final(self)@ == old(self)@.with_prompt(cwd),
    {
        self.metadata.apply_patch(MetadataPatch::prompt(cwd));
    }

    /// Enter the executing state, recording start metadata.
    pub fn start(&mut self, command: Option<String>, cwd: Option<String>, started_at: Option<i64>)
        ensures
            final(self)@ == old(self)@.started(command, cwd, started_at),
    {
        self.metadata.apply_patch(MetadataPatch::command_start(command, cwd, started_at));
        self.state = BlockState::Executing;
    }

    /// Enter the finished state with `outcome`, recording completion metadata.
    pub fn finish(&mut self, outcome: BlockOutcome, cwd: Option<String>, finished_at: Option<i64>)
        ensures
            final(self)@ == old(self)@.finished(outcome, cwd, finished_at),
    {
        self.metadata.apply_patch(MetadataPatch::completion(&outcome, cwd, finished_at));
        self.state = BlockState::Finished(outcome);
    }
}

} // verus!
