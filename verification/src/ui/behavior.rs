//! Host-integration policies of the terminal widget.

use vstd::prelude::*;

use crate::mode::{modes_contain, SurfaceMode};

verus! {

/// Policy used when activating a terminal hyperlink.
#[derive(Clone, Copy, Debug, PartialEq, Eq, Structural)]
pub enum LinkPolicy {
    /// Ask the host to route the link.
    EmitOnly,
    /// Open the URI and also notify the host.
    OpenAndEmit,
    /// Ignore link activation.
    Disabled,
}

/// Policy used when the terminal requests an audible bell.
#[derive(Clone, Copy, Debug, PartialEq, Eq, Structural)]
pub enum BellPolicy {
    /// Notify both the system and the host.
    SystemAndEmit,
    /// Notify only the host.
    EmitOnly,
    /// Ignore bell requests.
    Disabled,
}

/// Policy used for terminal context-menu requests.
#[derive(Clone, Copy, Debug, PartialEq, Eq, Structural)]
pub enum ContextMenuPolicy {
    /// Emit a host-facing request.
    Emit,
    /// Disable context-menu requests.
    Disabled,
}

/// Determines whether block chrome is painted by the widget or its host.
#[derive(Clone, Copy, Debug, PartialEq, Eq, Structural)]
pub enum BlockUiMode {
    /// Paint block highlights and dividers inside the terminal.
    Internal,
    /// Expose geometry for an overlay owned by the host.
    ExternalOverlay,
}

impl Default for LinkPolicy {
    fn default() -> (policy: Self)
        ensures
            policy == LinkPolicy::EmitOnly,
    {
        LinkPolicy::EmitOnly
    }
}

impl Default for BellPolicy {
    fn default() -> (policy: Self)
        ensures
            policy == BellPolicy::EmitOnly,
    {
        BellPolicy::EmitOnly
    }
}

impl Default for ContextMenuPolicy {
    fn default() -> (policy: Self)
        ensures
            policy == ContextMenuPolicy::Emit,
    {
        ContextMenuPolicy::Emit
    }
}

impl Default for BlockUiMode {
    fn default() -> (mode: Self)
        ensures
            mode == BlockUiMode::Internal,
    {
        BlockUiMode::Internal
    }
}

/// Whether block operations (selecting, copying, scrolling to blocks) are
/// available: not while the alternate screen is active.
pub fn block_operations_allowed(mode: SurfaceMode) -> (allowed: bool)
    ensures
        allowed == !modes_contain(mode@, SurfaceMode::ALT_SCREEN),
{
    !mode.contains(SurfaceMode::new(SurfaceMode::ALT_SCREEN))
}

} // verus!
