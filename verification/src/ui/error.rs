//! Errors reported by widget configuration and host operations.

use vstd::prelude::*;

verus! {

/// Errors produced while validating terminal presentation settings.
#[derive(Clone, Debug, PartialEq)]
pub enum ConfigError {
    /// The font size must be finite and positive.
    InvalidFontSize,
    /// The relative line height must be finite and positive.
    InvalidLineHeight,
    /// Padding must be finite and non-negative.
    InvalidPadding,
    /// Border widths must be finite and non-negative.
    InvalidBorderWidth,
    /// Corner radius must be finite and non-negative.
    InvalidCornerRadius,
    /// Scroll multiplier must be finite and positive.
    InvalidScrollMultiplier,
    /// A color was not in `#rrggbb` form; carries the rejected text.
    InvalidColor(String),
    /// Cell dimensions must be finite and positive.
    InvalidCellMetrics,
}

/// Errors returned by terminal operations requested by a host.
#[derive(Clone, Copy, Debug, PartialEq, Eq, Structural)]
pub enum OperationError {
    /// There is no running backend to receive the operation.
    BackendUnavailable,
    /// The bounded request queue is temporarily full.
    Backpressure,
    /// The backend request channel has closed.
    BackendDisconnected,
    /// The requested selection or block has no copyable content.
    ContentUnavailable,
}

/// Human-readable description of a configuration error.
pub open spec fn config_message(error: ConfigError) -> Seq<char> {
    match error {
        ConfigError::InvalidFontSize => "font size must be finite and positive"@,
        ConfigError::InvalidLineHeight => "line height must be finite and positive"@,
        ConfigError::InvalidPadding => "padding must be finite and non-negative"@,
        ConfigError::InvalidBorderWidth => "border width must be finite and non-negative"@,
        ConfigError::InvalidCornerRadius => "corner radius must be finite and non-negative"@,
        ConfigError::InvalidScrollMultiplier => "scroll multiplier must be finite and positive"@,
        ConfigError::InvalidColor(value) => "invalid terminal color: "@ + value@,
        ConfigError::InvalidCellMetrics => "cell dimensions must be finite and positive"@,
    }
}

/// Human-readable description of an operation error.
pub open spec fn operation_message(error: OperationError) -> Seq<char> {
    match error {
        OperationError::BackendUnavailable => "terminal backend is not running"@,
        OperationError::Backpressure => "terminal request queue is full"@,
        OperationError::BackendDisconnected => "terminal backend is disconnected"@,
        OperationError::ContentUnavailable => "terminal content is not available"@,
    }
}

impl ConfigError {
    /// Human-readable description of the error.
    pub fn message(&self) -> (text: String)
        ensures
            text@ == config_message(*self),
    {
        broadcast use vstd::string::to_string_from_display_ensures_for_str;

        match self {
            ConfigError::InvalidFontSize => "font size must be finite and positive".to_string(),
            ConfigError::InvalidLineHeight => "line height must be finite and positive".to_string(),
            ConfigError::InvalidPadding => "padding must be finite and non-negative".to_string(),
            ConfigError::InvalidBorderWidth => "border width must be finite and non-negative".to_string(),
            ConfigError::InvalidCornerRadius => "corner radius must be finite and non-negative".to_string(),
            ConfigError::InvalidScrollMultiplier => "scroll multiplier must be finite and positive".to_string(),
            ConfigError::InvalidColor(value) => {
                let mut text = "invalid terminal color: ".to_string();
                text.append(value.as_str());
                text
            },
            ConfigError::InvalidCellMetrics => "cell dimensions must be finite and positive".to_string(),
        }
    }
}

impl OperationError {
    /// Human-readable description of the error.
    pub fn message(&self) -> (text: String)
        ensures
            text@ == operation_message(*self),
    {
        broadcast use vstd::string::to_string_from_display_ensures_for_str;

        match self {
            OperationError::BackendUnavailable => "terminal backend is not running".to_string(),
            OperationError::Backpressure => "terminal request queue is full".to_string(),
            OperationError::BackendDisconnected => "terminal backend is disconnected".to_string(),
            OperationError::ContentUnavailable => "terminal content is not available".to_string(),
        }
    }
}

} // verus!
