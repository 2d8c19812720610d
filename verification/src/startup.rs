//! Start-up settings of a command-line application.

use vstd::prelude::*;

verus! {

/// When the display may use colour.
#[derive(Clone, Copy, Debug, PartialEq, Eq, Structural)]
pub enum ColorConfig {
    /// Colour in every case.
    Always,
    /// Colour where the stream is a terminal that supports it.
    Auto,
    /// No colour.
    Never,
}

/// The most detailed level that the log shows.
#[derive(Clone, Copy, Debug, PartialEq, Eq, Structural)]
pub enum LogLevel {
    /// Informational messages and above.
    Info,
    /// Debugging messages and above.
    Debug,
}

/// What an application applies once, before it does anything else.
#[derive(Clone, Copy, Debug, PartialEq, Eq, Structural)]
pub struct Settings {
    /// The colour policy of the display.
    pub color: ColorConfig,
    /// The level of the log.
    pub level: LogLevel,
}

/// The log level that a verbosity switch selects.
pub open spec fn level_for(verbose: bool) -> LogLevel {
    if verbose {
        LogLevel::Debug
    } else {
        LogLevel::Info
    }
}

/// Decides the start-up settings of an application: the colour policy as
/// given, and the debug level exactly when `verbose` is set.
pub fn init(color_config: ColorConfig, verbose: bool) -> (settings: Settings)
    ensures
        settings.color == color_config,
        settings.level == level_for(verbose),
{
    let level = if verbose {
        LogLevel::Debug
    } else {
        LogLevel::Info
    };
    Settings { color: color_config, level }
}

} // verus!
