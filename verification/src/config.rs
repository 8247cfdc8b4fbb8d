//! Controller configuration.

use vstd::prelude::*;
use vstd::string::StringExecFns;

use crate::backends::IoFailure;
use crate::binary64::Binary64;

verus! {

/// Failure to obtain a usable configuration.
#[derive(Debug, Clone)]
pub enum ConfigError {
    /// The file could not be read.
    Io(IoFailure),
    /// The file does not hold a configuration.
    Parse(String),
    /// A setting is out of range.
    InvalidValue(String),
}

/// The text content of a [`ConfigError`].
pub enum ConfigErrorView {
    /// The file could not be read.
    Io(Seq<char>),
    /// The file does not hold a configuration.
    Parse(Seq<char>),
    /// A setting is out of range.
    InvalidValue(Seq<char>),
}

impl View for ConfigError {
    type V = ConfigErrorView;

    open spec fn view(&self) -> ConfigErrorView {
        match *self {
            ConfigError::Io(e) => ConfigErrorView::Io(e.message@),
            ConfigError::Parse(s) => ConfigErrorView::Parse(s@),
            ConfigError::InvalidValue(s) => ConfigErrorView::InvalidValue(s@),
        }
    }
}

impl ConfigError {
    /// Render the failure for people.
    pub fn message(&self) -> (r: String)
        ensures
            r@ == match self@ {
                ConfigErrorView::Io(s) => "io: "@ + s,
                ConfigErrorView::Parse(s) => "parse: "@ + s,
                ConfigErrorView::InvalidValue(s) => "invalid value: "@ + s,
            },
    {
        match self {
            ConfigError::Io(e) => "io: ".to_owned().concat(e.message.as_str()),
            ConfigError::Parse(s) => "parse: ".to_owned().concat(s.as_str()),
            ConfigError::InvalidValue(s) => "invalid value: ".to_owned().concat(s.as_str()),
        }
    }
}

/// The settings that guard and describe scaling.
#[derive(Debug, Clone, Copy, PartialEq, Eq, Structural)]
pub struct Config {
    /// Smallest worker count that automatic scaling may set.
    pub min_thread_count: u32,
    /// Largest worker count that automatic scaling may set.
    pub max_thread_count: u32,
    /// Fraction of host CPU at which scale-up stops; zero disables the guard.
    pub host_cpu_scale_up_ceiling: Binary64,
    /// Nanoseconds between two ordinary scale actions on one VM.
    pub cooldown_ns: u128,
    /// Whether to emit one status line per VM.
    pub enable_per_vm_status_line: bool,
    /// Whether to emit an aggregate status line.
    pub enable_aggregate_status_line: bool,
}

} // verus!
