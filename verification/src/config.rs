//! Runtime configuration of a watch session: the polling interval, the
//! command to run, and the general settings that carry over from an older
//! configuration file format.

use vstd::prelude::*;

verus! {

/// The shortest polling interval a session may be configured with.
pub const MIN_INTERVAL_MS: u64 = 100;

/// The live polling parameters: interval in milliseconds and the command as
/// an ordered argument list with the program name first.
#[derive(Debug, Clone)]
pub struct RuntimeConfig {
    pub interval: u64,
    pub command: Vec<String>,
}

impl RuntimeConfig {
    /// Whether the interval respects the configured minimum.
    pub open spec fn wf(self) -> bool {
        self.interval >= MIN_INTERVAL_MS
    }
}

/// Whether an interval is long enough to run with.
pub fn validate_interval(interval_ms: u64) -> (r: bool)
    ensures
        r <==> interval_ms >= MIN_INTERVAL_MS,
{
    interval_ms >= MIN_INTERVAL_MS
}

/// Where the application keeps its data and configuration.
#[derive(Debug, Clone, Default)]
pub struct AppConfig {
    pub _data_dir: String,
    pub _config_dir: String,
}

/// General settings: how and whether to run the command through a shell,
/// and whether history entries with empty diffs are skipped.
#[derive(Debug, Clone, Default)]
pub struct General {
    pub no_shell: Option<bool>,
    pub shell: Option<String>,
    pub shell_options: Option<String>,
    pub skip_empty_diffs: Option<bool>,
}

impl From<crate::old_config::General> for General {
    /// The general settings an old-format section carries over; the old
    /// format's mouse switch has no counterpart here.
    fn from(value: crate::old_config::General) -> (r: General) {
        General {
            no_shell: value.no_shell,
            shell: value.shell,
            shell_options: value.shell_options,
            skip_empty_diffs: value.skip_empty_diffs,
        }
    }
}

impl vstd::std_specs::convert::FromSpecImpl<crate::old_config::General> for General {
    open spec fn obeys_from_spec() -> bool {
        true
    }

    open spec fn from_spec(value: crate::old_config::General) -> General {
        General {
            no_shell: value.no_shell,
            shell: value.shell,
            shell_options: value.shell_options,
            skip_empty_diffs: value.skip_empty_diffs,
        }
    }
}

} // verus!
