//! The command line's arguments, validated and turned into a configuration.

use crate::main_loop::{selection, Extras, FrameThresholdType, SystemDetails};
use crate::ranking::{exceeding, peak, ranking, RATIO_ONE};
use crate::sample::Pid;
use vstd::prelude::*;
use vstd::string::StringExecFns;

verus! {

/// Milliseconds between two readings, unless the command line says otherwise.
pub const POLL_INTERVAL: u64 = 1000;

/// Milliseconds after which the frame of the baseline is renewed, unless the
/// command line says otherwise.
pub const FRAME_UPDATE_INTERVAL: u64 = 5000;

/// The rise that counts as a spike, unless the command line says otherwise:
/// ten percentage points.
pub const CPU_SPIKE_THRESHOLD: i64 = 1000;

/// The largest percentage that an argument may give: one hundred, in
/// hundredths of a percentage point.
pub const FULL_PERCENT: i64 = 10000;

/// The arguments as they were given. Percentages are in hundredths of a
/// percentage point.
#[derive(Debug, Clone, Copy)]
pub struct Cli {
    /// Poll interval in milliseconds.
    pub poll_interval: u64,
    /// CPU spike threshold, 0 to 100 percent: `0` to `FULL_PERCENT`.
    pub spike_threshold: i64,
    /// Update interval in milliseconds.
    pub update_interval: u64,
    /// No update interval.
    pub no_update: bool,
    /// Suppress update logging.
    pub suppress_update: bool,
    /// Report all processes.
    pub all: bool,
    /// Report the processes whose delta is over this share of the largest
    /// delta, 0 to 100 percent: `0` to `FULL_PERCENT`.
    pub over: Option<i64>,
    /// Report the top N processes, N above zero.
    pub top: Option<usize>,
}

/// Why the arguments were refused.
#[derive(Debug, Clone, Copy, PartialEq, Eq, Structural)]
pub enum ArgsError {
    /// The spike threshold is not between 0 and 100 percent.
    SpikeThreshold,
    /// The threshold of `--over` is not between 0 and 100 percent.
    OverThreshold,
    /// The count of `--top` is zero.
    TopN,
    /// More than one of `--all`, `--over` and `--top` was given.
    Conflict,
}

/// `value` is a percentage between 0 and 100.
pub open spec fn is_percentage(value: i64) -> bool {
    0 <= value <= FULL_PERCENT
}

/// The policy that the arguments ask for, or why there is none. The share of
/// `--over` is handed on as it is: the policy reckons in the same unit.
pub open spec fn policy_of(cli: Cli) -> Result<FrameThresholdType, ArgsError> {
    match (cli.all, cli.over, cli.top) {
        (_, None, None) => Ok(FrameThresholdType::All),
        (false, Some(ratio), None) => if is_percentage(ratio) {
            Ok(FrameThresholdType::OverThreshold(ratio as u32))
        } else {
            Err(ArgsError::OverThreshold)
        },
        (false, None, Some(n)) => if n == 0 {
            Err(ArgsError::TopN)
        } else {
            Ok(FrameThresholdType::TopN(n))
        },
        _ => Err(ArgsError::Conflict),
    }
}

/// The configuration that the arguments stand for, or why they are refused.
/// The spike threshold is looked at first.
pub open spec fn config_of(cli: Cli) -> Result<(SystemDetails, Extras), ArgsError> {
    if !is_percentage(cli.spike_threshold) {
        Err(ArgsError::SpikeThreshold)
    } else {
        match policy_of(cli) {
            Err(error) => Err(error),
            Ok(policy) => Ok(
                (
                    SystemDetails {
                        poll_interval: cli.poll_interval,
                        cpu_spike_threshold: cli.spike_threshold as u32,
                        frame_update_interval: if cli.no_update {
                            None
                        } else {
                            Some(cli.update_interval)
                        },
                    },
                    Extras {
                        suppress_frame_update_message: cli.suppress_update,
                        frame_threshold_type: policy,
                    },
                ),
            ),
        }
    }
}

/// A share that `--over` is accepted with is at most the whole, and the
/// processes that are then reported are those whose delta is more than that
/// share of the largest delta: with fifty percent, those that rose by more
/// than half of what the process that rose the most rose by.
pub proof fn lemma_over_policy(cli: Cli, deltas: Map<Pid, u32>)
    requires
        cli.over is Some,
        config_of(cli) is Ok,
    ensures
        0 <= cli.over->0 <= RATIO_ONE == FULL_PERCENT,
        config_of(cli)->Ok_0.1.frame_threshold_type == FrameThresholdType::OverThreshold(
            cli.over->0 as u32,
        ),
        selection(deltas, config_of(cli)->Ok_0.1.frame_threshold_type) == ranking(
            exceeding(deltas, FULL_PERCENT as int, peak(deltas) * cli.over->0),
        ),
{
}

impl ArgsError {
    /// The message of the error.
    pub open spec fn text(self) -> Seq<char> {
        match self {
            ArgsError::SpikeThreshold => "spike threshold must be between 0 and 100 percent"@,
            ArgsError::OverThreshold => "over threshold must be between 0 and 100 percent"@,
            ArgsError::TopN => "top N must be greater than 0"@,
            ArgsError::Conflict => "expected at most one of --all, --over, or --top"@,
        }
    }

    /// The message of the error.
    pub fn msg(&self) -> (msg: String)
        ensures
            msg@ == self.text(),
    {
        match self {
            ArgsError::SpikeThreshold => String::from_str(
                "spike threshold must be between 0 and 100 percent",
            ),
            ArgsError::OverThreshold => String::from_str(
                "over threshold must be between 0 and 100 percent",
            ),
            ArgsError::TopN => String::from_str("top N must be greater than 0"),
            ArgsError::Conflict => String::from_str("expected at most one of --all, --over, or --top"),
        }
    }
}

/// Validates the arguments and turns them into a configuration.
pub fn process_args(cli: &Cli) -> (r: Result<(SystemDetails, Extras), ArgsError>)
    ensures
        r == config_of(*cli),
{
    if cli.spike_threshold < 0 || cli.spike_threshold > FULL_PERCENT {
        return Err(ArgsError::SpikeThreshold);
    }
    let cpu_spike_threshold = cli.spike_threshold as u32;
    let frame_update_interval = if cli.no_update {
        None
    } else {
        Some(cli.update_interval)
    };
    let frame_threshold_type = match (cli.all, cli.over, cli.top) {
        (_, None, None) => FrameThresholdType::All,
        (false, Some(ratio), None) => {
            if ratio < 0 || ratio > FULL_PERCENT {
                return Err(ArgsError::OverThreshold);
            }
            FrameThresholdType::OverThreshold(ratio as u32)
        },
        (false, None, Some(n)) => {
            if n == 0 {
                return Err(ArgsError::TopN);
            }
            FrameThresholdType::TopN(n)
        },
        _ => {
            return Err(ArgsError::Conflict);
        },
    };
    Ok(
        (
            SystemDetails { poll_interval: cli.poll_interval, cpu_spike_threshold, frame_update_interval },
            Extras {
                suppress_frame_update_message: cli.suppress_update,
                frame_threshold_type,
            },
        ),
    )
}

} // verus!
