//! One turn of the monitor: what a reading leads to.

use crate::frame::{delta_of, frame_of, over_cutoff, reportable, FrameDelta};
use crate::ranking::{ranking, Entry};
use crate::sample::{Pid, ProcessSample, SystemSample, CPU_SCALE};
use crate::snapshot::Snapshot;
use crate::system::{clock_now, instant_gap, SystemState};
use crate::util::{
    as_millis, decimal, duration_millis, duration_text, format_memory, format_millis, memory_text,
    push_decimal, push_two_digits, two_digits,
};
use std::time::Instant;
use vstd::prelude::*;
use vstd::string::StringExecFns;

verus! {

/// The noise floor of the comparison that a spike leads to: a process that
/// was there before is looked at only if it rose by more than half a
/// percentage point.
pub const NOISE_FLOOR: u32 = 50;

/// How the monitor watches.
#[derive(Debug, Clone, Copy)]
pub struct SystemDetails {
    /// Milliseconds between two readings.
    pub poll_interval: u64,
    /// A rise of the aggregate CPU usage above this, in hundredths of a
    /// percentage point, is a spike.
    pub cpu_spike_threshold: u32,
    /// Milliseconds after which the frame of the baseline is renewed without
    /// a spike; `None` where it never is.
    pub frame_update_interval: Option<u64>,
}

/// How the monitor reports.
#[derive(Debug, Clone, Copy)]
pub struct Extras {
    /// Whether a renewal of the frame without a spike goes unmentioned.
    pub suppress_frame_update_message: bool,
    /// Which of the processes that surfaced are reported.
    pub frame_threshold_type: FrameThresholdType,
}

/// Which of the processes that surfaced are reported.
#[derive(Debug, Clone, Copy)]
pub enum FrameThresholdType {
    /// All whose delta is more than half a percentage point.
    All,
    /// Those whose delta is more than this share of the largest: a
    /// percentage in hundredths of a percentage point, so that `10000` is the
    /// whole of the largest delta.
    OverThreshold(u32),
    /// The first so many of `All`.
    TopN(usize),
}

/// What a reading leads to.
#[derive(Debug, Clone, Copy, PartialEq, Eq, Structural)]
pub enum TickAction {
    /// A spike: report it, and commit in full.
    Report,
    /// No spike, but the frame of the baseline is due: commit in full.
    FrameUpdate,
    /// Neither: commit the aggregate only.
    AggregateUpdate,
}

/// What a reading leads to, given how far the aggregate CPU usage rose above
/// the baseline and how many milliseconds ago the frame was committed.
pub open spec fn tick_action_of(
    cpu_total_delta: int,
    elapsed_millis: nat,
    details: SystemDetails,
) -> TickAction {
    if cpu_total_delta > details.cpu_spike_threshold {
        TickAction::Report
    } else if details.frame_update_interval is Some && elapsed_millis
        > details.frame_update_interval->0 {
        TickAction::FrameUpdate
    } else {
        TickAction::AggregateUpdate
    }
}

/// The entries that are reported of `deltas`, in the order of the report.
pub open spec fn selection(deltas: Map<Pid, u32>, policy: FrameThresholdType) -> Seq<Entry> {
    match policy {
        FrameThresholdType::All => ranking(reportable(deltas)),
        FrameThresholdType::OverThreshold(ratio) => ranking(over_cutoff(deltas, ratio)),
        FrameThresholdType::TopN(n) => {
            let ranked = ranking(reportable(deltas));
            ranked.take(
                if n <= ranked.len() {
                    n as int
                } else {
                    ranked.len() as int
                },
            )
        },
    }
}

/// A CPU figure in percent, with two decimal places.
pub open spec fn percent_text(hundredths: nat) -> Seq<char> {
    decimal(hundredths / CPU_SCALE as nat) + seq!['.'] + two_digits(hundredths % CPU_SCALE as nat)
}

/// The line that announces a spike of `cpu_rise` hundredths.
pub open spec fn spike_text(cpu_rise: nat) -> Seq<char> {
    "[CPU usage spike detected! ΔCPU="@ + percent_text(cpu_rise) + "%]"@
}

/// The line that heads the list of offenders.
pub open spec fn offenders_text(elapsed_millis: nat) -> Seq<char> {
    "Top CPU offenders (over last "@ + duration_text(elapsed_millis) + "):"@
}

/// The line of one offender.
pub open spec fn offender_text(process: ProcessSample, entry: Entry) -> Seq<char> {
    "  "@ + process.name@ + " (PID "@ + decimal(entry.0 as nat) + "): ΔCPU="@ + percent_text(
        entry.1 as nat,
    ) + "%, MEM="@ + memory_text(process.mem as nat)
}

/// The lines of the offenders in `ranked` that the reading knows.
pub open spec fn offender_lines(processes: Map<Pid, ProcessSample>, ranked: Seq<Entry>) -> Seq<
    Seq<char>,
>
    decreases ranked.len(),
{
    if ranked.len() == 0 {
        Seq::empty()
    } else {
        let entry = ranked.last();
        let before = offender_lines(processes, ranked.drop_last());
        if processes.dom().contains(entry.0) {
            before.push(offender_text(processes[entry.0], entry))
        } else {
            before
        }
    }
}

/// The report of a spike: the announcement and, where any process is
/// reported, the list of offenders with an empty line after it.
pub open spec fn report_lines(
    processes: Map<Pid, ProcessSample>,
    ranked: Seq<Entry>,
    cpu_rise: nat,
    elapsed_millis: nat,
) -> Seq<Seq<char>> {
    if ranked.len() == 0 {
        seq![spike_text(cpu_rise)]
    } else {
        seq![spike_text(cpu_rise), offenders_text(elapsed_millis)] + offender_lines(
            processes,
            ranked,
        ) + seq![Seq::empty()]
    }
}

/// What one turn prints, given the baseline and the reading.
pub open spec fn tick_lines(
    baseline_frame: Map<Pid, Snapshot>,
    baseline_cpu_total: u32,
    sys: SystemSample,
    elapsed_millis: nat,
    details: SystemDetails,
    extras: Extras,
) -> Seq<Seq<char>> {
    let cpu_rise = sys.cpu_total - baseline_cpu_total;
    match tick_action_of(cpu_rise, elapsed_millis, details) {
        TickAction::Report => report_lines(
            sys.processes@,
            selection(
                delta_of(frame_of(sys.processes@), baseline_frame, NOISE_FLOOR),
                extras.frame_threshold_type,
            ),
            cpu_rise as nat,
            elapsed_millis,
        ),
        TickAction::FrameUpdate => if extras.suppress_frame_update_message {
            Seq::empty()
        } else {
            seq!["[Frame update]"@]
        },
        TickAction::AggregateUpdate => Seq::empty(),
    }
}

/// The texts of a list of strings.
pub open spec fn texts(lines: Seq<String>) -> Seq<Seq<char>> {
    lines.map_values(|line: String| line@)
}

/// Decides what a reading leads to.
pub fn tick_action(cpu_total_delta: i64, elapsed_millis: u128, details: &SystemDetails) -> (action:
    TickAction)
    ensures
        action == tick_action_of(cpu_total_delta as int, elapsed_millis as nat, *details),
{
    if cpu_total_delta > details.cpu_spike_threshold as i64 {
        TickAction::Report
    } else {
        match details.frame_update_interval {
            Some(interval) if elapsed_millis > interval as u128 => TickAction::FrameUpdate,
            _ => TickAction::AggregateUpdate,
        }
    }
}

/// Takes the view of `deltas` that `policy` asks for.
pub fn select(deltas: FrameDelta, policy: &FrameThresholdType) -> (ranked: Vec<Entry>)
    ensures
        ranked@ == selection(deltas@, *policy),
{
    match policy {
        FrameThresholdType::All => deltas.all(),
        FrameThresholdType::OverThreshold(ratio) => deltas.over_threshold(*ratio),
        FrameThresholdType::TopN(n) => deltas.top_n(*n),
    }
}

/// Writes a CPU figure in percent at the end of `text`.
pub fn push_percent(text: &mut String, hundredths: u64)
    ensures
        final(text)@ == old(text)@ + percent_text(hundredths as nat),
{
    proof {
        reveal_strlit(".");
    }
    push_decimal(text, (hundredths / CPU_SCALE as u64) as u128);
    text.append(".");
    push_two_digits(text, (hundredths % CPU_SCALE as u64) as u128);
    assert(text@ =~= old(text)@ + percent_text(hundredths as nat));
}

/// The line that announces a spike.
pub fn spike_line(cpu_rise: u64) -> (line: String)
    ensures
        line@ == spike_text(cpu_rise as nat),
{
    let mut line = String::from_str("[CPU usage spike detected! ΔCPU=");
    push_percent(&mut line, cpu_rise);
    line.append("%]");
    line
}

/// The line that heads the list of offenders.
pub fn offenders_line(elapsed_millis: u128) -> (line: String)
    ensures
        line@ == offenders_text(elapsed_millis as nat),
{
    let mut line = String::from_str("Top CPU offenders (over last ");
    let elapsed = format_millis(elapsed_millis);
    line.append(elapsed.as_str());
    line.append("):");
    line
}

/// The line of one offender.
pub fn offender_line(process: &ProcessSample, entry: Entry) -> (line: String)
    ensures
        line@ == offender_text(*process, entry),
{
    let mut line = String::from_str("  ");
    line.append(process.name.as_str());
    line.append(" (PID ");
    push_decimal(&mut line, entry.0 as u128);
    line.append("): ΔCPU=");
    push_percent(&mut line, entry.1 as u64);
    line.append("%, MEM=");
    let mem = format_memory(process.mem);
    line.append(mem.as_str());
    line
}

/// `after` and `lines` are what one turn makes of `before` and the reading
/// `sys`, where `elapsed_millis` is the time since the frame of the baseline
/// was committed and `now` is the moment of the turn. The aggregate is
/// committed in any case; the frame is committed with it, at `now`, unless the
/// turn is a quiet one.
pub open spec fn is_tick(
    before: SystemState,
    after: SystemState,
    lines: Seq<Seq<char>>,
    sys: SystemSample,
    elapsed_millis: nat,
    now: Instant,
    details: SystemDetails,
    extras: Extras,
) -> bool {
    let action = tick_action_of(
        sys.cpu_total - before.baseline_cpu_total(),
        elapsed_millis,
        details,
    );
    &&& after.sys() == sys
    &&& after.baseline_cpu_total() == sys.cpu_total
    &&& action is AggregateUpdate ==> after.baseline_frame() == before.baseline_frame()
        && after.committed_at() == before.committed_at()
    &&& !(action is AggregateUpdate) ==> after.baseline_frame()@ == frame_of(sys.processes@)
        && after.committed_at() == now
    &&& lines == tick_lines(
        before.baseline_frame()@,
        before.baseline_cpu_total(),
        sys,
        elapsed_millis,
        details,
        extras,
    )
}

/// Does one turn at a given moment: takes `sys` as the latest reading,
/// decides what it leads to, commits accordingly and gives the lines to print.
/// `elapsed_millis` is the time since the frame of the baseline was
/// committed, and `now` is the moment that a full commit is stamped with.
pub fn tick_at(
    sys_state: &mut SystemState,
    sys: SystemSample,
    elapsed_millis: u128,
    now: Instant,
    details: &SystemDetails,
    extras: &Extras,
) -> (lines: Vec<String>)
    ensures
        is_tick(
            *old(sys_state),
            *final(sys_state),
            texts(lines@),
            sys,
            elapsed_millis as nat,
            now,
            *details,
            *extras,
        ),
{
    let ghost processes = sys.processes@;
    let mut lines: Vec<String> = Vec::new();
    sys_state.refresh(sys);
    let sys_delta = sys_state.delta();
    let cpu_rise = sys_delta.cpu_total_delta();
    match tick_action(cpu_rise, elapsed_millis, details) {
        TickAction::Report => {
            lines.push(spike_line(cpu_rise as u64));
            let sys_delta = sys_delta.frame_delta();
            let frame_delta = sys_delta.deltas(NOISE_FLOOR);
            let ranked = select(frame_delta, &extras.frame_threshold_type);
            if ranked.len() > 0 {
                lines.push(offenders_line(elapsed_millis));
                let ghost head = texts(lines@);
                assert(head =~= seq![spike_text(cpu_rise as nat), offenders_text(elapsed_millis as nat)]);
                let mut i: usize = 0;
                while i < ranked.len()
                    invariant
                        i <= ranked.len(),
                        sys_delta.held().sys().processes@ == processes,
                        texts(lines@) == head + offender_lines(processes, ranked@.take(i as int)),
                    decreases ranked.len() - i,
                {
                    let entry = ranked[i];
                    let ghost before = lines@;
                    proof {
                        let upto = ranked@.take(i + 1);
                        assert(upto.drop_last() =~= ranked@.take(i as int));
                        assert(upto.last() == entry);
                    }
                    if let Some(process) = sys_delta.process(entry.0) {
                        lines.push(offender_line(process, entry));
                        assert(texts(lines@) =~= texts(before).push(offender_text(*process, entry)));
                    }
                    i += 1;
                    assert(texts(lines@) =~= head + offender_lines(processes, ranked@.take(i as int)));
                }
                assert(ranked@.take(ranked.len() as int) =~= ranked@);
                let ghost before = lines@;
                lines.push(String::new());
                assert(texts(lines@) =~= texts(before).push(Seq::empty()));
                assert(texts(lines@) =~= report_lines(
                    processes,
                    ranked@,
                    cpu_rise as nat,
                    elapsed_millis as nat,
                ));
            } else {
                assert(texts(lines@) =~= seq![spike_text(cpu_rise as nat)]);
            }
            sys_delta.update_at(now);
        },
        TickAction::FrameUpdate => {
            if !extras.suppress_frame_update_message {
                lines.push(String::from_str("[Frame update]"));
                assert(texts(lines@) =~= seq!["[Frame update]"@]);
            } else {
                assert(texts(lines@) =~= Seq::<Seq<char>>::empty());
            }
            sys_delta.frame_delta().update_at(now);
        },
        TickAction::AggregateUpdate => {
            assert(texts(lines@) =~= Seq::<Seq<char>>::empty());
            sys_delta.update();
        },
    }
    lines
}

/// Does one turn now: takes `sys` as the latest reading, decides what it
/// leads to, commits accordingly and gives the lines to print. The clock is
/// read once: the moment it gives is the moment of the turn, up to which the
/// time since the commit of the frame of the baseline is reckoned, and which
/// a full commit is stamped with.
pub fn tick(
    sys_state: &mut SystemState,
    sys: SystemSample,
    details: &SystemDetails,
    extras: &Extras,
) -> (lines: Vec<String>)
    ensures
        exists|now: Instant| #[trigger]
            is_tick(
                *old(sys_state),
                *final(sys_state),
                texts(lines@),
                sys,
                duration_millis(instant_gap(now, old(sys_state).committed_at())) as nat,
                now,
                *details,
                *extras,
            ),
        final(sys_state).sys() == sys,
        final(sys_state).baseline_cpu_total() == sys.cpu_total,
        sys.cpu_total - old(sys_state).baseline_cpu_total() > details.cpu_spike_threshold
            ==> final(sys_state).baseline_frame()@ == frame_of(sys.processes@),
        sys.cpu_total - old(sys_state).baseline_cpu_total() <= details.cpu_spike_threshold
            && details.frame_update_interval is None ==> final(sys_state).baseline_frame() == old(
            sys_state,
        ).baseline_frame() && final(sys_state).committed_at() == old(sys_state).committed_at()
            && lines@.len() == 0,
{
    let now = clock_now();
    let sys_delta = sys_state.delta();
    let elapsed_millis = as_millis(&sys_delta.elapsed_at(&now));
    proof {
        sys_delta.lemma_dropped();
    }
    let lines = tick_at(sys_state, sys, elapsed_millis, now, details, extras);
    assert(is_tick(
        *old(sys_state),
        *sys_state,
        texts(lines@),
        sys,
        duration_millis(instant_gap(now, old(sys_state).committed_at())) as nat,
        now,
        *details,
        *extras,
    ));
    assert(texts(lines@).len() == lines@.len());
    lines
}

} // verus!
