use spike_spy::main_loop::{
    offender_line, offenders_line, push_percent, select, spike_line, tick, tick_action, tick_at,
    Extras, FrameThresholdType, SystemDetails, TickAction,
};
use spike_spy::cli::{process_args, Cli};
use spike_spy::frame::Frame;
use spike_spy::sample::{ProcessSample, SystemSample};
use spike_spy::snapshot::Snapshot;
use spike_spy::system::SystemState;
use std::time::{Duration, Instant};

fn details(threshold: u32, interval: Option<u64>) -> SystemDetails {
    SystemDetails { poll_interval: 1000, cpu_spike_threshold: threshold, frame_update_interval: interval }
}

fn extras(suppress: bool, policy: FrameThresholdType) -> Extras {
    Extras { suppress_frame_update_message: suppress, frame_threshold_type: policy }
}

fn sample(cpu_total: u32, processes: &[(u32, &str, u32, u64)]) -> SystemSample {
    let mut sys = SystemSample::new(cpu_total);
    for (pid, name, cpu, mem) in processes {
        sys.insert(*pid, ProcessSample::new(String::from(*name), *cpu, *mem));
    }
    sys
}

fn frame_delta(entries: &[(u32, u32)]) -> spike_spy::frame::FrameDelta {
    let mut frame = Frame::new();
    for (pid, cpu) in entries {
        frame.add(Snapshot::new(*pid, &ProcessSample::new(String::new(), *cpu, 0)));
    }
    frame.delta(&Frame::new(), 50)
}

fn cpu_of(state: &SystemState, pid: u32) -> Option<u32> {
    state.baseline_frame().get(&pid).map(|s| s.cpu())
}

#[test]
fn a_rise_above_the_threshold_is_reported() {
    assert_eq!(tick_action(1001, 0, &details(1000, Some(5000))), TickAction::Report);
    assert_eq!(tick_action(1001, 6000, &details(1000, None)), TickAction::Report);
    assert_eq!(tick_action(1, 0, &details(0, None)), TickAction::Report);
}

#[test]
fn a_rise_at_the_threshold_is_no_spike() {
    assert_eq!(tick_action(1000, 0, &details(1000, Some(5000))), TickAction::AggregateUpdate);
    assert_eq!(tick_action(0, 0, &details(0, None)), TickAction::AggregateUpdate);
    assert_eq!(tick_action(-4000, 0, &details(1000, None)), TickAction::AggregateUpdate);
}

#[test]
fn the_frame_is_renewed_after_the_interval() {
    assert_eq!(tick_action(10, 5001, &details(1000, Some(5000))), TickAction::FrameUpdate);
    assert_eq!(tick_action(10, 5000, &details(1000, Some(5000))), TickAction::AggregateUpdate);
    assert_eq!(tick_action(-10, 1, &details(1000, Some(0))), TickAction::FrameUpdate);
    assert_eq!(tick_action(10, u128::MAX, &details(1000, Some(u64::MAX))), TickAction::FrameUpdate);
}

#[test]
fn the_frame_is_never_renewed_without_an_interval() {
    assert_eq!(tick_action(10, u128::MAX, &details(1000, None)), TickAction::AggregateUpdate);
}

#[test]
fn select_by_policy() {
    let entries = [(1, 4000), (2, 1000), (3, 500), (4, 40)];
    assert_eq!(
        select(frame_delta(&entries), &FrameThresholdType::All),
        vec![(1, 4000), (2, 1000), (3, 500)]
    );
    assert_eq!(
        select(frame_delta(&entries), &FrameThresholdType::TopN(2)),
        vec![(1, 4000), (2, 1000)]
    );
    assert_eq!(
        select(frame_delta(&entries), &FrameThresholdType::OverThreshold(2000)),
        vec![(1, 4000), (2, 1000)]
    );
    assert_eq!(
        select(frame_delta(&entries), &FrameThresholdType::OverThreshold(0)),
        vec![(1, 4000), (2, 1000), (3, 500), (4, 40)]
    );
}

#[test]
fn percent_has_two_decimal_places() {
    let mut text = String::new();
    push_percent(&mut text, 1500);
    text.push(' ');
    push_percent(&mut text, 305);
    text.push(' ');
    push_percent(&mut text, 7);
    text.push(' ');
    push_percent(&mut text, 0);
    text.push(' ');
    push_percent(&mut text, 123456);
    assert_eq!(text, "15.00 3.05 0.07 0.00 1234.56");
}

#[test]
fn spike_line_text() {
    assert_eq!(spike_line(1500), "[CPU usage spike detected! ΔCPU=15.00%]");
    assert_eq!(spike_line(1001), format!("[CPU usage spike detected! ΔCPU={:.2}%]", 10.01f32));
}

#[test]
fn offenders_line_text() {
    assert_eq!(offenders_line(1200), "Top CPU offenders (over last 1200ms):");
    assert_eq!(offenders_line(75_000), "Top CPU offenders (over last 1m 15s):");
}

#[test]
fn offender_line_text() {
    let process = ProcessSample::new(String::from("cargo"), 9000, 3 * 1024 * 1024);
    assert_eq!(offender_line(&process, (4242, 1525)), "  cargo (PID 4242): ΔCPU=15.25%, MEM=3072KB");
    assert_eq!(
        offender_line(&process, (1, 5)),
        format!("  {} (PID {}): ΔCPU={:.2}%, MEM={}", "cargo", 1, 0.05f32, "3072KB")
    );
}

#[test]
fn a_spike_is_reported_and_committed() {
    let mut state = SystemState::new(sample(1000, &[(1, "one", 1000, 2048)]));
    let now = Instant::now() - Duration::from_secs(100);
    let lines = tick_at(
        &mut state,
        sample(3000, &[(1, "one", 2500, 2048), (2, "two", 300, 20_000_000)]),
        1234,
        now,
        &details(1000, Some(5000)),
        &extras(false, FrameThresholdType::All),
    );
    assert_eq!(
        lines,
        vec![
            "[CPU usage spike detected! ΔCPU=20.00%]",
            "Top CPU offenders (over last 1234ms):",
            "  one (PID 1): ΔCPU=15.00%, MEM=2048B",
            "  two (PID 2): ΔCPU=3.00%, MEM=19MB",
            "",
        ]
    );
    assert_eq!(state.baseline_cpu_total(), 3000);
    assert_eq!(cpu_of(&state, 1), Some(2500));
    assert_eq!(cpu_of(&state, 2), Some(300));
    assert!(state.delta().elapsed() >= Duration::from_secs(100));
}

#[test]
fn a_spike_without_offenders_is_only_announced() {
    let mut state = SystemState::new(sample(1000, &[(1, "one", 1000, 2048)]));
    let lines = tick_at(
        &mut state,
        sample(2500, &[(1, "one", 1040, 2048)]),
        10,
        Instant::now(),
        &details(1000, None),
        &extras(false, FrameThresholdType::TopN(3)),
    );
    assert_eq!(lines, vec!["[CPU usage spike detected! ΔCPU=15.00%]"]);
    assert_eq!(state.baseline_cpu_total(), 2500);
    assert_eq!(cpu_of(&state, 1), Some(1040));
}

#[test]
fn a_spike_is_reported_by_policy() {
    let first = sample(0, &[(1, "a", 0, 0), (2, "b", 0, 0), (3, "c", 0, 0)]);
    let second = [(1, "a", 500, 0), (2, "b", 3000, 0), (3, "c", 1200, 0)];
    let mut state = SystemState::new(first);
    let lines = tick_at(
        &mut state,
        sample(4700, &second),
        20_000,
        Instant::now(),
        &details(1000, None),
        &extras(true, FrameThresholdType::TopN(2)),
    );
    assert_eq!(
        lines,
        vec![
            "[CPU usage spike detected! ΔCPU=47.00%]",
            "Top CPU offenders (over last 20s):",
            "  b (PID 2): ΔCPU=30.00%, MEM=0B",
            "  c (PID 3): ΔCPU=12.00%, MEM=0B",
            "",
        ]
    );
}

#[test]
fn a_due_frame_is_renewed_and_mentioned() {
    let mut state = SystemState::new(sample(1000, &[(1, "one", 1000, 0)]));
    let now = Instant::now() - Duration::from_secs(100);
    let lines = tick_at(
        &mut state,
        sample(1500, &[(2, "two", 700, 0)]),
        5001,
        now,
        &details(1000, Some(5000)),
        &extras(false, FrameThresholdType::All),
    );
    assert_eq!(lines, vec!["[Frame update]"]);
    assert_eq!(state.baseline_cpu_total(), 1500);
    assert_eq!(cpu_of(&state, 1), None);
    assert_eq!(cpu_of(&state, 2), Some(700));
    assert!(state.delta().elapsed() >= Duration::from_secs(100));
}

#[test]
fn a_due_frame_is_renewed_in_silence() {
    let mut state = SystemState::new(sample(1000, &[(1, "one", 1000, 0)]));
    let lines = tick_at(
        &mut state,
        sample(900, &[(2, "two", 700, 0)]),
        5001,
        Instant::now(),
        &details(1000, Some(5000)),
        &extras(true, FrameThresholdType::All),
    );
    assert_eq!(lines, Vec::<String>::new());
    assert_eq!(cpu_of(&state, 2), Some(700));
}

#[test]
fn a_quiet_turn_commits_the_aggregate_only() {
    let at = Instant::now() - Duration::from_secs(100);
    let mut state = SystemState::new_at(sample(1000, &[(1, "one", 1000, 0)]), at);
    let lines = tick_at(
        &mut state,
        sample(1500, &[(2, "two", 700, 0)]),
        5000,
        Instant::now(),
        &details(1000, Some(5000)),
        &extras(false, FrameThresholdType::All),
    );
    assert_eq!(lines, Vec::<String>::new());
    assert_eq!(state.baseline_cpu_total(), 1500);
    assert_eq!(cpu_of(&state, 1), Some(1000));
    assert_eq!(cpu_of(&state, 2), None);
    assert_eq!(state.process(2).map(|p| p.cpu), Some(700));
    assert!(state.delta().elapsed() >= Duration::from_secs(100));
}

#[test]
fn tick_reads_the_clock() {
    let at = Instant::now() - Duration::from_secs(100);
    let mut state = SystemState::new_at(sample(1000, &[(1, "one", 1000, 0)]), at);
    // A hundred seconds have passed: the frame is due.
    let lines = tick(
        &mut state,
        sample(1500, &[(1, "one", 1200, 0)]),
        &details(1000, Some(5000)),
        &extras(false, FrameThresholdType::All),
    );
    assert_eq!(lines, vec!["[Frame update]"]);
    assert_eq!(cpu_of(&state, 1), Some(1200));
    assert!(state.delta().elapsed() < Duration::from_secs(100));
    // It was renewed a moment ago: it is not due again.
    let lines = tick(
        &mut state,
        sample(1600, &[(1, "one", 1300, 0)]),
        &details(1000, Some(5000)),
        &extras(false, FrameThresholdType::All),
    );
    assert_eq!(lines, Vec::<String>::new());
    assert_eq!(state.baseline_cpu_total(), 1600);
    assert_eq!(cpu_of(&state, 1), Some(1200));
}

#[test]
fn tick_reports_a_spike_whatever_the_clock_says() {
    let mut state = SystemState::new(sample(1000, &[(1, "one", 1000, 0)]));
    let lines = tick(
        &mut state,
        sample(2001, &[(1, "one", 1000, 0)]),
        &details(1000, None),
        &extras(false, FrameThresholdType::All),
    );
    assert_eq!(lines, vec!["[CPU usage spike detected! ΔCPU=10.01%]"]);
}

fn over(share: i64) -> FrameThresholdType {
    let cli = Cli {
        poll_interval: 1000,
        spike_threshold: 1000,
        update_interval: 5000,
        no_update: false,
        suppress_update: false,
        all: false,
        over: Some(share),
        top: None,
    };
    process_args(&cli).ok().unwrap().1.frame_threshold_type
}

#[test]
fn an_accepted_share_cuts_at_that_share_of_the_largest() {
    let entries = [(1, 4000), (2, 1000), (3, 2001), (4, 2000)];
    // Fifty percent: above half of 40.00.
    assert_eq!(select(frame_delta(&entries), &over(5000)), vec![(1, 4000), (3, 2001)]);
    // One percent: above 0.40.
    assert_eq!(
        select(frame_delta(&[(1, 4000), (2, 41), (3, 40)]), &over(100)),
        vec![(1, 4000), (2, 41)]
    );
    // Nothing is above the whole of the largest, and everything above none of it.
    assert_eq!(select(frame_delta(&entries), &over(10000)), vec![]);
    assert_eq!(select(frame_delta(&entries), &over(0)).len(), 4);
}

#[test]
fn a_spike_is_reported_over_a_share() {
    let first = sample(0, &[(1, "a", 0, 0), (2, "b", 0, 0), (3, "c", 0, 0)]);
    let second = [(1, "a", 500, 0), (2, "b", 3000, 0), (3, "c", 1200, 0)];
    let mut state = SystemState::new(first);
    let lines = tick_at(
        &mut state,
        sample(4700, &second),
        500,
        Instant::now(),
        &details(1000, None),
        &extras(true, over(2500)),
    );
    assert_eq!(
        lines,
        vec![
            "[CPU usage spike detected! ΔCPU=47.00%]",
            "Top CPU offenders (over last 500ms):",
            "  b (PID 2): ΔCPU=30.00%, MEM=0B",
            "  c (PID 3): ΔCPU=12.00%, MEM=0B",
            "",
        ]
    );
}

#[test]
fn tick_reckons_the_time_from_the_commit_of_the_frame() {
    let at = Instant::now() - Duration::from_secs(100);
    let mut state = SystemState::new_at(
        sample(0, &[(1, "a", 0, 0)]),
        at,
    );
    let lines = tick(
        &mut state,
        sample(4000, &[(1, "a", 3000, 0)]),
        &details(1000, None),
        &extras(false, FrameThresholdType::All),
    );
    assert_eq!(lines.len(), 4);
    assert!(lines[1].starts_with("Top CPU offenders (over last 1m 4"));
}
