use spike_spy::frame::{Frame, FrameDelta};
use spike_spy::sample::{ProcessSample, SystemSample};
use spike_spy::snapshot::Snapshot;

fn snapshot(pid: u32, cpu: u32) -> Snapshot {
    Snapshot::new(pid, &ProcessSample::new(String::from("p"), cpu, 0))
}

fn frame(entries: &[(u32, u32)]) -> Frame {
    let mut frame = Frame::new();
    for (pid, cpu) in entries {
        frame.add(snapshot(*pid, *cpu));
    }
    frame
}

/// A frame delta with exactly these entries: each process is new.
fn deltas(entries: &[(u32, u32)]) -> FrameDelta {
    frame(entries).delta(&Frame::new(), 50)
}

#[test]
fn snapshot_keeps_what_the_process_showed() {
    let s = Snapshot::new(7, &ProcessSample::new(String::from("seven"), 1234, 4096));
    assert_eq!(s.pid(), 7);
    assert_eq!(s.cpu(), 1234);
    assert_eq!(s.mem(), 4096);
}

#[test]
fn empty_frames() {
    assert!(Frame::new().get(&1).is_none());
    assert!(Frame::default().get(&1).is_none());
    assert!(Frame::new().delta(&Frame::new(), 0).over_threshold(0).is_empty());
}

#[test]
fn add_files_under_the_identity() {
    let mut f = Frame::new();
    f.add(snapshot(3, 100));
    f.add(snapshot(4, 200));
    assert_eq!(f.get(&3).map(|s| (s.pid(), s.cpu())), Some((3, 100)));
    assert_eq!(f.get(&4).map(|s| (s.pid(), s.cpu())), Some((4, 200)));
    assert!(f.get(&5).is_none());
}

#[test]
fn add_replaces_an_earlier_snapshot() {
    let mut f = Frame::new();
    f.add(snapshot(3, 100));
    f.add(snapshot(3, 700));
    assert_eq!(f.get(&3).map(|s| s.cpu()), Some(700));
}

#[test]
fn clone_keeps_the_snapshots() {
    let f = frame(&[(1, 10), (2, 20)]);
    let g = f.clone();
    assert_eq!(g.get(&1).map(|s| s.cpu()), Some(10));
    assert_eq!(g.get(&2).map(|s| s.cpu()), Some(20));
    assert!(g.get(&3).is_none());
}

#[test]
fn snapshots_lists_each_process_once() {
    let f = frame(&[(3, 30), (1, 10), (2, 20), (3, 31)]);
    let mut listed: Vec<(u32, u32)> = f.snapshots().iter().map(|s| (s.pid(), s.cpu())).collect();
    listed.sort();
    assert_eq!(listed, vec![(1, 10), (2, 20), (3, 31)]);
    assert!(Frame::new().snapshots().is_empty());
}

#[test]
fn from_sys_takes_every_process() {
    let mut sys = SystemSample::new(0);
    sys.insert(10, ProcessSample::new(String::from("a"), 150, 1000));
    sys.insert(11, ProcessSample::new(String::from("b"), 250, 2000));
    let f = Frame::from_sys(&sys);
    assert_eq!(f.get(&10).map(|s| (s.pid(), s.cpu(), s.mem())), Some((10, 150, 1000)));
    assert_eq!(f.get(&11).map(|s| (s.pid(), s.cpu(), s.mem())), Some((11, 250, 2000)));
    assert!(f.get(&12).is_none());
}

#[test]
fn delta_lists_risen_and_new_processes() {
    let baseline = frame(&[(1, 1000)]);
    let current = frame(&[(1, 2500), (2, 300)]);
    assert_eq!(current.delta(&baseline, 50).all(), vec![(1, 1500), (2, 300)]);
}

#[test]
fn delta_lists_a_new_process_whatever_its_usage() {
    let baseline = frame(&[(1, 1000)]);
    let current = frame(&[(1, 1000), (2, 30)]);
    // Under the report floor, so `all` passes over it, but it is listed.
    assert_eq!(current.delta(&baseline, 50).all(), vec![]);
    assert_eq!(current.delta(&baseline, 50).over_threshold(0), vec![(2, 30)]);
}

#[test]
fn delta_needs_more_than_the_floor() {
    let baseline = frame(&[(1, 1000), (2, 1000), (3, 1000)]);
    let current = frame(&[(1, 1200), (2, 1201), (3, 1199)]);
    assert_eq!(current.delta(&baseline, 200).over_threshold(0), vec![(2, 201)]);
    assert_eq!(current.delta(&baseline, 0).over_threshold(0), vec![(2, 201), (1, 200), (3, 199)]);
}

#[test]
fn delta_drops_fallen_and_gone_processes() {
    let baseline = frame(&[(1, 5000), (2, 5000), (3, 100)]);
    let current = frame(&[(1, 4000), (3, 100)]);
    assert_eq!(current.delta(&baseline, 0).over_threshold(0), vec![]);
}

#[test]
fn delta_of_a_frame_with_itself_is_empty() {
    let mut sys = SystemSample::new(4200);
    sys.insert(1, ProcessSample::new(String::from("a"), 0, 1));
    sys.insert(2, ProcessSample::new(String::from("b"), 9000, 2));
    let f = Frame::from_sys(&sys);
    let g = Frame::from_sys(&sys);
    assert_eq!(f.delta(&g, 0).over_threshold(0), vec![]);
    assert_eq!(f.delta(&g, 50).all(), vec![]);
    assert_eq!(f.delta(&f, u32::MAX).top_n(5), vec![]);
}

#[test]
fn all_cuts_at_half_a_point() {
    assert_eq!(deltas(&[(1, 50), (2, 51), (3, 0), (4, 49)]).all(), vec![(2, 51)]);
}

#[test]
fn all_is_largest_first() {
    let ranked = deltas(&[(1, 500), (2, 3000), (3, 1200), (4, 51), (5, 2999)]).all();
    assert_eq!(ranked, vec![(2, 3000), (5, 2999), (3, 1200), (1, 500), (4, 51)]);
}

#[test]
fn equal_deltas_go_by_identity() {
    let ranked = deltas(&[(9, 700), (2, 700), (5, 700), (1, 100)]).all();
    assert_eq!(ranked, vec![(2, 700), (5, 700), (9, 700), (1, 100)]);
}

#[test]
fn top_n_takes_the_first_of_all() {
    assert_eq!(deltas(&[(1, 500), (2, 3000), (3, 1200)]).top_n(2), vec![(2, 3000), (3, 1200)]);
}

#[test]
fn top_n_is_a_prefix_of_all() {
    let entries = [(1, 500), (2, 3000), (3, 1200), (4, 20), (5, 3000)];
    let all = deltas(&entries).all();
    assert_eq!(all.len(), 4);
    for n in 0..7 {
        let top = deltas(&entries).top_n(n);
        assert!(top.len() <= n);
        assert_eq!(top[..], all[..n.min(all.len())]);
    }
}

#[test]
fn top_n_of_nothing() {
    assert_eq!(deltas(&[(1, 500)]).top_n(0), vec![]);
    assert_eq!(deltas(&[]).top_n(3), vec![]);
}

#[test]
fn over_threshold_cuts_at_a_share_of_the_largest() {
    // The cutoff is half of 40.00: 20.00.
    assert_eq!(deltas(&[(1, 4000), (2, 1000), (3, 500)]).over_threshold(5000), vec![(1, 4000)]);
    // A tenth of 40.00 is 4.00, which 10.00 and 5.00 are above.
    assert_eq!(
        deltas(&[(1, 4000), (2, 1000), (3, 500), (4, 400)]).over_threshold(1000),
        vec![(1, 4000), (2, 1000), (3, 500)]
    );
}

#[test]
fn over_threshold_is_strict_at_the_cutoff() {
    assert_eq!(
        deltas(&[(1, 4000), (2, 2000), (3, 2001)]).over_threshold(5000),
        vec![(1, 4000), (3, 2001)]
    );
    // A quarter of 3: three quarters, which 1 is above and 0 is not.
    assert_eq!(deltas(&[(1, 3), (2, 1), (3, 0)]).over_threshold(2500), vec![(1, 3), (2, 1)]);
}

#[test]
fn over_threshold_of_zero_takes_what_is_above_zero() {
    let ranked = deltas(&[(1, 4000), (2, 10), (3, 0), (4, 50)]).over_threshold(0);
    assert_eq!(ranked, vec![(1, 4000), (4, 50), (2, 10)]);
}

#[test]
fn over_threshold_of_one_takes_nothing() {
    assert_eq!(deltas(&[(1, 4000), (2, 1000), (3, 4000)]).over_threshold(10000), vec![]);
    assert_eq!(deltas(&[(1, 4000)]).over_threshold(10001), vec![]);
    assert_eq!(deltas(&[(1, 4000)]).over_threshold(u32::MAX), vec![]);
}

#[test]
fn over_threshold_of_the_largest_values() {
    let ranked = deltas(&[(1, u32::MAX), (2, u32::MAX - 1)]).over_threshold(9999);
    assert_eq!(ranked, vec![(1, u32::MAX), (2, u32::MAX - 1)]);
}

#[test]
fn over_threshold_of_nothing() {
    assert_eq!(deltas(&[]).over_threshold(5000), vec![]);
}

#[test]
fn over_threshold_below_the_whole_keeps_the_largest() {
    for ratio in [0, 1, 100, 5000, 9999] {
        let ranked = deltas(&[(1, 7), (2, 4000), (3, 4000)]).over_threshold(ratio);
        assert_eq!(ranked[..2], [(2, 4000), (3, 4000)]);
    }
    assert_eq!(deltas(&[(1, 1)]).over_threshold(9999), vec![(1, 1)]);
}

#[test]
fn over_threshold_reckons_in_hundredths_of_a_percent() {
    // A hundredth of a percent of 100.00 is 0.01.
    let entries = [(1, 10000), (2, 1), (3, 2)];
    assert_eq!(deltas(&entries).over_threshold(1), vec![(1, 10000), (3, 2)]);
    // Just under the whole of it: 99.99.
    let entries = [(1, 10000), (2, 9999), (3, 9998)];
    assert_eq!(deltas(&entries).over_threshold(9999), vec![(1, 10000)]);
    assert_eq!(deltas(&entries).over_threshold(9998), vec![(1, 10000), (2, 9999)]);
}

#[test]
fn add_counts_each_identity_once() {
    let mut f = Frame::new();
    assert_eq!(f.snapshots().len(), 0);
    f.add(snapshot(3, 100));
    assert_eq!(f.snapshots().len(), 1);
    f.add(snapshot(4, 100));
    assert_eq!(f.snapshots().len(), 2);
    f.add(snapshot(3, 900));
    assert_eq!(f.snapshots().len(), 2);
    assert_eq!(f.get(&4).map(|s| s.cpu()), Some(100));
}

#[test]
fn delta_has_no_more_entries_than_the_frame() {
    let baseline = frame(&[(1, 1000), (2, 1000), (9, 1000)]);
    let current = frame(&[(1, 1500), (2, 1000), (3, 0), (4, 10)]);
    // Two are new, one rose, one stayed: three of four are listed.
    let listed = current.delta(&baseline, 0).over_threshold(0);
    assert_eq!(listed, vec![(1, 500), (4, 10)]);
    let listed = current.delta(&baseline, 0).top_n(9);
    assert_eq!(listed, vec![(1, 500)]);
}
