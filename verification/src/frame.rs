//! Frames: the per-process usage of one reading, and their differences.

use crate::ranking::{
    distinct_pids, entries_of, exceeding, is_ranking, keep_exceeding, lemma_entries_of,
    lemma_peak_exists, lemma_ranking_descends, lemma_ranking_exists, lemma_ranking_len,
    lemma_ranking_of_nothing, peak, peak_of, rank, ranking, Entry, RATIO_ONE, REPORT_FLOOR,
};
use crate::sample::{Pid, ProcessSample, SystemSample};
use crate::snapshot::Snapshot;
use std::collections::HashMap;
use vstd::prelude::*;
use vstd::std_specs::iter::IteratorSpec;

verus! {

broadcast use vstd::std_specs::hash::group_hash_axioms;

/// One complete reading: the snapshot of every process that was alive.
#[derive(Debug)]
pub struct Frame {
    snapshots: HashMap<Pid, Snapshot>,
}

impl View for Frame {
    type V = Map<Pid, Snapshot>;

    closed spec fn view(&self) -> Map<Pid, Snapshot> {
        self.snapshots@
    }
}

/// The frame that a reading gives: one snapshot per process, under its identity.
pub open spec fn frame_of(processes: Map<Pid, ProcessSample>) -> Map<Pid, Snapshot> {
    Map::new(
        |pid: Pid| processes.dom().contains(pid),
        |pid: Pid| Snapshot::of(pid, processes[pid].cpu, processes[pid].mem),
    )
}

/// `pid` shows in the difference between `current` and `baseline`: it is in
/// `current`, and it is new there or its CPU usage rose by more than `floor`.
pub open spec fn surfaces(
    current: Map<Pid, Snapshot>,
    baseline: Map<Pid, Snapshot>,
    floor: u32,
    pid: Pid,
) -> bool {
    &&& current.dom().contains(pid)
    &&& baseline.dom().contains(pid) ==> current[pid].cpu() - baseline[pid].cpu() > floor
}

/// How far the CPU usage of `pid` rose from `baseline` to `current`. A
/// process that is new in `current` rose by all of its usage.
pub open spec fn rise(current: Map<Pid, Snapshot>, baseline: Map<Pid, Snapshot>, pid: Pid) -> int {
    if baseline.dom().contains(pid) {
        current[pid].cpu() - baseline[pid].cpu()
    } else {
        current[pid].cpu() as int
    }
}

/// The difference between two frames: the rise of every process that surfaces.
pub open spec fn delta_of(
    current: Map<Pid, Snapshot>,
    baseline: Map<Pid, Snapshot>,
    floor: u32,
) -> Map<Pid, u32> {
    Map::new(
        |pid: Pid| surfaces(current, baseline, floor, pid),
        |pid: Pid| rise(current, baseline, pid) as u32,
    )
}

/// The deltas that are large enough to report.
pub open spec fn reportable(deltas: Map<Pid, u32>) -> Map<Pid, u32> {
    exceeding(deltas, 1, REPORT_FLOOR as int)
}

/// The deltas that are more than the share `ratio` of the largest one. The
/// share is a percentage in hundredths of a percentage point, so `RATIO_ONE`
/// is the whole of the largest delta and `5000` is half of it.
pub open spec fn over_cutoff(deltas: Map<Pid, u32>, ratio: u32) -> Map<Pid, u32> {
    exceeding(deltas, RATIO_ONE as int, peak(deltas) * ratio)
}

/// The difference between two frames has an entry for no process that the
/// current frame lacks, and for every process that is new in it: where the
/// current frame holds finitely many processes, the difference has at most as
/// many entries as that, and at least as many as there are new processes.
pub proof fn lemma_delta_of_size(
    current: Map<Pid, Snapshot>,
    baseline: Map<Pid, Snapshot>,
    floor: u32,
)
    requires
        current.dom().finite(),
    ensures
        delta_of(current, baseline, floor).dom().finite(),
        delta_of(current, baseline, floor).dom().subset_of(current.dom()),
        current.dom().difference(baseline.dom()).subset_of(
            delta_of(current, baseline, floor).dom(),
        ),
        current.dom().difference(baseline.dom()).len() <= delta_of(
            current,
            baseline,
            floor,
        ).dom().len() <= current.dom().len(),
{
    let shown = delta_of(current, baseline, floor).dom();
    let fresh = current.dom().difference(baseline.dom());
    assert(shown.subset_of(current.dom()));
    assert(fresh.subset_of(shown));
    vstd::set_lib::lemma_len_subset(shown, current.dom());
    vstd::set_lib::lemma_len_subset(fresh, shown);
}

/// A frame compared with itself shows nothing: no process is new, and none
/// rose by more than any floor.
pub proof fn lemma_delta_of_itself(frame: Map<Pid, Snapshot>, floor: u32)
    ensures
        delta_of(frame, frame, floor) == Map::<Pid, u32>::empty(),
{
    assert(delta_of(frame, frame, floor) =~= Map::<Pid, u32>::empty());
}

/// What is reported of finitely many deltas is above half a percentage point
/// throughout, and never rises from one entry to the next.
pub proof fn lemma_reported_descends(deltas: Map<Pid, u32>)
    requires
        deltas.dom().finite(),
    ensures
        forall|i: int|
            0 <= i < ranking(reportable(deltas)).len() ==> (#[trigger] ranking(
                reportable(deltas),
            )[i]).1 > REPORT_FLOOR,
        forall|i: int, j: int|
            0 <= i < j < ranking(reportable(deltas)).len() ==> (#[trigger] ranking(
                reportable(deltas),
            )[i]).1 >= (#[trigger] ranking(reportable(deltas))[j]).1,
{
    let kept = reportable(deltas);
    vstd::set_lib::lemma_len_subset(kept.dom(), deltas.dom());
    lemma_ranking_exists(kept);
    lemma_ranking_descends(kept);
    let r = ranking(kept);
    assert forall|i: int| 0 <= i < r.len() implies (#[trigger] r[i]).1 > REPORT_FLOOR by {
        assert(kept.contains_pair(r[i].0, r[i].1));
    }
}

/// Where no two of the deltas that are reported are equal, what is reported
/// falls strictly from one entry to the next.
pub proof fn lemma_reported_strictly_descends(deltas: Map<Pid, u32>)
    requires
        deltas.dom().finite(),
        forall|p: Pid, q: Pid|
            reportable(deltas).dom().contains(p) && reportable(deltas).dom().contains(q) && p != q
                ==> #[trigger] deltas[p] != #[trigger] deltas[q],
    ensures
        forall|i: int, j: int|
            0 <= i < j < ranking(reportable(deltas)).len() ==> (#[trigger] ranking(
                reportable(deltas),
            )[i]).1 > (#[trigger] ranking(reportable(deltas))[j]).1,
{
    let kept = reportable(deltas);
    vstd::set_lib::lemma_len_subset(kept.dom(), deltas.dom());
    assert forall|p: Pid, q: Pid|
        kept.dom().contains(p) && kept.dom().contains(q) && p != q implies #[trigger] kept[p]
        != #[trigger] kept[q] by {
        assert(deltas[p] != deltas[q]);
    }
    lemma_ranking_descends(kept);
}

/// A delta is above the cutoff where its share of the largest delta is more
/// than `ratio`, both on the scale on which `RATIO_ONE` is the whole.
pub proof fn lemma_over_cutoff_is(deltas: Map<Pid, u32>, ratio: u32)
    ensures
        forall|pid: Pid|
            over_cutoff(deltas, ratio).dom().contains(pid) <==> deltas.dom().contains(pid)
                && deltas[pid] * RATIO_ONE > peak(deltas) * ratio,
        forall|pid: Pid| #[trigger]
            over_cutoff(deltas, ratio).dom().contains(pid) ==> over_cutoff(deltas, ratio)[pid]
                == deltas[pid],
{
}

/// With a ratio below the whole, the largest delta is above the cutoff unless
/// it is zero: every process that rose the most is reported, and there is one.
pub proof fn lemma_over_cutoff_keeps_peak(deltas: Map<Pid, u32>, ratio: u32)
    requires
        ratio < RATIO_ONE,
        peak(deltas) > 0,
    ensures
        forall|pid: Pid|
            deltas.dom().contains(pid) && deltas[pid] == peak(deltas) ==> #[trigger] over_cutoff(
                deltas,
                ratio,
            ).dom().contains(pid),
        exists|pid: Pid|
            deltas[pid] == peak(deltas) && #[trigger] over_cutoff(deltas, ratio).dom().contains(pid),
{
    lemma_peak_exists(deltas);
    let most = peak(deltas);
    assert(most * RATIO_ONE > most * ratio) by (nonlinear_arith)
        requires
            most > 0,
            0 <= ratio < RATIO_ONE,
    ;
    let top = choose|pid: Pid| #[trigger] deltas.dom().contains(pid) && deltas[pid] == most;
    assert(over_cutoff(deltas, ratio).dom().contains(top));
}

/// With a ratio of zero the cutoff is zero: what is reported is every delta
/// above zero, in reporting order.
pub proof fn lemma_over_cutoff_zero(deltas: Map<Pid, u32>)
    ensures
        over_cutoff(deltas, 0) == exceeding(deltas, 1, 0),
        forall|pid: Pid|
            over_cutoff(deltas, 0).dom().contains(pid) <==> deltas.dom().contains(pid)
                && deltas[pid] > 0,
{
    assert(over_cutoff(deltas, 0) =~= exceeding(deltas, 1, 0));
}

/// With a ratio of the whole, or more, the cutoff is the largest delta at
/// least, and no delta is above it: nothing is reported, the largest delta
/// included.
pub proof fn lemma_over_cutoff_whole(deltas: Map<Pid, u32>, ratio: u32)
    requires
        ratio >= RATIO_ONE,
    ensures
        over_cutoff(deltas, ratio) == Map::<Pid, u32>::empty(),
        ranking(over_cutoff(deltas, ratio)) == Seq::<Entry>::empty(),
{
    lemma_peak_exists(deltas);
    let most = peak(deltas);
    assert forall|pid: Pid| deltas.dom().contains(pid) implies !(deltas[pid] * RATIO_ONE > most
        * ratio) by {
        assert(deltas[pid] <= most);
        assert(deltas[pid] * RATIO_ONE <= most * ratio) by (nonlinear_arith)
            requires
                0 <= deltas[pid] <= most,
                0 <= RATIO_ONE <= ratio,
        ;
    }
    assert(over_cutoff(deltas, ratio) =~= Map::<Pid, u32>::empty());
    lemma_ranking_of_nothing();
}

impl Frame {
    /// Every snapshot is filed under its own identity.
    #[verifier::type_invariant]
    spec fn keyed_by_pid(&self) -> bool {
        forall|pid: Pid| #[trigger]
            self.snapshots@.dom().contains(pid) ==> self.snapshots@[pid].pid() == pid
    }

    /// A frame without processes.
    pub fn new() -> (frame: Self)
        ensures
            frame@ == Map::<Pid, Snapshot>::empty(),
            frame@.dom().finite(),
            frame@.dom().len() == 0,
    {
        Frame { snapshots: HashMap::new() }
    }

    /// A frame holds finitely many processes.
    pub proof fn lemma_finite(&self)
        ensures
            self@.dom().finite(),
    {
    }

    /// Files `snapshot` under its identity, replacing an earlier one. The
    /// frame has one process more than before where the identity is new to
    /// it, and as many as before where it is not.
    pub fn add(&mut self, snapshot: Snapshot)
        ensures
            final(self)@ == old(self)@.insert(snapshot.pid(), snapshot),
            final(self)@.dom().finite(),
            final(self)@.dom().len() == old(self)@.dom().len() + if old(self)@.dom().contains(
                snapshot.pid(),
            ) {
                0int
            } else {
                1int
            },
    {
        proof {
            use_type_invariant(&*self);
        }
        // The map is taken out while it changes and put back when it is
        // whole again, so that the frame holds a well-keyed map throughout.
        let mut snapshots = HashMap::new();
        core::mem::swap(&mut self.snapshots, &mut snapshots);
        snapshots.insert(snapshot.pid(), snapshot);
        core::mem::swap(&mut self.snapshots, &mut snapshots);
    }

    /// The snapshot of `pid`, or `None` if the process is not in this frame.
    pub fn get(&self, pid: &Pid) -> (r: Option<&Snapshot>)
        ensures
            r.is_some() == self@.dom().contains(*pid),
            r matches Some(s) ==> *s == self@[*pid] && s.pid() == *pid,
    {
        proof {
            use_type_invariant(self);
        }
        self.snapshots.get(pid)
    }

    /// Builds the frame of one reading.
    pub fn from_sys(sys: &SystemSample) -> (frame: Self)
        ensures
            frame@ == frame_of(sys.processes@),
            frame@.dom().finite(),
            frame@.dom().len() == sys.processes@.dom().len(),
    {
        let mut frame = Frame::new();
        let ghost readings = sys.processes.iter().remaining();
        for entry in it: sys.processes.iter()
            invariant
                it.seq() == readings,
                forall|pid: Pid| #[trigger]
                    frame@.dom().contains(pid) <==> exists|i: int|
                        0 <= i < it.index() && *(#[trigger] readings[i]).0 == pid,
                forall|pid: Pid| #[trigger]
                    frame@.dom().contains(pid) ==> frame@[pid] == frame_of(sys.processes@)[pid],
        {
            let (pid, process) = entry;
            assert(entry == readings[it.index()]);
            assert(sys.processes@.contains_key(*readings[it.index()].0));
            frame.add(Snapshot::new(*pid, process));
        }
        assert(frame@ =~= frame_of(sys.processes@)) by {
            assert forall|pid: Pid| sys.processes@.dom().contains(pid) implies frame@.dom().contains(
                pid,
            ) by {
                let pair = (&pid, &sys.processes@[pid]);
                assert(readings.contains(pair));
                let i = choose|i: int| 0 <= i < readings.len() && readings[i] == pair;
                assert(*readings[i].0 == pid);
            }
        }
        assert(frame@.dom() =~= sys.processes@.dom());
        frame
    }

    /// The snapshots of this frame, each once, in no particular order.
    pub fn snapshots(&self) -> (all: Vec<Snapshot>)
        ensures
            all.len() == self@.dom().len(),
            forall|i: int|
                0 <= i < all.len() ==> self@.contains_pair((#[trigger] all[i]).pid(), all[i]),
            forall|pid: Pid| #[trigger] self@.dom().contains(pid) ==> all@.contains(self@[pid]),
            forall|i: int, j: int|
                0 <= i < j < all.len() ==> (#[trigger] all[i]).pid() != (#[trigger] all[j]).pid(),
    {
        proof {
            use_type_invariant(self);
        }
        let mut all: Vec<Snapshot> = Vec::new();
        let ghost readings = self.snapshots.iter().remaining();
        for entry in it: self.snapshots.iter()
            invariant
                it.seq() == readings,
                readings.no_duplicates(),
                all.len() == it.index(),
                forall|i: int|
                    0 <= i < all.len() ==> #[trigger] all[i] == *readings[i].1 && all[i].pid()
                        == *readings[i].0,
                forall|pid: Pid| #[trigger]
                    self@.dom().contains(pid) ==> self@[pid].pid() == pid,
        {
            let (pid, snapshot) = entry;
            assert(entry == readings[it.index()]);
            assert(self@.contains_key(*readings[it.index()].0));
            all.push(*snapshot);
        }
        proof {
            assert forall|i: int| 0 <= i < all.len() implies self@.contains_pair(
                (#[trigger] all[i]).pid(),
                all[i],
            ) by {
                assert(self@.contains_key(*readings[i].0));
            }
            assert forall|pid: Pid| #[trigger] self@.dom().contains(pid) implies all@.contains(
                self@[pid],
            ) by {
                let pair = (&pid, &self@[pid]);
                assert(readings.contains(pair));
                let i = choose|i: int| 0 <= i < readings.len() && readings[i] == pair;
                assert(all[i] == self@[pid]);
            }
            assert forall|i: int, j: int| 0 <= i < j < all.len() implies (#[trigger] all[i]).pid()
                != (#[trigger] all[j]).pid() by {
                assert(self@[*readings[i].0] == *readings[i].1);
                assert(self@[*readings[j].0] == *readings[j].1);
                assert(readings[i] != readings[j]);
            }
        }
        all
    }

    /// Compares this frame with the earlier frame `prev`. A process of this
    /// frame that `prev` lacks is listed with all of its CPU usage; one that
    /// `prev` has is listed with its rise, if that is more than `threshold`.
    /// Processes that only `prev` has are left out.
    ///
    /// So the comparison lists no process twice, none that this frame lacks,
    /// and every process that is new in this frame.
    pub fn delta(&self, prev: &Frame, threshold: u32) -> (deltas: FrameDelta)
        ensures
            deltas@ == delta_of(self@, prev@, threshold),
            deltas@.dom().finite(),
            deltas@.dom().subset_of(self@.dom()),
            self@.dom().difference(prev@.dom()).subset_of(deltas@.dom()),
            self@.dom().difference(prev@.dom()).len() <= deltas@.dom().len() <= self@.dom().len(),
            forall|pid: Pid|
                deltas@.dom().contains(pid) <==> (self@.dom().contains(pid) && prev@.dom().contains(
                    pid,
                ) && self@[pid].cpu() - prev@[pid].cpu() > threshold) || (self@.dom().contains(pid)
                    && !prev@.dom().contains(pid)),
    {
        let mut deltas: Vec<Entry> = Vec::new();
        let ghost readings = self.snapshots.iter().remaining();
        // Where each entry came from, and where each reading went (-1: nowhere).
        let ghost mut origin: Seq<int> = Seq::empty();
        let ghost mut placed: Seq<int> = Seq::empty();
        for entry in it: self.snapshots.iter()
            invariant
                it.seq() == readings,
                readings.no_duplicates(),
                origin.len() == deltas.len(),
                placed.len() == it.index(),
                forall|a: int| 0 <= a < deltas.len() ==> 0 <= #[trigger] origin[a] < it.index(),
                forall|a: int, b: int|
                    0 <= a < b < deltas.len() ==> #[trigger] origin[a] < #[trigger] origin[b],
                forall|a: int|
                    0 <= a < deltas.len() ==> (#[trigger] deltas[a]).0 == *readings[origin[a]].0
                        && surfaces(self@, prev@, threshold, deltas[a].0) && deltas[a].1 == rise(
                        self@,
                        prev@,
                        deltas[a].0,
                    ),
                forall|i: int|
                    0 <= i < it.index() && surfaces(self@, prev@, threshold, *readings[i].0) ==> 0
                        <= #[trigger] placed[i] < deltas.len() && deltas[placed[i]].0
                        == *readings[i].0,
        {
            let (pid, snapshot) = entry;
            assert(entry == readings[it.index()]);
            assert(self@.contains_key(*readings[it.index()].0));
            let ghost mut slot: int = -1;
            match prev.get(pid) {
                Some(prev_snapshot) => {
                    if snapshot.cpu() > prev_snapshot.cpu() && snapshot.cpu() - prev_snapshot.cpu()
                        > threshold {
                        proof {
                            slot = deltas.len() as int;
                            origin = origin.push(it.index());
                        }
                        deltas.push((*pid, snapshot.cpu() - prev_snapshot.cpu()));
                    }
                },
                None => {
                    proof {
                        slot = deltas.len() as int;
                        origin = origin.push(it.index());
                    }
                    deltas.push((*pid, snapshot.cpu()));
                },
            }
            proof {
                placed = placed.push(slot);
            }
        }
        proof {
            assert forall|a: int, b: int| 0 <= a < b < deltas.len() implies (#[trigger] deltas[a]).0
                != (#[trigger] deltas[b]).0 by {
                let i = origin[a];
                let j = origin[b];
                assert(self@[*readings[i].0] == *readings[i].1);
                assert(self@[*readings[j].0] == *readings[j].1);
                assert(readings[i] != readings[j]);
            }
        }
        let result = FrameDelta { deltas };
        proof {
            let wanted = delta_of(self@, prev@, threshold);
            lemma_entries_of(deltas@);
            assert forall|pid: Pid| wanted.dom().contains(pid) implies result@.dom().contains(
                pid,
            ) by {
                let pair = (&pid, &self@[pid]);
                assert(readings.contains(pair));
                let i = choose|i: int| 0 <= i < readings.len() && readings[i] == pair;
                assert(*readings[i].0 == pid);
                assert(deltas[placed[i]].0 == pid);
            }
            assert forall|pid: Pid| result@.dom().contains(pid) implies wanted.dom().contains(pid)
                && wanted[pid] == result@[pid] by {
                let a = choose|a: int| 0 <= a < deltas.len() && deltas[a] == (pid, result@[pid]);
                assert(deltas[a].0 == pid);
            }
            assert(result@ =~= wanted);
            result.lemma_finite();
            lemma_delta_of_size(self@, prev@, threshold);
        }
        result
    }
}

impl Default for Frame {
    fn default() -> (frame: Self)
        ensures
            frame@ == Map::<Pid, Snapshot>::empty(),
            frame@.dom().finite(),
            frame@.dom().len() == 0,
    {
        Frame::new()
    }
}

impl Clone for Frame {
    fn clone(&self) -> (frame: Self)
        ensures
            frame@ == self@,
            frame@.dom().finite(),
    {
        proof {
            use_type_invariant(self);
        }
        Frame { snapshots: self.snapshots.clone() }
    }
}

/// The processes that surfaced between two frames, each with the rise of its
/// CPU usage. It is used up by the one view that is taken of it.
#[derive(Debug)]
pub struct FrameDelta {
    deltas: Vec<Entry>,
}

impl View for FrameDelta {
    type V = Map<Pid, u32>;

    closed spec fn view(&self) -> Map<Pid, u32> {
        entries_of(self.deltas@)
    }
}

impl FrameDelta {
    /// No process is listed twice.
    #[verifier::type_invariant]
    spec fn listed_once(&self) -> bool {
        distinct_pids(self.deltas@)
    }

    /// A frame delta lists finitely many processes.
    pub proof fn lemma_finite(&self)
        ensures
            self@.dom().finite(),
    {
        let pids = self.deltas@.map_values(|e: Entry| e.0);
        vstd::seq_lib::seq_to_set_is_finite(pids);
        assert forall|pid: Pid| self@.dom().contains(pid) implies pids.to_set().contains(pid) by {
            let i = choose|i: int| 0 <= i < self.deltas@.len() && (#[trigger] self.deltas@[i]).0 == pid;
            assert(pids[i] == pid);
        }
        vstd::set_lib::lemma_len_subset(self@.dom(), pids.to_set());
    }

    /// The deltas of more than half a percentage point, largest first. Equal
    /// deltas come in the order of their identities.
    pub fn all(self) -> (r: Vec<Entry>)
        ensures
            r@ == ranking(reportable(self@)),
            is_ranking(r@, reportable(self@)),
            r.len() == reportable(self@).dom().len(),
            forall|i: int| 0 <= i < r.len() ==> (#[trigger] r[i]).1 > REPORT_FLOOR,
            forall|i: int, j: int| 0 <= i < j < r.len() ==> (#[trigger] r[i]).1 >= (#[trigger] r[j]).1,
    {
        proof {
            use_type_invariant(&self);
        }
        let kept = keep_exceeding(&self.deltas, 1, REPORT_FLOOR as u64);
        let ranked = rank(kept);
        proof {
            lemma_ranking_len(ranked@, reportable(self@));
        }
        ranked
    }

    /// The first `n` of the deltas that `all` gives.
    pub fn top_n(self, n: usize) -> (r: Vec<Entry>)
        ensures
            r.len() <= n,
            r@ == ranking(reportable(self@)).take(
                if n <= ranking(reportable(self@)).len() {
                    n as int
                } else {
                    ranking(reportable(self@)).len() as int
                },
            ),
    {
        let mut ranked = self.all();
        ranked.truncate(n);
        ranked
    }

    /// The deltas that are more than the share `ratio` of the largest delta,
    /// largest first. The share is a percentage in hundredths of a percentage
    /// point: `RATIO_ONE` stands for the whole of the largest delta, `5000`
    /// for half of it. Equal deltas come in the order of their identities.
    pub fn over_threshold(self, ratio: u32) -> (r: Vec<Entry>)
        ensures
            r@ == ranking(over_cutoff(self@, ratio)),
            is_ranking(r@, over_cutoff(self@, ratio)),
            r.len() == over_cutoff(self@, ratio).dom().len(),
    {
        proof {
            use_type_invariant(&self);
        }
        let most = peak_of(&self.deltas);
        assert(most * ratio <= 0xffff_ffff * 0xffff_ffff) by (nonlinear_arith)
            requires
                0 <= most <= 0xffff_ffff,
                0 <= ratio <= 0xffff_ffff,
        ;
        let kept = keep_exceeding(&self.deltas, RATIO_ONE, (most as u64) * (ratio as u64));
        let ranked = rank(kept);
        proof {
            lemma_ranking_len(ranked@, over_cutoff(self@, ratio));
        }
        ranked
    }
}

} // verus!
