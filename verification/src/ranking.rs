//! Ranking of per-process deltas: the order in which they are reported, and
//! the cuts that decide which of them are reported at all.

use crate::sample::Pid;
use vstd::prelude::*;

verus! {

/// A process together with the rise of its CPU usage, in hundredths of a
/// percentage point.
pub type Entry = (Pid, u32);

/// Deltas of at most this size are not worth reporting: half a percentage point.
pub const REPORT_FLOOR: u32 = 50;

/// The share that stands for the whole of the largest delta: one hundred
/// percent, in hundredths of a percentage point as every other figure.
pub const RATIO_ONE: u32 = 10000;

/// `a` is reported before `b`: it has the larger delta, or the same delta and
/// the smaller identity.
pub open spec fn precedes(a: Entry, b: Entry) -> bool {
    a.1 > b.1 || (a.1 == b.1 && a.0 < b.0)
}

/// `r` lists exactly the entries of `m`, each once, in reporting order.
pub open spec fn is_ranking(r: Seq<Entry>, m: Map<Pid, u32>) -> bool {
    &&& forall|i: int, j: int| 0 <= i < j < r.len() ==> precedes(#[trigger] r[i], #[trigger] r[j])
    &&& forall|i: int| 0 <= i < r.len() ==> m.contains_pair((#[trigger] r[i]).0, r[i].1)
    &&& forall|pid: Pid| #[trigger] m.dom().contains(pid) ==> r.contains((pid, m[pid]))
}

/// The entries of `m` in reporting order.
pub open spec fn ranking(m: Map<Pid, u32>) -> Seq<Entry> {
    choose|r: Seq<Entry>| is_ranking(r, m)
}

/// The entries of `m` whose delta, taken `scale` times, is more than `bound`.
pub open spec fn exceeding(m: Map<Pid, u32>, scale: int, bound: int) -> Map<Pid, u32> {
    m.restrict(Set::new(|pid: Pid| m[pid] * scale > bound))
}

/// `v` is the largest delta of `m`, or zero where `m` has no entry.
pub open spec fn is_peak(m: Map<Pid, u32>, v: u32) -> bool {
    &&& forall|pid: Pid| #[trigger] m.dom().contains(pid) ==> m[pid] <= v
    &&& v == 0 || exists|pid: Pid| #[trigger] m.dom().contains(pid) && m[pid] == v
}

/// The largest delta of `m`, or zero where `m` has no entry.
pub open spec fn peak(m: Map<Pid, u32>) -> u32 {
    choose|v: u32| is_peak(m, v)
}

/// The map that a list of entries with distinct identities stands for.
pub(crate) open spec fn entries_of(s: Seq<Entry>) -> Map<Pid, u32> {
    Map::new(
        |pid: Pid| exists|i: int| 0 <= i < s.len() && (#[trigger] s[i]).0 == pid,
        |pid: Pid| s[choose|i: int| 0 <= i < s.len() && (#[trigger] s[i]).0 == pid].1,
    )
}

/// No identity occurs twice in `s`.
pub(crate) open spec fn distinct_pids(s: Seq<Entry>) -> bool {
    forall|i: int, j: int| 0 <= i < j < s.len() ==> (#[trigger] s[i]).0 != (#[trigger] s[j]).0
}

/// In a list with distinct identities, each entry is an entry of the map it
/// stands for.
pub(crate) proof fn lemma_entries_of(s: Seq<Entry>)
    requires
        distinct_pids(s),
    ensures
        forall|i: int| 0 <= i < s.len() ==> entries_of(s).contains_pair((#[trigger] s[i]).0, s[i].1),
        forall|pid: Pid| #[trigger]
            entries_of(s).dom().contains(pid) ==> s.contains((pid, entries_of(s)[pid])),
{
    assert forall|i: int| 0 <= i < s.len() implies entries_of(s).contains_pair(
        (#[trigger] s[i]).0,
        s[i].1,
    ) by {
        let pid = s[i].0;
        let k = choose|k: int| 0 <= k < s.len() && (#[trigger] s[k]).0 == pid;
        assert(k == i);
    }
    assert forall|pid: Pid| #[trigger] entries_of(s).dom().contains(pid) implies s.contains(
        (pid, entries_of(s)[pid]),
    ) by {
        let k = choose|k: int| 0 <= k < s.len() && (#[trigger] s[k]).0 == pid;
        assert(s[k] == (pid, entries_of(s)[pid]));
    }
}

/// What follows the first entry of a ranking ranks the rest of the map.
pub proof fn lemma_ranking_rest(r: Seq<Entry>, m: Map<Pid, u32>)
    requires
        is_ranking(r, m),
        r.len() > 0,
    ensures
        is_ranking(r.drop_first(), m.remove(r[0].0)),
{
    let rest = r.drop_first();
    let less = m.remove(r[0].0);
    assert forall|i: int| 0 <= i < rest.len() implies less.contains_pair(
        (#[trigger] rest[i]).0,
        rest[i].1,
    ) by {
        assert(rest[i] == r[i + 1]);
        assert(precedes(r[0], r[i + 1]));
        assert(m.contains_pair(r[0].0, r[0].1));
        assert(m.contains_pair(r[i + 1].0, r[i + 1].1));
    }
    assert forall|pid: Pid| #[trigger] less.dom().contains(pid) implies rest.contains(
        (pid, less[pid]),
    ) by {
        assert(m.dom().contains(pid));
        let k = choose|k: int| 0 <= k < r.len() && r[k] == (pid, m[pid]);
        assert(k != 0);
        assert(rest[k - 1] == r[k]);
    }
    assert forall|i: int, j: int| 0 <= i < j < rest.len() implies precedes(
        #[trigger] rest[i],
        #[trigger] rest[j],
    ) by {
        assert(rest[i] == r[i + 1]);
        assert(rest[j] == r[j + 1]);
    }
}

/// A ranking is as long as its map has entries, and only a map with finitely
/// many entries has one.
pub proof fn lemma_ranking_len(r: Seq<Entry>, m: Map<Pid, u32>)
    requires
        is_ranking(r, m),
    ensures
        m.dom().finite(),
        m.dom().len() == r.len(),
    decreases r.len(),
{
    if r.len() == 0 {
        assert forall|pid: Pid| !m.dom().contains(pid) by {
            if m.dom().contains(pid) {
                assert(r.contains((pid, m[pid])));
            }
        }
        assert(m.dom() =~= Set::empty());
    } else {
        let less = m.remove(r[0].0);
        lemma_ranking_rest(r, m);
        lemma_ranking_len(r.drop_first(), less);
        assert(m.contains_pair(r[0].0, r[0].1));
        assert(m.dom() =~= less.dom().insert(r[0].0));
    }
}

/// A map has at most one ranking.
pub proof fn lemma_ranking_unique(a: Seq<Entry>, b: Seq<Entry>, m: Map<Pid, u32>)
    requires
        is_ranking(a, m),
        is_ranking(b, m),
    ensures
        a == b,
    decreases a.len(),
{
    if a.len() == 0 {
        if b.len() > 0 {
            assert(m.contains_pair(b[0].0, b[0].1));
            assert(a.contains((b[0].0, m[b[0].0])));
        }
        assert(a =~= b);
    } else {
        assert(m.contains_pair(a[0].0, a[0].1));
        assert(b.contains((a[0].0, m[a[0].0])));
        let k = choose|k: int| 0 <= k < b.len() && b[k] == a[0];
        assert(m.contains_pair(b[0].0, b[0].1));
        assert(a.contains((b[0].0, m[b[0].0])));
        let l = choose|l: int| 0 <= l < a.len() && a[l] == b[0];
        if k > 0 {
            assert(precedes(b[0], b[k]));
            if l > 0 {
                assert(precedes(a[0], a[l]));
            }
        }
        assert(a[0] == b[0]);
        lemma_ranking_rest(a, m);
        lemma_ranking_rest(b, m);
        lemma_ranking_unique(a.drop_first(), b.drop_first(), m.remove(a[0].0));
        assert(a =~= seq![a[0]] + a.drop_first());
        assert(b =~= seq![b[0]] + b.drop_first());
    }
}

/// Whatever ranks a map is its ranking.
pub proof fn lemma_ranking_is(r: Seq<Entry>, m: Map<Pid, u32>)
    requires
        is_ranking(r, m),
    ensures
        r == ranking(m),
{
    lemma_ranking_unique(r, ranking(m), m);
}

/// A map has at most one peak.
pub proof fn lemma_peak_is(m: Map<Pid, u32>, v: u32)
    requires
        is_peak(m, v),
    ensures
        v == peak(m),
{
    let w = peak(m);
    assert(is_peak(m, w));
    if v < w {
        let pid = choose|pid: Pid| #[trigger] m.dom().contains(pid) && m[pid] == w;
        assert(m.dom().contains(pid));
    } else if w < v {
        let pid = choose|pid: Pid| #[trigger] m.dom().contains(pid) && m[pid] == v;
        assert(m.dom().contains(pid));
    }
}

/// `r` with `e` put in at its place in the reporting order.
pub open spec fn with_entry(r: Seq<Entry>, e: Entry) -> Seq<Entry>
    decreases r.len(),
{
    if r.len() == 0 {
        seq![e]
    } else if precedes(e, r[0]) {
        seq![e] + r
    } else {
        seq![r[0]] + with_entry(r.drop_first(), e)
    }
}

/// Putting a new process in at its place gives the ranking with that process.
pub proof fn lemma_with_entry(r: Seq<Entry>, m: Map<Pid, u32>, e: Entry)
    requires
        is_ranking(r, m),
        !m.dom().contains(e.0),
    ensures
        is_ranking(with_entry(r, e), m.insert(e.0, e.1)),
    decreases r.len(),
{
    let more = m.insert(e.0, e.1);
    let out = with_entry(r, e);
    if r.len() == 0 {
        assert forall|pid: Pid| #[trigger] more.dom().contains(pid) implies out.contains(
            (pid, more[pid]),
        ) by {
            if pid != e.0 {
                assert(m.dom().contains(pid));
                assert(r.contains((pid, m[pid])));
            }
            assert(out[0] == e);
        }
    } else if precedes(e, r[0]) {
        assert forall|i: int, j: int| 0 <= i < j < out.len() implies precedes(
            #[trigger] out[i],
            #[trigger] out[j],
        ) by {
            if i == 0 {
                assert(out[j] == r[j - 1]);
                if j - 1 > 0 {
                    assert(precedes(r[0], r[j - 1]));
                }
            } else {
                assert(precedes(r[i - 1], r[j - 1]));
            }
        }
        assert forall|i: int| 0 <= i < out.len() implies more.contains_pair(
            (#[trigger] out[i]).0,
            out[i].1,
        ) by {
            if i > 0 {
                assert(m.contains_pair(r[i - 1].0, r[i - 1].1));
            }
        }
        assert forall|pid: Pid| #[trigger] more.dom().contains(pid) implies out.contains(
            (pid, more[pid]),
        ) by {
            if pid != e.0 {
                assert(m.dom().contains(pid));
                let k = choose|k: int| 0 <= k < r.len() && r[k] == (pid, m[pid]);
                assert(out[k + 1] == r[k]);
            } else {
                assert(out[0] == e);
            }
        }
    } else {
        let rest = r.drop_first();
        let less = m.remove(r[0].0);
        lemma_ranking_rest(r, m);
        lemma_with_entry(rest, less, e);
        let tail = with_entry(rest, e);
        assert(m.contains_pair(r[0].0, r[0].1));
        assert(is_ranking(tail, less.insert(e.0, e.1)));
        assert forall|i: int, j: int| 0 <= i < j < out.len() implies precedes(
            #[trigger] out[i],
            #[trigger] out[j],
        ) by {
            if i == 0 {
                let x = tail[j - 1];
                assert(out[j] == x);
                assert(less.insert(e.0, e.1).contains_pair(x.0, x.1));
                if x.0 != e.0 {
                    assert(less.dom().contains(x.0));
                    assert(rest.contains((x.0, less[x.0])));
                    let k = choose|k: int| 0 <= k < rest.len() && rest[k] == x;
                    assert(rest[k] == r[k + 1]);
                    assert(precedes(r[0], r[k + 1]));
                }
            } else {
                assert(precedes(tail[i - 1], tail[j - 1]));
            }
        }
        assert forall|i: int| 0 <= i < out.len() implies more.contains_pair(
            (#[trigger] out[i]).0,
            out[i].1,
        ) by {
            if i > 0 {
                let x = tail[i - 1];
                assert(less.insert(e.0, e.1).contains_pair(x.0, x.1));
            }
        }
        assert forall|pid: Pid| #[trigger] more.dom().contains(pid) implies out.contains(
            (pid, more[pid]),
        ) by {
            if pid == r[0].0 {
                assert(out[0] == (pid, more[pid]));
            } else {
                assert(less.insert(e.0, e.1).dom().contains(pid));
                let k = choose|k: int|
                    0 <= k < tail.len() && tail[k] == (pid, less.insert(e.0, e.1)[pid]);
                assert(out[k + 1] == tail[k]);
            }
        }
    }
}

/// Every map with finitely many entries has a ranking.
pub proof fn lemma_ranking_exists(m: Map<Pid, u32>)
    requires
        m.dom().finite(),
    ensures
        is_ranking(ranking(m), m),
    decreases m.dom().len(),
{
    if m.dom().len() == 0 {
        assert(m.dom() =~= Set::empty());
        assert(is_ranking(Seq::<Entry>::empty(), m));
    } else {
        let pid = m.dom().choose();
        let less = m.remove(pid);
        lemma_ranking_exists(less);
        lemma_with_entry(ranking(less), less, (pid, m[pid]));
        assert(less.insert(pid, m[pid]) =~= m);
    }
}

/// A ranking never rises from one entry to the next, and it falls strictly
/// wherever the deltas of the map differ from each other.
pub proof fn lemma_ranking_descends(m: Map<Pid, u32>)
    requires
        m.dom().finite(),
    ensures
        forall|i: int, j: int|
            0 <= i < j < ranking(m).len() ==> (#[trigger] ranking(m)[i]).1 >= (#[trigger] ranking(
                m,
            )[j]).1,
        (forall|p: Pid, q: Pid|
            m.dom().contains(p) && m.dom().contains(q) && p != q ==> #[trigger] m[p] != #[trigger] m[q])
            ==> forall|i: int, j: int|
            0 <= i < j < ranking(m).len() ==> (#[trigger] ranking(m)[i]).1 > (#[trigger] ranking(
                m,
            )[j]).1,
{
    lemma_ranking_exists(m);
    let r = ranking(m);
    assert forall|i: int, j: int| 0 <= i < j < r.len() implies (#[trigger] r[i]).1 >= (
    #[trigger] r[j]).1 by {
        assert(precedes(r[i], r[j]));
    }
    if forall|p: Pid, q: Pid|
        m.dom().contains(p) && m.dom().contains(q) && p != q ==> #[trigger] m[p] != #[trigger] m[q] {
        assert forall|i: int, j: int| 0 <= i < j < r.len() implies (#[trigger] r[i]).1 > (
        #[trigger] r[j]).1 by {
            assert(precedes(r[i], r[j]));
            assert(m.contains_pair(r[i].0, r[i].1));
            assert(m.contains_pair(r[j].0, r[j].1));
            if r[i].0 != r[j].0 {
                assert(m[r[i].0] != m[r[j].0]);
            }
        }
    }
}

/// The ranking of no entries is empty.
pub proof fn lemma_ranking_of_nothing()
    ensures
        ranking(Map::<Pid, u32>::empty()) == Seq::<Entry>::empty(),
{
    lemma_ranking_is(Seq::<Entry>::empty(), Map::<Pid, u32>::empty());
}

/// Every map has a peak, whatever entries it has.
pub proof fn lemma_peak_exists(m: Map<Pid, u32>)
    ensures
        is_peak(m, peak(m)),
{
    lemma_peak_under(m, u32::MAX);
}

/// A map whose deltas are all at most `bound` has a peak.
proof fn lemma_peak_under(m: Map<Pid, u32>, bound: u32)
    requires
        forall|pid: Pid| #[trigger] m.dom().contains(pid) ==> m[pid] <= bound,
    ensures
        is_peak(m, peak(m)),
    decreases bound,
{
    if bound == 0 || exists|pid: Pid| #[trigger] m.dom().contains(pid) && m[pid] == bound {
        assert(is_peak(m, bound));
    } else {
        lemma_peak_under(m, (bound - 1) as u32);
    }
}

/// Whether `a` is reported before `b`.
pub(crate) fn ranks_before(a: &Entry, b: &Entry) -> (r: bool)
    ensures
        r == precedes(*a, *b),
{
    a.1 > b.1 || (a.1 == b.1 && a.0 < b.0)
}

/// Puts entries with distinct identities into reporting order, one after the
/// other at its place: the list holds only the processes that surfaced.
pub(crate) fn rank(entries: Vec<Entry>) -> (r: Vec<Entry>)
    requires
        distinct_pids(entries@),
    ensures
        is_ranking(r@, entries_of(entries@)),
        r@ == ranking(entries_of(entries@)),
{
    let mut out: Vec<Entry> = Vec::new();
    let mut i: usize = 0;
    while i < entries.len()
        invariant
            i <= entries.len(),
            distinct_pids(entries@),
            forall|a: int, b: int| 0 <= a < b < out.len() ==> precedes(#[trigger] out[a], #[trigger] out[b]),
            forall|a: int|
                0 <= a < out.len() ==> exists|k: int| 0 <= k < i && entries[k] == #[trigger] out[a],
            forall|k: int| 0 <= k < i ==> out@.contains(#[trigger] entries[k]),
        decreases entries.len() - i,
    {
        let x = entries[i];
        let mut pos: usize = 0;
        while pos < out.len() && !ranks_before(&x, &out[pos])
            invariant
                pos <= out.len(),
                forall|a: int| 0 <= a < pos ==> !precedes(x, #[trigger] out[a]),
            decreases out.len() - pos,
        {
            pos += 1;
        }
        let ghost before = out@;
        out.insert(pos, x);
        proof {
            assert forall|a: int, b: int| 0 <= a < b < out.len() implies precedes(
                #[trigger] out[a],
                #[trigger] out[b],
            ) by {
                if a < pos {
                    let k = choose|k: int| 0 <= k < i && entries[k] == before[a];
                    assert(entries[k].0 != entries[i as int].0);
                    assert(!precedes(x, before[a]));
                    if b > pos {
                        assert(precedes(before[a], before[b - 1]));
                    }
                } else if a == pos {
                    assert(out[b] == before[b - 1]);
                    if b - 1 > pos {
                        assert(precedes(before[pos as int], before[b - 1]));
                    }
                } else {
                    assert(precedes(before[a - 1], before[b - 1]));
                }
            }
            assert forall|a: int| 0 <= a < out.len() implies exists|k: int|
                0 <= k < i + 1 && entries[k] == #[trigger] out[a] by {
                if a < pos {
                    let k = choose|k: int| 0 <= k < i && entries[k] == before[a];
                    assert(entries[k] == out[a]);
                } else if a == pos {
                    assert(entries[i as int] == out[a]);
                } else {
                    let k = choose|k: int| 0 <= k < i && entries[k] == before[a - 1];
                    assert(entries[k] == out[a]);
                }
            }
            assert forall|k: int| 0 <= k < i + 1 implies out@.contains(#[trigger] entries[k]) by {
                if k < i {
                    let a = choose|a: int| 0 <= a < before.len() && before[a] == entries[k];
                    if a < pos {
                        assert(out[a] == entries[k]);
                    } else {
                        assert(out[a + 1] == entries[k]);
                    }
                } else {
                    assert(out[pos as int] == entries[k]);
                }
            }
        }
        i += 1;
    }
    proof {
        let m = entries_of(entries@);
        lemma_entries_of(entries@);
        assert forall|a: int| 0 <= a < out.len() implies m.contains_pair(
            (#[trigger] out[a]).0,
            out[a].1,
        ) by {
            let k = choose|k: int| 0 <= k < i && entries[k] == out[a];
            assert(m.contains_pair(entries[k].0, entries[k].1));
        }
        assert forall|pid: Pid| #[trigger] m.dom().contains(pid) implies out@.contains(
            (pid, m[pid]),
        ) by {
            let k = choose|k: int| 0 <= k < entries.len() && entries[k] == (pid, m[pid]);
            assert(out@.contains(entries[k]));
        }
        lemma_ranking_is(out@, m);
    }
    out
}

/// The entries whose delta, taken `scale` times, is more than `bound`.
pub(crate) fn keep_exceeding(entries: &Vec<Entry>, scale: u32, bound: u64) -> (r: Vec<Entry>)
    requires
        distinct_pids(entries@),
    ensures
        distinct_pids(r@),
        entries_of(r@) == exceeding(entries_of(entries@), scale as int, bound as int),
{
    let mut out: Vec<Entry> = Vec::new();
    let ghost mut origin: Seq<int> = Seq::empty();
    let mut i: usize = 0;
    while i < entries.len()
        invariant
            i <= entries.len(),
            origin.len() == out.len(),
            forall|a: int| 0 <= a < out.len() ==> 0 <= #[trigger] origin[a] < i,
            forall|a: int| 0 <= a < out.len() ==> #[trigger] out[a] == entries[origin[a]],
            forall|a: int, b: int| 0 <= a < b < out.len() ==> #[trigger] origin[a] < #[trigger] origin[b],
            forall|a: int| 0 <= a < out.len() ==> (#[trigger] out[a]).1 * scale > bound,
            forall|k: int|
                0 <= k < i && (#[trigger] entries[k]).1 * scale > bound ==> out@.contains(entries[k]),
        decreases entries.len() - i,
    {
        let x = entries[i];
        assert(x.1 * scale <= 0xffff_ffff * 0xffff_ffff) by (nonlinear_arith)
            requires
                0 <= x.1 <= 0xffff_ffff,
                0 <= scale <= 0xffff_ffff,
        ;
        if (x.1 as u64) * (scale as u64) > bound {
            let ghost before = out@;
            out.push(x);
            proof {
                origin = origin.push(i as int);
                assert forall|k: int|
                    0 <= k < i + 1 && (#[trigger] entries[k]).1 * scale > bound implies out@.contains(
                    entries[k],
                ) by {
                    if k < i {
                        let a = choose|a: int| 0 <= a < before.len() && before[a] == entries[k];
                        assert(out[a] == entries[k]);
                    } else {
                        assert(out[out.len() - 1] == entries[k]);
                    }
                }
            }
        }
        i += 1;
    }
    proof {
        let m = entries_of(entries@);
        let kept = exceeding(m, scale as int, bound as int);
        lemma_entries_of(entries@);
        assert(distinct_pids(out@)) by {
            assert forall|a: int, b: int| 0 <= a < b < out.len() implies (#[trigger] out[a]).0 != (
            #[trigger] out[b]).0 by {
                assert(origin[a] < origin[b]);
                assert(entries[origin[a]].0 != entries[origin[b]].0);
            }
        }
        lemma_entries_of(out@);
        assert forall|pid: Pid| entries_of(out@).dom().contains(pid) implies kept.dom().contains(
            pid,
        ) && kept[pid] == entries_of(out@)[pid] by {
            let a = choose|a: int| 0 <= a < out.len() && out[a] == (pid, entries_of(out@)[pid]);
            assert(out[a] == entries[origin[a]]);
            assert(m.contains_pair(entries[origin[a]].0, entries[origin[a]].1));
        }
        assert forall|pid: Pid| kept.dom().contains(pid) implies entries_of(out@).dom().contains(
            pid,
        ) by {
            let k = choose|k: int| 0 <= k < entries.len() && entries[k] == (pid, m[pid]);
            assert(out@.contains(entries[k]));
            let a = choose|a: int| 0 <= a < out.len() && out[a] == entries[k];
            assert(out[a].0 == pid);
        }
        assert(entries_of(out@) =~= kept);
    }
    out
}

/// The largest delta among `entries`, or zero where there is none.
pub(crate) fn peak_of(entries: &Vec<Entry>) -> (v: u32)
    requires
        distinct_pids(entries@),
    ensures
        v == peak(entries_of(entries@)),
{
    let mut best: u32 = 0;
    let mut i: usize = 0;
    while i < entries.len()
        invariant
            i <= entries.len(),
            forall|k: int| 0 <= k < i ==> (#[trigger] entries[k]).1 <= best,
            best == 0 || exists|k: int| 0 <= k < i && (#[trigger] entries[k]).1 == best,
        decreases entries.len() - i,
    {
        if entries[i].1 > best {
            best = entries[i].1;
        }
        i += 1;
    }
    proof {
        let m = entries_of(entries@);
        lemma_entries_of(entries@);
        assert forall|pid: Pid| #[trigger] m.dom().contains(pid) implies m[pid] <= best by {
            let k = choose|k: int| 0 <= k < entries.len() && entries[k] == (pid, m[pid]);
            assert(entries[k].1 <= best);
        }
        if best != 0 {
            let k = choose|k: int| 0 <= k < i && (#[trigger] entries[k]).1 == best;
            assert(m.contains_pair(entries[k].0, entries[k].1));
            assert(m.dom().contains(entries[k].0));
        }
        lemma_peak_is(m, best);
    }
    best
}

} // verus!
