//! Burst clustering: logical groups with a known capture time are
//! sorted and walked once; a new stack starts exactly when the gap
//! between a group and its immediate predecessor exceeds the burst
//! gap. This is a consecutive-pair rule, not a distance-from-start
//! rule: a slow drift of many small gaps stays in one stack even when
//! the total span exceeds the threshold. Groups without a capture
//! time each get a solo stack after all timed ones.

use vstd::prelude::*;
use crate::pairs::LogicalGroup;
use vstd::multiset::Multiset;
use vstd::seq_lib::{lemma_multiset_commutative, to_multiset_build, to_multiset_remove};

verus! {

/// Does the group carry a capture time?
pub open spec fn has_time(g: LogicalGroup) -> bool {
    g.spec_representative().capture_time is Some
}

/// The capture time of a timed group.
pub open spec fn time_of(g: LogicalGroup) -> int {
    g.spec_representative().capture_time->Some_0 as int
}

/// The group has at least one member, so its representative exists.
pub open spec fn member_ok(g: LogicalGroup) -> bool {
    g.jpeg is Some || g.raw is Some
}

pub open spec fn timed_pred() -> spec_fn(LogicalGroup) -> bool {
    |g: LogicalGroup| has_time(g)
}

pub open spec fn untimed_pred() -> spec_fn(LogicalGroup) -> bool {
    |g: LogicalGroup| !has_time(g)
}

/// How many of the groups carry a capture time.
pub open spec fn timed_count(gs: Seq<LogicalGroup>) -> int {
    gs.filter(timed_pred()).len() as int
}

/// The groups of an assignment, without their stack indices.
pub open spec fn assigned_groups(r: Seq<(LogicalGroup, usize)>) -> Seq<LogicalGroup> {
    r.map_values(|p: (LogicalGroup, usize)| p.0)
}

/// Does the step from `prev` to `cur` open a new stack at this gap?
pub open spec fn gap_exceeds(prev: LogicalGroup, cur: LogicalGroup, gap: u64) -> bool {
    time_of(cur) - time_of(prev) > gap as int
}

/// The capture time of a timed group, as a value.
fn time_val(g: &LogicalGroup) -> (t: i64)
    requires
        member_ok(*g),
        has_time(*g),
    ensures
        t as int == time_of(*g),
{
    match g.capture_time() {
        Some(t) => t,
        None => vstd::pervasive::unreached(),
    }
}

/// Sort timed groups ascending by capture time (selection sort).
fn sort_by_time(v: Vec<LogicalGroup>) -> (r: Vec<LogicalGroup>)
    requires
        forall|i: int| 0 <= i < v@.len() ==> member_ok(#[trigger] v@[i]) && has_time(v@[i]),
    ensures
        r@.len() == v@.len(),
        r@.to_multiset() == v@.to_multiset(),
        forall|i: int| 0 <= i < r@.len() ==> member_ok(#[trigger] r@[i]) && has_time(r@[i]),
        forall|a: int, b: int| 0 <= a < b < r@.len() ==> time_of(#[trigger] r@[a]) <= time_of(
            #[trigger] r@[b],
        ),
{
    broadcast use vstd::seq_lib::group_to_multiset_ensures;
    broadcast use vstd::multiset::lemma_multiset_empty_len;
    broadcast use vstd::multiset::group_multiset_axioms;

    let mut work = v;
    let mut out: Vec<LogicalGroup> = Vec::new();
    let ghost whole = work@;
    proof {
        assert(out@.to_multiset().len() == 0);
        assert(out@.to_multiset() =~= Multiset::<LogicalGroup>::empty());
        assert(out@.to_multiset().add(work@.to_multiset()) =~= work@.to_multiset());
    }
    while work.len() > 0
        invariant
            out@.len() + work@.len() == whole.len(),
            out@.to_multiset().add(work@.to_multiset()) == whole.to_multiset(),
            forall|i: int| 0 <= i < work@.len() ==> member_ok(#[trigger] work@[i]) && has_time(
                work@[i],
            ),
            forall|i: int| 0 <= i < out@.len() ==> member_ok(#[trigger] out@[i]) && has_time(
                out@[i],
            ),
            forall|a: int, b: int| 0 <= a < b < out@.len() ==> time_of(#[trigger] out@[a])
                <= time_of(#[trigger] out@[b]),
            forall|a: int, b: int|
                0 <= a < out@.len() && 0 <= b < work@.len() ==> time_of(#[trigger] out@[a])
                    <= time_of(#[trigger] work@[b]),
        decreases work@.len(),
    {
        let mut bi: usize = 0;
        let mut j: usize = 1;
        while j < work.len()
            invariant
                bi < j <= work@.len() || (j <= work@.len() && bi == 0),
                bi < work@.len(),
                work@.len() > 0,
                forall|i: int| 0 <= i < work@.len() ==> member_ok(#[trigger] work@[i]) && has_time(
                    work@[i],
                ),
                forall|k: int| 0 <= k < j ==> time_of(work@[bi as int]) <= time_of(
                    #[trigger] work@[k],
                ),
            decreases work@.len() - j,
        {
            if time_val(&work[j]) < time_val(&work[bi]) {
                bi = j;
            }
            j = j + 1;
        }
        let ghost work0 = work@;
        let ghost out0 = out@;
        let g = work.remove(bi);
        proof {
            to_multiset_remove(work0, bi as int);
            assert(g == work0[bi as int]);
            assert forall|b: int| 0 <= b < work@.len() implies time_of(g) <= time_of(
                #[trigger] work@[b],
            ) && member_ok(work@[b]) && has_time(work@[b]) by {
                if b < bi {
                    assert(work@[b] == work0[b]);
                } else {
                    assert(work@[b] == work0[b + 1]);
                }
            }
            to_multiset_build(out0, g);
            work0.to_multiset_ensures();
            assert(work0.contains(g));
            assert(work0.to_multiset().count(g) > 0);
            assert(out0.push(g).to_multiset().add(work@.to_multiset()) =~= out0.to_multiset().add(
                work0.to_multiset(),
            ));
        }
        out.push(g);
    }
    proof {
        assert(work@.to_multiset().len() == 0);
        assert(work@.to_multiset() =~= Multiset::<LogicalGroup>::empty());
        assert(out@.to_multiset().add(work@.to_multiset()) =~= out@.to_multiset());
    }
    out
}

/// Assign logical groups to stacks by burst detection. Timed groups
/// are sorted ascending; a group within `burst_gap_secs` of its
/// predecessor joins the predecessor's stack, a larger gap starts the
/// next one. Untimed groups follow, one fresh stack each.
pub fn assign_stacks_clean(groups: Vec<LogicalGroup>, burst_gap_secs: u64) -> (r: Vec<
    (LogicalGroup, usize),
>)
    requires
        forall|i: int| 0 <= i < groups@.len() ==> member_ok(#[trigger] groups@[i]),
    ensures
        r@.len() == groups@.len(),
        assigned_groups(r@).to_multiset() == groups@.to_multiset(),
        forall|i: int| 0 <= i < timed_count(groups@) ==> has_time((#[trigger] r@[i]).0),
        forall|i: int| timed_count(groups@) <= i < r@.len() ==> !has_time((#[trigger] r@[i]).0),
        forall|i: int|
            1 <= i < timed_count(groups@) ==> time_of((r@[i - 1]).0) <= time_of((#[trigger] r@[i]).0),
        timed_count(groups@) > 0 ==> (r@[0]).1 == 0,
        forall|i: int|
            1 <= i < timed_count(groups@) ==> (#[trigger] r@[i]).1 as int == (r@[i - 1]).1 + (
            if gap_exceeds((r@[i - 1]).0, (r@[i]).0, burst_gap_secs) {
                1int
            } else {
                0int
            }),
        r@.len() > timed_count(groups@) ==> (r@[timed_count(groups@)]).1 as int == (
        if timed_count(groups@) == 0 {
            1int
        } else {
            (r@[timed_count(groups@) - 1]).1 + 1
        }),
        forall|i: int|
            timed_count(groups@) < i < r@.len() ==> (#[trigger] r@[i]).1 as int == (r@[i - 1]).1
                + 1,
        forall|i: int| 0 <= i < r@.len() ==> (#[trigger] r@[i]).1 as int <= i + 1,
{
    broadcast use vstd::seq::Seq::lemma_filter_push;
    broadcast use vstd::seq_lib::group_to_multiset_ensures;
    broadcast use vstd::multiset::lemma_multiset_empty_len;
    broadcast use vstd::multiset::group_multiset_axioms;

    let n = groups.len();
    let mut with_time: Vec<LogicalGroup> = Vec::new();
    let mut without_time: Vec<LogicalGroup> = Vec::new();
    let mut i: usize = 0;
    proof {
        reveal(Seq::filter);
        assert(groups@.take(0).filter(timed_pred()) =~= Seq::<LogicalGroup>::empty());
        assert(groups@.take(0).filter(untimed_pred()) =~= Seq::<LogicalGroup>::empty());
        assert(with_time@.to_multiset().len() == 0);
        assert(without_time@.to_multiset().len() == 0);
        assert(with_time@.to_multiset() =~= Multiset::<LogicalGroup>::empty());
        assert(without_time@.to_multiset() =~= Multiset::<LogicalGroup>::empty());
        assert(groups@.take(0).to_multiset().len() == 0);
        assert(with_time@.to_multiset().add(without_time@.to_multiset()) =~= groups@.take(
            0,
        ).to_multiset());
    }
    while i < n
        invariant
            i <= n == groups@.len(),
            forall|k: int| 0 <= k < groups@.len() ==> member_ok(#[trigger] groups@[k]),
            with_time@ == groups@.take(i as int).filter(timed_pred()),
            without_time@ == groups@.take(i as int).filter(untimed_pred()),
            with_time@.len() + without_time@.len() == i,
            forall|k: int| 0 <= k < with_time@.len() ==> member_ok(#[trigger] with_time@[k])
                && has_time(with_time@[k]),
            forall|k: int| 0 <= k < without_time@.len() ==> member_ok(
                #[trigger] without_time@[k],
            ) && !has_time(without_time@[k]),
            with_time@.to_multiset().add(without_time@.to_multiset()) == groups@.take(
                i as int,
            ).to_multiset(),
        decreases n - i,
    {
        let ghost prefix = groups@.take(i as int);
        let ghost w0 = with_time@;
        let ghost u0 = without_time@;
        let g = groups[i].duplicate();
        proof {
            assert(groups@.take(i + 1 as int) =~= prefix.push(groups@[i as int]));
            to_multiset_build(prefix, groups@[i as int]);
            prefix.lemma_filter_push(groups@[i as int], timed_pred());
            prefix.lemma_filter_push(groups@[i as int], untimed_pred());
            assert(groups@.take(i + 1 as int).filter(timed_pred()) == prefix.push(
                groups@[i as int],
            ).filter(timed_pred()));
            assert(groups@.take(i + 1 as int).filter(untimed_pred()) == prefix.push(
                groups@[i as int],
            ).filter(untimed_pred()));
        }
        if g.jpeg.is_some() || g.raw.is_some() {
            if time_val_opt(&g).is_some() {
                with_time.push(g);
                proof {
                    assert(timed_pred()(groups@[i as int]));
                    assert(!untimed_pred()(groups@[i as int]));
                    assert(with_time@ == w0.push(groups@[i as int]));
                    assert(with_time@ == groups@.take(i + 1 as int).filter(timed_pred()));
                    assert(without_time@ == groups@.take(i + 1 as int).filter(untimed_pred()));
                    to_multiset_build(w0, groups@[i as int]);
                    assert(with_time@.to_multiset().add(without_time@.to_multiset())
                        =~= groups@.take(i + 1 as int).to_multiset());
                }
            } else {
                without_time.push(g);
                proof {
                    assert(!timed_pred()(groups@[i as int]));
                    assert(untimed_pred()(groups@[i as int]));
                    assert(without_time@ == u0.push(groups@[i as int]));
                    assert(without_time@ == groups@.take(i + 1 as int).filter(untimed_pred()));
                    assert(with_time@ == groups@.take(i + 1 as int).filter(timed_pred()));
                    to_multiset_build(u0, groups@[i as int]);
                    assert(with_time@.to_multiset().add(without_time@.to_multiset())
                        =~= groups@.take(i + 1 as int).to_multiset());
                }
            }
        } else {
            proof {
                assert(member_ok(groups@[i as int]));
                assert(false);
            }
        }
        i = i + 1;
    }
    proof {
        assert(groups@.take(n as int) =~= groups@);
    }
    let ghost nt = timed_count(groups@);
    proof {
        groups@.lemma_filter_len(timed_pred());
    }
    let sorted = sort_by_time(with_time);
    let ghost ns = sorted@.len();
    proof {
        assert(ns == nt);
    }

    let mut r: Vec<(LogicalGroup, usize)> = Vec::new();
    let mut idx: usize = 0;
    let mut k: usize = 0;
    while k < sorted.len()
        invariant
            k <= sorted@.len() == nt,
            r@.len() == k,
            forall|q: int| 0 <= q < k ==> (#[trigger] r@[q]).0 == sorted@[q],
            forall|i2: int| 0 <= i2 < sorted@.len() ==> member_ok(#[trigger] sorted@[i2])
                && has_time(sorted@[i2]),
            forall|a: int, b: int| 0 <= a < b < sorted@.len() ==> time_of(#[trigger] sorted@[a])
                <= time_of(#[trigger] sorted@[b]),
            k > 0 ==> (r@[k - 1]).1 == idx,
            k == 0 ==> idx == 0,
            k > 0 ==> (r@[0]).1 == 0,
            forall|q: int|
                1 <= q < k ==> (#[trigger] r@[q]).1 as int == (r@[q - 1]).1 + (if gap_exceeds(
                    (r@[q - 1]).0,
                    (r@[q]).0,
                    burst_gap_secs,
                ) {
                    1int
                } else {
                    0int
                }),
            forall|q: int| 0 <= q < k ==> (#[trigger] r@[q]).1 as int <= q,
        decreases sorted@.len() - k,
    {
        if k > 0 {
            let prev = time_val(&sorted[k - 1]);
            let cur = time_val(&sorted[k]);
            let diff: i128 = (cur as i128) - (prev as i128);
            if diff > (burst_gap_secs as i128) {
                idx = idx + 1;
            }
        }
        r.push((sorted[k].duplicate(), idx));
        k = k + 1;
    }

    let ghost r_timed = r@;
    let mut m: usize = 0;
    while m < without_time.len()
        invariant
            m <= without_time@.len(),
            nt == r_timed.len(),
            nt + without_time@.len() == groups@.len(),
            n == groups@.len(),
            r@.len() == nt + m,
            r@.take(nt as int) == r_timed,
            forall|q: int| 0 <= q < nt ==> (#[trigger] r@[q]) == r_timed[q],
            forall|q: int| nt <= q < r@.len() ==> (#[trigger] r@[q]).0 == without_time@[q - nt],
            forall|i2: int| 0 <= i2 < without_time@.len() ==> !has_time(
                #[trigger] without_time@[i2],
            ),
            m == 0 ==> ((nt > 0 ==> idx == (r_timed[nt - 1]).1) && (nt == 0 ==> idx == 0)),
            m > 0 ==> idx == (r@[r@.len() - 1]).1,
            r@.len() > nt ==> (r@[nt as int]).1 as int == (if nt == 0 {
                1int
            } else {
                (r_timed[nt - 1]).1 + 1
            }),
            forall|q: int| nt < q < r@.len() ==> (#[trigger] r@[q]).1 as int == (r@[q - 1]).1 + 1,
            forall|q: int| 0 <= q < r@.len() ==> (#[trigger] r@[q]).1 as int <= q + 1,
            idx <= r@.len(),
        decreases without_time@.len() - m,
    {
        proof {
            assert(idx <= r@.len());
            assert(r@.len() == nt + m);
            assert(m < without_time@.len());
            assert(nt + without_time@.len() == groups@.len());
            assert(r@.len() < groups@.len());
            assert(n == groups@.len());
            assert(idx < n);
        }
        idx = idx + 1;
        r.push((without_time[m].duplicate(), idx));
        proof {
            assert(r@.take(nt as int) =~= r_timed);
        }
        m = m + 1;
    }

    proof {
        assert(assigned_groups(r@) =~= sorted@ + without_time@);
        lemma_multiset_commutative(sorted@, without_time@);
        assert(groups@.filter(timed_pred()) == with_time@);
        assert(assigned_groups(r@).to_multiset() =~= groups@.to_multiset());
        assert forall|i2: int| 0 <= i2 < nt implies has_time((#[trigger] r@[i2]).0) by {
            assert(r@[i2] == r_timed[i2]);
            assert(r_timed[i2].0 == sorted@[i2]);
        }
    }
    r
}

/// The capture time of a group, when its representative has one.
fn time_val_opt(g: &LogicalGroup) -> (t: Option<i64>)
    requires
        member_ok(*g),
    ensures
        t == g.spec_representative().capture_time,
        t is Some <==> has_time(*g),
{
    g.capture_time()
}

/// Law (consecutive-gap rule): when no consecutive pair of timed
/// groups is further apart than the burst gap, every timed group
/// lands in stack zero, however large the total span grows.
pub proof fn lemma_single_stack_when_gaps_small(
    r: Seq<(LogicalGroup, usize)>,
    gap: u64,
    nt: int,
)
    requires
        0 <= nt <= r.len(),
        nt > 0 ==> (r[0]).1 == 0,
        forall|i: int|
            1 <= i < nt ==> (#[trigger] r[i]).1 as int == (r[i - 1]).1 + (if gap_exceeds(
                (r[i - 1]).0,
                (r[i]).0,
                gap,
            ) {
                1int
            } else {
                0int
            }),
        forall|i: int| 1 <= i < nt ==> !gap_exceeds((r[i - 1]).0, (#[trigger] r[i]).0, gap),
    ensures
        forall|i: int| 0 <= i < nt ==> (#[trigger] r[i]).1 == 0,
    decreases nt,
{
    if nt > 1 {
        lemma_single_stack_when_gaps_small(r, gap, nt - 1);
        assert((r[nt - 1]).1 as int == (r[nt - 2]).1 + 0);
    }
}

/// Stack indices never decrease along the timed prefix.
pub proof fn lemma_indices_monotone(r: Seq<(LogicalGroup, usize)>, gap: u64, nt: int, i: int, j: int)
    requires
        0 <= nt <= r.len(),
        forall|q: int|
            1 <= q < nt ==> (#[trigger] r[q]).1 as int == (r[q - 1]).1 + (if gap_exceeds(
                (r[q - 1]).0,
                (r[q]).0,
                gap,
            ) {
                1int
            } else {
                0int
            }),
        0 <= i <= j < nt,
    ensures
        (r[i]).1 <= (r[j]).1,
    decreases j - i,
{
    if i < j {
        lemma_indices_monotone(r, gap, nt, i, j - 1);
    }
}

/// Law (zero gap): with a burst gap of zero, two timed groups whose
/// capture times differ never share a stack.
pub proof fn lemma_zero_gap_distinct_stacks(
    r: Seq<(LogicalGroup, usize)>,
    nt: int,
    i: int,
    j: int,
)
    requires
        0 <= nt <= r.len(),
        forall|q: int|
            1 <= q < nt ==> (#[trigger] r[q]).1 as int == (r[q - 1]).1 + (if gap_exceeds(
                (r[q - 1]).0,
                (r[q]).0,
                0u64,
            ) {
                1int
            } else {
                0int
            }),
        forall|q: int| 1 <= q < nt ==> time_of((r[q - 1]).0) <= time_of((#[trigger] r[q]).0),
        0 <= i < j < nt,
        time_of((r[i]).0) != time_of((r[j]).0),
    ensures
        (r[i]).1 != (r[j]).1,
    decreases j - i,
{
    if time_of((r[j - 1]).0) < time_of((r[j]).0) {
        assert(gap_exceeds((r[j - 1]).0, (r[j]).0, 0u64));
        assert((r[j]).1 as int == (r[j - 1]).1 + 1);
        lemma_indices_monotone(r, 0u64, nt, i, j - 1);
    } else {
        assert(time_of((r[j - 1]).0) == time_of((r[j]).0));
        lemma_indices_monotone(r, 0u64, nt, i, j - 1);
        if i < j - 1 {
            lemma_zero_gap_distinct_stacks(r, nt, i, j - 1);
            lemma_indices_monotone(r, 0u64, nt, j - 1, j);
            assert((r[i]).1 <= (r[j - 1]).1);
            assert((r[i]).1 != (r[j - 1]).1);
        }
    }
}

} // verus!
