//! Putting measurements in the order of their timestamps.

use crate::measurement::Measurement;
use vstd::prelude::*;
use vstd::seq_lib::to_multiset_insert;

verus! {

/// No measurement is followed by an earlier one.
pub open spec fn is_in_time_order<M: Measurement>(ms: Seq<M>) -> bool {
    forall|i: int, j: int|
        0 <= i < j < ms.len() ==> (#[trigger] ms[i]).taken_at()@.is_not_later_than(
            (#[trigger] ms[j]).taken_at()@,
        )
}

/// Whether a measurement was taken at the given moment: at the second and
/// the nanosecond.
pub open spec fn taken_then<M: Measurement>(moment: (int, int)) -> spec_fn(M) -> bool {
    |m: M| m.taken_at()@.utc_seconds() == moment.0 && m.taken_at()@.nanosecond == moment.1
}

/// The measurements of `out` that were taken at one moment stand in the
/// order in which they stand in `ms`, whatever the moment.
pub open spec fn keeps_order_of_equals<M: Measurement>(out: Seq<M>, ms: Seq<M>) -> bool {
    forall|moment: (int, int)|
        out.filter(#[trigger] taken_then::<M>(moment)) == ms.filter(taken_then::<M>(moment))
}

/// `out` holds the measurements of `ms` in the order of their timestamps,
/// those of one moment in the order in which they stand in `ms`.
pub open spec fn is_sorted_by_time<M: Measurement>(out: Seq<M>, ms: Seq<M>) -> bool {
    &&& is_in_time_order(out)
    &&& out.to_multiset() == ms.to_multiset()
    &&& keeps_order_of_equals(out, ms)
}

/// Nothing of a sequence was taken at the moment.
proof fn lemma_none_taken_then<M: Measurement>(s: Seq<M>, moment: (int, int))
    requires
        forall|i: int| 0 <= i < s.len() ==> !taken_then::<M>(moment)(#[trigger] s[i]),
    ensures
        s.filter(taken_then::<M>(moment)) == Seq::<M>::empty(),
{
    let pred = taken_then::<M>(moment);
    assert(s.all(|x: M| !pred(x))) by {
        assert forall|i: int| 0 <= i < s.len() implies (|x: M| !pred(x))(#[trigger] s[i]) by {}
    }
    s.lemma_all_neg_filter_empty(pred);
    assert(s.filter(pred) =~= Seq::<M>::empty());
}

/// The measurements in the order of their timestamps, the earliest first.
/// Measurements of one moment keep their order.
pub fn sorted_by_time<M: Measurement>(ms: &Vec<M>) -> (out: Vec<M>)
    ensures
        is_sorted_by_time(out@, ms@),
        out.len() == ms.len(),
{
    let mut out: Vec<M> = Vec::new();
    let mut i: usize = 0;
    proof {
        assert(ms@.take(0) =~= out@);
    }
    while i < ms.len()
        invariant
            i <= ms.len(),
            out.len() == i,
            is_sorted_by_time(out@, ms@.take(i as int)),
        decreases ms.len() - i,
    {
        let x = ms[i];
        let time = x.timestamp();
        let mut j: usize = 0;
        while j < out.len() && out[j].timestamp().is_not_later_than(&time)
            invariant
                j <= out.len(),
                time == x.taken_at(),
                forall|t: int|
                    0 <= t < j ==> (#[trigger] out@[t]).taken_at()@.is_not_later_than(time@),
            decreases out.len() - j,
        {
            j = j + 1;
        }
        let ghost before = out@;
        let ghost taken = ms@.take(i as int);
        out.insert(j, x);
        proof {
            let after = out@;
            let longer = ms@.take(i as int + 1);
            assert(longer =~= taken.push(x));
            to_multiset_insert(before, j as int, x);
            vstd::seq_lib::to_multiset_build(taken, x);
            // the order
            assert forall|a: int, b: int| 0 <= a < b < after.len() implies (
            #[trigger] after[a]).taken_at()@.is_not_later_than((#[trigger] after[b]).taken_at()@) by {
                if b < j {
                    assert(after[a] == before[a] && after[b] == before[b]);
                } else if b == j {
                    assert(after[a] == before[a]);
                } else if a == j {
                    assert(after[b] == before[b - 1]);
                    assert(!before[j as int].taken_at()@.is_not_later_than(time@));
                    if (j as int) < b - 1 {
                        assert(before[j as int].taken_at()@.is_not_later_than(
                            before[b - 1].taken_at()@,
                        ));
                    }
                } else if a < j {
                    assert(after[a] == before[a] && after[b] == before[b - 1]);
                } else {
                    assert(after[a] == before[a - 1] && after[b] == before[b - 1]);
                }
            }
            // the measurements of each moment
            assert forall|moment: (int, int)|
                after.filter(#[trigger] taken_then::<M>(moment)) == longer.filter(
                    taken_then::<M>(moment),
                ) by {
                let pred = taken_then::<M>(moment);
                let front = before.take(j as int);
                let back = before.skip(j as int);
                assert(before =~= front + back);
                assert(after =~= front + seq![x] + back);
                Seq::filter_distributes_over_add(front, back, pred);
                Seq::filter_distributes_over_add(front, seq![x], pred);
                Seq::filter_distributes_over_add(front + seq![x], back, pred);
                taken.lemma_filter_push(x, pred);
                assert(before.filter(pred) == taken.filter(pred));
                Seq::<M>::empty().lemma_filter_push(x, pred);
                assert(Seq::<M>::empty().push(x) =~= seq![x]);
                assert(Seq::<M>::empty().filter(pred) =~= Seq::<M>::empty()) by {
                    reveal(Seq::filter);
                }
                if pred(x) {
                    // what stands behind `x` was taken later
                    assert forall|t: int| 0 <= t < back.len() implies !pred(#[trigger] back[t]) by {
                        assert(back[t] == before[j + t]);
                        assert(!before[j as int].taken_at()@.is_not_later_than(time@));
                        if t > 0 {
                            assert(before[j as int].taken_at()@.is_not_later_than(
                                before[j + t].taken_at()@,
                            ));
                        }
                    }
                    lemma_none_taken_then(back, moment);
                    assert(seq![x].filter(pred) =~= seq![x]);
                    assert(after.filter(pred) =~= front.filter(pred) + seq![x]);
                    assert(before.filter(pred) =~= front.filter(pred));
                    assert(taken.filter(pred).push(x) =~= front.filter(pred) + seq![x]);
                } else {
                    assert(seq![x].filter(pred) =~= Seq::<M>::empty());
                    assert(after.filter(pred) =~= front.filter(pred) + back.filter(pred));
                }
            }
        }
        i = i + 1;
    }
    proof {
        assert(ms@.take(i as int) =~= ms@);
    }
    out
}

/// The measurements in the opposite order.
pub fn reversed<M: Measurement>(ms: &Vec<M>) -> (out: Vec<M>)
    ensures
        out@ == ms@.reverse(),
{
    let mut out: Vec<M> = Vec::new();
    let mut i: usize = ms.len();
    while i > 0
        invariant
            i <= ms.len(),
            out.len() == ms.len() - i,
            forall|t: int| 0 <= t < out.len() ==> out@[t] == ms@[ms.len() - 1 - t],
        decreases i,
    {
        i = i - 1;
        out.push(ms[i]);
    }
    proof {
        assert(out@ =~= ms@.reverse());
    }
    out
}

/// The measurements in the order of their timestamps, the latest first:
/// the opposite of the order that `sorted_by_time` gives.
pub fn sorted_latest_first<M: Measurement>(ms: &Vec<M>) -> (out: Vec<M>)
    ensures
        is_sorted_by_time(out@.reverse(), ms@),
        out.len() == ms.len(),
{
    let ascending = sorted_by_time(ms);
    let out = reversed(&ascending);
    proof {
        assert(out@.reverse() =~= ascending@);
    }
    out
}

} // verus!
