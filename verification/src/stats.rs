//! Reductions of a column of exact values: the greater and the lesser of
//! two, the mean, and the value at a rank of the ascending order.

use crate::fraction::{lemma_at_most_is_transitive, Fraction};
use crate::rational::{div_spec, result_view, stored, ArithmeticError, Rational};
use vstd::prelude::*;
use vstd::seq_lib::{to_multiset_build, to_multiset_insert};

verus! {

/// The fractions that a sequence of exact values stands for.
pub open spec fn views(s: Seq<Rational>) -> Seq<Fraction> {
    s.map_values(|r: Rational| r@)
}

/// The values that are present, in their order.
pub open spec fn present<T>(s: Seq<Option<T>>) -> Seq<T>
    decreases s.len(),
{
    if s.len() == 0 {
        Seq::empty()
    } else {
        match s.last() {
            Some(v) => present(s.drop_last()).push(v),
            None => present(s.drop_last()),
        }
    }
}

/// Every denominator is positive.
pub open spec fn all_positive(values: Seq<Fraction>) -> bool {
    forall|i: int| 0 <= i < values.len() ==> (#[trigger] values[i]).den > 0
}

/// `best` occurs among `values` and none of them is greater.
pub open spec fn is_greatest(best: Fraction, values: Seq<Fraction>) -> bool {
    &&& values.contains(best)
    &&& forall|i: int| 0 <= i < values.len() ==> (#[trigger] values[i]).at_most(best)
}

/// `best` occurs among `values` and none of them is less.
pub open spec fn is_least(best: Fraction, values: Seq<Fraction>) -> bool {
    &&& values.contains(best)
    &&& forall|i: int| 0 <= i < values.len() ==> best.at_most(#[trigger] values[i])
}

/// `best` is the greatest of `values`, or nothing if there are none.
pub open spec fn is_greatest_if_any(best: Option<Fraction>, values: Seq<Fraction>) -> bool {
    match best {
        None => values.len() == 0,
        Some(b) => is_greatest(b, values),
    }
}

/// `best` is the least of `values`, or nothing if there are none.
pub open spec fn is_least_if_any(best: Option<Fraction>, values: Seq<Fraction>) -> bool {
    match best {
        None => values.len() == 0,
        Some(b) => is_least(b, values),
    }
}

/// The view of a value that may be absent.
pub open spec fn option_view(r: Option<Rational>) -> Option<Fraction> {
    match r {
        None => None,
        Some(v) => Some(v@),
    }
}

/// The greater of two fractions; the first if they have the same value.
pub open spec fn greater(a: Fraction, b: Fraction) -> Fraction {
    if a.less_than(b) {
        b
    } else {
        a
    }
}

/// The lesser of two fractions; the first if they have the same value.
pub open spec fn lesser(a: Fraction, b: Fraction) -> Fraction {
    if b.less_than(a) {
        b
    } else {
        a
    }
}

/// The greater of two values of which either may be absent: an absent value
/// takes no part.
pub open spec fn greater_present(a: Option<Fraction>, b: Option<Fraction>) -> Option<Fraction> {
    match (a, b) {
        (Some(x), Some(y)) => Some(greater(x, y)),
        (Some(x), None) => Some(x),
        (None, _) => b,
    }
}

/// The lesser of two values of which either may be absent: an absent value
/// takes no part.
pub open spec fn lesser_present(a: Option<Fraction>, b: Option<Fraction>) -> Option<Fraction> {
    match (a, b) {
        (Some(x), Some(y)) => Some(lesser(x, y)),
        (Some(x), None) => Some(x),
        (None, _) => b,
    }
}

/// The sum of the values from left to right, each step an addition of
/// exact values: an overflow where one of them overflows.
pub open spec fn checked_sum(values: Seq<Fraction>) -> Result<Fraction, ArithmeticError>
    decreases values.len(),
{
    if values.len() == 0 {
        Ok(Fraction::of_int(0))
    } else {
        match checked_sum(values.drop_last()) {
            Ok(s) => stored(s.plus(values.last())),
            Err(e) => Err(e),
        }
    }
}

/// The mean of the values: their sum divided by their number, in the
/// arithmetic of exact values. Of no values it is a division by zero.
pub open spec fn mean_of(values: Seq<Fraction>) -> Result<Fraction, ArithmeticError> {
    match checked_sum(values) {
        Err(e) => Err(e),
        Ok(s) => if values.len() > i32::MAX {
            Err(ArithmeticError::Overflow)
        } else {
            div_spec(s, Fraction::of_int(values.len() as int))
        },
    }
}

/// The rank that a quantile selects among `count` values in ascending
/// order, counted from zero.
pub open spec fn rank_of(count: nat, numerator: nat, denominator: nat) -> int {
    ((count - 1) * numerator) / (denominator as int)
}

/// No value is followed by a lesser one.
pub open spec fn is_ascending(s: Seq<Fraction>) -> bool {
    forall|i: int, j: int| 0 <= i < j < s.len() ==> (#[trigger] s[i]).at_most(#[trigger] s[j])
}

/// `s` holds the values of `values`, each as often as it occurs there, in
/// ascending order.
pub open spec fn is_ascending_arrangement(s: Seq<Fraction>, values: Seq<Fraction>) -> bool {
    is_ascending(s) && s.to_multiset() == values.to_multiset()
}

/// `r` stands at rank `k` when `values` are put in ascending order.
pub open spec fn is_at_rank(r: Fraction, values: Seq<Fraction>, k: int) -> bool {
    exists|s: Seq<Fraction>| #[trigger]
        is_ascending_arrangement(s, values) && 0 <= k < s.len() && s[k] == r
}

/// The greatest of some values and one more.
pub proof fn lemma_greatest_with(best: Fraction, values: Seq<Fraction>, x: Fraction)
    requires
        is_greatest(best, values),
        all_positive(values),
        x.den > 0,
    ensures
        is_greatest(greater(best, x), values.push(x)),
{
    let longer = values.push(x);
    let g = greater(best, x);
    let at = choose|i: int| 0 <= i < values.len() && values[i] == best;
    assert(values[at].den > 0);
    if best.less_than(x) {
        assert(longer[values.len() as int] == x);
    } else {
        assert(longer[at] == best);
    }
    assert forall|i: int| 0 <= i < longer.len() implies (#[trigger] longer[i]).at_most(g) by {
        if i < values.len() {
            assert(longer[i] == values[i]);
            assert(values[i].at_most(best));
            if best.less_than(x) {
                lemma_at_most_is_transitive(values[i], best, x);
            }
        }
    }
}

/// The least of some values and one more.
pub proof fn lemma_least_with(best: Fraction, values: Seq<Fraction>, x: Fraction)
    requires
        is_least(best, values),
        all_positive(values),
        x.den > 0,
    ensures
        is_least(lesser(best, x), values.push(x)),
{
    let longer = values.push(x);
    let g = lesser(best, x);
    let at = choose|i: int| 0 <= i < values.len() && values[i] == best;
    assert(values[at].den > 0);
    if x.less_than(best) {
        assert(longer[values.len() as int] == x);
    } else {
        assert(longer[at] == best);
    }
    assert forall|i: int| 0 <= i < longer.len() implies g.at_most(#[trigger] longer[i]) by {
        if i < values.len() {
            assert(longer[i] == values[i]);
            assert(best.at_most(values[i]));
            if x.less_than(best) {
                lemma_at_most_is_transitive(x, best, values[i]);
            }
        }
    }
}

/// A single value is the greatest and the least of itself.
pub proof fn lemma_single_is_both(x: Fraction)
    ensures
        is_greatest(x, seq![x]),
        is_least(x, seq![x]),
{
    assert(seq![x][0] == x);
}

/// Every value is in lowest terms.
pub open spec fn all_reduced(values: Seq<Fraction>) -> bool {
    forall|i: int| 0 <= i < values.len() ==> (#[trigger] values[i]).is_reduced()
}

/// Values in lowest terms have but one greatest.
pub proof fn lemma_greatest_is_unique(a: Fraction, b: Fraction, values: Seq<Fraction>)
    requires
        is_greatest(a, values),
        is_greatest(b, values),
        all_reduced(values),
    ensures
        a == b,
{
    let i = choose|i: int| 0 <= i < values.len() && values[i] == a;
    let j = choose|j: int| 0 <= j < values.len() && values[j] == b;
    assert(values[i].at_most(b) && values[j].at_most(a));
    assert(values[i].is_reduced() && values[j].is_reduced());
    crate::fraction::lemma_reduced_is_unique(a, b);
}

/// Values in lowest terms have but one least.
pub proof fn lemma_least_is_unique(a: Fraction, b: Fraction, values: Seq<Fraction>)
    requires
        is_least(a, values),
        is_least(b, values),
        all_reduced(values),
    ensures
        a == b,
{
    let i = choose|i: int| 0 <= i < values.len() && values[i] == a;
    let j = choose|j: int| 0 <= j < values.len() && values[j] == b;
    assert(b.at_most(values[i]) && a.at_most(values[j]));
    assert(values[i].is_reduced() && values[j].is_reduced());
    crate::fraction::lemma_reduced_is_unique(a, b);
}

/// Values in lowest terms have but one ascending order.
pub proof fn lemma_ascending_is_unique(s: Seq<Fraction>, t: Seq<Fraction>)
    requires
        is_ascending(s),
        is_ascending(t),
        s.to_multiset() == t.to_multiset(),
        all_reduced(s),
    ensures
        s == t,
    decreases s.len(),
{
    vstd::seq_lib::to_multiset_len(s);
    vstd::seq_lib::to_multiset_len(t);
    if s.len() > 0 {
        // the first of each occurs in the other, so neither is less
        vstd::seq_lib::to_multiset_contains(s, s[0]);
        vstd::seq_lib::to_multiset_contains(t, s[0]);
        vstd::seq_lib::to_multiset_contains(s, t[0]);
        vstd::seq_lib::to_multiset_contains(t, t[0]);
        assert(s.contains(s[0]));
        assert(t.contains(t[0]));
        let i = choose|i: int| 0 <= i < t.len() && t[i] == s[0];
        let j = choose|j: int| 0 <= j < s.len() && s[j] == t[0];
        assert(s[0].is_reduced() && s[j].is_reduced());
        assert(t[0].at_most(s[0])) by {
            if i > 0 {
                assert(t[0].at_most(t[i]));
            }
        }
        assert(s[0].at_most(t[0])) by {
            if j > 0 {
                assert(s[0].at_most(s[j]));
            }
        }
        crate::fraction::lemma_reduced_is_unique(s[0], t[0]);
        let s1 = s.remove(0);
        let t1 = t.remove(0);
        vstd::seq_lib::to_multiset_remove(s, 0);
        vstd::seq_lib::to_multiset_remove(t, 0);
        assert forall|a: int, b: int| 0 <= a < b < s1.len() implies (#[trigger] s1[a]).at_most(
            #[trigger] s1[b],
        ) by {
            assert(s1[a] == s[a + 1] && s1[b] == s[b + 1]);
        }
        assert forall|a: int, b: int| 0 <= a < b < t1.len() implies (#[trigger] t1[a]).at_most(
            #[trigger] t1[b],
        ) by {
            assert(t1[a] == t[a + 1] && t1[b] == t[b + 1]);
        }
        assert forall|a: int| 0 <= a < s1.len() implies (#[trigger] s1[a]).is_reduced() by {
            assert(s1[a] == s[a + 1]);
        }
        lemma_ascending_is_unique(s1, t1);
        assert(s =~= seq![s[0]] + s1);
        assert(t =~= seq![t[0]] + t1);
    } else {
        assert(s =~= t);
    }
}

/// Among values in lowest terms there is but one at each rank of the
/// ascending order.
pub proof fn lemma_rank_is_unique(a: Fraction, b: Fraction, values: Seq<Fraction>, k: int)
    requires
        is_at_rank(a, values, k),
        is_at_rank(b, values, k),
        all_reduced(values),
    ensures
        a == b,
{
    let s = choose|s: Seq<Fraction>| #[trigger]
        is_ascending_arrangement(s, values) && 0 <= k < s.len() && s[k] == a;
    let t = choose|t: Seq<Fraction>| #[trigger]
        is_ascending_arrangement(t, values) && 0 <= k < t.len() && t[k] == b;
    assert forall|i: int| 0 <= i < s.len() implies (#[trigger] s[i]).is_reduced() by {
        vstd::seq_lib::to_multiset_contains(s, s[i]);
        vstd::seq_lib::to_multiset_contains(values, s[i]);
        assert(s.contains(s[i]));
        let j = choose|j: int| 0 <= j < values.len() && values[j] == s[i];
        assert(values[j].is_reduced());
    }
    lemma_ascending_is_unique(s, t);
}

/// The sum of fractions with nothing reduced and nothing bounded: the
/// cross-multiplied sum from left to right.
pub open spec fn exact_sum(values: Seq<Fraction>) -> Fraction
    decreases values.len(),
{
    if values.len() == 0 {
        Fraction::of_int(0)
    } else {
        exact_sum(values.drop_last()).plus(values.last())
    }
}

/// Fractions of the same value, `a / b` and `c / d`, have sums of the same
/// value with a third fraction `n / m`.
pub proof fn lemma_plus_keeps_value(a: int, b: int, c: int, d: int, n: int, m: int)
    requires
        a * d == c * b,
    ensures
        (a * m + n * b) * (d * m) == (c * m + n * d) * (b * m),
{
    let (am, nb, dm, cm, nd, bm) = (a * m, n * b, d * m, c * m, n * d, b * m);
    assert((am + nb) * dm == am * dm + nb * dm) by (nonlinear_arith);
    assert((cm + nd) * bm == cm * bm + nd * bm) by (nonlinear_arith);
    assert(am * dm == (a * d) * (m * m)) by (nonlinear_arith)
        requires
            am == a * m,
            dm == d * m,
    ;
    assert(cm * bm == (c * b) * (m * m)) by (nonlinear_arith)
        requires
            cm == c * m,
            bm == b * m,
    ;
    assert(nb * dm == nd * bm) by (nonlinear_arith)
        requires
            nb == n * b,
            dm == d * m,
            nd == n * d,
            bm == b * m,
    ;
}

/// Where the sum of exact values has a value, it is the value of the sum
/// of the fractions: reducing loses nothing.
pub proof fn lemma_checked_sum_is_exact(values: Seq<Fraction>)
    requires
        all_positive(values),
        checked_sum(values) is Ok,
    ensures
        checked_sum(values)->Ok_0.same_value(exact_sum(values)),
        checked_sum(values)->Ok_0.den > 0,
        exact_sum(values).den > 0,
    decreases values.len(),
{
    if values.len() > 0 {
        let firsts = values.drop_last();
        let x = values.last();
        assert forall|i: int| 0 <= i < firsts.len() implies (#[trigger] firsts[i]).den > 0 by {
            assert(firsts[i] == values[i]);
        }
        lemma_checked_sum_is_exact(firsts);
        let s = checked_sum(firsts)->Ok_0;
        let e = exact_sum(firsts);
        let raw = s.plus(x);
        assert(x.den > 0);
        crate::fraction::lemma_reduced_is_reduced(raw);
        let r = raw.reduced();
        let full = e.plus(x);
        assert(full.den > 0) by (nonlinear_arith)
            requires
                full.den == e.den * x.den,
                e.den > 0,
                x.den > 0,
        ;
        // r ~ raw and raw ~ full
        lemma_plus_keeps_value(s.num, s.den, e.num, e.den, x.num, x.den);
        assert(r.num * full.den == full.num * r.den) by (nonlinear_arith)
            requires
                r.num * raw.den == raw.num * r.den,
                raw.num * full.den == full.num * raw.den,
                raw.den > 0,
        ;
    }
}

/// Where the mean has a value, that value times the number of values is
/// the value of their sum: the mean is exact.
pub proof fn lemma_mean_is_exact(values: Seq<Fraction>)
    requires
        all_positive(values),
        mean_of(values) is Ok,
    ensures
        ({
            let mean = mean_of(values)->Ok_0;
            let sum = exact_sum(values);
            mean.num * values.len() * sum.den == sum.num * mean.den
        }),
{
    lemma_checked_sum_is_exact(values);
    let s = checked_sum(values)->Ok_0;
    let sum = exact_sum(values);
    let n = values.len() as int;
    let raw = s.over(Fraction::of_int(n));
    assert(n > 0);
    assert(raw.num == s.num * 1 && raw.den == s.den * n);
    assert(raw.den > 0) by (nonlinear_arith)
        requires
            raw.den == s.den * n,
            s.den > 0,
            n > 0,
    ;
    crate::fraction::lemma_reduced_is_reduced(raw);
    let mean = raw.reduced();
    assert(mean.num * n * sum.den == sum.num * mean.den) by (nonlinear_arith)
        requires
            mean.num * raw.den == raw.num * mean.den,
            raw.num == s.num,
            raw.den == s.den * n,
            s.num * sum.den == sum.num * s.den,
            s.den > 0,
    ;
}

/// The greater of two exact values; the first if they are equal.
pub fn greater_of(a: Rational, b: Rational) -> (r: Rational)
    ensures
        r@ == greater(a@, b@),
        r == a || r == b,
{
    if a.lt(&b) {
        b
    } else {
        a
    }
}

/// The lesser of two exact values; the first if they are equal.
pub fn lesser_of(a: Rational, b: Rational) -> (r: Rational)
    ensures
        r@ == lesser(a@, b@),
        r == a || r == b,
{
    if b.lt(&a) {
        b
    } else {
        a
    }
}

/// The greater of two values of which either may be absent.
pub fn greater_of_present(a: Option<Rational>, b: Option<Rational>) -> (r: Option<Rational>)
    ensures
        option_view(r) == greater_present(option_view(a), option_view(b)),
{
    match (a, b) {
        (Some(x), Some(y)) => Some(greater_of(x, y)),
        (Some(x), None) => Some(x),
        (None, _) => b,
    }
}

/// The lesser of two values of which either may be absent.
pub fn lesser_of_present(a: Option<Rational>, b: Option<Rational>) -> (r: Option<Rational>)
    ensures
        option_view(r) == lesser_present(option_view(a), option_view(b)),
{
    match (a, b) {
        (Some(x), Some(y)) => Some(lesser_of(x, y)),
        (Some(x), None) => Some(x),
        (None, _) => b,
    }
}

/// The mean of a column of exact values.
///
/// The values are added from left to right and the sum is divided by their
/// number. An addition that overflows, a number of values that cannot be
/// stored, or a division that overflows gives `Overflow`; an empty column
/// gives `DivisionByZero`.
pub fn mean(values: &Vec<Rational>) -> (r: Result<Rational, ArithmeticError>)
    ensures
        result_view(r) == mean_of(views(values@)),
        r matches Ok(v) ==> v.wf(),
{
    let mut sum = Rational::zero();
    let mut i: usize = 0;
    while i < values.len()
        invariant
            i <= values.len(),
            checked_sum(views(values@).take(i as int)) == Ok::<Fraction, ArithmeticError>(sum@),
        decreases values.len() - i,
    {
        let ghost before = views(values@).take(i as int);
        let ghost after = views(values@).take(i as int + 1);
        proof {
            assert(after.drop_last() =~= before);
            assert(after.last() == values@[i as int]@);
        }
        match sum.checked_add(&values[i]) {
            Ok(s) => {
                sum = s;
            },
            Err(e) => {
                proof {
                    lemma_sum_fails_for_good(views(values@), i as int + 1);
                }
                return Err(e);
            },
        }
        i = i + 1;
    }
    proof {
        assert(views(values@).take(i as int) =~= views(values@));
    }
    if values.len() > 2147483647 {
        return Err(ArithmeticError::Overflow);
    }
    let count = Rational::from_integer(values.len() as i32);
    sum.checked_div(&count)
}

/// Once the sum of the first values overflows, so does the sum of all.
pub proof fn lemma_sum_fails_for_good(values: Seq<Fraction>, k: int)
    requires
        0 <= k <= values.len(),
        checked_sum(values.take(k)) is Err,
    ensures
        checked_sum(values) == checked_sum(values.take(k)),
    decreases values.len() - k,
{
    if k < values.len() {
        assert(values.take(k + 1).drop_last() =~= values.take(k));
        lemma_sum_fails_for_good(values, k + 1);
    } else {
        assert(values.take(k) =~= values);
    }
}

/// The rank that a quantile selects among `count` values:
/// `(count - 1) * numerator / denominator`, rounded down.
pub fn rank(count: usize, numerator: usize, denominator: usize) -> (k: usize)
    requires
        count > 0,
        denominator > 0,
        numerator <= denominator,
    ensures
        k == rank_of(count as nat, numerator as nat, denominator as nat),
        k < count,
{
    let last: u128 = (count - 1) as u128;
    let n: u128 = numerator as u128;
    let d: u128 = denominator as u128;
    assert(last * n <= 0xffff_ffff_ffff_ffff * 0xffff_ffff_ffff_ffff) by (nonlinear_arith)
        requires
            0 <= last <= 0xffff_ffff_ffff_ffff,
            0 <= n <= 0xffff_ffff_ffff_ffff,
    ;
    let k: u128 = (last * n) / d;
    proof {
        let (li, ni, di) = (last as int, n as int, d as int);
        assert(li * ni <= di * li) by (nonlinear_arith)
            requires
                0 <= ni <= di,
                0 <= li,
        ;
        vstd::arithmetic::div_mod::lemma_div_is_ordered(li * ni, di * li, di);
        vstd::arithmetic::div_mod::lemma_div_multiples_vanish(li, di);
    }
    k as usize
}

/// A column in ascending order.
pub fn sorted_ascending(values: &Vec<Rational>) -> (out: Vec<Rational>)
    ensures
        is_ascending_arrangement(views(out@), views(values@)),
        out.len() == values.len(),
        all_positive(views(out@)),
{
    let mut out: Vec<Rational> = Vec::new();
    let mut i: usize = 0;
    proof {
        assert(views(values@).take(0) =~= views(out@));
    }
    while i < values.len()
        invariant
            i <= values.len(),
            out.len() == i,
            is_ascending(views(out@)),
            all_positive(views(out@)),
            views(out@).to_multiset() == views(values@).take(i as int).to_multiset(),
        decreases values.len() - i,
    {
        let x = values[i];
        proof {
            use_type_invariant(&x);
        }
        let mut j: usize = 0;
        while j < out.len() && out[j].le(&x)
            invariant
                j <= out.len(),
                forall|t: int| 0 <= t < j ==> (#[trigger] views(out@)[t]).at_most(x@),
            decreases out.len() - j,
        {
            j = j + 1;
        }
        let ghost before = views(out@);
        out.insert(j, x);
        proof {
            let after = views(out@);
            assert(after =~= before.insert(j as int, x@));
            to_multiset_insert(before, j as int, x@);
            let taken = views(values@).take(i as int);
            assert(views(values@).take(i as int + 1) =~= taken.push(x@));
            to_multiset_build(taken, x@);
            assert forall|a: int, b: int| 0 <= a < b < after.len() implies (#[trigger] after[a]).at_most(
                #[trigger] after[b],
            ) by {
                if b < j {
                    assert(after[a] == before[a] && after[b] == before[b]);
                } else if b == j {
                    assert(after[a] == before[a]);
                } else if a == j {
                    // x is less than the value that stood at j, which is at
                    // most the one that stood at b - 1
                    assert(after[b] == before[b - 1]);
                    assert(!before[j as int].at_most(x@));
                    if (j as int) < b - 1 {
                        assert(before[j as int].at_most(before[b - 1]));
                    }
                    lemma_at_most_is_transitive(x@, before[j as int], before[b - 1]);
                } else if a < j {
                    assert(after[a] == before[a] && after[b] == before[b - 1]);
                } else {
                    assert(after[a] == before[a - 1] && after[b] == before[b - 1]);
                }
            }
            assert forall|t: int| 0 <= t < after.len() implies (#[trigger] after[t]).den > 0 by {
                if t < j {
                    assert(after[t] == before[t]);
                } else if t > j {
                    assert(after[t] == before[t - 1]);
                }
            }
        }
        i = i + 1;
    }
    proof {
        assert(views(values@).take(i as int) =~= views(values@));
    }
    out
}

/// The value at the rank `(count - 1) * numerator / denominator` of the
/// column in ascending order, or nothing for an empty column.
///
/// The rank is rounded down and nothing is interpolated: the result is one
/// of the values of the column.
pub fn value_at_rank(values: &Vec<Rational>, numerator: usize, denominator: usize) -> (r: Option<
    Rational,
>)
    requires
        denominator > 0,
        numerator <= denominator,
    ensures
        r is None <==> values.len() == 0,
        r matches Some(v) ==> v.wf() && is_at_rank(
            v@,
            views(values@),
            rank_of(values.len() as nat, numerator as nat, denominator as nat),
        ),
{
    if values.len() == 0 {
        return None;
    }
    let ordered = sorted_ascending(values);
    let k = rank(values.len(), numerator, denominator);
    let v = ordered[k];
    proof {
        use_type_invariant(&v);
        assert(is_ascending_arrangement(views(ordered@), views(values@)));
        assert(views(ordered@)[k as int] == v@);
    }
    Some(v)
}

} // verus!
