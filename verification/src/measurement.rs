//! What all kinds of measurement have in common, and the summaries that are
//! computed field by field over a sequence of measurements of one kind.

use crate::datetime::Timestamp;
use crate::fraction::Fraction;
use crate::rational::{ArithmeticError, Rational};
use crate::stats::{
    all_positive, all_reduced, greater_present, is_at_rank, is_greatest_if_any, is_least_if_any,
    lemma_greatest_is_unique, lemma_greatest_with, lemma_least_is_unique, lemma_least_with,
    lemma_rank_is_unique, lemma_single_is_both, lesser_present, mean, mean_of, option_view,
    present, rank_of, value_at_rank, views,
};
use vstd::prelude::*;

verus! {

/// A measurement: a reading with a timestamp and a fixed number of numeric
/// fields, each of which is an exact value and some of which may be absent.
pub trait Measurement: Copy {
    /// The number of numeric fields.
    spec fn field_count() -> nat;

    /// Whether the field is present in every measurement.
    spec fn is_required(k: int) -> bool;

    /// The value of a field, if it is present.
    spec fn field(self, k: int) -> Option<Fraction>;

    /// When the measurement was taken.
    spec fn taken_at(self) -> Timestamp;

    /// A required field is present.
    proof fn lemma_required_is_present(self, k: int)
        requires
            Self::is_required(k),
        ensures
            self.field(k) is Some,
    ;

    /// The number of numeric fields.
    fn fields() -> (n: usize)
        ensures
            n == Self::field_count(),
    ;

    /// The value of a field, if it is present.
    fn value(&self, k: usize) -> (v: Option<Rational>)
        requires
            k < Self::field_count(),
        ensures
            option_view(v) == self.field(k as int),
            v matches Some(x) ==> x.wf(),
    ;

    /// When the measurement was taken.
    fn timestamp(&self) -> (t: Timestamp)
        ensures
            t == self.taken_at(),
            t.wf(),
    ;
}

/// A composite summary record of measurements of the kind `M`: it has the
/// fields of a measurement, but each of them is computed on its own from
/// the values that the measurements have in that field. It stands for no
/// observation, and has neither an identity nor a timestamp.
pub trait Composite<M: Measurement>: Copy {
    /// The value of a field, if the summary has one.
    spec fn part(self, k: int) -> Option<Fraction>;

    /// The summary of a single measurement: its own values.
    fn of(m: &M) -> (s: Self)
        ensures
            forall|k: int| 0 <= k < M::field_count() ==> #[trigger] s.part(k) == m.field(k),
            forall|k: int|
                0 <= k < M::field_count() ==> (#[trigger] m.field(k) matches Some(v) ==> v.den > 0),
    ;

    /// The summary with the given value in each field. A required field
    /// has to have a value.
    fn from_parts(parts: &Vec<Option<Rational>>) -> (s: Self)
        requires
            parts.len() == M::field_count(),
            forall|k: int|
                0 <= k < M::field_count() && M::is_required(k) ==> (#[trigger] parts[k]) is Some,
        ensures
            forall|k: int|
                0 <= k < M::field_count() ==> #[trigger] s.part(k) == option_view(parts[k]),
    ;

    /// In each field the greater of this summary's value and the
    /// measurement's; an absent value takes no part.
    fn values_max(&self, m: &M) -> (s: Self)
        ensures
            forall|k: int|
                0 <= k < M::field_count() ==> #[trigger] s.part(k) == greater_present(
                    self.part(k),
                    m.field(k),
                ),
            forall|k: int|
                0 <= k < M::field_count() ==> (#[trigger] m.field(k) matches Some(v) ==> v.den > 0),
    ;

    /// In each field the lesser of this summary's value and the
    /// measurement's; an absent value takes no part.
    fn values_min(&self, m: &M) -> (s: Self)
        ensures
            forall|k: int|
                0 <= k < M::field_count() ==> #[trigger] s.part(k) == lesser_present(
                    self.part(k),
                    m.field(k),
                ),
            forall|k: int|
                0 <= k < M::field_count() ==> (#[trigger] m.field(k) matches Some(v) ==> v.den > 0),
    ;
}

/// The values that the measurements have in a field, in their order; a
/// measurement without the field contributes nothing.
pub open spec fn column<M: Measurement>(ms: Seq<M>, k: int) -> Seq<Fraction> {
    present(ms.map_values(|m: M| m.field(k)))
}

/// The column of one more measurement.
pub proof fn lemma_column_step<M: Measurement>(ms: Seq<M>, i: int, k: int)
    requires
        0 <= i < ms.len(),
    ensures
        column(ms.take(i + 1), k) == match ms[i].field(k) {
            Some(v) => column(ms.take(i), k).push(v),
            None => column(ms.take(i), k),
        },
{
    let longer = ms.take(i + 1).map_values(|m: M| m.field(k));
    let shorter = ms.take(i).map_values(|m: M| m.field(k));
    assert(longer.drop_last() =~= shorter);
    assert(longer.last() == ms[i].field(k));
}

/// The column of a required field has a value of every measurement.
pub proof fn lemma_required_column<M: Measurement>(ms: Seq<M>, k: int)
    requires
        M::is_required(k),
    ensures
        column(ms, k).len() == ms.len(),
    decreases ms.len(),
{
    if ms.len() > 0 {
        let i = ms.len() - 1;
        assert(ms.take(i + 1) =~= ms);
        lemma_column_step(ms, i, k);
        ms[i].lemma_required_is_present(k);
        lemma_required_column(ms.take(i), k);
    } else {
        assert(ms.map_values(|m: M| m.field(k)).len() == 0);
    }
}

/// A column with one more value, if there is one.
pub open spec fn with_value(values: Seq<Fraction>, x: Option<Fraction>) -> Seq<Fraction> {
    match x {
        Some(v) => values.push(v),
        None => values,
    }
}

/// The greatest of a column and of one more value, if there is one.
pub proof fn lemma_greatest_step(best: Option<Fraction>, values: Seq<Fraction>, x: Option<Fraction>)
    requires
        is_greatest_if_any(best, values),
        all_positive(values),
        x matches Some(v) ==> v.den > 0,
    ensures
        is_greatest_if_any(greater_present(best, x), with_value(values, x)),
        all_positive(with_value(values, x)),
{
    match (best, x) {
        (Some(b), Some(v)) => {
            lemma_greatest_with(b, values, v);
        },
        (None, Some(v)) => {
            lemma_single_is_both(v);
            assert(values.push(v) =~= seq![v]);
        },
        _ => {},
    }
}

/// The least of a column and of one more value, if there is one.
pub proof fn lemma_least_step(best: Option<Fraction>, values: Seq<Fraction>, x: Option<Fraction>)
    requires
        is_least_if_any(best, values),
        all_positive(values),
        x matches Some(v) ==> v.den > 0,
    ensures
        is_least_if_any(lesser_present(best, x), with_value(values, x)),
        all_positive(with_value(values, x)),
{
    match (best, x) {
        (Some(b), Some(v)) => {
            lemma_least_with(b, values, v);
        },
        (None, Some(v)) => {
            lemma_single_is_both(v);
            assert(values.push(v) =~= seq![v]);
        },
        _ => {},
    }
}

/// In each field the composite has the greatest value that any of the
/// measurements has there, and nothing where none has the field.
pub open spec fn is_maximum<M: Measurement, S: Composite<M>>(s: S, ms: Seq<M>) -> bool {
    forall|k: int|
        0 <= k < M::field_count() ==> is_greatest_if_any(#[trigger] s.part(k), column(ms, k))
}

/// In each field the composite has the least value that any of the
/// measurements has there, and nothing where none has the field.
pub open spec fn is_minimum<M: Measurement, S: Composite<M>>(s: S, ms: Seq<M>) -> bool {
    forall|k: int|
        0 <= k < M::field_count() ==> is_least_if_any(#[trigger] s.part(k), column(ms, k))
}

/// The composite of the field-wise maxima: in each field the greatest value
/// that any of the measurements has there, and nothing where none has the
/// field. There is no composite of no measurements.
///
/// The composite is accumulated one measurement at a time with
/// `values_max`, starting from the first measurement.
pub fn maximum<M: Measurement, S: Composite<M>>(ms: &Vec<M>) -> (r: Option<S>)
    ensures
        r is None <==> ms.len() == 0,
        r matches Some(s) ==> is_maximum(s, ms@),
{
    if ms.len() == 0 {
        return None;
    }
    let mut acc = S::of(&ms[0]);
    proof {
        assert forall|k: int| 0 <= k < M::field_count() implies is_greatest_if_any(
            #[trigger] acc.part(k),
            column(ms@.take(1), k),
        ) && all_positive(column(ms@.take(1), k)) by {
            assert(ms@.take(0).map_values(|m: M| m.field(k)) =~= Seq::empty());
            lemma_column_step(ms@, 0, k);
            lemma_greatest_step(None, Seq::empty(), ms@[0].field(k));
        }
    }
    let mut i: usize = 1;
    while i < ms.len()
        invariant
            1 <= i <= ms.len(),
            forall|k: int|
                0 <= k < M::field_count() ==> is_greatest_if_any(
                    #[trigger] acc.part(k),
                    column(ms@.take(i as int), k),
                ) && all_positive(column(ms@.take(i as int), k)),
        decreases ms.len() - i,
    {
        let next = acc.values_max(&ms[i]);
        proof {
            assert forall|k: int| 0 <= k < M::field_count() implies is_greatest_if_any(
                #[trigger] next.part(k),
                column(ms@.take(i as int + 1), k),
            ) && all_positive(column(ms@.take(i as int + 1), k)) by {
                lemma_column_step(ms@, i as int, k);
                assert(is_greatest_if_any(acc.part(k), column(ms@.take(i as int), k)));
                lemma_greatest_step(acc.part(k), column(ms@.take(i as int), k), ms@[i as int].field(k));
            }
        }
        acc = next;
        i = i + 1;
    }
    proof {
        assert(ms@.take(i as int) =~= ms@);
    }
    Some(acc)
}

/// The composite of the field-wise minima: in each field the least value
/// that any of the measurements has there, and nothing where none has the
/// field. There is no composite of no measurements.
///
/// The composite is accumulated one measurement at a time with
/// `values_min`, starting from the first measurement.
pub fn minimum<M: Measurement, S: Composite<M>>(ms: &Vec<M>) -> (r: Option<S>)
    ensures
        r is None <==> ms.len() == 0,
        r matches Some(s) ==> is_minimum(s, ms@),
{
    if ms.len() == 0 {
        return None;
    }
    let mut acc = S::of(&ms[0]);
    proof {
        assert forall|k: int| 0 <= k < M::field_count() implies is_least_if_any(
            #[trigger] acc.part(k),
            column(ms@.take(1), k),
        ) && all_positive(column(ms@.take(1), k)) by {
            assert(ms@.take(0).map_values(|m: M| m.field(k)) =~= Seq::empty());
            lemma_column_step(ms@, 0, k);
            lemma_least_step(None, Seq::empty(), ms@[0].field(k));
        }
    }
    let mut i: usize = 1;
    while i < ms.len()
        invariant
            1 <= i <= ms.len(),
            forall|k: int|
                0 <= k < M::field_count() ==> is_least_if_any(
                    #[trigger] acc.part(k),
                    column(ms@.take(i as int), k),
                ) && all_positive(column(ms@.take(i as int), k)),
        decreases ms.len() - i,
    {
        let next = acc.values_min(&ms[i]);
        proof {
            assert forall|k: int| 0 <= k < M::field_count() implies is_least_if_any(
                #[trigger] next.part(k),
                column(ms@.take(i as int + 1), k),
            ) && all_positive(column(ms@.take(i as int + 1), k)) by {
                lemma_column_step(ms@, i as int, k);
                assert(is_least_if_any(acc.part(k), column(ms@.take(i as int), k)));
                lemma_least_step(acc.part(k), column(ms@.take(i as int), k), ms@[i as int].field(k));
            }
        }
        acc = next;
        i = i + 1;
    }
    proof {
        assert(ms@.take(i as int) =~= ms@);
    }
    Some(acc)
}

/// The mean of a column, or nothing for an empty column.
pub open spec fn mean_if_any(values: Seq<Fraction>) -> Result<Option<Fraction>, ArithmeticError> {
    if values.len() == 0 {
        Ok(None)
    } else {
        match mean_of(values) {
            Ok(v) => Ok(Some(v)),
            Err(e) => Err(e),
        }
    }
}

/// The means of the first `n` fields, each over the measurements that have
/// the field; the error of the first field whose mean has none.
pub open spec fn field_means<M: Measurement>(ms: Seq<M>, n: nat) -> Result<
    Seq<Option<Fraction>>,
    ArithmeticError,
>
    decreases n,
{
    if n == 0 {
        Ok(Seq::empty())
    } else {
        match field_means(ms, (n - 1) as nat) {
            Err(e) => Err(e),
            Ok(firsts) => match mean_if_any(column(ms, n - 1)) {
                Err(e) => Err(e),
                Ok(v) => Ok(firsts.push(v)),
            },
        }
    }
}

/// What `average` returns: the composite of the means of all fields, or the
/// error of the first field whose mean cannot be computed.
pub open spec fn is_average<M: Measurement, S: Composite<M>>(
    r: Result<S, ArithmeticError>,
    ms: Seq<M>,
) -> bool {
    match field_means(ms, M::field_count()) {
        Err(e) => r matches Err(x) && x == e,
        Ok(means) => r matches Ok(s) && forall|k: int|
            0 <= k < M::field_count() ==> #[trigger] s.part(k) == means[k],
    }
}

/// The composite of the field-wise averages: in each field the sum of the
/// values that are present, divided by their number, as an exact value. A
/// field that no measurement has gets no average.
///
/// The sums and the quotients are computed in the arithmetic of exact
/// values, field by field in the order of the fields, and the first
/// failure is the result.
pub fn average<M: Measurement, S: Composite<M>>(ms: &Vec<M>) -> (r: Result<S, ArithmeticError>)
    requires
        ms.len() > 0,
    ensures
        is_average(r, ms@),
{
    let n = M::fields();
    let mut parts: Vec<Option<Rational>> = Vec::new();
    let mut k: usize = 0;
    proof {
        assert(parts@.map_values(|p: Option<Rational>| option_view(p)) =~= Seq::empty());
    }
    while k < n
        invariant
            k <= n,
            n == M::field_count(),
            ms.len() > 0,
            parts.len() == k,
            field_means(ms@, k as nat) is Ok,
            field_means(ms@, k as nat)->Ok_0 == parts@.map_values(
                |p: Option<Rational>| option_view(p),
            ),
            forall|j: int| 0 <= j < k && M::is_required(j) ==> (#[trigger] parts[j]) is Some,
        decreases n - k,
    {
        let values = column_of(ms, k);
        let ghost before = parts@.map_values(|p: Option<Rational>| option_view(p));
        let part = if values.len() == 0 {
            None
        } else {
            match mean(&values) {
                Ok(v) => Some(v),
                Err(e) => {
                    proof {
                        lemma_field_means_fail_for_good(ms@, k as nat + 1, n as nat);
                    }
                    return Err(e);
                },
            }
        };
        proof {
            if M::is_required(k as int) {
                lemma_required_column(ms@, k as int);
            }
        }
        parts.push(part);
        proof {
            assert(parts@.map_values(|p: Option<Rational>| option_view(p)) =~= before.push(
                option_view(part),
            ));
        }
        k = k + 1;
    }
    let s = S::from_parts(&parts);
    proof {
        let means = parts@.map_values(|p: Option<Rational>| option_view(p));
        assert forall|j: int| 0 <= j < M::field_count() implies #[trigger] s.part(j) == means[j] by {
            assert(s.part(j) == option_view(parts[j]));
        }
    }
    Ok(s)
}

/// Once the mean of a field has no value, neither has the composite.
pub proof fn lemma_field_means_fail_for_good<M: Measurement>(ms: Seq<M>, k: nat, n: nat)
    requires
        k <= n,
        field_means(ms, k) is Err,
    ensures
        field_means(ms, n) == field_means(ms, k),
    decreases n - k,
{
    if k < n {
        lemma_field_means_fail_for_good(ms, k, (n - 1) as nat);
    }
}

/// What `quasi_n_tile` returns: in each field the value at the rank
/// `(count - 1) * numerator / denominator` of the field's values in
/// ascending order, where `count` is the number of those values; nothing
/// in a field that no measurement has.
pub open spec fn is_quasi_n_tile<M: Measurement, S: Composite<M>>(
    s: S,
    ms: Seq<M>,
    numerator: nat,
    denominator: nat,
) -> bool {
    forall|k: int|
        0 <= k < M::field_count() ==> match #[trigger] s.part(k) {
            Some(v) => is_at_rank(
                v,
                column(ms, k),
                rank_of(column(ms, k).len(), numerator, denominator),
            ),
            None => column(ms, k).len() == 0,
        }
}

/// The composite of the field-wise quasi-quantiles.
///
/// For each field the values that are present are put in ascending order
/// and the one at the rank `(count - 1) * numerator / denominator`, rounded
/// down, is taken, where `count` is the number of values of that field.
/// Nothing is interpolated: each field of the composite is a value that
/// some measurement has, and different fields may come from different
/// measurements.
pub fn quasi_n_tile<M: Measurement, S: Composite<M>>(
    ms: &Vec<M>,
    numerator: usize,
    denominator: usize,
) -> (s: S)
    requires
        ms.len() > 0,
        denominator > 0,
        numerator <= denominator,
    ensures
        is_quasi_n_tile(s, ms@, numerator as nat, denominator as nat),
{
    let n = M::fields();
    let mut parts: Vec<Option<Rational>> = Vec::new();
    let mut k: usize = 0;
    while k < n
        invariant
            k <= n,
            n == M::field_count(),
            ms.len() > 0,
            denominator > 0,
            numerator <= denominator,
            parts.len() == k,
            forall|j: int| 0 <= j < k && M::is_required(j) ==> (#[trigger] parts[j]) is Some,
            forall|j: int|
                0 <= j < k ==> match option_view(#[trigger] parts[j]) {
                    Some(v) => is_at_rank(
                        v,
                        column(ms@, j),
                        rank_of(column(ms@, j).len(), numerator as nat, denominator as nat),
                    ),
                    None => column(ms@, j).len() == 0,
                },
        decreases n - k,
    {
        let values = column_of(ms, k);
        let part = value_at_rank(&values, numerator, denominator);
        proof {
            if M::is_required(k as int) {
                lemma_required_column(ms@, k as int);
            }
            assert(views(values@).len() == values.len());
        }
        parts.push(part);
        k = k + 1;
    }
    let s = S::from_parts(&parts);
    proof {
        assert forall|j: int| 0 <= j < M::field_count() implies match #[trigger] s.part(j) {
            Some(v) => is_at_rank(
                v,
                column(ms@, j),
                rank_of(column(ms@, j).len(), numerator as nat, denominator as nat),
            ),
            None => column(ms@, j).len() == 0,
        } by {
            assert(s.part(j) == option_view(parts[j]));
        }
    }
    s
}

/// The values of a field, in the order of the measurements.
pub fn column_of<M: Measurement>(ms: &Vec<M>, k: usize) -> (col: Vec<Rational>)
    requires
        k < M::field_count(),
    ensures
        views(col@) == column(ms@, k as int),
        all_positive(views(col@)),
{
    let mut col: Vec<Rational> = Vec::new();
    let mut i: usize = 0;
    proof {
        assert(ms@.take(0).map_values(|m: M| m.field(k as int)) =~= Seq::empty());
        assert(views(col@) =~= column(ms@.take(0), k as int));
    }
    while i < ms.len()
        invariant
            i <= ms.len(),
            k < M::field_count(),
            views(col@) == column(ms@.take(i as int), k as int),
            all_positive(views(col@)),
        decreases ms.len() - i,
    {
        proof {
            lemma_column_step(ms@, i as int, k as int);
        }
        let ghost before = views(col@);
        match ms[i].value(k) {
            Some(v) => {
                col.push(v);
                proof {
                    assert(views(col@) =~= before.push(v@));
                }
            },
            None => {},
        }
        i = i + 1;
    }
    proof {
        assert(ms@.take(i as int) =~= ms@);
    }
    col
}

/// Every value of every field is in lowest terms, as the values of
/// measurements are.
pub open spec fn all_columns_reduced<M: Measurement>(ms: Seq<M>) -> bool {
    forall|k: int| 0 <= k < M::field_count() ==> all_reduced(#[trigger] column(ms, k))
}

/// Two composites of the maxima of the same measurements agree in every
/// field: computing the maxima again gives the same composite.
pub proof fn lemma_maximum_is_determined<M: Measurement, S: Composite<M>>(a: S, b: S, ms: Seq<M>)
    requires
        is_maximum(a, ms),
        is_maximum(b, ms),
        all_columns_reduced(ms),
    ensures
        forall|k: int| 0 <= k < M::field_count() ==> #[trigger] a.part(k) == b.part(k),
{
    assert forall|k: int| 0 <= k < M::field_count() implies #[trigger] a.part(k) == b.part(k) by {
        assert(is_greatest_if_any(a.part(k), column(ms, k)));
        assert(is_greatest_if_any(b.part(k), column(ms, k)));
        assert(all_reduced(column(ms, k)));
        if a.part(k) is Some && b.part(k) is Some {
            lemma_greatest_is_unique(a.part(k)->0, b.part(k)->0, column(ms, k));
        }
    }
}

/// Two composites of the minima of the same measurements agree in every
/// field: computing the minima again gives the same composite.
pub proof fn lemma_minimum_is_determined<M: Measurement, S: Composite<M>>(a: S, b: S, ms: Seq<M>)
    requires
        is_minimum(a, ms),
        is_minimum(b, ms),
        all_columns_reduced(ms),
    ensures
        forall|k: int| 0 <= k < M::field_count() ==> #[trigger] a.part(k) == b.part(k),
{
    assert forall|k: int| 0 <= k < M::field_count() implies #[trigger] a.part(k) == b.part(k) by {
        assert(is_least_if_any(a.part(k), column(ms, k)));
        assert(is_least_if_any(b.part(k), column(ms, k)));
        assert(all_reduced(column(ms, k)));
        if a.part(k) is Some && b.part(k) is Some {
            lemma_least_is_unique(a.part(k)->0, b.part(k)->0, column(ms, k));
        }
    }
}

/// Two results of averaging the same measurements are the same failure, or
/// composites that agree in every field: computing the averages again
/// gives the same result.
pub proof fn lemma_average_is_determined<M: Measurement, S: Composite<M>>(
    a: Result<S, ArithmeticError>,
    b: Result<S, ArithmeticError>,
    ms: Seq<M>,
)
    requires
        is_average(a, ms),
        is_average(b, ms),
    ensures
        a is Err ==> a == b,
        a matches Ok(x) ==> b matches Ok(y) && forall|k: int|
            0 <= k < M::field_count() ==> #[trigger] x.part(k) == y.part(k),
{
}

/// Two composites of the same quasi-quantile of the same measurements
/// agree in every field: computing the quasi-quantile again gives the same
/// composite.
pub proof fn lemma_quasi_n_tile_is_determined<M: Measurement, S: Composite<M>>(
    a: S,
    b: S,
    ms: Seq<M>,
    numerator: nat,
    denominator: nat,
)
    requires
        is_quasi_n_tile(a, ms, numerator, denominator),
        is_quasi_n_tile(b, ms, numerator, denominator),
        all_columns_reduced(ms),
    ensures
        forall|k: int| 0 <= k < M::field_count() ==> #[trigger] a.part(k) == b.part(k),
{
    assert forall|k: int| 0 <= k < M::field_count() implies #[trigger] a.part(k) == b.part(k) by {
        let values = column(ms, k);
        let at = rank_of(values.len(), numerator, denominator);
        assert(all_reduced(values));
        match (a.part(k), b.part(k)) {
            (Some(x), Some(y)) => {
                lemma_rank_is_unique(x, y, values, at);
            },
            (Some(x), None) => {
                lemma_rank_needs_values(x, values, at);
            },
            (None, Some(y)) => {
                lemma_rank_needs_values(y, values, at);
            },
            (None, None) => {},
        }
    }
}

/// A value at a rank is a value of the column, which is not empty then.
pub proof fn lemma_rank_needs_values(r: Fraction, values: Seq<Fraction>, k: int)
    requires
        is_at_rank(r, values, k),
    ensures
        values.len() > 0,
        values.contains(r),
{
    let s = choose|s: Seq<Fraction>| #[trigger]
        crate::stats::is_ascending_arrangement(s, values) && 0 <= k < s.len() && s[k] == r;
    vstd::seq_lib::to_multiset_len(s);
    vstd::seq_lib::to_multiset_len(values);
    vstd::seq_lib::to_multiset_contains(s, r);
    vstd::seq_lib::to_multiset_contains(values, r);
    assert(s.contains(r));
}

/// The summaries that are shown of a sequence of measurements: the
/// field-wise maxima and minima, the averages and the three quartile-like
/// quasi-quantiles.
#[derive(Debug, PartialEq, Eq)]
pub struct Overview<S> {
    pub maximum: S,
    /// The quasi-quantile 3/4.
    pub quasi_q3: S,
    /// The averages, or why there are none.
    pub average: Result<S, ArithmeticError>,
    /// The quasi-quantile 1/2.
    pub quasi_q2: S,
    /// The quasi-quantile 1/4.
    pub quasi_q1: S,
    pub minimum: S,
}

/// What `overview` returns of measurements, of which there is at least one.
pub open spec fn is_overview<M: Measurement, S: Composite<M>>(o: Overview<S>, ms: Seq<M>) -> bool {
    &&& is_maximum(o.maximum, ms)
    &&& is_quasi_n_tile(o.quasi_q3, ms, 3, 4)
    &&& is_average(o.average, ms)
    &&& is_quasi_n_tile(o.quasi_q2, ms, 1, 2)
    &&& is_quasi_n_tile(o.quasi_q1, ms, 1, 4)
    &&& is_minimum(o.minimum, ms)
}

/// The summaries of a sequence of measurements, or nothing if there are no
/// measurements: no summary is defined of an empty sequence.
pub fn overview<M: Measurement, S: Composite<M>>(ms: &Vec<M>) -> (r: Option<Overview<S>>)
    ensures
        r is None <==> ms.len() == 0,
        r matches Some(o) ==> is_overview(o, ms@),
{
    let greatest: Option<S> = maximum(ms);
    let least: Option<S> = minimum(ms);
    match (greatest, least) {
        (Some(maximum), Some(minimum)) => Some(
            Overview {
                maximum,
                quasi_q3: quasi_n_tile(ms, 3, 4),
                average: average(ms),
                quasi_q2: quasi_n_tile(ms, 1, 2),
                quasi_q1: quasi_n_tile(ms, 1, 4),
                minimum,
            },
        ),
        _ => None,
    }
}

} // verus!
