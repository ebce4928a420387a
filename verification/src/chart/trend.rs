use vstd::prelude::*;
use crate::date::LAST_DAY_NUMBER;
use crate::domain::measurement::{Measurement, MAX_OBSERVATIONS, MAX_WEIGHT_MILLI};
use crate::error::ApiError;

verus! {

/// The trend over the observed values: the ordinary least-squares slope
/// of value against day number, as the exact ratio
/// `slope_num / slope_den` (in thousandths of a kilogram per day), and
/// the extremes and final value of the observed set. The denominator
/// depends on the days alone and is never zero here, so the slope's
/// sign is the sign of `slope_num * slope_den`.
#[derive(Debug, Clone, Copy, PartialEq, Eq)]
pub struct TrendSummary {
    pub slope_num: i128,
    pub slope_den: i128,
    pub min_milli: i64,
    pub max_milli: i64,
    pub last_milli: i64,
}

pub open spec fn sum(s: Seq<int>) -> int
    decreases s.len(),
{
    if s.len() == 0 {
        0
    } else {
        sum(s.drop_last()) + s.last()
    }
}

pub open spec fn dot(a: Seq<int>, b: Seq<int>) -> int
    decreases a.len(),
{
    if a.len() == 0 || b.len() == 0 {
        0
    } else {
        dot(a.drop_last(), b.drop_last()) + a.last() * b.last()
    }
}

/// The observations' day numbers, the regression's x coordinates.
pub open spec fn day_indexes(obs: Seq<Measurement>) -> Seq<int> {
    obs.map(|j: int, o: Measurement| o.date.day_number())
}

/// The observations' values, the regression's y coordinates.
pub open spec fn values(obs: Seq<Measurement>) -> Seq<int> {
    obs.map(|j: int, o: Measurement| o.weight.spec_milli() as int)
}

/// The numerator of the closed-form least-squares slope:
/// `n * sum(x*y) - sum(x) * sum(y)`.
pub open spec fn slope_numerator(xs: Seq<int>, ys: Seq<int>) -> int {
    xs.len() * dot(xs, ys) - sum(xs) * sum(ys)
}

/// The denominator of the closed-form least-squares slope:
/// `n * sum(x*x) - sum(x) * sum(x)`. Zero exactly when fewer than two
/// points exist or all points share one x.
pub open spec fn slope_denominator(xs: Seq<int>) -> int {
    xs.len() * dot(xs, xs) - sum(xs) * sum(xs)
}

proof fn lemma_sum_take_step(s: Seq<int>, k: int)
    requires
        0 <= k < s.len(),
    ensures
        sum(s.take(k + 1)) == sum(s.take(k)) + s[k],
{
    assert(s.take(k + 1).drop_last() =~= s.take(k));
    assert(s.take(k + 1).last() == s[k]);
}

proof fn lemma_dot_take_step(a: Seq<int>, b: Seq<int>, k: int)
    requires
        0 <= k < a.len(),
        0 <= k < b.len(),
    ensures
        dot(a.take(k + 1), b.take(k + 1)) == dot(a.take(k), b.take(k)) + a[k] * b[k],
{
    assert(a.take(k + 1).drop_last() =~= a.take(k));
    assert(b.take(k + 1).drop_last() =~= b.take(k));
    assert(a.take(k + 1).last() == a[k]);
    assert(b.take(k + 1).last() == b[k]);
}

/// With fewer than two points the slope's denominator vanishes.
proof fn lemma_denominator_small(xs: Seq<int>)
    requires
        xs.len() < 2,
    ensures
        slope_denominator(xs) == 0,
{
    if xs.len() == 1 {
        assert(sum(xs) == sum(xs.drop_last()) + xs.last());
        assert(dot(xs, xs) == dot(xs.drop_last(), xs.drop_last()) + xs.last() * xs.last());
    }
}

proof fn lemma_mul_range(a: int, a_hi: int, b: int, b_hi: int)
    requires
        0 <= a <= a_hi,
        0 <= b <= b_hi,
    ensures
        0 <= a * b <= a_hi * b_hi,
{
    assert(0 <= a * b <= a_hi * b_hi) by (nonlinear_arith)
        requires
            0 <= a <= a_hi,
            0 <= b <= b_hi,
    ;
}

/// Computes the trend over the observations: least-squares slope and
/// the minimum, maximum and last of the values.
///
/// Fails with `InsufficientData` exactly when the slope's denominator
/// is zero — with no observations, one observation, or all observations
/// on a single day — rather than dividing by zero.
pub fn estimate(observations: &Vec<Measurement>) -> (r: Result<TrendSummary, ApiError>)
    requires
        forall|j: int| 0 <= j < observations@.len() ==> (#[trigger] observations@[j]).wf(),
        observations@.len() <= MAX_OBSERVATIONS,
    ensures
        r is Err <==> slope_denominator(day_indexes(observations@)) == 0,
        r matches Err(e) ==> e == ApiError::InsufficientData,
        r matches Ok(t) ==> {
            &&& t.slope_num == slope_numerator(day_indexes(observations@), values(observations@))
            &&& t.slope_den == slope_denominator(day_indexes(observations@))
            &&& t.slope_den != 0
            &&& observations@.len() >= 2
            &&& t.last_milli == observations@.last().weight.spec_milli()
            &&& (forall|j: int|
                0 <= j < observations@.len() ==> t.min_milli
                    <= (#[trigger] observations@[j]).weight.spec_milli() <= t.max_milli)
            &&& (exists|j: int|
                0 <= j < observations@.len() && (#[trigger] observations@[j]).weight.spec_milli()
                    == t.min_milli)
            &&& (exists|j: int|
                0 <= j < observations@.len() && (#[trigger] observations@[j]).weight.spec_milli()
                    == t.max_milli)
        },
{
    let ghost xs = day_indexes(observations@);
    let ghost ys = values(observations@);
    let n: usize = observations.len();
    if n == 0 {
        proof {
            lemma_denominator_small(xs);
        }
        return Err(ApiError::InsufficientData);
    }
    proof {
        assert forall|j: int| 0 <= j < observations@.len() implies 1 <= (#[trigger] xs[j])
            <= LAST_DAY_NUMBER && 0 <= ys[j] <= MAX_WEIGHT_MILLI by {
            assert(observations@[j].wf());
            observations@[j].date.lemma_day_number_bounds();
        }
    }
    let mut sx: i128 = 0;
    let mut sy: i128 = 0;
    let mut sxx: i128 = 0;
    let mut sxy: i128 = 0;
    let mut min_milli: i64 = observations[0].weight.milli();
    let mut max_milli: i64 = min_milli;
    let mut last_milli: i64 = min_milli;
    let mut k: usize = 0;
    while k < n
        invariant
            forall|j: int| 0 <= j < observations@.len() ==> (#[trigger] observations@[j]).wf(),
            n == observations@.len(),
            1 <= n <= MAX_OBSERVATIONS,
            0 <= k <= n,
            xs == day_indexes(observations@),
            ys == values(observations@),
            forall|j: int|
                0 <= j < observations@.len() ==> 1 <= (#[trigger] xs[j]) <= LAST_DAY_NUMBER && 0
                    <= ys[j] <= MAX_WEIGHT_MILLI,
            sx == sum(xs.take(k as int)),
            sy == sum(ys.take(k as int)),
            sxx == dot(xs.take(k as int), xs.take(k as int)),
            sxy == dot(xs.take(k as int), ys.take(k as int)),
            0 <= sx <= k * 3652059,
            0 <= sy <= k * 1000000000,
            0 <= sxx <= k * (3652059int * 3652059),
            0 <= sxy <= k * (3652059int * 1000000000),
            exists|j: int|
                0 <= j < observations@.len() && (#[trigger] observations@[j]).weight.spec_milli()
                    == min_milli,
            exists|j: int|
                0 <= j < observations@.len() && (#[trigger] observations@[j]).weight.spec_milli()
                    == max_milli,
            forall|j: int|
                0 <= j < k ==> min_milli <= (#[trigger] observations@[j]).weight.spec_milli()
                    <= max_milli,
            if k == 0 {
                last_milli == observations@[0].weight.spec_milli()
            } else {
                last_milli == observations@[k - 1].weight.spec_milli()
            },
        decreases n - k,
    {
        let x: i64 = observations[k].date.days_from_ce();
        let y: i64 = observations[k].weight.milli();
        proof {
            lemma_sum_take_step(xs, k as int);
            lemma_sum_take_step(ys, k as int);
            lemma_dot_take_step(xs, xs, k as int);
            lemma_dot_take_step(xs, ys, k as int);
            assert(0 <= (x as int) * (x as int) <= 3652059int * 3652059) by (nonlinear_arith)
                requires
                    1 <= x <= 3652059,
            ;
            assert(0 <= (x as int) * (y as int) <= 3652059int * 1000000000) by (nonlinear_arith)
                requires
                    1 <= x <= 3652059,
                    0 <= y <= 1000000000,
            ;
        }
        sx = sx + x as i128;
        sy = sy + y as i128;
        sxx = sxx + (x as i128) * (x as i128);
        sxy = sxy + (x as i128) * (y as i128);
        if y < min_milli {
            min_milli = y;
        }
        if y > max_milli {
            max_milli = y;
        }
        last_milli = y;
        k = k + 1;
    }
    proof {
        assert(xs.take(n as int) =~= xs);
        assert(ys.take(n as int) =~= ys);
        lemma_mul_range(n as int, 100000000, sxy as int, 100000000int * (3652059int * 1000000000));
        lemma_mul_range(sx as int, 100000000int * 3652059, sy as int, 100000000int * 1000000000);
        lemma_mul_range(n as int, 100000000, sxx as int, 100000000int * (3652059int * 3652059));
        lemma_mul_range(sx as int, 100000000int * 3652059, sx as int, 100000000int * 3652059);
    }
    let n128: i128 = n as i128;
    let num: i128 = n128 * sxy - sx * sy;
    let den: i128 = n128 * sxx - sx * sx;
    if den == 0 {
        return Err(ApiError::InsufficientData);
    }
    proof {
        if observations@.len() < 2 {
            lemma_denominator_small(xs);
        }
    }
    Ok(
        TrendSummary {
            slope_num: num,
            slope_den: den,
            min_milli,
            max_milli,
            last_milli,
        },
    )
}

/// The values scaled by a constant factor `c`.
pub open spec fn scaled(ys: Seq<int>, c: int) -> Seq<int> {
    ys.map(|j: int, y: int| c * y)
}

proof fn lemma_sum_scaled(ys: Seq<int>, c: int)
    ensures
        sum(scaled(ys, c)) == c * sum(ys),
    decreases ys.len(),
{
    if ys.len() == 0 {
        assert(c * 0 == 0) by (nonlinear_arith);
    } else {
        lemma_sum_scaled(ys.drop_last(), c);
        assert(scaled(ys, c).drop_last() =~= scaled(ys.drop_last(), c));
        assert(scaled(ys, c).last() == c * ys.last());
        assert(c * (sum(ys.drop_last()) + ys.last()) == c * sum(ys.drop_last()) + c * ys.last())
            by (nonlinear_arith);
    }
}

proof fn lemma_dot_scaled(xs: Seq<int>, ys: Seq<int>, c: int)
    requires
        xs.len() == ys.len(),
    ensures
        dot(xs, scaled(ys, c)) == c * dot(xs, ys),
    decreases ys.len(),
{
    if ys.len() == 0 {
        assert(c * 0 == 0) by (nonlinear_arith);
    } else {
        lemma_dot_scaled(xs.drop_last(), ys.drop_last(), c);
        assert(scaled(ys, c).drop_last() =~= scaled(ys.drop_last(), c));
        assert(scaled(ys, c).last() == c * ys.last());
        assert(dot(xs, scaled(ys, c)) == dot(xs.drop_last(), scaled(ys.drop_last(), c)) + xs.last()
            * (c * ys.last()));
        assert(xs.last() * (c * ys.last()) == c * (xs.last() * ys.last())) by (nonlinear_arith);
        assert(c * (dot(xs.drop_last(), ys.drop_last()) + xs.last() * ys.last()) == c * dot(
            xs.drop_last(),
            ys.drop_last(),
        ) + c * (xs.last() * ys.last())) by (nonlinear_arith);
    }
}

/// The slope's sign under scaling of the values: scaling every value by
/// a constant `c` multiplies the slope's numerator by `c` and leaves
/// the denominator — a function of the days alone — untouched. So a
/// positive `c` preserves the trend's sign, and a negative `c` (such as
/// negating every value) flips it.
pub proof fn lemma_slope_sign_under_scaling(xs: Seq<int>, ys: Seq<int>, c: int)
    requires
        xs.len() == ys.len(),
    ensures
        slope_numerator(xs, scaled(ys, c)) == c * slope_numerator(xs, ys),
        c > 0 ==> ((slope_numerator(xs, scaled(ys, c)) > 0) <==> (slope_numerator(xs, ys) > 0)),
        c > 0 ==> ((slope_numerator(xs, scaled(ys, c)) < 0) <==> (slope_numerator(xs, ys) < 0)),
        c < 0 ==> ((slope_numerator(xs, scaled(ys, c)) > 0) <==> (slope_numerator(xs, ys) < 0)),
        c < 0 ==> ((slope_numerator(xs, scaled(ys, c)) < 0) <==> (slope_numerator(xs, ys) > 0)),
{
    lemma_sum_scaled(ys, c);
    lemma_dot_scaled(xs, ys, c);
    let n = xs.len() as int;
    let d = dot(xs, ys);
    let a = sum(xs);
    let b = sum(ys);
    assert(scaled(ys, c).len() == ys.len());
    assert(n * (c * d) - a * (c * b) == c * (n * d - a * b)) by (nonlinear_arith);
    let m = slope_numerator(xs, ys);
    assert((c > 0 ==> ((c * m > 0) <==> (m > 0))) && (c > 0 ==> ((c * m < 0) <==> (m < 0))) && (c
        < 0 ==> ((c * m > 0) <==> (m < 0))) && (c < 0 ==> ((c * m < 0) <==> (m > 0))))
        by (nonlinear_arith);
}

/// The same law spoken of observation lists: a second list on the same
/// days whose values are `c` times the first carries `c` times the
/// slope's numerator and the very same denominator. With `c` positive
/// the trend's sign is unchanged; with `c` negative it flips.
pub proof fn lemma_trend_sign_of_scaled_observations(
    obs1: Seq<Measurement>,
    obs2: Seq<Measurement>,
    c: int,
)
    requires
        obs1.len() == obs2.len(),
        forall|j: int| 0 <= j < obs1.len() ==> (#[trigger] obs2[j]).date == obs1[j].date,
        forall|j: int|
            0 <= j < obs1.len() ==> (#[trigger] obs2[j]).weight.spec_milli()
                == c * obs1[j].weight.spec_milli(),
    ensures
        slope_denominator(day_indexes(obs2)) == slope_denominator(day_indexes(obs1)),
        slope_numerator(day_indexes(obs2), values(obs2)) == c * slope_numerator(
            day_indexes(obs1),
            values(obs1),
        ),
        c > 0 ==> ((slope_numerator(day_indexes(obs2), values(obs2)) > 0) <==> (slope_numerator(
            day_indexes(obs1),
            values(obs1),
        ) > 0)),
        c < 0 ==> ((slope_numerator(day_indexes(obs2), values(obs2)) > 0) <==> (slope_numerator(
            day_indexes(obs1),
            values(obs1),
        ) < 0)),
{
    assert(day_indexes(obs2) =~= day_indexes(obs1));
    assert(values(obs2) =~= scaled(values(obs1), c));
    lemma_slope_sign_under_scaling(day_indexes(obs1), values(obs1), c);
}

} // verus!
