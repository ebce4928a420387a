use vstd::prelude::*;
use crate::date::Date;
use crate::domain::measurement::Measurement;

verus! {

/// A calendar day that carries more than one observation, with how many
/// it carries. Surfaced purely as a user-facing warning; duplicates do
/// not change the aligned series or the trend.
#[derive(Debug, Clone, Copy, PartialEq, Eq)]
pub struct DuplicateGroup {
    pub date: Date,
    pub count: usize,
}

/// How many observations fall on the day with day number `day`.
pub open spec fn count_on_day(obs: Seq<Measurement>, day: int) -> int
    decreases obs.len(),
{
    if obs.len() == 0 {
        0
    } else {
        (if obs[0].date.day_number() == day {
            1int
        } else {
            0int
        }) + count_on_day(obs.skip(1), day)
    }
}

/// The observations' days never fall back from row to row: ascending by
/// day, with several rows per day allowed.
pub open spec fn days_ascending(obs: Seq<Measurement>) -> bool {
    forall|j1: int, j2: int|
        0 <= j1 < j2 < obs.len() ==> (#[trigger] obs[j1].date.day_number())
            <= (#[trigger] obs[j2].date.day_number())
}

proof fn lemma_count_skip_step(obs: Seq<Measurement>, day: int, i: int)
    requires
        0 <= i < obs.len(),
    ensures
        count_on_day(obs.skip(i), day) == (if obs[i].date.day_number() == day {
            1int
        } else {
            0int
        }) + count_on_day(obs.skip(i + 1), day),
{
    assert(obs.skip(i).skip(1) =~= obs.skip(i + 1));
    assert(obs.skip(i)[0] == obs[i]);
}

proof fn lemma_count_zero_from(obs: Seq<Measurement>, day: int, j: int)
    requires
        0 <= j <= obs.len(),
        forall|m: int|
            j <= m < obs.len() ==> (#[trigger] obs[m].date.day_number()) != day,
    ensures
        count_on_day(obs.skip(j), day) == 0,
    decreases obs.len() - j,
{
    if j < obs.len() {
        lemma_count_skip_step(obs, day, j);
        lemma_count_zero_from(obs, day, j + 1);
    }
}

proof fn lemma_count_run(obs: Seq<Measurement>, day: int, i: int, j: int)
    requires
        0 <= i <= j <= obs.len(),
        forall|m: int| i <= m < j ==> (#[trigger] obs[m].date.day_number()) == day,
    ensures
        count_on_day(obs.skip(i), day) == (j - i) + count_on_day(obs.skip(j), day),
    decreases j - i,
{
    if i < j {
        lemma_count_skip_step(obs, day, i);
        lemma_count_run(obs, day, i + 1, j);
    }
}

proof fn lemma_count_prefix_skip(obs: Seq<Measurement>, day: int, i: int)
    requires
        0 <= i <= obs.len(),
        forall|m: int| 0 <= m < i ==> (#[trigger] obs[m].date.day_number()) != day,
    ensures
        count_on_day(obs, day) == count_on_day(obs.skip(i), day),
    decreases i,
{
    if i > 0 {
        lemma_count_prefix_skip(obs, day, i - 1);
        lemma_count_skip_step(obs, day, i - 1);
    } else {
        assert(obs.skip(0) =~= obs);
    }
}

/// A day counted at least once is the day of some observation.
proof fn lemma_count_pos(obs: Seq<Measurement>, day: int)
    requires
        count_on_day(obs, day) > 0,
    ensures
        exists|m: int| 0 <= m < obs.len() && (#[trigger] obs[m].date.day_number()) == day,
{
    if forall|m: int| 0 <= m < obs.len() ==> (#[trigger] obs[m].date.day_number()) != day {
        lemma_count_zero_from(obs, day, 0);
        assert(obs.skip(0) =~= obs);
        assert(false);
    }
}

/// Groups the observations by local calendar day and reports every day
/// that carries two or more of them: exactly one group per such day,
/// with that day's count, in ascending day order. Days with at most one
/// observation yield no group.
#[verifier::rlimit(80)]
pub fn find_duplicates(observations: &Vec<Measurement>) -> (groups: Vec<DuplicateGroup>)
    requires
        forall|j: int|
            0 <= j < observations@.len() ==> (#[trigger] observations@[j]).date.valid(),
        days_ascending(observations@),
    ensures
        forall|k: int|
            0 <= k < groups@.len() ==> (#[trigger] groups@[k]).count >= 2 && count_on_day(
                observations@,
                groups@[k].date.day_number(),
            ) == groups@[k].count,
        forall|day: int|
            count_on_day(observations@, day) >= 2 ==> exists|k: int|
                0 <= k < groups@.len() && (#[trigger] groups@[k].date.day_number()) == day,
        forall|k1: int, k2: int|
            0 <= k1 < k2 < groups@.len() ==> (#[trigger] groups@[k1].date.day_number())
                < (#[trigger] groups@[k2].date.day_number()),
        forall|k: int|
            0 <= k < groups@.len() ==> exists|j: int|
                0 <= j < observations@.len()
                    && observations@[j].date == (#[trigger] groups@[k]).date,
{
    let obs_len: usize = observations.len();
    let mut groups: Vec<DuplicateGroup> = Vec::new();
    let mut i: usize = 0;
    proof {
        let obs = observations@;
        // No day before the first observation's day is counted at all.
        assert forall|day: int|
            (obs.len() > 0 ==> day < obs[0].date.day_number()) && count_on_day(obs, day)
                >= 2 implies exists|k: int|
            0 <= k < groups@.len() && (#[trigger] groups@[k].date.day_number()) == day by {
            lemma_count_pos(obs, day);
            let m = choose|m: int|
                0 <= m < obs.len() && (#[trigger] obs[m].date.day_number()) == day;
            if m > 0 {
                assert(obs[m].date.day_number() >= obs[0].date.day_number());
            }
            assert(false);
        }
    }
    while i < obs_len
        invariant
            forall|j: int|
                0 <= j < observations@.len() ==> (#[trigger] observations@[j]).date.valid(),
            days_ascending(observations@),
            obs_len == observations@.len(),
            0 <= i <= obs_len,
            i == 0 || i == obs_len || observations@[i - 1].date.day_number()
                < observations@[i as int].date.day_number(),
            forall|k: int|
                0 <= k < groups@.len() ==> (#[trigger] groups@[k]).count >= 2 && count_on_day(
                    observations@,
                    groups@[k].date.day_number(),
                ) == groups@[k].count,
            forall|day: int|
                (i < obs_len ==> day < observations@[i as int].date.day_number()) && count_on_day(
                    observations@,
                    day,
                ) >= 2 ==> exists|k: int|
                    0 <= k < groups@.len() && (#[trigger] groups@[k].date.day_number()) == day,
            forall|k1: int, k2: int|
                0 <= k1 < k2 < groups@.len() ==> (#[trigger] groups@[k1].date.day_number())
                    < (#[trigger] groups@[k2].date.day_number()),
            forall|k: int|
                0 <= k < groups@.len() && i < obs_len ==> (#[trigger] groups@[k].date.day_number())
                    < observations@[i as int].date.day_number(),
            forall|k: int|
                0 <= k < groups@.len() ==> exists|j: int|
                    0 <= j < observations@.len()
                        && observations@[j].date == (#[trigger] groups@[k]).date,
        decreases obs_len - i,
    {
        let d: i64 = observations[i].date.days_from_ce();
        let mut j: usize = i + 1;
        while j < obs_len && observations[j].date.days_from_ce() == d
            invariant
                forall|jj: int|
                    0 <= jj < observations@.len() ==> (#[trigger] observations@[jj]).date.valid(),
                obs_len == observations@.len(),
                i < j <= obs_len,
                d == observations@[i as int].date.day_number(),
                forall|m: int|
                    i <= m < j ==> (#[trigger] observations@[m].date.day_number()) == d,
            decreases obs_len - j,
        {
            j = j + 1;
        }
        proof {
            let obs = observations@;
            let di = d as int;
            // Everything before the run lies on strictly earlier days,
            // everything after on strictly later ones.
            assert forall|m: int| 0 <= m < i implies (#[trigger] obs[m].date.day_number())
                < di by {
                if m < i - 1 {
                    assert(obs[m].date.day_number() <= obs[i - 1].date.day_number());
                }
            }
            assert forall|m: int| j <= m < obs.len() implies (#[trigger] obs[m].date.day_number())
                > di by {
                assert(obs[j as int].date.day_number() >= obs[i as int].date.day_number());
                assert(obs[j as int].date.day_number() != di);
                if m > j {
                    assert(obs[m].date.day_number() >= obs[j as int].date.day_number());
                }
            }
            lemma_count_prefix_skip(obs, di, i as int);
            lemma_count_run(obs, di, i as int, j as int);
            lemma_count_zero_from(obs, di, j as int);
            assert(count_on_day(obs, di) == j - i);
        }
        let ghost groups_before = groups@;
        if j - i >= 2 {
            groups.push(DuplicateGroup { date: observations[i].date, count: j - i });
            proof {
                assert(groups@[groups@.len() - 1].date == observations@[i as int].date);
            }
        }
        proof {
            let obs = observations@;
            let di = d as int;
            // Days strictly between this run and the next carry no
            // observation at all, so no group is owed for them.
            assert forall|day: int|
                (j < obs_len ==> day < obs[j as int].date.day_number()) && count_on_day(obs, day)
                    >= 2 implies exists|k: int|
                0 <= k < groups@.len() && (#[trigger] groups@[k].date.day_number()) == day by {
                if day < di {
                    let k = choose|k: int|
                        0 <= k < groups_before.len() && (#[trigger] groups_before[k].date.day_number()) == day;
                    assert(groups@[k].date.day_number() == day);
                } else if day == di {
                    assert(groups@[groups@.len() - 1].date.day_number() == day);
                } else {
                    lemma_count_pos(obs, day);
                    let m = choose|m: int|
                        0 <= m < obs.len() && (#[trigger] obs[m].date.day_number()) == day;
                    if m < i {
                        assert(obs[m].date.day_number() < di);
                    } else if m < j {
                        assert(obs[m].date.day_number() == di);
                    } else {
                        assert(obs[m].date.day_number() >= obs[j as int].date.day_number());
                    }
                    assert(false);
                }
            }
        }
        i = j;
    }
    groups
}

} // verus!
