use vstd::prelude::*;
use crate::chart::window::DateWindow;
use crate::date::{lemma_next_day_number, Date, LAST_DAY_NUMBER};
use crate::domain::measurement::{Measurement, Weight};

verus! {

/// One slot of the gap-filled series: a calendar day, and the weight
/// observed on that day, or `None` for a day without data.
#[derive(Debug, Clone, Copy, PartialEq, Eq)]
pub struct DaySlot {
    pub date: Date,
    pub value: Option<Weight>,
}

/// The day-by-day walk the aligner performs: one slot per remaining day,
/// starting at `cur`, with `i` the cursor into the observation list. A
/// day that matches the cursor's observation takes that observation's
/// weight and advances the cursor by one — by one only, so a second
/// same-day observation is not consumed and, the list being sorted, can
/// never match a later day. Duplicates are surfaced separately by the
/// duplicate detector.
pub open spec fn align_rec(obs: Seq<Measurement>, cur: Date, remaining: nat, i: int) -> Seq<
    DaySlot,
>
    decreases remaining,
{
    if remaining == 0 {
        Seq::<DaySlot>::empty()
    } else {
        let matched = 0 <= i < obs.len() && obs[i].date.day_number() == cur.day_number();
        let slot = DaySlot {
            date: cur,
            value: if matched {
                Some(obs[i].weight)
            } else {
                None
            },
        };
        seq![slot] + align_rec(
            obs,
            cur.next_spec(),
            (remaining - 1) as nat,
            if matched {
                i + 1
            } else {
                i
            },
        )
    }
}

/// The gap-filled series of a window: one slot per day of
/// `[start, end)`, in ascending day order.
pub open spec fn aligned(obs: Seq<Measurement>, w: DateWindow) -> Seq<DaySlot> {
    align_rec(obs, w.start, w.day_count() as nat, 0)
}

/// The observations' days grow strictly from row to row — at most one
/// observation per calendar day, in ascending order.
pub open spec fn days_strictly_ascending(obs: Seq<Measurement>) -> bool {
    forall|j1: int, j2: int|
        0 <= j1 < j2 < obs.len() ==> (#[trigger] obs[j1].date.day_number())
            < (#[trigger] obs[j2].date.day_number())
}

/// A valid date short of the last representable day number is not the
/// last representable date.
proof fn lemma_not_last_day(d: Date)
    requires
        d.valid(),
        d.day_number() < LAST_DAY_NUMBER,
    ensures
        !(d.year == 9999 && d.month == 12 && d.day == 31),
{
    if d.year == 9999 && d.month == 12 && d.day == 31 {
        assert(d.day_number() == 3652059);
    }
}

proof fn lemma_align_rec_len(obs: Seq<Measurement>, cur: Date, remaining: nat, i: int)
    ensures
        align_rec(obs, cur, remaining, i).len() == remaining,
    decreases remaining,
{
    if remaining > 0 {
        let matched = 0 <= i < obs.len() && obs[i].date.day_number() == cur.day_number();
        lemma_align_rec_len(
            obs,
            cur.next_spec(),
            (remaining - 1) as nat,
            if matched {
                i + 1
            } else {
                i
            },
        );
    }
}

/// The walk's slots carry consecutive valid days: slot `k` is `k` days
/// after `cur`.
proof fn lemma_align_rec_dates(obs: Seq<Measurement>, cur: Date, remaining: nat, i: int)
    requires
        cur.valid(),
        cur.day_number() + remaining <= LAST_DAY_NUMBER + 1,
    ensures
        forall|k: int|
            0 <= k < remaining ==> (#[trigger] align_rec(obs, cur, remaining, i)[k]).date.valid()
                && align_rec(obs, cur, remaining, i)[k].date.day_number() == cur.day_number() + k,
    decreases remaining,
{
    lemma_align_rec_len(obs, cur, remaining, i);
    if remaining > 0 {
        let matched = 0 <= i < obs.len() && obs[i].date.day_number() == cur.day_number();
        let i2: int = if matched {
            i + 1
        } else {
            i
        };
        if remaining > 1 {
            cur.lemma_day_number_bounds();
            lemma_not_last_day(cur);
            lemma_next_day_number(cur);
            lemma_align_rec_dates(obs, cur.next_spec(), (remaining - 1) as nat, i2);
        }
    }
}

/// Every filled slot owes its value to some observation of that very
/// day, at or after the cursor.
proof fn lemma_align_rec_some(obs: Seq<Measurement>, cur: Date, remaining: nat, i: int)
    requires
        0 <= i <= obs.len(),
    ensures
        forall|k: int|
            0 <= k < remaining && (#[trigger] align_rec(obs, cur, remaining, i)[k]).value is Some
                ==> exists|j: int|
                i <= j < obs.len() && (#[trigger] obs[j].date.day_number()) == align_rec(
                    obs,
                    cur,
                    remaining,
                    i,
                )[k].date.day_number() && align_rec(obs, cur, remaining, i)[k].value == Some(
                    obs[j].weight,
                ),
    decreases remaining,
{
    lemma_align_rec_len(obs, cur, remaining, i);
    if remaining > 0 {
        let matched = 0 <= i < obs.len() && obs[i].date.day_number() == cur.day_number();
        let i2: int = if matched {
            i + 1
        } else {
            i
        };
        lemma_align_rec_some(obs, cur.next_spec(), (remaining - 1) as nat, i2);
        let rec = align_rec(obs, cur, remaining, i);
        let rest = align_rec(obs, cur.next_spec(), (remaining - 1) as nat, i2);
        assert forall|k: int| 0 <= k < remaining && (#[trigger] rec[k]).value is Some implies
            exists|j: int|
                i <= j < obs.len() && (#[trigger] obs[j].date.day_number())
                    == rec[k].date.day_number() && rec[k].value == Some(obs[j].weight) by {
            if k == 0 {
                assert(matched);
                assert(obs[i as int].date.day_number() == rec[0].date.day_number() && rec[0].value
                    == Some(obs[i as int].weight));
            } else {
                assert(rec[k] == rest[k - 1]);
                let j = choose|j: int|
                    i2 <= j < obs.len() && (#[trigger] obs[j].date.day_number())
                        == rest[k - 1].date.day_number() && rest[k - 1].value == Some(
                        obs[j].weight,
                    );
                assert(i <= j < obs.len() && obs[j].date.day_number() == rec[k].date.day_number()
                    && rec[k].value == Some(obs[j].weight));
            }
        }
    }
}

/// Where the observations' days grow strictly and lie in the walk's
/// range, every observation lands in exactly the slot of its day.
proof fn lemma_align_rec_hits(obs: Seq<Measurement>, cur: Date, remaining: nat, i: int)
    requires
        0 <= i <= obs.len(),
        cur.valid(),
        cur.day_number() + remaining <= LAST_DAY_NUMBER + 1,
        days_strictly_ascending(obs),
        forall|j: int|
            i <= j < obs.len() ==> cur.day_number() <= (#[trigger] obs[j].date.day_number())
                < cur.day_number() + remaining,
    ensures
        forall|j: int|
            i <= j < obs.len() ==> (#[trigger] align_rec(obs, cur, remaining, i)[
                obs[j].date.day_number() - cur.day_number()
            ]).value == Some(obs[j].weight),
    decreases remaining,
{
    lemma_align_rec_len(obs, cur, remaining, i);
    if remaining > 0 && i < obs.len() {
        let matched = obs[i as int].date.day_number() == cur.day_number();
        let i2: int = if matched {
            i + 1
        } else {
            i
        };
        cur.lemma_day_number_bounds();
        if remaining > 1 {
            lemma_not_last_day(cur);
            lemma_next_day_number(cur);
        } else {
            // One day left: every remaining observation sits on `cur`,
            // and strict ascent leaves room for only one of them.
            if i + 1 < obs.len() {
                assert(obs[i as int].date.day_number() < obs[i + 1].date.day_number());
                assert(cur.day_number() <= obs[i + 1].date.day_number() < cur.day_number()
                    + remaining);
                assert(false);
            }
        }
        if remaining > 1 {
            lemma_align_rec_hits(obs, cur.next_spec(), (remaining - 1) as nat, i2);
        }
        let rec = align_rec(obs, cur, remaining, i);
        let rest = align_rec(obs, cur.next_spec(), (remaining - 1) as nat, i2);
        assert forall|j: int| i <= j < obs.len() implies (#[trigger] rec[
            obs[j].date.day_number() - cur.day_number()
        ]).value == Some(obs[j].weight) by {
            let k = obs[j].date.day_number() - cur.day_number();
            if matched && j == i {
                assert(rec[0].value == Some(obs[i as int].weight));
            } else {
                // The observation's day lies past `cur`, so the tail of
                // the walk covers it.
                assert(j >= i2 && obs[j].date.day_number() > cur.day_number());
                if remaining > 1 {
                    assert(rest[obs[j].date.day_number() - cur.next_spec().day_number()].value
                        == Some(obs[j].weight));
                    assert(rec[k] == rest[k - 1]);
                }
            }
        }
    }
}

/// Days without a matching observation stay empty: a slot whose day no
/// observation carries holds `None`.
pub proof fn lemma_alignment_gap_days(obs: Seq<Measurement>, w: DateWindow)
    ensures
        forall|k: int|
            0 <= k < aligned(obs, w).len() && (forall|j: int|
                0 <= j < obs.len() ==> (#[trigger] obs[j].date.day_number())
                    != aligned(obs, w)[k].date.day_number()) ==> (#[trigger] aligned(
                obs,
                w,
            )[k]).value is None,
{
    lemma_align_rec_some(obs, w.start, w.day_count() as nat, 0);
    lemma_align_rec_len(obs, w.start, w.day_count() as nat, 0);
    let s = aligned(obs, w);
    assert forall|k: int|
        0 <= k < s.len() && (forall|j: int|
            0 <= j < obs.len() ==> (#[trigger] obs[j].date.day_number())
                != s[k].date.day_number()) implies (#[trigger] s[k]).value is None by {
        if s[k].value is Some {
            let j = choose|j: int|
                0 <= j < obs.len() && (#[trigger] obs[j].date.day_number())
                    == s[k].date.day_number() && s[k].value == Some(obs[j].weight);
            assert(obs[j].date.day_number() != s[k].date.day_number());
            assert(false);
        }
    }
}

/// Every observation on a day of the window that is unique among the
/// observations' days appears in exactly one slot: the slot of its day
/// holds its weight, and no other slot shares that day.
pub proof fn lemma_alignment_unique_days(obs: Seq<Measurement>, w: DateWindow)
    requires
        w.wf(),
        days_strictly_ascending(obs),
        forall|j: int|
            0 <= j < obs.len() ==> w.start.day_number() <= (#[trigger] obs[j].date.day_number())
                < w.end.day_number(),
    ensures
        forall|j: int|
            0 <= j < obs.len() ==> 0 <= (#[trigger] obs[j].date.day_number())
                - w.start.day_number() < aligned(obs, w).len(),
        forall|j: int|
            0 <= j < obs.len() ==> (#[trigger] aligned(obs, w)[obs[j].date.day_number()
                - w.start.day_number()]).value == Some(obs[j].weight),
        forall|j: int, k: int|
            0 <= j < obs.len() && 0 <= k < aligned(obs, w).len() && k != obs[j].date.day_number()
                - w.start.day_number() ==> (#[trigger] aligned(obs, w)[k]).date.day_number() != (
            #[trigger] obs[j].date.day_number()),
{
    let count = w.day_count() as nat;
    lemma_align_rec_len(obs, w.start, count, 0);
    w.start.lemma_day_number_bounds();
    w.end.lemma_day_number_bounds();
    lemma_align_rec_dates(obs, w.start, count, 0);
    lemma_align_rec_hits(obs, w.start, count, 0);
}

/// Builds the gap-filled daily series of a window: one slot per calendar
/// day of `[start, end)`, carrying the weight observed on that day or
/// `None` where no observation matches.
///
/// The observations must arrive ordered ascending by time, already
/// restricted to the window, as the measurement store supplies them; the
/// walk consumes at most one observation per day.
pub fn align(observations: &Vec<Measurement>, window: &DateWindow) -> (slots: Vec<DaySlot>)
    requires
        window.wf(),
        forall|j: int|
            0 <= j < observations@.len() ==> (#[trigger] observations@[j]).date.valid(),
    ensures
        slots@ == aligned(observations@, *window),
        slots@.len() == window.day_count(),
        forall|k: int|
            0 <= k < slots@.len() ==> (#[trigger] slots@[k]).date.valid()
                && slots@[k].date.day_number() == window.start.day_number() + k,
{
    let end_days: i64 = window.end.days_from_ce();
    let mut slots: Vec<DaySlot> = Vec::new();
    let mut current: Date = window.start;
    let mut i: usize = 0;
    proof {
        window.start.lemma_day_number_bounds();
    }
    while current.days_from_ce() < end_days
        invariant
            window.wf(),
            forall|j: int|
                0 <= j < observations@.len() ==> (#[trigger] observations@[j]).date.valid(),
            end_days == window.end.day_number(),
            1 <= end_days <= LAST_DAY_NUMBER,
            current.valid(),
            i <= observations@.len(),
            window.start.day_number() <= current.day_number(),
            current.day_number() <= window.end.day_number() || current == window.start,
            slots@.len() == if current.day_number() <= window.end.day_number() {
                current.day_number() - window.start.day_number()
            } else {
                0int
            },
            aligned(observations@, *window) == slots@ + align_rec(
                observations@,
                current,
                (window.day_count() - slots@.len()) as nat,
                i as int,
            ),
        decreases window.end.day_number() - current.day_number(),
    {
        let ghost prev_slots = slots@;
        let ghost rem = (window.day_count() - slots@.len()) as nat;
        proof {
            assert(rem == window.end.day_number() - current.day_number());
        }
        let matched: bool = if i < observations.len() {
            let od: i64 = observations[i].date.days_from_ce();
            od == current.days_from_ce()
        } else {
            false
        };
        if matched {
            slots.push(DaySlot { date: current, value: Some(observations[i].weight) });
            i = i + 1;
        } else {
            slots.push(DaySlot { date: current, value: None });
        }
        proof {
            let obs = observations@;
            let i_old = if matched {
                i - 1
            } else {
                i as int
            };
            let slot = DaySlot {
                date: current,
                value: if matched {
                    Some(obs[i_old].weight)
                } else {
                    None
                },
            };
            assert(align_rec(obs, current, rem, i_old) == seq![slot] + align_rec(
                obs,
                current.next_spec(),
                (rem - 1) as nat,
                i as int,
            ));
            assert(prev_slots + align_rec(obs, current, rem, i_old) =~= slots@ + align_rec(
                obs,
                current.next_spec(),
                (rem - 1) as nat,
                i as int,
            ));
            lemma_not_last_day(current);
        }
        current = current.next_day();
    }
    proof {
        assert((window.day_count() - slots@.len()) as nat == 0);
        assert(aligned(observations@, *window) =~= slots@);
        lemma_align_rec_len(observations@, window.start, window.day_count() as nat, 0);
        lemma_align_rec_dates(observations@, window.start, window.day_count() as nat, 0);
    }
    slots
}

} // verus!
