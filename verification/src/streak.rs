//! The activity streak: runs of consecutive calendar days.
//!
//! What a streak is, is said over the set of days on which something was
//! recorded; the order in which the days became known plays no part. The
//! computation sorts the days and walks them once.

use vstd::prelude::*;

verus! {

/// The `n` days that end with `end` all lie in `days`.
pub open spec fn covers(days: Set<int>, end: int, n: nat) -> bool {
    forall|day: int| end - n < day <= end ==> #[trigger] days.contains(day)
}

/// The unbroken run of days that ends with `end` is `n` days long: those `n`
/// days lie in `days` and the day before them does not. A day outside `days`
/// ends a run of length zero.
pub open spec fn is_run(days: Set<int>, end: int, n: nat) -> bool {
    covers(days, end, n) && !days.contains(end - n)
}

/// The length of the unbroken run of days that ends with `end`.
pub open spec fn run_ending_at(days: Set<int>, end: int) -> nat {
    choose|n: nat| is_run(days, end, n)
}

/// `day` is the most recent day of `days`.
pub open spec fn is_latest(days: Set<int>, day: int) -> bool {
    days.contains(day) && forall|other: int| #[trigger] days.contains(other) ==> other <= day
}

/// The most recent day of `days`.
pub open spec fn latest(days: Set<int>) -> int {
    choose|day: int| is_latest(days, day)
}

/// `n` is the length of the longest unbroken run in `days`: some run has
/// that length and none is longer.
pub open spec fn is_longest(days: Set<int>, n: nat) -> bool {
    &&& exists|end: int| #[trigger] days.contains(end) && is_run(days, end, n)
    &&& forall|end: int, m: nat| #[trigger] is_run(days, end, m) ==> m <= n
}

/// The current streak as of `today`: the run that ends with the most recent
/// day, provided that day is today, yesterday or later; zero otherwise, and
/// zero for no days at all.
pub open spec fn current_streak(days: Set<int>, today: int) -> nat {
    if days == Set::<int>::empty() {
        0
    } else if today - latest(days) <= 1 {
        run_ending_at(days, latest(days))
    } else {
        0
    }
}

/// The longest streak: the length of the longest unbroken run in `days`,
/// and zero for no days at all.
pub open spec fn longest_streak(days: Set<int>) -> nat {
    if days == Set::<int>::empty() {
        0
    } else {
        choose|n: nat| is_longest(days, n)
    }
}

/// The set of the days that a list holds.
pub open spec fn day_set(list: Seq<i64>) -> Set<int> {
    Set::new(|day: int| exists|i: int| 0 <= i < list.len() && #[trigger] list[i] == day)
}

/// The list never steps down.
pub open spec fn ascending(list: Seq<i64>) -> bool {
    forall|i: int, j: int| 0 <= i <= j < list.len() ==> list[i] <= list[j]
}

/// A run that ends with a given day has one length only.
pub proof fn lemma_run_unique(days: Set<int>, end: int, a: nat, b: nat)
    requires
        is_run(days, end, a),
        is_run(days, end, b),
    ensures
        a == b,
{
    if a < b {
        assert(days.contains(end - a));
    } else if b < a {
        assert(days.contains(end - b));
    }
}

/// A run whose length is known is the run that [`run_ending_at`] names.
pub proof fn lemma_run_is(days: Set<int>, end: int, n: nat)
    requires
        is_run(days, end, n),
    ensures
        run_ending_at(days, end) == n,
{
    lemma_run_unique(days, end, run_ending_at(days, end), n);
}

/// A most recent day that is known is the day that [`latest`] names.
pub proof fn lemma_latest_is(days: Set<int>, day: int)
    requires
        is_latest(days, day),
    ensures
        latest(days) == day,
{
    let chosen = latest(days);
    assert(is_latest(days, chosen));
    assert(days.contains(chosen));
    assert(days.contains(day));
}

/// A longest run whose length is known is what [`longest_streak`] names.
pub proof fn lemma_longest_is(days: Set<int>, n: nat)
    requires
        is_longest(days, n),
    ensures
        longest_streak(days) == n,
        days != Set::<int>::empty(),
{
    let end = choose|end: int| #[trigger] days.contains(end) && is_run(days, end, n);
    assert(days.contains(end));
    assert(days != Set::<int>::empty());
    let chosen = choose|m: nat| is_longest(days, m);
    assert(is_longest(days, chosen));
    let other = choose|end: int| #[trigger] days.contains(end) && is_run(days, end, chosen);
    assert(is_run(days, end, n));
    assert(is_run(days, other, chosen));
}

/// Within a finite set every day ends a run, and no run is longer than the
/// set is large.
pub proof fn lemma_run_exists(days: Set<int>, end: int)
    requires
        days.finite(),
    ensures
        is_run(days, end, run_ending_at(days, end)),
        run_ending_at(days, end) <= days.len(),
    decreases days.len(),
{
    if days.contains(end) {
        let rest = days.remove(end);
        lemma_run_exists(rest, end - 1);
        let shorter = run_ending_at(rest, end - 1);
        assert(is_run(days, end, shorter + 1)) by {
            assert forall|day: int| end - (shorter + 1) < day <= end implies #[trigger] days.contains(
                day,
            ) by {
                if day != end {
                    assert(rest.contains(day));
                }
            }
        }
        lemma_run_is(days, end, shorter + 1);
    } else {
        assert(is_run(days, end, 0));
        lemma_run_is(days, end, 0);
    }
}

/// In a finite set that is not empty, some element scores highest.
pub proof fn lemma_highest_exists(among: Set<int>, score: spec_fn(int) -> int)
    requires
        among.finite(),
        among.len() > 0,
    ensures
        exists|best: int|
            among.contains(best) && forall|other: int| #[trigger]
                among.contains(other) ==> score(other) <= score(best),
    decreases among.len(),
{
    let picked = among.choose();
    let rest = among.remove(picked);
    if rest.len() == 0 {
        assert forall|other: int| #[trigger] among.contains(other) implies score(other) <= score(
            picked,
        ) by {
            if other != picked {
                assert(rest.contains(other));
            }
        }
    } else {
        lemma_highest_exists(rest, score);
        let runner = choose|best: int|
            rest.contains(best) && forall|other: int| #[trigger]
                rest.contains(other) ==> score(other) <= score(best);
        let best = if score(picked) > score(runner) {
            picked
        } else {
            runner
        };
        assert forall|other: int| #[trigger] among.contains(other) implies score(other) <= score(
            best,
        ) by {
            if other != picked {
                assert(rest.contains(other));
            }
        }
    }
}

/// For a finite set of days that is not empty, the streaks are what their
/// names say: there is a most recent day, it ends a run, and some run is the
/// longest. The current streak is at most the longest, and the longest is at
/// least one day and at most as many days as the set holds.
pub proof fn lemma_streaks_exist(days: Set<int>, today: int)
    requires
        days.finite(),
        days != Set::<int>::empty(),
    ensures
        is_latest(days, latest(days)),
        is_run(days, latest(days), run_ending_at(days, latest(days))),
        is_longest(days, longest_streak(days)),
        current_streak(days, today) <= longest_streak(days),
        1 <= longest_streak(days) <= days.len(),
{
    assert(days.len() > 0) by {
        if days.len() == 0 {
            assert(days =~= Set::<int>::empty());
        }
    }
    lemma_highest_exists(days, |day: int| day);
    let last = choose|best: int|
        days.contains(best) && forall|other: int| #[trigger]
            days.contains(other) ==> other <= best;
    assert(is_latest(days, last));
    lemma_latest_is(days, last);
    lemma_run_exists(days, last);

    let score = |end: int| run_ending_at(days, end) as int;
    lemma_highest_exists(days, score);
    let best = choose|best: int|
        days.contains(best) && forall|other: int| #[trigger]
            days.contains(other) ==> score(other) <= score(best);
    let longest = run_ending_at(days, best);
    lemma_run_exists(days, best);
    assert forall|end: int, m: nat| #[trigger] is_run(days, end, m) implies m <= longest by {
        if m > 0 {
            assert(days.contains(end));
            lemma_run_is(days, end, m);
            assert(score(end) <= score(best));
        }
    }
    assert(is_longest(days, longest));
    lemma_longest_is(days, longest);
    assert(score(last) <= score(best));
    assert(longest >= 1) by {
        if longest == 0 {
            assert(!days.contains(best - 0));
        }
    }
}

/// The days of a list are finitely many, and no more than the list is long.
pub proof fn lemma_day_set_finite(list: Seq<i64>)
    ensures
        day_set(list).finite(),
        day_set(list).len() <= list.len(),
    decreases list.len(),
{
    if list.len() == 0 {
        assert(day_set(list) =~= Set::<int>::empty());
    } else {
        let earlier = list.drop_last();
        lemma_day_set_finite(earlier);
        assert forall|day: int| day_set(list).contains(day) <==> day_set(earlier).insert(
            list.last() as int,
        ).contains(day) by {
            if day_set(list).contains(day) {
                let k = choose|k: int| 0 <= k < list.len() && #[trigger] list[k] == day;
                if k < earlier.len() {
                    assert(earlier[k] == day);
                }
            }
            if day_set(earlier).contains(day) {
                let k = choose|k: int| 0 <= k < earlier.len() && #[trigger] earlier[k] == day;
                assert(list[k] == day);
            }
            if day == list.last() {
                assert(list[list.len() - 1] == day);
            }
        }
        assert(day_set(list) =~= day_set(earlier).insert(list.last() as int));
    }
}

/// The streaks of the days of a list fit wherever the length of the list
/// fits: the current streak is at most the longest, and the longest is at
/// most the length of the list.
pub proof fn lemma_streaks_fit(list: Seq<i64>, today: int)
    ensures
        current_streak(day_set(list), today) <= longest_streak(day_set(list)) <= list.len(),
{
    lemma_day_set_finite(list);
    if day_set(list) != Set::<int>::empty() {
        lemma_streaks_exist(day_set(list), today);
    }
}

/// An unbroken stretch of days that ends today is its own streak: for the
/// days from `first` to `today`, the current and the longest streak both
/// equal the number of days.
pub proof fn lemma_consecutive_days_streak(days: Set<int>, first: int, today: int)
    requires
        first <= today,
        forall|day: int| days.contains(day) <==> first <= day <= today,
    ensures
        days.finite(),
        current_streak(days, today) == days.len(),
        longest_streak(days) == days.len(),
        days.len() == today - first + 1,
{
    let n = (today - first + 1) as nat;
    vstd::set_lib::lemma_int_range(first, today + 1);
    assert(days =~= vstd::set_lib::set_int_range(first, today + 1));
    assert(days.contains(today));
    assert(days != Set::<int>::empty());
    assert(is_latest(days, today));
    lemma_latest_is(days, today);
    assert(is_run(days, today, n));
    lemma_run_is(days, today, n);
    assert forall|end: int, m: nat| #[trigger] is_run(days, end, m) implies m <= n by {
        if m > n {
            assert(days.contains(end));
            assert(days.contains(end - n));
            assert(end - m < end - n - 1 + 1);
            if end - n >= first {
                assert(days.contains(first));
                assert(end - m < first - 1 || days.contains(first - 1)) by {
                    if end - m < first - 1 {
                    } else {
                        assert(end - m < first - 1 + 1 <= end);
                    }
                }
                assert(end - m < first - 1);
                assert(end <= today);
            }
        }
    }
    assert(is_longest(days, n));
    lemma_longest_is(days, n);
}

/// The days of `list`, each as often as the list names it, in ascending
/// order.
pub fn sorted_days(list: &Vec<i64>) -> (sorted: Vec<i64>)
    ensures
        ascending(sorted@),
        sorted@.to_multiset() == list@.to_multiset(),
        day_set(sorted@) == day_set(list@),
        sorted@.len() == list@.len(),
{
    let mut sorted: Vec<i64> = Vec::new();
    let mut i: usize = 0;
    proof {
        assert(day_set(sorted@) =~= day_set(list@.take(0)));
        assert(sorted@ =~= list@.take(0));
    }
    while i < list.len()
        invariant
            i <= list@.len(),
            sorted@.len() == i,
            ascending(sorted@),
            sorted@.to_multiset() == list@.take(i as int).to_multiset(),
            day_set(sorted@) == day_set(list@.take(i as int)),
        decreases list@.len() - i,
    {
        let day = list[i];
        let mut at: usize = sorted.len();
        while at > 0 && sorted[at - 1] > day
            invariant
                at <= sorted@.len(),
                forall|k: int| at <= k < sorted@.len() ==> day < #[trigger] sorted@[k],
            decreases at,
        {
            at -= 1;
        }
        let ghost before = sorted@;
        sorted.insert(at, day);
        proof {
            let after = sorted@;
            vstd::seq_lib::to_multiset_insert(before, at as int, day);
            vstd::seq_lib::to_multiset_build(list@.take(i as int), day);
            assert(list@.take(i + 1) =~= list@.take(i as int).push(day));
            assert forall|a: int, b: int| 0 <= a <= b < after.len() implies after[a] <= after[b] by {
                if a < at && b > at {
                    assert(after[a] == before[a] && after[b] == before[b - 1]);
                } else if a < at && b < at {
                    assert(after[a] == before[a] && after[b] == before[b]);
                } else if a > at {
                    assert(after[a] == before[a - 1] && after[b] == before[b - 1]);
                } else if a == at && b > at {
                    assert(after[b] == before[b - 1]);
                } else if b == at && a < at {
                    assert(after[a] == before[a]);
                    if at > 0 {
                        assert(before[a] <= before[at - 1]);
                    }
                }
            }
            let shorter = list@.take(i as int);
            let longer = list@.take(i + 1);
            assert forall|d: int| day_set(after).contains(d) <==> day_set(longer).contains(d) by {
                if day_set(after).contains(d) {
                    let k = choose|k: int| 0 <= k < after.len() && #[trigger] after[k] == d;
                    if k == at {
                        assert(longer[i as int] == d);
                    } else {
                        let back = if k < at {
                            k
                        } else {
                            k - 1
                        };
                        assert(before[back] == d);
                        assert(day_set(before).contains(d));
                        let m = choose|m: int| 0 <= m < shorter.len() && #[trigger] shorter[m] == d;
                        assert(longer[m] == d);
                    }
                }
                if day_set(longer).contains(d) {
                    let m = choose|m: int| 0 <= m < longer.len() && #[trigger] longer[m] == d;
                    if m == i {
                        assert(after[at as int] == d);
                    } else {
                        assert(shorter[m] == d);
                        assert(day_set(shorter).contains(d));
                        let k = choose|k: int| 0 <= k < before.len() && #[trigger] before[k] == d;
                        let forth = if k < at {
                            k
                        } else {
                            k + 1
                        };
                        assert(after[forth] == d);
                    }
                }
            }
            assert(day_set(after) =~= day_set(longer));
        }
        i += 1;
    }
    proof {
        assert(list@.take(i as int) =~= list@);
    }
    sorted
}

/// The current and the longest streak of the days in `list`, as of the day
/// `today`. The list may name its days in any order, and more than once.
pub fn compute_streaks(list: &Vec<i64>, today: i64) -> (streaks: (u32, u32))
    requires
        list@.len() <= u32::MAX,
    ensures
        streaks.0 == current_streak(day_set(list@), today as int),
        streaks.1 == longest_streak(day_set(list@)),
        streaks.0 <= streaks.1,
{
    let ghost days = day_set(list@);
    if list.len() == 0 {
        proof {
            assert(days =~= Set::<int>::empty());
        }
        return (0, 0);
    }
    let sorted = sorted_days(list);
    let mut run: u32 = 1;
    let mut longest: u32 = 1;
    let mut i: usize = 1;
    proof {
        assert(days.contains(sorted@[0] as int));
        assert(is_run(days, sorted@[0] as int, 1)) by {
            if days.contains(sorted@[0] - 1) {
                let k = choose|k: int| 0 <= k < sorted@.len() && #[trigger] sorted@[k] == sorted@[0] - 1;
                assert(sorted@[0] <= sorted@[k]);
            }
        }
        lemma_run_is(days, sorted@[0] as int, 1);
    }
    while i < sorted.len()
        invariant
            1 <= i <= sorted@.len(),
            sorted@.len() == list@.len(),
            list@.len() <= u32::MAX,
            ascending(sorted@),
            days == day_set(sorted@),
            1 <= run <= i,
            run <= longest <= i,
            is_run(days, sorted@[i - 1] as int, run as nat),
            forall|k: int| 0 <= k < i ==> run_ending_at(days, #[trigger] sorted@[k] as int) <= longest,
            exists|k: int| 0 <= k < i && is_run(days, #[trigger] sorted@[k] as int, longest as nat),
        decreases sorted@.len() - i,
    {
        let previous = sorted[i - 1];
        let day = sorted[i];
        let ghost witness = choose|k: int|
            0 <= k < i && is_run(days, #[trigger] sorted@[k] as int, longest as nat);
        proof {
            assert(sorted@[i - 1] <= sorted@[i as int]);
            assert(days.contains(day as int));
        }
        if day == previous {
        } else if previous < i64::MAX && previous + 1 == day {
            proof {
                assert(is_run(days, day as int, (run + 1) as nat));
            }
            run = run + 1;
        } else {
            proof {
                assert(is_run(days, day as int, 1)) by {
                    if days.contains(day - 1) {
                        let k = choose|k: int|
                            0 <= k < sorted@.len() && #[trigger] sorted@[k] == day - 1;
                        if k < i {
                            assert(sorted@[k] <= sorted@[i - 1]);
                        } else {
                            assert(sorted@[i as int] <= sorted@[k]);
                        }
                    }
                }
            }
            run = 1;
        }
        proof {
            lemma_run_is(days, day as int, run as nat);
        }
        if run > longest {
            longest = run;
            proof {
                assert(is_run(days, sorted@[i as int] as int, longest as nat));
            }
        } else {
            proof {
                assert(is_run(days, sorted@[witness] as int, longest as nat));
            }
        }
        i += 1;
    }
    let last = sorted[sorted.len() - 1];
    proof {
        assert(days.contains(last as int));
        assert(days != Set::<int>::empty());
        assert(is_latest(days, last as int)) by {
            assert forall|other: int| #[trigger] days.contains(other) implies other <= last by {
                let k = choose|k: int| 0 <= k < sorted@.len() && #[trigger] sorted@[k] == other;
                assert(sorted@[k] <= sorted@[sorted@.len() - 1]);
            }
        }
        lemma_latest_is(days, last as int);
        lemma_run_is(days, last as int, run as nat);
        let witness = choose|k: int|
            0 <= k < i && is_run(days, #[trigger] sorted@[k] as int, longest as nat);
        assert(days.contains(sorted@[witness] as int));
        assert forall|end: int, m: nat| #[trigger] is_run(days, end, m) implies m <= longest by {
            if m > 0 {
                assert(days.contains(end));
                let k = choose|k: int| 0 <= k < sorted@.len() && #[trigger] sorted@[k] == end;
                lemma_run_is(days, end, m);
                assert(run_ending_at(days, sorted@[k] as int) <= longest);
            }
        }
        assert(is_longest(days, longest as nat));
        lemma_longest_is(days, longest as nat);
    }
    let current: u32 = if today <= last || today - 1 == last {
        run
    } else {
        0
    };
    (current, longest)
}

} // verus!
