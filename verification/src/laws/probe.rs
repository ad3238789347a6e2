//! Laws of the probe.

use vstd::prelude::*;

use crate::cpu_probe::{CategoryStats, Probe, Report, ReportLine, MAX_DURATION};

verus! {

use crate::cpu_probe::{
    accumulated,
    no_stats,
    one_more,
    one_more_fits,
    probe_state,
    recorded,
    reports,
    time_between,
    ProbeView,
};
use crate::text::{lemma_text_before_asymmetric, lemma_text_before_irreflexive, text_before};

/// Recording adds to one category and leaves the others, and the time of the last report, alone.
pub proof fn law_recording_touches_one_category(
    state: ProbeView,
    category: Seq<char>,
    elapsed: Option<u128>,
    other: Seq<char>,
)
    ensures
        recorded(state, category, elapsed).of(category) == one_more(state.of(category), elapsed),
        other != category ==> recorded(state, category, elapsed).of(other) == state.of(other),
        recorded(state, category, elapsed).last_flush == state.last_flush,
{
}

/// The order in which two occurrences are recorded does not matter.
pub proof fn law_recording_order_does_not_matter(
    state: ProbeView,
    a: Seq<char>,
    x: Option<u128>,
    b: Seq<char>,
    y: Option<u128>,
)
    requires
        one_more_fits(state.of(a), x),
        one_more_fits(state.of(b), y),
        one_more_fits(recorded(state, a, x).of(b), y),
    ensures
        recorded(recorded(state, a, x), b, y) == recorded(recorded(state, b, y), a, x),
{
    let left = recorded(recorded(state, a, x), b, y);
    let right = recorded(recorded(state, b, y), a, x);
    if a != b {
        assert(recorded(state, a, x).of(b) == state.of(b));
        assert(recorded(state, b, y).of(a) == state.of(a));
    }
    assert(left.stats =~= right.stats);
}

/// Whether the statistics can come from recording: no occurrence took longer than all together,
/// and all together took no longer than if each had taken as long as the longest.
pub open spec fn consistent(stats: CategoryStats) -> bool {
    stats.max <= stats.total <= stats.count * stats.max
}

/// Statistics stay consistent: the longest time is at least the average and at most the total.
pub proof fn law_stats_stay_consistent(stats: CategoryStats, elapsed: Option<u128>)
    requires
        one_more_fits(stats, elapsed),
        consistent(stats),
    ensures
        consistent(no_stats()),
        consistent(one_more(stats, elapsed)),
{
    let after = one_more(stats, elapsed);
    let count = stats.count as int;
    let max = stats.max as int;
    let longest = after.max as int;
    let taken = took(elapsed) as int;
    assert(count * max <= count * longest) by (nonlinear_arith)
        requires
            0 <= count,
            max <= longest,
    ;
    assert((count + 1) * longest == count * longest + longest) by (nonlinear_arith);
    assert(taken <= longest);
}

/// How long an occurrence took, in nanoseconds; one that was only counted took no time.
pub open spec fn took(elapsed: Option<u128>) -> u128 {
    if elapsed is Some {
        elapsed->0
    } else {
        0
    }
}

/// One occurrence of a category, with the time it took.
pub ghost struct Occurrence {
    pub category: Seq<char>,
    pub elapsed: Option<u128>,
}

/// The state after a sequence of occurrences.
pub open spec fn all_recorded(state: ProbeView, occurrences: Seq<Occurrence>) -> ProbeView
    decreases occurrences.len(),
{
    if occurrences.len() == 0 {
        state
    } else {
        recorded(
            all_recorded(state, occurrences.drop_last()),
            occurrences.last().category,
            occurrences.last().elapsed,
        )
    }
}

/// How many of the occurrences are of `category`.
pub open spec fn times_seen(occurrences: Seq<Occurrence>, category: Seq<char>) -> nat
    decreases occurrences.len(),
{
    if occurrences.len() == 0 {
        0
    } else {
        times_seen(occurrences.drop_last(), category) + if occurrences.last().category
            == category {
            1nat
        } else {
            0
        }
    }
}

/// The time that the occurrences of `category` took together.
pub open spec fn time_spent(occurrences: Seq<Occurrence>, category: Seq<char>) -> nat
    decreases occurrences.len(),
{
    if occurrences.len() == 0 {
        0
    } else {
        time_spent(occurrences.drop_last(), category) + if occurrences.last().category
            == category {
            took(occurrences.last().elapsed) as nat
        } else {
            0
        }
    }
}

/// The longest time, at least `so_far`, that an occurrence of `category` took.
pub open spec fn longest(occurrences: Seq<Occurrence>, category: Seq<char>, so_far: u128) -> u128
    decreases occurrences.len(),
{
    if occurrences.len() == 0 {
        so_far
    } else {
        let earlier = longest(occurrences.drop_last(), category, so_far);
        let last = occurrences.last();
        if last.category == category && took(last.elapsed) > earlier {
            took(last.elapsed)
        } else {
            earlier
        }
    }
}

/// Between two reports nothing is lost and nothing is counted twice: the statistics of a category
/// grow by the number of its occurrences, the time they took together and the longest of them.
pub proof fn law_everything_is_counted(
    state: ProbeView,
    occurrences: Seq<Occurrence>,
    category: Seq<char>,
)
    requires
        state.of(category).count + times_seen(occurrences, category) <= u64::MAX,
        state.of(category).total + time_spent(occurrences, category) <= MAX_DURATION,
    ensures
        all_recorded(state, occurrences).of(category).count == state.of(category).count
            + times_seen(occurrences, category),
        all_recorded(state, occurrences).of(category).total == state.of(category).total
            + time_spent(occurrences, category),
        all_recorded(state, occurrences).of(category).max == longest(
            occurrences,
            category,
            state.of(category).max,
        ),
    decreases occurrences.len(),
{
    if occurrences.len() > 0 {
        law_everything_is_counted(state, occurrences.drop_last(), category);
    }
}

/// Whether the occurrences can be recorded: the count and the total time of each category stay in
/// range.
pub open spec fn all_fit(state: ProbeView, occurrences: Seq<Occurrence>) -> bool {
    forall|category: Seq<char>|
        {
            &&& state.of(category).count + #[trigger] times_seen(occurrences, category) <= u64::MAX
            &&& state.of(category).total + time_spent(occurrences, category) <= MAX_DURATION
        }
}

/// The occurrences can be recorded together if and only if each can be recorded after the ones
/// before it.
pub proof fn law_all_fit_one_by_one(state: ProbeView, occurrences: Seq<Occurrence>)
    requires
        all_fit(state, Seq::empty()),
    ensures
        all_fit(state, occurrences) <==> forall|i: int|
            0 <= i < occurrences.len() ==> one_more_fits(
                all_recorded(state, occurrences.take(i)).of((#[trigger] occurrences[i]).category),
                occurrences[i].elapsed,
            ),
    decreases occurrences.len(),
{
    if occurrences.len() == 0 {
        assert(occurrences =~= Seq::empty());
    } else {
        let earlier = occurrences.drop_last();
        let last = occurrences.last();
        let n = earlier.len() as int;
        law_all_fit_one_by_one(state, earlier);
        assert(occurrences.take(n) =~= earlier);
        assert forall|i: int| 0 <= i < n implies earlier.take(i) == #[trigger] occurrences.take(i)
            && earlier[i] == occurrences[i] by {
            assert(earlier.take(i) =~= occurrences.take(i));
        }
        if all_fit(state, occurrences) {
            assert forall|category: Seq<char>|
                {
                    &&& state.of(category).count + #[trigger] times_seen(earlier, category)
                        <= u64::MAX
                    &&& state.of(category).total + time_spent(earlier, category) <= MAX_DURATION
                } by {
                assert(times_seen(occurrences, category) >= times_seen(earlier, category));
            }
            let category = last.category;
            assert(times_seen(occurrences, category) == times_seen(earlier, category) + 1);
            law_everything_is_counted(state, earlier, category);
            assert forall|i: int| 0 <= i < occurrences.len() implies one_more_fits(
                all_recorded(state, occurrences.take(i)).of((#[trigger] occurrences[i]).category),
                occurrences[i].elapsed,
            ) by {
                if i < n {
                    assert(earlier[i] == occurrences[i]);
                    assert(earlier.take(i) == occurrences.take(i));
                }
            }
        }
        if forall|i: int|
            0 <= i < occurrences.len() ==> one_more_fits(
                all_recorded(state, occurrences.take(i)).of((#[trigger] occurrences[i]).category),
                occurrences[i].elapsed,
            ) {
            assert forall|i: int| 0 <= i < earlier.len() implies one_more_fits(
                all_recorded(state, earlier.take(i)).of((#[trigger] earlier[i]).category),
                earlier[i].elapsed,
            ) by {
                assert(earlier[i] == occurrences[i]);
                assert(earlier.take(i) == occurrences.take(i));
            }
            assert(occurrences[n] == last);
            assert forall|category: Seq<char>|
                {
                    &&& state.of(category).count + #[trigger] times_seen(occurrences, category)
                        <= u64::MAX
                    &&& state.of(category).total + time_spent(occurrences, category)
                        <= MAX_DURATION
                } by {
                assert(state.of(category).count + times_seen(earlier, category) <= u64::MAX);
                law_everything_is_counted(state, earlier, category);
            }
        }
    }
}

/// Whether an occurrence of `category` is among the occurrences.
pub open spec fn occurs(occurrences: Seq<Occurrence>, category: Seq<char>) -> bool {
    exists|i: int| 0 <= i < occurrences.len() && (#[trigger] occurrences[i]).category == category
}

proof fn lemma_occurs(occurrences: Seq<Occurrence>, category: Seq<char>)
    ensures
        occurs(occurrences, category) <==> times_seen(occurrences, category) > 0,
    decreases occurrences.len(),
{
    if occurrences.len() > 0 {
        let earlier = occurrences.drop_last();
        lemma_occurs(earlier, category);
        if occurs(occurrences, category) && occurrences.last().category != category {
            let i = choose|i: int|
                0 <= i < occurrences.len() && (#[trigger] occurrences[i]).category == category;
            assert(earlier[i].category == category);
        }
        if occurs(earlier, category) {
            let i = choose|i: int|
                0 <= i < earlier.len() && (#[trigger] earlier[i]).category == category;
            assert(occurrences[i].category == category);
        }
        assert(occurrences[occurrences.len() - 1] == occurrences.last());
    }
}

/// The categories of the statistics are those that were there and those that occurred.
pub proof fn law_categories_are_those_that_occur(
    state: ProbeView,
    occurrences: Seq<Occurrence>,
    category: Seq<char>,
)
    ensures
        all_recorded(state, occurrences).stats.dom().contains(category) <==> (
        state.stats.dom().contains(category) || occurs(occurrences, category)),
        all_recorded(state, occurrences).last_flush == state.last_flush,
    decreases occurrences.len(),
{
    lemma_occurs(occurrences, category);
    if occurrences.len() > 0 {
        let earlier = occurrences.drop_last();
        law_categories_are_those_that_occur(state, earlier, category);
        lemma_occurs(earlier, category);
    }
}

/// The longest time is that of an occurrence, or the one there was, and none took longer.
proof fn lemma_longest(occurrences: Seq<Occurrence>, category: Seq<char>, so_far: u128)
    ensures
        longest(occurrences, category, so_far) >= so_far,
        forall|i: int|
            0 <= i < occurrences.len() && (#[trigger] occurrences[i]).category == category
                ==> took(occurrences[i].elapsed) <= longest(occurrences, category, so_far),
        longest(occurrences, category, so_far) == so_far || exists|i: int|
            0 <= i < occurrences.len() && (#[trigger] occurrences[i]).category == category
                && took(occurrences[i].elapsed) == longest(occurrences, category, so_far),
    decreases occurrences.len(),
{
    if occurrences.len() > 0 {
        let earlier = occurrences.drop_last();
        let n = earlier.len() as int;
        let all = longest(occurrences, category, so_far);
        let before = longest(earlier, category, so_far);
        lemma_longest(earlier, category, so_far);
        assert(occurrences[n] == occurrences.last());
        assert forall|i: int|
            0 <= i < occurrences.len() && (#[trigger] occurrences[i]).category
                == category implies took(occurrences[i].elapsed) <= all by {
            if i < n {
                assert(earlier[i] == occurrences[i]);
            }
        }
        if all == before && before != so_far {
            let i = choose|i: int|
                0 <= i < earlier.len() && (#[trigger] earlier[i]).category == category
                    && took(earlier[i].elapsed) == before;
            assert(occurrences[i].category == category);
        }
    }
}

/// Taking one occurrence out takes its share out of the figures.
proof fn lemma_one_taken_out(
    occurrences: Seq<Occurrence>,
    ix: int,
    category: Seq<char>,
    so_far: u128,
)
    requires
        0 <= ix < occurrences.len(),
    ensures
        ({
            let fewer = occurrences.remove(ix);
            let without = longest(fewer, category, so_far);
            let taken = took(occurrences[ix].elapsed);
            let all = longest(occurrences, category, so_far);
            if occurrences[ix].category == category {
                &&& times_seen(occurrences, category) == times_seen(fewer, category) + 1
                &&& time_spent(occurrences, category) == time_spent(fewer, category) + taken
                &&& all == if taken > without {
                    taken
                } else {
                    without
                }
            } else {
                &&& times_seen(occurrences, category) == times_seen(fewer, category)
                &&& time_spent(occurrences, category) == time_spent(fewer, category)
                &&& all == without
            }
        }),
    decreases occurrences.len(),
{
    let fewer = occurrences.remove(ix);
    if ix == occurrences.len() - 1 {
        assert(fewer =~= occurrences.drop_last());
    } else {
        lemma_one_taken_out(occurrences.drop_last(), ix, category, so_far);
        assert(fewer.drop_last() =~= occurrences.drop_last().remove(ix));
        assert(fewer.last() == occurrences.last());
    }
}

/// The figures depend on which occurrences there are, and not on their order.
proof fn lemma_same_figures(
    first: Seq<Occurrence>,
    second: Seq<Occurrence>,
    category: Seq<char>,
    so_far: u128,
)
    requires
        first.to_multiset() == second.to_multiset(),
    ensures
        times_seen(first, category) == times_seen(second, category),
        time_spent(first, category) == time_spent(second, category),
        longest(first, category, so_far) == longest(second, category, so_far),
    decreases first.len(),
{
    broadcast use vstd::seq_lib::group_to_multiset_ensures;

    assert(first.len() == first.to_multiset().len());
    assert(second.len() == second.to_multiset().len());
    if first.len() > 0 {
        let n = first.len() - 1;
        let last = first.last();
        assert(first[n] == last);
        assert(first.contains(last));
        assert(first.to_multiset().count(last) > 0);
        assert(second.to_multiset().count(last) > 0);
        assert(second.contains(last));
        let ix = choose|ix: int| 0 <= ix < second.len() && second[ix] == last;
        assert(first.remove(n).to_multiset() =~= second.remove(ix).to_multiset());
        lemma_same_figures(first.remove(n), second.remove(ix), category, so_far);
        lemma_one_taken_out(first, n, category, so_far);
        lemma_one_taken_out(second, ix, category, so_far);
    }
}

/// Statistics do not depend on the order in which occurrences are recorded. Where some
/// occurrences can be recorded in one order, they can be in any other, and lead to the same state.
pub proof fn law_any_order_leads_to_the_same_state(
    state: ProbeView,
    first: Seq<Occurrence>,
    second: Seq<Occurrence>,
)
    requires
        first.to_multiset() == second.to_multiset(),
        all_fit(state, first),
    ensures
        all_fit(state, second),
        all_recorded(state, first) == all_recorded(state, second),
{
    let one = all_recorded(state, first);
    let two = all_recorded(state, second);
    assert forall|category: Seq<char>|
        {
            &&& state.of(category).count + #[trigger] times_seen(second, category) <= u64::MAX
            &&& state.of(category).total + time_spent(second, category) <= MAX_DURATION
        } by {
        lemma_same_figures(first, second, category, 0);
    }
    assert forall|category: Seq<char>|
        #[trigger] one.stats.dom().contains(category) == two.stats.dom().contains(category) && (
        one.stats.dom().contains(category) ==> one.stats[category] == two.stats[category]) by {
        assert(state.of(category).count + times_seen(first, category) <= u64::MAX);
        assert(state.of(category).count + times_seen(second, category) <= u64::MAX);
        lemma_same_figures(first, second, category, state.of(category).max);
        law_everything_is_counted(state, first, category);
        law_everything_is_counted(state, second, category);
        law_categories_are_those_that_occur(state, first, category);
        law_categories_are_those_that_occur(state, second, category);
        lemma_occurs(first, category);
        lemma_occurs(second, category);
        assert(one.of(category) == two.of(category));
    }
    assert(one.stats.dom() =~= two.stats.dom());
    assert(one.stats =~= two.stats);
    law_categories_are_those_that_occur(state, first, Seq::empty());
    law_categories_are_those_that_occur(state, second, Seq::empty());
}

/// The state of a probe in which nothing was recorded since it was opened, or last reported, at
/// `last_flush`.
pub open spec fn nothing_recorded(last_flush: u128) -> ProbeView {
    ProbeView { last_flush, stats: Map::empty() }
}

/// What the statistics of a probe are, whatever the order of the occurrences: the categories are
/// exactly those that occur. Each has the number of its occurrences for its count, the time they
/// took together for its total, and for its longest time that of the one that took longest.
pub proof fn law_statistics_of_occurrences(
    last_flush: u128,
    occurrences: Seq<Occurrence>,
    reordered: Seq<Occurrence>,
)
    requires
        occurrences.to_multiset() == reordered.to_multiset(),
        all_fit(nothing_recorded(last_flush), occurrences),
    ensures
        ({
            let stats = all_recorded(nothing_recorded(last_flush), occurrences).stats;
            &&& all_recorded(nothing_recorded(last_flush), reordered).stats == stats
            &&& forall|category: Seq<char>| #[trigger]
                stats.dom().contains(category) <==> occurs(occurrences, category)
            &&& forall|category: Seq<char>| #[trigger]
                stats.dom().contains(category) ==> {
                    &&& stats[category].count == times_seen(occurrences, category)
                    &&& stats[category].total == time_spent(occurrences, category)
                    &&& is_longest(occurrences, category, stats[category].max)
                }
        }),
{
    let state = nothing_recorded(last_flush);
    law_any_order_leads_to_the_same_state(state, occurrences, reordered);
    let stats = all_recorded(state, occurrences).stats;
    assert forall|category: Seq<char>| #[trigger]
        stats.dom().contains(category) <==> occurs(occurrences, category) by {
        law_categories_are_those_that_occur(state, occurrences, category);
    }
    assert forall|category: Seq<char>| #[trigger] stats.dom().contains(category) implies {
        &&& stats[category].count == times_seen(occurrences, category)
        &&& stats[category].total == time_spent(occurrences, category)
        &&& is_longest(occurrences, category, stats[category].max)
    } by {
        assert(state.of(category).count + times_seen(occurrences, category) <= u64::MAX);
        law_everything_is_counted(state, occurrences, category);
        lemma_longest(occurrences, category, 0);
        let i = choose|i: int|
            0 <= i < occurrences.len() && (#[trigger] occurrences[i]).category == category;
        assert(took(occurrences[i].elapsed) <= stats[category].max);
    }
}

/// Whether `max` is the time of the occurrence of `category` that took longest.
pub open spec fn is_longest(
    occurrences: Seq<Occurrence>,
    category: Seq<char>,
    max: u128,
) -> bool {
    &&& forall|i: int|
        0 <= i < occurrences.len() && (#[trigger] occurrences[i]).category == category
            ==> took(occurrences[i].elapsed) <= max
    &&& exists|i: int|
        0 <= i < occurrences.len() && (#[trigger] occurrences[i]).category == category
            && took(occurrences[i].elapsed) == max
}

/// The statistics of every category of a probe are consistent, and each counts an occurrence: there
/// is no category that did not occur.
pub proof fn law_every_category_is_consistent(
    last_flush: u128,
    occurrences: Seq<Occurrence>,
    category: Seq<char>,
)
    requires
        all_fit(nothing_recorded(last_flush), occurrences),
        all_recorded(nothing_recorded(last_flush), occurrences).stats.dom().contains(category),
    ensures
        ({
            let stats = all_recorded(nothing_recorded(last_flush), occurrences).stats[category];
            &&& stats.count >= 1
            &&& stats.max <= stats.total
            &&& stats.total <= stats.count * stats.max
        }),
{
    let state = nothing_recorded(last_flush);
    law_categories_are_those_that_occur(state, occurrences, category);
    lemma_occurs(occurrences, category);
    assert(state.of(category).count + times_seen(occurrences, category) <= u64::MAX);
    law_everything_is_counted(state, occurrences, category);
    lemma_consistent(state, occurrences, category);
}

proof fn lemma_consistent(state: ProbeView, occurrences: Seq<Occurrence>, category: Seq<char>)
    requires
        consistent(state.of(category)),
        state.of(category).count + times_seen(occurrences, category) <= u64::MAX,
        state.of(category).total + time_spent(occurrences, category) <= MAX_DURATION,
    ensures
        consistent(all_recorded(state, occurrences).of(category)),
    decreases occurrences.len(),
{
    if occurrences.len() > 0 {
        let earlier = occurrences.drop_last();
        lemma_consistent(state, earlier, category);
        law_everything_is_counted(state, earlier, category);
        if occurrences.last().category == category {
            law_stats_stay_consistent(
                all_recorded(state, earlier).of(category),
                occurrences.last().elapsed,
            );
        }
    }
}

/// Whether a probe was taken through `slots` by recording the occurrences, one after the other,
/// and none of them brought a report. Occurrence `i` was recorded between the readings `opened[i]`
/// and `now[i]` of the clock.
pub open spec fn recorded_without_report(
    slots: Seq<Option<Probe>>,
    occurrences: Seq<Occurrence>,
    opened: Seq<u128>,
    now: Seq<u128>,
) -> bool {
    &&& slots.len() == occurrences.len() + 1
    &&& opened.len() == occurrences.len()
    &&& now.len() == occurrences.len()
    &&& forall|i: int|
        0 <= i < occurrences.len() ==> accumulated(
            recorded(
                probe_state(slots[i], opened[i]),
                (#[trigger] occurrences[i]).category,
                occurrences[i].elapsed,
            ),
            now[i],
            slots[i + 1],
            None,
        )
}

/// Until it reports, a probe holds what was recorded: all of the occurrences and nothing else.
pub proof fn law_probe_holds_what_was_recorded(
    slots: Seq<Option<Probe>>,
    occurrences: Seq<Occurrence>,
    opened: Seq<u128>,
    now: Seq<u128>,
)
    requires
        recorded_without_report(slots, occurrences, opened, now),
        occurrences.len() > 0,
    ensures
        slots.last() is Some,
        slots.last()->0@ == all_recorded(probe_state(slots[0], opened[0]), occurrences),
    decreases occurrences.len(),
{
    let n = occurrences.len() - 1;
    let earlier = occurrences.drop_last();
    assert(occurrences[n] == occurrences.last());
    assert(slots.last() == slots[n + 1]);
    if n > 0 {
        assert forall|i: int| 0 <= i < earlier.len() implies accumulated(
            recorded(
                probe_state(slots.drop_last()[i], opened.drop_last()[i]),
                (#[trigger] earlier[i]).category,
                earlier[i].elapsed,
            ),
            now.drop_last()[i],
            slots.drop_last()[i + 1],
            None,
        ) by {
            assert(earlier[i] == occurrences[i]);
        }
        law_probe_holds_what_was_recorded(
            slots.drop_last(),
            earlier,
            opened.drop_last(),
            now.drop_last(),
        );
        assert(slots.drop_last().last() == slots[n]);
    } else {
        assert(all_recorded(probe_state(slots[0], opened[0]), earlier) == probe_state(
            slots[0],
            opened[0],
        ));
    }
}

/// What recording one occurrence changes: the category has one occurrence more, its time is added
/// to the total and counts for the longest, and nothing else changes.
pub proof fn law_one_occurrence_is_added(
    state: ProbeView,
    category: Seq<char>,
    elapsed: Option<u128>,
    other: Seq<char>,
)
    requires
        state.stats.dom().contains(category) ==> one_more_fits(state.stats[category], elapsed),
        took(elapsed) <= MAX_DURATION,
    ensures
        ({
            let after = recorded(state, category, elapsed);
            let known = state.stats.dom().contains(category);
            let before = state.stats[category];
            &&& after.last_flush == state.last_flush
            &&& after.stats.dom().contains(category)
            &&& after.stats[category].count == 1 + if known {
                before.count as int
            } else {
                0
            }
            &&& after.stats[category].total == took(elapsed) + if known {
                before.total as int
            } else {
                0
            }
            &&& after.stats[category].max >= took(elapsed)
            &&& known ==> after.stats[category].max >= before.max
            &&& after.stats[category].max == took(elapsed) || known && after.stats[category].max
                == before.max
            &&& other != category ==> {
                &&& after.stats.dom().contains(other) == state.stats.dom().contains(other)
                &&& state.stats.dom().contains(other) ==> after.stats[other] == state.stats[other]
            }
        }),
{
}

/// One more occurrence can be recorded as long as the count stays below 2^64 and the total time
/// below 2^64 seconds.
pub proof fn law_range_of_statistics(stats: CategoryStats, elapsed: Option<u128>)
    ensures
        one_more_fits(stats, elapsed) <==> stats.count + 1 < 0x1_0000_0000_0000_0000 && stats.total
            + took(elapsed) < 0x1_0000_0000_0000_0000int * 1_000_000_000int,
{
}

/// What a probe holds of a category is read as it is, and a category that did not occur has
/// neither occurrences nor times.
pub proof fn law_statistics_are_read(state: ProbeView, category: Seq<char>)
    ensures
        state.stats.dom().contains(category) ==> state.of(category) == state.stats[category],
        !state.stats.dom().contains(category) ==> {
            let stats = state.of(category);
            stats.count == 0 && stats.total == 0 && stats.max == 0
        },
{
}

/// The time from one reading of the clock to a later one is their difference, and none where the
/// clock went back.
pub proof fn law_time_between(earlier: u128, later: u128)
    ensures
        earlier <= later ==> earlier + time_between(earlier, later) == later,
        later < earlier ==> time_between(earlier, later) == 0,
{
}

/// When the next report is due, counted from the last one or else from when the probe was opened:
/// after a second, and not before. It says how long it has been, and the probe starts anew from
/// then on; until then the probe keeps what was recorded.
pub proof fn law_report_is_due_after_a_second(
    slot: Option<Probe>,
    category: Seq<char>,
    elapsed: Option<u128>,
    opened: u128,
    now: u128,
    after: Option<Probe>,
    report: Option<Report>,
)
    requires
        accumulated(recorded(probe_state(slot, opened), category, elapsed), now, after, report),
    ensures
        ({
            let since = match slot {
                Some(probe) => probe@.last_flush,
                None => opened,
            };
            &&& after is Some
            &&& report is Some <==> now - since >= 1_000_000_000
            &&& match report {
                Some(report) => {
                    &&& report.interval == now - since
                    &&& reports(
                        report.lines@,
                        recorded(probe_state(slot, opened), category, elapsed).stats,
                    )
                    &&& after->0@.last_flush == now
                    &&& forall|other: Seq<char>| !#[trigger] after->0@.stats.dom().contains(other)
                },
                None => {
                    &&& after->0@.last_flush == since
                    &&& after->0@.stats == recorded(
                        probe_state(slot, opened),
                        category,
                        elapsed,
                    ).stats
                },
            }
        }),
{
}

/// A probe that is opened by its first occurrence holds nothing but that occurrence.
pub proof fn law_first_occurrence_opens_probe(
    category: Seq<char>,
    elapsed: Option<u128>,
    opened: u128,
    other: Seq<char>,
)
    ensures
        ({
            let state = recorded(probe_state(None, opened), category, elapsed);
            &&& state.last_flush == opened
            &&& state.stats.dom().contains(other) <==> other == category
            &&& state.stats[category].count == 1
            &&& state.stats[category].total == took(elapsed)
            &&& state.stats[category].max == took(elapsed)
        }),
{
}

/// Whether the line tells of the occurrences of the category how many they were and, where they
/// took any time, how long they took together and how long the longest of them.
pub open spec fn tells(line: ReportLine, occurrences: Seq<Occurrence>, category: Seq<char>) -> bool {
    match line {
        ReportLine::Counted { category: name, count } => {
            &&& name@ == category
            &&& count == times_seen(occurrences, category)
            &&& time_spent(occurrences, category) == 0
        },
        ReportLine::Timed { category: name, count, total, max } => {
            &&& name@ == category
            &&& count == times_seen(occurrences, category)
            &&& time_spent(occurrences, category) > 0
            &&& total == time_spent(occurrences, category)
            &&& is_longest(occurrences, category, max)
        },
    }
}

/// The category that the line is about.
pub open spec fn about(line: ReportLine) -> Seq<char> {
    match line {
        ReportLine::Counted { category, .. } => category@,
        ReportLine::Timed { category, .. } => category@,
    }
}

/// A report tells of every category that occurred, in the order of their names, each once, and of
/// no other: how many occurrences there were and, if and only if they took any time, how long they
/// took together and how long the longest of them.
pub proof fn law_report_tells_what_occurred(
    last_flush: u128,
    occurrences: Seq<Occurrence>,
    lines: Seq<ReportLine>,
)
    requires
        all_fit(nothing_recorded(last_flush), occurrences),
        reports(lines, all_recorded(nothing_recorded(last_flush), occurrences).stats),
    ensures
        forall|i: int|
            0 <= i < lines.len() ==> occurs(occurrences, about(#[trigger] lines[i])) && tells(
                lines[i],
                occurrences,
                about(lines[i]),
            ),
        forall|category: Seq<char>| #[trigger]
            occurs(occurrences, category) ==> exists|i: int|
                0 <= i < lines.len() && about(#[trigger] lines[i]) == category,
        forall|i: int, j: int|
            0 <= i < j < lines.len() ==> text_before(
                about(#[trigger] lines[i]),
                about(#[trigger] lines[j]),
            ),
{
    let stats = all_recorded(nothing_recorded(last_flush), occurrences).stats;
    law_statistics_of_occurrences(last_flush, occurrences, occurrences);
    assert forall|i: int| 0 <= i < lines.len() implies occurs(
        occurrences,
        about(#[trigger] lines[i]),
    ) && tells(lines[i], occurrences, about(lines[i])) by {
        assert(about(lines[i]) == lines[i]@.name());
        assert(stats.dom().contains(lines[i]@.name()));
    }
    assert forall|category: Seq<char>| #[trigger] occurs(occurrences, category) implies exists|
        i: int,
    | 0 <= i < lines.len() && about(#[trigger] lines[i]) == category by {
        assert(stats.dom().contains(category));
        let i = choose|i: int| 0 <= i < lines.len() && (#[trigger] lines[i])@.name() == category;
        assert(about(lines[i]) == category);
    }
    assert forall|i: int, j: int| 0 <= i < j < lines.len() implies text_before(
        about(#[trigger] lines[i]),
        about(#[trigger] lines[j]),
    ) by {
        assert(about(lines[i]) == lines[i]@.name());
        assert(about(lines[j]) == lines[j]@.name());
    }
}

/// A report is determined by what was recorded: two lists of lines that both report it are the
/// same.
pub proof fn law_report_is_determined(
    first: Seq<ReportLine>,
    second: Seq<ReportLine>,
    stats: Map<Seq<char>, CategoryStats>,
)
    requires
        reports(first, stats),
        reports(second, stats),
    ensures
        first.map_values(|line: ReportLine| line@) == second.map_values(|line: ReportLine| line@),
{
    lemma_no_longer(first, second, stats);
    lemma_no_longer(second, first, stats);
    assert forall|k: int| 0 <= k < first.len() implies (#[trigger] first[k])@ == second[k]@ by {
        lemma_same_line(first, second, stats, k);
    }
    assert(first.map_values(|line: ReportLine| line@) =~= second.map_values(
        |line: ReportLine| line@,
    ));
}

/// Line `k` of one report is line `k` of the other: each earlier line is, so it comes next in
/// both.
proof fn lemma_same_line(
    first: Seq<ReportLine>,
    second: Seq<ReportLine>,
    stats: Map<Seq<char>, CategoryStats>,
    k: int,
)
    requires
        reports(first, stats),
        reports(second, stats),
        0 <= k < first.len(),
        k < second.len(),
    ensures
        first[k]@ == second[k]@,
    decreases k,
{
    assert forall|i: int| 0 <= i < k implies (#[trigger] first[i])@ == second[i]@ by {
        lemma_same_line(first, second, stats, i);
    }
    let a = first[k]@.name();
    let b = second[k]@.name();
    let i = choose|i: int| 0 <= i < second.len() && (#[trigger] second[i])@.name() == a;
    let j = choose|j: int| 0 <= j < first.len() && (#[trigger] first[j])@.name() == b;
    assert(stats.dom().contains(a));
    assert(stats.dom().contains(b));
    lemma_text_before_irreflexive(a);
    lemma_text_before_irreflexive(b);
    if i < k {
        assert(first[i]@ == second[i]@);
        assert(text_before(first[i]@.name(), first[k]@.name()));
    }
    if j < k {
        assert(first[j]@ == second[j]@);
        assert(text_before(second[j]@.name(), second[k]@.name()));
    }
    if i > k && j > k {
        assert(text_before(second[k]@.name(), second[i]@.name()));
        assert(text_before(first[k]@.name(), first[j]@.name()));
        lemma_text_before_asymmetric(a, b);
    }
}

proof fn lemma_no_longer(
    first: Seq<ReportLine>,
    second: Seq<ReportLine>,
    stats: Map<Seq<char>, CategoryStats>,
)
    requires
        reports(first, stats),
        reports(second, stats),
    ensures
        first.len() <= second.len(),
{
    if second.len() < first.len() {
        let k = second.len() as int;
        let name = first[k]@.name();
        assert(stats.dom().contains(name));
        let i = choose|i: int| 0 <= i < second.len() && (#[trigger] second[i])@.name() == name;
        lemma_same_line(first, second, stats, i);
        assert(text_before(first[i]@.name(), first[k]@.name()));
        lemma_text_before_irreflexive(name);
    }
}

} // verus!
