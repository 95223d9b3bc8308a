use vstd::prelude::*;

use crate::category::Category;
use crate::models::UsageEvent;
use crate::session::ActiveSession;
use crate::totals::{elapsed, CategoryTotals};

verus! {

/// Aggregate of a finished session: per-category totals, ordered timeline,
/// and interruption count.
#[derive(Debug)]
pub struct SessionReport {
    pub session_id: i64,
    pub totals: CategoryTotals,
    pub events: Vec<UsageEvent>,
    pub interruption_count: i64,
}

/// When an event ended; an event still open counts as ending where it began.
pub open spec fn event_end(e: UsageEvent) -> int {
    match e.ended_at {
        Some(t) => t as int,
        None => e.started_at as int,
    }
}

/// The seconds an event counts for (never negative).
pub open spec fn event_time(e: UsageEvent) -> int {
    elapsed(e.started_at as int, event_end(e))
}

/// The seconds the events of `category` count for in total.
pub open spec fn report_total(events: Seq<UsageEvent>, category: Category) -> int
    decreases events.len(),
{
    if events.len() == 0 {
        0
    } else {
        report_total(events.drop_last(), category) + if events.last().category == category {
            event_time(events.last())
        } else {
            0
        }
    }
}

/// Entertainment and distraction interrupt work.
pub open spec fn is_distracting(category: Category) -> bool {
    category == Category::Entertainment || category == Category::Distraction
}

/// Some event of `events` is work.
pub open spec fn has_work(events: Seq<UsageEvent>) -> bool {
    exists|i: int| 0 <= i < events.len() && #[trigger] events[i].category == Category::Work
}

/// The number of entertainment or distraction events that come after some
/// work event.
pub open spec fn interruptions(events: Seq<UsageEvent>) -> int
    decreases events.len(),
{
    if events.len() == 0 {
        0
    } else {
        interruptions(events.drop_last()) + if is_distracting(events.last().category) && has_work(
            events.drop_last(),
        ) {
            1int
        } else {
            0int
        }
    }
}

/// The length of the event is representable as an `i64`.
pub open spec fn span_fits(e: UsageEvent) -> bool {
    i64::MIN <= event_end(e) - e.started_at <= i64::MAX
}

/// Aggregating `events` stays within `i64`.
pub open spec fn report_fits(events: Seq<UsageEvent>) -> bool {
    &&& forall|i: int| 0 <= i < events.len() ==> #[trigger] span_fits(events[i])
    &&& forall|c: Category| #[trigger] report_total(events, c) <= i64::MAX
}

/// Totals never decrease as events are added.
pub proof fn lemma_report_total_monotone(events: Seq<UsageEvent>, i: int, k: int, c: Category)
    requires
        0 <= i <= k <= events.len(),
    ensures
        0 <= report_total(events.take(i), c) <= report_total(events.take(k), c),
    decreases k,
{
    if k == 0 {
        assert(events.take(0) =~= Seq::<UsageEvent>::empty());
    } else {
        assert(events.take(k).drop_last() =~= events.take(k - 1));
        if i == k {
            lemma_report_total_monotone(events, i - 1, k - 1, c);
            assert(events.take(i).drop_last() =~= events.take(i - 1));
        } else {
            lemma_report_total_monotone(events, i, k - 1, c);
        }
    }
}

/// Adds `seconds` to the report total of `category`.
pub fn add_total(totals: &mut CategoryTotals, category: Category, seconds: i64)
    requires
        old(totals).can_add(category, seconds as int),
    ensures
        old(totals).adds(*final(totals), category, seconds as int),
{
    totals.add(category, seconds);
}

/// Aggregates a finished session's `events` (in timeline order): the
/// per-category totals and the interruption count. `None` exactly when the
/// totals would leave `i64`.
pub fn build_session_report(session_id: i64, events: Vec<UsageEvent>) -> (r: Option<SessionReport>)
    requires
        events.len() <= i64::MAX,
    ensures
        r is Some <==> report_fits(events@),
        r matches Some(rep) ==> {
            &&& rep.session_id == session_id
            &&& rep.events@ == events@
            &&& forall|c: Category| #[trigger] rep.totals.get(c) == report_total(events@, c)
            &&& rep.interruption_count == interruptions(events@)
        },
{
    let n = events.len();
    let mut totals = CategoryTotals::zero();
    let mut i: usize = 0;
    assert(events@.take(0) =~= Seq::<UsageEvent>::empty());
    while i < n
        invariant
            n == events.len(),
            i <= n,
            forall|c: Category| #[trigger] totals.get(c) == report_total(events@.take(i as int), c),
            forall|j: int| 0 <= j < i ==> #[trigger] span_fits(events@[j]),
        decreases n - i,
    {
        let e = &events[i];
        let end = match e.ended_at {
            Some(t) => t,
            None => e.started_at,
        };
        let span = match end.checked_sub(e.started_at) {
            Some(s) => s,
            None => {
                assert(!span_fits(events@[i as int]));
                return None;
            },
        };
        let seconds: i64 = if span > 0 {
            span
        } else {
            0
        };
        proof {
            assert(events@.take(i + 1).drop_last() =~= events@.take(i as int));
            assert(events@.take(i + 1).last() == events@[i as int]);
        }
        if totals.total_of(e.category).checked_add(seconds).is_none() {
            proof {
                lemma_report_total_monotone(events@, i + 1, n as int, e.category);
                assert(events@.take(n as int) =~= events@);
            }
            return None;
        }
        add_total(&mut totals, e.category, seconds);
        i = i + 1;
    }
    assert(events@.take(n as int) =~= events@);
    assert forall|c: Category| #[trigger] report_total(events@, c) <= i64::MAX by {
        assert(totals.get(c) == report_total(events@.take(n as int), c));
    }
    assert(report_fits(events@));

    let mut interruption_count: i64 = 0;
    let mut saw_work = false;
    let mut i: usize = 0;
    while i < n
        invariant
            n == events.len(),
            n <= i64::MAX,
            i <= n,
            0 <= interruption_count <= i,
            interruption_count == interruptions(events@.take(i as int)),
            saw_work == has_work(events@.take(i as int)),
        decreases n - i,
    {
        let category = events[i].category;
        proof {
            let prefix = events@.take(i + 1);
            assert(prefix.drop_last() =~= events@.take(i as int));
            assert(prefix.last() == events@[i as int]);
            if category == Category::Work {
                assert(prefix[i as int].category == Category::Work);
            }
            if has_work(prefix) && category != Category::Work {
                let j = choose|j: int| 0 <= j < prefix.len() && #[trigger] prefix[j].category == Category::Work;
                assert(events@.take(i as int)[j].category == Category::Work);
            }
            if has_work(events@.take(i as int)) {
                let j = choose|j: int| 0 <= j < i && #[trigger] events@.take(i as int)[j].category == Category::Work;
                assert(prefix[j].category == Category::Work);
            }
        }
        match category {
            Category::Work => {
                saw_work = true;
            },
            Category::Entertainment | Category::Distraction => {
                if saw_work {
                    interruption_count = interruption_count + 1;
                }
            },
            Category::Unclassified => {},
        }
        i = i + 1;
    }

    Some(SessionReport { session_id, totals, events, interruption_count })
}

/// `row` is the stored form of the event that `state` had open when it was
/// closed into the next state: same category, same start, ended.
pub open spec fn row_of_open_event(state: ActiveSession, row: UsageEvent) -> bool {
    &&& row.category == state.current_category
    &&& row.started_at == state.event_start
    &&& row.ended_at is Some
}

/// The totals a session accumulates while it runs are the totals its report
/// computes from the stored events: starting from zero, each closed event
/// adds to its category exactly what the report counts for its row.
pub proof fn lemma_report_matches_session(states: Seq<ActiveSession>, rows: Seq<UsageEvent>)
    requires
        states.len() == rows.len() + 1,
        forall|c: Category| #[trigger] states[0].totals.get(c) == 0,
        forall|k: int|
            0 <= k < rows.len() ==> #[trigger] row_of_open_event(states[k], rows[k]) && states[k].closed_into(
                states[k + 1],
                rows[k].ended_at->0 as int,
            ),
    ensures
        forall|c: Category| #[trigger] states.last().totals.get(c) == report_total(rows, c),
    decreases rows.len(),
{
    if rows.len() > 0 {
        let n = rows.len() - 1;
        assert forall|k: int| 0 <= k < rows.drop_last().len() implies #[trigger] row_of_open_event(
            states.drop_last()[k],
            rows.drop_last()[k],
        ) && states.drop_last()[k].closed_into(
            states.drop_last()[k + 1],
            rows.drop_last()[k].ended_at->0 as int,
        ) by {
            assert(row_of_open_event(states[k], rows[k]));
        }
        lemma_report_matches_session(states.drop_last(), rows.drop_last());
        assert(row_of_open_event(states[n], rows[n]));
        assert forall|c: Category| #[trigger] states.last().totals.get(c) == report_total(rows, c) by {
            assert(states.drop_last().last() == states[n]);
            assert(states[n].totals.adds(
                states[n + 1].totals,
                states[n].current_category,
                elapsed(states[n].event_start as int, rows[n].ended_at->0 as int),
            ));
            assert(states[n + 1].totals.get(c) == states[n].totals.get(c) + if c
                == states[n].current_category {
                elapsed(states[n].event_start as int, rows[n].ended_at->0 as int)
            } else {
                0
            });
        }
    }
}

/// There are never more interruptions than events, and never fewer than none.
pub proof fn lemma_interruptions_bounded(events: Seq<UsageEvent>)
    ensures
        0 <= interruptions(events) <= events.len(),
    decreases events.len(),
{
    if events.len() > 0 {
        lemma_interruptions_bounded(events.drop_last());
    }
}

/// Without any work event there is nothing to interrupt.
pub proof fn lemma_no_work_no_interruptions(events: Seq<UsageEvent>)
    requires
        !has_work(events),
    ensures
        interruptions(events) == 0,
    decreases events.len(),
{
    if events.len() > 0 {
        assert(!has_work(events.drop_last())) by {
            if has_work(events.drop_last()) {
                let j = choose|j: int| 0 <= j < events.drop_last().len() && #[trigger] events.drop_last()[j].category
                    == Category::Work;
                assert(events[j].category == Category::Work);
            }
        }
        lemma_no_work_no_interruptions(events.drop_last());
    }
}

/// Appending an event adds one interruption exactly when it is entertainment
/// or distraction and some earlier event is work.
pub proof fn lemma_interruption_step(events: Seq<UsageEvent>, e: UsageEvent)
    ensures
        interruptions(events.push(e)) == interruptions(events) + if is_distracting(e.category) && has_work(
            events,
        ) {
            1int
        } else {
            0int
        },
{
    assert(events.push(e).drop_last() =~= events);
}

} // verus!
