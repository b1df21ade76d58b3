//! One pass over the pending reminders, and the clearing away of those that
//! have been shown.

use vstd::prelude::*;
use crate::clock::Moment;
use crate::reminder::{Reminder, ReminderView};

verus! {

/// The reminders of a list as mathematical values.
pub open spec fn views_of(reminders: Seq<Reminder>) -> Seq<ReminderView> {
    reminders.map_values(|r: Reminder| r@)
}

/// Whether a pass at `now` shows the reminder: it has not been shown yet and
/// is due.
pub open spec fn fires(r: ReminderView, now: Moment) -> bool {
    !r.done && r.when.is_due(now)
}

/// What a pass at `now` leaves of a reminder. One that has been shown is
/// left as it is. Any other is checked once, and is done if it was due.
pub open spec fn ticked(r: ReminderView, now: Moment) -> ReminderView {
    if r.done {
        r
    } else {
        ReminderView { when: r.when.checked(), done: r.when.is_due(now), ..r }
    }
}

/// The positions below `n` of the reminders that a pass at `now` shows, in
/// rising order.
pub open spec fn fired(reminders: Seq<ReminderView>, now: Moment, n: nat) -> Seq<usize>
    decreases n,
{
    if n == 0 {
        Seq::empty()
    } else if fires(reminders[n - 1], now) {
        fired(reminders, now, (n - 1) as nat).push((n - 1) as usize)
    } else {
        fired(reminders, now, (n - 1) as nat)
    }
}

/// A reminder that has been shown is never checked nor shown again: a pass
/// leaves it exactly as it was, whatever the clock says. A reminder that a
/// pass shows is done afterwards, so that no later pass shows it.
pub proof fn lemma_shown_once(r: ReminderView, now: Moment, later: Moment)
    ensures
        r.done ==> ticked(r, now) == r && !fires(r, now),
        fires(r, now) ==> ticked(r, now).done,
        ticked(r, now).done ==> ticked(ticked(r, now), later) == ticked(r, now),
        fires(r, now) ==> !fires(ticked(r, now), later),
{
}

/// A position is among those that a pass shows exactly if it lies below `n`
/// and the reminder there fires; the positions rise.
pub proof fn lemma_fired(reminders: Seq<ReminderView>, now: Moment, n: nat)
    requires
        n <= reminders.len(),
        n <= usize::MAX,
    ensures
        fired(reminders, now, n).len() <= n,
        forall|k: int|
            0 <= k < fired(reminders, now, n).len() ==> (#[trigger] fired(reminders, now, n)[k])
                < n && fires(reminders[fired(reminders, now, n)[k] as int], now),
        forall|i: int|
            0 <= i < n && fires(reminders[i], now) ==> fired(reminders, now, n).contains(
                i as usize,
            ),
        forall|k: int, l: int|
            0 <= k < l < fired(reminders, now, n).len() ==> fired(reminders, now, n)[k] < fired(
                reminders,
                now,
                n,
            )[l],
    decreases n,
{
    if n > 0 {
        let before = fired(reminders, now, (n - 1) as nat);
        let all = fired(reminders, now, n);
        lemma_fired(reminders, now, (n - 1) as nat);
        assert forall|i: int| 0 <= i < n && fires(reminders[i], now) implies all.contains(
            i as usize,
        ) by {
            if i < n - 1 {
                assert(before.contains(i as usize));
                let k = choose|k: int| 0 <= k < before.len() && before[k] == i as usize;
                assert(all[k] == i as usize);
            } else {
                assert(all[all.len() - 1] == i as usize);
            }
        }
    }
}

/// One pass over the reminders at `now`: each one that has not been shown is
/// checked once and, if it is due, marked as done. The positions of those
/// are returned, for the caller to show them.
pub fn tick(reminders: &mut Vec<Reminder>, now: Moment) -> (due: Vec<usize>)
    ensures
        final(reminders).len() == old(reminders).len(),
        forall|i: int|
            0 <= i < old(reminders).len() ==> (#[trigger] final(reminders)[i])@ == ticked(
                old(reminders)[i]@,
                now,
            ),
        due@ == fired(views_of(old(reminders)@), now, old(reminders).len() as nat),
{
    let mut due: Vec<usize> = Vec::new();
    let mut i: usize = 0;
    while i < reminders.len()
        invariant
            i <= reminders.len(),
            reminders.len() == old(reminders).len(),
            forall|j: int| 0 <= j < i ==> (#[trigger] reminders[j])@ == ticked(old(reminders)[j]@, now),
            forall|j: int| i <= j < reminders.len() ==> reminders[j] == old(reminders)[j],
            due@ == fired(views_of(old(reminders)@), now, i as nat),
        decreases reminders.len() - i,
    {
        if !reminders[i].is_done() {
            if reminders[i].check(now) {
                reminders[i].mark_done();
                due.push(i);
            }
        }
        i += 1;
    }
    due
}

/// Whether a reminder has still to be shown.
pub open spec fn is_pending() -> spec_fn(ReminderView) -> bool {
    |r: ReminderView| !r.done
}

/// Clears away the reminders that have been shown. The others stay, in
/// their order.
pub fn compact(reminders: &mut Vec<Reminder>)
    ensures
        views_of(final(reminders)@) == views_of(old(reminders)@).filter(is_pending()),
{
    let ghost before = views_of(reminders@);
    let ghost mut seen: int = 0;
    let mut i: usize = 0;
    proof {
        reveal(Seq::filter);
    }
    while i < reminders.len()
        invariant
            before == views_of(old(reminders)@),
            0 <= i <= reminders.len(),
            0 <= seen <= before.len(),
            reminders.len() - i == before.len() - seen,
            views_of(reminders@).take(i as int) == before.take(seen).filter(is_pending()),
            views_of(reminders@).skip(i as int) == before.skip(seen),
        decreases reminders.len() - i,
    {
        proof {
            let current = views_of(reminders@);
            assert(current[i as int] == current.skip(i as int)[0]);
            reveal(Seq::filter);
            let next = before.take(seen + 1);
            assert(next.drop_last() == before.take(seen));
            assert(next.last() == current[i as int]);
            assert(next.filter(is_pending()) == if is_pending()(next.last()) {
                next.drop_last().filter(is_pending()).push(next.last())
            } else {
                next.drop_last().filter(is_pending())
            });
            assert(current.skip(i as int).drop_first() == before.skip(seen + 1));
        }
        if reminders[i].is_done() {
            let ghost current = views_of(reminders@);
            reminders.remove(i);
            proof {
                assert(views_of(reminders@) == current.remove(i as int));
                assert(current.remove(i as int).take(i as int) == current.take(i as int));
                assert(current.remove(i as int).skip(i as int) == current.skip(i as int).drop_first());
            }
        } else {
            proof {
                let current = views_of(reminders@);
                assert(current.take(i + 1) == current.take(i as int).push(current[i as int]));
                assert(current.skip(i + 1) == current.skip(i as int).drop_first());
            }
            i += 1;
        }
        proof {
            seen = seen + 1;
        }
    }
    proof {
        assert(views_of(reminders@).take(i as int) == views_of(reminders@));
        assert(before.take(seen) == before);
    }
}

} // verus!
