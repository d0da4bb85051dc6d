//! The debounced-save rule: every change schedules a timer one quiet
//! interval ahead, and a timer that fires writes only when no further change
//! arrived since it was scheduled — so a burst of edits produces exactly one
//! write, reflecting the state at the time the burst ended.
use vstd::prelude::*;

verus! {

/// Whether a timer firing at `now` performs the save: only when the quiet
/// interval has fully passed since the last change.
pub open spec fn spec_should_save(last_edit: int, quiet: int, now: int) -> bool {
    last_edit + quiet <= now
}

/// The debounce state of one column: the fixed quiet interval and the time
/// of the most recent change, in milliseconds.
pub struct Debouncer {
    pub quiet: u64,
    pub last_edit: u64,
}

impl Debouncer {
    /// A fresh debouncer that has seen no change.
    pub fn new(quiet: u64) -> (r: Debouncer)
        ensures
            r.quiet == quiet,
            r.last_edit == 0,
    {
        Debouncer { quiet, last_edit: 0 }
    }

    /// Record a change at time `now` and return when the timer it schedules
    /// will fire.
    pub fn record_edit(&mut self, now: u64) -> (fire_at: u64)
        requires
            now <= u64::MAX - old(self).quiet,
        ensures
            final(self).quiet == old(self).quiet,
            final(self).last_edit == now,
            fire_at == now + old(self).quiet,
    {
        self.last_edit = now;
        now + self.quiet
    }

    /// Whether a timer firing at time `now` must perform the save.
    pub fn should_save(&self, now: u64) -> (r: bool)
        ensures
            r == spec_should_save(self.last_edit as int, self.quiet as int, now as int),
    {
        self.last_edit <= now && now - self.last_edit >= self.quiet
    }
}

/// The debounce law: when a burst of changes, each strictly after the one
/// before, all happen within one quiet interval of the first, then of all
/// the timers those changes scheduled exactly the last one saves — every
/// timer fires after the burst ended, so each sees the burst's final change
/// time, and only the last timer's schedule time is late enough.
pub proof fn lemma_debounce_single_write(ts: Seq<int>, quiet: int)
    requires
        ts.len() >= 1,
        quiet > 0,
        forall|i: int, j: int| 0 <= i < j < ts.len() ==> #[trigger] ts[i] < #[trigger] ts[j],
        ts.last() < ts[0] + quiet,
    ensures
        forall|i: int|
            0 <= i < ts.len() ==> (spec_should_save(ts.last(), quiet, #[trigger] ts[i] + quiet)
                <==> i == ts.len() - 1),
        forall|i: int| 0 <= i < ts.len() ==> ts.last() < #[trigger] ts[i] + quiet,
{
    let n = ts.len() as int;
    assert forall|i: int| 0 <= i < n implies (spec_should_save(ts.last(), quiet, ts[i] + quiet)
        <==> i == n - 1) by {
        if i < n - 1 {
            assert(ts[i] < ts[n - 1]);
        }
    }
    assert forall|i: int| 0 <= i < n implies ts.last() < ts[i] + quiet by {
        if 0 < i {
            assert(ts[0] < ts[i]);
        }
    }
}

} // verus!
