//! Per-model activity: what the load and rate averages are advanced by.

use vstd::prelude::*;

verus! {

/// The counts and times behind a model's averages.
#[derive(Debug, Clone, Copy)]
pub struct ModelMetrics {
    /// Total completed requests, counted at slot release.
    pub completions_total: u64,
    /// Time of the most recent activity.
    pub last_activity: u64,
    /// Time of the last tick.
    pub last_update: u64,
    /// In-flight and queued requests at the last tick.
    pub last_active: u128,
}

/// One step of the averages: `active` requests were there for `elapsed`
/// nanoseconds, at the end of which `completions` requests had completed.
#[derive(Debug, Clone, Copy)]
pub struct Tick {
    pub elapsed: u64,
    pub active: u128,
    pub completions: u64,
}

/// The sum; the largest number stays.
pub open spec fn capped_sum(a: u64, b: u64) -> u64 {
    if a + b > u64::MAX {
        u64::MAX
    } else {
        (a + b) as u64
    }
}

impl ModelMetrics {
    /// Metrics of a model without activity so far.
    pub open spec fn fresh(now: u64) -> ModelMetrics {
        ModelMetrics { completions_total: 0, last_activity: now, last_update: now, last_active: 0 }
    }

    /// The metrics after a tick. Any load or completion counts as activity.
    pub open spec fn ticked(self, now: u64, active: u128, completions: u64) -> ModelMetrics {
        ModelMetrics {
            completions_total: capped_sum(self.completions_total, completions),
            last_activity: if active > 0 || completions > 0 {
                now
            } else {
                self.last_activity
            },
            last_update: now,
            last_active: active,
        }
    }

    /// The step that a tick advances the averages by: the load that was there
    /// until now. None where no time has passed.
    pub open spec fn step(self, now: u64, completions: u64) -> Option<Tick> {
        if now <= self.last_update {
            None
        } else {
            Some(
                Tick {
                    elapsed: (now - self.last_update) as u64,
                    active: self.last_active,
                    completions,
                },
            )
        }
    }

    /// Metrics of a model without activity so far.
    pub fn new(now: u64) -> (r: ModelMetrics)
        ensures
            r == ModelMetrics::fresh(now),
    {
        ModelMetrics { completions_total: 0, last_activity: now, last_update: now, last_active: 0 }
    }

    /// Advances to `now` with `active` as the current number of requests and
    /// `completions` newly completed ones.
    pub fn tick(&mut self, now: u64, active: u128, completions: u64) -> (r: Option<Tick>)
        ensures
            *final(self) == old(self).ticked(now, active, completions),
            r == old(self).step(now, completions),
    {
        let step = if now <= self.last_update {
            None
        } else {
            Some(Tick { elapsed: now - self.last_update, active: self.last_active, completions })
        };
        if active > 0 || completions > 0 {
            self.last_activity = now;
        }
        self.completions_total = self.completions_total.saturating_add(completions);
        self.last_update = now;
        self.last_active = active;
        step
    }
}

/// Completions add up; load or a completion is activity and nothing else is; a
/// step of the averages covers the time since the last one with the load that
/// was there then.
pub proof fn law_ticks(m: ModelMetrics, now: u64, active: u128, completions: u64)
    ensures
        m.completions_total + completions <= u64::MAX ==> m.ticked(
            now,
            active,
            completions,
        ).completions_total == m.completions_total + completions,
        m.ticked(now, active, completions).last_activity == now <==> active > 0 || completions > 0
            || m.last_activity == now,
        active == 0 && completions == 0 ==> m.ticked(now, active, completions).last_activity
            == m.last_activity,
        m.step(now, completions) is Some <==> now > m.last_update,
        m.step(now, completions) matches Some(t) ==> m.last_update + t.elapsed == now && t.active
            == m.last_active && t.completions == completions,
{
}

/// Two ticks in a row cover the time between them, with the load of the first.
pub proof fn law_ticks_follow_on(
    m: ModelMetrics,
    first: u64,
    second: u64,
    active: u128,
    later: u128,
    completions: u64,
)
    requires
        first < second,
    ensures
        m.ticked(first, active, completions).step(second, 0) == Some(
            Tick { elapsed: (second - first) as u64, active, completions: 0 },
        ),
        m.ticked(first, active, 0).ticked(second, later, completions).last_active == later,
{
}

/// A model begins with nothing completed and no load. Completions that cannot be
/// counted any more stay at the largest number.
pub proof fn law_fresh_metrics(m: ModelMetrics, now: u64, active: u128, completions: u64)
    ensures
        ModelMetrics::fresh(now).completions_total == 0,
        ModelMetrics::fresh(now).last_activity == now,
        ModelMetrics::fresh(now).last_update == now,
        ModelMetrics::fresh(now).last_active == 0,
        m.completions_total + completions > u64::MAX ==> m.ticked(
            now,
            active,
            completions,
        ).completions_total == u64::MAX,
        m.ticked(now, active, completions).last_update == now,
        m.ticked(now, active, completions).last_active == active,
{
}

} // verus!
