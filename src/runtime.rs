//! State the evaluator keeps between calls: the cooldown ledger and the
//! bounded metric history, plus the results an evaluation hands out.

use vstd::prelude::*;
use crate::ast::{EventRule, Metric};
use crate::clock::MonotonicClock;
use crate::ledger::Ledger;

verus! {

/// Result of evaluating one event rule.
#[derive(Debug, Clone)]
pub struct RuleResult {
    pub rule_id: String,
    pub triggered: bool,
    pub actions: Vec<ActionResult>,
    /// Milliseconds of cooldown left, where a cooldown applies.
    pub cooldown_remaining: Option<u64>,
}

/// A materialised action, ready for a dispatcher.
#[derive(Debug, Clone)]
pub enum ActionResult {
    Notify { message: String },
    Webhook { url: String, body: String },
    Log { message: String },
    Skipped { reason: String },
}

/// Milliseconds from `last` to `now`, zero if `now` is earlier.
pub open spec fn elapsed_since(last: u64, now: u64) -> int {
    if now >= last { now - last } else { 0 }
}

/// Per rule id, the monotonic instant (ms) of its last trigger.
#[derive(Debug, Clone)]
pub struct CooldownState {
    clock: MonotonicClock,
    last_triggered: Ledger,
}

impl CooldownState {
    pub closed spec fn wf(&self) -> bool {
        self.last_triggered.wf()
    }

    /// Monotonic instants of the last triggers.
    pub closed spec fn last(&self) -> Map<Seq<char>, u64> {
        self.last_triggered@
    }

    /// Whether `rule_id` is still cooling down at `now_ms`.
    pub open spec fn in_cooldown(&self, rule_id: Seq<char>, cooldown_seconds: u64, now_ms: u64) -> bool {
        self.last().contains_key(rule_id) && elapsed_since(self.last()[rule_id], now_ms)
            < cooldown_seconds * 1000
    }

    pub fn new() -> (r: Self)
        ensures
            r.wf(),
            r.last() == Map::<Seq<char>, u64>::empty(),
    {
        CooldownState { clock: MonotonicClock::new(), last_triggered: Ledger::new() }
    }

    /// Milliseconds on this state's monotonic clock.
    pub fn now_ms(&self) -> u64 {
        self.clock.now_ms()
    }

    /// Whether the rule is cooling down now.
    pub fn is_in_cooldown(&self, rule_id: &str, cooldown_seconds: u64) -> (r: bool)
        requires
            self.wf(),
        ensures
            exists|ms: u64| r == self.in_cooldown(rule_id@, cooldown_seconds, ms),
    {
        let now = self.clock.now_ms();
        self.is_in_cooldown_at(rule_id, cooldown_seconds, now)
    }

    pub fn is_in_cooldown_at(&self, rule_id: &str, cooldown_seconds: u64, now_ms: u64) -> (r: bool)
        requires
            self.wf(),
        ensures
            r == self.in_cooldown(rule_id@, cooldown_seconds, now_ms),
    {
        match self.last_triggered.get(rule_id) {
            Some(last) => {
                let elapsed: u128 = if now_ms >= last { (now_ms - last) as u128 } else { 0 };
                elapsed < cooldown_seconds as u128 * 1000
            },
            None => false,
        }
    }

    /// Milliseconds of cooldown left now, if any.
    pub fn remaining(&self, rule_id: &str, cooldown_seconds: u64) -> (r: Option<u64>)
        requires
            self.wf(),
        ensures
            exists|ms: u64| (r is Some <==> self.in_cooldown(rule_id@, cooldown_seconds, ms)) && (
            r matches Some(left) ==> left == min_u64(
                cooldown_seconds * 1000 - elapsed_since(self.last()[rule_id@], ms),
            )),
    {
        let now = self.clock.now_ms();
        self.remaining_at(rule_id, cooldown_seconds, now)
    }

    /// Milliseconds of cooldown left at `now_ms` (saturating at the largest
    /// u64), or `None` outside a cooldown.
    pub fn remaining_at(&self, rule_id: &str, cooldown_seconds: u64, now_ms: u64) -> (r: Option<u64>)
        requires
            self.wf(),
        ensures
            r is Some <==> self.in_cooldown(rule_id@, cooldown_seconds, now_ms),
            r matches Some(ms) ==> ms == min_u64(
                cooldown_seconds * 1000 - elapsed_since(self.last()[rule_id@], now_ms),
            ),
    {
        match self.last_triggered.get(rule_id) {
            Some(last) => {
                let elapsed: u128 = if now_ms >= last { (now_ms - last) as u128 } else { 0 };
                let cooldown: u128 = cooldown_seconds as u128 * 1000;
                if elapsed < cooldown {
                    let left = cooldown - elapsed;
                    if left > u64::MAX as u128 {
                        Some(u64::MAX)
                    } else {
                        Some(left as u64)
                    }
                } else {
                    None
                }
            },
            None => None,
        }
    }

    /// Records a trigger of the rule now.
    pub fn trigger(&mut self, rule_id: &str)
        requires
            old(self).wf(),
        ensures
            final(self).wf(),
            exists|ms: u64| final(self).last() == old(self).last().insert(rule_id@, ms),
    {
        let now = self.clock.now_ms();
        self.trigger_at(rule_id, now);
    }

    pub fn trigger_at(&mut self, rule_id: &str, now_ms: u64)
        requires
            old(self).wf(),
        ensures
            final(self).wf(),
            final(self).last() == old(self).last().insert(rule_id@, now_ms),
    {
        self.last_triggered.set(rule_id, now_ms);
    }

    /// Forgets the rule's last trigger.
    pub fn reset(&mut self, rule_id: &str)
        requires
            old(self).wf(),
        ensures
            final(self).wf(),
            final(self).last() == old(self).last().remove(rule_id@),
    {
        self.last_triggered.remove(rule_id);
    }
}

impl Default for CooldownState {
    fn default() -> (r: Self)
        ensures
            r.wf(),
            r.last() == Map::<Seq<char>, u64>::empty(),
    {
        Self::new()
    }
}

pub open spec fn min_u64(x: int) -> int {
    if x > u64::MAX { u64::MAX as int } else { x }
}

/// The result of the first two steps of event rule evaluation: a rule in
/// cooldown, or a disabled rule, is reported without looking at its
/// condition. `None` means the condition is to be evaluated.
pub fn precheck_event_rule(cooldowns: &CooldownState, rule: &EventRule, now_ms: u64) -> (r: Option<
    RuleResult,
>)
    requires
        cooldowns.wf(),
    ensures
        rule_cooling(cooldowns, *rule, now_ms) ==> {
            &&& r is Some
            &&& skipped_with(r->0, rule.id@, "In cooldown"@)
            &&& r->0.cooldown_remaining == Some(
                min_u64(
                    rule.cooldown_seconds->0 * 1000 - elapsed_since(
                        cooldowns.last()[rule.id@],
                        now_ms,
                    ),
                ) as u64,
            )
        },
        !rule_cooling(cooldowns, *rule, now_ms) && !rule.enabled ==> {
            &&& r is Some
            &&& skipped_with(r->0, rule.id@, "Rule disabled"@)
            &&& r->0.cooldown_remaining is None
        },
        !rule_cooling(cooldowns, *rule, now_ms) && rule.enabled ==> r is None,
{
    match rule.cooldown_seconds {
        Some(cooldown) => {
            if cooldowns.is_in_cooldown_at(rule.id.as_str(), cooldown, now_ms) {
                let remaining = cooldowns.remaining_at(rule.id.as_str(), cooldown, now_ms);
                return Some(
                    RuleResult {
                        rule_id: rule.id.clone(),
                        triggered: false,
                        actions: vec![ActionResult::Skipped { reason: "In cooldown".to_string() }],
                        cooldown_remaining: remaining,
                    },
                );
            }
        },
        None => {},
    }
    if !rule.enabled {
        return Some(
            RuleResult {
                rule_id: rule.id.clone(),
                triggered: false,
                actions: vec![ActionResult::Skipped { reason: "Rule disabled".to_string() }],
                cooldown_remaining: None,
            },
        );
    }
    None
}

/// Whether the rule has a cooldown and is in it at `now_ms`.
pub open spec fn rule_cooling(cooldowns: &CooldownState, rule: EventRule, now_ms: u64) -> bool {
    match rule.cooldown_seconds {
        Some(c) => cooldowns.in_cooldown(rule.id@, c, now_ms),
        None => false,
    }
}

/// A non-triggered result carrying one `Skipped` action with `reason`.
pub open spec fn skipped_with(res: RuleResult, rule_id: Seq<char>, reason: Seq<char>) -> bool {
    &&& res.rule_id@ == rule_id
    &&& !res.triggered
    &&& res.actions@.len() == 1
    &&& res.actions@[0] is Skipped
    &&& res.actions@[0]->Skipped_reason@ == reason
}

/// After a trigger of a rule with a cooldown at monotonic instant `t`,
/// every evaluation of the rule at an instant of `[t, t + cooldown)` is
/// reported as skipped "In cooldown" (see `precheck_event_rule`).
pub proof fn lemma_cooldown_holds(
    before: CooldownState,
    after: CooldownState,
    rule: EventRule,
    t: u64,
    now_ms: u64,
)
    requires
        after.last() == before.last().insert(rule.id@, t),
        rule.cooldown_seconds is Some,
        t <= now_ms < t + rule.cooldown_seconds->0 * 1000,
    ensures
        rule_cooling(&after, rule, now_ms),
{
}

/// Timestamped samples of each metric, oldest first, pruned to a maximum
/// age on every append.
#[derive(Debug, Clone)]
pub struct MetricHistory<V> {
    data: Vec<Vec<(u64, V)>>,
    max_age_seconds: u64,
}

/// The earliest timestamp (ms) kept by a window of `seconds` ending at `now_ms`.
pub open spec fn cutoff_ms(now_ms: u64, seconds: u64) -> int {
    if now_ms >= seconds * 1000 { now_ms - seconds * 1000 } else { 0 }
}

pub open spec fn at_or_after<V>(cutoff: int) -> spec_fn((u64, V)) -> bool {
    |e: (u64, V)| e.0 >= cutoff
}

pub open spec fn sample_value<V>() -> spec_fn((u64, V)) -> V {
    |e: (u64, V)| e.1
}

fn cutoff(now_ms: u64, seconds: u64) -> (r: u64)
    ensures
        r == cutoff_ms(now_ms, seconds),
{
    let span: u128 = seconds as u128 * 1000;
    if now_ms as u128 >= span {
        (now_ms as u128 - span) as u64
    } else {
        0
    }
}

impl<V: Copy> MetricHistory<V> {
    pub closed spec fn wf(&self) -> bool {
        self.data@.len() == 7
    }

    /// The samples of a metric, oldest first.
    pub closed spec fn samples(&self, m: Metric) -> Seq<(u64, V)> {
        self.data@[m.index_spec() as int]@
    }

    pub closed spec fn max_age(&self) -> u64 {
        self.max_age_seconds
    }

    pub fn new(max_age_seconds: u64) -> (r: Self)
        ensures
            r.wf(),
            r.max_age() == max_age_seconds,
            forall|m: Metric| r.samples(m).len() == 0,
    {
        let mut data: Vec<Vec<(u64, V)>> = Vec::new();
        let mut i: usize = 0;
        while i < 7
            invariant
                i <= 7,
                data@.len() == i,
                forall|j: int| 0 <= j < i ==> data@[j]@.len() == 0,
            decreases 7 - i,
        {
            data.push(Vec::new());
            i = i + 1;
        }
        MetricHistory { data, max_age_seconds }
    }

    /// Appends a sample, then drops the metric's samples older than the
    /// maximum age before `timestamp_ms`.
    pub fn add(&mut self, metric: Metric, timestamp_ms: u64, value: V)
        requires
            old(self).wf(),
        ensures
            final(self).wf(),
            final(self).max_age() == old(self).max_age(),
            final(self).samples(metric) == old(self).samples(metric).push((timestamp_ms, value)).filter(
                at_or_after::<V>(cutoff_ms(timestamp_ms, old(self).max_age())),
            ),
            forall|m: Metric| m != metric ==> final(self).samples(m) == old(self).samples(m),
    {
        let idx = metric.index();
        let limit = cutoff(timestamp_ms, self.max_age_seconds);
        let ghost pred = at_or_after::<V>(limit as int);
        let mut kept: Vec<(u64, V)> = Vec::new();
        let mut i: usize = 0;
        let n = self.data[idx].len();
        let ghost src = self.data@[idx as int]@.push((timestamp_ms, value));
        while i < n
            invariant
                self.data@.len() == 7,
                idx < 7,
                n == self.data@[idx as int]@.len(),
                src == self.data@[idx as int]@.push((timestamp_ms, value)),
                i <= n,
                kept@ == src.take(i as int).filter(pred),
                pred == at_or_after::<V>(limit as int),
            decreases n - i,
        {
            let e = self.data[idx][i];
            proof {
                assert(src.take(i + 1) =~= src.take(i as int).push(e));
                src.take(i as int).lemma_filter_push(e, pred);
            }
            if e.0 >= limit {
                kept.push(e);
            }
            i = i + 1;
        }
        let e = (timestamp_ms, value);
        proof {
            assert(src.take(n + 1) =~= src.take(n as int).push(e));
            src.take(n as int).lemma_filter_push(e, pred);
            assert(src.take(n + 1) =~= src);
        }
        if timestamp_ms >= limit {
            kept.push(e);
        }
        self.data.set(idx, kept);
        proof {
            assert forall|m: Metric| m != metric implies self.samples(m) == old(self).samples(m) by {
                assert(m.index_spec() != metric.index_spec());
            }
        }
    }

    /// Values of a metric's samples no older than `period_seconds` before
    /// `current_time_ms`, oldest first.
    pub fn get_range(&self, metric: &Metric, period_seconds: u64, current_time_ms: u64) -> (r: Vec<V>)
        requires
            self.wf(),
        ensures
            r@ == self.samples(*metric).filter(
                at_or_after::<V>(cutoff_ms(current_time_ms, period_seconds)),
            ).map_values(sample_value::<V>()),
    {
        let idx = metric.index();
        let limit = cutoff(current_time_ms, period_seconds);
        let ghost pred = at_or_after::<V>(limit as int);
        let ghost src = self.data@[idx as int]@;
        let n = self.data[idx].len();
        let mut out: Vec<V> = Vec::new();
        let mut i: usize = 0;
        while i < n
            invariant
                idx < 7,
                self.data@.len() == 7,
                src == self.data@[idx as int]@,
                n == src.len(),
                i <= n,
                out@ == src.take(i as int).filter(pred).map_values(sample_value::<V>()),
                pred == at_or_after::<V>(limit as int),
            decreases n - i,
        {
            let e = self.data[idx][i];
            proof {
                assert(src.take(i + 1) =~= src.take(i as int).push(e));
                src.take(i as int).lemma_filter_push(e, pred);
                assert(src.take(i as int).filter(pred).push(e).map_values(sample_value::<V>())
                    =~= src.take(i as int).filter(pred).map_values(sample_value::<V>()).push(e.1));
            }
            if e.0 >= limit {
                out.push(e.1);
            }
            i = i + 1;
        }
        proof {
            assert(src.take(n as int) =~= src);
        }
        out
    }

    /// The values of the `count` most recent samples of a metric, newest
    /// first.
    pub fn get_recent(&self, metric: &Metric, count: usize) -> (r: Vec<V>)
        requires
            self.wf(),
        ensures
            r@.len() == if count < self.samples(*metric).len() {
                count as int
            } else {
                self.samples(*metric).len() as int
            },
            forall|k: int|
                0 <= k < r@.len() ==> r@[k] == self.samples(*metric)[self.samples(
                    *metric,
                ).len() - 1 - k].1,
    {
        let idx = metric.index();
        let n = self.data[idx].len();
        let mut out: Vec<V> = Vec::new();
        let mut k: usize = 0;
        while k < count && k < n
            invariant
                idx < 7,
                idx == metric.index_spec(),
                self.data@.len() == 7,
                n == self.data@[idx as int]@.len(),
                k <= n,
                k <= count,
                out@.len() == k,
                forall|j: int| 0 <= j < k ==> out@[j] == self.data@[idx as int]@[n - 1 - j].1,
            decreases n - k,
        {
            out.push(self.data[idx][n - 1 - k].1);
            k = k + 1;
        }
        out
    }
}

/// Once a sample at `t` is appended for a metric, none of that metric's
/// retained samples is older than the maximum age before `t`.
pub proof fn lemma_history_pruned<V: Copy>(
    before: MetricHistory<V>,
    after: MetricHistory<V>,
    metric: Metric,
    t: u64,
    value: V,
)
    requires
        before.wf(),
        after.samples(metric) == before.samples(metric).push((t, value)).filter(
            at_or_after::<V>(cutoff_ms(t, before.max_age())),
        ),
    ensures
        forall|k: int|
            0 <= k < after.samples(metric).len() ==> after.samples(metric)[k].0 >= t as int
                - before.max_age() * 1000,
{
    let s = before.samples(metric).push((t, value));
    let p = at_or_after::<V>(cutoff_ms(t, before.max_age()));
    assert forall|k: int| 0 <= k < after.samples(metric).len() implies after.samples(metric)[k].0
        >= t as int - before.max_age() * 1000 by {
        s.lemma_filter_pred(p, k);
    }
}

} // verus!
