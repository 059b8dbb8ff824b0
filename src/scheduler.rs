//! Time-based rules: calendar decomposition of Unix time, the schedule
//! trigger ledger, and the decision whether a schedule rule fires now.

use vstd::prelude::*;
use crate::ast::{ScheduleRule, Schedule, CalendarSchedule, CalendarFrequency, Rule};
use crate::clock::MonotonicClock;
use crate::ledger::Ledger;

verus! {

/// The anti-double-fire guard: a rule fires at most once per minute.
pub const MIN_REFIRE_MS: u64 = 60000;

pub open spec fn is_leap(y: int) -> bool {
    (y % 4 == 0 && y % 100 != 0) || y % 400 == 0
}

pub open spec fn year_len(y: int) -> int {
    if is_leap(y) { 366 } else { 365 }
}

pub open spec fn month_len(y: int, m: int) -> int {
    if m == 2 {
        if is_leap(y) { 29 } else { 28 }
    } else if m == 4 || m == 6 || m == 9 || m == 11 {
        30
    } else {
        31
    }
}

/// The year that holds day `days` counted from the start of year `y`, and
/// the day's index within that year.
pub open spec fn year_of(days: nat, y: int) -> (int, nat)
    decreases days,
{
    if days < year_len(y) {
        (y, days)
    } else {
        year_of((days - year_len(y)) as nat, y + 1)
    }
}

/// The month that holds day `rem` of year `y`, counting from month `m`, and
/// the day's index within that month.
pub open spec fn month_of(rem: nat, y: int, m: int) -> (int, nat)
    decreases 12 - m,
{
    if m >= 12 || rem < month_len(y, m) {
        (m, rem)
    } else {
        month_of((rem - month_len(y, m)) as nat, y, m + 1)
    }
}

/// Proleptic Gregorian (year, month, day) of a day count since 1970-01-01.
pub open spec fn civil_from_days(days: nat) -> (int, int, int) {
    let (y, r) = year_of(days, 1970);
    let (m, d) = month_of(r, y, 1);
    (y, m, d + 1 as int)
}

/// Calendar fields of a Unix timestamp, in UTC.
#[derive(Debug, Clone, Copy, PartialEq, Eq, Structural)]
pub struct DateTime {
    pub year: u16,
    /// 1 to 12.
    pub month: u8,
    /// 1 to 31.
    pub day: u8,
    /// 1 to 7, Monday is 1.
    pub weekday: u8,
    /// 0 to 23.
    pub hour: u8,
    /// 0 to 59.
    pub minute: u8,
    /// 0 to 59.
    pub second: u8,
    /// Unix timestamp in seconds.
    pub timestamp: u64,
}

/// The decomposition of `ts`: the year is kept modulo 2^16.
pub open spec fn datetime_of(ts: u64) -> DateTime {
    let days = (ts / 86400) as nat;
    let tod = ts % 86400;
    let c = civil_from_days(days);
    DateTime {
        year: (c.0 % 65536) as u16,
        month: c.1 as u8,
        day: c.2 as u8,
        weekday: ((days + 3) % 7 + 1) as u8,
        hour: (tod / 3600) as u8,
        minute: ((tod % 3600) / 60) as u8,
        second: (tod % 60) as u8,
        timestamp: ts,
    }
}

/// Days of year `y` before the first of month `m`.
pub open spec fn days_before(y: int, m: int) -> int
    decreases m,
{
    if m <= 1 {
        0
    } else {
        days_before(y, m - 1) + month_len(y, m - 1)
    }
}

proof fn lemma_month_range(rem: nat, y: int, m: int)
    requires
        1 <= m <= 12,
    ensures
        m <= month_of(rem, y, m).0 <= 12,
    decreases 12 - m,
{
    if !(m >= 12 || rem < month_len(y, m)) {
        lemma_month_range((rem - month_len(y, m)) as nat, y, m + 1);
    }
}

fn is_leap_year(year: u64) -> (r: bool)
    ensures
        r == is_leap(year as int),
{
    (year % 4 == 0 && year % 100 != 0) || (year % 400 == 0)
}

/// Converts a day count since the epoch to (year, month, day).
fn days_to_ymd(days: u64) -> (r: (u64, u8, u8))
    requires
        days <= u64::MAX / 86400,
    ensures
        civil_from_days(days as nat) == (r.0 as int, r.1 as int, r.2 as int),
        1 <= r.1 <= 12,
        1 <= r.2 <= 31,
{
    let mut remaining = days;
    let mut year: u64 = 1970;
    loop
        invariant
            year_of(days as nat, 1970) == year_of(remaining as nat, year as int),
            1970 <= year,
            year - 1970 <= days - remaining,
            remaining <= days <= u64::MAX / 86400,
        ensures
            remaining < year_len(year as int),
            year_of(days as nat, 1970) == (year as int, remaining as nat),
        decreases remaining,
    {
        let days_in_year: u64 = if is_leap_year(year) { 366 } else { 365 };
        if remaining < days_in_year {
            break;
        }
        remaining = remaining - days_in_year;
        year = year + 1;
    }
    let leap = is_leap_year(year);
    let mut month: u64 = 1;
    let mut rem = remaining;
    assert(remaining < year_len(year as int));
    loop
        invariant
            1 <= month <= 12,
            month_of(remaining as nat, year as int, 1) == month_of(rem as nat, year as int, month as int),
            leap == is_leap(year as int),
            rem <= remaining,
            rem + days_before(year as int, month as int) == remaining,
            month < 12 ==> rem < year_len(year as int) - days_before(year as int, month as int),
            remaining < year_len(year as int),
        ensures
            month_of(rem as nat, year as int, month as int) == (month as int, rem as nat),
            rem + days_before(year as int, month as int) == remaining,
            1 <= month <= 12,
            month < 12 ==> rem < month_len(year as int, month as int),
        decreases 12 - month,
    {
        if month >= 12 {
            break;
        }
        let dim: u64 = if month == 2 {
            if leap { 29 } else { 28 }
        } else if month == 4 || month == 6 || month == 9 || month == 11 {
            30
        } else {
            31
        };
        if rem < dim {
            break;
        }
        rem = rem - dim;
        month = month + 1;
    }
    proof {
        lemma_month_range(rem as nat, year as int, month as int);
    }
    proof {
        if month == 12 {
            reveal_with_fuel(days_before, 12);
            assert(days_before(year as int, 12) == year_len(year as int) - 31);
        }
    }
    (year, month as u8, (rem + 1) as u8)
}

impl DateTime {
    /// Decomposes a Unix timestamp (UTC).
    pub fn from_timestamp(ts: u64) -> (r: Self)
        ensures
            r == datetime_of(ts),
            r.hour <= 23,
            r.minute <= 59,
            r.second <= 59,
            1 <= r.weekday <= 7,
            1 <= r.month <= 12,
            1 <= r.day <= 31,
    {
        let days_since_epoch = ts / 86400;
        let time_of_day = ts % 86400;
        let hour = (time_of_day / 3600) as u8;
        let minute = ((time_of_day % 3600) / 60) as u8;
        let second = (time_of_day % 60) as u8;
        // 1970-01-01 was a Thursday.
        let weekday = ((days_since_epoch + 3) % 7 + 1) as u8;
        let (year, month, day) = days_to_ymd(days_since_epoch);
        DateTime {
            year: (year % 65536) as u16,
            month,
            day,
            weekday,
            hour,
            minute,
            second,
            timestamp: ts,
        }
    }

    /// The current wall-clock time.
    pub fn now() -> (r: Self)
        ensures
            r == datetime_of(r.timestamp),
    {
        Self::from_timestamp(unix_now())
    }
}

/// Relies on std::time::SystemTime::now: seconds since the Unix epoch, or 0
/// when the system clock is set before it.
#[verifier::external_body]
pub(crate) fn unix_now() -> u64 {
    std::time::SystemTime::now()
        .duration_since(std::time::UNIX_EPOCH)
        .map(|d| d.as_secs())
        .unwrap_or(0)
}

/// For each rule id: the monotonic instant (ms) and the Unix time (s) of its
/// last trigger.
#[derive(Debug, Clone)]
pub struct ScheduleState {
    clock: MonotonicClock,
    last_triggered: Ledger,
    last_triggered_ts: Ledger,
}

/// Milliseconds elapsed from `last` to `now`, zero if `now` is earlier.
pub open spec fn elapsed_ms(last: u64, now: u64) -> int {
    if now >= last { now - last } else { 0 }
}

impl ScheduleState {
    pub closed spec fn wf(&self) -> bool {
        self.last_triggered.wf() && self.last_triggered_ts.wf()
    }

    /// Monotonic instants of the last triggers.
    pub closed spec fn monotonic(&self) -> Map<Seq<char>, u64> {
        self.last_triggered@
    }

    /// Unix times of the last triggers.
    pub closed spec fn timestamps(&self) -> Map<Seq<char>, u64> {
        self.last_triggered_ts@
    }

    pub fn new() -> (r: Self)
        ensures
            r.wf(),
            r.monotonic() == Map::<Seq<char>, u64>::empty(),
            r.timestamps() == Map::<Seq<char>, u64>::empty(),
    {
        ScheduleState {
            clock: MonotonicClock::new(),
            last_triggered: Ledger::new(),
            last_triggered_ts: Ledger::new(),
        }
    }

    /// Milliseconds on this state's monotonic clock.
    pub fn now_ms(&self) -> u64 {
        self.clock.now_ms()
    }

    /// Records that a rule was triggered at Unix time `timestamp`, now.
    pub fn record_trigger(&mut self, rule_id: &str, timestamp: u64)
        requires
            old(self).wf(),
        ensures
            final(self).wf(),
            final(self).timestamps() == old(self).timestamps().insert(rule_id@, timestamp),
            exists|ms: u64| final(self).monotonic() == old(self).monotonic().insert(rule_id@, ms),
    {
        let now = self.clock.now_ms();
        self.record_trigger_at(rule_id, timestamp, now);
    }

    /// Records that a rule was triggered at Unix time `timestamp` and
    /// monotonic instant `now_ms`.
    pub fn record_trigger_at(&mut self, rule_id: &str, timestamp: u64, now_ms: u64)
        requires
            old(self).wf(),
        ensures
            final(self).wf(),
            final(self).timestamps() == old(self).timestamps().insert(rule_id@, timestamp),
            final(self).monotonic() == old(self).monotonic().insert(rule_id@, now_ms),
    {
        self.last_triggered.set(rule_id, now_ms);
        self.last_triggered_ts.set(rule_id, timestamp);
    }

    pub fn last_trigger_ts(&self, rule_id: &str) -> (r: Option<u64>)
        requires
            self.wf(),
        ensures
            r == (if self.timestamps().contains_key(rule_id@) {
                Some(self.timestamps()[rule_id@])
            } else {
                None::<u64>
            }),
    {
        self.last_triggered_ts.get(rule_id)
    }

    /// Whether at least `min_interval_ms` have passed since the rule's last
    /// trigger, on the monotonic clock.
    pub fn can_trigger(&self, rule_id: &str, min_interval_ms: u64) -> (r: bool)
        requires
            self.wf(),
        ensures
            exists|ms: u64| r == self.can_trigger_spec(rule_id@, min_interval_ms, ms),
    {
        let now = self.clock.now_ms();
        self.can_trigger_at(rule_id, min_interval_ms, now)
    }

    pub open spec fn can_trigger_spec(&self, rule_id: Seq<char>, min_interval_ms: u64, now_ms: u64) -> bool {
        self.monotonic().contains_key(rule_id) ==> elapsed_ms(self.monotonic()[rule_id], now_ms)
            >= min_interval_ms
    }

    pub fn can_trigger_at(&self, rule_id: &str, min_interval_ms: u64, now_ms: u64) -> (r: bool)
        requires
            self.wf(),
        ensures
            r == self.can_trigger_spec(rule_id@, min_interval_ms, now_ms),
    {
        match self.last_triggered.get(rule_id) {
            Some(last) => {
                let elapsed = if now_ms >= last { now_ms - last } else { 0 };
                elapsed >= min_interval_ms
            },
            None => true,
        }
    }
}

impl Default for ScheduleState {
    fn default() -> (r: Self)
        ensures
            r.wf(),
            r.monotonic() == Map::<Seq<char>, u64>::empty(),
            r.timestamps() == Map::<Seq<char>, u64>::empty(),
    {
        Self::new()
    }
}

/// The day-of-week, day-of-month and month tests of a calendar schedule.
pub open spec fn day_matches(cal: CalendarSchedule, dt: DateTime) -> bool {
    let target: u8 = match cal.on {
        Some(d) => d,
        None => 1u8,
    };
    match cal.frequency {
        CalendarFrequency::Daily => true,
        CalendarFrequency::Weekly => dt.weekday == target,
        CalendarFrequency::Monthly => dt.day == target,
        CalendarFrequency::Yearly => dt.day == target && dt.month == 1,
    }
}

/// A calendar schedule matches `now` in the first minute of its time of day
/// on a matching day.
pub open spec fn calendar_matches(cal: CalendarSchedule, now: DateTime) -> bool {
    now.hour == cal.at.hour && now.minute == cal.at.minute && now.second < 60 && day_matches(cal, now)
}

/// Whether `last` and `now` fall in the same calendar period of the
/// schedule: the same day for daily and weekly rules, the same month for
/// monthly rules, the same year for yearly rules. Interval and cron
/// schedules have no period.
pub open spec fn same_period(schedule: Schedule, last: DateTime, now: DateTime) -> bool {
    match schedule {
        Schedule::Calendar(cal) => match cal.frequency {
            CalendarFrequency::Daily | CalendarFrequency::Weekly => last.year == now.year
                && last.month == now.month && last.day == now.day,
            CalendarFrequency::Monthly => last.year == now.year && last.month == now.month,
            CalendarFrequency::Yearly => last.year == now.year,
        },
        _ => false,
    }
}

/// Whether the clock position `now` matches the schedule; interval and cron
/// schedules never match here.
pub open spec fn schedule_matches(schedule: Schedule, now: DateTime) -> bool {
    match schedule {
        Schedule::Calendar(cal) => calendar_matches(cal, now),
        _ => false,
    }
}

/// What a next calendar trigger satisfies: a later instant, at the
/// schedule's time of day, on a matching day.
pub open spec fn next_calendar_ok(cal: CalendarSchedule, now_ts: u64, r: Option<u64>) -> bool {
    r matches Some(t) ==> {
        &&& t > now_ts
        &&& datetime_of(t).hour == cal.at.hour
        &&& datetime_of(t).minute == cal.at.minute
        &&& datetime_of(t).second == 0
        &&& day_matches(cal, datetime_of(t))
    }
}

proof fn lemma_time_of_day(ts: u64)
    ensures
        ts % 86400 == datetime_of(ts).hour * 3600 + datetime_of(ts).minute * 60
            + datetime_of(ts).second,
        ts % 86400 < 86400,
{
}

proof fn lemma_at_time(t: u64, h: int, m: int)
    requires
        0 <= h < 24,
        0 <= m < 60,
        t % 86400 == h * 3600 + m * 60,
    ensures
        datetime_of(t).hour == h,
        datetime_of(t).minute == m,
        datetime_of(t).second == 0,
{
    let tod = t % 86400;
    assert(tod / 3600 == h) by (nonlinear_arith)
        requires
            tod == h * 3600 + m * 60,
            0 <= h < 24,
            0 <= m < 60,
    ;
    assert((tod % 3600) / 60 == m) by (nonlinear_arith)
        requires
            tod == h * 3600 + m * 60,
            0 <= h < 24,
            0 <= m < 60,
    ;
    assert(tod % 60 == 0) by (nonlinear_arith)
        requires
            tod == h * 3600 + m * 60,
            0 <= h < 24,
            0 <= m < 60,
    ;
}

/// The first of the 366 daily candidates `first`, `first + 1 day`, ...
/// (from the `k`-th on) that falls on a day the schedule matches and fits
/// a u64.
pub open spec fn first_matching_day(cal: CalendarSchedule, first: int, k: nat) -> Option<u64>
    decreases 366 - k,
{
    if k >= 366 {
        None
    } else {
        let t = first + k * 86400;
        if t > u64::MAX {
            None
        } else if day_matches(cal, datetime_of(t as u64)) {
            Some(t as u64)
        } else {
            first_matching_day(cal, first, k + 1)
        }
    }
}

/// The next calendar trigger after Unix time `ts`: the schedule's time of
/// day today (tomorrow once it has passed), moved on a day at a time until
/// the day matches, within a year. A time of day out of range has none.
pub open spec fn next_calendar_spec(cal: CalendarSchedule, ts: u64) -> Option<u64> {
    if cal.at.hour >= 24 || cal.at.minute >= 60 {
        None
    } else {
        let now = datetime_of(ts);
        let passed = now.hour > cal.at.hour || (now.hour == cal.at.hour && now.minute
            >= cal.at.minute);
        let base = ts - ts % 86400 + if passed { 86400int } else { 0int };
        first_matching_day(cal, base + cal.at.hour * 3600 + cal.at.minute * 60, 0)
    }
}

/// The scheduler for time-based rules.
#[derive(Debug, Clone)]
pub struct Scheduler {
    state: ScheduleState,
}

impl Scheduler {
    pub closed spec fn wf(&self) -> bool {
        self.state.wf()
    }

    pub closed spec fn state_spec(&self) -> ScheduleState {
        self.state
    }

    /// The decision of `should_trigger` at monotonic instant `now_ms`.
    pub open spec fn fires(&self, rule: ScheduleRule, now: DateTime, now_ms: u64) -> bool {
        let st = self.state_spec();
        &&& rule.enabled
        &&& st.can_trigger_spec(rule.id@, MIN_REFIRE_MS, now_ms)
        &&& !(st.timestamps().contains_key(rule.id@) && same_period(
            rule.schedule,
            datetime_of(st.timestamps()[rule.id@]),
            now,
        ))
        &&& schedule_matches(rule.schedule, now)
    }

    pub fn new() -> (r: Self)
        ensures
            r.wf(),
            r.state_spec().timestamps() == Map::<Seq<char>, u64>::empty(),
            r.state_spec().monotonic() == Map::<Seq<char>, u64>::empty(),
    {
        Scheduler { state: ScheduleState::new() }
    }

    pub fn with_state(state: ScheduleState) -> (r: Self)
        ensures
            r.state_spec() == state,
    {
        Scheduler { state }
    }

    pub fn state(&self) -> (r: &ScheduleState)
        ensures
            *r == self.state_spec(),
    {
        &self.state
    }

    /// Whether a schedule rule should trigger at `now`, reading the
    /// monotonic clock for the anti-double-fire guard.
    pub fn should_trigger(&self, rule: &ScheduleRule, now: &DateTime) -> (r: bool)
        requires
            self.wf(),
        ensures
            exists|ms: u64| r == self.fires(*rule, *now, ms),
    {
        let now_ms = self.state.now_ms();
        self.should_trigger_at(rule, now, now_ms)
    }

    pub fn should_trigger_at(&self, rule: &ScheduleRule, now: &DateTime, now_ms: u64) -> (r: bool)
        requires
            self.wf(),
        ensures
            r == self.fires(*rule, *now, now_ms),
    {
        if !rule.enabled {
            return false;
        }
        if !self.state.can_trigger_at(rule.id.as_str(), MIN_REFIRE_MS, now_ms) {
            return false;
        }
        match self.state.last_trigger_ts(rule.id.as_str()) {
            Some(last_ts) => {
                let last = DateTime::from_timestamp(last_ts);
                if Self::already_triggered_in_period(&rule.schedule, &last, now) {
                    return false;
                }
            },
            None => {},
        }
        Self::matches_schedule(&rule.schedule, now)
    }

    fn matches_schedule(schedule: &Schedule, now: &DateTime) -> (r: bool)
        ensures
            r == schedule_matches(*schedule, *now),
    {
        match schedule {
            Schedule::Calendar(cal) => Self::matches_calendar(cal, now),
            Schedule::Interval(_) => false,
            Schedule::Cron(_) => false,
        }
    }

    fn matches_calendar(cal: &CalendarSchedule, now: &DateTime) -> (r: bool)
        ensures
            r == calendar_matches(*cal, *now),
    {
        if now.hour != cal.at.hour || now.minute != cal.at.minute {
            return false;
        }
        if now.second >= 60 {
            return false;
        }
        Self::day_matches_frequency(cal, now)
    }

    fn day_matches_frequency(cal: &CalendarSchedule, dt: &DateTime) -> (r: bool)
        ensures
            r == day_matches(*cal, *dt),
    {
        let target: u8 = match cal.on {
            Some(d) => d,
            None => 1,
        };
        match cal.frequency {
            CalendarFrequency::Daily => true,
            CalendarFrequency::Weekly => dt.weekday == target,
            CalendarFrequency::Monthly => dt.day == target,
            CalendarFrequency::Yearly => dt.day == target && dt.month == 1,
        }
    }

    fn already_triggered_in_period(schedule: &Schedule, last: &DateTime, now: &DateTime) -> (r: bool)
        ensures
            r == same_period(*schedule, *last, *now),
    {
        match schedule {
            Schedule::Calendar(cal) => match cal.frequency {
                CalendarFrequency::Daily | CalendarFrequency::Weekly => {
                    last.year == now.year && last.month == now.month && last.day == now.day
                },
                CalendarFrequency::Monthly => last.year == now.year && last.month == now.month,
                CalendarFrequency::Yearly => last.year == now.year,
            },
            Schedule::Interval(_) => false,
            Schedule::Cron(_) => false,
        }
    }

    /// Whether an interval rule is due at Unix time `now_ts`: never
    /// triggered, or at least its interval since the last trigger.
    pub fn check_interval(&self, rule: &ScheduleRule, now_ts: u64) -> (r: bool)
        requires
            self.wf(),
        ensures
            r == interval_due(*self, *rule, now_ts),
    {
        if !rule.enabled {
            return false;
        }
        match &rule.schedule {
            Schedule::Interval(interval) => match self.state.last_trigger_ts(rule.id.as_str()) {
                Some(last_ts) => match last_ts.checked_add(interval.interval_seconds) {
                    Some(due) => now_ts >= due,
                    None => false,
                },
                None => true,
            },
            _ => false,
        }
    }

    /// The next Unix time at which a rule would fire: for a calendar rule
    /// the first later instant at its time of day on a matching day (within
    /// a year), for an interval rule its last trigger plus its interval (or
    /// `now` when it never fired). Disabled and cron rules have none.
    pub fn next_trigger(&self, rule: &ScheduleRule, now: &DateTime) -> (r: Option<u64>)
        requires
            self.wf(),
        ensures
            !rule.enabled ==> r is None,
            rule.enabled ==> match rule.schedule {
                Schedule::Calendar(cal) => next_calendar_ok(cal, now.timestamp, r) && r == next_calendar_spec(cal, now.timestamp),
                Schedule::Interval(iv) => {
                    let ts = self.state_spec().timestamps();
                    r == Some(
                        if ts.contains_key(rule.id@) {
                            if ts[rule.id@] + iv.interval_seconds <= u64::MAX {
                                (ts[rule.id@] + iv.interval_seconds) as u64
                            } else {
                                u64::MAX
                            }
                        } else {
                            now.timestamp
                        },
                    )
                },
                Schedule::Cron(_) => r is None,
            },
    {
        if !rule.enabled {
            return None;
        }
        match &rule.schedule {
            Schedule::Calendar(cal) => Self::next_calendar_trigger(cal, now),
            Schedule::Interval(interval) => match self.state.last_trigger_ts(rule.id.as_str()) {
                Some(last) => Some(last.saturating_add(interval.interval_seconds)),
                None => Some(now.timestamp),
            },
            Schedule::Cron(_) => None,
        }
    }

    fn next_calendar_trigger(cal: &CalendarSchedule, now: &DateTime) -> (r: Option<u64>)
        ensures
            next_calendar_ok(*cal, now.timestamp, r),
            r == next_calendar_spec(*cal, now.timestamp),
    {
        let target_hour = cal.at.hour;
        let target_minute = cal.at.minute;
        if target_hour >= 24 || target_minute >= 60 {
            return None;
        }
        proof {
            reveal_with_fuel(first_matching_day, 2);
        }
        let target_tod: u64 = target_hour as u64 * 3600 + target_minute as u64 * 60;
        let ts = now.timestamp;
        let check = DateTime::from_timestamp(ts);
        let passed = check.hour > target_hour || (check.hour == target_hour && check.minute
            >= target_minute);
        // Today's (or, once passed, tomorrow's) instant at the target time.
        let day_start = ts - ts % 86400;
        let base = if passed {
            match day_start.checked_add(86400) {
                Some(b) => b,
                None => return None,
            }
        } else {
            day_start
        };
        let mut next_ts = match base.checked_add(target_tod) {
            Some(n) => n,
            None => return None,
        };
        proof {
            lemma_time_of_day(ts);
        }
        let ghost first = next_ts as int;
        let mut i: u64 = 0;
        while i < 366
            invariant
                first == ts - ts % 86400 + (if passed { 86400int } else { 0int }) + target_tod,
                passed == (datetime_of(ts).hour > cal.at.hour || (datetime_of(ts).hour == cal.at.hour
                    && datetime_of(ts).minute >= cal.at.minute)),
                next_ts == first + i * 86400,
                i <= 366,
                first_matching_day(*cal, first, 0) == first_matching_day(*cal, first, i as nat),
                next_ts > ts,
                ts == now.timestamp,
                next_ts % 86400 == target_tod,
                target_tod == target_hour * 3600 + target_minute * 60,
                target_hour < 24,
                target_minute < 60,
                cal.at.hour == target_hour,
                cal.at.minute == target_minute,
            decreases 366 - i,
        {
            let check = DateTime::from_timestamp(next_ts);
            if Self::matches_calendar(cal, &check) || Self::day_matches_frequency(cal, &check) {
                proof {
                    lemma_at_time(next_ts, target_hour as int, target_minute as int);
                }
                return Some(next_ts);
            }
            next_ts = match next_ts.checked_add(86400) {
                Some(n) => n,
                None => {
                    proof {
                        assert(first_matching_day(*cal, first, i as nat) == first_matching_day(
                            *cal,
                            first,
                            (i + 1) as nat,
                        ));
                        if i + 1 < 366 {
                            assert(first + (i + 1) * 86400 > u64::MAX);
                        }
                    }
                    return None;
                },
            };
            i = i + 1;
        }
        None
    }

    /// Records a trigger at Unix time `timestamp`, now.
    pub fn record_trigger(&mut self, rule_id: &str, timestamp: u64)
        requires
            old(self).wf(),
        ensures
            final(self).wf(),
            final(self).state_spec().timestamps() == old(self).state_spec().timestamps().insert(
                rule_id@,
                timestamp,
            ),
            exists|ms: u64| final(self).state_spec().monotonic() == old(self).state_spec().monotonic().insert(rule_id@, ms),
    {
        self.state.record_trigger(rule_id, timestamp);
    }

    /// Records a trigger at Unix time `timestamp` and monotonic instant
    /// `now_ms`.
    pub fn record_trigger_at(&mut self, rule_id: &str, timestamp: u64, now_ms: u64)
        requires
            old(self).wf(),
        ensures
            final(self).wf(),
            final(self).state_spec().timestamps() == old(self).state_spec().timestamps().insert(
                rule_id@,
                timestamp,
            ),
            final(self).state_spec().monotonic() == old(self).state_spec().monotonic().insert(
                rule_id@,
                now_ms,
            ),
    {
        self.state.record_trigger_at(rule_id, timestamp, now_ms);
    }
}

impl Default for Scheduler {
    fn default() -> (r: Self)
        ensures
            r.wf(),
    {
        Self::new()
    }
}

/// Whether an interval rule is due at Unix time `now_ts`: enabled, and never
/// triggered or triggered at least its interval ago.
pub open spec fn interval_due(s: Scheduler, rule: ScheduleRule, now_ts: u64) -> bool {
    rule.enabled && match rule.schedule {
        Schedule::Interval(iv) => {
            let ts = s.state_spec().timestamps();
            !ts.contains_key(rule.id@) || now_ts >= ts[rule.id@] + iv.interval_seconds
        },
        _ => false,
    }
}

/// Whether a schedule rule is due in a tick at Unix time `ts` and monotonic
/// instant `ms`: interval rules by their interval, the others by `fires`.
pub open spec fn rule_due(s: Scheduler, rule: ScheduleRule, ts: u64, ms: u64) -> bool {
    match rule.schedule {
        Schedule::Interval(_) => interval_due(s, rule, ts),
        _ => s.fires(rule, datetime_of(ts), ms),
    }
}

/// One step of a tick: an event rule leaves the scheduler alone; a due
/// schedule rule is chosen and its trigger recorded; another is passed over.
pub open spec fn tick_step(a: Scheduler, b: Scheduler, rule: Rule, ts: u64, ms: u64, chosen: bool) -> bool {
    match rule {
        Rule::Event(_) => b == a && !chosen,
        Rule::Schedule(s) => {
            &&& chosen == rule_due(a, s, ts, ms)
            &&& chosen ==> b.wf() && b.state_spec().timestamps() == a.state_spec().timestamps().insert(
                s.id@,
                ts,
            ) && b.state_spec().monotonic() == a.state_spec().monotonic().insert(s.id@, ms)
            &&& !chosen ==> b == a
        },
    }
}

/// A scheduler is well formed exactly when its state is, so the state
/// `Scheduler::state` returns, and a scheduler `Scheduler::with_state`
/// builds from a well-formed state, can be used by verified callers.
pub proof fn lemma_scheduler_wf(s: Scheduler)
    ensures
        s.wf() == s.state_spec().wf(),
{
}

/// Once a trigger of a rule at Unix time `t` is recorded, the rule does not
/// fire again at any clock position in the same calendar period as `t`,
/// whatever the monotonic clock reads.
pub proof fn lemma_once_per_period(
    before: Scheduler,
    after: Scheduler,
    rule: ScheduleRule,
    t: u64,
    now: DateTime,
    now_ms: u64,
)
    requires
        after.state_spec().timestamps() == before.state_spec().timestamps().insert(rule.id@, t),
        same_period(rule.schedule, datetime_of(t), now),
    ensures
        !after.fires(rule, now, now_ms),
{
}

/// Within a minute of a recorded trigger on the monotonic clock, a rule does
/// not fire again.
pub proof fn lemma_no_double_fire(
    before: Scheduler,
    after: Scheduler,
    rule: ScheduleRule,
    t: u64,
    at_ms: u64,
    now: DateTime,
    now_ms: u64,
)
    requires
        after.state_spec().monotonic() == before.state_spec().monotonic().insert(rule.id@, at_ms),
        at_ms <= now_ms < at_ms + MIN_REFIRE_MS,
    ensures
        !after.fires(rule, now, now_ms),
{
}

/// Every timestamp decomposes into an hour, minute and weekday in range.
pub proof fn lemma_datetime_ranges(ts: u64)
    ensures
        datetime_of(ts).hour <= 23,
        datetime_of(ts).minute <= 59,
        1 <= datetime_of(ts).weekday <= 7,
{
}

} // verus!
