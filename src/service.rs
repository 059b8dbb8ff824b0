//! The decisions a per-site rule service makes around the core: which
//! schedule rules are due in a tick, what their actions become, how webhook
//! registrations and delivery records change, and how errors are reported.

use vstd::prelude::*;
use crate::ast::{Program, Rule, Schedule, CalendarFrequency, Action, TemplateString, TemplatePart};
use crate::dispatcher::{WebhookConfig, WebhookAuthType, WebhookEvent, WebhookDelivery};
use crate::error::SELError;
use crate::runtime::ActionResult;
use crate::scheduler::{Scheduler, datetime_of, tick_step};
use crate::text::{push_str, push_char};

verus! {

/// The line and column an error carries, where it carries them.
pub fn extract_error_location(error: &SELError) -> (r: (Option<usize>, Option<usize>))
    ensures
        r == match *error {
            SELError::LexerError { line, column, .. } => (Some(line), Some(column)),
            SELError::ParserError { line, column, .. } => (Some(line), Some(column)),
            _ => (None::<usize>, None::<usize>),
        },
{
    match error {
        SELError::LexerError { line, column, .. } => (Some(*line), Some(*column)),
        SELError::ParserError { line, column, .. } => (Some(*line), Some(*column)),
        _ => (None, None),
    }
}

pub open spec fn action_result_name(a: ActionResult) -> Seq<char> {
    match a {
        ActionResult::Notify { .. } => "notify"@,
        ActionResult::Webhook { .. } => "webhook"@,
        ActionResult::Log { .. } => "log"@,
        ActionResult::Skipped { .. } => "skipped"@,
    }
}

/// The kind of a materialised action, as reported to clients.
pub fn action_type_name(action: &ActionResult) -> (r: String)
    ensures
        r@ == action_result_name(*action),
{
    match action {
        ActionResult::Notify { .. } => "notify".to_string(),
        ActionResult::Webhook { .. } => "webhook".to_string(),
        ActionResult::Log { .. } => "log".to_string(),
        ActionResult::Skipped { .. } => "skipped".to_string(),
    }
}

pub open spec fn schedule_name(s: Schedule) -> Seq<char> {
    match s {
        Schedule::Calendar(cal) => match cal.frequency {
            CalendarFrequency::Daily => "daily"@,
            CalendarFrequency::Weekly => "weekly"@,
            CalendarFrequency::Monthly => "monthly"@,
            CalendarFrequency::Yearly => "yearly"@,
        },
        Schedule::Interval(_) => "interval"@,
        Schedule::Cron(_) => "cron"@,
    }
}

/// The kind of a schedule, as reported to clients.
pub fn schedule_type_name(schedule: &Schedule) -> (r: String)
    ensures
        r@ == schedule_name(*schedule),
{
    match schedule {
        Schedule::Calendar(cal) => match cal.frequency {
            CalendarFrequency::Daily => "daily".to_string(),
            CalendarFrequency::Weekly => "weekly".to_string(),
            CalendarFrequency::Monthly => "monthly".to_string(),
            CalendarFrequency::Yearly => "yearly".to_string(),
        },
        Schedule::Interval(_) => "interval".to_string(),
        Schedule::Cron(_) => "cron".to_string(),
    }
}

/// A template rendered without metrics: text parts verbatim, each
/// expression part as `{?}`.
pub open spec fn simple_render(parts: Seq<TemplatePart>) -> Seq<char>
    decreases parts.len(),
{
    if parts.len() == 0 {
        Seq::empty()
    } else {
        simple_render(parts.drop_last()) + match parts.last() {
            TemplatePart::Text { text } => text@,
            TemplatePart::Expression { .. } => "{?}"@,
        }
    }
}

pub fn render_simple_template(template: &TemplateString) -> (r: String)
    ensures
        r@ == simple_render(template.parts@),
{
    let mut result = String::new();
    let mut i: usize = 0;
    while i < template.parts.len()
        invariant
            i <= template.parts@.len(),
            result@ == simple_render(template.parts@.take(i as int)),
        decreases template.parts@.len() - i,
    {
        proof {
            assert(template.parts@.take(i + 1).drop_last() =~= template.parts@.take(i as int));
        }
        match &template.parts[i] {
            TemplatePart::Text { text } => push_str(&mut result, text.as_str()),
            TemplatePart::Expression { .. } => push_str(&mut result, "{?}"),
        }
        i = i + 1;
    }
    proof {
        assert(template.parts@.take(template.parts@.len() as int) =~= template.parts@);
    }
    result
}

/// What an action of a schedule rule becomes; schedule rules see no
/// metrics, so templates are rendered without them.
pub fn execute_schedule_action(action: &Action) -> (r: ActionResult)
    ensures
        match *action {
            Action::Notify(n) => r matches ActionResult::Notify { message } && message@
                == simple_render(n.message.parts@),
            Action::Webhook(w) => r matches ActionResult::Webhook { url, body } && url@ == w.url@
                && body@ == match w.body {
                Some(t) => simple_render(t.parts@),
                None => "{}"@,
            },
            Action::Log(l) => r matches ActionResult::Log { message } && message@ == simple_render(
                l.message.parts@,
            ),
            Action::SetVariable(_) => r matches ActionResult::Skipped { reason } && reason@
                == "SetVariable not supported"@,
        },
{
    match action {
        Action::Notify(notify) => ActionResult::Notify { message: render_simple_template(&notify.message) },
        Action::Webhook(webhook) => ActionResult::Webhook {
            url: webhook.url.clone(),
            body: match &webhook.body {
                Some(t) => render_simple_template(t),
                None => "{}".to_string(),
            },
        },
        Action::Log(log) => ActionResult::Log { message: render_simple_template(&log.message) },
        Action::SetVariable(_) => ActionResult::Skipped { reason: "SetVariable not supported".to_string() },
    }
}

impl Scheduler {
    /// One scheduling tick at Unix time `timestamp` (monotonic `now_ms`):
    /// visits the program's schedule rules in declaration order, records a
    /// trigger for each one that is due, and returns their positions.
    /// Interval rules are due by `check_interval`, the others by
    /// `should_trigger`.
    pub fn due_rules(&mut self, program: &Program, timestamp: u64, now_ms: u64) -> (r: Vec<usize>)
        requires
            old(self).wf(),
        ensures
            final(self).wf(),
            forall|a: int, b: int| 0 <= a < b < r@.len() ==> r@[a] < r@[b],
            forall|k: int| 0 <= k < r@.len() ==> r@[k] < program.rules@.len(),
            exists|states: Seq<Scheduler>|
                {
                    &&& states.len() == program.rules@.len() + 1
                    &&& states[0] == *old(self)
                    &&& states.last() == *final(self)
                    &&& forall|i: int|
                        0 <= i < program.rules@.len() ==> tick_step(
                            #[trigger] states[i],
                            states[i + 1],
                            program.rules@[i],
                            timestamp,
                            now_ms,
                            r@.contains(i as usize),
                        )
                },
    {
        let now = crate::scheduler::DateTime::from_timestamp(timestamp);
        let mut due: Vec<usize> = Vec::new();
        let mut i: usize = 0;
        let ghost mut states: Seq<Scheduler> = seq![*self];
        while i < program.rules.len()
            invariant
                self.wf(),
                i <= program.rules@.len(),
                now == datetime_of(timestamp),
                forall|a: int, b: int| 0 <= a < b < due@.len() ==> due@[a] < due@[b],
                forall|k: int| 0 <= k < due@.len() ==> due@[k] < i,
                states.len() == i + 1,
                states[0] == *old(self),
                states.last() == *self,
                forall|j: int|
                    0 <= j < i ==> tick_step(
                        #[trigger] states[j],
                        states[j + 1],
                        program.rules@[j],
                        timestamp,
                        now_ms,
                        due@.contains(j as usize),
                    ),
            decreases program.rules@.len() - i,
        {
            let ghost before = *self;
            let ghost due_before = due@;
            let mut chosen = false;
            match &program.rules[i] {
                Rule::Schedule(rule) => {
                    let fire = match &rule.schedule {
                        Schedule::Interval(_) => self.check_interval(rule, timestamp),
                        _ => self.should_trigger_at(rule, &now, now_ms),
                    };
                    if fire {
                        self.record_trigger_at(rule.id.as_str(), timestamp, now_ms);
                        due.push(i);
                        chosen = true;
                    }
                },
                Rule::Event(_) => {},
            }
            proof {
                assert(!due_before.contains(i));
                assert(due@.contains(i) == chosen) by {
                    if chosen {
                        assert(due@[due@.len() - 1] == i);
                    }
                }
                assert forall|j: int| 0 <= j < i implies #[trigger] due@.contains(j as usize)
                    == due_before.contains(j as usize) by {
                    if due@.contains(j as usize) {
                        let k = choose|k: int| 0 <= k < due@.len() && due@[k] == j as usize;
                        if k < due_before.len() {
                            assert(due_before[k] == j as usize);
                        }
                    }
                    if due_before.contains(j as usize) {
                        let k = choose|k: int| 0 <= k < due_before.len() && due_before[k] == j as usize;
                        assert(due@[k] == j as usize);
                    }
                }
                let old_states = states;
                states = states.push(*self);
                assert forall|j: int|
                    0 <= j < i + 1 implies tick_step(
                    #[trigger] states[j],
                    states[j + 1],
                    program.rules@[j],
                    timestamp,
                    now_ms,
                    due@.contains(j as usize),
                ) by {
                    if j < i {
                        assert(states[j] == old_states[j]);
                        assert(states[j + 1] == old_states[j + 1]);
                    } else {
                        assert(states[j] == before);
                    }
                }
            }
            i = i + 1;
        }
        proof {
            assert(program.rules@.len() == i);
        }
        due
    }
}

/// How many delivery records a site keeps.
pub const DELIVERY_HISTORY_LIMIT: usize = 100;

/// Appends a delivery record, keeping only the most recent ones.
pub fn record_delivery(history: &mut Vec<WebhookDelivery>, delivery: WebhookDelivery)
    ensures
        ({
            let all = old(history)@.push(delivery);
            final(history)@ == if all.len() > DELIVERY_HISTORY_LIMIT {
                all.subrange(all.len() - DELIVERY_HISTORY_LIMIT, all.len() as int)
            } else {
                all
            }
        }),
{
    history.push(delivery);
    let n = history.len();
    if n > DELIVERY_HISTORY_LIMIT {
        let ghost all = history@;
        let drop = n - DELIVERY_HISTORY_LIMIT;
        let mut kept: Vec<WebhookDelivery> = Vec::new();
        let mut old_history: Vec<WebhookDelivery> = Vec::new();
        std::mem::swap(&mut old_history, history);
        let mut i: usize = 0;
        let mut rest = old_history;
        // Move the newest records, oldest first, into `kept`.
        while rest.len() > 0
            invariant
                rest@.len() + i == n,
                all.len() == n,
                n > DELIVERY_HISTORY_LIMIT,
                drop == n - DELIVERY_HISTORY_LIMIT,
                rest@ == all.subrange(i as int, n as int),
                kept@ == all.subrange(drop as int, if i > drop { i as int } else { drop as int }),
            decreases rest@.len(),
        {
            let d = rest.remove(0);
            if i >= drop {
                kept.push(d);
                proof {
                    assert(kept@ =~= all.subrange(drop as int, i + 1));
                }
            }
            proof {
                assert(rest@ =~= all.subrange(i + 1, n as int));
            }
            i = i + 1;
        }
        *history = kept;
    }
}

/// Changes to a registered webhook; absent fields are left as they are.
#[derive(Debug, Clone)]
pub struct WebhookUpdate {
    pub name: Option<String>,
    pub url: Option<String>,
    pub enabled: Option<bool>,
    pub auth_type: Option<WebhookAuthType>,
    pub auth_token: Option<String>,
    pub events: Option<Vec<WebhookEvent>>,
    pub headers: Option<Vec<(String, String)>>,
}

/// `after` is `before` with the present fields of `u` applied.
pub open spec fn applied(before: WebhookConfig, after: WebhookConfig, u: WebhookUpdate) -> bool {
    &&& after.id == before.id
    &&& after.name == match u.name {
        Some(v) => v,
        None => before.name,
    }
    &&& after.url == match u.url {
        Some(v) => v,
        None => before.url,
    }
    &&& after.enabled == match u.enabled {
        Some(v) => v,
        None => before.enabled,
    }
    &&& after.auth_type == match u.auth_type {
        Some(v) => v,
        None => before.auth_type,
    }
    &&& after.auth_token == match u.auth_token {
        Some(v) => Some(v),
        None => before.auth_token,
    }
    &&& after.events == match u.events {
        Some(v) => v,
        None => before.events,
    }
    &&& after.headers == match u.headers {
        Some(v) => v,
        None => before.headers,
    }
    &&& after.last_success == before.last_success
    &&& after.last_error == before.last_error
    &&& after.failure_count == before.failure_count
}

impl WebhookConfig {
    /// Applies an update.
    pub fn apply_update(&mut self, update: WebhookUpdate)
        ensures
            applied(*old(self), *final(self), update),
    {
        let WebhookUpdate { name, url, enabled, auth_type, auth_token, events, headers } = update;
        match name {
            Some(v) => self.name = v,
            None => {},
        }
        match url {
            Some(v) => self.url = v,
            None => {},
        }
        match enabled {
            Some(v) => self.enabled = v,
            None => {},
        }
        match auth_type {
            Some(v) => self.auth_type = v,
            None => {},
        }
        match auth_token {
            Some(v) => self.auth_token = Some(v),
            None => {},
        }
        match events {
            Some(v) => self.events = v,
            None => {},
        }
        match headers {
            Some(v) => self.headers = v,
            None => {},
        }
    }
}

/// Applies an update to the first webhook with id `webhook_id`; returns
/// whether there was one. The others are left as they are.
pub fn update_webhook(webhooks: &mut Vec<WebhookConfig>, webhook_id: &str, update: WebhookUpdate) -> (r: bool)
    ensures
        final(webhooks)@.len() == old(webhooks)@.len(),
        r == exists|i: int| 0 <= i < old(webhooks)@.len() && #[trigger] old(webhooks)@[i].id@ == webhook_id@,
        !r ==> final(webhooks)@ == old(webhooks)@,
        forall|i: int|
            0 <= i < old(webhooks)@.len() && old(webhooks)@[i].id@ == webhook_id@ && (forall|j: int|
                0 <= j < i ==> (#[trigger] old(webhooks)@[j]).id@ != webhook_id@) ==> {
                &&& applied(old(webhooks)@[i], final(webhooks)@[i], update)
                &&& forall|j: int|
                    0 <= j < old(webhooks)@.len() && j != i ==> (#[trigger] final(webhooks)@[j])
                        == old(webhooks)@[j]
            },
{
    let key = webhook_id.to_string();
    let mut i: usize = 0;
    while i < webhooks.len()
        invariant
            *webhooks == *old(webhooks),
            key@ == webhook_id@,
            i <= webhooks@.len(),
            forall|j: int| 0 <= j < i ==> (#[trigger] webhooks@[j]).id@ != webhook_id@,
        decreases webhooks@.len() - i,
    {
        if webhooks[i].id == key {
            let ghost before = webhooks@;
            let mut w = webhooks.remove(i);
            w.apply_update(update);
            webhooks.insert(i, w);
            proof {
                assert(webhooks@ =~= before.update(i as int, w));
                assert forall|k: int|
                    0 <= k < before.len() && before[k].id@ == webhook_id@ && (forall|j: int|
                        0 <= j < k ==> (#[trigger] before[j]).id@ != webhook_id@) implies k == i by {
                    if k < i {
                        assert(before[k].id@ != webhook_id@);
                    } else if k > i {
                        assert(before[i as int].id@ != webhook_id@);
                    }
                }
            }
            return true;
        }
        i = i + 1;
    }
    false
}

/// Removes every webhook with id `webhook_id`, keeping the others in order;
/// returns whether any was removed.
pub fn delete_webhook(webhooks: &mut Vec<WebhookConfig>, webhook_id: &str) -> (r: bool)
    ensures
        final(webhooks)@ == old(webhooks)@.filter(|w: WebhookConfig| w.id@ != webhook_id@),
        r == (final(webhooks)@.len() < old(webhooks)@.len()),
{
    let key = webhook_id.to_string();
    let ghost pred = |w: WebhookConfig| w.id@ != webhook_id@;
    let ghost src = webhooks@;
    let mut source: Vec<WebhookConfig> = Vec::new();
    std::mem::swap(&mut source, webhooks);
    let mut kept: Vec<WebhookConfig> = Vec::new();
    let n = source.len();
    let mut rest = source;
    let mut i: usize = 0;
    while rest.len() > 0
        invariant
            key@ == webhook_id@,
            rest@.len() + i == n,
            src.len() == n,
            rest@ == src.subrange(i as int, n as int),
            kept@ == src.take(i as int).filter(pred),
            pred == (|w: WebhookConfig| w.id@ != webhook_id@),
        decreases rest@.len(),
    {
        let w = rest.remove(0);
        proof {
            assert(w == src[i as int]);
            assert(src.take(i + 1) =~= src.take(i as int).push(w));
            src.take(i as int).lemma_filter_push(w, pred);
            assert(rest@ =~= src.subrange(i + 1, n as int));
        }
        if w.id != key {
            kept.push(w);
        }
        i = i + 1;
    }
    proof {
        assert(src.take(n as int) =~= src);
        src.lemma_filter_len(pred);
    }
    let removed = kept.len() < n;
    *webhooks = kept;
    removed
}

/// A hexadecimal id from a count of nanoseconds.
pub fn hex_id(nanos: u128) -> (r: String)
    ensures
        r@ == hex_digits(nanos as nat),
    decreases nanos,
{
    let d = (nanos % 16) as u32;
    let c = if d < 10 { ((d + 48) as u8) as char } else { ((d + 87) as u8) as char };
    let mut s = if nanos >= 16 { hex_id(nanos / 16) } else { String::new() };
    push_char(&mut s, c);
    proof {
        assert(s@ =~= hex_digits(nanos as nat));
    }
    s
}

/// Lower-case hexadecimal rendering, most significant digit first.
pub open spec fn hex_digits(n: nat) -> Seq<char>
    decreases n,
{
    if n < 16 {
        seq![crate::json::hex_digit(n)]
    } else {
        hex_digits(n / 16).push(crate::json::hex_digit(n % 16))
    }
}

/// Relies on std::time::SystemTime::now: nanoseconds since the Unix epoch,
/// or 0 when the clock is set before it.
#[verifier::external_body]
fn unix_nanos() -> u128 {
    std::time::SystemTime::now()
        .duration_since(std::time::UNIX_EPOCH)
        .map(|d| d.as_nanos())
        .unwrap_or(0)
}

/// A simple id (not cryptographically secure): the current time in
/// nanoseconds, in hexadecimal.
pub fn uuid_simple() -> (r: String)
    ensures
        exists|n: u128| r@ == hex_digits(n as nat),
{
    hex_id(unix_nanos())
}

} // verus!
