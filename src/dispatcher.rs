//! What the core hands to, and takes back from, the services that deliver
//! notifications, webhooks and log entries.

use vstd::prelude::*;
use crate::runtime::ActionResult;
use crate::text::push_str;

verus! {

/// Configuration of the delivery channels.
#[derive(Debug, Clone)]
pub struct DispatcherConfig {
    pub telegram_bot_token: Option<String>,
    pub telegram_chat_id: Option<String>,
    /// Default webhook headers, each key once.
    pub webhook_headers: Vec<(String, String)>,
    /// Log instead of sending.
    pub dry_run: bool,
}

impl Default for DispatcherConfig {
    fn default() -> (r: Self)
        ensures
            r.telegram_bot_token is None,
            r.telegram_chat_id is None,
            r.webhook_headers@.len() == 0,
            !r.dry_run,
    {
        DispatcherConfig {
            telegram_bot_token: None,
            telegram_chat_id: None,
            webhook_headers: Vec::new(),
            dry_run: false,
        }
    }
}

/// A webhook registered for a site.
#[derive(Debug, Clone)]
pub struct WebhookConfig {
    pub id: String,
    pub name: String,
    pub url: String,
    pub enabled: bool,
    pub headers: Vec<(String, String)>,
    pub auth_type: WebhookAuthType,
    pub auth_token: Option<String>,
    /// Events the webhook subscribes to.
    pub events: Vec<WebhookEvent>,
    /// Last successful delivery, Unix seconds.
    pub last_success: Option<u64>,
    /// Last failure message.
    pub last_error: Option<String>,
    /// Consecutive failures.
    pub failure_count: u32,
}

#[derive(Debug, Clone, Copy, PartialEq, Eq, Structural)]
pub enum WebhookAuthType {
    NoAuth,
    Bearer,
    Basic,
    ApiKey,
}

impl Default for WebhookAuthType {
    fn default() -> (r: Self)
        ensures
            r == WebhookAuthType::NoAuth,
    {
        WebhookAuthType::NoAuth
    }
}

#[derive(Debug, Clone, Copy, PartialEq, Eq, Structural)]
pub enum WebhookEvent {
    RuleTriggered,
    ScheduleTriggered,
    AlertHigh,
    AlertLow,
    All,
}

impl WebhookConfig {
    /// An enabled webhook without authentication, subscribed to all events.
    pub fn new(id: &str, name: &str, url: &str) -> (r: Self)
        ensures
            r.id@ == id@,
            r.name@ == name@,
            r.url@ == url@,
            r.enabled,
            r.headers@.len() == 0,
            r.auth_type == WebhookAuthType::NoAuth,
            r.auth_token is None,
            r.events@ == seq![WebhookEvent::All],
            r.last_success is None,
            r.last_error is None,
            r.failure_count == 0,
    {
        WebhookConfig {
            id: id.to_string(),
            name: name.to_string(),
            url: url.to_string(),
            enabled: true,
            headers: Vec::new(),
            auth_type: WebhookAuthType::NoAuth,
            auth_token: None,
            events: vec![WebhookEvent::All],
            last_success: None,
            last_error: None,
            failure_count: 0,
        }
    }

    pub fn with_bearer_auth(self, token: &str) -> (r: Self)
        ensures
            r.auth_type == WebhookAuthType::Bearer,
            r.auth_token matches Some(t) && t@ == token@,
            r.id == self.id,
            r.name == self.name,
            r.url == self.url,
            r.enabled == self.enabled,
            r.headers == self.headers,
            r.events == self.events,
            r.last_success == self.last_success,
            r.last_error == self.last_error,
            r.failure_count == self.failure_count,
    {
        let mut w = self;
        w.auth_type = WebhookAuthType::Bearer;
        w.auth_token = Some(token.to_string());
        w
    }

    pub fn with_events(self, events: Vec<WebhookEvent>) -> (r: Self)
        ensures
            r.events == events,
            r.id == self.id,
            r.name == self.name,
            r.url == self.url,
            r.enabled == self.enabled,
            r.headers == self.headers,
            r.auth_type == self.auth_type,
            r.auth_token == self.auth_token,
            r.last_success == self.last_success,
            r.last_error == self.last_error,
            r.failure_count == self.failure_count,
    {
        let mut w = self;
        w.events = events;
        w
    }
}

/// Outcome of delivering one action.
#[derive(Debug, Clone)]
pub struct DispatchResult {
    pub success: bool,
    pub message: String,
    pub details: Option<String>,
    pub status_code: Option<u16>,
}

impl DispatchResult {
    pub fn success(message: &str) -> (r: Self)
        ensures
            r.success,
            r.message@ == message@,
            r.details is None,
            r.status_code == Some(200u16),
    {
        DispatchResult { success: true, message: message.to_string(), details: None, status_code: Some(200) }
    }

    pub fn failure(message: &str, details: &str) -> (r: Self)
        ensures
            !r.success,
            r.message@ == message@,
            r.details matches Some(d) && d@ == details@,
            r.status_code is None,
    {
        DispatchResult {
            success: false,
            message: message.to_string(),
            details: Some(details.to_string()),
            status_code: None,
        }
    }

    /// A successful non-delivery: the message is `Skipped: <reason>`.
    pub fn skipped(reason: &str) -> (r: Self)
        ensures
            r.success,
            r.message@ == "Skipped: "@ + reason@,
            r.details is None,
            r.status_code is None,
    {
        let mut message = String::new();
        push_str(&mut message, "Skipped: ");
        push_str(&mut message, reason);
        DispatchResult { success: true, message, details: None, status_code: None }
    }

    pub fn with_status(self, code: u16) -> (r: Self)
        ensures
            r.status_code == Some(code),
            r.success == self.success,
            r.message == self.message,
            r.details == self.details,
    {
        let mut d = self;
        d.status_code = Some(code);
        d
    }
}

/// A record of one webhook delivery.
#[derive(Debug, Clone)]
pub struct WebhookDelivery {
    pub webhook_id: String,
    pub timestamp: u64,
    pub url: String,
    pub request_body: String,
    pub response_status: Option<u16>,
    pub response_body: Option<String>,
    pub success: bool,
    pub error: Option<String>,
    pub duration_ms: u64,
}

fn joined(a: &str, b: &str) -> (r: String)
    ensures
        r@ == a@ + b@,
{
    let mut s = String::new();
    push_str(&mut s, a);
    push_str(&mut s, b);
    s
}

/// The message a dispatcher reports for an action: what was (or, in dry-run
/// mode, would have been) done.
pub open spec fn outcome_message(dry_run: bool, a: ActionResult) -> Seq<char> {
    match a {
        ActionResult::Notify { message } => if dry_run {
            "[DRY RUN] Would notify: "@ + message@
        } else {
            "Notified: "@ + message@
        },
        ActionResult::Webhook { url, .. } => if dry_run {
            "[DRY RUN] Would call webhook: "@ + url@
        } else {
            "Webhook queued: "@ + url@
        },
        ActionResult::Log { message } => if dry_run {
            "[DRY RUN] Would log: "@ + message@
        } else {
            "Logged: "@ + message@
        },
        ActionResult::Skipped { reason } => "Skipped: "@ + reason@,
    }
}

/// The line a dispatcher writes to its log for an action.
pub open spec fn log_line_spec(dry_run: bool, a: ActionResult) -> Seq<char> {
    match a {
        ActionResult::Notify { message } => if dry_run {
            "[DRY RUN] NOTIFY: "@ + message@
        } else {
            "[SEL NOTIFY] "@ + message@
        },
        ActionResult::Webhook { url, body } => if dry_run {
            "[DRY RUN] WEBHOOK: "@ + url@ + " -> "@ + body@
        } else {
            "[SEL WEBHOOK] "@ + url@ + " -> "@ + body@
        },
        ActionResult::Log { message } => if dry_run {
            "[DRY RUN] LOG: "@ + message@
        } else {
            "[SEL LOG] "@ + message@
        },
        ActionResult::Skipped { .. } => Seq::empty(),
    }
}

/// The synchronous dispatcher: it decides the outcome of each action and
/// the line to log for it; the caller writes the line.
#[derive(Debug, Clone)]
pub struct Dispatcher {
    config: DispatcherConfig,
}

impl Dispatcher {
    pub closed spec fn dry_run_spec(&self) -> bool {
        self.config.dry_run
    }

    pub fn new(config: DispatcherConfig) -> (r: Self)
        ensures
            r.dry_run_spec() == config.dry_run,
    {
        Dispatcher { config }
    }

    /// Whether the dispatcher only logs.
    pub fn is_dry_run(&self) -> (r: bool)
        ensures
            r == self.dry_run_spec(),
    {
        self.config.dry_run
    }

    /// The outcome of delivering one action: every action succeeds, and a
    /// skipped action stays skipped.
    pub fn dispatch(&self, action: &ActionResult) -> (r: DispatchResult)
        ensures
            r.success,
            r.message@ == outcome_message(self.dry_run_spec(), *action),
            r.details is None,
            r.status_code == if action is Skipped { None } else { Some(200u16) },
    {
        let dry = self.config.dry_run;
        match action {
            ActionResult::Notify { message } => {
                let m = if dry {
                    joined("[DRY RUN] Would notify: ", message.as_str())
                } else {
                    joined("Notified: ", message.as_str())
                };
                DispatchResult::success(m.as_str())
            },
            ActionResult::Webhook { url, .. } => {
                let m = if dry {
                    joined("[DRY RUN] Would call webhook: ", url.as_str())
                } else {
                    joined("Webhook queued: ", url.as_str())
                };
                DispatchResult::success(m.as_str())
            },
            ActionResult::Log { message } => {
                let m = if dry {
                    joined("[DRY RUN] Would log: ", message.as_str())
                } else {
                    joined("Logged: ", message.as_str())
                };
                DispatchResult::success(m.as_str())
            },
            ActionResult::Skipped { reason } => DispatchResult::skipped(reason.as_str()),
        }
    }

    /// The line to log for an action (empty for a skipped action).
    pub fn log_line(&self, action: &ActionResult) -> (r: String)
        ensures
            r@ == log_line_spec(self.dry_run_spec(), *action),
    {
        let dry = self.config.dry_run;
        match action {
            ActionResult::Notify { message } => if dry {
                joined("[DRY RUN] NOTIFY: ", message.as_str())
            } else {
                joined("[SEL NOTIFY] ", message.as_str())
            },
            ActionResult::Webhook { url, body } => {
                let mut s = String::new();
                if dry {
                    push_str(&mut s, "[DRY RUN] WEBHOOK: ");
                } else {
                    push_str(&mut s, "[SEL WEBHOOK] ");
                }
                push_str(&mut s, url.as_str());
                push_str(&mut s, " -> ");
                push_str(&mut s, body.as_str());
                proof {
                    assert(s@ =~= log_line_spec(self.dry_run_spec(), *action));
                }
                s
            },
            ActionResult::Log { message } => if dry {
                joined("[DRY RUN] LOG: ", message.as_str())
            } else {
                joined("[SEL LOG] ", message.as_str())
            },
            ActionResult::Skipped { .. } => String::new(),
        }
    }

    /// The outcomes of a list of actions, in order.
    pub fn dispatch_all(&self, actions: &[ActionResult]) -> (r: Vec<DispatchResult>)
        ensures
            r@.len() == actions@.len(),
            forall|i: int| 0 <= i < actions@.len() ==> (#[trigger] r@[i]).success
                && r@[i].message@ == outcome_message(self.dry_run_spec(), actions@[i])
                && r@[i].details is None && r@[i].status_code == if actions@[i] is Skipped {
                None
            } else {
                Some(200u16)
            },
    {
        let mut out: Vec<DispatchResult> = Vec::new();
        let mut i: usize = 0;
        while i < actions.len()
            invariant
                i <= actions@.len(),
                out@.len() == i,
                forall|j: int| 0 <= j < i ==> (#[trigger] out@[j]).success
                    && out@[j].message@ == outcome_message(self.dry_run_spec(), actions@[j])
                    && out@[j].details is None && out@[j].status_code == if actions@[j] is Skipped {
                    None
                } else {
                    Some(200u16)
                },
            decreases actions@.len() - i,
        {
            out.push(self.dispatch(&actions[i]));
            i = i + 1;
        }
        out
    }
}

impl Default for Dispatcher {
    fn default() -> (r: Self)
        ensures
            !r.dry_run_spec(),
    {
        Dispatcher::new(DispatcherConfig::default())
    }
}

/// Position of the first header named `k`, or the list's length.
pub open spec fn header_pos(hs: Seq<(String, String)>, k: Seq<char>) -> int
    decreases hs.len(),
{
    if hs.len() == 0 {
        0
    } else if hs[0].0@ == k {
        0
    } else {
        1 + header_pos(hs.drop_first(), k)
    }
}

proof fn lemma_header_pos(hs: Seq<(String, String)>, k: Seq<char>, i: int)
    requires
        0 <= i <= hs.len(),
        forall|j: int| 0 <= j < i ==> (#[trigger] hs[j]).0@ != k,
        i == hs.len() || hs[i].0@ == k,
    ensures
        header_pos(hs, k) == i,
    decreases i,
{
    if i > 0 {
        let t = hs.drop_first();
        assert forall|j: int| 0 <= j < i - 1 implies (#[trigger] t[j]).0@ != k by {
            assert(t[j] == hs[j + 1]);
        }
        assert(hs[0].0@ != k);
        lemma_header_pos(t, k, i - 1);
    }
}

/// Builds a dispatcher configuration.
pub struct DispatcherBuilder {
    config: DispatcherConfig,
}

impl DispatcherBuilder {
    pub closed spec fn config_spec(&self) -> DispatcherConfig {
        self.config
    }

    pub fn new() -> (r: Self)
        ensures
            r.config_spec().telegram_bot_token is None,
            r.config_spec().telegram_chat_id is None,
            r.config_spec().webhook_headers@.len() == 0,
            !r.config_spec().dry_run,
    {
        DispatcherBuilder { config: DispatcherConfig::default() }
    }

    pub fn telegram(self, bot_token: &str, chat_id: &str) -> (r: Self)
        ensures
            r.config_spec().telegram_bot_token matches Some(t) && t@ == bot_token@,
            r.config_spec().telegram_chat_id matches Some(c) && c@ == chat_id@,
            r.config_spec().webhook_headers == self.config_spec().webhook_headers,
            r.config_spec().dry_run == self.config_spec().dry_run,
    {
        let mut b = self;
        b.config.telegram_bot_token = Some(bot_token.to_string());
        b.config.telegram_chat_id = Some(chat_id.to_string());
        b
    }

    /// Sets a default webhook header, replacing an earlier value of the
    /// same name.
    pub fn webhook_header(self, key: &str, value: &str) -> (r: Self)
        ensures
            ({
                let old_hs = self.config_spec().webhook_headers@;
                let new_hs = r.config_spec().webhook_headers@;
                let p = header_pos(old_hs, key@);
                &&& p < old_hs.len() ==> new_hs.len() == old_hs.len() && new_hs[p].0@ == key@
                    && new_hs[p].1@ == value@ && forall|j: int|
                    0 <= j < old_hs.len() && j != p ==> new_hs[j] == old_hs[j]
                &&& p == old_hs.len() ==> new_hs.len() == old_hs.len() + 1 && new_hs.drop_last()
                    == old_hs && new_hs.last().0@ == key@ && new_hs.last().1@ == value@
            }),
            r.config_spec().dry_run == self.config_spec().dry_run,
    {
        let mut b = self;
        let k = key.to_string();
        let mut i: usize = 0;
        while i < b.config.webhook_headers.len()
            invariant
                b == self,
                k@ == key@,
                i <= b.config.webhook_headers@.len(),
                forall|j: int| 0 <= j < i ==> (#[trigger] b.config.webhook_headers@[j]).0@ != key@,
            decreases b.config.webhook_headers@.len() - i,
        {
            if b.config.webhook_headers[i].0 == k {
                proof {
                    lemma_header_pos(b.config.webhook_headers@, key@, i as int);
                }
                b.config.webhook_headers.set(i, (k, value.to_string()));
                return b;
            }
            i = i + 1;
        }
        proof {
            lemma_header_pos(b.config.webhook_headers@, key@, i as int);
        }
        b.config.webhook_headers.push((k, value.to_string()));
        proof {
            assert(b.config.webhook_headers@.drop_last() =~= self.config_spec().webhook_headers@);
        }
        b
    }

    pub fn dry_run(self, enabled: bool) -> (r: Self)
        ensures
            r.config_spec().dry_run == enabled,
            r.config_spec().webhook_headers == self.config_spec().webhook_headers,
            r.config_spec().telegram_bot_token == self.config_spec().telegram_bot_token,
            r.config_spec().telegram_chat_id == self.config_spec().telegram_chat_id,
    {
        let mut b = self;
        b.config.dry_run = enabled;
        b
    }

    /// The configuration built so far.
    pub fn config(&self) -> (r: &DispatcherConfig)
        ensures
            *r == self.config_spec(),
    {
        &self.config
    }

    pub fn build(self) -> (r: Dispatcher)
        ensures
            r.dry_run_spec() == self.config_spec().dry_run,
    {
        Dispatcher::new(self.config)
    }
}

impl Default for DispatcherBuilder {
    fn default() -> (r: Self)
        ensures
            !r.config_spec().dry_run,
    {
        Self::new()
    }
}

impl WebhookConfig {
    /// Whether the webhook is to receive `event`: it is enabled and
    /// subscribed to the event or to all events.
    pub fn should_deliver(&self, event: WebhookEvent) -> (r: bool)
        ensures
            r == (self.enabled && (self.events@.contains(WebhookEvent::All) || self.events@.contains(
                event,
            ))),
    {
        if !self.enabled {
            return false;
        }
        let mut i: usize = 0;
        while i < self.events.len()
            invariant
                self.enabled,
                i <= self.events@.len(),
                forall|j: int| 0 <= j < i ==> self.events@[j] != WebhookEvent::All && self.events@[j]
                    != event,
            decreases self.events@.len() - i,
        {
            let e = self.events[i];
            if e == WebhookEvent::All || e == event {
                proof {
                    assert(self.events@[i as int] == e);
                }
                return true;
            }
            i = i + 1;
        }
        false
    }
}

pub open spec fn auth_header_spec(auth_type: WebhookAuthType, token: Option<Seq<char>>) -> Option<
    (Seq<char>, Seq<char>),
> {
    match (auth_type, token) {
        (WebhookAuthType::Bearer, Some(t)) => Some(("Authorization"@, "Bearer "@ + t)),
        (WebhookAuthType::Basic, Some(t)) => Some(("Authorization"@, "Basic "@ + t)),
        (WebhookAuthType::ApiKey, Some(t)) => Some(("X-API-Key"@, t)),
        _ => None,
    }
}

pub open spec fn opt_view(t: Option<&str>) -> Option<Seq<char>> {
    match t {
        Some(s) => Some(s@),
        None => None,
    }
}

/// The header that carries a webhook's credentials, if it has any.
pub fn auth_header(auth_type: WebhookAuthType, token: Option<&str>) -> (r: Option<(String, String)>)
    ensures
        r is Some == auth_header_spec(auth_type, opt_view(token)) is Some,
        r matches Some(h) ==> auth_header_spec(auth_type, opt_view(token)) == Some((h.0@, h.1@)),
{
    match (auth_type, token) {
        (WebhookAuthType::Bearer, Some(t)) => Some(("Authorization".to_string(), joined("Bearer ", t))),
        (WebhookAuthType::Basic, Some(t)) => Some(("Authorization".to_string(), joined("Basic ", t))),
        (WebhookAuthType::ApiKey, Some(t)) => Some(("X-API-Key".to_string(), t.to_string())),
        _ => None,
    }
}

/// Whether an HTTP status reports success (2xx).
pub fn is_success_status(status: u16) -> (r: bool)
    ensures
        r == (200 <= status < 300),
{
    200 <= status && status < 300
}

} // verus!
