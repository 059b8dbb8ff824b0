use sel_lang::runtime::precheck_event_rule;
use sel_lang::service::{
    delete_webhook, hex_id, record_delivery, render_simple_template, schedule_type_name,
    update_webhook, WebhookUpdate,
};
use sel_lang::{
    parse, parse_and_compile, ActionResult, CalendarFrequency, CalendarSchedule, Compiler,
    Condition, CooldownState, DateTime, Decimal, DispatcherBuilder, EventRule, Expression,
    IntervalSchedule, Lexer, Metric, MetricHistory, Rule, SELError, Schedule, ScheduleRule,
    Scheduler, TemplatePart, TemplateString, TokenKind, Value, WebhookConfig, WebhookDelivery,
    WebhookEvent,
};

fn first_value(source: &str) -> Value {
    parse(source).unwrap().variables[0].value.clone()
}

fn dec(mantissa: i128, scale: u32) -> Decimal {
    Decimal { mantissa, scale }
}

#[test]
fn unit_kilowatt_is_exact() {
    match first_value("$p = 1kW") {
        Value::Power { watts } => assert_eq!(watts, dec(1000, 0)),
        other => panic!("unexpected {:?}", other),
    }
}

#[test]
fn unit_megawatt_is_exact() {
    match first_value("$p = 1MW") {
        Value::Power { watts } => assert_eq!(watts, dec(1_000_000, 0)),
        other => panic!("unexpected {:?}", other),
    }
}

#[test]
fn unit_kilowatt_hour_is_exact() {
    match first_value("$e = 1kWh") {
        Value::Energy { watt_hours } => assert_eq!(watt_hours, dec(1000, 0)),
        other => panic!("unexpected {:?}", other),
    }
}

#[test]
fn unit_minutes_and_days() {
    match first_value("$d = 30min") {
        Value::Duration { seconds } => assert_eq!(seconds, 1800),
        other => panic!("unexpected {:?}", other),
    }
    match first_value("$d = 1day") {
        Value::Duration { seconds } => assert_eq!(seconds, 86400),
        other => panic!("unexpected {:?}", other),
    }
}

#[test]
fn fractional_kilowatts_keep_their_scale() {
    match first_value("$p = 1.5kW") {
        Value::Power { watts } => assert_eq!(watts, dec(15000, 1)),
        other => panic!("unexpected {:?}", other),
    }
}

#[test]
fn fractional_duration_truncates() {
    match first_value("$d = 1.5hour") {
        Value::Duration { seconds } => assert_eq!(seconds, 3600),
        other => panic!("unexpected {:?}", other),
    }
}

#[test]
fn too_many_digits_is_a_parse_error() {
    let result = parse("$n = 1234567890123456789012345678901");
    assert!(matches!(result, Err(SELError::ParserError { .. })));
}

#[test]
fn time_of_day_literal() {
    match first_value("$t = 17:45") {
        Value::Time { hour, minute } => assert_eq!((hour, minute), (17, 45)),
        other => panic!("unexpected {:?}", other),
    }
}

#[test]
fn datetime_fields_in_range() {
    for ts in [0u64, 59, 86399, 86400, 951782400, 1705314600, 4102444800] {
        let dt = DateTime::from_timestamp(ts);
        assert!(dt.hour <= 23);
        assert!(dt.minute <= 59);
        assert!(dt.second <= 59);
        assert!((1..=7).contains(&dt.weekday));
        assert!((1..=12).contains(&dt.month));
        assert!((1..=31).contains(&dt.day));
    }
}

#[test]
fn datetime_leap_day() {
    // 2000-02-29 00:00:00 UTC, a Tuesday.
    let dt = DateTime::from_timestamp(951782400);
    assert_eq!((dt.year, dt.month, dt.day, dt.weekday), (2000, 2, 29, 2));
    // 1970-01-01 was a Thursday.
    let epoch = DateTime::from_timestamp(0);
    assert_eq!((epoch.year, epoch.month, epoch.day, epoch.weekday), (1970, 1, 1, 4));
    // 2100 is not a leap year: 2100-03-01 follows 2100-02-28.
    let dt = DateTime::from_timestamp(4107542400);
    assert_eq!((dt.year, dt.month, dt.day), (2100, 3, 1));
}

fn daily_at_18() -> ScheduleRule {
    ScheduleRule {
        id: "daily".to_string(),
        name: None,
        schedule: Schedule::Calendar(CalendarSchedule {
            frequency: CalendarFrequency::Daily,
            at: sel_lang::TimeOfDay { hour: 18, minute: 0 },
            on: None,
        }),
        actions: vec![],
        enabled: true,
    }
}

#[test]
fn daily_schedule_fires_once_per_day() {
    // 2024-01-15 18:00:30 UTC
    let t = 1705341630;
    let rule = daily_at_18();
    let mut scheduler = Scheduler::new();
    let now = DateTime::from_timestamp(t);
    assert!(scheduler.should_trigger(&rule, &now));
    scheduler.record_trigger("daily", t);
    assert!(!scheduler.should_trigger(&rule, &DateTime::from_timestamp(t + 15)));
}

#[test]
fn calendar_period_blocks_refire_after_guard() {
    let t = 1705341630;
    let rule = daily_at_18();
    let mut scheduler = Scheduler::new();
    scheduler.record_trigger_at("daily", t, 0);
    // Long after the anti-double-fire minute, the same day still blocks.
    assert!(!scheduler.should_trigger_at(&rule, &DateTime::from_timestamp(t + 20), 10_000_000));
    // The next day at 18:00 fires again.
    assert!(scheduler.should_trigger_at(&rule, &DateTime::from_timestamp(t - 30 + 86400), 10_000_000));
}

#[test]
fn interval_schedule_is_due_after_its_interval() {
    let rule = ScheduleRule {
        id: "every".to_string(),
        name: None,
        schedule: Schedule::Interval(IntervalSchedule { interval_seconds: 600 }),
        actions: vec![],
        enabled: true,
    };
    let mut scheduler = Scheduler::new();
    assert!(scheduler.check_interval(&rule, 1000));
    scheduler.record_trigger("every", 1000);
    assert!(!scheduler.check_interval(&rule, 1599));
    assert!(scheduler.check_interval(&rule, 1600));
    assert_eq!(scheduler.next_trigger(&rule, &DateTime::from_timestamp(1200)), Some(1600));
}

#[test]
fn next_calendar_trigger_is_next_matching_time() {
    let rule = daily_at_18();
    let scheduler = Scheduler::new();
    // 2024-01-15 10:30:00 -> 2024-01-15 18:00:00
    assert_eq!(scheduler.next_trigger(&rule, &DateTime::from_timestamp(1705314600)), Some(1705341600));
    // 2024-01-15 18:00:30 -> the next day
    assert_eq!(scheduler.next_trigger(&rule, &DateTime::from_timestamp(1705341630)), Some(1705341600 + 86400));
}

fn cooled_rule(cooldown: u64) -> EventRule {
    match parse(&format!("ON battery_soc < 20%\n  COOLDOWN {}min", cooldown)).unwrap().rules.remove(0) {
        Rule::Event(e) => e,
        _ => panic!("expected an event rule"),
    }
}

#[test]
fn cooldown_skips_within_window() {
    let rule = cooled_rule(30);
    assert_eq!(rule.cooldown_seconds, Some(1800));
    let mut cooldowns = CooldownState::new();
    assert!(precheck_event_rule(&cooldowns, &rule, 5_000).is_none());
    cooldowns.trigger_at(&rule.id, 5_000);
    let skipped = precheck_event_rule(&cooldowns, &rule, 5_000 + 600_000).unwrap();
    assert!(!skipped.triggered);
    match &skipped.actions[..] {
        [ActionResult::Skipped { reason }] => assert_eq!(reason, "In cooldown"),
        other => panic!("unexpected {:?}", other),
    }
    assert_eq!(skipped.cooldown_remaining, Some(1_200_000));
    assert!(precheck_event_rule(&cooldowns, &rule, 5_000 + 1_800_000).is_none());
}

#[test]
fn disabled_rule_is_skipped() {
    let mut rule = cooled_rule(5);
    rule.enabled = false;
    let cooldowns = CooldownState::new();
    let result = precheck_event_rule(&cooldowns, &rule, 0).unwrap();
    match &result.actions[..] {
        [ActionResult::Skipped { reason }] => assert_eq!(reason, "Rule disabled"),
        other => panic!("unexpected {:?}", other),
    }
}

#[test]
fn cooldown_remaining_and_reset() {
    let mut cooldowns = CooldownState::new();
    cooldowns.trigger_at("r", 1000);
    assert_eq!(cooldowns.remaining_at("r", 10, 4000), Some(7000));
    assert_eq!(cooldowns.remaining_at("r", 10, 11000), None);
    cooldowns.reset("r");
    assert!(!cooldowns.is_in_cooldown_at("r", 10, 2000));
}

#[test]
fn history_prunes_old_samples() {
    let mut history: MetricHistory<f64> = MetricHistory::new(60);
    history.add(Metric::PvPower, 0, 1.0);
    history.add(Metric::PvPower, 30_000, 2.0);
    history.add(Metric::BatterySoc, 0, 50.0);
    history.add(Metric::PvPower, 100_000, 3.0);
    // Samples before 100000 - 60000 are gone.
    assert_eq!(history.get_range(&Metric::PvPower, 1000, 100_000), vec![3.0]);
    assert_eq!(history.get_recent(&Metric::PvPower, 5), vec![3.0]);
    // Other metrics keep their samples until they are appended to.
    assert_eq!(history.get_range(&Metric::BatterySoc, 1000, 100_000), vec![50.0]);
}

#[test]
fn history_range_and_recent() {
    let mut history: MetricHistory<f64> = MetricHistory::new(3600);
    for (i, v) in [100.0, 100.0, 100.0, 100.0].iter().enumerate() {
        history.add(Metric::PvPower, (i as u64) * 1000, *v);
    }
    assert_eq!(history.get_range(&Metric::PvPower, 2, 3000), vec![100.0, 100.0, 100.0]);
    history.add(Metric::PvPower, 4000, 5000.0);
    assert_eq!(history.get_recent(&Metric::PvPower, 2), vec![5000.0, 100.0]);
}

#[test]
fn compile_collects_metrics_once() {
    let program = parse("ON (battery_soc < 20% OR battery_soc > 90%) AND AVG(pv_power, 1hour) > 1kW").unwrap();
    let compiled = Compiler::new().compile(&program).unwrap();
    assert_eq!(compiled.required_metrics.len(), 2);
    assert!(compiled.required_metrics.contains(&Metric::BatterySoc));
    assert!(compiled.required_metrics.contains(&Metric::PvPower));
    assert!(compiled.requires_history);
    assert_eq!(compiled.max_history_seconds, Some(3600));
}

#[test]
fn compile_history_needs() {
    let trend = Compiler::new().compile(&parse("ON battery_soc RISING").unwrap()).unwrap();
    assert!(trend.requires_history);
    assert_eq!(trend.max_history_seconds, Some(3600));
    let plain = Compiler::new().compile(&parse("ON pv_power > 1").unwrap()).unwrap();
    assert!(!plain.requires_history);
    assert_eq!(plain.max_history_seconds, None);
    let schedule_only = Compiler::new().compile(&parse("EVERY day AT 08:00\n  NOTIFY \"x\"").unwrap()).unwrap();
    assert!(schedule_only.required_metrics.is_empty());
}

#[test]
fn compile_normalizes_variables() {
    let program = parse("$a = 20%\n$b = 3kW\n$c = 17:30\n$d = 30min").unwrap();
    let compiled = Compiler::new().compile(&program).unwrap();
    assert_eq!(compiled.variables[0].value, dec(20, 2));
    assert_eq!(compiled.variables[1].value, dec(3000, 0));
    assert_eq!(compiled.variables[2].value, dec(17 * 60 + 30, 0));
    assert_eq!(compiled.variables[3].value, dec(1800, 0));
}

#[test]
fn checksum_depends_on_shape() {
    let one = Compiler::new().compile(&parse("ON pv_power > 1").unwrap()).unwrap();
    let two = Compiler::new().compile(&parse("ON pv_power > 1\nON pv_power < 0").unwrap()).unwrap();
    assert!(!one.checksum.is_empty());
    assert!(one.checksum.chars().all(|c| c.is_ascii_hexdigit()));
    assert_ne!(one.checksum, two.checksum);
    assert!(one.compiled_at.chars().all(|c| c.is_ascii_digit()));
}

#[test]
fn json_image_contents() {
    let json = parse_and_compile("$t = 20%\nON pv_power > 3kW\n  NOTIFY 'C:\\dir \"x\"'").unwrap();
    assert!(json.contains(r#""text":"C:\\dir \"x\"""#));
    assert!(json.starts_with("{\"version\":\"1.0\""));
    assert!(json.contains("\"required_metrics\":[\"pv_power\"]"));
    assert!(json.contains("{\"type\":\"Power\",\"value\":{\"watts\":3000}}"));
    assert!(json.contains("\"original\":{\"type\":\"Percent\",\"value\":20}"));
    assert!(json.contains("\"value\":20e-2"));
    assert!(json.contains("\"operator\":\"gt\""));
    assert!(json.contains("\"action_type\":\"notify\""));
    assert!(json.contains("\"requires_history\":false"));
    assert!(json.contains("\"max_history_seconds\":null"));
}

#[test]
fn rule_ids_follow_declaration_order() {
    let program = parse("ON pv_power > 1\nEVERY day\n  NOTIFY \"x\"\nON pv_power < 0").unwrap();
    let ids: Vec<String> = program
        .rules
        .iter()
        .map(|r| match r {
            Rule::Event(e) => e.id.clone(),
            Rule::Schedule(s) => s.id.clone(),
        })
        .collect();
    assert_eq!(ids, vec!["rule_1", "rule_2", "rule_3"]);
}

#[test]
fn lexer_error_has_position() {
    match parse("ON battery_soc @ 20%") {
        Err(e @ SELError::LexerError { .. }) => {
            assert_eq!(e.to_message(), "Lexer error at line 1, column 16: Unexpected character '@'");
        }
        other => panic!("unexpected {:?}", other),
    }
}

#[test]
fn parser_error_has_position() {
    match parse("ON pv_power >") {
        Err(SELError::ParserError { message, line, column }) => {
            assert_eq!(message, "Expected expression");
            assert_eq!((line, column), (1, 14));
        }
        other => panic!("unexpected {:?}", other),
    }
}

#[test]
fn trend_needs_a_metric() {
    assert!(matches!(parse("ON $x RISING"), Err(SELError::ParserError { .. })));
}

#[test]
fn error_messages() {
    assert_eq!(SELError::compiler("x").to_message(), "Compiler error: x");
    assert_eq!(SELError::runtime("Division by zero").to_message(), "Runtime error: Division by zero");
    assert_eq!(SELError::ValidationError("v".to_string()).to_message(), "Validation error: v");
}

#[test]
fn lexer_indentation_and_units() {
    let tokens = Lexer::new("ON x > 5W\n  NOTIFY \"a\"\nON y > 2kwh 3:x").tokenize().unwrap();
    let kinds: Vec<TokenKind> = tokens.iter().map(|t| t.kind).collect();
    assert!(kinds.contains(&TokenKind::Indent));
    assert!(kinds.contains(&TokenKind::Dedent));
    assert_eq!(*kinds.last().unwrap(), TokenKind::Eof);
    let five = tokens.iter().find(|t| t.value == "5W").unwrap();
    assert_eq!(five.kind, TokenKind::Number);
    // Energy units are case-sensitive: `kwh` is not one, nor a duration.
    let lower = tokens.iter().find(|t| t.value == "2kwh").unwrap();
    assert_eq!(lower.kind, TokenKind::Number);
    // A colon not followed by digits leaves the number on its own.
    let three = tokens.iter().position(|t| t.value == "3").unwrap();
    assert_eq!(tokens[three + 1].kind, TokenKind::Colon);
}

#[test]
fn lexer_unicode_identifier() {
    let tokens = Lexer::new("ON été").tokenize().unwrap();
    assert_eq!(tokens[1].kind, TokenKind::Identifier);
    assert_eq!(tokens[1].value, "été");
    assert_eq!(tokens[2].location.offset, "ON été".len());
}

#[test]
fn lexer_duration_case_insensitive() {
    let tokens = Lexer::new("30MIN 2Hour").tokenize().unwrap();
    assert_eq!(tokens[0].kind, TokenKind::Duration);
    assert_eq!(tokens[1].kind, TokenKind::Duration);
}

#[test]
fn unterminated_and_empty_variable_are_lexer_errors() {
    assert!(matches!(Lexer::new("\"abc").tokenize(), Err(SELError::LexerError { .. })));
    assert!(matches!(Lexer::new("$ = 1").tokenize(), Err(SELError::LexerError { .. })));
    assert!(matches!(Lexer::new("a ! b").tokenize(), Err(SELError::LexerError { .. })));
}

#[test]
fn metric_and_function_names() {
    assert_eq!(Metric::from_str("BATTERY_SOC"), Some(Metric::BatterySoc));
    assert_eq!(Metric::from_str("solar"), None);
    assert_eq!(Metric::GridExport.as_str(), "grid_export");
    assert_eq!(sel_lang::Function::from_str("stddev"), Some(sel_lang::Function::Stddev));
}

#[test]
fn anomaly_default_period_is_a_week() {
    let program = parse("ON pv_power IS UNUSUAL COMPARED TO").unwrap();
    match &program.rules[0] {
        Rule::Event(e) => match &e.condition {
            Condition::Anomaly(a) => assert_eq!(a.period_seconds, 7 * 86400),
            other => panic!("unexpected {:?}", other),
        },
        _ => panic!("expected an event rule"),
    }
}

#[test]
fn dispatcher_outcomes_and_log_lines() {
    let live = DispatcherBuilder::new().webhook_header("X", "1").webhook_header("X", "2").build();
    let actions = vec![
        ActionResult::Notify { message: "hi".to_string() },
        ActionResult::Webhook { url: "http://h".to_string(), body: "{}".to_string() },
        ActionResult::Log { message: "m".to_string() },
        ActionResult::Skipped { reason: "why".to_string() },
    ];
    let results = live.dispatch_all(&actions);
    let messages: Vec<&str> = results.iter().map(|r| r.message.as_str()).collect();
    assert_eq!(messages, vec!["Notified: hi", "Webhook queued: http://h", "Logged: m", "Skipped: why"]);
    assert_eq!(live.log_line(&actions[1]), "[SEL WEBHOOK] http://h -> {}");
    let builder = DispatcherBuilder::new().webhook_header("X", "1").webhook_header("X", "2");
    assert_eq!(builder.config().webhook_headers, vec![("X".to_string(), "2".to_string())]);
}

#[test]
fn webhook_subscription_and_auth() {
    let hook = WebhookConfig::new("w", "n", "http://h").with_events(vec![WebhookEvent::AlertLow]);
    assert!(hook.should_deliver(WebhookEvent::AlertLow));
    assert!(!hook.should_deliver(WebhookEvent::RuleTriggered));
    let all = WebhookConfig::new("w", "n", "http://h");
    assert!(all.should_deliver(WebhookEvent::ScheduleTriggered));
    assert_eq!(
        sel_lang::dispatcher::auth_header(sel_lang::WebhookAuthType::Bearer, Some("t")),
        Some(("Authorization".to_string(), "Bearer t".to_string()))
    );
    assert!(sel_lang::dispatcher::is_success_status(204));
    assert!(!sel_lang::dispatcher::is_success_status(301));
}

#[test]
fn scheduler_tick_visits_rules_in_order() {
    let program = parse("EVERY day AT 18:00\n  NOTIFY \"a\"\nON pv_power > 1\nEVERY day AT 18:00\n  NOTIFY \"b\"").unwrap();
    let mut scheduler = Scheduler::new();
    let due = scheduler.due_rules(&program, 1705341630, 0);
    assert_eq!(due, vec![0, 2]);
    assert!(scheduler.due_rules(&program, 1705341640, 1_000_000).is_empty());
}

#[test]
fn delivery_history_keeps_last_hundred() {
    let mut history = Vec::new();
    for i in 0..105u64 {
        record_delivery(
            &mut history,
            WebhookDelivery {
                webhook_id: "w".to_string(),
                timestamp: i,
                url: "u".to_string(),
                request_body: String::new(),
                response_status: None,
                response_body: None,
                success: true,
                error: None,
                duration_ms: 0,
            },
        );
    }
    assert_eq!(history.len(), 100);
    assert_eq!(history[0].timestamp, 5);
    assert_eq!(history[99].timestamp, 104);
}

#[test]
fn webhook_update_and_delete() {
    let mut hooks = vec![WebhookConfig::new("a", "A", "http://a"), WebhookConfig::new("b", "B", "http://b")];
    let update = WebhookUpdate {
        name: Some("renamed".to_string()),
        url: None,
        enabled: Some(false),
        auth_type: None,
        auth_token: None,
        events: None,
        headers: None,
    };
    assert!(update_webhook(&mut hooks, "b", update.clone()));
    assert_eq!(hooks[1].name, "renamed");
    assert!(!hooks[1].enabled);
    assert_eq!(hooks[1].url, "http://b");
    assert!(!update_webhook(&mut hooks, "zzz", update));
    assert!(delete_webhook(&mut hooks, "a"));
    assert_eq!(hooks.len(), 1);
    assert!(!delete_webhook(&mut hooks, "a"));
}

#[test]
fn service_names_and_templates() {
    let weekly = Schedule::Calendar(CalendarSchedule {
        frequency: CalendarFrequency::Weekly,
        at: sel_lang::TimeOfDay { hour: 9, minute: 0 },
        on: Some(1),
    });
    assert_eq!(schedule_type_name(&weekly), "weekly");
    let template = TemplateString {
        parts: vec![
            TemplatePart::Text { text: "Battery ".to_string() },
            TemplatePart::Expression { expr: Expression::Metric(sel_lang::MetricExpr { metric: Metric::BatterySoc }) },
        ],
    };
    assert_eq!(render_simple_template(&template), "Battery {?}");
    assert_eq!(hex_id(255), "ff");
    assert_eq!(hex_id(0), "0");
}

#[test]
fn simple_ids_are_hex_of_the_clock() {
    let id = sel_lang::service::uuid_simple();
    assert!(id.len() > 8);
    assert!(id.chars().all(|c| c.is_ascii_hexdigit()));
}

#[test]
fn monotonic_clock_does_not_go_back() {
    let clock = sel_lang::clock::MonotonicClock::new();
    let a = clock.now_ms();
    let b = clock.now_ms();
    assert!(b >= a);
}

#[test]
fn names_fold_case_as_unicode_does() {
    // The long s upper-cases to a plain S.
    assert_eq!(sel_lang::Function::from_str("\u{17f}um"), Some(sel_lang::Function::Sum));
    assert_eq!(sel_lang::Function::from_str("avg"), Some(sel_lang::Function::Avg));
    assert_eq!(Metric::from_str("PV_POWER"), Some(Metric::PvPower));
    let tokens = Lexer::new("\u{17f}um(pv_power)").tokenize().unwrap();
    assert_eq!(tokens[0].kind, TokenKind::Function);
}

#[test]
fn parser_needs_a_final_eof() {
    let mut tokens = Lexer::new("ON pv_power > 1").tokenize().unwrap();
    tokens.pop();
    assert!(matches!(sel_lang::Parser::new(tokens).parse(), Err(SELError::ParserError { .. })));
    assert!(matches!(sel_lang::Parser::new(Vec::new()).parse(), Err(SELError::ParserError { .. })));
}

#[test]
fn lexer_token_kinds_for_literals() {
    let tokens = Lexer::new("30MIN 1kWh 20% 17:00 5").tokenize().unwrap();
    let kinds: Vec<TokenKind> = tokens.iter().map(|t| t.kind).collect();
    assert_eq!(
        kinds,
        vec![TokenKind::Duration, TokenKind::Number, TokenKind::Percent, TokenKind::Time, TokenKind::Number, TokenKind::Eof]
    );
}

#[test]
fn fresh_scheduler_fires_daily_rule_at_its_minute() {
    let rule = daily_at_18();
    assert!(Scheduler::new().should_trigger(&rule, &DateTime::from_timestamp(1705341630)));
}

#[test]
fn with_events_keeps_other_fields() {
    let hook = WebhookConfig::new("w", "n", "http://h").with_bearer_auth("t").with_events(vec![]);
    assert_eq!(hook.name, "n");
    assert!(hook.enabled);
    assert_eq!(hook.auth_token.as_deref(), Some("t"));
}

#[test]
fn token_columns_and_lines() {
    let tokens = Lexer::new("ON battery_soc < 20%\n  NOTIFY \"x\"").tokenize().unwrap();
    let places: Vec<(usize, usize)> = tokens.iter().map(|t| (t.location.line, t.location.column)).collect();
    assert_eq!(&places[..4], &[(1, 1), (1, 4), (1, 16), (1, 18)]);
    // Newline at the end of line 1, then the indentation and the action on line 2.
    assert_eq!(places[4], (1, 21));
    assert_eq!(tokens[5].kind, TokenKind::Indent);
    assert_eq!(places[5], (2, 3));
    assert_eq!(places[6], (2, 3));
    assert_eq!(places[7], (2, 10));
}

#[test]
fn lexer_error_contents() {
    match Lexer::new("$ = 20%").tokenize() {
        Err(SELError::LexerError { message, line, column }) => {
            assert_eq!((message.as_str(), line, column), ("Expected variable name after $", 1, 1));
        }
        other => panic!("unexpected {:?}", other),
    }
    match Lexer::new("ON battery_soc @ 20%").tokenize() {
        Err(SELError::LexerError { message, line, column }) => {
            assert_eq!((message.as_str(), line, column), ("Unexpected character '@'", 1, 16));
        }
        other => panic!("unexpected {:?}", other),
    }
}
