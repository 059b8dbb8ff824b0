use sel_lang::{
    parse, parse_and_compile, Lexer, TokenKind, Parser, Compiler, Metric, DispatchResult,
    DispatcherBuilder, Dispatcher, ActionResult, WebhookConfig, WebhookEvent, WebhookAuthType,
    CooldownState, DateTime, Scheduler, ScheduleRule, Schedule, CalendarSchedule,
    CalendarFrequency, TimeOfDay, Rule, CompiledProgram, SELError,
};

fn compile(source: &str) -> Result<CompiledProgram, SELError> {
    let lexer = Lexer::new(source);
    let tokens = lexer.tokenize()?;
    let parser = Parser::new(tokens);
    let program = parser.parse()?;
    let mut compiler = Compiler::new();
    compiler.compile(&program)
}

fn daily_rule(enabled: bool) -> ScheduleRule {
    ScheduleRule {
        id: "test".to_string(),
        name: None,
        schedule: Schedule::Calendar(CalendarSchedule {
            frequency: CalendarFrequency::Daily,
            at: TimeOfDay { hour: 18, minute: 0 },
            on: None,
        }),
        actions: vec![],
        enabled,
    }
}

#[test]
fn test_simple_tokens() {
    let lexer = Lexer::new("ON battery_soc < 20%");
    let tokens = lexer.tokenize().unwrap();

    assert_eq!(tokens[0].kind, TokenKind::On);
    assert_eq!(tokens[1].kind, TokenKind::Metric);
    assert_eq!(tokens[1].value, "battery_soc");
    assert_eq!(tokens[2].kind, TokenKind::Lt);
    assert_eq!(tokens[3].kind, TokenKind::Percent);
    assert_eq!(tokens[3].value, "20");
}

#[test]
fn test_variable() {
    let lexer = Lexer::new("$threshold = 20%");
    let tokens = lexer.tokenize().unwrap();

    assert_eq!(tokens[0].kind, TokenKind::Variable);
    assert_eq!(tokens[0].value, "threshold");
    assert_eq!(tokens[1].kind, TokenKind::Assign);
}

#[test]
fn test_time() {
    let lexer = Lexer::new("AT 17:00");
    let tokens = lexer.tokenize().unwrap();

    assert_eq!(tokens[0].kind, TokenKind::At);
    assert_eq!(tokens[1].kind, TokenKind::Time);
    assert_eq!(tokens[1].value, "17:00");
}

#[test]
fn test_simple_rule() {
    let source = r#"
            ON battery_soc < 20%
              NOTIFY "Battery low"
        "#;

    let result = parse(source);
    assert!(result.is_ok(), "Parse failed: {:?}", result.err());

    let program = result.unwrap();
    assert_eq!(program.rules.len(), 1);
}

#[test]
fn test_variable_declaration() {
    let source = r#"
            $threshold = 20%
            ON battery_soc < $threshold
              NOTIFY "Low"
        "#;

    let result = parse(source);
    assert!(result.is_ok(), "Parse failed: {:?}", result.err());

    let program = result.unwrap();
    assert_eq!(program.variables.len(), 1);
    assert_eq!(program.variables[0].name, "threshold");
}

#[test]
fn test_scheduled_rule() {
    let source = r#"
            EVERY day AT 17:00
              NOTIFY "Daily report"
        "#;

    let result = parse(source);
    assert!(result.is_ok(), "Parse failed: {:?}", result.err());
}

#[test]
fn test_compile_to_json() {
    let source = r#"
            ON pv_power > 3kW
              NOTIFY "High solar"
        "#;

    let result = parse_and_compile(source);
    assert!(result.is_ok(), "Compile failed: {:?}", result.err());

    let json = result.unwrap();
    assert!(json.contains("\"version\""));
    assert!(json.contains("\"rules\""));
}

#[test]
fn parser_test_simple_comparison() {
    let program = parse("ON battery_soc < 20%").unwrap();
    assert_eq!(program.rules.len(), 1);
}

#[test]
fn test_with_action() {
    let program = parse(r#"ON pv_power > 3kW NOTIFY "High solar""#).unwrap();
    assert_eq!(program.rules.len(), 1);
    if let Rule::Event(rule) = &program.rules[0] {
        assert_eq!(rule.actions.len(), 1);
    }
}

#[test]
fn test_compile_simple_rule() {
    let result = compile("ON battery_soc < 20%");
    assert!(result.is_ok());
    let compiled = result.unwrap();
    assert_eq!(compiled.rules.len(), 1);
    assert!(compiled.required_metrics.contains(&Metric::BatterySoc));
}

#[test]
fn test_compile_with_variable() {
    let result = compile(r#"
            $threshold = 20%
            ON battery_soc < $threshold
              NOTIFY "Low battery"
        "#);
    assert!(result.is_ok());
    let compiled = result.unwrap();
    assert_eq!(compiled.variables.len(), 1);
    assert_eq!(compiled.variables[0].name, "threshold");
}

#[test]
fn test_compile_schedule() {
    let result = compile(r#"
            EVERY day AT 17:00
              NOTIFY "Daily report"
        "#);
    assert!(result.is_ok());
    let compiled = result.unwrap();
    assert_eq!(compiled.rules.len(), 1);
}

#[test]
fn test_json_output() {
    let compiler = Compiler::new();
    let lexer = Lexer::new("ON pv_power > 3kW");
    let tokens = lexer.tokenize().unwrap();
    let parser = Parser::new(tokens);
    let program = parser.parse().unwrap();

    let json = compiler.to_json(&program);
    assert!(json.is_ok());
    let json_str = json.unwrap();
    assert!(json_str.contains("\"version\""));
    assert!(json_str.contains("\"rules\""));
}

#[test]
fn test_dispatch_result_success() {
    let result = DispatchResult::success("Test message");
    assert!(result.success);
    assert!(result.details.is_none());
}

#[test]
fn test_dispatch_result_failure() {
    let result = DispatchResult::failure("Failed", "Details here");
    assert!(!result.success);
    assert!(result.details.is_some());
}

#[test]
fn test_dry_run_notify() {
    let dispatcher = DispatcherBuilder::new().dry_run(true).build();

    let action = ActionResult::Notify {
        message: "Test notification".to_string(),
    };

    let result = dispatcher.dispatch(&action);
    assert!(result.success);
    assert!(result.message.contains("DRY RUN"));
}

#[test]
fn test_webhook_config() {
    let webhook = WebhookConfig::new("wh1", "Test Webhook", "https://example.com/hook")
        .with_bearer_auth("secret-token")
        .with_events(vec![WebhookEvent::RuleTriggered, WebhookEvent::AlertHigh]);

    assert_eq!(webhook.id, "wh1");
    assert_eq!(webhook.auth_type, WebhookAuthType::Bearer);
    assert_eq!(webhook.events.len(), 2);
}

#[test]
fn test_skipped_action() {
    let dispatcher = Dispatcher::default();

    let action = ActionResult::Skipped {
        reason: "Test skip".to_string(),
    };

    let result = dispatcher.dispatch(&action);
    assert!(result.success);
    assert!(result.message.contains("Skipped"));
}

#[test]
fn test_cooldown_state() {
    let mut cooldowns = CooldownState::new();
    assert!(!cooldowns.is_in_cooldown("test", 60));

    cooldowns.trigger("test");
    assert!(cooldowns.is_in_cooldown("test", 60));
    assert!(!cooldowns.is_in_cooldown("test", 0));
}

#[test]
fn test_datetime_from_timestamp() {
    // 2024-01-15 10:30:00 UTC
    let ts = 1705314600;
    let dt = DateTime::from_timestamp(ts);

    assert_eq!(dt.hour, 10);
    assert_eq!(dt.minute, 30);
    assert_eq!(dt.weekday, 1); // Monday
}

#[test]
fn scheduler_test_daily_schedule() {
    let scheduler = Scheduler::new();
    let rule = daily_rule(true);

    // At 18:00
    let dt = DateTime {
        year: 2024,
        month: 1,
        day: 15,
        weekday: 1,
        hour: 18,
        minute: 0,
        second: 0,
        timestamp: 1705341600,
    };
    assert!(scheduler.should_trigger(&rule, &dt));

    // At 17:59
    let dt2 = DateTime {
        year: 2024,
        month: 1,
        day: 15,
        weekday: 1,
        hour: 17,
        minute: 59,
        second: 0,
        timestamp: 1705341540,
    };
    assert!(!scheduler.should_trigger(&rule, &dt2));
}

#[test]
fn scheduler_test_weekly_schedule() {
    let scheduler = Scheduler::new();

    let rule = ScheduleRule {
        id: "test".to_string(),
        name: None,
        schedule: Schedule::Calendar(CalendarSchedule {
            frequency: CalendarFrequency::Weekly,
            at: TimeOfDay { hour: 9, minute: 0 },
            on: Some(1), // Monday
        }),
        actions: vec![],
        enabled: true,
    };

    // Monday at 09:00
    let monday = DateTime {
        year: 2024,
        month: 1,
        day: 15,
        weekday: 1,
        hour: 9,
        minute: 0,
        second: 0,
        timestamp: 1705309200,
    };
    assert!(scheduler.should_trigger(&rule, &monday));

    // Tuesday at 09:00
    let tuesday = DateTime {
        year: 2024,
        month: 1,
        day: 16,
        weekday: 2,
        hour: 9,
        minute: 0,
        second: 0,
        timestamp: 1705395600,
    };
    assert!(!scheduler.should_trigger(&rule, &tuesday));
}

#[test]
fn test_disabled_rule() {
    let scheduler = Scheduler::new();
    let rule = daily_rule(false);

    let dt = DateTime {
        year: 2024,
        month: 1,
        day: 15,
        weekday: 1,
        hour: 18,
        minute: 0,
        second: 0,
        timestamp: 1705341600,
    };
    assert!(!scheduler.should_trigger(&rule, &dt));
}

#[test]
fn test_record_trigger_prevents_double() {
    let mut scheduler = Scheduler::new();
    let rule = daily_rule(true);

    let dt = DateTime {
        year: 2024,
        month: 1,
        day: 15,
        weekday: 1,
        hour: 18,
        minute: 0,
        second: 0,
        timestamp: 1705341600,
    };

    // First check - should trigger
    assert!(scheduler.should_trigger(&rule, &dt));

    // Record the trigger
    scheduler.record_trigger("test", dt.timestamp);

    // Second check - should not trigger (same minute)
    assert!(!scheduler.should_trigger(&rule, &dt));
}
