//! The syntax tree of a rule program and its compiled image.
//!
//! Numeric literals are held as exact decimals (`Decimal`), so unit scaling
//! done by the parser and normalisation done by the compiler lose nothing.

use vstd::prelude::*;
use crate::text::{lower_of, upper_of, chars_of, eq_exact, fold_lower, fold_upper};

verus! {

/// An exact decimal number: `mantissa / 10^scale`.
#[derive(Debug, Clone, Copy, PartialEq, Eq, Structural)]
pub struct Decimal {
    pub mantissa: i128,
    pub scale: u32,
}

impl Decimal {
    pub fn from_int(n: i128) -> (r: Decimal)
        ensures
            r == (Decimal { mantissa: n, scale: 0 }),
    {
        Decimal { mantissa: n, scale: 0 }
    }
}

/// A complete program: variable declarations and rules, in source order.
#[derive(Debug, Clone)]
pub struct Program {
    pub version: String,
    pub variables: Vec<Variable>,
    pub rules: Vec<Rule>,
}

impl Default for Program {
    fn default() -> (r: Self)
        ensures
            r.version@ == "1.0"@,
            r.variables@.len() == 0,
            r.rules@.len() == 0,
    {
        Program { version: "1.0".to_string(), variables: Vec::new(), rules: Vec::new() }
    }
}

#[derive(Debug, Clone)]
pub struct Variable {
    pub name: String,
    pub value: Value,
}

/// A literal value, in base units (watts, watt-hours, seconds).
#[derive(Debug, Clone)]
pub enum Value {
    Number(Decimal),
    /// The percentage itself, on the 0 to 100 scale.
    Percent(Decimal),
    Power { watts: Decimal },
    Energy { watt_hours: Decimal },
    Duration { seconds: u64 },
    Time { hour: u8, minute: u8 },
    TimeRange { start: TimeOfDay, end: TimeOfDay },
    String(String),
}

/// A copy of a value, equal to it.
pub fn copy_value(v: &Value) -> (r: Value)
    ensures
        r == *v,
{
    match v {
        Value::Number(n) => Value::Number(*n),
        Value::Percent(p) => Value::Percent(*p),
        Value::Power { watts } => Value::Power { watts: *watts },
        Value::Energy { watt_hours } => Value::Energy { watt_hours: *watt_hours },
        Value::Duration { seconds } => Value::Duration { seconds: *seconds },
        Value::Time { hour, minute } => Value::Time { hour: *hour, minute: *minute },
        Value::TimeRange { start, end } => Value::TimeRange { start: *start, end: *end },
        Value::String(s) => Value::String(s.clone()),
    }
}

#[derive(Debug, Clone, Copy, PartialEq, Eq, Structural)]
pub struct TimeOfDay {
    pub hour: u8,
    pub minute: u8,
}

#[derive(Debug, Clone)]
pub enum Rule {
    Event(EventRule),
    Schedule(ScheduleRule),
}

#[derive(Debug, Clone)]
pub struct EventRule {
    pub id: String,
    pub name: Option<String>,
    pub condition: Condition,
    pub actions: Vec<Action>,
    pub cooldown_seconds: Option<u64>,
    pub enabled: bool,
}

#[derive(Debug, Clone)]
pub struct ScheduleRule {
    pub id: String,
    pub name: Option<String>,
    pub schedule: Schedule,
    pub actions: Vec<Action>,
    pub enabled: bool,
}

#[derive(Debug)]
pub enum Condition {
    Comparison(ComparisonCondition),
    Logical(LogicalCondition),
    Trend(TrendCondition),
    Anomaly(AnomalyCondition),
    TimeWindow(TimeWindowCondition),
}

#[derive(Debug, Clone)]
pub struct ComparisonCondition {
    pub left: Expression,
    pub operator: ComparisonOp,
    pub right: Expression,
}

#[derive(Debug, Clone, Copy, PartialEq, Eq, Structural)]
pub enum ComparisonOp {
    Equal,
    NotEqual,
    LessThan,
    LessThanOrEqual,
    GreaterThan,
    GreaterThanOrEqual,
}

#[derive(Debug, Clone)]
pub struct LogicalCondition {
    pub operator: LogicalOp,
    pub conditions: Vec<Condition>,
}

#[derive(Debug, Clone, Copy, PartialEq, Eq, Structural)]
pub enum LogicalOp {
    And,
    Or,
    Not,
}

#[derive(Debug, Clone)]
pub struct TrendCondition {
    pub metric: Metric,
    pub direction: TrendDirection,
    /// Threshold as a change per hour.
    pub threshold_per_hour: Option<Decimal>,
}

#[derive(Debug, Clone, Copy, PartialEq, Eq, Structural)]
pub enum TrendDirection {
    Rising,
    Falling,
    Stable,
}

#[derive(Debug, Clone)]
pub struct AnomalyCondition {
    pub metric: Metric,
    /// Period in seconds to compare against.
    pub period_seconds: u64,
    /// Number of standard deviations.
    pub sensitivity: Decimal,
}

#[derive(Debug, Clone, Copy)]
pub struct TimeWindowCondition {
    pub start: TimeOfDay,
    pub end: TimeOfDay,
}

#[derive(Debug)]
pub enum Expression {
    Metric(MetricExpr),
    Variable(VariableRef),
    Literal(LiteralExpr),
    Function(FunctionCall),
    Binary(BinaryExpr),
}

#[derive(Debug, Clone, Copy, PartialEq, Eq, Structural)]
pub struct MetricExpr {
    pub metric: Metric,
}

/// The seven telemetry signals.
#[derive(Debug, Clone, Copy, PartialEq, Eq, Hash, Structural)]
pub enum Metric {
    PvPower,
    BatteryPower,
    BatterySoc,
    GridPower,
    GridImport,
    GridExport,
    LoadPower,
}

/// The metric whose canonical name is `s`, if any.
pub open spec fn metric_named(s: Seq<char>) -> Option<Metric> {
    if s == "pv_power"@ {
        Some(Metric::PvPower)
    } else if s == "battery_power"@ {
        Some(Metric::BatteryPower)
    } else if s == "battery_soc"@ {
        Some(Metric::BatterySoc)
    } else if s == "grid_power"@ {
        Some(Metric::GridPower)
    } else if s == "grid_import"@ {
        Some(Metric::GridImport)
    } else if s == "grid_export"@ {
        Some(Metric::GridExport)
    } else if s == "load_power"@ {
        Some(Metric::LoadPower)
    } else {
        None
    }
}

impl Metric {
    /// Canonical snake_case name.
    pub open spec fn name(self) -> Seq<char> {
        match self {
            Metric::PvPower => "pv_power"@,
            Metric::BatteryPower => "battery_power"@,
            Metric::BatterySoc => "battery_soc"@,
            Metric::GridPower => "grid_power"@,
            Metric::GridImport => "grid_import"@,
            Metric::GridExport => "grid_export"@,
            Metric::LoadPower => "load_power"@,
        }
    }

    /// The metric named `s`, ignoring case.
    pub fn from_str(s: &str) -> (r: Option<Metric>)
        ensures
            r == metric_named(lower_of(s@)),
    {
        let cs = chars_of(s);
        let low = fold_lower(&cs, 0, cs.len());
        proof {
            assert(cs@.subrange(0, cs@.len() as int) =~= cs@);
        }
        Self::from_lowercase(&low)
    }

    /// The metric whose canonical name is exactly `cs`.
    pub fn from_lowercase(cs: &[char]) -> (r: Option<Metric>)
        ensures
            r == metric_named(cs@),
    {
        if eq_exact(cs, "pv_power") {
            Some(Metric::PvPower)
        } else if eq_exact(cs, "battery_power") {
            Some(Metric::BatteryPower)
        } else if eq_exact(cs, "battery_soc") {
            Some(Metric::BatterySoc)
        } else if eq_exact(cs, "grid_power") {
            Some(Metric::GridPower)
        } else if eq_exact(cs, "grid_import") {
            Some(Metric::GridImport)
        } else if eq_exact(cs, "grid_export") {
            Some(Metric::GridExport)
        } else if eq_exact(cs, "load_power") {
            Some(Metric::LoadPower)
        } else {
            None
        }
    }

    pub fn as_str(&self) -> (r: &'static str)
        ensures
            r@ == self.name(),
    {
        match self {
            Metric::PvPower => "pv_power",
            Metric::BatteryPower => "battery_power",
            Metric::BatterySoc => "battery_soc",
            Metric::GridPower => "grid_power",
            Metric::GridImport => "grid_import",
            Metric::GridExport => "grid_export",
            Metric::LoadPower => "load_power",
        }
    }

    /// Position of the metric in declaration order.
    pub open spec fn index_spec(self) -> nat {
        match self {
            Metric::PvPower => 0,
            Metric::BatteryPower => 1,
            Metric::BatterySoc => 2,
            Metric::GridPower => 3,
            Metric::GridImport => 4,
            Metric::GridExport => 5,
            Metric::LoadPower => 6,
        }
    }

    pub fn index(&self) -> (r: usize)
        ensures
            r == self.index_spec(),
            r < 7,
    {
        match self {
            Metric::PvPower => 0,
            Metric::BatteryPower => 1,
            Metric::BatterySoc => 2,
            Metric::GridPower => 3,
            Metric::GridImport => 4,
            Metric::GridExport => 5,
            Metric::LoadPower => 6,
        }
    }
}

/// A deep copy of an expression tree.
pub fn copy_expression(e: &Expression) -> (r: Expression)
    decreases e,
{
    match e {
        Expression::Metric(m) => Expression::Metric(*m),
        Expression::Variable(v) => Expression::Variable(VariableRef { name: v.name.clone() }),
        Expression::Literal(l) => Expression::Literal(LiteralExpr { value: l.value.clone() }),
        Expression::Function(f) => {
            let mut args: Vec<Expression> = Vec::new();
            let mut i: usize = 0;
            while i < f.args.len()
                invariant
                    i <= f.args@.len(),
                    *e is Function,
                    (*e)->Function_0 == *f,
                decreases f.args@.len() - i,
            {
                proof {
                    assert(decreases_to!(*e => (*e)->Function_0));
                    assert(decreases_to!(*f => f.args));
                    assert(decreases_to!(f.args => f.args@));
                    assert(decreases_to!(f.args@ => f.args@[i as int]));
                }
                args.push(copy_expression(&f.args[i]));
                i = i + 1;
            }
            Expression::Function(FunctionCall { name: f.name, args, period_seconds: f.period_seconds })
        },
        Expression::Binary(b) => {
            let left = copy_expression(&b.left);
            let right = copy_expression(&b.right);
            Expression::Binary(
                BinaryExpr { left: Box::new(left), operator: b.operator, right: Box::new(right) },
            )
        },
    }
}

impl Clone for Expression {
    fn clone(&self) -> Self {
        copy_expression(self)
    }
}

/// A deep copy of a condition tree.
pub fn copy_condition(c: &Condition) -> (r: Condition)
    decreases c,
{
    match c {
        Condition::Comparison(cmp) => Condition::Comparison(
            ComparisonCondition {
                left: copy_expression(&cmp.left),
                operator: cmp.operator,
                right: copy_expression(&cmp.right),
            },
        ),
        Condition::Logical(l) => {
            let mut conds: Vec<Condition> = Vec::new();
            let mut i: usize = 0;
            while i < l.conditions.len()
                invariant
                    i <= l.conditions@.len(),
                    *c is Logical,
                    (*c)->Logical_0 == *l,
                decreases l.conditions@.len() - i,
            {
                proof {
                    assert(decreases_to!(*c => (*c)->Logical_0));
                    assert(decreases_to!(*l => l.conditions));
                    assert(decreases_to!(l.conditions => l.conditions@));
                    assert(decreases_to!(l.conditions@ => l.conditions@[i as int]));
                }
                conds.push(copy_condition(&l.conditions[i]));
                i = i + 1;
            }
            Condition::Logical(LogicalCondition { operator: l.operator, conditions: conds })
        },
        Condition::Trend(t) => Condition::Trend(
            TrendCondition {
                metric: t.metric,
                direction: t.direction,
                threshold_per_hour: t.threshold_per_hour,
            },
        ),
        Condition::Anomaly(a) => Condition::Anomaly(
            AnomalyCondition {
                metric: a.metric,
                period_seconds: a.period_seconds,
                sensitivity: a.sensitivity,
            },
        ),
        Condition::TimeWindow(w) => Condition::TimeWindow(*w),
    }
}

impl Clone for Condition {
    fn clone(&self) -> Self {
        copy_condition(self)
    }
}

#[derive(Debug, Clone)]
pub struct VariableRef {
    pub name: String,
}

#[derive(Debug, Clone)]
pub struct LiteralExpr {
    pub value: Value,
}

#[derive(Debug, Clone)]
pub struct FunctionCall {
    pub name: Function,
    pub args: Vec<Expression>,
    /// Period in seconds for aggregate functions.
    pub period_seconds: Option<u64>,
}

#[derive(Debug, Clone, Copy, PartialEq, Eq, Structural)]
pub enum Function {
    Avg,
    Median,
    Sum,
    Min,
    Max,
    Count,
    Stddev,
    Trend,
    Percentile,
}

/// The aggregate function whose upper-case name is `s`, if any.
pub open spec fn function_named(s: Seq<char>) -> Option<Function> {
    if s == "AVG"@ {
        Some(Function::Avg)
    } else if s == "MEDIAN"@ {
        Some(Function::Median)
    } else if s == "SUM"@ {
        Some(Function::Sum)
    } else if s == "MIN"@ {
        Some(Function::Min)
    } else if s == "MAX"@ {
        Some(Function::Max)
    } else if s == "COUNT"@ {
        Some(Function::Count)
    } else if s == "STDDEV"@ {
        Some(Function::Stddev)
    } else if s == "TREND"@ {
        Some(Function::Trend)
    } else if s == "PERCENTILE"@ {
        Some(Function::Percentile)
    } else {
        None
    }
}

impl Function {
    /// The function named `s`, ignoring case.
    pub fn from_str(s: &str) -> (r: Option<Function>)
        ensures
            r == function_named(upper_of(s@)),
    {
        let cs = chars_of(s);
        let up = fold_upper(&cs, 0, cs.len());
        proof {
            assert(cs@.subrange(0, cs@.len() as int) =~= cs@);
        }
        Self::from_uppercase(&up)
    }

    /// The function whose upper-case name is exactly `cs`.
    pub fn from_uppercase(cs: &[char]) -> (r: Option<Function>)
        ensures
            r == function_named(cs@),
    {
        if eq_exact(cs, "AVG") {
            Some(Function::Avg)
        } else if eq_exact(cs, "MEDIAN") {
            Some(Function::Median)
        } else if eq_exact(cs, "SUM") {
            Some(Function::Sum)
        } else if eq_exact(cs, "MIN") {
            Some(Function::Min)
        } else if eq_exact(cs, "MAX") {
            Some(Function::Max)
        } else if eq_exact(cs, "COUNT") {
            Some(Function::Count)
        } else if eq_exact(cs, "STDDEV") {
            Some(Function::Stddev)
        } else if eq_exact(cs, "TREND") {
            Some(Function::Trend)
        } else if eq_exact(cs, "PERCENTILE") {
            Some(Function::Percentile)
        } else {
            None
        }
    }
}

#[derive(Debug, Clone)]
pub struct BinaryExpr {
    pub left: Box<Expression>,
    pub operator: BinaryOp,
    pub right: Box<Expression>,
}

#[derive(Debug, Clone, Copy, PartialEq, Eq, Structural)]
pub enum BinaryOp {
    Add,
    Subtract,
    Multiply,
    Divide,
    Modulo,
}

#[derive(Debug, Clone)]
pub enum Schedule {
    Interval(IntervalSchedule),
    Calendar(CalendarSchedule),
    Cron(CronSchedule),
}

#[derive(Debug, Clone, Copy, PartialEq, Eq, Structural)]
pub struct IntervalSchedule {
    /// Interval in seconds.
    pub interval_seconds: u64,
}

#[derive(Debug, Clone, Copy, PartialEq, Eq, Structural)]
pub struct CalendarSchedule {
    pub frequency: CalendarFrequency,
    pub at: TimeOfDay,
    /// Weekly: day of week (1 to 7, Monday is 1). Monthly: day of month.
    pub on: Option<u8>,
}

#[derive(Debug, Clone, Copy, PartialEq, Eq, Structural)]
pub enum CalendarFrequency {
    Daily,
    Weekly,
    Monthly,
    Yearly,
}

#[derive(Debug, Clone)]
pub struct CronSchedule {
    pub expression: String,
}

#[derive(Debug, Clone)]
pub enum Action {
    Notify(NotifyAction),
    Webhook(WebhookAction),
    Log(LogAction),
    SetVariable(SetVariableAction),
}

#[derive(Debug, Clone)]
pub struct NotifyAction {
    pub message: TemplateString,
    pub channel: Option<NotifyChannel>,
    pub priority: Option<NotifyPriority>,
}

#[derive(Debug, Clone, Copy, PartialEq, Eq, Structural)]
pub enum NotifyChannel {
    Push,
    Email,
    Sms,
}

#[derive(Debug, Clone, Copy, PartialEq, Eq, Structural)]
pub enum NotifyPriority {
    Low,
    Normal,
    High,
    Critical,
}

#[derive(Debug, Clone)]
pub struct WebhookAction {
    pub url: String,
    pub method: Option<HttpMethod>,
    pub headers: Option<Vec<(String, String)>>,
    pub body: Option<TemplateString>,
}

#[derive(Debug, Clone, Copy, PartialEq, Eq, Structural)]
pub enum HttpMethod {
    Get,
    Post,
    Put,
    Delete,
}

#[derive(Debug, Clone)]
pub struct LogAction {
    pub message: TemplateString,
    pub level: Option<LogLevel>,
}

#[derive(Debug, Clone, Copy, PartialEq, Eq, Structural)]
pub enum LogLevel {
    Info,
    Warn,
    Error,
}

#[derive(Debug, Clone)]
pub struct SetVariableAction {
    pub name: String,
    pub value: Expression,
}

/// A string with embedded expressions, such as "Battery: {battery_soc}%".
#[derive(Debug, Clone)]
pub struct TemplateString {
    pub parts: Vec<TemplatePart>,
}

#[derive(Debug, Clone)]
pub enum TemplatePart {
    Text { text: String },
    Expression { expr: Expression },
}

impl TemplateString {
    pub fn from_literal(s: &str) -> (r: Self)
        ensures
            r.parts@.len() == 1,
            r.parts@[0] matches TemplatePart::Text { text } && text@ == s@,
    {
        TemplateString { parts: vec![TemplatePart::Text { text: s.to_string() }] }
    }
}

/// A program ready for execution by a runtime.
#[derive(Debug, Clone)]
pub struct CompiledProgram {
    pub version: String,
    pub compiled_at: String,
    pub checksum: String,
    pub variables: Vec<CompiledVariable>,
    pub rules: Vec<CompiledRule>,
    /// Metrics the program reads, each once.
    pub required_metrics: Vec<Metric>,
    /// Whether the program needs historical samples.
    pub requires_history: bool,
    /// The longest history window needed, in seconds.
    pub max_history_seconds: Option<u64>,
}

#[derive(Debug, Clone)]
pub struct CompiledVariable {
    pub name: String,
    /// Value in base units; percentages as fractions of one.
    pub value: Decimal,
    pub original: Value,
}

#[derive(Debug, Clone)]
pub struct CompiledRule {
    pub id: String,
    pub name: Option<String>,
    pub rule_type: CompiledRuleType,
    pub enabled: bool,
    pub actions: Vec<CompiledAction>,
    pub cooldown_seconds: Option<u64>,
}

#[derive(Debug, Clone)]
pub enum CompiledRuleType {
    Event { condition: Condition },
    Schedule { schedule: Schedule },
}

/// A flattened action: its kind, its configuration and the names its
/// templates mention.
#[derive(Debug, Clone)]
pub struct CompiledAction {
    pub action_type: String,
    pub config: Action,
    /// Variables and metrics referenced in templates.
    pub template_vars: Vec<String>,
}

} // verus!
