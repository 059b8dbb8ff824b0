//! The program image as JSON text.
//!
//! Each `json_*` spec function gives the exact text written for a value;
//! the writers append that text to a buffer.

use vstd::prelude::*;
use crate::ast::{
    Decimal, Value, TimeOfDay, Condition, ComparisonOp, LogicalOp, TrendDirection, Expression,
    Metric, Function, BinaryOp, Schedule, CalendarFrequency, Action, NotifyChannel, NotifyPriority,
    HttpMethod, LogLevel, TemplateString, NotifyAction, WebhookAction, LogAction, TemplatePart, CompiledProgram, CompiledVariable,
    CompiledRule, CompiledRuleType, CompiledAction,
};
use crate::text::{digits_of, push_char, push_str, push_digits};

verus! {

/// The escaped body of a JSON string (without quotes).
pub open spec fn escape_char(c: char) -> Seq<char> {
    if c == '"' {
        seq!['\\', '"']
    } else if c == '\\' {
        seq!['\\', '\\']
    } else if c == '\n' {
        seq!['\\', 'n']
    } else if c == '\r' {
        seq!['\\', 'r']
    } else if c == '\t' {
        seq!['\\', 't']
    } else if (c as u32) < 0x20 {
        seq!['\\', 'u', '0', '0', hex_digit((c as u32 / 16) as nat), hex_digit((c as u32 % 16) as nat)]
    } else {
        seq![c]
    }
}

pub open spec fn hex_digit(d: nat) -> char {
    if d < 10 {
        ((d + 48) as u8) as char
    } else {
        ((d + 87) as u8) as char
    }
}

pub open spec fn escaped(s: Seq<char>) -> Seq<char>
    decreases s.len(),
{
    if s.len() == 0 {
        Seq::empty()
    } else {
        escaped(s.drop_last()) + escape_char(s.last())
    }
}

/// A JSON string literal.
pub open spec fn json_str(s: Seq<char>) -> Seq<char> {
    "\""@ + escaped(s) + "\""@
}

/// A JSON integer.
pub open spec fn json_int(n: int) -> Seq<char> {
    if n < 0 {
        "-"@ + digits_of((-n) as nat)
    } else {
        digits_of(n as nat)
    }
}

/// An exact decimal as a JSON number: `m` or `me-s`.
pub open spec fn json_decimal(d: Decimal) -> Seq<char> {
    if d.scale == 0 {
        json_int(d.mantissa as int)
    } else {
        json_int(d.mantissa as int) + "e-"@ + digits_of(d.scale as nat)
    }
}

fn write_escaped(out: &mut String, s: &str)
    ensures
        final(out)@ == old(out)@ + json_str(s@),
{
    let cs = crate::text::chars_of(s);
    push_char(out, '"');
    let ghost start = out@;
    let mut i: usize = 0;
    while i < cs.len()
        invariant
            i <= cs@.len(),
            cs@ == s@,
            out@ == start + escaped(cs@.take(i as int)),
        decreases cs@.len() - i,
    {
        let c = cs[i];
        proof {
            assert(cs@.take(i + 1).drop_last() =~= cs@.take(i as int));
        }
        let ghost before = out@;
        if c == '"' {
            push_char(out, '\\');
            push_char(out, '"');
        } else if c == '\\' {
            push_char(out, '\\');
            push_char(out, '\\');
        } else if c == '\n' {
            push_char(out, '\\');
            push_char(out, 'n');
        } else if c == '\r' {
            push_char(out, '\\');
            push_char(out, 'r');
        } else if c == '\t' {
            push_char(out, '\\');
            push_char(out, 't');
        } else if (c as u32) < 0x20 {
            let v = c as u32;
            push_char(out, '\\');
            push_char(out, 'u');
            push_char(out, '0');
            push_char(out, '0');
            push_char(out, hex(v / 16));
            push_char(out, hex(v % 16));
        } else {
            push_char(out, c);
        }
        proof {
            assert(out@ =~= before + escape_char(c));
            assert(out@ =~= start + escaped(cs@.take(i + 1)));
        }
        i = i + 1;
    }
    push_char(out, '"');
    proof {
        assert(cs@.take(cs@.len() as int) =~= cs@);
        reveal_strlit("\"");
        assert(final(out)@ =~= old(out)@ + json_str(s@));
    }
}

fn hex(d: u32) -> (r: char)
    requires
        d < 16,
    ensures
        r == hex_digit(d as nat),
{
    if d < 10 {
        ((d + 48) as u8) as char
    } else {
        ((d + 87) as u8) as char
    }
}

fn write_int(out: &mut String, n: i128)
    ensures
        final(out)@ == old(out)@ + json_int(n as int),
{
    if n < 0 {
        push_char(out, '-');
        let m: u128 = if n == i128::MIN { (i128::MAX as u128) + 1 } else { (-n) as u128 };
        write_u128(out, m);
    } else {
        write_u128(out, n as u128);
    }
    proof {
        reveal_strlit("-");
        assert(final(out)@ =~= old(out)@ + json_int(n as int));
    }
}

fn write_u128(out: &mut String, n: u128)
    ensures
        final(out)@ == old(out)@ + digits_of(n as nat),
    decreases n,
{
    let d = ((n % 10) as u8 + 48) as char;
    if n >= 10 {
        write_u128(out, n / 10);
    }
    push_char(out, d);
    proof {
        if n >= 10 {
            assert(digits_of(n as nat) == digits_of((n / 10) as nat).push(crate::text::digit_char((n % 10) as nat)));
        }
    }
    assert(final(out)@ =~= old(out)@ + digits_of(n as nat));
}

fn write_decimal(out: &mut String, d: Decimal)
    ensures
        final(out)@ == old(out)@ + json_decimal(d),
{
    write_int(out, d.mantissa);
    if d.scale != 0 {
        push_str(out, "e-");
        push_digits(out, d.scale as u64);
    }
    proof {
        assert(final(out)@ =~= old(out)@ + json_decimal(d));
    }
}


pub open spec fn json_bool(b: bool) -> Seq<char> {
    if b { "true"@ } else { "false"@ }
}

pub open spec fn json_opt_u64(o: Option<u64>) -> Seq<char> {
    match o {
        Some(n) => digits_of(n as nat),
        None => "null"@,
    }
}

pub open spec fn json_opt_str(o: Option<String>) -> Seq<char> {
    match o {
        Some(s) => json_str(s@),
        None => "null"@,
    }
}

pub open spec fn json_tod(t: TimeOfDay) -> Seq<char> {
    "{\"hour\":"@ + digits_of(t.hour as nat) + ",\"minute\":"@ + digits_of(t.minute as nat) + "}"@
}

pub open spec fn json_value(v: Value) -> Seq<char> {
    match v {
        Value::Number(n) => "{\"type\":\"Number\",\"value\":"@ + json_decimal(n) + "}"@,
        Value::Percent(p) => "{\"type\":\"Percent\",\"value\":"@ + json_decimal(p) + "}"@,
        Value::Power { watts } => "{\"type\":\"Power\",\"value\":{\"watts\":"@ + json_decimal(watts)
            + "}}"@,
        Value::Energy { watt_hours } => "{\"type\":\"Energy\",\"value\":{\"watt_hours\":"@
            + json_decimal(watt_hours) + "}}"@,
        Value::Duration { seconds } => "{\"type\":\"Duration\",\"value\":{\"seconds\":"@
            + digits_of(seconds as nat) + "}}"@,
        Value::Time { hour, minute } => "{\"type\":\"Time\",\"value\":"@ + json_tod(
            TimeOfDay { hour, minute },
        ) + "}"@,
        Value::TimeRange { start, end } => "{\"type\":\"TimeRange\",\"value\":{\"start\":"@
            + json_tod(start) + ",\"end\":"@ + json_tod(end) + "}}"@,
        Value::String(t) => "{\"type\":\"String\",\"value\":"@ + json_str(t@) + "}"@,
    }
}

pub open spec fn comparison_name(op: ComparisonOp) -> Seq<char> {
    match op {
        ComparisonOp::Equal => "eq"@,
        ComparisonOp::NotEqual => "neq"@,
        ComparisonOp::LessThan => "lt"@,
        ComparisonOp::LessThanOrEqual => "lte"@,
        ComparisonOp::GreaterThan => "gt"@,
        ComparisonOp::GreaterThanOrEqual => "gte"@,
    }
}

pub open spec fn logical_name(op: LogicalOp) -> Seq<char> {
    match op {
        LogicalOp::And => "and"@,
        LogicalOp::Or => "or"@,
        LogicalOp::Not => "not"@,
    }
}

pub open spec fn direction_name(d: TrendDirection) -> Seq<char> {
    match d {
        TrendDirection::Rising => "rising"@,
        TrendDirection::Falling => "falling"@,
        TrendDirection::Stable => "stable"@,
    }
}

pub open spec fn function_name(f: Function) -> Seq<char> {
    match f {
        Function::Avg => "AVG"@,
        Function::Median => "MEDIAN"@,
        Function::Sum => "SUM"@,
        Function::Min => "MIN"@,
        Function::Max => "MAX"@,
        Function::Count => "COUNT"@,
        Function::Stddev => "STDDEV"@,
        Function::Trend => "TREND"@,
        Function::Percentile => "PERCENTILE"@,
    }
}

pub open spec fn binary_name(op: BinaryOp) -> Seq<char> {
    match op {
        BinaryOp::Add => "+"@,
        BinaryOp::Subtract => "-"@,
        BinaryOp::Multiply => "*"@,
        BinaryOp::Divide => "/"@,
        BinaryOp::Modulo => "%"@,
    }
}

pub open spec fn frequency_name(f: CalendarFrequency) -> Seq<char> {
    match f {
        CalendarFrequency::Daily => "daily"@,
        CalendarFrequency::Weekly => "weekly"@,
        CalendarFrequency::Monthly => "monthly"@,
        CalendarFrequency::Yearly => "yearly"@,
    }
}

pub open spec fn json_expr(e: Expression) -> Seq<char>
    decreases e,
{
    match e {
        Expression::Metric(m) => "{\"expr_type\":\"Metric\",\"metric\":"@ + json_str(m.metric.name())
            + "}"@,
        Expression::Variable(v) => "{\"expr_type\":\"Variable\",\"name\":"@ + json_str(v.name@)
            + "}"@,
        Expression::Literal(l) => "{\"expr_type\":\"Literal\",\"value\":"@ + json_value(l.value)
            + "}"@,
        Expression::Function(f) => "{\"expr_type\":\"Function\",\"name\":"@ + json_str(
            function_name(f.name),
        ) + ",\"args\":["@ + json_expr_items(f.args@) + "],\"period_seconds\":"@ + json_opt_u64(
            f.period_seconds,
        ) + "}"@,
        Expression::Binary(b) => "{\"expr_type\":\"Binary\",\"left\":"@ + json_expr(*b.left)
            + ",\"operator\":"@ + json_str(binary_name(b.operator)) + ",\"right\":"@ + json_expr(
            *b.right,
        ) + "}"@,
    }
}

/// Comma-separated items.
pub open spec fn json_expr_items(es: Seq<Expression>) -> Seq<char>
    decreases es,
{
    if es.len() == 0 {
        Seq::empty()
    } else if es.len() == 1 {
        json_expr(es[0])
    } else {
        json_expr_items(es.subrange(0, es.len() - 1)) + ","@ + json_expr(es[es.len() - 1])
    }
}

pub open spec fn json_cond(c: Condition) -> Seq<char>
    decreases c,
{
    match c {
        Condition::Comparison(cmp) => "{\"type\":\"Comparison\",\"left\":"@ + json_expr(cmp.left)
            + ",\"operator\":"@ + json_str(comparison_name(cmp.operator)) + ",\"right\":"@
            + json_expr(cmp.right) + "}"@,
        Condition::Logical(l) => "{\"type\":\"Logical\",\"operator\":"@ + json_str(
            logical_name(l.operator),
        ) + ",\"conditions\":["@ + json_cond_items(l.conditions@) + "]}"@,
        Condition::Trend(t) => "{\"type\":\"Trend\",\"metric\":"@ + json_str(t.metric.name())
            + ",\"direction\":"@ + json_str(direction_name(t.direction)) + ",\"threshold_per_hour\":"@
            + match t.threshold_per_hour {
            Some(d) => json_decimal(d),
            None => "null"@,
        } + "}"@,
        Condition::Anomaly(a) => "{\"type\":\"Anomaly\",\"metric\":"@ + json_str(a.metric.name())
            + ",\"period_seconds\":"@ + digits_of(a.period_seconds as nat) + ",\"sensitivity\":"@
            + json_decimal(a.sensitivity) + "}"@,
        Condition::TimeWindow(w) => "{\"type\":\"TimeWindow\",\"start\":"@ + json_tod(w.start)
            + ",\"end\":"@ + json_tod(w.end) + "}"@,
    }
}

pub open spec fn json_cond_items(cs: Seq<Condition>) -> Seq<char>
    decreases cs,
{
    if cs.len() == 0 {
        Seq::empty()
    } else if cs.len() == 1 {
        json_cond(cs[0])
    } else {
        json_cond_items(cs.subrange(0, cs.len() - 1)) + ","@ + json_cond(cs[cs.len() - 1])
    }
}

fn write_tod(out: &mut String, t: &TimeOfDay)
    ensures
        final(out)@ == old(out)@ + json_tod(*t),
{
    push_str(out, "{\"hour\":");
    push_digits(out, t.hour as u64);
    push_str(out, ",\"minute\":");
    push_digits(out, t.minute as u64);
    push_str(out, "}");
    proof {
        assert(final(out)@ =~= old(out)@ + json_tod(*t));
    }
}

fn write_value(out: &mut String, v: &Value)
    ensures
        final(out)@ == old(out)@ + json_value(*v),
{
    match v {
        Value::Number(n) => {
            push_str(out, "{\"type\":\"Number\",\"value\":");
            write_decimal(out, *n);
            push_str(out, "}");
        },
        Value::Percent(p) => {
            push_str(out, "{\"type\":\"Percent\",\"value\":");
            write_decimal(out, *p);
            push_str(out, "}");
        },
        Value::Power { watts } => {
            push_str(out, "{\"type\":\"Power\",\"value\":{\"watts\":");
            write_decimal(out, *watts);
            push_str(out, "}}");
        },
        Value::Energy { watt_hours } => {
            push_str(out, "{\"type\":\"Energy\",\"value\":{\"watt_hours\":");
            write_decimal(out, *watt_hours);
            push_str(out, "}}");
        },
        Value::Duration { seconds } => {
            push_str(out, "{\"type\":\"Duration\",\"value\":{\"seconds\":");
            push_digits(out, *seconds);
            push_str(out, "}}");
        },
        Value::Time { hour, minute } => {
            push_str(out, "{\"type\":\"Time\",\"value\":");
            write_tod(out, &TimeOfDay { hour: *hour, minute: *minute });
            push_str(out, "}");
        },
        Value::TimeRange { start, end } => {
            push_str(out, "{\"type\":\"TimeRange\",\"value\":{\"start\":");
            write_tod(out, start);
            push_str(out, ",\"end\":");
            write_tod(out, end);
            push_str(out, "}}");
        },
        Value::String(t) => {
            push_str(out, "{\"type\":\"String\",\"value\":");
            write_escaped(out, t.as_str());
            push_str(out, "}");
        },
    }
    proof {
        assert(final(out)@ =~= old(out)@ + json_value(*v));
    }
}

fn comparison_str(op: ComparisonOp) -> (r: &'static str)
    ensures
        r@ == comparison_name(op),
{
    match op {
        ComparisonOp::Equal => "eq",
        ComparisonOp::NotEqual => "neq",
        ComparisonOp::LessThan => "lt",
        ComparisonOp::LessThanOrEqual => "lte",
        ComparisonOp::GreaterThan => "gt",
        ComparisonOp::GreaterThanOrEqual => "gte",
    }
}

fn logical_str(op: LogicalOp) -> (r: &'static str)
    ensures
        r@ == logical_name(op),
{
    match op {
        LogicalOp::And => "and",
        LogicalOp::Or => "or",
        LogicalOp::Not => "not",
    }
}

fn direction_str(d: TrendDirection) -> (r: &'static str)
    ensures
        r@ == direction_name(d),
{
    match d {
        TrendDirection::Rising => "rising",
        TrendDirection::Falling => "falling",
        TrendDirection::Stable => "stable",
    }
}

fn function_str(f: Function) -> (r: &'static str)
    ensures
        r@ == function_name(f),
{
    match f {
        Function::Avg => "AVG",
        Function::Median => "MEDIAN",
        Function::Sum => "SUM",
        Function::Min => "MIN",
        Function::Max => "MAX",
        Function::Count => "COUNT",
        Function::Stddev => "STDDEV",
        Function::Trend => "TREND",
        Function::Percentile => "PERCENTILE",
    }
}

fn binary_str(op: BinaryOp) -> (r: &'static str)
    ensures
        r@ == binary_name(op),
{
    match op {
        BinaryOp::Add => "+",
        BinaryOp::Subtract => "-",
        BinaryOp::Multiply => "*",
        BinaryOp::Divide => "/",
        BinaryOp::Modulo => "%",
    }
}

fn frequency_str(f: CalendarFrequency) -> (r: &'static str)
    ensures
        r@ == frequency_name(f),
{
    match f {
        CalendarFrequency::Daily => "daily",
        CalendarFrequency::Weekly => "weekly",
        CalendarFrequency::Monthly => "monthly",
        CalendarFrequency::Yearly => "yearly",
    }
}

fn write_opt_u64(out: &mut String, o: Option<u64>)
    ensures
        final(out)@ == old(out)@ + json_opt_u64(o),
{
    match o {
        Some(n) => push_digits(out, n),
        None => push_str(out, "null"),
    }
}

fn write_expr(out: &mut String, e: &Expression)
    ensures
        final(out)@ == old(out)@ + json_expr(*e),
    decreases e,
{
    match e {
        Expression::Metric(m) => {
            push_str(out, "{\"expr_type\":\"Metric\",\"metric\":");
            write_escaped(out, m.metric.as_str());
            push_str(out, "}");
        },
        Expression::Variable(v) => {
            push_str(out, "{\"expr_type\":\"Variable\",\"name\":");
            write_escaped(out, v.name.as_str());
            push_str(out, "}");
        },
        Expression::Literal(l) => {
            push_str(out, "{\"expr_type\":\"Literal\",\"value\":");
            write_value(out, &l.value);
            push_str(out, "}");
        },
        Expression::Function(f) => {
            push_str(out, "{\"expr_type\":\"Function\",\"name\":");
            write_escaped(out, function_str(f.name));
            push_str(out, ",\"args\":[");
            let ghost start = out@;
            let mut i: usize = 0;
            while i < f.args.len()
                invariant
                    i <= f.args@.len(),
                    *e is Function,
                    (*e)->Function_0 == *f,
                    out@ == start + json_expr_items(f.args@.subrange(0, i as int)),
                decreases f.args@.len() - i,
            {
                proof {
                    assert(decreases_to!(*e => (*e)->Function_0));
                    assert(decreases_to!(*f => f.args));
                    assert(decreases_to!(f.args => f.args@));
                    assert(decreases_to!(f.args@ => f.args@[i as int]));
                    let s = f.args@.subrange(0, i + 1);
                    assert(s.subrange(0, s.len() - 1) =~= f.args@.subrange(0, i as int));
                    assert(s[s.len() - 1] == f.args@[i as int]);
                }
                if i > 0 {
                    push_str(out, ",");
                }
                write_expr(out, &f.args[i]);
                proof {
                    let s = f.args@.subrange(0, i + 1);
                    if i == 0 {
                        assert(s.len() == 1);
                        assert(json_expr_items(f.args@.subrange(0, 0)) == Seq::<char>::empty());
                    }
                    assert(out@ =~= start + json_expr_items(s));
                }
                i = i + 1;
            }
            proof {
                assert(f.args@.subrange(0, f.args@.len() as int) =~= f.args@);
            }
            push_str(out, "],\"period_seconds\":");
            write_opt_u64(out, f.period_seconds);
            push_str(out, "}");
        },
        Expression::Binary(b) => {
            push_str(out, "{\"expr_type\":\"Binary\",\"left\":");
            write_expr(out, &b.left);
            push_str(out, ",\"operator\":");
            write_escaped(out, binary_str(b.operator));
            push_str(out, ",\"right\":");
            write_expr(out, &b.right);
            push_str(out, "}");
        },
    }
    proof {
        assert(final(out)@ =~= old(out)@ + json_expr(*e));
    }
}

#[verifier::rlimit(60)]
fn write_cond(out: &mut String, c: &Condition)
    ensures
        final(out)@ == old(out)@ + json_cond(*c),
    decreases c,
{
    match c {
        Condition::Comparison(cmp) => {
            push_str(out, "{\"type\":\"Comparison\",\"left\":");
            write_expr(out, &cmp.left);
            push_str(out, ",\"operator\":");
            write_escaped(out, comparison_str(cmp.operator));
            push_str(out, ",\"right\":");
            write_expr(out, &cmp.right);
            push_str(out, "}");
        },
        Condition::Logical(l) => {
            push_str(out, "{\"type\":\"Logical\",\"operator\":");
            write_escaped(out, logical_str(l.operator));
            push_str(out, ",\"conditions\":[");
            let ghost start = out@;
            let mut i: usize = 0;
            while i < l.conditions.len()
                invariant
                    i <= l.conditions@.len(),
                    *c is Logical,
                    (*c)->Logical_0 == *l,
                    out@ == start + json_cond_items(l.conditions@.subrange(0, i as int)),
                decreases l.conditions@.len() - i,
            {
                proof {
                    assert(decreases_to!(*c => (*c)->Logical_0));
                    assert(decreases_to!(*l => l.conditions));
                    assert(decreases_to!(l.conditions => l.conditions@));
                    assert(decreases_to!(l.conditions@ => l.conditions@[i as int]));
                    let s = l.conditions@.subrange(0, i + 1);
                    assert(s.subrange(0, s.len() - 1) =~= l.conditions@.subrange(0, i as int));
                    assert(s[s.len() - 1] == l.conditions@[i as int]);
                }
                if i > 0 {
                    push_str(out, ",");
                }
                write_cond(out, &l.conditions[i]);
                proof {
                    let s = l.conditions@.subrange(0, i + 1);
                    if i == 0 {
                        assert(s.len() == 1);
                        assert(json_cond_items(l.conditions@.subrange(0, 0)) == Seq::<char>::empty());
                    }
                    assert(out@ =~= start + json_cond_items(s));
                }
                i = i + 1;
            }
            proof {
                assert(l.conditions@.subrange(0, l.conditions@.len() as int) =~= l.conditions@);
            }
            push_str(out, "]}");
        },
        Condition::Trend(t) => {
            push_str(out, "{\"type\":\"Trend\",\"metric\":");
            write_escaped(out, t.metric.as_str());
            push_str(out, ",\"direction\":");
            write_escaped(out, direction_str(t.direction));
            push_str(out, ",\"threshold_per_hour\":");
            match t.threshold_per_hour {
                Some(d) => write_decimal(out, d),
                None => push_str(out, "null"),
            }
            push_str(out, "}");
        },
        Condition::Anomaly(a) => {
            push_str(out, "{\"type\":\"Anomaly\",\"metric\":");
            write_escaped(out, a.metric.as_str());
            push_str(out, ",\"period_seconds\":");
            push_digits(out, a.period_seconds);
            push_str(out, ",\"sensitivity\":");
            write_decimal(out, a.sensitivity);
            push_str(out, "}");
        },
        Condition::TimeWindow(w) => {
            push_str(out, "{\"type\":\"TimeWindow\",\"start\":");
            write_tod(out, &w.start);
            push_str(out, ",\"end\":");
            write_tod(out, &w.end);
            push_str(out, "}");
        },
    }
    proof {
        assert(final(out)@ =~= old(out)@ + json_cond(*c));
    }
}


pub open spec fn json_schedule(sc: Schedule) -> Seq<char> {
    match sc {
        Schedule::Interval(iv) => "{\"schedule_type\":\"Interval\",\"interval_seconds\":"@
            + digits_of(iv.interval_seconds as nat) + "}"@,
        Schedule::Calendar(cal) => "{\"schedule_type\":\"Calendar\",\"frequency\":"@ + json_str(
            frequency_name(cal.frequency),
        ) + ",\"at\":"@ + json_tod(cal.at) + ",\"on\":"@ + match cal.on {
            Some(d) => digits_of(d as nat),
            None => "null"@,
        } + "}"@,
        Schedule::Cron(cr) => "{\"schedule_type\":\"Cron\",\"expression\":"@ + json_str(
            cr.expression@,
        ) + "}"@,
    }
}

pub open spec fn json_part(p: TemplatePart) -> Seq<char> {
    match p {
        TemplatePart::Text { text } => "{\"part_type\":\"Text\",\"text\":"@ + json_str(text@) + "}"@,
        TemplatePart::Expression { expr } => "{\"part_type\":\"Expression\",\"expr\":"@ + json_expr(
            expr,
        ) + "}"@,
    }
}

pub open spec fn json_part_items(ps: Seq<TemplatePart>) -> Seq<char>
    decreases ps.len(),
{
    if ps.len() == 0 {
        Seq::empty()
    } else if ps.len() == 1 {
        json_part(ps[0])
    } else {
        json_part_items(ps.drop_last()) + ","@ + json_part(ps.last())
    }
}

pub open spec fn json_template(t: TemplateString) -> Seq<char> {
    "{\"parts\":["@ + json_part_items(t.parts@) + "]}"@
}

pub open spec fn json_str_items(ss: Seq<Seq<char>>) -> Seq<char>
    decreases ss.len(),
{
    if ss.len() == 0 {
        Seq::empty()
    } else if ss.len() == 1 {
        json_str(ss[0])
    } else {
        json_str_items(ss.drop_last()) + ","@ + json_str(ss.last())
    }
}

fn write_schedule(out: &mut String, sc: &Schedule)
    ensures
        final(out)@ == old(out)@ + json_schedule(*sc),
{
    match sc {
        Schedule::Interval(iv) => {
            push_str(out, "{\"schedule_type\":\"Interval\",\"interval_seconds\":");
            push_digits(out, iv.interval_seconds);
            push_str(out, "}");
        },
        Schedule::Calendar(cal) => {
            push_str(out, "{\"schedule_type\":\"Calendar\",\"frequency\":");
            write_escaped(out, frequency_str(cal.frequency));
            push_str(out, ",\"at\":");
            write_tod(out, &cal.at);
            push_str(out, ",\"on\":");
            match cal.on {
                Some(d) => push_digits(out, d as u64),
                None => push_str(out, "null"),
            }
            push_str(out, "}");
        },
        Schedule::Cron(cr) => {
            push_str(out, "{\"schedule_type\":\"Cron\",\"expression\":");
            write_escaped(out, cr.expression.as_str());
            push_str(out, "}");
        },
    }
    proof {
        assert(final(out)@ =~= old(out)@ + json_schedule(*sc));
    }
}

fn write_template(out: &mut String, t: &TemplateString)
    ensures
        final(out)@ == old(out)@ + json_template(*t),
{
    push_str(out, "{\"parts\":[");
    let ghost start = out@;
    let mut i: usize = 0;
    while i < t.parts.len()
        invariant
            i <= t.parts@.len(),
            out@ == start + json_part_items(t.parts@.take(i as int)),
        decreases t.parts@.len() - i,
    {
        if i > 0 {
            push_str(out, ",");
        }
        match &t.parts[i] {
            TemplatePart::Text { text } => {
                push_str(out, "{\"part_type\":\"Text\",\"text\":");
                write_escaped(out, text.as_str());
                push_str(out, "}");
            },
            TemplatePart::Expression { expr } => {
                push_str(out, "{\"part_type\":\"Expression\",\"expr\":");
                write_expr(out, expr);
                push_str(out, "}");
            },
        }
        proof {
            let s = t.parts@.take(i + 1);
            assert(s.drop_last() =~= t.parts@.take(i as int));
            if i == 0 {
                assert(s.len() == 1);
                assert(json_part_items(t.parts@.take(0)) == Seq::<char>::empty());
            }
            assert(out@ =~= start + json_part_items(s));
        }
        i = i + 1;
    }
    proof {
        assert(t.parts@.take(t.parts@.len() as int) =~= t.parts@);
    }
    push_str(out, "]}");
    proof {
        assert(final(out)@ =~= old(out)@ + json_template(*t));
    }
}

pub open spec fn channel_name(c: NotifyChannel) -> Seq<char> {
    match c {
        NotifyChannel::Push => "push"@,
        NotifyChannel::Email => "email"@,
        NotifyChannel::Sms => "sms"@,
    }
}

pub open spec fn priority_name(p: NotifyPriority) -> Seq<char> {
    match p {
        NotifyPriority::Low => "low"@,
        NotifyPriority::Normal => "normal"@,
        NotifyPriority::High => "high"@,
        NotifyPriority::Critical => "critical"@,
    }
}

pub open spec fn method_name(m: HttpMethod) -> Seq<char> {
    match m {
        HttpMethod::Get => "GET"@,
        HttpMethod::Post => "POST"@,
        HttpMethod::Put => "PUT"@,
        HttpMethod::Delete => "DELETE"@,
    }
}

pub open spec fn level_name(l: LogLevel) -> Seq<char> {
    match l {
        LogLevel::Info => "info"@,
        LogLevel::Warn => "warn"@,
        LogLevel::Error => "error"@,
    }
}

pub open spec fn json_opt_name(o: Option<Seq<char>>) -> Seq<char> {
    match o {
        Some(n) => json_str(n),
        None => "null"@,
    }
}

pub open spec fn json_header(h: (String, String)) -> Seq<char> {
    "["@ + json_str(h.0@) + ","@ + json_str(h.1@) + "]"@
}

pub open spec fn json_header_items(hs: Seq<(String, String)>) -> Seq<char>
    decreases hs.len(),
{
    if hs.len() == 0 {
        Seq::empty()
    } else if hs.len() == 1 {
        json_header(hs[0])
    } else {
        json_header_items(hs.drop_last()) + ","@ + json_header(hs.last())
    }
}

pub open spec fn json_notify_config(n: NotifyAction) -> Seq<char> {
    "{\"message\":"@ + json_template(n.message) + ",\"channel\":"@ + json_opt_name(
        match n.channel {
            Some(c) => Some(channel_name(c)),
            None => None,
        },
    ) + ",\"priority\":"@ + json_opt_name(
        match n.priority {
            Some(p) => Some(priority_name(p)),
            None => None,
        },
    ) + "}"@
}

pub open spec fn json_headers(hs: Seq<(String, String)>) -> Seq<char> {
    "["@ + json_header_items(hs) + "]"@
}

pub open spec fn json_opt_headers(hs: Option<Vec<(String, String)>>) -> Seq<char> {
    match hs {
        Some(hs) => json_headers(hs@),
        None => "null"@,
    }
}

pub open spec fn json_opt_template(t: Option<TemplateString>) -> Seq<char> {
    match t {
        Some(b) => json_template(b),
        None => "null"@,
    }
}

pub open spec fn json_opt_method(m: Option<HttpMethod>) -> Seq<char> {
    json_opt_name(
        match m {
            Some(m) => Some(method_name(m)),
            None => None,
        },
    )
}

pub open spec fn json_webhook_config(w: WebhookAction) -> Seq<char> {
    "{\"url\":"@ + json_str(w.url@) + ",\"method\":"@ + json_opt_method(w.method) + ",\"headers\":"@
        + json_opt_headers(w.headers) + ",\"body\":"@ + json_opt_template(w.body) + "}"@
}

pub open spec fn json_log_config(l: LogAction) -> Seq<char> {
    "{\"message\":"@ + json_template(l.message) + ",\"level\":"@ + json_opt_name(
        match l.level {
            Some(v) => Some(level_name(v)),
            None => None,
        },
    ) + "}"@
}

/// The configuration object of an action.
pub open spec fn json_config(a: Action) -> Seq<char> {
    match a {
        Action::Notify(n) => json_notify_config(n),
        Action::Webhook(w) => json_webhook_config(w),
        Action::Log(l) => json_log_config(l),
        Action::SetVariable(sv) => "{\"name\":"@ + json_str(sv.name@) + ",\"value\":"@ + json_expr(
            sv.value,
        ) + "}"@,
    }
}

fn write_opt_name(out: &mut String, o: Option<&str>)
    ensures
        final(out)@ == old(out)@ + json_opt_name(
            match o {
                Some(n) => Some(n@),
                None => None,
            },
        ),
{
    match o {
        Some(n) => write_escaped(out, n),
        None => push_str(out, "null"),
    }
}

fn write_notify_config(out: &mut String, n: &NotifyAction)
    ensures
        final(out)@ == old(out)@ + json_notify_config(*n),
{
    push_str(out, "{\"message\":");
    write_template(out, &n.message);
    push_str(out, ",\"channel\":");
    write_opt_name(
        out,
        match n.channel {
            Some(NotifyChannel::Push) => Some("push"),
            Some(NotifyChannel::Email) => Some("email"),
            Some(NotifyChannel::Sms) => Some("sms"),
            None => None,
        },
    );
    push_str(out, ",\"priority\":");
    write_opt_name(
        out,
        match n.priority {
            Some(NotifyPriority::Low) => Some("low"),
            Some(NotifyPriority::Normal) => Some("normal"),
            Some(NotifyPriority::High) => Some("high"),
            Some(NotifyPriority::Critical) => Some("critical"),
            None => None,
        },
    );
    push_str(out, "}");
    proof {
        assert(final(out)@ =~= old(out)@ + json_notify_config(*n));
    }
}

fn write_headers(out: &mut String, hs: &Vec<(String, String)>)
    ensures
        final(out)@ == old(out)@ + json_headers(hs@),
{
    push_str(out, "[");
    let ghost start = out@;
    let mut i: usize = 0;
    while i < hs.len()
        invariant
            i <= hs@.len(),
            out@ == start + json_header_items(hs@.take(i as int)),
        decreases hs@.len() - i,
    {
        if i > 0 {
            push_str(out, ",");
        }
        push_str(out, "[");
        write_escaped(out, hs[i].0.as_str());
        push_str(out, ",");
        write_escaped(out, hs[i].1.as_str());
        push_str(out, "]");
        proof {
            let s = hs@.take(i + 1);
            assert(s.drop_last() =~= hs@.take(i as int));
            if i == 0 {
                assert(s.len() == 1);
                assert(json_header_items(hs@.take(0)) == Seq::<char>::empty());
            }
            assert(out@ =~= start + json_header_items(s));
        }
        i = i + 1;
    }
    proof {
        assert(hs@.take(hs@.len() as int) =~= hs@);
    }
    push_str(out, "]");
    proof {
        assert(final(out)@ =~= old(out)@ + json_headers(hs@));
    }
}

fn write_opt_method(out: &mut String, m: Option<HttpMethod>)
    ensures
        final(out)@ == old(out)@ + json_opt_method(m),
{
    write_opt_name(
        out,
        match m {
            Some(HttpMethod::Get) => Some("GET"),
            Some(HttpMethod::Post) => Some("POST"),
            Some(HttpMethod::Put) => Some("PUT"),
            Some(HttpMethod::Delete) => Some("DELETE"),
            None => None,
        },
    );
}

fn write_webhook_config(out: &mut String, w: &WebhookAction)
    ensures
        final(out)@ == old(out)@ + json_webhook_config(*w),
{
    push_str(out, "{\"url\":");
    write_escaped(out, w.url.as_str());
    push_str(out, ",\"method\":");
    write_opt_method(out, w.method);
    push_str(out, ",\"headers\":");
    let ghost before_headers = out@;
    match &w.headers {
        Some(hs) => write_headers(out, hs),
        None => push_str(out, "null"),
    }
    assert(out@ == before_headers + json_opt_headers(w.headers));
    push_str(out, ",\"body\":");
    let ghost before_body = out@;
    match &w.body {
        Some(b) => write_template(out, b),
        None => push_str(out, "null"),
    }
    assert(out@ == before_body + json_opt_template(w.body));
    push_str(out, "}");
    proof {
        assert(final(out)@ =~= old(out)@ + json_webhook_config(*w));
    }
}

fn write_log_config(out: &mut String, l: &LogAction)
    ensures
        final(out)@ == old(out)@ + json_log_config(*l),
{
    push_str(out, "{\"message\":");
    write_template(out, &l.message);
    push_str(out, ",\"level\":");
    write_opt_name(
        out,
        match l.level {
            Some(LogLevel::Info) => Some("info"),
            Some(LogLevel::Warn) => Some("warn"),
            Some(LogLevel::Error) => Some("error"),
            None => None,
        },
    );
    push_str(out, "}");
    proof {
        assert(final(out)@ =~= old(out)@ + json_log_config(*l));
    }
}

fn write_config(out: &mut String, a: &Action)
    ensures
        final(out)@ == old(out)@ + json_config(*a),
{
    match a {
        Action::Notify(n) => write_notify_config(out, n),
        Action::Webhook(w) => write_webhook_config(out, w),
        Action::Log(l) => write_log_config(out, l),
        Action::SetVariable(sv) => {
            push_str(out, "{\"name\":");
            write_escaped(out, sv.name.as_str());
            push_str(out, ",\"value\":");
            write_expr(out, &sv.value);
            push_str(out, "}");
            proof {
                assert(final(out)@ =~= old(out)@ + json_config(*a));
            }
        },
    }
}

fn write_strings(out: &mut String, ss: &Vec<String>)
    ensures
        final(out)@ == old(out)@ + "["@ + json_str_items(ss@.map_values(|s: String| s@)) + "]"@,
{
    push_str(out, "[");
    let ghost start = out@;
    let ghost views = ss@.map_values(|s: String| s@);
    let mut i: usize = 0;
    while i < ss.len()
        invariant
            i <= ss@.len(),
            views == ss@.map_values(|s: String| s@),
            out@ == start + json_str_items(views.take(i as int)),
        decreases ss@.len() - i,
    {
        if i > 0 {
            push_str(out, ",");
        }
        write_escaped(out, ss[i].as_str());
        proof {
            let s = views.take(i + 1);
            assert(s.drop_last() =~= views.take(i as int));
            if i == 0 {
                assert(s.len() == 1);
                assert(json_str_items(views.take(0)) == Seq::<char>::empty());
            }
            assert(out@ =~= start + json_str_items(s));
        }
        i = i + 1;
    }
    proof {
        assert(views.take(views.len() as int) =~= views);
    }
    push_str(out, "]");
    proof {
        assert(final(out)@ =~= old(out)@ + "["@ + json_str_items(ss@.map_values(|s: String| s@)) + "]"@);
    }
}

pub open spec fn json_action(a: CompiledAction) -> Seq<char> {
    "{\"action_type\":"@ + json_str(a.action_type@) + ",\"config\":"@ + json_config(a.config)
        + ",\"template_vars\":"@ + "["@ + json_str_items(a.template_vars@.map_values(|s: String| s@))
        + "]"@ + "}"@
}

pub open spec fn json_rule_type(t: CompiledRuleType) -> Seq<char> {
    match t {
        CompiledRuleType::Event { condition } => "{\"type\":\"Event\",\"condition\":"@ + json_cond(
            condition,
        ) + "}"@,
        CompiledRuleType::Schedule { schedule } => "{\"type\":\"Schedule\",\"schedule\":"@
            + json_schedule(schedule) + "}"@,
    }
}

pub open spec fn json_metric(m: Metric) -> Seq<char> {
    json_str(m.name())
}

pub open spec fn json_variable(v: CompiledVariable) -> Seq<char> {
    "{\"name\":"@ + json_str(v.name@) + ",\"value\":"@ + json_decimal(v.value) + ",\"original\":"@
        + json_value(v.original) + "}"@
}

pub open spec fn json_action_items(xs: Seq<CompiledAction>) -> Seq<char>
    decreases xs.len(),
{
    if xs.len() == 0 {
        Seq::empty()
    } else if xs.len() == 1 {
        json_action(xs[0])
    } else {
        json_action_items(xs.drop_last()) + ","@ + json_action(xs.last())
    }
}

pub open spec fn json_rule(r: CompiledRule) -> Seq<char> {
    "{\"id\":"@ + json_str(r.id@) + ",\"name\":"@ + json_opt_str(r.name) + ",\"rule_type\":"@
        + json_rule_type(r.rule_type) + ",\"enabled\":"@ + json_bool(r.enabled) + ",\"actions\":"@
        + "["@ + json_action_items(r.actions@) + "]"@ + ",\"cooldown_seconds\":"@ + json_opt_u64(
        r.cooldown_seconds,
    ) + "}"@
}

pub open spec fn json_rule_items(xs: Seq<CompiledRule>) -> Seq<char>
    decreases xs.len(),
{
    if xs.len() == 0 {
        Seq::empty()
    } else if xs.len() == 1 {
        json_rule(xs[0])
    } else {
        json_rule_items(xs.drop_last()) + ","@ + json_rule(xs.last())
    }
}

pub open spec fn json_variable_items(xs: Seq<CompiledVariable>) -> Seq<char>
    decreases xs.len(),
{
    if xs.len() == 0 {
        Seq::empty()
    } else if xs.len() == 1 {
        json_variable(xs[0])
    } else {
        json_variable_items(xs.drop_last()) + ","@ + json_variable(xs.last())
    }
}

pub open spec fn json_metric_items(xs: Seq<Metric>) -> Seq<char>
    decreases xs.len(),
{
    if xs.len() == 0 {
        Seq::empty()
    } else if xs.len() == 1 {
        json_metric(xs[0])
    } else {
        json_metric_items(xs.drop_last()) + ","@ + json_metric(xs.last())
    }
}

/// The program image: a JSON object with the version, compile time,
/// checksum, variables, rules, required metrics and history needs.
pub open spec fn json_program(c: CompiledProgram) -> Seq<char> {
    "{\"version\":"@ + json_str(c.version@) + ",\"compiled_at\":"@ + json_str(c.compiled_at@)
        + ",\"checksum\":"@ + json_str(c.checksum@) + ",\"variables\":"@ + "["@ + json_variable_items(
        c.variables@,
    ) + "]"@ + ",\"rules\":"@ + "["@ + json_rule_items(c.rules@) + "]"@ + ",\"required_metrics\":"@
        + "["@ + json_metric_items(c.required_metrics@) + "]"@ + ",\"requires_history\":"@
        + json_bool(c.requires_history) + ",\"max_history_seconds\":"@ + json_opt_u64(
        c.max_history_seconds,
    ) + "}"@
}

fn write_bool(out: &mut String, b: bool)
    ensures
        final(out)@ == old(out)@ + json_bool(b),
{
    if b {
        push_str(out, "true");
    } else {
        push_str(out, "false");
    }
}

fn write_opt_str(out: &mut String, o: &Option<String>)
    ensures
        final(out)@ == old(out)@ + json_opt_str(*o),
{
    match o {
        Some(t) => write_escaped(out, t.as_str()),
        None => push_str(out, "null"),
    }
}

fn write_action(out: &mut String, a: &CompiledAction)
    ensures
        final(out)@ == old(out)@ + json_action(*a),
{
    push_str(out, "{\"action_type\":");
    write_escaped(out, a.action_type.as_str());
    push_str(out, ",\"config\":");
    write_config(out, &a.config);
    push_str(out, ",\"template_vars\":");
    write_strings(out, &a.template_vars);
    push_str(out, "}");
    proof {
        assert(final(out)@ =~= old(out)@ + json_action(*a));
    }
}

fn write_rule_type(out: &mut String, t: &CompiledRuleType)
    ensures
        final(out)@ == old(out)@ + json_rule_type(*t),
{
    match t {
        CompiledRuleType::Event { condition } => {
            push_str(out, "{\"type\":\"Event\",\"condition\":");
            write_cond(out, condition);
            push_str(out, "}");
        },
        CompiledRuleType::Schedule { schedule } => {
            push_str(out, "{\"type\":\"Schedule\",\"schedule\":");
            write_schedule(out, schedule);
            push_str(out, "}");
        },
    }
    proof {
        assert(final(out)@ =~= old(out)@ + json_rule_type(*t));
    }
}

fn write_metric(out: &mut String, m: &Metric)
    ensures
        final(out)@ == old(out)@ + json_metric(*m),
{
    write_escaped(out, m.as_str());
}

fn write_variable(out: &mut String, v: &CompiledVariable)
    ensures
        final(out)@ == old(out)@ + json_variable(*v),
{
    push_str(out, "{\"name\":");
    write_escaped(out, v.name.as_str());
    push_str(out, ",\"value\":");
    write_decimal(out, v.value);
    push_str(out, ",\"original\":");
    write_value(out, &v.original);
    push_str(out, "}");
    proof {
        assert(final(out)@ =~= old(out)@ + json_variable(*v));
    }
}

fn write_actions(out: &mut String, xs: &Vec<CompiledAction>)
    ensures
        final(out)@ == old(out)@ + "["@ + json_action_items(xs@) + "]"@,
{
    push_str(out, "[");
    let ghost start = out@;
    let mut i: usize = 0;
    while i < xs.len()
        invariant
            i <= xs@.len(),
            out@ == start + json_action_items(xs@.take(i as int)),
        decreases xs@.len() - i,
    {
        if i > 0 {
            push_str(out, ",");
        }
        write_action(out, &xs[i]);
        proof {
            let s = xs@.take(i + 1);
            assert(s.drop_last() =~= xs@.take(i as int));
            if i == 0 {
                assert(s.len() == 1);
                assert(json_action_items(xs@.take(0)) == Seq::<char>::empty());
            }
            assert(out@ =~= start + json_action_items(s));
        }
        i = i + 1;
    }
    proof {
        assert(xs@.take(xs@.len() as int) =~= xs@);
    }
    push_str(out, "]");
    proof {
        assert(final(out)@ =~= old(out)@ + "["@ + json_action_items(xs@) + "]"@);
    }
}

fn write_rule(out: &mut String, r: &CompiledRule)
    ensures
        final(out)@ == old(out)@ + json_rule(*r),
{
    push_str(out, "{\"id\":");
    write_escaped(out, r.id.as_str());
    push_str(out, ",\"name\":");
    write_opt_str(out, &r.name);
    push_str(out, ",\"rule_type\":");
    write_rule_type(out, &r.rule_type);
    push_str(out, ",\"enabled\":");
    write_bool(out, r.enabled);
    push_str(out, ",\"actions\":");
    write_actions(out, &r.actions);
    push_str(out, ",\"cooldown_seconds\":");
    write_opt_u64(out, r.cooldown_seconds);
    push_str(out, "}");
    proof {
        assert(final(out)@ =~= old(out)@ + json_rule(*r));
    }
}

fn write_rules(out: &mut String, xs: &Vec<CompiledRule>)
    ensures
        final(out)@ == old(out)@ + "["@ + json_rule_items(xs@) + "]"@,
{
    push_str(out, "[");
    let ghost start = out@;
    let mut i: usize = 0;
    while i < xs.len()
        invariant
            i <= xs@.len(),
            out@ == start + json_rule_items(xs@.take(i as int)),
        decreases xs@.len() - i,
    {
        if i > 0 {
            push_str(out, ",");
        }
        write_rule(out, &xs[i]);
        proof {
            let s = xs@.take(i + 1);
            assert(s.drop_last() =~= xs@.take(i as int));
            if i == 0 {
                assert(s.len() == 1);
                assert(json_rule_items(xs@.take(0)) == Seq::<char>::empty());
            }
            assert(out@ =~= start + json_rule_items(s));
        }
        i = i + 1;
    }
    proof {
        assert(xs@.take(xs@.len() as int) =~= xs@);
    }
    push_str(out, "]");
    proof {
        assert(final(out)@ =~= old(out)@ + "["@ + json_rule_items(xs@) + "]"@);
    }
}

fn write_variables(out: &mut String, xs: &Vec<CompiledVariable>)
    ensures
        final(out)@ == old(out)@ + "["@ + json_variable_items(xs@) + "]"@,
{
    push_str(out, "[");
    let ghost start = out@;
    let mut i: usize = 0;
    while i < xs.len()
        invariant
            i <= xs@.len(),
            out@ == start + json_variable_items(xs@.take(i as int)),
        decreases xs@.len() - i,
    {
        if i > 0 {
            push_str(out, ",");
        }
        write_variable(out, &xs[i]);
        proof {
            let s = xs@.take(i + 1);
            assert(s.drop_last() =~= xs@.take(i as int));
            if i == 0 {
                assert(s.len() == 1);
                assert(json_variable_items(xs@.take(0)) == Seq::<char>::empty());
            }
            assert(out@ =~= start + json_variable_items(s));
        }
        i = i + 1;
    }
    proof {
        assert(xs@.take(xs@.len() as int) =~= xs@);
    }
    push_str(out, "]");
    proof {
        assert(final(out)@ =~= old(out)@ + "["@ + json_variable_items(xs@) + "]"@);
    }
}

fn write_metrics(out: &mut String, xs: &Vec<Metric>)
    ensures
        final(out)@ == old(out)@ + "["@ + json_metric_items(xs@) + "]"@,
{
    push_str(out, "[");
    let ghost start = out@;
    let mut i: usize = 0;
    while i < xs.len()
        invariant
            i <= xs@.len(),
            out@ == start + json_metric_items(xs@.take(i as int)),
        decreases xs@.len() - i,
    {
        if i > 0 {
            push_str(out, ",");
        }
        write_metric(out, &xs[i]);
        proof {
            let s = xs@.take(i + 1);
            assert(s.drop_last() =~= xs@.take(i as int));
            if i == 0 {
                assert(s.len() == 1);
                assert(json_metric_items(xs@.take(0)) == Seq::<char>::empty());
            }
            assert(out@ =~= start + json_metric_items(s));
        }
        i = i + 1;
    }
    proof {
        assert(xs@.take(xs@.len() as int) =~= xs@);
    }
    push_str(out, "]");
    proof {
        assert(final(out)@ =~= old(out)@ + "["@ + json_metric_items(xs@) + "]"@);
    }
}

/// The JSON text of a program image.
pub fn program_json(c: &CompiledProgram) -> (r: String)
    ensures
        r@ == json_program(*c),
{
    let mut out = String::new();
    push_str(&mut out, "{\"version\":");
    write_escaped(&mut out, c.version.as_str());
    push_str(&mut out, ",\"compiled_at\":");
    write_escaped(&mut out, c.compiled_at.as_str());
    push_str(&mut out, ",\"checksum\":");
    write_escaped(&mut out, c.checksum.as_str());
    push_str(&mut out, ",\"variables\":");
    write_variables(&mut out, &c.variables);
    push_str(&mut out, ",\"rules\":");
    write_rules(&mut out, &c.rules);
    push_str(&mut out, ",\"required_metrics\":");
    write_metrics(&mut out, &c.required_metrics);
    push_str(&mut out, ",\"requires_history\":");
    write_bool(&mut out, c.requires_history);
    push_str(&mut out, ",\"max_history_seconds\":");
    write_opt_u64(&mut out, c.max_history_seconds);
    push_str(&mut out, "}");
    proof {
        assert(out@ =~= json_program(*c));
    }
    out
}

} // verus!
