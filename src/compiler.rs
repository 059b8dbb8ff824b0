//! The compiler: a parsed program to its self-describing image, with the
//! metrics it reads and the history window it needs.

use vstd::prelude::*;
use crate::ast::{
    Decimal, Value, Program, Variable, Rule, EventRule, ScheduleRule, Condition, Expression, Metric,
    Action, TemplateString, TemplatePart, CompiledProgram, CompiledVariable, CompiledRule,
    CompiledRuleType, CompiledAction, copy_condition, copy_value,
};
use crate::text::{digits_of, u64_to_string};
use crate::error::SELError;
use crate::json::{json_program, program_json};
use std::hash::{Hash, Hasher};

verus! {

/// Metrics an expression reads, aggregate arguments included.
pub open spec fn expr_metrics(e: Expression) -> Set<Metric>
    decreases e,
{
    match e {
        Expression::Metric(m) => set![m.metric],
        Expression::Function(f) => args_metrics(f.args@),
        Expression::Binary(b) => expr_metrics(*b.left).union(expr_metrics(*b.right)),
        _ => Set::empty(),
    }
}

pub open spec fn args_metrics(args: Seq<Expression>) -> Set<Metric>
    decreases args,
{
    if args.len() == 0 {
        Set::empty()
    } else {
        args_metrics(args.subrange(0, args.len() - 1)).union(expr_metrics(args[args.len() - 1]))
    }
}

/// Metrics a condition reads.
pub open spec fn cond_metrics(c: Condition) -> Set<Metric>
    decreases c,
{
    match c {
        Condition::Comparison(cmp) => expr_metrics(cmp.left).union(expr_metrics(cmp.right)),
        Condition::Logical(l) => conds_metrics(l.conditions@),
        Condition::Trend(t) => set![t.metric],
        Condition::Anomaly(a) => set![a.metric],
        Condition::TimeWindow(_) => Set::empty(),
    }
}

pub open spec fn conds_metrics(cs: Seq<Condition>) -> Set<Metric>
    decreases cs,
{
    if cs.len() == 0 {
        Set::empty()
    } else {
        conds_metrics(cs.subrange(0, cs.len() - 1)).union(cond_metrics(cs[cs.len() - 1]))
    }
}

pub open spec fn max_nat(a: nat, b: nat) -> nat {
    if a >= b { a } else { b }
}

/// The longest aggregate period an expression asks for.
pub open spec fn expr_window(e: Expression) -> nat
    decreases e,
{
    match e {
        Expression::Function(f) => max_nat(
            args_window(f.args@),
            match f.period_seconds {
                Some(p) => p as nat,
                None => 0,
            },
        ),
        Expression::Binary(b) => max_nat(expr_window(*b.left), expr_window(*b.right)),
        _ => 0,
    }
}

pub open spec fn args_window(args: Seq<Expression>) -> nat
    decreases args,
{
    if args.len() == 0 {
        0
    } else {
        max_nat(args_window(args.subrange(0, args.len() - 1)), expr_window(args[args.len() - 1]))
    }
}

/// The history window a condition needs: aggregate and anomaly periods,
/// and an hour for a trend.
pub open spec fn cond_window(c: Condition) -> nat
    decreases c,
{
    match c {
        Condition::Comparison(cmp) => max_nat(expr_window(cmp.left), expr_window(cmp.right)),
        Condition::Logical(l) => conds_window(l.conditions@),
        Condition::Trend(_) => 3600,
        Condition::Anomaly(a) => a.period_seconds as nat,
        Condition::TimeWindow(_) => 0,
    }
}

pub open spec fn conds_window(cs: Seq<Condition>) -> nat
    decreases cs,
{
    if cs.len() == 0 {
        0
    } else {
        max_nat(conds_window(cs.subrange(0, cs.len() - 1)), cond_window(cs[cs.len() - 1]))
    }
}

pub open spec fn rule_metrics(r: Rule) -> Set<Metric> {
    match r {
        Rule::Event(e) => cond_metrics(e.condition),
        Rule::Schedule(_) => Set::empty(),
    }
}

pub open spec fn rule_window(r: Rule) -> nat {
    match r {
        Rule::Event(e) => cond_window(e.condition),
        Rule::Schedule(_) => 0,
    }
}

/// Metrics read by the conditions of a program's rules.
pub open spec fn rules_metrics(rs: Seq<Rule>) -> Set<Metric>
    decreases rs.len(),
{
    if rs.len() == 0 {
        Set::empty()
    } else {
        rules_metrics(rs.drop_last()).union(rule_metrics(rs.last()))
    }
}

/// The history window a program's rules need.
pub open spec fn rules_window(rs: Seq<Rule>) -> nat
    decreases rs.len(),
{
    if rs.len() == 0 {
        0
    } else {
        max_nat(rules_window(rs.drop_last()), rule_window(rs.last()))
    }
}


/// Names a template expression mentions: variables and metrics, in order.
pub open spec fn expr_names(e: Expression) -> Seq<Seq<char>>
    decreases e,
{
    match e {
        Expression::Variable(v) => seq![v.name@],
        Expression::Metric(m) => seq![m.metric.name()],
        Expression::Binary(b) => expr_names(*b.left) + expr_names(*b.right),
        Expression::Function(f) => args_names(f.args@),
        Expression::Literal(_) => Seq::empty(),
    }
}

pub open spec fn args_names(args: Seq<Expression>) -> Seq<Seq<char>>
    decreases args,
{
    if args.len() == 0 {
        Seq::empty()
    } else {
        args_names(args.subrange(0, args.len() - 1)) + expr_names(args[args.len() - 1])
    }
}

/// Names mentioned by the expression parts of a template, in order.
pub open spec fn template_names(parts: Seq<TemplatePart>) -> Seq<Seq<char>>
    decreases parts.len(),
{
    if parts.len() == 0 {
        Seq::empty()
    } else {
        template_names(parts.drop_last()) + match parts.last() {
            TemplatePart::Expression { expr } => expr_names(expr),
            TemplatePart::Text { .. } => Seq::empty(),
        }
    }
}

/// A variable's value in base units, as the program image records it:
/// percentages become fractions of one, times minutes after midnight.
pub open spec fn normalized(v: Value) -> Decimal {
    match v {
        Value::Number(n) => n,
        Value::Percent(p) => Decimal {
            mantissa: p.mantissa,
            scale: if p.scale <= u32::MAX - 2 { (p.scale + 2) as u32 } else { u32::MAX },
        },
        Value::Power { watts } => watts,
        Value::Energy { watt_hours } => watt_hours,
        Value::Duration { seconds } => Decimal { mantissa: seconds as i128, scale: 0 },
        Value::Time { hour, minute } => Decimal { mantissa: (hour * 60 + minute) as i128, scale: 0 },
        Value::TimeRange { start, end } => Decimal {
            mantissa: ((end.hour * 60 + end.minute) - (start.hour * 60 + start.minute)) as i128,
            scale: 0,
        },
        Value::String(_) => Decimal { mantissa: 0, scale: 0 },
    }
}

pub open spec fn action_type_spec(a: Action) -> Seq<char> {
    match a {
        Action::Notify(_) => "notify"@,
        Action::Webhook(_) => "webhook"@,
        Action::Log(_) => "log"@,
        Action::SetVariable(_) => "set_variable"@,
    }
}

/// Names the templates of an action mention.
pub open spec fn action_names(a: Action) -> Seq<Seq<char>> {
    match a {
        Action::Notify(n) => template_names(n.message.parts@),
        Action::Webhook(w) => match w.body {
            Some(b) => template_names(b.parts@),
            None => Seq::empty(),
        },
        Action::Log(l) => template_names(l.message.parts@),
        Action::SetVariable(_) => Seq::empty(),
    }
}

pub open spec fn string_views(v: Seq<String>) -> Seq<Seq<char>> {
    v.map_values(|s: String| s@)
}

/// Collects the metrics a program reads and the history it needs.
pub struct Compiler {
    required_metrics: Vec<Metric>,
    max_history_seconds: u64,
}

impl Compiler {
    pub closed spec fn metrics(&self) -> Set<Metric> {
        self.required_metrics@.to_set()
    }

    pub closed spec fn unique(&self) -> bool {
        self.required_metrics@.no_duplicates()
    }

    pub closed spec fn window(&self) -> nat {
        self.max_history_seconds as nat
    }

    pub fn new() -> (r: Self)
        ensures
            r.metrics() == Set::<Metric>::empty(),
            r.unique(),
            r.window() == 0,
    {
        let r = Compiler { required_metrics: Vec::new(), max_history_seconds: 0 };
        proof {
            assert(r.metrics() =~= Set::<Metric>::empty());
        }
        r
    }

    fn insert_metric(&mut self, m: Metric)
        requires
            old(self).unique(),
        ensures
            final(self).unique(),
            final(self).metrics() == old(self).metrics().insert(m),
            final(self).window() == old(self).window(),
    {
        let mut i: usize = 0;
        while i < self.required_metrics.len()
            invariant
                *self == *old(self),
                old(self).unique(),
                i <= self.required_metrics@.len(),
                forall|j: int| 0 <= j < i ==> self.required_metrics@[j] != m,
            decreases self.required_metrics@.len() - i,
        {
            if self.required_metrics[i] == m {
                proof {
                    assert(self.metrics() =~= old(self).metrics().insert(m));
                }
                return;
            }
            i = i + 1;
        }
        self.required_metrics.push(m);
        proof {
            let o = old(self).required_metrics@;
            assert(self.required_metrics@ == o.push(m));
            assert forall|x: Metric| #[trigger] self.metrics().contains(x) == old(self).metrics().insert(m).contains(x) by {
                if x == m {
                    assert(self.required_metrics@[o.len() as int] == m);
                } else if o.contains(x) {
                    let j = choose|j: int| 0 <= j < o.len() && o[j] == x;
                    assert(self.required_metrics@[j] == x);
                }
            }
            assert(self.metrics() =~= old(self).metrics().insert(m));
        }
    }

    fn note_window(&mut self, seconds: u64)
        ensures
            final(self).window() == max_nat(old(self).window(), seconds as nat),
            final(self).metrics() == old(self).metrics(),
            final(self).unique() == old(self).unique(),
    {
        if seconds > self.max_history_seconds {
            self.max_history_seconds = seconds;
        }
    }

    fn extract_metrics_from_expr(&mut self, expr: &Expression)
        requires
            old(self).unique(),
        ensures
            final(self).unique(),
            final(self).metrics() == old(self).metrics().union(expr_metrics(*expr)),
            final(self).window() == max_nat(old(self).window(), expr_window(*expr)),
        decreases expr,
    {
        match expr {
            Expression::Metric(m) => {
                self.insert_metric(m.metric);
                proof {
                    assert(old(self).metrics().insert(m.metric) =~= old(self).metrics().union(set![m.metric]));
                }
            },
            Expression::Function(f) => {
                let mut i: usize = 0;
                while i < f.args.len()
                    invariant
                        self.unique(),
                        i <= f.args@.len(),
                        *expr is Function,
                        (*expr)->Function_0 == *f,
                        self.metrics() == old(self).metrics().union(args_metrics(f.args@.subrange(0, i as int))),
                        self.window() == max_nat(old(self).window(), args_window(f.args@.subrange(0, i as int))),
                    decreases f.args@.len() - i,
                {
                    proof {
                        assert(decreases_to!(*expr => (*expr)->Function_0));
                        assert(decreases_to!(*f => f.args));
                        assert(decreases_to!(f.args => f.args@));
                        assert(decreases_to!(f.args@ => f.args@[i as int]));
                        let s = f.args@.subrange(0, i + 1);
                        assert(s.subrange(0, s.len() - 1) =~= f.args@.subrange(0, i as int));
                        assert(s[s.len() - 1] == f.args@[i as int]);
                    }
                    self.extract_metrics_from_expr(&f.args[i]);
                    proof {
                        assert(self.metrics() =~= old(self).metrics().union(args_metrics(f.args@.subrange(0, i + 1))));
                    }
                    i = i + 1;
                }
                proof {
                    assert(f.args@.subrange(0, f.args@.len() as int) =~= f.args@);
                }
                match f.period_seconds {
                    Some(p) => self.note_window(p),
                    None => {},
                }
            },
            Expression::Binary(b) => {
                self.extract_metrics_from_expr(&b.left);
                self.extract_metrics_from_expr(&b.right);
                proof {
                    assert(self.metrics() =~= old(self).metrics().union(expr_metrics(*expr)));
                }
            },
            _ => {
                proof {
                    assert(self.metrics() =~= old(self).metrics().union(expr_metrics(*expr)));
                }
            },
        }
    }

    fn extract_metrics_from_condition(&mut self, condition: &Condition)
        requires
            old(self).unique(),
        ensures
            final(self).unique(),
            final(self).metrics() == old(self).metrics().union(cond_metrics(*condition)),
            final(self).window() == max_nat(old(self).window(), cond_window(*condition)),
        decreases condition,
    {
        match condition {
            Condition::Comparison(cmp) => {
                self.extract_metrics_from_expr(&cmp.left);
                self.extract_metrics_from_expr(&cmp.right);
                proof {
                    assert(self.metrics() =~= old(self).metrics().union(cond_metrics(*condition)));
                }
            },
            Condition::Logical(l) => {
                let mut i: usize = 0;
                while i < l.conditions.len()
                    invariant
                        self.unique(),
                        i <= l.conditions@.len(),
                        *condition is Logical,
                        (*condition)->Logical_0 == *l,
                        self.metrics() == old(self).metrics().union(conds_metrics(l.conditions@.subrange(0, i as int))),
                        self.window() == max_nat(old(self).window(), conds_window(l.conditions@.subrange(0, i as int))),
                    decreases l.conditions@.len() - i,
                {
                    proof {
                        assert(decreases_to!(*condition => (*condition)->Logical_0));
                        assert(decreases_to!(*l => l.conditions));
                        assert(decreases_to!(l.conditions => l.conditions@));
                        assert(decreases_to!(l.conditions@ => l.conditions@[i as int]));
                        let s = l.conditions@.subrange(0, i + 1);
                        assert(s.subrange(0, s.len() - 1) =~= l.conditions@.subrange(0, i as int));
                        assert(s[s.len() - 1] == l.conditions@[i as int]);
                    }
                    self.extract_metrics_from_condition(&l.conditions[i]);
                    proof {
                        assert(self.metrics() =~= old(self).metrics().union(conds_metrics(l.conditions@.subrange(0, i + 1))));
                    }
                    i = i + 1;
                }
                proof {
                    assert(l.conditions@.subrange(0, l.conditions@.len() as int) =~= l.conditions@);
                }
            },
            Condition::Trend(t) => {
                self.insert_metric(t.metric);
                self.note_window(3600);
                proof {
                    assert(old(self).metrics().insert(t.metric) =~= old(self).metrics().union(set![t.metric]));
                }
            },
            Condition::Anomaly(a) => {
                self.insert_metric(a.metric);
                self.note_window(a.period_seconds);
                proof {
                    assert(old(self).metrics().insert(a.metric) =~= old(self).metrics().union(set![a.metric]));
                }
            },
            Condition::TimeWindow(_) => {
                proof {
                    assert(self.metrics() =~= old(self).metrics().union(cond_metrics(*condition)));
                }
            },
        }
    }
}


/// The digest std's `DefaultHasher` gives a program's version and shape.
pub uninterp spec fn digest_of(version: Seq<char>, variables: nat, rules: nat) -> u64;

/// Relies on std's DefaultHasher (created with `new`, hence with fixed
/// keys): the digest of the version and the two counts.
#[verifier::external_body]
fn shape_digest(version: &str, variables: usize, rules: usize) -> (r: u64)
    ensures
        r == digest_of(version@, variables as nat, rules as nat),
{
    let mut hasher = std::collections::hash_map::DefaultHasher::new();
    version.hash(&mut hasher);
    variables.hash(&mut hasher);
    rules.hash(&mut hasher);
    hasher.finish()
}

/// A copy of an optional string.
fn copy_name(n: &Option<String>) -> (r: Option<String>)
    ensures
        r == *n,
{
    match n {
        Some(s) => Some(s.clone()),
        None => None,
    }
}

fn normalize_value(value: &Value) -> (r: Decimal)
    ensures
        r == normalized(*value),
{
    match value {
        Value::Number(n) => *n,
        Value::Percent(p) => Decimal {
            mantissa: p.mantissa,
            scale: if p.scale <= u32::MAX - 2 { p.scale + 2 } else { u32::MAX },
        },
        Value::Power { watts } => *watts,
        Value::Energy { watt_hours } => *watt_hours,
        Value::Duration { seconds } => Decimal { mantissa: *seconds as i128, scale: 0 },
        Value::Time { hour, minute } => Decimal {
            mantissa: *hour as i128 * 60 + *minute as i128,
            scale: 0,
        },
        Value::TimeRange { start, end } => Decimal {
            mantissa: (end.hour as i128 * 60 + end.minute as i128) - (start.hour as i128 * 60
                + start.minute as i128),
            scale: 0,
        },
        Value::String(_) => Decimal { mantissa: 0, scale: 0 },
    }
}

fn compile_variable(var: &Variable) -> (r: CompiledVariable)
    ensures
        r.name@ == var.name@,
        r.value == normalized(var.value),
        r.original == var.value,
{
    CompiledVariable {
        name: var.name.clone(),
        value: normalize_value(&var.value),
        original: copy_value(&var.value),
    }
}

fn extract_vars_from_expr(expr: &Expression, vars: &mut Vec<String>)
    ensures
        string_views(final(vars)@) == string_views(old(vars)@) + expr_names(*expr),
    decreases expr,
{
    match expr {
        Expression::Variable(v) => {
            vars.push(v.name.clone());
        },
        Expression::Metric(m) => {
            vars.push(m.metric.as_str().to_string());
        },
        Expression::Binary(b) => {
            extract_vars_from_expr(&b.left, vars);
            extract_vars_from_expr(&b.right, vars);
        },
        Expression::Function(f) => {
            let mut i: usize = 0;
            while i < f.args.len()
                invariant
                    i <= f.args@.len(),
                    *expr is Function,
                    (*expr)->Function_0 == *f,
                    string_views(vars@) == string_views(old(vars)@) + args_names(f.args@.subrange(0, i as int)),
                decreases f.args@.len() - i,
            {
                proof {
                    assert(decreases_to!(*expr => (*expr)->Function_0));
                    assert(decreases_to!(*f => f.args));
                    assert(decreases_to!(f.args => f.args@));
                    assert(decreases_to!(f.args@ => f.args@[i as int]));
                    let s = f.args@.subrange(0, i + 1);
                    assert(s.subrange(0, s.len() - 1) =~= f.args@.subrange(0, i as int));
                    assert(s[s.len() - 1] == f.args@[i as int]);
                }
                extract_vars_from_expr(&f.args[i], vars);
                i = i + 1;
            }
            proof {
                assert(f.args@.subrange(0, f.args@.len() as int) =~= f.args@);
            }
        },
        Expression::Literal(_) => {},
    }
    proof {
        assert(string_views(final(vars)@) =~= string_views(old(vars)@) + expr_names(*expr));
    }
}

/// Names mentioned by a template's expressions, for dependency reports.
fn extract_template_vars(template: &TemplateString) -> (r: Vec<String>)
    ensures
        string_views(r@) == template_names(template.parts@),
{
    let mut vars: Vec<String> = Vec::new();
    let mut i: usize = 0;
    while i < template.parts.len()
        invariant
            i <= template.parts@.len(),
            string_views(vars@) == template_names(template.parts@.take(i as int)),
        decreases template.parts@.len() - i,
    {
        proof {
            let s = template.parts@.take(i + 1);
            assert(s.drop_last() =~= template.parts@.take(i as int));
        }
        match &template.parts[i] {
            TemplatePart::Expression { expr } => {
                extract_vars_from_expr(expr, &mut vars);
            },
            TemplatePart::Text { .. } => {
                proof {
                    assert(string_views(vars@) =~= string_views(vars@) + Seq::<Seq<char>>::empty());
                }
            },
        }
        i = i + 1;
    }
    proof {
        assert(template.parts@.take(template.parts@.len() as int) =~= template.parts@);
    }
    vars
}

fn compile_action(action: &Action) -> (r: CompiledAction)
    ensures
        r.action_type@ == action_type_spec(*action),
        string_views(r.template_vars@) == action_names(*action),
{
    match action {
        Action::Notify(notify) => CompiledAction {
            action_type: "notify".to_string(),
            config: action.clone(),
            template_vars: extract_template_vars(&notify.message),
        },
        Action::Webhook(webhook) => {
            let template_vars = match &webhook.body {
                Some(b) => extract_template_vars(b),
                None => {
                    let v: Vec<String> = Vec::new();
                    proof {
                        assert(string_views(v@) =~= Seq::<Seq<char>>::empty());
                    }
                    v
                },
            };
            CompiledAction { action_type: "webhook".to_string(), config: action.clone(), template_vars }
        },
        Action::Log(log) => CompiledAction {
            action_type: "log".to_string(),
            config: action.clone(),
            template_vars: extract_template_vars(&log.message),
        },
        Action::SetVariable(_) => {
            let v: Vec<String> = Vec::new();
            proof {
                assert(string_views(v@) =~= Seq::<Seq<char>>::empty());
            }
            CompiledAction { action_type: "set_variable".to_string(), config: action.clone(), template_vars: v }
        },
    }
}

fn compile_actions(actions: &Vec<Action>) -> (r: Vec<CompiledAction>)
    ensures
        r@.len() == actions@.len(),
        forall|i: int| 0 <= i < actions@.len() ==> (#[trigger] r@[i]).action_type@ == action_type_spec(actions@[i])
            && string_views(r@[i].template_vars@) == action_names(actions@[i]),
{
    let mut out: Vec<CompiledAction> = Vec::new();
    let mut i: usize = 0;
    while i < actions.len()
        invariant
            i <= actions@.len(),
            out@.len() == i,
            forall|j: int| 0 <= j < i ==> (#[trigger] out@[j]).action_type@ == action_type_spec(actions@[j])
                && string_views(out@[j].template_vars@) == action_names(actions@[j]),
        decreases actions@.len() - i,
    {
        out.push(compile_action(&actions[i]));
        i = i + 1;
    }
    out
}

/// What a compiled rule keeps of its source rule.
pub open spec fn compiled_rule_matches(c: CompiledRule, r: Rule) -> bool {
    match r {
        Rule::Event(e) => {
            &&& c.id@ == e.id@
            &&& c.name == e.name
            &&& c.enabled == e.enabled
            &&& c.cooldown_seconds == e.cooldown_seconds
            &&& c.rule_type is Event
            &&& c.actions@.len() == e.actions@.len()
            &&& forall|i: int| 0 <= i < e.actions@.len() ==> (#[trigger] c.actions@[i]).action_type@
                == action_type_spec(e.actions@[i]) && string_views(c.actions@[i].template_vars@)
                == action_names(e.actions@[i])
        },
        Rule::Schedule(s) => {
            &&& c.id@ == s.id@
            &&& c.name == s.name
            &&& c.enabled == s.enabled
            &&& c.cooldown_seconds is None
            &&& c.rule_type is Schedule
            &&& c.actions@.len() == s.actions@.len()
            &&& forall|i: int| 0 <= i < s.actions@.len() ==> (#[trigger] c.actions@[i]).action_type@
                == action_type_spec(s.actions@[i]) && string_views(c.actions@[i].template_vars@)
                == action_names(s.actions@[i])
        },
    }
}

impl Compiler {
    fn compile_event_rule(&mut self, rule: &EventRule) -> (r: CompiledRule)
        requires
            old(self).unique(),
        ensures
            final(self).unique(),
            final(self).metrics() == old(self).metrics().union(cond_metrics(rule.condition)),
            final(self).window() == max_nat(old(self).window(), cond_window(rule.condition)),
            compiled_rule_matches(r, Rule::Event(*rule)),
    {
        self.extract_metrics_from_condition(&rule.condition);
        let actions = compile_actions(&rule.actions);
        CompiledRule {
            id: rule.id.clone(),
            name: copy_name(&rule.name),
            rule_type: CompiledRuleType::Event { condition: copy_condition(&rule.condition) },
            enabled: rule.enabled,
            actions,
            cooldown_seconds: rule.cooldown_seconds,
        }
    }

    fn compile_schedule_rule(&mut self, rule: &ScheduleRule) -> (r: CompiledRule)
        ensures
            *final(self) == *old(self),
            compiled_rule_matches(r, Rule::Schedule(*rule)),
    {
        let actions = compile_actions(&rule.actions);
        CompiledRule {
            id: rule.id.clone(),
            name: copy_name(&rule.name),
            rule_type: CompiledRuleType::Schedule { schedule: rule.schedule.clone() },
            enabled: rule.enabled,
            actions,
            cooldown_seconds: None,
        }
    }

    fn compile_rule(&mut self, rule: &Rule) -> (r: CompiledRule)
        requires
            old(self).unique(),
        ensures
            final(self).unique(),
            final(self).metrics() == old(self).metrics().union(rule_metrics(*rule)),
            final(self).window() == max_nat(old(self).window(), rule_window(*rule)),
            compiled_rule_matches(r, *rule),
    {
        match rule {
            Rule::Event(event) => self.compile_event_rule(event),
            Rule::Schedule(schedule) => {
                let r = self.compile_schedule_rule(schedule);
                proof {
                    assert(self.metrics() =~= old(self).metrics().union(rule_metrics(*rule)));
                }
                r
            },
        }
    }

    /// Compiles a program, stamping it with Unix time `now_secs`.
    pub fn compile_at(&mut self, program: &Program, now_secs: u64) -> (r: Result<CompiledProgram, SELError>)
        ensures
            r is Ok,
            r matches Ok(c) ==> compiled_image(c, *program, now_secs),
    {
        self.required_metrics = Vec::new();
        self.max_history_seconds = 0;
        proof {
            assert(self.metrics() =~= Set::<Metric>::empty());
        }
        let mut variables: Vec<CompiledVariable> = Vec::new();
        let mut i: usize = 0;
        while i < program.variables.len()
            invariant
                i <= program.variables@.len(),
                variables@.len() == i,
                forall|j: int| 0 <= j < i ==> (#[trigger] variables@[j]).name@ == program.variables@[j].name@
                    && variables@[j].value == normalized(program.variables@[j].value)
                    && variables@[j].original == program.variables@[j].value,
            decreases program.variables@.len() - i,
        {
            variables.push(compile_variable(&program.variables[i]));
            i = i + 1;
        }
        let mut rules: Vec<CompiledRule> = Vec::new();
        let mut k: usize = 0;
        while k < program.rules.len()
            invariant
                k <= program.rules@.len(),
                rules@.len() == k,
                self.unique(),
                self.metrics() == rules_metrics(program.rules@.take(k as int)),
                self.window() == rules_window(program.rules@.take(k as int)),
                forall|j: int| 0 <= j < k ==> compiled_rule_matches(#[trigger] rules@[j], program.rules@[j]),
            decreases program.rules@.len() - k,
        {
            proof {
                let s = program.rules@.take(k + 1);
                assert(s.drop_last() =~= program.rules@.take(k as int));
            }
            rules.push(self.compile_rule(&program.rules[k]));
            k = k + 1;
        }
        proof {
            assert(program.rules@.take(program.rules@.len() as int) =~= program.rules@);
        }
        let requires_history = self.max_history_seconds > 0;
        let mut required: Vec<Metric> = Vec::new();
        std::mem::swap(&mut required, &mut self.required_metrics);
        Ok(CompiledProgram {
            version: program.version.clone(),
            compiled_at: u64_to_string(now_secs),
            checksum: crate::service::hex_id(shape_digest(program.version.as_str(), program.variables.len(), program.rules.len()) as u128),
            variables,
            rules,
            required_metrics: required,
            requires_history,
            max_history_seconds: if requires_history { Some(self.max_history_seconds) } else { None },
        })
    }

    /// Compiles a program, stamping it with the current Unix time.
    pub fn compile(&mut self, program: &Program) -> (r: Result<CompiledProgram, SELError>)
        ensures
            r is Ok,
            r matches Ok(c) ==> exists|t: u64| compiled_image(c, *program, t),
    {
        let now = crate::scheduler::unix_now();
        self.compile_at(program, now)
    }
}

/// The image of `p` compiled at Unix time `now`: every metric its
/// conditions read, each once; the longest history window it needs; its
/// variables normalised and its rules flattened, in order.
pub open spec fn compiled_image(c: CompiledProgram, p: Program, now: u64) -> bool {
    &&& c.version@ == p.version@
    &&& c.compiled_at@ == digits_of(now as nat)
    &&& c.checksum@ == crate::service::hex_digits(digest_of(p.version@, p.variables@.len(), p.rules@.len()) as nat)
    &&& c.required_metrics@.to_set() == rules_metrics(p.rules@)
    &&& c.required_metrics@.no_duplicates()
    &&& c.requires_history == (rules_window(p.rules@) > 0)
    &&& c.max_history_seconds == if rules_window(p.rules@) > 0 {
        Some(rules_window(p.rules@) as u64)
    } else {
        None::<u64>
    }
    &&& c.variables@.len() == p.variables@.len()
    &&& forall|j: int| 0 <= j < p.variables@.len() ==> (#[trigger] c.variables@[j]).name@
        == p.variables@[j].name@ && c.variables@[j].value == normalized(p.variables@[j].value)
        && c.variables@[j].original == p.variables@[j].value
    &&& c.rules@.len() == p.rules@.len()
    &&& forall|j: int| 0 <= j < p.rules@.len() ==> compiled_rule_matches(#[trigger] c.rules@[j], p.rules@[j])
}

impl Compiler {
    /// The JSON image of a program, compiled now.
    pub fn to_json(&self, program: &Program) -> (r: Result<String, SELError>)
        ensures
            r matches Ok(s) ==> exists|c: CompiledProgram, t: u64| compiled_image(c, *program, t)
                && s@ == json_program(c),
            r is Ok,
    {
        let mut compiler = Compiler::new();
        match compiler.compile(program) {
            Ok(compiled) => Ok(program_json(&compiled)),
            Err(e) => Err(e),
        }
    }
}

impl Default for Compiler {
    fn default() -> (r: Self)
        ensures
            r.metrics() == Set::<Metric>::empty(),
            r.unique(),
            r.window() == 0,
    {
        Self::new()
    }
}

/// Whether an expression holds an aggregate call with an explicit period.
pub open spec fn expr_has_period(e: Expression) -> bool
    decreases e,
{
    match e {
        Expression::Function(f) => f.period_seconds is Some || args_have_period(f.args@),
        Expression::Binary(b) => expr_has_period(*b.left) || expr_has_period(*b.right),
        _ => false,
    }
}

pub open spec fn args_have_period(args: Seq<Expression>) -> bool
    decreases args,
{
    if args.len() == 0 {
        false
    } else {
        args_have_period(args.subrange(0, args.len() - 1)) || expr_has_period(args[args.len() - 1])
    }
}

/// Whether every explicit aggregate period in an expression is positive.
pub open spec fn expr_periods_positive(e: Expression) -> bool
    decreases e,
{
    match e {
        Expression::Function(f) => (f.period_seconds matches Some(p) ==> p > 0)
            && args_periods_positive(f.args@),
        Expression::Binary(b) => expr_periods_positive(*b.left) && expr_periods_positive(*b.right),
        _ => true,
    }
}

pub open spec fn args_periods_positive(args: Seq<Expression>) -> bool
    decreases args,
{
    if args.len() == 0 {
        true
    } else {
        args_periods_positive(args.subrange(0, args.len() - 1)) && expr_periods_positive(
            args[args.len() - 1],
        )
    }
}

/// Whether a condition holds a trend, an anomaly, or an aggregate with an
/// explicit period.
pub open spec fn cond_needs_history(c: Condition) -> bool
    decreases c,
{
    match c {
        Condition::Comparison(cmp) => expr_has_period(cmp.left) || expr_has_period(cmp.right),
        Condition::Logical(l) => conds_need_history(l.conditions@),
        Condition::Trend(_) => true,
        Condition::Anomaly(_) => true,
        Condition::TimeWindow(_) => false,
    }
}

pub open spec fn conds_need_history(cs: Seq<Condition>) -> bool
    decreases cs,
{
    if cs.len() == 0 {
        false
    } else {
        conds_need_history(cs.subrange(0, cs.len() - 1)) || cond_needs_history(cs[cs.len() - 1])
    }
}

/// Whether every aggregate and anomaly period in a condition is positive.
pub open spec fn cond_periods_positive(c: Condition) -> bool
    decreases c,
{
    match c {
        Condition::Comparison(cmp) => expr_periods_positive(cmp.left) && expr_periods_positive(
            cmp.right,
        ),
        Condition::Logical(l) => conds_periods_positive(l.conditions@),
        Condition::Anomaly(a) => a.period_seconds > 0,
        _ => true,
    }
}

pub open spec fn conds_periods_positive(cs: Seq<Condition>) -> bool
    decreases cs,
{
    if cs.len() == 0 {
        true
    } else {
        conds_periods_positive(cs.subrange(0, cs.len() - 1)) && cond_periods_positive(
            cs[cs.len() - 1],
        )
    }
}

pub open spec fn rule_needs_history(r: Rule) -> bool {
    match r {
        Rule::Event(e) => cond_needs_history(e.condition),
        Rule::Schedule(_) => false,
    }
}

pub open spec fn rule_periods_positive(r: Rule) -> bool {
    match r {
        Rule::Event(e) => cond_periods_positive(e.condition),
        Rule::Schedule(_) => true,
    }
}

/// Whether some rule of a program holds a trend condition, an anomaly
/// condition, or an aggregate with an explicit period.
pub open spec fn rules_need_history(rs: Seq<Rule>) -> bool
    decreases rs.len(),
{
    if rs.len() == 0 {
        false
    } else {
        rules_need_history(rs.drop_last()) || rule_needs_history(rs.last())
    }
}

/// Whether every aggregate and anomaly period in a program is positive.
pub open spec fn rules_periods_positive(rs: Seq<Rule>) -> bool
    decreases rs.len(),
{
    if rs.len() == 0 {
        true
    } else {
        rules_periods_positive(rs.drop_last()) && rule_periods_positive(rs.last())
    }
}

proof fn lemma_expr_window(e: Expression)
    requires
        expr_periods_positive(e),
    ensures
        expr_window(e) > 0 <==> expr_has_period(e),
    decreases e,
{
    match e {
        Expression::Function(f) => {
            assert(decreases_to!(e => e->Function_0));
            assert(decreases_to!(f => f.args));
            assert(decreases_to!(f.args => f.args@));
            lemma_args_window(f.args@);
        },
        Expression::Binary(b) => {
            lemma_expr_window(*b.left);
            lemma_expr_window(*b.right);
        },
        _ => {},
    }
}

proof fn lemma_args_window(args: Seq<Expression>)
    requires
        args_periods_positive(args),
    ensures
        args_window(args) > 0 <==> args_have_period(args),
    decreases args,
{
    if args.len() > 0 {
        lemma_args_window(args.subrange(0, args.len() - 1));
        lemma_expr_window(args[args.len() - 1]);
    }
}

proof fn lemma_cond_window(c: Condition)
    requires
        cond_periods_positive(c),
    ensures
        cond_window(c) > 0 <==> cond_needs_history(c),
    decreases c,
{
    match c {
        Condition::Comparison(cmp) => {
            lemma_expr_window(cmp.left);
            lemma_expr_window(cmp.right);
        },
        Condition::Logical(l) => {
            assert(decreases_to!(c => c->Logical_0));
            assert(decreases_to!(l => l.conditions));
            assert(decreases_to!(l.conditions => l.conditions@));
            lemma_conds_window(l.conditions@);
        },
        _ => {},
    }
}

proof fn lemma_conds_window(cs: Seq<Condition>)
    requires
        conds_periods_positive(cs),
    ensures
        conds_window(cs) > 0 <==> conds_need_history(cs),
    decreases cs,
{
    if cs.len() > 0 {
        lemma_conds_window(cs.subrange(0, cs.len() - 1));
        lemma_cond_window(cs[cs.len() - 1]);
    }
}

proof fn lemma_rules_window(rs: Seq<Rule>)
    requires
        rules_periods_positive(rs),
    ensures
        rules_window(rs) > 0 <==> rules_need_history(rs),
    decreases rs.len(),
{
    if rs.len() > 0 {
        lemma_rules_window(rs.drop_last());
        match rs.last() {
            Rule::Event(e) => lemma_cond_window(e.condition),
            Rule::Schedule(_) => {},
        }
    }
}

/// A compiled program requires history exactly when one of its rules holds
/// a trend condition, an anomaly condition, or an aggregate with an explicit
/// period, provided every such period is positive.
pub proof fn lemma_requires_history(p: Program, c: CompiledProgram, t: u64)
    requires
        compiled_image(c, p, t),
        rules_periods_positive(p.rules@),
    ensures
        c.requires_history <==> rules_need_history(p.rules@),
{
    lemma_rules_window(p.rules@);
}

} // verus!
